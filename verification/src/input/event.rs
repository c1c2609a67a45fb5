//! Keys the reader listens to, and what the key listener does with them.
use vstd::prelude::*;

verus! {

/// What a key asks the reader to do.
#[derive(Debug, PartialEq, Eq, Structural, Copy, Clone)]
pub enum KeyEvent {
    /// `n` or down arrow: next page.
    NextPage,
    /// `p` or up arrow: previous page.
    PreviousPage,
    /// `a`: turn pages automatically.
    AutoRead,
    /// `s`: stop turning pages automatically.
    StopAuto,
    /// `Esc` or `e`: quit.
    ESC,
    /// Any other key or terminal event.
    Other,
}

/// A key pressed on the terminal, as far as the reader tells keys apart.
#[derive(Debug, PartialEq, Eq, Structural, Copy, Clone)]
pub enum KeyPress {
    /// A character key.
    Char(char),
    /// The up arrow.
    Up,
    /// The down arrow.
    Down,
    /// The escape key.
    Esc,
    /// Any other key.
    Other,
}

/// The reader's meaning of a terminal event: a key press, or `None` for
/// any other event and for a failed read.
pub open spec fn key_event_spec(press: Option<KeyPress>) -> KeyEvent {
    match press {
        Some(KeyPress::Char('n')) | Some(KeyPress::Down) => KeyEvent::NextPage,
        Some(KeyPress::Char('p')) | Some(KeyPress::Up) => KeyEvent::PreviousPage,
        Some(KeyPress::Char('a')) => KeyEvent::AutoRead,
        Some(KeyPress::Char('s')) => KeyEvent::StopAuto,
        Some(KeyPress::Esc) | Some(KeyPress::Char('e')) => KeyEvent::ESC,
        _ => KeyEvent::Other,
    }
}

/// Turns a terminal event into the reader's key event: `n` and down arrow
/// for the next page, `p` and up arrow for the previous one, `a` to turn
/// pages automatically, `s` to stop, `Esc` and `e` to quit, and `Other`
/// for anything else (`None` stands for an event that is not a key press).
pub fn get_key_event(press: Option<KeyPress>) -> (k: KeyEvent)
    ensures
        k == key_event_spec(press),
{
    match press {
        Some(KeyPress::Char(c)) => {
            if c == 'n' {
                KeyEvent::NextPage
            } else if c == 'p' {
                KeyEvent::PreviousPage
            } else if c == 'a' {
                KeyEvent::AutoRead
            } else if c == 's' {
                KeyEvent::StopAuto
            } else if c == 'e' {
                KeyEvent::ESC
            } else {
                KeyEvent::Other
            }
        },
        Some(KeyPress::Down) => KeyEvent::NextPage,
        Some(KeyPress::Up) => KeyEvent::PreviousPage,
        Some(KeyPress::Esc) => KeyEvent::ESC,
        _ => KeyEvent::Other,
    }
}

/// What the key listener does with a key.
#[derive(Debug, PartialEq, Eq, Structural, Copy, Clone)]
pub enum ListenerAction {
    /// Hand the key to the display and listen on.
    Send,
    /// Hand the key to the display and stop listening.
    SendAndStop,
    /// Stop listening without handing the key on.
    Stop,
}

pub open spec fn listener_action_spec(key: KeyEvent, display_finished: bool) -> ListenerAction {
    if display_finished {
        ListenerAction::Stop
    } else if key == KeyEvent::ESC {
        ListenerAction::SendAndStop
    } else {
        ListenerAction::Send
    }
}

/// One round of the key listener: once the display has finished the
/// listener stops; otherwise it hands the key on, and stops after `Esc`.
pub fn listener_step(key: KeyEvent, display_finished: bool) -> (a: ListenerAction)
    ensures
        a == listener_action_spec(key, display_finished),
{
    if display_finished {
        ListenerAction::Stop
    } else if key == KeyEvent::ESC {
        ListenerAction::SendAndStop
    } else {
        ListenerAction::Send
    }
}

/// Which key does what: only `n` and the down arrow turn to the next page,
/// only `p` and the up arrow to the previous one, only `a` and `s` switch
/// automatic reading on and off, only `Esc` and `e` quit, and every other
/// key, and every event that is not a key press, does nothing.
pub proof fn law_key_bindings(press: Option<KeyPress>, c: char)
    ensures
        (key_event_spec(press) == KeyEvent::NextPage) <==> (press == Some(KeyPress::Char('n'))
            || press == Some(KeyPress::Down)),
        (key_event_spec(press) == KeyEvent::PreviousPage) <==> (press == Some(KeyPress::Char('p'))
            || press == Some(KeyPress::Up)),
        (key_event_spec(press) == KeyEvent::AutoRead) <==> press == Some(KeyPress::Char('a')),
        (key_event_spec(press) == KeyEvent::StopAuto) <==> press == Some(KeyPress::Char('s')),
        (key_event_spec(press) == KeyEvent::ESC) <==> (press == Some(KeyPress::Esc) || press
            == Some(KeyPress::Char('e'))),
        (c != 'n' && c != 'p' && c != 'a' && c != 's' && c != 'e') ==> key_event_spec(
            Some(KeyPress::Char(c)),
        ) == KeyEvent::Other,
        key_event_spec(None) == KeyEvent::Other,
        key_event_spec(Some(KeyPress::Other)) == KeyEvent::Other,
{
}

/// The listener hands every key to the running display and stops only
/// after `Esc`; once the display has finished it stops without handing
/// anything on.
pub proof fn law_listener_stops_only_on_escape(key: KeyEvent)
    ensures
        key != KeyEvent::ESC ==> listener_action_spec(key, false) == ListenerAction::Send,
        listener_action_spec(KeyEvent::ESC, false) == ListenerAction::SendAndStop,
        listener_action_spec(key, true) == ListenerAction::Stop,
{
}

} // verus!
