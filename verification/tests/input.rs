use read::input::cli::{check_args, has_txt_extension, Cli, CliProblem};
use read::input::event::{get_key_event, listener_step, KeyEvent, KeyPress, ListenerAction};

fn cli(file: Option<&str>, num: Option<u16>, time: Option<u64>) -> Cli {
    Cli { file: file.map(|f| f.to_string()), start: None, num, auto: false, time }
}

#[test]
fn txt_extension() {
    assert!(has_txt_extension("a.txt"));
    assert!(has_txt_extension("/home/me/书.txt"));
    assert!(has_txt_extension("txt"));
    assert!(!has_txt_extension("a.md"));
    assert!(!has_txt_extension("a.txt.bak"));
    assert!(!has_txt_extension("a."));
    assert!(!has_txt_extension("a.TXT"));
    assert!(!has_txt_extension(""));
}

#[test]
fn check_args_in_order() {
    assert_eq!(check_args(&cli(Some("a.txt"), None, None)), None);
    assert_eq!(check_args(&cli(None, Some(2), Some(3))), None);
    assert_eq!(check_args(&cli(Some("a.md"), Some(0), Some(0))), Some(CliProblem::ZeroLines));
    assert_eq!(check_args(&cli(Some("a.md"), Some(1), Some(0))), Some(CliProblem::ZeroInterval));
    assert_eq!(check_args(&cli(Some("a.md"), None, None)), Some(CliProblem::NotTxt));
}

#[test]
fn problem_messages() {
    assert_eq!(CliProblem::ZeroLines.message(), "每页行数不能小于1");
    assert_eq!(CliProblem::ZeroInterval.message(), "自动阅读刷新时间不能小于1s");
    assert_eq!(CliProblem::NotTxt.message(), "非txt文件, 不可处理");
}

#[test]
fn keys_map_to_events() {
    assert_eq!(get_key_event(Some(KeyPress::Char('n'))), KeyEvent::NextPage);
    assert_eq!(get_key_event(Some(KeyPress::Down)), KeyEvent::NextPage);
    assert_eq!(get_key_event(Some(KeyPress::Char('p'))), KeyEvent::PreviousPage);
    assert_eq!(get_key_event(Some(KeyPress::Up)), KeyEvent::PreviousPage);
    assert_eq!(get_key_event(Some(KeyPress::Char('a'))), KeyEvent::AutoRead);
    assert_eq!(get_key_event(Some(KeyPress::Char('s'))), KeyEvent::StopAuto);
    assert_eq!(get_key_event(Some(KeyPress::Esc)), KeyEvent::ESC);
    assert_eq!(get_key_event(Some(KeyPress::Char('e'))), KeyEvent::ESC);
    assert_eq!(get_key_event(Some(KeyPress::Char('N'))), KeyEvent::Other);
    assert_eq!(get_key_event(Some(KeyPress::Other)), KeyEvent::Other);
    assert_eq!(get_key_event(None), KeyEvent::Other);
}

#[test]
fn listener_stops_after_escape_or_when_display_ends() {
    assert_eq!(listener_step(KeyEvent::NextPage, false), ListenerAction::Send);
    assert_eq!(listener_step(KeyEvent::ESC, false), ListenerAction::SendAndStop);
    assert_eq!(listener_step(KeyEvent::NextPage, true), ListenerAction::Stop);
    assert_eq!(listener_step(KeyEvent::ESC, true), ListenerAction::Stop);
}
