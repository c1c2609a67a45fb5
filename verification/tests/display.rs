use read::context::{detail_key, PageBuffer};
use read::display::terminal_display::{fix_index, layout_page, wrap_line, Flow};
use read::input::event::KeyEvent;

fn s(x: &str) -> String {
    x.to_string()
}

#[test]
fn fix_index_ascii() {
    assert_eq!(fix_index(&s("abcdef"), 2), 1);
    assert_eq!(fix_index(&s("abcdef"), 5), 5);
    assert_eq!(fix_index(&s("abcdef"), 9), 5);
}

#[test]
fn fix_index_does_not_cut_characters() {
    // "中文字": three characters of three bytes each
    assert_eq!(fix_index(&s("中文字"), 1), 2);
    assert_eq!(fix_index(&s("中文字"), 3), 2);
    assert_eq!(fix_index(&s("中文字"), 4), 5);
    assert_eq!(fix_index(&s("中文字"), 7), 8);
}

#[test]
fn wrap_ascii_line() {
    assert_eq!(wrap_line(&s("abcdef"), 2), vec!["ab", "cd", "ef", ""]);
    assert_eq!(wrap_line(&s("abcde"), 10), vec!["abcde"]);
}

#[test]
fn wrap_wide_line() {
    assert_eq!(wrap_line(&s("中文字"), 4), vec!["中文", "字", ""]);
    assert_eq!(wrap_line(&s("a中b"), 1), vec!["a", "中", "b", "", "", ""]);
}

#[test]
fn wrapped_rows_join_to_line() {
    for line in ["hello world", "中文字符串测试", "mixed 中 text 文", "x"] {
        for width in 1u16..8 {
            assert_eq!(wrap_line(&s(line), width).concat(), line);
        }
    }
}

#[test]
fn layout_skips_empty_lines() {
    let page = vec![s("abc"), s(""), s("de")];
    assert_eq!(layout_page(&page, 2), vec!["abc", "", "de", ""]);
    assert_eq!(layout_page(&page, 2).concat(), page.concat());
}

#[test]
fn page_buffer_gathers_pages() {
    let mut b = PageBuffer::new(1, 2);
    assert_eq!(b.push_line(0, s("a")), None);
    assert_eq!(b.push_line(1, s("b")), Some((1, vec![s("a"), s("b")])));
    assert_eq!(b.push_line(2, s("c")), None);
    assert_eq!(b.push_line(3, s("d")), Some((3, vec![s("c"), s("d")])));
}

#[test]
fn page_buffer_skips_lines_before_start() {
    let mut b = PageBuffer::new(3, 2);
    assert_eq!(b.push_line(0, s("a")), None);
    assert_eq!(b.push_line(1, s("b")), None);
    assert_eq!(b.push_line(2, s("c")), None);
    assert_eq!(b.push_line(3, s("d")), Some((3, vec![s("c"), s("d")])));
    assert_eq!(b.finish(), None);
}

#[test]
fn page_buffer_gathers_from_any_start_line() {
    let mut b = PageBuffer::new(2, 3);
    let file = ["a", "b", "c", "d", "e", "f", "g"];
    let mut pages = Vec::new();
    for (num, line) in file.iter().enumerate() {
        if let Some(p) = b.push_line(num, s(line)) {
            pages.push(p);
        }
    }
    if let Some(p) = b.finish() {
        pages.push(p);
    }
    assert_eq!(
        pages,
        vec![(2, vec![s("b"), s("c"), s("d")]), (5, vec![s("e"), s("f"), s("g")])]
    );
}

#[test]
fn page_buffer_hands_out_short_last_page() {
    let mut b = PageBuffer::new(1, 3);
    assert_eq!(b.push_line(0, s("a")), None);
    assert_eq!(b.push_line(1, s("b")), None);
    assert_eq!(b.push_line(2, s("c")), Some((1, vec![s("a"), s("b"), s("c")])));
    assert_eq!(b.push_line(3, s("d")), None);
    assert_eq!(b.finish(), Some((4, vec![s("d")])));
    assert_eq!(b.finish(), None);
}

#[test]
fn detail_key_switches_auto_and_quits() {
    let mut auto = false;
    assert_eq!(detail_key(&mut auto, KeyEvent::AutoRead), Flow::Continue);
    assert!(auto);
    assert_eq!(detail_key(&mut auto, KeyEvent::NextPage), Flow::Continue);
    assert!(auto);
    assert_eq!(detail_key(&mut auto, KeyEvent::StopAuto), Flow::Continue);
    assert!(!auto);
    assert_eq!(detail_key(&mut auto, KeyEvent::ESC), Flow::Quit);
}
