use read::display::terminal_display::{auto_advance, handle_key, Flow};
use read::file_read::FileRead;
use read::input::event::KeyEvent;

fn lines(n: usize) -> Vec<String> {
    (1..=n).map(|i| format!("line {}", i)).collect()
}

fn page(fr: &FileRead) -> Vec<String> {
    fr.get_current_page().clone()
}

#[test]
fn new_shows_first_page() {
    let fr = FileRead::new(&1, &"a.txt".to_string(), &2, lines(5));
    assert_eq!(page(&fr), vec!["line 1", "line 2"]);
    assert_eq!(fr.get_current_no(), 2);
    assert!(!fr.is_end());
    assert_eq!(fr.get_tip(), "");
}

#[test]
fn new_from_later_start_line() {
    let fr = FileRead::new(&4, &"a.txt".to_string(), &3, lines(5));
    assert_eq!(page(&fr), vec!["line 4", "line 5"]);
    assert_eq!(fr.get_current_no(), 5);
}

#[test]
fn new_past_end_of_file_has_empty_page() {
    let mut fr = FileRead::new(&9, &"a.txt".to_string(), &2, lines(5));
    assert!(page(&fr).is_empty());
    assert_eq!(fr.get_current_no(), 9);
    fr.next_page(&2);
    assert!(fr.is_end());
}

#[test]
fn new_with_zero_lines_per_page() {
    let fr = FileRead::new(&2, &"a.txt".to_string(), &0, lines(5));
    assert!(page(&fr).is_empty());
    assert_eq!(fr.get_current_no(), 2);
}

#[test]
fn next_page_walks_to_the_end() {
    let mut fr = FileRead::new(&1, &"a.txt".to_string(), &2, lines(5));
    fr.next_page(&2);
    assert_eq!(page(&fr), vec!["line 3", "line 4"]);
    assert_eq!(fr.get_current_no(), 4);
    fr.next_page(&2);
    assert_eq!(page(&fr), vec!["line 5"]);
    assert_eq!(fr.get_current_no(), 5);
    assert!(!fr.is_end());
    fr.next_page(&2);
    assert!(fr.is_end());
    assert_eq!(page(&fr), vec!["line 5"]);
    assert_eq!(fr.get_tip(), "当前文档已到结尾, end......");
}

#[test]
fn next_page_clears_the_tip() {
    let mut fr = FileRead::new(&1, &"a.txt".to_string(), &2, lines(6));
    fr.pre_page(&2);
    assert_eq!(fr.get_tip(), "当前文档已到第一页, start......");
    fr.next_page(&2);
    assert_eq!(fr.get_tip(), "");
}

#[test]
fn pre_page_on_first_page_keeps_page() {
    let mut fr = FileRead::new(&1, &"a.txt".to_string(), &2, lines(5));
    fr.pre_page(&2);
    assert_eq!(page(&fr), vec!["line 1", "line 2"]);
    assert_eq!(fr.get_current_no(), 2);
    assert_eq!(fr.get_tip(), "当前文档已到第一页, start......");
}

#[test]
fn pre_page_goes_back() {
    let mut fr = FileRead::new(&1, &"a.txt".to_string(), &2, lines(8));
    fr.next_page(&2);
    fr.next_page(&2);
    assert_eq!(page(&fr), vec!["line 5", "line 6"]);
    fr.pre_page(&2);
    assert_eq!(page(&fr), vec!["line 3", "line 4"]);
    assert_eq!(fr.get_current_no(), 4);
}

#[test]
fn pre_page_after_short_last_page_skips_nothing() {
    let mut fr = FileRead::new(&1, &"a.txt".to_string(), &3, lines(10));
    fr.next_page(&3);
    fr.next_page(&3);
    fr.next_page(&3);
    assert_eq!(page(&fr), vec!["line 10"]);
    assert_eq!(fr.get_current_no(), 10);
    fr.pre_page(&3);
    assert_eq!(page(&fr), vec!["line 7", "line 8", "line 9"]);
    assert_eq!(fr.get_current_no(), 9);
}

#[test]
fn pre_page_clamps_at_first_line() {
    let mut fr = FileRead::new(&2, &"a.txt".to_string(), &3, lines(6));
    assert_eq!(page(&fr), vec!["line 2", "line 3", "line 4"]);
    assert_eq!(fr.get_current_no(), 4);
    fr.pre_page(&3);
    assert_eq!(page(&fr), vec!["line 1"]);
    assert_eq!(fr.get_current_no(), 1);
    fr.pre_page(&3);
    assert_eq!(page(&fr), vec!["line 1"]);
    assert_eq!(fr.get_tip(), "当前文档已到第一页, start......");
}

#[test]
fn resume_line_is_first_line_of_page() {
    let mut fr = FileRead::new(&1, &"a.txt".to_string(), &3, lines(10));
    assert_eq!(fr.resume_line_no(), 1);
    fr.next_page(&3);
    assert_eq!(fr.resume_line_no(), 4);
    let empty = FileRead::new(&20, &"a.txt".to_string(), &3, lines(10));
    assert_eq!(empty.resume_line_no(), 21);
}

#[test]
fn paging_forward_reaches_end_within_bound() {
    for n in 1u16..=5 {
        for start in 1u64..=7 {
            let mut fr = FileRead::new(&start, &"a.txt".to_string(), &n, lines(7));
            let c = fr.get_current_no();
            let total = 7u64;
            let bound = (total - c + n as u64 - 1) / n as u64 + 1;
            let mut calls = 0;
            while !fr.is_end() {
                let before = fr.get_current_no();
                fr.next_page(&n);
                calls += 1;
                if !fr.is_end() {
                    assert!(fr.get_current_no() > before);
                }
            }
            assert!(calls <= bound);
        }
    }
}

#[test]
fn tip_is_cleared_by_next_page_inside_file() {
    let mut fr = FileRead::new(&1, &"a.txt".to_string(), &2, lines(5));
    assert_eq!(fr.get_tip(), "");
    fr.pre_page(&2);
    assert_ne!(fr.get_tip(), "");
    fr.next_page(&2);
    assert_eq!(fr.get_tip(), "");
}

#[test]
fn reading_from_first_line_shows_whole_file() {
    for n in 1u16..=6 {
        let all = lines(7);
        let mut fr = FileRead::new(&1, &"a.txt".to_string(), &n, all.clone());
        let mut shown = page(&fr);
        loop {
            fr.next_page(&n);
            if fr.is_end() {
                break;
            }
            shown.extend(page(&fr));
        }
        assert_eq!(shown, all);
    }
}

#[test]
fn pre_page_undoes_next_page() {
    let mut fr = FileRead::new(&3, &"a.txt".to_string(), &2, lines(9));
    let before = page(&fr);
    let no = fr.get_current_no();
    fr.next_page(&2);
    fr.pre_page(&2);
    assert_eq!(page(&fr), before);
    assert_eq!(fr.get_current_no(), no);
}

#[test]
fn end_is_final() {
    let mut fr = FileRead::new(&1, &"a.txt".to_string(), &5, lines(3));
    fr.next_page(&5);
    assert!(fr.is_end());
    fr.next_page(&5);
    assert!(fr.is_end());
    fr.pre_page(&5);
    assert!(fr.is_end());
}

#[test]
fn handle_key_turns_pages_and_switches_auto() {
    let mut fr = FileRead::new(&1, &"a.txt".to_string(), &1, lines(3));
    let mut auto = false;
    assert_eq!(handle_key(&mut fr, &mut auto, KeyEvent::NextPage, &1), Flow::Continue);
    assert_eq!(page(&fr), vec!["line 2"]);
    assert_eq!(handle_key(&mut fr, &mut auto, KeyEvent::PreviousPage, &1), Flow::Continue);
    assert_eq!(page(&fr), vec!["line 1"]);
    assert_eq!(handle_key(&mut fr, &mut auto, KeyEvent::AutoRead, &1), Flow::Continue);
    assert!(auto);
    assert_eq!(handle_key(&mut fr, &mut auto, KeyEvent::StopAuto, &1), Flow::Continue);
    assert!(!auto);
    assert_eq!(handle_key(&mut fr, &mut auto, KeyEvent::Other, &1), Flow::Continue);
    assert_eq!(page(&fr), vec!["line 1"]);
    assert_eq!(handle_key(&mut fr, &mut auto, KeyEvent::ESC, &1), Flow::Quit);
    assert_eq!(page(&fr), vec!["line 1"]);
}

#[test]
fn auto_advance_turns_only_when_auto() {
    let mut fr = FileRead::new(&1, &"a.txt".to_string(), &2, lines(5));
    auto_advance(&mut fr, false, &2);
    assert_eq!(page(&fr), vec!["line 1", "line 2"]);
    auto_advance(&mut fr, true, &2);
    assert_eq!(page(&fr), vec!["line 3", "line 4"]);
}
