use read::config::config::Config;
use read::input::cli::Cli;

fn cli(file: Option<&str>, start: Option<u64>, num: Option<u16>, auto: bool, time: Option<u64>) -> Cli {
    Cli { file: file.map(|f| f.to_string()), start, num, auto, time }
}

fn record(path: &str, line: u64, num: u16, time: u64) -> Config {
    Config::from_record(cli(Some(path), None, Some(num), false, Some(time)), path.to_string(), line)
}

#[test]
fn new_file_gets_defaults() {
    let args = cli(Some("/a.txt"), None, None, true, None);
    let c = Config::new(&args, Some("/a.txt".to_string()), vec![record("/b.txt", 7, 3, 4)]);
    assert_eq!(c.get_file_path(), "/a.txt");
    assert_eq!(*c.get_current_no(), 1);
    assert_eq!(c.get_cli().num, Some(1));
    assert_eq!(c.get_cli().time, Some(2));
    assert!(c.get_cli().auto);
}

#[test]
fn new_file_with_start_line() {
    let args = cli(Some("/a.txt"), Some(12), Some(5), false, Some(9));
    let c = Config::new(&args, Some("/a.txt".to_string()), vec![]);
    assert_eq!(*c.get_current_no(), 12);
    assert_eq!(c.get_cli().num, Some(5));
    assert_eq!(c.get_cli().time, Some(9));
}

#[test]
fn stored_file_given_again_starts_at_line_one() {
    let args = cli(Some("/b.txt"), None, None, true, None);
    let c = Config::new(
        &args,
        Some("/b.txt".to_string()),
        vec![record("/a.txt", 2, 1, 2), record("/b.txt", 57, 3, 4)],
    );
    assert_eq!(c.get_file_path(), "/b.txt");
    assert_eq!(*c.get_current_no(), 1);
    assert_eq!(c.get_cli().num, Some(3));
    assert_eq!(c.get_cli().time, Some(4));
    assert!(c.get_cli().auto);
}

#[test]
fn stored_file_with_new_arguments() {
    let args = cli(Some("/b.txt"), Some(30), Some(6), false, Some(1));
    let c = Config::new(&args, Some("/b.txt".to_string()), vec![record("/b.txt", 7, 3, 4)]);
    assert_eq!(*c.get_current_no(), 30);
    assert_eq!(c.get_cli().num, Some(6));
    assert_eq!(c.get_cli().time, Some(1));
}

#[test]
fn no_file_takes_the_last_record() {
    let args = cli(None, None, None, false, None);
    let c = Config::new(&args, None, vec![record("/a.txt", 2, 1, 2), record("/b.txt", 7, 3, 4)]);
    assert_eq!(c.get_file_path(), "/b.txt");
    assert_eq!(*c.get_current_no(), 7);
}

#[test]
fn update_config_saves_all_records() {
    let args = cli(Some("/b.txt"), None, None, false, None);
    let mut c = Config::new(
        &args,
        Some("/b.txt".to_string()),
        vec![record("/a.txt", 2, 1, 2), record("/b.txt", 7, 3, 4), record("/c.txt", 5, 2, 2)],
    );
    let saved = c.update_config(40);
    assert_eq!(*c.get_current_no(), 40);
    let paths: Vec<&str> = saved.iter().map(|r| r.get_file_path()).collect();
    assert_eq!(paths, vec!["/a.txt", "/c.txt", "/b.txt"]);
    assert_eq!(*saved[2].get_current_no(), 40);
}

#[test]
fn saved_line_is_read_back() {
    let args = cli(Some("/b.txt"), None, None, false, None);
    let mut c = Config::new(&args, Some("/b.txt".to_string()), vec![record("/a.txt", 2, 1, 2)]);
    let saved = c.update_config(17);
    let no_file = cli(None, None, None, false, None);
    let again = Config::new(&no_file, None, saved);
    assert_eq!(*again.get_current_no(), 17);
    assert_eq!(again.get_file_path(), "/b.txt");
    assert_eq!(again.get_cli().num, Some(1));
}

#[test]
fn saved_arguments_are_read_back_with_file() {
    let args = cli(Some("/b.txt"), None, Some(4), false, None);
    let mut c = Config::new(&args, Some("/b.txt".to_string()), vec![record("/a.txt", 2, 1, 2)]);
    let saved = c.update_config(17);
    let again_args = cli(Some("/b.txt"), None, None, true, None);
    let again = Config::new(&again_args, Some("/b.txt".to_string()), saved);
    assert_eq!(*again.get_current_no(), 1);
    assert_eq!(again.get_cli().num, Some(4));
    assert_eq!(again.get_cli().time, Some(2));
    assert!(again.get_cli().auto);
}
