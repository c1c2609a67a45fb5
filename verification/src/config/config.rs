//! The stored reading positions: one record per file, holding the
//! arguments it was last read with and the line reached.
use vstd::prelude::*;

use crate::input::cli::Cli;

verus! {

/// The configuration of the file being read, with the records of the other
/// files.
pub struct Config {
    /// Command-line arguments.
    cli: Cli,
    /// Absolute path of the txt file.
    file_path: String,
    /// Line reached.
    current_line_no: u64,
    /// Records of the other files.
    other_config: Vec<Config>,
}

/// A configuration, as mathematical values.
pub struct ConfigView {
    pub cli: Cli,
    pub file_path: Seq<char>,
    pub current_line_no: u64,
    pub other_config: Seq<Config>,
}

impl View for Config {
    type V = ConfigView;

    closed spec fn view(&self) -> ConfigView {
        ConfigView {
            cli: self.cli,
            file_path: self.file_path@,
            current_line_no: self.current_line_no,
            other_config: self.other_config@,
        }
    }
}

/// Arguments with the defaults filled in: one line per page, two seconds
/// between automatic pages.
pub open spec fn with_defaults(cli: Cli) -> Cli {
    Cli {
        num: if cli.num is None {
            Some(1u16)
        } else {
            cli.num
        },
        time: if cli.time is None {
            Some(2u64)
        } else {
            cli.time
        },
        ..cli
    }
}

/// Stored arguments updated by the given ones: `auto` always, the lines per
/// page and the interval where given.
pub open spec fn merged_cli(stored: Cli, given: Cli) -> Cli {
    Cli {
        auto: given.auto,
        num: if given.num is Some {
            given.num
        } else {
            stored.num
        },
        time: if given.time is Some {
            given.time
        } else {
            stored.time
        },
        ..stored
    }
}

/// Some record is for the file at `path`.
pub open spec fn has_path(content: Seq<Config>, path: Seq<char>) -> bool {
    exists|i: int| 0 <= i < content.len() && #[trigger] content[i]@.file_path == path
}

/// Record `i` is the first one for the file at `path`.
pub open spec fn first_with_path(content: Seq<Config>, path: Seq<char>, i: int) -> bool {
    &&& 0 <= i < content.len()
    &&& content[i]@.file_path == path
    &&& forall|j: int| 0 <= j < i ==> #[trigger] content[j]@.file_path != path
}

/// No two records are for the same file.
pub open spec fn paths_unique(content: Seq<Config>) -> bool {
    forall|i: int, j: int|
        0 <= i < content.len() && 0 <= j < content.len() && i != j ==> #[trigger] content[i]@.file_path
            != #[trigger] content[j]@.file_path
}

/// A stored record, resumed with the given arguments: a start line given
/// on the command line replaces the stored one.
pub open spec fn resumed(stored: ConfigView, cli: Cli, others: Seq<Config>) -> ConfigView {
    ConfigView {
        cli: merged_cli(stored.cli, cli),
        file_path: stored.file_path,
        current_line_no: match cli.start {
            Some(no) => no,
            None => stored.current_line_no,
        },
        other_config: others,
    }
}

/// The start line for a file given on the command line: the given start
/// line, or else line 1.
pub open spec fn given_start(cli: Cli) -> u64 {
    match cli.start {
        Some(no) => no,
        None => 1u64,
    }
}

/// What `Config::new(cli, file_path, content)` gives. For a file given on
/// the command line reading starts at the given start line, or else at
/// line 1: a file with a record keeps that record's arguments, updated by
/// the given ones (the first record where there are several); a file
/// without one gets the defaults. Without a file, the last record is
/// resumed: at the given start line, or else at the stored line.
pub open spec fn new_result(
    cli: Cli,
    file_path: Option<Seq<char>>,
    content: Seq<Config>,
    r: ConfigView,
) -> bool {
    match file_path {
        Some(p) => {
            &&& !has_path(content, p) ==> r == ConfigView {
                cli: with_defaults(cli),
                file_path: p,
                current_line_no: given_start(cli),
                other_config: content,
            }
            &&& forall|i: int|
                first_with_path(content, p, i) ==> r == (ConfigView {
                    current_line_no: given_start(cli),
                    ..resumed(#[trigger] content[i]@, cli, content.remove(i))
                })
        },
        None => r == resumed(content.last()@, cli, content.drop_last()),
    }
}

/// The views of the records.
pub open spec fn views_of(s: Seq<Config>) -> Seq<ConfigView> {
    s.map_values(|c: Config| c@)
}

/// The record written to the store: the other records are not part of it.
pub open spec fn record_view(c: ConfigView) -> ConfigView {
    ConfigView { other_config: Seq::empty(), ..c }
}

/// What is written to the store: the other records, then this one.
pub open spec fn saved_views(v: ConfigView) -> Seq<ConfigView> {
    v.other_config.map_values(|c: Config| record_view(c@)).push(record_view(v))
}

/// When no two stored records are for the same file, opening a file leaves
/// no other record for it, and no two of the other records share a file:
/// the store written back keeps one record per file.
pub proof fn law_store_keeps_one_record_per_file(
    cli: Cli,
    file_path: Option<Seq<char>>,
    content: Seq<Config>,
    r: ConfigView,
)
    requires
        paths_unique(content),
        content.len() > 0 || file_path is Some,
        new_result(cli, file_path, content, r),
    ensures
        forall|i: int| 0 <= i < r.other_config.len() ==> #[trigger] r.other_config[i]@.file_path != r.file_path,
        paths_unique(r.other_config),
{
    match file_path {
        Some(p) => {
            if has_path(content, p) {
                let k = choose|k: int| 0 <= k < content.len() && #[trigger] content[k]@.file_path == p;
                assert(first_with_path(content, p, k));
                assert(r.other_config == content.remove(k));
                assert(r.file_path == content[k]@.file_path);
                assert forall|i: int| 0 <= i < r.other_config.len() implies #[trigger] r.other_config[i]@.file_path
                    != r.file_path by {
                    if i < k {
                        assert(r.other_config[i] == content[i]);
                    } else {
                        assert(r.other_config[i] == content[i + 1]);
                    }
                }
                assert forall|i: int, j: int|
                    0 <= i < r.other_config.len() && 0 <= j < r.other_config.len() && i != j
                    implies #[trigger] r.other_config[i]@.file_path
                    != #[trigger] r.other_config[j]@.file_path by {
                    let ii = if i < k { i } else { i + 1 };
                    let jj = if j < k { j } else { j + 1 };
                    assert(r.other_config[i] == content[ii]);
                    assert(r.other_config[j] == content[jj]);
                }
            }
        },
        None => {
            let n = content.len() - 1;
            assert forall|i: int| 0 <= i < r.other_config.len() implies #[trigger] r.other_config[i]@.file_path
                != r.file_path by {
                assert(r.other_config[i] == content[i]);
            }
            assert forall|i: int, j: int|
                0 <= i < r.other_config.len() && 0 <= j < r.other_config.len() && i != j
                implies #[trigger] r.other_config[i]@.file_path
                != #[trigger] r.other_config[j]@.file_path by {
                assert(r.other_config[i] == content[i]);
                assert(r.other_config[j] == content[j]);
            }
        },
    }
}

/// The saved record is the last one: opening again without a file resumes
/// it, at line `n` where no start line is given, with the saved arguments
/// updated by the new ones and the other records as they were saved.
pub proof fn law_saved_line_is_read_back(
    v: ConfigView,
    records: Seq<Config>,
    cli: Cli,
    r: ConfigView,
)
    requires
        views_of(records) == saved_views(v),
        cli.start is None,
        new_result(cli, None, records, r),
    ensures
        r.current_line_no == v.current_line_no,
        r.file_path == v.file_path,
        r.cli == merged_cli(v.cli, cli),
        views_of(r.other_config) == v.other_config.map_values(|c: Config| record_view(c@)),
{
    let saved = saved_views(v);
    assert(views_of(records).len() == records.len());
    assert(saved.len() == v.other_config.len() + 1);
    let last = records.len() - 1;
    assert(saved[last] == record_view(v));
    assert(views_of(records)[last] == record_view(v));
    assert(r.other_config =~= records.drop_last());
    assert(views_of(r.other_config) =~= v.other_config.map_values(|c: Config| record_view(c@)))
        by {
        assert forall|j: int| 0 <= j < r.other_config.len() implies #[trigger] r.other_config[j]@
            == record_view(v.other_config[j]@) by {
            assert(saved[j] == record_view(v.other_config[j]@));
            assert(views_of(records)[j] == record_view(v.other_config[j]@));
        }
    }
}

/// Giving the saved file again on the command line keeps its saved
/// arguments, updated by the new ones, and starts at the given start line
/// or at line 1, where no other record is for that file.
pub proof fn law_saved_arguments_are_read_back(
    v: ConfigView,
    records: Seq<Config>,
    cli: Cli,
    r: ConfigView,
)
    requires
        views_of(records) == saved_views(v),
        forall|i: int|
            0 <= i < v.other_config.len() ==> #[trigger] v.other_config[i]@.file_path
                != v.file_path,
        new_result(cli, Some(v.file_path), records, r),
    ensures
        r.current_line_no == given_start(cli),
        r.file_path == v.file_path,
        r.cli == merged_cli(v.cli, cli),
{
    let saved = saved_views(v);
    assert(views_of(records).len() == records.len());
    assert(saved.len() == v.other_config.len() + 1);
    let last = records.len() - 1;
    assert(saved[last] == record_view(v));
    assert(views_of(records)[last] == record_view(v));
    assert forall|j: int| 0 <= j < last implies #[trigger] records[j]@.file_path != v.file_path by {
        assert(saved[j] == record_view(v.other_config[j]@));
        assert(views_of(records)[j] == record_view(v.other_config[j]@));
    }
    assert(first_with_path(records, v.file_path, last));
}

/// A start line given on the command line always wins: with a file or
/// without one, the configuration reads from line `n` when `-s n` is
/// given. Without a file the last stored record is the one resumed, with
/// the records before it kept; with a file that has no record, the new
/// record reads that file with the defaults filled in.
pub proof fn law_given_start_line_wins(
    cli: Cli,
    file_path: Option<Seq<char>>,
    content: Seq<Config>,
    r: ConfigView,
)
    requires
        content.len() > 0 || file_path is Some,
        new_result(cli, file_path, content, r),
    ensures
        cli.start matches Some(n) ==> r.current_line_no == n,
        file_path is Some ==> r.current_line_no == (if cli.start is Some {
            cli.start->0
        } else {
            1u64
        }),
        file_path is None ==> {
            &&& r.file_path == content.last()@.file_path
            &&& cli.start is None ==> r.current_line_no == content.last()@.current_line_no
            &&& r.other_config == content.subrange(0, content.len() - 1)
            &&& r.cli.auto == cli.auto
        },
        file_path matches Some(p) ==> r.file_path == p && r.cli.auto == cli.auto,
        (file_path matches Some(p) && !has_path(content, p)) ==> {
            &&& r.cli.num == (if cli.num is Some {
                cli.num
            } else {
                Some(1u16)
            })
            &&& r.cli.time == (if cli.time is Some {
                cli.time
            } else {
                Some(2u64)
            })
            &&& r.other_config == content
        },
{
    match file_path {
        Some(p) => {
            if has_path(content, p) {
                let k = choose|k: int| 0 <= k < content.len() && #[trigger] content[k]@.file_path == p;
                let m = first_index(content, p, k);
                assert(first_with_path(content, p, m));
            }
        },
        None => {
            assert(content.drop_last() =~= content.subrange(0, content.len() - 1));
        },
    }
}

/// Resuming a stored record keeps its arguments, except that `auto` is
/// always the one given now, and the lines per page and the interval are
/// the given ones where given.
pub proof fn law_resumed_arguments(cli: Cli, content: Seq<Config>, r: ConfigView)
    requires
        content.len() > 0,
        new_result(cli, None, content, r),
    ensures
        ({
            let stored = content.last()@.cli;
            &&& r.cli.auto == cli.auto
            &&& r.cli.num == (if cli.num is Some {
                cli.num
            } else {
                stored.num
            })
            &&& r.cli.time == (if cli.time is Some {
                cli.time
            } else {
                stored.time
            })
            &&& r.cli.file == stored.file
            &&& r.cli.start == stored.start
        }),
{
}

/// Some record for `path` comes first among the records `0..=k`.
proof fn first_index(content: Seq<Config>, path: Seq<char>, k: int) -> (m: int)
    requires
        0 <= k < content.len(),
        content[k]@.file_path == path,
    ensures
        first_with_path(content, path, m),
    decreases k,
{
    if exists|j: int| 0 <= j < k && #[trigger] content[j]@.file_path == path {
        let j = choose|j: int| 0 <= j < k && #[trigger] content[j]@.file_path == path;
        first_index(content, path, j)
    } else {
        k
    }
}

/// Filling in the defaults twice changes nothing more than once.
pub proof fn law_defaults_are_idempotent(cli: Cli)
    ensures
        with_defaults(with_defaults(cli)) == with_defaults(cli),
{
}

fn clone_cli(cli: &Cli) -> (r: Cli)
    ensures
        r == *cli,
{
    let file = match &cli.file {
        Some(f) => Some(f.clone()),
        None => None,
    };
    Cli { file, start: cli.start, num: cli.num, auto: cli.auto, time: cli.time }
}

/// Updates the stored arguments with the given ones: `auto` always, the
/// lines per page and the interval where given.
fn update_cli(c: &mut Config, cli: &Cli)
    ensures
        final(c)@ == (ConfigView { cli: merged_cli(old(c)@.cli, *cli), ..old(c)@ }),
{
    c.cli.auto = cli.auto;
    if cli.num.is_some() {
        c.cli.num = cli.num;
    }
    if cli.time.is_some() {
        c.cli.time = cli.time;
    }
}

/// Fills in the defaults: one line per page and two seconds between
/// automatic pages.
fn default_cli_set(cli: &mut Cli)
    ensures
        *final(cli) == with_defaults(*old(cli)),
{
    if cli.num.is_none() {
        cli.num = Some(1);
    }
    if cli.time.is_none() {
        cli.time = Some(2);
    }
}

/// Index of the first record for the file at `path`.
fn position_of_path(content: &Vec<Config>, path: &String) -> (r: Option<usize>)
    ensures
        match r {
            Some(i) => first_with_path(content@, path@, i as int),
            None => !has_path(content@, path@),
        },
{
    let mut i: usize = 0;
    while i < content.len()
        invariant
            0 <= i <= content@.len(),
            forall|j: int| 0 <= j < i ==> #[trigger] content@[j]@.file_path != path@,
        decreases content@.len() - i,
    {
        if content[i].file_path == *path {
            return Some(i);
        }
        i = i + 1;
    }
    None
}

impl Config {
    /// Builds the configuration to read with, from the arguments, the file
    /// (an absolute path) and the records read from the store.
    pub fn new(cli: &Cli, file_path: Option<String>, content: Vec<Config>) -> (r: Config)
        requires
            content@.len() > 0 || file_path is Some,
        ensures
            new_result(
                *cli,
                match file_path {
                    Some(p) => Some(p@),
                    None => None,
                },
                content@,
                r@,
            ),
    {
        let mut cli = clone_cli(cli);
        let mut content = content;
        match file_path {
            Some(absolute_path) => {
                let current_line_no = match cli.start {
                    Some(no) => no,
                    None => 1,
                };
                match position_of_path(&content, &absolute_path) {
                    None => {
                        default_cli_set(&mut cli);
                        Config {
                            cli,
                            file_path: absolute_path,
                            current_line_no,
                            other_config: content,
                        }
                    },
                    Some(index) => {
                        let ghost old_content = content@;
                        let mut c = content.remove(index);
                        c.current_line_no = current_line_no;
                        update_cli(&mut c, &cli);
                        c.other_config = content;
                        proof {
                            assert forall|i: int|
                                first_with_path(
                                    old_content,
                                    absolute_path@,
                                    i,
                                ) implies c@ == (ConfigView {
                                current_line_no: given_start(cli),
                                ..resumed(#[trigger] old_content[i]@, cli, old_content.remove(i))
                            }) by {
                                if i < index {
                                    assert(old_content[i]@.file_path != absolute_path@);
                                } else if i > index {
                                    assert(old_content[index as int]@.file_path != absolute_path@);
                                }
                            }
                        }
                        c
                    },
                }
            },
            None => {
                let mut config = content.pop().unwrap();
                if cli.start.is_some() {
                    config.current_line_no = cli.start.unwrap();
                }
                update_cli(&mut config, &cli);
                config.other_config = content;
                config
            },
        }
    }

    /// A stored record: the arguments, the file and the line reached,
    /// with no other records.
    pub fn from_record(cli: Cli, file_path: String, current_line_no: u64) -> (r: Config)
        ensures
            r@ == (ConfigView { cli, file_path: file_path@, current_line_no, other_config: Seq::empty() }),
    {
        Config { cli, file_path, current_line_no, other_config: Vec::new() }
    }

    /// Moves the reading position to `current_line_no` and gives the
    /// records to write to the store: the other records, then this one.
    pub fn update_config(&mut self, current_line_no: u64) -> (records: Vec<Config>)
        ensures
            final(self)@ == (ConfigView { current_line_no, ..old(self)@ }),
            views_of(records@) == saved_views(final(self)@),
    {
        self.current_line_no = current_line_no;
        let mut records: Vec<Config> = Vec::new();
        let mut i: usize = 0;
        while i < self.other_config.len()
            invariant
                0 <= i <= self.other_config@.len(),
                records@.len() == i,
                forall|k: int|
                    0 <= k < i ==> #[trigger] records@[k]@ == record_view(self.other_config@[k]@),
            decreases self.other_config@.len() - i,
        {
            let c = &self.other_config[i];
            records.push(
                Config {
                    cli: clone_cli(&c.cli),
                    file_path: c.file_path.clone(),
                    current_line_no: c.current_line_no,
                    other_config: Vec::new(),
                },
            );
            i = i + 1;
        }
        records.push(
            Config {
                cli: clone_cli(&self.cli),
                file_path: self.file_path.clone(),
                current_line_no: self.current_line_no,
                other_config: Vec::new(),
            },
        );
        proof {
            assert(views_of(records@) =~= saved_views(self@));
        }
        records
    }

    /// Path of the txt file.
    pub fn get_file_path(&self) -> (p: &str)
        ensures
            p@ == self@.file_path,
    {
        self.file_path.as_str()
    }

    /// Line reached.
    pub fn get_current_no(&self) -> (no: &u64)
        ensures
            *no == self@.current_line_no,
    {
        &self.current_line_no
    }

    /// Command-line arguments.
    pub fn get_cli(&self) -> (cli: &Cli)
        ensures
            *cli == self@.cli,
    {
        &self.cli
    }
}

} // verus!
