//! The command-line arguments of the reader and the checks made on them.
use vstd::prelude::*;

verus! {

/// Command-line arguments.
#[derive(Debug, Clone)]
pub struct Cli {
    /// Path of the txt file.
    pub file: Option<String>,
    /// Line to start from. With a file given it defaults to 1; without one
    /// it is taken from the stored configuration.
    pub start: Option<u64>,
    /// Lines per page.
    pub num: Option<u16>,
    /// Turn pages automatically.
    pub auto: bool,
    /// Seconds between pages when turning automatically.
    pub time: Option<u64>,
}

/// What is wrong with the arguments.
#[derive(Debug, PartialEq, Eq, Structural, Copy, Clone)]
pub enum CliProblem {
    /// Fewer than one line per page was asked for.
    ZeroLines,
    /// An interval of less than one second was asked for.
    ZeroInterval,
    /// The file is not a txt file.
    NotTxt,
}

/// The message the reader stops with.
pub open spec fn problem_message(p: CliProblem) -> Seq<char> {
    match p {
        CliProblem::ZeroLines => "每页行数不能小于1"@,
        CliProblem::ZeroInterval => "自动阅读刷新时间不能小于1s"@,
        CliProblem::NotTxt => "非txt文件, 不可处理"@,
    }
}

impl CliProblem {
    /// The message the reader stops with.
    pub fn message(&self) -> (m: &'static str)
        ensures
            m@ == problem_message(*self),
    {
        match self {
            CliProblem::ZeroLines => "每页行数不能小于1",
            CliProblem::ZeroInterval => "自动阅读刷新时间不能小于1s",
            CliProblem::NotTxt => "非txt文件, 不可处理",
        }
    }
}

/// The text after the last `.` of `s`, or all of `s` where it has no `.`.
pub open spec fn last_segment(s: Seq<char>) -> Seq<char>
    decreases s.len(),
{
    if s.len() == 0 {
        s
    } else if s.last() == '.' {
        Seq::empty()
    } else {
        last_segment(s.drop_last()).push(s.last())
    }
}

/// The file name ends in the extension `txt`.
pub open spec fn is_txt_path(s: Seq<char>) -> bool {
    last_segment(s) == seq!['t', 'x', 't']
}

/// The first check that the arguments fail, in the order the reader makes
/// them, or `None` when they pass all of them.
pub open spec fn first_problem(cli: Cli) -> Option<CliProblem> {
    if cli.num == Some(0u16) {
        Some(CliProblem::ZeroLines)
    } else if cli.time == Some(0u64) {
        Some(CliProblem::ZeroInterval)
    } else if cli.file is Some && !is_txt_path(cli.file->0@) {
        Some(CliProblem::NotTxt)
    } else {
        None
    }
}

/// Where `k` follows the last `.` of `s` (or is 0 when `s` has none),
/// the last segment of `s` is what follows `k`.
proof fn lemma_last_segment(s: Seq<char>, k: int)
    requires
        0 <= k <= s.len(),
        forall|j: int| k <= j < s.len() ==> s[j] != '.',
        k == 0 || s[k - 1] == '.',
    ensures
        last_segment(s) == s.subrange(k, s.len() as int),
    decreases s.len(),
{
    if s.len() == 0 {
    } else if k == s.len() {
        assert(s.last() == '.');
        assert(s.subrange(k, s.len() as int) =~= Seq::<char>::empty());
    } else {
        let t = s.drop_last();
        assert forall|j: int| k <= j < t.len() implies t[j] != '.' by {
            assert(t[j] == s[j]);
        }
        if k > 0 {
            assert(t[k - 1] == s[k - 1]);
        }
        lemma_last_segment(t, k);
        assert(s.subrange(k, s.len() as int) =~= t.subrange(k, t.len() as int).push(s.last()));
    }
}

/// A path names a txt file exactly when the text after its last `.` is
/// `txt`: any path followed by `.txt` is one, whatever dots it holds, and a
/// path without a `.` is one only where it is `txt` itself.
pub proof fn law_txt_paths(p: Seq<char>, s: Seq<char>, k: int)
    ensures
        is_txt_path(p + seq!['.', 't', 'x', 't']),
        (forall|j: int| 0 <= j < s.len() ==> s[j] != '.') ==> (is_txt_path(s) <==> s == seq![
            't',
            'x',
            't',
        ]),
        (0 <= k < s.len() && s[k] == '.' && forall|j: int| k < j < s.len() ==> s[j] != '.') ==> (
        is_txt_path(s) <==> s.subrange(k + 1, s.len() as int) == seq!['t', 'x', 't']),
{
    let q = p + seq!['.', 't', 'x', 't'];
    let n = p.len() as int;
    assert(q[n] == '.');
    assert(q[n + 1] == 't' && q[n + 2] == 'x' && q[n + 3] == 't');
    lemma_last_segment(q, n + 1);
    assert(q.subrange(n + 1, q.len() as int) =~= seq!['t', 'x', 't']);
    if forall|j: int| 0 <= j < s.len() ==> s[j] != '.' {
        lemma_last_segment(s, 0);
        assert(s.subrange(0, s.len() as int) =~= s);
    }
    if 0 <= k < s.len() && s[k] == '.' && forall|j: int| k < j < s.len() ==> s[j] != '.' {
        lemma_last_segment(s, k + 1);
    }
}

/// The checks on the arguments, in the reader's order: no check fails
/// exactly when the lines per page and the interval are not 0 and any file
/// given names a txt file; otherwise the first failing check is reported.
pub proof fn law_check_args_order(cli: Cli)
    ensures
        first_problem(cli) is None <==> (cli.num != Some(0u16) && cli.time != Some(0u64) && (
        cli.file matches Some(f) ==> is_txt_path(f@))),
        cli.num == Some(0u16) ==> first_problem(cli) == Some(CliProblem::ZeroLines),
        cli.num != Some(0u16) && cli.time == Some(0u64) ==> first_problem(cli) == Some(
            CliProblem::ZeroInterval,
        ),
        cli.num != Some(0u16) && cli.time != Some(0u64) && (cli.file matches Some(f)
            && !is_txt_path(f@)) ==> first_problem(cli) == Some(CliProblem::NotTxt),
{
}

/// Whether the path names a txt file: the text after its last `.` (all of
/// it where it has none) is `txt`.
pub fn has_txt_extension(path: &str) -> (r: bool)
    ensures
        r == is_txt_path(path@),
{
    let len = path.unicode_len();
    let mut i = len;
    while i > 0 && path.get_char(i - 1) != '.'
        invariant
            0 <= i <= len,
            len == path@.len(),
            forall|j: int| i <= j < len ==> path@[j] != '.',
        decreases i,
    {
        i = i - 1;
    }
    proof {
        lemma_last_segment(path@, i as int);
    }
    let ok = len - i == 3 && path.get_char(i) == 't' && path.get_char(i + 1) == 'x'
        && path.get_char(i + 2) == 't';
    proof {
        let seg = path@.subrange(i as int, len as int);
        if ok {
            assert(seg =~= seq!['t', 'x', 't']);
        } else if seg == seq!['t', 'x', 't'] {
            assert(seg.len() == 3);
            assert(len - i == 3);
            assert(seg[0] == path@[i as int]);
            assert(seg[1] == path@[i + 1]);
            assert(seg[2] == path@[i + 2]);
        }
    }
    ok
}

/// Checks the arguments as the reader does before it opens anything: at
/// least one line per page, at least one second between automatic pages,
/// and a txt file. Returns the first check that fails.
pub fn check_args(cli: &Cli) -> (r: Option<CliProblem>)
    ensures
        r == first_problem(*cli),
{
    if cli.num == Some(0u16) {
        return Some(CliProblem::ZeroLines);
    }
    if cli.time == Some(0u64) {
        return Some(CliProblem::ZeroInterval);
    }
    match &cli.file {
        Some(file_path) => {
            if !has_txt_extension(file_path.as_str()) {
                return Some(CliProblem::NotTxt);
            }
        },
        None => {},
    }
    None
}

} // verus!
