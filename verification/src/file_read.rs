//! Paging through the lines of a text file.
//!
//! A `FileRead` holds every line of the file and a window of at most
//! `line_num` lines, the page on screen. `current_line_no` is the index of
//! the line that follows the page, so the page always holds the lines just
//! before `current_line_no`.
use vstd::prelude::*;

verus! {

/// Tip shown when the reader tries to go past the last page.
pub open spec fn end_tip() -> Seq<char> {
    "当前文档已到结尾, end......"@
}

/// Tip shown when the reader tries to go before the first page.
pub open spec fn start_tip() -> Seq<char> {
    "当前文档已到第一页, start......"@
}

/// The characters of each string.
pub open spec fn strings_view(v: Seq<String>) -> Seq<Seq<char>> {
    v.map_values(|s: String| s@)
}

/// Line `i` of the file, or an empty line where `i` lies outside it.
pub open spec fn line_at(content: Seq<Seq<char>>, i: int) -> Seq<char> {
    if 0 <= i < content.len() {
        content[i]
    } else {
        Seq::empty()
    }
}

/// Lines `from` (inclusive) to `to` (exclusive), empty lines standing for
/// indices past the end of the file.
pub open spec fn window(content: Seq<Seq<char>>, from: int, to: int) -> Seq<Seq<char>> {
    Seq::new((to - from) as nat, |k: int| line_at(content, from + k))
}

pub open spec fn min_int(a: int, b: int) -> int {
    if a <= b {
        a
    } else {
        b
    }
}

/// The state of a reader, as mathematical values.
pub struct FileReadView {
    pub current_line_no: u64,
    pub total_line: nat,
    pub current_page: Seq<Seq<char>>,
    pub file_path: Seq<char>,
    pub content: Seq<Seq<char>>,
    pub msg: Seq<char>,
    pub start: bool,
    pub end: bool,
}

impl FileReadView {
    /// A reader holds a non-empty file whose length leaves room for one more
    /// page of line numbers in a `u64`, and its page is the window of lines
    /// just before `current_line_no`.
    pub open spec fn wf(self) -> bool {
        &&& self.total_line == self.content.len()
        &&& self.total_line >= 1
        &&& self.total_line + 0xffff <= u64::MAX
        &&& self.current_page.len() <= self.current_line_no
        &&& self.current_page == window(
            self.content,
            self.current_line_no - self.current_page.len(),
            self.current_line_no as int,
        )
    }
}

/// The reader that `FileRead::new` builds.
pub open spec fn new_view(
    start_line: u64,
    file_path: Seq<char>,
    line_num: u16,
    content: Seq<Seq<char>>,
) -> FileReadView {
    let s = start_line - 1;
    let total = content.len() as int;
    let empty = s >= total || line_num == 0;
    let stop = min_int(s + line_num, total);
    FileReadView {
        current_line_no: if empty {
            start_line
        } else {
            stop as u64
        },
        total_line: content.len(),
        current_page: if empty {
            Seq::empty()
        } else {
            window(content, s, stop)
        },
        file_path,
        content,
        msg: Seq::empty(),
        start: false,
        end: false,
    }
}

/// The first line index that `next_page` shows.
pub open spec fn next_start(v: FileReadView) -> int {
    if v.current_line_no == 0 {
        1
    } else {
        v.current_line_no as int
    }
}

/// The line index just past the page that `next_page` shows.
pub open spec fn next_stop(v: FileReadView, line_num: u16) -> int {
    let s = next_start(v);
    if line_num == 0 {
        s
    } else if s >= v.total_line - 1 {
        s + 1
    } else {
        min_int(s + line_num, v.total_line as int)
    }
}

/// The reader after `next_page(line_num)`.
pub open spec fn next_page_view(v: FileReadView, line_num: u16) -> FileReadView {
    if v.current_line_no >= v.total_line {
        FileReadView { msg: end_tip(), end: true, ..v }
    } else {
        FileReadView {
            current_line_no: if line_num == 0 {
                v.current_line_no
            } else {
                next_stop(v, line_num) as u64
            },
            current_page: window(v.content, next_start(v), next_stop(v, line_num)),
            msg: Seq::empty(),
            ..v
        }
    }
}

/// The line index where the page on screen begins.
pub open spec fn page_begin(v: FileReadView) -> int {
    v.current_line_no - v.current_page.len()
}

/// The line index where the page before the one on screen begins: a page
/// earlier, or the first line of the file.
pub open spec fn pre_begin(v: FileReadView, line_num: u16) -> int {
    if page_begin(v) > line_num {
        page_begin(v) - line_num
    } else {
        0
    }
}

/// The reader after `pre_page(line_num)`: the lines just before the page
/// on screen, at most `line_num` of them. On the first page only the tip
/// changes and the reader is marked as started.
pub open spec fn pre_page_view(v: FileReadView, line_num: u16) -> FileReadView {
    if v.current_line_no <= line_num || page_begin(v) <= 0 {
        FileReadView { msg: start_tip(), start: true, ..v }
    } else {
        FileReadView {
            current_line_no: page_begin(v) as u64,
            current_page: window(v.content, pre_begin(v, line_num), page_begin(v)),
            ..v
        }
    }
}

/// The pages that repeated `next_page(line_num)` shows, from this state
/// until the reader stands at the end of the file, one after the other.
pub open spec fn pages_until_end(v: FileReadView, line_num: u16) -> Seq<Seq<char>>
    decreases v.total_line - v.current_line_no,
{
    if line_num == 0 || v.current_line_no == 0 || v.current_line_no >= v.total_line
        || v.total_line > u64::MAX {
        Seq::empty()
    } else {
        let w = next_page_view(v, line_num);
        w.current_page + pages_until_end(w, line_num)
    }
}

/// Within the file, a window is a plain run of lines.
proof fn lemma_window_inside(content: Seq<Seq<char>>, from: int, to: int)
    requires
        0 <= from <= to <= content.len(),
    ensures
        window(content, from, to) == content.subrange(from, to),
{
    assert(window(content, from, to) =~= content.subrange(from, to));
}

/// Turning pages forward or back keeps a well-formed reader well-formed:
/// the page stays the run of lines just before `current_line_no`.
pub proof fn law_paging_keeps_reader_well_formed(v: FileReadView, line_num: u16)
    requires
        v.wf(),
    ensures
        next_page_view(v, line_num).wf(),
        pre_page_view(v, line_num).wf(),
{
    let w = next_page_view(v, line_num);
    if v.current_line_no < v.total_line && line_num == 0 {
        assert(w.current_page =~= window(
            w.content,
            w.current_line_no - w.current_page.len(),
            w.current_line_no as int,
        ));
    }
}

/// A page never holds more than `line_num` lines: not when the reader is
/// opened, and not after turning pages.
pub proof fn law_page_holds_at_most_line_num_lines(
    v: FileReadView,
    line_num: u16,
    start_line: u64,
    file_path: Seq<char>,
    content: Seq<Seq<char>>,
)
    requires
        v.wf(),
        v.current_page.len() <= line_num,
        start_line >= 1,
    ensures
        next_page_view(v, line_num).current_page.len() <= line_num,
        pre_page_view(v, line_num).current_page.len() <= line_num,
        new_view(start_line, file_path, line_num, content).current_page.len() <= line_num,
{
}

/// Going back after going forward shows the same page again, when both
/// pages are full.
pub proof fn law_pre_page_undoes_next_page(v: FileReadView, line_num: u16)
    requires
        v.wf(),
        line_num > 0,
        v.current_page.len() == line_num,
        v.current_line_no + line_num <= v.total_line,
    ensures
        pre_page_view(next_page_view(v, line_num), line_num).current_page == v.current_page,
        pre_page_view(next_page_view(v, line_num), line_num).current_line_no
            == v.current_line_no,
{
    let w = next_page_view(v, line_num);
    let u = pre_page_view(w, line_num);
    assert(w.current_line_no == v.current_line_no + line_num);
    assert(page_begin(w) == v.current_line_no);
    assert(u.current_page =~= v.current_page);
}

/// Once the reader has gone past the last page, it stays there.
pub proof fn law_end_is_final(v: FileReadView, line_num: u16)
    requires
        v.end,
    ensures
        next_page_view(v, line_num).end,
        pre_page_view(v, line_num).end,
{
}

/// From any line inside the file, the pages that `next_page` shows up to
/// the end of the file are the remaining lines, each once and in order.
pub proof fn law_pages_until_end_are_the_rest_of_the_file(v: FileReadView, line_num: u16)
    requires
        v.wf(),
        line_num > 0,
        1 <= v.current_line_no <= v.total_line,
    ensures
        pages_until_end(v, line_num) == v.content.subrange(
            v.current_line_no as int,
            v.total_line as int,
        ),
    decreases v.total_line - v.current_line_no,
{
    if v.current_line_no < v.total_line {
        let w = next_page_view(v, line_num);
        law_paging_keeps_reader_well_formed(v, line_num);
        lemma_window_inside(v.content, v.current_line_no as int, w.current_line_no as int);
        law_pages_until_end_are_the_rest_of_the_file(w, line_num);
        assert(pages_until_end(v, line_num) =~= v.content.subrange(
            v.current_line_no as int,
            v.total_line as int,
        ));
    } else {
        assert(v.content.subrange(v.current_line_no as int, v.total_line as int) =~= Seq::<
            Seq<char>,
        >::empty());
    }
}

/// Opening a file at its first line and turning pages until the end shows
/// every line of the file exactly once, in order.
pub proof fn law_reading_from_first_line_shows_whole_file(
    file_path: Seq<char>,
    line_num: u16,
    content: Seq<Seq<char>>,
)
    requires
        line_num > 0,
        content.len() >= 1,
        content.len() + 0xffff <= u64::MAX,
    ensures
        ({
            let v = new_view(1, file_path, line_num, content);
            v.current_page + pages_until_end(v, line_num) == content
        }),
{
    let v = new_view(1, file_path, line_num, content);
    lemma_window_inside(content, 0, v.current_line_no as int);
    assert(v.wf());
    law_pages_until_end_are_the_rest_of_the_file(v, line_num);
    assert(v.current_page + pages_until_end(v, line_num) =~= content);
}

/// Going back shows the lines just before the page on screen, at most
/// `line_num` of them, so that no line is skipped; on the first page the
/// page stays and the reader is marked as started.
pub proof fn law_pre_page_shows_lines_before_page(v: FileReadView, line_num: u16)
    requires
        v.wf(),
    ensures
        ({
            let u = pre_page_view(v, line_num);
            if v.current_line_no <= line_num || page_begin(v) <= 0 {
                u.current_page == v.current_page && u.start
            } else {
                &&& u.current_line_no == page_begin(v)
                &&& u.current_page.len() <= line_num
                &&& u.current_page == window(
                    v.content,
                    page_begin(v) - u.current_page.len(),
                    page_begin(v),
                )
                &&& (u.current_page.len() < line_num ==> page_begin(v) - u.current_page.len()
                    == 0)
            }
        }),
{
}

/// The reader after `k` calls of `next_page(line_num)`.
pub open spec fn next_pages(v: FileReadView, line_num: u16, k: nat) -> FileReadView
    decreases k,
{
    if k == 0 {
        v
    } else {
        next_page_view(next_pages(v, line_num, (k - 1) as nat), line_num)
    }
}

/// After `j` calls of `next_page(line_num)` from line `c`, the reader
/// stands at line `min(c + j * line_num, total)`, and it is marked as
/// ended exactly when some call ran at the end of the file.
proof fn lemma_next_pages(v: FileReadView, line_num: u16, j: nat)
    requires
        v.wf(),
        line_num >= 1,
        1 <= v.current_line_no <= v.total_line,
    ensures
        next_pages(v, line_num, j).current_line_no == min_int(
            v.current_line_no + j * line_num,
            v.total_line as int,
        ),
        next_pages(v, line_num, j).end == (v.end || (j >= 1 && v.current_line_no + (j - 1)
            * line_num >= v.total_line)),
        next_pages(v, line_num, j).total_line == v.total_line,
    decreases j,
{
    if j > 0 {
        let i = (j - 1) as nat;
        lemma_next_pages(v, line_num, i);
        assert(v.current_line_no + j * line_num == v.current_line_no + i * line_num + line_num)
            by (nonlinear_arith)
            requires
                j == i + 1,
        ;
        assert(i * line_num >= 0) by (nonlinear_arith);
        if i >= 1 {
            assert((i - 1) * line_num + line_num == i * line_num) by (nonlinear_arith);
        }
    } else {
        assert(j * line_num == 0) by (nonlinear_arith)
            requires
                j == 0,
        ;
    }
}

/// Turning pages forward from a line inside the file moves strictly on at
/// each call until the end, and reaches the end of the file within
/// `ceil((total - c) / line_num) + 1` calls.
pub proof fn law_paging_forward_reaches_end(v: FileReadView, line_num: u16)
    requires
        v.wf(),
        line_num >= 1,
        1 <= v.current_line_no <= v.total_line,
    ensures
        v.current_line_no < v.total_line ==> next_page_view(v, line_num).current_line_no
            > v.current_line_no,
        next_pages(
            v,
            line_num,
            ((v.total_line - v.current_line_no + line_num - 1) / (line_num as int) + 1) as nat,
        ).end,
{
    let n = line_num as int;
    let d = v.total_line - v.current_line_no;
    let k = (d + n - 1) / n;
    vstd::arithmetic::div_mod::lemma_fundamental_div_mod(d + n - 1, n);
    vstd::arithmetic::div_mod::lemma_mod_bound(d + n - 1, n);
    assert(k >= 0) by {
        vstd::arithmetic::div_mod::lemma_div_pos_is_pos(d + n - 1, n);
    }
    assert(k * n >= d) by (nonlinear_arith)
        requires
            d + n - 1 == n * k + (d + n - 1) % n,
            (d + n - 1) % n < n,
    ;
    lemma_next_pages(v, line_num, (k + 1) as nat);
    assert(((k + 1) - 1) * n == k * n);
    lemma_next_pages(v, line_num, 1);
}

/// A page turn, with the lines per page it is made with.
pub enum PageTurn {
    Next(u16),
    Pre(u16),
}

/// The reader after one page turn.
pub open spec fn turn(v: FileReadView, t: PageTurn) -> FileReadView {
    match t {
        PageTurn::Next(n) => next_page_view(v, n),
        PageTurn::Pre(n) => pre_page_view(v, n),
    }
}

/// The reader after a sequence of page turns.
pub open spec fn turns(v: FileReadView, ts: Seq<PageTurn>) -> FileReadView
    decreases ts.len(),
{
    if ts.len() == 0 {
        v
    } else {
        turn(turns(v, ts.drop_last()), ts.last())
    }
}

/// Some turn of the sequence is a `next_page` made at the end of the file.
pub open spec fn ran_next_at_end(v: FileReadView, ts: Seq<PageTurn>) -> bool {
    exists|i: int|
        0 <= i < ts.len() && ts[i] is Next && #[trigger] turns(v, ts.take(i)).current_line_no
            >= v.total_line
}

/// Over any sequence of page turns from a reader not yet ended, the reader
/// ends exactly when some `next_page` ran at the end of the file, and stays
/// ended from then on; the file itself never changes.
pub proof fn law_end_flag_over_page_turns(v: FileReadView, ts: Seq<PageTurn>)
    requires
        !v.end,
    ensures
        turns(v, ts).end == ran_next_at_end(v, ts),
        turns(v, ts).total_line == v.total_line,
        turns(v, ts).content == v.content,
    decreases ts.len(),
{
    if ts.len() > 0 {
        let rest = ts.drop_last();
        let last = (ts.len() - 1) as int;
        law_end_flag_over_page_turns(v, rest);
        let u = turns(v, rest);
        assert(ts.take(last) =~= rest);
        if ran_next_at_end(v, rest) {
            let i = choose|i: int|
                0 <= i < rest.len() && rest[i] is Next && #[trigger] turns(
                    v,
                    rest.take(i),
                ).current_line_no >= v.total_line;
            assert(rest.take(i) =~= ts.take(i));
            assert(ts[i] == rest[i]);
            assert(turns(v, ts.take(i)).current_line_no >= v.total_line);
        }
        if ran_next_at_end(v, ts) {
            let i = choose|i: int|
                0 <= i < ts.len() && ts[i] is Next && #[trigger] turns(
                    v,
                    ts.take(i),
                ).current_line_no >= v.total_line;
            if i < last {
                assert(rest.take(i) =~= ts.take(i));
                assert(ts[i] == rest[i]);
                assert(turns(v, rest.take(i)).current_line_no >= v.total_line);
            }
        }
    } else {
        assert(!ran_next_at_end(v, ts));
    }
}

/// The tip is empty on a newly opened reader and after a `next_page` made
/// inside the file.
pub proof fn law_tip_is_cleared(
    v: FileReadView,
    line_num: u16,
    start_line: u64,
    file_path: Seq<char>,
    content: Seq<Seq<char>>,
)
    ensures
        new_view(start_line, file_path, line_num, content).msg.len() == 0,
        v.current_line_no < v.total_line ==> next_page_view(v, line_num).msg.len() == 0,
{
}

/// Opening a file at any line `s` inside it shows the `line_num` lines
/// from line `s` on (counted from 1), fewer where the file ends first, and
/// never an empty page; the reader then stands just past that page.
pub proof fn law_open_shows_page_from_start_line(
    start_line: u64,
    file_path: Seq<char>,
    line_num: u16,
    content: Seq<Seq<char>>,
)
    requires
        1 <= start_line <= content.len(),
        content.len() + 0xffff <= u64::MAX,
        line_num >= 1,
    ensures
        ({
            let v = new_view(start_line, file_path, line_num, content);
            let stop = if start_line - 1 + line_num <= content.len() {
                start_line - 1 + line_num
            } else {
                content.len() as int
            };
            &&& v.current_page == content.subrange(start_line - 1, stop)
            &&& v.current_page.len() >= 1
            &&& v.current_line_no == stop
            &&& v.content == content
            &&& v.file_path == file_path
            &&& v.msg.len() == 0
            &&& !v.start
            &&& !v.end
        }),
{
    let v = new_view(start_line, file_path, line_num, content);
    let stop = if start_line - 1 + line_num <= content.len() {
        start_line - 1 + line_num
    } else {
        content.len() as int
    };
    lemma_window_inside(content, start_line - 1, stop);
}

/// Turning to the next page from a line inside the file shows the
/// `line_num` lines from that line on, fewer where the file ends first,
/// clears the tip and leaves the end flag alone; at or past the end of the
/// file the page and line stay, the tip says so and the reader is ended.
pub proof fn law_next_page_shows_following_lines(v: FileReadView, line_num: u16)
    requires
        v.wf(),
        line_num >= 1,
        v.current_line_no >= 1,
    ensures
        ({
            let w = next_page_view(v, line_num);
            let c = v.current_line_no as int;
            let stop = if c + line_num <= v.total_line {
                c + line_num
            } else {
                v.total_line as int
            };
            &&& w.content == v.content
            &&& w.total_line == v.total_line
            &&& w.file_path == v.file_path
            &&& w.start == v.start
            &&& c < v.total_line ==> {
                &&& w.current_page == v.content.subrange(c, stop)
                &&& w.current_page.len() >= 1
                &&& w.current_line_no == stop
                &&& w.msg.len() == 0
                &&& w.end == v.end
            }
            &&& c >= v.total_line ==> {
                &&& w.current_page == v.current_page
                &&& w.current_line_no == v.current_line_no
                &&& w.msg == end_tip()
                &&& w.end
            }
        }),
{
    let c = v.current_line_no as int;
    if c < v.total_line {
        let stop = if c + line_num <= v.total_line {
            c + line_num
        } else {
            v.total_line as int
        };
        assert(next_stop(v, line_num) == stop);
        lemma_window_inside(v.content, c, stop);
    }
}

/// Going back from a page that begins at line `b > 0` (an index) shows the
/// lines just before it: the `line_num` lines ending at `b`, or all lines
/// before `b` where fewer; the reader then stands at `b`, and nothing else
/// changes. On the first page only the tip changes and the reader is
/// marked as started.
pub proof fn law_pre_page_shows_preceding_lines(v: FileReadView, line_num: u16)
    requires
        v.wf(),
        v.current_line_no <= v.total_line,
    ensures
        ({
            let u = pre_page_view(v, line_num);
            let b = v.current_line_no - v.current_page.len();
            let from = if b > line_num {
                b - line_num
            } else {
                0
            };
            &&& u.content == v.content
            &&& u.end == v.end
            &&& (v.current_line_no > line_num && b > 0) ==> {
                &&& u.current_page == v.content.subrange(from, b)
                &&& u.current_line_no == b
                &&& u.msg == v.msg
                &&& u.start == v.start
            }
            &&& !(v.current_line_no > line_num && b > 0) ==> {
                &&& u.current_page == v.current_page
                &&& u.current_line_no == v.current_line_no
                &&& u.msg == start_tip()
                &&& u.start
            }
        }),
{
    let b = v.current_line_no - v.current_page.len();
    if v.current_line_no > line_num && b > 0 {
        lemma_window_inside(v.content, pre_begin(v, line_num), b);
    }
}

/// Pages through the lines of a text file.
pub struct FileRead {
    /// Index of the line that follows the page.
    current_line_no: u64,
    /// Number of lines of the file.
    total_line: usize,
    /// The lines on screen.
    current_page: Vec<String>,
    /// Path of the file.
    file_path: String,
    /// Every line of the file.
    content: Vec<String>,
    /// Tip for the reader.
    msg: String,
    /// The reader tried to go before the first page.
    start: bool,
    /// The reader tried to go past the last page.
    end: bool,
}

impl View for FileRead {
    type V = FileReadView;

    closed spec fn view(&self) -> FileReadView {
        FileReadView {
            current_line_no: self.current_line_no,
            total_line: self.total_line as nat,
            current_page: strings_view(self.current_page@),
            file_path: self.file_path@,
            content: strings_view(self.content@),
            msg: self.msg@,
            start: self.start,
            end: self.end,
        }
    }
}

/// Copies lines `from..to` of `content`, an empty line for each index past
/// its end.
fn copy_window(content: &Vec<String>, from: u64, to: u64) -> (page: Vec<String>)
    requires
        from <= to,
    ensures
        strings_view(page@) == window(strings_view(content@), from as int, to as int),
{
    let mut page: Vec<String> = Vec::new();
    let mut index = from;
    while index < to
        invariant
            from <= index <= to,
            page@.len() == index - from,
            forall|k: int|
                0 <= k < page@.len() ==> #[trigger] page@[k]@ == line_at(
                    strings_view(content@),
                    from + k,
                ),
        decreases to - index,
    {
        let line = if index < content.len() as u64 {
            content[index as usize].clone()
        } else {
            String::new()
        };
        page.push(line);
        index = index + 1;
    }
    assert(strings_view(page@) =~= window(strings_view(content@), from as int, to as int));
    page
}

impl FileRead {
    /// Opens the reader on the lines of a file, with the page of
    /// `line_num` lines that starts at line `start_line` (counted from 1).
    /// Where `start_line` lies past the end of the file, or `line_num` is
    /// 0, the page is empty and `current_line_no` is `start_line`.
    pub fn new(start_line: &u64, file_path: &String, line_num: &u16, lines: Vec<String>) -> (fr:
        FileRead)
        requires
            *start_line >= 1,
            *start_line - 1 + *line_num <= u64::MAX,
            lines@.len() >= 1,
            lines@.len() + 0xffff <= u64::MAX,
        ensures
            fr@ == new_view(*start_line, file_path@, *line_num, strings_view(lines@)),
            fr@.wf(),
    {
        let total_line = lines.len();
        let start_index: u64 = *start_line - 1;
        let mut current_line_no = *start_line;
        let page_content = if start_index >= total_line as u64 || *line_num == 0 {
            Vec::new()
        } else {
            let end_index: u64 = if start_index + (*line_num as u64) <= total_line as u64 {
                start_index + *line_num as u64
            } else {
                total_line as u64
            };
            current_line_no = end_index;
            copy_window(&lines, start_index, end_index)
        };
        let fr = FileRead {
            current_line_no,
            total_line,
            current_page: page_content,
            file_path: file_path.clone(),
            content: lines,
            msg: String::new(),
            start: false,
            end: false,
        };
        proof {
            assert(strings_view(fr.current_page@) =~= fr@.current_page);
            if start_index >= total_line || *line_num == 0 {
                assert(fr@.current_page =~= Seq::<Seq<char>>::empty());
            }
            assert(fr@ == new_view(*start_line, file_path@, *line_num, strings_view(fr.content@)));
            assert(fr@.current_page =~= window(
                fr@.content,
                fr@.current_line_no - fr@.current_page.len(),
                fr@.current_line_no as int,
            ));
        }
        fr
    }

    /// Turns to the next page. At the end of the file only the tip changes
    /// and the reader is marked as ended.
    pub fn next_page(&mut self, line_num: &u16)
        requires
            old(self)@.wf(),
        ensures
            final(self)@ == next_page_view(old(self)@, *line_num),
            final(self)@.wf(),
    {
        if self.current_line_no >= self.total_line as u64 {
            self.msg = "当前文档已到结尾, end......".to_owned();
            self.end = true;
            return;
        }
        let start_index: u64 = if self.current_line_no == 0 {
            1
        } else {
            self.current_line_no
        };
        let total = self.total_line as u64;
        let stop: u64 = if *line_num == 0 {
            start_index
        } else if start_index >= total - 1 {
            start_index + 1
        } else if start_index + (*line_num as u64) <= total {
            start_index + *line_num as u64
        } else {
            total
        };
        self.current_page = copy_window(&self.content, start_index, stop);
        if *line_num != 0 {
            self.current_line_no = stop;
        }
        self.msg = String::new();
        proof {
            let v = old(self)@;
            assert(self@.current_page == window(v.content, next_start(v), next_stop(v, *line_num)));
            assert(self@.msg =~= Seq::<char>::empty());
            assert(self@ == next_page_view(v, *line_num));
            if *line_num == 0 {
                assert(self@.current_page =~= window(
                    self@.content,
                    self@.current_line_no - self@.current_page.len(),
                    self@.current_line_no as int,
                ));
            }
        }
    }

    /// Turns to the previous page. On the first page only the tip changes
    /// and the reader is marked as started.
    pub fn pre_page(&mut self, line_num: &u16)
        requires
            old(self)@.wf(),
        ensures
            final(self)@ == pre_page_view(old(self)@, *line_num),
            final(self)@.wf(),
    {
        let page_begin: u64 = self.current_line_no - self.current_page.len() as u64;
        if self.current_line_no <= *line_num as u64 || page_begin == 0 {
            self.msg = "当前文档已到第一页, start......".to_owned();
            self.start = true;
            return;
        }
        let start_index: u64 = if page_begin > *line_num as u64 {
            page_begin - *line_num as u64
        } else {
            0
        };
        self.current_page = copy_window(&self.content, start_index, page_begin);
        self.current_line_no = page_begin;
        proof {
            assert(self@ == pre_page_view(old(self)@, *line_num));
        }
    }

    /// Whether the reader went past the last page.
    pub fn is_end(&self) -> (r: bool)
        ensures
            r == self@.end,
    {
        self.end
    }

    /// The lines on screen.
    pub fn get_current_page(&self) -> (page: &Vec<String>)
        ensures
            strings_view(page@) == self@.current_page,
    {
        &self.current_page
    }

    /// The tip for the reader.
    pub fn get_tip(&self) -> (tip: &str)
        ensures
            tip@ == self@.msg,
    {
        self.msg.as_str()
    }

    /// The line number, counted from 1, where the page on screen begins
    /// (at most `u64::MAX`): reading resumes there.
    pub fn resume_line_no(&self) -> (no: u64)
        requires
            self@.wf(),
        ensures
            no == min_int(page_begin(self@) + 1, u64::MAX as int),
    {
        let begin = self.current_line_no - self.current_page.len() as u64;
        if begin < u64::MAX {
            begin + 1
        } else {
            begin
        }
    }

    /// Index of the line that follows the page.
    pub fn get_current_no(&self) -> (no: u64)
        ensures
            no == self@.current_line_no,
    {
        self.current_line_no
    }
}

} // verus!
