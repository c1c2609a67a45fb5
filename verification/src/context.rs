//! The streaming reader: lines arrive one by one from the file, are
//! gathered into pages of `line_num` lines from the start line on, and each
//! page is shown with the line number of its first line; the last page,
//! which may be short, is handed out at the end of the file.
use vstd::prelude::*;

use crate::display::terminal_display::Flow;
use crate::file_read::strings_view;
use crate::input::event::KeyEvent;

verus! {

/// The page being gathered, as mathematical values.
pub struct PageBufferView {
    pub start_line: usize,
    pub line_num: u16,
    /// Number, counted from 1, of the first line of the page being gathered.
    pub first: int,
    pub lines: Seq<Seq<char>>,
}

impl PageBufferView {
    /// A page being gathered is never full.
    pub open spec fn wf(self) -> bool {
        self.line_num > 0 && self.lines.len() < self.line_num
    }
}

/// The page buffer after line `num` (counted from 0) with text `line`
/// arrived, and the full page it hands out, if any: the number of its
/// first line, and its lines. Lines before the start line are skipped.
pub open spec fn push_line_spec(v: PageBufferView, num: int, line: Seq<char>) -> (
    PageBufferView,
    Option<(int, Seq<Seq<char>>)>,
) {
    if num + 1 < v.start_line {
        (v, None)
    } else {
        let first = if v.lines.len() == 0 {
            num + 1
        } else {
            v.first
        };
        let lines = v.lines.push(line);
        if lines.len() == v.line_num {
            (PageBufferView { lines: Seq::empty(), first, ..v }, Some((first, lines)))
        } else {
            (PageBufferView { lines, first, ..v }, None)
        }
    }
}

/// The page buffer at the end of the file, and the last page it hands out,
/// if any lines are gathered.
pub open spec fn finish_spec(v: PageBufferView) -> (PageBufferView, Option<(int, Seq<Seq<char>>)>) {
    if v.lines.len() == 0 {
        (v, None)
    } else {
        (PageBufferView { lines: Seq::empty(), ..v }, Some((v.first, v.lines)))
    }
}

/// Gathers the lines of a file into pages, from line `start_line` on.
pub struct PageBuffer {
    start_line: usize,
    line_num: u16,
    first: usize,
    lines: Vec<String>,
}

impl View for PageBuffer {
    type V = PageBufferView;

    closed spec fn view(&self) -> PageBufferView {
        PageBufferView {
            start_line: self.start_line,
            line_num: self.line_num,
            first: self.first as int,
            lines: strings_view(self.lines@),
        }
    }
}

impl PageBuffer {
    /// An empty page buffer for pages of `line_num` lines, starting at line
    /// `start_line` (counted from 1).
    pub fn new(start_line: usize, line_num: u16) -> (b: PageBuffer)
        requires
            line_num > 0,
        ensures
            b@ == (PageBufferView { start_line, line_num, first: 0, lines: Seq::empty() }),
            b@.wf(),
    {
        let b = PageBuffer {
            start_line,
            line_num,
            first: 0,
            lines: Vec::with_capacity(line_num as usize),
        };
        proof {
            assert(b@.lines =~= Seq::<Seq<char>>::empty());
        }
        b
    }

    /// Takes line `num` (counted from 0) of the file. Lines before the start
    /// line are skipped; the others are added to the page. When the page is
    /// full it is handed out with the number of its first line, and a new
    /// page begins.
    pub fn push_line(&mut self, num: usize, line: String) -> (page: Option<(usize, Vec<String>)>)
        requires
            old(self)@.wf(),
            num + 1 <= usize::MAX,
        ensures
            final(self)@.wf(),
            final(self)@ == push_line_spec(old(self)@, num as int, line@).0,
            match (push_line_spec(old(self)@, num as int, line@).1, page) {
                (Some((first, lines)), Some((no, shown))) => no == first && strings_view(shown@)
                    == lines,
                (None, None) => true,
                _ => false,
            },
    {
        if num + 1 < self.start_line {
            return None;
        }
        if self.lines.len() == 0 {
            self.first = num + 1;
        }
        let ghost before = strings_view(self.lines@);
        let ghost line_view = line@;
        self.lines.push(line);
        proof {
            assert(strings_view(self.lines@) =~= before.push(line_view));
        }
        if self.lines.len() == self.line_num as usize {
            let mut page: Vec<String> = Vec::with_capacity(self.line_num as usize);
            std::mem::swap(&mut page, &mut self.lines);
            proof {
                assert(strings_view(self.lines@) =~= Seq::<Seq<char>>::empty());
            }
            Some((self.first, page))
        } else {
            None
        }
    }

    /// At the end of the file: hands out the last page, which may be short,
    /// with the number of its first line, if any lines are gathered.
    pub fn finish(&mut self) -> (page: Option<(usize, Vec<String>)>)
        requires
            old(self)@.wf(),
        ensures
            final(self)@.wf(),
            final(self)@ == finish_spec(old(self)@).0,
            match (finish_spec(old(self)@).1, page) {
                (Some((first, lines)), Some((no, shown))) => no == first && strings_view(shown@)
                    == lines,
                (None, None) => true,
                _ => false,
            },
    {
        if self.lines.len() == 0 {
            return None;
        }
        let mut page: Vec<String> = Vec::new();
        std::mem::swap(&mut page, &mut self.lines);
        proof {
            assert(strings_view(self.lines@) =~= Seq::<Seq<char>>::empty());
        }
        Some((self.first, page))
    }
}

/// The page buffer after lines `0..k` of `file` arrived in order, and the
/// pages it handed out, one after the other.
pub open spec fn feed(v: PageBufferView, file: Seq<Seq<char>>, k: nat) -> (
    PageBufferView,
    Seq<(int, Seq<Seq<char>>)>,
)
    decreases k,
{
    if k == 0 {
        (v, Seq::empty())
    } else {
        let (w, out) = feed(v, file, (k - 1) as nat);
        let (w2, o) = push_line_spec(w, k - 1, file[k - 1]);
        (
            w2,
            match o {
                Some(p) => out.push(p),
                None => out,
            },
        )
    }
}

/// The pages handed out while reading a whole file, then the last one.
pub open spec fn all_pages(v: PageBufferView, file: Seq<Seq<char>>) -> Seq<(int, Seq<Seq<char>>)> {
    let (w, out) = feed(v, file, file.len());
    match finish_spec(w).1 {
        Some(p) => out.push(p),
        None => out,
    }
}

/// The lines of a sequence of pages, one after the other.
pub open spec fn page_lines(pages: Seq<(int, Seq<Seq<char>>)>) -> Seq<Seq<char>> {
    pages.map_values(|p: (int, Seq<Seq<char>>)| p.1).flatten()
}

/// Every page is numbered from the number of its first line: `start`
/// plus the lines of the pages before it.
pub open spec fn numbered_from(pages: Seq<(int, Seq<Seq<char>>)>, start: int) -> bool {
    forall|i: int|
        0 <= i < pages.len() ==> #[trigger] pages[i].0 == start + page_lines(pages.take(i)).len()
}

/// Lines arriving in order: the pages handed out so far and the page being
/// gathered hold the lines from the start line on, each once and in order;
/// the pages handed out are full, and each is numbered from its first line.
proof fn lemma_feed(v: PageBufferView, file: Seq<Seq<char>>, k: nat)
    requires
        v.wf(),
        v.lines.len() == 0,
        v.start_line >= 1,
        k <= file.len(),
    ensures
        ({
            let (w, out) = feed(v, file, k);
            let s = v.start_line - 1;
            &&& w.wf()
            &&& w.start_line == v.start_line
            &&& w.line_num == v.line_num
            &&& k <= s ==> w.lines.len() == 0 && out.len() == 0
            &&& k > s ==> page_lines(out) + w.lines == file.subrange(s, k as int)
            &&& forall|i: int| 0 <= i < out.len() ==> #[trigger] out[i].1.len() == v.line_num
            &&& numbered_from(out, v.start_line as int)
            &&& w.lines.len() > 0 ==> w.first == v.start_line + page_lines(out).len()
        }),
    decreases k,
{
    let s = v.start_line - 1;
    if k > 0 {
        let j = (k - 1) as nat;
        lemma_feed(v, file, j);
        let (w, out) = feed(v, file, j);
        let (w2, o) = push_line_spec(w, j as int, file[j as int]);
        let out2 = match o {
            Some(p) => out.push(p),
            None => out,
        };
        if j >= s {
            let before = if j > s {
                page_lines(out) + w.lines
            } else {
                Seq::empty()
            };
            assert(before =~= file.subrange(s, j as int)) by {
                if j == s {
                    assert(out.len() == 0);
                }
            }
            if j == s {
                assert(out.map_values(|p: (int, Seq<Seq<char>>)| p.1) =~= Seq::<
                    Seq<Seq<char>>,
                >::empty());
                assert(page_lines(out) =~= Seq::<Seq<char>>::empty());
            }
            let ls = out.map_values(|p: (int, Seq<Seq<char>>)| p.1);
            match o {
                Some(p) => {
                    let ls2 = out2.map_values(|p: (int, Seq<Seq<char>>)| p.1);
                    assert(ls2 =~= ls.push(p.1));
                    ls.lemma_flatten_push(p.1);
                    assert(page_lines(out2) =~= page_lines(out) + w.lines.push(file[j as int]));
                    assert(page_lines(out2) + w2.lines =~= file.subrange(s, k as int));
                    assert forall|i: int| 0 <= i < out2.len() implies #[trigger] out2[i].0
                        == v.start_line + page_lines(out2.take(i)).len() by {
                        if i < out.len() {
                            assert(out2.take(i) =~= out.take(i));
                            assert(out2[i] == out[i]);
                        } else {
                            assert(out2.take(i) =~= out);
                        }
                    }
                },
                None => {
                    assert(page_lines(out2) + w2.lines =~= file.subrange(s, k as int));
                },
            }
        }
    }
}

/// Reading a whole file through the page buffer shows every line from the
/// start line on, each once and in order: the pages, then the last one,
/// hold exactly those lines; every page but the last is full, and each is
/// numbered from the number (counted from 1) of its first line.
pub proof fn law_pages_show_the_file_from_the_start_line(
    start_line: usize,
    line_num: u16,
    file: Seq<Seq<char>>,
)
    requires
        line_num > 0,
        1 <= start_line <= file.len(),
    ensures
        ({
            let v = PageBufferView { start_line, line_num, first: 0, lines: Seq::empty() };
            let pages = all_pages(v, file);
            &&& page_lines(pages) == file.subrange(start_line - 1, file.len() as int)
            &&& forall|i: int| 0 <= i < pages.len() - 1 ==> #[trigger] pages[i].1.len() == line_num
            &&& numbered_from(pages, start_line as int)
        }),
{
    let v = PageBufferView { start_line, line_num, first: 0, lines: Seq::empty() };
    lemma_feed(v, file, file.len());
    let (w, out) = feed(v, file, file.len());
    let pages = all_pages(v, file);
    let ls = out.map_values(|p: (int, Seq<Seq<char>>)| p.1);
    if w.lines.len() > 0 {
        let p = (w.first, w.lines);
        assert(pages == out.push(p));
        assert(pages.map_values(|p: (int, Seq<Seq<char>>)| p.1) =~= ls.push(w.lines));
        ls.lemma_flatten_push(w.lines);
        assert forall|i: int| 0 <= i < pages.len() implies #[trigger] pages[i].0 == start_line
            + page_lines(pages.take(i)).len() by {
            if i < out.len() {
                assert(pages.take(i) =~= out.take(i));
                assert(pages[i] == out[i]);
            } else {
                assert(pages.take(i) =~= out);
            }
        }
    } else {
        assert(page_lines(out) + w.lines =~= page_lines(out));
    }
}

/// What a key does while the streaming reader waits after a page: switch
/// automatic reading on or off, or quit; the next page and any other key
/// go on. Going back a page is not available there.
pub fn detail_key(auto: &mut bool, key: KeyEvent) -> (flow: Flow)
    requires
        key != KeyEvent::PreviousPage,
    ensures
        flow == (if key == KeyEvent::ESC {
            Flow::Quit
        } else {
            Flow::Continue
        }),
        *final(auto) == (match key {
            KeyEvent::AutoRead => true,
            KeyEvent::StopAuto => false,
            _ => *old(auto),
        }),
{
    match key {
        KeyEvent::AutoRead => {
            *auto = true;
        },
        KeyEvent::StopAuto => {
            *auto = false;
        },
        KeyEvent::ESC => {
            return Flow::Quit;
        },
        _ => {},
    }
    Flow::Continue
}

} // verus!
