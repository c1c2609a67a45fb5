//! What the display decides: how a line is cut into rows of the terminal's
//! width, and what each key does to the reader.
use vstd::prelude::*;
use vstd::string::StringSliceAdditionalSpecFns;
use vstd::seq_lib::lemma_flatten_concat;
use vstd::utf8::*;

use crate::file_read::{next_page_view, pre_page_view, FileRead};
use crate::input::event::KeyEvent;

verus! {

broadcast use encode_utf8_valid_utf8, encode_utf8_decode_utf8;

/// The UTF-8 bytes of a text.
pub open spec fn bytes_of(s: Seq<char>) -> Seq<u8> {
    encode_utf8(s)
}

/// The first character boundary at or after byte `i`.
pub open spec fn next_boundary(bytes: Seq<u8>, i: int) -> int
    decreases bytes.len() - i,
{
    if i >= bytes.len() {
        bytes.len() as int
    } else if is_char_boundary(bytes, i) {
        i
    } else {
        next_boundary(bytes, i + 1)
    }
}

/// The last byte of a row that is to end near byte `index`: the last
/// byte of the text where `index` reaches its last byte, else the byte
/// just before the first character boundary at or after `index`, so that
/// no character is cut.
pub open spec fn fixed_index(bytes: Seq<u8>, index: int) -> int {
    if index >= bytes.len() - 1 {
        bytes.len() - 1
    } else {
        next_boundary(bytes, index) - 1
    }
}

/// Where row `k` of a line starts, in bytes: each row ends at the fixed
/// index of its start plus the width.
pub open spec fn row_start(bytes: Seq<u8>, width: int, k: nat) -> int
    decreases k,
{
    if k == 0 {
        0
    } else {
        fixed_index(bytes, row_start(bytes, width, (k - 1) as nat) + width) + 1
    }
}

/// Number of rows a line is cut into: its length in bytes divided by the
/// width, plus one.
pub open spec fn row_count(bytes: Seq<u8>, width: int) -> nat {
    (bytes.len() as int / width + 1) as nat
}

/// The rows a line is cut into.
pub open spec fn wrapped_rows(s: Seq<char>, width: int) -> Seq<Seq<char>> {
    let bytes = bytes_of(s);
    Seq::new(
        row_count(bytes, width),
        |k: int|
            decode_utf8(
                bytes.subrange(row_start(bytes, width, k as nat), row_start(bytes, width, (k + 1) as nat)),
            ),
    )
}

/// The rows a page is cut into: the rows of each line in turn, empty lines
/// taking no row.
pub open spec fn page_rows(lines: Seq<Seq<char>>, width: int) -> Seq<Seq<char>>
    decreases lines.len(),
{
    if lines.len() == 0 {
        Seq::empty()
    } else {
        let last = lines.last();
        page_rows(lines.drop_last(), width) + if last.len() == 0 {
            Seq::<Seq<char>>::empty()
        } else {
            wrapped_rows(last, width)
        }
    }
}

/// The first character boundary at or after `i` is a boundary, and the
/// bytes before it from `i` on are not.
proof fn lemma_next_boundary(bytes: Seq<u8>, i: int)
    requires
        valid_utf8(bytes),
        0 <= i <= bytes.len(),
    ensures
        i <= next_boundary(bytes, i) <= bytes.len(),
        is_char_boundary(bytes, next_boundary(bytes, i)),
        forall|j: int| i <= j < next_boundary(bytes, i) ==> !is_char_boundary(bytes, j),
    decreases bytes.len() - i,
{
    is_char_boundary_start_end_of_seq(bytes);
    if i < bytes.len() && !is_char_boundary(bytes, i) {
        lemma_next_boundary(bytes, i + 1);
    }
}

/// A boundary of a text before one of its boundaries is a boundary of the
/// prefix that ends there.
proof fn lemma_boundary_of_prefix(bytes: Seq<u8>, a: int, b: int)
    requires
        valid_utf8(bytes),
        0 <= a <= b <= bytes.len(),
        is_char_boundary(bytes, a),
        is_char_boundary(bytes, b),
    ensures
        valid_utf8(bytes.subrange(0, b)),
        is_char_boundary(bytes.subrange(0, b), a),
{
    let pre = bytes.subrange(0, b);
    valid_utf8_split(bytes, b);
    is_char_boundary_start_end_of_seq(pre);
    if 0 < a < b {
        is_char_boundary_iff_not_is_continuation_byte(bytes, a);
        is_char_boundary_iff_not_is_continuation_byte(pre, a);
        assert(pre[a] == bytes[a]);
    }
}

/// Where a row that is to end near byte `index` of the line really ends, as
/// the index of its last byte: past the end of the line this is the line's
/// last byte, and otherwise the byte just before the first character
/// boundary at or after `index`.
pub fn fix_index(s: &String, index: usize) -> (r: usize)
    requires
        bytes_of(s@).len() > 0,
        bytes_of(s@).len() <= usize::MAX,
        index >= 1 || index >= bytes_of(s@).len() - 1,
    ensures
        r == fixed_index(bytes_of(s@), index as int),
{
    let text = s.as_str();
    let len = text.len();
    if index >= len - 1 {
        return len - 1;
    }
    let ghost bytes = bytes_of(s@);
    proof {
        is_char_boundary_start_end_of_seq(bytes);
    }
    let mut result = index;
    while !text.is_char_boundary(result)
        invariant
            text@ == s@,
            text.spec_bytes() == bytes,
            len == bytes.len(),
            index <= result <= len,
            next_boundary(bytes, index as int) == next_boundary(bytes, result as int),
            is_char_boundary(bytes, len as int),
        decreases len - result,
    {
        result = result + 1;
    }
    result - 1
}

/// One row: from a boundary `s`, the next row starts at a boundary no
/// further than the end of the line, at least `width` bytes on or at the
/// end of the line.
proof fn lemma_row_step(bytes: Seq<u8>, width: int, s: int)
    requires
        valid_utf8(bytes),
        width >= 1,
        0 <= s <= bytes.len(),
        is_char_boundary(bytes, s),
    ensures
        s <= fixed_index(bytes, s + width) + 1 <= bytes.len(),
        is_char_boundary(bytes, fixed_index(bytes, s + width) + 1),
        fixed_index(bytes, s + width) + 1 >= s + width || fixed_index(bytes, s + width) + 1
            == bytes.len(),
{
    is_char_boundary_start_end_of_seq(bytes);
    if s + width < bytes.len() - 1 {
        lemma_next_boundary(bytes, s + width);
    }
}

/// Where a row meant to end near byte `index` really ends: at the last byte
/// of the line when `index` reaches it; otherwise just before the first
/// character boundary at or after `index`, so that the row stops on a
/// boundary and no character is cut.
pub proof fn law_fixed_index_ends_rows_on_boundaries(s: Seq<char>, index: int)
    requires
        bytes_of(s).len() > 0,
        index >= 0,
    ensures
        index >= bytes_of(s).len() - 1 ==> fixed_index(bytes_of(s), index) == bytes_of(s).len() - 1,
        index < bytes_of(s).len() - 1 ==> {
            let r = fixed_index(bytes_of(s), index);
            &&& index <= r + 1 <= bytes_of(s).len()
            &&& is_char_boundary(bytes_of(s), r + 1)
            &&& forall|j: int| index <= j <= r ==> !is_char_boundary(bytes_of(s), j)
        },
{
    if index < bytes_of(s).len() - 1 {
        lemma_next_boundary(bytes_of(s), index);
    }
}

/// Facts on the start of each row of a line.
proof fn lemma_row_start(bytes: Seq<u8>, width: int, k: nat)
    requires
        valid_utf8(bytes),
        width >= 1,
    ensures
        0 <= row_start(bytes, width, k) <= bytes.len(),
        is_char_boundary(bytes, row_start(bytes, width, k)),
        row_start(bytes, width, k) <= row_start(bytes, width, k + 1) <= bytes.len(),
        is_char_boundary(bytes, row_start(bytes, width, k + 1)),
        row_start(bytes, width, k + 1) >= row_start(bytes, width, k) + width || row_start(
            bytes,
            width,
            k + 1,
        ) == bytes.len(),
    decreases k,
{
    is_char_boundary_start_end_of_seq(bytes);
    if k > 0 {
        lemma_row_start(bytes, width, (k - 1) as nat);
    }
    lemma_row_step(bytes, width, row_start(bytes, width, k));
}

/// Cuts a line into rows of the terminal's width, in bytes, as many as its
/// length divided by the width plus one; a row that would end inside a
/// character runs on to the end of that character. Rows past the end of
/// the line are empty.
pub fn wrap_line(line: &String, width: u16) -> (rows: Vec<String>)
    requires
        width >= 1,
        bytes_of(line@).len() > 0,
        bytes_of(line@).len() + 0xffff <= usize::MAX,
    ensures
        rows@.map_values(|r: String| r@) == wrapped_rows(line@, width as int),
{
    let ghost bytes = bytes_of(line@);
    let text = line.as_str();
    let len = text.len();
    let w = width as usize;
    let row_num = len / w + 1;
    let mut rows: Vec<String> = Vec::new();
    let mut start_index: usize = 0;
    let mut i: usize = 0;
    while i < row_num
        invariant
            text@ == line@,
            bytes == bytes_of(line@),
            len == bytes.len(),
            len > 0,
            len + 0xffff <= usize::MAX,
            w == width,
            w >= 1,
            row_num == row_count(bytes, w as int),
            0 <= i <= row_num,
            start_index == row_start(bytes, w as int, i as nat),
            rows@.len() == i,
            forall|k: int|
                0 <= k < i ==> #[trigger] rows@[k]@ == wrapped_rows(line@, w as int)[k],
        decreases row_num - i,
    {
        proof {
            lemma_row_start(bytes, w as int, i as nat);
        }
        let end_index = fix_index(line, start_index + w);
        let next_start = end_index + 1;
        proof {
            lemma_row_start(bytes, w as int, (i + 1) as nat);
            lemma_boundary_of_prefix(bytes, start_index as int, next_start as int);
        }
        let (prefix, _) = text.split_at(next_start);
        let (_, piece) = prefix.split_at(start_index);
        let row = piece.to_owned();
        proof {
            let sub = bytes.subrange(start_index as int, next_start as int);
            assert(piece.spec_bytes() =~= sub);
            assert(row@ == decode_utf8(sub));
        }
        rows.push(row);
        start_index = next_start;
        i = i + 1;
    }
    proof {
        assert(rows@.map_values(|r: String| r@) =~= wrapped_rows(line@, width as int));
    }
    rows
}

/// Every line of the page can be cut into rows without overflowing a
/// byte index.
pub open spec fn page_fits(lines: Seq<Seq<char>>) -> bool {
    forall|k: int| 0 <= k < lines.len() ==> #[trigger] bytes_of(lines[k]).len() + 0xffff <= usize::MAX
}

/// Cuts every line of a page into rows of the terminal's width, skipping
/// empty lines; the display prints these rows, one per terminal line.
pub fn layout_page(page: &Vec<String>, width: u16) -> (rows: Vec<String>)
    requires
        width >= 1,
        page_fits(page@.map_values(|l: String| l@)),
    ensures
        rows@.map_values(|r: String| r@) == page_rows(page@.map_values(|l: String| l@), width as int),
{
    let ghost lines = page@.map_values(|l: String| l@);
    let mut rows: Vec<String> = Vec::new();
    let mut i: usize = 0;
    while i < page.len()
        invariant
            lines == page@.map_values(|l: String| l@),
            page_fits(lines),
            width >= 1,
            0 <= i <= page@.len(),
            rows@.map_values(|r: String| r@) == page_rows(lines.subrange(0, i as int), width as int),
        decreases page@.len() - i,
    {
        let line = &page[i];
        proof {
            assert(lines.subrange(0, i + 1).drop_last() =~= lines.subrange(0, i as int));
            assert(lines[i as int] == line@);
        }
        if line.as_str().len() != 0 {
            proof {
                assert(bytes_of(lines[i as int]).len() + 0xffff <= usize::MAX);
            }
            let mut line_rows = wrap_line(line, width);
            let ghost before = rows@;
            rows.append(&mut line_rows);
            proof {
                assert(rows@.map_values(|r: String| r@) =~= before.map_values(|r: String| r@)
                    + wrapped_rows(line@, width as int));
            }
        } else {
            proof {
                assert(line@.len() == 0) by {
                    if line@.len() > 0 {
                        assert(bytes_of(line@).len() > 0) by {
                            lemma_bytes_nonempty(line@);
                        }
                    }
                }
                assert(rows@.map_values(|r: String| r@) =~= page_rows(
                    lines.subrange(0, i + 1),
                    width as int,
                ));
            }
        }
        i = i + 1;
    }
    proof {
        assert(lines.subrange(0, page@.len() as int) =~= lines);
    }
    rows
}

/// A non-empty text has at least one byte.
proof fn lemma_bytes_nonempty(s: Seq<char>)
    requires
        s.len() > 0,
    ensures
        bytes_of(s).len() > 0,
{
    encode_utf8_first_scalar(s);
}

/// After `k` rows, the rows have covered `k * width` bytes, or the whole
/// line.
proof fn lemma_rows_cover(bytes: Seq<u8>, width: int, k: nat)
    requires
        valid_utf8(bytes),
        width >= 1,
    ensures
        row_start(bytes, width, k) >= k * width || row_start(bytes, width, k) == bytes.len(),
    decreases k,
{
    if k > 0 {
        let j = (k - 1) as nat;
        lemma_rows_cover(bytes, width, j);
        lemma_row_start(bytes, width, j);
        assert(k * width == j * width + width) by (nonlinear_arith)
            requires
                k == j + 1,
        ;
    } else {
        assert(k * width == 0) by (nonlinear_arith)
            requires
                k == 0,
        ;
    }
}

/// The last row of a line ends at the end of the line.
proof fn lemma_rows_reach_end(bytes: Seq<u8>, width: int)
    requires
        valid_utf8(bytes),
        width >= 1,
    ensures
        row_start(bytes, width, row_count(bytes, width)) == bytes.len(),
{
    let n = row_count(bytes, width);
    let len = bytes.len() as int;
    lemma_rows_cover(bytes, width, n);
    lemma_row_start(bytes, width, n);
    vstd::arithmetic::div_mod::lemma_fundamental_div_mod(len, width);
    assert(0 <= len % width < width) by {
        vstd::arithmetic::div_mod::lemma_mod_bound(len, width);
    }
    assert(n * width > len) by (nonlinear_arith)
        requires
            n == len / width + 1,
            len == width * (len / width) + len % width,
            len % width < width,
    ;
}

/// The first `m` rows of a line, joined, are the text of its first
/// `row_start(m)` bytes.
proof fn lemma_rows_join(bytes: Seq<u8>, width: int, m: nat)
    requires
        valid_utf8(bytes),
        width >= 1,
    ensures
        Seq::new(
            m,
            |k: int|
                decode_utf8(
                    bytes.subrange(row_start(bytes, width, k as nat), row_start(bytes, width, (k + 1) as nat)),
                ),
        ).flatten() == decode_utf8(bytes.subrange(0, row_start(bytes, width, m))),
    decreases m,
{
    let f = |k: int|
        decode_utf8(
            bytes.subrange(row_start(bytes, width, k as nat), row_start(bytes, width, (k + 1) as nat)),
        );
    if m == 0 {
        assert(Seq::new(0, f) =~= Seq::<Seq<char>>::empty());
        assert(bytes.subrange(0, 0) =~= Seq::<u8>::empty());
        assert(decode_utf8(Seq::<u8>::empty()) =~= Seq::<char>::empty());
    } else {
        let j = (m - 1) as nat;
        lemma_rows_join(bytes, width, j);
        lemma_row_start(bytes, width, j);
        let a = row_start(bytes, width, j);
        let b = row_start(bytes, width, m);
        lemma_boundary_of_prefix(bytes, a, b);
        let pre = bytes.subrange(0, b);
        decode_utf8_split(pre, a);
        assert(pre.subrange(0, a) =~= bytes.subrange(0, a));
        assert(pre.subrange(a, pre.len() as int) =~= bytes.subrange(a, b));
        assert(Seq::new(m, f) =~= Seq::new(j, f).push(f(j as int)));
        Seq::new(j, f).lemma_flatten_push(f(j as int));
    }
}

/// Cutting a line into rows loses and repeats nothing: the rows, joined,
/// are the line.
pub proof fn law_rows_join_to_line(s: Seq<char>, width: int)
    requires
        width >= 1,
    ensures
        wrapped_rows(s, width).flatten() == s,
{
    let bytes = bytes_of(s);
    lemma_rows_join(bytes, width, row_count(bytes, width));
    lemma_rows_reach_end(bytes, width);
    assert(bytes.subrange(0, bytes.len() as int) =~= bytes);
    assert(wrapped_rows(s, width) =~= Seq::new(
        row_count(bytes, width),
        |k: int|
            decode_utf8(
                bytes.subrange(row_start(bytes, width, k as nat), row_start(bytes, width, (k + 1) as nat)),
            ),
    ));
}

/// Cutting a page into rows loses and repeats nothing: the rows, joined,
/// are the lines of the page, joined.
pub proof fn law_page_rows_join_to_page(lines: Seq<Seq<char>>, width: int)
    requires
        width >= 1,
    ensures
        page_rows(lines, width).flatten() == lines.flatten(),
    decreases lines.len(),
{
    if lines.len() > 0 {
        let rest = lines.drop_last();
        let last = lines.last();
        law_page_rows_join_to_page(rest, width);
        let tail = if last.len() == 0 {
            Seq::<Seq<char>>::empty()
        } else {
            wrapped_rows(last, width)
        };
        lemma_flatten_concat(page_rows(rest, width), tail);
        if last.len() > 0 {
            law_rows_join_to_line(last, width);
        } else {
            assert(tail.flatten() =~= last);
        }
        assert(lines =~= rest.push(last));
        rest.lemma_flatten_push(last);
    }
}

/// Every row of a line ends on a character boundary, so no row cuts a
/// character in two.
pub proof fn law_rows_end_on_character_boundaries(s: Seq<char>, width: int, k: nat)
    requires
        width >= 1,
    ensures
        is_char_boundary(bytes_of(s), row_start(bytes_of(s), width, k)),
{
    lemma_row_start(bytes_of(s), width, k);
}

/// Whether the display goes on or quits.
#[derive(Debug, PartialEq, Eq, Structural, Copy, Clone)]
pub enum Flow {
    Continue,
    Quit,
}

/// When reading automatically, the page turns by itself after the pause:
/// with `auto` on the reader goes to the next page, and otherwise nothing
/// changes.
pub fn auto_advance(fr: &mut FileRead, auto: bool, line_num: &u16)
    requires
        old(fr)@.wf(),
    ensures
        final(fr)@.wf(),
        final(fr)@ == (if auto {
            next_page_view(old(fr)@, *line_num)
        } else {
            old(fr)@
        }),
{
    if auto {
        fr.next_page(line_num);
    }
}

/// What a key does: turn to the next or the previous page, switch
/// automatic reading on or off, or quit; any other key does nothing.
pub fn handle_key(fr: &mut FileRead, auto: &mut bool, key: KeyEvent, line_num: &u16) -> (flow: Flow)
    requires
        old(fr)@.wf(),
    ensures
        final(fr)@.wf(),
        flow == (if key == KeyEvent::ESC {
            Flow::Quit
        } else {
            Flow::Continue
        }),
        final(fr)@ == (match key {
            KeyEvent::NextPage => next_page_view(old(fr)@, *line_num),
            KeyEvent::PreviousPage => pre_page_view(old(fr)@, *line_num),
            _ => old(fr)@,
        }),
        *final(auto) == (match key {
            KeyEvent::AutoRead => true,
            KeyEvent::StopAuto => false,
            _ => *old(auto),
        }),
{
    match key {
        KeyEvent::NextPage => {
            fr.next_page(line_num);
        },
        KeyEvent::PreviousPage => {
            fr.pre_page(line_num);
        },
        KeyEvent::AutoRead => {
            *auto = true;
        },
        KeyEvent::StopAuto => {
            *auto = false;
        },
        KeyEvent::ESC => {
            return Flow::Quit;
        },
        KeyEvent::Other => {},
    }
    Flow::Continue
}

} // verus!
