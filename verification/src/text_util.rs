//! Unicode boundaries for text editing: grapheme clusters (so that an emoji or
//! a combining sequence is never split) and words (UAX #29), as byte offsets.
//!
//! The segmentation itself is the `unicode-segmentation` crate's; this module
//! turns its segments into the boundaries that cursor moves need.
use vstd::prelude::*;
use unicode_segmentation::{GraphemeCursor, UnicodeSegmentation};

verus! {

/// UTF-8 length of a text (the `len` of a `str`).
pub open spec fn byte_len(s: Seq<char>) -> usize {
    vstd::utf8::encode_utf8(s).len() as usize
}

/// Whether byte offset `i` of `s` starts a character (or is its end).
pub open spec fn at_char_boundary(s: Seq<char>, i: int) -> bool {
    vstd::utf8::is_char_boundary(vstd::utf8::encode_utf8(s), i)
}

/// What a grapheme cursor at byte offset `offset` of `text` reports as the
/// previous extended-grapheme boundary (`None` at the start).
pub uninterp spec fn grapheme_prev(text: Seq<char>, offset: usize) -> Option<usize>;

/// What a grapheme cursor at byte offset `offset` of `text` reports as the
/// next extended-grapheme boundary (`None` at the end).
pub uninterp spec fn grapheme_next(text: Seq<char>, offset: usize) -> Option<usize>;

/// The extended grapheme clusters of `text` with their byte offsets.
pub uninterp spec fn grapheme_indices(text: Seq<char>) -> Seq<(usize, Seq<char>)>;

/// The UAX #29 word-boundary segments of `text` with their byte offsets.
pub uninterp spec fn word_bound_indices(text: Seq<char>) -> Seq<(usize, Seq<char>)>;

/// Byte ranges `(start, end)` of segments given with their offsets.
pub open spec fn seg_bounds(segs: Seq<(usize, Seq<char>)>) -> Seq<(int, int)> {
    segs.map_values(|p: (usize, Seq<char>)| (p.0 as int, p.0 + byte_len(p.1)))
}

/// The ranges `b` follow each other from 0 to `len`: none for an empty text,
/// otherwise the first starts at 0, each ends where the next starts, and the
/// last ends at `len`.
pub open spec fn tiles(b: Seq<(int, int)>, len: int) -> bool {
    &&& (b.len() == 0 <==> len == 0)
    &&& b.len() > 0 ==> b[0].0 == 0 && b[b.len() - 1].1 == len
    &&& forall|k: int| 0 <= k < b.len() ==> (#[trigger] b[k]).0 <= b[k].1
    &&& forall|k: int| 0 <= k < b.len() - 1 ==> (#[trigger] b[k]).1 == b[k + 1].0
}

/// Length of the UTF-8 encoding of a text.
pub open spec fn text_len(s: Seq<char>) -> int {
    vstd::utf8::encode_utf8(s).len() as int
}

/// `piece` is the slice of `text` starting at byte offset `at`, a character
/// boundary.
pub open spec fn is_slice_at(text: Seq<char>, at: int, piece: Seq<char>) -> bool {
    &&& at_char_boundary(text, at)
    &&& at + byte_len(piece) <= text_len(text)
    &&& vstd::utf8::encode_utf8(piece) == vstd::utf8::encode_utf8(text).subrange(at, at + byte_len(piece))
}

pub open spec fn segs_view(v: Seq<(usize, &str)>) -> Seq<(usize, Seq<char>)> {
    v.map_values(|p: (usize, &str)| (p.0, p.1@))
}

/// `GraphemeCursor::new(offset, len, true)` then `prev_boundary(text, 0)`
/// of unicode-segmentation: the grapheme boundary before `offset`, named by
/// [`grapheme_prev`]. It is `None` exactly at offset 0 and otherwise lies
/// before `offset`. `offset` must be a character boundary of the text (the
/// crate slices the text there). The crate's incomplete-chunk errors, which
/// cannot arise with the whole text as one chunk at 0, give `None`.
#[verifier::external_body]
fn grapheme_cursor_prev(text: &str, offset: usize) -> (r: Option<usize>)
    requires
        offset <= byte_len(text@),
        at_char_boundary(text@, offset as int),
    ensures
        r == grapheme_prev(text@, offset),
        r is None <==> offset == 0,
        r matches Some(b) ==> b < offset,
{
    let mut cursor = GraphemeCursor::new(offset, text.len(), true);
    match cursor.prev_boundary(text, 0) {
        Ok(found) => found,
        Err(_) => None,
    }
}

/// `GraphemeCursor::new(offset, len, true)` then `next_boundary(text, 0)`
/// of unicode-segmentation: the grapheme boundary after `offset`, named by
/// [`grapheme_next`]. It is `None` exactly at the end of the text and
/// otherwise lies after `offset`, within the text. `offset` must be a
/// character boundary of the text; incomplete-chunk errors give `None`.
#[verifier::external_body]
fn grapheme_cursor_next(text: &str, offset: usize) -> (r: Option<usize>)
    requires
        offset <= byte_len(text@),
        at_char_boundary(text@, offset as int),
    ensures
        r == grapheme_next(text@, offset),
        r is None <==> offset == byte_len(text@),
        r matches Some(b) ==> offset < b <= byte_len(text@),
{
    let mut cursor = GraphemeCursor::new(offset, text.len(), true);
    match cursor.next_boundary(text, 0) {
        Ok(found) => found,
        Err(_) => None,
    }
}

/// `UnicodeSegmentation::grapheme_indices(text, true)`, collected: the
/// extended grapheme clusters of `text` with their byte offsets, named by
/// [`grapheme_indices`]. They are non-empty slices of the text at their
/// offsets, which are character boundaries, and follow each other from the
/// start of the text to its end.
#[verifier::external_body]
fn grapheme_index_list<'a>(text: &'a str) -> (r: Vec<(usize, &'a str)>)
    ensures
        segs_view(r@) == grapheme_indices(text@),
        forall|k: int| 0 <= k < r@.len() ==> r@[k].0 + byte_len(#[trigger] r@[k].1@) <= byte_len(text@),
        forall|k: int| 0 <= k < r@.len() ==> is_slice_at(text@, #[trigger] r@[k].0 as int, r@[k].1@),
        tiles(seg_bounds(segs_view(r@)), text_len(text@)),
        forall|k: int| 0 <= k < r@.len() ==> byte_len(#[trigger] r@[k].1@) > 0,
{
    text.grapheme_indices(true).collect()
}

/// `UnicodeSegmentation::split_word_bound_indices(text)`, collected: the
/// UAX #29 word-boundary segments of `text` with their byte offsets, named
/// by [`word_bound_indices`]. They are slices of the text at their offsets,
/// which are character boundaries, and follow each other from the start of
/// the text to its end.
#[verifier::external_body]
fn word_bound_list<'a>(text: &'a str) -> (r: Vec<(usize, &'a str)>)
    ensures
        segs_view(r@) == word_bound_indices(text@),
        forall|k: int| 0 <= k < r@.len() ==> r@[k].0 + byte_len(#[trigger] r@[k].1@) <= byte_len(text@),
        forall|k: int| 0 <= k < r@.len() ==> is_slice_at(text@, #[trigger] r@[k].0 as int, r@[k].1@),
        tiles(seg_bounds(segs_view(r@)), text_len(text@)),
{
    text.split_word_bound_indices().collect()
}

pub open spec fn clamp_len(i: usize, s: Seq<char>) -> usize {
    if i < byte_len(s) {
        i
    } else {
        byte_len(s)
    }
}

/// Previous grapheme boundary before byte offset `i` (clamped to the text):
/// strictly before it, and 0 at the start.
pub fn prev_boundary(text: &str, i: usize) -> (r: usize)
    requires
        at_char_boundary(text@, clamp_len(i, text@) as int),
    ensures
        r == match grapheme_prev(text@, clamp_len(i, text@)) {
            Some(b) => b,
            None => clamp_len(i, text@),
        },
        clamp_len(i, text@) == 0 ==> r == 0,
        clamp_len(i, text@) > 0 ==> r < clamp_len(i, text@),
{
    let len = text.len();
    let i = if i < len {
        i
    } else {
        len
    };
    match grapheme_cursor_prev(text, i) {
        Some(b) => b,
        None => i,
    }
}

/// Next grapheme boundary after byte offset `i` (clamped to the text):
/// strictly after it and within the text, and the text's length at the end.
pub fn next_boundary(text: &str, i: usize) -> (r: usize)
    requires
        at_char_boundary(text@, clamp_len(i, text@) as int),
    ensures
        r == match grapheme_next(text@, clamp_len(i, text@)) {
            Some(b) => b,
            None => clamp_len(i, text@),
        },
        clamp_len(i, text@) == byte_len(text@) ==> r == byte_len(text@),
        clamp_len(i, text@) < byte_len(text@) ==> clamp_len(i, text@) < r <= byte_len(text@),
{
    let len = text.len();
    let i = if i < len {
        i
    } else {
        len
    };
    match grapheme_cursor_next(text, i) {
        Some(b) => b,
        None => i,
    }
}


pub open spec fn bounds_view(v: Seq<(usize, usize)>) -> Seq<(int, int)> {
    v.map_values(|p: (usize, usize)| (p.0 as int, p.1 as int))
}

/// Byte ranges `(start, end)` of the extended grapheme clusters of `text`:
/// non-empty, one after the other, covering the text, each from a character
/// boundary to a character boundary and holding exactly its cluster.
pub fn graphemes_bounds(text: &str) -> (r: Vec<(usize, usize)>)
    ensures
        bounds_view(r@) == seg_bounds(grapheme_indices(text@)),
        tiles(bounds_view(r@), text_len(text@)),
        forall|k: int| 0 <= k < r@.len() ==> (#[trigger] r@[k]).0 < r@[k].1,
        forall|k: int|
            0 <= k < r@.len() ==> at_char_boundary(text@, (#[trigger] r@[k]).0 as int) && at_char_boundary(
                text@,
                r@[k].1 as int,
            ),
        forall|k: int|
            0 <= k < r@.len() ==> vstd::utf8::encode_utf8(grapheme_indices(text@)[k].1)
                == vstd::utf8::encode_utf8(text@).subrange((#[trigger] r@[k]).0 as int, r@[k].1 as int),
{
    let segs = grapheme_index_list(text);
    let mut out: Vec<(usize, usize)> = Vec::new();
    let mut k: usize = 0;
    while k < segs.len()
        invariant
            k <= segs@.len(),
            segs_view(segs@) == grapheme_indices(text@),
            forall|j: int| 0 <= j < segs@.len() ==> segs@[j].0 + byte_len(#[trigger] segs@[j].1@) <= byte_len(text@),
            bounds_view(out@) == seg_bounds(segs_view(segs@)).take(k as int),
        decreases segs.len() - k,
    {
        let (a, s) = segs[k];
        assert(segs@[k as int].0 + byte_len(segs@[k as int].1@) <= byte_len(text@));
        let e = a + s.len();
        assert(segs_view(segs@)[k as int] == (a, s@));
        assert(seg_bounds(segs_view(segs@))[k as int] == (a as int, e as int));
        let ghost before = bounds_view(out@);
        out.push((a, e));
        assert(bounds_view(out@) =~= before.push((a as int, e as int)));
        assert(seg_bounds(segs_view(segs@)).take(k + 1) =~= seg_bounds(segs_view(segs@)).take(k as int).push(
            (a as int, e as int),
        ));
        k = k + 1;
        assert(bounds_view(out@) =~= seg_bounds(segs_view(segs@)).take(k as int));
    }
    assert(seg_bounds(segs_view(segs@)).take(k as int) =~= seg_bounds(grapheme_indices(text@)));
    proof {
        let bv = bounds_view(out@);
        assert forall|j: int| 0 <= j < out@.len() implies (#[trigger] out@[j]).0 < out@[j].1 by {
            assert(bv[j] == (out@[j].0 as int, out@[j].1 as int));
            assert(segs_view(segs@)[j] == (segs@[j].0, segs@[j].1@));
            assert(byte_len(segs@[j].1@) > 0);
        }
        let n = out@.len() as int;
        let bytes = vstd::utf8::encode_utf8(text@);
        vstd::utf8::encode_utf8_valid_utf8(text@);
        vstd::utf8::is_char_boundary_start_end_of_seq(bytes);
        assert forall|j: int| 0 <= j < n implies at_char_boundary(text@, (#[trigger] out@[j]).0 as int)
            && at_char_boundary(text@, out@[j].1 as int) && vstd::utf8::encode_utf8(grapheme_indices(text@)[j].1)
            == bytes.subrange(out@[j].0 as int, out@[j].1 as int) by {
            assert(bv[j] == (out@[j].0 as int, out@[j].1 as int));
            assert(segs_view(segs@)[j] == (segs@[j].0, segs@[j].1@));
            assert(is_slice_at(text@, segs@[j].0 as int, segs@[j].1@));
            assert(at_char_boundary(text@, out@[j].0 as int));
            assert(out@[j].1 as int == segs@[j].0 + byte_len(segs@[j].1@));
            assert(grapheme_indices(text@)[j].1 == segs@[j].1@);
            assert(vstd::utf8::encode_utf8(grapheme_indices(text@)[j].1) == bytes.subrange(out@[j].0 as int, out@[j].1 as int));
            if j + 1 < n {
                assert(bv[j + 1] == (out@[j + 1].0 as int, out@[j + 1].1 as int));
                assert(segs_view(segs@)[j + 1] == (segs@[j + 1].0, segs@[j + 1].1@));
                assert(is_slice_at(text@, segs@[j + 1].0 as int, segs@[j + 1].1@));
                assert(bv[j].1 == bv[j + 1].0);
            } else {
                assert(bv[n - 1].1 == text_len(text@));
            }
        }
    }
    out
}

/// `k` is the first segment whose end reaches byte offset `i`.
pub open spec fn is_first_reaching(b: Seq<(int, int)>, i: int, k: int) -> bool {
    0 <= k < b.len() && b[k].1 >= i && forall|j: int| 0 <= j < k ==> (#[trigger] b[j]).1 < i
}

/// Previous word boundary before `i` (clamped): the end of the last word
/// segment that ends before `i`, or 0.
pub open spec fn prev_word_spec(b: Seq<(int, int)>, i: int) -> int {
    if i == 0 {
        0
    } else if exists|k: int| is_first_reaching(b, i, k) {
        let k = choose|k: int| is_first_reaching(b, i, k);
        if k == 0 {
            0
        } else {
            b[k - 1].1
        }
    } else if b.len() == 0 {
        0
    } else {
        b[b.len() - 1].1
    }
}

/// `k` is the first segment starting after byte offset `i`.
pub open spec fn is_first_after(b: Seq<(int, int)>, i: int, k: int) -> bool {
    0 <= k < b.len() && b[k].0 > i && forall|j: int| 0 <= j < k ==> (#[trigger] b[j]).0 <= i
}

/// Next word boundary after `i` (clamped): the start of the first word
/// segment after `i`, or the end of the text.
pub open spec fn next_word_spec(b: Seq<(int, int)>, i: int, len: int) -> int {
    if i == len {
        len
    } else if exists|k: int| is_first_after(b, i, k) {
        b[choose|k: int| is_first_after(b, i, k)].0
    } else {
        len
    }
}

/// Segment ends of ranges that follow each other never decrease.
proof fn lemma_tile_ends_sorted(b: Seq<(int, int)>, len: int, i: int, j: int)
    requires
        tiles(b, len),
        0 <= i <= j < b.len(),
    ensures
        b[i].1 <= b[j].1,
    decreases j - i,
{
    if i < j {
        lemma_tile_ends_sorted(b, len, i, j - 1);
        assert(b[j - 1].1 == b[j].0);
        assert(b[j].0 <= b[j].1);
    }
}

/// Previous word boundary before byte offset `i` (clamped to the text): the
/// end of the last UAX #29 word segment that ends before `i`; 0 at the start.
/// It is the largest segment end before `i`, or 0 when there is none.
pub fn prev_word_boundary(text: &str, i: usize) -> (r: usize)
    ensures
        r == prev_word_spec(seg_bounds(word_bound_indices(text@)), clamp_len(i, text@) as int),
        clamp_len(i, text@) > 0 ==> r < clamp_len(i, text@),
        clamp_len(i, text@) == 0 ==> r == 0,
        r == 0 || exists|k: int|
            0 <= k < word_bound_indices(text@).len() && #[trigger] seg_bounds(word_bound_indices(text@))[k].1
                == r,
        forall|k: int|
            0 <= k < word_bound_indices(text@).len() && #[trigger] seg_bounds(word_bound_indices(text@))[k].1
                < clamp_len(i, text@) ==> seg_bounds(word_bound_indices(text@))[k].1 <= r,
{
    let len = text.len();
    let ic = if i < len {
        i
    } else {
        len
    };
    assert(ic == clamp_len(i, text@));
    if ic == 0 {
        return 0;
    }
    let segs = word_bound_list(text);
    let ghost b = seg_bounds(segs_view(segs@));
    let mut last_end: usize = 0;
    let mut k: usize = 0;
    while k < segs.len()
        invariant
            k <= segs@.len(),
            b == seg_bounds(segs_view(segs@)),
            segs_view(segs@) == word_bound_indices(text@),
            ic == clamp_len(i, text@),
            b.len() == segs@.len(),
            forall|j: int| 0 <= j < segs@.len() ==> segs@[j].0 + byte_len(#[trigger] segs@[j].1@) <= byte_len(text@),
            forall|j: int| 0 <= j < k ==> (#[trigger] b[j]).1 < ic,
            last_end == (if k == 0 { 0 } else { b[k - 1].1 }),
            tiles(b, text_len(text@)),
            ic > 0,
        decreases segs.len() - k,
    {
        let (start, word) = segs[k];
        assert(segs@[k as int].0 + byte_len(segs@[k as int].1@) <= byte_len(text@));
        let end = start + word.len();
        assert(segs_view(segs@)[k as int] == (start, word@));
        assert(b[k as int].1 == end);
        if end >= ic {
            proof {
                assert(is_first_reaching(b, ic as int, k as int));
                let c = choose|c: int| is_first_reaching(b, ic as int, c);
                if c < k {
                    assert(b[c].1 < ic);
                } else if c > k {
                    assert(b[k as int].1 < ic);
                }
                assert forall|j: int| 0 <= j < b.len() && #[trigger] b[j].1 < ic implies b[j].1 <= last_end by {
                    if j >= k {
                        lemma_tile_ends_sorted(b, text_len(text@), k as int, j);
                    } else {
                        lemma_tile_ends_sorted(b, text_len(text@), j, k - 1);
                    }
                }
                if k > 0 {
                    assert(b[k - 1].1 == last_end);
                }
            }
            return last_end;
        }
        last_end = end;
        k = k + 1;
    }
    assert(!exists|c: int| is_first_reaching(b, ic as int, c));
    proof {
        assert forall|j: int| 0 <= j < b.len() && #[trigger] b[j].1 < ic implies b[j].1 <= last_end by {
            lemma_tile_ends_sorted(b, text_len(text@), j, k - 1);
        }
        if k > 0 {
            assert(b[k - 1].1 == last_end);
        }
    }
    last_end
}

/// Next word boundary after byte offset `i` (clamped to the text): the start
/// of the first UAX #29 word segment after `i`, or the end of the text.
pub fn next_word_boundary(text: &str, i: usize) -> (r: usize)
    ensures
        r == next_word_spec(seg_bounds(word_bound_indices(text@)), clamp_len(i, text@) as int, byte_len(text@) as int),
{
    let len = text.len();
    let ic = if i < len {
        i
    } else {
        len
    };
    assert(ic == clamp_len(i, text@));
    if ic == len {
        return len;
    }
    let segs = word_bound_list(text);
    let ghost b = seg_bounds(segs_view(segs@));
    let mut k: usize = 0;
    while k < segs.len()
        invariant
            k <= segs@.len(),
            b == seg_bounds(segs_view(segs@)),
            segs_view(segs@) == word_bound_indices(text@),
            ic == clamp_len(i, text@),
            len == byte_len(text@),
            ic != len,
            b.len() == segs@.len(),
            forall|j: int| 0 <= j < k ==> (#[trigger] b[j]).0 <= ic,
        decreases segs.len() - k,
    {
        let (start, _) = segs[k];
        assert(segs_view(segs@)[k as int] == (start, segs@[k as int].1@));
        assert(b[k as int].0 == start);
        if start > ic {
            proof {
                assert(is_first_after(b, ic as int, k as int));
                let c = choose|c: int| is_first_after(b, ic as int, c);
                if c < k {
                    assert(b[c].0 <= ic);
                } else if c > k {
                    assert(b[k as int].0 <= ic);
                }
            }
            return start;
        }
        k = k + 1;
    }
    assert(!exists|c: int| is_first_after(b, ic as int, c));
    len
}

} // verus!
