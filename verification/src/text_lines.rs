//! Lines of a text, counted in characters: their ranges, the line of an
//! offset, the start and end of the line of an offset, the line an arrow up
//! or down moves into, and the line shown in a row.
use vstd::prelude::*;

verus! {

broadcast use vstd::string::axiom_spec_iter;

/// The characters of `text`, in order.
pub fn chars_of(text: &str) -> (r: Vec<char>)
    ensures
        r@ == text@,
{
    let mut out: Vec<char> = Vec::new();
    for c in it: text.chars()
        invariant
            out@ == it.seq().take(it.index() as int),
    {
        out.push(c);
        assert(out@ =~= it.seq().take(it.index() as int + 1));
    }
    assert(out@ =~= text@);
    out
}


/// `p` is the position of the last newline of `s`.
pub open spec fn is_last_newline(s: Seq<char>, p: int) -> bool {
    0 <= p < s.len() && s[p] == '\n' && forall|k: int| p < k < s.len() ==> s[k] != '\n'
}

/// `k` is the position of the first newline of `s` at or after `m`.
pub open spec fn is_first_newline_from(s: Seq<char>, m: int, k: int) -> bool {
    m <= k < s.len() && s[k] == '\n' && forall|j: int| m <= j < k ==> s[j] != '\n'
}

/// Character ranges `(start, end)` of the lines of `s`, the newlines left
/// out; a text without newline is one line.
pub open spec fn line_ranges_spec(s: Seq<char>) -> Seq<(int, int)>
    decreases s.len(),
{
    if exists|p: int| is_last_newline(s, p) {
        let p = choose|p: int| is_last_newline(s, p);
        line_ranges_spec(s.take(p)) + seq![(p + 1, s.len() as int)]
    } else {
        seq![(0, s.len() as int)]
    }
}

/// Number of newlines in `s`.
pub open spec fn newline_count(s: Seq<char>) -> nat
    decreases s.len(),
{
    if s.len() == 0 {
        0
    } else {
        newline_count(s.drop_last()) + if s.last() == '\n' { 1nat } else { 0nat }
    }
}

pub open spec fn min_len(idx: int, s: Seq<char>) -> int {
    if idx < s.len() {
        idx
    } else {
        s.len() as int
    }
}

/// Index of the line holding character `offset` (newlines before it).
pub open spec fn line_index_spec(s: Seq<char>, offset: int) -> nat {
    newline_count(s.take(min_len(offset, s)))
}

/// Start of the line holding character `idx`: just after the last newline
/// before it, or 0.
pub open spec fn line_start_spec(s: Seq<char>, idx: int) -> int {
    let t = s.take(min_len(idx, s));
    if exists|p: int| is_last_newline(t, p) {
        (choose|p: int| is_last_newline(t, p)) + 1
    } else {
        0
    }
}

/// End of the line holding character `idx`: the next newline at or after it,
/// or the end of the text (an index past the end stays where it is).
pub open spec fn line_end_spec(s: Seq<char>, idx: int) -> int {
    let m = min_len(idx, s);
    if exists|k: int| is_first_newline_from(s, m, k) {
        idx + ((choose|k: int| is_first_newline_from(s, m, k)) - m)
    } else {
        idx + (s.len() - m)
    }
}

pub open spec fn ranges_view(v: Seq<(usize, usize)>) -> Seq<(int, int)> {
    v.map_values(|p: (usize, usize)| (p.0 as int, p.1 as int))
}

proof fn lemma_last_newline_unique(s: Seq<char>, p: int, q: int)
    requires
        is_last_newline(s, p),
        is_last_newline(s, q),
    ensures
        p == q,
{
}

proof fn lemma_line_ranges_step(s: Seq<char>, i: int)
    requires
        0 <= i < s.len(),
    ensures
        s[i] == '\n' ==> line_ranges_spec(s.take(i + 1)) == line_ranges_spec(s.take(i)) + seq![(i + 1, i + 1)],
        s[i] != '\n' ==> line_ranges_spec(s.take(i + 1)) == line_ranges_spec(s.take(i)).drop_last().push(
            (line_ranges_spec(s.take(i)).last().0, i + 1),
        ),
        line_ranges_spec(s.take(i)).len() > 0,
{
    let t = s.take(i);
    let t1 = s.take(i + 1);
    assert(t1.take(i) =~= t);
    if s[i] == '\n' {
        assert(is_last_newline(t1, i));
        let c = choose|p: int| is_last_newline(t1, p);
        lemma_last_newline_unique(t1, i, c);
    } else {
        if exists|p: int| is_last_newline(t, p) {
            let p = choose|p: int| is_last_newline(t, p);
            assert(is_last_newline(t1, p));
            let c = choose|q: int| is_last_newline(t1, q);
            lemma_last_newline_unique(t1, p, c);
            assert(t1.take(p) =~= t.take(p));
            assert(line_ranges_spec(t) == line_ranges_spec(t.take(p)) + seq![(p + 1, i)]);
            assert(line_ranges_spec(t1) =~= line_ranges_spec(t).drop_last().push((line_ranges_spec(t).last().0, i + 1)));
        } else {
            assert forall|q: int| !is_last_newline(t1, q) by {
                if is_last_newline(t1, q) {
                    if q < i {
                        assert(forall|k: int| q < k < i ==> t[k] != '\n');
                        assert(is_last_newline(t, q));
                    }
                }
            }
            assert(line_ranges_spec(t1) =~= line_ranges_spec(t).drop_last().push((line_ranges_spec(t).last().0, i + 1)));
        }
    }
    if exists|p: int| is_last_newline(t, p) {
    } else {
    }
}

/// Character ranges `(start, end)` of the lines of `text`, in order; the
/// newlines themselves are in no range.
pub fn display_line_ranges(text: &str) -> (r: Vec<(usize, usize)>)
    ensures
        ranges_view(r@) == line_ranges_spec(text@),
{
    let chars = chars_of(text);
    let ghost s = text@;
    let mut ranges: Vec<(usize, usize)> = Vec::new();
    let mut start: usize = 0;
    let mut i: usize = 0;
    assert(s.take(0) =~= Seq::<char>::empty());
    assert(!exists|p: int| is_last_newline(s.take(0), p));
    assert(ranges_view(ranges@).push((start as int, i as int)) =~= line_ranges_spec(s.take(0)));
    while i < chars.len()
        invariant
            chars@ == s,
            s == text@,
            start <= i <= s.len(),
            ranges_view(ranges@).push((start as int, i as int)) == line_ranges_spec(s.take(i as int)),
        decreases chars.len() - i,
    {
        proof {
            lemma_line_ranges_step(s, i as int);
        }
        let ghost before = line_ranges_spec(s.take(i as int));
        if chars[i] == '\n' {
            ranges.push((start, i));
            start = i + 1;
            assert(ranges_view(ranges@).push((start as int, (i + 1) as int)) =~= before + seq![((i + 1) as int, (i + 1) as int)]);
        } else {
            assert(ranges_view(ranges@).push((start as int, (i + 1) as int)) =~= before.drop_last().push(
                (before.last().0, (i + 1) as int),
            ));
        }
        i = i + 1;
    }
    ranges.push((start, i));
    assert(s.take(i as int) =~= s);
    assert(ranges_view(ranges@) =~= line_ranges_spec(s));
    ranges
}

/// Index of the line that holds character `offset`: the number of newlines
/// before it.
pub fn line_index_for_offset(text: &str, offset: usize) -> (r: usize)
    ensures
        r == line_index_spec(text@, offset as int),
{
    let chars = chars_of(text);
    let ghost s = text@;
    let mut line: usize = 0;
    let mut i: usize = 0;
    while i < chars.len() && i < offset
        invariant
            chars@ == s,
            s == text@,
            i <= s.len(),
            i <= offset || i == 0,
            line == newline_count(s.take(i as int)),
            line <= i,
        decreases chars.len() - i,
    {
        let ghost t = s.take(i + 1);
        assert(t.drop_last() =~= s.take(i as int));
        if chars[i] == '\n' {
            line = line + 1;
        }
        i = i + 1;
    }
    assert(i as int == min_len(offset as int, s));
    line
}

/// Start of the line that holds character `idx` (Home): just after the last
/// newline before it, or 0.
pub fn line_start_index(text: &str, idx: usize) -> (r: usize)
    ensures
        r == line_start_spec(text@, idx as int),
{
    let chars = chars_of(text);
    let ghost s = text@;
    let m = if idx < chars.len() {
        idx
    } else {
        chars.len()
    };
    let ghost t = s.take(m as int);
    let mut j: usize = m;
    while j > 0
        invariant
            chars@ == s,
            s == text@,
            m <= s.len(),
            t == s.take(m as int),
            m as int == min_len(idx as int, s),
            j <= m,
            forall|k: int| j <= k < m ==> s[k] != '\n',
        decreases j,
    {
        if chars[j - 1] == '\n' {
            proof {
                assert(is_last_newline(t, j - 1));
                assert(exists|p: int| is_last_newline(t, p));
                let c = choose|p: int| is_last_newline(t, p);
                lemma_last_newline_unique(t, (j - 1) as int, c);
                assert(m as int == min_len(idx as int, s));
            }
            return j;
        }
        j = j - 1;
    }
    assert(!exists|p: int| is_last_newline(t, p));
    assert(m as int == min_len(idx as int, s));
    0
}

/// End of the line that holds character `idx` (End): the next newline at or
/// after it, or the end of the text.
pub fn line_end_index(text: &str, idx: usize) -> (r: usize)
    ensures
        r == line_end_spec(text@, idx as int),
{
    let chars = chars_of(text);
    let ghost s = text@;
    let n = chars.len();
    let m = if idx < n {
        idx
    } else {
        n
    };
    let mut k: usize = m;
    while k < n
        invariant
            chars@ == s,
            s == text@,
            n == s.len(),
            m <= k <= n,
            m == min_len(idx as int, s),
            forall|j: int| m <= j < k ==> s[j] != '\n',
        decreases n - k,
    {
        if chars[k] == '\n' {
            proof {
                assert(is_first_newline_from(s, m as int, k as int));
                assert(exists|q: int| is_first_newline_from(s, m as int, q));
                let c = choose|q: int| is_first_newline_from(s, m as int, q);
                if c < k {
                    assert(s[c] != '\n');
                } else if c > k {
                    assert(s[k as int] != '\n');
                }
                assert(c == k);
                assert(line_end_spec(s, idx as int) == idx + (k - m));
            }
            return idx + (k - m);
        }
        k = k + 1;
    }
    assert(!exists|q: int| is_first_newline_from(s, m as int, q));
    idx + (n - m)
}

proof fn lemma_newline_count_step(s: Seq<char>, j: int)
    requires
        0 <= j < s.len(),
    ensures
        newline_count(s.take(j + 1)) == newline_count(s.take(j)) + (if s[j] == '\n' { 1nat } else { 0nat }),
{
    assert(s.take(j + 1).drop_last() =~= s.take(j));
}

/// Without newlines in `[a, b)`, the prefixes up to `a` and `b` hold as many.
proof fn lemma_newline_count_flat(s: Seq<char>, a: int, b: int)
    requires
        0 <= a <= b <= s.len(),
        forall|j: int| a <= j < b ==> s[j] != '\n',
    ensures
        newline_count(s.take(b)) == newline_count(s.take(a)),
    decreases b - a,
{
    if a < b {
        lemma_newline_count_step(s, b - 1);
        lemma_newline_count_flat(s, a, b - 1);
    }
}

/// A text with a newline has a last one.
proof fn lemma_newline_has_last(s: Seq<char>, j: int)
    requires
        0 <= j < s.len(),
        s[j] == '\n',
    ensures
        exists|p: int| is_last_newline(s, p),
    decreases s.len() - j,
{
    if forall|k: int| j < k < s.len() ==> s[k] != '\n' {
        assert(is_last_newline(s, j));
    } else {
        let k = choose|k: int| j < k < s.len() && s[k] == '\n';
        lemma_newline_has_last(s, k);
    }
}

/// A text without a last newline has no newline.
proof fn lemma_no_newline(s: Seq<char>)
    requires
        !exists|p: int| is_last_newline(s, p),
    ensures
        forall|j: int| 0 <= j < s.len() ==> s[j] != '\n',
{
    assert forall|j: int| 0 <= j < s.len() implies s[j] != '\n' by {
        if s[j] == '\n' {
            lemma_newline_has_last(s, j);
        }
    }
}

proof fn lemma_take_all(s: Seq<char>)
    ensures
        s.take(s.len() as int) == s,
{
    assert(s.take(s.len() as int) =~= s);
}

/// Law: a text has one line more than it has newlines, and each line range
/// lies inside the text, start before end.
pub proof fn law_line_ranges_shape(s: Seq<char>)
    ensures
        line_ranges_spec(s).len() == newline_count(s) + 1,
        forall|k: int|
            0 <= k < line_ranges_spec(s).len() ==> 0 <= (#[trigger] line_ranges_spec(s)[k]).0
                <= line_ranges_spec(s)[k].1 <= s.len(),
    decreases s.len(),
{
    lemma_take_all(s);
    if exists|p: int| is_last_newline(s, p) {
        let p = choose|p: int| is_last_newline(s, p);
        let t = s.take(p);
        law_line_ranges_shape(t);
        lemma_newline_count_flat(s, p + 1, s.len() as int);
        lemma_newline_count_step(s, p);
        assert(s.take(p) == t);
        let r = line_ranges_spec(s);
        assert(r == line_ranges_spec(t) + seq![(p + 1, s.len() as int)]);
        assert forall|k: int| 0 <= k < r.len() implies 0 <= (#[trigger] r[k]).0 <= r[k].1 <= s.len() by {
            if k < line_ranges_spec(t).len() {
                assert(r[k] == line_ranges_spec(t)[k]);
            }
        }
    } else {
        lemma_no_newline(s);
        lemma_newline_count_flat(s, 0, s.len() as int);
        assert(s.take(0) =~= Seq::<char>::empty());
    }
}

/// Law: `line_index_for_offset` gives, for an offset inside the range of a
/// line of `display_line_ranges` (ends included), the index of that line.
pub proof fn law_offset_in_line(s: Seq<char>, k: int, o: int)
    requires
        0 <= k < line_ranges_spec(s).len(),
        line_ranges_spec(s)[k].0 <= o <= line_ranges_spec(s)[k].1,
    ensures
        line_index_spec(s, o) == k,
    decreases s.len(),
{
    law_line_ranges_shape(s);
    lemma_take_all(s);
    if exists|p: int| is_last_newline(s, p) {
        let p = choose|p: int| is_last_newline(s, p);
        let t = s.take(p);
        let rt = line_ranges_spec(t);
        law_line_ranges_shape(t);
        assert(line_ranges_spec(s) == rt + seq![(p + 1, s.len() as int)]);
        if k < rt.len() {
            assert(line_ranges_spec(s)[k] == rt[k]);
            law_offset_in_line(t, k, o);
            assert(t.take(o) =~= s.take(o));
        } else {
            lemma_newline_count_flat(s, p + 1, o);
            lemma_newline_count_step(s, p);
            assert(s.take(p) == t);
            lemma_take_all(t);
        }
    } else {
        lemma_no_newline(s);
        lemma_newline_count_flat(s, 0, o);
        assert(s.take(0) =~= Seq::<char>::empty());
    }
}

proof fn lemma_newline_count_prefix(s: Seq<char>, m: int)
    requires
        0 <= m <= s.len(),
    ensures
        newline_count(s.take(m)) <= newline_count(s),
    decreases s.len() - m,
{
    if m < s.len() {
        lemma_newline_count_step(s, m);
        lemma_newline_count_prefix(s, m + 1);
    } else {
        lemma_take_all(s);
    }
}

/// Where an up or down arrow takes the cursor of a multi-line text.
#[derive(Copy, Clone, Debug, PartialEq, Eq, Structural)]
pub enum VerticalMove {
    /// To the start of the text (up from the first line).
    TextStart,
    /// To the end of the text (down from the last line).
    TextEnd,
    /// Into line `index`, whose characters run from `start` to `end`; the
    /// column is found from the cursor's horizontal position.
    ToLine { index: usize, start: usize, end: usize },
}

/// The move of an up (`up`) or down arrow from character `idx` of `text`:
/// up from the first line goes to the text start, down from the last line to
/// the text end, otherwise into the line above or below.
pub open spec fn vertical_move_spec(s: Seq<char>, idx: int, up: bool) -> VerticalMove {
    let lines = line_ranges_spec(s);
    let cur = line_index_spec(s, idx) as int;
    if up {
        if cur == 0 {
            VerticalMove::TextStart
        } else {
            VerticalMove::ToLine {
                index: (cur - 1) as usize,
                start: lines[cur - 1].0 as usize,
                end: lines[cur - 1].1 as usize,
            }
        }
    } else if cur >= lines.len() - 1 {
        VerticalMove::TextEnd
    } else {
        VerticalMove::ToLine {
            index: (cur + 1) as usize,
            start: lines[cur + 1].0 as usize,
            end: lines[cur + 1].1 as usize,
        }
    }
}

/// Where an arrow up (`up`) or down moves the cursor from character `idx`
/// (see [`vertical_move_spec`]).
pub fn vertical_move(text: &str, idx: usize, up: bool) -> (r: VerticalMove)
    ensures
        r == vertical_move_spec(text@, idx as int, up),
{
    let lines = display_line_ranges(text);
    let cur = line_index_for_offset(text, idx);
    proof {
        law_line_ranges_shape(text@);
        lemma_newline_count_prefix(text@, min_len(idx as int, text@));
    }
    if up {
        if cur == 0 {
            VerticalMove::TextStart
        } else {
            let (start, end) = lines[cur - 1];
            VerticalMove::ToLine { index: cur - 1, start, end }
        }
    } else if cur >= lines.len() - 1 {
        VerticalMove::TextEnd
    } else {
        let (start, end) = lines[cur + 1];
        VerticalMove::ToLine { index: cur + 1, start, end }
    }
}

proof fn lemma_newline_count_le_len(s: Seq<char>)
    ensures
        newline_count(s) <= s.len(),
    decreases s.len(),
{
    if s.len() > 0 {
        lemma_newline_count_le_len(s.drop_last());
    }
}

/// Law: an arrow moves between neighbouring lines. From a character on line
/// `k` (as `line_index_for_offset` counts), arrow up goes to the text start
/// exactly on the first line and otherwise into line `k - 1`; arrow down goes
/// to the text end exactly on the last line and otherwise into line `k + 1`.
/// The line moved into carries its range from `display_line_ranges`, and every
/// offset of that range lies on that line.
pub proof fn law_vertical_move_neighbour(s: Seq<char>, idx: int, up: bool)
    requires
        0 <= idx,
        s.len() <= usize::MAX,
    ensures
        up ==> (vertical_move_spec(s, idx, up) is TextStart <==> line_index_spec(s, idx) == 0),
        up ==> !(vertical_move_spec(s, idx, up) is TextEnd),
        !up ==> (vertical_move_spec(s, idx, up) is TextEnd <==> line_index_spec(s, idx) + 1 == line_ranges_spec(
            s,
        ).len()),
        !up ==> !(vertical_move_spec(s, idx, up) is TextStart),
        vertical_move_spec(s, idx, up) matches VerticalMove::ToLine { index, start, end } ==> {
            &&& (if up { index + 1 == line_index_spec(s, idx) } else { index == line_index_spec(s, idx) + 1 })
            &&& index < line_ranges_spec(s).len()
            &&& start == line_ranges_spec(s)[index as int].0 && end == line_ranges_spec(s)[index as int].1
            &&& forall|o: int| start <= o <= end ==> line_index_spec(s, o) == index
        },
{
    law_line_ranges_shape(s);
    lemma_newline_count_prefix(s, min_len(idx, s));
    lemma_newline_count_le_len(s);
    let k = line_index_spec(s, idx) as int;
    let lines = line_ranges_spec(s);
    let m = vertical_move_spec(s, idx, up);
    if let VerticalMove::ToLine { index, start, end } = m {
        let t = if up { k - 1 } else { k + 1 };
        assert(0 <= t < lines.len());
        assert(0 <= lines[t].0 <= lines[t].1 <= s.len());
        assert(index == t && start == lines[t].0 && end == lines[t].1);
        assert forall|o: int| start <= o <= end implies line_index_spec(s, o) == index by {
            law_offset_in_line(s, t, o);
        }
    }
}

/// The range of the line shown in row `row` of the text (rows below the
/// last line fall on the last line).
pub fn line_at_row(text: &str, row: usize) -> (r: (usize, usize))
    ensures
        ({
            let lines = line_ranges_spec(text@);
            let k = if row < lines.len() { row as int } else { lines.len() - 1 };
            r.0 == lines[k].0 && r.1 == lines[k].1
        }),
{
    let lines = display_line_ranges(text);
    proof {
        law_line_ranges_shape(text@);
    }
    let k = if row < lines.len() { row } else { lines.len() - 1 };
    lines[k]
}

} // verus!
