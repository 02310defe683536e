//! Text selection across several selectable text nodes.
//!
//! A selection is a pair of points (node id + text offset): the anchor, where
//! it started, and the focus, which follows the pointer. Document order is the
//! order of node ids, then of offsets.
use vstd::prelude::*;

verus! {

/// A text node that takes part in selection.
///
/// The geometric queries of a node (its bounding box, the offset under a
/// point) are not part of this trait; they stay with the renderer.
pub trait Selectable {
    spec fn spec_id(&self) -> usize;

    spec fn spec_text_length(&self) -> usize;

    spec fn spec_text_in_range(&self, start: usize, end: usize) -> Seq<char>;

    spec fn spec_word_range_at(&self, offset: usize) -> Option<(usize, usize)>;

    spec fn spec_paragraph_range_at(&self, offset: usize) -> Option<(usize, usize)>;

    /// Node id; ids give the document order.
    fn id(&self) -> (r: usize)
        ensures
            r == self.spec_id(),
    ;

    /// Length of the node's text.
    fn text_length(&self) -> (r: usize)
        ensures
            r == self.spec_text_length(),
    ;

    /// The text between two offsets.
    fn text_in_range(&self, start: usize, end: usize) -> (r: String)
        ensures
            r@ == self.spec_text_in_range(start, end),
    ;

    /// Bounds of the word at an offset.
    fn word_range_at(&self, offset: usize) -> (r: Option<(usize, usize)>)
        ensures
            r == self.spec_word_range_at(offset),
    ;

    /// Bounds of the paragraph at an offset.
    fn paragraph_range_at(&self, offset: usize) -> (r: Option<(usize, usize)>)
        ensures
            r == self.spec_paragraph_range_at(offset),
    ;
}

/// A selectable node holding plain text; offsets count characters. Words
/// are separated by spaces and paragraphs by line breaks.
pub struct SelectableText {
    pub id: usize,
    pub text: String,
}

pub open spec fn min_usize(a: usize, b: usize) -> usize {
    if a < b {
        a
    } else {
        b
    }
}

/// Start of the run of characters other than `sep` that holds `offset`.
pub open spec fn run_start(s: Seq<char>, offset: int, sep: char) -> int
    decreases offset,
{
    if offset <= 0 {
        0
    } else if s[offset - 1] == sep {
        offset
    } else {
        run_start(s, offset - 1, sep)
    }
}

/// End of the run of characters other than `sep` that holds `offset`.
pub open spec fn run_end(s: Seq<char>, offset: int, sep: char) -> int
    decreases s.len() - offset,
{
    if offset >= s.len() {
        s.len() as int
    } else if s[offset] == sep {
        offset
    } else {
        run_end(s, offset + 1, sep)
    }
}

/// The run around `offset` (`None` past the end of the text).
pub open spec fn run_around(s: Seq<char>, offset: usize, sep: char) -> Option<(usize, usize)> {
    if offset >= s.len() {
        None
    } else {
        Some((run_start(s, offset as int, sep) as usize, run_end(s, offset as int, sep) as usize))
    }
}

fn run_around_exec(chars: &Vec<char>, offset: usize, sep: char) -> (r: Option<(usize, usize)>)
    ensures
        r == run_around(chars@, offset, sep),
{
    if offset >= chars.len() {
        return None;
    }
    let mut start = offset;
    while start > 0 && chars[start - 1] != sep
        invariant
            start <= offset < chars@.len(),
            run_start(chars@, start as int, sep) == run_start(chars@, offset as int, sep),
        decreases start,
    {
        start = start - 1;
    }
    let mut end = offset;
    while end < chars.len() && chars[end] != sep
        invariant
            offset <= end <= chars@.len(),
            run_end(chars@, end as int, sep) == run_end(chars@, offset as int, sep),
        decreases chars.len() - end,
    {
        end = end + 1;
    }
    Some((start, end))
}

impl Selectable for SelectableText {
    open spec fn spec_id(&self) -> usize {
        self.id
    }

    open spec fn spec_text_length(&self) -> usize {
        self.text@.len() as usize
    }

    open spec fn spec_text_in_range(&self, start: usize, end: usize) -> Seq<char> {
        let n = self.text@.len() as usize;
        let s = min_usize(start, n);
        let e = min_usize(end, n);
        if s < e {
            self.text@.subrange(s as int, e as int)
        } else {
            seq![]
        }
    }

    open spec fn spec_word_range_at(&self, offset: usize) -> Option<(usize, usize)> {
        run_around(self.text@, offset, ' ')
    }

    open spec fn spec_paragraph_range_at(&self, offset: usize) -> Option<(usize, usize)> {
        run_around(self.text@, offset, '\n')
    }

    fn id(&self) -> (r: usize) {
        self.id
    }

    fn text_length(&self) -> (r: usize) {
        self.text.as_str().unicode_len()
    }

    fn text_in_range(&self, start: usize, end: usize) -> (r: String) {
        let n = self.text.as_str().unicode_len();
        let s = if start < n {
            start
        } else {
            n
        };
        let e = if end < n {
            end
        } else {
            n
        };
        if s < e {
            String::from_str(self.text.as_str().substring_char(s, e))
        } else {
            let r = String::new();
            assert(r@ =~= Seq::<char>::empty());
            r
        }
    }

    fn word_range_at(&self, offset: usize) -> (r: Option<(usize, usize)>) {
        let chars = crate::text_lines::chars_of(self.text.as_str());
        run_around_exec(&chars, offset, ' ')
    }

    fn paragraph_range_at(&self, offset: usize) -> (r: Option<(usize, usize)>) {
        let chars = crate::text_lines::chars_of(self.text.as_str());
        run_around_exec(&chars, offset, '\n')
    }
}

/// One end of a selection: node and text offset.
#[derive(Clone, Copy, Debug, PartialEq, Eq, Structural)]
pub struct SelPoint {
    pub node_id: usize,
    pub offset: usize,
}

/// A selection: anchor (where it started) and focus (where it ends now).
#[derive(Clone, Copy, Debug, PartialEq, Eq, Structural)]
pub struct SelPair {
    pub anchor: SelPoint,
    pub focus: SelPoint,
}

/// Document order on points: by node, then by offset.
pub open spec fn point_le(a: SelPoint, b: SelPoint) -> bool {
    a.node_id < b.node_id || (a.node_id == b.node_id && a.offset <= b.offset)
}

/// The two ends of a pair in document order.
pub open spec fn ordered_spec(p: SelPair) -> (SelPoint, SelPoint) {
    if point_le(p.anchor, p.focus) {
        (p.anchor, p.focus)
    } else {
        (p.focus, p.anchor)
    }
}

impl SelPair {
    /// The pair with the given anchor and focus.
    pub fn new(anchor: SelPoint, focus: SelPoint) -> (r: Self)
        ensures
            r.anchor == anchor,
            r.focus == focus,
    {
        SelPair { anchor, focus }
    }

    /// Whether the selection is a bare caret (anchor and focus coincide).
    pub fn is_collapsed(&self) -> (r: bool)
        ensures
            r == (self.anchor == self.focus),
    {
        self.anchor == self.focus
    }

    /// The two ends in document order.
    pub fn ordered(&self) -> (r: (SelPoint, SelPoint))
        ensures
            r == ordered_spec(*self),
    {
        if self.anchor.node_id < self.focus.node_id || (self.anchor.node_id == self.focus.node_id
            && self.anchor.offset <= self.focus.offset) {
            (self.anchor, self.focus)
        } else {
            (self.focus, self.anchor)
        }
    }
}

/// Law: `ordered` gives the two ends of the pair, the first not after the
/// second in document order, and does not depend on which end is the anchor.
pub proof fn law_ordered_sorted(p: SelPair)
    ensures
        point_le(ordered_spec(p).0, ordered_spec(p).1),
        (ordered_spec(p).0 == p.anchor && ordered_spec(p).1 == p.focus) || (ordered_spec(p).0 == p.focus
            && ordered_spec(p).1 == p.anchor),
        ordered_spec(SelPair { anchor: p.focus, focus: p.anchor }) == ordered_spec(p),
{
}

/// Document order of two nodes: the order of their ids.
pub fn compare_document_order(x_id: usize, y_id: usize) -> (r: std::cmp::Ordering)
    ensures
        (r == std::cmp::Ordering::Less) <==> x_id < y_id,
        (r == std::cmp::Ordering::Equal) <==> x_id == y_id,
        (r == std::cmp::Ordering::Greater) <==> x_id > y_id,
{
    if x_id < y_id {
        std::cmp::Ordering::Less
    } else if x_id == y_id {
        std::cmp::Ordering::Equal
    } else {
        std::cmp::Ordering::Greater
    }
}


// ----- the selection manager -----

/// Ids of a sequence of selectables.
pub open spec fn ids_of<S: Selectable>(sel: Seq<S>) -> Seq<usize> {
    sel.map_values(|n: S| n.spec_id())
}

/// No two selectables share an id.
pub open spec fn distinct_ids<S: Selectable>(sel: Seq<S>) -> bool {
    forall|i: int, j: int| 0 <= i < sel.len() && 0 <= j < sel.len() && i != j ==> sel[i].spec_id() != sel[j].spec_id()
}

/// The selectables without those with id `id`, order kept.
pub open spec fn without_id<S: Selectable>(sel: Seq<S>, id: usize) -> Seq<S>
    decreases sel.len(),
{
    if sel.len() == 0 {
        seq![]
    } else if sel.last().spec_id() == id {
        without_id(sel.drop_last(), id)
    } else {
        without_id(sel.drop_last(), id).push(sel.last())
    }
}

/// State of a selection manager.
pub struct SelectionState<S> {
    /// Registered nodes, in registration order.
    pub selectables: Seq<S>,
    /// Selection of the pointer or keyboard (live or frozen).
    pub current: Option<SelPair>,
    /// Selection made by program (select all, select).
    pub programmatic: Option<SelPair>,
}

/// The effective selection: a programmatic one wins over the current one.
pub open spec fn effective_pair<S>(st: SelectionState<S>) -> Option<SelPair> {
    match st.programmatic {
        Some(p) => Some(p),
        None => st.current,
    }
}

/// Coordinates a text selection across the registered selectable nodes.
pub struct SelectionManager<S: Selectable> {
    selectables: Vec<S>,
    current_pair: Option<SelPair>,
    programmatic: Option<SelPair>,
}

impl<S: Selectable> View for SelectionManager<S> {
    type V = SelectionState<S>;

    closed spec fn view(&self) -> SelectionState<S> {
        SelectionState { selectables: self.selectables@, current: self.current_pair, programmatic: self.programmatic }
    }
}

impl<S: Selectable> SelectionManager<S> {
    #[verifier::type_invariant]
    closed spec fn unique_ids(self) -> bool {
        distinct_ids(self.selectables@)
    }

    /// An empty manager: no nodes, no selection.
    pub fn new() -> (r: Self)
        ensures
            r@.selectables == Seq::<S>::empty(),
            r@.current is None,
            r@.programmatic is None,
    {
        SelectionManager { selectables: Vec::new(), current_pair: None, programmatic: None }
    }

    fn take_without(v: &mut Vec<S>, id: usize) -> (r: Vec<S>)
        ensures
            r@ == without_id(old(v)@, id),
    {
        let ghost orig = v@;
        let mut kept: Vec<S> = Vec::new();
        while v.len() > 0
            invariant
                without_id(orig, id) == without_id(v@, id) + kept@,
            decreases v.len(),
        {
            let ghost rv = v@;
            let n = v.pop().unwrap();
            assert(v@ =~= rv.drop_last());
            if n.id() != id {
                let ghost kv = kept@;
                kept.insert(0, n);
                assert(without_id(rv, id) == without_id(rv.drop_last(), id).push(n));
                assert(without_id(orig, id) =~= without_id(v@, id) + kept@);
            }
        }
        assert(without_id(v@, id) =~= Seq::<S>::empty());
        assert(without_id(orig, id) =~= kept@);
        kept
    }

    /// Registers `node`, replacing a node with the same id.
    pub fn register(&mut self, node: S)
        ensures
            final(self)@.selectables == without_id(old(self)@.selectables, node.spec_id()).push(node),
            final(self)@.current == old(self)@.current,
            final(self)@.programmatic == old(self)@.programmatic,
    {
        proof {
            use_type_invariant(&*self);
        }
        let id = node.id();
        let mut all: Vec<S> = Vec::new();
        std::mem::swap(&mut all, &mut self.selectables);
        let mut kept = Self::take_without(&mut all, id);
        proof {
            lemma_without_id(old(self)@.selectables, id);
        }
        kept.push(node);
        self.selectables = kept;
    }

    /// Removes the node with id `id`.
    pub fn unregister(&mut self, id: usize)
        ensures
            final(self)@.selectables == without_id(old(self)@.selectables, id),
            final(self)@.current == old(self)@.current,
            final(self)@.programmatic == old(self)@.programmatic,
    {
        proof {
            use_type_invariant(&*self);
        }
        let mut all: Vec<S> = Vec::new();
        std::mem::swap(&mut all, &mut self.selectables);
        let kept = Self::take_without(&mut all, id);
        proof {
            lemma_without_id(old(self)@.selectables, id);
        }
        self.selectables = kept;
    }

    /// The effective selection: a programmatic one (select all, select) wins
    /// over the pointer or keyboard one.
    pub fn current_pair(&self) -> (r: Option<SelPair>)
        ensures
            r == effective_pair(self@),
    {
        match self.programmatic {
            Some(p) => Some(p),
            None => self.current_pair,
        }
    }

    /// Sets the pointer or keyboard selection.
    pub fn set_current_pair(&mut self, pair: Option<SelPair>)
        ensures
            final(self)@ == (SelectionState { current: pair, ..old(self)@ }),
    {
        proof {
            use_type_invariant(&*self);
        }
        self.current_pair = pair;
    }

    /// Clears both selections.
    pub fn clear(&mut self)
        ensures
            final(self)@ == (SelectionState::<S> { current: None, programmatic: None, ..old(self)@ }),
    {
        proof {
            use_type_invariant(&*self);
        }
        self.programmatic = None;
        self.current_pair = None;
    }

    /// Selects from `anchor` to `focus` by program.
    pub fn select(&mut self, anchor: SelPoint, focus: SelPoint) -> (r: Option<SelPair>)
        ensures
            r == Some(SelPair { anchor, focus }),
            final(self)@ == (SelectionState { programmatic: r, ..old(self)@ }),
    {
        proof {
            use_type_invariant(&*self);
        }
        let pair = SelPair::new(anchor, focus);
        self.programmatic = Some(pair);
        Some(pair)
    }

    /// Whether a node with id `id` is registered.
    pub fn is_selectable(&self, id: usize) -> (r: bool)
        ensures
            r == ids_of(self@.selectables).contains(id),
    {
        let mut i: usize = 0;
        while i < self.selectables.len()
            invariant
                i <= self.selectables@.len(),
                forall|k: int| 0 <= k < i ==> (#[trigger] self.selectables@[k]).spec_id() != id,
            decreases self.selectables.len() - i,
        {
            if self.selectables[i].id() == id {
                assert(ids_of(self@.selectables)[i as int] == id);
                return true;
            }
            i = i + 1;
        }
        assert forall|k: int| 0 <= k < ids_of(self@.selectables).len() implies ids_of(self@.selectables)[k] != id by {
            assert(self.selectables@[k].spec_id() != id);
        }
        false
    }

    /// Number of registered nodes.
    pub fn selectable_count(&self) -> (r: usize)
        ensures
            r == self@.selectables.len(),
    {
        self.selectables.len()
    }

    /// Pointer press: starts a new selection, a caret at the pressed point,
    /// and ends any programmatic selection.
    pub fn on_pointer_down(&mut self, node_id: usize, offset: usize)
        ensures
            final(self)@ == after_pointer_down(old(self)@, node_id, offset),
    {
        proof {
            use_type_invariant(&*self);
        }
        let point = SelPoint { node_id, offset };
        self.programmatic = None;
        self.current_pair = Some(SelPair::new(point, point));
    }

    /// Pointer drag: moves the focus of the current selection, if any.
    pub fn on_pointer_move(&mut self, node_id: usize, offset: usize)
        ensures
            final(self)@ == after_pointer_move(old(self)@, node_id, offset),
    {
        proof {
            use_type_invariant(&*self);
        }
        match self.current_pair {
            Some(p) => {
                self.current_pair = Some(SelPair::new(p.anchor, SelPoint { node_id, offset }));
            },
            None => {},
        }
    }

    /// Pointer release: the selection stays as it is.
    pub fn on_pointer_up(&self) {
    }

    /// Shift+click: extends the selection from the last anchor (programmatic
    /// first, else current) to the clicked point, as a programmatic selection.
    pub fn on_shift_click(&mut self, node_id: usize, offset: usize)
        ensures
            final(self)@ == after_shift_click(old(self)@, node_id, offset),
    {
        proof {
            use_type_invariant(&*self);
        }
        let focus = SelPoint { node_id, offset };
        let anchor = match self.programmatic {
            Some(p) => Some(p.anchor),
            None => match self.current_pair {
                Some(p) => Some(p.anchor),
                None => None,
            },
        };
        match anchor {
            Some(a) => {
                self.programmatic = Some(SelPair::new(a, focus));
            },
            None => {},
        }
    }
}


/// `i` is the first position of a node with id `id`.
pub open spec fn is_first_with_id<S: Selectable>(sel: Seq<S>, id: usize, i: int) -> bool {
    &&& 0 <= i < sel.len()
    &&& sel[i].spec_id() == id
    &&& forall|k: int| 0 <= k < i ==> (#[trigger] sel[k]).spec_id() != id
}

/// Position of the first node with id `id`.
pub open spec fn first_with_id<S: Selectable>(sel: Seq<S>, id: usize) -> Option<int> {
    if exists|i: int| is_first_with_id(sel, id, i) {
        Some(choose|i: int| is_first_with_id(sel, id, i))
    } else {
        None
    }
}

proof fn lemma_first_with_id_unique<S: Selectable>(sel: Seq<S>, id: usize, i: int, j: int)
    requires
        is_first_with_id(sel, id, i),
        is_first_with_id(sel, id, j),
    ensures
        i == j,
{
    if i < j {
        assert(sel[i].spec_id() != id);
    } else if j < i {
        assert(sel[j].spec_id() != id);
    }
}

fn find_first<S: Selectable>(sel: &[S], id: usize) -> (r: Option<usize>)
    ensures
        r is Some <==> first_with_id(sel@, id) is Some,
        r matches Some(i) ==> first_with_id(sel@, id) == Some(i as int) && i < sel@.len(),
{
    let mut i: usize = 0;
    while i < sel.len()
        invariant
            i <= sel@.len(),
            forall|k: int| 0 <= k < i ==> (#[trigger] sel@[k]).spec_id() != id,
        decreases sel.len() - i,
    {
        if sel[i].id() == id {
            proof {
                assert(is_first_with_id(sel@, id, i as int));
                let c = choose|c: int| is_first_with_id(sel@, id, c);
                lemma_first_with_id_unique(sel@, id, i as int, c);
            }
            return Some(i);
        }
        i = i + 1;
    }
    assert(!exists|c: int| is_first_with_id(sel@, id, c));
    None
}

/// `i` holds the smallest id.
pub open spec fn is_min_pos<S: Selectable>(sel: Seq<S>, i: int) -> bool {
    0 <= i < sel.len() && forall|k: int| 0 <= k < sel.len() ==> sel[i].spec_id() <= (#[trigger] sel[k]).spec_id()
}

/// `j` holds the largest id.
pub open spec fn is_max_pos<S: Selectable>(sel: Seq<S>, j: int) -> bool {
    0 <= j < sel.len() && forall|k: int| 0 <= k < sel.len() ==> (#[trigger] sel[k]).spec_id() <= sel[j].spec_id()
}

/// Selection of everything: from the start of the first node in document
/// order to the end of the last one; `None` without nodes.
pub open spec fn select_all_pair<S: Selectable>(sel: Seq<S>) -> Option<SelPair> {
    if sel.len() == 0 {
        None
    } else {
        let i = choose|i: int| is_min_pos(sel, i);
        let j = choose|j: int| is_max_pos(sel, j);
        Some(
            SelPair {
                anchor: SelPoint { node_id: sel[i].spec_id(), offset: 0 },
                focus: SelPoint { node_id: sel[j].spec_id(), offset: sel[j].spec_text_length() },
            },
        )
    }
}

/// A node is inside the selection between `a` and `b` (in document order).
pub open spec fn in_sel(id: usize, a: SelPoint, b: SelPoint) -> bool {
    if a.node_id == b.node_id {
        id == a.node_id
    } else {
        id == a.node_id || id == b.node_id || (id > a.node_id && id < b.node_id)
    }
}

/// The selected part of the text of node `n`, for a selection from `a` to `b`.
pub open spec fn piece_spec<S: Selectable>(n: S, a: SelPoint, b: SelPoint) -> Seq<char> {
    let id = n.spec_id();
    let len = n.spec_text_length();
    let (s, e) = if id == a.node_id && id == b.node_id {
        (a.offset, b.offset)
    } else if id == a.node_id {
        (a.offset, len)
    } else if id == b.node_id {
        (0usize, b.offset)
    } else {
        (0usize, len)
    };
    if s < e && s < len {
        n.spec_text_in_range(s, if e < len { e } else { len })
    } else {
        seq![]
    }
}

/// `k` is the selected node with the smallest id above `lo`.
pub open spec fn is_next<S: Selectable>(sel: Seq<S>, lo: int, a: SelPoint, b: SelPoint, k: int) -> bool {
    &&& 0 <= k < sel.len()
    &&& in_sel(sel[k].spec_id(), a, b)
    &&& sel[k].spec_id() > lo
    &&& forall|j: int|
        0 <= j < sel.len() && in_sel((#[trigger] sel[j]).spec_id(), a, b) && sel[j].spec_id() > lo ==> sel[k].spec_id()
            <= sel[j].spec_id()
}

/// Selected text of the selected nodes with ids above `lo`, in id order.
pub open spec fn text_from<S: Selectable>(sel: Seq<S>, a: SelPoint, b: SelPoint, lo: int) -> Seq<char>
    decreases b.node_id - lo,
{
    if lo >= b.node_id {
        seq![]
    } else if exists|k: int| is_next(sel, lo, a, b, k) {
        let k = choose|k: int| is_next(sel, lo, a, b, k);
        if sel[k].spec_id() > lo && sel[k].spec_id() <= b.node_id {
            piece_spec(sel[k], a, b) + text_from(sel, a, b, sel[k].spec_id() as int)
        } else {
            seq![]
        }
    } else {
        seq![]
    }
}

/// The text of the effective selection: the selected part of each selected
/// node, nodes in document order; empty without a selection.
pub open spec fn selected_text_spec<S: Selectable>(st: SelectionState<S>) -> Seq<char> {
    match effective_pair(st) {
        None => seq![],
        Some(p) => {
            let (a, b) = ordered_spec(p);
            text_from(st.selectables, a, b, a.node_id - 1)
        },
    }
}

/// State after a double click on (`node_id`, `offset`): the word there becomes
/// both the programmatic and the current selection.
pub open spec fn after_range_click<S: Selectable>(st: SelectionState<S>, node_id: usize, range: Option<(usize, usize)>) -> SelectionState<S> {
    match range {
        Some((s, e)) => {
            let pair = SelPair { anchor: SelPoint { node_id, offset: s }, focus: SelPoint { node_id, offset: e } };
            SelectionState { programmatic: Some(pair), current: Some(pair), ..st }
        },
        None => st,
    }
}

pub open spec fn word_at<S: Selectable>(sel: Seq<S>, node_id: usize, offset: usize) -> Option<(usize, usize)> {
    match first_with_id(sel, node_id) {
        Some(i) => sel[i].spec_word_range_at(offset),
        None => None,
    }
}

pub open spec fn paragraph_at<S: Selectable>(sel: Seq<S>, node_id: usize, offset: usize) -> Option<(usize, usize)> {
    match first_with_id(sel, node_id) {
        Some(i) => sel[i].spec_paragraph_range_at(offset),
        None => None,
    }
}

/// Positions, in registration order, of the nodes that the selection from `a`
/// to `b` covers (for its bounding box).
pub open spec fn covered_positions<S: Selectable>(sel: Seq<S>, a: SelPoint, b: SelPoint) -> Seq<usize>
    decreases sel.len(),
{
    if sel.len() == 0 {
        seq![]
    } else {
        let rest = covered_positions(sel.drop_last(), a, b);
        let id = sel.last().spec_id();
        let inside = if a.node_id == b.node_id {
            id == a.node_id
        } else {
            id >= a.node_id && id <= b.node_id
        };
        if inside {
            rest.push((sel.len() - 1) as usize)
        } else {
            rest
        }
    }
}

/// State after a pointer press at (`node_id`, `offset`).
pub open spec fn after_pointer_down<S>(st: SelectionState<S>, node_id: usize, offset: usize) -> SelectionState<S> {
    let p = SelPoint { node_id, offset };
    SelectionState { programmatic: None, current: Some(SelPair { anchor: p, focus: p }), ..st }
}

/// State after a drag to (`node_id`, `offset`).
pub open spec fn after_pointer_move<S>(st: SelectionState<S>, node_id: usize, offset: usize) -> SelectionState<S> {
    match st.current {
        Some(p) => SelectionState {
            current: Some(SelPair { anchor: p.anchor, focus: SelPoint { node_id, offset } }),
            ..st
        },
        None => st,
    }
}

/// State after a Shift+click at (`node_id`, `offset`).
pub open spec fn after_shift_click<S>(st: SelectionState<S>, node_id: usize, offset: usize) -> SelectionState<S> {
    let anchor = match st.programmatic {
        Some(p) => Some(p.anchor),
        None => match st.current {
            Some(p) => Some(p.anchor),
            None => None,
        },
    };
    match anchor {
        Some(a) => SelectionState {
            programmatic: Some(SelPair { anchor: a, focus: SelPoint { node_id, offset } }),
            ..st
        },
        None => st,
    }
}

proof fn lemma_min_pos_unique<S: Selectable>(sel: Seq<S>, i: int, j: int)
    requires
        distinct_ids(sel),
        is_min_pos(sel, i),
        is_min_pos(sel, j),
    ensures
        i == j,
{
    assert(sel[i].spec_id() <= sel[j].spec_id() && sel[j].spec_id() <= sel[i].spec_id());
}

proof fn lemma_max_pos_unique<S: Selectable>(sel: Seq<S>, i: int, j: int)
    requires
        distinct_ids(sel),
        is_max_pos(sel, i),
        is_max_pos(sel, j),
    ensures
        i == j,
{
    assert(sel[i].spec_id() <= sel[j].spec_id() && sel[j].spec_id() <= sel[i].spec_id());
}

proof fn lemma_next_unique<S: Selectable>(sel: Seq<S>, lo: int, a: SelPoint, b: SelPoint, i: int, j: int)
    requires
        distinct_ids(sel),
        is_next(sel, lo, a, b, i),
        is_next(sel, lo, a, b, j),
    ensures
        i == j,
{
    assert(sel[i].spec_id() <= sel[j].spec_id() && sel[j].spec_id() <= sel[i].spec_id());
}

fn piece<S: Selectable>(node: &S, a: SelPoint, b: SelPoint) -> (r: String)
    ensures
        r@ == piece_spec(*node, a, b),
{
    let id = node.id();
    let len = node.text_length();
    let (s, e) = if id == a.node_id && id == b.node_id {
        (a.offset, b.offset)
    } else if id == a.node_id {
        (a.offset, len)
    } else if id == b.node_id {
        (0usize, b.offset)
    } else {
        (0usize, len)
    };
    if s < e && s < len {
        let e2 = if e < len {
            e
        } else {
            len
        };
        node.text_in_range(s, e2)
    } else {
        String::new()
    }
}

impl<S: Selectable> SelectionManager<S> {
    /// Selects everything, as a programmatic selection: from the start of the
    /// node with the smallest id to the end of the node with the largest.
    /// Without nodes, returns `None` and changes nothing.
    pub fn select_all(&mut self) -> (r: Option<SelPair>)
        ensures
            r == select_all_pair(old(self)@.selectables),
            r is None ==> final(self)@ == old(self)@,
            r is Some ==> final(self)@ == (SelectionState { programmatic: r, ..old(self)@ }),
    {
        proof {
            use_type_invariant(&*self);
        }
        let n = self.selectables.len();
        if n == 0 {
            return None;
        }
        let ghost sel = self.selectables@;
        let mut lo: usize = 0;
        let mut hi: usize = 0;
        let mut i: usize = 1;
        while i < n
            invariant
                n == sel.len(),
                sel == self.selectables@,
                1 <= i <= n,
                lo < n,
                hi < n,
                forall|k: int| 0 <= k < i ==> sel[lo as int].spec_id() <= (#[trigger] sel[k]).spec_id(),
                forall|k: int| 0 <= k < i ==> (#[trigger] sel[k]).spec_id() <= sel[hi as int].spec_id(),
            decreases n - i,
        {
            let id = self.selectables[i].id();
            if id < self.selectables[lo].id() {
                lo = i;
            }
            if id > self.selectables[hi].id() {
                hi = i;
            }
            i = i + 1;
        }
        proof {
            assert(is_min_pos(sel, lo as int));
            assert(is_max_pos(sel, hi as int));
            let ci = choose|c: int| is_min_pos(sel, c);
            let cj = choose|c: int| is_max_pos(sel, c);
            lemma_min_pos_unique(sel, lo as int, ci);
            lemma_max_pos_unique(sel, hi as int, cj);
        }
        let anchor = SelPoint { node_id: self.selectables[lo].id(), offset: 0 };
        let focus = SelPoint { node_id: self.selectables[hi].id(), offset: self.selectables[hi].text_length() };
        let pair = SelPair::new(anchor, focus);
        self.programmatic = Some(pair);
        Some(pair)
    }

    /// Text of the effective selection: the selected part of each selected
    /// node, nodes in document order. Empty without a selection.
    pub fn selected_text(&self) -> (r: String)
        ensures
            r@ == selected_text_spec(self@),
    {
        proof {
            use_type_invariant(self);
        }
        let pair = match self.current_pair() {
            Some(p) => p,
            None => {
                return String::new();
            },
        };
        let (a, b) = pair.ordered();
        let ghost sel = self.selectables@;
        let ghost lo0: int = a.node_id - 1;
        let mut result = String::new();
        let mut started = false;
        let mut last: usize = 0;
        assert(result@ + text_from(sel, a, b, lo0) =~= text_from(sel, a, b, lo0));
        loop
            invariant
                sel == self.selectables@,
                distinct_ids(sel),
                point_le(a, b),
                started ==> a.node_id <= last <= b.node_id,
                result@ + text_from(sel, a, b, if started { last as int } else { lo0 }) == text_from(sel, a, b, lo0),
                lo0 == a.node_id - 1,
                pair == effective_pair(self@).unwrap(),
                (a, b) == ordered_spec(pair),
            ensures
                result@ == text_from(sel, a, b, lo0),
            decreases b.node_id - (if started { last as int } else { lo0 }),
        {
            let ghost lo: int = if started { last as int } else { lo0 };
            let mut best: Option<usize> = None;
            let mut i: usize = 0;
            while i < self.selectables.len()
                invariant
                    sel == self.selectables@,
                    i <= sel.len(),
                    lo == (if started { last as int } else { lo0 }),
                    lo0 == a.node_id - 1,
                    point_le(a, b),
                    best matches Some(k) ==> k < i && in_sel(sel[k as int].spec_id(), a, b) && sel[k as int].spec_id()
                        > lo && forall|j: int|
                        0 <= j < i && in_sel((#[trigger] sel[j]).spec_id(), a, b) && sel[j].spec_id() > lo
                            ==> sel[k as int].spec_id() <= sel[j].spec_id(),
                    best is None ==> forall|j: int|
                        0 <= j < i ==> !(in_sel((#[trigger] sel[j]).spec_id(), a, b) && sel[j].spec_id() > lo),
                decreases self.selectables.len() - i,
            {
                let id = self.selectables[i].id();
                let inside = if a.node_id == b.node_id {
                    id == a.node_id
                } else {
                    id == a.node_id || id == b.node_id || (id > a.node_id && id < b.node_id)
                };
                let above = !started || id > last;
                if inside && above {
                    match best {
                        Some(k) => {
                            if id < self.selectables[k].id() {
                                best = Some(i);
                            }
                        },
                        None => {
                            best = Some(i);
                        },
                    }
                }
                i = i + 1;
            }
            match best {
                Some(k) => {
                    let ghost kk = k as int;
                    proof {
                        assert(is_next(sel, lo, a, b, kk));
                        let c = choose|c: int| is_next(sel, lo, a, b, c);
                        lemma_next_unique(sel, lo, a, b, kk, c);
                        assert(lo < b.node_id);
                    }
                    let p = piece(&self.selectables[k], a, b);
                    let ghost before = result@;
                    result.append(p.as_str());
                    last = self.selectables[k].id();
                    started = true;
                    assert(result@ + text_from(sel, a, b, last as int) =~= before + text_from(sel, a, b, lo));
                },
                None => {
                    proof {
                        assert(!exists|c: int| is_next(sel, lo, a, b, c));
                    }
                    assert(result@ =~= result@ + text_from(sel, a, b, lo));
                    break;
                },
            }
        }
        result
    }

    /// Double click: selects the word under the click in the clicked node,
    /// as both the programmatic and the current selection.
    pub fn on_double_click(&mut self, node_id: usize, offset: usize)
        ensures
            final(self)@ == after_range_click(old(self)@, node_id, word_at(old(self)@.selectables, node_id, offset)),
    {
        proof {
            use_type_invariant(&*self);
        }
        match find_first(self.selectables.as_slice(), node_id) {
            Some(i) => {
                match self.selectables[i].word_range_at(offset) {
                    Some((s, e)) => {
                        let pair = SelPair::new(SelPoint { node_id, offset: s }, SelPoint { node_id, offset: e });
                        self.programmatic = Some(pair);
                        self.current_pair = Some(pair);
                    },
                    None => {},
                }
            },
            None => {},
        }
    }

    /// Triple click: selects the paragraph under the click in the clicked
    /// node, as both the programmatic and the current selection.
    pub fn on_triple_click(&mut self, node_id: usize, offset: usize)
        ensures
            final(self)@ == after_range_click(old(self)@, node_id, paragraph_at(old(self)@.selectables, node_id, offset)),
    {
        proof {
            use_type_invariant(&*self);
        }
        match find_first(self.selectables.as_slice(), node_id) {
            Some(i) => {
                match self.selectables[i].paragraph_range_at(offset) {
                    Some((s, e)) => {
                        let pair = SelPair::new(SelPoint { node_id, offset: s }, SelPoint { node_id, offset: e });
                        self.programmatic = Some(pair);
                        self.current_pair = Some(pair);
                    },
                    None => {},
                }
            },
            None => {},
        }
    }

    /// Positions, in registration order, of the nodes that the effective
    /// selection covers; empty without a selection. The bounding box of the
    /// selection is the union of the boxes of these nodes.
    pub fn covered_nodes(&self) -> (r: Vec<usize>)
        ensures
            r@ == match effective_pair(self@) {
                None => Seq::<usize>::empty(),
                Some(p) => covered_positions(self@.selectables, ordered_spec(p).0, ordered_spec(p).1),
            },
    {
        let pair = match self.current_pair() {
            Some(p) => p,
            None => {
                return Vec::new();
            },
        };
        let (a, b) = pair.ordered();
        let mut out: Vec<usize> = Vec::new();
        let mut i: usize = 0;
        while i < self.selectables.len()
            invariant
                i <= self.selectables@.len(),
                out@ == covered_positions(self.selectables@.take(i as int), a, b),
            decreases self.selectables.len() - i,
        {
            let id = self.selectables[i].id();
            let inside = if a.node_id == b.node_id {
                id == a.node_id
            } else {
                id >= a.node_id && id <= b.node_id
            };
            let ghost t = self.selectables@.take(i + 1);
            assert(t.drop_last() =~= self.selectables@.take(i as int));
            if inside {
                out.push(i);
            }
            i = i + 1;
        }
        assert(self.selectables@.take(i as int) =~= self.selectables@);
        out
    }

    /// The registered nodes, in registration order.
    pub fn selectables(&self) -> (r: &Vec<S>)
        ensures
            r@ == self@.selectables,
    {
        &self.selectables
    }
}

/// Extends a double-click selection word-wise: from the word at the anchor to
/// the end (`expand_right`) or the start of the word at the focus. `None`
/// when a node is missing or has no word there.
pub fn expand_word_selection<S: Selectable>(
    selectables: &[S],
    anchor_node_id: usize,
    anchor_offset: usize,
    focus_node_id: usize,
    focus_offset: usize,
    expand_right: bool,
) -> (r: Option<SelPair>)
    ensures
        r == expand_word_spec(selectables@, anchor_node_id, anchor_offset, focus_node_id, focus_offset, expand_right),
{
    let ai = match find_first(selectables, anchor_node_id) {
        Some(i) => i,
        None => {
            return None;
        },
    };
    let (word_start, word_end) = match selectables[ai].word_range_at(anchor_offset) {
        Some(w) => w,
        None => {
            return None;
        },
    };
    let fi = match find_first(selectables, focus_node_id) {
        Some(i) => i,
        None => {
            return None;
        },
    };
    match selectables[fi].word_range_at(focus_offset) {
        Some((f_start, f_end)) => {
            if expand_right {
                Some(
                    SelPair::new(
                        SelPoint { node_id: anchor_node_id, offset: word_start },
                        SelPoint { node_id: focus_node_id, offset: f_end },
                    ),
                )
            } else {
                Some(
                    SelPair::new(
                        SelPoint { node_id: focus_node_id, offset: f_start },
                        SelPoint { node_id: anchor_node_id, offset: word_end },
                    ),
                )
            }
        },
        None => None,
    }
}

/// Result of [`expand_word_selection`].
pub open spec fn expand_word_spec<S: Selectable>(
    sel: Seq<S>,
    anchor_node_id: usize,
    anchor_offset: usize,
    focus_node_id: usize,
    focus_offset: usize,
    expand_right: bool,
) -> Option<SelPair> {
    match word_at(sel, anchor_node_id, anchor_offset) {
        None => None,
        Some((ws, we)) => match word_at(sel, focus_node_id, focus_offset) {
            None => None,
            Some((fs, fe)) => if expand_right {
                Some(
                    SelPair {
                        anchor: SelPoint { node_id: anchor_node_id, offset: ws },
                        focus: SelPoint { node_id: focus_node_id, offset: fe },
                    },
                )
            } else {
                Some(
                    SelPair {
                        anchor: SelPoint { node_id: focus_node_id, offset: fs },
                        focus: SelPoint { node_id: anchor_node_id, offset: we },
                    },
                )
            },
        },
    }
}

/// Law: a press followed by a drag selects from the pressed point to the
/// dragged-to point.
pub proof fn law_press_then_drag<S>(st: SelectionState<S>, n1: usize, o1: usize, n2: usize, o2: usize)
    ensures
        effective_pair(after_pointer_move(after_pointer_down(st, n1, o1), n2, o2)) == Some(
            SelPair { anchor: SelPoint { node_id: n1, offset: o1 }, focus: SelPoint { node_id: n2, offset: o2 } },
        ),
{
}

/// Law: a press gives a caret (a collapsed selection) at the pressed point,
/// whatever was selected before, programmatically or not.
pub proof fn law_press_collapses<S>(st: SelectionState<S>, n: usize, o: usize)
    ensures
        effective_pair(after_pointer_down(st, n, o)) == Some(
            SelPair { anchor: SelPoint { node_id: n, offset: o }, focus: SelPoint { node_id: n, offset: o } },
        ),
{
}

/// Law: Shift+click after a press extends the selection from the pressed
/// point to the clicked point.
pub proof fn law_press_then_shift_click<S>(st: SelectionState<S>, n1: usize, o1: usize, n2: usize, o2: usize)
    ensures
        effective_pair(after_shift_click(after_pointer_down(st, n1, o1), n2, o2)) == Some(
            SelPair { anchor: SelPoint { node_id: n1, offset: o1 }, focus: SelPoint { node_id: n2, offset: o2 } },
        ),
{
}

/// Law: a programmatic selection is the effective one until it is cleared or
/// a press ends it; a later drag does not change it.
pub proof fn law_programmatic_wins<S>(st: SelectionState<S>, p: SelPair, n: usize, o: usize)
    ensures
        effective_pair(SelectionState { programmatic: Some(p), ..st }) == Some(p),
        effective_pair(after_pointer_move(SelectionState { programmatic: Some(p), ..st }, n, o)) == Some(p),
        effective_pair(SelectionState::<S> { programmatic: None, current: None, ..st }) is None,
{
}

/// Law: selecting everything spans every registered node: each node id lies
/// between the anchor's node and the focus's node, and the anchor is at the
/// start of its node.
pub proof fn law_select_all_spans<S: Selectable>(sel: Seq<S>)
    requires
        sel.len() > 0,
    ensures
        select_all_pair(sel) matches Some(p) && p.anchor.offset == 0 && forall|k: int|
            0 <= k < sel.len() ==> p.anchor.node_id <= (#[trigger] sel[k]).spec_id() <= p.focus.node_id,
{
    lemma_extreme_positions(sel);
}

proof fn lemma_extreme_positions<S: Selectable>(sel: Seq<S>)
    requires
        sel.len() > 0,
    ensures
        exists|i: int| is_min_pos(sel, i),
        exists|j: int| is_max_pos(sel, j),
    decreases sel.len(),
{
    let last = sel.len() - 1;
    if sel.len() == 1 {
        assert(is_min_pos(sel, 0));
        assert(is_max_pos(sel, 0));
    } else {
        let d = sel.drop_last();
        lemma_extreme_positions(d);
        let i = choose|i: int| is_min_pos(d, i);
        let j = choose|j: int| is_max_pos(d, j);
        assert(forall|k: int| 0 <= k < d.len() ==> d[k] == sel[k]);
        if sel[last].spec_id() < sel[i].spec_id() {
            assert(is_min_pos(sel, last));
        } else {
            assert(is_min_pos(sel, i));
        }
        if sel[last].spec_id() > sel[j].spec_id() {
            assert(is_max_pos(sel, last));
        } else {
            assert(is_max_pos(sel, j));
        }
    }
}

proof fn lemma_without_id<S: Selectable>(sel: Seq<S>, id: usize)
    requires
        distinct_ids(sel),
    ensures
        distinct_ids(without_id(sel, id)),
        forall|k: int|
            0 <= k < without_id(sel, id).len() ==> (#[trigger] without_id(sel, id)[k]).spec_id() != id && exists|j: int|
                0 <= j < sel.len() && sel[j].spec_id() == without_id(sel, id)[k].spec_id(),
    decreases sel.len(),
{
    if sel.len() > 0 {
        let d = sel.drop_last();
        assert(distinct_ids(d)) by {
            assert forall|i: int, j: int| 0 <= i < d.len() && 0 <= j < d.len() && i != j implies d[i].spec_id()
                != d[j].spec_id() by {
                assert(d[i] == sel[i] && d[j] == sel[j]);
            }
        }
        lemma_without_id(d, id);
        let w0 = without_id(d, id);
        let w = without_id(sel, id);
        assert forall|k: int| 0 <= k < w0.len() implies exists|j: int|
            0 <= j < sel.len() - 1 && sel[j].spec_id() == (#[trigger] w0[k]).spec_id() by {
            let j = choose|j: int| 0 <= j < d.len() && d[j].spec_id() == w0[k].spec_id();
            assert(sel[j] == d[j]);
        }
        if sel.last().spec_id() != id {
            assert(w == w0.push(sel.last()));
            assert forall|k: int| 0 <= k < w0.len() implies (#[trigger] w0[k]).spec_id() != sel.last().spec_id() by {
                let j = choose|j: int| 0 <= j < sel.len() - 1 && sel[j].spec_id() == w0[k].spec_id();
                assert(sel[j].spec_id() != sel[sel.len() - 1].spec_id());
            }
            assert forall|k: int| 0 <= k < w.len() implies (#[trigger] w[k]).spec_id() != id && exists|j: int|
                0 <= j < sel.len() && sel[j].spec_id() == w[k].spec_id() by {
                if k < w0.len() {
                    assert(w[k] == w0[k]);
                    let j = choose|j: int| 0 <= j < sel.len() - 1 && sel[j].spec_id() == w0[k].spec_id();
                    assert(sel[j].spec_id() == w[k].spec_id());
                } else {
                    assert(w[k] == sel[sel.len() - 1]);
                }
            }
            assert forall|i: int, j: int| 0 <= i < w.len() && 0 <= j < w.len() && i != j implies w[i].spec_id()
                != w[j].spec_id() by {
                if i < w0.len() && j < w0.len() {
                    assert(w[i] == w0[i] && w[j] == w0[j]);
                } else if i < w0.len() {
                    assert(w[i] == w0[i]);
                } else if j < w0.len() {
                    assert(w[j] == w0[j]);
                }
            }
        } else {
            assert(w == w0);
            assert forall|k: int| 0 <= k < w.len() implies (#[trigger] w[k]).spec_id() != id && exists|j: int|
                0 <= j < sel.len() && sel[j].spec_id() == w[k].spec_id() by {
                let j = choose|j: int| 0 <= j < sel.len() - 1 && sel[j].spec_id() == w0[k].spec_id();
            }
        }
    }
}

/// Law: a word-wise extension of a double-click selection is found exactly
/// when both the anchor's node and the focus's node have a word at the given
/// offsets. Each end of the result lies in its own node and bounds that
/// node's word: extending right runs from the start of the anchor's word (in
/// the anchor's node) to the end of the focus's word (in the focus's node);
/// extending left runs from the start of the focus's word (in the focus's
/// node) to the end of the anchor's word (in the anchor's node).
pub proof fn law_expand_word_ends<S: Selectable>(
    sel: Seq<S>,
    anchor_node_id: usize,
    anchor_offset: usize,
    focus_node_id: usize,
    focus_offset: usize,
    expand_right: bool,
)
    ensures
        ({
            let r = expand_word_spec(sel, anchor_node_id, anchor_offset, focus_node_id, focus_offset, expand_right);
            let aw = word_at(sel, anchor_node_id, anchor_offset);
            let fw = word_at(sel, focus_node_id, focus_offset);
            &&& (r is Some <==> aw is Some && fw is Some)
            &&& r matches Some(p) ==> if expand_right {
                &&& p.anchor.node_id == anchor_node_id && p.anchor.offset == aw.unwrap().0
                &&& p.focus.node_id == focus_node_id && p.focus.offset == fw.unwrap().1
            } else {
                &&& p.anchor.node_id == focus_node_id && p.anchor.offset == fw.unwrap().0
                &&& p.focus.node_id == anchor_node_id && p.focus.offset == aw.unwrap().1
            }
        }),
{
}

/// Law: when both ends of the effective selection lie in one registered node,
/// the selected text is that node's text between the smaller and the larger
/// offset (the larger clamped to the text's length), and empty when that
/// range is empty or starts past the text.
pub proof fn law_same_node_selected_text<S: Selectable>(st: SelectionState<S>, i: int)
    requires
        distinct_ids(st.selectables),
        0 <= i < st.selectables.len(),
        effective_pair(st) is Some,
        effective_pair(st).unwrap().anchor.node_id == st.selectables[i].spec_id(),
        effective_pair(st).unwrap().focus.node_id == st.selectables[i].spec_id(),
    ensures
        ({
            let p = effective_pair(st).unwrap();
            let n = st.selectables[i];
            let lo = if p.anchor.offset <= p.focus.offset { p.anchor.offset } else { p.focus.offset };
            let hi = if p.anchor.offset <= p.focus.offset { p.focus.offset } else { p.anchor.offset };
            let len = n.spec_text_length();
            selected_text_spec(st) == if lo < hi && lo < len {
                n.spec_text_in_range(lo, if hi < len { hi } else { len })
            } else {
                seq![]
            }
        }),
{
    let sel = st.selectables;
    let p = effective_pair(st).unwrap();
    let (a, b) = ordered_spec(p);
    let id = sel[i].spec_id();
    let lo = a.node_id - 1;
    assert(is_next(sel, lo, a, b, i));
    let k = choose|k: int| is_next(sel, lo, a, b, k);
    assert(sel[k].spec_id() == id);
    assert(k == i);
    assert(text_from(sel, a, b, id as int) == Seq::<char>::empty());
    assert(text_from(sel, a, b, lo) == piece_spec(sel[i], a, b) + text_from(sel, a, b, id as int));
    assert(selected_text_spec(st) =~= piece_spec(sel[i], a, b));
}

} // verus!
