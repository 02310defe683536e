//! Accessibility bridge: the accessibility nodes that mirror the widget tree,
//! kept by id, with a textual dump of the tree.
use vstd::prelude::*;

use crate::text_fmt::{decimal, push_decimal, push_repeat, repeat};

verus! {

/// Role of an accessibility node.
#[derive(Copy, Clone, Debug, PartialEq, Eq, Structural)]
pub enum AccessRole {
    Unknown,
    Button,
    Label,
    TextInput,
    Group,
    ScrollArea,
    Checkbox,
    RadioButton,
    ComboBox,
    Link,
    Image,
    Heading,
    Paragraph,
    List,
    ListItem,
}

/// Name of a role as the tree dump prints it.
pub open spec fn role_name(r: AccessRole) -> Seq<char> {
    match r {
        AccessRole::Unknown => "Unknown"@,
        AccessRole::Button => "Button"@,
        AccessRole::Label => "Label"@,
        AccessRole::TextInput => "TextInput"@,
        AccessRole::Group => "Group"@,
        AccessRole::ScrollArea => "ScrollArea"@,
        AccessRole::Checkbox => "Checkbox"@,
        AccessRole::RadioButton => "RadioButton"@,
        AccessRole::ComboBox => "ComboBox"@,
        AccessRole::Link => "Link"@,
        AccessRole::Image => "Image"@,
        AccessRole::Heading => "Heading"@,
        AccessRole::Paragraph => "Paragraph"@,
        AccessRole::List => "List"@,
        AccessRole::ListItem => "ListItem"@,
    }
}

impl AccessRole {
    /// Name of the role as the tree dump prints it.
    pub fn name(&self) -> (s: &'static str)
        ensures
            s@ == role_name(*self),
    {
        match self {
            AccessRole::Unknown => "Unknown",
            AccessRole::Button => "Button",
            AccessRole::Label => "Label",
            AccessRole::TextInput => "TextInput",
            AccessRole::Group => "Group",
            AccessRole::ScrollArea => "ScrollArea",
            AccessRole::Checkbox => "Checkbox",
            AccessRole::RadioButton => "RadioButton",
            AccessRole::ComboBox => "ComboBox",
            AccessRole::Link => "Link",
            AccessRole::Image => "Image",
            AccessRole::Heading => "Heading",
            AccessRole::Paragraph => "Paragraph",
            AccessRole::List => "List",
            AccessRole::ListItem => "ListItem",
        }
    }
}

/// Accessibility attributes of one widget.
#[derive(Debug)]
pub struct AccessNode {
    /// Node id (the widget's id).
    pub id: usize,
    pub role: AccessRole,
    /// Name, such as a button's label.
    pub name: Option<String>,
    /// Description, such as a tooltip.
    pub description: Option<String>,
    pub focusable: bool,
    /// Checked state of check boxes and radio buttons.
    pub selected: Option<bool>,
    /// Ids of the children.
    pub children: Vec<usize>,
}

/// Value of an [`AccessNode`].
pub struct AccessNodeView {
    pub id: usize,
    pub role: AccessRole,
    pub name: Option<Seq<char>>,
    pub description: Option<Seq<char>>,
    pub focusable: bool,
    pub selected: Option<bool>,
    pub children: Seq<usize>,
}

pub open spec fn opt_text(s: Option<String>) -> Option<Seq<char>> {
    match s {
        Some(t) => Some(t@),
        None => None,
    }
}

impl View for AccessNode {
    type V = AccessNodeView;

    open spec fn view(&self) -> AccessNodeView {
        AccessNodeView {
            id: self.id,
            role: self.role,
            name: opt_text(self.name),
            description: opt_text(self.description),
            focusable: self.focusable,
            selected: self.selected,
            children: self.children@,
        }
    }
}

impl AccessNode {
    /// A node with the given id and role, no name or description, not
    /// focusable, no checked state and no children.
    pub fn new(id: usize, role: AccessRole) -> (r: Self)
        ensures
            r@ == (AccessNodeView {
                id,
                role,
                name: None,
                description: None,
                focusable: false,
                selected: None,
                children: Seq::empty(),
            }),
    {
        AccessNode {
            id,
            role,
            name: None,
            description: None,
            focusable: false,
            selected: None,
            children: Vec::new(),
        }
    }

    /// Sets the name.
    pub fn with_name(self, name: &str) -> (r: Self)
        ensures
            r@ == (AccessNodeView { name: Some(name@), ..self@ }),
    {
        let mut s = self;
        s.name = Some(String::from_str(name));
        s
    }

    /// Sets the description.
    pub fn with_description(self, desc: &str) -> (r: Self)
        ensures
            r@ == (AccessNodeView { description: Some(desc@), ..self@ }),
    {
        let mut s = self;
        s.description = Some(String::from_str(desc));
        s
    }

    /// Sets whether the node can take focus.
    pub fn with_focusable(self, focusable: bool) -> (r: Self)
        ensures
            r@ == (AccessNodeView { focusable, ..self@ }),
    {
        let mut s = self;
        s.focusable = focusable;
        s
    }

    /// Sets the checked state.
    pub fn with_selected(self, selected: bool) -> (r: Self)
        ensures
            r@ == (AccessNodeView { selected: Some(selected), ..self@ }),
    {
        let mut s = self;
        s.selected = Some(selected);
        s
    }

    /// Sets the children's ids.
    pub fn with_children(self, children: Vec<usize>) -> (r: Self)
        ensures
            r@ == (AccessNodeView { children: children@, ..self@ }),
    {
        let mut s = self;
        s.children = children;
        s
    }
}

pub open spec fn nodes_view(v: Seq<AccessNode>) -> Seq<AccessNodeView> {
    v.map_values(|n: AccessNode| n@)
}

/// Position of the first node with id `id`.
pub open spec fn find_pos(nodes: Seq<AccessNodeView>, id: usize) -> Option<int>
    decreases nodes.len(),
{
    if nodes.len() == 0 {
        None
    } else {
        match find_pos(nodes.drop_last(), id) {
            Some(i) => Some(i),
            None => if nodes.last().id == id {
                Some(nodes.len() - 1)
            } else {
                None
            },
        }
    }
}

/// The first node with id `id`.
pub open spec fn find_node(nodes: Seq<AccessNodeView>, id: usize) -> Option<AccessNodeView> {
    match find_pos(nodes, id) {
        Some(i) => Some(nodes[i]),
        None => None,
    }
}

pub proof fn lemma_find_pos(nodes: Seq<AccessNodeView>, id: usize)
    ensures
        find_pos(nodes, id) matches Some(i) ==> 0 <= i < nodes.len() && nodes[i].id == id && forall|k: int|
            0 <= k < i ==> (#[trigger] nodes[k]).id != id,
        find_pos(nodes, id) is None ==> forall|k: int| 0 <= k < nodes.len() ==> (#[trigger] nodes[k]).id != id,
    decreases nodes.len(),
{
    if nodes.len() > 0 {
        lemma_find_pos(nodes.drop_last(), id);
        assert forall|k: int| 0 <= k < nodes.len() - 1 implies nodes[k] == nodes.drop_last()[k] by {}
    }
}

proof fn lemma_find_pos_first(nodes: Seq<AccessNodeView>, id: usize, i: int)
    requires
        0 <= i < nodes.len(),
        nodes[i].id == id,
        forall|k: int| 0 <= k < i ==> (#[trigger] nodes[k]).id != id,
    ensures
        find_pos(nodes, id) == Some(i),
{
    lemma_find_pos(nodes, id);
    match find_pos(nodes, id) {
        Some(j) => {
            if j < i {
                assert(nodes[j].id != id);
            } else if j > i {
                assert(nodes[i].id != id);
            }
        },
        None => {
            assert(nodes[i].id != id);
        },
    }
}

proof fn lemma_find_pos_none(nodes: Seq<AccessNodeView>, id: usize)
    requires
        forall|k: int| 0 <= k < nodes.len() ==> (#[trigger] nodes[k]).id != id,
    ensures
        find_pos(nodes, id) is None,
{
    lemma_find_pos(nodes, id);
    if let Some(j) = find_pos(nodes, id) {
        assert(nodes[j].id != id);
    }
}

/// Removes every occurrence of `x`.
pub open spec fn remove_all(s: Seq<usize>, x: usize) -> Seq<usize>
    decreases s.len(),
{
    if s.len() == 0 {
        seq![]
    } else if s.last() == x {
        remove_all(s.drop_last(), x)
    } else {
        remove_all(s.drop_last(), x).push(s.last())
    }
}

/// The nodes left when the node `id` is removed: every node with that id is
/// dropped, and `id` is dropped from the children of the others.
pub open spec fn without_node(nodes: Seq<AccessNodeView>, id: usize) -> Seq<AccessNodeView>
    decreases nodes.len(),
{
    if nodes.len() == 0 {
        seq![]
    } else if nodes.last().id == id {
        without_node(nodes.drop_last(), id)
    } else {
        without_node(nodes.drop_last(), id).push(
            AccessNodeView { children: remove_all(nodes.last().children, id), ..nodes.last() },
        )
    }
}

/// The nodes after `update_node(n)`: the first node with `n`'s id replaced, or
/// `n` appended when no node has that id.
pub open spec fn updated(nodes: Seq<AccessNodeView>, n: AccessNodeView) -> Seq<AccessNodeView> {
    match find_pos(nodes, n.id) {
        Some(i) => nodes.update(i, n),
        None => nodes.push(n),
    }
}

/// State of the bridge: the root id and the nodes in insertion order.
pub struct BridgeView {
    pub root: Option<usize>,
    pub nodes: Seq<AccessNodeView>,
}

/// Keeps the accessibility nodes of the widget tree, by id.
pub struct AccessibilityBridge {
    root_id: Option<usize>,
    nodes: Vec<AccessNode>,
}

impl View for AccessibilityBridge {
    type V = BridgeView;

    closed spec fn view(&self) -> BridgeView {
        BridgeView { root: self.root_id, nodes: nodes_view(self.nodes@) }
    }
}

impl Default for AccessibilityBridge {
    fn default() -> (r: Self)
        ensures
            r@.root is None,
            r@.nodes == Seq::<AccessNodeView>::empty(),
    {
        Self::new()
    }
}

// ----- the tree dump -----

/// Two spaces per level.
pub open spec fn indent(depth: nat) -> Seq<char> {
    repeat("  "@, depth)
}

/// The dump line of a node: indentation, role, id in brackets, quoted name.
pub open spec fn node_line(n: AccessNodeView, depth: nat) -> Seq<char> {
    indent(depth) + role_name(n.role) + "("@ + decimal(n.id as nat) + ") \""@ + (match n.name {
        Some(s) => s,
        None => seq![],
    }) + "\"\n"@
}

/// Dump of the node `id` and, one level deeper, of its children in order, over
/// at most `fuel` levels (an id that names no node dumps nothing).
pub open spec fn dump_node_spec(nodes: Seq<AccessNodeView>, id: usize, depth: nat, fuel: nat) -> Seq<char>
    decreases fuel, 0nat,
{
    if fuel == 0 {
        seq![]
    } else {
        match find_node(nodes, id) {
            Some(n) => node_line(n, depth) + dump_children_spec(nodes, n.children, depth + 1, (fuel - 1) as nat),
            None => seq![],
        }
    }
}

/// Dumps of the nodes `ids`, one after another.
pub open spec fn dump_children_spec(nodes: Seq<AccessNodeView>, ids: Seq<usize>, depth: nat, fuel: nat) -> Seq<char>
    decreases fuel, ids.len(),
{
    if ids.len() == 0 {
        seq![]
    } else {
        dump_children_spec(nodes, ids.drop_last(), depth, fuel) + dump_node_spec(nodes, ids.last(), depth, fuel)
    }
}

/// Dump of the whole tree from its root. A tree without cycles is at most as
/// deep as it has nodes, so the dump goes that many levels deep.
pub open spec fn dump_tree_spec(b: BridgeView) -> Seq<char> {
    match b.root {
        Some(r) => dump_node_spec(b.nodes, r, 0, b.nodes.len()),
        None => seq![],
    }
}

impl AccessibilityBridge {
    /// An empty bridge: no root, no nodes.
    pub fn new() -> (r: Self)
        ensures
            r@.root is None,
            r@.nodes == Seq::<AccessNodeView>::empty(),
    {
        let r = AccessibilityBridge { root_id: None, nodes: Vec::new() };
        assert(r@.nodes =~= Seq::<AccessNodeView>::empty());
        r
    }

    /// Sets the root id.
    pub fn set_root(&mut self, root_id: usize)
        ensures
            final(self)@.root == Some(root_id),
            final(self)@.nodes == old(self)@.nodes,
    {
        self.root_id = Some(root_id);
    }

    fn position(&self, id: usize) -> (r: Option<usize>)
        ensures
            r is Some <==> find_pos(self@.nodes, id) is Some,
            r matches Some(i) ==> find_pos(self@.nodes, id) == Some(i as int) && i < self.nodes@.len()
                && self@.nodes[i as int] == self.nodes@[i as int]@,
    {
        let ghost v = self@.nodes;
        let mut i: usize = 0;
        while i < self.nodes.len()
            invariant
                i <= self.nodes@.len(),
                v == nodes_view(self.nodes@),
                forall|k: int| 0 <= k < i ==> (#[trigger] v[k]).id != id,
            decreases self.nodes.len() - i,
        {
            assert(v[i as int] == self.nodes@[i as int]@);
            if self.nodes[i].id == id {
                proof {
                    lemma_find_pos_first(v, id, i as int);
                }
                return Some(i);
            }
            i = i + 1;
        }
        proof {
            lemma_find_pos_none(v, id);
        }
        None
    }

    /// Adds `node`, or replaces the first node with the same id.
    pub fn update_node(&mut self, node: AccessNode)
        ensures
            final(self)@.root == old(self)@.root,
            final(self)@.nodes == updated(old(self)@.nodes, node@),
    {
        let ghost nv = node@;
        match self.position(node.id) {
            Some(i) => {
                self.nodes.set(i, node);
                assert(self@.nodes =~= old(self)@.nodes.update(i as int, nv));
            },
            None => {
                self.nodes.push(node);
                assert(self@.nodes =~= old(self)@.nodes.push(nv));
            },
        }
    }

    /// Removes every node with id `id`, and `id` from the children of the
    /// others.
    pub fn remove_node(&mut self, id: usize)
        ensures
            final(self)@.root == old(self)@.root,
            final(self)@.nodes == without_node(old(self)@.nodes, id),
    {
        let ghost old_nodes = self@.nodes;
        let mut rest: Vec<AccessNode> = Vec::new();
        std::mem::swap(&mut rest, &mut self.nodes);
        let mut kept: Vec<AccessNode> = Vec::new();
        assert(nodes_view(kept@) =~= Seq::<AccessNodeView>::empty());
        assert(nodes_view(rest@) =~= old_nodes);
        while rest.len() > 0
            invariant
                without_node(old_nodes, id) == without_node(nodes_view(rest@), id) + nodes_view(kept@),
                self.root_id == old(self).root_id,
            decreases rest.len(),
        {
            let ghost rv = nodes_view(rest@);
            let ghost kv = nodes_view(kept@);
            let mut n = rest.pop().unwrap();
            assert(nodes_view(rest@) =~= rv.drop_last());
            assert(rv.last() == n@);
            if n.id != id {
                let ghost nv = n@;
                let children = Self::without_child(&n.children, id);
                n.children = children;
                assert(n@ == AccessNodeView { children: remove_all(nv.children, id), ..nv });
                kept.insert(0, n);
                assert(nodes_view(kept@) =~= seq![n@] + kv);
                assert(without_node(rv, id) == without_node(rv.drop_last(), id).push(n@));
                assert(without_node(old_nodes, id) =~= without_node(nodes_view(rest@), id) + nodes_view(kept@));
            }
        }
        assert(without_node(nodes_view(rest@), id) =~= Seq::<AccessNodeView>::empty());
        assert(without_node(old_nodes, id) =~= nodes_view(kept@));
        self.nodes = kept;
    }

    fn without_child(children: &Vec<usize>, id: usize) -> (r: Vec<usize>)
        ensures
            r@ == remove_all(children@, id),
    {
        let mut out: Vec<usize> = Vec::new();
        let mut i: usize = 0;
        while i < children.len()
            invariant
                i <= children@.len(),
                out@ == remove_all(children@.take(i as int), id),
            decreases children.len() - i,
        {
            let c = children[i];
            assert(children@.take(i + 1).drop_last() =~= children@.take(i as int));
            assert(children@.take(i + 1).last() == c);
            if c != id {
                out.push(c);
            }
            i = i + 1;
        }
        assert(children@.take(i as int) =~= children@);
        out
    }

    /// The first node with id `id`.
    pub fn get_node(&self, id: usize) -> (r: Option<&AccessNode>)
        ensures
            r is Some <==> find_node(self@.nodes, id) is Some,
            r matches Some(n) ==> find_node(self@.nodes, id) == Some(n@),
    {
        match self.position(id) {
            Some(i) => Some(&self.nodes[i]),
            None => None,
        }
    }

    /// Mutable access to the first node with id `id`.
    pub fn get_node_mut(&mut self, id: usize) -> (r: Option<&mut AccessNode>)
        ensures
            r is Some <==> find_pos(old(self)@.nodes, id) is Some,
            r is None ==> final(self)@ == old(self)@,
            r matches Some(n) ==> find_node(old(self)@.nodes, id) == Some(n@) && final(self)@.root == old(self)@.root
                && final(self)@.nodes == old(self)@.nodes.update(find_pos(old(self)@.nodes, id).unwrap(), final(n)@),
    {
        match self.position(id) {
            Some(i) => Some(&mut self.nodes[i]),
            None => None,
        }
    }

    /// The root node, when a root id is set and names a node.
    pub fn root_node(&self) -> (r: Option<&AccessNode>)
        ensures
            r is Some <==> (self@.root matches Some(id) && find_node(self@.nodes, id) is Some),
            r matches Some(n) ==> self@.root matches Some(id) && find_node(self@.nodes, id) == Some(n@),
    {
        match self.root_id {
            Some(id) => self.get_node(id),
            None => None,
        }
    }

    /// Number of nodes.
    pub fn node_count(&self) -> (r: usize)
        ensures
            r == self@.nodes.len(),
    {
        self.nodes.len()
    }

    /// Textual dump of the tree from the root, one line per node:
    /// `{indent}{Role}({id}) "{name}"`, children one level (two spaces) deeper.
    /// Empty when no root is set.
    pub fn dump_tree(&self) -> (r: String)
        ensures
            r@ == dump_tree_spec(self@),
    {
        let mut out = String::new();
        match self.root_id {
            Some(root_id) => {
                self.dump_node(root_id, &mut out, 0, self.nodes.len());
            },
            None => {},
        }
        out
    }

    fn dump_node(&self, id: usize, out: &mut String, depth: usize, fuel: usize)
        requires
            depth + fuel <= usize::MAX,
        ensures
            final(out)@ == old(out)@ + dump_node_spec(self@.nodes, id, depth as nat, fuel as nat),
        decreases fuel,
    {
        if fuel == 0 {
            assert(final(out)@ =~= old(out)@ + dump_node_spec(self@.nodes, id, depth as nat, fuel as nat));
            return;
        }
        match self.position(id) {
            Some(i) => {
                let node = &self.nodes[i];
                let ghost nv = node@;
                proof {
                    lemma_find_pos(self@.nodes, id);
                }
                assert(find_node(self@.nodes, id) == Some(nv));
                assert(nv.id == id);
                push_repeat(out, "  ", depth);
                out.append(node.role.name());
                out.append("(");
                push_decimal(out, id);
                out.append(") \"");
                match &node.name {
                    Some(name) => out.append(name.as_str()),
                    None => {},
                }
                out.append("\"\n");
                assert(out@ =~= old(out)@ + node_line(nv, depth as nat));
                let ghost line_end = out@;
                let mut k: usize = 0;
                while k < node.children.len()
                    invariant
                        k <= node.children@.len(),
                        nv == node@,
                        depth + fuel <= usize::MAX,
                        fuel > 0,
                        out@ == line_end + dump_children_spec(
                            self@.nodes,
                            nv.children.take(k as int),
                            (depth + 1) as nat,
                            (fuel - 1) as nat,
                        ),
                    decreases node.children.len() - k,
                {
                    let child = node.children[k];
                    self.dump_node(child, out, depth + 1, fuel - 1);
                    let ghost t = nv.children.take(k + 1);
                    assert(t.drop_last() =~= nv.children.take(k as int));
                    assert(t.last() == child);
                    k = k + 1;
                }
                assert(nv.children.take(k as int) =~= nv.children);
            },
            None => {
                assert(find_node(self@.nodes, id) is None);
                assert(final(out)@ =~= old(out)@ + dump_node_spec(self@.nodes, id, depth as nat, fuel as nat));
            },
        }
    }
}


// ----- laws -----

/// Law: after `update_node(n)`, looking up `n`'s id gives `n`.
pub proof fn law_update_then_get(nodes: Seq<AccessNodeView>, n: AccessNodeView)
    ensures
        find_node(updated(nodes, n), n.id) == Some(n),
{
    let r = updated(nodes, n);
    lemma_find_pos(nodes, n.id);
    match find_pos(nodes, n.id) {
        Some(i) => {
            assert forall|k: int| 0 <= k < i implies (#[trigger] r[k]).id != n.id by {
                assert(r[k] == nodes[k]);
            }
            lemma_find_pos_first(r, n.id, i);
        },
        None => {
            assert forall|k: int| 0 <= k < nodes.len() implies (#[trigger] r[k]).id != n.id by {
                assert(r[k] == nodes[k]);
            }
            lemma_find_pos_first(r, n.id, nodes.len() as int);
        },
    }
}

/// Law: `update_node(n)` leaves the lookup of every other id unchanged.
pub proof fn law_update_keeps_others(nodes: Seq<AccessNodeView>, n: AccessNodeView, other: usize)
    requires
        other != n.id,
    ensures
        find_node(updated(nodes, n), other) == find_node(nodes, other),
{
    let r = updated(nodes, n);
    lemma_find_pos(nodes, n.id);
    lemma_find_pos(nodes, other);
    assert(forall|k: int| 0 <= k < r.len() ==> ((#[trigger] r[k]).id == other <==> k < nodes.len() && nodes[k].id == other));
    assert(forall|k: int| 0 <= k < nodes.len() && nodes[k].id == other ==> r[k] == nodes[k]);
    match find_pos(nodes, other) {
        Some(j) => {
            assert forall|k: int| 0 <= k < j implies (#[trigger] r[k]).id != other by {}
            lemma_find_pos_first(r, other, j);
        },
        None => {
            lemma_find_pos_none(r, other);
        },
    }
}

/// Law: `update_node(n)` adds a node exactly when no node had `n`'s id.
pub proof fn law_update_count(nodes: Seq<AccessNodeView>, n: AccessNodeView)
    ensures
        updated(nodes, n).len() == nodes.len() + (if find_node(nodes, n.id) is Some { 0int } else { 1int }),
{
    lemma_find_pos(nodes, n.id);
}

proof fn lemma_remove_all(s: Seq<usize>, x: usize)
    ensures
        !remove_all(s, x).contains(x),
    decreases s.len(),
{
    if s.len() > 0 {
        lemma_remove_all(s.drop_last(), x);
        let r0 = remove_all(s.drop_last(), x);
        if remove_all(s, x).contains(x) {
            let k = choose|k: int| 0 <= k < remove_all(s, x).len() && remove_all(s, x)[k] == x;
            if s.last() != x && k == r0.len() {
            } else {
                assert(r0[k] == x);
            }
        }
    }
}

proof fn lemma_without_node(nodes: Seq<AccessNodeView>, id: usize)
    ensures
        forall|k: int| 0 <= k < without_node(nodes, id).len() ==> (#[trigger] without_node(nodes, id)[k]).id != id
            && !without_node(nodes, id)[k].children.contains(id),
    decreases nodes.len(),
{
    if nodes.len() > 0 {
        lemma_without_node(nodes.drop_last(), id);
        lemma_remove_all(nodes.last().children, id);
    }
}

/// Law: after `remove_node(id)` no node has id `id` and no node lists `id`
/// among its children.
pub proof fn law_remove_then_get(nodes: Seq<AccessNodeView>, id: usize)
    ensures
        find_node(without_node(nodes, id), id) is None,
        forall|k: int| 0 <= k < without_node(nodes, id).len() ==> !(#[trigger] without_node(nodes, id)[k]).children.contains(id),
{
    lemma_without_node(nodes, id);
    lemma_find_pos_none(without_node(nodes, id), id);
}

/// The ids of the nodes, in order.
pub open spec fn node_ids(nodes: Seq<AccessNodeView>) -> Seq<usize> {
    nodes.map_values(|n: AccessNodeView| n.id)
}

/// The ids that `get_node` finds.
pub open spec fn found_ids(nodes: Seq<AccessNodeView>) -> Set<usize> {
    Set::new(|k: usize| find_node(nodes, k) is Some)
}

/// Law: `update_node` keeps the node ids distinct.
pub proof fn law_update_keeps_ids_distinct(nodes: Seq<AccessNodeView>, n: AccessNodeView)
    requires
        node_ids(nodes).no_duplicates(),
    ensures
        node_ids(updated(nodes, n)).no_duplicates(),
{
    lemma_find_pos(nodes, n.id);
    match find_pos(nodes, n.id) {
        Some(i) => {
            assert(node_ids(updated(nodes, n)) =~= node_ids(nodes));
        },
        None => {
            let r = node_ids(updated(nodes, n));
            assert forall|a: int, b: int| 0 <= a < r.len() && 0 <= b < r.len() && a != b implies r[a] != r[b] by {
                if a < nodes.len() && b < nodes.len() {
                    assert(r[a] == node_ids(nodes)[a] && r[b] == node_ids(nodes)[b]);
                } else if a < nodes.len() {
                    assert(r[a] == nodes[a].id);
                } else {
                    assert(r[b] == nodes[b].id);
                }
            }
        },
    }
}

/// Every node left by `without_node` keeps the id of one of the nodes.
proof fn lemma_without_ids(nodes: Seq<AccessNodeView>, id: usize)
    ensures
        forall|j: int|
            0 <= j < without_node(nodes, id).len() ==> exists|k: int|
                0 <= k < nodes.len() && nodes[k].id == (#[trigger] without_node(nodes, id)[j]).id,
    decreases nodes.len(),
{
    if nodes.len() > 0 {
        let d = nodes.drop_last();
        lemma_without_ids(d, id);
        let w = without_node(nodes, id);
        assert forall|j: int| 0 <= j < w.len() implies exists|k: int|
            0 <= k < nodes.len() && nodes[k].id == (#[trigger] w[j]).id by {
            if j < without_node(d, id).len() {
                let k = choose|k: int| 0 <= k < d.len() && d[k].id == without_node(d, id)[j].id;
                assert(nodes[k] == d[k]);
            } else {
                assert(nodes[nodes.len() - 1].id == w[j].id);
            }
        }
    }
}

/// Law: `remove_node` keeps the node ids distinct.
pub proof fn law_remove_keeps_ids_distinct(nodes: Seq<AccessNodeView>, id: usize)
    requires
        node_ids(nodes).no_duplicates(),
    ensures
        node_ids(without_node(nodes, id)).no_duplicates(),
    decreases nodes.len(),
{
    if nodes.len() > 0 {
        let d = nodes.drop_last();
        assert forall|a: int, b: int| 0 <= a < d.len() && 0 <= b < d.len() && a != b implies node_ids(d)[a]
            != node_ids(d)[b] by {
            assert(node_ids(d)[a] == node_ids(nodes)[a] && node_ids(d)[b] == node_ids(nodes)[b]);
        }
        law_remove_keeps_ids_distinct(d, id);
        lemma_without_ids(d, id);
        let w0 = without_node(d, id);
        let w = without_node(nodes, id);
        if nodes.last().id != id {
            let r = node_ids(w);
            assert forall|a: int, b: int| 0 <= a < r.len() && 0 <= b < r.len() && a != b implies r[a] != r[b] by {
                if a < w0.len() && b < w0.len() {
                    assert(r[a] == node_ids(w0)[a] && r[b] == node_ids(w0)[b]);
                } else {
                    let j = if a < w0.len() { a } else { b };
                    if j < w0.len() {
                        let k = choose|k: int| 0 <= k < d.len() && d[k].id == (#[trigger] w0[j]).id;
                        assert(node_ids(nodes)[k] == d[k].id);
                        assert(node_ids(nodes)[nodes.len() - 1] == nodes.last().id);
                        assert(w[j] == w0[j]);
                    }
                }
            }
        } else {
            assert(w == w0);
        }
    }
}

/// Law: while the node ids are distinct, the node count is the number of ids
/// that `get_node` finds.
pub proof fn law_count_is_found_ids(nodes: Seq<AccessNodeView>)
    requires
        node_ids(nodes).no_duplicates(),
    ensures
        found_ids(nodes).len() == nodes.len(),
{
    let ids = node_ids(nodes);
    ids.unique_seq_to_set();
    assert forall|k: usize| #[trigger] found_ids(nodes).contains(k) <==> ids.to_set().contains(k) by {
        lemma_find_pos(nodes, k);
        if ids.contains(k) {
            let i = choose|i: int| 0 <= i < ids.len() && ids[i] == k;
            assert(nodes[i].id == k);
        }
        if let Some(i) = find_pos(nodes, k) {
            assert(ids[i] == k);
        }
    }
    assert(found_ids(nodes) =~= ids.to_set());
}

/// A change to a bridge: `set_root`, `update_node`, `remove_node`, or an
/// edit through `get_node_mut` that keeps the node's id (the edited node
/// given in full).
pub enum BridgeOp {
    SetRoot(usize),
    Update(AccessNodeView),
    Remove(usize),
    Edit(AccessNodeView),
}

/// The bridge after one change (see the contracts of `set_root`,
/// `update_node`, `remove_node` and `get_node_mut`).
pub open spec fn bridge_step(b: BridgeView, op: BridgeOp) -> BridgeView {
    match op {
        BridgeOp::SetRoot(id) => BridgeView { root: Some(id), nodes: b.nodes },
        BridgeOp::Update(n) => BridgeView { root: b.root, nodes: updated(b.nodes, n) },
        BridgeOp::Remove(id) => BridgeView { root: b.root, nodes: without_node(b.nodes, id) },
        BridgeOp::Edit(n) => match find_pos(b.nodes, n.id) {
            Some(i) => BridgeView { root: b.root, nodes: b.nodes.update(i, n) },
            None => b,
        },
    }
}

/// The bridge after the changes `ops`, in order, to a new bridge.
pub open spec fn run_ops(ops: Seq<BridgeOp>) -> BridgeView
    decreases ops.len(),
{
    if ops.len() == 0 {
        BridgeView { root: None, nodes: Seq::empty() }
    } else {
        bridge_step(run_ops(ops.drop_last()), ops.last())
    }
}

/// Law: a bridge made by `new` and changed by any sequence of `set_root`,
/// `update_node`, `remove_node` and id-keeping edits has distinct node ids,
/// and its node count is the number of ids that `get_node` finds.
pub proof fn law_bridge_ids_distinct(ops: Seq<BridgeOp>)
    ensures
        node_ids(run_ops(ops).nodes).no_duplicates(),
        found_ids(run_ops(ops).nodes).len() == run_ops(ops).nodes.len(),
    decreases ops.len(),
{
    if ops.len() == 0 {
        assert(node_ids(run_ops(ops).nodes) =~= Seq::<usize>::empty());
    } else {
        law_bridge_ids_distinct(ops.drop_last());
        let b = run_ops(ops.drop_last());
        match ops.last() {
            BridgeOp::SetRoot(_) => {},
            BridgeOp::Update(n) => {
                law_update_keeps_ids_distinct(b.nodes, n);
            },
            BridgeOp::Remove(id) => {
                law_remove_keeps_ids_distinct(b.nodes, id);
            },
            BridgeOp::Edit(n) => {
                lemma_find_pos(b.nodes, n.id);
                if let Some(i) = find_pos(b.nodes, n.id) {
                    assert(node_ids(b.nodes.update(i, n)) =~= node_ids(b.nodes));
                }
            },
        }
    }
    law_count_is_found_ids(run_ops(ops).nodes);
}

} // verus!
