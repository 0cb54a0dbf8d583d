//! The export selection tree: devices hold restrictions and folders of static
//! passwords, restrictions hold derived-password domains. The user toggles
//! nodes by their position in the flattened view; selecting a node selects its
//! whole subtree, and a group with a selected child counts as selected.

use vstd::prelude::*;

verus! {

/// What a node of the export tree stands for.
#[derive(PartialEq, Eq, Structural, Clone, Copy, Debug)]
pub enum NodeKind {
    Device,
    Restriction,
    Folder,
    DerivedPassword,
    StaticPassword,
}

/// A node of the export tree.
pub struct TreeNode {
    pub uuid: u128,
    pub label: String,
    pub node_type: NodeKind,
    pub selected: bool,
    pub children: Vec<TreeNode>,
}

/// The abstract value of a node: its fields, the label as characters and the
/// children as abstract values.
pub ghost struct NodeV {
    pub uuid: u128,
    pub label: Seq<char>,
    pub kind: NodeKind,
    pub selected: bool,
    pub children: Seq<NodeV>,
}

pub open spec fn node_view(n: TreeNode) -> NodeV
    decreases n,
{
    NodeV {
        uuid: n.uuid,
        label: n.label@,
        kind: n.node_type,
        selected: n.selected,
        children: forest_view(n.children@),
    }
}

pub open spec fn forest_view(s: Seq<TreeNode>) -> Seq<NodeV>
    decreases s,
{
    if s.len() == 0 {
        seq![]
    } else {
        seq![node_view(s[0])] + forest_view(s.drop_first())
    }
}

pub proof fn lemma_forest_view(s: Seq<TreeNode>)
    ensures
        forest_view(s).len() == s.len(),
        forall|i: int| 0 <= i < s.len() ==> #[trigger] forest_view(s)[i] == node_view(s[i]),
    decreases s.len(),
{
    if s.len() > 0 {
        lemma_forest_view(s.drop_first());
        assert forall|i: int| 0 <= i < s.len() implies #[trigger] forest_view(s)[i] == node_view(
            s[i],
        ) by {
            if i > 0 {
                assert(forest_view(s)[i] == forest_view(s.drop_first())[i - 1]);
            }
        }
    }
}

/// Two forests of equal abstract values at each position are equal.
pub proof fn lemma_forest_view_ext(a: Seq<TreeNode>, b: Seq<TreeNode>)
    requires
        a.len() == b.len(),
        forall|i: int| 0 <= i < a.len() ==> node_view(a[i]) == node_view(b[i]),
    ensures
        forest_view(a) == forest_view(b),
{
    lemma_forest_view(a);
    lemma_forest_view(b);
    assert(forest_view(a) =~= forest_view(b));
}

// ---------------------------------------------------------------------------
// Selecting or deselecting a whole forest

pub open spec fn set_all_n(n: NodeV, sel: bool) -> NodeV
    decreases n,
{
    NodeV { selected: sel, children: set_all_f(n.children, sel), ..n }
}

pub open spec fn set_all_f(s: Seq<NodeV>, sel: bool) -> Seq<NodeV>
    decreases s,
{
    if s.len() == 0 {
        seq![]
    } else {
        seq![set_all_n(s[0], sel)] + set_all_f(s.drop_first(), sel)
    }
}

pub proof fn lemma_set_all_f(s: Seq<NodeV>, sel: bool)
    ensures
        set_all_f(s, sel).len() == s.len(),
        forall|i: int| 0 <= i < s.len() ==> #[trigger] set_all_f(s, sel)[i] == set_all_n(s[i], sel),
    decreases s.len(),
{
    if s.len() > 0 {
        lemma_set_all_f(s.drop_first(), sel);
        assert forall|i: int| 0 <= i < s.len() implies #[trigger] set_all_f(s, sel)[i]
            == set_all_n(s[i], sel) by {
            if i > 0 {
                assert(set_all_f(s, sel)[i] == set_all_f(s.drop_first(), sel)[i - 1]);
            }
        }
    }
}

/// Sets the selection of every node of the forest to `selected`.
pub fn set_all_selected(tree: &mut Vec<TreeNode>, selected: bool)
    ensures
        forest_view(final(tree)@) == set_all_f(forest_view(old(tree)@), selected),
    decreases old(tree)@,
{
    let ghost old_s = tree@;
    let mut i: usize = 0;
    while i < tree.len()
        invariant
            i <= tree.len(),
            tree@.len() == old_s.len(),
            old_s == old(tree)@,
            forall|j: int| 0 <= j < i ==> node_view(#[trigger] tree@[j]) == set_all_n(
                node_view(old_s[j]),
                selected,
            ),
            forall|j: int| i <= j < tree@.len() ==> #[trigger] tree@[j] == old_s[j],
        decreases tree.len() - i,
    {
        let node = &mut tree[i];
        assert(node.children@ == old_s[i as int].children@);
        assert(decreases_to!(old_s => old_s[i as int].children@));
        node.selected = selected;
        set_all_selected(&mut node.children, selected);
        i = i + 1;
    }
    proof {
        lemma_forest_view(tree@);
        lemma_forest_view(old_s);
        lemma_set_all_f(forest_view(old_s), selected);
        assert(forest_view(tree@) =~= set_all_f(forest_view(old_s), selected));
    }
}

/// The selection after filtering by device `device_index`: a negative index
/// selects everything; a device of the forest is selected with its whole
/// subtree and everything else is deselected; any other index changes nothing.
pub open spec fn filter_spec(t: Seq<NodeV>, device_index: int) -> Seq<NodeV> {
    if device_index < 0 {
        set_all_f(t, true)
    } else if device_index < t.len() {
        set_all_f(t, false).update(device_index, set_all_n(t[device_index], true))
    } else {
        t
    }
}

/// Narrows the selection to one device (or, with a negative index, selects
/// everything).
pub fn filter_by_device(tree: &mut Vec<TreeNode>, device_index: i32)
    ensures
        forest_view(final(tree)@) == filter_spec(forest_view(old(tree)@), device_index as int),
{
    let ghost t0 = forest_view(tree@);
    proof {
        lemma_forest_view(tree@);
    }
    if device_index < 0 {
        set_all_selected(tree, true);
    } else {
        let idx = device_index as usize;
        if idx < tree.len() {
            set_all_selected(tree, false);
            let ghost t1 = tree@;
            proof {
                lemma_forest_view(t1);
                lemma_set_all_f(t0, false);
            }
            let node = &mut tree[idx];
            node.selected = true;
            set_all_selected(&mut node.children, true);
            proof {
                let k = idx as int;
                lemma_forest_view(tree@);
                lemma_set_all_twice_f(t0[k].children, false, true);
                assert(forest_view(t1)[k] == node_view(t1[k]));
                assert(set_all_f(t0, false)[k] == set_all_n(t0[k], false));
                assert(node_view(t1[k]) == set_all_n(t0[k], false));
                assert(node_view(tree@[k]) == set_all_n(t0[k], true));
                assert forall|j: int| 0 <= j < tree@.len() && j != k implies node_view(#[trigger] tree@[j])
                    == set_all_f(t0, false)[j] by {
                    assert(tree@[j] == t1[j]);
                }
                assert(forest_view(tree@) =~= set_all_f(t0, false).update(k, set_all_n(t0[k], true)));
            }
        }
    }
}


// ---------------------------------------------------------------------------
// Sizes and the flattened view

/// The number of nodes of a subtree.
pub open spec fn nsize(n: NodeV) -> nat
    decreases n,
{
    1 + fsize(n.children)
}

/// The number of nodes of a forest.
pub open spec fn fsize(s: Seq<NodeV>) -> nat
    decreases s,
{
    if s.len() == 0 {
        0
    } else {
        nsize(s[0]) + fsize(s.drop_first())
    }
}

/// The depth of a subtree (a leaf has depth 1).
pub open spec fn ndepth(n: NodeV) -> nat
    decreases n,
{
    1 + fdepth(n.children)
}

/// The depth of a forest (0 when empty).
pub open spec fn fdepth(s: Seq<NodeV>) -> nat
    decreases s,
{
    if s.len() == 0 {
        0
    } else {
        let a = ndepth(s[0]);
        let b = fdepth(s.drop_first());
        if a >= b {
            a
        } else {
            b
        }
    }
}

/// One row of the flattened tree, as the user interface lists it.
pub struct FlatItem {
    pub uuid: u128,
    pub label: String,
    pub node_type: NodeKind,
    pub selected: bool,
    pub indent: usize,
    pub has_children: bool,
}

pub ghost struct FlatV {
    pub uuid: u128,
    pub label: Seq<char>,
    pub kind: NodeKind,
    pub selected: bool,
    pub indent: nat,
    pub has_children: bool,
}

impl FlatItem {
    pub open spec fn view(&self) -> FlatV {
        FlatV {
            uuid: self.uuid,
            label: self.label@,
            kind: self.node_type,
            selected: self.selected,
            indent: self.indent as nat,
            has_children: self.has_children,
        }
    }
}

pub open spec fn flat_views(s: Seq<FlatItem>) -> Seq<FlatV> {
    s.map_values(|f: FlatItem| f.view())
}

/// The row of a node at depth `indent`.
pub open spec fn row(n: NodeV, indent: nat) -> FlatV {
    FlatV {
        uuid: n.uuid,
        label: n.label,
        kind: n.kind,
        selected: n.selected,
        indent,
        has_children: n.children.len() > 0,
    }
}

/// A subtree in pre-order: the node, then its children one level deeper.
pub open spec fn flat_n(n: NodeV, indent: nat) -> Seq<FlatV>
    decreases n,
{
    seq![row(n, indent)] + flat_f(n.children, indent + 1)
}

/// A forest in pre-order.
pub open spec fn flat_f(s: Seq<NodeV>, indent: nat) -> Seq<FlatV>
    decreases s,
{
    if s.len() == 0 {
        seq![]
    } else {
        flat_n(s[0], indent) + flat_f(s.drop_first(), indent)
    }
}

pub proof fn lemma_flat_f_append(a: Seq<NodeV>, b: Seq<NodeV>, indent: nat)
    ensures
        flat_f(a + b, indent) == flat_f(a, indent) + flat_f(b, indent),
        fsize(a + b) == fsize(a) + fsize(b),
        fdepth(a + b) == (if fdepth(a) >= fdepth(b) { fdepth(a) } else { fdepth(b) }),
    decreases a.len(),
{
    if a.len() == 0 {
        assert(a + b =~= b);
    } else {
        assert((a + b).drop_first() =~= a.drop_first() + b);
        assert((a + b)[0] == a[0]);
        lemma_flat_f_append(a.drop_first(), b, indent);
        assert(flat_f(a + b, indent) =~= flat_f(a, indent) + flat_f(b, indent));
    }
}

pub proof fn lemma_flat_len(s: Seq<NodeV>, indent: nat)
    ensures
        flat_f(s, indent).len() == fsize(s),
    decreases s,
{
    if s.len() > 0 {
        lemma_flat_len(s[0].children, indent + 1);
        lemma_flat_len(s.drop_first(), indent);
        assert(flat_n(s[0], indent).len() == 1 + flat_f(s[0].children, indent + 1).len());
        assert(nsize(s[0]) == 1 + fsize(s[0].children));
    }
}

proof fn lemma_take_push<A>(s: Seq<A>, i: int)
    requires
        0 <= i < s.len(),
    ensures
        s.take(i + 1) == s.take(i) + seq![s[i]],
{
    assert(s.take(i + 1) =~= s.take(i) + seq![s[i]]);
}

proof fn lemma_single_forest(n: NodeV, indent: nat)
    ensures
        flat_f(seq![n], indent) == flat_n(n, indent),
        fsize(seq![n]) == nsize(n),
        fdepth(seq![n]) == ndepth(n),
{
    let s = seq![n];
    assert(s[0] == n);
    assert(s.drop_first() =~= Seq::<NodeV>::empty());
    assert(flat_f(s, indent) == flat_n(s[0], indent) + flat_f(s.drop_first(), indent));
    assert(flat_f(Seq::<NodeV>::empty(), indent) == Seq::<FlatV>::empty());
    assert(fsize(s) == nsize(s[0]) + fsize(s.drop_first()));
    assert(fsize(Seq::<NodeV>::empty()) == 0);
    assert(fdepth(Seq::<NodeV>::empty()) == 0);
    assert(flat_n(n, indent) + Seq::<FlatV>::empty() =~= flat_n(n, indent));
}

proof fn lemma_depth_elem(s: Seq<NodeV>, i: int)
    requires
        0 <= i < s.len(),
    ensures
        ndepth(s[i]) <= fdepth(s),
    decreases i,
{
    if i > 0 {
        lemma_depth_elem(s.drop_first(), i - 1);
    }
}

fn flatten_recursive(nodes: &Vec<TreeNode>, indent: usize, result: &mut Vec<FlatItem>)
    requires
        indent + fdepth(forest_view(nodes@)) <= usize::MAX,
    ensures
        flat_views(final(result)@) == flat_views(old(result)@) + flat_f(forest_view(nodes@), indent as nat),
    decreases nodes@,
{
    let ghost r0 = flat_views(result@);
    let ghost fv = forest_view(nodes@);
    proof {
        lemma_forest_view(nodes@);
    }
    let mut i: usize = 0;
    while i < nodes.len()
        invariant
            i <= nodes.len(),
            fv == forest_view(nodes@),
            fv.len() == nodes@.len(),
            forall|j: int| 0 <= j < nodes@.len() ==> #[trigger] fv[j] == node_view(nodes@[j]),
            indent + fdepth(fv) <= usize::MAX,
            flat_views(result@) == r0 + flat_f(fv.take(i as int), indent as nat),
        decreases nodes.len() - i,
    {
        let node = &nodes[i];
        let ghost before = flat_views(result@);
        result.push(
            FlatItem {
                uuid: node.uuid,
                label: node.label.clone(),
                node_type: node.node_type,
                selected: node.selected,
                indent: indent,
                has_children: node.children.len() > 0,
            },
        );
        proof {
            lemma_depth_elem(fv, i as int);
            lemma_forest_view(node.children@);
            assert(flat_views(result@) =~= before.push(row(fv[i as int], indent as nat)));
            assert(decreases_to!(nodes@ => nodes@[i as int].children@));
        }
        flatten_recursive(&node.children, indent + 1, result);
        proof {
            lemma_take_push(fv, i as int);
            lemma_flat_f_append(fv.take(i as int), seq![fv[i as int]], indent as nat);
            lemma_single_forest(fv[i as int], indent as nat);
            assert(flat_views(result@) =~= r0 + flat_f(fv.take(i + 1), indent as nat));
        }
        i = i + 1;
    }
    assert(fv.take(nodes.len() as int) =~= fv);
}

/// The rows of the tree in pre-order, each with its depth.
pub fn flatten_tree(tree: &Vec<TreeNode>) -> (r: Vec<FlatItem>)
    requires
        fdepth(forest_view(tree@)) <= usize::MAX,
    ensures
        flat_views(r@) == flat_f(forest_view(tree@), 0),
        r@.len() == fsize(forest_view(tree@)),
{
    let mut result: Vec<FlatItem> = Vec::new();
    flatten_recursive(tree, 0, &mut result);
    proof {
        assert(flat_views(result@).len() == result@.len());
        lemma_flat_len(forest_view(tree@), 0);
    }
    result
}


// ---------------------------------------------------------------------------
// Toggling a node by its row in the flattened view

/// Toggles the node at pre-order position `t` of a subtree: the node takes the
/// opposite selection and its whole subtree follows it.
pub open spec fn toggle_n(n: NodeV, t: nat) -> NodeV
    decreases n,
{
    if t == 0 {
        NodeV { selected: !n.selected, children: set_all_f(n.children, !n.selected), ..n }
    } else {
        NodeV { children: toggle_f(n.children, (t - 1) as nat), ..n }
    }
}

/// Toggles the node at pre-order position `t` of a forest; a position past the
/// end changes nothing.
pub open spec fn toggle_f(s: Seq<NodeV>, t: nat) -> Seq<NodeV>
    decreases s,
{
    if s.len() == 0 {
        s
    } else if t < nsize(s[0]) {
        seq![toggle_n(s[0], t)] + s.drop_first()
    } else {
        seq![s[0]] + toggle_f(s.drop_first(), (t - nsize(s[0])) as nat)
    }
}

pub proof fn lemma_toggle_beyond(s: Seq<NodeV>, t: nat)
    requires
        t >= fsize(s),
    ensures
        toggle_f(s, t) == s,
    decreases s.len(),
{
    if s.len() > 0 {
        lemma_toggle_beyond(s.drop_first(), (t - nsize(s[0])) as nat);
        assert(seq![s[0]] + s.drop_first() =~= s);
    }
}

proof fn lemma_fsize_take_step(s: Seq<NodeV>, i: int)
    requires
        0 <= i < s.len(),
    ensures
        fsize(s.take(i + 1)) == fsize(s.take(i)) + nsize(s[i]),
{
    lemma_take_push(s, i);
    lemma_flat_f_append(s.take(i), seq![s[i]], 0);
    lemma_single_forest(s[i], 0);
}

proof fn lemma_toggle_skip(s: Seq<NodeV>, i: int, t: nat)
    requires
        0 <= i <= s.len(),
        t >= fsize(s.take(i)),
    ensures
        toggle_f(s, t) == s.take(i) + toggle_f(s.skip(i), (t - fsize(s.take(i))) as nat),
    decreases i,
{
    if i == 0 {
        assert(s.take(0) =~= Seq::<NodeV>::empty());
        assert(s.skip(0) =~= s);
        assert(fsize(Seq::<NodeV>::empty()) == 0);
        assert(Seq::<NodeV>::empty() + toggle_f(s, t) =~= toggle_f(s, t));
    } else {
        let r = s.drop_first();
        lemma_fsize_take_step(s, 0);
        assert(s.take(1) =~= seq![s[0]]);
        lemma_single_forest(s[0], 0);
        assert(s.take(i) =~= seq![s[0]] + r.take(i - 1));
        lemma_flat_f_append(seq![s[0]], r.take(i - 1), 0);
        lemma_toggle_skip(r, i - 1, (t - nsize(s[0])) as nat);
        assert(r.skip(i - 1) =~= s.skip(i));
        assert(seq![s[0]] + (r.take(i - 1) + toggle_f(s.skip(i), (t - fsize(s.take(i))) as nat))
            =~= s.take(i) + toggle_f(s.skip(i), (t - fsize(s.take(i))) as nat));
    }
}

proof fn lemma_toggle_at(s: Seq<NodeV>, i: int, t: nat)
    requires
        0 <= i < s.len(),
        t < nsize(s[i]),
    ensures
        toggle_f(s.skip(i), t) == seq![toggle_n(s[i], t)] + s.skip(i + 1),
{
    assert(s.skip(i)[0] == s[i]);
    assert(s.skip(i).drop_first() =~= s.skip(i + 1));
}

/// Toggles the node at pre-order position `target - counter` of the forest,
/// counting positions from `counter`; says whether the position lies in it.
pub fn toggle_recursive(nodes: &mut Vec<TreeNode>, target: usize, counter: &mut usize) -> (found: bool)
    requires
        *old(counter) <= target,
    ensures
        found == (target < *old(counter) + fsize(forest_view(old(nodes)@))),
        found ==> forest_view(final(nodes)@) == toggle_f(
            forest_view(old(nodes)@),
            (target - *old(counter)) as nat,
        ),
        !found ==> forest_view(final(nodes)@) == forest_view(old(nodes)@),
        !found ==> *final(counter) == *old(counter) + fsize(forest_view(old(nodes)@)),
    decreases old(nodes)@,
{
    let ghost old_s = nodes@;
    let ghost fv = forest_view(old_s);
    let ghost c0 = *counter;
    proof {
        lemma_forest_view(old_s);
    }
    let mut i: usize = 0;
    while i < nodes.len()
        invariant
            i <= nodes.len(),
            nodes@.len() == old_s.len(),
            old_s == old(nodes)@,
            fv == forest_view(old_s),
            fv.len() == old_s.len(),
            forall|j: int| 0 <= j < old_s.len() ==> #[trigger] fv[j] == node_view(old_s[j]),
            c0 <= target,
            c0 == *old(counter),
            *counter == c0 + fsize(fv.take(i as int)),
            *counter <= target,
            forall|j: int| 0 <= j < i ==> node_view(#[trigger] nodes@[j]) == node_view(old_s[j]),
            forall|j: int| i <= j < nodes@.len() ==> #[trigger] nodes@[j] == old_s[j],
        decreases nodes.len() - i,
    {
        proof {
            lemma_toggle_skip(fv, i as int, (target - c0) as nat);
            lemma_fsize_take_step(fv, i as int);
            lemma_flat_f_append(fv.take(i as int), fv.skip(i as int), 0);
            assert(fv.take(i as int) + fv.skip(i as int) =~= fv);
            assert(fv.skip(i as int)[0] == fv[i as int]);
            assert(fsize(fv.skip(i as int)) == nsize(fv[i as int]) + fsize(fv.skip(i as int).drop_first()));
            assert(fsize(fv) >= fsize(fv.take(i as int)) + nsize(fv[i as int]));
        }
        if *counter == target {
            let node = &mut nodes[i];
            let new_state: bool = !node.selected;
            node.selected = new_state;
            set_all_selected(&mut node.children, new_state);
            proof {
                lemma_toggle_at(fv, i as int, 0);
                lemma_forest_view(nodes@);
                let want = fv.take(i as int) + (seq![toggle_n(fv[i as int], 0)] + fv.skip(i + 1));
                assert(node_view(nodes@[i as int]) == toggle_n(fv[i as int], 0));
                assert forall|j: int| 0 <= j < nodes@.len() implies forest_view(nodes@)[j] == want[j] by {
                    if j < i {
                    } else if j == i {
                    } else {
                        assert(want[j] == fv.skip(i + 1)[j - i - 1]);
                    }
                }
                assert(forest_view(nodes@) =~= want);
            }
            return true;
        }
        *counter = *counter + 1;
        let ghost c1 = *counter;
        proof {
            assert(decreases_to!(old_s => old_s[i as int].children@));
            lemma_forest_view(old_s[i as int].children@);
        }
        let found_child: bool = toggle_recursive(&mut nodes[i].children, target, counter);
        if found_child {
            proof {
                let t = (target - c0 - fsize(fv.take(i as int))) as nat;
                assert(t < nsize(fv[i as int]));
                lemma_toggle_at(fv, i as int, t);
                lemma_forest_view(nodes@);
                let want = fv.take(i as int) + (seq![toggle_n(fv[i as int], t)] + fv.skip(i + 1));
                assert(node_view(nodes@[i as int]) == toggle_n(fv[i as int], t));
                assert forall|j: int| 0 <= j < nodes@.len() implies forest_view(nodes@)[j] == want[j] by {
                    if j < i {
                    } else if j == i {
                    } else {
                        assert(want[j] == fv.skip(i + 1)[j - i - 1]);
                    }
                }
                assert(forest_view(nodes@) =~= want);
            }
            return true;
        }
        i = i + 1;
    }
    proof {
        assert(fv.take(nodes.len() as int) =~= fv);
        lemma_forest_view_ext(nodes@, old_s);
    }
    false
}

// ---------------------------------------------------------------------------
// A group with a selected child counts as selected

/// Devices, restrictions and folders are groups.
pub open spec fn is_group(k: NodeKind) -> bool {
    k == NodeKind::Device || k == NodeKind::Restriction || k == NodeKind::Folder
}

pub open spec fn any_selected(s: Seq<NodeV>) -> bool {
    exists|i: int| 0 <= i < s.len() && (#[trigger] s[i]).selected
}

/// The subtree after marking, bottom up, every group with a selected child.
pub open spec fn prop_n(n: NodeV) -> NodeV
    decreases n,
{
    let ch = prop_f(n.children);
    NodeV { selected: n.selected || (is_group(n.kind) && any_selected(ch)), children: ch, ..n }
}

pub open spec fn prop_f(s: Seq<NodeV>) -> Seq<NodeV>
    decreases s,
{
    if s.len() == 0 {
        seq![]
    } else {
        seq![prop_n(s[0])] + prop_f(s.drop_first())
    }
}

pub proof fn lemma_prop_f(s: Seq<NodeV>)
    ensures
        prop_f(s).len() == s.len(),
        forall|i: int| 0 <= i < s.len() ==> #[trigger] prop_f(s)[i] == prop_n(s[i]),
    decreases s.len(),
{
    if s.len() > 0 {
        lemma_prop_f(s.drop_first());
        assert forall|i: int| 0 <= i < s.len() implies #[trigger] prop_f(s)[i] == prop_n(s[i]) by {
            if i > 0 {
                assert(prop_f(s)[i] == prop_f(s.drop_first())[i - 1]);
            }
        }
    }
}

/// Every group in the subtree of `n` that has a selected child is selected.
pub open spec fn groups_marked_n(n: NodeV) -> bool
    decreases n,
{
    &&& (is_group(n.kind) && any_selected(n.children) ==> n.selected)
    &&& groups_marked_f(n.children)
}

/// Every group in the forest `s` that has a selected child is selected.
pub open spec fn groups_marked_f(s: Seq<NodeV>) -> bool
    decreases s,
{
    if s.len() == 0 {
        true
    } else {
        groups_marked_n(s[0]) && groups_marked_f(s.drop_first())
    }
}

proof fn lemma_prop_marks_n(n: NodeV)
    ensures
        groups_marked_n(prop_n(n)),
    decreases n,
{
    lemma_prop_marks_f(n.children);
}

proof fn lemma_prop_marks_f(s: Seq<NodeV>)
    ensures
        groups_marked_f(prop_f(s)),
    decreases s,
{
    if s.len() > 0 {
        lemma_prop_marks_n(s[0]);
        lemma_prop_marks_f(s.drop_first());
        let p = prop_f(s);
        assert(p[0] == prop_n(s[0]));
        assert(p.drop_first() =~= prop_f(s.drop_first()));
    }
}

/// After a toggle, whatever was selected before, every device, restriction
/// and folder that has a selected child is selected.
pub proof fn law_toggle_marks_groups(t: Seq<NodeV>, target: nat)
    ensures
        groups_marked_f(prop_f(toggle_f(t, target))),
{
    lemma_prop_marks_f(toggle_f(t, target));
}

fn any_child_selected(nodes: &Vec<TreeNode>) -> (r: bool)
    ensures
        r == any_selected(forest_view(nodes@)),
{
    proof {
        lemma_forest_view(nodes@);
    }
    let mut i: usize = 0;
    while i < nodes.len()
        invariant
            i <= nodes.len(),
            forest_view(nodes@).len() == nodes@.len(),
            forall|j: int| 0 <= j < nodes@.len() ==> #[trigger] forest_view(nodes@)[j] == node_view(nodes@[j]),
            forall|j: int| 0 <= j < i ==> !(#[trigger] nodes@[j]).selected,
        decreases nodes.len() - i,
    {
        if nodes[i].selected {
            assert(forest_view(nodes@)[i as int].selected);
            return true;
        }
        i = i + 1;
    }
    assert forall|j: int| 0 <= j < forest_view(nodes@).len() implies !(#[trigger] forest_view(
        nodes@,
    )[j]).selected by {
        assert(forest_view(nodes@)[j] == node_view(nodes@[j]));
    }
    false
}

/// Marks, bottom up, every device, restriction and folder that has a selected
/// child as selected.
pub fn propagate_child_selection_up(tree: &mut Vec<TreeNode>)
    ensures
        forest_view(final(tree)@) == prop_f(forest_view(old(tree)@)),
        groups_marked_f(forest_view(final(tree)@)),
    decreases old(tree)@,
{
    let ghost old_s = tree@;
    let mut i: usize = 0;
    while i < tree.len()
        invariant
            i <= tree.len(),
            tree@.len() == old_s.len(),
            old_s == old(tree)@,
            forall|j: int| 0 <= j < i ==> node_view(#[trigger] tree@[j]) == prop_n(
                node_view(old_s[j]),
            ),
            forall|j: int| i <= j < tree@.len() ==> #[trigger] tree@[j] == old_s[j],
        decreases tree.len() - i,
    {
        let node = &mut tree[i];
        assert(node.children@ == old_s[i as int].children@);
        assert(decreases_to!(old_s => old_s[i as int].children@));
        propagate_child_selection_up(&mut node.children);
        let any: bool = any_child_selected(&node.children);
        let group: bool = node.node_type == NodeKind::Device || node.node_type
            == NodeKind::Restriction || node.node_type == NodeKind::Folder;
        if group && any {
            node.selected = true;
        }
        i = i + 1;
    }
    proof {
        lemma_forest_view(tree@);
        lemma_forest_view(old_s);
        lemma_prop_f(forest_view(old_s));
        assert(forest_view(tree@) =~= prop_f(forest_view(old_s)));
        lemma_prop_marks_f(forest_view(old_s));
    }
}

/// Toggles the node at row `target` of the flattened view, with its subtree,
/// then marks the groups that have a selected child.
pub fn toggle_by_flat_index(tree: &mut Vec<TreeNode>, target: usize)
    ensures
        forest_view(final(tree)@) == prop_f(toggle_f(forest_view(old(tree)@), target as nat)),
        groups_marked_f(forest_view(final(tree)@)),
{
    let mut counter: usize = 0;
    let found: bool = toggle_recursive(tree, target, &mut counter);
    if !found {
        proof {
            lemma_toggle_beyond(forest_view(old(tree)@), target as nat);
        }
    }
    propagate_child_selection_up(tree);
}


// ---------------------------------------------------------------------------
// The export summary and the selected identifiers

/// The sum of `f` over the nodes of `s`.
pub open spec fn sum_over(s: Seq<NodeV>, f: spec_fn(NodeV) -> nat) -> nat
    decreases s.len(),
{
    if s.len() == 0 {
        0
    } else {
        sum_over(s.drop_last(), f) + f(s.last())
    }
}

/// The sequences that `f` gives for the nodes of `s`, one after the other.
pub open spec fn cat_over(s: Seq<NodeV>, f: spec_fn(NodeV) -> Seq<u128>) -> Seq<u128>
    decreases s.len(),
{
    if s.len() == 0 {
        seq![]
    } else {
        cat_over(s.drop_last(), f) + f(s.last())
    }
}

pub open spec fn one_if(b: bool) -> nat {
    if b {
        1
    } else {
        0
    }
}

/// 1 for a selected node.
pub open spec fn sel_count() -> spec_fn(NodeV) -> nat {
    |n: NodeV| one_if(n.selected)
}

/// 1 for a selected node of kind `k`.
pub open spec fn kind_sel(k: NodeKind) -> spec_fn(NodeV) -> nat {
    |g: NodeV| one_if(g.kind == k && g.selected)
}

/// The number of selected children of a node of kind `k`.
pub open spec fn kind_entries(k: NodeKind) -> spec_fn(NodeV) -> nat {
    |g: NodeV| if g.kind == k { sum_over(g.children, sel_count()) } else { 0 }
}

/// The number of selected children of kind `k`.
pub open spec fn group_count(k: NodeKind) -> spec_fn(NodeV) -> nat {
    |d: NodeV| sum_over(d.children, kind_sel(k))
}

/// The number of selected entries in the children of kind `k`.
pub open spec fn entry_count(k: NodeKind) -> spec_fn(NodeV) -> nat {
    |d: NodeV| sum_over(d.children, kind_entries(k))
}

/// The counts that the export view shows.
pub struct ExportSummary {
    pub device_count: i32,
    pub restriction_count: i32,
    pub domain_count: i32,
    pub static_count: i32,
}

/// Selected top-level nodes.
pub open spec fn summary_devices(s: Seq<NodeV>) -> nat {
    sum_over(s, sel_count())
}

/// Selected restrictions, under any device.
pub open spec fn summary_restrictions(s: Seq<NodeV>) -> nat {
    sum_over(s, group_count(NodeKind::Restriction))
}

/// Selected domains, in any restriction.
pub open spec fn summary_domains(s: Seq<NodeV>) -> nat {
    sum_over(s, entry_count(NodeKind::Restriction))
}

/// Selected static passwords, in any folder.
pub open spec fn summary_statics(s: Seq<NodeV>) -> nat {
    sum_over(s, entry_count(NodeKind::Folder))
}

proof fn lemma_sum_step(s: Seq<NodeV>, f: spec_fn(NodeV) -> nat, i: int)
    requires
        0 <= i < s.len(),
    ensures
        sum_over(s.take(i + 1), f) == sum_over(s.take(i), f) + f(s[i]),
{
    assert(s.take(i + 1).drop_last() =~= s.take(i));
}

proof fn lemma_sum_take_le(s: Seq<NodeV>, f: spec_fn(NodeV) -> nat, i: int)
    requires
        0 <= i <= s.len(),
    ensures
        sum_over(s.take(i), f) <= sum_over(s, f),
    decreases s.len() - i,
{
    if i == s.len() {
        assert(s.take(i) =~= s);
    } else {
        lemma_sum_step(s, f, i);
        lemma_sum_take_le(s, f, i + 1);
    }
}

proof fn lemma_cat_step(s: Seq<NodeV>, f: spec_fn(NodeV) -> Seq<u128>, i: int)
    requires
        0 <= i < s.len(),
    ensures
        cat_over(s.take(i + 1), f) == cat_over(s.take(i), f) + f(s[i]),
{
    assert(s.take(i + 1).drop_last() =~= s.take(i));
}

fn count_selected_nodes(nodes: &Vec<TreeNode>) -> (r: i32)
    requires
        sum_over(forest_view(nodes@), sel_count()) <= i32::MAX,
    ensures
        r as int == sum_over(forest_view(nodes@), sel_count()),
{
    let ghost fv = forest_view(nodes@);
    proof {
        lemma_forest_view(nodes@);
    }
    let mut c: i32 = 0;
    let mut i: usize = 0;
    while i < nodes.len()
        invariant
            i <= nodes.len(),
            fv == forest_view(nodes@),
            fv.len() == nodes@.len(),
            forall|j: int| 0 <= j < nodes@.len() ==> #[trigger] fv[j] == node_view(nodes@[j]),
            sum_over(fv, sel_count()) <= i32::MAX,
            c as int == sum_over(fv.take(i as int), sel_count()),
        decreases nodes.len() - i,
    {
        proof {
            lemma_sum_step(fv, sel_count(), i as int);
            lemma_sum_take_le(fv, sel_count(), i + 1);
        }
        if nodes[i].selected {
            c = c + 1;
        }
        i = i + 1;
    }
    assert(fv.take(nodes.len() as int) =~= fv);
    c
}

/// Counts the selected devices, restrictions, domains and static passwords.
pub fn compute_summary(tree: &Vec<TreeNode>) -> (r: ExportSummary)
    requires
        summary_devices(forest_view(tree@)) <= i32::MAX,
        summary_restrictions(forest_view(tree@)) <= i32::MAX,
        summary_domains(forest_view(tree@)) <= i32::MAX,
        summary_statics(forest_view(tree@)) <= i32::MAX,
    ensures
        r.device_count as int == summary_devices(forest_view(tree@)),
        r.restriction_count as int == summary_restrictions(forest_view(tree@)),
        r.domain_count as int == summary_domains(forest_view(tree@)),
        r.static_count as int == summary_statics(forest_view(tree@)),
{
    let ghost fv = forest_view(tree@);
    let ghost gr = group_count(NodeKind::Restriction);
    let ghost er = entry_count(NodeKind::Restriction);
    let ghost ef = entry_count(NodeKind::Folder);
    proof {
        lemma_forest_view(tree@);
    }
    let mut device_count: i32 = 0;
    let mut restriction_count: i32 = 0;
    let mut domain_count: i32 = 0;
    let mut static_count: i32 = 0;
    let mut i: usize = 0;
    while i < tree.len()
        invariant
            i <= tree.len(),
            fv == forest_view(tree@),
            fv.len() == tree@.len(),
            forall|j: int| 0 <= j < tree@.len() ==> #[trigger] fv[j] == node_view(tree@[j]),
            gr == group_count(NodeKind::Restriction),
            er == entry_count(NodeKind::Restriction),
            ef == entry_count(NodeKind::Folder),
            sum_over(fv, sel_count()) <= i32::MAX,
            sum_over(fv, gr) <= i32::MAX,
            sum_over(fv, er) <= i32::MAX,
            sum_over(fv, ef) <= i32::MAX,
            device_count as int == sum_over(fv.take(i as int), sel_count()),
            restriction_count as int == sum_over(fv.take(i as int), gr),
            domain_count as int == sum_over(fv.take(i as int), er),
            static_count as int == sum_over(fv.take(i as int), ef),
        decreases tree.len() - i,
    {
        proof {
            lemma_sum_step(fv, sel_count(), i as int);
            lemma_sum_take_le(fv, sel_count(), i + 1);
            lemma_sum_step(fv, gr, i as int);
            lemma_sum_take_le(fv, gr, i + 1);
            lemma_sum_step(fv, er, i as int);
            lemma_sum_take_le(fv, er, i + 1);
            lemma_sum_step(fv, ef, i as int);
            lemma_sum_take_le(fv, ef, i + 1);
        }
        let device = &tree[i];
        let ghost d = fv[i as int];
        if device.selected {
            device_count = device_count + 1;
        }
        let ghost ch = d.children;
        let ghost g_r = kind_sel(NodeKind::Restriction);
        let ghost e_r = kind_entries(NodeKind::Restriction);
        let ghost e_f = kind_entries(NodeKind::Folder);
        proof {
            lemma_forest_view(device.children@);
            assert(gr(d) == sum_over(ch, g_r));
            assert(er(d) == sum_over(ch, e_r));
            assert(ef(d) == sum_over(ch, e_f));
        }
        let ghost r0 = restriction_count as int;
        let ghost d0 = domain_count as int;
        let ghost s0 = static_count as int;
        let mut j: usize = 0;
        while j < device.children.len()
            invariant
                j <= device.children.len(),
                g_r == kind_sel(NodeKind::Restriction),
                e_r == kind_entries(NodeKind::Restriction),
                e_f == kind_entries(NodeKind::Folder),
                ch == forest_view(device.children@),
                ch.len() == device.children@.len(),
                forall|k: int| 0 <= k < device.children@.len() ==> #[trigger] ch[k] == node_view(device.children@[k]),
                r0 >= 0,
                d0 >= 0,
                s0 >= 0,
                r0 + sum_over(ch, g_r) <= i32::MAX,
                d0 + sum_over(ch, e_r) <= i32::MAX,
                s0 + sum_over(ch, e_f) <= i32::MAX,
                restriction_count as int == r0 + sum_over(ch.take(j as int), g_r),
                domain_count as int == d0 + sum_over(ch.take(j as int), e_r),
                static_count as int == s0 + sum_over(ch.take(j as int), e_f),
            decreases device.children.len() - j,
        {
            proof {
                lemma_sum_step(ch, g_r, j as int);
                lemma_sum_take_le(ch, g_r, j + 1);
                lemma_sum_step(ch, e_r, j as int);
                lemma_sum_take_le(ch, e_r, j + 1);
                lemma_sum_step(ch, e_f, j as int);
                lemma_sum_take_le(ch, e_f, j + 1);
            }
            let group = &device.children[j];
            let ghost g = ch[j as int];
            proof {
                lemma_forest_view(group.children@);
                assert(g == node_view(device.children@[j as int]));
                assert(g.kind == group.node_type && g.selected == group.selected);
                assert(g.children == forest_view(group.children@));
                assert(g_r(g) == one_if(g.kind == NodeKind::Restriction && g.selected));
                assert(e_r(g) == (if g.kind == NodeKind::Restriction { sum_over(g.children, sel_count()) } else { 0 }));
                assert(e_f(g) == (if g.kind == NodeKind::Folder { sum_over(g.children, sel_count()) } else { 0 }));
                assert(sum_over(ch.take(j as int), g_r) + g_r(g) <= sum_over(ch, g_r));
                assert(sum_over(ch.take(j as int), e_r) + e_r(g) <= sum_over(ch, e_r));
                assert(sum_over(ch.take(j as int), e_f) + e_f(g) <= sum_over(ch, e_f));
            }
            if group.node_type == NodeKind::Restriction {
                if group.selected {
                    restriction_count = restriction_count + 1;
                }
                let n: i32 = count_selected_nodes(&group.children);
                domain_count = domain_count + n;
            } else if group.node_type == NodeKind::Folder {
                let n: i32 = count_selected_nodes(&group.children);
                static_count = static_count + n;
            }
            j = j + 1;
        }
        assert(ch.take(device.children.len() as int) =~= ch);
        i = i + 1;
    }
    assert(fv.take(tree.len() as int) =~= fv);
    ExportSummary { device_count, restriction_count, domain_count, static_count }
}


/// The identifier of a selected node.
pub open spec fn sel_uuid() -> spec_fn(NodeV) -> Seq<u128> {
    |n: NodeV| if n.selected { seq![n.uuid] } else { seq![] }
}

/// The identifier of a selected node of kind `k`.
pub open spec fn kind_sel_uuid(k: NodeKind) -> spec_fn(NodeV) -> Seq<u128> {
    |g: NodeV| if g.kind == k && g.selected { seq![g.uuid] } else { seq![] }
}

/// The identifiers of the selected children of a node of kind `k`.
pub open spec fn kind_entry_uuids(k: NodeKind) -> spec_fn(NodeV) -> Seq<u128> {
    |g: NodeV| if g.kind == k { cat_over(g.children, sel_uuid()) } else { seq![] }
}

/// What `f` gives over the children of a selected node.
pub open spec fn under_selected(f: spec_fn(NodeV) -> Seq<u128>) -> spec_fn(NodeV) -> Seq<u128> {
    |d: NodeV| if d.selected { cat_over(d.children, f) } else { seq![] }
}

/// Identifiers of the selected devices.
pub open spec fn selected_devices(s: Seq<NodeV>) -> Seq<u128> {
    cat_over(s, sel_uuid())
}

/// Identifiers of the selected restrictions of selected devices.
pub open spec fn selected_restrictions(s: Seq<NodeV>) -> Seq<u128> {
    cat_over(s, under_selected(kind_sel_uuid(NodeKind::Restriction)))
}

/// Identifiers of the selected domains in restrictions of selected devices.
pub open spec fn selected_domains(s: Seq<NodeV>) -> Seq<u128> {
    cat_over(s, under_selected(kind_entry_uuids(NodeKind::Restriction)))
}

/// Identifiers of the selected static passwords in folders of selected devices.
pub open spec fn selected_statics(s: Seq<NodeV>) -> Seq<u128> {
    cat_over(s, under_selected(kind_entry_uuids(NodeKind::Folder)))
}

fn push_selected_uuids(nodes: &Vec<TreeNode>, out: &mut Vec<u128>)
    ensures
        final(out)@ == old(out)@ + cat_over(forest_view(nodes@), sel_uuid()),
{
    let ghost fv = forest_view(nodes@);
    let ghost o0 = out@;
    proof {
        lemma_forest_view(nodes@);
    }
    let mut i: usize = 0;
    while i < nodes.len()
        invariant
            i <= nodes.len(),
            fv == forest_view(nodes@),
            fv.len() == nodes@.len(),
            forall|j: int| 0 <= j < nodes@.len() ==> #[trigger] fv[j] == node_view(nodes@[j]),
            out@ == o0 + cat_over(fv.take(i as int), sel_uuid()),
        decreases nodes.len() - i,
    {
        proof {
            lemma_cat_step(fv, sel_uuid(), i as int);
        }
        if nodes[i].selected {
            out.push(nodes[i].uuid);
        }
        assert(out@ =~= o0 + cat_over(fv.take(i + 1), sel_uuid()));
        i = i + 1;
    }
    assert(fv.take(nodes.len() as int) =~= fv);
}

/// The identifiers to export: selected devices; and, under selected devices,
/// selected restrictions, selected domains of any restriction, and selected
/// static passwords of any folder.
#[verifier::rlimit(40)]
pub fn extract_selected_uuids(tree: &Vec<TreeNode>) -> (r: (Vec<u128>, Vec<u128>, Vec<u128>, Vec<u128>))
    ensures
        r.0@ == selected_devices(forest_view(tree@)),
        r.1@ == selected_restrictions(forest_view(tree@)),
        r.2@ == selected_domains(forest_view(tree@)),
        r.3@ == selected_statics(forest_view(tree@)),
{
    let ghost fv = forest_view(tree@);
    let ghost fr = under_selected(kind_sel_uuid(NodeKind::Restriction));
    let ghost fd = under_selected(kind_entry_uuids(NodeKind::Restriction));
    let ghost fs = under_selected(kind_entry_uuids(NodeKind::Folder));
    proof {
        lemma_forest_view(tree@);
    }
    let mut device_uuids: Vec<u128> = Vec::new();
    let mut restriction_uuids: Vec<u128> = Vec::new();
    let mut domain_uuids: Vec<u128> = Vec::new();
    let mut static_uuids: Vec<u128> = Vec::new();
    let mut i: usize = 0;
    while i < tree.len()
        invariant
            i <= tree.len(),
            fv == forest_view(tree@),
            fv.len() == tree@.len(),
            forall|j: int| 0 <= j < tree@.len() ==> #[trigger] fv[j] == node_view(tree@[j]),
            fr == under_selected(kind_sel_uuid(NodeKind::Restriction)),
            fd == under_selected(kind_entry_uuids(NodeKind::Restriction)),
            fs == under_selected(kind_entry_uuids(NodeKind::Folder)),
            device_uuids@ == cat_over(fv.take(i as int), sel_uuid()),
            restriction_uuids@ == cat_over(fv.take(i as int), fr),
            domain_uuids@ == cat_over(fv.take(i as int), fd),
            static_uuids@ == cat_over(fv.take(i as int), fs),
        decreases tree.len() - i,
    {
        proof {
            lemma_cat_step(fv, sel_uuid(), i as int);
            lemma_cat_step(fv, fr, i as int);
            lemma_cat_step(fv, fd, i as int);
            lemma_cat_step(fv, fs, i as int);
        }
        let device = &tree[i];
        let ghost d = fv[i as int];
        if !device.selected {
            assert(device_uuids@ =~= cat_over(fv.take(i + 1), sel_uuid()));
            assert(restriction_uuids@ =~= cat_over(fv.take(i + 1), fr));
            assert(domain_uuids@ =~= cat_over(fv.take(i + 1), fd));
            assert(static_uuids@ =~= cat_over(fv.take(i + 1), fs));
            i = i + 1;
            continue;
        }
        device_uuids.push(device.uuid);
        assert(device_uuids@ =~= cat_over(fv.take(i + 1), sel_uuid()));
        let ghost ch = d.children;
        let ghost gr = kind_sel_uuid(NodeKind::Restriction);
        let ghost er = kind_entry_uuids(NodeKind::Restriction);
        let ghost ef = kind_entry_uuids(NodeKind::Folder);
        let ghost r0 = restriction_uuids@;
        let ghost d0 = domain_uuids@;
        let ghost s0 = static_uuids@;
        proof {
            lemma_forest_view(device.children@);
            assert(fr(d) == cat_over(ch, gr));
            assert(fd(d) == cat_over(ch, er));
            assert(fs(d) == cat_over(ch, ef));
        }
        let mut j: usize = 0;
        while j < device.children.len()
            invariant
                j <= device.children.len(),
                gr == kind_sel_uuid(NodeKind::Restriction),
                er == kind_entry_uuids(NodeKind::Restriction),
                ef == kind_entry_uuids(NodeKind::Folder),
                ch == forest_view(device.children@),
                ch.len() == device.children@.len(),
                forall|k: int| 0 <= k < device.children@.len() ==> #[trigger] ch[k] == node_view(device.children@[k]),
                restriction_uuids@ == r0 + cat_over(ch.take(j as int), gr),
                domain_uuids@ == d0 + cat_over(ch.take(j as int), er),
                static_uuids@ == s0 + cat_over(ch.take(j as int), ef),
            decreases device.children.len() - j,
        {
            proof {
                lemma_cat_step(ch, gr, j as int);
                lemma_cat_step(ch, er, j as int);
                lemma_cat_step(ch, ef, j as int);
            }
            let group = &device.children[j];
            let ghost g = ch[j as int];
            proof {
                assert(g == node_view(device.children@[j as int]));
                assert(g.children == forest_view(group.children@));
            }
            if group.node_type == NodeKind::Restriction {
                if group.selected {
                    restriction_uuids.push(group.uuid);
                }
                push_selected_uuids(&group.children, &mut domain_uuids);
            } else if group.node_type == NodeKind::Folder {
                push_selected_uuids(&group.children, &mut static_uuids);
            }
            assert(restriction_uuids@ =~= r0 + cat_over(ch.take(j + 1), gr));
            assert(domain_uuids@ =~= d0 + cat_over(ch.take(j + 1), er));
            assert(static_uuids@ =~= s0 + cat_over(ch.take(j + 1), ef));
            j = j + 1;
        }
        assert(ch.take(device.children.len() as int) =~= ch);
        assert(restriction_uuids@ =~= cat_over(fv.take(i + 1), fr));
        assert(domain_uuids@ =~= cat_over(fv.take(i + 1), fd));
        assert(static_uuids@ =~= cat_over(fv.take(i + 1), fs));
        i = i + 1;
    }
    assert(fv.take(tree.len() as int) =~= fv);
    (device_uuids, restriction_uuids, domain_uuids, static_uuids)
}


// ---------------------------------------------------------------------------
// Keeping the user's selection when the tree is rebuilt

/// The first node of `s` with identifier `u`.
pub open spec fn find_by_uuid(s: Seq<NodeV>, u: u128) -> Option<NodeV>
    decreases s.len(),
{
    if s.len() == 0 {
        None
    } else if s[0].uuid == u {
        Some(s[0])
    } else {
        find_by_uuid(s.drop_first(), u)
    }
}

/// A node of the rebuilt tree takes the selection of the first old node with
/// its identifier, and so do its children, level by level.
pub open spec fn merge_n(old: Seq<NodeV>, n: NodeV) -> NodeV
    decreases n,
{
    match find_by_uuid(old, n.uuid) {
        Some(o) => NodeV { selected: o.selected, children: merge_f(o.children, n.children), ..n },
        None => n,
    }
}

pub open spec fn merge_f(old: Seq<NodeV>, new: Seq<NodeV>) -> Seq<NodeV>
    decreases new,
{
    if new.len() == 0 {
        seq![]
    } else {
        seq![merge_n(old, new[0])] + merge_f(old, new.drop_first())
    }
}

pub proof fn lemma_merge_f(old: Seq<NodeV>, new: Seq<NodeV>)
    ensures
        merge_f(old, new).len() == new.len(),
        forall|i: int| 0 <= i < new.len() ==> #[trigger] merge_f(old, new)[i] == merge_n(old, new[i]),
    decreases new.len(),
{
    if new.len() > 0 {
        lemma_merge_f(old, new.drop_first());
        assert forall|i: int| 0 <= i < new.len() implies #[trigger] merge_f(old, new)[i] == merge_n(old, new[i]) by {
            if i > 0 {
                assert(merge_f(old, new)[i] == merge_f(old, new.drop_first())[i - 1]);
            }
        }
    }
}

fn find_node(nodes: &Vec<TreeNode>, u: u128) -> (r: Option<usize>)
    ensures
        match r {
            Some(k) => k < nodes@.len() && find_by_uuid(forest_view(nodes@), u) == Some(node_view(nodes@[k as int])),
            None => find_by_uuid(forest_view(nodes@), u) is None,
        },
{
    let ghost fv = forest_view(nodes@);
    proof {
        lemma_forest_view(nodes@);
        assert(fv.skip(0) =~= fv);
    }
    let mut i: usize = 0;
    while i < nodes.len()
        invariant
            i <= nodes.len(),
            fv == forest_view(nodes@),
            fv.len() == nodes@.len(),
            forall|j: int| 0 <= j < nodes@.len() ==> #[trigger] fv[j] == node_view(nodes@[j]),
            find_by_uuid(fv, u) == find_by_uuid(fv.skip(i as int), u),
        decreases nodes.len() - i,
    {
        assert(fv.skip(i as int)[0] == fv[i as int]);
        assert(fv.skip(i as int).drop_first() =~= fv.skip(i + 1));
        if nodes[i].uuid == u {
            return Some(i);
        }
        i = i + 1;
    }
    None
}

/// The rebuilt tree `new_tree` with the selection that `old_tree` had for the
/// same identifiers, level by level.
pub fn merge_selection(old_tree: &Vec<TreeNode>, new_tree: Vec<TreeNode>) -> (r: Vec<TreeNode>)
    ensures
        forest_view(r@) == merge_f(forest_view(old_tree@), forest_view(new_tree@)),
    decreases new_tree@,
{
    let ghost new0 = new_tree@;
    let ghost ov = forest_view(old_tree@);
    let mut work = new_tree;
    let mut i: usize = 0;
    while i < work.len()
        invariant
            i <= work.len(),
            work@.len() == new0.len(),
            new0 == new_tree@,
            ov == forest_view(old_tree@),
            forall|j: int| 0 <= j < i ==> node_view(#[trigger] work@[j]) == merge_n(ov, node_view(new0[j])),
            forall|j: int| i <= j < work@.len() ==> #[trigger] work@[j] == new0[j],
        decreases work.len() - i,
    {
        let found = find_node(old_tree, work[i].uuid);
        match found {
            Some(k) => {
                let old_node = &old_tree[k];
                let node = &mut work[i];
                node.selected = old_node.selected;
                let mut kids: Vec<TreeNode> = Vec::new();
                std::mem::swap(&mut kids, &mut node.children);
                assert(kids@ == new0[i as int].children@);
                assert(decreases_to!(new0 => new0[i as int].children@));
                node.children = merge_selection(&old_node.children, kids);
            },
            None => {},
        }
        i = i + 1;
    }
    proof {
        lemma_forest_view(work@);
        lemma_forest_view(new0);
        lemma_merge_f(ov, forest_view(new0));
        assert(forest_view(work@) =~= merge_f(ov, forest_view(new0)));
    }
    work
}


// ---------------------------------------------------------------------------
// Laws of the export tree

proof fn lemma_set_all_twice_n(n: NodeV, a: bool, b: bool)
    ensures
        set_all_n(set_all_n(n, a), b) == set_all_n(n, b),
    decreases n,
{
    lemma_set_all_twice_f(n.children, a, b);
}

proof fn lemma_set_all_twice_f(s: Seq<NodeV>, a: bool, b: bool)
    ensures
        set_all_f(set_all_f(s, a), b) == set_all_f(s, b),
    decreases s,
{
    lemma_set_all_f(s, a);
    lemma_set_all_f(set_all_f(s, a), b);
    lemma_set_all_f(s, b);
    assert forall|i: int| 0 <= i < s.len() implies set_all_f(set_all_f(s, a), b)[i] == set_all_f(s, b)[i] by {
        lemma_set_all_twice_n(s[i], a, b);
    }
    assert(set_all_f(set_all_f(s, a), b) =~= set_all_f(s, b));
}

/// Selecting or deselecting everything forgets any earlier selection: the
/// last "select all" or "deselect all" alone decides.
pub proof fn law_set_all_overrides(t: Seq<NodeV>, a: bool, b: bool)
    ensures
        set_all_f(set_all_f(t, a), b) == set_all_f(t, b),
{
    lemma_set_all_twice_f(t, a, b);
}

/// The structure of a forest: every node with its selection cleared.
pub open spec fn shape(s: Seq<NodeV>) -> Seq<NodeV> {
    set_all_f(s, false)
}

proof fn lemma_toggle_shape_n(n: NodeV, t: nat)
    requires
        t < nsize(n),
    ensures
        set_all_n(toggle_n(n, t), false) == set_all_n(n, false),
    decreases n,
{
    if t == 0 {
        lemma_set_all_twice_f(n.children, !n.selected, false);
    } else {
        lemma_toggle_shape_f(n.children, (t - 1) as nat);
    }
}

proof fn lemma_toggle_shape_f(s: Seq<NodeV>, t: nat)
    ensures
        set_all_f(toggle_f(s, t), false) == set_all_f(s, false),
    decreases s,
{
    if s.len() > 0 {
        let r = s.drop_first();
        if t < nsize(s[0]) {
            lemma_toggle_shape_n(s[0], t);
            let x = seq![toggle_n(s[0], t)] + r;
            assert(x[0] == toggle_n(s[0], t));
            assert(x.drop_first() =~= r);
        } else {
            lemma_toggle_shape_f(r, (t - nsize(s[0])) as nat);
            let x = seq![s[0]] + toggle_f(r, (t - nsize(s[0])) as nat);
            assert(x[0] == s[0]);
            assert(x.drop_first() =~= toggle_f(r, (t - nsize(s[0])) as nat));
        }
    }
}

/// Toggling a row changes selections only: identifiers, labels, kinds and the
/// shape of the tree stay as they were.
pub proof fn law_toggle_keeps_shape(t: Seq<NodeV>, target: nat)
    ensures
        shape(toggle_f(t, target)) == shape(t),
{
    lemma_toggle_shape_f(t, target);
}

proof fn lemma_prop_shape_n(n: NodeV)
    ensures
        set_all_n(prop_n(n), false) == set_all_n(n, false),
    decreases n,
{
    lemma_prop_shape_f(n.children);
}

proof fn lemma_prop_shape_f(s: Seq<NodeV>)
    ensures
        set_all_f(prop_f(s), false) == set_all_f(s, false),
    decreases s,
{
    lemma_prop_f(s);
    lemma_set_all_f(prop_f(s), false);
    lemma_set_all_f(s, false);
    assert forall|i: int| 0 <= i < s.len() implies set_all_f(prop_f(s), false)[i] == set_all_f(s, false)[i] by {
        lemma_prop_shape_n(s[i]);
    }
    assert(set_all_f(prop_f(s), false) =~= set_all_f(s, false));
}

/// Marking the groups that have a selected child keeps the shape of the tree.
pub proof fn law_propagate_keeps_shape(t: Seq<NodeV>)
    ensures
        shape(prop_f(t)) == shape(t),
{
    lemma_prop_shape_f(t);
}

proof fn lemma_prop_size_n(n: NodeV)
    ensures
        nsize(prop_n(n)) == nsize(n),
    decreases n,
{
    lemma_prop_size_f(n.children);
}

proof fn lemma_prop_size_f(s: Seq<NodeV>)
    ensures
        fsize(prop_f(s)) == fsize(s),
    decreases s,
{
    if s.len() > 0 {
        lemma_prop_size_n(s[0]);
        lemma_prop_size_f(s.drop_first());
        let p = prop_f(s);
        assert(p[0] == prop_n(s[0]));
        assert(p.drop_first() == prop_f(s.drop_first()));
    }
}

proof fn lemma_flat_n_len(n: NodeV, indent: nat)
    ensures
        flat_n(n, indent).len() == nsize(n),
{
    lemma_flat_len(n.children, indent + 1);
}

proof fn lemma_prop_monotone_n(n: NodeV, i: int, indent: nat)
    requires
        0 <= i < nsize(n),
        flat_n(n, indent)[i].selected,
    ensures
        flat_n(prop_n(n), indent)[i].selected,
    decreases n,
{
    lemma_flat_len(n.children, indent + 1);
    lemma_flat_len(prop_f(n.children), indent + 1);
    lemma_prop_size_f(n.children);
    let a = flat_n(n, indent);
    let b = flat_n(prop_n(n), indent);
    if i == 0 {
        assert(a[0] == row(n, indent));
        assert(b[0] == row(prop_n(n), indent));
    } else {
        assert(a[i] == flat_f(n.children, indent + 1)[i - 1]);
        assert(b[i] == flat_f(prop_f(n.children), indent + 1)[i - 1]);
        lemma_prop_monotone_f(n.children, i - 1, indent + 1);
    }
}

proof fn lemma_prop_monotone_f(s: Seq<NodeV>, i: int, indent: nat)
    requires
        0 <= i < fsize(s),
        flat_f(s, indent)[i].selected,
    ensures
        flat_f(prop_f(s), indent)[i].selected,
    decreases s,
{
    let p = prop_f(s);
    let r = s.drop_first();
    assert(p[0] == prop_n(s[0]));
    assert(p.drop_first() == prop_f(r));
    lemma_prop_size_n(s[0]);
    lemma_flat_n_len(s[0], indent);
    lemma_flat_n_len(prop_n(s[0]), indent);
    lemma_flat_len(s, indent);
    lemma_flat_len(r, indent);
    lemma_flat_len(prop_f(r), indent);
    lemma_prop_size_f(r);
    let a = flat_f(s, indent);
    let b = flat_f(p, indent);
    assert(a == flat_n(s[0], indent) + flat_f(r, indent));
    assert(b == flat_n(prop_n(s[0]), indent) + flat_f(prop_f(r), indent));
    if i < nsize(s[0]) {
        assert(a[i] == flat_n(s[0], indent)[i]);
        assert(b[i] == flat_n(prop_n(s[0]), indent)[i]);
        lemma_prop_monotone_n(s[0], i, indent);
    } else {
        let k = i - nsize(s[0]);
        assert(a[i] == flat_f(r, indent)[k]);
        assert(b[i] == flat_f(prop_f(r), indent)[k]);
        lemma_prop_monotone_f(r, k, indent);
    }
}

/// Marking the groups that have a selected child never clears a selection:
/// every row selected before is selected after.
pub proof fn law_propagate_only_adds(t: Seq<NodeV>, row: int)
    requires
        0 <= row < fsize(t),
        flat_f(t, 0)[row].selected,
    ensures
        flat_f(prop_f(t), 0)[row].selected,
{
    lemma_prop_monotone_f(t, row, 0);
}


proof fn lemma_set_all_size_n(n: NodeV, b: bool)
    ensures
        nsize(set_all_n(n, b)) == nsize(n),
    decreases n,
{
    lemma_set_all_size_f(n.children, b);
}

proof fn lemma_set_all_size_f(s: Seq<NodeV>, b: bool)
    ensures
        fsize(set_all_f(s, b)) == fsize(s),
    decreases s,
{
    if s.len() > 0 {
        lemma_set_all_size_n(s[0], b);
        lemma_set_all_size_f(s.drop_first(), b);
        let x = set_all_f(s, b);
        assert(x[0] == set_all_n(s[0], b));
        assert(x.drop_first() == set_all_f(s.drop_first(), b));
    }
}

proof fn lemma_toggle_size_n(n: NodeV, t: nat)
    ensures
        nsize(toggle_n(n, t)) == nsize(n),
    decreases n,
{
    if t == 0 {
        lemma_set_all_size_f(n.children, !n.selected);
    } else {
        lemma_toggle_size_f(n.children, (t - 1) as nat);
    }
}

proof fn lemma_toggle_size_f(s: Seq<NodeV>, t: nat)
    ensures
        fsize(toggle_f(s, t)) == fsize(s),
    decreases s,
{
    if s.len() > 0 {
        let r = s.drop_first();
        if t < nsize(s[0]) {
            lemma_toggle_size_n(s[0], t);
            let x = seq![toggle_n(s[0], t)] + r;
            assert(x[0] == toggle_n(s[0], t));
            assert(x.drop_first() =~= r);
        } else {
            lemma_toggle_size_f(r, (t - nsize(s[0])) as nat);
            let x = seq![s[0]] + toggle_f(r, (t - nsize(s[0])) as nat);
            assert(x[0] == s[0]);
            assert(x.drop_first() =~= toggle_f(r, (t - nsize(s[0])) as nat));
        }
    }
}

proof fn lemma_toggle_flip_n(n: NodeV, t: nat, indent: nat)
    requires
        t < nsize(n),
    ensures
        flat_n(toggle_n(n, t), indent)[t as int].selected == !flat_n(n, indent)[t as int].selected,
    decreases n,
{
    lemma_flat_len(n.children, indent + 1);
    let a = flat_n(n, indent);
    let b = flat_n(toggle_n(n, t), indent);
    if t == 0 {
        assert(a[0] == row(n, indent));
        assert(b[0] == row(toggle_n(n, t), indent));
    } else {
        let tc = toggle_f(n.children, (t - 1) as nat);
        lemma_toggle_size_f(n.children, (t - 1) as nat);
        lemma_flat_len(tc, indent + 1);
        assert(a[t as int] == flat_f(n.children, indent + 1)[t - 1]);
        assert(b[t as int] == flat_f(tc, indent + 1)[t - 1]);
        lemma_toggle_flip_f(n.children, (t - 1) as nat, indent + 1);
    }
}

proof fn lemma_toggle_flip_f(s: Seq<NodeV>, t: nat, indent: nat)
    requires
        t < fsize(s),
    ensures
        flat_f(toggle_f(s, t), indent)[t as int].selected == !flat_f(s, indent)[t as int].selected,
    decreases s,
{
    let r = s.drop_first();
    lemma_flat_len(s, indent);
    lemma_flat_len(r, indent);
    lemma_flat_n_len(s[0], indent);
    let a = flat_f(s, indent);
    assert(a == flat_n(s[0], indent) + flat_f(r, indent));
    if t < nsize(s[0]) {
        let x = seq![toggle_n(s[0], t)] + r;
        assert(x[0] == toggle_n(s[0], t));
        assert(x.drop_first() =~= r);
        lemma_toggle_size_n(s[0], t);
        lemma_flat_n_len(toggle_n(s[0], t), indent);
        let b = flat_f(x, indent);
        assert(b == flat_n(toggle_n(s[0], t), indent) + flat_f(r, indent));
        assert(a[t as int] == flat_n(s[0], indent)[t as int]);
        assert(b[t as int] == flat_n(toggle_n(s[0], t), indent)[t as int]);
        lemma_toggle_flip_n(s[0], t, indent);
    } else {
        let k = (t - nsize(s[0])) as nat;
        let tr = toggle_f(r, k);
        let x = seq![s[0]] + tr;
        assert(x[0] == s[0]);
        assert(x.drop_first() =~= tr);
        lemma_toggle_size_f(r, k);
        lemma_flat_len(tr, indent);
        let b = flat_f(x, indent);
        assert(b == flat_n(s[0], indent) + flat_f(tr, indent));
        assert(a[t as int] == flat_f(r, indent)[k as int]);
        assert(b[t as int] == flat_f(tr, indent)[k as int]);
        lemma_toggle_flip_f(r, k, indent);
    }
}

/// The row that the user toggles is the row whose selection flips: row
/// `target` of the flattened view has the opposite selection after the toggle.
pub proof fn law_toggle_flips_row(t: Seq<NodeV>, target: nat)
    requires
        target < fsize(t),
    ensures
        flat_f(toggle_f(t, target), 0).len() == flat_f(t, 0).len(),
        flat_f(toggle_f(t, target), 0)[target as int].selected == !flat_f(t, 0)[target as int].selected,
{
    lemma_toggle_size_f(t, target);
    lemma_flat_len(t, 0);
    lemma_flat_len(toggle_f(t, target), 0);
    lemma_toggle_flip_f(t, target, 0);
}

/// The number of rows of the subtree at pre-order position `t` of `n`.
pub open spec fn sub_size_n(n: NodeV, t: nat) -> nat
    decreases n,
{
    if t == 0 {
        nsize(n)
    } else {
        sub_size_f(n.children, (t - 1) as nat)
    }
}

/// The number of rows of the subtree at pre-order position `t` of `s`.
pub open spec fn sub_size_f(s: Seq<NodeV>, t: nat) -> nat
    decreases s,
{
    if s.len() == 0 {
        0
    } else if t < nsize(s[0]) {
        sub_size_n(s[0], t)
    } else {
        sub_size_f(s.drop_first(), (t - nsize(s[0])) as nat)
    }
}

proof fn lemma_toggle_len(s: Seq<NodeV>, t: nat)
    ensures
        toggle_f(s, t).len() == s.len(),
    decreases s.len(),
{
    if s.len() > 0 {
        if t < nsize(s[0]) {
            assert((seq![toggle_n(s[0], t)] + s.drop_first()).len() == s.len());
        } else {
            lemma_toggle_len(s.drop_first(), (t - nsize(s[0])) as nat);
        }
    }
}

proof fn lemma_toggle_rest_n(n: NodeV, t: nat, i: int, indent: nat)
    requires
        t < nsize(n),
        0 <= i < nsize(n),
        i < t || i >= t + sub_size_n(n, t),
    ensures
        flat_n(toggle_n(n, t), indent)[i] == flat_n(n, indent)[i],
    decreases n,
{
    lemma_flat_len(n.children, indent + 1);
    if t > 0 {
        let tc = toggle_f(n.children, (t - 1) as nat);
        lemma_toggle_size_f(n.children, (t - 1) as nat);
        lemma_toggle_len(n.children, (t - 1) as nat);
        lemma_flat_len(tc, indent + 1);
        let a = flat_n(n, indent);
        let b = flat_n(toggle_n(n, t), indent);
        if i == 0 {
            assert(a[0] == row(n, indent));
            assert(b[0] == row(toggle_n(n, t), indent));
        } else {
            assert(a[i] == flat_f(n.children, indent + 1)[i - 1]);
            assert(b[i] == flat_f(tc, indent + 1)[i - 1]);
            lemma_toggle_rest_f(n.children, (t - 1) as nat, i - 1, indent + 1);
        }
    }
}

proof fn lemma_toggle_rest_f(s: Seq<NodeV>, t: nat, i: int, indent: nat)
    requires
        t < fsize(s),
        0 <= i < fsize(s),
        i < t || i >= t + sub_size_f(s, t),
    ensures
        flat_f(toggle_f(s, t), indent)[i] == flat_f(s, indent)[i],
    decreases s,
{
    let r = s.drop_first();
    lemma_flat_len(s, indent);
    lemma_flat_len(r, indent);
    lemma_flat_n_len(s[0], indent);
    let a = flat_f(s, indent);
    assert(a == flat_n(s[0], indent) + flat_f(r, indent));
    if t < nsize(s[0]) {
        let x = seq![toggle_n(s[0], t)] + r;
        assert(x[0] == toggle_n(s[0], t));
        assert(x.drop_first() =~= r);
        lemma_toggle_size_n(s[0], t);
        lemma_flat_n_len(toggle_n(s[0], t), indent);
        let b = flat_f(x, indent);
        assert(b == flat_n(toggle_n(s[0], t), indent) + flat_f(r, indent));
        if i < nsize(s[0]) {
            lemma_toggle_rest_n(s[0], t, i, indent);
        }
    } else {
        let k = (t - nsize(s[0])) as nat;
        let tr = toggle_f(r, k);
        let x = seq![s[0]] + tr;
        assert(x[0] == s[0]);
        assert(x.drop_first() =~= tr);
        lemma_toggle_size_f(r, k);
        lemma_flat_len(tr, indent);
        let b = flat_f(x, indent);
        assert(b == flat_n(s[0], indent) + flat_f(tr, indent));
        if i >= nsize(s[0]) {
            lemma_toggle_rest_f(r, k, i - nsize(s[0]), indent);
        }
    }
}

proof fn lemma_sub_size_n(n: NodeV, t: nat)
    requires
        t < nsize(n),
    ensures
        t + sub_size_n(n, t) <= nsize(n),
    decreases n,
{
    if t > 0 {
        lemma_sub_size_f(n.children, (t - 1) as nat);
    }
}

proof fn lemma_sub_size_f(s: Seq<NodeV>, t: nat)
    requires
        t < fsize(s),
    ensures
        t + sub_size_f(s, t) <= fsize(s),
    decreases s,
{
    if s.len() > 0 {
        if t < nsize(s[0]) {
            lemma_sub_size_n(s[0], t);
        } else {
            lemma_sub_size_f(s.drop_first(), (t - nsize(s[0])) as nat);
        }
    }
}

proof fn lemma_flat_all_sel_n(n: NodeV, b: bool, indent: nat)
    ensures
        forall|i: int| 0 <= i < nsize(n) ==> (#[trigger] flat_n(set_all_n(n, b), indent)[i]).selected == b,
    decreases n,
{
    let m = set_all_n(n, b);
    lemma_flat_all_sel_f(n.children, b, indent + 1);
    lemma_set_all_size_f(n.children, b);
    lemma_flat_len(set_all_f(n.children, b), indent + 1);
    assert forall|i: int| 0 <= i < nsize(n) implies (#[trigger] flat_n(m, indent)[i]).selected == b by {
        if i > 0 {
            assert(flat_n(m, indent)[i] == flat_f(set_all_f(n.children, b), indent + 1)[i - 1]);
        }
    }
}

proof fn lemma_flat_all_sel_f(s: Seq<NodeV>, b: bool, indent: nat)
    ensures
        forall|i: int| 0 <= i < fsize(s) ==> (#[trigger] flat_f(set_all_f(s, b), indent)[i]).selected == b,
    decreases s,
{
    if s.len() > 0 {
        let r = s.drop_first();
        let x = set_all_f(s, b);
        assert(x == seq![set_all_n(s[0], b)] + set_all_f(r, b));
        assert(x[0] == set_all_n(s[0], b));
        assert(x.drop_first() =~= set_all_f(r, b));
        lemma_flat_all_sel_n(s[0], b, indent);
        lemma_flat_all_sel_f(r, b, indent);
        lemma_set_all_size_n(s[0], b);
        lemma_flat_n_len(set_all_n(s[0], b), indent);
        lemma_set_all_size_f(r, b);
        lemma_flat_len(set_all_f(r, b), indent);
        assert(fsize(s) == nsize(s[0]) + fsize(r));
        let fx = flat_f(x, indent);
        assert(fx == flat_n(set_all_n(s[0], b), indent) + flat_f(set_all_f(r, b), indent));
        assert forall|i: int| 0 <= i < fsize(s) implies (#[trigger] fx[i]).selected == b by {
            if i >= nsize(s[0]) {
                assert(fx[i] == flat_f(set_all_f(r, b), indent)[i - nsize(s[0])]);
            }
        }
    }
}

proof fn lemma_toggle_sub_n(n: NodeV, t: nat, i: int, indent: nat)
    requires
        t < nsize(n),
        t <= i < t + sub_size_n(n, t),
    ensures
        flat_n(toggle_n(n, t), indent)[i].selected == !flat_n(n, indent)[t as int].selected,
    decreases n,
{
    lemma_sub_size_n(n, t);
    lemma_flat_len(n.children, indent + 1);
    if t == 0 {
        assert(toggle_n(n, 0) == set_all_n(n, !n.selected));
        lemma_flat_all_sel_n(n, !n.selected, indent);
        assert(flat_n(n, indent)[0] == row(n, indent));
    } else {
        let tc = toggle_f(n.children, (t - 1) as nat);
        lemma_toggle_size_f(n.children, (t - 1) as nat);
        lemma_flat_len(tc, indent + 1);
        assert(flat_n(n, indent)[t as int] == flat_f(n.children, indent + 1)[t - 1]);
        assert(flat_n(toggle_n(n, t), indent)[i] == flat_f(tc, indent + 1)[i - 1]);
        lemma_toggle_sub_f(n.children, (t - 1) as nat, i - 1, indent + 1);
    }
}

proof fn lemma_toggle_sub_f(s: Seq<NodeV>, t: nat, i: int, indent: nat)
    requires
        t < fsize(s),
        t <= i < t + sub_size_f(s, t),
    ensures
        flat_f(toggle_f(s, t), indent)[i].selected == !flat_f(s, indent)[t as int].selected,
    decreases s,
{
    let r = s.drop_first();
    lemma_flat_len(s, indent);
    lemma_flat_len(r, indent);
    lemma_flat_n_len(s[0], indent);
    let a = flat_f(s, indent);
    assert(a == flat_n(s[0], indent) + flat_f(r, indent));
    if t < nsize(s[0]) {
        lemma_sub_size_n(s[0], t);
        let x = seq![toggle_n(s[0], t)] + r;
        assert(x[0] == toggle_n(s[0], t));
        assert(x.drop_first() =~= r);
        lemma_toggle_size_n(s[0], t);
        lemma_flat_n_len(toggle_n(s[0], t), indent);
        let b = flat_f(x, indent);
        assert(b == flat_n(toggle_n(s[0], t), indent) + flat_f(r, indent));
        assert(sub_size_f(s, t) == sub_size_n(s[0], t));
        assert(b[i] == flat_n(toggle_n(s[0], t), indent)[i]);
        assert(a[t as int] == flat_n(s[0], indent)[t as int]);
        lemma_toggle_sub_n(s[0], t, i, indent);
    } else {
        let k = (t - nsize(s[0])) as nat;
        let tr = toggle_f(r, k);
        let x = seq![s[0]] + tr;
        assert(x[0] == s[0]);
        assert(x.drop_first() =~= tr);
        lemma_toggle_size_f(r, k);
        lemma_flat_len(tr, indent);
        let b = flat_f(x, indent);
        assert(b == flat_n(s[0], indent) + flat_f(tr, indent));
        assert(sub_size_f(s, t) == sub_size_f(r, k));
        lemma_sub_size_f(r, k);
        assert(b[i] == flat_f(tr, indent)[i - nsize(s[0])]);
        assert(a[t as int] == flat_f(r, indent)[k as int]);
        lemma_toggle_sub_f(r, k, i - nsize(s[0]), indent);
    }
}

/// A toggle sets the whole subtree of the toggled row: the rows from
/// `target` to the end of its subtree all take the opposite of the selection
/// that row `target` had.
pub proof fn law_toggle_sets_subtree(t: Seq<NodeV>, target: nat, row_index: int)
    requires
        target < fsize(t),
        target <= row_index < target + sub_size_f(t, target),
    ensures
        target + sub_size_f(t, target) <= fsize(t),
        flat_f(toggle_f(t, target), 0)[row_index].selected == !flat_f(t, 0)[target as int].selected,
{
    lemma_sub_size_f(t, target);
    lemma_toggle_sub_f(t, target, row_index, 0);
}

/// A toggle changes only the toggled node and its subtree: every other row
/// of the flattened view is as it was, and after the groups are marked it is
/// still selected if it was selected before.
pub proof fn law_toggle_keeps_other_rows(t: Seq<NodeV>, target: nat, row_index: int)
    requires
        target < fsize(t),
        0 <= row_index < fsize(t),
        row_index < target || row_index >= target + sub_size_f(t, target),
    ensures
        flat_f(toggle_f(t, target), 0)[row_index] == flat_f(t, 0)[row_index],
        flat_f(t, 0)[row_index].selected ==> flat_f(prop_f(toggle_f(t, target)), 0)[row_index].selected,
{
    lemma_toggle_rest_f(t, target, row_index, 0);
    lemma_toggle_size_f(t, target);
    if flat_f(t, 0)[row_index].selected {
        law_propagate_only_adds(toggle_f(t, target), row_index);
    }
}

/// No two nodes of one level share an identifier, at every level.
pub open spec fn distinct_f(s: Seq<NodeV>) -> bool
    decreases s,
{
    if s.len() == 0 {
        true
    } else {
        &&& forall|j: int| 0 < j < s.len() ==> (#[trigger] s[j]).uuid != s[0].uuid
        &&& distinct_f(s[0].children)
        &&& distinct_f(s.drop_first())
    }
}

proof fn lemma_distinct_elems(s: Seq<NodeV>)
    requires
        distinct_f(s),
    ensures
        forall|i: int| 0 <= i < s.len() ==> distinct_f(#[trigger] s[i].children),
        forall|i: int, j: int| 0 <= i < j < s.len() ==> #[trigger] s[i].uuid != #[trigger] s[j].uuid,
    decreases s.len(),
{
    if s.len() > 0 {
        let r = s.drop_first();
        lemma_distinct_elems(r);
        assert forall|i: int| 0 <= i < s.len() implies distinct_f(#[trigger] s[i].children) by {
            if i > 0 {
                assert(s[i] == r[i - 1]);
            }
        }
        assert forall|i: int, j: int| 0 <= i < j < s.len() implies #[trigger] s[i].uuid != #[trigger] s[j].uuid by {
            if i > 0 {
                assert(s[i] == r[i - 1]);
                assert(s[j] == r[j - 1]);
            }
        }
    }
}

proof fn lemma_find_distinct(s: Seq<NodeV>, i: int)
    requires
        0 <= i < s.len(),
        forall|a: int, b: int| 0 <= a < b < s.len() ==> #[trigger] s[a].uuid != #[trigger] s[b].uuid,
    ensures
        find_by_uuid(s, s[i].uuid) == Some(s[i]),
    decreases i,
{
    if i > 0 {
        let r = s.drop_first();
        assert(s[0].uuid != s[i].uuid);
        assert(r[i - 1] == s[i]);
        assert forall|a: int, b: int| 0 <= a < b < r.len() implies #[trigger] r[a].uuid != #[trigger] r[b].uuid by {
            assert(r[a] == s[a + 1]);
            assert(r[b] == s[b + 1]);
        }
        lemma_find_distinct(r, i - 1);
    }
}

proof fn lemma_merge_self(s: Seq<NodeV>)
    requires
        distinct_f(s),
    ensures
        merge_f(s, s) == s,
    decreases s,
{
    lemma_distinct_elems(s);
    lemma_merge_f(s, s);
    assert forall|i: int| 0 <= i < s.len() implies merge_f(s, s)[i] == s[i] by {
        lemma_find_distinct(s, i);
        lemma_merge_self(s[i].children);
        assert(merge_n(s, s[i]) == NodeV { selected: s[i].selected, children: merge_f(s[i].children, s[i].children), ..s[i] });
    }
    assert(merge_f(s, s) =~= s);
}

/// Rebuilding a tree that has not changed keeps every selection, when no two
/// nodes of one level share an identifier.
pub proof fn law_merge_unchanged_keeps_selection(t: Seq<NodeV>)
    requires
        distinct_f(t),
    ensures
        merge_f(t, t) == t,
{
    lemma_merge_self(t);
}

proof fn lemma_merge_shape_n(old: Seq<NodeV>, n: NodeV)
    ensures
        set_all_n(merge_n(old, n), false) == set_all_n(n, false),
    decreases n,
{
    match find_by_uuid(old, n.uuid) {
        Some(o) => {
            lemma_merge_shape_f(o.children, n.children);
        },
        None => {},
    }
}

proof fn lemma_merge_shape_f(old: Seq<NodeV>, new: Seq<NodeV>)
    ensures
        set_all_f(merge_f(old, new), false) == set_all_f(new, false),
    decreases new,
{
    lemma_merge_f(old, new);
    lemma_set_all_f(merge_f(old, new), false);
    lemma_set_all_f(new, false);
    assert forall|i: int| 0 <= i < new.len() implies set_all_f(merge_f(old, new), false)[i] == set_all_f(new, false)[i] by {
        lemma_merge_shape_n(old, new[i]);
    }
    assert(set_all_f(merge_f(old, new), false) =~= set_all_f(new, false));
}

proof fn lemma_merge_same_shape(old: Seq<NodeV>, new: Seq<NodeV>)
    requires
        distinct_f(old),
        shape(new) == shape(old),
    ensures
        merge_f(old, new) == old,
    decreases old,
{
    lemma_set_all_f(old, false);
    lemma_set_all_f(new, false);
    lemma_distinct_elems(old);
    lemma_merge_f(old, new);
    assert(new.len() == old.len());
    assert forall|i: int| 0 <= i < old.len() implies merge_f(old, new)[i] == old[i] by {
        assert(set_all_f(new, false)[i] == set_all_f(old, false)[i]);
        let a = old[i];
        let b = new[i];
        assert(set_all_n(b, false) == set_all_n(a, false));
        assert(b.uuid == a.uuid && b.label == a.label && b.kind == a.kind);
        assert(shape(b.children) == shape(a.children));
        lemma_find_distinct(old, i);
        lemma_merge_same_shape(a.children, b.children);
        assert(merge_n(old, b) == NodeV { selected: a.selected, children: merge_f(a.children, b.children), ..b });
    }
    assert(merge_f(old, new) =~= old);
}

/// Rebuilding gives back every selection: merged into a tree of the same
/// shape (the same identifiers, labels and kinds, level by level, whatever is
/// selected in it), the old tree comes back unchanged, when no two nodes of
/// one level share an identifier.
pub proof fn law_merge_same_shape_keeps_selection(old: Seq<NodeV>, new: Seq<NodeV>)
    requires
        distinct_f(old),
        shape(new) == shape(old),
    ensures
        merge_f(old, new) == old,
{
    lemma_merge_same_shape(old, new);
}

/// Keeping the old selection changes selections only: the rebuilt tree keeps
/// its identifiers, labels, kinds and shape.
pub proof fn law_merge_keeps_shape(old: Seq<NodeV>, new: Seq<NodeV>)
    ensures
        shape(merge_f(old, new)) == shape(new),
{
    lemma_merge_shape_f(old, new);
}

proof fn lemma_sum_zero(s: Seq<NodeV>, f: spec_fn(NodeV) -> nat)
    requires
        forall|i: int| 0 <= i < s.len() ==> f(#[trigger] s[i]) == 0,
    ensures
        sum_over(s, f) == 0,
    decreases s.len(),
{
    if s.len() > 0 {
        lemma_sum_zero(s.drop_last(), f);
    }
}

proof fn lemma_cat_empty(s: Seq<NodeV>, f: spec_fn(NodeV) -> Seq<u128>)
    requires
        forall|i: int| 0 <= i < s.len() ==> f(#[trigger] s[i]) == Seq::<u128>::empty(),
    ensures
        cat_over(s, f) == Seq::<u128>::empty(),
    decreases s.len(),
{
    if s.len() > 0 {
        lemma_cat_empty(s.drop_last(), f);
        assert(cat_over(s, f) =~= Seq::<u128>::empty());
    }
}

proof fn lemma_cleared_level(s: Seq<NodeV>)
    ensures
        set_all_f(s, false).len() == s.len(),
        forall|i: int| 0 <= i < s.len() ==> !(#[trigger] set_all_f(s, false)[i]).selected,
        forall|i: int| 0 <= i < s.len() ==> (#[trigger] set_all_f(s, false)[i]).children == set_all_f(s[i].children, false),
        sum_over(set_all_f(s, false), sel_count()) == 0,
        cat_over(set_all_f(s, false), sel_uuid()) == Seq::<u128>::empty(),
{
    lemma_set_all_f(s, false);
    let x = set_all_f(s, false);
    assert forall|i: int| 0 <= i < x.len() implies sel_count()(#[trigger] x[i]) == 0 by {}
    lemma_sum_zero(x, sel_count());
    assert forall|i: int| 0 <= i < x.len() implies sel_uuid()(#[trigger] x[i]) == Seq::<u128>::empty() by {}
    lemma_cat_empty(x, sel_uuid());
}

/// The counts and identifiers of a level whose children were all cleared.
proof fn lemma_cleared_children(n: NodeV)
    ensures
        sum_over(set_all_n(n, false).children, kind_sel(NodeKind::Restriction)) == 0,
        kind_entries(NodeKind::Restriction)(set_all_n(n, false)) == 0,
        kind_entries(NodeKind::Folder)(set_all_n(n, false)) == 0,
        sum_over(set_all_n(n, false).children, kind_entries(NodeKind::Restriction)) == 0,
        sum_over(set_all_n(n, false).children, kind_entries(NodeKind::Folder)) == 0,
{
    let ch = set_all_n(n, false).children;
    lemma_cleared_level(n.children);
    lemma_set_all_f(n.children, false);
    assert forall|j: int| 0 <= j < ch.len() implies kind_sel(NodeKind::Restriction)(#[trigger] ch[j]) == 0 by {}
    lemma_sum_zero(ch, kind_sel(NodeKind::Restriction));
    assert forall|j: int| 0 <= j < ch.len() implies kind_entries(NodeKind::Restriction)(#[trigger] ch[j]) == 0
        && kind_entries(NodeKind::Folder)(ch[j]) == 0 by {
        assert(ch[j] == set_all_n(n.children[j], false));
        lemma_cleared_level(n.children[j].children);
    }
    lemma_sum_zero(ch, kind_entries(NodeKind::Restriction));
    lemma_sum_zero(ch, kind_entries(NodeKind::Folder));
}

/// After "deselect all" nothing is counted and nothing is exported.
pub proof fn law_deselect_all_clears(t: Seq<NodeV>)
    ensures
        summary_devices(set_all_f(t, false)) == 0,
        summary_restrictions(set_all_f(t, false)) == 0,
        summary_domains(set_all_f(t, false)) == 0,
        summary_statics(set_all_f(t, false)) == 0,
        selected_devices(set_all_f(t, false)) == Seq::<u128>::empty(),
        selected_restrictions(set_all_f(t, false)) == Seq::<u128>::empty(),
        selected_domains(set_all_f(t, false)) == Seq::<u128>::empty(),
        selected_statics(set_all_f(t, false)) == Seq::<u128>::empty(),
{
    let x = set_all_f(t, false);
    lemma_cleared_level(t);
    lemma_set_all_f(t, false);
    assert forall|i: int| 0 <= i < x.len() implies group_count(NodeKind::Restriction)(#[trigger] x[i]) == 0
        && entry_count(NodeKind::Restriction)(x[i]) == 0 && entry_count(NodeKind::Folder)(x[i]) == 0 by {
        lemma_cleared_children(t[i]);
    }
    lemma_sum_zero(x, group_count(NodeKind::Restriction));
    lemma_sum_zero(x, entry_count(NodeKind::Restriction));
    lemma_sum_zero(x, entry_count(NodeKind::Folder));
    assert forall|i: int| 0 <= i < x.len() implies under_selected(kind_sel_uuid(NodeKind::Restriction))(#[trigger] x[i])
        == Seq::<u128>::empty() && under_selected(kind_entry_uuids(NodeKind::Restriction))(x[i]) == Seq::<u128>::empty()
        && under_selected(kind_entry_uuids(NodeKind::Folder))(x[i]) == Seq::<u128>::empty() by {}
    lemma_cat_empty(x, under_selected(kind_sel_uuid(NodeKind::Restriction)));
    lemma_cat_empty(x, under_selected(kind_entry_uuids(NodeKind::Restriction)));
    lemma_cat_empty(x, under_selected(kind_entry_uuids(NodeKind::Folder)));
}

proof fn lemma_cat_len(s: Seq<NodeV>, f: spec_fn(NodeV) -> Seq<u128>, g: spec_fn(NodeV) -> nat)
    requires
        forall|i: int| 0 <= i < s.len() ==> f(#[trigger] s[i]).len() == g(s[i]),
    ensures
        cat_over(s, f).len() == sum_over(s, g),
    decreases s.len(),
{
    if s.len() > 0 {
        let d = s.drop_last();
        assert forall|i: int| 0 <= i < d.len() implies f(#[trigger] d[i]).len() == g(d[i]) by {
            assert(d[i] == s[i]);
        }
        lemma_cat_len(d, f, g);
        assert(s.last() == s[s.len() - 1]);
    }
}

proof fn lemma_marked_elems(s: Seq<NodeV>)
    requires
        groups_marked_f(s),
    ensures
        forall|i: int| 0 <= i < s.len() ==> groups_marked_n(#[trigger] s[i]),
    decreases s.len(),
{
    if s.len() > 0 {
        lemma_marked_elems(s.drop_first());
        assert forall|i: int| 0 <= i < s.len() implies groups_marked_n(#[trigger] s[i]) by {
            if i > 0 {
                assert(s[i] == s.drop_first()[i - 1]);
            }
        }
    }
}

/// Under a device that is not selected, when every group with a selected
/// child is selected, nothing is selected: no group and no entry.
proof fn lemma_unselected_device(d: NodeV)
    requires
        groups_marked_n(d),
        is_group(d.kind),
        !d.selected,
    ensures
        sum_over(d.children, kind_sel(NodeKind::Restriction)) == 0,
        sum_over(d.children, kind_entries(NodeKind::Restriction)) == 0,
        sum_over(d.children, kind_entries(NodeKind::Folder)) == 0,
{
    let ch = d.children;
    lemma_marked_elems(ch);
    assert forall|i: int| 0 <= i < ch.len() implies !(#[trigger] ch[i]).selected by {
        if ch[i].selected {
            assert(any_selected(ch));
        }
    }
    assert forall|i: int| 0 <= i < ch.len() && is_group(ch[i].kind) implies sum_over(
        (#[trigger] ch[i]).children,
        sel_count(),
    ) == 0 by {
        let c = ch[i];
        assert forall|j: int| 0 <= j < c.children.len() implies (sel_count())(
            #[trigger] c.children[j],
        ) == 0 by {
            if c.children[j].selected {
                assert(any_selected(c.children));
            }
        }
        lemma_sum_zero(c.children, sel_count());
    }
    assert forall|i: int| 0 <= i < ch.len() implies (kind_sel(NodeKind::Restriction))(#[trigger] ch[i]) == 0 by {}
    lemma_sum_zero(ch, kind_sel(NodeKind::Restriction));
    assert forall|i: int| 0 <= i < ch.len() implies (kind_entries(NodeKind::Restriction))(#[trigger] ch[i]) == 0 by {
        if ch[i].kind == NodeKind::Restriction {
            assert(is_group(ch[i].kind));
        }
    }
    lemma_sum_zero(ch, kind_entries(NodeKind::Restriction));
    assert forall|i: int| 0 <= i < ch.len() implies (kind_entries(NodeKind::Folder))(#[trigger] ch[i]) == 0 by {
        if ch[i].kind == NodeKind::Folder {
            assert(is_group(ch[i].kind));
        }
    }
    lemma_sum_zero(ch, kind_entries(NodeKind::Folder));
}

/// When every top-level node is a device and every group with a selected
/// child is selected (as a toggle leaves the tree), the export summary
/// counts exactly the identifiers that are exported: as many devices,
/// restrictions, domains and static passwords.
pub proof fn law_summary_counts_exported(t: Seq<NodeV>)
    requires
        forall|i: int| 0 <= i < t.len() ==> (#[trigger] t[i]).kind == NodeKind::Device,
        groups_marked_f(t),
    ensures
        selected_devices(t).len() == summary_devices(t),
        selected_restrictions(t).len() == summary_restrictions(t),
        selected_domains(t).len() == summary_domains(t),
        selected_statics(t).len() == summary_statics(t),
{
    lemma_marked_elems(t);
    lemma_cat_len(t, sel_uuid(), sel_count());
    let kr = NodeKind::Restriction;
    let kf = NodeKind::Folder;
    assert forall|i: int| 0 <= i < t.len() implies (under_selected(kind_sel_uuid(kr)))(#[trigger] t[i]).len()
        == (group_count(kr))(t[i]) by {
        let d = t[i];
        if d.selected {
            assert forall|j: int| 0 <= j < d.children.len() implies (kind_sel_uuid(kr))(
                #[trigger] d.children[j],
            ).len() == (kind_sel(kr))(d.children[j]) by {}
            lemma_cat_len(d.children, kind_sel_uuid(kr), kind_sel(kr));
        } else {
            lemma_unselected_device(d);
        }
    }
    lemma_cat_len(t, under_selected(kind_sel_uuid(kr)), group_count(kr));
    assert forall|i: int| 0 <= i < t.len() implies (under_selected(kind_entry_uuids(kr)))(#[trigger] t[i]).len()
        == (entry_count(kr))(t[i]) by {
        let d = t[i];
        if d.selected {
            assert forall|j: int| 0 <= j < d.children.len() implies (kind_entry_uuids(kr))(
                #[trigger] d.children[j],
            ).len() == (kind_entries(kr))(d.children[j]) by {
                let c = d.children[j];
                if c.kind == kr {
                    assert forall|m: int| 0 <= m < c.children.len() implies (sel_uuid())(
                        #[trigger] c.children[m],
                    ).len() == (sel_count())(c.children[m]) by {}
                    lemma_cat_len(c.children, sel_uuid(), sel_count());
                }
            }
            lemma_cat_len(d.children, kind_entry_uuids(kr), kind_entries(kr));
        } else {
            lemma_unselected_device(d);
        }
    }
    lemma_cat_len(t, under_selected(kind_entry_uuids(kr)), entry_count(kr));
    assert forall|i: int| 0 <= i < t.len() implies (under_selected(kind_entry_uuids(kf)))(#[trigger] t[i]).len()
        == (entry_count(kf))(t[i]) by {
        let d = t[i];
        if d.selected {
            assert forall|j: int| 0 <= j < d.children.len() implies (kind_entry_uuids(kf))(
                #[trigger] d.children[j],
            ).len() == (kind_entries(kf))(d.children[j]) by {
                let c = d.children[j];
                if c.kind == kf {
                    assert forall|m: int| 0 <= m < c.children.len() implies (sel_uuid())(
                        #[trigger] c.children[m],
                    ).len() == (sel_count())(c.children[m]) by {}
                    lemma_cat_len(c.children, sel_uuid(), sel_count());
                }
            }
            lemma_cat_len(d.children, kind_entry_uuids(kf), kind_entries(kf));
        } else {
            lemma_unselected_device(d);
        }
    }
    lemma_cat_len(t, under_selected(kind_entry_uuids(kf)), entry_count(kf));
}

} // verus!
