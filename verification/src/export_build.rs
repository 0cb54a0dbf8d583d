//! Building the export selection tree from what the vault lists: each device
//! with its restrictions (and their domains), then one folder node per folder
//! of static passwords, in the order in which the folders first occur.

use vstd::prelude::*;
use crate::export_tree::{NodeKind, TreeNode, NodeV, node_view, forest_view, lemma_forest_view};
use crate::text::{push_chars, push_str, chars_of, chars_eq};
use crate::ids::{random_uuid, rng_unavailable_msg};

verus! {

/// A domain of a restriction, as the vault lists it.
pub struct DomainEntry {
    pub uuid: u128,
    pub identifier: String,
}

/// A restriction of a device with its domains.
pub struct RestrictionEntry {
    pub uuid: u128,
    pub name: String,
    pub domains: Vec<DomainEntry>,
}

/// A static password of a device.
pub struct StaticEntry {
    pub uuid: u128,
    pub label: String,
    pub folder_path: String,
    pub compromised: bool,
}

/// A device with its restrictions and static passwords.
pub struct DeviceEntry {
    pub uuid: u128,
    pub name: String,
    pub restrictions: Vec<RestrictionEntry>,
    pub statics: Vec<StaticEntry>,
}

/// An unselected node without children.
pub open spec fn leaf(uuid: u128, label: Seq<char>, kind: NodeKind) -> NodeV {
    NodeV { uuid, label, kind, selected: false, children: seq![] }
}

pub open spec fn domain_node(d: DomainEntry) -> NodeV {
    leaf(d.uuid, d.identifier@, NodeKind::DerivedPassword)
}

pub open spec fn restriction_node(r: RestrictionEntry) -> NodeV {
    NodeV {
        uuid: r.uuid,
        label: r.name@,
        kind: NodeKind::Restriction,
        selected: false,
        children: r.domains@.map_values(|d: DomainEntry| domain_node(d)),
    }
}

/// The label of a static password: marked when it is compromised.
pub open spec fn static_label(sp: StaticEntry) -> Seq<char> {
    if sp.compromised {
        sp.label@ + " (comprometida)"@
    } else {
        sp.label@
    }
}

pub open spec fn static_node(sp: StaticEntry) -> NodeV {
    leaf(sp.uuid, static_label(sp), NodeKind::StaticPassword)
}

/// The label of the folder node for folder path `f` (empty: the root).
pub open spec fn folder_label(f: Seq<char>) -> Seq<char> {
    if f.len() == 0 {
        "(estáticas - raiz)"@
    } else {
        "(estáticas - "@ + f + ")"@
    }
}

/// The static passwords of `s` in folder `f`, in their order.
pub open spec fn statics_in(s: Seq<StaticEntry>, f: Seq<char>) -> Seq<StaticEntry>
    decreases s.len(),
{
    if s.len() == 0 {
        seq![]
    } else if s.last().folder_path@ == f {
        statics_in(s.drop_last(), f).push(s.last())
    } else {
        statics_in(s.drop_last(), f)
    }
}

/// The folder paths of `s`, each once, in the order of first occurrence.
pub open spec fn folders_of(s: Seq<StaticEntry>) -> Seq<Seq<char>>
    decreases s.len(),
{
    if s.len() == 0 {
        seq![]
    } else if folders_of(s.drop_last()).contains(s.last().folder_path@) {
        folders_of(s.drop_last())
    } else {
        folders_of(s.drop_last()).push(s.last().folder_path@)
    }
}

/// The folder node for `f`, with 0 in place of its identifier (which is
/// drawn at random when the tree is built).
pub open spec fn folder_node(f: Seq<char>, s: Seq<StaticEntry>) -> NodeV {
    NodeV {
        uuid: 0,
        label: folder_label(f),
        kind: NodeKind::Folder,
        selected: false,
        children: statics_in(s, f).map_values(|sp: StaticEntry| static_node(sp)),
    }
}

/// The children of a device node: its restrictions, then its folders.
pub open spec fn device_children(d: DeviceEntry) -> Seq<NodeV> {
    d.restrictions@.map_values(|r: RestrictionEntry| restriction_node(r))
        + folders_of(d.statics@).map_values(|f: Seq<char>| folder_node(f, d.statics@))
}

pub open spec fn device_node(d: DeviceEntry) -> NodeV {
    NodeV {
        uuid: d.uuid,
        label: d.name@,
        kind: NodeKind::Device,
        selected: false,
        children: device_children(d),
    }
}

/// The export tree of `devices`, folder identifiers left at 0.
pub open spec fn build_spec(devices: Seq<DeviceEntry>) -> Seq<NodeV> {
    devices.map_values(|d: DeviceEntry| device_node(d))
}

/// A node with its identifier set to 0 where it is a folder.
pub open spec fn unnamed_folder(n: NodeV) -> NodeV {
    if n.kind == NodeKind::Folder {
        NodeV { uuid: 0, ..n }
    } else {
        n
    }
}

/// A device node with the identifiers of its folder children set to 0.
pub open spec fn unnamed_folders(d: NodeV) -> NodeV {
    NodeV { children: d.children.map_values(|c: NodeV| unnamed_folder(c)), ..d }
}

fn domain_tree_node(d: &DomainEntry) -> (n: TreeNode)
    ensures
        node_view(n) == domain_node(*d),
{
    let n = TreeNode {
        uuid: d.uuid,
        label: d.identifier.clone(),
        node_type: NodeKind::DerivedPassword,
        selected: false,
        children: Vec::new(),
    };
    assert(forest_view(n.children@) =~= seq![]);
    n
}

fn restriction_tree_node(r: &RestrictionEntry) -> (n: TreeNode)
    ensures
        node_view(n) == restriction_node(*r),
{
    let mut kids: Vec<TreeNode> = Vec::new();
    let mut i: usize = 0;
    while i < r.domains.len()
        invariant
            i <= r.domains.len(),
            kids@.len() == i,
            forall|j: int| 0 <= j < i ==> node_view(#[trigger] kids@[j]) == domain_node(r.domains@[j]),
        decreases r.domains.len() - i,
    {
        let k = domain_tree_node(&r.domains[i]);
        kids.push(k);
        i = i + 1;
    }
    proof {
        lemma_forest_view(kids@);
        assert(forest_view(kids@) =~= r.domains@.map_values(|d: DomainEntry| domain_node(d)));
    }
    TreeNode {
        uuid: r.uuid,
        label: r.name.clone(),
        node_type: NodeKind::Restriction,
        selected: false,
        children: kids,
    }
}

fn static_tree_node(sp: &StaticEntry) -> (n: TreeNode)
    ensures
        node_view(n) == static_node(*sp),
{
    let mut label = sp.label.clone();
    if sp.compromised {
        push_str(&mut label, " (comprometida)");
    }
    let n = TreeNode {
        uuid: sp.uuid,
        label,
        node_type: NodeKind::StaticPassword,
        selected: false,
        children: Vec::new(),
    };
    assert(forest_view(n.children@) =~= seq![]);
    n
}

fn folder_label_string(f: &Vec<char>) -> (r: String)
    ensures
        r@ == folder_label(f@),
{
    if f.len() == 0 {
        String::from_str("(estáticas - raiz)")
    } else {
        let mut s = String::from_str("(estáticas - ");
        push_chars(&mut s, f);
        push_str(&mut s, ")");
        s
    }
}

/// The character views of a list of character vectors.
pub open spec fn char_views(s: Seq<Vec<char>>) -> Seq<Seq<char>> {
    s.map_values(|v: Vec<char>| v@)
}

fn list_contains(list: &Vec<Vec<char>>, x: &Vec<char>) -> (b: bool)
    ensures
        b == char_views(list@).contains(x@),
{
    let mut i: usize = 0;
    while i < list.len()
        invariant
            i <= list.len(),
            forall|j: int| 0 <= j < i ==> list@[j]@ != x@,
        decreases list.len() - i,
    {
        if chars_eq(&list[i], x) {
            assert(char_views(list@)[i as int] == x@);
            return true;
        }
        i = i + 1;
    }
    assert forall|j: int| 0 <= j < char_views(list@).len() implies char_views(list@)[j] != x@ by {
        assert(list@[j]@ != x@);
    }
    false
}

/// The folder paths of `statics`, each once, in the order of first occurrence.
fn folder_list(statics: &Vec<StaticEntry>) -> (r: Vec<Vec<char>>)
    ensures
        char_views(r@) == folders_of(statics@),
{
    let mut r: Vec<Vec<char>> = Vec::new();
    let mut i: usize = 0;
    while i < statics.len()
        invariant
            i <= statics.len(),
            char_views(r@) == folders_of(statics@.take(i as int)),
        decreases statics.len() - i,
    {
        proof {
            assert(statics@.take(i + 1).drop_last() =~= statics@.take(i as int));
        }
        let f = chars_of(statics[i].folder_path.as_str());
        if !list_contains(&r, &f) {
            r.push(f);
            assert(char_views(r@) =~= folders_of(statics@.take(i as int)).push(f@));
        }
        i = i + 1;
    }
    assert(statics@.take(statics.len() as int) =~= statics@);
    r
}

/// The folder node for `f`, with a fresh random identifier, or the error
/// of the random source.
fn folder_tree_node(f: &Vec<char>, statics: &Vec<StaticEntry>) -> (r: Result<TreeNode, String>)
    ensures
        r matches Ok(n) ==> unnamed_folder(node_view(n)) == folder_node(f@, statics@),
        r matches Ok(n) ==> n.node_type == NodeKind::Folder,
        r matches Err(e) ==> e@ == rng_unavailable_msg(),
{
    let id = match random_uuid() {
        Ok(u) => u,
        Err(e) => return Err(e),
    };
    let mut kids: Vec<TreeNode> = Vec::new();
    let ghost mut picked: Seq<StaticEntry> = seq![];
    let mut i: usize = 0;
    while i < statics.len()
        invariant
            i <= statics.len(),
            picked == statics_in(statics@.take(i as int), f@),
            kids@.len() == picked.len(),
            forall|j: int| 0 <= j < kids@.len() ==> node_view(#[trigger] kids@[j]) == static_node(picked[j]),
        decreases statics.len() - i,
    {
        proof {
            assert(statics@.take(i + 1).drop_last() =~= statics@.take(i as int));
        }
        let p = chars_of(statics[i].folder_path.as_str());
        if chars_eq(&p, f) {
            let k = static_tree_node(&statics[i]);
            kids.push(k);
            proof {
                picked = picked.push(statics@[i as int]);
            }
        }
        i = i + 1;
    }
    proof {
        assert(statics@.take(statics.len() as int) =~= statics@);
        lemma_forest_view(kids@);
        assert(forest_view(kids@) =~= picked.map_values(|sp: StaticEntry| static_node(sp)));
    }
    let label = folder_label_string(f);
    Ok(TreeNode {
        uuid: id,
        label,
        node_type: NodeKind::Folder,
        selected: false,
        children: kids,
    })
}

fn device_tree_node(d: &DeviceEntry) -> (r: Result<TreeNode, String>)
    ensures
        r matches Ok(n) ==> unnamed_folders(node_view(n)) == device_node(*d),
        r matches Err(e) ==> e@ == rng_unavailable_msg(),
        r is Err ==> d.statics@.len() > 0,
{
    let ghost want = device_children(*d);
    let ghost nr = d.restrictions@.len();
    let mut kids: Vec<TreeNode> = Vec::new();
    let mut i: usize = 0;
    while i < d.restrictions.len()
        invariant
            i <= d.restrictions.len(),
            nr == d.restrictions@.len(),
            want == device_children(*d),
            kids@.len() == i,
            forall|j: int| 0 <= j < i ==> unnamed_folder(node_view(#[trigger] kids@[j])) == want[j],
        decreases d.restrictions.len() - i,
    {
        let k = restriction_tree_node(&d.restrictions[i]);
        kids.push(k);
        i = i + 1;
    }
    let folders = folder_list(&d.statics);
    let mut j: usize = 0;
    while j < folders.len()
        invariant
            j <= folders.len(),
            nr == d.restrictions@.len(),
            want == device_children(*d),
            char_views(folders@) == folders_of(d.statics@),
            kids@.len() == nr + j,
            forall|m: int| 0 <= m < kids@.len() ==> unnamed_folder(node_view(#[trigger] kids@[m])) == want[m],
        decreases folders.len() - j,
    {
        let k = match folder_tree_node(&folders[j], &d.statics) {
            Ok(k) => k,
            Err(e) => {
                proof {
                    assert(char_views(folders@).len() == folders@.len());
                    if d.statics@.len() == 0 {
                        assert(folders_of(d.statics@).len() == 0);
                    }
                }
                return Err(e);
            },
        };
        assert(char_views(folders@)[j as int] == folders@[j as int]@);
        kids.push(k);
        j = j + 1;
    }
    proof {
        lemma_forest_view(kids@);
        assert(forest_view(kids@).map_values(|c: NodeV| unnamed_folder(c)) =~= want);
    }
    Ok(TreeNode {
        uuid: d.uuid,
        label: d.name.clone(),
        node_type: NodeKind::Device,
        selected: false,
        children: kids,
    })
}

/// The export tree of `devices`: nothing selected, each device with its
/// restrictions and domains, then a folder node (with a fresh random
/// identifier) for each folder of its static passwords. Where the operating
/// system gives no random bytes for an identifier, its error comes back; with
/// no static password at all no identifier is drawn and the tree always
/// comes back.
pub fn build_tree(devices: &Vec<DeviceEntry>) -> (res: Result<Vec<TreeNode>, String>)
    ensures
        res matches Ok(r) ==> forest_view(r@).map_values(|d: NodeV| unnamed_folders(d)) == build_spec(devices@),
        res matches Err(e) ==> e@ == rng_unavailable_msg(),
        res is Err ==> exists|i: int| 0 <= i < devices@.len() && devices@[i].statics@.len() > 0,
{
    let mut r: Vec<TreeNode> = Vec::new();
    let mut i: usize = 0;
    while i < devices.len()
        invariant
            i <= devices.len(),
            r@.len() == i,
            forall|j: int| 0 <= j < i ==> unnamed_folders(node_view(#[trigger] r@[j])) == device_node(devices@[j]),
        decreases devices.len() - i,
    {
        let n = match device_tree_node(&devices[i]) {
            Ok(n) => n,
            Err(e) => {
                assert(devices@[i as int].statics@.len() > 0);
                return Err(e);
            },
        };
        r.push(n);
        i = i + 1;
    }
    proof {
        lemma_forest_view(r@);
        assert(forest_view(r@).map_values(|d: NodeV| unnamed_folders(d)) =~= build_spec(devices@));
    }
    Ok(r)
}

} // verus!
