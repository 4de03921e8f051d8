//! The scene: an arena of nodes with parent links and records, and the
//! mutations that change it.
//!
//! A node is known by its index in the arena, which never changes. A node that
//! is taken out of the scene stays in the arena, no longer alive. Mutations
//! are planned first and applied afterwards, one after another.

use vstd::prelude::*;
use vstd::string::*;
use crate::model::{Orientation, Scalar};

verus! {

/// What a node stands for.
#[derive(Clone, Copy, Debug, PartialEq, Eq, Structural)]
pub enum NodeKind {
    /// The root of one map.
    MapRoot,
    Layer,
    Object,
    Tile,
}

/// Where and how a new node is drawn.
#[derive(Clone, Copy, Debug, PartialEq, Eq, Structural)]
pub enum Placement {
    /// Nothing is said about the place.
    Unplaced,
    /// The node of a layer, built for the tiles of one tileset: it lies where
    /// the grid of `tilemap` has its centre, shifted by the layer's offset as
    /// the map gives it.
    Layer { tilemap: Tilemap, offset_x: Scalar, offset_y: Scalar },
    /// An object, at the position the map gives it; the scene places it at
    /// the same `x` and at the layer's height less `y`.
    Object { x: Scalar, y: Scalar },
    /// A tile at column `x` of scene row `y`.
    Tile { x: u32, y: u32, texture_index: u32, flip_h: bool, flip_v: bool, flip_d: bool },
}

/// What a layer node needs in order to be drawn as a grid of tiles.
#[derive(Clone, Copy, Debug, PartialEq, Eq, Structural)]
pub struct Tilemap {
    pub tileset_index: usize,
    pub layer_index: usize,
    pub orientation: Orientation,
    pub map_width: u32,
    pub map_height: u32,
    pub grid_width: u32,
    pub grid_height: u32,
    pub tile_width: u32,
    pub tile_height: u32,
    pub spacing: u32,
}

/// A record bound to a node: the path of its type and its description as text.
#[derive(Clone, Debug, PartialEq, Eq)]
pub struct Record {
    pub type_path: String,
    pub description: String,
}

/// A node of the arena.
#[derive(Clone, Debug, PartialEq, Eq)]
pub struct Node {
    pub alive: bool,
    pub parent: Option<usize>,
    pub kind: NodeKind,
    pub name: String,
    pub placement: Placement,
    /// Whether the node is marked for removal.
    pub marked: bool,
    /// The tileset whose tiles the node draws, once a tilemap is attached.
    pub tileset: Option<usize>,
    pub records: Vec<Record>,
}

/// A node as contracts see it: its records are a map from type path to
/// description.
pub struct NodeView {
    pub alive: bool,
    pub parent: Option<usize>,
    pub kind: NodeKind,
    pub name: Seq<char>,
    pub placement: Placement,
    pub marked: bool,
    pub tileset: Option<usize>,
    pub records: Map<Seq<char>, Seq<char>>,
}

/// The records of a node as a map; of two records of one type the later
/// counts.
pub open spec fn records_map(records: Seq<Record>) -> Map<Seq<char>, Seq<char>>
    decreases records.len(),
{
    if records.len() == 0 {
        Map::empty()
    } else {
        records_map(records.drop_last()).insert(records.last().type_path@, records.last().description@)
    }
}

impl View for Node {
    type V = NodeView;

    open spec fn view(&self) -> NodeView {
        NodeView {
            alive: self.alive,
            parent: self.parent,
            kind: self.kind,
            name: self.name@,
            placement: self.placement,
            marked: self.marked,
            tileset: self.tileset,
            records: records_map(self.records@),
        }
    }
}

/// A change to the scene.
#[derive(Clone, Debug, PartialEq, Eq)]
pub enum Mutation {
    /// Adds node `node`, which must be the next free index, under `parent`.
    CreateNode { node: usize, parent: Option<usize>, kind: NodeKind, name: String, placement: Placement },
    /// Gives a layer node what it needs to draw its tiles.
    AttachTilemap { node: usize, tilemap: Tilemap },
    /// Binds a record to a node, in place of any record of the same type.
    AttachRecord { node: usize, type_path: String, description: String },
    /// Takes the record of a type off a node.
    RemoveRecord { node: usize, type_path: String },
    /// Marks a node for removal.
    MarkForRemoval { node: usize },
    /// Takes everything below a node out of the scene.
    DespawnChildren { node: usize },
    /// Takes a node and everything below it out of the scene.
    DespawnSubtree { node: usize },
}

/// A mutation as contracts see it.
pub enum MutationView {
    CreateNode { node: usize, parent: Option<usize>, kind: NodeKind, name: Seq<char>, placement: Placement },
    AttachTilemap { node: usize, tilemap: Tilemap },
    AttachRecord { node: usize, type_path: Seq<char>, description: Seq<char> },
    RemoveRecord { node: usize, type_path: Seq<char> },
    MarkForRemoval { node: usize },
    DespawnChildren { node: usize },
    DespawnSubtree { node: usize },
}

impl View for Mutation {
    type V = MutationView;

    open spec fn view(&self) -> MutationView {
        match *self {
            Mutation::CreateNode { node, parent, kind, name, placement } => MutationView::CreateNode {
                node,
                parent,
                kind,
                name: name@,
                placement,
            },
            Mutation::AttachTilemap { node, tilemap } => MutationView::AttachTilemap { node, tilemap },
            Mutation::AttachRecord { node, type_path, description } => MutationView::AttachRecord {
                node,
                type_path: type_path@,
                description: description@,
            },
            Mutation::RemoveRecord { node, type_path } => MutationView::RemoveRecord {
                node,
                type_path: type_path@,
            },
            Mutation::MarkForRemoval { node } => MutationView::MarkForRemoval { node },
            Mutation::DespawnChildren { node } => MutationView::DespawnChildren { node },
            Mutation::DespawnSubtree { node } => MutationView::DespawnSubtree { node },
        }
    }
}

/// The views of a queue of mutations, in order.
pub open spec fn mutation_views(queue: Seq<Mutation>) -> Seq<MutationView> {
    Seq::new(queue.len(), |i: int| queue[i]@)
}

/// Whether `node` is in the scene and alive.
pub open spec fn is_live(s: Seq<NodeView>, node: int) -> bool {
    0 <= node < s.len() && s[node].alive
}

/// Whether node `i` is `root` or lies below it, by the parent links. A link
/// counts only where it leads to a lower index, as every link of a created
/// node does.
pub open spec fn in_subtree(s: Seq<NodeView>, root: int, i: int) -> bool
    decreases i,
{
    if i < 0 || i >= s.len() {
        false
    } else if i == root {
        true
    } else {
        match s[i].parent {
            Some(p) => p < i && in_subtree(s, root, p as int),
            None => false,
        }
    }
}

/// Whether `child` is a live node that hangs under `node`.
pub open spec fn is_child(s: Seq<NodeView>, node: usize, child: usize) -> bool {
    is_live(s, child as int) && s[child as int].parent == Some(node)
}

/// Whether a new node may be put under `parent`: a root needs none, any other
/// node a live one.
pub open spec fn parent_admits(s: Seq<NodeView>, parent: Option<usize>) -> bool {
    match parent {
        Some(p) => is_live(s, p as int),
        None => true,
    }
}

/// The scene without the nodes of the subtree of `root`; with `keep_root`
/// the root itself stays.
pub open spec fn without_subtree(s: Seq<NodeView>, root: int, keep_root: bool) -> Seq<NodeView> {
    Seq::new(
        s.len(),
        |i: int|
            NodeView {
                alive: s[i].alive && !(in_subtree(s, root, i) && !(keep_root && i == root)),
                ..s[i]
            },
    )
}

/// The scene after one mutation. A mutation that names a node which is not
/// alive, or creates a node at another index than the next free one, changes
/// nothing. The last index of all is never given to a node.
pub open spec fn step(s: Seq<NodeView>, m: MutationView) -> Seq<NodeView> {
    match m {
        MutationView::CreateNode { node, parent, kind, name, placement } => {
            if node == s.len() && node < usize::MAX && parent_admits(s, parent) {
                s.push(
                    NodeView {
                        alive: true,
                        parent,
                        kind,
                        name,
                        placement,
                        marked: false,
                        tileset: None,
                        records: Map::empty(),
                    },
                )
            } else {
                s
            }
        },
        MutationView::AttachTilemap { node, tilemap } => {
            if is_live(s, node as int) {
                s.update(node as int, NodeView { tileset: Some(tilemap.tileset_index), ..s[node as int] })
            } else {
                s
            }
        },
        MutationView::AttachRecord { node, type_path, description } => {
            if is_live(s, node as int) {
                s.update(
                    node as int,
                    NodeView {
                        records: s[node as int].records.insert(type_path, description),
                        ..s[node as int]
                    },
                )
            } else {
                s
            }
        },
        MutationView::RemoveRecord { node, type_path } => {
            if is_live(s, node as int) {
                s.update(
                    node as int,
                    NodeView { records: s[node as int].records.remove(type_path), ..s[node as int] },
                )
            } else {
                s
            }
        },
        MutationView::MarkForRemoval { node } => {
            if is_live(s, node as int) {
                s.update(node as int, NodeView { marked: true, ..s[node as int] })
            } else {
                s
            }
        },
        MutationView::DespawnChildren { node } => without_subtree(s, node as int, true),
        MutationView::DespawnSubtree { node } => without_subtree(s, node as int, false),
    }
}

/// The scene after a queue of mutations, applied in order.
pub open spec fn run(s: Seq<NodeView>, queue: Seq<MutationView>) -> Seq<NodeView>
    decreases queue.len(),
{
    if queue.len() == 0 {
        s
    } else {
        step(run(s, queue.drop_last()), queue.last())
    }
}

/// The records of `records` whose type is not `type_path`.
fn records_without(records: &Vec<Record>, type_path: &String) -> (r: Vec<Record>)
    ensures
        records_map(r@) == records_map(records@).remove(type_path@),
{
    let mut out: Vec<Record> = Vec::new();
    let mut i: usize = 0;
    while i < records.len()
        invariant
            i <= records.len(),
            records_map(out@) == records_map(records@.take(i as int)).remove(type_path@),
        decreases records.len() - i,
    {
        proof {
            assert(records@.take(i + 1).drop_last() =~= records@.take(i as int));
        }
        if records[i].type_path != *type_path {
            let ghost before = out@;
            out.push(Record { type_path: records[i].type_path.clone(), description: records[i].description.clone() });
            proof {
                assert(out@.drop_last() =~= before);
                assert(records_map(out@) =~= records_map(records@.take(i + 1)).remove(type_path@));
            }
        } else {
            proof {
                assert(records_map(out@) =~= records_map(records@.take(i + 1)).remove(type_path@));
            }
        }
        i += 1;
    }
    proof {
        assert(records@.take(records.len() as int) =~= records@);
    }
    out
}

/// The scene.
#[derive(Clone, Debug, PartialEq, Eq)]
pub struct Scene {
    pub nodes: Vec<Node>,
}

impl View for Scene {
    type V = Seq<NodeView>;

    open spec fn view(&self) -> Seq<NodeView> {
        Seq::new(self.nodes@.len(), |i: int| self.nodes@[i]@)
    }
}

impl Scene {
    /// A scene without nodes.
    pub fn new() -> (r: Scene)
        ensures
            r@ == Seq::<NodeView>::empty(),
    {
        let r = Scene { nodes: Vec::new() };
        assert(r@ =~= Seq::<NodeView>::empty());
        r
    }

    /// The number of nodes ever created, which is the index of the next one.
    pub fn len(&self) -> (r: usize)
        ensures
            r == self@.len(),
    {
        self.nodes.len()
    }

    /// Whether `node` is in the scene and alive.
    pub fn is_alive(&self, node: usize) -> (r: bool)
        ensures
            r == is_live(self@, node as int),
    {
        node < self.nodes.len() && self.nodes[node].alive
    }

    /// Whether the creation of `node` under `parent` would add a node: the
    /// index must be the next free one, and not the last of all, and the
    /// parent, if any, alive.
    pub fn admits(&self, node: usize, parent: Option<usize>) -> (r: bool)
        ensures
            r == (node == self@.len() && node < usize::MAX && parent_admits(self@, parent)),
    {
        let admitted = match parent {
            Some(p) => self.is_alive(p),
            None => true,
        };
        node == self.nodes.len() && node < usize::MAX && admitted
    }

    fn subtree_flags(&self, root: usize) -> (r: Vec<bool>)
        ensures
            r@.len() == self@.len(),
            forall|i: int| 0 <= i < r@.len() ==> r@[i] == in_subtree(self@, root as int, i),
    {
        let mut flags: Vec<bool> = Vec::new();
        let mut i: usize = 0;
        while i < self.nodes.len()
            invariant
                i <= self.nodes.len(),
                flags@.len() == i,
                forall|j: int| 0 <= j < i ==> flags@[j] == in_subtree(self@, root as int, j),
            decreases self.nodes.len() - i,
        {
            let inside = if i == root {
                true
            } else {
                match self.nodes[i].parent {
                    Some(p) => p < i && flags[p],
                    None => false,
                }
            };
            assert(inside == in_subtree(self@, root as int, i as int));
            flags.push(inside);
            i += 1;
        }
        flags
    }

    fn despawn(&mut self, root: usize, keep_root: bool)
        ensures
            final(self)@ == without_subtree(old(self)@, root as int, keep_root),
    {
        let flags = self.subtree_flags(root);
        let mut i: usize = 0;
        while i < self.nodes.len()
            invariant
                i <= self.nodes.len(),
                self.nodes.len() == old(self).nodes.len(),
                flags@.len() == self.nodes.len(),
                forall|j: int| 0 <= j < flags@.len() ==> flags@[j] == in_subtree(old(self)@, root as int, j),
                forall|j: int|
                    0 <= j < i ==> (#[trigger] self.nodes@[j])@ == without_subtree(
                        old(self)@,
                        root as int,
                        keep_root,
                    )[j],
                forall|j: int| i <= j < self.nodes.len() ==> self.nodes@[j] == old(self).nodes@[j],
            decreases self.nodes.len() - i,
        {
            let ghost before = self.nodes@;
            if flags[i] && !(keep_root && i == root) {
                self.nodes[i].alive = false;
            }
            proof {
                assert(forall|j: int| 0 <= j < before.len() && j != i ==> self.nodes@[j] == before[j]);
                assert(self.nodes@[i as int]@ == without_subtree(old(self)@, root as int, keep_root)[i as int]);
            }
            i += 1;
        }
        assert(self@ =~= without_subtree(old(self)@, root as int, keep_root));
    }

    /// Applies one mutation.
    pub fn apply(&mut self, mutation: &Mutation)
        ensures
            final(self)@ == step(old(self)@, mutation@),
    {
        match mutation {
            Mutation::CreateNode { node, parent, kind, name, placement } => {
                if self.admits(*node, *parent) {
                    self.nodes.push(
                        Node {
                            alive: true,
                            parent: *parent,
                            kind: *kind,
                            name: name.clone(),
                            placement: *placement,
                            marked: false,
                            tileset: None,
                            records: Vec::new(),
                        },
                    );
                    assert(records_map(Seq::<Record>::empty()) =~= Map::empty());
                }
                assert(self@ =~= step(old(self)@, mutation@));
            },
            Mutation::AttachTilemap { node, tilemap } => {
                if self.is_alive(*node) {
                    self.nodes[*node].tileset = Some(tilemap.tileset_index);
                }
                assert(self@ =~= step(old(self)@, mutation@));
            },
            Mutation::AttachRecord { node, type_path, description } => {
                if self.is_alive(*node) {
                    let mut records = records_without(&self.nodes[*node].records, type_path);
                    let ghost before = records@;
                    records.push(Record { type_path: type_path.clone(), description: description.clone() });
                    proof {
                        assert(records@.drop_last() =~= before);
                        assert(records_map(records@) =~= old(self)@[*node as int].records.insert(
                            type_path@,
                            description@,
                        ));
                    }
                    self.nodes[*node].records = records;
                }
                assert(self@ =~= step(old(self)@, mutation@));
            },
            Mutation::RemoveRecord { node, type_path } => {
                if self.is_alive(*node) {
                    let records = records_without(&self.nodes[*node].records, type_path);
                    self.nodes[*node].records = records;
                }
                assert(self@ =~= step(old(self)@, mutation@));
            },
            Mutation::MarkForRemoval { node } => {
                if self.is_alive(*node) {
                    self.nodes[*node].marked = true;
                }
                assert(self@ =~= step(old(self)@, mutation@));
            },
            Mutation::DespawnChildren { node } => {
                self.despawn(*node, true);
            },
            Mutation::DespawnSubtree { node } => {
                self.despawn(*node, false);
            },
        }
    }

    /// Applies a queue of mutations, in order.
    pub fn apply_all(&mut self, queue: &Vec<Mutation>)
        ensures
            final(self)@ == run(old(self)@, mutation_views(queue@)),
    {
        let mut i: usize = 0;
        while i < queue.len()
            invariant
                i <= queue.len(),
                self@ == run(old(self)@, mutation_views(queue@).take(i as int)),
            decreases queue.len() - i,
        {
            proof {
                let views = mutation_views(queue@);
                assert(views.take(i + 1).drop_last() =~= views.take(i as int));
                assert(views.take(i + 1).last() == queue@[i as int]@);
            }
            self.apply(&queue[i]);
            i += 1;
        }
        proof {
            let views = mutation_views(queue@);
            assert(views.take(queue.len() as int) =~= views);
        }
    }

    /// The parent of a live node; none for a root, and for a node that is
    /// not alive.
    pub fn parent(&self, node: usize) -> (r: Option<usize>)
        ensures
            r == if is_live(self@, node as int) {
                self@[node as int].parent
            } else {
                None
            },
    {
        if self.is_alive(node) {
            self.nodes[node].parent
        } else {
            None
        }
    }

    /// The live nodes that hang under `node`, by rising index.
    pub fn children(&self, node: usize) -> (r: Vec<usize>)
        ensures
            forall|j: usize| r@.contains(j) <==> is_child(self@, node, j),
            forall|a: int, b: int| 0 <= a < b < r@.len() ==> r@[a] < r@[b],
    {
        let mut found: Vec<usize> = Vec::new();
        let mut i: usize = 0;
        while i < self.nodes.len()
            invariant
                i <= self.nodes.len(),
                forall|a: int| 0 <= a < found@.len() ==> found@[a] < i && is_child(self@, node, #[trigger] found@[a]),
                forall|j: usize| j < i && is_child(self@, node, j) ==> found@.contains(j),
                forall|a: int, b: int| 0 <= a < b < found@.len() ==> found@[a] < found@[b],
            decreases self.nodes.len() - i,
        {
            let hangs = self.nodes[i].alive && match self.nodes[i].parent {
                Some(p) => p == node,
                None => false,
            };
            assert(hangs == is_child(self@, node, i));
            if hangs {
                let ghost before = found@;
                found.push(i);
                proof {
                    assert(found@[found@.len() - 1] == i);
                    assert forall|j: usize| j < i + 1 && is_child(self@, node, j) implies found@.contains(j) by {
                        if j < i {
                            assert(before.contains(j));
                            let at = choose|at: int| 0 <= at < before.len() && before[at] == j;
                            assert(found@[at] == j);
                        }
                    }
                }
            }
            i += 1;
        }
        found
    }

    /// The description of the record of a type that is bound to a live node.
    pub fn record(&self, node: usize, type_path: &str) -> (r: Option<String>)
        ensures
            match r {
                Some(description) => is_live(self@, node as int) && self@[node as int].records.contains_key(
                    type_path@,
                ) && self@[node as int].records[type_path@] == description@,
                None => !(is_live(self@, node as int) && self@[node as int].records.contains_key(type_path@)),
            },
    {
        if !self.is_alive(node) {
            return None;
        }
        let wanted = String::from_str(type_path);
        let records = &self.nodes[node].records;
        let mut found: Option<String> = None;
        let mut i: usize = 0;
        while i < records.len()
            invariant
                i <= records.len(),
                wanted@ == type_path@,
                match found {
                    Some(description) => records_map(records@.take(i as int)).contains_key(type_path@)
                        && records_map(records@.take(i as int))[type_path@] == description@,
                    None => !records_map(records@.take(i as int)).contains_key(type_path@),
                },
            decreases records.len() - i,
        {
            proof {
                assert(records@.take(i + 1).drop_last() =~= records@.take(i as int));
            }
            if records[i].type_path == wanted {
                found = Some(records[i].description.clone());
            }
            i += 1;
        }
        proof {
            assert(records@.take(records.len() as int) =~= records@);
        }
        found
    }
}

} // verus!
