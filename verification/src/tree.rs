use crate::entity::{active, Entity};
use crate::state::{State, StateView, PLAYER_SLOTS};
use id_tree::{InsertBehavior, Node, NodeId, Tree, TreeBuilder};
use std::collections::VecDeque;
use vstd::prelude::*;

verus! {

/// Number of nodes that the tree is made for.
pub const ENTITIES: usize = 24;

/// The tree type of `id_tree`, opaque to the verifier.
#[verifier::external_type_specification]
#[verifier::external_body]
#[verifier::reject_recursive_types(T)]
pub struct ExTree<T>(Tree<T>);

/// The node handle of `id_tree`, opaque to the verifier.
#[verifier::external_type_specification]
#[verifier::external_body]
pub struct ExNodeId(NodeId);

/// What a tree holds: for the key of each live node, the entity stored in
/// the node and the keys of its children in their order.
pub uninterp spec fn tree_nodes(tree: Tree<Entity>) -> Map<int, (Entity, Seq<int>)>;

/// The key of the node that a handle designates: it stands for the tree
/// that issued the handle together with the node's slot in that tree.
pub uninterp spec fn node_key(id: NodeId) -> int;

/// No nodes at all.
pub open spec fn no_nodes() -> Map<int, (Entity, Seq<int>)> {
    Map::empty()
}

/// `TreeBuilder::new().with_node_capacity(..).build()`: a tree without nodes.
#[verifier::external_body]
fn tree_with_capacity(capacity: usize) -> (tree: Tree<Entity>)
    ensures
        tree_nodes(tree) == no_nodes(),
{
    TreeBuilder::new().with_node_capacity(capacity).build()
}

/// `Tree::insert` with `AsRoot`, on a tree without nodes: it always
/// succeeds, and the tree then holds the one node, without children.
#[verifier::external_body]
fn insert_root(tree: &mut Tree<Entity>, entity: Entity) -> (id: Option<NodeId>)
    requires
        tree_nodes(*old(tree)) == no_nodes(),
    ensures
        id is Some,
        tree_nodes(*final(tree)) == no_nodes().insert(
            node_key(id.unwrap()),
            (entity, Seq::empty()),
        ),
{
    tree.insert(Node::new(entity), InsertBehavior::AsRoot).ok()
}

/// `Tree::insert` with `UnderNode`: it succeeds exactly when `parent`
/// designates a live node of this tree; the new node then has a key that no
/// live node had, has no children, and is the last child of `parent`. On
/// failure the tree is as it was.
#[verifier::external_body]
fn insert_under(tree: &mut Tree<Entity>, parent: &NodeId, entity: Entity) -> (id: Option<NodeId>)
    ensures
        id is Some == tree_nodes(*old(tree)).contains_key(node_key(*parent)),
        id is None ==> tree_nodes(*final(tree)) == tree_nodes(*old(tree)),
        id is Some ==> {
            let before = tree_nodes(*old(tree));
            let up = node_key(*parent);
            let key = node_key(id.unwrap());
            &&& !before.contains_key(key)
            &&& tree_nodes(*final(tree)) == before.insert(key, (entity, Seq::empty())).insert(
                up,
                (before[up].0, before[up].1.push(key)),
            )
        },
{
    tree.insert(Node::new(entity), InsertBehavior::UnderNode(parent)).ok()
}

/// `Tree::get` and `Node::data`: the entity of the node that `id`
/// designates, if it designates a live node of this tree.
#[verifier::external_body]
fn entity_at(tree: &Tree<Entity>, id: &NodeId) -> (r: Option<Entity>)
    ensures
        r is Some == tree_nodes(*tree).contains_key(node_key(*id)),
        r is Some ==> r.unwrap() == tree_nodes(*tree)[node_key(*id)].0,
{
    tree.get(id).ok().map(|node| *node.data())
}

/// `Tree::get` and `Node::children`: handles of the children of the node
/// that `id` designates, in their order, if it designates a live node of this tree.
#[verifier::external_body]
fn children_of(tree: &Tree<Entity>, id: &NodeId) -> (r: Option<Vec<NodeId>>)
    ensures
        r is Some == tree_nodes(*tree).contains_key(node_key(*id)),
        r is Some ==> keys_of(r.unwrap()@) == tree_nodes(*tree)[node_key(*id)].1,
{
    tree.get(id).ok().map(|node| node.children().clone())
}

/// `NodeId::clone`: a handle that designates the same node.
pub assume_specification[ <NodeId as Clone>::clone ](id: &NodeId) -> (r: NodeId)
    ensures
        node_key(r) == node_key(*id),
;

/// The keys of a sequence of handles.
pub open spec fn keys_of(ids: Seq<NodeId>) -> Seq<int> {
    Seq::new(ids.len(), |i: int| node_key(ids[i]))
}

/// `rank` orders the nodes so that every child is a node of lower rank than its parent.
pub open spec fn ranked(nodes: Map<int, (Entity, Seq<int>)>, rank: Map<int, nat>) -> bool {
    forall|k: int, j: int|
        nodes.contains_key(k) && 0 <= j < nodes[k].1.len() ==> nodes.contains_key(
            #[trigger] nodes[k].1[j],
        ) && rank[nodes[k].1[j]] < rank[k]
}

/// The nodes that are eligible in state `s` below and including node `key`,
/// in pre-order: the node itself, then for each of its children that is
/// active, in their order, what is eligible below and including the child.
/// What lies below a child that is not active is left out as a whole.
pub open spec fn eligible(
    nodes: Map<int, (Entity, Seq<int>)>,
    rank: Map<int, nat>,
    s: StateView,
    key: int,
) -> Seq<int>
    decreases rank[key], nodes[key].1.len() + 1,
{
    seq![key] + eligible_from(nodes, rank, s, key, 0)
}

/// What is eligible below the children of node `key` from position `from` on.
pub open spec fn eligible_from(
    nodes: Map<int, (Entity, Seq<int>)>,
    rank: Map<int, nat>,
    s: StateView,
    key: int,
    from: int,
) -> Seq<int>
    decreases rank[key], nodes[key].1.len() - from,
{
    let children = nodes[key].1;
    if from < 0 || from >= children.len() {
        Seq::empty()
    } else {
        let child = children[from];
        let below = if nodes.contains_key(child) && rank[child] < rank[key] && active(
            nodes[child].0,
            s,
        ) {
            eligible(nodes, rank, s, child)
        } else {
            Seq::empty()
        };
        below + eligible_from(nodes, rank, s, key, from + 1)
    }
}

/// A pre-order walk over every node below and including node `key` that
/// keeps a node only where `kept` holds and the node and each node on the
/// way down to it from the children of `key` is active.
pub open spec fn filtered_walk(
    nodes: Map<int, (Entity, Seq<int>)>,
    rank: Map<int, nat>,
    s: StateView,
    key: int,
    kept: bool,
) -> Seq<int>
    decreases rank[key], nodes[key].1.len() + 1,
{
    (if kept {
        seq![key]
    } else {
        Seq::empty()
    }) + filtered_walk_from(nodes, rank, s, key, kept, 0)
}

/// The part of the filtered walk that lies below the children of node `key` from position `from` on.
pub open spec fn filtered_walk_from(
    nodes: Map<int, (Entity, Seq<int>)>,
    rank: Map<int, nat>,
    s: StateView,
    key: int,
    kept: bool,
    from: int,
) -> Seq<int>
    decreases rank[key], nodes[key].1.len() - from,
{
    let children = nodes[key].1;
    if from < 0 || from >= children.len() {
        Seq::empty()
    } else {
        let child = children[from];
        let below = if nodes.contains_key(child) && rank[child] < rank[key] {
            filtered_walk(nodes, rank, s, child, kept && active(nodes[child].0, s))
        } else {
            Seq::empty()
        };
        below + filtered_walk_from(nodes, rank, s, key, kept, from + 1)
    }
}

/// A walk that keeps nothing at its start keeps nothing at all.
pub proof fn lemma_walk_keeps_nothing(
    nodes: Map<int, (Entity, Seq<int>)>,
    rank: Map<int, nat>,
    s: StateView,
    key: int,
)
    ensures
        filtered_walk(nodes, rank, s, key, false) == Seq::<int>::empty(),
    decreases rank[key], nodes[key].1.len() + 1,
{
    lemma_walk_from_keeps_nothing(nodes, rank, s, key, 0);
    assert(filtered_walk(nodes, rank, s, key, false) =~= Seq::<int>::empty());
}

proof fn lemma_walk_from_keeps_nothing(
    nodes: Map<int, (Entity, Seq<int>)>,
    rank: Map<int, nat>,
    s: StateView,
    key: int,
    from: int,
)
    ensures
        filtered_walk_from(nodes, rank, s, key, false, from) == Seq::<int>::empty(),
    decreases rank[key], nodes[key].1.len() - from,
{
    let children = nodes[key].1;
    if 0 <= from < children.len() {
        let child = children[from];
        if nodes.contains_key(child) && rank[child] < rank[key] {
            lemma_walk_keeps_nothing(nodes, rank, s, child);
        }
        lemma_walk_from_keeps_nothing(nodes, rank, s, key, from + 1);
        assert(filtered_walk_from(nodes, rank, s, key, false, from) =~= Seq::<int>::empty());
    }
}

/// Walking only into active children gives the same nodes, in the same
/// order, as walking over all nodes and keeping those whose way down is active.
pub proof fn lemma_walks_agree(
    nodes: Map<int, (Entity, Seq<int>)>,
    rank: Map<int, nat>,
    s: StateView,
    key: int,
)
    ensures
        filtered_walk(nodes, rank, s, key, true) == eligible(nodes, rank, s, key),
    decreases rank[key], nodes[key].1.len() + 1,
{
    lemma_walks_agree_from(nodes, rank, s, key, 0);
}

proof fn lemma_walks_agree_from(
    nodes: Map<int, (Entity, Seq<int>)>,
    rank: Map<int, nat>,
    s: StateView,
    key: int,
    from: int,
)
    ensures
        filtered_walk_from(nodes, rank, s, key, true, from) == eligible_from(nodes, rank, s, key, from),
    decreases rank[key], nodes[key].1.len() - from,
{
    let children = nodes[key].1;
    if 0 <= from < children.len() {
        let child = children[from];
        if nodes.contains_key(child) && rank[child] < rank[key] {
            if active(nodes[child].0, s) {
                lemma_walks_agree(nodes, rank, s, child);
            } else {
                lemma_walk_keeps_nothing(nodes, rank, s, child);
            }
        }
        lemma_walks_agree_from(nodes, rank, s, key, from + 1);
    }
}

/// What is eligible below and including each node of `keys`, one after the other.
pub open spec fn eligible_all(
    nodes: Map<int, (Entity, Seq<int>)>,
    rank: Map<int, nat>,
    s: StateView,
    keys: Seq<int>,
) -> Seq<int>
    decreases keys.len(),
{
    if keys.len() == 0 {
        Seq::empty()
    } else {
        eligible(nodes, rank, s, keys[0]) + eligible_all(nodes, rank, s, keys.drop_first())
    }
}

/// Number of nodes below the launcher screen: a menu and a capture node
/// per slot, and the host's capture of the emulator buttons.
pub const LAUNCHER_CHILDREN: usize = 21;

/// The entity of the child at position `j` below the launcher screen.
pub open spec fn launcher_child(j: int) -> Entity {
    if j == 2 * PLAYER_SLOTS {
        Entity::PlayerGrabEmulatorButtons
    } else if j % 2 == 0 {
        Entity::PlayerMenu { player_index: (j / 2) as usize }
    } else {
        Entity::PlayerGrabInput { player_index: (j / 2) as usize }
    }
}

/// The nodes are those of the launcher: below the root the ROM list and the
/// launcher screen, and below the launcher screen its children, all leaves.
pub open spec fn launcher_shape(nodes: Map<int, (Entity, Seq<int>)>, root: int) -> bool {
    &&& nodes.contains_key(root)
    &&& nodes[root].0 == Entity::Root
    &&& nodes[root].1.len() == 2
    &&& nodes.contains_key(nodes[root].1[0])
    &&& nodes[nodes[root].1[0]] == (Entity::List, Seq::<int>::empty())
    &&& nodes.contains_key(nodes[root].1[1])
    &&& nodes[nodes[root].1[1]].0 == Entity::GameLauncher
    &&& nodes[nodes[root].1[1]].1.len() == LAUNCHER_CHILDREN
    &&& forall|j: int|
        0 <= j < LAUNCHER_CHILDREN ==> nodes.contains_key(#[trigger] nodes[nodes[root].1[1]].1[j])
            && nodes[nodes[nodes[root].1[1]].1[j]] == (launcher_child(j), Seq::<int>::empty())
}

/// The entities of the launcher's children from position `from` on that are active in `s`.
pub open spec fn shown_below_launcher(s: StateView, from: int) -> Seq<Entity>
    decreases LAUNCHER_CHILDREN - from,
{
    if from < 0 || from >= LAUNCHER_CHILDREN {
        Seq::empty()
    } else {
        (if active(launcher_child(from), s) {
            seq![launcher_child(from)]
        } else {
            Seq::empty()
        }) + shown_below_launcher(s, from + 1)
    }
}

/// The entities that render and receive events in state `s`, in their order.
pub open spec fn shown(s: StateView) -> Seq<Entity> {
    seq![Entity::Root] + (if active(Entity::List, s) {
        seq![Entity::List]
    } else {
        Seq::empty()
    }) + (if active(Entity::GameLauncher, s) {
        seq![Entity::GameLauncher] + shown_below_launcher(s, 0)
    } else {
        Seq::empty()
    })
}

/// The entities stored in the nodes with the given keys.
pub open spec fn entities_of(nodes: Map<int, (Entity, Seq<int>)>, keys: Seq<int>) -> Seq<Entity> {
    Seq::new(keys.len(), |i: int| nodes[keys[i]].0)
}

proof fn lemma_leaf(nodes: Map<int, (Entity, Seq<int>)>, rank: Map<int, nat>, s: StateView, key: int)
    requires
        nodes[key].1.len() == 0,
    ensures
        eligible(nodes, rank, s, key) == seq![key],
{
    assert(eligible_from(nodes, rank, s, key, 0) =~= Seq::<int>::empty());
    assert(seq![key] + Seq::<int>::empty() =~= seq![key]);
}

proof fn lemma_below_launcher(
    nodes: Map<int, (Entity, Seq<int>)>,
    rank: Map<int, nat>,
    s: StateView,
    root: int,
    from: int,
)
    requires
        launcher_shape(nodes, root),
        ranked(nodes, rank),
        0 <= from <= LAUNCHER_CHILDREN,
    ensures
        entities_of(nodes, eligible_from(nodes, rank, s, nodes[root].1[1], from))
            == shown_below_launcher(s, from),
    decreases LAUNCHER_CHILDREN - from,
{
    let launcher = nodes[root].1[1];
    if from < LAUNCHER_CHILDREN {
        let child = nodes[launcher].1[from];
        lemma_below_launcher(nodes, rank, s, root, from + 1);
        lemma_leaf(nodes, rank, s, child);
        let rest = eligible_from(nodes, rank, s, launcher, from + 1);
        if active(launcher_child(from), s) {
            assert(entities_of(nodes, seq![child] + rest) =~= seq![launcher_child(from)]
                + entities_of(nodes, rest));
        } else {
            assert(Seq::<int>::empty() + rest =~= rest);
            assert(Seq::<Entity>::empty() + shown_below_launcher(s, from + 1)
                =~= shown_below_launcher(s, from + 1));
        }
    } else {
        assert(entities_of(nodes, Seq::<int>::empty()) =~= Seq::<Entity>::empty());
    }
}

/// In the launcher's tree, the eligible nodes hold the root, the ROM list
/// on the list screen, and on the launcher screen the launcher and those of
/// its children that are active.
pub proof fn lemma_launcher_shows(
    nodes: Map<int, (Entity, Seq<int>)>,
    rank: Map<int, nat>,
    s: StateView,
    root: int,
)
    requires
        launcher_shape(nodes, root),
        ranked(nodes, rank),
    ensures
        entities_of(nodes, eligible(nodes, rank, s, root)) == shown(s),
{
    let list = nodes[root].1[0];
    let launcher = nodes[root].1[1];
    reveal_with_fuel(eligible_from, 3);
    lemma_leaf(nodes, rank, s, list);
    lemma_below_launcher(nodes, rank, s, root, 0);
    let below = eligible_from(nodes, rank, s, launcher, 0);
    assert(eligible(nodes, rank, s, launcher) == seq![launcher] + below);
    assert(entities_of(nodes, seq![launcher] + below) =~= seq![Entity::GameLauncher]
        + entities_of(nodes, below));
    let a = if active(Entity::List, s) {
        seq![list]
    } else {
        Seq::<int>::empty()
    };
    let b = if active(Entity::GameLauncher, s) {
        seq![launcher] + below
    } else {
        Seq::<int>::empty()
    };
    assert(eligible_from(nodes, rank, s, root, 2) =~= Seq::<int>::empty());
    assert(eligible_from(nodes, rank, s, root, 1) =~= b);
    assert(eligible_from(nodes, rank, s, root, 0) =~= a + b);
    assert(entities_of(nodes, seq![root] + (a + b)) =~= shown(s));
}

/// The launcher's tree while it is built: the root, the ROM list, the
/// launcher screen and the first `count` of the launcher's children.
pub open spec fn built(
    nodes: Map<int, (Entity, Seq<int>)>,
    rank: Map<int, nat>,
    root: int,
    list: int,
    launcher: int,
    count: int,
) -> bool {
    &&& ranked(nodes, rank)
    &&& nodes.contains_key(root)
    &&& nodes.contains_key(list)
    &&& nodes.contains_key(launcher)
    &&& nodes[root] == (Entity::Root, seq![list, launcher])
    &&& nodes[list] == (Entity::List, Seq::<int>::empty())
    &&& nodes[launcher].0 == Entity::GameLauncher
    &&& nodes[launcher].1.len() == count
    &&& rank[root] == 2
    &&& rank[list] == 1
    &&& rank[launcher] == 1
    &&& forall|j: int|
        0 <= j < count ==> nodes.contains_key(#[trigger] nodes[launcher].1[j])
            && nodes[nodes[launcher].1[j]] == (launcher_child(j), Seq::<int>::empty())
}

proof fn lemma_built_grows(
    nodes: Map<int, (Entity, Seq<int>)>,
    rank: Map<int, nat>,
    root: int,
    list: int,
    launcher: int,
    count: int,
    key: int,
)
    requires
        built(nodes, rank, root, list, launcher, count),
        0 <= count < LAUNCHER_CHILDREN,
        !nodes.contains_key(key),
    ensures
        built(
            nodes.insert(key, (launcher_child(count), Seq::<int>::empty())).insert(
                launcher,
                (nodes[launcher].0, nodes[launcher].1.push(key)),
            ),
            rank.insert(key, 0nat),
            root,
            list,
            launcher,
            count + 1,
        ),
{
    let after = nodes.insert(key, (launcher_child(count), Seq::<int>::empty())).insert(
        launcher,
        (nodes[launcher].0, nodes[launcher].1.push(key)),
    );
    let after_rank = rank.insert(key, 0nat);
    assert forall|j: int| 0 <= j < count + 1 implies after.contains_key(#[trigger] after[launcher].1[j])
        && after[after[launcher].1[j]] == (launcher_child(j), Seq::<int>::empty()) by {
        if j < count {
            let c = nodes[launcher].1[j];
            assert(nodes.contains_key(c));
            assert(nodes[c] == (launcher_child(j), Seq::<int>::empty()));
            assert(c != launcher);
            assert(c != key);
        }
    }
    assert forall|k: int, j: int| after.contains_key(k) && 0 <= j < after[k].1.len() implies after.contains_key(
        #[trigger] after[k].1[j],
    ) && after_rank[after[k].1[j]] < after_rank[k] by {
        if k == launcher {
            if j < count {
                let c = nodes[launcher].1[j];
                assert(nodes.contains_key(c));
                assert(rank[c] < rank[launcher]);
            }
        } else if k == key {
        } else {
            let c = nodes[k].1[j];
            assert(nodes.contains_key(c) && rank[c] < rank[k]);
            assert(c != key);
        }
    }
}

/// The fixed hierarchy of behaviour nodes.
pub struct EntityTree {
    tree: Tree<Entity>,
    root: NodeId,
    rank: Ghost<Map<int, nat>>,
}

impl EntityTree {
    #[verifier::type_invariant]
    spec fn inv(self) -> bool {
        &&& tree_nodes(self.tree).contains_key(node_key(self.root))
        &&& ranked(tree_nodes(self.tree), self.rank@)
        &&& launcher_shape(tree_nodes(self.tree), node_key(self.root))
    }

    /// Builds the launcher's tree.
    pub fn new() -> (r: EntityTree)
        ensures
            launcher_shape(r.nodes(), r.root_key()),
            ranked(r.nodes(), r.rank()),
    {
        let mut tree = tree_with_capacity(ENTITIES);
        let root = match insert_root(&mut tree, Entity::Root) {
            Some(root) => root,
            None => vstd::pervasive::unreached(),
        };
        let ghost kr = node_key(root);
        let ghost mut rank: Map<int, nat> = Map::empty().insert(kr, 2nat);
        let ghost n0 = tree_nodes(tree);
        let list = insert_under(&mut tree, &root, Entity::List);
        let ghost kl = node_key(list.unwrap());
        proof {
            rank = rank.insert(kl, 1nat);
        }
        let ghost n1 = tree_nodes(tree);
        assert(n1[kr] == (Entity::Root, seq![kl]));
        let launcher = match insert_under(&mut tree, &root, Entity::GameLauncher) {
            Some(launcher) => launcher,
            None => vstd::pervasive::unreached(),
        };
        let ghost kg = node_key(launcher);
        proof {
            rank = rank.insert(kg, 1nat);
            let n2 = tree_nodes(tree);
            assert(n2[kr].1 =~= seq![kl, kg]);
            assert(n2[kg].1 =~= Seq::<int>::empty());
        }
        let mut player_index: usize = 0;
        while player_index < PLAYER_SLOTS
            invariant
                player_index <= PLAYER_SLOTS,
                kg == node_key(launcher),
                built(tree_nodes(tree), rank, kr, kl, kg, 2 * player_index),
            decreases PLAYER_SLOTS - player_index,
        {
            let ghost before = tree_nodes(tree);
            let ghost before_rank = rank;
            let menu = insert_under(&mut tree, &launcher, Entity::PlayerMenu { player_index });
            proof {
                rank = rank.insert(node_key(menu.unwrap()), 0nat);
                lemma_built_grows(
                    before,
                    before_rank,
                    kr,
                    kl,
                    kg,
                    2 * player_index,
                    node_key(menu.unwrap()),
                );
            }
            let ghost middle = tree_nodes(tree);
            let ghost middle_rank = rank;
            let capture = insert_under(&mut tree, &launcher, Entity::PlayerGrabInput { player_index });
            proof {
                rank = rank.insert(node_key(capture.unwrap()), 0nat);
                lemma_built_grows(
                    middle,
                    middle_rank,
                    kr,
                    kl,
                    kg,
                    2 * player_index + 1,
                    node_key(capture.unwrap()),
                );
            }
            player_index += 1;
        }
        let ghost before = tree_nodes(tree);
        let ghost before_rank = rank;
        let buttons = insert_under(&mut tree, &launcher, Entity::PlayerGrabEmulatorButtons);
        proof {
            rank = rank.insert(node_key(buttons.unwrap()), 0nat);
            lemma_built_grows(before, before_rank, kr, kl, kg, 20, node_key(buttons.unwrap()));
        }
        EntityTree { tree, root, rank: Ghost(rank) }
    }

    /// The nodes of the tree.
    pub closed spec fn nodes(&self) -> Map<int, (Entity, Seq<int>)> {
        tree_nodes(self.tree)
    }

    /// The key of the root.
    pub closed spec fn root_key(&self) -> int {
        node_key(self.root)
    }

    /// An order of the nodes in which each child ranks below its parent.
    pub closed spec fn rank(&self) -> Map<int, nat> {
        self.rank@
    }

    /// The keys of the nodes that are eligible in state `s`, in pre-order from the root.
    pub open spec fn eligible(&self, s: StateView) -> Seq<int> {
        eligible(self.nodes(), self.rank(), s, self.root_key())
    }

    /// The entity of the node that `id` designates, if it designates a node of this tree.
    pub fn entity(&self, id: &NodeId) -> (r: Option<Entity>)
        ensures
            r is Some == self.nodes().contains_key(node_key(*id)),
            r is Some ==> r.unwrap() == self.nodes()[node_key(*id)].0,
    {
        entity_at(&self.tree, id)
    }

    /// The nodes that render and receive events in `state`: the root, and
    /// every node that is active and whose ancestors below the root are all
    /// active, in pre-order.
    pub fn collect_entities(&self, state: &State) -> (r: Vec<NodeId>)
        ensures
            keys_of(r@) == self.eligible(state@),
            forall|i: int| 0 <= i < r@.len() ==> self.nodes().contains_key(node_key(#[trigger] r@[i])),
            entities_of(self.nodes(), keys_of(r@)) == shown(state@),
    {
        proof {
            use_type_invariant(self);
            lemma_launcher_shows(tree_nodes(self.tree), self.rank@, state@, node_key(self.root));
        }
        let mut traversal = OnlyActiveTraversal::new(self, self.root.clone(), state);
        let mut found: Vec<NodeId> = Vec::new();
        assert(keys_of(found@) + traversal.remaining() =~= self.eligible(state@));
        loop
            invariant
                traversal.tree() == *self,
                traversal.state() == *state,
                keys_of(found@) + traversal.remaining() == self.eligible(state@),
                forall|i: int|
                    0 <= i < found@.len() ==> self.nodes().contains_key(node_key(#[trigger] found@[i])),
            ensures
                keys_of(found@) == self.eligible(state@),
            decreases traversal.remaining().len(),
        {
            let ghost before = traversal.remaining();
            match traversal.next() {
                Some(node_id) => {
                    proof {
                        assert(keys_of(found@.push(node_id)) =~= keys_of(found@).push(before[0]));
                        assert(keys_of(found@).push(before[0]) + before.drop_first() =~= keys_of(found@)
                            + before);
                    }
                    found.push(node_id);
                },
                None => {
                    assert(keys_of(found@) + before =~= keys_of(found@));
                    break ;
                },
            }
        }
        found
    }
}

/// A walk over the nodes that are eligible below and including one node, in pre-order.
pub struct OnlyActiveTraversal<'a> {
    tree: &'a EntityTree,
    data: VecDeque<NodeId>,
    state: &'a State,
}

impl<'a> OnlyActiveTraversal<'a> {
    #[verifier::type_invariant]
    spec fn inv(self) -> bool {
        forall|i: int|
            0 <= i < self.data@.len() ==> tree_nodes(self.tree.tree).contains_key(
                node_key(#[trigger] self.data@[i]),
            )
    }

    /// The tree that is walked.
    pub closed spec fn tree(&self) -> EntityTree {
        *self.tree
    }

    /// The state that decides which nodes are active.
    pub closed spec fn state(&self) -> State {
        *self.state
    }

    /// The keys of the nodes that the walk still hands out, in order.
    pub closed spec fn remaining(&self) -> Seq<int> {
        eligible_all(tree_nodes(self.tree.tree), self.tree.rank@, self.state@, keys_of(self.data@))
    }

    /// A walk that starts at the node that `node_id` designates. Where
    /// `node_id` designates no node of the tree, the walk hands out nothing.
    pub fn new(tree: &'a EntityTree, node_id: NodeId, state: &'a State) -> (r: OnlyActiveTraversal<
        'a,
    >)
        ensures
            r.tree() == *tree,
            r.state() == *state,
            r.remaining() == (if tree.nodes().contains_key(node_key(node_id)) {
                eligible(tree.nodes(), tree.rank(), state@, node_key(node_id))
            } else {
                Seq::empty()
            }),
    {
        let mut data: VecDeque<NodeId> = VecDeque::with_capacity(ENTITIES);
        if entity_at(&tree.tree, &node_id).is_some() {
            data.push_front(node_id);
            proof {
                reveal_with_fuel(eligible_all, 2);
                assert(keys_of(data@).drop_first() =~= Seq::<int>::empty());
                assert(eligible_all(
                    tree_nodes(tree.tree),
                    tree.rank@,
                    state@,
                    keys_of(data@),
                ) =~= eligible(tree_nodes(tree.tree), tree.rank@, state@, node_key(node_id)));
            }
        } else {
            assert(keys_of(data@) =~= Seq::<int>::empty());
        }
        OnlyActiveTraversal { tree, data, state }
    }

    /// Hands out the next node: the node at the front of the walk leaves
    /// it, and those of its children that are active take its place, in their order.
    pub fn next(&mut self) -> (r: Option<NodeId>)
        ensures
            final(self).tree() == old(self).tree(),
            final(self).state() == old(self).state(),
            match r {
                Some(node_id) => old(self).remaining().len() > 0 && node_key(node_id) == old(
                    self,
                ).remaining()[0] && final(self).remaining() == old(self).remaining().drop_first()
                    && old(self).tree().nodes().contains_key(node_key(node_id)),
                None => old(self).remaining().len() == 0 && final(self).remaining().len() == 0,
            },
    {
        proof {
            use_type_invariant(&*self);
            use_type_invariant(self.tree);
        }
        let tree = self.tree;
        let state = self.state;
        let ghost nodes = tree_nodes(tree.tree);
        let ghost rank = tree.rank@;
        let ghost s = state@;
        let mut data: VecDeque<NodeId> = VecDeque::new();
        std::mem::swap(&mut data, &mut self.data);
        let ghost waiting = keys_of(data@);
        let node_id = match data.pop_front() {
            Some(node_id) => node_id,
            None => {
                assert(waiting =~= Seq::<int>::empty());
                assert(keys_of(self.data@) =~= Seq::<int>::empty());
                return None;
            },
        };
        let ghost key = node_key(node_id);
        let ghost rest = keys_of(data@);
        proof {
            assert(waiting[0] == key);
            assert(rest =~= waiting.drop_first());
        }
        let mut children = match children_of(&tree.tree, &node_id) {
            Some(children) => children,
            None => Vec::new(),
        };
        proof {
            assert(keys_of(children@) == nodes[key].1);
            assert(eligible_from(nodes, rank, s, key, children@.len() as int) =~= Seq::<int>::empty());
            assert(Seq::<int>::empty() + eligible_all(nodes, rank, s, rest) =~= eligible_all(
                nodes,
                rank,
                s,
                rest,
            ));
        }
        while children.len() > 0
            invariant
                nodes == tree_nodes(tree.tree),
                ranked(nodes, rank),
                nodes.contains_key(key),
                s == state@,
                children@.len() <= nodes[key].1.len(),
                keys_of(children@) == nodes[key].1.subrange(0, children@.len() as int),
                forall|i: int| 0 <= i < data@.len() ==> nodes.contains_key(node_key(#[trigger] data@[i])),
                eligible_all(nodes, rank, s, keys_of(data@)) == eligible_from(
                    nodes,
                    rank,
                    s,
                    key,
                    children@.len() as int,
                ) + eligible_all(nodes, rank, s, rest),
            decreases children@.len(),
        {
            let ghost at = children@.len() - 1;
            let ghost stacked = keys_of(data@);
            let ghost unvisited = children@;
            let child = match children.pop() {
                Some(child) => child,
                None => vstd::pervasive::unreached(),
            };
            proof {
                assert(child == unvisited[at]);
                assert(keys_of(unvisited)[at] == node_key(child));
                assert(node_key(child) == nodes[key].1[at]);
                assert(keys_of(children@) =~= nodes[key].1.subrange(0, at));
                assert(nodes.contains_key(node_key(child)));
            }
            let is_active = match entity_at(&tree.tree, &child) {
                Some(entity) => entity.is_active(state),
                None => false,
            };
            if is_active {
                data.push_front(child);
                proof {
                    assert(keys_of(data@).drop_first() =~= stacked);
                    assert(keys_of(data@)[0] == nodes[key].1[at]);
                }
            }
        }
        proof {
            let all = eligible_all(nodes, rank, s, waiting);
            let tail = eligible_all(nodes, rank, s, keys_of(data@));
            assert(all == eligible(nodes, rank, s, key) + eligible_all(nodes, rank, s, rest));
            assert(all =~= seq![key] + tail);
            assert(all.drop_first() =~= tail);
        }
        self.data = data;
        Some(node_id)
    }
}

} // verus!
