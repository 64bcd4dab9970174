//! The nodes of a schema as they were read, and the trees of its files.
//!
//! A [`NodeArena`] holds the raw nodes of one request and finds them by id.
//! A [`Definition`] assembles, for each file of the request, the tree of
//! what the file contains: every node under the node that nests it.

use crate::arena::{share, Arena};
use crate::error::Error;
use crate::objs::Node;
use crate::raw::{RawNode, RawNodeKind};
use std::collections::HashMap;
use std::rc::Rc;
use vstd::prelude::*;
use vstd::string::{StrSliceExecFns, StringExecFns};

verus! {

/// The raw nodes of a request in the order read, with the place of each id.
pub struct ArenaItem {
    definition: Vec<RawNode>,
    nodes: HashMap<u64, usize>,
}

impl ArenaItem {
    #[verifier::type_invariant]
    spec fn indexed(self) -> bool {
        &&& self.nodes@.dom() == RawNode::table(self.definition@).dom()
        &&& forall|id: u64| #[trigger]
            self.nodes@.contains_key(id) ==> self.nodes@[id] as int == RawNode::table(
                self.definition@,
            )[id]
    }

    /// The raw nodes, in the order read.
    pub closed spec fn nodes(self) -> Seq<RawNode> {
        self.definition@
    }

    /// Indexes the nodes of a request by id. Of two nodes with one id, the
    /// id leads to the later one.
    pub fn new(definition: Vec<RawNode>) -> (item: ArenaItem)
        ensures
            item.nodes() == definition@,
    {
        let mut nodes: HashMap<u64, usize> = HashMap::with_capacity(definition.len());
        let mut i: usize = 0;
        while i < definition.len()
            invariant
                i <= definition@.len(),
                nodes@.dom() == RawNode::table(definition@.take(i as int)).dom(),
                forall|id: u64| #[trigger]
                    nodes@.contains_key(id) ==> nodes@[id] as int == RawNode::table(
                        definition@.take(i as int),
                    )[id],
            decreases definition@.len() - i,
        {
            proof {
                assert(definition@.take(i + 1).drop_last() == definition@.take(i as int));
            }
            nodes.insert(definition[i].id, i);
            i += 1;
        }
        proof {
            assert(definition@.take(definition@.len() as int) == definition@);
        }
        ArenaItem { definition, nodes }
    }
}

/// The nodes of a schema as they were read, found by id.
pub struct NodeArena {
    items: ArenaItem,
}

impl NodeArena {
    /// The raw nodes, in the order read.
    pub closed spec fn nodes(self) -> Seq<RawNode> {
        self.items.nodes()
    }

    /// Takes the nodes of a request and indexes them by id.
    pub fn new(nodes: Vec<RawNode>) -> (arena: NodeArena)
        ensures
            arena.nodes() == nodes@,
    {
        NodeArena { items: ArenaItem::new(nodes) }
    }

    /// The node at place `i` is a file, and its id leads to it.
    pub open spec fn is_root(self, i: int) -> bool {
        &&& 0 <= i < self.nodes().len()
        &&& self.nodes()[i].kind is File
        &&& RawNode::table(self.nodes())[self.nodes()[i].id] == i
    }

    /// The ids of the files among the first `n` nodes, in the order read.
    pub open spec fn roots_upto(self, n: nat) -> Seq<u64>
        decreases n,
    {
        if n == 0 {
            Seq::empty()
        } else {
            let before = self.roots_upto((n - 1) as nat);
            if self.is_root(n - 1) {
                before.push(self.nodes()[n - 1].id)
            } else {
                before
            }
        }
    }

    /// The ids of the files of the schema, in the order read.
    pub open spec fn root_ids(self) -> Seq<u64> {
        self.roots_upto(self.nodes().len())
    }

    /// The node `parent` is in the arena and nests a node with the id `child`.
    pub open spec fn nests(self, parent: u64, child: u64) -> bool {
        &&& self.items().contains_key(parent)
        &&& exists|j: int|
            0 <= j < self.items()[parent].nested_nodes@.len()
                && (#[trigger] self.items()[parent].nested_nodes@[j]).1 == child
    }

    /// The id at place `k` of `c` is a node that nests the id after it.
    pub open spec fn linked(self, c: Seq<u64>, k: int) -> bool {
        self.nests(c[k], c[k + 1])
    }

    /// Each id of `c` but the last is a node that nests the next.
    pub open spec fn is_chain(self, c: Seq<u64>) -> bool {
        &&& c.len() > 0
        &&& forall|k: int| 0 <= k < c.len() - 1 ==> #[trigger] self.linked(c, k)
    }

    /// The chain `c` cannot be followed to its end, and `e` says why: its
    /// last id is in no node of the arena, or is an id that the chain has
    /// passed before.
    pub open spec fn breaks(self, c: Seq<u64>, e: Error) -> bool {
        &&& self.is_chain(c)
        &&& match e {
            Error::Lookup(id) => c.last() == id && !self.items().contains_key(id),
            Error::Cycle(id) => c.last() == id && c.drop_last().contains(id),
            _ => false,
        }
    }

    /// The node `id` has a tree.
    pub open spec fn has_tree(self, id: u64) -> bool {
        exists|tree: NodePy| tree.is_tree_of(self, id)
    }

    /// A node has no tree where a chain from it breaks: where it leads to an
    /// id that is in no node of the arena, or comes back to an id that it
    /// has passed.
    pub proof fn lemma_broken_chain_has_no_tree(self, c: Seq<u64>, e: Error)
        requires
            self.breaks(c, e),
        ensures
            !self.has_tree(c[0]),
    {
        if self.has_tree(c[0]) {
            let tree = choose|tree: NodePy| tree.is_tree_of(self, c[0]);
            match e {
                Error::Lookup(id) => {
                    let sub = tree.lemma_subtree(self, c, c.len() - 1);
                },
                Error::Cycle(id) => {
                    let j = choose|j: int| 0 <= j < c.drop_last().len() && c.drop_last()[j] == id;
                    let sub = tree.lemma_subtree(self, c, j);
                    let round = c.subrange(j, c.len() as int);
                    assert forall|k: int| 0 <= k < round.len() - 1 implies #[trigger] self.linked(
                        round,
                        k,
                    ) by {
                        assert(self.linked(c, j + k));
                    }
                    sub.lemma_no_way_round(self, round);
                },
                _ => {},
            }
        }
    }

    /// The number of nodes read.
    pub fn len(&self) -> (n: usize)
        ensures
            n == self.nodes().len(),
    {
        self.items.definition.len()
    }

    /// The node read at place `i`.
    pub fn node_at(&self, i: usize) -> (node: &RawNode)
        requires
            i < self.nodes().len(),
        ensures
            *node == self.nodes()[i as int],
    {
        &self.items.definition[i]
    }

    /// Whether the node read at place `i` is a file that its id leads to.
    fn root_at(&self, i: usize) -> (root: bool)
        requires
            i < self.nodes().len(),
        ensures
            root == self.is_root(i as int),
    {
        proof {
            use_type_invariant(&self.items);
            RawNode::lemma_table(self.items.definition@);
        }
        let node = &self.items.definition[i];
        match node.kind {
            RawNodeKind::File => match self.items.nodes.get(&node.id) {
                Some(place) => *place == i,
                None => false,
            },
            _ => false,
        }
    }
}

impl Arena for NodeArena {
    type Item = RawNode;

    open spec fn items(&self) -> Map<u64, RawNode> {
        Map::new(
            |id: u64| RawNode::table(self.nodes()).contains_key(id),
            |id: u64| self.nodes()[RawNode::table(self.nodes())[id]],
        )
    }

    fn get(&self, idx: &u64) -> (item: Option<&RawNode>) {
        proof {
            use_type_invariant(&self.items);
            RawNode::lemma_table(self.items.definition@);
        }
        match self.items.nodes.get(idx) {
            Some(place) => Some(&self.items.definition[*place]),
            None => None,
        }
    }
}

/// A node of a tree, with the trees of the nodes nested in it.
pub struct NodeInner {
    arena: Rc<NodeArena>,
    id: u64,
    nested: Vec<NodePy>,
}

/// The tree of a node of a schema.
pub struct NodePy {
    i: NodeInner,
}

impl NodeInner {
    #[verifier::type_invariant]
    spec fn resolves(self) -> bool {
        self.arena.items().contains_key(self.id)
    }

    /// Checks the node against the schema format: decodes it and keeps
    /// nothing. Fails where the node has no decoding.
    pub fn which(&self) -> (r: Result<(), Error>)
        ensures
            r is Ok <==> self.raw().sound(),
            r matches Err(e) ==> self.raw().fails_with(e),
    {
        proof {
            use_type_invariant(self);
        }
        match self.arena.get(&self.id) {
            Some(raw) => match Node::from_reader(raw) {
                Ok(_) => Ok(()),
                Err(e) => Err(e),
            },
            None => Err(Error::Lookup(self.id)),
        }
    }

    /// The raw node that the tree node stands for.
    pub closed spec fn raw(self) -> RawNode {
        self.arena.items()[self.id]
    }
}

impl NodePy {
    /// The id of the node at the top of the tree.
    pub closed spec fn id(self) -> u64 {
        self.i.id
    }

    /// The trees of the nested nodes, in the order declared.
    pub closed spec fn nested(self) -> Seq<NodePy> {
        self.i.nested@
    }

    /// The arena that the tree was assembled from.
    pub closed spec fn arena_view(self) -> NodeArena {
        *self.i.arena
    }

    /// The raw node at the top of the tree.
    pub open spec fn raw(self) -> RawNode {
        self.arena_view().items()[self.id()]
    }

    /// The tree is that of the node `id` of `arena`: it has one subtree for
    /// each node that `id` nests, in the order declared, and each subtree is
    /// in turn the tree of the node nested there.
    pub open spec fn is_tree_of(self, arena: NodeArena, id: u64) -> bool
        decreases self,
    {
        &&& self.id() == id
        &&& self.arena_view() == arena
        &&& arena.items().contains_key(id)
        &&& self.nested().len() == arena.items()[id].nested_nodes@.len()
        &&& forall|i: int|
            0 <= i < self.nested().len() ==> (#[trigger] self.nested()[i]).is_tree_of(
                arena,
                arena.items()[id].nested_nodes@[i].1,
            )
    }

    /// A tree holds the tree of every node on a chain from its top.
    pub proof fn lemma_subtree(self, arena: NodeArena, c: Seq<u64>, j: int) -> (sub: NodePy)
        requires
            self.is_tree_of(arena, c[0]),
            arena.is_chain(c),
            0 <= j < c.len(),
        ensures
            sub.is_tree_of(arena, c[j]),
        decreases j,
    {
        if j == 0 {
            self
        } else {
            let above = self.lemma_subtree(arena, c, j - 1);
            assert(arena.linked(c, j - 1));
            let place = choose|place: int|
                0 <= place < arena.items()[c[j - 1]].nested_nodes@.len()
                    && (#[trigger] arena.items()[c[j - 1]].nested_nodes@[place]).1 == c[j];
            above.nested()[place]
        }
    }

    /// No chain leads from the top of a tree back to it.
    pub proof fn lemma_no_way_round(self, arena: NodeArena, c: Seq<u64>)
        requires
            self.is_tree_of(arena, c[0]),
            arena.is_chain(c),
            c.len() >= 2,
        ensures
            c.last() != c[0],
        decreases self,
    {
        if c.last() == c[0] {
            assert(arena.linked(c, 0));
            let place = choose|place: int|
                0 <= place < arena.items()[c[0]].nested_nodes@.len()
                    && (#[trigger] arena.items()[c[0]].nested_nodes@[place]).1 == c[1];
            let sub = self.nested()[place];
            let round = c.subrange(1, c.len() as int).push(c[1]);
            assert forall|k: int| 0 <= k < round.len() - 1 implies #[trigger] arena.linked(
                round,
                k,
            ) by {
                if k < c.len() - 2 {
                    assert(arena.linked(c, k + 1));
                }
            }
            sub.lemma_no_way_round(arena, round);
        }
    }

    /// The text of the first `n` subtrees, each after the first set off
    /// by a comma and a space.
    pub open spec fn rendered_nested(self, n: nat) -> Seq<char>
        decreases self, n,
    {
        if n == 0 || n > self.nested().len() {
            Seq::empty()
        } else {
            self.rendered_nested((n - 1) as nat) + (if n > 1 {
                ", "@
            } else {
                Seq::empty()
            }) + self.nested()[n - 1].rendered()
        }
    }

    /// The text of the tree: the short name of its top node, then, in round
    /// brackets, the text of its subtrees.
    pub open spec fn rendered(self) -> Seq<char>
        decreases self, self.nested().len() + 1,
    {
        self.raw().short_name() + "("@ + self.rendered_nested(self.nested().len()) + ")"@
    }

    /// The names under which the node lists the nodes nested in it, in the
    /// order declared.
    pub fn children(&self) -> (names: Vec<String>)
        ensures
            names@.len() == self.raw().nested_nodes@.len(),
            forall|i: int|
                0 <= i < names@.len() ==> (#[trigger] names@[i])@ == self.raw().nested_nodes@[i].0@,
    {
        proof {
            use_type_invariant(&self.i);
        }
        let raw = self.i.arena.get(&self.i.id).unwrap();
        let mut names: Vec<String> = Vec::with_capacity(raw.nested_nodes.len());
        let mut i: usize = 0;
        while i < raw.nested_nodes.len()
            invariant
                i <= raw.nested_nodes@.len(),
                names@.len() == i,
                forall|j: int| 0 <= j < i ==> (#[trigger] names@[j])@ == raw.nested_nodes@[j].0@,
            decreases raw.nested_nodes@.len() - i,
        {
            names.push(raw.nested_nodes[i].0.clone());
            i += 1;
        }
        names
    }

    /// The first nested node that is listed under `name`, if any.
    pub open spec fn first_named(self, name: Seq<char>, i: int) -> bool {
        &&& 0 <= i < self.raw().nested_nodes@.len()
        &&& self.raw().nested_nodes@[i].0@ == name
        &&& forall|j: int| 0 <= j < i ==> (#[trigger] self.raw().nested_nodes@[j]).0@ != name
    }

    /// The nested node that is listed under `name`, as a tree without
    /// subtrees. Where several nodes are listed under the name, the first is
    /// taken. Fails where no node is listed under the name, with the name,
    /// and where the node listed is not in the arena, with its id.
    pub fn getattr(&self, name: &str) -> (r: Result<NodePy, Error>)
        ensures
            match r {
                Ok(child) => {
                    &&& exists|i: int|
                        self.first_named(name@, i) && child.id()
                            == (#[trigger] self.raw().nested_nodes@[i]).1
                    &&& child.arena_view() == self.arena_view()
                    &&& child.nested().len() == 0
                },
                Err(Error::Attribute(s)) => s@ == name@ && forall|i: int|
                    0 <= i < self.raw().nested_nodes@.len() ==> (
                    #[trigger] self.raw().nested_nodes@[i]).0@ != name@,
                Err(Error::Lookup(id)) => !self.arena_view().items().contains_key(id)
                    && exists|i: int|
                    self.first_named(name@, i) && id == (#[trigger] self.raw().nested_nodes@[i]).1,
                Err(_) => false,
            },
    {
        proof {
            use_type_invariant(&self.i);
        }
        let raw = self.i.arena.get(&self.i.id).unwrap();
        let wanted = String::from_str(name);
        let mut i: usize = 0;
        while i < raw.nested_nodes.len()
            invariant
                wanted@ == name@,
                *raw == self.raw(),
                i <= raw.nested_nodes@.len(),
                forall|j: int| 0 <= j < i ==> (#[trigger] raw.nested_nodes@[j]).0@ != name@,
            decreases raw.nested_nodes@.len() - i,
        {
            if raw.nested_nodes[i].0 == wanted {
                let id = raw.nested_nodes[i].1;
                proof {
                    assert(self.first_named(name@, i as int));
                    assert(self.raw().nested_nodes@[i as int].1 == id);
                }
                return match self.i.arena.get(&id) {
                    Some(_) => Ok(
                        NodePy {
                            i: NodeInner { arena: share(&self.i.arena), id, nested: Vec::new() },
                        },
                    ),
                    None => Err(Error::Lookup(id)),
                };
            }
            i += 1;
        }
        Err(Error::Attribute(wanted))
    }

    /// The text of the tree: the short name of its top node, then, in round
    /// brackets, the text of each subtree, set off from the one before it
    /// by a comma and a space.
    pub fn repr(&self) -> (text: String)
        ensures
            text@ == self.rendered(),
        decreases self,
    {
        proof {
            use_type_invariant(&self.i);
        }
        let raw = self.i.arena.get(&self.i.id).unwrap();
        let name = raw.display_name.as_str();
        let len = name.unicode_len();
        let from = if raw.display_name_prefix_length as usize <= len {
            raw.display_name_prefix_length as usize
        } else {
            len
        };
        let mut text = String::from_str(name.substring_char(from, len));
        text.append("(");
        let ghost head = text@;
        let mut i: usize = 0;
        while i < self.i.nested.len()
            invariant
                i <= self.nested().len(),
                self.i.nested@ == self.nested(),
                text@ == head + self.rendered_nested(i as nat),
            decreases self.nested().len() - i,
        {
            if i > 0 {
                text.append(", ");
            }
            let child = self.i.nested[i].repr();
            text.append(child.as_str());
            i += 1;
        }
        text.append(")");
        text
    }

    /// The id of the node at the top of the tree.
    pub fn node_id(&self) -> (id: u64)
        ensures
            id == self.id(),
    {
        self.i.id
    }

    /// The trees of the nested nodes, in the order declared.
    pub fn nested_trees(&self) -> (nested: &Vec<NodePy>)
        ensures
            nested@ == self.nested(),
    {
        &self.i.nested
    }

    /// The tree node itself.
    pub fn inner(&self) -> (inner: &NodeInner)
        ensures
            inner.raw() == self.raw(),
    {
        &self.i
    }
}

/// Whether `id` is among `ids`.
fn holds(ids: &Vec<u64>, id: u64) -> (found: bool)
    ensures
        found == ids@.contains(id),
{
    let mut i: usize = 0;
    while i < ids.len()
        invariant
            i <= ids@.len(),
            forall|j: int| 0 <= j < i ==> ids@[j] != id,
        decreases ids@.len() - i,
    {
        if ids[i] == id {
            return true;
        }
        i += 1;
    }
    false
}

/// A schema that was read: its nodes, shared with the trees made from them.
pub struct Definition {
    arena: Rc<NodeArena>,
}

impl Definition {
    /// The arena of the schema.
    pub closed spec fn arena_view(self) -> NodeArena {
        *self.arena
    }

    /// Takes the nodes of a schema.
    pub fn new(arena: NodeArena) -> (definition: Definition)
        ensures
            definition.arena_view() == arena,
    {
        Definition { arena: Rc::new(arena) }
    }

    /// The arena of the schema.
    pub fn arena(&self) -> (arena: Rc<NodeArena>)
        ensures
            *arena == self.arena_view(),
    {
        share(&self.arena)
    }

    /// The arena behind a shared handle.
    pub open spec fn shared(arena: &Rc<NodeArena>) -> NodeArena {
        **arena
    }

    /// No more distinct nodes can stand in a chain than the arena holds.
    proof fn lemma_chain_is_short(arena: NodeArena, ids: Seq<u64>)
        requires
            ids.no_duplicates(),
            forall|k: int| 0 <= k < ids.len() ==> arena.items().contains_key(#[trigger] ids[k]),
        ensures
            ids.len() <= arena.items().dom().len(),
            arena.items().dom().finite(),
    {
        RawNode::lemma_table(arena.nodes());
        assert(arena.items().dom() =~= RawNode::table(arena.nodes()).dom());
        ids.unique_seq_to_set();
        assert(ids.to_set().subset_of(arena.items().dom())) by {
            assert forall|id: u64| ids.to_set().contains(id) implies arena.items().dom().contains(
                id,
            ) by {
                let k = choose|k: int| 0 <= k < ids.len() && ids[k] == id;
                assert(arena.items().contains_key(ids[k]));
            }
        }
        vstd::set_lib::lemma_len_subset(ids.to_set(), arena.items().dom());
    }

    /// A chain of distinct nodes stays one when a node is added that is in
    /// the arena and not yet in the chain.
    proof fn lemma_longer_chain(arena: NodeArena, above: Seq<u64>, id: u64)
        requires
            above.no_duplicates(),
            !above.contains(id),
            arena.items().contains_key(id),
            forall|k: int| 0 <= k < above.len() ==> arena.items().contains_key(#[trigger] above[k]),
        ensures
            above.push(id).no_duplicates(),
            forall|k: int|
                0 <= k < above.push(id).len() ==> arena.items().contains_key(
                    #[trigger] above.push(id)[k],
                ),
            above.push(id).len() <= arena.items().dom().len(),
    {
        let here = above.push(id);
        assert forall|a: int, b: int|
            0 <= a < here.len() && 0 <= b < here.len() && a != b implies here[a] != here[b] by {
            if a < above.len() && b < above.len() {
                assert(above[a] != above[b]);
            } else if a < above.len() {
                assert(above.contains(above[a]));
            } else {
                assert(above.contains(above[b]));
            }
        }
        assert forall|k: int| 0 <= k < here.len() implies arena.items().contains_key(
            #[trigger] here[k],
        ) by {
            if k < above.len() {
                assert(above[k] == here[k]);
            }
        }
        Self::lemma_chain_is_short(arena, here);
    }

    /// A chain goes on to any node that its last node nests.
    proof fn lemma_next_link(arena: NodeArena, here: Seq<u64>, child: u64)
        requires
            arena.is_chain(here),
            arena.nests(here.last(), child),
        ensures
            arena.is_chain(here.push(child)),
            here.push(child)[0] == here[0],
    {
        let next = here.push(child);
        assert forall|k: int| 0 <= k < next.len() - 1 implies #[trigger] arena.linked(next, k) by {
            if k < here.len() - 1 {
                assert(arena.linked(here, k));
            }
        }
    }

    /// Assembles the tree of the node `id`, reached from the top of a tree
    /// through the nodes `above`.
    fn assemble(arena: &Rc<NodeArena>, id: u64, above: &Vec<u64>) -> (r: Result<NodePy, Error>)
        requires
            arena.is_chain(above@.push(id)),
            above@.no_duplicates(),
            forall|k: int|
                0 <= k < above@.len() ==> arena.items().contains_key(#[trigger] above@[k]),
        ensures
            match r {
                Ok(tree) => tree.is_tree_of(**arena, id),
                Err(e) => exists|c: Seq<u64>|
                    c.len() > 0 && c[0] == above@.push(id)[0] && #[trigger] arena.breaks(c, e),
            },
        decreases arena.items().dom().len() - above@.len(),
    {
        let ghost here = above@.push(id);
        let ghost all = Self::shared(arena);
        if holds(above, id) {
            proof {
                assert(here.drop_last() == above@);
                assert(arena.breaks(here, Error::Cycle(id)));
            }
            return Err(Error::Cycle(id));
        }
        let node = match arena.get(&id) {
            Some(node) => node,
            None => {
                proof {
                    assert(arena.breaks(here, Error::Lookup(id)));
                }
                return Err(Error::Lookup(id));
            },
        };
        let mut chain = above.clone();
        chain.push(id);
        proof {
            assert(chain@ == here);
            Self::lemma_longer_chain(all, above@, id);
        }
        let mut nested: Vec<NodePy> = Vec::with_capacity(node.nested_nodes.len());
        let mut i: usize = 0;
        while i < node.nested_nodes.len()
            invariant
                all == **arena,
                all.items().contains_key(id),
                *node == all.items()[id],
                chain@ == here,
                here == above@.push(id),
                all.is_chain(here),
                here.no_duplicates(),
                forall|k: int| 0 <= k < here.len() ==> all.items().contains_key(#[trigger] here[k]),
                here.len() <= all.items().dom().len(),
                i <= node.nested_nodes@.len(),
                nested@.len() == i,
                forall|j: int|
                    0 <= j < i ==> (#[trigger] nested@[j]).is_tree_of(
                        **arena,
                        node.nested_nodes@[j].1,
                    ),
            decreases node.nested_nodes@.len() - i,
        {
            let child = node.nested_nodes[i].1;
            proof {
                assert(arena.items()[id].nested_nodes@[i as int].1 == child);
                Self::lemma_next_link(all, here, child);
            }
            let tree = Self::assemble(arena, child, &chain)?;
            nested.push(tree);
            i += 1;
        }
        Ok(NodePy { i: NodeInner { arena: share(arena), id, nested } })
    }

    /// The tree of each file of the schema, in the order in which the files
    /// were read. Fails where a file has no tree: where, from the file down,
    /// some node nests an id that the schema does not hold, or a node nests
    /// itself, directly or through others.
    pub fn roots(&self) -> (r: Result<Vec<NodePy>, Error>)
        ensures
            match r {
                Ok(trees) => {
                    &&& trees@.len() == self.arena_view().root_ids().len()
                    &&& forall|k: int|
                        0 <= k < trees@.len() ==> (#[trigger] trees@[k]).is_tree_of(
                            self.arena_view(),
                            self.arena_view().root_ids()[k],
                        )
                },
                Err(e) => exists|c: Seq<u64>|
                    c.len() > 0 && self.arena_view().root_ids().contains(c[0])
                        && #[trigger] self.arena_view().breaks(c, e),
            },
            r is Ok <==> forall|k: int|
                0 <= k < self.arena_view().root_ids().len() ==> self.arena_view().has_tree(
                    #[trigger] self.arena_view().root_ids()[k],
                ),
    {
        let ghost arena = self.arena_view();
        let mut trees: Vec<NodePy> = Vec::new();
        let above: Vec<u64> = Vec::new();
        let mut i: usize = 0;
        while i < self.arena.len()
            invariant
                arena == *self.arena,
                above@.len() == 0,
                i <= arena.nodes().len(),
                trees@.len() == arena.roots_upto(i as nat).len(),
                forall|k: int|
                    0 <= k < trees@.len() ==> (#[trigger] trees@[k]).is_tree_of(
                        arena,
                        arena.roots_upto(i as nat)[k],
                    ),
                forall|k: int|
                    0 <= k < arena.roots_upto(i as nat).len() ==> arena.root_ids().contains(
                        #[trigger] arena.roots_upto(i as nat)[k],
                    ),
            decreases arena.nodes().len() - i,
        {
            proof {
                Self::lemma_roots_grow(arena, (i + 1) as nat);
            }
            if self.arena.root_at(i) {
                let id = self.arena.node_at(i).id;
                proof {
                    assert(above@.push(id).len() == 1);
                    assert(above@.push(id)[0] == id);
                    let all = arena.roots_upto((i + 1) as nat);
                    assert(all == arena.roots_upto(i as nat).push(id));
                    assert(all[all.len() - 1] == id);
                    assert(arena.root_ids().contains(id));
                }
                match Self::assemble(&self.arena, id, &above) {
                    Ok(tree) => {
                        trees.push(tree);
                    },
                    Err(e) => {
                        proof {
                            let c = choose|c: Seq<u64>|
                                c.len() > 0 && c[0] == id && #[trigger] arena.breaks(c, e);
                            assert(arena.root_ids().contains(c[0]));
                            assert(self.arena_view().breaks(c, e));
                            arena.lemma_broken_chain_has_no_tree(c, e);
                            let k = choose|k: int|
                                0 <= k < arena.root_ids().len() && arena.root_ids()[k] == id;
                            assert(!arena.has_tree(arena.root_ids()[k]));
                        }
                        return Err(e);
                    },
                }
            }
            i += 1;
        }
        proof {
            assert forall|k: int| 0 <= k < arena.root_ids().len() implies arena.has_tree(
                #[trigger] arena.root_ids()[k],
            ) by {
                assert(trees@[k].is_tree_of(arena, arena.root_ids()[k]));
            }
        }
        Ok(trees)
    }

    /// The files among the first `n` nodes are among the files of the schema.
    proof fn lemma_roots_grow(arena: NodeArena, n: nat)
        requires
            n <= arena.nodes().len(),
        ensures
            forall|k: int|
                0 <= k < arena.roots_upto(n).len() ==> arena.root_ids().contains(
                    #[trigger] arena.roots_upto(n)[k],
                ),
        decreases arena.nodes().len() - n,
    {
        if n < arena.nodes().len() {
            Self::lemma_roots_grow(arena, n + 1);
            let more = arena.roots_upto(n + 1);
            assert forall|k: int| 0 <= k < arena.roots_upto(n).len() implies arena.root_ids().contains(
                #[trigger] arena.roots_upto(n)[k],
            ) by {
                assert(more[k] == arena.roots_upto(n)[k]);
            }
        } else {
            assert forall|k: int| 0 <= k < arena.roots_upto(n).len() implies arena.root_ids().contains(
                #[trigger] arena.roots_upto(n)[k],
            ) by {
                assert(arena.root_ids()[k] == arena.roots_upto(n)[k]);
            }
        }
    }
}

} // verus!
