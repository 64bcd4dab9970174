use capnp_dynamic::arena::{Arena, ArenaRc, ArenaRef};
use capnp_dynamic::objs::ElementSize;
use capnp_dynamic::raw::{RawNode, RawNodeKind};
use capnp_dynamic::schema::{Definition, NodeArena, NodePy};
use capnp_dynamic::Error;

fn node(id: u64, name: &str, prefix: u32, nested: Vec<(&str, u64)>, kind: RawNodeKind) -> RawNode {
    RawNode {
        id,
        display_name: name.to_string(),
        display_name_prefix_length: prefix,
        scope_id: 0,
        parameters: Vec::new(),
        is_generic: false,
        nested_nodes: nested.into_iter().map(|(n, i)| (n.to_string(), i)).collect(),
        annotations: Vec::new(),
        kind,
    }
}

fn empty_struct() -> RawNodeKind {
    RawNodeKind::Struct {
        data_word_count: 0,
        pointer_count: 0,
        preferred_list_encoding: Ok(ElementSize::Empty),
        is_group: false,
        discriminant_count: 0,
        discriminant_offset: 0,
        fields: Vec::new(),
    }
}

fn sample() -> Vec<RawNode> {
    vec![
        node(1, "a.capnp", 0, vec![("Outer", 2), ("Color", 5)], RawNodeKind::File),
        node(2, "a.capnp:Outer", 8, vec![("Inner", 3), ("Other", 4)], empty_struct()),
        node(3, "a.capnp:Outer.Inner", 14, vec![], empty_struct()),
        node(4, "a.capnp:Outer.Other", 14, vec![], empty_struct()),
        node(5, "a.capnp:Color", 8, vec![], RawNodeKind::Enum { enumerants: Vec::new() }),
        node(6, "b.capnp", 0, vec![], RawNodeKind::File),
    ]
}

fn check_tree(arena: &NodeArena, tree: &NodePy) {
    let raw = arena.get(&tree.node_id()).unwrap();
    assert_eq!(tree.nested_trees().len(), raw.nested_nodes.len());
    let names = tree.children();
    assert_eq!(names.len(), raw.nested_nodes.len());
    for (i, child) in tree.nested_trees().iter().enumerate() {
        assert_eq!(child.node_id(), raw.nested_nodes[i].1);
        assert_eq!(names[i], raw.nested_nodes[i].0);
        check_tree(arena, child);
    }
}

#[test]
fn arena_finds_exactly_the_ids_read() {
    let arena = NodeArena::new(sample());
    assert_eq!(arena.len(), 6);
    for id in 1u64..=6 {
        assert_eq!(arena.get(&id).unwrap().id, id);
    }
    assert!(arena.get(&0).is_none());
    assert!(arena.get(&7).is_none());
    assert_eq!(arena.node_at(1).display_name, "a.capnp:Outer");
}

#[test]
fn arena_of_nothing_finds_nothing() {
    let arena = NodeArena::new(Vec::new());
    assert_eq!(arena.len(), 0);
    assert!(arena.get(&1).is_none());
    assert_eq!(Definition::new(arena).roots().ok().unwrap().len(), 0);
}

#[test]
fn later_raw_node_of_one_id_is_found() {
    let arena = NodeArena::new(vec![
        node(1, "first", 0, vec![], RawNodeKind::File),
        node(1, "second", 0, vec![], empty_struct()),
    ]);
    assert_eq!(arena.get(&1).unwrap().display_name, "second");
    // the file was replaced by a struct: no root is left
    assert_eq!(Definition::new(arena).roots().ok().unwrap().len(), 0);
}

#[test]
fn shared_arena_hands_out_checked_references() {
    let rc: ArenaRc<NodeArena> = ArenaRc::from(NodeArena::new(sample()));
    assert!(rc.get_ref(&99).is_none());
    let r: ArenaRef<NodeArena> = rc.get_ref(&3).unwrap();
    assert_eq!(r.id(), 3);
    assert_eq!(r.display_name, "a.capnp:Outer.Inner");
    assert_eq!(r.get().unwrap().id, 3);
    let again = r.clone();
    assert_eq!(again.id(), 3);
    assert_eq!(again.display_name, "a.capnp:Outer.Inner");
    let other = again.arena().get_ref(&5).unwrap();
    assert_eq!(other.display_name, "a.capnp:Color");
    assert_eq!(rc.len(), 6);
}

#[test]
fn one_tree_for_each_file_in_the_order_read() {
    let definition = Definition::new(NodeArena::new(sample()));
    let trees = definition.roots().ok().unwrap();
    assert_eq!(trees.len(), 2);
    assert_eq!(trees[0].node_id(), 1);
    assert_eq!(trees[1].node_id(), 6);
    let arena = definition.arena();
    for tree in trees.iter() {
        check_tree(&arena, tree);
    }
    assert_eq!(trees[0].children(), vec!["Outer".to_string(), "Color".to_string()]);
    let outer = &trees[0].nested_trees()[0];
    assert_eq!(outer.node_id(), 2);
    assert_eq!(outer.children(), vec!["Inner".to_string(), "Other".to_string()]);
    assert_eq!(outer.nested_trees()[1].node_id(), 4);
    assert_eq!(trees[1].children().len(), 0);
}

#[test]
fn shared_child_is_built_under_each_parent() {
    let definition = Definition::new(NodeArena::new(vec![
        node(1, "f", 0, vec![("A", 2), ("B", 3)], RawNodeKind::File),
        node(2, "f:A", 2, vec![("S", 4)], empty_struct()),
        node(3, "f:B", 2, vec![("S", 4)], empty_struct()),
        node(4, "f:S", 2, vec![], empty_struct()),
    ]));
    let trees = definition.roots().ok().unwrap();
    assert_eq!(trees[0].repr(), "f(A(S()), B(S()))");
}

#[test]
fn cycle_is_rejected() {
    let definition = Definition::new(NodeArena::new(vec![
        node(1, "f", 0, vec![("A", 2)], RawNodeKind::File),
        node(2, "f:A", 2, vec![("B", 3)], empty_struct()),
        node(3, "f:A.B", 4, vec![("A", 2)], empty_struct()),
    ]));
    assert!(matches!(definition.roots(), Err(Error::Cycle(2))));
}

#[test]
fn node_that_nests_itself_is_rejected() {
    let definition = Definition::new(NodeArena::new(vec![node(
        1,
        "f",
        0,
        vec![("f", 1)],
        RawNodeKind::File,
    )]));
    assert!(matches!(definition.roots(), Err(Error::Cycle(1))));
}

#[test]
fn cycle_outside_the_files_does_no_harm() {
    let definition = Definition::new(NodeArena::new(vec![
        node(1, "f", 0, vec![], RawNodeKind::File),
        node(2, "x", 0, vec![("y", 3)], empty_struct()),
        node(3, "y", 0, vec![("x", 2)], empty_struct()),
    ]));
    assert_eq!(definition.roots().ok().unwrap().len(), 1);
}

#[test]
fn missing_nested_node_is_reported() {
    let definition = Definition::new(NodeArena::new(vec![
        node(1, "f", 0, vec![("A", 2)], RawNodeKind::File),
        node(2, "f:A", 2, vec![("Gone", 44)], empty_struct()),
    ]));
    assert!(matches!(definition.roots(), Err(Error::Lookup(44))));
}

#[test]
fn child_is_found_by_name() {
    let definition = Definition::new(NodeArena::new(sample()));
    let trees = definition.roots().ok().unwrap();
    let color = trees[0].getattr("Color").ok().unwrap();
    assert_eq!(color.node_id(), 5);
    assert_eq!(color.nested_trees().len(), 0);
    let outer = trees[0].getattr("Outer").ok().unwrap();
    assert_eq!(outer.node_id(), 2);
    assert_eq!(outer.children(), vec!["Inner".to_string(), "Other".to_string()]);
    let inner = outer.getattr("Inner").ok().unwrap();
    assert_eq!(inner.node_id(), 3);
}

#[test]
fn unknown_child_name_is_reported_with_the_name() {
    let definition = Definition::new(NodeArena::new(sample()));
    let trees = definition.roots().ok().unwrap();
    match trees[0].getattr("Nope") {
        Err(Error::Attribute(name)) => assert_eq!(name, "Nope"),
        _ => panic!("no attribute error"),
    }
    // one failed lookup leaves the tree usable
    assert_eq!(trees[0].getattr("Outer").ok().unwrap().node_id(), 2);
}

#[test]
fn first_child_of_a_name_is_taken() {
    let definition = Definition::new(NodeArena::new(vec![
        node(1, "f", 0, vec![("X", 2), ("X", 3)], RawNodeKind::File),
        node(2, "f:X", 2, vec![], empty_struct()),
        node(3, "f:X", 2, vec![], empty_struct()),
    ]));
    let trees = definition.roots().ok().unwrap();
    assert_eq!(trees[0].getattr("X").ok().unwrap().node_id(), 2);
}

#[test]
fn child_that_is_not_in_the_arena_is_reported() {
    let rc: ArenaRc<NodeArena> = ArenaRc::from(NodeArena::new(vec![
        node(1, "f", 0, vec![], RawNodeKind::File),
        node(2, "g", 0, vec![("Gone", 9)], RawNodeKind::File),
    ]));
    // assemble only the file that is whole, then look a child up in the other
    let definition = Definition::new(NodeArena::new(vec![node(
        2,
        "g",
        0,
        vec![],
        RawNodeKind::File,
    )]));
    let trees = definition.roots().ok().unwrap();
    assert!(matches!(trees[0].getattr("Gone"), Err(Error::Attribute(_))));
    assert!(rc.get_ref(&9).is_none());
}

#[test]
fn display_is_name_and_children_in_brackets() {
    let definition = Definition::new(NodeArena::new(sample()));
    let trees = definition.roots().ok().unwrap();
    assert_eq!(trees[0].repr(), "a.capnp(Outer(Inner(), Other()), Color())");
    assert_eq!(trees[1].repr(), "b.capnp()");
}

#[test]
fn display_cuts_the_prefix_by_characters() {
    let definition = Definition::new(NodeArena::new(vec![
        node(1, "\u{e9}t\u{e9}:x", 4, vec![("long", 2), ("exact", 3)], RawNodeKind::File),
        node(2, "ab", 5, vec![], empty_struct()),
        node(3, "abc", 3, vec![], empty_struct()),
    ]));
    let trees = definition.roots().ok().unwrap();
    // a prefix longer than the name leaves nothing of it
    assert_eq!(trees[0].repr(), "x((), ())");
}

#[test]
fn end_to_end_file_with_one_struct() {
    let definition = Definition::new(NodeArena::new(vec![
        node(10, "File", 0, vec![("MyStruct", 11)], RawNodeKind::File),
        node(11, "File:MyStruct", 5, vec![], empty_struct()),
    ]));
    let trees = definition.roots().ok().unwrap();
    assert_eq!(trees.len(), 1);
    assert_eq!(trees[0].children(), vec!["MyStruct".to_string()]);
    assert_eq!(trees[0].repr(), "File(MyStruct())");
}

#[test]
fn which_accepts_what_decodes_and_rejects_the_rest() {
    let definition = Definition::new(NodeArena::new(vec![
        node(1, "f", 0, vec![("Good", 2), ("Bad", 3)], RawNodeKind::File),
        node(2, "f:Good", 2, vec![], empty_struct()),
        node(3, "f:Bad", 2, vec![], RawNodeKind::Unknown(12)),
    ]));
    let trees = definition.roots().ok().unwrap();
    assert!(trees[0].inner().which().is_ok());
    assert!(trees[0].nested_trees()[0].inner().which().is_ok());
    assert!(matches!(
        trees[0].nested_trees()[1].inner().which(),
        Err(Error::NotInSchema(12))
    ));
}
