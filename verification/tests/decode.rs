use capnp_dynamic::arena::Arena as ArenaLookup;
use capnp_dynamic::objs::{
    Annotations, AnyPointerType, AnyPointerValue, Arena, Brand, BrandBinding, BrandScopeKind,
    ElementSize, Enumerant, Field, FieldKind, NestedNodes, Node, NodeKind, Parameters, Type, Value,
};
use capnp_dynamic::raw::{
    RawAnnotation, RawBrand, RawBrandBinding, RawBrandScope, RawBrandScopeKind, RawEnumerant,
    RawField, RawFieldKind, RawMethod, RawNode, RawNodeKind, RawSuperclass, RawType,
    NO_DISCRIMINANT,
};
use capnp_dynamic::Error;

fn no_brand() -> RawBrand {
    RawBrand { scopes: Vec::new() }
}

fn slot(name: &str, discriminant_value: u16, offset: u32, type_: RawType) -> RawField {
    RawField {
        name: name.to_string(),
        code_order: 0,
        annotations: Vec::new(),
        discriminant_value,
        kind: RawFieldKind::Slot {
            offset,
            type_,
            default_value: Ok(Value::Void),
            had_explicit_default: false,
        },
    }
}

fn node(id: u64, kind: RawNodeKind) -> RawNode {
    RawNode {
        id,
        display_name: "n".to_string(),
        display_name_prefix_length: 0,
        scope_id: 0,
        parameters: Vec::new(),
        is_generic: false,
        nested_nodes: Vec::new(),
        annotations: Vec::new(),
        kind,
    }
}

fn enumerant(name: &str, code_order: u16) -> RawEnumerant {
    RawEnumerant { name: name.to_string(), code_order, annotations: Vec::new() }
}

fn struct_kind(fields: Vec<RawField>) -> RawNodeKind {
    RawNodeKind::Struct {
        data_word_count: 2,
        pointer_count: 3,
        preferred_list_encoding: Ok(ElementSize::InlineComposite),
        is_group: false,
        discriminant_count: 0,
        discriminant_offset: 0,
        fields,
    }
}

#[test]
fn parameters_keep_names_and_order() {
    let names = vec!["T".to_string(), "U".to_string()];
    let p = Parameters::from_reader(&names).ok().unwrap();
    assert_eq!(p.0.len(), 2);
    assert_eq!(p.0[0].name, "T");
    assert_eq!(p[1].name, "U");
}

#[test]
fn nested_nodes_keep_names_ids_and_order() {
    let read = vec![("B".to_string(), 7u64), ("A".to_string(), 3u64)];
    let n = NestedNodes::from_reader(&read).ok().unwrap();
    assert_eq!(n.len(), 2);
    assert_eq!(n[0], ("B".to_string(), 7u64));
    assert_eq!(n.0[1], ("A".to_string(), 3u64));
}

#[test]
fn primitive_types_decode_to_themselves() {
    assert!(matches!(Type::from_reader(&RawType::Void), Ok(Type::Void)));
    assert!(matches!(Type::from_reader(&RawType::Bool), Ok(Type::Bool)));
    assert!(matches!(Type::from_reader(&RawType::Uint32), Ok(Type::Uint32)));
    assert!(matches!(Type::from_reader(&RawType::Int64), Ok(Type::Int64)));
    assert!(matches!(Type::from_reader(&RawType::Float64), Ok(Type::Float64)));
    assert!(matches!(Type::from_reader(&RawType::Text), Ok(Type::Text)));
    assert!(matches!(Type::from_reader(&RawType::Data), Ok(Type::Data)));
}

#[test]
fn list_of_struct_decodes_recursively() {
    let raw = RawType::List {
        element: Box::new(RawType::Struct { type_id: 42, brand: no_brand() }),
    };
    match Type::from_reader(&raw) {
        Ok(Type::List { element }) => match *element {
            Type::Struct { id, brand } => {
                assert_eq!(id, 42);
                assert_eq!(brand.scopes.len(), 0);
            },
            other => panic!("{:?}", other),
        },
        other => panic!("{:?}", other),
    }
}

#[test]
fn any_pointer_kinds_decode() {
    let raw = RawType::AnyPointer(Ok(AnyPointerType::Parameter { scope_id: 9, index: 2 }));
    match Type::from_reader(&raw) {
        Ok(Type::AnyPointer(kind)) => {
            assert_eq!(kind, AnyPointerType::Parameter { scope_id: 9, index: 2 })
        },
        other => panic!("{:?}", other),
    }
    let raw = RawType::AnyPointer(Ok(AnyPointerType::ImplicitMethodParamater { index: 1 }));
    assert!(matches!(
        Type::from_reader(&raw),
        Ok(Type::AnyPointer(AnyPointerType::ImplicitMethodParamater { index: 1 }))
    ));
}

#[test]
fn unknown_type_tag_is_reported_with_the_tag() {
    assert!(matches!(Type::from_reader(&RawType::Unknown(77)), Err(Error::NotInSchema(77))));
    assert!(matches!(
        Type::from_reader(&RawType::AnyPointer(Err(5))),
        Err(Error::NotInSchema(5))
    ));
}

#[test]
fn unknown_tag_deep_inside_a_type_is_reported() {
    let brand = RawBrand {
        scopes: vec![
            RawBrandScope { scope_id: 1, kind: RawBrandScopeKind::Inherit },
            RawBrandScope {
                scope_id: 2,
                kind: RawBrandScopeKind::Bind(vec![
                    RawBrandBinding::Unbound,
                    RawBrandBinding::Type(RawType::List {
                        element: Box::new(RawType::Unknown(300)),
                    }),
                ]),
            },
        ],
    };
    let raw = RawType::Interface { type_id: 1, brand };
    assert!(matches!(Type::from_reader(&raw), Err(Error::NotInSchema(300))));
}

#[test]
fn brand_keeps_scopes_and_bindings_in_order() {
    let raw = RawBrand {
        scopes: vec![
            RawBrandScope {
                scope_id: 10,
                kind: RawBrandScopeKind::Bind(vec![
                    RawBrandBinding::Type(RawType::Text),
                    RawBrandBinding::Unbound,
                ]),
            },
            RawBrandScope { scope_id: 11, kind: RawBrandScopeKind::Inherit },
        ],
    };
    let brand = Brand::from_reader(&raw).ok().unwrap();
    assert_eq!(brand.scopes.len(), 2);
    assert_eq!(brand.scopes[0].scope_id, 10);
    match &brand.scopes[0].kind {
        BrandScopeKind::Bind(bound) => {
            assert_eq!(bound.len(), 2);
            assert!(matches!(bound[0], BrandBinding::Type(Type::Text)));
            assert!(matches!(bound[1], BrandBinding::Unbound));
        },
        other => panic!("{:?}", other),
    }
    assert_eq!(brand.scopes[1].scope_id, 11);
    assert!(matches!(brand.scopes[1].kind, BrandScopeKind::Inherit));
}

#[test]
fn unknown_scope_and_binding_tags_are_reported() {
    let raw = RawBrand {
        scopes: vec![RawBrandScope { scope_id: 1, kind: RawBrandScopeKind::Unknown(8) }],
    };
    assert!(matches!(Brand::from_reader(&raw), Err(Error::NotInSchema(8))));
    let raw = RawBrand {
        scopes: vec![RawBrandScope {
            scope_id: 1,
            kind: RawBrandScopeKind::Bind(vec![RawBrandBinding::Unknown(9)]),
        }],
    };
    assert!(matches!(Brand::from_reader(&raw), Err(Error::NotInSchema(9))));
}

#[test]
fn values_keep_their_data() {
    assert!(matches!(Value::from_reader(&Ok(Value::Int16(-3))), Ok(Value::Int16(-3))));
    assert!(matches!(Value::from_reader(&Ok(Value::Bool(true))), Ok(Value::Bool(true))));
    assert!(matches!(
        Value::from_reader(&Ok(Value::Float32(0x3fc0_0000))),
        Ok(Value::Float32(0x3fc0_0000))
    ));
    assert!(matches!(
        Value::from_reader(&Ok(Value::Float64(1.5f64.to_bits()))),
        Ok(Value::Float64(0x3ff8_0000_0000_0000))
    ));
    match Value::from_reader(&Ok(Value::Text(b"abc".to_vec()))) {
        Ok(Value::Text(bytes)) => assert_eq!(bytes, b"abc".to_vec()),
        other => panic!("{:?}", other),
    }
    match Value::from_reader(&Ok(Value::Data(vec![0, 255]))) {
        Ok(Value::Data(bytes)) => assert_eq!(bytes, vec![0, 255]),
        other => panic!("{:?}", other),
    }
    assert!(matches!(
        Value::from_reader(&Ok(Value::Struct(AnyPointerValue::Struct()))),
        Ok(Value::Struct(AnyPointerValue::Struct()))
    ));
    assert!(matches!(Value::from_reader(&Err(19)), Err(Error::NotInSchema(19))));
}

#[test]
fn annotations_decode_in_order() {
    let raw = vec![
        RawAnnotation { id: 5, brand: no_brand(), value: Ok(Value::Uint8(1)) },
        RawAnnotation { id: 6, brand: no_brand(), value: Ok(Value::Void) },
    ];
    let a = Annotations::from_reader(&raw).ok().unwrap();
    assert_eq!(a.0.len(), 2);
    assert_eq!(a.0[0].id, 5);
    assert!(matches!(a.0[0].value, Value::Uint8(1)));
    assert_eq!(a.0[1].id, 6);
    let bad = vec![RawAnnotation { id: 5, brand: no_brand(), value: Err(40) }];
    assert!(matches!(Annotations::from_reader(&bad), Err(Error::NotInSchema(40))));
}

#[test]
fn field_decodes_slot_and_group() {
    let f = Field::from_reader(&slot("x", NO_DISCRIMINANT, 4, RawType::Uint16)).ok().unwrap();
    assert_eq!(f.name, "x");
    match f.kind {
        FieldKind::Slot { offset, type_, default_value, had_explicit_default } => {
            assert_eq!(offset, 4);
            assert!(matches!(type_, Type::Uint16));
            assert!(matches!(default_value, Value::Void));
            assert!(!had_explicit_default);
        },
        other => panic!("{:?}", other),
    }
    let group = RawField {
        name: "g".to_string(),
        code_order: 3,
        annotations: Vec::new(),
        discriminant_value: NO_DISCRIMINANT,
        kind: RawFieldKind::Group { type_id: 99 },
    };
    let f = Field::from_reader(&group).ok().unwrap();
    assert_eq!(f.code_order, 3);
    assert!(matches!(f.kind, FieldKind::Group { type_id: 99 }));
    let unknown = RawField {
        name: "u".to_string(),
        code_order: 0,
        annotations: Vec::new(),
        discriminant_value: NO_DISCRIMINANT,
        kind: RawFieldKind::Unknown(2),
    };
    assert!(matches!(Field::from_reader(&unknown), Err(Error::NotInSchema(2))));
}

#[test]
fn struct_fields_are_parted_by_discriminant() {
    let raw = node(
        1,
        struct_kind(vec![
            slot("a", NO_DISCRIMINANT, 0, RawType::Uint8),
            slot("u0", 0, 1, RawType::Bool),
            slot("b", NO_DISCRIMINANT, 2, RawType::Text),
            slot("u1", 1, 3, RawType::Void),
        ]),
    );
    let n = Node::from_reader(&raw).ok().unwrap();
    match n.kind {
        NodeKind::Struct { size, preferred_list_encoding, is_group, fields, which } => {
            assert_eq!(size.data, 2);
            assert_eq!(size.pointers, 3);
            assert_eq!(preferred_list_encoding, ElementSize::InlineComposite);
            assert!(!is_group);
            assert_eq!(fields.len(), 2);
            assert_eq!(fields[0].name, "a");
            assert_eq!(fields[1].name, "b");
            let union = which.unwrap();
            assert_eq!(union.items.len(), 2);
            assert_eq!(union.items[0].field.name, "u0");
            assert_eq!(union.items[0].enumerant.ordinal, 0);
            assert_eq!(union.items[0].enumerant.name, "u0");
            assert_eq!(union.items[1].field.name, "u1");
            assert_eq!(union.items[1].enumerant.ordinal, 1);
        },
        other => panic!("{:?}", other),
    }
}

#[test]
fn struct_without_union_has_none() {
    let raw = node(1, struct_kind(vec![slot("a", NO_DISCRIMINANT, 0, RawType::Uint8)]));
    match Node::from_reader(&raw).ok().unwrap().kind {
        NodeKind::Struct { fields, which, .. } => {
            assert_eq!(fields.len(), 1);
            assert!(which.is_none());
        },
        other => panic!("{:?}", other),
    }
}

#[test]
fn enum_node_numbers_its_enumerants() {
    let raw = node(
        3,
        RawNodeKind::Enum { enumerants: vec![enumerant("red", 1), enumerant("green", 0)] },
    );
    match Node::from_reader(&raw).ok().unwrap().kind {
        NodeKind::Enum { items } => {
            assert_eq!(items.len(), 2);
            assert_eq!(items[0].ordinal, 0);
            assert_eq!(items[0].name, "red");
            assert_eq!(items[0].code_order, 1);
            assert_eq!(items[1].ordinal, 1);
            assert_eq!(items[1].name, "green");
        },
        other => panic!("{:?}", other),
    }
}

#[test]
fn interface_const_and_annotation_nodes_decode() {
    let method = RawMethod {
        name: "call".to_string(),
        code_order: 0,
        implicit_parameters: vec!["T".to_string()],
        param_struct_type: 11,
        param_brand: no_brand(),
        result_struct_type: 12,
        result_brand: no_brand(),
        annotations: Vec::new(),
    };
    let raw = node(
        4,
        RawNodeKind::Interface {
            methods: vec![method],
            superclasses: vec![RawSuperclass { id: 20, brand: no_brand() }],
        },
    );
    match Node::from_reader(&raw).ok().unwrap().kind {
        NodeKind::Interface { methods, superclasses } => {
            assert_eq!(methods.len(), 1);
            assert_eq!(methods[0].name, "call");
            assert_eq!(methods[0].implicit_parameters.0[0].name, "T");
            assert_eq!(methods[0].param_type, 11);
            assert_eq!(methods[0].result_type, 12);
            assert_eq!(superclasses.len(), 1);
            assert_eq!(superclasses[0].id, 20);
        },
        other => panic!("{:?}", other),
    }
    let raw = node(5, RawNodeKind::Const { type_: RawType::Uint32, value: Ok(Value::Uint32(7)) });
    assert!(matches!(
        Node::from_reader(&raw).ok().unwrap().kind,
        NodeKind::Const { type_: Type::Uint32, value: Value::Uint32(7) }
    ));
    let raw = node(6, RawNodeKind::Annotation { type_: RawType::Text });
    assert!(matches!(
        Node::from_reader(&raw).ok().unwrap().kind,
        NodeKind::Annotation { type_: Type::Text }
    ));
    assert!(matches!(
        Node::from_reader(&node(7, RawNodeKind::File)).ok().unwrap().kind,
        NodeKind::File
    ));
}

#[test]
fn unknown_node_kind_and_list_encoding_are_reported() {
    assert!(matches!(
        Node::from_reader(&node(1, RawNodeKind::Unknown(6))),
        Err(Error::NotInSchema(6))
    ));
    let raw = node(
        1,
        RawNodeKind::Struct {
            data_word_count: 0,
            pointer_count: 0,
            preferred_list_encoding: Err(8),
            is_group: false,
            discriminant_count: 0,
            discriminant_offset: 0,
            fields: Vec::new(),
        },
    );
    assert!(matches!(Node::from_reader(&raw), Err(Error::NotInSchema(8))));
}

#[test]
fn node_keeps_its_own_data() {
    let mut raw = node(9, RawNodeKind::File);
    raw.scope_id = 4;
    raw.is_generic = true;
    raw.parameters = vec!["P".to_string()];
    raw.nested_nodes = vec![("Inner".to_string(), 10)];
    let n = Node::from_reader(&raw).ok().unwrap();
    assert_eq!(n.id, 9);
    assert_eq!(n.scope_id, 4);
    assert!(n.is_generic);
    assert_eq!(n.parameters.0[0].name, "P");
    assert_eq!(n.nested.0[0], ("Inner".to_string(), 10));
}

#[test]
fn decoded_arena_holds_exactly_the_ids_read() {
    let request = vec![
        node(1, RawNodeKind::File),
        node(2, struct_kind(Vec::new())),
        node(3, RawNodeKind::Enum { enumerants: Vec::new() }),
    ];
    let arena = Arena::from_reader(&request).ok().unwrap();
    for id in [1u64, 2, 3] {
        let found = arena.get(&id);
        assert!(found.is_some());
        assert_eq!(found.unwrap().id, id);
    }
    for id in [0u64, 4, 100] {
        assert!(arena.get(&id).is_none());
    }
}

#[test]
fn later_node_of_one_id_wins() {
    let request = vec![node(1, RawNodeKind::File), node(1, struct_kind(Vec::new()))];
    let arena = Arena::from_reader(&request).ok().unwrap();
    assert!(matches!(arena.get(&1).unwrap().kind, NodeKind::Struct { .. }));
}

#[test]
fn one_bad_node_fails_the_whole_decoding() {
    let request = vec![node(1, RawNodeKind::File), node(2, RawNodeKind::Unknown(31))];
    assert!(matches!(Arena::from_reader(&request), Err(Error::NotInSchema(31))));
}

#[test]
fn display_order_is_by_code_order() {
    let raw = vec![enumerant("c", 2), enumerant("a", 0), enumerant("b", 1)];
    let mut items: Vec<Enumerant> = Vec::new();
    for (i, e) in raw.iter().enumerate() {
        items.push(Enumerant::from_reader(e, i as u32).ok().unwrap());
    }
    let shown = Enumerant::display_order(&items);
    assert_eq!(
        shown,
        vec![(1usize, "a".to_string()), (2usize, "b".to_string()), (0usize, "c".to_string())]
    );
    assert_eq!(items[0].name, "c");
    assert_eq!(items[1].name, "a");
    assert_eq!(items[2].name, "b");
}

#[test]
fn display_order_keeps_ties_in_declared_order() {
    let raw = vec![enumerant("x", 1), enumerant("y", 0), enumerant("z", 1), enumerant("w", 0)];
    let mut items: Vec<Enumerant> = Vec::new();
    for (i, e) in raw.iter().enumerate() {
        items.push(Enumerant::from_reader(e, i as u32).ok().unwrap());
    }
    let shown = Enumerant::display_order(&items);
    let places: Vec<usize> = shown.iter().map(|s| s.0).collect();
    assert_eq!(places, vec![1, 3, 0, 2]);
    assert_eq!(Enumerant::display_order(&Vec::new()).len(), 0);
}
