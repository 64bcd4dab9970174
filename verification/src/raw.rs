//! The schema as it is read off the wire.
//!
//! A raw value holds what one reader of a code-generator request gives out,
//! copied into plain values. Where the wire holds the discriminant of a
//! union or of an enumeration, a raw value holds either the member that the
//! discriminant selects or, where the discriminant is not one that the
//! schema format defines, the discriminant itself.

use crate::objs::{AnyPointerType, ElementSize, Value};
use vstd::prelude::*;

verus! {

/// A type, as read.
#[derive(Debug)]
pub enum RawType {
    Void,
    Bool,
    Int8,
    Int16,
    Int32,
    Int64,
    Uint8,
    Uint16,
    Uint32,
    Uint64,
    Float32,
    Float64,
    Text,
    Data,
    List { element: Box<RawType> },
    Enum { type_id: u64, brand: RawBrand },
    Struct { type_id: u64, brand: RawBrand },
    Interface { type_id: u64, brand: RawBrand },
    AnyPointer(Result<AnyPointerType, u16>),
    Unknown(u16),
}

/// What one parameter of a generic scope is bound to, as read.
#[derive(Debug)]
pub enum RawBrandBinding {
    Unbound,
    Type(RawType),
    Unknown(u16),
}

/// How the parameters of one scope are bound, as read.
#[derive(Debug)]
pub enum RawBrandScopeKind {
    Bind(Vec<RawBrandBinding>),
    Inherit,
    Unknown(u16),
}

/// The bindings of one generic scope, as read.
#[derive(Debug)]
pub struct RawBrandScope {
    pub scope_id: u64,
    pub kind: RawBrandScopeKind,
}

/// The bindings of a use of a generic type, as read.
#[derive(Debug)]
pub struct RawBrand {
    pub scopes: Vec<RawBrandScope>,
}

/// An annotation applied to a declaration, as read.
#[derive(Debug)]
pub struct RawAnnotation {
    pub id: u64,
    pub brand: RawBrand,
    pub value: Result<Value, u16>,
}

/// What a field of a struct is, as read.
#[derive(Debug)]
pub enum RawFieldKind {
    Slot { offset: u32, type_: RawType, default_value: Result<Value, u16>, had_explicit_default: bool },
    Group { type_id: u64 },
    Unknown(u16),
}

/// A field of a struct, as read. A field outside the struct's union has the
/// discriminant value [`NO_DISCRIMINANT`].
#[derive(Debug)]
pub struct RawField {
    pub name: String,
    pub code_order: u16,
    pub annotations: Vec<RawAnnotation>,
    pub discriminant_value: u16,
    pub kind: RawFieldKind,
}

/// A value of an enumeration, as read.
#[derive(Debug)]
pub struct RawEnumerant {
    pub name: String,
    pub code_order: u16,
    pub annotations: Vec<RawAnnotation>,
}

/// A method of an interface, as read.
#[derive(Debug)]
pub struct RawMethod {
    pub name: String,
    pub code_order: u16,
    pub implicit_parameters: Vec<String>,
    pub param_struct_type: u64,
    pub param_brand: RawBrand,
    pub result_struct_type: u64,
    pub result_brand: RawBrand,
    pub annotations: Vec<RawAnnotation>,
}

/// An interface that another one extends, as read.
#[derive(Debug)]
pub struct RawSuperclass {
    pub id: u64,
    pub brand: RawBrand,
}

/// What a node declares, as read.
#[derive(Debug)]
pub enum RawNodeKind {
    File,
    Struct {
        data_word_count: u16,
        pointer_count: u16,
        preferred_list_encoding: Result<ElementSize, u16>,
        is_group: bool,
        discriminant_count: u16,
        discriminant_offset: u32,
        fields: Vec<RawField>,
    },
    Enum { enumerants: Vec<RawEnumerant> },
    Interface { methods: Vec<RawMethod>, superclasses: Vec<RawSuperclass> },
    Const { type_: RawType, value: Result<Value, u16> },
    Annotation { type_: RawType },
    Unknown(u16),
}

/// One declaration of a schema, as read.
#[derive(Debug)]
pub struct RawNode {
    pub id: u64,
    pub display_name: String,
    pub display_name_prefix_length: u32,
    pub scope_id: u64,
    pub parameters: Vec<String>,
    pub is_generic: bool,
    pub nested_nodes: Vec<(String, u64)>,
    pub annotations: Vec<RawAnnotation>,
    pub kind: RawNodeKind,
}

/// The discriminant value of a field that is in no union.
pub const NO_DISCRIMINANT: u16 = 0xffff;

impl RawNode {
    /// The name of the node without the scope around it: the display name
    /// less as many characters at its start as the prefix length says, or
    /// less all of them where it says more than there are.
    pub open spec fn short_name(self) -> Seq<char> {
        let len = self.display_name@.len() as int;
        let from = if self.display_name_prefix_length <= len {
            self.display_name_prefix_length as int
        } else {
            len
        };
        self.display_name@.subrange(from, len)
    }

    /// Where each id is found in a list of nodes: the id of every node of
    /// the list, with the place of the last node that has it.
    pub open spec fn table(nodes: Seq<RawNode>) -> Map<u64, int>
        decreases nodes.len(),
    {
        if nodes.len() == 0 {
            Map::empty()
        } else {
            Self::table(nodes.drop_last()).insert(nodes.last().id, nodes.len() - 1)
        }
    }

    /// The table holds exactly the ids of the nodes, and leads each id to a
    /// node that has it.
    pub proof fn lemma_table(nodes: Seq<RawNode>)
        ensures
            forall|id: u64|
                Self::table(nodes).contains_key(id) <==> exists|i: int|
                    0 <= i < nodes.len() && (#[trigger] nodes[i]).id == id,
            forall|id: u64| #[trigger]
                Self::table(nodes).contains_key(id) ==> 0 <= Self::table(nodes)[id] < nodes.len()
                    && nodes[Self::table(nodes)[id]].id == id,
            Self::table(nodes).dom().finite(),
        decreases nodes.len(),
    {
        if nodes.len() > 0 {
            let front = nodes.drop_last();
            Self::lemma_table(front);
            assert forall|id: u64| Self::table(nodes).contains_key(id) implies exists|i: int|
                0 <= i < nodes.len() && (#[trigger] nodes[i]).id == id by {
                if id == nodes.last().id {
                    assert(nodes[nodes.len() - 1].id == id);
                } else {
                    let i = choose|i: int| 0 <= i < front.len() && (#[trigger] front[i]).id == id;
                    assert(nodes[i].id == id);
                }
            }
            assert forall|id: u64|
                (exists|i: int|
                    0 <= i < nodes.len() && (#[trigger] nodes[i]).id
                        == id) implies Self::table(nodes).contains_key(id) by {
                let i = choose|i: int| 0 <= i < nodes.len() && (#[trigger] nodes[i]).id == id;
                if i < nodes.len() - 1 {
                    assert(front[i].id == id);
                }
            }
        }
    }
}

} // verus!
