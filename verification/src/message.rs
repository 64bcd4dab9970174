//! Paths into the messages of a schema.
//!
//! A [`Path`] step says where one field of a struct is stored. A
//! [`PathBuilder`] starts at a node of a schema and is led on, field name by
//! field name, to the place of a value; what it writes down depends on the
//! schema alone, never on a message.

use crate::arena::{Arena, ArenaRef};
use crate::error::Error;
use crate::objs::{ElementSize, StructSize};
use crate::raw::{RawField, RawFieldKind, RawNode, RawNodeKind, RawType, NO_DISCRIMINANT};
use crate::schema::NodeArena;
use crate::segments::{
    allocate, allocate_segment, child_struct, framed, grown, init_root, message_bytes,
    new_segments, pointer_count, root_struct, segment_count, segment_size, segment_sizes, total,
    Segments,
};
use std::collections::HashMap;
use std::rc::Rc;
use vstd::prelude::*;
use vstd::string::StringExecFns;

verus! {

/// One step of the way from the root of a message to a value.
pub enum Path {
    /// An enumeration value in the data section, and the node of its type.
    Enum(usize, ArenaRef<NodeArena>),
    /// A struct behind a pointer, and the node of its type.
    Struct(usize, ArenaRef<NodeArena>),
    /// An integer in the data section.
    Integer(usize),
    /// A boolean in the data section.
    Bool(usize),
    /// A floating-point number in the data section.
    Float(usize),
    /// A value that takes no space.
    Void,
    /// The discriminant of a union, and the node of the union.
    Which(usize, ArenaRef<NodeArena>),
    /// A group of fields.
    Group(u32),
    /// A list behind a pointer.
    List(usize),
    /// One element of the list of the step before.
    Index(usize),
    /// Bytes behind a pointer.
    Data(usize),
    /// Text behind a pointer.
    Text(usize),
}

impl Clone for Path {
    fn clone(&self) -> (step: Path)
        ensures
            step == *self,
    {
        match self {
            Path::Enum(offset, node) => Path::Enum(*offset, node.clone()),
            Path::Struct(offset, node) => Path::Struct(*offset, node.clone()),
            Path::Integer(offset) => Path::Integer(*offset),
            Path::Bool(offset) => Path::Bool(*offset),
            Path::Float(offset) => Path::Float(*offset),
            Path::Void => Path::Void,
            Path::Which(offset, node) => Path::Which(*offset, node.clone()),
            Path::Group(id) => Path::Group(*id),
            Path::List(offset) => Path::List(*offset),
            Path::Index(index) => Path::Index(*index),
            Path::Data(offset) => Path::Data(*offset),
            Path::Text(offset) => Path::Text(*offset),
        }
    }
}

/// The size of the struct that a node declares. Fails where the node
/// declares something else.
pub fn get_node_struct_size(node: &RawNode) -> (r: Result<StructSize, Error>)
    ensures
        match node.kind {
            RawNodeKind::Struct { data_word_count, pointer_count, .. } => r == Ok::<
                StructSize,
                Error,
            >(StructSize { data: data_word_count, pointers: pointer_count }),
            RawNodeKind::Unknown(tag) => r == Err::<StructSize, Error>(Error::NotInSchema(tag)),
            _ => r matches Err(Error::Text(s)) && s@ == "invalid node type"@,
        },
{
    match &node.kind {
        RawNodeKind::Struct { data_word_count, pointer_count, .. } => Ok(
            StructSize { data: *data_word_count, pointers: *pointer_count },
        ),
        RawNodeKind::Unknown(tag) => Err(Error::NotInSchema(*tag)),
        _ => Err(Error::Text(String::from_str("invalid node type"))),
    }
}

/// A path under construction: the node it starts from, and the steps taken.
pub struct PathBuilder {
    root: ArenaRef<NodeArena>,
    path: Vec<Path>,
}

impl PathBuilder {
    /// The node that the path starts from.
    pub closed spec fn root(self) -> ArenaRef<NodeArena> {
        self.root
    }

    /// The steps taken so far.
    pub closed spec fn steps(self) -> Seq<Path> {
        self.path@
    }

    /// The struct that a path stands in after `steps` from `root`: the root
    /// where no step was taken, the node of the last step where every step
    /// led into a struct or a union, and none otherwise.
    pub open spec fn context(root: ArenaRef<NodeArena>, steps: Seq<Path>) -> Option<
        ArenaRef<NodeArena>,
    >
        decreases steps.len(),
    {
        if steps.len() == 0 {
            Some(root)
        } else {
            match Self::context(root, steps.drop_last()) {
                None => None,
                Some(_) => match steps.last() {
                    Path::Struct(_, node) => Some(node),
                    Path::Which(_, node) => Some(node),
                    _ => None,
                },
            }
        }
    }

    /// `r` is this path, gone on by `step`.
    pub open spec fn extended(self, r: Result<PathBuilder, Error>, step: Path) -> bool {
        r matches Ok(longer) && longer.root() == self.root() && longer.steps()
            == self.steps().push(step)
    }

    /// `r` is this path, gone on by a step to the node `id` of the arena of
    /// the root: into the struct at `offset` where `into_struct` holds, to the
    /// enumeration value at `offset` otherwise. Where the arena does not hold
    /// the node, `r` says so.
    pub open spec fn extended_to_node(
        self,
        r: Result<PathBuilder, Error>,
        offset: u32,
        id: u64,
        into_struct: bool,
    ) -> bool {
        if self.root().arena_view().items().contains_key(id) {
            &&& r matches Ok(longer)
            &&& longer.root() == self.root()
            &&& longer.steps().len() == self.steps().len() + 1
            &&& longer.steps().drop_last() == self.steps()
            &&& match longer.steps().last() {
                Path::Struct(at, node) => into_struct && at == offset && node.idx() == id
                    && node.arena_view() == self.root().arena_view(),
                Path::Enum(at, node) => !into_struct && at == offset && node.idx() == id
                    && node.arena_view() == self.root().arena_view(),
                _ => false,
            }
        } else {
            r matches Err(Error::Lookup(missing)) && missing == id
        }
    }

    /// `r` is what the slot of type `t` at `offset` leads this path to.
    pub open spec fn resolves_slot(self, r: Result<PathBuilder, Error>, offset: u32, t: RawType)
        -> bool {
        match t {
            RawType::Void => self.extended(r, Path::Void),
            RawType::Bool => self.extended(r, Path::Bool(offset as usize)),
            RawType::Int8 | RawType::Int16 | RawType::Int32 | RawType::Int64 | RawType::Uint8
            | RawType::Uint16 | RawType::Uint32 | RawType::Uint64 => self.extended(
                r,
                Path::Integer(offset as usize),
            ),
            RawType::Float32 | RawType::Float64 => self.extended(r, Path::Float(offset as usize)),
            RawType::Text => self.extended(r, Path::Text(offset as usize)),
            RawType::Data => self.extended(r, Path::Data(offset as usize)),
            RawType::List { .. } => self.extended(r, Path::List(offset as usize)),
            RawType::Enum { type_id, .. } => self.extended_to_node(r, offset, type_id, false),
            RawType::Struct { type_id, .. } => self.extended_to_node(r, offset, type_id, true),
            RawType::Interface { .. } => r matches Err(Error::Text(s)) && s@ == "unavailable"@,
            RawType::AnyPointer(Ok(_)) => r matches Err(Error::Text(s)) && s@ == "unavailable"@,
            RawType::AnyPointer(Err(tag)) => r matches Err(Error::NotInSchema(t)) && t == tag,
            RawType::Unknown(tag) => r matches Err(Error::NotInSchema(t)) && t == tag,
        }
    }

    /// The field at place `i` is the first of `fields` that is in no union
    /// and has the name `name`.
    pub open spec fn is_first_named(fields: Seq<RawField>, name: Seq<char>, i: int) -> bool {
        &&& 0 <= i < fields.len()
        &&& !fields[i].in_union()
        &&& fields[i].name@ == name
        &&& forall|j: int|
            0 <= j < i ==> (#[trigger] fields[j]).in_union() || fields[j].name@ != name
    }

    /// No field of `fields` that is in no union has the name `name`.
    pub open spec fn none_named(fields: Seq<RawField>, name: Seq<char>) -> bool {
        forall|j: int|
            0 <= j < fields.len() ==> (#[trigger] fields[j]).in_union() || fields[j].name@ != name
    }

    /// `r` is what the field `field` leads this path to.
    pub open spec fn resolves_to(self, r: Result<PathBuilder, Error>, field: RawField) -> bool {
        match field.kind {
            RawFieldKind::Slot { offset, type_, .. } => self.resolves_slot(r, offset, type_),
            RawFieldKind::Group { .. } => r matches Err(Error::Text(s)) && s@ == "unavailable"@,
            RawFieldKind::Unknown(tag) => r matches Err(Error::NotInSchema(t)) && t == tag,
        }
    }

    /// `r` is what the name `name` leads this path to:
    /// - an error of the kind `Type`, where the path does not stand in a
    ///   struct;
    /// - the path gone on by one step, where the first field of the struct
    ///   that is in no union and has the name is a slot: the step says where
    ///   the slot is stored, by the type of the slot;
    /// - an error of the kind `Lookup`, where the slot is of a struct or
    ///   enumeration type whose node the arena does not hold;
    /// - an error of the kind `Text`, where the field is a group, or a slot
    ///   of an interface or of an untyped pointer;
    /// - an error of the kind `Attribute` with the name, where the struct has
    ///   no such field;
    /// - an error of the kind `NotInSchema`, where the node, the field or its
    ///   type holds an undefined discriminant.
    pub open spec fn resolves_field(self, name: Seq<char>, r: Result<PathBuilder, Error>) -> bool {
        match Self::context(self.root(), self.steps()) {
            None => r matches Err(Error::Type(s)) && s@ == "not a struct [2]"@,
            Some(branch) => match branch.item().kind {
                RawNodeKind::Struct { fields, .. } => {
                    &&& Self::none_named(fields@, name) ==> (r matches Err(Error::Attribute(s))
                        && s@ == name)
                    &&& forall|i: int| #[trigger]
                        Self::is_first_named(fields@, name, i) ==> self.resolves_to(r, fields@[i])
                },
                RawNodeKind::Unknown(tag) => r matches Err(Error::NotInSchema(t)) && t == tag,
                _ => r matches Err(Error::Type(s)) && s@ == "not a struct [3]"@,
            },
        }
    }

    /// Both results are the same: the same path, or errors of the same kind
    /// that say the same.
    pub open spec fn same_result(a: Result<PathBuilder, Error>, b: Result<PathBuilder, Error>)
        -> bool {
        match (a, b) {
            (Ok(x), Ok(y)) => x.root() == y.root() && x.steps() == y.steps(),
            (Err(e), Err(f)) => e.same_as(f),
            _ => false,
        }
    }

    /// Either no field of the list that is in no union has the name, or one
    /// of them is the first that has it.
    pub proof fn lemma_first_named(fields: Seq<RawField>, name: Seq<char>) -> (i: int)
        ensures
            Self::none_named(fields, name) || Self::is_first_named(fields, name, i),
        decreases fields.len(),
    {
        if fields.len() == 0 {
            0
        } else {
            let front = fields.drop_last();
            let i = Self::lemma_first_named(front, name);
            if Self::is_first_named(front, name, i) {
                assert(fields[i] == front[i]);
                assert forall|j: int| 0 <= j < i implies (#[trigger] fields[j]).in_union()
                    || fields[j].name@ != name by {
                    assert(fields[j] == front[j]);
                }
                i
            } else {
                assert forall|j: int| 0 <= j < fields.len() - 1 implies (
                #[trigger] fields[j]).in_union() || fields[j].name@ != name by {
                    assert(fields[j] == front[j]);
                }
                fields.len() - 1
            }
        }
    }

    /// What a name leads a path to depends on nothing but the node that the
    /// path starts from, its steps and the name: two paths of one root and
    /// the same steps are led by one name to the same result.
    pub proof fn lemma_resolution_is_determined(
        self,
        other: PathBuilder,
        name: Seq<char>,
        a: Result<PathBuilder, Error>,
        b: Result<PathBuilder, Error>,
    )
        requires
            self.root() == other.root(),
            self.steps() == other.steps(),
            self.resolves_field(name, a),
            other.resolves_field(name, b),
        ensures
            Self::same_result(a, b),
    {
        match Self::context(self.root(), self.steps()) {
            None => {},
            Some(branch) => match branch.item().kind {
                RawNodeKind::Struct { fields, .. } => {
                    let i = Self::lemma_first_named(fields@, name);
                    if Self::is_first_named(fields@, name, i) {
                        assert(self.resolves_to(a, fields@[i]));
                        assert(other.resolves_to(b, fields@[i]));
                        match fields@[i].kind {
                            RawFieldKind::Slot { offset, type_, .. } => {
                                match type_ {
                                    RawType::Enum { type_id, .. } => {
                                        self.lemma_node_step_is_determined(
                                            other,
                                            a,
                                            b,
                                            offset,
                                            type_id,
                                            false,
                                        );
                                    },
                                    RawType::Struct { type_id, .. } => {
                                        self.lemma_node_step_is_determined(
                                            other,
                                            a,
                                            b,
                                            offset,
                                            type_id,
                                            true,
                                        );
                                    },
                                    _ => {},
                                }
                            },
                            _ => {},
                        }
                    }
                },
                _ => {},
            },
        }
    }

    /// Two paths of one root and the same steps, gone on by a step to the
    /// same node, are the same.
    proof fn lemma_node_step_is_determined(
        self,
        other: PathBuilder,
        a: Result<PathBuilder, Error>,
        b: Result<PathBuilder, Error>,
        offset: u32,
        id: u64,
        into_struct: bool,
    )
        requires
            self.root() == other.root(),
            self.steps() == other.steps(),
            self.extended_to_node(a, offset, id, into_struct),
            other.extended_to_node(b, offset, id, into_struct),
        ensures
            Self::same_result(a, b),
    {
        if self.root().arena_view().items().contains_key(id) {
            let x = a->Ok_0.steps();
            let y = b->Ok_0.steps();
            match (x.last(), y.last()) {
                (Path::Struct(_, m), Path::Struct(_, n)) => {
                    m.lemma_same(n);
                },
                (Path::Enum(_, m), Path::Enum(_, n)) => {
                    m.lemma_same(n);
                },
                _ => {},
            }
            assert(x =~= y) by {
                assert(x.drop_last() == y.drop_last());
                assert forall|k: int| 0 <= k < x.len() implies x[k] == y[k] by {
                    if k < x.len() - 1 {
                        assert(x.drop_last()[k] == y.drop_last()[k]);
                    }
                }
            }
        }
    }

    /// A path that starts at `root` and has taken no step.
    pub fn new(root: ArenaRef<NodeArena>) -> (builder: PathBuilder)
        ensures
            builder.root() == root,
            builder.steps().len() == 0,
    {
        PathBuilder { root, path: Vec::new() }
    }

    /// The steps taken so far.
    pub fn path(&self) -> (steps: &Vec<Path>)
        ensures
            steps@ == self.steps(),
    {
        &self.path
    }

    /// This path, gone on by `path`.
    pub fn with_append(&self, path: Path) -> (longer: PathBuilder)
        ensures
            longer.root() == self.root(),
            longer.steps() == self.steps().push(path),
    {
        let mut new_path: Vec<Path> = Vec::with_capacity(self.path.len());
        let mut i: usize = 0;
        while i < self.path.len()
            invariant
                i <= self.path@.len(),
                new_path@ == self.path@.take(i as int),
            decreases self.path@.len() - i,
        {
            new_path.push(self.path[i].clone());
            proof {
                assert(self.path@.take(i + 1) == self.path@.take(i as int).push(self.path@[i as int]));
            }
            i += 1;
        }
        proof {
            assert(self.path@.take(self.path@.len() as int) == self.path@);
        }
        new_path.push(path);
        PathBuilder { path: new_path, root: self.root.clone() }
    }

    /// Steps that lead out of the structs lead nowhere, whatever follows.
    proof fn lemma_context_lost(root: ArenaRef<NodeArena>, steps: Seq<Path>, n: int)
        requires
            0 <= n <= steps.len(),
            Self::context(root, steps.take(n)) is None,
        ensures
            Self::context(root, steps) is None,
        decreases steps.len() - n,
    {
        if n < steps.len() {
            assert(steps.take(n + 1).drop_last() == steps.take(n));
            Self::lemma_context_lost(root, steps, n + 1);
        } else {
            assert(steps.take(n) == steps);
        }
    }

    /// The struct that the path stands in. Fails where a step of the path
    /// leads to something that is no struct.
    pub fn struct_current(&self) -> (r: Result<&ArenaRef<NodeArena>, Error>)
        ensures
            match r {
                Ok(node) => Self::context(self.root(), self.steps()) == Some(*node),
                Err(e) => Self::context(self.root(), self.steps()) is None && (e matches Error::Type(
                    s,
                ) && s@ == "not a struct [2]"@),
            },
    {
        let mut root = &self.root;
        let mut i: usize = 0;
        proof {
            assert(self.path@.take(0).len() == 0);
        }
        while i < self.path.len()
            invariant
                i <= self.path@.len(),
                Self::context(self.root, self.path@.take(i as int)) == Some(*root),
            decreases self.path@.len() - i,
        {
            proof {
                assert(self.path@.take(i + 1).drop_last() == self.path@.take(i as int));
            }
            match &self.path[i] {
                Path::Struct(_, x) => {
                    root = x;
                },
                Path::Which(_, x) => {
                    root = x;
                },
                _ => {
                    proof {
                        Self::lemma_context_lost(self.root, self.path@, i + 1);
                    }
                    return Err(Error::Type(String::from_str("not a struct [2]")));
                },
            }
            i += 1;
        }
        proof {
            assert(self.path@.take(self.path@.len() as int) == self.path@);
        }
        Ok(root)
    }

    /// This path, gone on by a step to the node `id`.
    fn with_node(&self, offset: u32, id: u64, into_struct: bool) -> (r: Result<
        PathBuilder,
        Error,
    >)
        ensures
            self.extended_to_node(r, offset, id, into_struct),
    {
        match self.root.arena().get_ref(&id) {
            Some(node) => {
                let step = if into_struct {
                    Path::Struct(offset as usize, node)
                } else {
                    Path::Enum(offset as usize, node)
                };
                let longer = self.with_append(step);
                proof {
                    assert(longer.steps().drop_last() == self.steps());
                }
                Ok(longer)
            },
            None => Err(Error::Lookup(id)),
        }
    }

    /// This path, gone on by the step that says where a slot is stored.
    fn with_slot(&self, offset: u32, t: &RawType) -> (r: Result<PathBuilder, Error>)
        ensures
            self.resolves_slot(r, offset, *t),
    {
        match t {
            RawType::Int8
            | RawType::Int16
            | RawType::Int32
            | RawType::Int64
            | RawType::Uint8
            | RawType::Uint16
            | RawType::Uint32
            | RawType::Uint64 => Ok(self.with_append(Path::Integer(offset as usize))),
            RawType::Float32 | RawType::Float64 => Ok(
                self.with_append(Path::Float(offset as usize)),
            ),
            RawType::Void => Ok(self.with_append(Path::Void)),
            RawType::Text => Ok(self.with_append(Path::Text(offset as usize))),
            RawType::Data => Ok(self.with_append(Path::Data(offset as usize))),
            RawType::Bool => Ok(self.with_append(Path::Bool(offset as usize))),
            RawType::Struct { type_id, .. } => self.with_node(offset, *type_id, true),
            RawType::List { .. } => Ok(self.with_append(Path::List(offset as usize))),
            RawType::Enum { type_id, .. } => self.with_node(offset, *type_id, false),
            RawType::Interface { .. } => Err(Error::Text(String::from_str("unavailable"))),
            RawType::AnyPointer(Ok(_)) => Err(Error::Text(String::from_str("unavailable"))),
            RawType::AnyPointer(Err(tag)) => Err(Error::NotInSchema(*tag)),
            RawType::Unknown(tag) => Err(Error::NotInSchema(*tag)),
        }
    }

    /// This path, gone on to the field `name` of the struct that it stands
    /// in. The fields of the union of the struct are passed over.
    pub fn struct_field(&self, name: &str) -> (r: Result<PathBuilder, Error>)
        ensures
            self.resolves_field(name@, r),
    {
        let branch = match self.struct_current() {
            Ok(branch) => branch,
            Err(e) => {
                return Err(e);
            },
        };
        let node = match branch.get() {
            Some(node) => node,
            None => {
                return Err(Error::Lookup(branch.id()));
            },
        };
        match &node.kind {
            RawNodeKind::Struct { fields, .. } => {
                let wanted = String::from_str(name);
                let mut i: usize = 0;
                while i < fields.len()
                    invariant
                        Self::context(self.root(), self.steps()) == Some(*branch),
                        *node == branch.item(),
                        node.kind is Struct,
                        node.kind->fields == *fields,
                        wanted@ == name@,
                        i <= fields@.len(),
                        forall|j: int|
                            0 <= j < i ==> (#[trigger] fields@[j]).in_union() || fields@[j].name@
                                != name@,
                    decreases fields@.len() - i,
                {
                    let field = &fields[i];
                    if field.discriminant_value == NO_DISCRIMINANT && field.name == wanted {
                        let r = match &field.kind {
                            RawFieldKind::Slot { offset, type_, .. } => self.with_slot(
                                *offset,
                                type_,
                            ),
                            RawFieldKind::Group { .. } => Err(
                                Error::Text(String::from_str("unavailable")),
                            ),
                            RawFieldKind::Unknown(tag) => Err(Error::NotInSchema(*tag)),
                        };
                        proof {
                            assert(Self::is_first_named(fields@, name@, i as int));
                            assert(!Self::none_named(fields@, name@));
                            assert forall|k: int| #[trigger]
                                Self::is_first_named(
                                    fields@,
                                    name@,
                                    k,
                                ) implies self.resolves_to(r, fields@[k]) by {
                                if k < i {
                                    assert(fields@[k].in_union() || fields@[k].name@ != name@);
                                } else if k > i {
                                    assert(fields@[i as int].in_union() || fields@[i as int].name@
                                        != name@);
                                }
                            }
                        }
                        return r;
                    }
                    i += 1;
                }
                Err(Error::Attribute(wanted))
            },
            RawNodeKind::Unknown(tag) => Err(Error::NotInSchema(*tag)),
            _ => Err(Error::Type(String::from_str("not a struct [3]"))),
        }
    }

    /// This path, gone on to the element `index` of the list that its last
    /// step leads to. Fails where the last step leads to no list.
    pub fn list_index(&self, index: usize) -> (r: Result<PathBuilder, Error>)
        ensures
            self.steps().len() > 0 && self.steps().last() is List ==> self.extended(
                r,
                Path::Index(index),
            ),
            !(self.steps().len() > 0 && self.steps().last() is List) ==> (r matches Err(
                Error::Type(s),
            ) && s@ == "not a list [1]"@),
    {
        if self.path.len() > 0 {
            if let Path::List(_) = &self.path[self.path.len() - 1] {
                return Ok(self.with_append(Path::Index(index)));
            }
        }
        Err(Error::Type(String::from_str("not a list [1]")))
    }
}

/// The struct that a dynamic message is built as: its size, and the id of
/// its type.
#[derive(Clone, Copy, Debug, PartialEq, Eq)]
pub struct DynamicStructDef {
    pub struct_size: StructSize,
    pub type_id: u64,
}

/// What stands in a message under a handle: a struct, or a list with the
/// layout of its elements.
#[derive(Clone, Copy, Debug, PartialEq, Eq)]
pub enum Type {
    Struct(DynamicStructDef),
    List(ElementSize),
}

/// Why a path cannot be walked in a message.
#[derive(Clone, Copy, Debug, PartialEq, Eq)]
pub enum Fault {
    /// A node on the way holds this undefined discriminant.
    Tag(u16),
    /// A node on the way declares no struct.
    NotStruct,
    /// A step asks for a pointer that the struct it is taken in has not.
    Pointer,
}

/// One step down from a struct to a struct: the place of the pointer in the
/// pointer section of the upper struct, and the size of the lower one.
#[derive(Clone, Copy, Debug, PartialEq, Eq)]
pub struct Descent {
    pub pointer: usize,
    pub size: StructSize,
}

impl Error {
    /// The error says that a walk stopped for the reason `fault`.
    pub open spec fn reports(self, fault: Fault) -> bool {
        match fault {
            Fault::Tag(tag) => self == Error::NotInSchema(tag),
            Fault::NotStruct => self matches Error::Text(s) && s@ == "invalid node type"@,
            Fault::Pointer => self matches Error::Type(s) && s@ == "no such pointer"@,
        }
    }
}

/// The way of a path through the structs of a message: the size of the
/// struct that it stands in, and the steps down that led there.
pub struct Walk {
    pub standing: StructSize,
    pub descents: Seq<Descent>,
}

impl PathBuilder {
    /// The size of the struct that a node declares, or why it has none.
    pub open spec fn size_of(node: RawNode) -> Result<StructSize, Fault> {
        match node.kind {
            RawNodeKind::Struct { data_word_count, pointer_count, .. } => Ok(
                StructSize { data: data_word_count, pointers: pointer_count },
            ),
            RawNodeKind::Unknown(tag) => Err(Fault::Tag(tag)),
            _ => Err(Fault::NotStruct),
        }
    }

    /// The way of `steps` through the structs of a message whose root is a
    /// struct of the node `root`. Each step into a struct goes down through
    /// the pointer at its offset, which the struct above must have, to a
    /// struct of the size that the node of the step declares. The other
    /// steps stay in the struct they are taken in.
    pub open spec fn walk(root: RawNode, steps: Seq<Path>) -> Result<Walk, Fault>
        decreases steps.len(),
    {
        if steps.len() == 0 {
            match Self::size_of(root) {
                Ok(size) => Ok(Walk { standing: size, descents: Seq::empty() }),
                Err(fault) => Err(fault),
            }
        } else {
            match Self::walk(root, steps.drop_last()) {
                Err(fault) => Err(fault),
                Ok(above) => match steps.last() {
                    Path::Struct(offset, node) => if offset >= above.standing.pointers {
                        Err(Fault::Pointer)
                    } else {
                        match Self::size_of(node.item()) {
                            Ok(size) => Ok(
                                Walk {
                                    standing: size,
                                    descents: above.descents.push(
                                        Descent { pointer: offset, size },
                                    ),
                                },
                            ),
                            Err(fault) => Err(fault),
                        }
                    },
                    _ => Ok(above),
                },
            }
        }
    }

    /// Each of the descents asks for a pointer that the struct above it has:
    /// the first that the struct of the size `top` has, each other that the
    /// struct of the descent before it has.
    pub open spec fn passable(top: StructSize, descents: Seq<Descent>) -> bool {
        forall|k: int|
            0 <= k < descents.len() ==> (#[trigger] descents[k]).pointer < (if k == 0 {
                top.pointers
            } else {
                descents[k - 1].size.pointers
            })
    }

    /// The size of the struct at the end of the descents from a struct of
    /// the size `top`.
    pub open spec fn reached(top: StructSize, descents: Seq<Descent>) -> StructSize {
        if descents.len() == 0 {
            top
        } else {
            descents.last().size
        }
    }

    /// A fault stops a walk for good, whatever steps follow.
    proof fn lemma_walk_stopped(root: RawNode, steps: Seq<Path>, n: int)
        requires
            0 <= n <= steps.len(),
            Self::walk(root, steps.take(n)) is Err,
        ensures
            Self::walk(root, steps) == Self::walk(root, steps.take(n)),
        decreases steps.len() - n,
    {
        if n < steps.len() {
            assert(steps.take(n + 1).drop_last() == steps.take(n));
            Self::lemma_walk_stopped(root, steps, n + 1);
        } else {
            assert(steps.take(n) == steps);
        }
    }

    /// The steps down that the path takes through the structs of a message,
    /// from the struct of its root to the struct it ends in. Fails where
    /// the path cannot be walked.
    pub fn descents(&self) -> (r: Result<Vec<Descent>, Error>)
        ensures
            match Self::walk(self.root().item(), self.steps()) {
                Ok(way) => {
                    &&& r matches Ok(found)
                    &&& found@ == way.descents
                    &&& Self::size_of(self.root().item()) is Ok
                    &&& Self::passable(Self::size_of(self.root().item())->Ok_0, way.descents)
                },
                Err(fault) => r matches Err(e) && e.reports(fault),
            },
    {
        let ghost root = self.root().item();
        let top = match get_node_struct_size(&self.root) {
            Ok(top) => top,
            Err(e) => {
                proof {
                    assert(self.path@.take(0) =~= Seq::<Path>::empty());
                    Self::lemma_walk_stopped(root, self.path@, 0);
                }
                return Err(e);
            },
        };
        let mut standing = top;
        let mut found: Vec<Descent> = Vec::new();
        let mut i: usize = 0;
        proof {
            assert(self.path@.take(0) =~= Seq::<Path>::empty());
        }
        while i < self.path.len()
            invariant
                root == self.root().item(),
                Self::size_of(root) == Ok::<StructSize, Fault>(top),
                i <= self.path@.len(),
                Self::walk(root, self.path@.take(i as int)) == Ok::<Walk, Fault>(
                    Walk { standing, descents: found@ },
                ),
                Self::passable(top, found@),
                standing == Self::reached(top, found@),
            decreases self.path@.len() - i,
        {
            proof {
                assert(self.path@.take(i + 1).drop_last() == self.path@.take(i as int));
            }
            match &self.path[i] {
                Path::Struct(offset, node) => {
                    if *offset >= standing.pointers as usize {
                        proof {
                            Self::lemma_walk_stopped(root, self.path@, i + 1);
                        }
                        return Err(Error::Type(String::from_str("no such pointer")));
                    }
                    let size = match get_node_struct_size(node) {
                        Ok(size) => size,
                        Err(e) => {
                            proof {
                                Self::lemma_walk_stopped(root, self.path@, i + 1);
                            }
                            return Err(e);
                        },
                    };
                    found.push(Descent { pointer: *offset, size });
                    standing = size;
                },
                _ => {},
            }
            i += 1;
        }
        proof {
            assert(self.path@.take(self.path@.len() as int) == self.path@);
        }
        Ok(found)
    }

    /// Walks the path in a message under construction: makes sure that the
    /// message has its root struct, of the size that the root of the path
    /// declares, and goes down from it through every struct of the path,
    /// making each where the message has none yet. A path that cannot be
    /// walked fails before the message is touched. Whatever happens, the
    /// handles of the arena stay as they are, and no segment of the message
    /// is lost or shrinks.
    #[verifier::loop_isolation(false)]
    pub fn get(&self, arena: &mut BuilderArena) -> (r: Result<(), Error>)
        ensures
            final(arena).table() == old(arena).table(),
            final(arena).next() == old(arena).next(),
            grown(old(arena).sizes(), final(arena).sizes()),
            match Self::walk(self.root().item(), self.steps()) {
                Ok(_) => r is Ok || r matches Err(Error::Capnp(_)),
                Err(fault) => final(arena).sizes() == old(arena).sizes() && (r matches Err(e)
                    && e.reports(fault)),
            },
            r is Ok ==> final(arena).sizes().len() > 0 && final(arena).sizes()[0] >= 8,
    {
        let descents = match self.descents() {
            Ok(descents) => descents,
            Err(e) => {
                return Err(e);
            },
        };
        let top = match get_node_struct_size(&self.root) {
            Ok(top) => top,
            Err(e) => {
                return Err(e);
            },
        };
        match arena.root_word() {
            Ok(()) => {},
            Err(e) => {
                return Err(e);
            },
        }
        let mut standing = match root_struct(&mut arena.arena, top) {
            Ok(standing) => standing,
            Err(text) => {
                return Err(Error::Capnp(text));
            },
        };
        let mut k: usize = 0;
        proof {
            assert(descents@.take(0).len() == 0);
        }
        while k < descents.len()
            invariant
                k <= descents@.len(),
                Self::passable(top, descents@),
                pointer_count(standing) >= Self::reached(top, descents@.take(k as int)).pointers,
            decreases descents@.len() - k,
        {
            let down = descents[k];
            proof {
                assert(descents@[k as int].pointer < (if k == 0 {
                    top.pointers
                } else {
                    descents@[k - 1].size.pointers
                }));
                if k > 0 {
                    assert(descents@.take(k as int).last() == descents@[k - 1]);
                }
                assert(descents@.take(k + 1).last() == descents@[k as int]);
            }
            standing = match child_struct(standing, down.pointer, down.size) {
                Ok(lower) => lower,
                Err(text) => {
                    return Err(Error::Capnp(text));
                },
            };
            k += 1;
        }
        Ok(())
    }
}

/// A message under construction: its segments, and a table of what was
/// made in it, each under a handle. Handles are given out in rising order
/// and never twice.
pub struct BuilderArena {
    arena: Segments,
    items: HashMap<u64, Type>,
    next_idx: u64,
}

impl BuilderArena {
    /// What stands under each handle.
    pub closed spec fn table(self) -> Map<u64, Type> {
        self.items@
    }

    /// The handle that is given out next.
    pub closed spec fn next(self) -> u64 {
        self.next_idx
    }

    /// The bytes in use in each segment of the message.
    pub closed spec fn sizes(self) -> Seq<nat> {
        segment_sizes(self.arena)
    }

    /// A message without segments and without handles.
    pub fn new() -> (arena: BuilderArena)
        ensures
            arena.table() == Map::<u64, Type>::empty(),
            arena.next() == 0,
            arena.sizes().len() == 0,
    {
        BuilderArena { arena: new_segments(), items: HashMap::new(), next_idx: 0 }
    }

    /// Puts `item` under the next handle and gives the handle out. Gives out
    /// nothing, and changes nothing, where no handle is left.
    pub fn insert(&mut self, item: Type) -> (handle: Option<u64>)
        ensures
            final(self).sizes() == old(self).sizes(),
            old(self).next() < u64::MAX ==> handle == Some(old(self).next()) && final(self).next()
                == old(self).next() + 1 && final(self).table() == old(self).table().insert(
                old(self).next(),
                item,
            ),
            old(self).next() == u64::MAX ==> handle is None && final(self).next() == old(self).next() && final(self).table() == old(self).table(),
    {
        if self.next_idx == u64::MAX {
            return None;
        }
        let handle = self.next_idx;
        self.items.insert(handle, item);
        self.next_idx = handle + 1;
        Some(handle)
    }

    /// The bytes in use in each segment of the message.
    pub fn segment_sizes(&self) -> (sizes: Vec<usize>)
        ensures
            sizes@.len() == self.sizes().len(),
            forall|i: int| 0 <= i < sizes@.len() ==> #[trigger] sizes@[i] == self.sizes()[i],
    {
        let count = segment_count(&self.arena);
        let mut sizes: Vec<usize> = Vec::with_capacity(count);
        let mut i: usize = 0;
        while i < count
            invariant
                count == self.sizes().len(),
                i <= count,
                sizes@.len() == i,
                forall|j: int| 0 <= j < i ==> #[trigger] sizes@[j] == self.sizes()[j],
            decreases count - i,
        {
            sizes.push(segment_size(&self.arena, i));
            i += 1;
        }
        sizes
    }

    /// The message in the stream format: the table of its segments, then the
    /// segments.
    pub closed spec fn stream(self) -> Seq<u8> {
        message_bytes(self.arena)
    }

    /// The message in the stream format, for a reader of such streams.
    /// Nothing is given out while the message has no segment.
    pub fn emit(&self) -> (bytes: Option<Vec<u8>>)
        ensures
            self.sizes().len() == 0 ==> bytes is None,
            self.sizes().len() > 0 ==> (bytes matches Some(out) && out@ == self.stream()
                && out@.len() == 8 * (self.sizes().len() / 2 + 1) + total(self.sizes())),
    {
        if segment_count(&self.arena) == 0 {
            None
        } else {
            Some(framed(&self.arena))
        }
    }

    /// Makes sure that the message has a first segment and, in it, the word
    /// of the root pointer.
    fn root_word(&mut self) -> (r: Result<(), Error>)
        ensures
            final(self).table() == old(self).table(),
            final(self).next() == old(self).next(),
            grown(old(self).sizes(), final(self).sizes()),
            r is Ok ==> final(self).sizes().len() > 0 && final(self).sizes()[0] >= 8,
            r matches Err(e) ==> e is Capnp,
    {
        root_word_of(&mut self.arena)
    }
}

/// Makes sure that the segments have a first segment and, in it, the word of
/// the root pointer.
fn root_word_of(arena: &mut Segments) -> (r: Result<(), Error>)
    ensures
        grown(segment_sizes(*old(arena)), segment_sizes(*final(arena))),
        r is Ok ==> segment_sizes(*final(arena)).len() > 0 && segment_sizes(*final(arena))[0] >= 8,
        r matches Err(e) ==> e is Capnp,
{
    if segment_count(arena) == 0 {
        match allocate_segment(arena, 1) {
            Ok(()) => {},
            Err(text) => {
                return Err(Error::Capnp(text));
            },
        }
    }
    if segment_size(arena, 0) < 8 {
        match allocate(arena, 0, 1) {
            Some(_) => {},
            None => {
                return Err(Error::Capnp(String::from_str("no room for the root pointer")));
            },
        }
    }
    Ok(())
}

impl Arena for BuilderArena {
    type Item = Type;

    open spec fn items(&self) -> Map<u64, Type> {
        self.table()
    }

    fn get(&self, idx: &u64) -> (item: Option<&Type>) {
        self.items.get(idx)
    }
}

/// A place in a message under construction, with the node that says what
/// stands there.
pub struct Building {
    pub node: ArenaRef<NodeArena>,
    pub builder: ArenaRef<BuilderArena>,
}

/// The builder of a message whose root is a struct of one node.
pub struct Builder {
    arena: Segments,
    node_arena: Rc<NodeArena>,
    node_id: u64,
    initialized: bool,
}

impl Builder {
    /// The arena of the schema.
    pub closed spec fn schema(self) -> NodeArena {
        *self.node_arena
    }

    /// The id of the node of the root.
    pub closed spec fn node_id(self) -> u64 {
        self.node_id
    }

    /// Whether the root struct was made.
    pub closed spec fn initialized(self) -> bool {
        self.initialized
    }

    /// The bytes in use in each segment of the message.
    pub closed spec fn sizes(self) -> Seq<nat> {
        segment_sizes(self.arena)
    }

    /// The node of the root, where the schema holds it.
    pub open spec fn node(self) -> RawNode {
        self.schema().items()[self.node_id()]
    }

    /// Why the root has no struct, if it has none: the schema does not hold
    /// the id of its node, or the node declares no struct.
    pub open spec fn refused(self, e: Error) -> bool {
        if !self.schema().items().contains_key(self.node_id()) {
            e == Error::Lookup(self.node_id())
        } else {
            PathBuilder::size_of(self.node()) matches Err(fault) && e.reports(fault)
        }
    }

    /// The root has a struct: the schema holds its node, and the node
    /// declares one.
    pub open spec fn fit(self) -> bool {
        self.schema().items().contains_key(self.node_id()) && PathBuilder::size_of(self.node())
            is Ok
    }

    /// The builder of a message whose root is a struct of the node `id`.
    /// Nothing is made yet.
    pub fn new(id: u64, arena: Rc<NodeArena>) -> (builder: Builder)
        ensures
            builder.schema() == *arena,
            builder.node_id() == id,
            !builder.initialized(),
            builder.sizes().len() == 0,
    {
        Builder { arena: new_segments(), node_arena: arena, node_id: id, initialized: false }
    }

    /// The message in the stream format: the table of its segments, then the
    /// segments.
    pub closed spec fn stream(self) -> Seq<u8> {
        message_bytes(self.arena)
    }

    /// The message in the stream format, for a reader of such streams.
    /// Nothing is given out while the message has no segment.
    pub fn emit(&self) -> (bytes: Option<Vec<u8>>)
        ensures
            self.sizes().len() == 0 ==> bytes is None,
            self.sizes().len() > 0 ==> (bytes matches Some(out) && out@ == self.stream()
                && out@.len() == 8 * (self.sizes().len() / 2 + 1) + total(self.sizes())),
    {
        if segment_count(&self.arena) == 0 {
            None
        } else {
            Some(framed(&self.arena))
        }
    }

    /// Whether the root struct was made.
    pub fn is_initialized(&self) -> (made: bool)
        ensures
            made == self.initialized(),
    {
        self.initialized
    }

    /// The node of the root.
    pub fn me(&self) -> (r: Result<&RawNode, Error>)
        ensures
            match r {
                Ok(node) => self.fit() && *node == self.node(),
                Err(e) => !self.fit() && self.refused(e),
            },
    {
        match self.node_arena.get(&self.node_id) {
            Some(node) => match get_node_struct_size(node) {
                Ok(_) => Ok(node),
                Err(e) => Err(e),
            },
            None => Err(Error::Lookup(self.node_id)),
        }
    }

    /// The size of the root struct.
    pub fn struct_size(&self) -> (r: Result<StructSize, Error>)
        ensures
            match r {
                Ok(size) => self.fit() && PathBuilder::size_of(self.node()) == Ok::<
                    StructSize,
                    Fault,
                >(size),
                Err(e) => !self.fit() && self.refused(e),
            },
    {
        match self.me() {
            Ok(node) => get_node_struct_size(node),
            Err(e) => Err(e),
        }
    }

    /// `found` is the first field of `fields` that has the name `name`, or
    /// nothing where no field has it.
    pub open spec fn is_found(fields: Seq<RawField>, name: Seq<char>, found: Option<&RawField>)
        -> bool {
        match found {
            Some(field) => exists|i: int|
                0 <= i < fields.len() && *field == #[trigger] fields[i] && field.name@ == name
                    && forall|j: int| 0 <= j < i ==> (#[trigger] fields[j]).name@ != name,
            None => forall|j: int| 0 <= j < fields.len() ==> (#[trigger] fields[j]).name@ != name,
        }
    }

    /// The first field of the root struct that has the name `name`, in the
    /// union or out of it; none where no field has the name.
    pub fn find_field(&self, name: &str) -> (r: Result<Option<&RawField>, Error>)
        ensures
            match r {
                Ok(found) => self.fit() && Self::is_found(self.node().kind->fields@, name@, found),
                Err(e) => !self.fit() && self.refused(e),
            },
    {
        let node = match self.me() {
            Ok(node) => node,
            Err(e) => {
                return Err(e);
            },
        };
        match &node.kind {
            RawNodeKind::Struct { fields, .. } => {
                let wanted = String::from_str(name);
                let mut i: usize = 0;
                while i < fields.len()
                    invariant
                        self.fit(),
                        *node == self.node(),
                        node.kind is Struct,
                        node.kind->fields == *fields,
                        wanted@ == name@,
                        i <= fields@.len(),
                        forall|j: int| 0 <= j < i ==> (#[trigger] fields@[j]).name@ != name@,
                    decreases fields@.len() - i,
                {
                    if fields[i].name == wanted {
                        proof {
                            assert(fields@[i as int].name@ == name@);
                        }
                        return Ok(Some(&fields[i]));
                    }
                    i += 1;
                }
                Ok(None)
            },
            _ => Ok(None),
        }
    }

    /// The root struct of the message. The first call that succeeds makes
    /// the struct; every later call finds it again. Fails, and changes
    /// nothing, where the root has no struct.
    pub fn root(&mut self) -> (r: Result<(), Error>)
        ensures
            final(self).schema() == old(self).schema(),
            final(self).node_id() == old(self).node_id(),
            grown(old(self).sizes(), final(self).sizes()),
            old(self).fit() ==> r is Ok || r matches Err(Error::Capnp(_)),
            !old(self).fit() ==> (r matches Err(e) && old(self).refused(e)) && final(self).sizes()
                == old(self).sizes(),
            r is Ok ==> final(self).initialized() && final(self).sizes().len() > 0 && final(self).sizes()[0] >= 8,
            r is Err ==> final(self).initialized() == old(self).initialized(),
    {
        let size = match self.struct_size() {
            Ok(size) => size,
            Err(e) => {
                return Err(e);
            },
        };
        match root_word_of(&mut self.arena) {
            Ok(()) => {},
            Err(e) => {
                return Err(e);
            },
        }
        if self.initialized {
            match root_struct(&mut self.arena, size) {
                Ok(_) => {},
                Err(text) => {
                    return Err(Error::Capnp(text));
                },
            }
        } else {
            let _ = init_root(&mut self.arena, size);
            self.initialized = true;
        }
        Ok(())
    }
}

} // verus!
