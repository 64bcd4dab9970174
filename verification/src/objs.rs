//! The schema as an owned model, and its decoding from what was read.
//!
//! Every raw value decodes to one value of the model, or is rejected because
//! it holds, somewhere inside, a discriminant that the schema format does not
//! define. Lists keep the order in which they were read.

use crate::error::Error;
use crate::raw::{
    RawAnnotation, RawBrand, RawBrandBinding, RawBrandScope, RawBrandScopeKind, RawEnumerant,
    RawField, RawFieldKind, RawMethod, RawNode, RawNodeKind, RawSuperclass, RawType,
    NO_DISCRIMINANT,
};
use std::collections::HashMap;
use std::ops::Deref;
use vstd::prelude::*;

verus! {

/// The kinds of pointer that an untyped pointer may be declared to hold.
#[derive(Clone, Copy, Debug, PartialEq, Eq)]
pub enum AnyPointerType {
    Any,
    Struct,
    List,
    Capability,
    Parameter { scope_id: u64, index: u16 },
    ImplicitMethodParamater { index: u16 },
}

/// How the elements of a list are laid out.
#[derive(Clone, Copy, Debug, PartialEq, Eq)]
pub enum ElementSize {
    Empty,
    Bit,
    Byte,
    TwoBytes,
    FourBytes,
    EightBytes,
    Pointer,
    InlineComposite,
}

/// What one parameter of a generic scope is bound to.
#[derive(Debug)]
pub enum BrandBinding {
    Unbound,
    Type(Type),
}

/// How the parameters of one scope are bound.
#[derive(Debug)]
pub enum BrandScopeKind {
    Bind(Vec<BrandBinding>),
    Inherit,
}

/// The bindings of one generic scope.
#[derive(Debug)]
pub struct BrandScope {
    pub scope_id: u64,
    pub kind: BrandScopeKind,
}

/// The bindings of a use of a generic type.
#[derive(Debug)]
pub struct Brand {
    pub scopes: Vec<BrandScope>,
}

/// A type of the schema language.
#[derive(Debug)]
pub enum Type {
    Void,
    Bool,
    Int8,
    Int16,
    Int32,
    Int64,
    Uint8,
    Uint16,
    Uint32,
    Uint64,
    Float32,
    Float64,
    Text,
    Data,
    List { element: Box<Type> },
    Enum { id: u64, brand: Brand },
    Struct { id: u64, brand: Brand },
    Interface { id: u64, brand: Brand },
    AnyPointer(AnyPointerType),
}

impl RawType {
    /// `t` is this raw type, decoded.
    pub open spec fn decodes_to(self, t: Type) -> bool
        decreases self,
    {
        match self {
            RawType::Void => t is Void,
            RawType::Bool => t is Bool,
            RawType::Int8 => t is Int8,
            RawType::Int16 => t is Int16,
            RawType::Int32 => t is Int32,
            RawType::Int64 => t is Int64,
            RawType::Uint8 => t is Uint8,
            RawType::Uint16 => t is Uint16,
            RawType::Uint32 => t is Uint32,
            RawType::Uint64 => t is Uint64,
            RawType::Float32 => t is Float32,
            RawType::Float64 => t is Float64,
            RawType::Text => t is Text,
            RawType::Data => t is Data,
            RawType::List { element } => t matches Type::List { element: e } && element.decodes_to(
                *e,
            ),
            RawType::Enum { type_id, brand } => t matches Type::Enum { id, brand: b } && id
                == type_id && brand.decodes_to(b),
            RawType::Struct { type_id, brand } => t matches Type::Struct { id, brand: b } && id
                == type_id && brand.decodes_to(b),
            RawType::Interface { type_id, brand } => t matches Type::Interface { id, brand: b }
                && id == type_id && brand.decodes_to(b),
            RawType::AnyPointer(p) => p matches Ok(k) && t == Type::AnyPointer(k),
            RawType::Unknown(_) => false,
        }
    }

    /// The raw type holds the undefined discriminant `tag`.
    pub open spec fn rejects(self, tag: u16) -> bool
        decreases self,
    {
        match self {
            RawType::List { element } => element.rejects(tag),
            RawType::Enum { brand, .. } => brand.rejects(tag),
            RawType::Struct { brand, .. } => brand.rejects(tag),
            RawType::Interface { brand, .. } => brand.rejects(tag),
            RawType::AnyPointer(p) => p == Err::<AnyPointerType, u16>(tag),
            RawType::Unknown(t) => t == tag,
            _ => false,
        }
    }
}

impl RawBrandBinding {
    /// `b` is this raw binding, decoded.
    pub open spec fn decodes_to(self, b: BrandBinding) -> bool
        decreases self,
    {
        match self {
            RawBrandBinding::Unbound => b is Unbound,
            RawBrandBinding::Type(t) => b matches BrandBinding::Type(u) && t.decodes_to(u),
            RawBrandBinding::Unknown(_) => false,
        }
    }

    /// The raw binding holds the undefined discriminant `tag`.
    pub open spec fn rejects(self, tag: u16) -> bool
        decreases self,
    {
        match self {
            RawBrandBinding::Unbound => false,
            RawBrandBinding::Type(t) => t.rejects(tag),
            RawBrandBinding::Unknown(t) => t == tag,
        }
    }
}

impl RawBrandScope {
    /// `s` is this raw scope, decoded.
    pub open spec fn decodes_to(self, s: BrandScope) -> bool
        decreases self,
    {
        &&& s.scope_id == self.scope_id
        &&& match self.kind {
            RawBrandScopeKind::Bind(raw) => s.kind matches BrandScopeKind::Bind(bound)
                && bound@.len() == raw@.len() && forall|i: int|
                0 <= i < raw@.len() ==> raw@[i].decodes_to(#[trigger] bound@[i]),
            RawBrandScopeKind::Inherit => s.kind is Inherit,
            RawBrandScopeKind::Unknown(_) => false,
        }
    }

    /// The raw scope holds the undefined discriminant `tag`.
    pub open spec fn rejects(self, tag: u16) -> bool
        decreases self,
    {
        match self.kind {
            RawBrandScopeKind::Bind(raw) => exists|i: int|
                0 <= i < raw@.len() && (#[trigger] raw@[i]).rejects(tag),
            RawBrandScopeKind::Inherit => false,
            RawBrandScopeKind::Unknown(t) => t == tag,
        }
    }
}

impl RawBrand {
    /// `b` is this raw brand, decoded.
    pub open spec fn decodes_to(self, b: Brand) -> bool
        decreases self,
    {
        &&& b.scopes@.len() == self.scopes@.len()
        &&& forall|i: int|
            0 <= i < self.scopes@.len() ==> self.scopes@[i].decodes_to(#[trigger] b.scopes@[i])
    }

    /// The raw brand holds the undefined discriminant `tag`.
    pub open spec fn rejects(self, tag: u16) -> bool
        decreases self,
    {
        exists|i: int| 0 <= i < self.scopes@.len() && (#[trigger] self.scopes@[i]).rejects(tag)
    }
}

impl Type {
    /// Decodes a type. Fails where the raw type holds an undefined
    /// discriminant, with that discriminant, and nowhere else.
    pub fn from_reader(reader: &RawType) -> (r: Result<Type, Error>)
        ensures
            match r {
                Ok(t) => reader.decodes_to(t),
                Err(e) => e matches Error::NotInSchema(tag) && reader.rejects(tag),
            },
            r is Ok <==> forall|tag: u16| !reader.rejects(tag),
        decreases reader,
    {
        let t = match reader {
            RawType::Void => Type::Void,
            RawType::Bool => Type::Bool,
            RawType::Int8 => Type::Int8,
            RawType::Int16 => Type::Int16,
            RawType::Int32 => Type::Int32,
            RawType::Int64 => Type::Int64,
            RawType::Uint8 => Type::Uint8,
            RawType::Uint16 => Type::Uint16,
            RawType::Uint32 => Type::Uint32,
            RawType::Uint64 => Type::Uint64,
            RawType::Float32 => Type::Float32,
            RawType::Float64 => Type::Float64,
            RawType::Text => Type::Text,
            RawType::Data => Type::Data,
            RawType::List { element } => match Type::from_reader(element) {
                Ok(element) => Type::List { element: Box::new(element) },
                Err(e) => {
                    proof {
                        assert(reader.rejects(e->NotInSchema_0));
                    }
                    return Err(e);
                },
            },
            RawType::Enum { type_id, brand } => match Brand::from_reader(brand) {
                Ok(brand) => Type::Enum { id: *type_id, brand },
                Err(e) => {
                    proof {
                        assert(reader.rejects(e->NotInSchema_0));
                    }
                    return Err(e);
                },
            },
            RawType::Struct { type_id, brand } => match Brand::from_reader(brand) {
                Ok(brand) => Type::Struct { id: *type_id, brand },
                Err(e) => {
                    proof {
                        assert(reader.rejects(e->NotInSchema_0));
                    }
                    return Err(e);
                },
            },
            RawType::Interface { type_id, brand } => match Brand::from_reader(brand) {
                Ok(brand) => Type::Interface { id: *type_id, brand },
                Err(e) => {
                    proof {
                        assert(reader.rejects(e->NotInSchema_0));
                    }
                    return Err(e);
                },
            },
            RawType::AnyPointer(Ok(kind)) => Type::AnyPointer(*kind),
            RawType::AnyPointer(Err(tag)) => {
                proof {
                    assert(reader.rejects(*tag));
                }
                return Err(Error::NotInSchema(*tag));
            },
            RawType::Unknown(tag) => {
                proof {
                    assert(reader.rejects(*tag));
                }
                return Err(Error::NotInSchema(*tag));
            },
        };
        proof {
            assert forall|tag: u16| !reader.rejects(tag) by {
                reader.lemma_decoded_rejects_nothing(t, tag);
            }
        }
        Ok(t)
    }
}

impl BrandBinding {
    /// Decodes one binding of a brand.
    pub fn from_reader(reader: &RawBrandBinding) -> (r: Result<BrandBinding, Error>)
        ensures
            match r {
                Ok(b) => reader.decodes_to(b),
                Err(e) => e matches Error::NotInSchema(tag) && reader.rejects(tag),
            },
        decreases reader,
    {
        match reader {
            RawBrandBinding::Unbound => Ok(BrandBinding::Unbound),
            RawBrandBinding::Type(t) => Ok(BrandBinding::Type(Type::from_reader(t)?)),
            RawBrandBinding::Unknown(tag) => Err(Error::NotInSchema(*tag)),
        }
    }
}

impl BrandBinding {
    /// Decodes the bindings of one scope, in the order read.
    fn list_from_reader(raw: &Vec<RawBrandBinding>) -> (r: Result<Vec<BrandBinding>, Error>)
        ensures
            match r {
                Ok(bound) => bound@.len() == raw@.len() && forall|i: int|
                    0 <= i < raw@.len() ==> raw@[i].decodes_to(#[trigger] bound@[i]),
                Err(e) => e matches Error::NotInSchema(tag) && exists|i: int|
                    0 <= i < raw@.len() && (#[trigger] raw@[i]).rejects(tag),
            },
        decreases raw,
    {
        let mut bound: Vec<BrandBinding> = Vec::with_capacity(raw.len());
        let mut i: usize = 0;
        while i < raw.len()
            invariant
                i <= raw@.len(),
                bound@.len() == i,
                forall|j: int| 0 <= j < i ==> raw@[j].decodes_to(#[trigger] bound@[j]),
            decreases raw@.len() - i,
        {
            let b = BrandBinding::from_reader(&raw[i])?;
            bound.push(b);
            i += 1;
        }
        Ok(bound)
    }
}

impl BrandScope {
    /// Decodes the bindings of one scope.
    pub fn from_reader(reader: &RawBrandScope) -> (r: Result<BrandScope, Error>)
        ensures
            match r {
                Ok(s) => reader.decodes_to(s),
                Err(e) => e matches Error::NotInSchema(tag) && reader.rejects(tag),
            },
        decreases reader,
    {
        let kind = match &reader.kind {
            RawBrandScopeKind::Bind(raw) => BrandScopeKind::Bind(BrandBinding::list_from_reader(raw)?),
            RawBrandScopeKind::Inherit => BrandScopeKind::Inherit,
            RawBrandScopeKind::Unknown(tag) => {
                return Err(Error::NotInSchema(*tag));
            },
        };
        Ok(BrandScope { scope_id: reader.scope_id, kind })
    }
}

impl Brand {
    /// Decodes a brand, scope by scope in the order read. Fails where the
    /// raw brand holds an undefined discriminant, with that discriminant, and
    /// nowhere else.
    pub fn from_reader(reader: &RawBrand) -> (r: Result<Brand, Error>)
        ensures
            match r {
                Ok(b) => reader.decodes_to(b),
                Err(e) => e matches Error::NotInSchema(tag) && reader.rejects(tag),
            },
            r is Ok <==> forall|tag: u16| !reader.rejects(tag),
        decreases reader,
    {
        let mut scopes: Vec<BrandScope> = Vec::with_capacity(reader.scopes.len());
        let mut i: usize = 0;
        while i < reader.scopes.len()
            invariant
                i <= reader.scopes@.len(),
                scopes@.len() == i,
                forall|j: int| 0 <= j < i ==> reader.scopes@[j].decodes_to(#[trigger] scopes@[j]),
            decreases reader.scopes@.len() - i,
        {
            let s = BrandScope::from_reader(&reader.scopes[i])?;
            scopes.push(s);
            i += 1;
        }
        let brand = Brand { scopes };
        proof {
            assert forall|tag: u16| !reader.rejects(tag) by {
                reader.lemma_decoded_rejects_nothing(brand, tag);
            }
        }
        Ok(brand)
    }
}

/// What kind of object a pointer-typed value points to.
#[derive(Clone, Copy, Debug, PartialEq, Eq)]
pub enum AnyPointerValue {
    Struct(),
    List(),
    Interface(),
}

/// A literal value: that of a constant, or the default of a field. A float
/// is held as the bits of its IEEE 754 encoding.
#[derive(Debug)]
pub enum Value {
    Void,
    Bool(bool),
    Int8(i8),
    Int16(i16),
    Int32(i32),
    Int64(i64),
    Uint8(u8),
    Uint16(u16),
    Uint32(u32),
    Uint64(u64),
    Float32(u32),
    Float64(u64),
    Text(Vec<u8>),
    Data(Vec<u8>),
    List(AnyPointerValue),
    Enum(u16),
    Struct(AnyPointerValue),
    Interface(()),
    AnyPointer(AnyPointerValue),
}

impl Value {
    /// Both values are of the same kind and hold the same data.
    pub open spec fn same_as(self, other: Value) -> bool {
        match self {
            Value::Text(a) => other matches Value::Text(b) && a@ == b@,
            Value::Data(a) => other matches Value::Data(b) && a@ == b@,
            _ => other == self,
        }
    }

    /// A copy of the value.
    pub fn duplicate(&self) -> (copy: Value)
        ensures
            copy.same_as(*self),
    {
        match self {
            Value::Void => Value::Void,
            Value::Bool(x) => Value::Bool(*x),
            Value::Int8(x) => Value::Int8(*x),
            Value::Int16(x) => Value::Int16(*x),
            Value::Int32(x) => Value::Int32(*x),
            Value::Int64(x) => Value::Int64(*x),
            Value::Uint8(x) => Value::Uint8(*x),
            Value::Uint16(x) => Value::Uint16(*x),
            Value::Uint32(x) => Value::Uint32(*x),
            Value::Uint64(x) => Value::Uint64(*x),
            Value::Float32(x) => Value::Float32(*x),
            Value::Float64(x) => Value::Float64(*x),
            Value::Text(x) => Value::Text(x.clone()),
            Value::Data(x) => Value::Data(x.clone()),
            Value::List(x) => Value::List(*x),
            Value::Enum(x) => Value::Enum(*x),
            Value::Struct(x) => Value::Struct(*x),
            Value::Interface(x) => Value::Interface(*x),
            Value::AnyPointer(x) => Value::AnyPointer(*x),
        }
    }

    /// Decodes a value. Fails where the kind of the value is an undefined
    /// discriminant, with that discriminant.
    pub fn from_reader(reader: &Result<Value, u16>) -> (r: Result<Value, Error>)
        ensures
            match r {
                Ok(v) => *reader matches Ok(w) && v.same_as(w),
                Err(e) => e matches Error::NotInSchema(tag) && *reader == Err::<Value, u16>(tag),
            },
    {
        match reader {
            Ok(v) => Ok(v.duplicate()),
            Err(tag) => Err(Error::NotInSchema(*tag)),
        }
    }
}

impl Clone for Value {
    fn clone(&self) -> (copy: Value)
        ensures
            copy.same_as(*self),
    {
        self.duplicate()
    }
}

/// An annotation applied to a declaration.
#[derive(Debug)]
pub struct Annotation {
    pub id: u64,
    pub brand: Brand,
    pub value: Value,
}

/// The annotations of one declaration, in the order read.
#[derive(Debug)]
pub struct Annotations(pub Vec<Annotation>);

impl RawAnnotation {
    /// `a` is this raw annotation, decoded.
    pub open spec fn decodes_to(self, a: Annotation) -> bool {
        &&& a.id == self.id
        &&& self.brand.decodes_to(a.brand)
        &&& self.value matches Ok(w) && a.value.same_as(w)
    }

    /// The raw annotation holds the undefined discriminant `tag`.
    pub open spec fn rejects(self, tag: u16) -> bool {
        self.brand.rejects(tag) || self.value == Err::<Value, u16>(tag)
    }

    /// `out` is the list `raw`, decoded item by item.
    pub open spec fn list_decodes_to(raw: Seq<RawAnnotation>, out: Seq<Annotation>) -> bool {
        &&& out.len() == raw.len()
        &&& forall|i: int| 0 <= i < raw.len() ==> raw[i].decodes_to(#[trigger] out[i])
    }

    /// An item of the list `raw` holds the undefined discriminant `tag`.
    pub open spec fn list_rejects(raw: Seq<RawAnnotation>, tag: u16) -> bool {
        exists|i: int| 0 <= i < raw.len() && (#[trigger] raw[i]).rejects(tag)
    }
}

impl Annotation {
    /// Decodes an annotation.
    pub fn from_reader(reader: &RawAnnotation) -> (r: Result<Annotation, Error>)
        ensures
            match r {
                Ok(a) => reader.decodes_to(a),
                Err(e) => e matches Error::NotInSchema(tag) && reader.rejects(tag),
            },
    {
        Ok(
            Annotation {
                id: reader.id,
                brand: Brand::from_reader(&reader.brand)?,
                value: Value::from_reader(&reader.value)?,
            },
        )
    }
}

impl Annotations {
    /// Decodes a list of annotations, in the order read.
    pub fn from_reader(reader: &Vec<RawAnnotation>) -> (r: Result<Annotations, Error>)
        ensures
            match r {
                Ok(a) => RawAnnotation::list_decodes_to(reader@, a.0@),
                Err(e) => e matches Error::NotInSchema(tag) && RawAnnotation::list_rejects(
                    reader@,
                    tag,
                ),
            },
    {
        let mut out: Vec<Annotation> = Vec::with_capacity(reader.len());
        let mut i: usize = 0;
        while i < reader.len()
            invariant
                i <= reader@.len(),
                out@.len() == i,
                forall|j: int| 0 <= j < i ==> reader@[j].decodes_to(#[trigger] out@[j]),
            decreases reader@.len() - i,
        {
            let a = Annotation::from_reader(&reader[i])?;
            out.push(a);
            i += 1;
        }
        Ok(Annotations(out))
    }
}

/// A parameter of a generic declaration.
#[derive(Debug)]
pub struct Parameter {
    pub name: String,
}

/// The parameters of a generic declaration, in the order declared.
#[derive(Debug)]
pub struct Parameters(pub Vec<Parameter>);

impl Parameters {
    /// The names of the parameters, in order.
    pub open spec fn names(self) -> Seq<Seq<char>> {
        Seq::new(self.0@.len(), |i: int| self.0@[i].name@)
    }

    /// Takes the parameters over from the names read. Never fails.
    pub fn from_reader(reader: &Vec<String>) -> (r: Result<Parameters, Error>)
        ensures
            r matches Ok(p) && p.names() == Seq::new(reader@.len(), |i: int| reader@[i]@),
    {
        let mut out: Vec<Parameter> = Vec::with_capacity(reader.len());
        let mut i: usize = 0;
        while i < reader.len()
            invariant
                i <= reader@.len(),
                out@.len() == i,
                forall|j: int| 0 <= j < i ==> (#[trigger] out@[j]).name@ == reader@[j]@,
            decreases reader@.len() - i,
        {
            out.push(Parameter { name: reader[i].clone() });
            i += 1;
        }
        let p = Parameters(out);
        assert(p.names() =~= Seq::new(reader@.len(), |i: int| reader@[i]@));
        Ok(p)
    }
}

impl Deref for Parameters {
    type Target = Vec<Parameter>;

    fn deref(&self) -> (v: &Vec<Parameter>)
        ensures
            *v == self.0,
    {
        &self.0
    }
}

/// The declarations nested in a node: their names and ids, in the order
/// declared.
#[derive(Debug)]
pub struct NestedNodes(pub Vec<(String, u64)>);

impl NestedNodes {
    /// The names and ids of the nested nodes, in order.
    pub open spec fn entries(self) -> Seq<(Seq<char>, u64)> {
        Seq::new(self.0@.len(), |i: int| (self.0@[i].0@, self.0@[i].1))
    }

    /// Takes the nested nodes over from the names and ids read. Never fails.
    pub fn from_reader(reader: &Vec<(String, u64)>) -> (r: Result<NestedNodes, Error>)
        ensures
            r matches Ok(n) && n.entries() == Seq::new(
                reader@.len(),
                |i: int| (reader@[i].0@, reader@[i].1),
            ),
    {
        let mut out: Vec<(String, u64)> = Vec::with_capacity(reader.len());
        let mut i: usize = 0;
        while i < reader.len()
            invariant
                i <= reader@.len(),
                out@.len() == i,
                forall|j: int|
                    0 <= j < i ==> (#[trigger] out@[j]).0@ == reader@[j].0@ && out@[j].1
                        == reader@[j].1,
            decreases reader@.len() - i,
        {
            let entry = &reader[i];
            out.push((entry.0.clone(), entry.1));
            i += 1;
        }
        let n = NestedNodes(out);
        assert(n.entries() =~= Seq::new(reader@.len(), |i: int| (reader@[i].0@, reader@[i].1)));
        Ok(n)
    }
}

impl Deref for NestedNodes {
    type Target = Vec<(String, u64)>;

    fn deref(&self) -> (v: &Vec<(String, u64)>)
        ensures
            *v == self.0,
    {
        &self.0
    }
}

/// What a field of a struct is: a slot of the struct itself, or a group of
/// further fields.
#[derive(Debug)]
pub enum FieldKind {
    Slot { offset: u32, type_: Type, default_value: Value, had_explicit_default: bool },
    Group { type_id: u64 },
}

/// A field of a struct.
#[derive(Debug)]
pub struct Field {
    pub name: String,
    pub code_order: u16,
    pub annotations: Annotations,
    pub kind: FieldKind,
}

/// A value of an enumeration, or the member of a union that a discriminant
/// selects.
#[derive(Debug)]
pub struct Enumerant {
    pub ordinal: u32,
    pub name: String,
    pub code_order: u16,
    pub annotations: Annotations,
}

/// A member of a union: the field, and the discriminant that selects it.
#[derive(Debug)]
pub struct UnionItem {
    pub enumerant: Enumerant,
    pub field: Field,
}

/// The members of the union of a struct, in the order declared.
#[derive(Debug)]
pub struct Union {
    pub items: Vec<UnionItem>,
}

impl RawField {
    /// The field is a member of the union of its struct.
    pub open spec fn in_union(self) -> bool {
        self.discriminant_value != NO_DISCRIMINANT
    }

    /// `f` is this raw field, decoded.
    pub open spec fn decodes_to(self, f: Field) -> bool {
        &&& f.name@ == self.name@
        &&& f.code_order == self.code_order
        &&& RawAnnotation::list_decodes_to(self.annotations@, f.annotations.0@)
        &&& match self.kind {
            RawFieldKind::Slot { offset, type_, default_value, had_explicit_default } => {
                &&& f.kind matches FieldKind::Slot {
                    offset: o,
                    type_: t,
                    default_value: d,
                    had_explicit_default: h,
                }
                &&& o == offset
                &&& type_.decodes_to(t)
                &&& default_value matches Ok(w) && d.same_as(w)
                &&& h == had_explicit_default
            },
            RawFieldKind::Group { type_id } => f.kind matches FieldKind::Group { type_id: g } && g
                == type_id,
            RawFieldKind::Unknown(_) => false,
        }
    }

    /// `item` is this raw field as a member of a union: the field decoded,
    /// under its discriminant value, its name and its place in the code.
    pub open spec fn decodes_to_member(self, item: UnionItem) -> bool {
        &&& self.decodes_to(item.field)
        &&& item.enumerant.ordinal == self.discriminant_value
        &&& item.enumerant.name@ == self.name@
        &&& item.enumerant.code_order == self.code_order
        &&& item.enumerant.annotations.0@.len() == 0
    }

    /// The raw field holds the undefined discriminant `tag`.
    pub open spec fn rejects(self, tag: u16) -> bool {
        ||| RawAnnotation::list_rejects(self.annotations@, tag)
        ||| match self.kind {
            RawFieldKind::Slot { type_, default_value, .. } => type_.rejects(tag) || default_value
                == Err::<Value, u16>(tag),
            RawFieldKind::Group { .. } => false,
            RawFieldKind::Unknown(t) => t == tag,
        }
    }

    /// `out` is the list `raw`, decoded field by field.
    pub open spec fn list_decodes_to(raw: Seq<RawField>, out: Seq<Field>) -> bool {
        &&& out.len() == raw.len()
        &&& forall|i: int| 0 <= i < raw.len() ==> raw[i].decodes_to(#[trigger] out[i])
    }

    /// `out` is the list `raw`, decoded member by member.
    pub open spec fn list_decodes_to_members(raw: Seq<RawField>, out: Seq<UnionItem>) -> bool {
        &&& out.len() == raw.len()
        &&& forall|i: int| 0 <= i < raw.len() ==> raw[i].decodes_to_member(#[trigger] out[i])
    }

    /// A field of the list `raw` holds the undefined discriminant `tag`.
    pub open spec fn list_rejects(raw: Seq<RawField>, tag: u16) -> bool {
        exists|i: int| 0 <= i < raw.len() && (#[trigger] raw[i]).rejects(tag)
    }

    /// The fields of `raw` that are in no union, in order.
    pub open spec fn plain(raw: Seq<RawField>) -> Seq<RawField> {
        raw.filter(|f: RawField| !f.in_union())
    }

    /// The fields of `raw` that are members of the union, in order.
    pub open spec fn members(raw: Seq<RawField>) -> Seq<RawField> {
        raw.filter(|f: RawField| f.in_union())
    }
}

impl Field {
    /// Decodes a field.
    pub fn from_reader(reader: &RawField) -> (r: Result<Field, Error>)
        ensures
            match r {
                Ok(f) => reader.decodes_to(f),
                Err(e) => e matches Error::NotInSchema(tag) && reader.rejects(tag),
            },
    {
        let annotations = Annotations::from_reader(&reader.annotations)?;
        let kind = match &reader.kind {
            RawFieldKind::Slot { offset, type_, default_value, had_explicit_default } => {
                FieldKind::Slot {
                    offset: *offset,
                    type_: Type::from_reader(type_)?,
                    default_value: Value::from_reader(default_value)?,
                    had_explicit_default: *had_explicit_default,
                }
            },
            RawFieldKind::Group { type_id } => FieldKind::Group { type_id: *type_id },
            RawFieldKind::Unknown(tag) => {
                return Err(Error::NotInSchema(*tag));
            },
        };
        Ok(Field { name: reader.name.clone(), code_order: reader.code_order, annotations, kind })
    }
}

impl RawEnumerant {
    /// `e` is this raw enumerant, decoded as the one at place `ordinal`.
    pub open spec fn decodes_to(self, ordinal: int, e: Enumerant) -> bool {
        &&& e.ordinal == ordinal
        &&& e.name@ == self.name@
        &&& e.code_order == self.code_order
        &&& RawAnnotation::list_decodes_to(self.annotations@, e.annotations.0@)
    }

    /// The raw enumerant holds the undefined discriminant `tag`.
    pub open spec fn rejects(self, tag: u16) -> bool {
        RawAnnotation::list_rejects(self.annotations@, tag)
    }

    /// `out` is the list `raw`, decoded item by item, each with its place in
    /// the list as its ordinal.
    pub open spec fn list_decodes_to(raw: Seq<RawEnumerant>, out: Seq<Enumerant>) -> bool {
        &&& out.len() == raw.len()
        &&& forall|i: int| 0 <= i < raw.len() ==> raw[i].decodes_to(i, #[trigger] out[i])
    }

    /// An item of the list `raw` holds the undefined discriminant `tag`.
    pub open spec fn list_rejects(raw: Seq<RawEnumerant>, tag: u16) -> bool {
        exists|i: int| 0 <= i < raw.len() && (#[trigger] raw[i]).rejects(tag)
    }
}

impl Enumerant {
    /// Decodes the enumerant at place `ordinal` of its enumeration.
    pub fn from_reader(reader: &RawEnumerant, ordinal: u32) -> (r: Result<Enumerant, Error>)
        ensures
            match r {
                Ok(e) => reader.decodes_to(ordinal as int, e),
                Err(e) => e matches Error::NotInSchema(tag) && reader.rejects(tag),
            },
    {
        Ok(
            Enumerant {
                ordinal,
                name: reader.name.clone(),
                code_order: reader.code_order,
                annotations: Annotations::from_reader(&reader.annotations)?,
            },
        )
    }
}

/// A method of an interface.
#[derive(Debug)]
pub struct Method {
    pub name: String,
    pub code_order: u16,
    pub implicit_parameters: Parameters,
    pub param_type: u64,
    pub param_brand: Brand,
    pub result_type: u64,
    pub result_brand: Brand,
    pub annotations: Annotations,
}

/// An interface that another one extends.
#[derive(Debug)]
pub struct Superclass {
    pub id: u64,
    pub brand: Brand,
}

impl RawMethod {
    /// `m` is this raw method, decoded.
    pub open spec fn decodes_to(self, m: Method) -> bool {
        &&& m.name@ == self.name@
        &&& m.code_order == self.code_order
        &&& m.implicit_parameters.names() == Seq::new(
            self.implicit_parameters@.len(),
            |i: int| self.implicit_parameters@[i]@,
        )
        &&& m.param_type == self.param_struct_type
        &&& self.param_brand.decodes_to(m.param_brand)
        &&& m.result_type == self.result_struct_type
        &&& self.result_brand.decodes_to(m.result_brand)
        &&& RawAnnotation::list_decodes_to(self.annotations@, m.annotations.0@)
    }

    /// The raw method holds the undefined discriminant `tag`.
    pub open spec fn rejects(self, tag: u16) -> bool {
        ||| self.param_brand.rejects(tag)
        ||| self.result_brand.rejects(tag)
        ||| RawAnnotation::list_rejects(self.annotations@, tag)
    }

    /// `out` is the list `raw`, decoded method by method.
    pub open spec fn list_decodes_to(raw: Seq<RawMethod>, out: Seq<Method>) -> bool {
        &&& out.len() == raw.len()
        &&& forall|i: int| 0 <= i < raw.len() ==> raw[i].decodes_to(#[trigger] out[i])
    }

    /// A method of the list `raw` holds the undefined discriminant `tag`.
    pub open spec fn list_rejects(raw: Seq<RawMethod>, tag: u16) -> bool {
        exists|i: int| 0 <= i < raw.len() && (#[trigger] raw[i]).rejects(tag)
    }
}

impl Method {
    /// Decodes a method.
    pub fn from_reader(reader: &RawMethod) -> (r: Result<Method, Error>)
        ensures
            match r {
                Ok(m) => reader.decodes_to(m),
                Err(e) => e matches Error::NotInSchema(tag) && reader.rejects(tag),
            },
    {
        Ok(
            Method {
                name: reader.name.clone(),
                code_order: reader.code_order,
                implicit_parameters: Parameters::from_reader(&reader.implicit_parameters)?,
                param_type: reader.param_struct_type,
                param_brand: Brand::from_reader(&reader.param_brand)?,
                result_type: reader.result_struct_type,
                result_brand: Brand::from_reader(&reader.result_brand)?,
                annotations: Annotations::from_reader(&reader.annotations)?,
            },
        )
    }
}

impl RawSuperclass {
    /// `s` is this raw superclass, decoded.
    pub open spec fn decodes_to(self, s: Superclass) -> bool {
        s.id == self.id && self.brand.decodes_to(s.brand)
    }

    /// The raw superclass holds the undefined discriminant `tag`.
    pub open spec fn rejects(self, tag: u16) -> bool {
        self.brand.rejects(tag)
    }

    /// `out` is the list `raw`, decoded item by item.
    pub open spec fn list_decodes_to(raw: Seq<RawSuperclass>, out: Seq<Superclass>) -> bool {
        &&& out.len() == raw.len()
        &&& forall|i: int| 0 <= i < raw.len() ==> raw[i].decodes_to(#[trigger] out[i])
    }

    /// An item of the list `raw` holds the undefined discriminant `tag`.
    pub open spec fn list_rejects(raw: Seq<RawSuperclass>, tag: u16) -> bool {
        exists|i: int| 0 <= i < raw.len() && (#[trigger] raw[i]).rejects(tag)
    }
}

impl Superclass {
    /// Decodes a superclass.
    pub fn from_reader(reader: &RawSuperclass) -> (r: Result<Superclass, Error>)
        ensures
            match r {
                Ok(s) => reader.decodes_to(s),
                Err(e) => e matches Error::NotInSchema(tag) && reader.rejects(tag),
            },
    {
        Ok(Superclass { id: reader.id, brand: Brand::from_reader(&reader.brand)? })
    }
}

/// The size of a struct: the words of its data section and the pointers of
/// its pointer section.
#[derive(Clone, Copy, Debug, PartialEq, Eq)]
pub struct StructSize {
    pub data: u16,
    pub pointers: u16,
}

/// What a node declares.
#[derive(Debug)]
pub enum NodeKind {
    File,
    Struct {
        size: StructSize,
        preferred_list_encoding: ElementSize,
        is_group: bool,
        /// The fields that are in no union, in the order read.
        fields: Vec<Field>,
        /// The union of the struct, where it has one.
        which: Option<Union>,
    },
    Enum { items: Vec<Enumerant> },
    Interface { methods: Vec<Method>, superclasses: Vec<Superclass> },
    Const { type_: Type, value: Value },
    Annotation { type_: Type },
}

/// One declaration of a schema.
#[derive(Debug)]
pub struct Node {
    pub id: u64,
    pub scope_id: u64,
    pub parameters: Parameters,
    /// Whether the node or one of the scopes around it has parameters.
    pub is_generic: bool,
    pub nested: NestedNodes,
    pub annotations: Annotations,
    pub kind: NodeKind,
}

impl RawNodeKind {
    /// The ordinal of every enumerant fits in 32 bits.
    pub open spec fn fits(self) -> bool {
        self matches RawNodeKind::Enum { enumerants } ==> enumerants@.len() <= u32::MAX + 1
    }

    /// The raw kind has no decoding, and `e` says why.
    pub open spec fn fails_with(self, e: Error) -> bool {
        ||| e matches Error::NotInSchema(tag) && self.rejects(tag)
        ||| e is Text && !self.fits()
    }

    /// `k` is this raw kind, decoded. The fields of a struct are parted: those
    /// in no union stay fields, the others become the members of the union,
    /// both in the order read.
    pub open spec fn decodes_to(self, k: NodeKind) -> bool {
        match self {
            RawNodeKind::File => k is File,
            RawNodeKind::Struct {
                data_word_count,
                pointer_count,
                preferred_list_encoding,
                is_group,
                fields,
                ..
            } => {
                &&& k matches NodeKind::Struct {
                    size,
                    preferred_list_encoding: encoding,
                    is_group: group,
                    fields: plain,
                    which,
                }
                &&& size == (StructSize { data: data_word_count, pointers: pointer_count })
                &&& preferred_list_encoding == Ok::<ElementSize, u16>(encoding)
                &&& group == is_group
                &&& RawField::list_decodes_to(RawField::plain(fields@), plain@)
                &&& match which {
                    None => RawField::members(fields@).len() == 0,
                    Some(u) => u.items@.len() > 0 && RawField::list_decodes_to_members(
                        RawField::members(fields@),
                        u.items@,
                    ),
                }
            },
            RawNodeKind::Enum { enumerants } => k matches NodeKind::Enum { items }
                && RawEnumerant::list_decodes_to(enumerants@, items@),
            RawNodeKind::Interface { methods, superclasses } => {
                &&& k matches NodeKind::Interface { methods: m, superclasses: s }
                &&& RawMethod::list_decodes_to(methods@, m@)
                &&& RawSuperclass::list_decodes_to(superclasses@, s@)
            },
            RawNodeKind::Const { type_, value } => {
                &&& k matches NodeKind::Const { type_: t, value: v }
                &&& type_.decodes_to(t)
                &&& value matches Ok(w) && v.same_as(w)
            },
            RawNodeKind::Annotation { type_ } => k matches NodeKind::Annotation { type_: t }
                && type_.decodes_to(t),
            RawNodeKind::Unknown(_) => false,
        }
    }

    /// The raw kind holds the undefined discriminant `tag`.
    pub open spec fn rejects(self, tag: u16) -> bool {
        match self {
            RawNodeKind::File => false,
            RawNodeKind::Struct { preferred_list_encoding, fields, .. } => {
                ||| preferred_list_encoding == Err::<ElementSize, u16>(tag)
                ||| RawField::list_rejects(fields@, tag)
            },
            RawNodeKind::Enum { enumerants } => RawEnumerant::list_rejects(enumerants@, tag),
            RawNodeKind::Interface { methods, superclasses } => {
                ||| RawMethod::list_rejects(methods@, tag)
                ||| RawSuperclass::list_rejects(superclasses@, tag)
            },
            RawNodeKind::Const { type_, value } => type_.rejects(tag) || value == Err::<Value, u16>(
                tag,
            ),
            RawNodeKind::Annotation { type_ } => type_.rejects(tag),
            RawNodeKind::Unknown(t) => t == tag,
        }
    }
}

impl RawNode {
    /// `n` is this raw node, decoded.
    pub open spec fn decodes_to(self, n: Node) -> bool {
        &&& n.id == self.id
        &&& n.scope_id == self.scope_id
        &&& n.parameters.names() == Seq::new(
            self.parameters@.len(),
            |i: int| self.parameters@[i]@,
        )
        &&& n.is_generic == self.is_generic
        &&& n.nested.entries() == Seq::new(
            self.nested_nodes@.len(),
            |i: int| (self.nested_nodes@[i].0@, self.nested_nodes@[i].1),
        )
        &&& RawAnnotation::list_decodes_to(self.annotations@, n.annotations.0@)
        &&& self.kind.decodes_to(n.kind)
    }

    /// The raw node holds the undefined discriminant `tag`.
    pub open spec fn rejects(self, tag: u16) -> bool {
        RawAnnotation::list_rejects(self.annotations@, tag) || self.kind.rejects(tag)
    }

    /// The raw node has no decoding, and `e` says why.
    pub open spec fn fails_with(self, e: Error) -> bool {
        ||| e matches Error::NotInSchema(tag) && self.rejects(tag)
        ||| e is Text && !self.kind.fits()
    }

    /// The raw node holds no undefined discriminant, and its enumerants can
    /// be counted.
    pub open spec fn sound(self) -> bool {
        self.kind.fits() && forall|tag: u16| !self.rejects(tag)
    }
}

/// The fields of a struct, parted into those in no union and the members of
/// the union.
struct PartedFields {
    plain: Vec<Field>,
    members: Vec<UnionItem>,
}

impl NodeKind {
    /// Decodes the fields of a struct and parts them by their discriminant
    /// value.
    fn fields_from_reader(raw: &Vec<RawField>) -> (r: Result<PartedFields, Error>)
        ensures
            match r {
                Ok(parted) => {
                    &&& RawField::list_decodes_to(RawField::plain(raw@), parted.plain@)
                    &&& RawField::list_decodes_to_members(RawField::members(raw@), parted.members@)
                },
                Err(e) => e matches Error::NotInSchema(tag) && RawField::list_rejects(raw@, tag),
            },
    {
        let mut plain: Vec<Field> = Vec::new();
        let mut members: Vec<UnionItem> = Vec::new();
        let mut i: usize = 0;
        proof {
            reveal(Seq::filter);
            assert(raw@.take(0).len() == 0);
        }
        while i < raw.len()
            invariant
                i <= raw@.len(),
                RawField::list_decodes_to(RawField::plain(raw@.take(i as int)), plain@),
                RawField::list_decodes_to_members(
                    RawField::members(raw@.take(i as int)),
                    members@,
                ),
            decreases raw@.len() - i,
        {
            let one = &raw[i];
            let field = Field::from_reader(one)?;
            proof {
                let before = raw@.take(i as int);
                assert(raw@.take(i + 1) == before.push(*one));
                before.lemma_filter_push(*one, |f: RawField| !f.in_union());
                before.lemma_filter_push(*one, |f: RawField| f.in_union());
            }
            if one.discriminant_value == NO_DISCRIMINANT {
                plain.push(field);
            } else {
                let enumerant = Enumerant {
                    ordinal: one.discriminant_value as u32,
                    name: one.name.clone(),
                    code_order: one.code_order,
                    annotations: Annotations(Vec::new()),
                };
                members.push(UnionItem { enumerant, field });
            }
            i += 1;
        }
        proof {
            assert(raw@.take(raw@.len() as int) == raw@);
        }
        Ok(PartedFields { plain, members })
    }

    /// Decodes the enumerants of an enumeration, in the order read.
    fn enumerants_from_reader(raw: &Vec<RawEnumerant>) -> (r: Result<Vec<Enumerant>, Error>)
        ensures
            match r {
                Ok(items) => RawEnumerant::list_decodes_to(raw@, items@),
                Err(e) => {
                    ||| e matches Error::NotInSchema(tag) && RawEnumerant::list_rejects(raw@, tag)
                    ||| e is Text && raw@.len() > u32::MAX + 1
                },
            },
    {
        if raw.len() > 0 && raw.len() - 1 > u32::MAX as usize {
            return Err(Error::Text("too many enumerants".to_string()));
        }
        let mut items: Vec<Enumerant> = Vec::with_capacity(raw.len());
        let mut i: usize = 0;
        while i < raw.len()
            invariant
                raw@.len() <= u32::MAX + 1,
                i <= raw@.len(),
                items@.len() == i,
                forall|j: int| 0 <= j < i ==> raw@[j].decodes_to(j, #[trigger] items@[j]),
            decreases raw@.len() - i,
        {
            let e = Enumerant::from_reader(&raw[i], i as u32)?;
            items.push(e);
            i += 1;
        }
        Ok(items)
    }

    /// Decodes the methods of an interface, in the order read.
    fn methods_from_reader(raw: &Vec<RawMethod>) -> (r: Result<Vec<Method>, Error>)
        ensures
            match r {
                Ok(methods) => RawMethod::list_decodes_to(raw@, methods@),
                Err(e) => e matches Error::NotInSchema(tag) && RawMethod::list_rejects(raw@, tag),
            },
    {
        let mut methods: Vec<Method> = Vec::with_capacity(raw.len());
        let mut i: usize = 0;
        while i < raw.len()
            invariant
                i <= raw@.len(),
                methods@.len() == i,
                forall|j: int| 0 <= j < i ==> raw@[j].decodes_to(#[trigger] methods@[j]),
            decreases raw@.len() - i,
        {
            let m = Method::from_reader(&raw[i])?;
            methods.push(m);
            i += 1;
        }
        Ok(methods)
    }

    /// Decodes the superclasses of an interface, in the order read.
    fn superclasses_from_reader(raw: &Vec<RawSuperclass>) -> (r: Result<Vec<Superclass>, Error>)
        ensures
            match r {
                Ok(out) => RawSuperclass::list_decodes_to(raw@, out@),
                Err(e) => e matches Error::NotInSchema(tag) && RawSuperclass::list_rejects(
                    raw@,
                    tag,
                ),
            },
    {
        let mut out: Vec<Superclass> = Vec::with_capacity(raw.len());
        let mut i: usize = 0;
        while i < raw.len()
            invariant
                i <= raw@.len(),
                out@.len() == i,
                forall|j: int| 0 <= j < i ==> raw@[j].decodes_to(#[trigger] out@[j]),
            decreases raw@.len() - i,
        {
            let s = Superclass::from_reader(&raw[i])?;
            out.push(s);
            i += 1;
        }
        Ok(out)
    }

    /// Decodes what a node declares. Fails where the raw kind holds an
    /// undefined discriminant, with that discriminant, and where an
    /// enumeration has more enumerants than a 32-bit ordinal can count.
    pub fn from_reader(reader: &RawNodeKind) -> (r: Result<NodeKind, Error>)
        ensures
            match r {
                Ok(k) => reader.decodes_to(k),
                Err(e) => reader.fails_with(e),
            },
    {
        match reader {
            RawNodeKind::File => Ok(NodeKind::File),
            RawNodeKind::Struct {
                data_word_count,
                pointer_count,
                preferred_list_encoding,
                is_group,
                fields,
                ..
            } => {
                let encoding = match preferred_list_encoding {
                    Ok(encoding) => *encoding,
                    Err(tag) => {
                        return Err(Error::NotInSchema(*tag));
                    },
                };
                let parted = NodeKind::fields_from_reader(fields)?;
                let which = if parted.members.len() == 0 {
                    None
                } else {
                    Some(Union { items: parted.members })
                };
                Ok(
                    NodeKind::Struct {
                        size: StructSize { data: *data_word_count, pointers: *pointer_count },
                        preferred_list_encoding: encoding,
                        is_group: *is_group,
                        fields: parted.plain,
                        which,
                    },
                )
            },
            RawNodeKind::Enum { enumerants } => Ok(
                NodeKind::Enum { items: NodeKind::enumerants_from_reader(enumerants)? },
            ),
            RawNodeKind::Interface { methods, superclasses } => Ok(
                NodeKind::Interface {
                    methods: NodeKind::methods_from_reader(methods)?,
                    superclasses: NodeKind::superclasses_from_reader(superclasses)?,
                },
            ),
            RawNodeKind::Const { type_, value } => Ok(
                NodeKind::Const {
                    type_: Type::from_reader(type_)?,
                    value: Value::from_reader(value)?,
                },
            ),
            RawNodeKind::Annotation { type_ } => Ok(
                NodeKind::Annotation { type_: Type::from_reader(type_)? },
            ),
            RawNodeKind::Unknown(tag) => Err(Error::NotInSchema(*tag)),
        }
    }
}

impl Node {
    /// Decodes a node. Fails where the raw node holds an undefined
    /// discriminant, with that discriminant, and where it declares more
    /// enumerants than a 32-bit ordinal can count.
    pub fn from_reader(reader: &RawNode) -> (r: Result<Node, Error>)
        ensures
            match r {
                Ok(n) => reader.decodes_to(n),
                Err(e) => reader.fails_with(e),
            },
            r is Ok <==> reader.sound(),
    {
        let node = Node {
            id: reader.id,
            scope_id: reader.scope_id,
            parameters: Parameters::from_reader(&reader.parameters)?,
            is_generic: reader.is_generic,
            nested: NestedNodes::from_reader(&reader.nested_nodes)?,
            annotations: Annotations::from_reader(&reader.annotations)?,
            kind: NodeKind::from_reader(&reader.kind)?,
        };
        proof {
            reader.lemma_decoded_fits(node);
            assert forall|tag: u16| !reader.rejects(tag) by {
                reader.lemma_decoded_rejects_nothing(node, tag);
            }
        }
        Ok(node)
    }
}

impl RawType {
    /// A raw type that has a decoding holds no undefined discriminant.
    pub proof fn lemma_decoded_rejects_nothing(self, t: Type, tag: u16)
        requires
            self.decodes_to(t),
        ensures
            !self.rejects(tag),
        decreases self,
    {
        match (self, t) {
            (RawType::List { element }, Type::List { element: e }) => {
                element.lemma_decoded_rejects_nothing(*e, tag);
            },
            (RawType::Enum { brand, .. }, Type::Enum { brand: b, .. }) => {
                brand.lemma_decoded_rejects_nothing(b, tag);
            },
            (RawType::Struct { brand, .. }, Type::Struct { brand: b, .. }) => {
                brand.lemma_decoded_rejects_nothing(b, tag);
            },
            (RawType::Interface { brand, .. }, Type::Interface { brand: b, .. }) => {
                brand.lemma_decoded_rejects_nothing(b, tag);
            },
            _ => {},
        }
    }
}

impl RawBrand {
    /// A raw brand that has a decoding holds no undefined discriminant.
    pub proof fn lemma_decoded_rejects_nothing(self, b: Brand, tag: u16)
        requires
            self.decodes_to(b),
        ensures
            !self.rejects(tag),
        decreases self,
    {
        assert forall|i: int| 0 <= i < self.scopes@.len() implies !(
        #[trigger] self.scopes@[i]).rejects(tag) by {
            assert(self.scopes@[i].decodes_to(b.scopes@[i]));
            self.scopes@[i].lemma_decoded_rejects_nothing(b.scopes@[i], tag);
        }
    }
}

impl RawBrandScope {
    /// A raw scope that has a decoding holds no undefined discriminant.
    pub proof fn lemma_decoded_rejects_nothing(self, s: BrandScope, tag: u16)
        requires
            self.decodes_to(s),
        ensures
            !self.rejects(tag),
        decreases self,
    {
        match (self.kind, s.kind) {
            (RawBrandScopeKind::Bind(raw), BrandScopeKind::Bind(bound)) => {
                assert forall|i: int| 0 <= i < raw@.len() implies !(#[trigger] raw@[i]).rejects(
                    tag,
                ) by {
                    assert(raw@[i].decodes_to(bound@[i]));
                    raw@[i].lemma_decoded_rejects_nothing(bound@[i], tag);
                }
            },
            _ => {},
        }
    }
}

impl RawBrandBinding {
    /// A raw binding that has a decoding holds no undefined discriminant.
    pub proof fn lemma_decoded_rejects_nothing(self, b: BrandBinding, tag: u16)
        requires
            self.decodes_to(b),
        ensures
            !self.rejects(tag),
        decreases self,
    {
        match (self, b) {
            (RawBrandBinding::Type(t), BrandBinding::Type(u)) => {
                t.lemma_decoded_rejects_nothing(u, tag);
            },
            _ => {},
        }
    }
}

impl RawAnnotation {
    /// Raw annotations that have a decoding hold no undefined discriminant.
    pub proof fn lemma_decoded_reject_nothing(
        raw: Seq<RawAnnotation>,
        out: Seq<Annotation>,
        tag: u16,
    )
        requires
            Self::list_decodes_to(raw, out),
        ensures
            !Self::list_rejects(raw, tag),
    {
        assert forall|i: int| 0 <= i < raw.len() implies !(#[trigger] raw[i]).rejects(tag) by {
            assert(raw[i].decodes_to(out[i]));
            raw[i].brand.lemma_decoded_rejects_nothing(out[i].brand, tag);
        }
    }
}

impl RawField {
    /// A raw field that has a decoding holds no undefined discriminant.
    pub proof fn lemma_decoded_rejects_nothing(self, f: Field, tag: u16)
        requires
            self.decodes_to(f),
        ensures
            !self.rejects(tag),
    {
        RawAnnotation::lemma_decoded_reject_nothing(self.annotations@, f.annotations.0@, tag);
        match (self.kind, f.kind) {
            (RawFieldKind::Slot { type_, .. }, FieldKind::Slot { type_: t, .. }) => {
                type_.lemma_decoded_rejects_nothing(t, tag);
            },
            _ => {},
        }
    }

    /// Every field is among those in no union or among the members of the
    /// union, as its discriminant value says.
    pub proof fn lemma_parted(raw: Seq<RawField>, i: int)
        requires
            0 <= i < raw.len(),
        ensures
            !raw[i].in_union() ==> Self::plain(raw).contains(raw[i]),
            raw[i].in_union() ==> Self::members(raw).contains(raw[i]),
    {
        assert(raw.contains(raw[i]));
        if raw[i].in_union() {
            raw.lemma_filter_contains(|f: RawField| f.in_union(), i);
        } else {
            raw.lemma_filter_contains(|f: RawField| !f.in_union(), i);
        }
    }
}

impl RawNodeKind {
    /// A raw kind that has a decoding holds no undefined discriminant, and
    /// its enumerants can be counted.
    pub proof fn lemma_decoded_rejects_nothing(self, k: NodeKind, tag: u16)
        requires
            self.decodes_to(k),
        ensures
            !self.rejects(tag),
            self.fits(),
    {
        match (self, k) {
            (
                RawNodeKind::Struct { fields, .. },
                NodeKind::Struct { fields: plain, which, .. },
            ) => {
                assert forall|i: int| 0 <= i < fields@.len() implies !(
                #[trigger] fields@[i]).rejects(tag) by {
                    let one = fields@[i];
                    RawField::lemma_parted(fields@, i);
                    if one.in_union() {
                        let members = RawField::members(fields@);
                        let j = choose|j: int| 0 <= j < members.len() && members[j] == one;
                        let items = which->Some_0.items@;
                        assert(members[j].decodes_to_member(items[j]));
                        one.lemma_decoded_rejects_nothing(items[j].field, tag);
                    } else {
                        let rest = RawField::plain(fields@);
                        let j = choose|j: int| 0 <= j < rest.len() && rest[j] == one;
                        assert(rest[j].decodes_to(plain@[j]));
                        one.lemma_decoded_rejects_nothing(plain@[j], tag);
                    }
                }
            },
            (RawNodeKind::Enum { enumerants }, NodeKind::Enum { items }) => {
                assert forall|i: int| 0 <= i < enumerants@.len() implies !(
                #[trigger] enumerants@[i]).rejects(tag) by {
                    assert(enumerants@[i].decodes_to(i, items@[i]));
                    RawAnnotation::lemma_decoded_reject_nothing(
                        enumerants@[i].annotations@,
                        items@[i].annotations.0@,
                        tag,
                    );
                }
                if enumerants@.len() > u32::MAX + 1 {
                    let last = enumerants@.len() - 1;
                    assert(enumerants@[last].decodes_to(last, items@[last]));
                }
            },
            (
                RawNodeKind::Interface { methods, superclasses },
                NodeKind::Interface { methods: m, superclasses: s },
            ) => {
                assert forall|i: int| 0 <= i < methods@.len() implies !(
                #[trigger] methods@[i]).rejects(tag) by {
                    assert(methods@[i].decodes_to(m@[i]));
                    methods@[i].param_brand.lemma_decoded_rejects_nothing(m@[i].param_brand, tag);
                    methods@[i].result_brand.lemma_decoded_rejects_nothing(
                        m@[i].result_brand,
                        tag,
                    );
                    RawAnnotation::lemma_decoded_reject_nothing(
                        methods@[i].annotations@,
                        m@[i].annotations.0@,
                        tag,
                    );
                }
                assert forall|i: int| 0 <= i < superclasses@.len() implies !(
                #[trigger] superclasses@[i]).rejects(tag) by {
                    assert(superclasses@[i].decodes_to(s@[i]));
                    superclasses@[i].brand.lemma_decoded_rejects_nothing(s@[i].brand, tag);
                }
            },
            (RawNodeKind::Const { type_, .. }, NodeKind::Const { type_: t, .. }) => {
                type_.lemma_decoded_rejects_nothing(t, tag);
            },
            (RawNodeKind::Annotation { type_ }, NodeKind::Annotation { type_: t }) => {
                type_.lemma_decoded_rejects_nothing(t, tag);
            },
            _ => {},
        }
    }
}

impl RawNode {
    /// A raw node that has a decoding holds no undefined discriminant.
    pub proof fn lemma_decoded_rejects_nothing(self, n: Node, tag: u16)
        requires
            self.decodes_to(n),
        ensures
            !self.rejects(tag),
    {
        RawAnnotation::lemma_decoded_reject_nothing(self.annotations@, n.annotations.0@, tag);
        self.kind.lemma_decoded_rejects_nothing(n.kind, tag);
    }

    /// The enumerants of a raw node that has a decoding can be counted.
    pub proof fn lemma_decoded_fits(self, n: Node)
        requires
            self.decodes_to(n),
        ensures
            self.kind.fits(),
    {
        self.kind.lemma_decoded_rejects_nothing(n.kind, 0);
    }
}

impl Node {
    /// A raw node that decoding fails on has no decoding.
    pub proof fn lemma_failure_is_final(raw: RawNode, e: Error)
        requires
            raw.fails_with(e),
        ensures
            forall|n: Node| !raw.decodes_to(n),
    {
        assert forall|n: Node| !raw.decodes_to(n) by {
            if raw.decodes_to(n) {
                raw.lemma_decoded_fits(n);
                if let Error::NotInSchema(tag) = e {
                    raw.lemma_decoded_rejects_nothing(n, tag);
                }
            }
        }
    }
}

/// The decoded nodes of a schema, by id.
pub struct Arena {
    items: HashMap<u64, Node>,
}

impl View for Arena {
    type V = Map<u64, Node>;

    closed spec fn view(&self) -> Map<u64, Node> {
        self.items@
    }
}

impl Arena {
    /// Decodes every node of a request. The arena holds one node for each id
    /// of the request: the decoding of the last raw node that has the id.
    /// Fails where a node has no decoding.
    pub fn from_reader(request: &Vec<RawNode>) -> (r: Result<Arena, Error>)
        ensures
            match r {
                Ok(arena) => {
                    &&& arena@.dom() == RawNode::table(request@).dom()
                    &&& forall|id: u64|
                        arena@.contains_key(id) <==> exists|i: int|
                            0 <= i < request@.len() && (#[trigger] request@[i]).id == id
                    &&& forall|id: u64| #[trigger]
                        arena@.contains_key(id) ==> request@[RawNode::table(
                            request@,
                        )[id]].decodes_to(arena@[id])
                },
                Err(e) => exists|i: int|
                    0 <= i < request@.len() && (#[trigger] request@[i]).fails_with(e),
            },
            r is Ok <==> forall|i: int| 0 <= i < request@.len() ==> (#[trigger] request@[i]).sound(),
    {
        let mut items: HashMap<u64, Node> = HashMap::with_capacity(request.len());
        let mut i: usize = 0;
        while i < request.len()
            invariant
                i <= request@.len(),
                forall|j: int| 0 <= j < i ==> (#[trigger] request@[j]).sound(),
                items@.dom() == RawNode::table(request@.take(i as int)).dom(),
                forall|id: u64| #[trigger]
                    items@.contains_key(id) ==> request@[RawNode::table(
                        request@.take(i as int),
                    )[id]].decodes_to(items@[id]),
            decreases request@.len() - i,
        {
            let raw = &request[i];
            let node = match Node::from_reader(raw) {
                Ok(node) => node,
                Err(e) => {
                    proof {
                        assert(request@[i as int].fails_with(e));
                        assert(!request@[i as int].sound());
                    }
                    return Err(e);
                },
            };
            proof {
                assert(request@.take(i + 1).drop_last() == request@.take(i as int));
            }
            items.insert(raw.id, node);
            i += 1;
        }
        proof {
            assert(request@.take(request@.len() as int) == request@);
            RawNode::lemma_table(request@);
        }
        Ok(Arena { items })
    }
}

impl crate::arena::Arena for Arena {
    type Item = Node;

    open spec fn items(&self) -> Map<u64, Node> {
        self@
    }

    fn get(&self, idx: &u64) -> (item: Option<&Node>) {
        self.items.get(idx)
    }
}

} // verus!
