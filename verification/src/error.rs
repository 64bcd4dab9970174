//! The errors of schema decoding, tree assembly and path resolution.

use vstd::prelude::*;

verus! {

/// Why an operation on a schema failed.
#[derive(Debug)]
pub enum Error {
    /// The schema holds a discriminant that this library does not know. The
    /// raw discriminant is kept.
    NotInSchema(u16),
    /// A node or a field cannot be used as asked.
    Text(String),
    /// A path was continued from a place of the wrong kind.
    Type(String),
    /// No child or field has this name.
    Attribute(String),
    /// A node refers to an id that the arena does not hold.
    Lookup(u64),
    /// A node contains itself, directly or through other nodes.
    Cycle(u64),
    /// The message under construction could not be read or extended. The
    /// text is that of the failure.
    Capnp(String),
}

impl Error {
    /// Both errors are of the same kind and say the same.
    pub open spec fn same_as(self, other: Error) -> bool {
        match self {
            Error::NotInSchema(tag) => other == Error::NotInSchema(tag),
            Error::Text(s) => other matches Error::Text(t) && s@ == t@,
            Error::Type(s) => other matches Error::Type(t) && s@ == t@,
            Error::Attribute(s) => other matches Error::Attribute(t) && s@ == t@,
            Error::Lookup(id) => other == Error::Lookup(id),
            Error::Cycle(id) => other == Error::Cycle(id),
            Error::Capnp(s) => other matches Error::Capnp(t) && s@ == t@,
        }
    }
}

} // verus!
