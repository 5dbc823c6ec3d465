//! The declaration tree: records and unions with their fields and type references.
use vstd::prelude::*;
use crate::attrs::Attribute;

verus! {

/// A reference to a type.
#[derive(Debug)]
pub enum TypeRef {
    /// A path, written out in full; compared exactly.
    Path(String),
    /// A tuple of type references.
    Tuple(Vec<TypeRef>),
    /// Any other kind of type reference, with its text; it has no comparison rule.
    Other(String),
}

/// A field: its identifier (absent for a positional field), its type and attributes.
#[derive(Debug)]
pub struct Field {
    pub ident: Option<String>,
    pub ty: TypeRef,
    pub attrs: Vec<Attribute>,
}

/// The fields of a record or of a variant.
#[derive(Debug)]
pub enum Fields {
    Named(Vec<Field>),
    Unnamed(Vec<Field>),
    Unit,
}

/// One alternative of a union.
#[derive(Debug)]
pub struct Variant {
    pub ident: String,
    pub fields: Fields,
}

/// The body of a declaration.
#[derive(Debug)]
pub enum Data {
    Record(Fields),
    Union(Vec<Variant>),
    /// A body of any other kind; it has no comparison rule.
    Other,
}

/// A type declaration.
#[derive(Debug)]
pub struct Decl {
    pub ident: String,
    pub attrs: Vec<Attribute>,
    pub data: Data,
}

} // verus!
