//! Why two declarations are not equivalent.
use vstd::prelude::*;

verus! {

/// The shape of a field container.
#[derive(Clone, Copy, Debug, PartialEq, Eq, Structural)]
pub enum Shape {
    Named,
    Unnamed,
    Unit,
}

/// The kind of a declaration's body.
#[derive(Clone, Copy, Debug, PartialEq, Eq, Structural)]
pub enum DataKind {
    Record,
    Union,
    Other,
}

/// The kind of a type reference.
#[derive(Clone, Copy, Debug, PartialEq, Eq, Structural)]
pub enum RefKind {
    Path,
    Tuple,
}

/// The first difference found between an expected and an actual declaration.
#[derive(Debug)]
#[allow(inconsistent_fields)]
pub enum Mismatch {
    /// Two identifiers (of declarations, variants or fields) differ.
    Ident { expected: String, actual: String },
    /// The normalized attribute sets differ.
    Attributes { expected: Vec<String>, actual: Vec<String> },
    /// One body is a record and the other is not of the same kind.
    DataKind { expected: DataKind, actual: DataKind },
    /// Two field containers have different shapes.
    FieldsKind { expected: Shape, actual: Shape },
    /// One field has an identifier and the other has none.
    IdentPresence,
    /// A path is compared with a tuple.
    TypeKind { expected: RefKind, actual: RefKind },
    /// Two paths differ.
    Path { expected: String, actual: String },
    /// Two sequences (variants, fields, tuple elements) differ in length.
    Length { expected: usize, actual: usize },
    /// Both bodies have a kind that has no comparison rule.
    UnsupportedData,
    /// A type reference has a kind that has no comparison rule; its text.
    UnsupportedType { text: String },
    /// A serialization attribute whose payload is not one group.
    UnsupportedAttribute,
}

/// The mathematical value of a `Mismatch`.
#[allow(inconsistent_fields)]
pub enum MismatchView {
    Ident { expected: Seq<char>, actual: Seq<char> },
    Attributes { expected: Set<Seq<char>>, actual: Set<Seq<char>> },
    DataKind { expected: DataKind, actual: DataKind },
    FieldsKind { expected: Shape, actual: Shape },
    IdentPresence,
    TypeKind { expected: RefKind, actual: RefKind },
    Path { expected: Seq<char>, actual: Seq<char> },
    Length { expected: nat, actual: nat },
    UnsupportedData,
    UnsupportedType { text: Seq<char> },
    UnsupportedAttribute,
}

/// The set of texts that a vector of strings holds.
pub open spec fn text_set(v: Seq<String>) -> Set<Seq<char>> {
    Set::new(|x: Seq<char>| exists|i: int| 0 <= i < v.len() && v[i]@ == x)
}

impl View for Mismatch {
    type V = MismatchView;

    open spec fn view(&self) -> MismatchView {
        match self {
            Mismatch::Ident { expected, actual } => MismatchView::Ident {
                expected: expected@,
                actual: actual@,
            },
            Mismatch::Attributes { expected, actual } => MismatchView::Attributes {
                expected: text_set(expected@),
                actual: text_set(actual@),
            },
            Mismatch::DataKind { expected, actual } => MismatchView::DataKind {
                expected: *expected,
                actual: *actual,
            },
            Mismatch::FieldsKind { expected, actual } => MismatchView::FieldsKind {
                expected: *expected,
                actual: *actual,
            },
            Mismatch::IdentPresence => MismatchView::IdentPresence,
            Mismatch::TypeKind { expected, actual } => MismatchView::TypeKind {
                expected: *expected,
                actual: *actual,
            },
            Mismatch::Path { expected, actual } => MismatchView::Path {
                expected: expected@,
                actual: actual@,
            },
            Mismatch::Length { expected, actual } => MismatchView::Length {
                expected: *expected as nat,
                actual: *actual as nat,
            },
            Mismatch::UnsupportedData => MismatchView::UnsupportedData,
            Mismatch::UnsupportedType { text } => MismatchView::UnsupportedType { text: text@ },
            Mismatch::UnsupportedAttribute => MismatchView::UnsupportedAttribute,
        }
    }
}

/// The mathematical value of an outcome.
pub open spec fn outcome_view<T>(r: Result<T, Mismatch>) -> Result<(), MismatchView> {
    match r {
        Ok(_) => Ok(()),
        Err(e) => Err(e@),
    }
}

} // verus!
