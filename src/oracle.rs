//! The structural equivalence of two declarations.
//!
//! Each `*_outcome` spec function gives the result of a comparison: `Ok(())`
//! when the two sides are equivalent, otherwise the first mismatch met in a
//! top-down, left-to-right walk.
use vstd::prelude::*;
use crate::attrs::{Attribute, attrs_supported, attr_set, normalize, same_texts};
use crate::decl::{TypeRef, Field, Fields, Variant, Data, Decl};
use crate::mismatch::{Mismatch, MismatchView, Shape, DataKind, RefKind, outcome_view};

verus! {

pub open spec fn type_outcome(a: TypeRef, b: TypeRef) -> Result<(), MismatchView>
    decreases a,
{
    match (a, b) {
        (TypeRef::Other(t), _) => Err(MismatchView::UnsupportedType { text: t@ }),
        (_, TypeRef::Other(t)) => Err(MismatchView::UnsupportedType { text: t@ }),
        (TypeRef::Path(p), TypeRef::Path(q)) => if p@ == q@ {
            Ok(())
        } else {
            Err(MismatchView::Path { expected: p@, actual: q@ })
        },
        (TypeRef::Tuple(x), TypeRef::Tuple(y)) => if x@.len() != y@.len() {
            Err(MismatchView::Length { expected: x@.len(), actual: y@.len() })
        } else {
            type_list_outcome(x@, y@)
        },
        (TypeRef::Path(_), TypeRef::Tuple(_)) => Err(
            MismatchView::TypeKind { expected: RefKind::Path, actual: RefKind::Tuple },
        ),
        (TypeRef::Tuple(_), TypeRef::Path(_)) => Err(
            MismatchView::TypeKind { expected: RefKind::Tuple, actual: RefKind::Path },
        ),
    }
}

/// Position-wise comparison of two type lists of equal length.
pub open spec fn type_list_outcome(xs: Seq<TypeRef>, ys: Seq<TypeRef>) -> Result<(), MismatchView>
    decreases xs,
{
    if xs.len() == 0 || ys.len() == 0 {
        Ok(())
    } else {
        match type_outcome(xs[0], ys[0]) {
            Err(e) => Err(e),
            Ok(_) => type_list_outcome(xs.drop_first(), ys.drop_first()),
        }
    }
}

/// Compares two type references.
pub fn compare_types(a: &TypeRef, b: &TypeRef) -> (r: Result<(), Mismatch>)
    ensures
        outcome_view(r) == type_outcome(*a, *b),
    decreases a,
{
    match (a, b) {
        (TypeRef::Other(t), _) => Err(Mismatch::UnsupportedType { text: t.clone() }),
        (_, TypeRef::Other(t)) => Err(Mismatch::UnsupportedType { text: t.clone() }),
        (TypeRef::Path(p), TypeRef::Path(q)) => {
            if *p == *q {
                Ok(())
            } else {
                Err(Mismatch::Path { expected: p.clone(), actual: q.clone() })
            }
        },
        (TypeRef::Tuple(x), TypeRef::Tuple(y)) => {
            if x.len() != y.len() {
                Err(Mismatch::Length { expected: x.len(), actual: y.len() })
            } else {
                compare_type_lists(x, y)
            }
        },
        (TypeRef::Path(_), TypeRef::Tuple(_)) => Err(
            Mismatch::TypeKind { expected: RefKind::Path, actual: RefKind::Tuple },
        ),
        (TypeRef::Tuple(_), TypeRef::Path(_)) => Err(
            Mismatch::TypeKind { expected: RefKind::Tuple, actual: RefKind::Path },
        ),
    }
}

fn compare_type_lists(xs: &Vec<TypeRef>, ys: &Vec<TypeRef>) -> (r: Result<(), Mismatch>)
    requires
        xs@.len() == ys@.len(),
    ensures
        outcome_view(r) == type_list_outcome(xs@, ys@),
    decreases xs,
{
    let mut i: usize = 0;
    assert(xs@.skip(0) =~= xs@);
    assert(ys@.skip(0) =~= ys@);
    while i < xs.len()
        invariant
            i <= xs.len(),
            xs@.len() == ys@.len(),
            type_list_outcome(xs@, ys@) == type_list_outcome(xs@.skip(i as int), ys@.skip(i as int)),
        decreases xs.len() - i,
    {
        proof {
            assert(decreases_to!(xs => xs@));
            assert(decreases_to!(xs@ => xs@[i as int]));
            assert(xs@.skip(i as int).drop_first() =~= xs@.skip(i + 1));
            assert(ys@.skip(i as int).drop_first() =~= ys@.skip(i + 1));
            assert(xs@.skip(i as int)[0] == xs@[i as int]);
            assert(ys@.skip(i as int)[0] == ys@[i as int]);
        }
        let r = compare_types(&xs[i], &ys[i]);
        if r.is_err() {
            return r;
        }
        i += 1;
    }
    Ok(())
}

/// Attributes are compared by their normalized sets; an unsupported
/// serialization attribute on either side fails first.
pub open spec fn attrs_outcome(a: Seq<Attribute>, b: Seq<Attribute>) -> Result<(), MismatchView> {
    if !attrs_supported(a) || !attrs_supported(b) {
        Err(MismatchView::UnsupportedAttribute)
    } else if attr_set(a) == attr_set(b) {
        Ok(())
    } else {
        Err(MismatchView::Attributes { expected: attr_set(a), actual: attr_set(b) })
    }
}

pub open spec fn field_outcome(a: Field, b: Field) -> Result<(), MismatchView> {
    let idents: Result<(), MismatchView> = match (a.ident, b.ident) {
        (Some(x), Some(y)) => if x@ == y@ {
            Ok(())
        } else {
            Err(MismatchView::Ident { expected: x@, actual: y@ })
        },
        (None, None) => Ok(()),
        _ => Err(MismatchView::IdentPresence),
    };
    match idents {
        Err(e) => Err(e),
        Ok(_) => match type_outcome(a.ty, b.ty) {
            Err(e) => Err(e),
            Ok(_) => attrs_outcome(a.attrs@, b.attrs@),
        },
    }
}

/// Position-wise comparison of two field lists of equal length.
pub open spec fn field_list_outcome(xs: Seq<Field>, ys: Seq<Field>) -> Result<(), MismatchView>
    decreases xs.len(),
{
    if xs.len() == 0 || ys.len() == 0 {
        Ok(())
    } else {
        match field_outcome(xs[0], ys[0]) {
            Err(e) => Err(e),
            Ok(_) => field_list_outcome(xs.drop_first(), ys.drop_first()),
        }
    }
}

pub open spec fn fields_seq_outcome(xs: Seq<Field>, ys: Seq<Field>) -> Result<(), MismatchView> {
    if xs.len() != ys.len() {
        Err(MismatchView::Length { expected: xs.len(), actual: ys.len() })
    } else {
        field_list_outcome(xs, ys)
    }
}

pub open spec fn shape(f: Fields) -> Shape {
    match f {
        Fields::Named(_) => Shape::Named,
        Fields::Unnamed(_) => Shape::Unnamed,
        Fields::Unit => Shape::Unit,
    }
}

pub open spec fn fields_outcome(a: Fields, b: Fields) -> Result<(), MismatchView> {
    match (a, b) {
        (Fields::Named(x), Fields::Named(y)) => fields_seq_outcome(x@, y@),
        (Fields::Unnamed(x), Fields::Unnamed(y)) => fields_seq_outcome(x@, y@),
        (Fields::Unit, Fields::Unit) => Ok(()),
        _ => Err(MismatchView::FieldsKind { expected: shape(a), actual: shape(b) }),
    }
}

/// Variant identifiers are compared unless `relax` is set; fields always are.
pub open spec fn variant_outcome(a: Variant, b: Variant, relax: bool) -> Result<(), MismatchView> {
    if !relax && a.ident@ != b.ident@ {
        Err(MismatchView::Ident { expected: a.ident@, actual: b.ident@ })
    } else {
        fields_outcome(a.fields, b.fields)
    }
}

/// Position-wise comparison of two variant lists of equal length.
pub open spec fn variant_list_outcome(xs: Seq<Variant>, ys: Seq<Variant>, relax: bool) -> Result<(), MismatchView>
    decreases xs.len(),
{
    if xs.len() == 0 || ys.len() == 0 {
        Ok(())
    } else {
        match variant_outcome(xs[0], ys[0], relax) {
            Err(e) => Err(e),
            Ok(_) => variant_list_outcome(xs.drop_first(), ys.drop_first(), relax),
        }
    }
}

pub open spec fn data_kind(d: Data) -> DataKind {
    match d {
        Data::Record(_) => DataKind::Record,
        Data::Union(_) => DataKind::Union,
        Data::Other => DataKind::Other,
    }
}

pub open spec fn data_outcome(a: Data, b: Data, relax: bool) -> Result<(), MismatchView> {
    match (a, b) {
        (Data::Record(x), Data::Record(y)) => fields_outcome(x, y),
        (Data::Union(x), Data::Union(y)) => if x@.len() != y@.len() {
            Err(MismatchView::Length { expected: x@.len(), actual: y@.len() })
        } else {
            variant_list_outcome(x@, y@, relax)
        },
        (Data::Other, Data::Other) => Err(MismatchView::UnsupportedData),
        _ => Err(MismatchView::DataKind { expected: data_kind(a), actual: data_kind(b) }),
    }
}

/// The outcome of comparing an expected declaration with an actual one:
/// identifiers always, then normalized attributes, then the bodies.
pub open spec fn decl_outcome(a: Decl, b: Decl, relax: bool) -> Result<(), MismatchView> {
    if a.ident@ != b.ident@ {
        Err(MismatchView::Ident { expected: a.ident@, actual: b.ident@ })
    } else {
        match attrs_outcome(a.attrs@, b.attrs@) {
            Err(e) => Err(e),
            Ok(_) => data_outcome(a.data, b.data, relax),
        }
    }
}

/// Compares two attribute lists by their normalized sets.
pub fn compare_attributes(a: &Vec<Attribute>, b: &Vec<Attribute>) -> (r: Result<(), Mismatch>)
    ensures
        outcome_view(r) == attrs_outcome(a@, b@),
{
    let sa = normalize(a)?;
    let sb = normalize(b)?;
    if same_texts(&sa, &sb) {
        Ok(())
    } else {
        Err(Mismatch::Attributes { expected: sa, actual: sb })
    }
}

/// Compares two fields: identifiers, then types, then attributes.
pub fn compare_field(a: &Field, b: &Field) -> (r: Result<(), Mismatch>)
    ensures
        outcome_view(r) == field_outcome(*a, *b),
{
    match (&a.ident, &b.ident) {
        (Some(x), Some(y)) => {
            if *x != *y {
                return Err(Mismatch::Ident { expected: x.clone(), actual: y.clone() });
            }
        },
        (None, None) => {},
        _ => {
            return Err(Mismatch::IdentPresence);
        },
    }
    compare_types(&a.ty, &b.ty)?;
    compare_attributes(&a.attrs, &b.attrs)
}

fn compare_field_lists(xs: &Vec<Field>, ys: &Vec<Field>) -> (r: Result<(), Mismatch>)
    requires
        xs@.len() == ys@.len(),
    ensures
        outcome_view(r) == field_list_outcome(xs@, ys@),
{
    let mut i: usize = 0;
    assert(xs@.skip(0) =~= xs@);
    assert(ys@.skip(0) =~= ys@);
    while i < xs.len()
        invariant
            i <= xs.len(),
            xs@.len() == ys@.len(),
            field_list_outcome(xs@, ys@) == field_list_outcome(xs@.skip(i as int), ys@.skip(i as int)),
        decreases xs.len() - i,
    {
        proof {
            assert(xs@.skip(i as int).drop_first() =~= xs@.skip(i + 1));
            assert(ys@.skip(i as int).drop_first() =~= ys@.skip(i + 1));
            assert(xs@.skip(i as int)[0] == xs@[i as int]);
            assert(ys@.skip(i as int)[0] == ys@[i as int]);
        }
        let r = compare_field(&xs[i], &ys[i]);
        if r.is_err() {
            return r;
        }
        i += 1;
    }
    Ok(())
}

fn compare_field_seqs(xs: &Vec<Field>, ys: &Vec<Field>) -> (r: Result<(), Mismatch>)
    ensures
        outcome_view(r) == fields_seq_outcome(xs@, ys@),
{
    if xs.len() != ys.len() {
        Err(Mismatch::Length { expected: xs.len(), actual: ys.len() })
    } else {
        compare_field_lists(xs, ys)
    }
}

fn shape_of(f: &Fields) -> (r: Shape)
    ensures
        r == shape(*f),
{
    match f {
        Fields::Named(_) => Shape::Named,
        Fields::Unnamed(_) => Shape::Unnamed,
        Fields::Unit => Shape::Unit,
    }
}

/// Compares two field containers; they must have the same shape.
pub fn compare_fields(a: &Fields, b: &Fields) -> (r: Result<(), Mismatch>)
    ensures
        outcome_view(r) == fields_outcome(*a, *b),
{
    match (a, b) {
        (Fields::Named(x), Fields::Named(y)) => compare_field_seqs(x, y),
        (Fields::Unnamed(x), Fields::Unnamed(y)) => compare_field_seqs(x, y),
        (Fields::Unit, Fields::Unit) => Ok(()),
        _ => Err(Mismatch::FieldsKind { expected: shape_of(a), actual: shape_of(b) }),
    }
}

/// Compares two variants; with `relax` their identifiers are not compared.
pub fn compare_variant(a: &Variant, b: &Variant, relax: bool) -> (r: Result<(), Mismatch>)
    ensures
        outcome_view(r) == variant_outcome(*a, *b, relax),
{
    if !relax && a.ident != b.ident {
        return Err(Mismatch::Ident { expected: a.ident.clone(), actual: b.ident.clone() });
    }
    compare_fields(&a.fields, &b.fields)
}

fn compare_variant_lists(xs: &Vec<Variant>, ys: &Vec<Variant>, relax: bool) -> (r: Result<(), Mismatch>)
    requires
        xs@.len() == ys@.len(),
    ensures
        outcome_view(r) == variant_list_outcome(xs@, ys@, relax),
{
    let mut i: usize = 0;
    assert(xs@.skip(0) =~= xs@);
    assert(ys@.skip(0) =~= ys@);
    while i < xs.len()
        invariant
            i <= xs.len(),
            xs@.len() == ys@.len(),
            variant_list_outcome(xs@, ys@, relax) == variant_list_outcome(
                xs@.skip(i as int),
                ys@.skip(i as int),
                relax,
            ),
        decreases xs.len() - i,
    {
        proof {
            assert(xs@.skip(i as int).drop_first() =~= xs@.skip(i + 1));
            assert(ys@.skip(i as int).drop_first() =~= ys@.skip(i + 1));
            assert(xs@.skip(i as int)[0] == xs@[i as int]);
            assert(ys@.skip(i as int)[0] == ys@[i as int]);
        }
        let r = compare_variant(&xs[i], &ys[i], relax);
        if r.is_err() {
            return r;
        }
        i += 1;
    }
    Ok(())
}

fn data_kind_of(d: &Data) -> (r: DataKind)
    ensures
        r == data_kind(*d),
{
    match d {
        Data::Record(_) => DataKind::Record,
        Data::Union(_) => DataKind::Union,
        Data::Other => DataKind::Other,
    }
}

/// Compares two declaration bodies; unions position by position.
pub fn compare_data(a: &Data, b: &Data, relax: bool) -> (r: Result<(), Mismatch>)
    ensures
        outcome_view(r) == data_outcome(*a, *b, relax),
{
    match (a, b) {
        (Data::Record(x), Data::Record(y)) => compare_fields(x, y),
        (Data::Union(x), Data::Union(y)) => {
            if x.len() != y.len() {
                Err(Mismatch::Length { expected: x.len(), actual: y.len() })
            } else {
                compare_variant_lists(x, y, relax)
            }
        },
        (Data::Other, Data::Other) => Err(Mismatch::UnsupportedData),
        _ => Err(Mismatch::DataKind { expected: data_kind_of(a), actual: data_kind_of(b) }),
    }
}

/// Decides whether the actual declaration is equivalent to the expected one.
/// With `relax`, the identifiers of a union's variants are not compared.
/// The result is `Ok(())` exactly when the two are equivalent; otherwise it
/// is the first mismatch met.
pub fn equivalent(expected: &Decl, actual: &Decl, relax: bool) -> (r: Result<(), Mismatch>)
    ensures
        outcome_view(r) == decl_outcome(*expected, *actual, relax),
{
    if expected.ident != actual.ident {
        return Err(
            Mismatch::Ident { expected: expected.ident.clone(), actual: actual.ident.clone() },
        );
    }
    compare_attributes(&expected.attrs, &actual.attrs)?;
    compare_data(&expected.data, &actual.data, relax)
}

} // verus!
