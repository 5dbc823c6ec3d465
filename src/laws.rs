//! Laws of the normalizer and of the equivalence oracle.
use vstd::prelude::*;
use crate::tokens::{Token, run_text};
use crate::attrs::{
    Attribute, is_comma, split_run, is_rename, kept, directive_set, attrs_supported, attr_set,
    is_serde, single_group, group_inner, lemma_kept_push,
};
use crate::decl::{TypeRef, Field, Fields, Variant, Data, Decl};
use crate::mismatch::{MismatchView, RefKind};
use crate::oracle::{
    type_outcome, type_list_outcome, field_list_outcome, fields_outcome, variant_list_outcome,
    decl_outcome, attrs_outcome, field_outcome, variant_outcome,
};

verus! {

/// A type reference whose every part has a comparison rule.
pub open spec fn type_supported(t: TypeRef) -> bool
    decreases t,
{
    match t {
        TypeRef::Path(_) => true,
        TypeRef::Tuple(x) => type_list_supported(x@),
        TypeRef::Other(_) => false,
    }
}

pub open spec fn type_list_supported(xs: Seq<TypeRef>) -> bool
    decreases xs,
{
    xs.len() == 0 || (type_supported(xs[0]) && type_list_supported(xs.drop_first()))
}

pub open spec fn field_supported(f: Field) -> bool {
    type_supported(f.ty) && attrs_supported(f.attrs@)
}

pub open spec fn fields_supported(f: Fields) -> bool {
    match f {
        Fields::Named(x) => forall|i: int| 0 <= i < x@.len() ==> field_supported(#[trigger] x@[i]),
        Fields::Unnamed(x) => forall|i: int| 0 <= i < x@.len() ==> field_supported(#[trigger] x@[i]),
        Fields::Unit => true,
    }
}

/// A declaration that holds no construct without a comparison rule.
pub open spec fn decl_supported(d: Decl) -> bool {
    &&& attrs_supported(d.attrs@)
    &&& match d.data {
        Data::Record(f) => fields_supported(f),
        Data::Union(v) => forall|i: int| 0 <= i < v@.len() ==> fields_supported(#[trigger] v@[i].fields),
        Data::Other => false,
    }
}

proof fn lemma_type_reflexive(t: TypeRef)
    requires
        type_supported(t),
    ensures
        type_outcome(t, t) == Ok::<(), MismatchView>(()),
    decreases t,
{
    match t {
        TypeRef::Tuple(x) => {
            assert(decreases_to!(t => x@));
            lemma_type_list_reflexive(x@);
        },
        _ => {},
    }
}

proof fn lemma_type_list_reflexive(xs: Seq<TypeRef>)
    requires
        type_list_supported(xs),
    ensures
        type_list_outcome(xs, xs) == Ok::<(), MismatchView>(()),
    decreases xs,
{
    if xs.len() > 0 {
        lemma_type_reflexive(xs[0]);
        lemma_type_list_reflexive(xs.drop_first());
    }
}

proof fn lemma_field_list_reflexive(xs: Seq<Field>)
    requires
        forall|i: int| 0 <= i < xs.len() ==> field_supported(#[trigger] xs[i]),
    ensures
        field_list_outcome(xs, xs) == Ok::<(), MismatchView>(()),
    decreases xs.len(),
{
    if xs.len() > 0 {
        assert(field_supported(xs[0]));
        lemma_type_reflexive(xs[0].ty);
        assert forall|i: int| 0 <= i < xs.drop_first().len() implies field_supported(
            #[trigger] xs.drop_first()[i],
        ) by {
            assert(xs.drop_first()[i] == xs[i + 1]);
        }
        lemma_field_list_reflexive(xs.drop_first());
    }
}

proof fn lemma_fields_reflexive(f: Fields)
    requires
        fields_supported(f),
    ensures
        fields_outcome(f, f) == Ok::<(), MismatchView>(()),
{
    match f {
        Fields::Named(x) => lemma_field_list_reflexive(x@),
        Fields::Unnamed(x) => lemma_field_list_reflexive(x@),
        Fields::Unit => {},
    }
}

proof fn lemma_variant_list_reflexive(xs: Seq<Variant>, relax: bool)
    requires
        forall|i: int| 0 <= i < xs.len() ==> fields_supported(#[trigger] xs[i].fields),
    ensures
        variant_list_outcome(xs, xs, relax) == Ok::<(), MismatchView>(()),
    decreases xs.len(),
{
    if xs.len() > 0 {
        assert(fields_supported(xs[0].fields));
        lemma_fields_reflexive(xs[0].fields);
        assert forall|i: int| 0 <= i < xs.drop_first().len() implies fields_supported(
            #[trigger] xs.drop_first()[i].fields,
        ) by {
            assert(xs.drop_first()[i] == xs[i + 1]);
        }
        lemma_variant_list_reflexive(xs.drop_first(), relax);
    }
}

/// Reflexivity: every declaration without unsupported constructs is
/// equivalent to itself, with or without relaxed variant names.
pub proof fn lemma_reflexive(t: Decl, relax: bool)
    requires
        decl_supported(t),
    ensures
        decl_outcome(t, t, relax) == Ok::<(), MismatchView>(()),
{
    match t.data {
        Data::Record(f) => lemma_fields_reflexive(f),
        Data::Union(v) => lemma_variant_list_reflexive(v@, relax),
        Data::Other => {},
    }
}

/// A token run with no top-level comma: one directive.
pub open spec fn comma_free(r: Seq<Token>) -> bool {
    forall|i: int| 0 <= i < r.len() ==> !is_comma(#[trigger] r[i])
}

proof fn lemma_split_nonempty(x: Seq<Token>)
    ensures
        split_run(x).len() >= 1,
    decreases x.len(),
{
    if x.len() > 0 {
        lemma_split_nonempty(x.drop_last());
    }
}

/// Appending tokens without a top-level comma extends the last directive.
proof fn lemma_split_extend(x: Seq<Token>, r: Seq<Token>)
    requires
        comma_free(r),
    ensures
        split_run(x).len() >= 1,
        split_run(x + r) == split_run(x).update(
            split_run(x).len() - 1,
            split_run(x).last() + r,
        ),
    decreases r.len(),
{
    lemma_split_nonempty(x);
    let ps = split_run(x);
    if r.len() == 0 {
        assert(x + r =~= x);
        assert(ps.last() + r =~= ps.last());
        assert(ps.update(ps.len() - 1, ps.last() + r) =~= ps);
    } else {
        let r1 = r.drop_last();
        assert(comma_free(r1)) by {
            assert forall|i: int| 0 <= i < r1.len() implies !is_comma(#[trigger] r1[i]) by {
                assert(r1[i] == r[i]);
            }
        }
        lemma_split_extend(x, r1);
        assert((x + r).drop_last() =~= x + r1);
        assert((x + r).last() == r[r.len() - 1]);
        assert(!is_comma(r[r.len() - 1]));
        assert((ps.last() + r1).push(r.last()) =~= ps.last() + r);
        assert(split_run(x + r) =~= ps.update(ps.len() - 1, ps.last() + r));
    }
}

/// A payload that is one directive splits into just that directive.
proof fn lemma_split_single(r: Seq<Token>)
    requires
        comma_free(r),
    ensures
        split_run(r) == seq![r],
{
    let e = Seq::<Token>::empty();
    lemma_split_extend(e, r);
    assert(e + r =~= r);
    assert(Seq::<Token>::empty() + r =~= r);
    assert(split_run(e).update(0, split_run(e).last() + r) =~= seq![r]);
}

/// A comma followed by one more directive adds that directive.
proof fn lemma_split_after_comma(ts: Seq<Token>, c: Token, r: Seq<Token>)
    requires
        is_comma(c),
        comma_free(r),
    ensures
        split_run(ts.push(c) + r) == split_run(ts).push(r),
{
    assert(ts.push(c).drop_last() =~= ts);
    lemma_split_extend(ts.push(c), r);
    let ps = split_run(ts);
    assert(Seq::<Token>::empty() + r =~= r);
    assert(ps.push(Seq::empty()).update(ps.len() as int, Seq::<Token>::empty() + r) =~= ps.push(r));
}

/// Rename-insensitivity of a payload: a rename directive added after the
/// others, or removed from the end, leaves the directive set as it is.
pub proof fn lemma_rename_directive_ignored(ts: Seq<Token>, c: Token, r: Seq<Token>)
    requires
        is_comma(c),
        comma_free(r),
        is_rename(run_text(r)),
    ensures
        directive_set(ts.push(c) + r) == directive_set(ts),
{
    lemma_split_after_comma(ts, c, r);
    lemma_kept_push(split_run(ts), r);
}

/// A serialization attribute that holds one rename directive and nothing else.
pub open spec fn rename_only(a: Attribute) -> bool {
    &&& is_serde(a)
    &&& single_group(a)
    &&& comma_free(group_inner(a))
    &&& is_rename(run_text(group_inner(a)))
}

proof fn lemma_rename_attribute_set(attrs: Seq<Attribute>, a: Attribute)
    requires
        rename_only(a),
    ensures
        attrs_supported(attrs.push(a)) == attrs_supported(attrs),
        attr_set(attrs.push(a)) == attr_set(attrs),
{
    let q = attrs.push(a);
    assert(q.drop_last() =~= attrs);
    lemma_split_single(group_inner(a));
    lemma_kept_push(Seq::empty(), group_inner(a));
    assert(Seq::<Seq<Token>>::empty().push(group_inner(a)) =~= seq![group_inner(a)]);
    assert(kept(Seq::empty()) =~= Set::<Seq<char>>::empty());
    assert(attr_set(q) =~= attr_set(attrs));
    if attrs_supported(q) {
        assert forall|i: int| 0 <= i < attrs.len() && is_serde(#[trigger] attrs[i]) implies single_group(attrs[i]) by {
            assert(q[i] == attrs[i]);
        }
    }
    if attrs_supported(attrs) {
        assert forall|i: int| 0 <= i < q.len() && is_serde(#[trigger] q[i]) implies single_group(q[i]) by {
            if i < attrs.len() {
                assert(q[i] == attrs[i]);
            }
        }
    }
}

/// Rename-insensitivity of a declaration: one that differs from another only
/// by an added rename-only serialization attribute compares with any third
/// declaration, on either side, exactly as the other does.
pub proof fn lemma_rename_attribute_ignored(d: Decl, renamed: Decl, a: Attribute, other: Decl, relax: bool)
    requires
        rename_only(a),
        renamed.ident == d.ident,
        renamed.data == d.data,
        renamed.attrs@ == d.attrs@.push(a),
    ensures
        decl_outcome(renamed, other, relax) == decl_outcome(d, other, relax),
        decl_outcome(other, renamed, relax) == decl_outcome(other, d, relax),
{
    lemma_rename_attribute_set(d.attrs@, a);
}

/// Rename-insensitivity of a field: as for declarations.
pub proof fn lemma_rename_field_ignored(f: Field, renamed: Field, a: Attribute, other: Field)
    requires
        rename_only(a),
        renamed.ident == f.ident,
        renamed.ty == f.ty,
        renamed.attrs@ == f.attrs@.push(a),
    ensures
        field_outcome(renamed, other) == field_outcome(f, other),
        field_outcome(other, renamed) == field_outcome(other, f),
{
    lemma_rename_attribute_set(f.attrs@, a);
}

/// Directives written one after another, separated by the comma `c`.
pub open spec fn join_directives(ds: Seq<Seq<Token>>, c: Token) -> Seq<Token>
    decreases ds.len(),
{
    if ds.len() == 0 {
        Seq::empty()
    } else if ds.len() == 1 {
        ds[0]
    } else {
        join_directives(ds.drop_last(), c).push(c) + ds.last()
    }
}

proof fn lemma_split_join(ds: Seq<Seq<Token>>, c: Token)
    requires
        ds.len() >= 1,
        is_comma(c),
        forall|i: int| 0 <= i < ds.len() ==> comma_free(#[trigger] ds[i]),
    ensures
        split_run(join_directives(ds, c)) == ds,
    decreases ds.len(),
{
    if ds.len() == 1 {
        assert(comma_free(ds[0]));
        lemma_split_single(ds[0]);
        assert(ds =~= seq![ds[0]]);
    } else {
        let d1 = ds.drop_last();
        assert forall|i: int| 0 <= i < d1.len() implies comma_free(#[trigger] d1[i]) by {
            assert(d1[i] == ds[i]);
        }
        lemma_split_join(d1, c);
        assert(comma_free(ds[ds.len() - 1]));
        lemma_split_after_comma(join_directives(d1, c), c, ds.last());
        assert(d1.push(ds.last()) =~= ds);
    }
}

proof fn lemma_kept_subset(ds: Seq<Seq<Token>>, es: Seq<Seq<Token>>)
    requires
        ds.to_multiset() == es.to_multiset(),
    ensures
        kept(ds).subset_of(kept(es)),
{
    ds.to_multiset_ensures();
    es.to_multiset_ensures();
    assert forall|x: Seq<char>| kept(ds).contains(x) implies kept(es).contains(x) by {
        let j = choose|j: int| 0 <= j < ds.len() && #[trigger] run_text(ds[j]) == x && !is_rename(x);
        assert(ds.contains(ds[j]));
        assert(ds.to_multiset().count(ds[j]) > 0);
        assert(es.to_multiset().count(ds[j]) > 0);
        assert(es.contains(ds[j]));
        let k = choose|k: int| 0 <= k < es.len() && es[k] == ds[j];
        assert(run_text(es[k]) == x);
    }
}

/// Order-insensitivity: writing a payload's directives in another order
/// leaves its directive set as it is.
pub proof fn lemma_directive_order_irrelevant(ds: Seq<Seq<Token>>, es: Seq<Seq<Token>>, c: Token)
    requires
        ds.len() >= 1,
        is_comma(c),
        forall|i: int| 0 <= i < ds.len() ==> comma_free(#[trigger] ds[i]),
        ds.to_multiset() == es.to_multiset(),
    ensures
        directive_set(join_directives(ds, c)) == directive_set(join_directives(es, c)),
{
    ds.to_multiset_ensures();
    es.to_multiset_ensures();
    assert forall|i: int| 0 <= i < es.len() implies comma_free(#[trigger] es[i]) by {
        assert(es.contains(es[i]));
        assert(es.to_multiset().count(es[i]) > 0);
        assert(ds.to_multiset().count(es[i]) > 0);
        assert(ds.contains(es[i]));
        let k = choose|k: int| 0 <= k < ds.len() && ds[k] == es[i];
        assert(comma_free(ds[k]));
    }
    lemma_split_join(ds, c);
    lemma_split_join(es, c);
    lemma_kept_subset(ds, es);
    lemma_kept_subset(es, ds);
    assert(kept(ds) =~= kept(es));
}

proof fn lemma_variant_names_ignored(xs: Seq<Variant>, ys: Seq<Variant>, zs: Seq<Variant>)
    requires
        xs.len() == ys.len(),
        forall|i: int| 0 <= i < xs.len() ==> (#[trigger] xs[i]).fields == ys[i].fields,
    ensures
        variant_list_outcome(xs, zs, true) == variant_list_outcome(ys, zs, true),
        variant_list_outcome(zs, xs, true) == variant_list_outcome(zs, ys, true),
    decreases xs.len(),
{
    if xs.len() > 0 && zs.len() > 0 {
        assert(xs[0].fields == ys[0].fields);
        let (x1, y1) = (xs.drop_first(), ys.drop_first());
        assert forall|i: int| 0 <= i < x1.len() implies (#[trigger] x1[i]).fields == y1[i].fields by {
            assert(x1[i] == xs[i + 1]);
            assert(y1[i] == ys[i + 1]);
        }
        lemma_variant_names_ignored(x1, y1, zs.drop_first());
    }
}

/// Two declarations that are the same union but for the identifiers of its variants.
pub open spec fn differ_in_variant_names(b: Decl, c: Decl) -> bool {
    &&& b.ident == c.ident
    &&& b.attrs == c.attrs
    &&& match (b.data, c.data) {
        (Data::Union(x), Data::Union(y)) => x@.len() == y@.len() && forall|i: int|
            0 <= i < x@.len() ==> (#[trigger] x@[i]).fields == y@[i].fields,
        _ => false,
    }
}

/// Variant-name relaxation: with relaxed variant names, a union compares with
/// any declaration, on either side, as the same union with other variant
/// identifiers does.
pub proof fn lemma_relaxed_variant_names(a: Decl, b: Decl, c: Decl)
    requires
        differ_in_variant_names(b, c),
    ensures
        decl_outcome(a, b, true) == decl_outcome(a, c, true),
        decl_outcome(b, a, true) == decl_outcome(c, a, true),
{
    match (b.data, c.data) {
        (Data::Union(x), Data::Union(y)) => {
            match a.data {
                Data::Union(z) => lemma_variant_names_ignored(x@, y@, z@),
                _ => {},
            }
        },
        _ => {},
    }
}

/// Without relaxation, unions whose first variants have different
/// identifiers fail on those identifiers, once names and attributes agree.
pub proof fn lemma_strict_variant_names(a: Decl, b: Decl)
    requires
        a.ident@ == b.ident@,
        attrs_outcome(a.attrs@, b.attrs@) == Ok::<(), MismatchView>(()),
        a.data is Union,
        b.data is Union,
        a.data->Union_0@.len() == b.data->Union_0@.len(),
        a.data->Union_0@.len() > 0,
        a.data->Union_0@[0].ident@ != b.data->Union_0@[0].ident@,
    ensures
        decl_outcome(a, b, false) == Err::<(), MismatchView>(
            MismatchView::Ident {
                expected: a.data->Union_0@[0].ident@,
                actual: b.data->Union_0@[0].ident@,
            },
        ),
{
}

pub open spec fn field_count(f: Fields) -> nat {
    match f {
        Fields::Named(x) => x@.len(),
        Fields::Unnamed(x) => x@.len(),
        Fields::Unit => 0,
    }
}

/// Length mismatch: field containers of one shape but different lengths fail
/// on their lengths, before any field is compared.
pub proof fn lemma_length_mismatch(a: Fields, b: Fields)
    requires
        (a is Named && b is Named) || (a is Unnamed && b is Unnamed),
        field_count(a) != field_count(b),
    ensures
        fields_outcome(a, b) == Err::<(), MismatchView>(
            MismatchView::Length { expected: field_count(a), actual: field_count(b) },
        ),
{
}

/// Type-reference kind mismatch: a path never matches a tuple.
pub proof fn lemma_path_tuple_mismatch(p: TypeRef, t: TypeRef)
    requires
        p is Path,
        t is Tuple,
    ensures
        type_outcome(p, t) == Err::<(), MismatchView>(
            MismatchView::TypeKind { expected: RefKind::Path, actual: RefKind::Tuple },
        ),
        type_outcome(t, p) == Err::<(), MismatchView>(
            MismatchView::TypeKind { expected: RefKind::Tuple, actual: RefKind::Path },
        ),
{
}

/// Sequence-position sensitivity: once names and attributes agree, a union's
/// first variant is compared with the other union's first variant only, and a
/// mismatch there is the outcome, wherever else a matching variant stands.
pub proof fn lemma_position_governs(a: Decl, b: Decl, relax: bool)
    requires
        a.ident@ == b.ident@,
        attrs_outcome(a.attrs@, b.attrs@) == Ok::<(), MismatchView>(()),
        a.data is Union,
        b.data is Union,
        a.data->Union_0@.len() == b.data->Union_0@.len(),
        a.data->Union_0@.len() > 0,
        variant_outcome(a.data->Union_0@[0], b.data->Union_0@[0], relax) is Err,
    ensures
        decl_outcome(a, b, relax) == variant_outcome(a.data->Union_0@[0], b.data->Union_0@[0], relax),
{
}

} // verus!
