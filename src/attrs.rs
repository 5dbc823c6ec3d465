//! Serialization attributes and their normalized directive sets.
use vstd::prelude::*;
use vstd::string::*;
use crate::tokens::{Token, run_text, append_token};
use crate::mismatch::{Mismatch, text_set};

verus! {

/// An attribute: the first segment of its path, and the tokens after the path.
#[derive(Debug)]
pub struct Attribute {
    pub namespace: String,
    pub tokens: Vec<Token>,
}

pub open spec fn is_comma(t: Token) -> bool {
    t matches Token::Punct(c) && c == ','
}

/// The directives of a token run: the pieces between its top-level commas.
/// Commas inside a group are part of that group; a run with `n` commas has
/// `n + 1` pieces, some possibly empty.
pub open spec fn split_run(ts: Seq<Token>) -> Seq<Seq<Token>>
    decreases ts.len(),
{
    if ts.len() == 0 {
        seq![Seq::empty()]
    } else {
        let rest = split_run(ts.drop_last());
        if is_comma(ts.last()) {
            rest.push(Seq::empty())
        } else {
            rest.update(rest.len() - 1, rest.last().push(ts.last()))
        }
    }
}

pub open spec fn rename_prefix() -> Seq<char> {
    seq!['r', 'e', 'n', 'a', 'm', 'e']
}

/// A directive text that begins with `rename` only renames.
pub open spec fn is_rename(s: Seq<char>) -> bool {
    s.len() >= 6 && s.subrange(0, 6) == rename_prefix()
}

/// The texts of the given directives that are not renames.
pub open spec fn kept(ps: Seq<Seq<Token>>) -> Set<Seq<char>> {
    Set::new(
        |x: Seq<char>|
            exists|j: int| 0 <= j < ps.len() && #[trigger] run_text(ps[j]) == x && !is_rename(x),
    )
}

/// The normalized set of one payload's directives.
pub open spec fn directive_set(ts: Seq<Token>) -> Set<Seq<char>> {
    kept(split_run(ts))
}

pub open spec fn is_serde(a: Attribute) -> bool {
    a.namespace@ == seq!['s', 'e', 'r', 'd', 'e']
}

pub open spec fn single_group(a: Attribute) -> bool {
    a.tokens@.len() == 1 && a.tokens@[0] is Group
}

pub open spec fn group_inner(a: Attribute) -> Seq<Token> {
    match a.tokens@[0] {
        Token::Group(_, inner) => inner@,
        _ => Seq::empty(),
    }
}

/// Every serialization attribute has a payload of exactly one group.
pub open spec fn attrs_supported(attrs: Seq<Attribute>) -> bool {
    forall|i: int| 0 <= i < attrs.len() && is_serde(#[trigger] attrs[i]) ==> single_group(attrs[i])
}

/// The normalized attribute set: the union of the directive sets of the
/// serialization attributes; other attributes add nothing.
pub open spec fn attr_set(attrs: Seq<Attribute>) -> Set<Seq<char>>
    decreases attrs.len(),
{
    if attrs.len() == 0 {
        Set::empty()
    } else {
        let a = attrs.last();
        let rest = attr_set(attrs.drop_last());
        if is_serde(a) && single_group(a) {
            rest.union(directive_set(group_inner(a)))
        } else {
            rest
        }
    }
}

pub open spec fn distinct(v: Seq<String>) -> bool {
    forall|i: int, j: int| 0 <= i < j < v.len() ==> v[i]@ != v[j]@
}

pub proof fn lemma_kept_push(ps: Seq<Seq<Token>>, p: Seq<Token>)
    ensures
        kept(ps.push(p)) == (if is_rename(run_text(p)) {
            kept(ps)
        } else {
            kept(ps).insert(run_text(p))
        }),
{
    let q = ps.push(p);
    assert forall|x: Seq<char>| kept(ps).contains(x) implies kept(q).contains(x) by {
        let j = choose|j: int| 0 <= j < ps.len() && #[trigger] run_text(ps[j]) == x && !is_rename(x);
        assert(q[j] == ps[j]);
    }
    if !is_rename(run_text(p)) {
        assert(q[ps.len() as int] == p);
    }
    assert forall|x: Seq<char>| kept(q).contains(x) implies (kept(ps).contains(x) || (x == run_text(p) && !is_rename(x))) by {
        let j = choose|j: int| 0 <= j < q.len() && #[trigger] run_text(q[j]) == x && !is_rename(x);
        if j < ps.len() {
            assert(q[j] == ps[j]);
        }
    }
    if is_rename(run_text(p)) {
        assert(kept(q) =~= kept(ps));
    } else {
        assert(kept(q) =~= kept(ps).insert(run_text(p)));
    }
}

/// Whether the text begins with `rename`.
pub fn is_rename_text(s: &String) -> (r: bool)
    ensures
        r == is_rename(s@),
{
    let t = s.as_str();
    let p = "rename";
    proof { reveal_strlit("rename"); }
    if t.unicode_len() < 6 {
        return false;
    }
    let mut i: usize = 0;
    while i < 6
        invariant
            i <= 6,
            s@.len() >= 6,
            t@ == s@,
            p@ == rename_prefix(),
            forall|j: int| 0 <= j < i ==> s@[j] == rename_prefix()[j],
        decreases 6 - i,
    {
        if t.get_char(i) != p.get_char(i) {
            assert(s@.subrange(0, 6)[i as int] != rename_prefix()[i as int]);
            return false;
        }
        i += 1;
    }
    assert(s@.subrange(0, 6) =~= rename_prefix());
    true
}

/// Whether `v` holds a string equal to `s`.
pub fn holds_text(v: &Vec<String>, s: &String) -> (r: bool)
    ensures
        r == text_set(v@).contains(s@),
{
    let mut i: usize = 0;
    while i < v.len()
        invariant
            i <= v.len(),
            forall|j: int| 0 <= j < i ==> v@[j]@ != s@,
        decreases v.len() - i,
    {
        if v[i] == *s {
            return true;
        }
        i += 1;
    }
    false
}

/// Adds a directive text to a set of texts, unless it is a rename or already there.
fn insert_kept(out: &mut Vec<String>, s: String)
    requires
        distinct(old(out)@),
    ensures
        distinct(final(out)@),
        text_set(final(out)@) == (if is_rename(s@) {
            text_set(old(out)@)
        } else {
            text_set(old(out)@).insert(s@)
        }),
{
    if is_rename_text(&s) || holds_text(out, &s) {
        return;
    }
    let ghost pre = out@;
    let ghost t = s@;
    out.push(s);
    assert(out@[pre.len() as int]@ == t);
    assert forall|x: Seq<char>| text_set(out@).contains(x) <==> text_set(pre).insert(t).contains(x) by {
        if text_set(pre).contains(x) {
            let j = choose|j: int| 0 <= j < pre.len() && pre[j]@ == x;
            assert(out@[j] == pre[j]);
        }
        if text_set(out@).contains(x) {
            let j = choose|j: int| 0 <= j < out@.len() && out@[j]@ == x;
            if j < pre.len() {
                assert(out@[j] == pre[j]);
            }
        }
    }
    assert(text_set(out@) =~= text_set(pre).insert(t));
}

/// Adds the kept directive texts of one payload to `out`.
fn add_directives(out: &mut Vec<String>, ts: &Vec<Token>)
    requires
        distinct(old(out)@),
    ensures
        distinct(final(out)@),
        text_set(final(out)@) == text_set(old(out)@).union(directive_set(ts@)),
{
    let ghost base = text_set(out@);
    let mut cur = String::new();
    let mut started = false;
    let mut i: usize = 0;
    while i < ts.len()
        invariant
            i <= ts.len(),
            distinct(out@),
            split_run(ts@.subrange(0, i as int)).len() >= 1,
            cur@ == run_text(split_run(ts@.subrange(0, i as int)).last()),
            started == (split_run(ts@.subrange(0, i as int)).last().len() > 0),
            text_set(out@) == base.union(kept(split_run(ts@.subrange(0, i as int)).drop_last())),
        decreases ts.len() - i,
    {
        let ghost pre = ts@.subrange(0, i as int);
        let ghost ps = split_run(pre);
        let ghost next = ts@.subrange(0, i + 1);
        assert(next.drop_last() =~= pre);
        assert(next.last() == ts@[i as int]);
        let comma = match &ts[i] {
            Token::Punct(c) => *c == ',',
            _ => false,
        };
        if comma {
            let done = cur;
            proof { lemma_kept_push(ps.drop_last(), ps.last()); }
            assert(ps.drop_last().push(ps.last()) =~= ps);
            insert_kept(out, done);
            cur = String::new();
            started = false;
            assert(split_run(next).drop_last() =~= ps);
            assert(text_set(out@) =~= base.union(kept(split_run(next).drop_last())));
        } else {
            if started {
                cur.append(" ");
                proof { reveal_strlit(" "); }
            }
            append_token(&mut cur, &ts[i]);
            started = true;
            let ghost piece = ps.last();
            assert(piece.push(ts@[i as int]).drop_last() =~= piece);
            assert(split_run(next).drop_last() =~= ps.drop_last());
            assert(cur@ =~= run_text(piece.push(ts@[i as int])));
        }
        i += 1;
    }
    assert(ts@.subrange(0, ts.len() as int) =~= ts@);
    let ghost ps = split_run(ts@);
    proof { lemma_kept_push(ps.drop_last(), ps.last()); }
    assert(ps.drop_last().push(ps.last()) =~= ps);
    insert_kept(out, cur);
    assert(text_set(out@) =~= text_set(old(out)@).union(directive_set(ts@)));
}

/// Normalizes the attributes of a declaration, field or variant: the set of
/// directive texts of its serialization attributes, renames left out.
/// Fails on a serialization attribute whose payload is not exactly one group.
pub fn normalize(attrs: &Vec<Attribute>) -> (r: Result<Vec<String>, Mismatch>)
    ensures
        match r {
            Ok(v) => attrs_supported(attrs@) && text_set(v@) == attr_set(attrs@) && distinct(v@),
            Err(e) => !attrs_supported(attrs@) && e@ == crate::mismatch::MismatchView::UnsupportedAttribute,
        },
{
    let serde = String::from_str("serde");
    proof { reveal_strlit("serde"); }
    let mut out: Vec<String> = Vec::new();
    let mut i: usize = 0;
    while i < attrs.len()
        invariant
            i <= attrs.len(),
            serde@ == seq!['s', 'e', 'r', 'd', 'e'],
            distinct(out@),
            attrs_supported(attrs@.subrange(0, i as int)),
            text_set(out@) == attr_set(attrs@.subrange(0, i as int)),
        decreases attrs.len() - i,
    {
        let ghost pre = attrs@.subrange(0, i as int);
        let ghost next = attrs@.subrange(0, i + 1);
        assert(next.drop_last() =~= pre);
        assert(next.last() == attrs@[i as int]);
        let a = &attrs[i];
        if a.namespace == serde {
            if a.tokens.len() != 1 {
                assert(!attrs_supported(attrs@)) by {
                    assert(is_serde(attrs@[i as int]));
                }
                return Err(Mismatch::UnsupportedAttribute);
            }
            match &a.tokens[0] {
                Token::Group(_, inner) => {
                    add_directives(&mut out, inner);
                },
                _ => {
                    assert(!attrs_supported(attrs@)) by {
                        assert(is_serde(attrs@[i as int]));
                    }
                    return Err(Mismatch::UnsupportedAttribute);
                },
            }
        }
        assert forall|k: int| 0 <= k < next.len() && is_serde(#[trigger] next[k]) implies single_group(next[k]) by {
            if k < i {
                assert(next[k] == pre[k]);
            }
        }
        i += 1;
    }
    assert(attrs@.subrange(0, attrs.len() as int) =~= attrs@);
    Ok(out)
}

/// Whether two vectors of texts hold the same set of texts.
pub fn same_texts(a: &Vec<String>, b: &Vec<String>) -> (r: bool)
    ensures
        r == (text_set(a@) == text_set(b@)),
{
    let mut i: usize = 0;
    while i < a.len()
        invariant
            i <= a.len(),
            forall|j: int| 0 <= j < i ==> text_set(b@).contains(#[trigger] a@[j]@),
        decreases a.len() - i,
    {
        if !holds_text(b, &a[i]) {
            assert(text_set(a@).contains(a@[i as int]@));
            return false;
        }
        i += 1;
    }
    let mut k: usize = 0;
    while k < b.len()
        invariant
            k <= b.len(),
            forall|j: int| 0 <= j < a.len() ==> text_set(b@).contains(#[trigger] a@[j]@),
            forall|j: int| 0 <= j < k ==> text_set(a@).contains(#[trigger] b@[j]@),
        decreases b.len() - k,
    {
        if !holds_text(a, &b[k]) {
            assert(text_set(b@).contains(b@[k as int]@));
            return false;
        }
        k += 1;
    }
    assert forall|x: Seq<char>| text_set(a@).contains(x) <==> text_set(b@).contains(x) by {
        if text_set(a@).contains(x) {
            let j = choose|j: int| 0 <= j < a@.len() && a@[j]@ == x;
            assert(text_set(b@).contains(a@[j]@));
        }
        if text_set(b@).contains(x) {
            let j = choose|j: int| 0 <= j < b@.len() && b@[j]@ == x;
            assert(text_set(a@).contains(b@[j]@));
        }
    }
    assert(text_set(a@) =~= text_set(b@));
    true
}

} // verus!
