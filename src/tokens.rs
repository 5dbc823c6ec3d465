//! A plain model of an attribute's token run, and its canonical text.
use vstd::prelude::*;
use vstd::string::*;

verus! {

/// How a group of tokens is enclosed.
#[derive(Clone, Copy, Debug, PartialEq, Eq, Structural)]
pub enum Delimiter {
    Parenthesis,
    Brace,
    Bracket,
    Invisible,
}

/// One token of an attribute's payload. Whitespace carries no meaning here.
#[derive(Debug)]
pub enum Token {
    Ident(String),
    Literal(String),
    Punct(char),
    Group(Delimiter, Vec<Token>),
}

pub open spec fn open_text(d: Delimiter) -> Seq<char> {
    match d {
        Delimiter::Parenthesis => seq!['('],
        Delimiter::Brace => seq!['{'],
        Delimiter::Bracket => seq!['['],
        Delimiter::Invisible => Seq::empty(),
    }
}

pub open spec fn close_text(d: Delimiter) -> Seq<char> {
    match d {
        Delimiter::Parenthesis => seq![')'],
        Delimiter::Brace => seq!['}'],
        Delimiter::Bracket => seq![']'],
        Delimiter::Invisible => Seq::empty(),
    }
}

/// Canonical text of one token: its own text, a group enclosed in its delimiters.
pub open spec fn token_text(t: Token) -> Seq<char>
    decreases t,
{
    match t {
        Token::Ident(s) => s@,
        Token::Literal(s) => s@,
        Token::Punct(c) => seq![c],
        Token::Group(d, inner) => open_text(d) + run_text(inner@) + close_text(d),
    }
}

/// Canonical text of a token run: the tokens' texts separated by one space.
pub open spec fn run_text(ts: Seq<Token>) -> Seq<char>
    decreases ts,
{
    if ts.len() == 0 {
        Seq::empty()
    } else if ts.len() == 1 {
        token_text(ts[0])
    } else {
        run_text(ts.drop_last()) + seq![' '] + token_text(ts.last())
    }
}

/// Relies on `ToString` for `char`: a string that holds the one character.
#[verifier::external_body]
fn char_string(c: char) -> (r: String)
    ensures
        r@ == seq![c],
{
    c.to_string()
}

fn append_open(out: &mut String, d: Delimiter)
    ensures
        final(out)@ == old(out)@ + open_text(d),
{
    proof {
        reveal_strlit("(");
        reveal_strlit("{");
        reveal_strlit("[");
    }
    match d {
        Delimiter::Parenthesis => out.append("("),
        Delimiter::Brace => out.append("{"),
        Delimiter::Bracket => out.append("["),
        Delimiter::Invisible => {
            assert(old(out)@ + open_text(d) =~= old(out)@);
        },
    }
}

fn append_close(out: &mut String, d: Delimiter)
    ensures
        final(out)@ == old(out)@ + close_text(d),
{
    proof {
        reveal_strlit(")");
        reveal_strlit("}");
        reveal_strlit("]");
    }
    match d {
        Delimiter::Parenthesis => out.append(")"),
        Delimiter::Brace => out.append("}"),
        Delimiter::Bracket => out.append("]"),
        Delimiter::Invisible => {
            assert(old(out)@ + close_text(d) =~= old(out)@);
        },
    }
}

/// Appends the canonical text of one token.
pub fn append_token(out: &mut String, t: &Token)
    ensures
        final(out)@ == old(out)@ + token_text(*t),
    decreases t,
{
    match t {
        Token::Ident(s) => out.append(s.as_str()),
        Token::Literal(s) => out.append(s.as_str()),
        Token::Punct(c) => {
            let s = char_string(*c);
            out.append(s.as_str());
        },
        Token::Group(d, inner) => {
            append_open(out, *d);
            let text = render_run(inner);
            out.append(text.as_str());
            append_close(out, *d);
            assert(final(out)@ =~= old(out)@ + token_text(*t));
        },
    }
}

/// The canonical text of a token run.
pub fn render_run(ts: &Vec<Token>) -> (r: String)
    ensures
        r@ == run_text(ts@),
    decreases ts,
{
    let mut out = String::new();
    let mut i: usize = 0;
    while i < ts.len()
        invariant
            i <= ts.len(),
            out@ == run_text(ts@.subrange(0, i as int)),
        decreases ts.len() - i,
    {
        let ghost pre = ts@.subrange(0, i as int);
        if i > 0 {
            out.append(" ");
            proof { reveal_strlit(" "); }
        }
        proof {
            assert(decreases_to!(ts => ts@));
            assert(decreases_to!(ts@ => ts@[i as int]));
        }
        append_token(&mut out, &ts[i]);
        proof {
            let next = ts@.subrange(0, i + 1);
            assert(next.drop_last() =~= pre);
            assert(next.last() == ts@[i as int]);
            if i == 0 {
                assert(pre.len() == 0);
                assert(out@ =~= run_text(next));
            }
        }
        i += 1;
    }
    assert(ts@.subrange(0, ts.len() as int) =~= ts@);
    out
}

} // verus!
