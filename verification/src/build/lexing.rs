//! Reading the printed tokens of a macro call's arguments as the builder's
//! tokens: `proc_macro2` lexes one level of token trees, and each group's
//! tokens are read in turn.

use vstd::prelude::*;
use vstd::string::StrSliceExecFns;
use proc_macro2::{Delimiter as LexDelimiter, Spacing, TokenTree};
use crate::build::grammar::{Delimiter, Token};
use crate::build::source::{ident_of, ident_text};

verus! {

/// A token tree as lexed: an identifier, a punctuation character with
/// whether it is joined to the next, a literal, or a group with its
/// delimiters (none for an invisible group) and its printed tokens.
#[derive(Debug)]
pub enum RawTree {
    Ident(String),
    Punct(char, bool),
    Literal(String),
    Group(Option<Delimiter>, String),
}

/// The token trees of a text, one level deep, as `proc_macro2` lexes
/// them; none where the text does not lex.
pub uninterp spec fn token_trees(text: Seq<char>) -> Option<Vec<RawTree>>;

/// The value of a printed string literal, as `syn::parse_str::<syn::LitStr>`
/// reads it; none for another text.
pub uninterp spec fn lit_str(t: Seq<char>) -> Option<String>;

/// Calls `<proc_macro2::TokenStream as std::str::FromStr>::from_str`.
/// Trusted: the result is what `token_trees` names for the text.
#[verifier::external_body]
fn token_trees_of(text: &str) -> (r: Option<Vec<RawTree>>)
    ensures
        r == token_trees(text@),
{
    let mut out = Vec::new();
    for t in text.parse::<proc_macro2::TokenStream>().ok()? {
        out.push(match t {
            TokenTree::Ident(i) => RawTree::Ident(i.to_string()),
            TokenTree::Punct(p) => RawTree::Punct(p.as_char(), matches!(p.spacing(), Spacing::Joint)),
            TokenTree::Literal(l) => RawTree::Literal(l.to_string()),
            TokenTree::Group(g) => RawTree::Group(match g.delimiter() {
                LexDelimiter::Parenthesis => Some(Delimiter::Parenthesis),
                LexDelimiter::Brace => Some(Delimiter::Brace),
                LexDelimiter::Bracket => Some(Delimiter::Bracket),
                LexDelimiter::None => None,
            }, g.stream().to_string()),
        });
    }
    Some(out)
}

/// Calls `syn::parse_str::<syn::LitStr>` and takes the literal's value.
/// Trusted: the result is what `lit_str` names for the text.
#[verifier::external_body]
fn lit_str_of(t: &str) -> (r: Option<String>)
    ensures
        r == lit_str(t@),
{
    match syn::parse_str::<syn::LitStr>(t) {
        Ok(s) => Some(s.value()),
        Err(_) => None,
    }
}

/// Whether `t` is what the lexed tree reads as: an identifier with whether
/// it can be a name, a punctuation character, a literal with its string
/// value, or a delimited group whose tokens read, with `fuel` more levels
/// of groups to go. An invisible group, which lexing a text never gives,
/// does not read.
pub open spec fn tree_reads(t: Token, tree: RawTree, fuel: nat) -> bool
    decreases fuel, 0nat,
{
    match tree {
        RawTree::Ident(s) => t == Token::Ident(s, ident_text(s@) is Some),
        RawTree::Punct(c, j) => t == Token::Punct(c, j),
        RawTree::Literal(s) => t == Token::Literal(s, lit_str(s@)),
        RawTree::Group(Some(d), inner) => if fuel > 0 {
            match t {
                Token::Group(d2, v) => d2 == d && match token_trees(inner@) {
                    Some(trees) => trees_read(v@, trees@, (fuel - 1) as nat),
                    None => false,
                },
                _ => false,
            }
        } else {
            false
        },
        RawTree::Group(None, _) => false,
    }
}

/// Whether the tokens `ts` are what the lexed trees read as, one for one.
pub open spec fn trees_read(ts: Seq<Token>, trees: Seq<RawTree>, fuel: nat) -> bool
    decreases fuel, trees.len(),
{
    if trees.len() == 0 {
        ts.len() == 0
    } else {
        &&& ts.len() == trees.len()
        &&& trees_read(ts.drop_last(), trees.drop_last(), fuel)
        &&& tree_reads(ts.last(), trees.last(), fuel)
    }
}

/// Whether the tokens `ts` are what the text reads as.
pub open spec fn text_reads(ts: Seq<Token>, text: Seq<char>, fuel: nat) -> bool {
    match token_trees(text) {
        Some(trees) => trees_read(ts, trees@, fuel),
        None => false,
    }
}

/// Tokens that read as trees read each tree in turn.
proof fn lemma_trees_read_at(ts: Seq<Token>, trees: Seq<RawTree>, fuel: nat, i: int)
    requires
        trees_read(ts, trees, fuel),
        0 <= i < trees.len(),
    ensures
        tree_reads(ts[i], trees[i], fuel),
    decreases trees.len(),
{
    if i < trees.len() - 1 {
        lemma_trees_read_at(ts.drop_last(), trees.drop_last(), fuel, i);
        assert(ts.drop_last()[i] == ts[i]);
        assert(trees.drop_last()[i] == trees[i]);
    }
}

/// Reads the tokens of a text, with `fuel` levels of groups.
fn read_tokens(text: &str, fuel: usize) -> (r: Option<Vec<Token>>)
    ensures
        match r {
            Some(ts) => text_reads(ts@, text@, fuel as nat),
            None => forall|ts: Seq<Token>| !#[trigger] text_reads(ts, text@, fuel as nat),
        },
    decreases fuel,
{
    let trees = match token_trees_of(text) {
        Some(t) => t,
        None => return None,
    };
    let mut out: Vec<Token> = Vec::new();
    let mut i: usize = 0;
    while i < trees.len()
        invariant
            i <= trees@.len(),
            token_trees(text@) == Some(trees),
            trees_read(out@, trees@.take(i as int), fuel as nat),
            out@.len() == i,
        decreases trees@.len() - i,
    {
        assert(trees@.take(i + 1).drop_last() =~= trees@.take(i as int));
        assert(trees@.take(i + 1).last() == trees@[i as int]);
        let t = match &trees[i] {
            RawTree::Ident(s) => Token::Ident(s.clone(), ident_of(s.as_str()).is_some()),
            RawTree::Punct(c, j) => Token::Punct(*c, *j),
            RawTree::Literal(s) => Token::Literal(s.clone(), lit_str_of(s.as_str())),
            RawTree::Group(Some(d), inner) => {
                if fuel == 0 {
                    proof {
                        lemma_tree_fails(trees@, fuel as nat, i as int, text@);
                    }
                    return None;
                }
                match read_tokens(inner.as_str(), fuel - 1) {
                    Some(v) => Token::Group(*d, v),
                    None => {
                        proof {
                            assert forall|t: Token| !#[trigger] tree_reads(t, trees@[i as int], fuel as nat) by {
                                if let Token::Group(d2, v) = t {
                                    assert(!text_reads(v@, inner@, (fuel - 1) as nat));
                                }
                            }
                            lemma_tree_fails(trees@, fuel as nat, i as int, text@);
                        }
                        return None;
                    },
                }
            },
            RawTree::Group(None, _) => {
                proof {
                    lemma_tree_fails(trees@, fuel as nat, i as int, text@);
                }
                return None;
            },
        };
        assert(tree_reads(t, trees@[i as int], fuel as nat));
        let ghost o0 = out@;
        let ghost gt = t;
        out.push(t);
        assert(out@.drop_last() =~= o0);
        assert(out@.last() == gt);
        assert(out@.len() == i + 1);
        i = i + 1;
    }
    assert(trees@.take(i as int) =~= trees@);
    Some(out)
}

/// Where one tree reads as no token, the text reads as no tokens.
proof fn lemma_tree_fails(trees: Seq<RawTree>, fuel: nat, i: int, text: Seq<char>)
    requires
        token_trees(text) matches Some(t) && t@ == trees,
        0 <= i < trees.len(),
        forall|t: Token| !#[trigger] tree_reads(t, trees[i], fuel),
    ensures
        forall|ts: Seq<Token>| !#[trigger] text_reads(ts, text, fuel),
{
    assert forall|ts: Seq<Token>| !#[trigger] text_reads(ts, text, fuel) by {
        if text_reads(ts, text, fuel) {
            lemma_trees_read_at(ts, trees, fuel, i);
        }
    }
}

/// The builder's tokens that the printed tokens `text` read as; none
/// where the text does not lex, or holds an invisible group. Groups may
/// nest as deep as the text is long.
pub fn tokens_of_text(text: &str) -> (r: Option<Vec<Token>>)
    ensures
        match r {
            Some(ts) => text_reads(ts@, text@, text@.len()),
            None => forall|ts: Seq<Token>| !#[trigger] text_reads(ts, text@, text@.len()),
        },
{
    read_tokens(text, text.unicode_len())
}

} // verus!
