//! The token model of the input: a flat sequence in which every delimited
//! group is spelled as an opening token, its contents and a closing token.
use vstd::prelude::*;

use crate::text::push_char;

verus! {

/// The delimiter of a token group.
#[derive(Clone, Copy, PartialEq, Eq, Structural, Debug)]
pub enum Delim {
    /// `( ... )`
    Paren,
    /// `{ ... }`
    Brace,
    /// `[ ... ]`
    Bracket,
    /// A group without visible delimiters.
    Invisible,
}

/// One lexical token.
#[derive(Clone, Debug)]
pub enum Tok {
    /// An identifier or keyword, as written.
    Ident(String),
    /// A punctuation character; the flag is set when the next character
    /// belongs to the same operator (as the first `:` of `::`).
    Punct(char, bool),
    /// A literal (string, number, character), as written.
    Lit(String),
    /// The start of a delimited group.
    Open(Delim),
    /// The end of a delimited group.
    Close(Delim),
}

pub open spec fn open_text(d: Delim) -> Seq<char> {
    match d {
        Delim::Paren => seq!['('],
        Delim::Brace => seq!['{'],
        Delim::Bracket => seq!['['],
        Delim::Invisible => seq!['('],
    }
}

pub open spec fn close_text(d: Delim) -> Seq<char> {
    match d {
        Delim::Paren => seq![')'],
        Delim::Brace => seq!['}'],
        Delim::Bracket => seq![']'],
        Delim::Invisible => seq![')'],
    }
}

/// The source text of one token. A group without visible delimiters is
/// printed in parentheses, so that it keeps its grouping.
pub open spec fn tok_text(t: Tok) -> Seq<char> {
    match t {
        Tok::Ident(s) => s@,
        Tok::Lit(s) => s@,
        Tok::Punct(c, _) => seq![c],
        Tok::Open(d) => open_text(d),
        Tok::Close(d) => close_text(d),
    }
}

/// The token is a punctuation character joined to the next one.
pub open spec fn joins_next(t: Tok) -> bool {
    t is Punct && t->Punct_1
}

/// The source text of a token sequence: the tokens separated by one space,
/// except after a punctuation character joined to the next one.
pub open spec fn text_of(t: Seq<Tok>) -> Seq<char>
    decreases t.len(),
{
    if t.len() == 0 {
        Seq::empty()
    } else if t.len() == 1 {
        tok_text(t[0])
    } else {
        text_of(t.drop_last()) + (if joins_next(t[t.len() - 2]) {
            Seq::empty()
        } else {
            seq![' ']
        }) + tok_text(t.last())
    }
}

pub open spec fn is_open(t: Seq<Tok>, p: int, d: Delim) -> bool {
    0 <= p < t.len() && t[p] is Open && t[p]->Open_0 == d
}

pub open spec fn is_close(t: Seq<Tok>, p: int, d: Delim) -> bool {
    0 <= p < t.len() && t[p] is Close && t[p]->Close_0 == d
}

pub open spec fn is_punct(t: Seq<Tok>, p: int, c: char) -> bool {
    0 <= p < t.len() && t[p] is Punct && t[p]->Punct_0 == c
}

pub open spec fn is_ident(t: Seq<Tok>, p: int) -> bool {
    0 <= p < t.len() && t[p] is Ident
}

/// Index just past the group that was opened before `i`, `depth` levels
/// deep; the length of `t` when the group is never closed.
pub open spec fn group_end(t: Seq<Tok>, i: int, depth: nat) -> int
    decreases t.len() - i,
{
    if i < 0 || i >= t.len() {
        t.len() as int
    } else if t[i] is Open {
        group_end(t, i + 1, depth + 1)
    } else if t[i] is Close {
        if depth <= 1 {
            i + 1
        } else {
            group_end(t, i + 1, (depth - 1) as nat)
        }
    } else {
        group_end(t, i + 1, depth)
    }
}

/// Index just past the token tree that starts at `i`: a single token, or a
/// whole group with its contents.
pub open spec fn tree_end(t: Seq<Tok>, i: int) -> int {
    if 0 <= i < t.len() && t[i] is Open {
        group_end(t, i + 1, 1)
    } else {
        i + 1
    }
}

fn append_text(s: &mut String, d: Delim, open: bool)
    ensures
        final(s)@ == old(s)@ + (if open {
            open_text(d)
        } else {
            close_text(d)
        }),
{
    let c = match d {
        Delim::Paren | Delim::Invisible => if open {
            '('
        } else {
            ')'
        },
        Delim::Brace => if open {
            '{'
        } else {
            '}'
        },
        Delim::Bracket => if open {
            '['
        } else {
            ']'
        },
    };
    push_char(s, c);
    assert(old(s)@.push(c) =~= old(s)@ + seq![c]);
}

/// Appends the source text of `t` to `s`.
pub(crate) fn append_tok(s: &mut String, t: &Tok)
    ensures
        final(s)@ == old(s)@ + tok_text(*t),
{
    match t {
        Tok::Ident(x) => {
            s.append(x.as_str());
        },
        Tok::Lit(x) => {
            s.append(x.as_str());
        },
        Tok::Punct(c, _) => {
            push_char(s, *c);
            assert(old(s)@.push(*c) =~= old(s)@ + seq![*c]);
        },
        Tok::Open(d) => {
            append_text(s, *d, true);
        },
        Tok::Close(d) => {
            append_text(s, *d, false);
        },
    }
}

/// The source text of `toks[start..end]` (see [`text_of`]).
pub fn render_tokens(toks: &Vec<Tok>, start: usize, end: usize) -> (r: String)
    requires
        start <= end <= toks@.len(),
    ensures
        r@ == text_of(toks@.subrange(start as int, end as int)),
{
    let mut s = String::new();
    let mut i = start;
    assert(toks@.subrange(start as int, start as int) =~= Seq::<Tok>::empty());
    while i < end
        invariant
            start <= i <= end <= toks@.len(),
            s@ == text_of(toks@.subrange(start as int, i as int)),
        decreases end - i,
    {
        let ghost before = s@;
        let ghost sub = toks@.subrange(start as int, i + 1);
        assert(sub.drop_last() =~= toks@.subrange(start as int, i as int));
        if i > start {
            let joined = match &toks[i - 1] {
                Tok::Punct(_, j) => *j,
                _ => false,
            };
            if !joined {
                push_char(&mut s, ' ');
            }
            assert(sub[sub.len() - 2] == toks@[i - 1]);
        }
        append_tok(&mut s, &toks[i]);
        assert(s@ =~= text_of(sub));
        i += 1;
    }
    s
}

/// Index just past the token tree that starts at `i` (see [`tree_end`]).
pub fn skip_tree(toks: &Vec<Tok>, i: usize) -> (r: usize)
    requires
        i < toks@.len(),
    ensures
        r == tree_end(toks@, i as int),
{
    let n = toks.len();
    match &toks[i] {
        Tok::Open(_) => {},
        _ => {
            return i + 1;
        },
    }
    let mut j = i + 1;
    let mut depth: usize = 1;
    while j < n
        invariant
            i < j <= n,
            n == toks@.len(),
            1 <= depth <= j - i,
            group_end(toks@, j as int, depth as nat) == tree_end(toks@, i as int),
        decreases toks@.len() - j,
    {
        match &toks[j] {
            Tok::Open(_) => {
                depth += 1;
            },
            Tok::Close(_) => {
                if depth <= 1 {
                    return j + 1;
                }
                depth -= 1;
            },
            _ => {},
        }
        j += 1;
    }
    n
}

} // verus!
