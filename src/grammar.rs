//! The grammar of the literal, as spec functions from the token sequence and
//! the arena before a step to the arena after it, the node built and the
//! position reached.
//!
//! ```text
//! document := IDENT object | object | array
//! object   := '{' [ pair (',' pair)* [','] ] '}'   (braces optional at the top)
//! pair     := IDENT ':' value
//! array    := '[' [ value (',' value)* [','] ] ']' (brackets optional at the top)
//! value    := object | array | expression
//! ```
//!
//! In a declaration (`IDENT object`) the leaves are read as types where
//! they form one.
use vstd::prelude::*;

use crate::error::{syntax_error, Expected, SyntaxError};
use crate::expr::scan_leaf;
use crate::model::{
    add_array, add_expr, add_object, empty_arena, object_name, Arena, ObjectModel, Value, ValueType,
};
use crate::token::{is_close, is_ident, is_open, is_punct, text_of, tree_end, Delim, Tok};

verus! {

/// The list of items is over at `q`: the end of the input, or (inside a
/// group) a closing token.
pub open spec fn at_end(t: Seq<Tok>, q: int, closer: Option<Delim>) -> bool {
    q >= t.len() || (closer is Some && t[q] is Close)
}

/// Ends a list of items at `q`: a group must be closed there by `closer`.
pub open spec fn finish<X>(a: Arena, t: Seq<Tok>, q: int, acc: Seq<X>, closer: Option<Delim>) -> Result<
    (Arena, Seq<X>, int),
    SyntaxError,
> {
    match closer {
        None => Ok((a, acc, q)),
        Some(d) => if is_close(t, q, d) {
            Ok((a, acc, q + 1))
        } else if q >= t.len() {
            Err(syntax_error(t.len() as int, Expected::UnterminatedGroup))
        } else {
            Err(syntax_error(q, Expected::Separator))
        },
    }
}

/// `expression`: one leaf at `p`, printed from its tokens.
pub open spec fn p_expr(a: Arena, t: Seq<Tok>, p: int, types: bool, ans: Seq<bool>) -> Result<
    (Arena, Value, int),
    SyntaxError,
> {
    let (r, k) = scan_leaf(t, p, types, a.asked, ans);
    match r {
        Err(e) => Err(e),
        Ok(end) => {
            let (b, v) = add_expr(Arena { asked: k, ..a }, text_of(t.subrange(p, end)), p as usize);
            Ok((b, v, end))
        },
    }
}

/// `value` at `p`.
pub open spec fn p_value(a: Arena, t: Seq<Tok>, p: int, types: bool, ans: Seq<bool>) -> Result<(Arena, Value, int), SyntaxError>
    decreases t.len() - p, 1nat,
{
    if is_open(t, p, Delim::Brace) {
        p_object(a, t, p, types, ans)
    } else if is_open(t, p, Delim::Bracket) {
        p_array(a, t, p, types, ans)
    } else {
        p_expr(a, t, p, types, ans)
    }
}

/// `pair` at `q`.
pub open spec fn p_pair(a: Arena, t: Seq<Tok>, q: int, types: bool, ans: Seq<bool>) -> Result<
    (Arena, (Seq<char>, Value), int),
    SyntaxError,
>
    decreases t.len() - q, 0nat,
{
    if !is_ident(t, q) {
        Err(syntax_error(q, Expected::Identifier))
    } else if !is_punct(t, q + 1, ':') {
        Err(syntax_error(q + 1, Expected::Colon))
    } else {
        match p_value(a, t, q + 2, types, ans) {
            Err(e) => Err(e),
            Ok((b, v, r)) => Ok((b, (t[q]->Ident_0@, v), r)),
        }
    }
}

/// The pairs of an object from `q` on, after the pairs `acc`.
pub open spec fn p_pairs(
    a: Arena,
    t: Seq<Tok>,
    q: int,
    acc: Seq<(Seq<char>, Value)>,
    closer: Option<Delim>,
    types: bool,
    ans: Seq<bool>,
) -> Result<(Arena, Seq<(Seq<char>, Value)>, int), SyntaxError>
    decreases t.len() - q, 1nat,
{
    if at_end(t, q, closer) {
        finish(a, t, q, acc, closer)
    } else {
        match p_pair(a, t, q, types, ans) {
            Err(e) => Err(e),
            Ok((b, pair, r)) => if r <= q {
                Err(syntax_error(q, Expected::Identifier))
            } else if is_punct(t, r, ',') {
                p_pairs(b, t, r + 1, acc.push(pair), closer, types, ans)
            } else {
                finish(b, t, r, acc.push(pair), closer)
            },
        }
    }
}

/// The items of an array from `q` on, after the items `acc`.
pub open spec fn p_elems(
    a: Arena,
    t: Seq<Tok>,
    q: int,
    acc: Seq<Value>,
    closer: Option<Delim>,
    types: bool,
    ans: Seq<bool>,
) -> Result<
    (Arena, Seq<Value>, int),
    SyntaxError,
>
    decreases t.len() - q, 2nat,
{
    if at_end(t, q, closer) {
        finish(a, t, q, acc, closer)
    } else {
        match p_value(a, t, q, types, ans) {
            Err(e) => Err(e),
            Ok((b, v, r)) => if r < q {
                Err(syntax_error(q, Expected::Expression))
            } else if is_punct(t, r, ',') {
                p_elems(b, t, r + 1, acc.push(v), closer, types, ans)
            } else {
                finish(b, t, r, acc.push(v), closer)
            },
        }
    }
}

/// `object` at `p`; the braces may be left out.
pub open spec fn p_object(a: Arena, t: Seq<Tok>, p: int, types: bool, ans: Seq<bool>) -> Result<(Arena, Value, int), SyntaxError>
    decreases t.len() - p, (if is_open(t, p, Delim::Brace) {
        0nat
    } else {
        2nat
    }),
{
    let braced = is_open(t, p, Delim::Brace);
    let name = object_name(a.id);
    let a1 = Arena { id: a.id + 1, ..a };
    match p_pairs(
        a1,
        t,
        if braced {
            p + 1
        } else {
            p
        },
        Seq::empty(),
        if braced {
            Some(Delim::Brace)
        } else {
            None
        },
        types,
        ans,
    ) {
        Err(e) => Err(e),
        Ok((b, pairs, r)) => {
            let (c, v) = add_object(b, ObjectModel { name, pairs }, a.id);
            Ok((c, v, r))
        },
    }
}

/// `array` at `p`; the brackets may be left out.
pub open spec fn p_array(a: Arena, t: Seq<Tok>, p: int, types: bool, ans: Seq<bool>) -> Result<(Arena, Value, int), SyntaxError>
    decreases t.len() - p, (if is_open(t, p, Delim::Bracket) {
        0nat
    } else {
        3nat
    }),
{
    let braced = is_open(t, p, Delim::Bracket);
    match p_elems(
        a,
        t,
        if braced {
            p + 1
        } else {
            p
        },
        Seq::empty(),
        if braced {
            Some(Delim::Bracket)
        } else {
            None
        },
        types,
        ans,
    ) {
        Err(e) => Err(e),
        Ok((b, items, r)) => {
            let (c, v) = add_array(b, items);
            Ok((c, v, r))
        },
    }
}

/// `a` with object `i` renamed to `name`.
pub open spec fn rename(a: Arena, i: int, name: Seq<char>) -> Arena {
    Arena { objects: a.objects.update(i, ObjectModel { name, ..a.objects[i] }), ..a }
}

/// `IDENT object` at the start: the object takes the identifier as its name,
/// and its leaves are types.
pub open spec fn p_declare(a: Arena, t: Seq<Tok>, ans: Seq<bool>) -> Result<(Arena, Value, int), SyntaxError> {
    if !is_ident(t, 0) {
        Err(syntax_error(0, Expected::Identifier))
    } else {
        match p_object(a, t, 1, true, ans) {
            Err(e) => Err(e),
            Ok((b, v, r)) => Ok(
                (rename(b, v.i as int, t[0]->Ident_0@), Value { t: ValueType::Declare, i: v.i }, r),
            ),
        }
    }
}

/// The three forms of a document, told apart by the second token tree: a
/// brace group makes a declaration, `:` a bare object, anything else an
/// array.
pub open spec fn p_top(t: Seq<Tok>, ans: Seq<bool>) -> Result<(Arena, Value, int), SyntaxError> {
    if t.len() > 0 && is_open(t, tree_end(t, 0), Delim::Brace) {
        p_declare(empty_arena(), t, ans)
    } else if t.len() > 0 && is_punct(t, tree_end(t, 0), ':') {
        p_object(empty_arena(), t, 0, false, ans)
    } else {
        p_array(empty_arena(), t, 0, false, ans)
    }
}

/// The whole document: the arena and its root, which must use every token;
/// `ans` are syn's answers on the candidate leaves, in the order asked.
pub open spec fn p_doc(t: Seq<Tok>, ans: Seq<bool>) -> Result<(Arena, Value), SyntaxError> {
    match p_top(t, ans) {
        Err(e) => Err(e),
        Ok((a, v, r)) => if r == t.len() {
            Ok((a, v))
        } else {
            Err(syntax_error(r, Expected::EndOfInput))
        },
    }
}

} // verus!
