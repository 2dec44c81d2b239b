//! Leaves: where one ends. A leaf ends at the first `,` outside any group
//! (or at the end of its group, or of the input) before which its tokens are
//! one complete expression (one type in a declaration) as syn reads them.
//!
//! syn lexes through proc_macro2, which runs its own lexer outside a
//! procedural macro and the compiler's inside one, so its answers are not a
//! function of the text alone. The grammar therefore takes syn's answers as
//! an argument: `ans[k]` is its verdict on the `k`-th candidate asked, and
//! the parser records the answers it received.
use vstd::prelude::*;

use crate::error::{syntax_error, Expected, SyntaxError};
use crate::token::{is_punct, render_tokens, Tok};

verus! {

/// `ans` begins with the answers `log`.
pub open spec fn extends_log(log: Seq<bool>, ans: Seq<bool>) -> bool {
    &&& log.len() <= ans.len()
    &&& forall|i: int| 0 <= i < log.len() ==> ans[i] == log[i]
}

pub proof fn lemma_log_trans(a: Seq<bool>, b: Seq<bool>, c: Seq<bool>)
    requires
        extends_log(a, b),
        extends_log(b, c),
    ensures
        extends_log(a, c),
{
    assert forall|i: int| 0 <= i < a.len() implies c[i] == a[i] by {
        assert(c[i] == b[i]);
    }
}

pub proof fn lemma_log_refl(a: Seq<bool>)
    ensures
        extends_log(a, a),
{
}

/// The end of the leaf that starts at `start`, with `k` candidates asked
/// so far; the scan is at `i`, `depth` groups deep. Returns the end (or the
/// error) and the number of candidates asked by then. Each non-empty
/// candidate is asked once, in order, and the first accepted one is the leaf.
pub open spec fn scan_expr(
    t: Seq<Tok>,
    start: int,
    i: int,
    depth: nat,
    k: nat,
    ans: Seq<bool>,
) -> (Result<int, SyntaxError>, nat)
    decreases t.len() - i,
{
    if i >= t.len() || (depth == 0 && t[i] is Close) {
        if depth > 0 {
            (Err(syntax_error(t.len() as int, Expected::UnterminatedGroup)), k)
        } else if start < i {
            (
                if ans[k as int] {
                    Ok(i)
                } else {
                    Err(syntax_error(start, Expected::Expression))
                },
                k + 1,
            )
        } else {
            (Err(syntax_error(start, Expected::Expression)), k)
        }
    } else if t[i] is Open {
        scan_expr(t, start, i + 1, depth + 1, k, ans)
    } else if t[i] is Close {
        scan_expr(t, start, i + 1, (depth - 1) as nat, k, ans)
    } else if depth == 0 && is_punct(t, i, ',') {
        if start < i {
            if ans[k as int] {
                (Ok(i), k + 1)
            } else {
                scan_expr(t, start, i + 1, 0, k + 1, ans)
            }
        } else {
            scan_expr(t, start, i + 1, 0, k, ans)
        }
    } else {
        scan_expr(t, start, i + 1, depth, k, ans)
    }
}

/// The end of the leaf at `p`. In a declaration the candidates are first
/// asked as types; when none is accepted they are asked again as
/// expressions.
pub open spec fn scan_leaf(t: Seq<Tok>, p: int, types: bool, k: nat, ans: Seq<bool>) -> (
    Result<int, SyntaxError>,
    nat,
) {
    let first = scan_expr(t, p, p, 0, k, ans);
    if types && first.0 is Err {
        scan_expr(t, p, p, 0, first.1, ans)
    } else {
        first
    }
}

pub open spec fn end_of(r: Result<usize, SyntaxError>) -> Result<int, SyntaxError> {
    match r {
        Ok(e) => Ok(e as int),
        Err(x) => Err(x),
    }
}

/// Relies on `syn::parse_str::<syn::Expr>`: whether syn reads `src` as
/// exactly one expression. Nothing is promised of the answer (see the
/// module documentation).
#[verifier::external_body]
fn syn_accepts_expr(src: &str) -> bool {
    syn::parse_str::<syn::Expr>(src).is_ok()
}

/// Relies on `syn::parse_str::<syn::Type>`: whether syn reads `src` as
/// exactly one type. Nothing is promised of the answer (see the module
/// documentation).
#[verifier::external_body]
fn syn_accepts_type(src: &str) -> bool {
    syn::parse_str::<syn::Type>(src).is_ok()
}

/// The end of the leaf that starts at `start` (see [`scan_expr`]); the
/// answers received are appended to `log`.
pub(crate) fn scan_expression(
    toks: &Vec<Tok>,
    start: usize,
    types: bool,
    log: &mut Ghost<Seq<bool>>,
) -> (r: Result<usize, SyntaxError>)
    requires
        start <= toks@.len(),
    ensures
        extends_log(old(log)@, final(log)@),
        r is Ok ==> start < r->Ok_0 <= toks@.len(),
        forall|ans: Seq<bool>| #[trigger]
            extends_log(final(log)@, ans) ==> scan_expr(
                toks@,
                start as int,
                start as int,
                0,
                old(log)@.len(),
                ans,
            ) == (end_of(r), final(log)@.len()),
{
    let ghost log0 = log@;
    proof {
        lemma_log_refl(log0);
    }
    let n = toks.len();
    let mut i = start;
    let mut depth: usize = 0;
    loop
        invariant
            start <= i <= n,
            n == toks@.len(),
            depth <= i - start,
            extends_log(log0, log@),
            log0 == old(log)@,
            forall|ans: Seq<bool>| #[trigger]
                extends_log(log@, ans) ==> scan_expr(
                    toks@,
                    start as int,
                    i as int,
                    depth as nat,
                    log@.len(),
                    ans,
                ) == scan_expr(toks@, start as int, start as int, 0, log0.len(), ans),
        decreases n - i,
    {
        let stop = if i >= n {
            true
        } else {
            match &toks[i] {
                Tok::Close(_) => depth == 0,
                _ => false,
            }
        };
        let comma = if i < n && depth == 0 {
            match &toks[i] {
                Tok::Punct(c, _) => *c == ',',
                _ => false,
            }
        } else {
            false
        };
        if stop && depth > 0 {
            return Err(SyntaxError { pos: n, expected: Expected::UnterminatedGroup });
        }
        if (stop || comma) && start < i {
            let src = render_tokens(toks, start, i);
            let yes = if types {
                syn_accepts_type(src.as_str())
            } else {
                syn_accepts_expr(src.as_str())
            };
            let ghost before = log@;
            *log = Ghost(log@.push(yes));
            proof {
                assert(extends_log(before, log@));
                lemma_log_trans(log0, before, log@);
                assert forall|ans: Seq<bool>| #[trigger]
                    extends_log(log@, ans) implies extends_log(before, ans) && ans[before.len() as int]
                    == yes by {
                    lemma_log_trans(before, log@, ans);
                    assert(ans[before.len() as int] == log@[before.len() as int]);
                }
            }
            if yes {
                return Ok(i);
            }
            if stop {
                return Err(SyntaxError { pos: start, expected: Expected::Expression });
            }
        } else if stop {
            return Err(SyntaxError { pos: start, expected: Expected::Expression });
        }
        match &toks[i] {
            Tok::Open(_) => {
                depth += 1;
            },
            Tok::Close(_) => {
                depth -= 1;
            },
            _ => {},
        }
        i += 1;
    }
}

} // verus!
