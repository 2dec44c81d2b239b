//! The document: an arena of objects, arrays and expressions, and the
//! recursive-descent parser that fills it.
use vstd::prelude::*;

use crate::error::{Expected, SyntaxError};
use crate::expr::{end_of, extends_log, lemma_log_refl, lemma_log_trans, scan_expression, scan_leaf};
use crate::grammar::{at_end, finish, p_array, p_declare, p_doc, p_elems, p_object, p_pair, p_pairs, p_top, p_value, p_expr, rename};
use crate::model::{numbered, object_name, empty_arena_wf, lemma_rename_wf, 
    add_array, add_expr, add_object, child_ok, empty_arena, extends, grown, is_object, lemma_add_array,
    lemma_add_expr, lemma_add_object, lemma_extends_keeps, lemma_extends_refl, lemma_extends_trans,
    stamp, valid, wf, Arena, ObjectModel, Value, ValueType,
};
use crate::text::push_decimal;
use crate::token::{is_close, is_open, is_punct, render_tokens, skip_tree, tree_end, Delim, Tok};

verus! {

/// One `key: value` member of an object.
pub struct Pair {
    pub key: String,
    pub value: Value,
}

/// An object: its type name and its members in the order written.
pub struct Object {
    pub name: String,
    pub pairs: Vec<Pair>,
}

/// An array: its items in the order written.
pub struct Array {
    pub items: Vec<Value>,
}

/// An expression leaf: its printed text and the position of its first
/// token in the input.
pub struct Expression {
    pub text: String,
    pub pos: usize,
}

impl View for Pair {
    type V = (Seq<char>, Value);

    open spec fn view(&self) -> (Seq<char>, Value) {
        (self.key@, self.value)
    }
}

impl View for Object {
    type V = ObjectModel;

    open spec fn view(&self) -> ObjectModel {
        ObjectModel { name: self.name@, pairs: self.pairs@.map_values(|p: Pair| p@) }
    }
}

impl View for Array {
    type V = Seq<Value>;

    open spec fn view(&self) -> Seq<Value> {
        self.items@
    }
}

impl View for Expression {
    type V = (Seq<char>, usize);

    open spec fn view(&self) -> (Seq<char>, usize) {
        (self.text@, self.pos)
    }
}

impl Array {
    /// An array without items.
    pub fn new() -> (r: Self)
        ensures
            r@ == Seq::<Value>::empty(),
    {
        Self { items: Vec::new() }
    }
}

impl Object {
    /// An object without a name or members.
    pub fn new() -> (r: Self)
        ensures
            r@.name == Seq::<char>::empty(),
            r@.pairs == Seq::<(Seq<char>, Value)>::empty(),
    {
        let r = Self { name: String::new(), pairs: Vec::new() };
        assert(r@.pairs =~= Seq::<(Seq<char>, Value)>::empty());
        r
    }
}

/// The parsed document: three arenas, the root, and the counter of
/// synthesized object names.
pub struct Json {
    pub value: Value,
    pub id: usize,
    pub objects: Vec<Object>,
    pub arrays: Vec<Array>,
    pub expressions: Vec<Expression>,
    /// The creation stamps of objects and arrays, and the next stamp.
    pub stamps: Ghost<(Seq<nat>, Seq<nat>, nat)>,
    /// syn's answers on the candidate leaves, in the order asked.
    pub answers: Ghost<Seq<bool>>,
    /// For each object, the counter value it was named with.
    pub numbers: Ghost<Seq<nat>>,
}

impl View for Json {
    type V = Arena;

    open spec fn view(&self) -> Arena {
        Arena {
            objects: self.objects@.map_values(|o: Object| o@),
            arrays: self.arrays@.map_values(|a: Array| a@),
            exprs: self.expressions@.map_values(|e: Expression| e@),
            obj_stamp: self.stamps@.0,
            arr_stamp: self.stamps@.1,
            clock: self.stamps@.2,
            id: self.id as nat,
            asked: self.answers@.len(),
            nums: self.numbers@,
        }
    }
}

/// The exec result `r`, with the arena `after`, is the spec result `s`.
pub open spec fn agrees<X>(r: Result<(X, usize), SyntaxError>, after: Arena, s: Result<(Arena, X, int), SyntaxError>) -> bool {
    match s {
        Ok((a, x, p)) => r is Ok && after == a && r->Ok_0.0 == x && r->Ok_0.1 as int == p,
        Err(e) => r == Err::<(X, usize), SyntaxError>(e),
    }
}

fn is_comma(toks: &Vec<Tok>, i: usize) -> (r: bool)
    ensures
        r == is_punct(toks@, i as int, ','),
{
    if i < toks.len() {
        match &toks[i] {
            Tok::Punct(c, _) => *c == ',',
            _ => false,
        }
    } else {
        false
    }
}

fn is_colon(toks: &Vec<Tok>, i: usize) -> (r: bool)
    ensures
        r == is_punct(toks@, i as int, ':'),
{
    if i < toks.len() {
        match &toks[i] {
            Tok::Punct(c, _) => *c == ':',
            _ => false,
        }
    } else {
        false
    }
}

fn is_opening(toks: &Vec<Tok>, i: usize, d: Delim) -> (r: bool)
    ensures
        r == is_open(toks@, i as int, d),
{
    if i < toks.len() {
        match &toks[i] {
            Tok::Open(e) => *e == d,
            _ => false,
        }
    } else {
        false
    }
}

/// The list of items is over at `q` (see `at_end`).
fn list_over(toks: &Vec<Tok>, q: usize, braced: bool) -> (r: bool)
    ensures
        r == (q >= toks@.len() || (braced && toks@[q as int] is Close)),
{
    if q >= toks.len() {
        true
    } else if braced {
        match &toks[q] {
            Tok::Close(_) => true,
            _ => false,
        }
    } else {
        false
    }
}

/// Where a list ends (see `finish`): past the closing token of a group, or
/// where it stopped when it has no delimiters.
fn finish_list(toks: &Vec<Tok>, q: usize, closer: Option<Delim>) -> (r: Result<usize, SyntaxError>)
    requires
        q <= toks@.len(),
    ensures
        closer is None ==> r == Ok::<usize, SyntaxError>(q),
        closer is Some ==> (if is_close(toks@, q as int, closer->Some_0) {
            r == Ok::<usize, SyntaxError>((q + 1) as usize)
        } else if q >= toks@.len() {
            r == Err::<usize, SyntaxError>(
                SyntaxError { pos: toks@.len() as usize, expected: Expected::UnterminatedGroup },
            )
        } else {
            r == Err::<usize, SyntaxError>(SyntaxError { pos: q, expected: Expected::Separator })
        }),
{
    match closer {
        None => Ok(q),
        Some(d) => {
            if q < toks.len() {
                let closes = match &toks[q] {
                    Tok::Close(e) => *e == d,
                    _ => false,
                };
                if closes {
                    Ok(q + 1)
                } else {
                    Err(SyntaxError { pos: q, expected: Expected::Separator })
                }
            } else {
                Err(SyntaxError { pos: toks.len(), expected: Expected::UnterminatedGroup })
            }
        },
    }
}

impl Json {
    /// An empty document; its root is null.
    pub fn new() -> (r: Self)
        ensures
            r@ == empty_arena(),
            r.value == (Value { t: ValueType::Null, i: 0 }),
            wf(r@),
    {
        let r = Json {
            value: Value { t: ValueType::Null, i: 0 },
            id: 0,
            objects: Vec::new(),
            arrays: Vec::new(),
            expressions: Vec::new(),
            stamps: Ghost((Seq::empty(), Seq::empty(), 1)),
            answers: Ghost(Seq::empty()),
            numbers: Ghost(Seq::empty()),
        };
        assert(r@.objects =~= Seq::<ObjectModel>::empty());
        assert(r@.arrays =~= Seq::<Seq<Value>>::empty());
        assert(r@.exprs =~= Seq::<(Seq<char>, usize)>::empty());
        r
    }

    /// The object that `v` refers to.
    pub fn get_object(&self, v: &Value) -> (r: &Object)
        requires
            is_object(*v),
            v.i < self@.objects.len(),
        ensures
            r@ == self@.objects[v.i as int],
    {
        &self.objects[v.i]
    }

    /// The object that `v` refers to, for change in place.
    pub fn get_object_mut(&mut self, v: &Value) -> (r: &mut Object)
        requires
            is_object(*v),
            v.i < old(self)@.objects.len(),
        ensures
            *r == old(self).objects@[v.i as int],
            final(self).objects@ == old(self).objects@.update(v.i as int, *final(r)),
            final(self).arrays == old(self).arrays,
            final(self).expressions == old(self).expressions,
            final(self).stamps == old(self).stamps,
            final(self).answers == old(self).answers,
            final(self).numbers == old(self).numbers,
            final(self).value == old(self).value,
            final(self).id == old(self).id,
    {
        &mut self.objects[v.i]
    }

    /// The array that `v` refers to.
    pub fn get_array(&self, v: &Value) -> (r: &Array)
        requires
            v.t == ValueType::Array,
            v.i < self@.arrays.len(),
        ensures
            r@ == self@.arrays[v.i as int],
    {
        &self.arrays[v.i]
    }

    /// The expression that `v` refers to.
    pub fn get_expression(&self, v: &Value) -> (r: &Expression)
        requires
            v.t == ValueType::Expression,
            v.i < self@.exprs.len(),
        ensures
            r@ == self@.exprs[v.i as int],
    {
        &self.expressions[v.i]
    }

    fn append_object(&mut self, o: Object, num: Ghost<nat>) -> (r: Value)
        requires
            wf(old(self)@),
            forall|j: int| 0 <= j < o@.pairs.len() ==> child_ok(old(self)@, #[trigger] o@.pairs[j].1, old(self)@.clock),
        ensures
            (final(self)@, r) == add_object(old(self)@, o@, num@),
            r.i + 1 == final(self)@.objects.len(),
            grown(old(self)@, final(self)@, r),
            final(self).id == old(self).id,
            final(self).value == old(self).value,
            final(self).answers == old(self).answers,
    {
        let ghost before = self@;
        self.objects.push(o);
        self.numbers = Ghost(self.numbers@.push(num@));
        self.stamps = Ghost((self.stamps@.0.push(self.stamps@.2), self.stamps@.1, self.stamps@.2 + 1));
        let i = self.objects.len() - 1;
        proof {
            lemma_add_object(before, o@, num@);
        }
        assert(self@.objects =~= before.objects.push(o@));
        Value { t: ValueType::Object, i }
    }

    fn append_array(&mut self, a: Array) -> (r: Value)
        requires
            wf(old(self)@),
            forall|j: int| 0 <= j < a@.len() ==> child_ok(old(self)@, #[trigger] a@[j], old(self)@.clock),
        ensures
            (final(self)@, r) == add_array(old(self)@, a@),
            grown(old(self)@, final(self)@, r),
            final(self).id == old(self).id,
            final(self).value == old(self).value,
            final(self).answers == old(self).answers,
    {
        let ghost before = self@;
        self.arrays.push(a);
        self.stamps = Ghost((self.stamps@.0, self.stamps@.1.push(self.stamps@.2), self.stamps@.2 + 1));
        let i = self.arrays.len() - 1;
        proof {
            lemma_add_array(before, a@);
        }
        assert(self@.arrays =~= before.arrays.push(a@));
        Value { t: ValueType::Array, i }
    }

    fn append_expression(&mut self, e: Expression) -> (r: Value)
        requires
            wf(old(self)@),
        ensures
            (final(self)@, r) == add_expr(old(self)@, e.text@, e.pos),
            grown(old(self)@, final(self)@, r),
            final(self).id == old(self).id,
            final(self).value == old(self).value,
            final(self).answers == old(self).answers,
    {
        let ghost before = self@;
        let ghost text = e.text@;
        let ghost epos = e.pos;
        self.expressions.push(e);
        let i = self.expressions.len() - 1;
        proof {
            lemma_add_expr(before, text, epos);
        }
        assert(self@.exprs =~= before.exprs.push(e@));
        Value { t: ValueType::Expression, i }
    }

    /// `expression` at `pos`.
    fn parse_expression(&mut self, toks: &Vec<Tok>, pos: usize, types: bool) -> (r: Result<
        (Value, usize),
        SyntaxError,
    >)
        requires
            numbered(old(self)@, -1),
            wf(old(self)@),
            pos <= toks@.len(),
        ensures
            r is Ok ==> numbered(final(self)@, -1),
            r is Ok ==> forall|i: int|
                old(self)@.objects.len() <= i < final(self)@.objects.len() ==> #[trigger] final(self)@.nums[i]
                    >= old(self).id,
            extends_log(old(self).answers@, final(self).answers@),
            forall|ans: Seq<bool>| #[trigger]
                extends_log(final(self).answers@, ans) ==> agrees(
                    r,
                    final(self)@,
                    p_expr(old(self)@, toks@, pos as int, types, ans),
                ),
            r is Ok ==> grown(old(self)@, final(self)@, r->Ok_0.0),
            r is Ok ==> pos < r->Ok_0.1 <= toks@.len(),
            r is Ok ==> final(self)@.objects.len() == old(self)@.objects.len(),
            final(self).id == old(self).id,
    {
        let ghost a0 = self@;
        let ghost l0 = self.answers@;
        let first = scan_expression(toks, pos, types, &mut self.answers);
        let ghost l1 = self.answers@;
        let scanned = match first {
            Ok(e) => Ok(e),
            Err(x) => {
                if types {
                    scan_expression(toks, pos, false, &mut self.answers)
                } else {
                    Err(x)
                }
            },
        };
        let ghost l2 = self.answers@;
        proof {
            lemma_log_refl(l1);
            lemma_log_trans(l0, l1, l2);
            assert forall|ans: Seq<bool>| #[trigger]
                extends_log(l2, ans) implies scan_leaf(toks@, pos as int, types, l0.len(), ans) == (
                end_of(scanned),
                l2.len(),
            ) by {
                lemma_log_trans(l1, l2, ans);
                assert(extends_log(l1, ans));
            }
        }
        let ghost a1 = self@;
        assert(a1 == Arena { asked: l2.len(), ..a0 });
        match scanned {
            Err(e) => Err(e),
            Ok(end) => {
                let text = render_tokens(toks, pos, end);
                let v = self.append_expression(Expression { text, pos });
                proof {
                    lemma_extends_trans(a0, a1, self@);
                }
                Ok((v, end))
            },
        }
    }

    /// `pair` at `pos`.
    fn parse_pair(&mut self, toks: &Vec<Tok>, pos: usize, types: bool) -> (r: Result<
        (Pair, usize),
        SyntaxError,
    >)
        requires
            numbered(old(self)@, -1),
            wf(old(self)@),
            pos < toks@.len(),
            old(self).id <= pos + 1,
        ensures
            r is Ok ==> numbered(final(self)@, -1),
            r is Ok ==> forall|i: int|
                old(self)@.objects.len() <= i < final(self)@.objects.len() ==> #[trigger] final(self)@.nums[i]
                    >= old(self).id,
            extends_log(old(self).answers@, final(self).answers@),
            forall|ans: Seq<bool>| #[trigger]
                extends_log(final(self).answers@, ans) ==> match p_pair(
                    old(self)@,
                    toks@,
                    pos as int,
                    types,
                    ans,
                ) {
                    Ok((a, pair, p)) => r is Ok && final(self)@ == a && r->Ok_0.0@ == pair
                        && r->Ok_0.1 as int == p,
                    Err(e) => r is Err && r->Err_0 == e,
                },
            r is Ok ==> grown(old(self)@, final(self)@, r->Ok_0.0.value),
            r is Ok ==> pos < r->Ok_0.1 <= toks@.len(),
            r is Ok ==> final(self).id <= r->Ok_0.1,
            r is Ok ==> final(self).id - old(self).id == final(self)@.objects.len() - old(self)@.objects.len(),
        decreases toks@.len() - pos, 0nat,
    {
        let n = toks.len();
        let key = match &toks[pos] {
            Tok::Ident(s) => s.clone(),
            _ => {
                return Err(SyntaxError { pos, expected: Expected::Identifier });
            },
        };
        if !is_colon(toks, pos + 1) {
            return Err(SyntaxError { pos: pos + 1, expected: Expected::Colon });
        }
        match self.parse_value(toks, pos + 2, types) {
            Err(e) => Err(e),
            Ok((value, end)) => Ok((Pair { key, value }, end)),
        }
    }

    /// `value` at `pos`.
    fn parse_value(&mut self, toks: &Vec<Tok>, pos: usize, types: bool) -> (r: Result<
        (Value, usize),
        SyntaxError,
    >)
        requires
            numbered(old(self)@, -1),
            wf(old(self)@),
            pos <= toks@.len(),
            old(self).id <= pos,
        ensures
            r is Ok ==> numbered(final(self)@, -1),
            r is Ok ==> forall|i: int|
                old(self)@.objects.len() <= i < final(self)@.objects.len() ==> #[trigger] final(self)@.nums[i]
                    >= old(self).id,
            extends_log(old(self).answers@, final(self).answers@),
            forall|ans: Seq<bool>| #[trigger]
                extends_log(final(self).answers@, ans) ==> agrees(
                    r,
                    final(self)@,
                    p_value(old(self)@, toks@, pos as int, types, ans),
                ),
            r is Ok ==> grown(old(self)@, final(self)@, r->Ok_0.0),
            r is Ok ==> pos < r->Ok_0.1 <= toks@.len(),
            r is Ok ==> final(self).id <= r->Ok_0.1,
            r is Ok ==> final(self).id - old(self).id == final(self)@.objects.len() - old(self)@.objects.len(),
        decreases toks@.len() - pos, 1nat,
    {
        if is_opening(toks, pos, Delim::Brace) {
            self.parse_object(toks, pos, types)
        } else if is_opening(toks, pos, Delim::Bracket) {
            self.parse_array(toks, pos, types)
        } else {
            self.parse_expression(toks, pos, types)
        }
    }

    /// `object` at `pos`, with or without its braces. Its name is
    /// synthesized from the counter before its members are parsed.
    fn parse_object(&mut self, toks: &Vec<Tok>, pos: usize, types: bool) -> (r: Result<
        (Value, usize),
        SyntaxError,
    >)
        requires
            numbered(old(self)@, -1),
            wf(old(self)@),
            pos < toks@.len(),
            old(self).id <= pos,
        ensures
            r is Ok ==> numbered(final(self)@, -1),
            r is Ok ==> forall|i: int|
                old(self)@.objects.len() <= i < final(self)@.objects.len() ==> #[trigger] final(self)@.nums[i]
                    >= old(self).id,
            extends_log(old(self).answers@, final(self).answers@),
            forall|ans: Seq<bool>| #[trigger]
                extends_log(final(self).answers@, ans) ==> agrees(
                    r,
                    final(self)@,
                    p_object(old(self)@, toks@, pos as int, types, ans),
                ),
            r is Ok ==> grown(old(self)@, final(self)@, r->Ok_0.0),
            r is Ok ==> pos < r->Ok_0.1 <= toks@.len(),
            r is Ok ==> final(self).id <= r->Ok_0.1 + 1,
            r is Ok && is_open(toks@, pos as int, Delim::Brace) ==> final(self).id <= r->Ok_0.1,
            r is Ok ==> r->Ok_0.0.t == ValueType::Object && r->Ok_0.0.i + 1
                == final(self)@.objects.len(),
            r is Ok ==> final(self).id - old(self).id == final(self)@.objects.len() - old(self)@.objects.len(),
        decreases toks@.len() - pos, (if is_open(toks@, pos as int, Delim::Brace) {
            0nat
        } else {
            2nat
        }),
    {
        let n = toks.len();
        let ghost a0 = self@;
        let ghost l0 = self.answers@;
        let braced = is_opening(toks, pos, Delim::Brace);
        let mut name = String::from_str("Object");
        push_decimal(&mut name, self.id);
        self.id = self.id + 1;
        let ghost a1 = self@;
        assert(name@ == object_name(a0.id));
        assert(a1 == Arena { id: a0.id + 1, ..a0 });
        let start = if braced {
            pos + 1
        } else {
            pos
        };
        let closer = if braced {
            Some(Delim::Brace)
        } else {
            None
        };
        let mut pairs: Vec<Pair> = Vec::new();
        let mut q = start;
        assert(pairs@.map_values(|p: Pair| p@) =~= Seq::<(Seq<char>, Value)>::empty());
        proof {
            lemma_extends_refl(a1);
            lemma_log_refl(l0);
        }
        loop
            invariant_except_break
                forall|ans: Seq<bool>| #[trigger]
                    extends_log(self.answers@, ans) ==> p_pairs(
                        self@,
                        toks@,
                        q as int,
                        pairs@.map_values(|p: Pair| p@),
                        closer,
                        types,
                        ans,
                    ) == p_pairs(a1, toks@, start as int, Seq::empty(), closer, types, ans),
            invariant
                a0 == old(self)@,
                l0 == old(self).answers@,
                braced == is_open(toks@, pos as int, Delim::Brace),
                start == (if braced { pos + 1 } else { pos as int }),
                closer == (if braced { Some(Delim::Brace) } else { None }),
                a1 == (Arena { id: a0.id + 1, ..a0 }),
                name@ == object_name(a0.id),
                wf(self@),
                extends(a1, self@),
                extends_log(l0, self.answers@),
                start <= q <= n,
                n == toks@.len(),
                self.id <= q + 1,
                braced ==> self.id <= q,
                self.id - a1.id == self@.objects.len() - a1.objects.len(),
                numbered(self@, -1),
                forall|i: int|
                    a1.objects.len() <= i < self@.objects.len() ==> #[trigger] self@.nums[i] >= a1.id,
                forall|j: int|
                    0 <= j < pairs@.len() ==> child_ok(
                        self@,
                        #[trigger] pairs@[j].value,
                        self@.clock,
                    ),
            ensures
                q > pos || q >= n,
                self.id - a1.id == self@.objects.len() - a1.objects.len(),
                numbered(self@, -1),
                forall|i: int|
                    a1.objects.len() <= i < self@.objects.len() ==> #[trigger] self@.nums[i] >= a1.id,
                wf(self@),
                extends(a1, self@),
                extends_log(l0, self.answers@),
                start <= q <= n,
                self.id <= q + 1,
                braced ==> self.id <= q,
                forall|ans: Seq<bool>| #[trigger]
                    extends_log(self.answers@, ans) ==> finish(
                        self@,
                        toks@,
                        q as int,
                        pairs@.map_values(|p: Pair| p@),
                        closer,
                    ) == p_pairs(a1, toks@, start as int, Seq::empty(), closer, types, ans),
                forall|j: int|
                    0 <= j < pairs@.len() ==> child_ok(
                        self@,
                        #[trigger] pairs@[j].value,
                        self@.clock,
                    ),
            decreases n - q,
        {
            if list_over(toks, q, braced) {
                break;
            }
            let ghost before = self@;
            let ghost lb = self.answers@;
            let ghost acc = pairs@.map_values(|p: Pair| p@);
            match self.parse_pair(toks, q, types) {
                Err(e) => {
                    proof {
                        assert forall|ans: Seq<bool>| #[trigger]
                            extends_log(self.answers@, ans) implies agrees(
                            Err::<(Value, usize), SyntaxError>(e),
                            self@,
                            p_object(a0, toks@, pos as int, types, ans),
                        ) by {
                            lemma_log_trans(lb, self.answers@, ans);
                            assert(extends_log(lb, ans));
                        }
                        lemma_log_trans(l0, lb, self.answers@);
                    }
                    return Err(e);
                },
                Ok((pair, end)) => {
                    let ghost la = self.answers@;
                    proof {
                        lemma_extends_trans(a1, before, self@);
                        lemma_log_trans(l0, lb, la);
                        assert forall|j: int| 0 <= j < pairs@.len() implies child_ok(
                            self@,
                            #[trigger] pairs@[j].value,
                            self@.clock,
                        ) by {
                            lemma_extends_keeps(before, self@, pairs@[j].value);
                        }
                    }
                    pairs.push(pair);
                    assert(pairs@.map_values(|p: Pair| p@) =~= acc.push(pairs@.last()@));
                    let comma = is_comma(toks, end);
                    proof {
                        assert forall|ans: Seq<bool>| #[trigger]
                            extends_log(la, ans) implies (if comma {
                            p_pairs(
                                self@,
                                toks@,
                                end + 1,
                                pairs@.map_values(|p: Pair| p@),
                                closer,
                                types,
                                ans,
                            )
                        } else {
                            finish(self@, toks@, end as int, pairs@.map_values(|p: Pair| p@), closer)
                        }) == p_pairs(a1, toks@, start as int, Seq::empty(), closer, types, ans) by {
                            lemma_log_trans(lb, la, ans);
                            assert(extends_log(lb, ans));
                        }
                    }
                    if comma {
                        q = end + 1;
                    } else {
                        q = end;
                        break;
                    }
                },
            }
        }
        let ghost lf = self.answers@;
        match finish_list(toks, q, closer) {
            Err(e) => {
                proof {
                    lemma_log_trans(l0, l0, lf);
                }
                Err(e)
            },
            Ok(end) => {
                let ghost b = self@;
                let o = Object { name, pairs };
                let v = self.append_object(o, Ghost(a0.id));
                proof {
                    lemma_extends_trans(a0, a1, b);
                    lemma_extends_trans(a0, b, self@);
                    let c = self@;
                    assert forall|i: int, j: int| 0 <= i < j < c.nums.len() implies c.nums[i]
                        != c.nums[j] by {
                        if j == c.nums.len() - 1 {
                            if i < a0.objects.len() {
                                assert(c.nums[i] == a0.nums[i]);
                                assert(a0.nums[i] < a0.id);
                            } else {
                                assert(b.nums[i] >= a1.id);
                            }
                        } else {
                            assert(b.nums[i] != b.nums[j]);
                        }
                    }
                    assert forall|i: int| 0 <= i < c.nums.len() implies #[trigger] c.nums[i] < c.id by {
                        if i < c.nums.len() - 1 {
                            assert(b.nums[i] < b.id);
                        }
                    }
                    assert forall|i: int|
                        0 <= i < c.nums.len() && i != -1 implies #[trigger] c.objects[i].name
                        == object_name(c.nums[i]) by {
                        if i < c.nums.len() - 1 {
                            assert(b.objects[i].name == object_name(b.nums[i]));
                        }
                    }
                    assert forall|i: int|
                        a0.objects.len() <= i < c.objects.len() implies #[trigger] c.nums[i] >= a0.id by {
                        if i < c.nums.len() - 1 {
                            assert(b.nums[i] >= a1.id);
                        }
                    }
                }
                Ok((v, end))
            },
        }
    }

    /// `array` at `pos`, with or without its brackets.
    fn parse_array(&mut self, toks: &Vec<Tok>, pos: usize, types: bool) -> (r: Result<
        (Value, usize),
        SyntaxError,
    >)
        requires
            numbered(old(self)@, -1),
            wf(old(self)@),
            pos <= toks@.len(),
            old(self).id <= pos,
        ensures
            r is Ok ==> numbered(final(self)@, -1),
            r is Ok ==> forall|i: int|
                old(self)@.objects.len() <= i < final(self)@.objects.len() ==> #[trigger] final(self)@.nums[i]
                    >= old(self).id,
            extends_log(old(self).answers@, final(self).answers@),
            forall|ans: Seq<bool>| #[trigger]
                extends_log(final(self).answers@, ans) ==> agrees(
                    r,
                    final(self)@,
                    p_array(old(self)@, toks@, pos as int, types, ans),
                ),
            r is Ok ==> grown(old(self)@, final(self)@, r->Ok_0.0),
            r is Ok ==> pos <= r->Ok_0.1 <= toks@.len(),
            r is Ok && is_open(toks@, pos as int, Delim::Bracket) ==> pos < r->Ok_0.1,
            r is Ok ==> final(self).id <= r->Ok_0.1,
            r is Ok ==> final(self).id - old(self).id == final(self)@.objects.len() - old(self)@.objects.len(),
        decreases toks@.len() - pos, (if is_open(toks@, pos as int, Delim::Bracket) {
            0nat
        } else {
            3nat
        }),
    {
        let n = toks.len();
        let ghost a0 = self@;
        let ghost l0 = self.answers@;
        let braced = is_opening(toks, pos, Delim::Bracket);
        let start = if braced {
            pos + 1
        } else {
            pos
        };
        let closer = if braced {
            Some(Delim::Bracket)
        } else {
            None
        };
        let mut items = Array::new();
        let mut q = start;
        proof {
            lemma_extends_refl(a0);
            lemma_log_refl(l0);
        }
        loop
            invariant_except_break
                forall|ans: Seq<bool>| #[trigger]
                    extends_log(self.answers@, ans) ==> p_elems(
                        self@,
                        toks@,
                        q as int,
                        items@,
                        closer,
                        types,
                        ans,
                    ) == p_elems(a0, toks@, start as int, Seq::empty(), closer, types, ans),
            invariant
                a0 == old(self)@,
                l0 == old(self).answers@,
                braced == is_open(toks@, pos as int, Delim::Bracket),
                start == (if braced { pos + 1 } else { pos as int }),
                closer == (if braced { Some(Delim::Bracket) } else { None }),
                wf(self@),
                extends(a0, self@),
                extends_log(l0, self.answers@),
                start <= q <= n,
                n == toks@.len(),
                self.id <= q,
                self.id - a0.id == self@.objects.len() - a0.objects.len(),
                numbered(self@, -1),
                forall|i: int|
                    a0.objects.len() <= i < self@.objects.len() ==> #[trigger] self@.nums[i] >= a0.id,
                forall|j: int|
                    0 <= j < items@.len() ==> child_ok(self@, #[trigger] items@[j], self@.clock),
            ensures
                self.id - a0.id == self@.objects.len() - a0.objects.len(),
                numbered(self@, -1),
                forall|i: int|
                    a0.objects.len() <= i < self@.objects.len() ==> #[trigger] self@.nums[i] >= a0.id,
                wf(self@),
                extends(a0, self@),
                extends_log(l0, self.answers@),
                start <= q <= n,
                self.id <= q,
                forall|ans: Seq<bool>| #[trigger]
                    extends_log(self.answers@, ans) ==> finish(self@, toks@, q as int, items@, closer)
                        == p_elems(a0, toks@, start as int, Seq::empty(), closer, types, ans),
                forall|j: int|
                    0 <= j < items@.len() ==> child_ok(self@, #[trigger] items@[j], self@.clock),
            decreases n - q,
        {
            if list_over(toks, q, braced) {
                break;
            }
            let ghost before = self@;
            let ghost lb = self.answers@;
            let ghost acc = items@;
            match self.parse_value(toks, q, types) {
                Err(e) => {
                    proof {
                        assert forall|ans: Seq<bool>| #[trigger]
                            extends_log(self.answers@, ans) implies agrees(
                            Err::<(Value, usize), SyntaxError>(e),
                            self@,
                            p_array(a0, toks@, pos as int, types, ans),
                        ) by {
                            lemma_log_trans(lb, self.answers@, ans);
                            assert(extends_log(lb, ans));
                        }
                        lemma_log_trans(l0, lb, self.answers@);
                    }
                    return Err(e);
                },
                Ok((v, end)) => {
                    let ghost la = self.answers@;
                    proof {
                        lemma_extends_trans(a0, before, self@);
                        lemma_log_trans(l0, lb, la);
                        assert forall|j: int| 0 <= j < items@.len() implies child_ok(
                            self@,
                            #[trigger] items@[j],
                            self@.clock,
                        ) by {
                            lemma_extends_keeps(before, self@, items@[j]);
                        }
                    }
                    items.items.push(v);
                    let comma = is_comma(toks, end);
                    proof {
                        assert forall|ans: Seq<bool>| #[trigger]
                            extends_log(la, ans) implies (if comma {
                            p_elems(self@, toks@, end + 1, items@, closer, types, ans)
                        } else {
                            finish(self@, toks@, end as int, items@, closer)
                        }) == p_elems(a0, toks@, start as int, Seq::empty(), closer, types, ans) by {
                            lemma_log_trans(lb, la, ans);
                            assert(extends_log(lb, ans));
                            assert(acc.push(v) == items@);
                        }
                    }
                    if comma {
                        q = end + 1;
                    } else {
                        q = end;
                        break;
                    }
                },
            }
        }
        match finish_list(toks, q, closer) {
            Err(e) => Err(e),
            Ok(end) => {
                let ghost b = self@;
                let v = self.append_array(items);
                proof {
                    lemma_extends_trans(a0, b, self@);
                }
                Ok((v, end))
            },
        }
    }

    /// `IDENT object` at the start of the input: the object is named by the
    /// identifier and the root becomes a declaration.
    fn parse_declare(&mut self, toks: &Vec<Tok>) -> (r: Result<(Value, usize), SyntaxError>)
        requires
            old(self)@ == empty_arena(),
            toks@.len() > 0,
            is_open(toks@, tree_end(toks@, 0), Delim::Brace),
        ensures
            extends_log(old(self).answers@, final(self).answers@),
            forall|ans: Seq<bool>| #[trigger]
                extends_log(final(self).answers@, ans) ==> agrees(
                    r,
                    final(self)@,
                    p_declare(old(self)@, toks@, ans),
                ),
            r is Ok ==> wf(final(self)@) && valid(final(self)@, r->Ok_0.0),
            r is Ok ==> final(self).id == final(self)@.objects.len(),
            r is Ok ==> numbered(final(self)@, r->Ok_0.0.i as int),
    {
        let ghost l0 = self.answers@;
        let name = match &toks[0] {
            Tok::Ident(s) => s.clone(),
            _ => {
                proof {
                    lemma_log_refl(l0);
                }
                return Err(SyntaxError { pos: 0, expected: Expected::Identifier });
            },
        };
        proof {
            empty_arena_wf();
        }
        match self.parse_object(toks, 1, true) {
            Err(e) => Err(e),
            Ok((v, end)) => {
                let ghost b = self@;
                let obj = self.get_object_mut(&v);
                obj.name = name;
                assert(self.objects@[v.i as int]@ == ObjectModel {
                    name: name@,
                    ..b.objects[v.i as int]
                });
                assert(self@.objects =~= rename(b, v.i as int, name@).objects);
                proof {
                    lemma_rename_wf(b, v.i as int, name@);
                    assert forall|i: int|
                        0 <= i < self@.nums.len() && i != v.i as int implies #[trigger] self@.objects[i].name
                        == object_name(self@.nums[i]) by {
                        assert(b.objects[i].name == object_name(b.nums[i]));
                    }
                }
                Ok((Value { t: ValueType::Declare, i: v.i }, end))
            },
        }
    }

    /// Parses a whole document. The second token tree decides its form: a
    /// brace group makes a declaration (`Name { ... }`), `:` a bare object
    /// (`key: value, ...`), anything else an array (`[...]` or `a, b, ...`).
    /// Every token must be used.
    ///
    /// The result is the one the grammar gives for syn's answers on the
    /// candidate leaves, which the document records in `answers`; an error
    /// is the one the grammar gives for some answers.
    pub fn parse(toks: &Vec<Tok>) -> (r: Result<Json, SyntaxError>)
        ensures
            r is Ok ==> p_doc(toks@, r->Ok_0.answers@) == Ok::<(Arena, Value), SyntaxError>(
                (r->Ok_0@, r->Ok_0.value),
            ),
            r is Ok ==> forall|ans: Seq<bool>| #[trigger]
                extends_log(r->Ok_0.answers@, ans) ==> p_doc(toks@, ans) == Ok::<
                    (Arena, Value),
                    SyntaxError,
                >((r->Ok_0@, r->Ok_0.value)),
            r is Err ==> exists|ans: Seq<bool>|
                p_doc(toks@, ans) == Err::<(Arena, Value), SyntaxError>(r->Err_0),
            r is Ok ==> wf(r->Ok_0@) && valid(r->Ok_0@, r->Ok_0.value),
            r is Ok ==> r->Ok_0.id == r->Ok_0.objects@.len(),
            r is Ok ==> numbered(
                r->Ok_0@,
                if r->Ok_0.value.t == ValueType::Declare {
                    r->Ok_0.value.i as int
                } else {
                    -1
                },
            ),
    {
        let mut json = Json::new();
        let n = toks.len();
        let top = if n > 0 {
            let second = skip_tree(toks, 0);
            if is_opening(toks, second, Delim::Brace) {
                json.parse_declare(toks)
            } else if is_colon(toks, second) {
                json.parse_object(toks, 0, false)
            } else {
                json.parse_array(toks, 0, false)
            }
        } else {
            json.parse_array(toks, 0, false)
        };
        let ghost log = json.answers@;
        proof {
            lemma_log_refl(log);
            assert forall|ans: Seq<bool>| #[trigger]
                extends_log(log, ans) implies agrees(top, json@, p_top(toks@, ans)) by {}
            assert(agrees(top, json@, p_top(toks@, log)));
        }
        match top {
            Err(e) => {
                assert(p_doc(toks@, log) == Err::<(Arena, Value), SyntaxError>(e));
                Err(e)
            },
            Ok((v, end)) => {
                if end == n {
                    json.value = v;
                    Ok(json)
                } else {
                    let e = SyntaxError { pos: end, expected: Expected::EndOfInput };
                    assert(p_doc(toks@, log) == Err::<(Arena, Value), SyntaxError>(e));
                    Err(e)
                }
            },
        }
    }
}

} // verus!
