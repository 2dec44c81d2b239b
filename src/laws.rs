//! Properties of the translation that relate several of its parts, stated
//! over the spec functions that the executable code is proved against.
use vstd::prelude::*;

use crate::codegen::{
    declare, declare_fields, generics, serde_import, translation, generic_fields, item_type, lemma_fields_err, none_text, render,
    render_fields, render_items, type_param, value_text,
};
use crate::error::{Expected, SyntaxError};
use crate::grammar::{at_end, p_doc, p_object, p_pair, p_pairs};
use crate::model::{numbered, object_name, child_ok, is_object, valid, wf, Arena, ObjectModel, Value, ValueType};
use crate::text::{dec, join, lemma_dec_injective};
use crate::token::{is_ident, is_open, is_punct, tree_end, Delim, Tok};

verus! {

/// `key:value` for each member of `o`, every member being an expression
/// leaf.
pub open spec fn leaf_fields(a: Arena, o: ObjectModel) -> Seq<Seq<char>> {
    Seq::new(
        o.pairs.len(),
        |j: int| o.pairs[j].0 + ":"@ + value_text(a.exprs[o.pairs[j].1.i as int].0),
    )
}

proof fn lemma_leaf_fields(a: Arena, i: int, n: int, ty: Seq<char>)
    requires
        wf(a),
        0 <= i < a.objects.len(),
        0 <= n <= a.objects[i].pairs.len(),
        forall|j: int|
            0 <= j < a.objects[i].pairs.len() ==> (#[trigger] a.objects[i].pairs[j]).1.t
                == ValueType::Expression,
    ensures
        render_fields(a, i, n, ty) =~= leaf_fields(a, a.objects[i]).take(n),
    decreases n,
{
    if n > 0 {
        lemma_leaf_fields(a, i, n - 1, ty);
        assert(child_ok(a, a.objects[i].pairs[n - 1].1, a.obj_stamp[i]));
        assert(a.objects[i].pairs[n - 1].1.t == ValueType::Expression);
        assert(render(a, a.objects[i].pairs[n - 1].1, ty) == value_text(
            a.exprs[a.objects[i].pairs[n - 1].1.i as int].0,
        ));
        assert(render_fields(a, i, n, ty) == render_fields(a, i, n - 1, ty).push(
            a.objects[i].pairs[n - 1].0 + ":"@ + render(a, a.objects[i].pairs[n - 1].1, ty),
        ));
        assert(leaf_fields(a, a.objects[i]).take(n) =~= leaf_fields(a, a.objects[i]).take(
            n - 1,
        ).push(leaf_fields(a, a.objects[i])[n - 1]));
    }
}

/// An object whose members are all expression leaves is constructed with
/// exactly its keys, in order, each holding the printed value of its own
/// leaf (`null` and `None` as the absent optional value).
pub proof fn law_leaf_object_fields(a: Arena, v: Value, ty: Seq<char>)
    requires
        wf(a),
        valid(a, v),
        is_object(v),
        forall|j: int|
            0 <= j < a.objects[v.i as int].pairs.len() ==> (#[trigger] a.objects[v.i as int].pairs[j]).1.t
                == ValueType::Expression,
    ensures
        render(a, v, ty) == (if ty.len() == 0 {
            a.objects[v.i as int].name
        } else {
            ty
        }) + " { "@ + join(leaf_fields(a, a.objects[v.i as int]), ","@) + " }"@,
        leaf_fields(a, a.objects[v.i as int]).len() == a.objects[v.i as int].pairs.len(),
{
    let o = a.objects[v.i as int];
    lemma_leaf_fields(a, v.i as int, o.pairs.len() as int, ty);
    assert(leaf_fields(a, o).take(o.pairs.len() as int) =~= leaf_fields(a, o));
}

/// The same at the level of a whole document: when the input is an object
/// literal whose members are all leaves, its translation constructs the
/// root with exactly its keys, in order, each holding its own printed value.
pub proof fn law_leaf_document(t: Seq<Tok>, ans: Seq<bool>)
    requires
        p_doc(t, ans) is Ok,
        wf(p_doc(t, ans)->Ok_0.0),
        valid(p_doc(t, ans)->Ok_0.0, p_doc(t, ans)->Ok_0.1),
        p_doc(t, ans)->Ok_0.1.t == ValueType::Object,
        forall|j: int|
            0 <= j < p_doc(t, ans)->Ok_0.0.objects[p_doc(t, ans)->Ok_0.1.i as int].pairs.len() ==> (
            #[trigger] p_doc(t, ans)->Ok_0.0.objects[p_doc(t, ans)->Ok_0.1.i as int].pairs[j]).1.t
                == ValueType::Expression,
    ensures
        ({
            let (a, v) = p_doc(t, ans)->Ok_0;
            let o = a.objects[v.i as int];
            translation(t, ans) == Ok::<Seq<char>, SyntaxError>(
                "{ "@ + generics(a.objects) + "\n"@ + serde_import() + o.name + " { "@ + join(
                    leaf_fields(a, o),
                    ","@,
                ) + " }"@ + " }"@,
            )
        }),
{
    let (a, v) = p_doc(t, ans)->Ok_0;
    let o = a.objects[v.i as int];
    law_leaf_object_fields(a, v, Seq::empty());
    assert("{ "@ + generics(a.objects) + "\n"@ + (serde_import() + render(a, v, Seq::empty()))
        + " }"@ =~= "{ "@ + generics(a.objects) + "\n"@ + serde_import() + o.name + " { "@ + join(
        leaf_fields(a, o),
        ","@,
    ) + " }"@ + " }"@);
}

proof fn lemma_declare_fields_order(a: Arena, i: int, n: int)
    requires
        wf(a),
        0 <= i < a.objects.len(),
        0 <= n <= a.objects[i].pairs.len(),
        declare_fields(a, i, n) is Ok,
    ensures
        declare_fields(a, i, n)->Ok_0.0.len() == n,
        forall|j: int| 0 <= j < n ==> #[trigger] declare(a, a.objects[i].pairs[j].1) is Ok,
        forall|j: int|
            0 <= j < n ==> #[trigger] declare_fields(a, i, n)->Ok_0.0[j] == a.objects[i].pairs[j].0
                + ":"@ + declare(a, a.objects[i].pairs[j].1)->Ok_0.0,
    decreases n,
{
    if n > 0 {
        lemma_declare_fields_order(a, i, n - 1);
        let prev = declare_fields(a, i, n - 1)->Ok_0.0;
        let cur = declare_fields(a, i, n)->Ok_0.0;
        assert(cur == prev.push(
            a.objects[i].pairs[n - 1].0 + ":"@ + declare(a, a.objects[i].pairs[n - 1].1)->Ok_0.0,
        ));
        assert forall|j: int| 0 <= j < n implies #[trigger] declare_fields(a, i, n)->Ok_0.0[j] == a.objects[i].pairs[j].0 + ":"@
            + declare(a, a.objects[i].pairs[j].1)->Ok_0.0 by {
            if j < n - 1 {
                assert(prev[j] == a.objects[i].pairs[j].0 + ":"@ + declare(
                    a,
                    a.objects[i].pairs[j].1,
                )->Ok_0.0);
            }
        }
    }
}

/// Both kinds of declaration list an object's fields in the order of its
/// members, which is the order in which they were written: in the generic
/// declaration member `j` becomes `key_j:T<j+1>`, in declare mode
/// `key_j:<type of member j>`.
pub proof fn law_field_order(a: Arena, i: int)
    requires
        wf(a),
        0 <= i < a.objects.len(),
    ensures
        generic_fields(a.objects[i], a.objects[i].pairs.len() as int).len()
            == a.objects[i].pairs.len(),
        forall|j: int|
            0 <= j < a.objects[i].pairs.len() ==> #[trigger] generic_fields(
                a.objects[i],
                a.objects[i].pairs.len() as int,
            )[j] == a.objects[i].pairs[j].0 + ":"@ + type_param(j),
        declare_fields(a, i, a.objects[i].pairs.len() as int) is Ok ==> {
            let fields = declare_fields(a, i, a.objects[i].pairs.len() as int)->Ok_0.0;
            &&& fields.len() == a.objects[i].pairs.len()
            &&& forall|j: int|
                0 <= j < a.objects[i].pairs.len() ==> #[trigger] fields[j] == a.objects[i].pairs[j].0
                    + ":"@ + declare(a, a.objects[i].pairs[j].1)->Ok_0.0
        },
{
    if declare_fields(a, i, a.objects[i].pairs.len() as int) is Ok {
        lemma_declare_fields_order(a, i, a.objects[i].pairs.len() as int);
    }
}

proof fn lemma_items(a: Arena, i: int, n: int, ty: Seq<char>)
    requires
        wf(a),
        0 <= i < a.arrays.len(),
        0 <= n <= a.arrays[i].len(),
    ensures
        render_items(a, i, n, ty) =~= Seq::new(n as nat, |k: int| render(a, a.arrays[i][k], ty)),
    decreases n,
{
    if n > 0 {
        lemma_items(a, i, n - 1, ty);
    }
}

/// Every item of an array is built under the type name of its first item
/// when that item is an object; items of another shape are not refused.
pub proof fn law_array_first_item_type(a: Arena, v: Value, ty: Seq<char>)
    requires
        wf(a),
        valid(a, v),
        v.t == ValueType::Array,
    ensures
        ({
            let items = a.arrays[v.i as int];
            let nm = item_type(a, items);
            &&& render(a, v, ty) == "["@ + join(
                Seq::new(items.len(), |k: int| render(a, items[k], nm)),
                ","@,
            ) + "]"@
            &&& forall|k: int|
                0 <= k < items.len() && is_object(items[k]) && nm.len() > 0 ==> #[trigger] render(
                    a,
                    items[k],
                    nm,
                ) == nm + " { "@ + join(
                    render_fields(
                        a,
                        items[k].i as int,
                        a.objects[items[k].i as int].pairs.len() as int,
                        nm,
                    ),
                    ","@,
                ) + " }"@
        }),
{
    let items = a.arrays[v.i as int];
    let nm = item_type(a, items);
    lemma_items(a, v.i as int, items.len() as int, nm);
    assert forall|k: int|
        0 <= k < items.len() && is_object(items[k]) && nm.len() > 0 implies #[trigger] render(
        a,
        items[k],
        nm,
    ) == nm + " { "@ + join(
        render_fields(a, items[k].i as int, a.objects[items[k].i as int].pairs.len() as int, nm),
        ","@,
    ) + " }"@ by {
        assert(child_ok(a, a.arrays[v.i as int][k], a.arr_stamp[v.i as int]));
    }
}

/// A `null` leaf is the absent optional value in instance mode, while in
/// declare mode it is refused at its own position, and so is every object
/// that has it as a member.
pub proof fn law_null_leaf(a: Arena, v: Value, ty: Seq<char>)
    requires
        wf(a),
        valid(a, v),
        v.t == ValueType::Expression,
        a.exprs[v.i as int].0 == "null"@,
    ensures
        render(a, v, ty) == none_text(),
        declare(a, v) == Err::<(Seq<char>, Seq<char>), SyntaxError>(
            SyntaxError { pos: a.exprs[v.i as int].1, expected: Expected::TypeName },
        ),
{
}

/// An object with a `null` leaf among its members has no declaration.
pub proof fn law_null_member(a: Arena, o: Value, j: int)
    requires
        wf(a),
        valid(a, o),
        is_object(o),
        0 <= j < a.objects[o.i as int].pairs.len(),
        a.objects[o.i as int].pairs[j].1.t == ValueType::Expression,
        a.exprs[a.objects[o.i as int].pairs[j].1.i as int].0 == "null"@,
    ensures
        declare(a, o) is Err,
{
    let i = o.i as int;
    let n = a.objects[i].pairs.len() as int;
    assert(child_ok(a, a.objects[i].pairs[j].1, a.obj_stamp[i]));
    assert(declare(a, a.objects[i].pairs[j].1) is Err);
    if declare_fields(a, i, j) is Err {
        if j > 0 {
            lemma_fields_err(a, i, j, n);
        }
    }
    assert(declare_fields(a, i, j + 1) is Err);
    lemma_fields_err(a, i, j + 1, n);
}

/// The form of a document is decided by its second token tree alone: a
/// brace group makes a declaration, `:` a bare object, anything else an
/// array.
pub proof fn law_dispatch(t: Seq<Tok>, ans: Seq<bool>)
    requires
        p_doc(t, ans) is Ok,
    ensures
        ({
            let root = p_doc(t, ans)->Ok_0.1;
            let second = tree_end(t, 0);
            &&& (root.t == ValueType::Declare) == (t.len() > 0 && is_open(t, second, Delim::Brace))
            &&& (root.t == ValueType::Object) == (t.len() > 0 && !is_open(
                t,
                second,
                Delim::Brace,
            ) && is_punct(t, second, ':'))
            &&& (root.t == ValueType::Array) == (t.len() == 0 || (!is_open(
                t,
                second,
                Delim::Brace,
            ) && !is_punct(t, second, ':')))
        }),
{
}

/// Naming starts afresh in every document: when the root is an object it
/// is named `Object0`, whatever was translated before.
pub proof fn law_root_named_first(t: Seq<Tok>, ans: Seq<bool>)
    requires
        p_doc(t, ans) is Ok,
        p_doc(t, ans)->Ok_0.1.t == ValueType::Object,
        p_doc(t, ans)->Ok_0.0.objects.len() <= usize::MAX,
    ensures
        p_doc(t, ans)->Ok_0.0.objects[p_doc(t, ans)->Ok_0.1.i as int].name == object_name(0),
        object_name(0) == "Object0"@,
{
    reveal_strlit("Object0");
    reveal_strlit("Object");
    assert(object_name(0) =~= "Object0"@);
}

/// Member `j` of an object is written at position `ps[j]` of `t`: its key
/// is the identifier there, followed by `:`; the positions lie in
/// `[lo, hi)` and increase with `j`.
pub open spec fn keys_written_at(
    t: Seq<Tok>,
    pairs: Seq<(Seq<char>, Value)>,
    ps: Seq<int>,
    lo: int,
    hi: int,
) -> bool {
    &&& ps.len() == pairs.len()
    &&& forall|j: int|
        0 <= j < ps.len() ==> lo <= #[trigger] ps[j] < hi && is_ident(t, ps[j]) && t[ps[j]]->Ident_0@
            == pairs[j].0 && is_punct(t, ps[j] + 1, ':')
    &&& forall|j: int, k: int| 0 <= j < k < ps.len() ==> ps[j] < ps[k]
}

proof fn lemma_pairs_in_order(
    a: Arena,
    t: Seq<Tok>,
    q: int,
    acc: Seq<(Seq<char>, Value)>,
    closer: Option<Delim>,
    types: bool,
    ans: Seq<bool>,
    ps: Seq<int>,
    lo: int,
)
    requires
        keys_written_at(t, acc, ps, lo, q),
        lo <= q,
    ensures
        p_pairs(a, t, q, acc, closer, types, ans) is Ok ==> exists|ps2: Seq<int>|
            keys_written_at(
                t,
                p_pairs(a, t, q, acc, closer, types, ans)->Ok_0.1,
                ps2,
                lo,
                p_pairs(a, t, q, acc, closer, types, ans)->Ok_0.2,
            ),
    decreases t.len() - q,
{
    let res = p_pairs(a, t, q, acc, closer, types, ans);
    if at_end(t, q, closer) {
        if res is Ok {
            assert(keys_written_at(t, res->Ok_0.1, ps, lo, res->Ok_0.2));
        }
    } else {
        match p_pair(a, t, q, types, ans) {
            Err(_) => {},
            Ok((b, pair, r)) => {
                if r > q {
                    let ps1 = ps.push(q);
                    let acc1 = acc.push(pair);
                    assert(is_ident(t, q) && is_punct(t, q + 1, ':') && pair.0 == t[q]->Ident_0@);
                    assert(keys_written_at(t, acc1, ps1, lo, r + 1)) by {
                        assert forall|j: int| 0 <= j < ps1.len() implies lo <= #[trigger] ps1[j] < r
                            + 1 && is_ident(t, ps1[j]) && t[ps1[j]]->Ident_0@ == acc1[j].0
                            && is_punct(t, ps1[j] + 1, ':') by {
                            if j < ps.len() {
                                assert(ps1[j] == ps[j]);
                            }
                        }
                    }
                    if is_punct(t, r, ',') {
                        lemma_pairs_in_order(b, t, r + 1, acc1, closer, types, ans, ps1, lo);
                    } else if res is Ok {
                        assert(keys_written_at(t, res->Ok_0.1, ps1, lo, res->Ok_0.2));
                    }
                }
            },
        }
    }
}

/// An object keeps its members in the order written, duplicate keys
/// included: member `j` of the object that a successful object parse at
/// `p` adds is written at position `ps[j]`, between `p` and where the parse
/// ended, and the positions increase with `j`.
pub proof fn law_pairs_in_written_order(a: Arena, t: Seq<Tok>, p: int, types: bool, ans: Seq<bool>)
    requires
        0 <= p,
        p_object(a, t, p, types, ans) is Ok,
    ensures
        exists|ps: Seq<int>|
            keys_written_at(
                t,
                p_object(a, t, p, types, ans)->Ok_0.0.objects.last().pairs,
                ps,
                p,
                p_object(a, t, p, types, ans)->Ok_0.2,
            ),
{
    let braced = is_open(t, p, Delim::Brace);
    let start = if braced {
        p + 1
    } else {
        p
    };
    let closer = if braced {
        Some(Delim::Brace)
    } else {
        None
    };
    let a1 = Arena { id: a.id + 1, ..a };
    lemma_pairs_in_order(a1, t, start, Seq::empty(), closer, types, ans, Seq::empty(), p);
    let pairs = p_pairs(a1, t, start, Seq::empty(), closer, types, ans)->Ok_0.1;
    let r = p_pairs(a1, t, start, Seq::empty(), closer, types, ans)->Ok_0.2;
    let ps = choose|ps2: Seq<int>| keys_written_at(t, pairs, ps2, p, r);
    assert(keys_written_at(
        t,
        p_object(a, t, p, types, ans)->Ok_0.0.objects.last().pairs,
        ps,
        p,
        p_object(a, t, p, types, ans)->Ok_0.2,
    ));
}

/// Within one document synthesized names never collide: when every object
/// was named with its own counter value (all but the declared root, which
/// carries the user's name), no two of those objects share a name.
pub proof fn law_names_unique(a: Arena, skip: int)
    requires
        numbered(a, skip),
    ensures
        forall|i: int, k: int|
            0 <= i < k < a.objects.len() && i != skip && k != skip ==> #[trigger] a.objects[i].name
                != #[trigger] a.objects[k].name,
{
    assert forall|i: int, k: int|
        0 <= i < k < a.objects.len() && i != skip && k != skip implies #[trigger] a.objects[i].name
        != #[trigger] a.objects[k].name by {
        if a.objects[i].name == a.objects[k].name {
            let p = "Object"@;
            assert(object_name(a.nums[i]) == object_name(a.nums[k]));
            assert(dec(a.nums[i]) =~= object_name(a.nums[i]).subrange(
                p.len() as int,
                object_name(a.nums[i]).len() as int,
            ));
            assert(dec(a.nums[k]) =~= object_name(a.nums[k]).subrange(
                p.len() as int,
                object_name(a.nums[k]).len() as int,
            ));
            lemma_dec_injective(a.nums[i], a.nums[k]);
            assert(a.nums[i] != a.nums[k]);
        }
    }
}

} // verus!
