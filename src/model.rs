//! The mathematical model of the node arena: what a document holds, and
//! when it is well formed.
use vstd::prelude::*;

use crate::text::dec;

verus! {

/// The kind of node a [`Value`] refers to.
#[derive(Clone, Copy, PartialEq, Eq, Structural, Debug)]
pub enum ValueType {
    /// No node.
    Null,
    /// An object of the object arena.
    Object,
    /// An array of the array arena.
    Array,
    /// An expression of the expression arena.
    Expression,
    /// The declared root object (kept in the object arena).
    Declare,
}

/// A handle to a node: its kind and its index in the arena of that kind.
#[derive(Clone, Copy, PartialEq, Eq, Structural, Debug)]
pub struct Value {
    pub t: ValueType,
    pub i: usize,
}

/// An object as a model: its name and its `(key, value)` pairs in order.
pub struct ObjectModel {
    pub name: Seq<char>,
    pub pairs: Seq<(Seq<char>, Value)>,
}

/// The arena as a model. Besides the nodes it keeps, for each object and
/// array, a creation stamp: a node's children always carry smaller stamps.
pub struct Arena {
    pub objects: Seq<ObjectModel>,
    pub arrays: Seq<Seq<Value>>,
    /// The text of each expression and the position of its first token.
    pub exprs: Seq<(Seq<char>, usize)>,
    pub obj_stamp: Seq<nat>,
    pub arr_stamp: Seq<nat>,
    pub clock: nat,
    /// The counter of synthesized object names.
    pub id: nat,
    /// How many candidate leaves have been put to syn so far.
    pub asked: nat,
    /// For each object, the counter value it was named with.
    pub nums: Seq<nat>,
}

pub open spec fn empty_arena() -> Arena {
    Arena {
        objects: Seq::empty(),
        arrays: Seq::empty(),
        exprs: Seq::empty(),
        obj_stamp: Seq::empty(),
        arr_stamp: Seq::empty(),
        clock: 1,
        id: 0,
        asked: 0,
        nums: Seq::empty(),
    }
}

pub open spec fn is_object(v: Value) -> bool {
    v.t == ValueType::Object || v.t == ValueType::Declare
}

/// `v` refers to a node that exists in `a`.
pub open spec fn valid(a: Arena, v: Value) -> bool {
    match v.t {
        ValueType::Null => true,
        ValueType::Object | ValueType::Declare => v.i < a.objects.len(),
        ValueType::Array => v.i < a.arrays.len(),
        ValueType::Expression => v.i < a.exprs.len(),
    }
}

pub open spec fn stamp(a: Arena, v: Value) -> nat {
    match v.t {
        ValueType::Object | ValueType::Declare => a.obj_stamp[v.i as int],
        ValueType::Array => a.arr_stamp[v.i as int],
        _ => 0,
    }
}

/// A child of a node is valid and was created before the node.
pub open spec fn child_ok(a: Arena, c: Value, parent_stamp: nat) -> bool {
    valid(a, c) && stamp(a, c) < parent_stamp
}

pub open spec fn wf(a: Arena) -> bool {
    &&& a.obj_stamp.len() == a.objects.len()
    &&& a.arr_stamp.len() == a.arrays.len()
    &&& a.clock > 0
    &&& forall|i: int| 0 <= i < a.objects.len() ==> 0 < #[trigger] a.obj_stamp[i] < a.clock
    &&& forall|i: int| 0 <= i < a.arrays.len() ==> 0 < #[trigger] a.arr_stamp[i] < a.clock
    &&& forall|i: int, j: int|
        0 <= i < a.objects.len() && 0 <= j < a.objects[i].pairs.len() ==> child_ok(
            a,
            #[trigger] a.objects[i].pairs[j].1,
            a.obj_stamp[i],
        )
    &&& forall|i: int, j: int|
        0 <= i < a.arrays.len() && 0 <= j < a.arrays[i].len() ==> child_ok(
            a,
            #[trigger] a.arrays[i][j],
            a.arr_stamp[i],
        )
}

/// `b` holds every node of `a`, unchanged, and perhaps more.
pub open spec fn extends(a: Arena, b: Arena) -> bool {
    &&& a.objects.len() <= b.objects.len()
    &&& a.arrays.len() <= b.arrays.len()
    &&& a.exprs.len() <= b.exprs.len()
    &&& a.obj_stamp.len() <= b.obj_stamp.len()
    &&& a.arr_stamp.len() <= b.arr_stamp.len()
    &&& forall|i: int| 0 <= i < a.objects.len() ==> b.objects[i] == a.objects[i]
    &&& forall|i: int| 0 <= i < a.arrays.len() ==> b.arrays[i] == a.arrays[i]
    &&& forall|i: int| 0 <= i < a.exprs.len() ==> b.exprs[i] == a.exprs[i]
    &&& forall|i: int| 0 <= i < a.obj_stamp.len() ==> b.obj_stamp[i] == a.obj_stamp[i]
    &&& forall|i: int| 0 <= i < a.arr_stamp.len() ==> b.arr_stamp[i] == a.arr_stamp[i]
    &&& a.clock <= b.clock
    &&& a.id <= b.id
    &&& a.nums.len() <= b.nums.len()
    &&& forall|i: int| 0 <= i < a.nums.len() ==> b.nums[i] == a.nums[i]
}

/// The name synthesized for the object created when the counter is `id`.
pub open spec fn object_name(id: nat) -> Seq<char> {
    "Object"@ + dec(id)
}

/// Every object was named with its own counter value, below the counter,
/// and (but for object `skip`, if any) still has the name made from it.
pub open spec fn numbered(a: Arena, skip: int) -> bool {
    &&& a.nums.len() == a.objects.len()
    &&& forall|i: int| 0 <= i < a.nums.len() ==> #[trigger] a.nums[i] < a.id
    &&& forall|i: int, j: int| 0 <= i < j < a.nums.len() ==> a.nums[i] != a.nums[j]
    &&& forall|i: int|
        0 <= i < a.nums.len() && i != skip ==> #[trigger] a.objects[i].name == object_name(a.nums[i])
}

/// `a` with one more object, named with the counter value `num`; the
/// handle to it.
pub open spec fn add_object(a: Arena, o: ObjectModel, num: nat) -> (Arena, Value) {
    (
        Arena {
            objects: a.objects.push(o),
            nums: a.nums.push(num),
            obj_stamp: a.obj_stamp.push(a.clock),
            clock: a.clock + 1,
            ..a
        },
        Value { t: ValueType::Object, i: a.objects.len() as usize },
    )
}

/// `a` with one more array; the handle to it.
pub open spec fn add_array(a: Arena, items: Seq<Value>) -> (Arena, Value) {
    (
        Arena {
            arrays: a.arrays.push(items),
            arr_stamp: a.arr_stamp.push(a.clock),
            clock: a.clock + 1,
            ..a
        },
        Value { t: ValueType::Array, i: a.arrays.len() as usize },
    )
}

/// `a` with one more expression; the handle to it.
pub open spec fn add_expr(a: Arena, text: Seq<char>, pos: usize) -> (Arena, Value) {
    (
        Arena { exprs: a.exprs.push((text, pos)), ..a },
        Value { t: ValueType::Expression, i: a.exprs.len() as usize },
    )
}

} // verus!

verus! {

/// `b` grew out of `a` by a parse step that built the node `v`.
pub open spec fn grown(a: Arena, b: Arena, v: Value) -> bool {
    &&& wf(b)
    &&& extends(a, b)
    &&& valid(b, v)
    &&& stamp(b, v) < b.clock
}

pub proof fn lemma_extends_refl(a: Arena)
    ensures
        extends(a, a),
{
}

pub proof fn lemma_extends_trans(a: Arena, b: Arena, c: Arena)
    requires
        extends(a, b),
        extends(b, c),
    ensures
        extends(a, c),
{
}

/// A node of `a` is still there, with the same stamp, in every extension.
pub proof fn lemma_extends_keeps(a: Arena, b: Arena, v: Value)
    requires
        wf(a),
        extends(a, b),
        valid(a, v),
    ensures
        valid(b, v),
        stamp(b, v) == stamp(a, v),
{
}

pub proof fn lemma_add_object(a: Arena, o: ObjectModel, num: nat)
    requires
        wf(a),
        a.objects.len() < usize::MAX,
        forall|j: int| 0 <= j < o.pairs.len() ==> child_ok(a, #[trigger] o.pairs[j].1, a.clock),
    ensures
        grown(a, add_object(a, o, num).0, add_object(a, o, num).1),
        add_object(a, o, num).0.clock == a.clock + 1,
{
    let b = add_object(a, o, num).0;
    assert forall|i: int, j: int|
        0 <= i < b.objects.len() && 0 <= j < b.objects[i].pairs.len() implies child_ok(
        b,
        #[trigger] b.objects[i].pairs[j].1,
        b.obj_stamp[i],
    ) by {
        if i < a.objects.len() {
            assert(child_ok(a, a.objects[i].pairs[j].1, a.obj_stamp[i]));
        } else {
            assert(child_ok(a, o.pairs[j].1, a.clock));
        }
    }
    assert forall|i: int, j: int|
        0 <= i < b.arrays.len() && 0 <= j < b.arrays[i].len() implies child_ok(
        b,
        #[trigger] b.arrays[i][j],
        b.arr_stamp[i],
    ) by {
        assert(child_ok(a, a.arrays[i][j], a.arr_stamp[i]));
    }
}

pub proof fn lemma_add_array(a: Arena, items: Seq<Value>)
    requires
        wf(a),
        a.arrays.len() < usize::MAX,
        forall|j: int| 0 <= j < items.len() ==> child_ok(a, #[trigger] items[j], a.clock),
    ensures
        grown(a, add_array(a, items).0, add_array(a, items).1),
        add_array(a, items).0.clock == a.clock + 1,
{
    let b = add_array(a, items).0;
    assert forall|i: int, j: int|
        0 <= i < b.objects.len() && 0 <= j < b.objects[i].pairs.len() implies child_ok(
        b,
        #[trigger] b.objects[i].pairs[j].1,
        b.obj_stamp[i],
    ) by {
        assert(child_ok(a, a.objects[i].pairs[j].1, a.obj_stamp[i]));
    }
    assert forall|i: int, j: int|
        0 <= i < b.arrays.len() && 0 <= j < b.arrays[i].len() implies child_ok(
        b,
        #[trigger] b.arrays[i][j],
        b.arr_stamp[i],
    ) by {
        if i < a.arrays.len() {
            assert(child_ok(a, a.arrays[i][j], a.arr_stamp[i]));
        } else {
            assert(child_ok(a, items[j], a.clock));
        }
    }
}

pub proof fn lemma_add_expr(a: Arena, text: Seq<char>, pos: usize)
    requires
        wf(a),
        a.exprs.len() < usize::MAX,
    ensures
        grown(a, add_expr(a, text, pos).0, add_expr(a, text, pos).1),
        add_expr(a, text, pos).0.clock == a.clock,
{
    let b = add_expr(a, text, pos).0;
    assert forall|i: int, j: int|
        0 <= i < b.objects.len() && 0 <= j < b.objects[i].pairs.len() implies child_ok(
        b,
        #[trigger] b.objects[i].pairs[j].1,
        b.obj_stamp[i],
    ) by {
        assert(child_ok(a, a.objects[i].pairs[j].1, a.obj_stamp[i]));
    }
    assert forall|i: int, j: int|
        0 <= i < b.arrays.len() && 0 <= j < b.arrays[i].len() implies child_ok(
        b,
        #[trigger] b.arrays[i][j],
        b.arr_stamp[i],
    ) by {
        assert(child_ok(a, a.arrays[i][j], a.arr_stamp[i]));
    }
}

pub proof fn empty_arena_wf()
    ensures
        wf(empty_arena()),
{
}

/// Renaming an object keeps the arena well formed.
pub proof fn lemma_rename_wf(a: Arena, i: int, name: Seq<char>)
    requires
        wf(a),
        0 <= i < a.objects.len(),
    ensures
        wf(Arena { objects: a.objects.update(i, ObjectModel { name, ..a.objects[i] }), ..a }),
{
    let b = Arena { objects: a.objects.update(i, ObjectModel { name, ..a.objects[i] }), ..a };
    assert forall|k: int, j: int|
        0 <= k < b.objects.len() && 0 <= j < b.objects[k].pairs.len() implies child_ok(
        b,
        #[trigger] b.objects[k].pairs[j].1,
        b.obj_stamp[k],
    ) by {
        assert(child_ok(a, a.objects[k].pairs[j].1, a.obj_stamp[k]));
    }
    assert forall|k: int, j: int|
        0 <= k < b.arrays.len() && 0 <= j < b.arrays[k].len() implies child_ok(
        b,
        #[trigger] b.arrays[k][j],
        b.arr_stamp[k],
    ) by {
        assert(child_ok(a, a.arrays[k][j], a.arr_stamp[k]));
    }
}

} // verus!
