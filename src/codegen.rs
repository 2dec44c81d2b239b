//! Code generation: the construction expression and the generic record
//! declarations of instance mode, and the concrete declarations of declare
//! mode.
use vstd::prelude::*;

use crate::error::{syntax_error, Expected, SyntaxError};
use crate::grammar::p_doc;
use crate::json::Json;
use crate::model::{child_ok, stamp, valid, wf, Arena, ObjectModel, Value, ValueType};
use crate::text::{dec, join, push_decimal};
use crate::token::Tok;

verus! {

/// The construction of an absent optional value.
pub open spec fn none_text() -> Seq<char> {
    "Option::<String>::None"@
}

/// An expression leaf as a value: `null` and `None` become the absent
/// optional value, anything else stays as written.
pub open spec fn value_text(text: Seq<char>) -> Seq<char> {
    if text == "null"@ || text == "None"@ {
        none_text()
    } else {
        text
    }
}

/// The type name shared by the items of an array: the name of its first
/// item when that is an object, else none.
pub open spec fn item_type(a: Arena, items: Seq<Value>) -> Seq<char> {
    if items.len() > 0 && items[0].t == ValueType::Object {
        a.objects[items[0].i as int].name
    } else {
        Seq::empty()
    }
}

/// The construction expression of `v`; objects are built as `ty` when it is
/// not empty, else under their own names.
pub open spec fn render(a: Arena, v: Value, ty: Seq<char>) -> Seq<char>
    decreases stamp(a, v), 1nat, 0int,
{
    if !wf(a) || !valid(a, v) {
        Seq::empty()
    } else {
        match v.t {
            ValueType::Object | ValueType::Declare => {
                let o = a.objects[v.i as int];
                (if ty.len() == 0 {
                    o.name
                } else {
                    ty
                }) + " { "@ + join(render_fields(a, v.i as int, o.pairs.len() as int, ty), ","@)
                    + " }"@
            },
            ValueType::Array => {
                let items = a.arrays[v.i as int];
                "["@ + join(
                    render_items(a, v.i as int, items.len() as int, item_type(a, items)),
                    ","@,
                ) + "]"@
            },
            ValueType::Expression => value_text(a.exprs[v.i as int].0),
            ValueType::Null => none_text(),
        }
    }
}

/// `key:value` for the first `n` members of object `i`.
pub open spec fn render_fields(a: Arena, i: int, n: int, ty: Seq<char>) -> Seq<Seq<char>>
    decreases a.obj_stamp[i], 0nat, n,
{
    if !wf(a) || !(0 <= i < a.objects.len()) || n <= 0 || n > a.objects[i].pairs.len() {
        Seq::empty()
    } else {
        render_fields(a, i, n - 1, ty).push(
            a.objects[i].pairs[n - 1].0 + ":"@ + render(a, a.objects[i].pairs[n - 1].1, ty),
        )
    }
}

/// The first `n` items of array `i`, each built under `ty`.
pub open spec fn render_items(a: Arena, i: int, n: int, ty: Seq<char>) -> Seq<Seq<char>>
    decreases a.arr_stamp[i], 0nat, n,
{
    if !wf(a) || !(0 <= i < a.arrays.len()) || n <= 0 || n > a.arrays[i].len() {
        Seq::empty()
    } else {
        render_items(a, i, n - 1, ty).push(render(a, a.arrays[i][n - 1], ty))
    }
}

pub proof fn lemma_join_push(s: Seq<Seq<char>>, x: Seq<char>, sep: Seq<char>)
    ensures
        join(s.push(x), sep) == if s.len() == 0 {
            x
        } else {
            join(s, sep) + sep + x
        },
{
    assert(s.push(x).drop_last() =~= s);
}

/// Appends `piece` to `out`, after `sep` unless it is the first of a list.
fn append_item(out: &mut String, first: bool, sep: &str, piece: &str)
    ensures
        final(out)@ == if first {
            old(out)@ + piece@
        } else {
            old(out)@ + sep@ + piece@
        },
{
    if !first {
        out.append(sep);
    }
    out.append(piece);
}

/// The construction expression of `value` (see [`render`]).
pub fn code_gen(json: &Json, value: &Value, object_type: &String) -> (r: String)
    requires
        wf(json@),
        valid(json@, *value),
    ensures
        r@ == render(json@, *value, object_type@),
    decreases stamp(json@, *value),
{
    let ghost a = json@;
    match value.t {
        ValueType::Object | ValueType::Declare => {
            let obj = json.get_object(value);
            let mut fields = String::new();
            let mut j: usize = 0;
            while j < obj.pairs.len()
                invariant
                    a == json@,
                    wf(a),
                    valid(a, *value),
                    value.t == ValueType::Object || value.t == ValueType::Declare,
                    obj@ == a.objects[value.i as int],
                    j <= obj.pairs@.len(),
                    fields@ == join(render_fields(a, value.i as int, j as int, object_type@), ","@),
                decreases obj.pairs@.len() - j,
            {
                let pair = &obj.pairs[j];
                assert(obj@.pairs[j as int] == pair@);
                assert(child_ok(a, a.objects[value.i as int].pairs[j as int].1, a.obj_stamp[value.i as int]));
                let v = code_gen(json, &pair.value, object_type);
                let mut field = pair.key.clone();
                field.append(":");
                field.append(v.as_str());
                proof {
                    lemma_join_push(
                        render_fields(a, value.i as int, j as int, object_type@),
                        field@,
                        ","@,
                    );
                }
                append_item(&mut fields, j == 0, ",", field.as_str());
                j += 1;
            }
            let mut code = if object_type.as_str().is_empty() {
                obj.name.clone()
            } else {
                object_type.clone()
            };
            code.append(" { ");
            code.append(fields.as_str());
            code.append(" }");
            code
        },
        ValueType::Array => {
            let arr = json.get_array(value);
            let mut item_ty = String::new();
            if arr.items.len() > 0 {
                let first = arr.items[0];
                match first.t {
                    ValueType::Object => {
                        item_ty = json.get_object(&first).name.clone();
                    },
                    _ => {},
                }
            }
            assert(item_ty@ == item_type(a, a.arrays[value.i as int]));
            let mut items = String::new();
            let mut j: usize = 0;
            while j < arr.items.len()
                invariant
                    a == json@,
                    wf(a),
                    valid(a, *value),
                    value.t == ValueType::Array,
                    arr@ == a.arrays[value.i as int],
                    j <= arr.items@.len(),
                    items@ == join(render_items(a, value.i as int, j as int, item_ty@), ","@),
                decreases arr.items@.len() - j,
            {
                let v = code_gen(json, &arr.items[j], &item_ty);
                proof {
                    lemma_join_push(render_items(a, value.i as int, j as int, item_ty@), v@, ","@);
                }
                append_item(&mut items, j == 0, ",", v.as_str());
                j += 1;
            }
            let mut code = String::from_str("[");
            code.append(items.as_str());
            code.append("]");
            code
        },
        ValueType::Expression => {
            let e = json.get_expression(value);
            if e.text.eq(&String::from_str("null")) || e.text.eq(&String::from_str("None")) {
                String::from_str("Option::<String>::None")
            } else {
                e.text.clone()
            }
        },
        ValueType::Null => String::from_str("Option::<String>::None"),
    }
}

/// Declare mode: the type name of `v` and the declarations it needs. A leaf
/// names a type; `null` names none and is refused at its position.
pub open spec fn declare(a: Arena, v: Value) -> Result<(Seq<char>, Seq<char>), SyntaxError>
    decreases stamp(a, v), 1nat, 0int,
{
    if !wf(a) || !valid(a, v) {
        Err(syntax_error(0, Expected::TypeName))
    } else {
        match v.t {
            ValueType::Object | ValueType::Declare => {
                let o = a.objects[v.i as int];
                match declare_fields(a, v.i as int, o.pairs.len() as int) {
                    Err(e) => Err(e),
                    Ok((fields, code)) => Ok(
                        (
                            o.name,
                            code + "struct "@ + o.name + " { "@ + join(fields, ","@) + " }\n"@,
                        ),
                    ),
                }
            },
            ValueType::Array => {
                let items = a.arrays[v.i as int];
                if items.len() == 0 {
                    Ok(("Vec<()>"@, Seq::empty()))
                } else {
                    match declare(a, items[0]) {
                        Err(e) => Err(e),
                        Ok((n, code)) => Ok(("Vec<"@ + n + ">"@, code)),
                    }
                }
            },
            ValueType::Expression => {
                let (text, pos) = a.exprs[v.i as int];
                if text == "null"@ {
                    Err(SyntaxError { pos, expected: Expected::TypeName })
                } else {
                    Ok((text, Seq::empty()))
                }
            },
            ValueType::Null => Err(syntax_error(0, Expected::TypeName)),
        }
    }
}

/// Declare mode: `key:type` for the first `n` members of object `i`, and
/// the declarations their types need, in member order.
pub open spec fn declare_fields(a: Arena, i: int, n: int) -> Result<
    (Seq<Seq<char>>, Seq<char>),
    SyntaxError,
>
    decreases a.obj_stamp[i], 0nat, n,
{
    if !wf(a) || !(0 <= i < a.objects.len()) || n <= 0 || n > a.objects[i].pairs.len() {
        Ok((Seq::empty(), Seq::empty()))
    } else {
        match declare_fields(a, i, n - 1) {
            Err(e) => Err(e),
            Ok((fields, code)) => match declare(a, a.objects[i].pairs[n - 1].1) {
                Err(e) => Err(e),
                Ok((ty, more)) => Ok(
                    (fields.push(a.objects[i].pairs[n - 1].0 + ":"@ + ty), code + more),
                ),
            },
        }
    }
}

/// Once a member fails, every longer prefix fails with the same error.
pub proof fn lemma_fields_err(a: Arena, i: int, k: int, m: int)
    requires
        wf(a),
        0 <= i < a.objects.len(),
        0 < k <= m <= a.objects[i].pairs.len(),
        declare_fields(a, i, k) is Err,
    ensures
        declare_fields(a, i, m) == declare_fields(a, i, k),
    decreases m - k,
{
    if m > k {
        lemma_fields_err(a, i, k, m - 1);
    }
}

/// The declarations and type name of `value` in declare mode (see
/// [`declare`]).
pub fn declare_gen(json: &Json, value: &Value) -> (r: Result<(String, String), SyntaxError>)
    requires
        wf(json@),
        valid(json@, *value),
    ensures
        r is Ok <==> declare(json@, *value) is Ok,
        r is Ok ==> declare(json@, *value)->Ok_0 == (r->Ok_0.0@, r->Ok_0.1@),
        r is Err ==> declare(json@, *value) == Err::<(Seq<char>, Seq<char>), SyntaxError>(
            r->Err_0,
        ),
    decreases stamp(json@, *value),
{
    let ghost a = json@;
    match value.t {
        ValueType::Object | ValueType::Declare => {
            let obj = json.get_object(value);
            let mut fields = String::new();
            let mut code = String::new();
            let mut j: usize = 0;
            while j < obj.pairs.len()
                invariant
                    a == json@,
                    wf(a),
                    valid(a, *value),
                    value.t == ValueType::Object || value.t == ValueType::Declare,
                    obj@ == a.objects[value.i as int],
                    j <= obj.pairs@.len(),
                    declare_fields(a, value.i as int, j as int) is Ok,
                    fields@ == join(declare_fields(a, value.i as int, j as int)->Ok_0.0, ","@),
                    code@ == declare_fields(a, value.i as int, j as int)->Ok_0.1,
                    declare_fields(a, value.i as int, j as int)->Ok_0.0.len() == j,
                decreases obj.pairs@.len() - j,
            {
                let pair = &obj.pairs[j];
                assert(obj@.pairs[j as int] == pair@);
                assert(child_ok(
                    a,
                    a.objects[value.i as int].pairs[j as int].1,
                    a.obj_stamp[value.i as int],
                ));
                match declare_gen(json, &pair.value) {
                    Err(e) => {
                        proof {
                            lemma_fields_err(a, value.i as int, j + 1, obj.pairs@.len() as int);
                        }
                        return Err(e);
                    },
                    Ok((ty, more)) => {
                        let mut field = pair.key.clone();
                        field.append(":");
                        field.append(ty.as_str());
                        proof {
                            lemma_join_push(
                                declare_fields(a, value.i as int, j as int)->Ok_0.0,
                                field@,
                                ","@,
                            );
                        }
                        append_item(&mut fields, j == 0, ",", field.as_str());
                        code.append(more.as_str());
                        j += 1;
                    },
                }
            }
            let name = obj.name.clone();
            code.append("struct ");
            code.append(name.as_str());
            code.append(" { ");
            code.append(fields.as_str());
            code.append(" }\n");
            Ok((name, code))
        },
        ValueType::Array => {
            let arr = json.get_array(value);
            if arr.items.len() == 0 {
                return Ok((String::from_str("Vec<()>"), String::new()));
            }
            match declare_gen(json, &arr.items[0]) {
                Err(e) => Err(e),
                Ok((n, code)) => {
                    let mut name = String::from_str("Vec<");
                    name.append(n.as_str());
                    name.append(">");
                    Ok((name, code))
                },
            }
        },
        ValueType::Expression => {
            let e = json.get_expression(value);
            if e.text.eq(&String::from_str("null")) {
                Err(SyntaxError { pos: e.pos, expected: Expected::TypeName })
            } else {
                Ok((e.text.clone(), String::new()))
            }
        },
        ValueType::Null => Err(SyntaxError { pos: 0, expected: Expected::TypeName }),
    }
}

/// The placeholder type parameter of member `j` (counted from 0).
pub open spec fn type_param(j: int) -> Seq<char> {
    "T"@ + dec((j + 1) as nat)
}

/// The first `n` placeholder type parameters.
pub open spec fn type_params(n: int) -> Seq<Seq<char>> {
    Seq::new(n as nat, |j: int| type_param(j))
}

/// `key:T<j+1>` for the first `n` members of `o`.
pub open spec fn generic_fields(o: ObjectModel, n: int) -> Seq<Seq<char>> {
    Seq::new(n as nat, |j: int| o.pairs[j].0 + ":"@ + type_param(j))
}

/// The generic declaration of one object: member `j` gets its own type
/// parameter `T<j+1>`.
pub open spec fn generic_decl(o: ObjectModel) -> Seq<char> {
    "struct "@ + o.name + "<"@ + join(type_params(o.pairs.len() as int), ","@) + "> { "@ + join(
        generic_fields(o, o.pairs.len() as int),
        ","@,
    ) + " }"@
}

/// The attribute line written before each generic declaration.
pub open spec fn derive_line() -> Seq<char> {
    "\n#[derive(Serialize, Deserialize, Debug, Clone)]\n"@
}

/// The generic declarations of all objects, in arena order.
pub open spec fn generics(objs: Seq<ObjectModel>) -> Seq<char>
    decreases objs.len(),
{
    if objs.len() == 0 {
        Seq::empty()
    } else {
        generics(objs.drop_last()) + derive_line() + generic_decl(objs.last())
    }
}

/// The import line that opens the construction code.
pub open spec fn serde_import() -> Seq<char> {
    "use serde::{Serialize, Deserialize};\n"@
}

/// The construction code of the document: none in declare mode.
pub open spec fn code(a: Arena, v: Value) -> Seq<char> {
    if v.t == ValueType::Declare {
        Seq::empty()
    } else {
        serde_import() + render(a, v, Seq::empty())
    }
}

/// The whole output for the document: the concrete declarations in declare
/// mode; else a block of the generic declarations and the construction code.
pub open spec fn block(a: Arena, v: Value) -> Result<Seq<char>, SyntaxError> {
    if v.t == ValueType::Declare {
        match declare(a, v) {
            Err(e) => Err(e),
            Ok((_, c)) => Ok(c),
        }
    } else {
        Ok("{ "@ + generics(a.objects) + "\n"@ + code(a, v) + " }"@)
    }
}

/// The output for the token sequence `t`, or the first error, when syn's
/// answers on the candidate leaves are `ans`.
pub open spec fn translation(t: Seq<Tok>, ans: Seq<bool>) -> Result<Seq<char>, SyntaxError> {
    match p_doc(t, ans) {
        Err(e) => Err(e),
        Ok((a, v)) => block(a, v),
    }
}

impl Json {
    /// The generic declarations of every object (see [`generics`]).
    pub fn get_generics(&self) -> (r: String)
        ensures
            r@ == generics(self@.objects),
    {
        let ghost objs = self@.objects;
        let mut out = String::new();
        let mut k: usize = 0;
        assert(objs.take(0) =~= Seq::<ObjectModel>::empty());
        while k < self.objects.len()
            invariant
                objs == self@.objects,
                k <= objs.len(),
                out@ == generics(objs.take(k as int)),
            decreases objs.len() - k,
        {
            let obj = &self.objects[k];
            let ghost o = obj@;
            let mut params = String::new();
            let mut fields = String::new();
            let mut j: usize = 0;
            assert(type_params(0) =~= Seq::<Seq<char>>::empty());
            assert(generic_fields(o, 0) =~= Seq::<Seq<char>>::empty());
            while j < obj.pairs.len()
                invariant
                    o == obj@,
                    j <= obj.pairs@.len(),
                    params@ == join(type_params(j as int), ","@),
                    fields@ == join(generic_fields(o, j as int), ","@),
                decreases obj.pairs@.len() - j,
            {
                let mut t = String::from_str("T");
                push_decimal(&mut t, j + 1);
                let mut f = obj.pairs[j].key.clone();
                f.append(":");
                f.append(t.as_str());
                assert(o.pairs[j as int] == obj.pairs@[j as int]@);
                proof {
                    lemma_join_push(type_params(j as int), t@, ","@);
                    lemma_join_push(generic_fields(o, j as int), f@, ","@);
                    assert(type_params(j + 1) =~= type_params(j as int).push(t@));
                    assert(generic_fields(o, j + 1) =~= generic_fields(o, j as int).push(f@));
                }
                append_item(&mut params, j == 0, ",", t.as_str());
                append_item(&mut fields, j == 0, ",", f.as_str());
                j += 1;
            }
            out.append("\n#[derive(Serialize, Deserialize, Debug, Clone)]\n");
            out.append("struct ");
            out.append(obj.name.as_str());
            out.append("<");
            out.append(params.as_str());
            out.append("> { ");
            out.append(fields.as_str());
            out.append(" }");
            assert(objs.take(k + 1).drop_last() =~= objs.take(k as int));
            k += 1;
        }
        assert(objs.take(objs.len() as int) =~= objs);
        out
    }

    /// The construction code of the root (see [`code`]).
    pub fn get_code(&self) -> (r: String)
        requires
            wf(self@),
            valid(self@, self.value),
        ensures
            r@ == code(self@, self.value),
    {
        if self.value.t == ValueType::Declare {
            String::new()
        } else {
            let mut out = String::from_str("use serde::{Serialize, Deserialize};\n");
            let c = code_gen(self, &self.value, &String::new());
            out.append(c.as_str());
            out
        }
    }

    /// The output for the document (see [`block`]).
    pub fn get_block(&self) -> (r: Result<String, SyntaxError>)
        requires
            wf(self@),
            valid(self@, self.value),
        ensures
            r is Ok <==> block(self@, self.value) is Ok,
            r is Ok ==> block(self@, self.value) == Ok::<Seq<char>, SyntaxError>(r->Ok_0@),
            r is Err ==> block(self@, self.value) == Err::<Seq<char>, SyntaxError>(r->Err_0),
    {
        if self.value.t == ValueType::Declare {
            match declare_gen(self, &self.value) {
                Err(e) => Err(e),
                Ok((_, c)) => Ok(c),
            }
        } else {
            let mut out = String::from_str("{ ");
            let g = self.get_generics();
            out.append(g.as_str());
            out.append("\n");
            let c = self.get_code();
            out.append(c.as_str());
            out.append(" }");
            Ok(out)
        }
    }
}

pub open spec fn out_of(r: Result<String, SyntaxError>) -> Result<Seq<char>, SyntaxError> {
    match r {
        Ok(s) => Ok(s@),
        Err(e) => Err(e),
    }
}

/// Translates a literal: parses `toks` and generates its output. The
/// result is the translation for the answers that syn gave on the candidate
/// leaves (see [`translation`]).
pub fn translate(toks: &Vec<Tok>) -> (r: Result<String, SyntaxError>)
    ensures
        exists|ans: Seq<bool>| translation(toks@, ans) == out_of(r),
{
    match Json::parse(toks) {
        Err(e) => {
            let ghost w = choose|ans: Seq<bool>|
                p_doc(toks@, ans) == Err::<(Arena, Value), SyntaxError>(e);
            assert(translation(toks@, w) == out_of(Err(e)));
            Err(e)
        },
        Ok(json) => {
            let r = json.get_block();
            assert(translation(toks@, json.answers@) == out_of(r));
            r
        },
    }
}

} // verus!
