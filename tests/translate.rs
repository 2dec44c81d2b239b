use native_json::{translate, Delim, Expected, Json, SyntaxError, Tok, ValueType};
use proc_macro2::{Delimiter, Spacing, TokenStream, TokenTree};

fn delim(d: Delimiter) -> Delim {
    match d {
        Delimiter::Parenthesis => Delim::Paren,
        Delimiter::Brace => Delim::Brace,
        Delimiter::Bracket => Delim::Bracket,
        Delimiter::None => Delim::Invisible,
    }
}

fn flatten(ts: TokenStream, out: &mut Vec<Tok>) {
    for tt in ts {
        match tt {
            TokenTree::Group(g) => {
                let d = delim(g.delimiter());
                out.push(Tok::Open(d));
                flatten(g.stream(), out);
                out.push(Tok::Close(d));
            }
            TokenTree::Ident(i) => out.push(Tok::Ident(i.to_string())),
            TokenTree::Punct(p) => out.push(Tok::Punct(p.as_char(), p.spacing() == Spacing::Joint)),
            TokenTree::Literal(l) => out.push(Tok::Lit(l.to_string())),
        }
    }
}

fn toks(src: &str) -> Vec<Tok> {
    let ts: TokenStream = src.parse().unwrap();
    let mut out = Vec::new();
    flatten(ts, &mut out);
    out
}

fn run(src: &str) -> Result<String, SyntaxError> {
    translate(&toks(src))
}

const DERIVE: &str = "\n#[derive(Serialize, Deserialize, Debug, Clone)]\n";
const IMPORT: &str = "use serde::{Serialize, Deserialize};\n";

fn block(decls: &[&str], code: &str) -> String {
    let mut s = String::from("{ ");
    for d in decls {
        s.push_str(DERIVE);
        s.push_str(d);
    }
    s.push('\n');
    s.push_str(IMPORT);
    s.push_str(code);
    s.push_str(" }");
    s
}

#[test]
fn json_instance() {
    let out = run(r#"
        name: "native json",
        students:  [
            {name: "John", age: 17},
            {name: "Jack", age: 20}
        ],
        array: [1,2,3,4,5],
        vector: vec![5,4,3,2,1],
        hashmap: HashMap::from([("a", 1), ("b", 2), ("c", 3)]),
        rect: {x: 10, y: 10, width: 100, height: 50}
    "#)
    .unwrap();
    let expected = block(
        &[
            "struct Object1<T1,T2> { name:T1,age:T2 }",
            "struct Object2<T1,T2> { name:T1,age:T2 }",
            "struct Object3<T1,T2,T3,T4> { x:T1,y:T2,width:T3,height:T4 }",
            "struct Object0<T1,T2,T3,T4,T5,T6> { name:T1,students:T2,array:T3,vector:T4,hashmap:T5,rect:T6 }",
        ],
        "Object0 { name:\"native json\",\
         students:[Object1 { name:\"John\",age:17 },Object1 { name:\"Jack\",age:20 }],\
         array:[1,2,3,4,5],\
         vector:vec ! [ 5 , 4 , 3 , 2 , 1 ],\
         hashmap:HashMap :: from ( [ ( \"a\" , 1 ) , ( \"b\" , 2 ) , ( \"c\" , 3 ) ] ),\
         rect:Object3 { x:10,y:10,width:100,height:50 } }",
    );
    assert_eq!(out, expected);
}

#[test]
fn json_declare() {
    let src = r#"
    School {
        name: String,
        students:[{
            name: String,
            age: i32,
            tutor: {
                name: String,
                course: String
              }
            },
            ...
        ],
        nullable: Option<String>,
        map: HashMap<String, i32>
    }"#;
    // The `...` placeholder after the first item is not a type.
    assert_eq!(run(src).unwrap_err(), SyntaxError { pos: 31, expected: Expected::Expression });
}

#[test]
fn json_declare_without_placeholder() {
    let out = run(r#"
    School {
        name: String,
        students:[{
            name: String,
            age: i32,
            tutor: {
                name: String,
                course: String
              }
            }
        ],
        nullable: Option<String>,
        map: HashMap<String, i32>
    }"#)
    .unwrap();
    assert_eq!(
        out,
        "struct Object2 { name:String,course:String }\n\
         struct Object1 { name:String,age:i32,tutor:Object2 }\n\
         struct School { name:String,students:Vec<Object1>,nullable:Option < String >,map:HashMap < String , i32 > }\n"
    );
}

#[test]
fn declare_mode_leaf_that_is_no_type() {
    assert_eq!(run("P { a: 1, b: Vec<u8> }").unwrap(), "struct P { a:1,b:Vec < u8 > }\n");
}

#[test]
fn field_order_is_kept() {
    let out = run("b: 1, a: 2").unwrap();
    assert_eq!(out, block(&["struct Object0<T1,T2> { b:T1,a:T2 }"], "Object0 { b:1,a:2 }"));
}

#[test]
fn array_items_share_first_type() {
    let out = run("[ {x:1}, {x:2,y:3} ]").unwrap();
    assert_eq!(
        out,
        block(
            &["struct Object0<T1> { x:T1 }", "struct Object1<T1,T2> { x:T1,y:T2 }"],
            "[Object0 { x:1 },Object0 { x:2,y:3 }]"
        )
    );
}

#[test]
fn null_in_instance_mode() {
    let out = run("a: null, b: None").unwrap();
    assert_eq!(
        out,
        block(
            &["struct Object0<T1,T2> { a:T1,b:T2 }"],
            "Object0 { a:Option::<String>::None,b:Option::<String>::None }"
        )
    );
}

#[test]
fn null_in_declare_mode_fails() {
    // tokens: P { a : null }
    let err = run("P { a: null }").unwrap_err();
    assert_eq!(err, SyntaxError { pos: 4, expected: Expected::TypeName });
}

#[test]
fn naming_restarts_per_document() {
    let first = run("a: {b: 1}").unwrap();
    let second = run("c: 2").unwrap();
    assert!(first.contains("struct Object0<T1> { a:T1 }"));
    assert!(first.contains("struct Object1<T1> { b:T1 }"));
    assert_eq!(second, block(&["struct Object0<T1> { c:T1 }"], "Object0 { c:2 }"));
}

#[test]
fn declare_mode_type_leaves() {
    let out = run("Point { x: i32, y: i32 }").unwrap();
    assert_eq!(out, "struct Point { x:i32,y:i32 }\n");
}

#[test]
fn declare_mode_nested() {
    let out = run("School { name: String, tutor: { course: String }, ids: [u32], none: [] }").unwrap();
    assert_eq!(
        out,
        "struct Object1 { course:String }\nstruct School { name:String,tutor:Object1,ids:Vec<u32>,none:Vec<()> }\n"
    );
}

#[test]
fn dispatch_by_second_token() {
    let obj = Json::parse(&toks("name: \"x\"")).unwrap();
    assert_eq!(obj.value.t, ValueType::Object);
    let decl = Json::parse(&toks("Name { x: 1 }")).unwrap();
    assert_eq!(decl.value.t, ValueType::Declare);
    let arr = Json::parse(&toks("[1,2,3]")).unwrap();
    assert_eq!(arr.value.t, ValueType::Array);
    assert_eq!(run("[1,2,3]").unwrap(), block(&[], "[1,2,3]"));
    let bare = Json::parse(&toks("1, 2, 3")).unwrap();
    assert_eq!(bare.value.t, ValueType::Array);
}

#[test]
fn empty_inputs() {
    assert_eq!(run("").unwrap(), block(&[], "[]"));
    assert_eq!(run("a: [], b: {}").unwrap(), block(
        &["struct Object1<> {  }", "struct Object0<T1,T2> { a:T1,b:T2 }"],
        "Object0 { a:[],b:Object1 {  } }"
    ));
}

#[test]
fn trailing_comma_is_accepted() {
    assert_eq!(run("a: 1,").unwrap(), block(&["struct Object0<T1> { a:T1 }"], "Object0 { a:1 }"));
    assert_eq!(run("[1, 2,]").unwrap(), block(&[], "[1,2]"));
}

#[test]
fn expression_is_printed_from_its_tokens() {
    let out = run("v: vec![1, 2], s: a+b").unwrap();
    assert_eq!(
        out,
        block(&["struct Object0<T1,T2> { v:T1,s:T2 }"], "Object0 { v:vec ! [ 1 , 2 ],s:a + b }")
    );
}

#[test]
fn closure_commas_stay_in_the_expression() {
    let out = run("f: |a, b| a + b, g: 1").unwrap();
    assert!(out.contains("Object0 { f:| a , b | a + b,g:1 }"));
}

#[test]
fn error_missing_colon() {
    assert_eq!(run("a: 1, b 2").unwrap_err(), SyntaxError { pos: 5, expected: Expected::Colon });
}

#[test]
fn error_key_not_identifier() {
    assert_eq!(run("1: 2").unwrap_err(), SyntaxError { pos: 0, expected: Expected::Identifier });
}

#[test]
fn error_bad_expression() {
    assert_eq!(run("a: 1 2").unwrap_err(), SyntaxError { pos: 2, expected: Expected::Expression });
}

#[test]
fn error_missing_separator() {
    // tokens: [ { a : 1 } x ]
    assert_eq!(run("[{a: 1} x]").unwrap_err(), SyntaxError { pos: 6, expected: Expected::Separator });
}

#[test]
fn error_unterminated_group() {
    let t = vec![Tok::Open(Delim::Bracket), Tok::Lit("1".to_string())];
    assert_eq!(translate(&t).unwrap_err(), SyntaxError { pos: 2, expected: Expected::UnterminatedGroup });
}

#[test]
fn error_tokens_after_the_end() {
    // tokens: [ 1 ] x
    assert_eq!(run("[1] x").unwrap_err(), SyntaxError { pos: 3, expected: Expected::EndOfInput });
}

#[test]
fn error_message_text() {
    let e = SyntaxError { pos: 0, expected: Expected::Colon };
    assert_eq!(e.message(), "expected ':'");
}

#[test]
fn duplicate_keys_are_kept() {
    assert_eq!(
        run("a: 1, a: 2").unwrap(),
        block(&["struct Object0<T1,T2> { a:T1,a:T2 }"], "Object0 { a:1,a:2 }")
    );
}

#[test]
fn arena_access() {
    let mut json = Json::parse(&toks("a: [x, {b: 1}]")).unwrap();
    let root = json.value;
    let obj = json.get_object(&root);
    assert_eq!(obj.name, "Object0");
    assert_eq!(obj.pairs.len(), 1);
    assert_eq!(obj.pairs[0].key, "a");
    let arr_value = obj.pairs[0].value;
    assert_eq!(arr_value.t, ValueType::Array);
    let arr = json.get_array(&arr_value);
    assert_eq!(arr.items.len(), 2);
    let leaf = arr.items[0];
    let inner = arr.items[1];
    assert_eq!(leaf.t, ValueType::Expression);
    let e = json.get_expression(&leaf);
    assert_eq!(e.text, "x");
    assert_eq!(e.pos, 3);
    assert_eq!(json.get_object(&inner).name, "Object1");
    json.get_object_mut(&inner).name = "Inner".to_string();
    assert_eq!(json.get_object(&inner).name, "Inner");
    assert_eq!(json.id, 2);
}

#[test]
fn generics_list_every_object() {
    let json = Json::parse(&toks("p: {x: 1}, q: 2")).unwrap();
    let mut expected = String::from(DERIVE);
    expected.push_str("struct Object1<T1> { x:T1 }");
    expected.push_str(DERIVE);
    expected.push_str("struct Object0<T1,T2> { p:T1,q:T2 }");
    assert_eq!(json.get_generics(), expected);
    assert_eq!(json.get_code(), format!("{}Object0 {{ p:Object1 {{ x:1 }},q:2 }}", IMPORT));
}

#[test]
fn declare_mode_has_no_value_code() {
    let json = Json::parse(&toks("Point { x: i32 }")).unwrap();
    assert_eq!(json.get_code(), "");
    assert_eq!(json.get_block().unwrap(), "struct Point { x:i32 }\n");
}

#[test]
fn invisible_group_keeps_its_grouping() {
    // x: 2 * <1 + 1>, the group coming from a captured macro fragment
    let t = vec![
        Tok::Ident("x".to_string()),
        Tok::Punct(':', false),
        Tok::Lit("2".to_string()),
        Tok::Punct('*', false),
        Tok::Open(Delim::Invisible),
        Tok::Lit("1".to_string()),
        Tok::Punct('+', false),
        Tok::Lit("1".to_string()),
        Tok::Close(Delim::Invisible),
    ];
    assert_eq!(
        translate(&t).unwrap(),
        block(&["struct Object0<T1> { x:T1 }"], "Object0 { x:2 * ( 1 + 1 ) }")
    );
}

#[test]
fn names_are_unique_within_a_document() {
    let json = Json::parse(&toks("a: {b: {c: 1}}, d: [{e: 2}, {f: 3}], g: {}")).unwrap();
    assert_eq!(json.id, json.objects.len());
    let mut names: Vec<&String> = json.objects.iter().map(|o| &o.name).collect();
    names.sort();
    names.dedup();
    assert_eq!(names.len(), json.objects.len());
}
