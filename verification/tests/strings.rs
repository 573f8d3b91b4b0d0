use unpacker::{to_json_text, Unpacker, Val};

fn s(t: &str) -> Val {
    Val::Str(t.to_owned())
}

fn i(n: i64) -> Val {
    Val::Int(n)
}

fn arr(v: Vec<Val>) -> Val {
    Val::Arr(v)
}

#[test]
fn joining_two_fragments() {
    let mut u = Unpacker::new();
    let r = u.unpack_string(&arr(vec![i(2), s("a"), s("b"), i(0)])).unwrap();
    assert_eq!(r, "a\nb");
}

#[test]
fn joining_empty_fragment_list() {
    let mut u = Unpacker::new();
    let r = u.unpack_string(&arr(vec![i(2), i(0)])).unwrap();
    assert_eq!(r, "");
}

#[test]
fn generic_result_renders_with_sorted_keys() {
    let mut u = Unpacker::new();
    let r = u
        .unpack_string(&arr(vec![s("~b"), s("~a"), s("~y"), s("~x"), i(0)]))
        .unwrap();
    assert_eq!(r, "{\"a\":\"x\",\"b\":\"y\"}");
}

#[test]
fn generic_result_renders_numbers() {
    let mut u = Unpacker::new();
    let r = u
        .unpack_string(&arr(vec![s("~k"), arr(vec![i(1), i(-7)]), i(0)]))
        .unwrap();
    assert_eq!(r, "{\"k\":7}");
}

#[test]
fn null_envelope_renders_as_null_text() {
    let mut u = Unpacker::new();
    assert_eq!(u.unpack_string(&Val::Null).unwrap(), "null");
}

#[test]
fn render_escapes_string_contents() {
    let v = arr(vec![i(1), s("a\"b"), Val::Bool(false), Val::Null]);
    assert_eq!(to_json_text(&v), "[1,\"a\\\"b\",false,null]");
}

#[test]
fn render_negative_numbers_and_nesting() {
    let v = arr(vec![i(-12), arr(vec![]), Val::Obj(vec![])]);
    assert_eq!(to_json_text(&v), "[-12,[],{}]");
}
