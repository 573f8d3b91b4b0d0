use unpacker::{Unpacker, Val};

fn s(t: &str) -> Val {
    Val::Str(t.to_owned())
}

fn i(n: i64) -> Val {
    Val::Int(n)
}

fn arr(v: Vec<Val>) -> Val {
    Val::Arr(v)
}

fn obj(v: Vec<(&str, Val)>) -> Val {
    Val::Obj(v.into_iter().map(|(k, x)| (k.to_owned(), x)).collect())
}

#[test]
fn missing_reference_fails() {
    let mut u = Unpacker::new();
    let err = u.unpack(&arr(vec![i(5), i(0)])).unwrap_err();
    assert_eq!(err.cause, "no stored value");
}

#[test]
fn sequence_acceptance() {
    let mut u = Unpacker::new();
    let err = u.unpack(&arr(vec![i(2)])).unwrap_err();
    assert_eq!(err.cause, "message unpacked out of sequence or already unpacked");
    assert_eq!(u.unpack(&arr(vec![i(0)])).unwrap(), obj(vec![]));
    let err = u.unpack(&arr(vec![i(5)])).unwrap_err();
    assert_eq!(err.cause, "message unpacked out of sequence or already unpacked");
    assert_eq!(u.unpack(&arr(vec![i(1)])).unwrap(), obj(vec![]));
}

#[test]
fn sequence_zero_resets_cursor() {
    let mut u = Unpacker::new();
    u.unpack(&arr(vec![s("~a"), i(0)])).unwrap();
    u.unpack(&arr(vec![s("~b"), i(1)])).unwrap();
    u.unpack(&arr(vec![s("~c"), i(0)])).unwrap();
    let r = u.unpack(&arr(vec![s("~k"), i(3), i(1)])).unwrap();
    assert_eq!(r, obj(vec![("k", s("c"))]));
}

#[test]
fn whole_object_memoization_small() {
    let mut u = Unpacker::new();
    u.unpack(&arr(vec![s("~a"), s("~b"), s("~c"), s("~d"), i(0)])).unwrap();
    let r = u.unpack(&arr(vec![i(3), i(4), i(5), i(6), i(1)])).unwrap();
    assert_eq!(r, obj(vec![("a", s("c")), ("b", s("d"))]));
    let r = u.unpack(&arr(vec![s("~k"), i(7), i(2)])).unwrap();
    assert_eq!(r, obj(vec![("k", obj(vec![("a", s("c")), ("b", s("d"))]))]));
}

#[test]
fn no_memoization_at_thirteen() {
    let mut u = Unpacker::new();
    u.unpack(&arr(vec![s("~a"), s("~b"), s("~c"), s("~d"), i(0)])).unwrap();
    let thirteen = vec![
        i(3),
        i(4),
        i(3),
        i(4),
        i(3),
        i(4),
        i(3),
        i(4),
        i(3),
        i(4),
        i(3),
        i(4),
        i(3),
        i(1),
    ];
    u.unpack(&arr(thirteen)).unwrap();
    let err = u.unpack(&arr(vec![i(7), i(2)])).unwrap_err();
    assert_eq!(err.cause, "no stored value");
}

#[test]
fn tag_one_never_memoizes() {
    let mut u = Unpacker::new();
    let r = u.unpack(&arr(vec![arr(vec![i(1), i(-5)]), i(0)])).unwrap();
    assert_eq!(r, obj(vec![]));
    let err = u.unpack(&arr(vec![i(3), i(1)])).unwrap_err();
    assert_eq!(err.cause, "no stored value");
}

#[test]
fn escaped_and_bare_numeric_strings() {
    let mut u = Unpacker::new();
    let r = u.unpack(&arr(vec![s("~3.14"), s("3.14"), i(0)])).unwrap();
    assert_eq!(r, obj(vec![("3.14", Val::Num("3.14".to_owned()))]));
}

#[test]
fn negative_literal_skips_dictionary() {
    let mut u = Unpacker::new();
    let r = u.unpack(&arr(vec![s("~k"), arr(vec![i(1), i(-7)]), i(0)])).unwrap();
    assert_eq!(r, obj(vec![("k", i(7))]));
    let r = u.unpack(&arr(vec![s("~x"), i(3), i(1)])).unwrap();
    assert_eq!(r, obj(vec![("x", s("k"))]));
}

#[test]
fn end_to_end_nested_references() {
    let mut u = Unpacker::new();
    let err = u
        .unpack(&arr(vec![arr(vec![i(0), i(3)]), arr(vec![i(0), i(4)]), i(0)]))
        .unwrap_err();
    assert_eq!(err.cause, "no stored value");
    assert_eq!(u.unpack(&arr(vec![i(1)])).unwrap(), obj(vec![]));
}

#[test]
fn sequence_replay_rejected() {
    let mut u = Unpacker::new();
    u.unpack(&arr(vec![i(0)])).unwrap();
    u.unpack(&arr(vec![i(1)])).unwrap();
    let err = u.unpack(&arr(vec![i(1)])).unwrap_err();
    assert_eq!(err.cause, "message unpacked out of sequence or already unpacked");
}

#[test]
fn integer_string_resolves_to_number() {
    let mut u = Unpacker::new();
    let r = u.unpack(&arr(vec![s("~k"), s("42"), i(0)])).unwrap();
    assert_eq!(r, obj(vec![("k", i(42))]));
}

#[test]
fn numeric_looking_text_falls_back_to_string() {
    let mut u = Unpacker::new();
    let r = u.unpack(&arr(vec![s("~k"), s("12a"), i(0)])).unwrap();
    assert_eq!(r, obj(vec![("k", s("12a"))]));
}

#[test]
fn trailing_dot_float() {
    let mut u = Unpacker::new();
    let r = u.unpack(&arr(vec![s("~k"), s("2.0"), i(0)])).unwrap();
    assert_eq!(r, obj(vec![("k", Val::Num("2.0".to_owned()))]));
}

#[test]
fn float_text_is_canonicalized() {
    let mut u = Unpacker::new();
    let r = u.unpack(&arr(vec![s("~k"), s("2.50"), i(0)])).unwrap();
    assert_eq!(r, obj(vec![("k", Val::Num("2.5".to_owned()))]));
}

#[test]
fn tilde_escapes() {
    let mut u = Unpacker::new();
    let r = u.unpack(&arr(vec![s("~k"), s("~"), i(0)])).unwrap();
    assert_eq!(r, obj(vec![("k", s(""))]));
    let r = u.unpack(&arr(vec![s("~x"), s("~~5"), i(1)])).unwrap();
    assert_eq!(r, obj(vec![("x", s("~5"))]));
}

#[test]
fn bool_passes_through_and_stringifies_as_key() {
    let mut u = Unpacker::new();
    let r = u.unpack(&arr(vec![Val::Bool(true), i(-1), i(0)])).unwrap();
    assert_eq!(r, obj(vec![("true", i(1))]));
}

#[test]
fn wraparound_overwrites_oldest_slot() {
    let mut u = Unpacker::new();
    u.set_max_dict_size(2);
    u.unpack(&arr(vec![i(0)])).unwrap();
    let r = u.unpack(&arr(vec![s("~a"), s("~b"), s("~c"), i(1)])).unwrap();
    assert_eq!(r, obj(vec![("a", s("b"))]));
    let r = u.unpack(&arr(vec![i(3), i(4), i(2)])).unwrap();
    assert_eq!(r, obj(vec![("c", s("b"))]));
}

#[test]
fn null_envelope_resolves_to_null() {
    let mut u = Unpacker::new();
    assert_eq!(u.unpack(&Val::Null).unwrap(), Val::Null);
}

#[test]
fn clone_val_is_deep() {
    let v = arr(vec![obj(vec![("k", s("v"))]), i(3), Val::Null]);
    assert_eq!(unpacker::clone_val(&v), v);
}
