use unpacker::{Unpacker, Val};

fn s(t: &str) -> Val {
    Val::Str(t.to_owned())
}

fn i(n: i64) -> Val {
    Val::Int(n)
}

fn arr(v: Vec<Val>) -> Val {
    Val::Arr(v)
}

#[test]
fn non_array_envelope_is_malformed() {
    let mut u = Unpacker::new();
    assert_eq!(u.unpack(&Val::Bool(true)).unwrap_err().cause, "packed value expected");
    assert_eq!(u.unpack(&s("x")).unwrap_err().cause, "packed value expected");
}

#[test]
fn empty_envelope_is_malformed() {
    let mut u = Unpacker::new();
    assert_eq!(u.unpack(&arr(vec![])).unwrap_err().cause, "packed value expected");
}

#[test]
fn non_numeric_trailer_is_malformed() {
    let mut u = Unpacker::new();
    assert_eq!(u.unpack(&arr(vec![i(0), s("x")])).unwrap_err().cause, "packed value expected");
    let e = u.unpack(&arr(vec![i(0), Val::Num("1.5".to_owned())])).unwrap_err();
    assert_eq!(e.cause, "packed value expected");
}

#[test]
fn non_integer_number_in_payload_is_unknown() {
    let mut u = Unpacker::new();
    let e = u.unpack(&arr(vec![Val::Num("2.5".to_owned()), i(0)])).unwrap_err();
    assert_eq!(e.cause, "unknown");
}

#[test]
fn non_string_fragment_in_multistring() {
    let mut u = Unpacker::new();
    let e = u.unpack(&arr(vec![i(2), i(-5), i(0)])).unwrap_err();
    assert_eq!(e.cause, "expected array, got something else");
}

#[test]
fn wrapped_scalar_without_child() {
    let mut u = Unpacker::new();
    let e = u.unpack(&arr(vec![i(1), i(0)])).unwrap_err();
    assert_eq!(e.cause, "expected array, got something else");
}

#[test]
fn failed_decode_keeps_sequence_state() {
    let mut u = Unpacker::new();
    u.unpack(&arr(vec![i(0)])).unwrap();
    let e = u.unpack(&arr(vec![i(9), i(1)])).unwrap_err();
    assert_eq!(e.cause, "no stored value");
    assert_eq!(u.unpack(&arr(vec![i(2)])).unwrap(), Val::Obj(vec![]));
}
