use vstd::prelude::*;
use vstd::string::*;
use crate::value::{Val, ValS};

verus! {

broadcast use vstd::group_vstd_default;

pub open spec fn dec_digit(d: int) -> char {
    if d == 0 {
        '0'
    } else if d == 1 {
        '1'
    } else if d == 2 {
        '2'
    } else if d == 3 {
        '3'
    } else if d == 4 {
        '4'
    } else if d == 5 {
        '5'
    } else if d == 6 {
        '6'
    } else if d == 7 {
        '7'
    } else if d == 8 {
        '8'
    } else {
        '9'
    }
}

pub open spec fn nat_text(n: int) -> Seq<char>
    decreases n,
{
    if n < 10 {
        seq![dec_digit(n)]
    } else {
        nat_text(n / 10).push(dec_digit(n % 10))
    }
}

/// Canonical decimal text of an integer, as `i64`'s Display writes it.
pub open spec fn int_text(n: int) -> Seq<char> {
    if n < 0 {
        seq!['-'] + nat_text(-n)
    } else {
        nat_text(n)
    }
}

/// The quoted, escaped JSON text of a string value, as serde_json writes it.
pub uninterp spec fn quoted_json(s: Seq<char>) -> Seq<char>;

/// The canonical single-line JSON text of a value: serde_json's compact form,
/// with object keys in the order the pairs are held.
pub open spec fn json_text(v: ValS) -> Seq<char>
    decreases v, 0int,
{
    match v {
        ValS::Null => "null"@,
        ValS::Bool(b) => if b {
            "true"@
        } else {
            "false"@
        },
        ValS::Int(n) => int_text(n),
        ValS::Num(t) => t,
        ValS::Str(s) => quoted_json(s),
        ValS::Arr(els) => "["@ + json_items_text(els, 0) + "]"@,
        ValS::Obj(ps) => "{"@ + json_pairs_text(ps, 0) + "}"@,
    }
}

/// The comma-joined texts of the elements from `i` on.
pub open spec fn json_items_text(els: Seq<ValS>, i: int) -> Seq<char>
    decreases els, els.len() - i,
{
    if !(0 <= i < els.len()) {
        Seq::<char>::empty()
    } else if i == els.len() - 1 {
        json_text(els[i])
    } else {
        json_text(els[i]) + ","@ + json_items_text(els, i + 1)
    }
}

/// The comma-joined `"key":value` texts of the pairs from `i` on.
pub open spec fn json_pairs_text(ps: Seq<(Seq<char>, ValS)>, i: int) -> Seq<char>
    decreases ps, ps.len() - i,
{
    if !(0 <= i < ps.len()) {
        Seq::<char>::empty()
    } else if i == ps.len() - 1 {
        quoted_json(ps[i].0) + ":"@ + json_text(ps[i].1)
    } else {
        quoted_json(ps[i].0) + ":"@ + json_text(ps[i].1) + ","@ + json_pairs_text(ps, i + 1)
    }
}

/// Relies on serde_json::to_string on a string value: the quoted, escaped
/// JSON text depends on the characters alone.
#[verifier::external_body]
pub(crate) fn quote_json(s: &str) -> (r: String)
    ensures
        r@ == quoted_json(s@),
{
    serde_json::to_string(s).unwrap_or_default()
}

/// Relies on i64's Display implementation: canonical decimal text, with a
/// leading minus for negative values.
#[verifier::external_body]
pub(crate) fn render_i64(n: i64) -> (r: String)
    ensures
        r@ == int_text(n as int),
{
    format!("{}", n)
}

/// Renders a value as its canonical single-line JSON text.
pub fn to_json_text(v: &Val) -> (r: String)
    ensures
        r@ == json_text(v@),
    decreases v@,
{
    match v {
        Val::Null => "null".to_owned(),
        Val::Bool(b) => if *b {
            "true".to_owned()
        } else {
            "false".to_owned()
        },
        Val::Int(n) => render_i64(*n),
        Val::Num(t) => t.clone(),
        Val::Str(s) => quote_json(s.as_str()),
        Val::Arr(els) => {
            let ghost es = v@->Arr_0;
            proof {
                assert(v@ == ValS::Arr(es));
                assert forall|j: int| 0 <= j < els@.len() implies #[trigger] es[j] == els@[j]@ by {}
            }
            let mut out: String = "[".to_owned();
            let mut i: usize = 0;
            while i < els.len()
                invariant
                    i <= els.len(),
                    v@ == ValS::Arr(es),
                    es.len() == els@.len(),
                    forall|j: int| 0 <= j < els@.len() ==> es[j] == els@[j]@,
                    i == es.len() ==> out@ == "["@ + json_items_text(es, 0),
                    i == 0 && es.len() > 0 ==> out@ == "["@,
                    0 < i < es.len() ==> out@ + ","@ + json_items_text(es, i as int) == "["@
                        + json_items_text(es, 0),
                decreases els.len() - i,
            {
                if i > 0 {
                    out.append(",");
                }
                proof {
                    assert(decreases_to!(v@ => v@->Arr_0));
                    assert(es == v@->Arr_0);
                    assert(decreases_to!(es => es[i as int]));
                    assert(els[i as int]@ == es[i as int]);
                }
                let t = to_json_text(&els[i]);
                out.append(t.as_str());
                proof {
                    let io = i as int;
                    if io == 0 {
                        if es.len() == 1 {
                            assert(out@ =~= "["@ + json_items_text(es, 0));
                        } else {
                            assert(out@ + ","@ + json_items_text(es, 1) =~= "["@ + json_items_text(
                                es,
                                0,
                            ));
                        }
                    } else {
                        if io == es.len() - 1 {
                            assert(out@ =~= "["@ + json_items_text(es, 0));
                        } else {
                            assert(out@ + ","@ + json_items_text(es, io + 1) =~= "["@
                                + json_items_text(es, 0));
                        }
                    }
                }
                i = i + 1;
            }
            out.append("]");
            proof {
                assert(out@ =~= json_text(v@));
            }
            out
        },
        Val::Obj(ps) => {
            let ghost qs = v@->Obj_0;
            proof {
                assert(v@ == ValS::Obj(qs));
                assert forall|j: int| 0 <= j < ps@.len() implies #[trigger] qs[j] == (ps@[j].0@,
                ps@[j].1@) by {}
            }
            let mut out: String = "{".to_owned();
            let mut i: usize = 0;
            while i < ps.len()
                invariant
                    i <= ps.len(),
                    v@ == ValS::Obj(qs),
                    qs.len() == ps@.len(),
                    forall|j: int| 0 <= j < ps@.len() ==> qs[j] == (ps@[j].0@, ps@[j].1@),
                    i == qs.len() ==> out@ == "{"@ + json_pairs_text(qs, 0),
                    i == 0 && qs.len() > 0 ==> out@ == "{"@,
                    0 < i < qs.len() ==> out@ + ","@ + json_pairs_text(qs, i as int) == "{"@
                        + json_pairs_text(qs, 0),
                decreases ps.len() - i,
            {
                if i > 0 {
                    out.append(",");
                }
                let k = quote_json(ps[i].0.as_str());
                out.append(k.as_str());
                out.append(":");
                proof {
                    assert(decreases_to!(v@ => v@->Obj_0));
                    assert(qs == v@->Obj_0);
                    assert(decreases_to!(qs => qs[i as int]));
                    assert(decreases_to!(qs[i as int] => qs[i as int].1));
                    assert(ps[i as int].1@ == qs[i as int].1);
                }
                let t = to_json_text(&ps[i].1);
                out.append(t.as_str());
                proof {
                    let io = i as int;
                    if io == 0 {
                        if qs.len() == 1 {
                            assert(out@ =~= "{"@ + json_pairs_text(qs, 0));
                        } else {
                            assert(out@ + ","@ + json_pairs_text(qs, 1) =~= "{"@ + json_pairs_text(
                                qs,
                                0,
                            ));
                        }
                    } else {
                        if io == qs.len() - 1 {
                            assert(out@ =~= "{"@ + json_pairs_text(qs, 0));
                        } else {
                            assert(out@ + ","@ + json_pairs_text(qs, io + 1) =~= "{"@
                                + json_pairs_text(qs, 0));
                        }
                    }
                }
                i = i + 1;
            }
            out.append("}");
            proof {
                assert(out@ =~= json_text(v@));
            }
            out
        },
    }
}

} // verus!
