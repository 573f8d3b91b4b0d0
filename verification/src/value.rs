use vstd::prelude::*;

verus! {

broadcast use vstd::group_vstd_default;

/// A JSON-like structured value: the universal currency the decoder consumes
/// (packed envelopes) and produces (resolved values and dictionary entries).
///
/// Numbers that fit in `i64` are `Int`; any other JSON number (a float, or an
/// integer beyond `i64`'s range) is `Num` and holds its canonical JSON text.
/// Objects are key/value pairs; objects built by the decoder keep their keys
/// in lexicographic order, matching the canonical rendering.
#[derive(Debug, PartialEq)]
pub enum Val {
    Null,
    Bool(bool),
    Int(i64),
    Num(String),
    Str(String),
    Arr(Vec<Val>),
    Obj(Vec<(String, Val)>),
}

/// The mathematical model of a `Val`.
#[verifier::ext_equal]
pub enum ValS {
    Null,
    Bool(bool),
    Int(int),
    Num(Seq<char>),
    Str(Seq<char>),
    Arr(Seq<ValS>),
    Obj(Seq<(Seq<char>, ValS)>),
}

pub open spec fn val_view(v: Val) -> ValS
    decreases v,
{
    match v {
        Val::Null => ValS::Null,
        Val::Bool(b) => ValS::Bool(b),
        Val::Int(n) => ValS::Int(n as int),
        Val::Num(s) => ValS::Num(s@),
        Val::Str(s) => ValS::Str(s@),
        Val::Arr(vs) => ValS::Arr(
            Seq::new(
                vs@.len(),
                |i: int|
                    if 0 <= i < vs@.len() {
                        proof {
                            assert(decreases_to!(v => vs));
                            assert(decreases_to!(vs => vs[i]));
                        }
                        val_view(vs@[i])
                    } else {
                        ValS::Null
                    },
            ),
        ),
        Val::Obj(ps) => ValS::Obj(
            Seq::new(
                ps@.len(),
                |i: int|
                    if 0 <= i < ps@.len() {
                        proof {
                            assert(decreases_to!(v => ps));
                            assert(decreases_to!(ps => ps[i]));
                            assert(decreases_to!(ps[i] => ps[i].1));
                        }
                        (ps@[i].0@, val_view(ps@[i].1))
                    } else {
                        (Seq::<char>::empty(), ValS::Null)
                    },
            ),
        ),
    }
}

impl View for Val {
    type V = ValS;

    open spec fn view(&self) -> ValS {
        val_view(*self)
    }
}

/// The models of a sequence of values.
pub open spec fn vals_view(vs: Seq<Val>) -> Seq<ValS> {
    Seq::new(vs.len(), |i: int| vs[i]@)
}

/// The models of a sequence of key/value pairs.
pub open spec fn pairs_view(ps: Seq<(String, Val)>) -> Seq<(Seq<char>, ValS)> {
    Seq::new(ps.len(), |i: int| (ps[i].0@, ps[i].1@))
}

/// A deep copy whose model is the model of the original.
pub fn clone_val(v: &Val) -> (r: Val)
    ensures
        r@ == v@,
    decreases v@,
{
    match v {
        Val::Null => Val::Null,
        Val::Bool(b) => Val::Bool(*b),
        Val::Int(n) => Val::Int(*n),
        Val::Num(s) => Val::Num(s.clone()),
        Val::Str(s) => Val::Str(s.clone()),
        Val::Arr(vs) => {
            let ghost es = v@->Arr_0;
            proof {
                assert(v@ == ValS::Arr(es));
                assert forall|j: int| 0 <= j < vs@.len() implies #[trigger] es[j] == vs@[j]@ by {}
            }
            let mut out: Vec<Val> = Vec::new();
            let mut i: usize = 0;
            while i < vs.len()
                invariant
                    i <= vs.len(),
                    out@.len() == i,
                    v@ == ValS::Arr(es),
                    es.len() == vs@.len(),
                    forall|j: int| 0 <= j < vs@.len() ==> #[trigger] es[j] == vs@[j]@,
                    forall|j: int| 0 <= j < i ==> out@[j]@ == vs@[j]@,
                decreases vs.len() - i,
            {
                proof {
                    assert(decreases_to!(v@ => v@->Arr_0));
                    assert(es == v@->Arr_0);
                    assert(decreases_to!(es => es[i as int]));
                    assert(vs[i as int]@ == es[i as int]);
                }
                out.push(clone_val(&vs[i]));
                i = i + 1;
            }
            let r = Val::Arr(out);
            proof {
                let rs = r@->Arr_0;
                assert forall|j: int| 0 <= j < out@.len() implies #[trigger] rs[j] == out@[j]@ by {}
                assert(rs =~= es);
                assert(r@ =~= v@);
            }
            r
        },
        Val::Obj(ps) => {
            let ghost qs = v@->Obj_0;
            proof {
                assert(v@ == ValS::Obj(qs));
                assert forall|j: int| 0 <= j < ps@.len() implies #[trigger] qs[j] == (ps@[j].0@,
                ps@[j].1@) by {}
            }
            let mut out: Vec<(String, Val)> = Vec::new();
            let mut i: usize = 0;
            while i < ps.len()
                invariant
                    i <= ps.len(),
                    out@.len() == i,
                    v@ == ValS::Obj(qs),
                    qs.len() == ps@.len(),
                    forall|j: int| 0 <= j < ps@.len() ==> #[trigger] qs[j] == (ps@[j].0@, ps@[j].1@),
                    forall|j: int| 0 <= j < i ==> out@[j].0@ == ps@[j].0@ && out@[j].1@ == ps@[j].1@,
                decreases ps.len() - i,
            {
                proof {
                    assert(decreases_to!(v@ => v@->Obj_0));
                    assert(qs == v@->Obj_0);
                    assert(decreases_to!(qs => qs[i as int]));
                    assert(decreases_to!(qs[i as int] => qs[i as int].1));
                    assert(ps[i as int].1@ == qs[i as int].1);
                }
                let key = ps[i].0.clone();
                let value = clone_val(&ps[i].1);
                out.push((key, value));
                i = i + 1;
            }
            let r = Val::Obj(out);
            proof {
                let rs = r@->Obj_0;
                assert forall|j: int| 0 <= j < out@.len() implies #[trigger] rs[j] == (out@[j].0@,
                out@[j].1@) by {}
                assert(rs =~= qs);
                assert(r@ =~= v@);
            }
            r
        },
    }
}

} // verus!
