use vstd::prelude::*;
use vstd::string::*;
use std::collections::HashMap;
use crate::render::{json_text, to_json_text};
use crate::scan::{
    float_decode_of, float_pattern_matches, lex_lt, numeric_start_matches, parse_float_value,
    parse_i64_str, spec_float_prefix, spec_numeric_start, spec_parse_i64, str_lt,
};
use crate::value::{clone_val, pairs_view, vals_view, Val, ValS};

verus! {

broadcast use vstd::group_vstd_default;

/// Error returned by the unpacker; `cause` holds a short human-readable
/// reason.
#[derive(Debug, Clone)]
pub struct UnpackerError {
    pub cause: String,
}

/// The kinds of failure a decode can end in.
pub enum ErrK {
    Malformed,
    OutOfSeq,
    Mismatch,
    Missing,
    Unknown,
    Coercion,
}

/// The message text carried by each kind of failure.
pub open spec fn cause_text(k: ErrK) -> Seq<char> {
    match k {
        ErrK::Malformed => "packed value expected"@,
        ErrK::OutOfSeq => "message unpacked out of sequence or already unpacked"@,
        ErrK::Mismatch => "expected array, got something else"@,
        ErrK::Missing => "no stored value"@,
        ErrK::Unknown => "unknown"@,
        ErrK::Coercion => "unable to unpack to specific type"@,
    }
}

/// The model of the dictionary state: the entries, the write cursor, and the
/// configured capacity.
#[verifier::ext_equal]
pub struct DState {
    pub dict: Map<u64, ValS>,
    pub idx: u64,
    pub max: u64,
}

pub const MIN_DICT_INDEX: u64 = 3;

pub const TYPE_ARRAY: i64 = 0;

pub const TYPE_VALUE: i64 = 1;

pub const TYPE_STRING: i64 = 2;

pub const MAX_PACK_COMPLEX_OBJECT_SIZE: usize = 12;

/// Appending one resolved value: it is stored at the cursor, and the cursor
/// advances by one, wrapping back to the reserved minimum when it reaches
/// `max + 3`.
pub open spec fn spec_add(st: DState, v: ValS) -> DState {
    DState {
        dict: st.dict.insert(st.idx, v),
        idx: if st.idx + 1 >= st.max + 3 {
            MIN_DICT_INDEX
        } else {
            (st.idx + 1) as u64
        },
        max: st.max,
    }
}

/// The string-literal step of the scalar resolver: a leading `~` escape is
/// stripped, and the resulting text is appended to the dictionary.
pub open spec fn sdecode_string_lit(st: DState, s: Seq<char>) -> (Result<ValS, ErrK>, DState) {
    let t = if s.len() > 0 && s[0] == '~' {
        s.drop_first()
    } else {
        s
    };
    (Ok(ValS::Str(t)), spec_add(st, ValS::Str(t)))
}

/// The integer step of the scalar resolver: text that opens numerically and
/// parses as an `i64` resolves to that number and is appended.
pub open spec fn sdecode_string_int(st: DState, s: Seq<char>) -> (Result<ValS, ErrK>, DState) {
    if spec_numeric_start(s) {
        match spec_parse_i64(s) {
            Some(n) => (Ok(ValS::Int(n as int)), spec_add(st, ValS::Int(n as int))),
            None => sdecode_string_lit(st, s),
        }
    } else {
        sdecode_string_lit(st, s)
    }
}

/// The scalar resolver on string input: a float-looking prefix is tried
/// first, then an integer parse, then the string-literal rule.
pub open spec fn sdecode_string(st: DState, s: Seq<char>) -> (Result<ValS, ErrK>, DState) {
    if spec_float_prefix(s) {
        match float_decode_of(s) {
            Some(fv) => (Ok(fv), spec_add(st, fv)),
            None => sdecode_string_int(st, s),
        }
    } else {
        sdecode_string_int(st, s)
    }
}

/// The scalar resolver. A negative number is an inline literal and resolves
/// to its absolute value without touching the dictionary; a non-negative
/// number is a dictionary back-reference; a string goes through the numeric
/// heuristics; anything else is appended verbatim and resolved unchanged.
pub open spec fn sdecode_value(st: DState, v: ValS) -> (Result<ValS, ErrK>, DState) {
    match v {
        ValS::Int(n) => {
            if n < 0 {
                if n == i64::MIN as int {
                    (Err(ErrK::Unknown), st)
                } else {
                    (Ok(ValS::Int(-n)), st)
                }
            } else {
                if st.dict.contains_key(n as u64) {
                    (Ok(st.dict[n as u64]), st)
                } else {
                    (Err(ErrK::Missing), st)
                }
            }
        },
        ValS::Num(_) => (Err(ErrK::Unknown), st),
        ValS::Str(s) => sdecode_string(st, s),
        _ => (Ok(v), spec_add(st, v)),
    }
}

/// The type tag of a payload array's first element: its value if it is an
/// `i64`-sized number, and -1 otherwise.
pub open spec fn spec_tag(v: ValS) -> int {
    match v {
        ValS::Int(n) => n,
        _ => -1,
    }
}

pub open spec fn all_strings(vs: Seq<ValS>) -> bool {
    forall|i: int| 0 <= i < vs.len() ==> (#[trigger] vs[i]) is Str
}

/// The fold that joins decoded fragments: an empty accumulator is replaced by
/// the fragment, otherwise a newline and the fragment are appended.
pub open spec fn join_fold(vs: Seq<ValS>, i: int, acc: Seq<char>) -> Seq<char>
    decreases vs.len() - i,
{
    if 0 <= i < vs.len() {
        let x = vs[i]->Str_0;
        join_fold(
            vs,
            i + 1,
            if acc.len() == 0 {
                x
            } else {
                acc + "\n"@ + x
            },
        )
    } else {
        acc
    }
}

/// The key text of a resolved value in the flattened-object pairing: a string
/// is used as it is, anything else is stringified as canonical JSON.
pub open spec fn key_string(v: ValS) -> Seq<char> {
    match v {
        ValS::Str(s) => s,
        _ => json_text(v),
    }
}

/// Insertion into an ordered key/value sequence: keys stay in lexicographic
/// order, and an existing key's value is replaced.
pub open spec fn obj_insert(m: Seq<(Seq<char>, ValS)>, k: Seq<char>, v: ValS) -> Seq<
    (Seq<char>, ValS),
>
    decreases m.len(),
{
    if m.len() == 0 {
        seq![(k, v)]
    } else if lex_lt(m[0].0, k) {
        seq![m[0]] + obj_insert(m.drop_first(), k, v)
    } else if m[0].0 == k {
        seq![(k, v)] + m.drop_first()
    } else {
        seq![(k, v)] + m
    }
}

/// The flattened-object pairing: the first half of the resolved list are the
/// keys, the second half the values, paired positionally; an odd trailing
/// element is dropped.
pub open spec fn build_obj(
    m: Seq<(Seq<char>, ValS)>,
    vals: Seq<ValS>,
    kc: int,
    i: int,
) -> Seq<(Seq<char>, ValS)>
    decreases kc - i,
{
    if 0 <= i < kc && kc + i < vals.len() {
        build_obj(obj_insert(m, key_string(vals[i]), vals[kc + i]), vals, kc, i + 1)
    } else {
        m
    }
}

/// Decoding the elements of `a` from index `i` on, each through the
/// structural decoder, stopping at the first failure.
pub open spec fn sdecode_list(st: DState, a: Seq<ValS>, i: int) -> (
    Result<Seq<ValS>, ErrK>,
    DState,
)
    decreases a, a.len() - i,
{
    if !(0 <= i < a.len()) {
        (Ok(Seq::<ValS>::empty()), st)
    } else {
        proof {
            assert(decreases_to!(a => a[i]));
        }
        let (r1, st1) = sdecode_node(st, a[i]);
        match r1 {
            Ok(v) => {
                let (r2, st2) = sdecode_list(st1, a, i + 1);
                match r2 {
                    Ok(vs) => (Ok(seq![v] + vs), st2),
                    Err(e2) => (Err(e2), st2),
                }
            },
            Err(e1) => (Err(e1), st1),
        }
    }
}

/// Decoding the elements of a flattened object from index `i` on: a nested
/// array or object recurses through the structural decoder and marks the node
/// unmemoized; anything else goes through the scalar resolver, marking the
/// node unmemoized unless it is a bare number.
pub open spec fn sdecode_items(st: DState, a: Seq<ValS>, i: int) -> (
    Result<(Seq<ValS>, bool), ErrK>,
    DState,
)
    decreases a, a.len() - i,
{
    if !(0 <= i < a.len()) {
        (Ok((Seq::<ValS>::empty(), false)), st)
    } else {
        proof {
            assert(decreases_to!(a => a[i]));
        }
        let e = a[i];
        let complex = e is Arr || e is Obj;
        let (r1, st1) = if complex {
            sdecode_node(st, e)
        } else {
            sdecode_value(st, e)
        };
        let un1 = complex || !(e is Int || e is Num);
        match r1 {
            Ok(v) => {
                let (r2, st2) = sdecode_items(st1, a, i + 1);
                match r2 {
                    Ok((vs, un2)) => (Ok((seq![v] + vs, un1 || un2)), st2),
                    Err(e2) => (Err(e2), st2),
                }
            },
            Err(e1) => (Err(e1), st1),
        }
    }
}

/// The structural decoder, on one node of the packed payload.
pub open spec fn sdecode_node(st: DState, v: ValS) -> (Result<ValS, ErrK>, DState)
    decreases v, 0int,
{
    match v {
        ValS::Null => (Ok(ValS::Null), st),
        ValS::Arr(a) => {
            if a.len() == 0 {
                (Ok(ValS::Obj(Seq::empty())), st)
            } else {
                proof {
                    assert(decreases_to!(v => a));
                }
                let tag = spec_tag(a[0]);
                if tag == TYPE_ARRAY as int {
                    let (r, st1) = sdecode_list(st, a, 1);
                    match r {
                        Ok(vs) => (Ok(ValS::Arr(vs)), st1),
                        Err(e) => (Err(e), st1),
                    }
                } else if tag == TYPE_STRING as int {
                    let (r, st1) = sdecode_list(st, a, 1);
                    match r {
                        Ok(vs) => {
                            if all_strings(vs) {
                                (Ok(ValS::Str(join_fold(vs, 0, Seq::<char>::empty()))), st1)
                            } else {
                                (Err(ErrK::Mismatch), st1)
                            }
                        },
                        Err(e) => (Err(e), st1),
                    }
                } else if tag == TYPE_VALUE as int {
                    if a.len() >= 2 {
                        sdecode_value(st, a[1])
                    } else {
                        (Err(ErrK::Mismatch), st)
                    }
                } else {
                    let (r, st1) = sdecode_items(st, a, 0);
                    match r {
                        Ok((vals, un)) => {
                            let kc = vals.len() as int / 2;
                            let obj = ValS::Obj(build_obj(Seq::<(Seq<char>, ValS)>::empty(), vals, kc, 0));
                            if !un && a.len() <= MAX_PACK_COMPLEX_OBJECT_SIZE as int {
                                (Ok(obj), spec_add(st1, obj))
                            } else {
                                (Ok(obj), st1)
                            }
                        },
                        Err(e) => (Err(e), st1),
                    }
                }
            }
        },
        _ => sdecode_value(st, v),
    }
}

/// One whole `unpack` call: envelope checks, the sequence guard, and the
/// decode of the payload wrapped as a single untagged node. Yields the
/// result, the dictionary state, and the sequence counter after the call.
pub open spec fn sunpack(st: DState, seq_id: i64, env: ValS) -> (
    Result<ValS, ErrK>,
    DState,
    i64,
) {
    match env {
        ValS::Null => (Ok(ValS::Null), st, seq_id),
        ValS::Arr(a) => {
            if a.len() == 0 {
                (Err(ErrK::Malformed), st, seq_id)
            } else {
                match a.last() {
                    ValS::Int(n) => {
                        if n == 0 {
                            let st0 = DState { idx: MIN_DICT_INDEX, ..st };
                            let (r, st1) = sdecode_node(st0, ValS::Arr(a.drop_last()));
                            (r, st1, 0i64)
                        } else if seq_id < i64::MAX && n == seq_id + 1 {
                            let (r, st1) = sdecode_node(st, ValS::Arr(a.drop_last()));
                            (r, st1, n as i64)
                        } else {
                            (Err(ErrK::OutOfSeq), st, seq_id)
                        }
                    },
                    _ => (Err(ErrK::Malformed), st, seq_id),
                }
            }
        },
        _ => (Err(ErrK::Malformed), st, seq_id),
    }
}

/// One whole `unpack_string` call: a tag-2 envelope must decode to a string,
/// which is returned as it is; anything else is decoded generically and
/// rendered as canonical JSON text.
pub open spec fn sunpack_string(st: DState, seq_id: i64, env: ValS) -> (
    Result<Seq<char>, ErrK>,
    DState,
    i64,
) {
    let tag2 = match env {
        ValS::Arr(a) => a.len() > 0 && a[0] == ValS::Int(TYPE_STRING as int),
        _ => false,
    };
    let (r, st1, sid1) = sunpack(st, seq_id, env);
    match r {
        Ok(v) => {
            if tag2 {
                match v {
                    ValS::Str(s) => (Ok(s), st1, sid1),
                    _ => (Err(ErrK::Coercion), st1, sid1),
                }
            } else {
                (Ok(json_text(v)), st1, sid1)
            }
        },
        Err(e) => (Err(e), st1, sid1),
    }
}

pub open spec fn dict_view(m: Map<u64, Val>) -> Map<u64, ValS> {
    Map::new(|k: u64| m.dom().contains(k), |k: u64| m[k]@)
}

/// Combining already-decoded elements with the decode of the rest of a list.
pub open spec fn list_glue(done: Seq<ValS>, rest: (Result<Seq<ValS>, ErrK>, DState)) -> (
    Result<Seq<ValS>, ErrK>,
    DState,
) {
    match rest.0 {
        Ok(vs) => (Ok(done + vs), rest.1),
        Err(e) => (Err(e), rest.1),
    }
}

/// Combining already-processed flattened-object elements with the rest.
pub open spec fn items_glue(
    done: Seq<ValS>,
    un: bool,
    rest: (Result<(Seq<ValS>, bool), ErrK>, DState),
) -> (Result<(Seq<ValS>, bool), ErrK>, DState) {
    match rest.0 {
        Ok((vs, u2)) => (Ok((done + vs, un || u2)), rest.1),
        Err(e) => (Err(e), rest.1),
    }
}

/// The stateful decoder: a bounded wrap-around dictionary of previously
/// resolved values, its write cursor, the last accepted sequence number, and
/// the configured capacity.
pub struct Unpacker {
    dict: HashMap<u64, Val>,
    dict_index: u64,
    sequence_id: i64,
    max_dict_size: u64,
}

impl Unpacker {
    /// The cursor sits at or above the reserved minimum, and cursor and
    /// capacity leave room for the wrap-around arithmetic.
    pub closed spec fn wf(&self) -> bool {
        &&& MIN_DICT_INDEX <= self.dict_index
        &&& self.dict_index <= u64::MAX - 1
        &&& self.max_dict_size <= u64::MAX - 3
    }

    /// The dictionary-state model of this unpacker.
    pub closed spec fn st(&self) -> DState {
        DState { dict: dict_view(self.dict@), idx: self.dict_index, max: self.max_dict_size }
    }

    /// The last accepted sequence number, -1 before any message.
    pub closed spec fn seq_id(&self) -> i64 {
        self.sequence_id
    }

    /// A fresh unpacker: empty dictionary, cursor at the reserved minimum,
    /// default capacity, and no message seen yet.
    pub fn new() -> (r: Unpacker)
        ensures
            r.wf(),
            r.st() == (DState { dict: Map::<u64, ValS>::empty(), idx: MIN_DICT_INDEX, max: 2000u64 }),
            r.seq_id() == -1i64,
    {
        let r = Unpacker {
            dict: HashMap::new(),
            dict_index: MIN_DICT_INDEX,
            sequence_id: -1,
            max_dict_size: 2000,
        };
        proof {
            assert(dict_view(r.dict@) =~= Map::<u64, ValS>::empty());
            assert(r.st() =~= (DState {
                dict: Map::<u64, ValS>::empty(),
                idx: MIN_DICT_INDEX,
                max: 2000u64,
            }));
        }
        r
    }

    /// Set the maximum dictionary size. Must match the dictionary size used
    /// by the packer. Default - 2000. Takes effect on the next wrap-around;
    /// existing entries are kept.
    pub fn set_max_dict_size(&mut self, value: u64)
        requires
            old(self).wf(),
            value <= u64::MAX - 3,
        ensures
            final(self).wf(),
            final(self).st() == (DState { max: value, ..old(self).st() }),
            final(self).seq_id() == old(self).seq_id(),
    {
        self.max_dict_size = value;
    }

    /// Stores `value` at the cursor and advances it, wrapping as `spec_add`
    /// says.
    fn add_to_dict(&mut self, value: Val)
        requires
            old(self).wf(),
        ensures
            final(self).wf(),
            final(self).seq_id() == old(self).seq_id(),
            final(self).st() == spec_add(old(self).st(), value@),
    {
        let ghost prev = self.st();
        let ghost vv = value@;
        self.dict.insert(self.dict_index, value);
        self.dict_index = self.dict_index + 1;
        if self.dict_index >= self.max_dict_size + MIN_DICT_INDEX {
            self.dict_index = MIN_DICT_INDEX;
        }
        proof {
            assert(dict_view(self.dict@) =~= prev.dict.insert(prev.idx, vv));
            assert(self.st() =~= spec_add(prev, vv));
        }
    }

    /// The scalar resolver.
    pub(crate) fn unpack_value(&mut self, packed: &Val) -> (r: Result<Val, UnpackerError>)
        requires
            old(self).wf(),
        ensures
            final(self).wf(),
            final(self).seq_id() == old(self).seq_id(),
            ({
                let (sr, st1) = sdecode_value(old(self).st(), packed@);
                &&& final(self).st() == st1
                &&& (match r {
                    Ok(v) => sr == Ok::<ValS, ErrK>(v@),
                    Err(e) => (match sr {
                        Ok(_) => false,
                        Err(k) => e.cause@ == cause_text(k),
                    }),
                })
            }),
    {
        match packed {
            Val::Int(n) => {
                if *n < 0 {
                    if *n == i64::MIN {
                        Err(UnpackerError { cause: "unknown".to_owned() })
                    } else {
                        Ok(Val::Int(-*n))
                    }
                } else {
                    let idx: u64 = *n as u64;
                    match self.dict.get(&idx) {
                        Some(stored) => Ok(clone_val(stored)),
                        None => Err(UnpackerError { cause: "no stored value".to_owned() }),
                    }
                }
            },
            Val::Num(_) => Err(UnpackerError { cause: "unknown".to_owned() }),
            Val::Str(s) => {
                let sr: &str = s.as_str();
                if float_pattern_matches(sr) {
                    match parse_float_value(sr) {
                        Some(fv) => {
                            let keep = clone_val(&fv);
                            self.add_to_dict(keep);
                            return Ok(fv);
                        },
                        None => {},
                    }
                }
                if numeric_start_matches(sr) {
                    match parse_i64_str(sr) {
                        Some(n) => {
                            self.add_to_dict(Val::Int(n));
                            return Ok(Val::Int(n));
                        },
                        None => {},
                    }
                }
                let n_chars = sr.unicode_len();
                let lit: String = if n_chars > 0 && sr.get_char(0) == '~' {
                    let rest = sr.substring_char(1, n_chars);
                    rest.to_owned()
                } else {
                    s.clone()
                };
                let out = Val::Str(lit);
                let keep = clone_val(&out);
                self.add_to_dict(keep);
                Ok(out)
            },
            _ => {
                let keep = clone_val(packed);
                self.add_to_dict(keep);
                Ok(clone_val(packed))
            },
        }
    }

    /// Decodes the elements of `a` after the tag, each through the
    /// structural decoder, stopping at the first failure.
    fn unpack_list(&mut self, a: &Vec<Val>) -> (r: Result<Vec<Val>, UnpackerError>)
        requires
            old(self).wf(),
            a@.len() >= 1,
        ensures
            final(self).wf(),
            final(self).seq_id() == old(self).seq_id(),
            ({
                let (sr, st1) = sdecode_list(old(self).st(), vals_view(a@), 1);
                &&& final(self).st() == st1
                &&& (match r {
                    Ok(items) => sr == Ok::<Seq<ValS>, ErrK>(vals_view(items@)),
                    Err(e) => (match sr {
                        Ok(_) => false,
                        Err(k) => e.cause@ == cause_text(k),
                    }),
                })
            }),
        decreases vals_view(a@), 0int,
    {
        let ghost st0 = self.st();
        let ghost es = vals_view(a@);
        let mut items: Vec<Val> = Vec::new();
        let mut i: usize = 1;
        while i < a.len()
            invariant
                1 <= i <= a@.len(),
                es == vals_view(a@),
                self.wf(),
                self.seq_id() == old(self).seq_id(),
                st0 == old(self).st(),
                sdecode_list(st0, es, 1) == list_glue(
                    vals_view(items@),
                    sdecode_list(self.st(), es, i as int),
                ),
            decreases a@.len() - i,
        {
            let ghost st_i = self.st();
            let ghost done = vals_view(items@);
            proof {
                assert(decreases_to!(es => es[i as int]));
                assert(a@[i as int]@ == es[i as int]);
            }
            let res = self.unpack_object(&a[i]);
            match res {
                Ok(v) => {
                    proof {
                        let rest = sdecode_list(self.st(), es, i as int + 1);
                        assert(vals_view(items@.push(v)) =~= done.push(v@));
                        match rest.0 {
                            Ok(vs) => {
                                assert(done + (seq![v@] + vs) =~= done.push(v@) + vs);
                            },
                            Err(_) => {},
                        }
                    }
                    items.push(v);
                    i = i + 1;
                },
                Err(e) => {
                    return Err(e);
                },
            }
        }
        proof {
            assert(vals_view(items@) + Seq::<ValS>::empty() =~= vals_view(items@));
        }
        Ok(items)
    }

    /// The structural decoder: resolves one node of the packed payload.
    pub(crate) fn unpack_object(&mut self, packed: &Val) -> (r: Result<Val, UnpackerError>)
        requires
            old(self).wf(),
        ensures
            final(self).wf(),
            final(self).seq_id() == old(self).seq_id(),
            ({
                let (sr, st1) = sdecode_node(old(self).st(), packed@);
                &&& final(self).st() == st1
                &&& (match r {
                    Ok(v) => sr == Ok::<ValS, ErrK>(v@),
                    Err(e) => (match sr {
                        Ok(_) => false,
                        Err(k) => e.cause@ == cause_text(k),
                    }),
                })
            }),
        decreases packed@, 1int,
    {
        match packed {
            Val::Null => Ok(Val::Null),
            Val::Arr(a) => {
                let ghost st0 = self.st();
                let ghost es = packed@->Arr_0;
                proof {
                    assert(packed@ == ValS::Arr(es));
                    assert forall|j: int| 0 <= j < a@.len() implies #[trigger] es[j] == a@[j]@ by {}
                    assert(es =~= vals_view(a@));
                }
                if a.len() == 0 {
                    let out = Val::Obj(Vec::new());
                    proof {
                        assert(out@ is Obj);
                        assert(out@->Obj_0 =~= Seq::<(Seq<char>, ValS)>::empty());
                        assert(out@ == ValS::Obj(Seq::<(Seq<char>, ValS)>::empty()));
                    }
                    return Ok(out);
                }
                let tag: i64 = match &a[0] {
                    Val::Int(n) => *n,
                    _ => -1,
                };
                proof {
                    assert(a@[0]@ == es[0]);
                    assert(spec_tag(es[0]) == tag as int);
                    assert(decreases_to!(packed@ => packed@->Arr_0));
                }
                if tag == TYPE_ARRAY {
                    match self.unpack_list(a) {
                        Ok(items) => {
                            let out = Val::Arr(items);
                            proof {
                                assert(out@ is Arr);
                                assert(out@->Arr_0 =~= vals_view(items@));
                                assert(out@ == ValS::Arr(vals_view(items@)));
                            }
                            Ok(out)
                        },
                        Err(e) => Err(e),
                    }
                } else if tag == TYPE_STRING {
                    match self.unpack_list(a) {
                        Ok(items) => {
                            let ghost vd = vals_view(items@);
                            let ghost st1g = self.st();
                            proof {
                                assert(sdecode_list(st0, es, 1) == (
                                    Ok::<Seq<ValS>, ErrK>(vd),
                                    st1g,
                                ));
                            }
                            let mut joined = String::new();
                            let mut k: usize = 0;
                            while k < items.len()
                                invariant
                                    k <= items@.len(),
                                    vd == vals_view(items@),
                                    self.wf(),
                                    self.seq_id() == old(self).seq_id(),
                                    self.st() == st1g,
                                    st0 == old(self).st(),
                                    es == vals_view(a@),
                                    packed@ == ValS::Arr(es),
                                    es.len() >= 1,
                                    spec_tag(es[0]) == TYPE_STRING as int,
                                    sdecode_list(st0, es, 1) == (Ok::<Seq<ValS>, ErrK>(vd), st1g),
                                    forall|j: int| 0 <= j < k ==> (#[trigger] vd[j]) is Str,
                                    join_fold(vd, 0, Seq::<char>::empty()) == join_fold(
                                        vd,
                                        k as int,
                                        joined@,
                                    ),
                                decreases items@.len() - k,
                            {
                                match &items[k] {
                                    Val::Str(s) => {
                                        let ghost acc0 = joined@;
                                        if joined.as_str().is_empty() {
                                            joined = s.clone();
                                        } else {
                                            joined.append("\n");
                                            joined.append(s.as_str());
                                        }
                                        proof {
                                            assert(vd[k as int] == items@[k as int]@);
                                            assert(vd[k as int]->Str_0 == s@);
                                        }
                                        k = k + 1;
                                    },
                                    _ => {
                                        proof {
                                            assert(!(vd[k as int] is Str));
                                        }
                                        return Err(
                                            UnpackerError {
                                                cause: "expected array, got something else".to_owned(),
                                            },
                                        );
                                    },
                                }
                            }
                            proof {
                                assert(all_strings(vd));
                            }
                            Ok(Val::Str(joined))
                        },
                        Err(e) => Err(e),
                    }
                } else if tag == TYPE_VALUE {
                    if a.len() >= 2 {
                        proof {
                            assert(a@[1]@ == es[1]);
                        }
                        self.unpack_value(&a[1])
                    } else {
                        Err(UnpackerError { cause: "expected array, got something else".to_owned() })
                    }
                } else {
                    let mut processed: Vec<Val> = Vec::new();
                    let mut unmemo = false;
                    let mut i: usize = 0;
                    while i < a.len()
                        invariant
                            i <= a@.len(),
                            es == vals_view(a@),
                            self.wf(),
                            self.seq_id() == old(self).seq_id(),
                            st0 == old(self).st(),
                            packed@ == ValS::Arr(es),
                            es.len() >= 1,
                            spec_tag(es[0]) != TYPE_ARRAY as int,
                            spec_tag(es[0]) != TYPE_STRING as int,
                            spec_tag(es[0]) != TYPE_VALUE as int,
                            sdecode_items(st0, es, 0) == items_glue(
                                vals_view(processed@),
                                unmemo,
                                sdecode_items(self.st(), es, i as int),
                            ),
                        decreases a@.len() - i,
                    {
                        let ghost st_i = self.st();
                        let ghost done = vals_view(processed@);
                        let ghost un0 = unmemo;
                        proof {
                            assert(decreases_to!(packed@ => packed@->Arr_0));
                            assert(es == packed@->Arr_0);
                            assert(decreases_to!(es => es[i as int]));
                            assert(a@[i as int]@ == es[i as int]);
                        }
                        let item = &a[i];
                        let complex = matches!(item, Val::Arr(_) | Val::Obj(_));
                        let bare_number = matches!(item, Val::Int(_) | Val::Num(_));
                        proof {
                            assert(item@ == es[i as int]);
                            assert(complex == (es[i as int] is Arr || es[i as int] is Obj));
                            assert(bare_number == (es[i as int] is Int || es[i as int] is Num));
                        }
                        let res = if complex {
                            self.unpack_object(item)
                        } else {
                            self.unpack_value(item)
                        };
                        if complex || !bare_number {
                            unmemo = true;
                        }
                        match res {
                            Ok(v) => {
                                proof {
                                    let rest = sdecode_items(self.st(), es, i as int + 1);
                                    assert(vals_view(processed@.push(v)) =~= done.push(v@));
                                    match rest.0 {
                                        Ok((vs, _u2)) => {
                                            assert(done + (seq![v@] + vs) =~= done.push(v@) + vs);
                                        },
                                        Err(_) => {},
                                    }
                                }
                                processed.push(v);
                                i = i + 1;
                            },
                            Err(e) => {
                                proof {
                                    let ei = es[i as int];
                                    let step = if ei is Arr || ei is Obj {
                                        sdecode_node(st_i, ei)
                                    } else {
                                        sdecode_value(st_i, ei)
                                    };
                                    assert(step.0 is Err);
                                    assert(sdecode_items(st_i, es, i as int) == (
                                        Err::<(Seq<ValS>, bool), ErrK>(step.0->Err_0),
                                        step.1,
                                    ));
                                    assert(sdecode_items(st0, es, 0) == items_glue(
                                        done,
                                        un0,
                                        sdecode_items(st_i, es, i as int),
                                    ));
                                }
                                return Err(e);
                            },
                        }
                    }
                    proof {
                        assert(vals_view(processed@) + Seq::<ValS>::empty() =~= vals_view(
                            processed@,
                        ));
                    }
                    let ghost vd = vals_view(processed@);
                    let kc: usize = processed.len() / 2;
                    let mut entries: Vec<(String, Val)> = Vec::new();
                    let mut t: usize = 0;
                    while t < kc
                        invariant
                            t <= kc,
                            kc == processed@.len() / 2,
                            vd == vals_view(processed@),
                            build_obj(Seq::<(Seq<char>, ValS)>::empty(), vd, kc as int, 0)
                                == build_obj(pairs_view(entries@), vd, kc as int, t as int),
                        decreases kc - t,
                    {
                        let ghost m_pre = pairs_view(entries@);
                        let key: String = match &processed[t] {
                            Val::Str(s) => s.clone(),
                            _ => to_json_text(&processed[t]),
                        };
                        let value = clone_val(&processed[t + kc]);
                        proof {
                            assert(vd[t as int] == processed@[t as int]@);
                            assert(vd[(t + kc) as int] == processed@[(t + kc) as int]@);
                            assert(key@ == key_string(vd[t as int]));
                        }
                        obj_insert_exec(&mut entries, key, value);
                        proof {
                            assert(pairs_view(entries@) == obj_insert(
                                m_pre,
                                key_string(vd[t as int]),
                                vd[(t + kc) as int],
                            ));
                        }
                        t = t + 1;
                    }
                    let out = Val::Obj(entries);
                    proof {
                        assert(out@->Obj_0 =~= pairs_view(out->Obj_0@));
                        assert(out@ == ValS::Obj(build_obj(
                            Seq::<(Seq<char>, ValS)>::empty(),
                            vd,
                            kc as int,
                            0,
                        )));
                    }
                    if !unmemo && a.len() <= MAX_PACK_COMPLEX_OBJECT_SIZE {
                        let keep = clone_val(&out);
                        self.add_to_dict(keep);
                    }
                    Ok(out)
                }
            },
            _ => self.unpack_value(packed),
        }
    }

    /// Unpack a packed envelope to its original value. The trailing element
    /// must be a usable sequence number; `0` resets the dictionary cursor and
    /// is always accepted, any other value must be exactly one past the last
    /// accepted sequence number.
    pub fn unpack(&mut self, packed_object: &Val) -> (r: Result<Val, UnpackerError>)
        requires
            old(self).wf(),
        ensures
            final(self).wf(),
            ({
                let (sr, st1, sid1) = sunpack(old(self).st(), old(self).seq_id(), packed_object@);
                &&& final(self).st() == st1
                &&& final(self).seq_id() == sid1
                &&& (match r {
                    Ok(v) => sr == Ok::<ValS, ErrK>(v@),
                    Err(e) => (match sr {
                        Ok(_) => false,
                        Err(k) => e.cause@ == cause_text(k),
                    }),
                })
            }),
    {
        match packed_object {
            Val::Null => Ok(Val::Null),
            Val::Arr(a) => {
                let ghost es = packed_object@->Arr_0;
                proof {
                    assert(packed_object@ == ValS::Arr(es));
                    assert forall|j: int| 0 <= j < a@.len() implies #[trigger] es[j] == a@[j]@ by {}
                }
                if a.len() == 0 {
                    return Err(UnpackerError { cause: "packed value expected".to_owned() });
                }
                let n: i64 = match &a[a.len() - 1] {
                    Val::Int(n) => *n,
                    _ => {
                        proof {
                            assert(es.last() == a@[a@.len() - 1]@);
                        }
                        return Err(UnpackerError { cause: "packed value expected".to_owned() });
                    },
                };
                proof {
                    assert(es.last() == a@[a@.len() - 1]@);
                }
                if n == 0 {
                    self.dict_index = MIN_DICT_INDEX;
                } else {
                    if !(self.sequence_id < i64::MAX && n == self.sequence_id + 1) {
                        return Err(
                            UnpackerError {
                                cause: "message unpacked out of sequence or already unpacked".to_owned(),
                            },
                        );
                    }
                }
                self.sequence_id = n;
                let mut payload: Vec<Val> = Vec::new();
                let mut i: usize = 0;
                let end = a.len() - 1;
                while i < end
                    invariant
                        i <= end,
                        end == a@.len() - 1,
                        payload@.len() == i,
                        forall|j: int| 0 <= j < i ==> #[trigger] payload@[j]@ == a@[j]@,
                    decreases end - i,
                {
                    payload.push(clone_val(&a[i]));
                    i = i + 1;
                }
                let node = Val::Arr(payload);
                proof {
                    assert(node@ is Arr);
                    let ns = node@->Arr_0;
                    assert(ns.len() == payload@.len());
                    assert forall|j: int| 0 <= j < ns.len() implies ns[j] == es.drop_last()[j] by {
                        assert(ns[j] == payload@[j]@);
                        assert(payload@[j]@ == a@[j]@);
                        assert(es.drop_last()[j] == es[j]);
                        assert(es[j] == a@[j]@);
                    }
                    assert(ns =~= es.drop_last());
                    assert(node@ == ValS::Arr(es.drop_last()));
                }
                self.unpack_object(&node)
            },
            _ => Err(UnpackerError { cause: "packed value expected".to_owned() }),
        }
    }

    /// Unpack an envelope to a string. A tag-2 envelope yields the joined
    /// string itself; anything else is decoded generically and rendered as
    /// canonical JSON text.
    pub fn unpack_string(&mut self, packed_object: &Val) -> (r: Result<String, UnpackerError>)
        requires
            old(self).wf(),
        ensures
            final(self).wf(),
            ({
                let (sr, st1, sid1) = sunpack_string(
                    old(self).st(),
                    old(self).seq_id(),
                    packed_object@,
                );
                &&& final(self).st() == st1
                &&& final(self).seq_id() == sid1
                &&& (match r {
                    Ok(s) => sr == Ok::<Seq<char>, ErrK>(s@),
                    Err(e) => (match sr {
                        Ok(_) => false,
                        Err(k) => e.cause@ == cause_text(k),
                    }),
                })
            }),
    {
        let tag2 = match packed_object {
            Val::Arr(a) => {
                if a.len() > 0 {
                    proof {
                        assert(packed_object@->Arr_0[0] == a@[0]@);
                    }
                    match &a[0] {
                        Val::Int(n) => *n == TYPE_STRING,
                        _ => false,
                    }
                } else {
                    false
                }
            },
            _ => false,
        };
        let res = self.unpack(packed_object);
        match res {
            Ok(v) => {
                if tag2 {
                    match v {
                        Val::Str(s) => Ok(s),
                        _ => Err(
                            UnpackerError { cause: "unable to unpack to specific type".to_owned() },
                        ),
                    }
                } else {
                    Ok(to_json_text(&v))
                }
            },
            Err(e) => Err(e),
        }
    }
}

/// Inserts a key/value pair into an ordered entry list, keeping keys in
/// lexicographic order and replacing the value at an existing key.
fn obj_insert_exec(entries: &mut Vec<(String, Val)>, key: String, value: Val)
    ensures
        pairs_view(final(entries)@) == obj_insert(pairs_view(old(entries)@), key@, value@),
{
    let ghost m0 = pairs_view(entries@);
    proof {
        assert(m0.skip(0) =~= m0);
        assert(m0.take(0) + obj_insert(m0, key@, value@) =~= obj_insert(m0, key@, value@));
    }
    let mut j: usize = 0;
    loop
        invariant
            j <= entries@.len(),
            entries@ == old(entries)@,
            m0 == pairs_view(entries@),
            obj_insert(m0, key@, value@) == m0.take(j as int) + obj_insert(
                m0.skip(j as int),
                key@,
                value@,
            ),
        ensures
            j <= entries@.len(),
            entries@ == old(entries)@,
            obj_insert(m0, key@, value@) == m0.take(j as int) + obj_insert(
                m0.skip(j as int),
                key@,
                value@,
            ),
            j < entries@.len() ==> !lex_lt(m0[j as int].0, key@),
        decreases entries@.len() - j,
    {
        if j >= entries.len() {
            break ;
        }
        if !str_lt(entries[j].0.as_str(), key.as_str()) {
            proof {
                assert(m0[j as int].0 == entries@[j as int].0@);
            }
            break ;
        }
        proof {
            let ji = j as int;
            assert(m0[ji].0 == entries@[ji].0@);
            let sk = m0.skip(ji);
            assert(sk.len() > 0);
            assert(sk[0] == m0[ji]);
            assert(sk.drop_first() =~= m0.skip(ji + 1));
            assert(m0.take(ji) + (seq![m0[ji]] + obj_insert(m0.skip(ji + 1), key@, value@)) =~= m0
                .take(ji + 1) + obj_insert(m0.skip(ji + 1), key@, value@));
        }
        j = j + 1;
    }
    let ghost ji = j as int;
    if j < entries.len() && entries[j].0.eq(&key) {
        proof {
            assert(m0[ji].0 == entries@[ji].0@);
            assert(m0[ji].0 == key@);
        }
        entries.remove(j);
        entries.insert(j, (key, value));
        proof {
            let sk = m0.skip(ji);
            assert(sk[0] == m0[ji]);
            assert(sk.drop_first() =~= m0.skip(ji + 1));
            assert(obj_insert(sk, key@, value@) == seq![(key@, value@)] + sk.drop_first());
            assert(pairs_view(entries@) =~= m0.take(ji) + (seq![(key@, value@)] + m0.skip(ji + 1)));
        }
    } else {
        proof {
            if ji < m0.len() {
                assert(m0[ji].0 == entries@[ji].0@);
                assert(m0[ji].0 != key@);
            }
            let sk = m0.skip(ji);
            if sk.len() > 0 {
                assert(sk[0] == m0[ji]);
                assert(obj_insert(sk, key@, value@) == seq![(key@, value@)] + sk);
            } else {
                assert(obj_insert(sk, key@, value@) == seq![(key@, value@)]);
            }
        }
        entries.insert(j, (key, value));
        proof {
            assert(pairs_view(entries@) =~= m0.take(ji) + (seq![(key@, value@)] + m0.skip(ji)));
        }
    }
}

} // verus!
