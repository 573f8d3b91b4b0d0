use vstd::prelude::*;
use crate::unpacker::{
    sdecode_items, sdecode_node, sdecode_value, spec_add, spec_tag, sunpack, DState, ErrK,
    MAX_PACK_COMPLEX_OBJECT_SIZE, MIN_DICT_INDEX, TYPE_ARRAY, TYPE_STRING, TYPE_VALUE,
};
use crate::value::ValS;

verus! {

broadcast use vstd::group_vstd_default;

/// Resolving a reference to an index that was never written, or whose entry
/// was already overwritten away, fails with the missing-entry error and
/// leaves the state untouched.
pub proof fn lemma_missing_reference(st: DState, i: int)
    requires
        0 <= i <= u64::MAX,
        !st.dict.contains_key(i as u64),
    ensures
        sdecode_value(st, ValS::Int(i)) == (Err::<ValS, ErrK>(ErrK::Missing), st),
{
}

/// With `last_sequence == k`, only `k + 1` and `0` are accepted: an envelope
/// with any other trailing sequence number fails out-of-sequence, and neither
/// the dictionary state nor the sequence counter changes.
pub proof fn lemma_sequence_acceptance(st: DState, k: i64, env: ValS, n: int)
    requires
        env is Arr,
        env->Arr_0.len() > 0,
        env->Arr_0.last() == ValS::Int(n),
        n != 0,
        !(k < i64::MAX && n == k + 1),
    ensures
        sunpack(st, k, env) == (Err::<ValS, ErrK>(ErrK::OutOfSeq), st, k),
{
}

/// With `last_sequence == k`, an envelope whose trailing sequence number is
/// exactly `k + 1` is accepted: the payload is decoded from the current
/// state, and the sequence counter advances to `k + 1`. (When `k + 1` is the
/// reset value zero, the zero rule applies instead and also resets the
/// cursor.)
pub proof fn lemma_sequence_next_accepted(st: DState, k: i64, env: ValS)
    requires
        env is Arr,
        env->Arr_0.len() > 0,
        k < i64::MAX,
        k + 1 != 0,
        env->Arr_0.last() == ValS::Int(k + 1),
    ensures
        ({
            let (r, st1) = sdecode_node(st, ValS::Arr(env->Arr_0.drop_last()));
            sunpack(st, k, env) == (r, st1, (k + 1) as i64)
        }),
{
}

/// A trailing sequence number of zero is always accepted, and always resets
/// the dictionary write cursor to the reserved minimum before the payload is
/// decoded, whatever the cursor was and whatever the last sequence number
/// was; the entries themselves are kept.
pub proof fn lemma_sequence_zero_resets(st: DState, k: i64, env: ValS)
    requires
        env is Arr,
        env->Arr_0.len() > 0,
        env->Arr_0.last() == ValS::Int(0),
    ensures
        ({
            let st0 = DState { idx: MIN_DICT_INDEX, ..st };
            let (r, st1) = sdecode_node(st0, ValS::Arr(env->Arr_0.drop_last()));
            sunpack(st, k, env) == (r, st1, 0i64)
        }),
{
}

/// A negative number is an inline literal: it resolves to its absolute value
/// and touches neither the dictionary nor its cursor, however often it is
/// decoded.
pub proof fn lemma_negative_literal(st: DState, n: int)
    requires
        i64::MIN < n < 0,
    ensures
        sdecode_value(st, ValS::Int(n)) == (Ok::<ValS, ErrK>(ValS::Int(-n)), st),
{
}

/// A tag-1 node hands its wrapped child to the scalar resolver alone, so it
/// never triggers whole-object memoization, even when the wrapped child would
/// otherwise qualify.
pub proof fn lemma_tag_one_wraps_scalar(st: DState, a: Seq<ValS>)
    requires
        a.len() >= 2,
        spec_tag(a[0]) == TYPE_VALUE as int,
    ensures
        sdecode_node(st, ValS::Arr(a)) == sdecode_value(st, a[1]),
{
}

/// A child of a flattened object that is a bare non-negative number whose
/// index is present in the dictionary.
pub open spec fn bare_present_index(st: DState, v: ValS) -> bool {
    &&& v is Int
    &&& 0 <= v->Int_0 <= u64::MAX
    &&& st.dict.contains_key(v->Int_0 as u64)
}

proof fn lemma_items_bare_numbers(st: DState, a: Seq<ValS>, i: int)
    requires
        0 <= i <= a.len(),
        forall|j: int| i <= j < a.len() ==> bare_present_index(st, #[trigger] a[j]),
    ensures
        ({
            let (r, st1) = sdecode_items(st, a, i);
            &&& st1 == st
            &&& (match r {
                Ok(p) => p.1 == false && p.0.len() == a.len() - i,
                Err(_) => false,
            })
        }),
    decreases a.len() - i,
{
    if i < a.len() {
        lemma_items_bare_numbers(st, a, i + 1);
    }
}

/// Decoding a flattened-object node whose children are all bare non-negative
/// numbers present in the dictionary succeeds; when the node holds at most
/// twelve elements, exactly the resulting mapping is appended to the
/// dictionary, and when it is longer, nothing is appended.
pub proof fn lemma_whole_object_memoization(st: DState, a: Seq<ValS>)
    requires
        a.len() >= 1,
        forall|j: int| 0 <= j < a.len() ==> bare_present_index(st, #[trigger] a[j]),
        spec_tag(a[0]) != TYPE_ARRAY as int,
        spec_tag(a[0]) != TYPE_STRING as int,
        spec_tag(a[0]) != TYPE_VALUE as int,
    ensures
        ({
            let (r, st1) = sdecode_node(st, ValS::Arr(a));
            match r {
                Ok(v) => {
                    &&& v is Obj
                    &&& (if a.len() <= MAX_PACK_COMPLEX_OBJECT_SIZE as int {
                        st1 == spec_add(st, v)
                    } else {
                        st1 == st
                    })
                },
                Err(_) => false,
            }
        }),
{
    lemma_items_bare_numbers(st, a, 0);
}

} // verus!
