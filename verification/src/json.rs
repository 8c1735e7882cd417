//! The JSON document model.
//!
//! Payloads applied to the store are arbitrary JSON. The library keeps
//! them in `JsonVal`, whose mathematical form is `Jv`: strings become
//! sequences of characters, arrays and objects become sequences. A
//! number keeps its literal text, so the library itself never touches
//! floating point.
use vstd::prelude::*;

verus! {

broadcast use
    vstd::std_specs::vec::axiom_vec_index_decreases,
    vstd::std_specs::vec::axiom_vec_decreases_to_view,
    vstd::seq::axiom_seq_index_decreases,
    vstd::seq::axiom_seq_subrange_decreases;

/// Mathematical form of a JSON document.
pub enum Jv {
    Null,
    Bool(bool),
    Num(Seq<char>),
    Str(Seq<char>),
    Arr(Seq<Jv>),
    Obj(Seq<(Seq<char>, Jv)>),
}

/// Executable JSON document. `Num` holds the literal text of the number.
pub enum JsonVal {
    Null,
    Bool(bool),
    Num(String),
    Str(String),
    Arr(Vec<JsonVal>),
    Obj(Vec<(String, JsonVal)>),
}

impl JsonVal {
    pub open spec fn deep(self) -> Jv
        decreases self,
    {
        match self {
            JsonVal::Null => Jv::Null,
            JsonVal::Bool(b) => Jv::Bool(b),
            JsonVal::Num(s) => Jv::Num(s@),
            JsonVal::Str(s) => Jv::Str(s@),
            JsonVal::Arr(a) => Jv::Arr(Self::deep_arr(a@)),
            JsonVal::Obj(m) => Jv::Obj(Self::deep_obj(m@)),
        }
    }

    pub open spec fn deep_arr(a: Seq<JsonVal>) -> Seq<Jv>
        decreases a,
    {
        if a.len() == 0 {
            Seq::empty()
        } else {
            Self::deep_arr(a.drop_last()).push(a.last().deep())
        }
    }

    pub open spec fn deep_obj(m: Seq<(String, JsonVal)>) -> Seq<(Seq<char>, Jv)>
        decreases m,
    {
        if m.len() == 0 {
            Seq::empty()
        } else {
            Self::deep_obj(m.drop_last()).push((m.last().0@, m.last().1.deep()))
        }
    }
}

impl View for JsonVal {
    type V = Jv;

    open spec fn view(&self) -> Jv {
        self.deep()
    }
}

/// `deep_arr` is the element-wise image of `deep`.
pub broadcast proof fn lemma_deep_arr(a: Seq<JsonVal>)
    ensures
        (#[trigger] JsonVal::deep_arr(a)).len() == a.len(),
        forall|i: int| 0 <= i < a.len() ==> JsonVal::deep_arr(a)[i] == a[i].deep(),
    decreases a.len(),
{
    if a.len() > 0 {
        lemma_deep_arr(a.drop_last());
    }
}

/// `deep_obj` maps each entry to its pair of views.
pub broadcast proof fn lemma_deep_obj(m: Seq<(String, JsonVal)>)
    ensures
        (#[trigger] JsonVal::deep_obj(m)).len() == m.len(),
        forall|i: int|
            0 <= i < m.len() ==> JsonVal::deep_obj(m)[i] == (m[i].0@, m[i].1.deep()),
    decreases m.len(),
{
    if m.len() > 0 {
        lemma_deep_obj(m.drop_last());
    }
}

/// First binding of key `k` in the object fields `m`, if any.
pub open spec fn obj_get(m: Seq<(Seq<char>, Jv)>, k: Seq<char>) -> Option<Jv>
    decreases m.len(),
{
    if m.len() == 0 {
        None
    } else if m.first().0 == k {
        Some(m.first().1)
    } else {
        obj_get(m.drop_first(), k)
    }
}

/// Looks a key up among executable object fields; agrees with `obj_get`
/// on the views.
pub fn get_field<'a>(m: &'a Vec<(String, JsonVal)>, k: &String) -> (r: Option<&'a JsonVal>)
    ensures
        match r {
            Some(v) => obj_get(JsonVal::deep_obj(m@), k@) == Some(v.deep()),
            None => obj_get(JsonVal::deep_obj(m@), k@) is None,
        },
{
    proof {
        broadcast use lemma_deep_obj;

    }
    let ghost gm = JsonVal::deep_obj(m@);
    proof {
        assert(gm.skip(0) =~= gm);
    }
    let mut i: usize = 0;
    while i < m.len()
        invariant
            0 <= i <= m.len(),
            gm == JsonVal::deep_obj(m@),
            obj_get(gm, k@) == obj_get(gm.skip(i as int), k@),
            forall|j: int| 0 <= j < i ==> #[trigger] gm[j].0 != k@,
        decreases m.len() - i,
    {
        proof {
            broadcast use lemma_deep_obj;

        }
        if m[i].0 == *k {
            proof {
                assert(gm.skip(i as int).first() == gm[i as int]);
            }
            return Some(&m[i].1);
        }
        proof {
            assert(gm.skip(i as int).drop_first() =~= gm.skip(i + 1));
        }
        i = i + 1;
    }
    proof {
        assert(gm.skip(i as int).len() == 0);
    }
    None
}

/// Structure-preserving copy; the mathematical value is unchanged.
#[verifier::loop_isolation(false)]
pub fn deep_copy(v: &JsonVal) -> (r: JsonVal)
    ensures
        r@ == v@,
    decreases v,
{
    match v {
        JsonVal::Null => JsonVal::Null,
        JsonVal::Bool(b) => JsonVal::Bool(*b),
        JsonVal::Num(s) => JsonVal::Num(s.clone()),
        JsonVal::Str(s) => JsonVal::Str(s.clone()),
        JsonVal::Arr(a) => {
            let mut out: Vec<JsonVal> = Vec::new();
            let mut i: usize = 0;
            while i < a.len()
                invariant
                    0 <= i <= a.len(),
                    out@.len() == i,
                    forall|j: int| 0 <= j < i ==> #[trigger] out@[j].deep() == a@[j].deep(),
                decreases a.len() - i,
            {
                proof {
                    assert(decreases_to!(*a => a@[i as int]));
                }
                let c = deep_copy(&a[i]);
                out.push(c);
                i = i + 1;
            }
            proof {
                broadcast use lemma_deep_arr;

                assert(JsonVal::deep_arr(out@) =~= JsonVal::deep_arr(a@));
            }
            JsonVal::Arr(out)
        },
        JsonVal::Obj(m) => {
            let mut out: Vec<(String, JsonVal)> = Vec::new();
            let mut i: usize = 0;
            while i < m.len()
                invariant
                    0 <= i <= m.len(),
                    out@.len() == i,
                    forall|j: int|
                        0 <= j < i ==> #[trigger] out@[j].0@ == m@[j].0@ && out@[j].1.deep()
                            == m@[j].1.deep(),
                decreases m.len() - i,
            {
                let key = m[i].0.clone();
                proof {
                    assert(decreases_to!(*m => m@[i as int]));
                }
                let val = deep_copy(&m[i].1);
                out.push((key, val));
                i = i + 1;
            }
            proof {
                broadcast use lemma_deep_obj;

                assert(JsonVal::deep_obj(out@) =~= JsonVal::deep_obj(m@));
            }
            JsonVal::Obj(out)
        },
    }
}

} // verus!
