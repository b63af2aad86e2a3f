//! A JSON value of the library's own, with its mathematical model.

use vstd::prelude::*;

verus! {

/// The model of a JSON value: strings as character sequences, arrays and
/// objects as sequences (an object keeps its members in insertion order).
pub enum JsonV {
    Null,
    Bool(bool),
    Num(int),
    Str(Seq<char>),
    Arr(Seq<JsonV>),
    Obj(Seq<(Seq<char>, JsonV)>),
}

/// A JSON value. Objects hold their members in insertion order.
#[derive(Debug, PartialEq)]
pub enum Json {
    Null,
    Bool(bool),
    Num(u64),
    Str(String),
    Arr(Vec<Json>),
    Obj(Vec<(String, Json)>),
}

impl View for Json {
    type V = JsonV;

    open spec fn view(&self) -> JsonV
        decreases self,
    {
        match self {
            Json::Null => JsonV::Null,
            Json::Bool(b) => JsonV::Bool(*b),
            Json::Num(n) => JsonV::Num(*n as int),
            Json::Str(s) => JsonV::Str(s@),
            Json::Arr(v) => JsonV::Arr(
                Seq::new(
                    v.len() as nat,
                    |i: int|
                        {
                            if 0 <= i < v.len() {
                                v[i].view()
                            } else {
                                JsonV::Null
                            }
                        },
                ),
            ),
            Json::Obj(v) => {
                let vals = Seq::new(
                    v@.len(),
                    |i: int|
                        {
                            if 0 <= i < v@.len() {
                                v@[i].1.view()
                            } else {
                                JsonV::Null
                            }
                        },
                );
                JsonV::Obj(Seq::new(v@.len(), |i: int| (v@[i].0@, vals[i])))
            },
        }
    }
}

} // verus!

verus! {

/// The models of a sequence of values.
pub open spec fn views(s: Seq<Json>) -> Seq<JsonV> {
    Seq::new(s.len(), |i: int| s[i]@)
}

/// The models of a sequence of object members.
pub open spec fn member_views(s: Seq<(String, Json)>) -> Seq<(Seq<char>, JsonV)> {
    Seq::new(s.len(), |i: int| (s[i].0@, s[i].1@))
}

/// The model of an array is the models of its items.
pub proof fn lemma_arr_view(v: Vec<Json>)
    ensures
        Json::Arr(v)@ == JsonV::Arr(views(v@)),
{
    assert(Json::Arr(v)@->Arr_0 =~= views(v@));
}

/// The model of an object is the models of its members.
pub proof fn lemma_obj_view(v: Vec<(String, Json)>)
    ensures
        Json::Obj(v)@ == JsonV::Obj(member_views(v@)),
{
    assert(Json::Obj(v)@->Obj_0 =~= member_views(v@));
}

} // verus!

verus! {

/// The position of the first member of `m` with key `k`, if any.
pub open spec fn key_index(m: Seq<(Seq<char>, JsonV)>, k: Seq<char>) -> Option<int>
    decreases m.len(),
{
    if m.len() == 0 {
        None
    } else {
        match key_index(m.drop_last(), k) {
            Some(i) => Some(i),
            None => if m.last().0 == k {
                Some(m.len() - 1)
            } else {
                None
            },
        }
    }
}

/// What [`key_index`] finds: the first member with the key, or none.
pub proof fn lemma_key_index(m: Seq<(Seq<char>, JsonV)>, k: Seq<char>)
    ensures
        key_index(m, k) matches Some(i) ==> 0 <= i < m.len() && m[i].0 == k && forall|j: int|
            0 <= j < i ==> m[j].0 != k,
        key_index(m, k) is None ==> forall|j: int| 0 <= j < m.len() ==> m[j].0 != k,
    decreases m.len(),
{
    if m.len() > 0 {
        lemma_key_index(m.drop_last(), k);
        assert forall|j: int| 0 <= j < m.len() - 1 implies m[j] == m.drop_last()[j] by {}
    }
}

/// A member with the key and none before it is what [`key_index`] finds.
pub proof fn lemma_key_index_first(m: Seq<(Seq<char>, JsonV)>, k: Seq<char>, i: int)
    requires
        0 <= i < m.len(),
        m[i].0 == k,
        forall|j: int| 0 <= j < i ==> m[j].0 != k,
    ensures
        key_index(m, k) == Some(i),
    decreases m.len(),
{
    if i < m.len() - 1 {
        lemma_key_index_first(m.drop_last(), k, i);
    } else {
        lemma_key_index(m.drop_last(), k);
    }
}

/// The value of member `k` of an object (the first one with that key).
pub open spec fn member(j: JsonV, k: Seq<char>) -> Option<JsonV> {
    match j {
        JsonV::Obj(m) => match key_index(m, k) {
            Some(i) => Some(m[i].1),
            None => None,
        },
        _ => None,
    }
}

impl Json {
    /// A deep copy.
    pub fn copy(&self) -> (r: Json)
        ensures
            r@ == self@,
        decreases self,
    {
        match self {
            Json::Null => Json::Null,
            Json::Bool(b) => Json::Bool(*b),
            Json::Num(n) => Json::Num(*n),
            Json::Str(s) => Json::Str(s.clone()),
            Json::Arr(v) => {
                let mut out: Vec<Json> = Vec::new();
                let mut i: usize = 0;
                while i < v.len()
                    invariant
                        i <= v.len(),
                        out@.len() == i,
                        *self == Json::Arr(*v),
                        forall|k: int| 0 <= k < i ==> (#[trigger] out@[k])@ == v@[k]@,
                    decreases v.len() - i,
                {
                    proof {
                        assert(*self == Json::Arr(*v));
                        vstd::std_specs::vec::axiom_vec_index_decreases(*v, i as int);
                        assert(decreases_to!(*self => (*self)->Arr_0));
                        assert(decreases_to!(*self => v[i as int]));
                    }
                    let c = v[i].copy();
                    out.push(c);
                    i = i + 1;
                }
                proof {
                    lemma_arr_view(out);
                    lemma_arr_view(*v);
                    assert(views(out@) =~= views(v@));
                }
                Json::Arr(out)
            },
            Json::Obj(v) => {
                let mut out: Vec<(String, Json)> = Vec::new();
                let mut i: usize = 0;
                while i < v.len()
                    invariant
                        i <= v.len(),
                        out@.len() == i,
                        *self == Json::Obj(*v),
                        forall|k: int|
                            0 <= k < i ==> (#[trigger] out@[k]).0@ == v@[k].0@ && out@[k].1@
                                == v@[k].1@,
                    decreases v.len() - i,
                {
                    proof {
                        assert(*self == Json::Obj(*v));
                        vstd::std_specs::vec::axiom_vec_index_decreases(*v, i as int);
                        assert(decreases_to!(*self => (*self)->Obj_0));
                        assert(decreases_to!(v[i as int] => v[i as int].1));
                        assert(decreases_to!(*self => v[i as int].1));
                    }
                    let c = v[i].1.copy();
                    out.push((v[i].0.clone(), c));
                    i = i + 1;
                }
                proof {
                    lemma_obj_view(out);
                    lemma_obj_view(*v);
                    assert(member_views(out@) =~= member_views(v@));
                }
                Json::Obj(out)
            },
        }
    }

    /// The value of member `key`, if this is an object that has it.
    pub fn get(&self, key: &str) -> (r: Option<&Json>)
        ensures
            r matches Some(x) ==> member(self@, key@) == Some(x@),
            r is None ==> member(self@, key@) is None,
    {
        match self {
            Json::Obj(v) => {
                let ghost m = member_views(v@);
                proof {
                    lemma_obj_view(*v);
                }
                let mut i: usize = 0;
                while i < v.len()
                    invariant
                        i <= v.len(),
                        m == member_views(v@),
                        *self == Json::Obj(*v),
                        self@ == JsonV::Obj(m),
                        forall|j: int| 0 <= j < i ==> m[j].0 != key@,
                    decreases v.len() - i,
                {
                    if crate::text::str_eq(v[i].0.as_str(), key) {
                        proof {
                            lemma_key_index_first(m, key@, i as int);
                            assert(m[i as int].1 == v@[i as int].1@);
                        }
                        return Some(&v[i].1);
                    }
                    i = i + 1;
                }
                proof {
                    lemma_key_index(m, key@);
                }
                None
            },
            _ => None,
        }
    }

    /// Whether this is `null`.
    pub fn is_null(&self) -> (r: bool)
        ensures
            r == (self@ is Null),
    {
        match self {
            Json::Null => true,
            _ => false,
        }
    }

    /// The text of a string value.
    pub fn as_str(&self) -> (r: Option<&str>)
        ensures
            r matches Some(s) ==> self@ == JsonV::Str(s@),
            r is None ==> !(self@ is Str),
    {
        match self {
            Json::Str(s) => Some(s.as_str()),
            _ => None,
        }
    }
}

} // verus!
