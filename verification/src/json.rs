//! The JSON value model the decoder consumes: a plain value tree with
//! objects held as key/value entry lists. Well-formed values have unique
//! keys in every object, which makes an object an unordered mapping.

use vstd::prelude::*;

verus! {

#[derive(Debug, PartialEq)]
pub enum Json {
    Null,
    Bool(bool),
    Num(u64),
    Str(String),
    Arr(Vec<Json>),
    Obj(Vec<(String, Json)>),
}

/// No two entries of an object share a key.
pub open spec fn keys_unique(es: Seq<(String, Json)>) -> bool {
    forall|i: int, j: int| 0 <= i < j < es.len() ==> (#[trigger] es[i]).0@ != (#[trigger] es[j]).0@
}

/// Some entry of the object carries key `k`.
pub open spec fn has_key(es: Seq<(String, Json)>, k: Seq<char>) -> bool {
    exists|i: int| 0 <= i < es.len() && (#[trigger] es[i]).0@ == k
}

/// The value bound to key `k`; meaningful when the key is present and keys
/// are unique.
pub open spec fn lookup(es: Seq<(String, Json)>, k: Seq<char>) -> Json
    recommends
        has_key(es, k),
{
    es[choose|i: int| 0 <= i < es.len() && (#[trigger] es[i]).0@ == k].1
}

impl Json {
    /// Every object in the tree has pairwise-distinct keys.
    pub open spec fn wf(self) -> bool
        decreases self,
    {
        match self {
            Json::Arr(items) => forall|i: int|
                0 <= i < items@.len() ==> (#[trigger] items@[i]).wf(),
            Json::Obj(es) => keys_unique(es@) && forall|i: int|
                0 <= i < es@.len() ==> (#[trigger] es@[i]).1.wf(),
            _ => true,
        }
    }
}

/// With unique keys, any entry whose key matches is the binding `lookup`
/// returns.
pub proof fn lemma_lookup_unique(es: Seq<(String, Json)>, k: Seq<char>, i: int)
    requires
        keys_unique(es),
        0 <= i < es.len(),
        es[i].0@ == k,
    ensures
        has_key(es, k),
        lookup(es, k) == es[i].1,
{
    assert(has_key(es, k));
    let c = choose|c: int| 0 <= c < es.len() && (#[trigger] es[c]).0@ == k;
    if c < i {
        assert(es[c].0@ != es[i].0@);
    } else if i < c {
        assert(es[i].0@ != es[c].0@);
    }
}

/// A value looked up in a well-formed object is itself well-formed.
pub proof fn lemma_lookup_wf(es: Seq<(String, Json)>, k: Seq<char>)
    requires
        has_key(es, k),
        forall|i: int| 0 <= i < es.len() ==> (#[trigger] es[i]).1.wf(),
    ensures
        lookup(es, k).wf(),
{
    let c = choose|c: int| 0 <= c < es.len() && (#[trigger] es[c]).0@ == k;
    assert(es[c].1.wf());
}

/// String comparison reflected to the views.
pub fn str_eq(a: &String, b: &str) -> (r: bool)
    ensures
        r == (a@ == b@),
{
    let bs: String = b.to_owned();
    *a == bs
}

/// First (and, with unique keys, only) binding of `name` in the entry list.
pub fn obj_get<'a>(es: &'a Vec<(String, Json)>, name: &str) -> (r: Option<&'a Json>)
    requires
        keys_unique(es@),
    ensures
        match r {
            Some(v) => has_key(es@, name@) && lookup(es@, name@) == *v,
            None => !has_key(es@, name@),
        },
{
    let mut i: usize = 0;
    while i < es.len()
        invariant
            0 <= i <= es@.len(),
            keys_unique(es@),
            forall|q: int| 0 <= q < i ==> (#[trigger] es@[q]).0@ != name@,
        decreases es@.len() - i,
    {
        if str_eq(&es[i].0, name) {
            proof {
                lemma_lookup_unique(es@, name@, i as int);
            }
            return Some(&es[i].1);
        }
        i += 1;
    }
    None
}

/// Check well-formedness of a whole value tree.
#[verifier::loop_isolation(false)]
pub fn json_wf(j: &Json) -> (r: bool)
    ensures
        r == j.wf(),
    decreases *j,
{
    match j {
        Json::Null => true,
        Json::Bool(_) => true,
        Json::Num(_) => true,
        Json::Str(_) => true,
        Json::Arr(items) => {
            let mut i: usize = 0;
            while i < items.len()
                invariant
                    i <= items@.len(),
                    forall|q: int| 0 <= q < i ==> (#[trigger] items@[q]).wf(),
                decreases items@.len() - i,
            {
                if !json_wf(&items[i]) {
                    return false;
                }
                i += 1;
            }
            true
        },
        Json::Obj(es) => {
            let mut i: usize = 0;
            while i < es.len()
                invariant
                    i <= es@.len(),
                    forall|a: int, b: int| 0 <= a < b < i ==> es@[a].0@ != es@[b].0@,
                    forall|q: int| 0 <= q < i ==> (#[trigger] es@[q]).1.wf(),
                decreases es@.len() - i,
            {
                let mut q: usize = 0;
                while q < i
                    invariant
                        q <= i,
                        i < es@.len(),
                        forall|a: int| 0 <= a < q ==> es@[a].0@ != es@[i as int].0@,
                    decreases i - q,
                {
                    if str_eq(&es[q].0, es[i].0.as_str()) {
                        return false;
                    }
                    q += 1;
                }
                if !json_wf(&es[i].1) {
                    return false;
                }
                i += 1;
            }
            true
        },
    }
}


/// Semantic equality of JSON values: object key sets compare unordered
/// (meaningful when keys are unique), array order matters.
pub open spec fn sem_eq(a: Json, b: Json) -> bool
    decreases a,
{
    match (a, b) {
        (Json::Null, Json::Null) => true,
        (Json::Bool(x), Json::Bool(y)) => x == y,
        (Json::Num(x), Json::Num(y)) => x == y,
        (Json::Str(x), Json::Str(y)) => x@ == y@,
        (Json::Arr(x), Json::Arr(y)) => x@.len() == y@.len() && (forall|i: int|
            0 <= i < x@.len() ==> sem_eq(#[trigger] x@[i], y@[i])),
        (Json::Obj(x), Json::Obj(y)) => x@.len() == y@.len() && (forall|i: int|
            0 <= i < x@.len() ==> entry_matched(#[trigger] x@[i], y@)),
        _ => false,
    }
}

/// Some entry of `ys` carries this entry's key and a semantically equal
/// value.
pub open spec fn entry_matched(e: (String, Json), ys: Seq<(String, Json)>) -> bool
    decreases e,
{
    exists|j: int| 0 <= j < ys.len() && (#[trigger] ys[j]).0@ == e.0@ && sem_eq(e.1, ys[j].1)
}

/// The set of keys an object binds.
pub open spec fn key_set(es: Seq<(String, Json)>) -> Set<Seq<char>> {
    Set::new(|k: Seq<char>| has_key(es, k))
}

/// With unique keys, an object binds exactly as many keys as it has
/// entries.
pub proof fn lemma_key_set_len(es: Seq<(String, Json)>)
    requires
        keys_unique(es),
    ensures
        key_set(es).finite(),
        key_set(es).len() == es.len(),
    decreases es.len(),
{
    broadcast use vstd::set::group_set_axioms;

    if es.len() == 0 {
        assert(key_set(es) =~= Set::<Seq<char>>::empty());
    } else {
        let pre = es.drop_last();
        let n = es.len() - 1;
        assert(keys_unique(pre));
        lemma_key_set_len(pre);
        let lastk = es.last().0@;
        assert(!key_set(pre).contains(lastk)) by {
            if has_key(pre, lastk) {
                let i = choose|i: int| 0 <= i < pre.len() && (#[trigger] pre[i]).0@ == lastk;
                assert(es[i].0@ != es[n as int].0@);
            }
        }
        assert(key_set(es) =~= key_set(pre).insert(lastk)) by {
            assert forall|k: Seq<char>| #[trigger] has_key(es, k) implies has_key(pre, k) || k
                == lastk by {
                let i = choose|i: int| 0 <= i < es.len() && (#[trigger] es[i]).0@ == k;
                if i < n {
                    assert(pre[i].0@ == k);
                    assert(has_key(pre, k));
                }
            }
            assert forall|k: Seq<char>| has_key(pre, k) implies #[trigger] has_key(es, k) by {
                let i = choose|i: int| 0 <= i < pre.len() && (#[trigger] pre[i]).0@ == k;
                assert(es[i].0@ == k);
            }
            assert(es[n as int].0@ == lastk);
            assert(has_key(es, lastk));
        }
    }
}

/// Two unique-keyed objects binding the same key set have the same number
/// of entries.
pub proof fn lemma_same_keys_same_len(ea: Seq<(String, Json)>, eb: Seq<(String, Json)>)
    requires
        keys_unique(ea),
        keys_unique(eb),
        forall|k: Seq<char>| #[trigger] has_key(ea, k) <==> has_key(eb, k),
    ensures
        ea.len() == eb.len(),
{
    lemma_key_set_len(ea);
    lemma_key_set_len(eb);
    assert(key_set(ea) =~= key_set(eb));
}

/// Two well-formed objects binding the same keys to semantically equal
/// values are semantically equal.
pub proof fn lemma_obj_sem_eq(a: Json, b: Json)
    requires
        a is Obj,
        b is Obj,
        keys_unique(a->Obj_0@),
        keys_unique(b->Obj_0@),
        forall|k: Seq<char>| #[trigger] has_key(a->Obj_0@, k) <==> has_key(b->Obj_0@, k),
        forall|k: Seq<char>|
            has_key(a->Obj_0@, k) ==> sem_eq(
                #[trigger] lookup(a->Obj_0@, k),
                lookup(b->Obj_0@, k),
            ),
    ensures
        sem_eq(a, b),
{
    let ea = a->Obj_0@;
    let eb = b->Obj_0@;
    lemma_same_keys_same_len(ea, eb);
    assert forall|i: int| 0 <= i < ea.len() implies entry_matched(#[trigger] ea[i], eb) by {
        let k = ea[i].0@;
        assert(has_key(ea, k));
        assert(has_key(eb, k));
        let j = choose|j: int| 0 <= j < eb.len() && (#[trigger] eb[j]).0@ == k;
        lemma_lookup_unique(ea, k, i);
        lemma_lookup_unique(eb, k, j);
        assert(sem_eq(lookup(ea, k), lookup(eb, k)));
        assert(eb[j].0@ == ea[i].0@ && sem_eq(ea[i].1, eb[j].1));
    }
}

} // verus!
