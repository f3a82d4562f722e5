//! String-keyed field lists: an ordered list of `(key, value)` pairs whose
//! keys are distinct, read as a map from key to value.
use vstd::prelude::*;
use vstd::utf8::*;

verus! {

broadcast use {encode_utf8_decode_utf8, encode_utf8_valid_utf8};

pub type Fields = Vec<(String, String)>;

/// The pairs of a field list as character sequences.
pub open spec fn fields_view(v: Seq<(String, String)>) -> Seq<(Seq<char>, Seq<char>)> {
    Seq::new(v.len(), |i: int| (v[i].0@, v[i].1@))
}

pub open spec fn keys_distinct(f: Seq<(Seq<char>, Seq<char>)>) -> bool {
    forall|i: int, j: int| 0 <= i < j < f.len() ==> f[i].0 != f[j].0
}

pub open spec fn has_key(f: Seq<(Seq<char>, Seq<char>)>, k: Seq<char>) -> bool {
    exists|i: int| 0 <= i < f.len() && f[i].0 == k
}

/// The position of key `k`, meaningful when `has_key(f, k)`.
pub open spec fn key_index(f: Seq<(Seq<char>, Seq<char>)>, k: Seq<char>) -> int {
    choose|i: int| 0 <= i < f.len() && f[i].0 == k
}

/// Inserting a pair: an existing key keeps its place and takes the new
/// value, a new key goes last.
pub open spec fn field_insert(f: Seq<(Seq<char>, Seq<char>)>, k: Seq<char>, v: Seq<char>) -> Seq<
    (Seq<char>, Seq<char>),
> {
    if has_key(f, k) {
        f.update(key_index(f, k), (k, v))
    } else {
        f.push((k, v))
    }
}

/// Inserting the pairs of `es` one after the other into an empty list.
pub open spec fn insert_all(es: Seq<(Seq<char>, Seq<char>)>) -> Seq<(Seq<char>, Seq<char>)>
    decreases es.len(),
{
    if es.len() == 0 {
        Seq::empty()
    } else {
        field_insert(insert_all(es.drop_last()), es.last().0, es.last().1)
    }
}

/// The map that a field list stands for.
pub open spec fn fields_map(f: Seq<(Seq<char>, Seq<char>)>) -> Map<Seq<char>, Seq<char>> {
    Map::new(|k: Seq<char>| has_key(f, k), |k: Seq<char>| f[key_index(f, k)].1)
}

pub proof fn lemma_insert_keeps_distinct(f: Seq<(Seq<char>, Seq<char>)>, k: Seq<char>, v: Seq<char>)
    requires
        keys_distinct(f),
    ensures
        keys_distinct(field_insert(f, k, v)),
        has_key(field_insert(f, k, v), k),
        fields_map(field_insert(f, k, v)) == fields_map(f).insert(k, v),
{
    let g = field_insert(f, k, v);
    if has_key(f, k) {
        let i = key_index(f, k);
        assert(g[i].0 == k);
    } else {
        assert(g[f.len() as int].0 == k);
    }
    assert forall|key: Seq<char>| #[trigger] has_key(g, key) implies g[key_index(g, key)].1 == (
    if key == k {
        v
    } else {
        f[key_index(f, key)].1
    }) && (key == k || has_key(f, key)) by {
        let j = key_index(g, key);
        if key != k {
            assert(f[j].0 == key);
        }
    }
    assert forall|key: Seq<char>| #[trigger] has_key(f, key) implies has_key(g, key) by {
        let j = key_index(f, key);
        if key == k {
            assert(g[j].0 == k || g[f.len() as int].0 == k);
        } else {
            assert(g[j].0 == key);
        }
    }
    assert(fields_map(g) =~= fields_map(f).insert(k, v));
}

/// With distinct keys, inserting the pairs one by one gives the list back.
pub proof fn lemma_insert_all_distinct(es: Seq<(Seq<char>, Seq<char>)>)
    requires
        keys_distinct(es),
    ensures
        insert_all(es) == es,
    decreases es.len(),
{
    if es.len() > 0 {
        let init = es.drop_last();
        assert(keys_distinct(init));
        lemma_insert_all_distinct(init);
        assert(!has_key(init, es.last().0)) by {
            if has_key(init, es.last().0) {
                let i = key_index(init, es.last().0);
                assert(es[i].0 == es[es.len() - 1].0);
            }
        }
        assert(init.push(es.last()) =~= es);
    }
}

pub proof fn lemma_insert_all_distinct_keys(es: Seq<(Seq<char>, Seq<char>)>)
    ensures
        keys_distinct(insert_all(es)),
    decreases es.len(),
{
    if es.len() > 0 {
        lemma_insert_all_distinct_keys(es.drop_last());
        lemma_insert_keeps_distinct(insert_all(es.drop_last()), es.last().0, es.last().1);
    }
}

/// Byte-wise equality of two slices.
pub fn bytes_eq(a: &[u8], b: &[u8]) -> (r: bool)
    ensures
        r == (a@ == b@),
{
    if a.len() != b.len() {
        return false;
    }
    let mut i: usize = 0;
    while i < a.len()
        invariant
            a@.len() == b@.len(),
            i <= a@.len(),
            forall|j: int| 0 <= j < i ==> a@[j] == b@[j],
        decreases a@.len() - i,
    {
        if a[i] != b[i] {
            return false;
        }
        i = i + 1;
    }
    assert(a@ =~= b@);
    true
}

/// Equality of two strings, character by character.
pub fn text_eq(a: &str, b: &str) -> (r: bool)
    ensures
        r == (a@ == b@),
{
    let r = bytes_eq(a.as_bytes(), b.as_bytes());
    proof {
        if r {
            assert(decode_utf8(encode_utf8(a@)) == a@);
            assert(decode_utf8(encode_utf8(b@)) == b@);
        }
    }
    r
}

/// The position of key `k` in `f`, if it is there.
pub fn find_field(f: &Fields, k: &str) -> (r: Option<usize>)
    ensures
        match r {
            Some(i) => i < f@.len() && f@[i as int].0@ == k@,
            None => !has_key(fields_view(f@), k@),
        },
{
    let mut i: usize = 0;
    while i < f.len()
        invariant
            i <= f@.len(),
            forall|j: int| 0 <= j < i ==> f@[j].0@ != k@,
        decreases f@.len() - i,
    {
        if text_eq(f[i].0.as_str(), k) {
            return Some(i);
        }
        i = i + 1;
    }
    proof {
        let fv = fields_view(f@);
        if has_key(fv, k@) {
            let j = key_index(fv, k@);
            assert(f@[j].0@ == k@);
        }
    }
    None
}

/// The value under key `k`, if any.
pub fn get_field<'a>(f: &'a Fields, k: &str) -> (r: Option<&'a String>)
    requires
        keys_distinct(fields_view(f@)),
    ensures
        match r {
            Some(v) => fields_map(fields_view(f@)).contains_key(k@) && v@ == fields_map(
                fields_view(f@),
            )[k@],
            None => !fields_map(fields_view(f@)).contains_key(k@),
        },
{
    match find_field(f, k) {
        Some(i) => {
            proof {
                let fv = fields_view(f@);
                assert(fv[i as int].0 == k@);
                let j = key_index(fv, k@);
                assert(j == i);
            }
            Some(&f[i].1)
        },
        None => None,
    }
}

/// Inserts `v` under `k`, replacing an earlier value of that key.
pub fn insert_field(f: &mut Fields, k: String, v: String) -> (r: Option<String>)
    requires
        keys_distinct(fields_view(old(f)@)),
    ensures
        fields_view(final(f)@) == field_insert(fields_view(old(f)@), k@, v@),
        keys_distinct(fields_view(final(f)@)),
        fields_map(fields_view(final(f)@)) == fields_map(fields_view(old(f)@)).insert(k@, v@),
        match r {
            Some(prev) => fields_map(fields_view(old(f)@)).contains_key(k@) && prev@ == fields_map(
                fields_view(old(f)@),
            )[k@],
            None => !fields_map(fields_view(old(f)@)).contains_key(k@),
        },
{
    let ghost fv = fields_view(f@);
    proof {
        lemma_insert_keeps_distinct(fv, k@, v@);
    }
    match find_field(f, k.as_str()) {
        Some(i) => {
            proof {
                assert(fv[i as int].0 == k@);
                assert(key_index(fv, k@) == i);
            }
            let prev = f[i].1.clone();
            f.set(i, (k, v));
            assert(fields_view(f@) =~= field_insert(fv, k@, v@));
            Some(prev)
        },
        None => {
            f.push((k, v));
            assert(fields_view(f@) =~= field_insert(fv, k@, v@));
            None
        },
    }
}

} // verus!
