//! Request signing: the access key (and security token) join the extension
//! fields, and an HMAC-SHA1 over the field values in ascending key order
//! followed by the body, in base64, becomes the `Signature` field.
use crate::client::Credentials;
use crate::fields::{fields_map, fields_view, has_key, insert_field, key_index, keys_distinct, Fields};
use crate::protocol::{text_bytes, RemotingCommand};
use crate::wire::push_all;
use hmac::Mac;
use vstd::prelude::*;
use vstd::utf8::encode_utf8_decode_utf8;

verus! {

broadcast use encode_utf8_decode_utf8;

/// Lexicographic order of byte strings, a proper prefix first.
pub open spec fn lex_lt(a: Seq<u8>, b: Seq<u8>) -> bool
    decreases a.len(),
{
    if a.len() == 0 {
        b.len() > 0
    } else if b.len() == 0 {
        false
    } else if a[0] != b[0] {
        a[0] < b[0]
    } else {
        lex_lt(a.skip(1), b.skip(1))
    }
}

pub proof fn lemma_lex_total(a: Seq<u8>, b: Seq<u8>)
    ensures
        a != b ==> lex_lt(a, b) || lex_lt(b, a),
        !(lex_lt(a, b) && lex_lt(b, a)),
        !lex_lt(a, a),
    decreases a.len(),
{
    if a.len() > 0 && b.len() > 0 && a[0] == b[0] {
        lemma_lex_total(a.skip(1), b.skip(1));
        if a.skip(1) == b.skip(1) {
            assert(a =~= seq![a[0]] + a.skip(1));
            assert(b =~= seq![b[0]] + b.skip(1));
        }
    }
    if a.len() > 0 {
        lemma_lex_total(a.skip(1), a.skip(1));
    }
    if a.len() == 0 && b.len() == 0 {
        assert(a =~= b);
    }
}

pub proof fn lemma_lex_trans(a: Seq<u8>, b: Seq<u8>, c: Seq<u8>)
    requires
        lex_lt(a, b),
        lex_lt(b, c),
    ensures
        lex_lt(a, c),
    decreases a.len(),
{
    if a.len() > 0 && b.len() > 0 && c.len() > 0 && a[0] == b[0] && b[0] == c[0] {
        lemma_lex_trans(a.skip(1), b.skip(1), c.skip(1));
    }
}

/// Key order: the order of the keys' UTF-8 bytes.
pub open spec fn key_lt(a: Seq<char>, b: Seq<char>) -> bool {
    lex_lt(text_bytes(a), text_bytes(b))
}

pub proof fn lemma_key_total(a: Seq<char>, b: Seq<char>)
    ensures
        a != b ==> key_lt(a, b) || key_lt(b, a),
        !(key_lt(a, b) && key_lt(b, a)),
{
    lemma_lex_total(text_bytes(a), text_bytes(b));
    if a != b {
        assert(vstd::utf8::decode_utf8(text_bytes(a)) == a);
        assert(vstd::utf8::decode_utf8(text_bytes(b)) == b);
    }
}

pub fn bytes_lt(a: &[u8], b: &[u8]) -> (r: bool)
    ensures
        r == lex_lt(a@, b@),
{
    let mut i: usize = 0;
    assert(a@.skip(0) =~= a@ && b@.skip(0) =~= b@);
    while i < a.len() && i < b.len()
        invariant
            i <= a@.len(),
            i <= b@.len(),
            lex_lt(a@, b@) == lex_lt(a@.skip(i as int), b@.skip(i as int)),
        decreases a@.len() - i,
    {
        assert(a@.skip(i as int)[0] == a@[i as int] && b@.skip(i as int)[0] == b@[i as int]);
        if a[i] != b[i] {
            return a[i] < b[i];
        }
        assert(a@.skip(i as int).skip(1) =~= a@.skip(i + 1));
        assert(b@.skip(i as int).skip(1) =~= b@.skip(i + 1));
        i = i + 1;
    }
    i == a.len() && i < b.len()
}

/// `k` is the smallest key of `m`.
pub open spec fn is_min_key(m: Map<Seq<char>, Seq<char>>, k: Seq<char>) -> bool {
    &&& m.contains_key(k)
    &&& forall|j: Seq<char>| #[trigger] m.contains_key(j) && j != k ==> key_lt(k, j)
}

/// The values of `m` in ascending key order, concatenated, for at most `n` keys.
pub open spec fn canonical_n(m: Map<Seq<char>, Seq<char>>, n: nat) -> Seq<u8>
    decreases n,
{
    if n == 0 {
        Seq::empty()
    } else if exists|k: Seq<char>| is_min_key(m, k) {
        let k = choose|k: Seq<char>| is_min_key(m, k);
        text_bytes(m[k]) + canonical_n(m.remove(k), (n - 1) as nat)
    } else {
        Seq::empty()
    }
}

/// The values of the fields in ascending key order, concatenated. A
/// function of the map alone: the order in which fields were inserted does
/// not enter.
pub open spec fn canonical_content(m: Map<Seq<char>, Seq<char>>) -> Seq<u8> {
    canonical_n(m, m.dom().len())
}

/// The HMAC-SHA1 of `data` under `key`.
pub uninterp spec fn hmac_sha1_of(key: Seq<u8>, data: Seq<u8>) -> Seq<u8>;

/// The standard base64 text of `b`.
pub uninterp spec fn base64_of(b: Seq<u8>) -> Seq<char>;

/// Relies on `hmac::Hmac<sha1::Sha1>`: `new_from_slice` accepts a key of any
/// length, and the MAC is a function of the key and the data.
#[verifier::external_body]
fn hmac_sha1(key: &[u8], data: &[u8]) -> (r: Vec<u8>)
    ensures
        r@ == hmac_sha1_of(key@, data@),
{
    let mut mac = <hmac::Hmac<sha1::Sha1> as Mac>::new_from_slice(key).unwrap();
    mac.update(data);
    mac.finalize().into_bytes().to_vec()
}

/// Relies on `base64::encode`: the standard alphabet with padding, a
/// function of the bytes.
#[verifier::external_body]
fn base64_encode(b: &[u8]) -> (r: String)
    ensures
        r@ == base64_of(b@),
{
    base64::encode(b)
}

/// The base64 text of the HMAC-SHA1 of `data` under `key`.
pub fn calculate_signature(data: &[u8], key: &[u8]) -> (r: String)
    ensures
        r@ == base64_of(hmac_sha1_of(key@, data@)),
{
    let mac = hmac_sha1(key, data);
    base64_encode(mac.as_slice())
}

proof fn lemma_fields_dom(f: Seq<(Seq<char>, Seq<char>)>)
    requires
        keys_distinct(f),
    ensures
        fields_map(f).dom().finite(),
        fields_map(f).dom().len() == f.len(),
    decreases f.len(),
{
    if f.len() == 0 {
        assert(fields_map(f).dom() =~= Set::<Seq<char>>::empty());
    } else {
        let t = f.drop_last();
        lemma_fields_dom(t);
        let k = f.last().0;
        assert forall|x: Seq<char>| #[trigger] has_key(f, x) <==> (has_key(t, x) || x == k) by {
            if has_key(f, x) && x != k {
                let j = key_index(f, x);
                assert(t[j].0 == x);
            }
            if has_key(t, x) {
                let j = key_index(t, x);
                assert(f[j].0 == x);
            }
            if x == k {
                assert(f[f.len() - 1].0 == x);
            }
        }
        assert(!has_key(t, k)) by {
            if has_key(t, k) {
                let j = key_index(t, k);
                assert(f[j].0 == f[f.len() - 1].0);
            }
        }
        assert(fields_map(f).dom() =~= fields_map(t).dom().insert(k));
    }
}

proof fn lemma_fields_remove(f: Seq<(Seq<char>, Seq<char>)>, t: int)
    requires
        keys_distinct(f),
        0 <= t < f.len(),
    ensures
        keys_distinct(f.remove(t)),
        fields_map(f.remove(t)) == fields_map(f).remove(f[t].0),
        fields_map(f).contains_key(f[t].0),
        fields_map(f)[f[t].0] == f[t].1,
{
    let g = f.remove(t);
    let k = f[t].0;
    assert(has_key(f, k));
    assert(key_index(f, k) == t);
    assert forall|x: Seq<char>| #[trigger] has_key(g, x) <==> (has_key(f, x) && x != k) by {
        if has_key(g, x) {
            let j = key_index(g, x);
            if j < t {
                assert(f[j].0 == x);
            } else {
                assert(f[j + 1].0 == x);
            }
        }
        if has_key(f, x) && x != k {
            let j = key_index(f, x);
            if j < t {
                assert(g[j].0 == x);
            } else {
                assert(g[j - 1].0 == x);
            }
        }
    }
    assert forall|x: Seq<char>| has_key(g, x) implies fields_map(g)[x] == fields_map(f)[x] by {
        let j = key_index(g, x);
        let j0 = key_index(f, x);
        if j < t {
            assert(f[j].0 == x);
        } else {
            assert(f[j + 1].0 == x);
        }
    }
    assert(fields_map(g) =~= fields_map(f).remove(k));
}

/// The position of the smallest key of a non-empty list.
fn min_key_index(f: &Fields) -> (r: usize)
    requires
        f@.len() > 0,
        keys_distinct(fields_view(f@)),
    ensures
        r < f@.len(),
        is_min_key(fields_map(fields_view(f@)), fields_view(f@)[r as int].0),
{
    let ghost fv = fields_view(f@);
    let mut best: usize = 0;
    let mut i: usize = 1;
    while i < f.len()
        invariant
            1 <= i <= f@.len(),
            best < i,
            fv == fields_view(f@),
            keys_distinct(fv),
            forall|j: int| 0 <= j < i && j != best ==> key_lt(fv[best as int].0, #[trigger] fv[j].0),
        decreases f@.len() - i,
    {
        let a = f[i].0.as_str().as_bytes();
        let b = f[best].0.as_str().as_bytes();
        if bytes_lt(a, b) {
            proof {
                assert forall|j: int| 0 <= j < i + 1 && j != i implies key_lt(fv[i as int].0, #[trigger] fv[j].0) by {
                    if j != best {
                        lemma_lex_trans(text_bytes(fv[i as int].0), text_bytes(fv[best as int].0), text_bytes(fv[j].0));
                    }
                }
            }
            best = i;
        } else {
            proof {
                lemma_key_total(fv[i as int].0, fv[best as int].0);
            }
        }
        i = i + 1;
    }
    proof {
        let m = fields_map(fv);
        let k = fv[best as int].0;
        assert(has_key(fv, k));
        assert forall|j: Seq<char>| #[trigger] m.contains_key(j) && j != k implies key_lt(k, j) by {
            let t = key_index(fv, j);
            assert(fv[t].0 == j);
        }
    }
    best
}

/// The values of the fields in ascending key order, concatenated.
pub fn canonical_values(f: &Fields) -> (r: Vec<u8>)
    requires
        keys_distinct(fields_view(f@)),
    ensures
        r@ == canonical_content(fields_map(fields_view(f@))),
{
    let mut rem: Fields = Vec::new();
    let mut i: usize = 0;
    while i < f.len()
        invariant
            i <= f@.len(),
            rem@.len() == i,
            forall|j: int| 0 <= j < i ==> (#[trigger] rem@[j]).0@ == f@[j].0@ && rem@[j].1@ == f@[j].1@,
        decreases f@.len() - i,
    {
        rem.push((f[i].0.clone(), f[i].1.clone()));
        i = i + 1;
    }
    assert(fields_view(rem@) =~= fields_view(f@));
    let ghost m0 = fields_map(fields_view(f@));
    proof {
        lemma_fields_dom(fields_view(f@));
    }
    let mut out: Vec<u8> = Vec::new();
    while rem.len() > 0
        invariant
            keys_distinct(fields_view(rem@)),
            canonical_content(m0) == out@ + canonical_n(fields_map(fields_view(rem@)), rem@.len() as nat),
        decreases rem@.len(),
    {
        let ghost rv = fields_view(rem@);
        let ghost m = fields_map(rv);
        let t = min_key_index(&rem);
        let ghost k = rv[t as int].0;
        proof {
            lemma_fields_remove(rv, t as int);
            let c = choose|c: Seq<char>| is_min_key(m, c);
            assert(is_min_key(m, c));
            if c != k {
                lemma_key_total(c, k);
            }
            assert(c == k);
            assert(rv.remove(t as int) =~= fields_view(rem@.remove(t as int)));
        }
        let ghost prev_out = out@;
        push_all(&mut out, rem[t].1.as_str().as_bytes());
        rem.remove(t);
        proof {
            let rest = canonical_n(m.remove(k), (rv.len() - 1) as nat);
            assert(canonical_n(m, rv.len() as nat) == text_bytes(m[k]) + rest);
            assert(fields_map(fields_view(rem@)) == m.remove(k));
            assert(prev_out + (text_bytes(m[k]) + rest) =~= out@ + rest);
        }
    }
    assert(canonical_n(fields_map(fields_view(rem@)), 0) =~= Seq::<u8>::empty());
    assert(out@ + Seq::<u8>::empty() =~= out@);
    out
}

pub open spec fn token_view(t: Option<String>) -> Option<Seq<char>> {
    match t {
        Some(s) => Some(s@),
        None => None,
    }
}

/// The fields of a request once the access key, and a non-empty security
/// token, have joined them.
pub open spec fn fields_to_sign(
    m: Map<Seq<char>, Seq<char>>,
    access_key: Seq<char>,
    token: Option<Seq<char>>,
) -> Map<Seq<char>, Seq<char>> {
    let m1 = m.insert("AccessKey"@, access_key);
    match token {
        Some(t) => if t.len() > 0 {
            m1.insert("SecurityToken"@, t)
        } else {
            m1
        },
        None => m1,
    }
}

/// The signature of a request with fields `m` and body `body`.
pub open spec fn signature_of(m: Map<Seq<char>, Seq<char>>, body: Seq<u8>, secret: Seq<char>) -> Seq<
    char,
> {
    base64_of(hmac_sha1_of(text_bytes(secret), canonical_content(m) + body))
}

/// Signs a command with the given credentials.
pub fn add_signature(cmd: RemotingCommand, credentials: &Credentials) -> (r: RemotingCommand)
    requires
        keys_distinct(fields_view(cmd.header.ext_fields@)),
    ensures
        keys_distinct(fields_view(r.header.ext_fields@)),
        ({
            let m1 = fields_to_sign(
                fields_map(fields_view(cmd.header.ext_fields@)),
                credentials.access_key@,
                token_view(credentials.security_token),
            );
            fields_map(fields_view(r.header.ext_fields@)) == m1.insert(
                "Signature"@,
                signature_of(m1, cmd.body@, credentials.secret_key@),
            )
        }),
        r.body@ == cmd.body@,
        r.header.code == cmd.header.code,
        r.header.language == cmd.header.language,
        r.header.version == cmd.header.version,
        r.header.opaque == cmd.header.opaque,
        r.header.flag == cmd.header.flag,
        r.header.remark@ == cmd.header.remark@,
{
    let mut cmd = cmd;
    insert_field(&mut cmd.header.ext_fields, "AccessKey".to_owned(), credentials.access_key.clone());
    match &credentials.security_token {
        Some(t) => {
            if !t.as_str().is_empty() {
                insert_field(&mut cmd.header.ext_fields, "SecurityToken".to_owned(), t.clone());
            }
        },
        None => {},
    }
    let mut content = canonical_values(&cmd.header.ext_fields);
    push_all(&mut content, cmd.body.as_slice());
    let sig = calculate_signature(content.as_slice(), credentials.secret_key.as_str().as_bytes());
    insert_field(&mut cmd.header.ext_fields, "Signature".to_owned(), sig);
    cmd
}

/// Signature determinism: requests with the same fields, whatever order
/// they were inserted in, and the same body, signed with the same
/// credentials, carry the same signature.
pub proof fn lemma_signature_deterministic(
    f1: Seq<(Seq<char>, Seq<char>)>,
    f2: Seq<(Seq<char>, Seq<char>)>,
    body: Seq<u8>,
    access_key: Seq<char>,
    token: Option<Seq<char>>,
    secret: Seq<char>,
)
    requires
        keys_distinct(f1),
        keys_distinct(f2),
        fields_map(f1) == fields_map(f2),
    ensures
        signature_of(fields_to_sign(fields_map(f1), access_key, token), body, secret)
            == signature_of(fields_to_sign(fields_map(f2), access_key, token), body, secret),
{
}

} // verus!
