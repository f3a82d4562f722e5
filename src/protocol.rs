//! The command data model and its wire encodings: the compact header codec
//! and the length-prefixed frame that carries a header of either codec.
use crate::error::Error;
use crate::fields::{
    fields_map, fields_view, insert_all, lemma_insert_all_distinct, insert_field, keys_distinct, lemma_insert_all_distinct_keys, Fields,
};
use crate::wire::{
    lemma_be16_roundtrip, lemma_be32_roundtrip, lemma_i16_cast, lemma_i32_cast, lemma_read16_prefix, lemma_read_prefix,
    be16, be32, copy_range, get_be16, get_be32, push_all, push_be16, push_be32, read_be16,
    read_be32,
};
use vstd::prelude::*;
use vstd::utf8::*;

verus! {

broadcast use {encode_utf8_decode_utf8, encode_utf8_valid_utf8};

/// The client implementation that sent a command.
#[allow(non_camel_case_types)]
#[derive(Debug, Clone, Copy, PartialEq, Eq, Structural)]
pub enum LanguageCode {
    JAVA,
    CPP,
    DOTNET,
    PYTHON,
    DELPHI,
    ERLANG,
    RUBY,
    OTHER,
    HTTP,
    GO,
    PHP,
    OMS,
}

impl LanguageCode {
    pub open spec fn ordinal(self) -> u8 {
        match self {
            LanguageCode::JAVA => 0,
            LanguageCode::CPP => 1,
            LanguageCode::DOTNET => 2,
            LanguageCode::PYTHON => 3,
            LanguageCode::DELPHI => 4,
            LanguageCode::ERLANG => 5,
            LanguageCode::RUBY => 6,
            LanguageCode::OTHER => 7,
            LanguageCode::HTTP => 8,
            LanguageCode::GO => 9,
            LanguageCode::PHP => 10,
            LanguageCode::OMS => 11,
        }
    }

    pub open spec fn of_ordinal(b: u8) -> Option<LanguageCode> {
        if b == 0 {
            Some(LanguageCode::JAVA)
        } else if b == 1 {
            Some(LanguageCode::CPP)
        } else if b == 2 {
            Some(LanguageCode::DOTNET)
        } else if b == 3 {
            Some(LanguageCode::PYTHON)
        } else if b == 4 {
            Some(LanguageCode::DELPHI)
        } else if b == 5 {
            Some(LanguageCode::ERLANG)
        } else if b == 6 {
            Some(LanguageCode::RUBY)
        } else if b == 7 {
            Some(LanguageCode::OTHER)
        } else if b == 8 {
            Some(LanguageCode::HTTP)
        } else if b == 9 {
            Some(LanguageCode::GO)
        } else if b == 10 {
            Some(LanguageCode::PHP)
        } else if b == 11 {
            Some(LanguageCode::OMS)
        } else {
            None
        }
    }

    pub fn to_u8(&self) -> (r: u8)
        ensures
            r == self.ordinal(),
    {
        match self {
            LanguageCode::JAVA => 0,
            LanguageCode::CPP => 1,
            LanguageCode::DOTNET => 2,
            LanguageCode::PYTHON => 3,
            LanguageCode::DELPHI => 4,
            LanguageCode::ERLANG => 5,
            LanguageCode::RUBY => 6,
            LanguageCode::OTHER => 7,
            LanguageCode::HTTP => 8,
            LanguageCode::GO => 9,
            LanguageCode::PHP => 10,
            LanguageCode::OMS => 11,
        }
    }

    pub fn from_u8(b: u8) -> (r: Option<LanguageCode>)
        ensures
            r == LanguageCode::of_ordinal(b),
    {
        match b {
            0 => Some(LanguageCode::JAVA),
            1 => Some(LanguageCode::CPP),
            2 => Some(LanguageCode::DOTNET),
            3 => Some(LanguageCode::PYTHON),
            4 => Some(LanguageCode::DELPHI),
            5 => Some(LanguageCode::ERLANG),
            6 => Some(LanguageCode::RUBY),
            7 => Some(LanguageCode::OTHER),
            8 => Some(LanguageCode::HTTP),
            9 => Some(LanguageCode::GO),
            10 => Some(LanguageCode::PHP),
            11 => Some(LanguageCode::OMS),
            _ => None,
        }
    }
}

pub proof fn lemma_language_ordinal(l: LanguageCode)
    ensures
        LanguageCode::of_ordinal(l.ordinal()) == Some(l),
{
}

/// Which codec encodes the header bytes of a frame.
#[derive(Debug, Clone, Copy, PartialEq, Eq, Structural)]
pub enum HeaderCodecType {
    Json,
    RocketMQ,
}

impl HeaderCodecType {
    pub open spec fn tag(self) -> u8 {
        match self {
            HeaderCodecType::Json => 0,
            HeaderCodecType::RocketMQ => 1,
        }
    }

    pub open spec fn of_tag(b: u8) -> Option<HeaderCodecType> {
        if b == 0 {
            Some(HeaderCodecType::Json)
        } else if b == 1 {
            Some(HeaderCodecType::RocketMQ)
        } else {
            None
        }
    }

    pub fn to_u8(&self) -> (r: u8)
        ensures
            r == self.tag(),
    {
        match self {
            HeaderCodecType::Json => 0,
            HeaderCodecType::RocketMQ => 1,
        }
    }

    pub fn from_u8(b: u8) -> (r: Option<HeaderCodecType>)
        ensures
            r == HeaderCodecType::of_tag(b),
    {
        if b == 0 {
            Some(HeaderCodecType::Json)
        } else if b == 1 {
            Some(HeaderCodecType::RocketMQ)
        } else {
            None
        }
    }
}

/// Why bytes could not be decoded.
#[derive(Debug, Clone, Copy, PartialEq, Eq, Structural)]
pub enum DecodeError {
    /// The input ends before the data it announces.
    Truncated,
    /// A length field holds a negative or inconsistent value.
    BadLength,
    /// The language byte names no known language.
    BadLanguage,
    /// The codec byte names no known header codec.
    BadCodec,
    /// A text field is not valid UTF-8.
    BadUtf8,
}

/// The header of a command. `ext_fields` holds distinct keys.
#[derive(Debug, Clone, PartialEq)]
pub struct Header {
    pub code: i16,
    pub language: LanguageCode,
    pub version: i16,
    pub opaque: i32,
    pub flag: i32,
    pub remark: String,
    pub ext_fields: Fields,
}

pub struct HeaderView {
    pub code: i16,
    pub language: LanguageCode,
    pub version: i16,
    pub opaque: i32,
    pub flag: i32,
    pub remark: Seq<char>,
    pub ext_fields: Seq<(Seq<char>, Seq<char>)>,
}

impl View for Header {
    type V = HeaderView;

    open spec fn view(&self) -> HeaderView {
        HeaderView {
            code: self.code,
            language: self.language,
            version: self.version,
            opaque: self.opaque,
            flag: self.flag,
            remark: self.remark@,
            ext_fields: fields_view(self.ext_fields@),
        }
    }
}

pub const I16_LIMIT: u64 = 0x8000;

pub const I32_LIMIT: u64 = 0x8000_0000;

/// The bytes of a text field.
pub open spec fn text_bytes(s: Seq<char>) -> Seq<u8> {
    encode_utf8(s)
}

/// One extension field: key length (i16), key, value length (i32), value.
pub open spec fn entry_bytes(e: (Seq<char>, Seq<char>)) -> Seq<u8> {
    be16(text_bytes(e.0).len() as u16) + text_bytes(e.0) + be32(text_bytes(e.1).len() as u32)
        + text_bytes(e.1)
}

pub open spec fn entries_bytes(f: Seq<(Seq<char>, Seq<char>)>) -> Seq<u8>
    decreases f.len(),
{
    if f.len() == 0 {
        Seq::empty()
    } else {
        entry_bytes(f[0]) + entries_bytes(f.skip(1))
    }
}

pub open spec fn entry_fits(e: (Seq<char>, Seq<char>)) -> bool {
    text_bytes(e.0).len() < I16_LIMIT && text_bytes(e.1).len() < I32_LIMIT
}

/// Every length of the header fits its field on the wire.
pub open spec fn header_fits(h: HeaderView) -> bool {
    &&& text_bytes(h.remark).len() < I32_LIMIT
    &&& forall|i: int| 0 <= i < h.ext_fields.len() ==> entry_fits(#[trigger] h.ext_fields[i])
    &&& entries_bytes(h.ext_fields).len() < I32_LIMIT
}

/// The compact encoding of a header.
pub open spec fn compact_header_bytes(h: HeaderView) -> Seq<u8> {
    be16(h.code as u16) + seq![h.language.ordinal()] + be16(h.version as u16) + be32(
        h.opaque as u32,
    ) + be32(h.flag as u32) + be32(text_bytes(h.remark).len() as u32) + text_bytes(h.remark)
        + be32(entries_bytes(h.ext_fields).len() as u32) + entries_bytes(h.ext_fields)
}

/// Decoding of an extension section that is exactly `s`.
pub open spec fn parse_entries(s: Seq<u8>) -> Result<Seq<(Seq<char>, Seq<char>)>, DecodeError>
    decreases s.len(),
{
    if s.len() == 0 {
        Ok(Seq::empty())
    } else if s.len() < 2 {
        Err(DecodeError::Truncated)
    } else {
        let klen = read_be16(s) as int;
        if klen >= I16_LIMIT {
            Err(DecodeError::BadLength)
        } else if s.len() < 6 + klen {
            Err(DecodeError::Truncated)
        } else {
            let vlen = read_be32(s.subrange(2 + klen, s.len() as int)) as int;
            if vlen >= I32_LIMIT {
                Err(DecodeError::BadLength)
            } else if s.len() < 6 + klen + vlen {
                Err(DecodeError::Truncated)
            } else {
                let kb = s.subrange(2, 2 + klen);
                let vb = s.subrange(6 + klen, 6 + klen + vlen);
                if !valid_utf8(kb) || !valid_utf8(vb) {
                    Err(DecodeError::BadUtf8)
                } else {
                    match parse_entries(s.subrange(6 + klen + vlen, s.len() as int)) {
                        Ok(rest) => Ok(seq![(decode_utf8(kb), decode_utf8(vb))] + rest),
                        Err(e) => Err(e),
                    }
                }
            }
        }
    }
}

/// Decoding of a compact header; bytes after the extension section are not read.
pub open spec fn parse_compact_header(b: Seq<u8>) -> Result<HeaderView, DecodeError> {
    if b.len() < 17 {
        Err(DecodeError::Truncated)
    } else {
        let rlen = read_be32(b.subrange(13, b.len() as int)) as int;
        match LanguageCode::of_ordinal(b[2]) {
            None => Err(DecodeError::BadLanguage),
            Some(language) => {
                if rlen >= I32_LIMIT {
                    Err(DecodeError::BadLength)
                } else if b.len() < 21 + rlen {
                    Err(DecodeError::Truncated)
                } else {
                    let elen = read_be32(b.subrange(17 + rlen, b.len() as int)) as int;
                    let rb = b.subrange(17, 17 + rlen);
                    if elen >= I32_LIMIT {
                        Err(DecodeError::BadLength)
                    } else if b.len() < 21 + rlen + elen {
                        Err(DecodeError::Truncated)
                    } else if !valid_utf8(rb) {
                        Err(DecodeError::BadUtf8)
                    } else {
                        match parse_entries(b.subrange(21 + rlen, 21 + rlen + elen)) {
                            Ok(es) => Ok(
                                HeaderView {
                                    code: read_be16(b) as i16,
                                    language,
                                    version: read_be16(b.subrange(3, b.len() as int)) as i16,
                                    opaque: read_be32(b.subrange(5, b.len() as int)) as i32,
                                    flag: read_be32(b.subrange(9, b.len() as int)) as i32,
                                    remark: decode_utf8(rb),
                                    ext_fields: insert_all(es),
                                },
                            ),
                            Err(e) => Err(e),
                        }
                    }
                }
            },
        }
    }
}

pub proof fn lemma_entries_bytes_push(f: Seq<(Seq<char>, Seq<char>)>, e: (Seq<char>, Seq<char>))
    ensures
        entries_bytes(f.push(e)) == entries_bytes(f) + entry_bytes(e),
    decreases f.len(),
{
    if f.len() == 0 {
        let g = f.push(e);
        assert(g.skip(1) =~= Seq::<(Seq<char>, Seq<char>)>::empty());
        assert(g[0] == e);
        assert(entries_bytes(g.skip(1)) =~= Seq::<u8>::empty());
        assert(entries_bytes(f) =~= Seq::<u8>::empty());
        assert(entries_bytes(g) =~= entry_bytes(e));
    } else {
        lemma_entries_bytes_push(f.skip(1), e);
        assert(f.push(e).skip(1) =~= f.skip(1).push(e));
        assert(f.push(e)[0] == f[0]);
        assert(entries_bytes(f.push(e)) =~= entries_bytes(f) + entry_bytes(e));
    }
}

/// The bytes of a string.
fn text_to_bytes(s: &String) -> (r: &[u8])
    ensures
        r@ == text_bytes(s@),
{
    s.as_str().as_bytes()
}

/// The compact encoding of a list of extension fields, or `None` where a
/// key or value is too long for its length field.
pub fn encode_entries(f: &Fields) -> (r: Option<Vec<u8>>)
    ensures
        r.is_some() == (forall|i: int|
            0 <= i < f@.len() ==> entry_fits(#[trigger] fields_view(f@)[i])),
        r.is_some() ==> r.unwrap()@ == entries_bytes(fields_view(f@)),
{
    let ghost fv = fields_view(f@);
    let mut out: Vec<u8> = Vec::new();
    let mut i: usize = 0;
    while i < f.len()
        invariant
            i <= f@.len(),
            fv == fields_view(f@),
            out@ == entries_bytes(fv.take(i as int)),
            forall|j: int| 0 <= j < i ==> entry_fits(#[trigger] fv[j]),
        decreases f@.len() - i,
    {
        let kb = text_to_bytes(&f[i].0);
        let vb = text_to_bytes(&f[i].1);
        if kb.len() >= 0x8000 || vb.len() >= 0x8000_0000 {
            assert(!entry_fits(fv[i as int]));
            return None;
        }
        push_be16(&mut out, kb.len() as u16);
        push_all(&mut out, kb);
        push_be32(&mut out, vb.len() as u32);
        push_all(&mut out, vb);
        proof {
            lemma_entries_bytes_push(fv.take(i as int), fv[i as int]);
            assert(fv.take(i as int).push(fv[i as int]) =~= fv.take(i + 1));
            assert(out@ =~= entries_bytes(fv.take(i as int)) + entry_bytes(fv[i as int]));
        }
        i = i + 1;
    }
    assert(fv.take(i as int) =~= fv);
    Some(out)
}

/// The compact encoding of a header, or `None` where a length does not
/// fit its field.
pub fn encode_compact_header(h: &Header) -> (r: Option<Vec<u8>>)
    ensures
        r.is_some() == header_fits(h@),
        r.is_some() ==> r.unwrap()@ == compact_header_bytes(h@),
{
    let ext = match encode_entries(&h.ext_fields) {
        Some(ext) => ext,
        None => {
            return None;
        },
    };
    let rb = text_to_bytes(&h.remark);
    if rb.len() >= 0x8000_0000 || ext.len() >= 0x8000_0000 {
        return None;
    }
    let mut out: Vec<u8> = Vec::new();
    push_be16(&mut out, h.code as u16);
    out.push(h.language.to_u8());
    push_be16(&mut out, h.version as u16);
    push_be32(&mut out, h.opaque as u32);
    push_be32(&mut out, h.flag as u32);
    push_be32(&mut out, rb.len() as u32);
    push_all(&mut out, rb);
    push_be32(&mut out, ext.len() as u32);
    push_all(&mut out, ext.as_slice());
    assert(out@ =~= compact_header_bytes(h@));
    Some(out)
}

/// Relies on `String::from_utf8`: it succeeds exactly on valid UTF-8 and
/// then holds the text that the bytes encode.
#[verifier::external_body]
pub(crate) fn utf8_text(bytes: Vec<u8>) -> (r: Option<String>)
    ensures
        r.is_some() == valid_utf8(bytes@),
        r.is_some() ==> r.unwrap()@ == decode_utf8(bytes@),
{
    String::from_utf8(bytes).ok()
}

/// Decodes the extension section that lies in `b` from `start` to `end`.
pub fn decode_entries(b: &[u8], start: usize, end: usize) -> (r: Result<Fields, DecodeError>)
    requires
        start <= end <= b@.len(),
    ensures
        match parse_entries(b@.subrange(start as int, end as int)) {
            Ok(es) => r.is_ok() && fields_view(r.unwrap()@) == insert_all(es),
            Err(e) => r == Err::<Fields, DecodeError>(e),
        },
{
    let ghost whole = b@.subrange(start as int, end as int);
    let ghost mut acc: Seq<(Seq<char>, Seq<char>)> = Seq::empty();
    let mut out: Fields = Vec::new();
    let mut p: usize = start;
    assert(whole =~= b@.subrange(p as int, end as int));
    assert(acc + Seq::<(Seq<char>, Seq<char>)>::empty() =~= acc);
    while p < end
        invariant
            start <= p <= end <= b@.len(),
            whole == b@.subrange(start as int, end as int),
            parse_entries(whole) == match parse_entries(b@.subrange(p as int, end as int)) {
                Ok(rest) => Ok(acc + rest),
                Err(e) => Err(e),
            },
            fields_view(out@) == insert_all(acc),
            keys_distinct(fields_view(out@)),
        decreases end - p,
    {
        let ghost s = b@.subrange(p as int, end as int);
        if end - p < 2 {
            return Err(DecodeError::Truncated);
        }
        let klen = get_be16(b, p) as usize;
        assert(klen == read_be16(s) as int);
        if klen >= 0x8000 {
            return Err(DecodeError::BadLength);
        }
        if end - p < 6 + klen {
            return Err(DecodeError::Truncated);
        }
        let vlen = get_be32(b, p + 2 + klen) as usize;
        assert(s.subrange(2 + klen, s.len() as int) =~= b@.subrange(p + 2 + klen, end as int));
        if vlen >= 0x8000_0000 {
            return Err(DecodeError::BadLength);
        }
        if end - p < 6 + klen + vlen {
            return Err(DecodeError::Truncated);
        }
        let kbytes = copy_range(b, p + 2, p + 2 + klen);
        let vbytes = copy_range(b, p + 6 + klen, p + 6 + klen + vlen);
        assert(kbytes@ =~= s.subrange(2, 2 + klen));
        assert(vbytes@ =~= s.subrange(6 + klen, 6 + klen + vlen));
        let k = match utf8_text(kbytes) {
            Some(k) => k,
            None => {
                return Err(DecodeError::BadUtf8);
            },
        };
        let v = match utf8_text(vbytes) {
            Some(v) => v,
            None => {
                return Err(DecodeError::BadUtf8);
            },
        };
        let ghost e = (k@, v@);
        insert_field(&mut out, k, v);
        let next = p + 6 + klen + vlen;
        proof {
            let s2 = b@.subrange(next as int, end as int);
            assert(s.subrange(6 + klen + vlen, s.len() as int) =~= s2);
            match parse_entries(s2) {
                Ok(r2) => {
                    assert(acc + (seq![e] + r2) =~= acc.push(e) + r2);
                },
                Err(_) => {},
            }
            assert(acc.push(e).drop_last() =~= acc);
            acc = acc.push(e);
        }
        p = next;
    }
    assert(b@.subrange(p as int, end as int) =~= Seq::<u8>::empty());
    assert(acc + Seq::<(Seq<char>, Seq<char>)>::empty() =~= acc);
    Ok(out)
}

/// Decodes a compact header from the front of `b`.
pub fn decode_compact_header(b: &[u8]) -> (r: Result<Header, DecodeError>)
    ensures
        match parse_compact_header(b@) {
            Ok(h) => r.is_ok() && r.unwrap()@ == h,
            Err(e) => r == Err::<Header, DecodeError>(e),
        },
        r.is_ok() ==> keys_distinct(r.unwrap()@.ext_fields),
{
    let n = b.len();
    if n < 17 {
        return Err(DecodeError::Truncated);
    }
    let code = get_be16(b, 0) as i16;
    let lang_byte = b[2];
    let version = get_be16(b, 3) as i16;
    let opaque = get_be32(b, 5) as i32;
    let flag = get_be32(b, 9) as i32;
    let rlen = get_be32(b, 13) as usize;
    assert(b@.subrange(0, n as int) =~= b@);
    let language = match LanguageCode::from_u8(lang_byte) {
        Some(l) => l,
        None => {
            return Err(DecodeError::BadLanguage);
        },
    };
    if rlen >= 0x8000_0000 {
        return Err(DecodeError::BadLength);
    }
    if n < 21 + rlen {
        return Err(DecodeError::Truncated);
    }
    let elen = get_be32(b, 17 + rlen) as usize;
    if elen >= 0x8000_0000 {
        return Err(DecodeError::BadLength);
    }
    if n - (21 + rlen) < elen {
        return Err(DecodeError::Truncated);
    }
    let rbytes = copy_range(b, 17, 17 + rlen);
    let remark = match utf8_text(rbytes) {
        Some(s) => s,
        None => {
            return Err(DecodeError::BadUtf8);
        },
    };
    let ext_fields = match decode_entries(b, 21 + rlen, 21 + rlen + elen) {
        Ok(f) => f,
        Err(e) => {
            return Err(e);
        },
    };
    proof {
        match parse_entries(b@.subrange(21 + rlen, 21 + rlen + elen)) {
            Ok(es) => {
                lemma_insert_all_distinct_keys(es);
            },
            Err(_) => {},
        }
    }
    Ok(Header { code, language, version, opaque, flag, remark, ext_fields })
}

/// Encoding and decoding of a list of extension fields are inverse.
#[verifier::rlimit(50)]
pub proof fn lemma_entries_round_trip(f: Seq<(Seq<char>, Seq<char>)>)
    requires
        forall|i: int| 0 <= i < f.len() ==> entry_fits(#[trigger] f[i]),
    ensures
        parse_entries(entries_bytes(f)) == Ok::<Seq<(Seq<char>, Seq<char>)>, DecodeError>(f),
    decreases f.len(),
{
    if f.len() == 0 {
        assert(entries_bytes(f) =~= Seq::<u8>::empty());
        assert(f =~= Seq::<(Seq<char>, Seq<char>)>::empty());
    } else {
        let e = f[0];
        assert(entry_fits(f[0]));
        let kb = text_bytes(e.0);
        let vb = text_bytes(e.1);
        let klen = kb.len() as int;
        let vlen = vb.len() as int;
        let tail = f.skip(1);
        let rest = entries_bytes(tail);
        let s = entries_bytes(f);
        assert(s =~= be16(klen as u16) + (kb + be32(vlen as u32) + vb + rest));
        lemma_be16_roundtrip(klen as u16);
        lemma_read16_prefix(be16(klen as u16), kb + be32(vlen as u32) + vb + rest);
        assert(s.subrange(2 + klen, s.len() as int) =~= be32(vlen as u32) + (vb + rest));
        lemma_be32_roundtrip(vlen as u32);
        lemma_read_prefix(be32(vlen as u32), vb + rest);
        assert(s.subrange(2, 2 + klen) =~= kb);
        assert(s.subrange(6 + klen, 6 + klen + vlen) =~= vb);
        assert(s.subrange(6 + klen + vlen, s.len() as int) =~= rest);
        assert forall|i: int| 0 <= i < tail.len() implies entry_fits(#[trigger] tail[i]) by {
            assert(tail[i] == f[i + 1]);
        }
        lemma_entries_round_trip(tail);
        assert(seq![(decode_utf8(kb), decode_utf8(vb))] + tail =~= f);
    }
}

/// Encoding and decoding of a compact header are inverse.
pub proof fn lemma_compact_header_round_trip(h: HeaderView)
    requires
        header_fits(h),
        keys_distinct(h.ext_fields),
    ensures
        parse_compact_header(compact_header_bytes(h)) == Ok::<HeaderView, DecodeError>(h),
{
    let b = compact_header_bytes(h);
    let rb = text_bytes(h.remark);
    let eb = entries_bytes(h.ext_fields);
    let rl = rb.len() as int;
    let el = eb.len() as int;
    let c = be16(h.code as u16);
    let v = be16(h.version as u16);
    let o = be32(h.opaque as u32);
    let fl = be32(h.flag as u32);
    let r4 = be32(rl as u32);
    let e4 = be32(el as u32);
    lemma_be16_roundtrip(h.code as u16);
    lemma_be16_roundtrip(h.version as u16);
    lemma_be32_roundtrip(h.opaque as u32);
    lemma_be32_roundtrip(h.flag as u32);
    lemma_be32_roundtrip(rl as u32);
    lemma_be32_roundtrip(el as u32);
    assert(b.len() == 21 + rl + el);
    assert(b[0] == c[0] && b[1] == c[1]);
    assert(b[2] == h.language.ordinal());
    assert(b[3] == v[0] && b[4] == v[1]);
    assert(b[5] == o[0] && b[6] == o[1] && b[7] == o[2] && b[8] == o[3]);
    assert(b[9] == fl[0] && b[10] == fl[1] && b[11] == fl[2] && b[12] == fl[3]);
    assert(b[13] == r4[0] && b[14] == r4[1] && b[15] == r4[2] && b[16] == r4[3]);
    assert(b[17 + rl] == e4[0] && b[18 + rl] == e4[1] && b[19 + rl] == e4[2] && b[20 + rl]
        == e4[3]);
    assert(read_be16(b) == h.code as u16);
    assert(read_be16(b.subrange(3, b.len() as int)) == h.version as u16);
    assert(read_be32(b.subrange(5, b.len() as int)) == h.opaque as u32);
    assert(read_be32(b.subrange(9, b.len() as int)) == h.flag as u32);
    assert(read_be32(b.subrange(13, b.len() as int)) == rl as u32);
    assert(read_be32(b.subrange(17 + rl, b.len() as int)) == el as u32);
    lemma_i16_cast(h.code);
    lemma_i16_cast(h.version);
    lemma_i32_cast(h.opaque);
    lemma_i32_cast(h.flag);
    lemma_language_ordinal(h.language);
    assert(b.subrange(17, 17 + rl) =~= rb);
    assert(b.subrange(21 + rl, 21 + rl + el) =~= eb);
    lemma_entries_round_trip(h.ext_fields);
    lemma_insert_all_distinct(h.ext_fields);
}

/// The second word of a frame: codec tag in the top byte, header length below.
pub open spec fn pack_word(codec: u8, hlen: nat) -> u32 {
    ((codec as u32) << 24u32) | ((hlen as u32) & 0xff_ffffu32)
}

/// A frame: total length, packed codec and header length, header, body.
pub open spec fn frame_bytes(codec: u8, hb: Seq<u8>, body: Seq<u8>) -> Seq<u8> {
    be32((4 + hb.len() + body.len()) as u32) + be32(pack_word(codec, hb.len())) + hb + body
}

/// The header length fits 24 bits and the total length an i32.
pub open spec fn frame_fits(hb: Seq<u8>, body: Seq<u8>) -> bool {
    hb.len() < 0x100_0000 && 4 + hb.len() + body.len() < I32_LIMIT
}

pub struct FrameView {
    pub codec: HeaderCodecType,
    pub header: Seq<u8>,
    pub body: Seq<u8>,
    pub len: nat,
}

/// Decoding of the frame at the front of `b`.
pub open spec fn parse_frame(b: Seq<u8>) -> Result<FrameView, DecodeError> {
    if b.len() < 4 {
        Err(DecodeError::Truncated)
    } else {
        let total = read_be32(b) as int;
        if total >= I32_LIMIT || total < 4 {
            Err(DecodeError::BadLength)
        } else if b.len() < 4 + total {
            Err(DecodeError::Truncated)
        } else {
            let word = read_be32(b.subrange(4, b.len() as int));
            let hlen = (word & 0xff_ffffu32) as int;
            if hlen > total - 4 {
                Err(DecodeError::BadLength)
            } else {
                match HeaderCodecType::of_tag((word >> 24u32) as u8) {
                    None => Err(DecodeError::BadCodec),
                    Some(codec) => Ok(
                        FrameView {
                            codec,
                            header: b.subrange(8, 8 + hlen),
                            body: b.subrange(8 + hlen, 4 + total),
                            len: (4 + total) as nat,
                        },
                    ),
                }
            }
        }
    }
}

/// A frame decodes to what it was built from, whatever follows it.
pub proof fn lemma_frame_round_trip(
    codec: HeaderCodecType,
    hb: Seq<u8>,
    body: Seq<u8>,
    rest: Seq<u8>,
)
    requires
        frame_fits(hb, body),
    ensures
        parse_frame(frame_bytes(codec.tag(), hb, body) + rest) == Ok::<FrameView, DecodeError>(
            FrameView { codec, header: hb, body, len: 8 + hb.len() + body.len() },
        ),
{
    let f = frame_bytes(codec.tag(), hb, body);
    let b = f + rest;
    let total: int = 4 + hb.len() as int + body.len() as int;
    let word = pack_word(codec.tag(), hb.len());
    lemma_be32_roundtrip(total as u32);
    lemma_be32_roundtrip(word);
    assert(b =~= be32(total as u32) + (be32(word) + hb + body + rest));
    lemma_read_prefix(be32(total as u32), be32(word) + hb + body + rest);
    assert(b.subrange(4, b.len() as int) =~= be32(word) + (hb + body + rest));
    lemma_read_prefix(be32(word), hb + body + rest);
    let t = codec.tag();
    let hl = hb.len() as u32;
    assert(hl < 0x100_0000u32);
    assert((((t as u32) << 24u32) | (hl & 0xff_ffffu32)) & 0xff_ffffu32 == hl) by (bit_vector)
        requires
            hl < 0x100_0000u32,
    ;
    assert(((((t as u32) << 24u32) | (hl & 0xff_ffffu32)) >> 24u32) as u8 == t) by (bit_vector);
    assert(word == (((t as u32) << 24u32) | (hl & 0xff_ffffu32)));
    assert(read_be32(b) == total as u32);
    assert(read_be32(b.subrange(4, b.len() as int)) == word);
    assert(HeaderCodecType::of_tag(t) == Some(codec));
    assert((word & 0xff_ffffu32) as int == hb.len());
    assert(b.subrange(8, 8 + hb.len() as int) =~= hb);
    assert(b.subrange(8 + hb.len() as int, 4 + total as int) =~= body);
}

/// Every proper prefix of a frame is reported as truncated.
pub proof fn lemma_truncated_frame(codec: HeaderCodecType, hb: Seq<u8>, body: Seq<u8>, n: int)
    requires
        frame_fits(hb, body),
        0 <= n < frame_bytes(codec.tag(), hb, body).len(),
    ensures
        parse_frame(frame_bytes(codec.tag(), hb, body).take(n)) == Err::<FrameView, DecodeError>(
            DecodeError::Truncated,
        ),
{
    let f = frame_bytes(codec.tag(), hb, body);
    let total = 4 + hb.len() + body.len();
    lemma_be32_roundtrip(total as u32);
    if n >= 4 {
        let p = f.take(n);
        assert(p[0] == f[0] && p[1] == f[1] && p[2] == f[2] && p[3] == f[3]);
        assert(f[0] == be32(total as u32)[0] && f[1] == be32(total as u32)[1] && f[2] == be32(
            total as u32,
        )[2] && f[3] == be32(total as u32)[3]);
    }
}

/// A decoded frame: the codec, the raw header bytes, the body, and how many
/// input bytes the frame took.
#[derive(Debug, Clone)]
pub struct Frame {
    pub codec: HeaderCodecType,
    pub header: Vec<u8>,
    pub body: Vec<u8>,
    pub len: usize,
}

impl View for Frame {
    type V = FrameView;

    open spec fn view(&self) -> FrameView {
        FrameView { codec: self.codec, header: self.header@, body: self.body@, len: self.len as nat }
    }
}

/// Builds a frame around header bytes of the given codec and a body, or
/// `None` where the lengths do not fit their fields.
pub fn encode_frame(codec: HeaderCodecType, header: &[u8], body: &[u8]) -> (r: Option<Vec<u8>>)
    ensures
        r.is_some() == frame_fits(header@, body@),
        r.is_some() ==> r.unwrap()@ == frame_bytes(codec.tag(), header@, body@),
{
    if header.len() >= 0x100_0000 || body.len() >= 0x8000_0000 || 4 + header.len() + body.len()
        >= 0x8000_0000 {
        return None;
    }
    let hlen = header.len() as u32;
    let mut out: Vec<u8> = Vec::new();
    push_be32(&mut out, (4 + header.len() + body.len()) as u32);
    let word = ((codec.to_u8() as u32) << 24u32) | (hlen & 0xff_ffffu32);
    push_be32(&mut out, word);
    push_all(&mut out, header);
    push_all(&mut out, body);
    assert(out@ =~= frame_bytes(codec.tag(), header@, body@));
    Some(out)
}

/// Decodes the frame at the front of `input`.
pub fn decode_frame(input: &[u8]) -> (r: Result<Frame, DecodeError>)
    ensures
        match parse_frame(input@) {
            Ok(f) => r.is_ok() && r.unwrap()@ == f,
            Err(e) => r == Err::<Frame, DecodeError>(e),
        },
{
    let n = input.len();
    if n < 4 {
        return Err(DecodeError::Truncated);
    }
    assert(input@.subrange(0, n as int) =~= input@);
    let total = get_be32(input, 0) as usize;
    if total >= 0x8000_0000 || total < 4 {
        return Err(DecodeError::BadLength);
    }
    if n - 4 < total {
        return Err(DecodeError::Truncated);
    }
    let word = get_be32(input, 4);
    let hlen = (word & 0xff_ffffu32) as usize;
    if hlen > total - 4 {
        return Err(DecodeError::BadLength);
    }
    let codec = match HeaderCodecType::from_u8((word >> 24u32) as u8) {
        Some(c) => c,
        None => {
            return Err(DecodeError::BadCodec);
        },
    };
    let header = copy_range(input, 8, 8 + hlen);
    let body = copy_range(input, 8 + hlen, 4 + total);
    Ok(Frame { codec, header, body, len: 4 + total })
}

/// The bit of `flag` that marks a response.
pub const RESPONSE_TYPE: i32 = 1;

/// A command: a header and an opaque body.
#[derive(Debug, Clone, PartialEq)]
pub struct RemotingCommand {
    pub header: Header,
    pub body: Vec<u8>,
}

pub open spec fn is_response_flag(flag: i32) -> bool {
    flag & 1i32 == 1i32
}

impl RemotingCommand {
    /// A command from client implementation `OTHER` at protocol version 431.
    pub fn new(opaque: i32, code: i16, flag: i32, remark: String, ext_fields: Fields, body: Vec<
        u8,
    >) -> (r: RemotingCommand)
        ensures
            r.header@ == (HeaderView {
                code,
                language: LanguageCode::OTHER,
                version: 431,
                opaque,
                flag,
                remark: remark@,
                ext_fields: fields_view(ext_fields@),
            }),
            r.body@ == body@,
    {
        RemotingCommand {
            header: Header {
                code,
                language: LanguageCode::OTHER,
                version: 431,
                opaque,
                flag,
                remark,
                ext_fields,
            },
            body,
        }
    }

    /// A request with the given code whose extension fields encode `header`.
    pub fn with_header<H: crate::request::EncodeRequestHeader>(code: i16, header: H, body: Vec<u8>) -> (r:
        RemotingCommand)
        ensures
            r.header.code == code,
            r.header.opaque == 0,
            r.header.flag == 0,
            r.header.remark@.len() == 0,
            keys_distinct(r.header@.ext_fields),
            crate::fields::fields_map(r.header@.ext_fields) == header.spec_fields(),
            r.body@ == body@,
    {
        let ext_fields = header.encode();
        Self::new(0, code, 0, String::new(), ext_fields, body)
    }

    pub fn code(&self) -> (r: i16)
        ensures
            r == self.header.code,
    {
        self.header.code
    }

    pub fn is_response_type(&self) -> (r: bool)
        ensures
            r == is_response_flag(self.header.flag),
    {
        self.header.flag & RESPONSE_TYPE == RESPONSE_TYPE
    }

    pub fn mark_response_type(&mut self)
        ensures
            final(self).header.flag == old(self).header.flag | 1i32,
            is_response_flag(final(self).header.flag),
            final(self).header@ == (HeaderView { flag: final(self).header.flag, ..old(self).header@ }),
            final(self).body@ == old(self).body@,
    {
        let old_flag = self.header.flag;
        let f = old_flag | RESPONSE_TYPE;
        assert((old_flag | 1i32) & 1i32 == 1i32) by (bit_vector);
        self.header.flag = f;
    }

    /// The frame of this command with a compact header.
    pub fn encode_compact(&self) -> (r: Result<Vec<u8>, Error>)
        ensures
            r.is_ok() == (header_fits(self.header@) && frame_fits(
                compact_header_bytes(self.header@),
                self.body@,
            )),
            r.is_err() ==> r == Err::<Vec<u8>, Error>(Error::TooLarge),
            r.is_ok() ==> r.unwrap()@ == frame_bytes(
                HeaderCodecType::RocketMQ.tag(),
                compact_header_bytes(self.header@),
                self.body@,
            ),
    {
        let hb = match encode_compact_header(&self.header) {
            Some(hb) => hb,
            None => {
                return Err(Error::TooLarge);
            },
        };
        match encode_frame(HeaderCodecType::RocketMQ, hb.as_slice(), self.body.as_slice()) {
            Some(bytes) => Ok(bytes),
            None => Err(Error::TooLarge),
        }
    }

    /// Decodes a frame with a compact header from the front of `input`; a
    /// frame whose header is of the JSON codec is refused with `BadCodec`.
    pub fn decode_compact(input: &[u8]) -> (r: Result<(RemotingCommand, usize), DecodeError>)
        ensures
            match parse_frame(input@) {
                Err(e) => r == Err::<(RemotingCommand, usize), DecodeError>(e),
                Ok(f) => if f.codec != HeaderCodecType::RocketMQ {
                    r == Err::<(RemotingCommand, usize), DecodeError>(DecodeError::BadCodec)
                } else {
                    match parse_compact_header(f.header) {
                        Err(e) => r == Err::<(RemotingCommand, usize), DecodeError>(e),
                        Ok(h) => r.is_ok() && r.unwrap().0.header@ == h && r.unwrap().0.body@
                            == f.body && r.unwrap().1 == f.len,
                    }
                },
            },
    {
        let frame = match decode_frame(input) {
            Ok(f) => f,
            Err(e) => {
                return Err(e);
            },
        };
        match frame.codec {
            HeaderCodecType::Json => {
                return Err(DecodeError::BadCodec);
            },
            HeaderCodecType::RocketMQ => {},
        }
        let header = match decode_compact_header(frame.header.as_slice()) {
            Ok(h) => h,
            Err(e) => {
                return Err(e);
            },
        };
        Ok((RemotingCommand { header, body: frame.body }, frame.len))
    }
}

/// Round trip: a command framed with a compact header decodes to the same
/// header and body, whatever bytes follow the frame and whatever order its
/// extension fields were inserted in.
pub proof fn lemma_command_round_trip(h: HeaderView, body: Seq<u8>, rest: Seq<u8>)
    requires
        header_fits(h),
        keys_distinct(h.ext_fields),
        frame_fits(compact_header_bytes(h), body),
    ensures
        ({
            let bytes = frame_bytes(HeaderCodecType::RocketMQ.tag(), compact_header_bytes(h), body)
                + rest;
            &&& parse_frame(bytes) is Ok
            &&& parse_frame(bytes)->Ok_0.codec == HeaderCodecType::RocketMQ
            &&& parse_compact_header(parse_frame(bytes)->Ok_0.header) == Ok::<
                HeaderView,
                DecodeError,
            >(h)
            &&& parse_frame(bytes)->Ok_0.body == body
        }),
{
    lemma_frame_round_trip(HeaderCodecType::RocketMQ, compact_header_bytes(h), body, rest);
    lemma_compact_header_round_trip(h);
}

impl LanguageCode {
    /// The name of the language, as the JSON codec writes it.
    pub fn name(&self) -> (r: &'static str)
        ensures
            r@ == self.spec_name(),
    {
        match self {
            LanguageCode::JAVA => "JAVA",
            LanguageCode::CPP => "CPP",
            LanguageCode::DOTNET => "DOTNET",
            LanguageCode::PYTHON => "PYTHON",
            LanguageCode::DELPHI => "DELPHI",
            LanguageCode::ERLANG => "ERLANG",
            LanguageCode::RUBY => "RUBY",
            LanguageCode::OTHER => "OTHER",
            LanguageCode::HTTP => "HTTP",
            LanguageCode::GO => "GO",
            LanguageCode::PHP => "PHP",
            LanguageCode::OMS => "OMS",
        }
    }

    pub open spec fn spec_name(self) -> Seq<char> {
        match self {
            LanguageCode::JAVA => "JAVA"@,
            LanguageCode::CPP => "CPP"@,
            LanguageCode::DOTNET => "DOTNET"@,
            LanguageCode::PYTHON => "PYTHON"@,
            LanguageCode::DELPHI => "DELPHI"@,
            LanguageCode::ERLANG => "ERLANG"@,
            LanguageCode::RUBY => "RUBY"@,
            LanguageCode::OTHER => "OTHER"@,
            LanguageCode::HTTP => "HTTP"@,
            LanguageCode::GO => "GO"@,
            LanguageCode::PHP => "PHP"@,
            LanguageCode::OMS => "OMS"@,
        }
    }

    /// The language of a name; an unknown name is `OTHER`.
    pub fn from_name(s: &str) -> (r: LanguageCode)
        ensures
            r.spec_name() == s@ || (r == LanguageCode::OTHER && forall|l: LanguageCode|
                l != LanguageCode::OTHER ==> #[trigger] l.spec_name() != s@),
    {
        if crate::fields::text_eq(s, "JAVA") {
            return LanguageCode::JAVA;
        }
        if crate::fields::text_eq(s, "CPP") {
            return LanguageCode::CPP;
        }
        if crate::fields::text_eq(s, "DOTNET") {
            return LanguageCode::DOTNET;
        }
        if crate::fields::text_eq(s, "PYTHON") {
            return LanguageCode::PYTHON;
        }
        if crate::fields::text_eq(s, "DELPHI") {
            return LanguageCode::DELPHI;
        }
        if crate::fields::text_eq(s, "ERLANG") {
            return LanguageCode::ERLANG;
        }
        if crate::fields::text_eq(s, "RUBY") {
            return LanguageCode::RUBY;
        }
        if crate::fields::text_eq(s, "HTTP") {
            return LanguageCode::HTTP;
        }
        if crate::fields::text_eq(s, "GO") {
            return LanguageCode::GO;
        }
        if crate::fields::text_eq(s, "PHP") {
            return LanguageCode::PHP;
        }
        if crate::fields::text_eq(s, "OMS") {
            return LanguageCode::OMS;
        }
        assert forall|l: LanguageCode| l != LanguageCode::OTHER implies #[trigger] l.spec_name() != s@ by {
            match l {
                _ => {},
            }
        }
        LanguageCode::OTHER
    }
}

/// The JSON header codec; its encoding is done where serde is at hand.
#[derive(Debug, PartialEq)]
pub struct JsonHeaderCodec;

impl JsonHeaderCodec {
    pub fn codec_type(&self) -> (r: HeaderCodecType)
        ensures
            r == HeaderCodecType::Json,
    {
        HeaderCodecType::Json
    }
}

/// The compact binary header codec.
#[derive(Debug, PartialEq)]
pub struct RocketMQHeaderCodec;

impl RocketMQHeaderCodec {
    pub fn codec_type(&self) -> (r: HeaderCodecType)
        ensures
            r == HeaderCodecType::RocketMQ,
    {
        HeaderCodecType::RocketMQ
    }

    pub fn encode(&self, header: &Header) -> (r: Option<Vec<u8>>)
        ensures
            r.is_some() == header_fits(header@),
            r.is_some() ==> r.unwrap()@ == compact_header_bytes(header@),
    {
        encode_compact_header(header)
    }

    pub fn decode(&self, buf: &[u8]) -> (r: Result<Header, DecodeError>)
        ensures
            match parse_compact_header(buf@) {
                Ok(h) => r.is_ok() && r.unwrap()@ == h,
                Err(e) => r == Err::<Header, DecodeError>(e),
            },
    {
        decode_compact_header(buf)
    }
}

/// Round trip, whatever the insertion order: two commands whose headers
/// differ only in the order their extension fields were inserted, framed
/// with compact headers, decode to headers that agree field for field and
/// whose extension fields are the same map, and to the same body.
pub proof fn lemma_round_trip_insertion_order(
    h1: HeaderView,
    h2: HeaderView,
    body: Seq<u8>,
)
    requires
        header_fits(h1),
        header_fits(h2),
        keys_distinct(h1.ext_fields),
        keys_distinct(h2.ext_fields),
        frame_fits(compact_header_bytes(h1), body),
        frame_fits(compact_header_bytes(h2), body),
        fields_map(h1.ext_fields) == fields_map(h2.ext_fields),
        h1 == (HeaderView { ext_fields: h1.ext_fields, ..h2 }),
    ensures
        ({
            let f1 = parse_frame(frame_bytes(HeaderCodecType::RocketMQ.tag(), compact_header_bytes(h1), body))->Ok_0;
            let f2 = parse_frame(frame_bytes(HeaderCodecType::RocketMQ.tag(), compact_header_bytes(h2), body))->Ok_0;
            let d1 = parse_compact_header(f1.header)->Ok_0;
            let d2 = parse_compact_header(f2.header)->Ok_0;
            &&& parse_compact_header(f1.header) is Ok
            &&& parse_compact_header(f2.header) is Ok
            &&& d1 == (HeaderView { ext_fields: d1.ext_fields, ..d2 })
            &&& fields_map(d1.ext_fields) == fields_map(d2.ext_fields)
            &&& f1.body == f2.body
        }),
{
    lemma_command_round_trip(h1, body, Seq::empty());
    lemma_command_round_trip(h2, body, Seq::empty());
    let b1 = frame_bytes(HeaderCodecType::RocketMQ.tag(), compact_header_bytes(h1), body);
    let b2 = frame_bytes(HeaderCodecType::RocketMQ.tag(), compact_header_bytes(h2), body);
    assert(b1 + Seq::<u8>::empty() =~= b1);
    assert(b2 + Seq::<u8>::empty() =~= b2);
}

} // verus!
