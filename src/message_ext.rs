//! Messages as a broker returns them from a pull: a list of stored records.
use crate::fields::{fields_map, fields_view, get_field, insert_all, Fields};
use crate::message::{parse_items, Message};
use crate::protocol::{utf8_text, DecodeError};
use crate::wire::{copy_range, get_be16, get_be32, get_be64, read_be16, read_be32, read_be64};
use vstd::prelude::*;
use vstd::string::StringExecFns;
use vstd::utf8::{decode_utf8, valid_utf8};

verus! {

/// An IPv4 host and port.
#[derive(Debug, Clone, PartialEq, Eq)]
pub struct HostAddress {
    pub ip: Vec<u8>,
    pub port: u16,
}

/// A message as stored by a broker.
#[derive(Debug, Clone)]
pub struct MessageExt {
    pub message: Message,
    pub queue_id: i32,
    pub store_size: i32,
    pub queue_offset: i64,
    pub sys_flag: i32,
    pub born_host: HostAddress,
    pub born_timestamp: i64,
    pub store_host: HostAddress,
    pub store_timestamp: i64,
    pub msg_id: String,
    pub commit_log_offset: i64,
    pub body_crc: i32,
    pub reconsume_times: i32,
    pub prepared_transaction_offset: i64,
}

pub open spec fn hex_char(d: int) -> char {
    if d < 10 {
        crate::text::digit_char(d)
    } else if d == 10 {
        'a'
    } else if d == 11 {
        'b'
    } else if d == 12 {
        'c'
    } else if d == 13 {
        'd'
    } else if d == 14 {
        'e'
    } else {
        'f'
    }
}

/// Lowercase hexadecimal text of a byte string, two digits per byte.
pub open spec fn hex_text(b: Seq<u8>) -> Seq<char>
    decreases b.len(),
{
    if b.len() == 0 {
        Seq::empty()
    } else {
        hex_text(b.drop_last()) + seq![hex_char(b.last() as int / 16), hex_char(b.last() as int % 16)]
    }
}

fn hex_digit_str(d: u8) -> (r: &'static str)
    requires
        d < 16,
    ensures
        r@ == seq![hex_char(d as int)],
{
    if d < 10 {
        return crate::text::digit_text(d as u64);
    }
    if d == 10 {
        proof { reveal_strlit("a"); }
        "a"
    } else if d == 11 {
        proof { reveal_strlit("b"); }
        "b"
    } else if d == 12 {
        proof { reveal_strlit("c"); }
        "c"
    } else if d == 13 {
        proof { reveal_strlit("d"); }
        "d"
    } else if d == 14 {
        proof { reveal_strlit("e"); }
        "e"
    } else {
        proof { reveal_strlit("f"); }
        "f"
    }
}

/// The lowercase hexadecimal text of `b`.
pub fn hex_string(b: &[u8]) -> (r: String)
    ensures
        r@ == hex_text(b@),
{
    let mut s = String::new();
    let mut i: usize = 0;
    while i < b.len()
        invariant
            i <= b@.len(),
            s@ == hex_text(b@.take(i as int)),
        decreases b@.len() - i,
    {
        s.append(hex_digit_str(b[i] / 16));
        s.append(hex_digit_str(b[i] % 16));
        assert(b@.take(i + 1).drop_last() =~= b@.take(i as int));
        assert(s@ =~= hex_text(b@.take(i + 1)));
        i = i + 1;
    }
    assert(b@.take(i as int) =~= b@);
    s
}

/// Body length of the record at `p` (a negative length counts as none).
pub open spec fn body_len_at(b: Seq<u8>, p: int) -> int {
    let n = read_be32(b.subrange(p + 84, b.len() as int)) as i32;
    if n > 0 {
        n as int
    } else {
        0
    }
}

pub open spec fn topic_len_at(b: Seq<u8>, p: int) -> int {
    b[p + 88 + body_len_at(b, p)] as int
}

pub open spec fn props_len_at(b: Seq<u8>, p: int) -> int {
    let n = read_be16(b.subrange(p + 89 + body_len_at(b, p) + topic_len_at(b, p), b.len() as int)) as i16;
    if n > 0 {
        n as int
    } else {
        0
    }
}

pub open spec fn topic_bytes_at(b: Seq<u8>, p: int) -> Seq<u8> {
    b.subrange(p + 89 + body_len_at(b, p), p + 89 + body_len_at(b, p) + topic_len_at(b, p))
}

pub open spec fn props_bytes_at(b: Seq<u8>, p: int) -> Seq<u8> {
    let start = p + 91 + body_len_at(b, p) + topic_len_at(b, p);
    b.subrange(start, start + props_len_at(b, p))
}

/// The length of the record at `p`, or why it cannot be read.
pub open spec fn record_len(b: Seq<u8>, p: int) -> Result<int, DecodeError> {
    if b.len() < p + 88 {
        Err(DecodeError::Truncated)
    } else if b.len() < p + 89 + body_len_at(b, p) {
        Err(DecodeError::Truncated)
    } else if b.len() < p + 91 + body_len_at(b, p) + topic_len_at(b, p) {
        Err(DecodeError::Truncated)
    } else if b.len() < p + 91 + body_len_at(b, p) + topic_len_at(b, p) + props_len_at(b, p) {
        Err(DecodeError::Truncated)
    } else if !valid_utf8(topic_bytes_at(b, p)) || !valid_utf8(props_bytes_at(b, p)) {
        Err(DecodeError::BadUtf8)
    } else {
        Ok(91 + body_len_at(b, p) + topic_len_at(b, p) + props_len_at(b, p))
    }
}

/// The starts of the records from `p` to the end of `b`.
pub open spec fn record_starts(b: Seq<u8>, p: int) -> Result<Seq<int>, DecodeError>
    decreases b.len() - p,
{
    if p < 0 || p >= b.len() {
        Ok(Seq::empty())
    } else {
        match record_len(b, p) {
            Err(e) => Err(e),
            Ok(n) => if n <= 0 {
                Err(DecodeError::Truncated)
            } else {
                match record_starts(b, p + n) {
                    Ok(s) => Ok(seq![p] + s),
                    Err(e) => Err(e),
                }
            },
        }
    }
}

pub open spec fn i32_at(b: Seq<u8>, p: int) -> i32 {
    read_be32(b.subrange(p, b.len() as int)) as i32
}

pub open spec fn i64_at(b: Seq<u8>, p: int) -> i64 {
    read_be64(b.subrange(p, b.len() as int)) as i64
}

/// `m` is what the record at `p` holds.
pub open spec fn record_describes(m: MessageExt, b: Seq<u8>, p: int) -> bool {
    let props = insert_all(parse_items(props_bytes_at(b, p)));
    let uniq = fields_map(props);
    &&& m.store_size == i32_at(b, p)
    &&& m.body_crc == i32_at(b, p + 8)
    &&& m.queue_id == i32_at(b, p + 12)
    &&& m.message.flag == i32_at(b, p + 16)
    &&& m.queue_offset == i64_at(b, p + 20)
    &&& m.commit_log_offset == i64_at(b, p + 28)
    &&& m.sys_flag == i32_at(b, p + 36)
    &&& m.born_timestamp == i64_at(b, p + 40)
    &&& m.born_host.ip@ == b.subrange(p + 48, p + 52)
    &&& m.born_host.port == i32_at(b, p + 52) as u16
    &&& m.store_timestamp == i64_at(b, p + 56)
    &&& m.store_host.ip@ == b.subrange(p + 64, p + 68)
    &&& m.store_host.port == i32_at(b, p + 68) as u16
    &&& m.reconsume_times == i32_at(b, p + 72)
    &&& m.prepared_transaction_offset == i64_at(b, p + 76)
    &&& m.message.body@ == b.subrange(p + 88, p + 88 + body_len_at(b, p))
    &&& m.message.topic@ == decode_utf8(topic_bytes_at(b, p))
    &&& fields_view(m.message.properties@) == props
    &&& m.message.sys_flag == 0
    &&& !m.message.batch
    &&& m.message.queue.is_none()
    &&& m.message.transaction_id@.len() == 0
    &&& m.msg_id@ == if uniq.contains_key("UNIQ_KEY"@) && uniq["UNIQ_KEY"@].len() > 0 {
        uniq["UNIQ_KEY"@]
    } else {
        hex_text(b.subrange(p + 64, p + 72) + b.subrange(p + 28, p + 36))
    }
}

fn decode_record(input: &[u8], p: usize) -> (r: Result<(MessageExt, usize), DecodeError>)
    requires
        p < input@.len(),
    ensures
        match record_len(input@, p as int) {
            Err(e) => r == Err::<(MessageExt, usize), DecodeError>(e),
            Ok(n) => r.is_ok() && r.unwrap().1 == n && record_describes(r.unwrap().0, input@, p as int),
        },
{
    let ghost b = input@;
    let n = input.len();
    if n - p < 88 {
        return Err(DecodeError::Truncated);
    }
    let store_size = get_be32(input, p) as i32;
    let body_crc = get_be32(input, p + 8) as i32;
    let queue_id = get_be32(input, p + 12) as i32;
    let flag = get_be32(input, p + 16) as i32;
    let queue_offset = get_be64(input, p + 20) as i64;
    let physic_offset = get_be64(input, p + 28) as i64;
    let sys_flag = get_be32(input, p + 36) as i32;
    let born_timestamp = get_be64(input, p + 40) as i64;
    let born_ip = copy_range(input, p + 48, p + 52);
    let born_port = get_be32(input, p + 52) as i32;
    let store_timestamp = get_be64(input, p + 56) as i64;
    let store_ip = copy_range(input, p + 64, p + 68);
    let store_port = get_be32(input, p + 68) as i32;
    let reconsume_times = get_be32(input, p + 72) as i32;
    let prepared_transaction_offset = get_be64(input, p + 76) as i64;
    let raw_body_len = get_be32(input, p + 84) as i32;
    let body_len: usize = if raw_body_len > 0 { raw_body_len as usize } else { 0 };
    assert(body_len == body_len_at(b, p as int));
    if n - p - 88 < body_len + 1 {
        return Err(DecodeError::Truncated);
    }
    let body = copy_range(input, p + 88, p + 88 + body_len);
    let topic_len = input[p + 88 + body_len] as usize;
    let ts = p + 89 + body_len;
    if n - ts < topic_len + 2 {
        return Err(DecodeError::Truncated);
    }
    let raw_props_len = get_be16(input, ts + topic_len) as i16;
    let props_len: usize = if raw_props_len > 0 { raw_props_len as usize } else { 0 };
    let ps = ts + topic_len + 2;
    assert(props_len == props_len_at(b, p as int));
    if n - ps < props_len {
        return Err(DecodeError::Truncated);
    }
    let topic_bytes = copy_range(input, ts, ts + topic_len);
    let props_bytes = copy_range(input, ps, ps + props_len);
    let topic = match utf8_text(topic_bytes) {
        Some(t) => t,
        None => {
            return Err(DecodeError::BadUtf8);
        },
    };
    let props_text = match utf8_text(props_bytes) {
        Some(t) => t,
        None => {
            return Err(DecodeError::BadUtf8);
        },
    };
    proof {
        vstd::utf8::decode_utf8_encode_utf8(props_bytes_at(b, p as int));
    }
    let properties: Fields = Message::parse_properties(props_text.as_str());
    let message = Message {
        topic,
        flag,
        sys_flag: 0,
        properties,
        body,
        transaction_id: String::new(),
        batch: false,
        queue: None,
    };
    let msg_id = match message.unique_key() {
        Some(key) => key.to_owned(),
        None => {
            let mut id_bytes = copy_range(input, p + 64, p + 72);
            let offset_bytes = copy_range(input, p + 28, p + 36);
            crate::wire::push_all(&mut id_bytes, offset_bytes.as_slice());
            hex_string(id_bytes.as_slice())
        },
    };
    let ext = MessageExt {
        message,
        queue_id,
        store_size,
        queue_offset,
        sys_flag,
        born_host: HostAddress { ip: born_ip, port: born_port as u16 },
        born_timestamp,
        store_host: HostAddress { ip: store_ip, port: store_port as u16 },
        store_timestamp,
        msg_id,
        commit_log_offset: physic_offset,
        body_crc,
        reconsume_times,
        prepared_transaction_offset,
    };
    Ok((ext, ps + props_len - p))
}

impl MessageExt {
    /// The records of a pull response body, in order.
    pub fn decode(input: &[u8]) -> (r: Result<Vec<MessageExt>, DecodeError>)
        ensures
            match record_starts(input@, 0) {
                Err(e) => r == Err::<Vec<MessageExt>, DecodeError>(e),
                Ok(starts) => r.is_ok() && r.unwrap()@.len() == starts.len() && forall|i: int|
                    0 <= i < starts.len() ==> record_describes(#[trigger] r.unwrap()@[i], input@, starts[i]),
            },
    {
        let ghost b = input@;
        let ghost mut acc: Seq<int> = Seq::empty();
        let mut msgs: Vec<MessageExt> = Vec::new();
        let mut p: usize = 0;
        assert(acc + Seq::<int>::empty() =~= acc);
        while p < input.len()
            invariant
                p <= input@.len(),
                b == input@,
                record_starts(b, 0) == match record_starts(b, p as int) {
                    Ok(s) => Ok(acc + s),
                    Err(e) => Err(e),
                },
                msgs@.len() == acc.len(),
                forall|i: int| 0 <= i < acc.len() ==> record_describes(#[trigger] msgs@[i], b, acc[i]),
            decreases input@.len() - p,
        {
            match decode_record(input, p) {
                Err(e) => {
                    return Err(e);
                },
                Ok((m, n)) => {
                    proof {
                        match record_starts(b, p + n) {
                            Ok(s) => {
                                assert(acc + (seq![p as int] + s) =~= acc.push(p as int) + s);
                            },
                            Err(_) => {},
                        }
                    }
                    msgs.push(m);
                    proof {
                        acc = acc.push(p as int);
                    }
                    p = p + n;
                }
            }
        }
        assert(record_starts(b, p as int) == Ok::<Seq<int>, DecodeError>(Seq::empty()));
        assert(acc + Seq::<int>::empty() =~= acc);
        Ok(msgs)
    }
}

} // verus!
