//! Chunked file transfer: the file message bodies, the per-transfer state
//! machine with acknowledgement, timeout and cancellation, and the file
//! client that owns shares and transfers.
//!
//! File bytes are held in memory: an upload starts from the opened file's
//! contents, a download accumulates the received chunks; reading and writing
//! the disk happens outside the library.

use crate::cbor;
use crate::idset::IdSet;
use crate::message::{
    bytes_eq, clone_bytes, enc_uint_payload, enc_unit_payload, opt_bytes, parse_uint_payload,
    parse_unit_payload, read_uint_payload, read_unit_payload, write_uint_payload,
    write_unit_payload, Event, EventV, Message, MessageV, Service,
};
use vstd::prelude::*;

verus! {

/// Message of the file-transfer service.
#[derive(Debug, PartialEq)]
pub enum FileMessage {
    /// Ask for the peer's share list.
    List,
    /// The share list: file names and sizes.
    ListReply(Vec<(Vec<u8>, u64)>),
    /// Start a download: transfer id and file name.
    Get(u32, Vec<u8>),
    /// One chunk of data.
    Chunk(u32, Vec<u8>),
    /// Acknowledge one chunk.
    ChunkAck(u32),
}

/// Mathematical model of a file message.
pub enum FileMessageV {
    List,
    ListReply(Seq<(Seq<u8>, u64)>),
    Get(u32, Seq<u8>),
    Chunk(u32, Seq<u8>),
    ChunkAck(u32),
}

/// View of a share list.
pub open spec fn shares_view(v: Seq<(Vec<u8>, u64)>) -> Seq<(Seq<u8>, u64)> {
    v.map_values(|pr: (Vec<u8>, u64)| (pr.0@, pr.1))
}

impl View for FileMessage {
    type V = FileMessageV;

    open spec fn view(&self) -> FileMessageV {
        match self {
            FileMessage::List => FileMessageV::List,
            FileMessage::ListReply(l) => FileMessageV::ListReply(shares_view(l@)),
            FileMessage::Get(id, f) => FileMessageV::Get(*id, f@),
            FileMessage::Chunk(id, d) => FileMessageV::Chunk(*id, d@),
            FileMessage::ChunkAck(id) => FileMessageV::ChunkAck(*id),
        }
    }
}

pub open spec fn wf_file_message(m: FileMessageV) -> bool {
    match m {
        FileMessageV::List => true,
        FileMessageV::ListReply(l) => l.len() <= u64::MAX && forall|i: int|
            0 <= i < l.len() ==> (#[trigger] l[i]).0.len() <= u64::MAX,
        FileMessageV::Get(_, f) => f.len() <= u64::MAX,
        FileMessageV::Chunk(_, d) => d.len() <= u64::MAX,
        FileMessageV::ChunkAck(_) => true,
    }
}

pub open spec fn enc_share_items(l: Seq<(Seq<u8>, u64)>) -> Seq<u8>
    decreases l.len(),
{
    if l.len() == 0 {
        Seq::empty()
    } else {
        cbor::enc_array(2) + cbor::enc_str(3, l[0].0) + cbor::enc_uint(l[0].1) + enc_share_items(
            l.drop_first(),
        )
    }
}

/// Encoded share list: an array of (name, size) pairs.
pub open spec fn enc_share_list(l: Seq<(Seq<u8>, u64)>) -> Seq<u8> {
    cbor::enc_array(l.len() as u64) + enc_share_items(l)
}

pub open spec fn parse_share_items(s: Seq<u8>, pos: int, n: nat, acc: Seq<(Seq<u8>, u64)>) -> Option<
    (Seq<(Seq<u8>, u64)>, int),
>
    decreases n,
{
    if n == 0 {
        Some((acc, pos))
    } else {
        match cbor::parse_array(s, pos) {
            None => None,
            Some((k, p0)) => if k != 2 {
                None
            } else {
                match cbor::parse_str(s, p0, 3) {
                    None => None,
                    Some((name, p1)) => {
                        match cbor::parse_uint(s, p1) {
                            None => None,
                            Some((size, p2)) => parse_share_items(
                                s,
                                p2,
                                (n - 1) as nat,
                                acc.push((name, size)),
                            ),
                        }
                    },
                }
            },
        }
    }
}

pub open spec fn parse_share_list(s: Seq<u8>, pos: int) -> Option<(Seq<(Seq<u8>, u64)>, int)> {
    match cbor::parse_array(s, pos) {
        Some((n, p1)) => parse_share_items(s, p1, n as nat, Seq::empty()),
        None => None,
    }
}

proof fn lemma_parse_share_items_enc(s: Seq<u8>, pos: int, l: Seq<(Seq<u8>, u64)>, acc: Seq<
    (Seq<u8>, u64),
>)
    requires
        forall|i: int| 0 <= i < l.len() ==> (#[trigger] l[i]).0.len() <= u64::MAX,
        cbor::bytes_at(s, pos, enc_share_items(l)),
    ensures
        parse_share_items(s, pos, l.len(), acc) == Some(
            (acc + l, pos + enc_share_items(l).len()),
        ),
    decreases l.len(),
{
    if l.len() == 0 {
        assert(acc + l =~= acc);
    } else {
        let name = l[0].0;
        let size = l[0].1;
        let rest = l.drop_first();
        let eh = cbor::enc_array(2);
        let en = cbor::enc_str(3, name);
        let es = cbor::enc_uint(size);
        cbor::lemma_bytes_at_split(s, pos, eh + en + es, enc_share_items(rest));
        cbor::lemma_bytes_at_split(s, pos, eh + en, es);
        cbor::lemma_bytes_at_split(s, pos, eh, en);
        cbor::lemma_parse_array_enc(s, pos, 2);
        cbor::lemma_parse_str_enc(s, pos + eh.len(), 3, name);
        cbor::lemma_parse_uint_enc(s, pos + eh.len() + en.len(), size);
        let p2 = pos + eh.len() + en.len() + es.len();
        assert(acc.push((name, size)) + rest =~= acc + l);
        lemma_parse_share_items_enc(s, p2, rest, acc.push((name, size)));
    }
}

/// Parsing an encoded share list yields the list back.
pub proof fn lemma_parse_share_list_enc(s: Seq<u8>, pos: int, l: Seq<(Seq<u8>, u64)>)
    requires
        l.len() <= u64::MAX,
        forall|i: int| 0 <= i < l.len() ==> (#[trigger] l[i]).0.len() <= u64::MAX,
        cbor::bytes_at(s, pos, enc_share_list(l)),
    ensures
        parse_share_list(s, pos) == Some((l, pos + enc_share_list(l).len())),
{
    cbor::lemma_bytes_at_split(s, pos, cbor::enc_array(l.len() as u64), enc_share_items(l));
    cbor::lemma_parse_array_enc(s, pos, l.len() as u64);
    assert(Seq::<(Seq<u8>, u64)>::empty() + l =~= l);
    lemma_parse_share_items_enc(s, pos + cbor::enc_array(l.len() as u64).len(), l, Seq::empty());
}

proof fn lemma_enc_share_items_push(l: Seq<(Seq<u8>, u64)>, e: (Seq<u8>, u64))
    ensures
        enc_share_items(l.push(e)) == enc_share_items(l) + (cbor::enc_array(2) + cbor::enc_str(
            3,
            e.0,
        ) + cbor::enc_uint(e.1)),
    decreases l.len(),
{
    if l.len() == 0 {
        assert(l.push(e)[0] == e);
        assert(l.push(e).drop_first() =~= Seq::<(Seq<u8>, u64)>::empty());
        assert(enc_share_items(l.push(e)) == cbor::enc_array(2) + cbor::enc_str(3, e.0)
            + cbor::enc_uint(e.1) + enc_share_items(l.push(e).drop_first()));
        assert(enc_share_items(l) + (cbor::enc_array(2) + cbor::enc_str(3, e.0) + cbor::enc_uint(
            e.1,
        )) =~= cbor::enc_array(2) + cbor::enc_str(3, e.0) + cbor::enc_uint(e.1)
            + Seq::<u8>::empty());
    } else {
        assert(l.push(e)[0] == l[0]);
        assert(l.push(e).drop_first() =~= l.drop_first().push(e));
        lemma_enc_share_items_push(l.drop_first(), e);
        assert(enc_share_items(l.push(e)) =~= (cbor::enc_array(2) + cbor::enc_str(3, l[0].0)
            + cbor::enc_uint(l[0].1) + enc_share_items(l.drop_first())) + (cbor::enc_array(2)
            + cbor::enc_str(3, e.0) + cbor::enc_uint(e.1)));
    }
}

/// Append the encoding of the share list to `out`.
pub fn write_share_list(l: &Vec<(Vec<u8>, u64)>, out: &mut Vec<u8>)
    ensures
        final(out)@ == old(out)@ + enc_share_list(shares_view(l@)),
{
    cbor::write_array(l.len() as u64, out);
    let mut i: usize = 0;
    while i < l.len()
        invariant
            i <= l.len(),
            out@ == old(out)@ + cbor::enc_array(l@.len() as u64) + enc_share_items(
                shares_view(l@.subrange(0, i as int)),
            ),
        decreases l.len() - i,
    {
        cbor::write_array(2, out);
        cbor::write_str(3, &l[i].0, out);
        cbor::write_uint(l[i].1, out);
        proof {
            assert(shares_view(l@.subrange(0, i + 1)) =~= shares_view(
                l@.subrange(0, i as int),
            ).push((l@[i as int].0@, l@[i as int].1)));
            lemma_enc_share_items_push(
                shares_view(l@.subrange(0, i as int)),
                (l@[i as int].0@, l@[i as int].1),
            );
        }
        i = i + 1;
    }
    proof {
        assert(l@.subrange(0, l@.len() as int) =~= l@);
        assert(old(out)@ + cbor::enc_array(l@.len() as u64) + enc_share_items(shares_view(l@))
            =~= old(out)@ + enc_share_list(shares_view(l@)));
    }
}

/// Read a share list at `pos`.
pub fn read_share_list(buf: &Vec<u8>, pos: usize) -> (r: Option<(Vec<(Vec<u8>, u64)>, usize)>)
    ensures
        match r {
            Some((l, end)) => parse_share_list(buf@, pos as int) == Some(
                (shares_view(l@), end as int),
            ) && pos < end <= buf.len(),
            None => parse_share_list(buf@, pos as int) is None,
        },
{
    match cbor::read_array(buf, pos) {
        None => None,
        Some((n, p1)) => {
            let mut l: Vec<(Vec<u8>, u64)> = Vec::new();
            let mut cur: usize = p1;
            let mut rem: u64 = n;
            proof {
                assert(shares_view(l@) =~= Seq::<(Seq<u8>, u64)>::empty());
            }
            loop
                invariant
                    pos < cur <= buf.len(),
                    parse_share_list(buf@, pos as int) == parse_share_items(
                        buf@,
                        cur as int,
                        rem as nat,
                        shares_view(l@),
                    ),
                decreases rem,
            {
                if rem == 0 {
                    return Some((l, cur));
                }
                match cbor::read_array(buf, cur) {
                    None => {
                        return None;
                    },
                    Some((k, p0)) => {
                        if k != 2 {
                            return None;
                        }
                        match read_str_then_uint(buf, p0) {
                            None => {
                                return None;
                            },
                            Some(((name, size), p2)) => {
                                proof {
                                    assert(shares_view(l@.push((name, size))) =~= shares_view(
                                        l@,
                                    ).push((name@, size)));
                                }
                                l.push((name, size));
                                cur = p2;
                                rem = rem - 1;
                            },
                        }
                    },
                }
            }
        },
    }
}

fn read_str_then_uint(buf: &Vec<u8>, pos: usize) -> (r: Option<((Vec<u8>, u64), usize)>)
    ensures
        match r {
            Some(((name, size), end)) => ({
                match cbor::parse_str(buf@, pos as int, 3) {
                    Some((nm, p1)) => nm == name@ && cbor::parse_uint(buf@, p1) == Some(
                        (size, end as int),
                    ),
                    None => false,
                }
            }) && pos < end <= buf.len(),
            None => ({
                match cbor::parse_str(buf@, pos as int, 3) {
                    Some((_, p1)) => cbor::parse_uint(buf@, p1) is None,
                    None => true,
                }
            }),
        },
{
    match cbor::read_str(buf, pos, 3) {
        None => None,
        Some((name, p1)) => {
            match cbor::read_uint(buf, p1) {
                None => None,
                Some((size, p2)) => Some(((name, size), p2)),
            }
        },
    }
}

/// Payload of a chunk or get message: id at index 0, data or name at 1.
pub open spec fn enc_id_str_payload(id: u32, major: u8, b: Seq<u8>) -> Seq<u8> {
    cbor::enc_map(2) + cbor::enc_uint(0) + cbor::enc_uint(id as u64) + cbor::enc_uint(1)
        + cbor::enc_str(major, b)
}

pub open spec fn parse_id_str_entries(
    s: Seq<u8>,
    pos: int,
    n: nat,
    major: u8,
    f0: Option<u32>,
    f1: Option<Seq<u8>>,
) -> Option<((u32, Seq<u8>), int)>
    decreases n,
{
    if n == 0 {
        match (f0, f1) {
            (Some(id), Some(b)) => Some(((id, b), pos)),
            _ => None,
        }
    } else {
        match cbor::parse_uint(s, pos) {
            None => None,
            Some((k, p1)) => {
                if k == 0 {
                    match cbor::parse_uint(s, p1) {
                        Some((v, p2)) => if v <= u32::MAX as u64 {
                            parse_id_str_entries(s, p2, (n - 1) as nat, major, Some(v as u32), f1)
                        } else {
                            None
                        },
                        None => None,
                    }
                } else if k == 1 {
                    match cbor::parse_str(s, p1, major) {
                        Some((b, p2)) => parse_id_str_entries(
                            s,
                            p2,
                            (n - 1) as nat,
                            major,
                            f0,
                            Some(b),
                        ),
                        None => None,
                    }
                } else {
                    match cbor::skip_n(s, p1, 1) {
                        Some(p2) => parse_id_str_entries(s, p2, (n - 1) as nat, major, f0, f1),
                        None => None,
                    }
                }
            },
        }
    }
}

pub open spec fn parse_id_str_payload(s: Seq<u8>, pos: int, major: u8) -> Option<
    ((u32, Seq<u8>), int),
> {
    match cbor::parse_map(s, pos) {
        Some((n, p1)) => parse_id_str_entries(s, p1, n as nat, major, None, None),
        None => None,
    }
}

pub proof fn lemma_parse_id_str_payload_enc(s: Seq<u8>, pos: int, id: u32, major: u8, b: Seq<u8>)
    requires
        major == 2 || major == 3,
        b.len() <= u64::MAX,
        cbor::bytes_at(s, pos, enc_id_str_payload(id, major, b)),
    ensures
        parse_id_str_payload(s, pos, major) == Some(
            ((id, b), pos + enc_id_str_payload(id, major, b).len()),
        ),
{
    let h = cbor::enc_map(2);
    let k0 = cbor::enc_uint(0);
    let v0 = cbor::enc_uint(id as u64);
    let k1 = cbor::enc_uint(1);
    let v1 = cbor::enc_str(major, b);
    cbor::lemma_bytes_at_split(s, pos, h + k0 + v0 + k1, v1);
    cbor::lemma_bytes_at_split(s, pos, h + k0 + v0, k1);
    cbor::lemma_bytes_at_split(s, pos, h + k0, v0);
    cbor::lemma_bytes_at_split(s, pos, h, k0);
    let p0 = pos + h.len();
    let p0v = p0 + k0.len();
    let p1 = p0v + v0.len();
    let p1v = p1 + k1.len();
    let pe = p1v + v1.len();
    cbor::lemma_parse_map_enc(s, pos, 2);
    cbor::lemma_parse_uint_enc(s, p0, 0);
    cbor::lemma_parse_uint_enc(s, p0v, id as u64);
    cbor::lemma_parse_uint_enc(s, p1, 1);
    cbor::lemma_parse_str_enc(s, p1v, major, b);
    assert(parse_id_str_entries(s, p0, 2, major, None, None) == parse_id_str_entries(
        s,
        p1,
        1,
        major,
        Some(id),
        None,
    ));
    assert(parse_id_str_entries(s, p1, 1, major, Some(id), None) == parse_id_str_entries(
        s,
        pe,
        0,
        major,
        Some(id),
        Some(b),
    ));
}

pub fn read_id_str_payload(buf: &Vec<u8>, pos: usize, major: u8) -> (r: Option<
    ((u32, Vec<u8>), usize),
>)
    requires
        major == 2 || major == 3,
    ensures
        match r {
            Some(((id, b), end)) => parse_id_str_payload(buf@, pos as int, major) == Some(
                (((id, b@)), end as int),
            ) && pos < end <= buf.len(),
            None => parse_id_str_payload(buf@, pos as int, major) is None,
        },
{
    match cbor::read_map(buf, pos) {
        None => None,
        Some((n, p1)) => {
            let mut f0: Option<u32> = None;
            let mut f1: Option<Vec<u8>> = None;
            let mut cur: usize = p1;
            let mut rem: u64 = n;
            loop
                invariant
                    pos < cur <= buf.len(),
                    major == 2 || major == 3,
                    parse_id_str_payload(buf@, pos as int, major) == parse_id_str_entries(
                        buf@,
                        cur as int,
                        rem as nat,
                        major,
                        f0,
                        opt_bytes(f1),
                    ),
                decreases rem,
            {
                if rem == 0 {
                    match (f0, f1) {
                        (Some(id), Some(b)) => {
                            return Some(((id, b), cur));
                        },
                        _ => {
                            return None;
                        },
                    }
                }
                match cbor::read_uint(buf, cur) {
                    None => {
                        return None;
                    },
                    Some((k, p2)) => {
                        if k == 0 {
                            match cbor::read_uint(buf, p2) {
                                None => {
                                    return None;
                                },
                                Some((v, p3)) => {
                                    if v <= 0xffff_ffff {
                                        f0 = Some(v as u32);
                                        cur = p3;
                                        rem = rem - 1;
                                    } else {
                                        return None;
                                    }
                                },
                            }
                        } else if k == 1 {
                            match cbor::read_str(buf, p2, major) {
                                None => {
                                    return None;
                                },
                                Some((b, p3)) => {
                                    f1 = Some(b);
                                    cur = p3;
                                    rem = rem - 1;
                                },
                            }
                        } else {
                            match cbor::skip_items(buf, p2, 1) {
                                None => {
                                    return None;
                                },
                                Some(p3) => {
                                    cur = p3;
                                    rem = rem - 1;
                                },
                            }
                        }
                    },
                }
            }
        },
    }
}

/// Payload of a list reply: the share list at index 0.
pub open spec fn enc_shares_payload(l: Seq<(Seq<u8>, u64)>) -> Seq<u8> {
    cbor::enc_map(1) + cbor::enc_uint(0) + enc_share_list(l)
}

pub open spec fn parse_shares_entries(s: Seq<u8>, pos: int, n: nat, f0: Option<Seq<(Seq<u8>, u64)>>)
    -> Option<(Seq<(Seq<u8>, u64)>, int)>
    decreases n,
{
    if n == 0 {
        match f0 {
            Some(l) => Some((l, pos)),
            None => None,
        }
    } else {
        match cbor::parse_uint(s, pos) {
            None => None,
            Some((k, p1)) => {
                if k == 0 {
                    match parse_share_list(s, p1) {
                        Some((l, p2)) => parse_shares_entries(s, p2, (n - 1) as nat, Some(l)),
                        None => None,
                    }
                } else {
                    match cbor::skip_n(s, p1, 1) {
                        Some(p2) => parse_shares_entries(s, p2, (n - 1) as nat, f0),
                        None => None,
                    }
                }
            },
        }
    }
}

pub open spec fn parse_shares_payload(s: Seq<u8>, pos: int) -> Option<(Seq<(Seq<u8>, u64)>, int)> {
    match cbor::parse_map(s, pos) {
        Some((n, p1)) => parse_shares_entries(s, p1, n as nat, None),
        None => None,
    }
}

pub proof fn lemma_parse_shares_payload_enc(s: Seq<u8>, pos: int, l: Seq<(Seq<u8>, u64)>)
    requires
        l.len() <= u64::MAX,
        forall|i: int| 0 <= i < l.len() ==> (#[trigger] l[i]).0.len() <= u64::MAX,
        cbor::bytes_at(s, pos, enc_shares_payload(l)),
    ensures
        parse_shares_payload(s, pos) == Some((l, pos + enc_shares_payload(l).len())),
{
    let m = cbor::enc_map(1);
    let k0 = cbor::enc_uint(0);
    let v0 = enc_share_list(l);
    cbor::lemma_bytes_at_split(s, pos, m + k0, v0);
    cbor::lemma_bytes_at_split(s, pos, m, k0);
    cbor::lemma_parse_map_enc(s, pos, 1);
    cbor::lemma_parse_uint_enc(s, pos + m.len(), 0);
    lemma_parse_share_list_enc(s, pos + m.len() + k0.len(), l);
    let pe = pos + m.len() + k0.len() + v0.len();
    assert(parse_shares_entries(s, pos + m.len(), 1, None) == parse_shares_entries(
        s,
        pe,
        0,
        Some(l),
    ));
    assert(parse_shares_entries(s, pe, 0, Some(l)) == Some((l, pe)));
}

/// Encoded file message: variant tag then a field map.
pub open spec fn enc_file_message(m: FileMessageV) -> Seq<u8> {
    match m {
        FileMessageV::List => cbor::enc_array(2) + cbor::enc_uint(0) + enc_unit_payload(),
        FileMessageV::ListReply(l) => cbor::enc_array(2) + cbor::enc_uint(1) + enc_shares_payload(
            l,
        ),
        FileMessageV::Get(id, f) => cbor::enc_array(2) + cbor::enc_uint(2) + enc_id_str_payload(
            id,
            3,
            f,
        ),
        FileMessageV::Chunk(id, d) => cbor::enc_array(2) + cbor::enc_uint(3) + enc_id_str_payload(
            id,
            2,
            d,
        ),
        FileMessageV::ChunkAck(id) => cbor::enc_array(2) + cbor::enc_uint(4) + enc_uint_payload(
            id as u64,
        ),
    }
}

pub open spec fn parse_file_message(s: Seq<u8>, pos: int) -> Option<(FileMessageV, int)> {
    match cbor::parse_array(s, pos) {
        None => None,
        Some((n, p1)) => if n != 2 {
            None
        } else {
            match cbor::parse_uint(s, p1) {
                None => None,
                Some((tag, p2)) => {
                    if tag == 0 {
                        match parse_unit_payload(s, p2) {
                            Some(p3) => Some((FileMessageV::List, p3)),
                            None => None,
                        }
                    } else if tag == 1 {
                        match parse_shares_payload(s, p2) {
                            Some((l, p3)) => Some((FileMessageV::ListReply(l), p3)),
                            None => None,
                        }
                    } else if tag == 2 {
                        match parse_id_str_payload(s, p2, 3) {
                            Some(((id, f), p3)) => Some((FileMessageV::Get(id, f), p3)),
                            None => None,
                        }
                    } else if tag == 3 {
                        match parse_id_str_payload(s, p2, 2) {
                            Some(((id, d), p3)) => Some((FileMessageV::Chunk(id, d), p3)),
                            None => None,
                        }
                    } else if tag == 4 {
                        match parse_uint_payload(s, p2) {
                            Some((v, p3)) => if v <= u32::MAX as u64 {
                                Some((FileMessageV::ChunkAck(v as u32), p3))
                            } else {
                                None
                            },
                            None => None,
                        }
                    } else {
                        None
                    }
                },
            }
        },
    }
}

/// Parsing an encoded file message yields the message back.
#[verifier::rlimit(100)]
#[verifier::spinoff_prover]
pub proof fn lemma_parse_file_message_enc(s: Seq<u8>, pos: int, m: FileMessageV)
    requires
        wf_file_message(m),
        cbor::bytes_at(s, pos, enc_file_message(m)),
    ensures
        parse_file_message(s, pos) == Some((m, pos + enc_file_message(m).len())),
{
    let a = cbor::enc_array(2);
    match m {
        FileMessageV::List => {
            let t = cbor::enc_uint(0);
            cbor::lemma_bytes_at_split(s, pos, a + t, enc_unit_payload());
            cbor::lemma_bytes_at_split(s, pos, a, t);
            cbor::lemma_parse_array_enc(s, pos, 2);
            cbor::lemma_parse_uint_enc(s, pos + a.len(), 0);
            crate::message::lemma_parse_unit_payload_enc(s, pos + a.len() + t.len());
        },
        FileMessageV::ListReply(l) => {
            let t = cbor::enc_uint(1);
            cbor::lemma_bytes_at_split(s, pos, a + t, enc_shares_payload(l));
            cbor::lemma_bytes_at_split(s, pos, a, t);
            cbor::lemma_parse_array_enc(s, pos, 2);
            cbor::lemma_parse_uint_enc(s, pos + a.len(), 1);
            lemma_parse_shares_payload_enc(s, pos + a.len() + t.len(), l);
        },
        FileMessageV::Get(id, f) => {
            let t = cbor::enc_uint(2);
            cbor::lemma_bytes_at_split(s, pos, a + t, enc_id_str_payload(id, 3, f));
            cbor::lemma_bytes_at_split(s, pos, a, t);
            cbor::lemma_parse_array_enc(s, pos, 2);
            cbor::lemma_parse_uint_enc(s, pos + a.len(), 2);
            lemma_parse_id_str_payload_enc(s, pos + a.len() + t.len(), id, 3, f);
        },
        FileMessageV::Chunk(id, d) => {
            let t = cbor::enc_uint(3);
            cbor::lemma_bytes_at_split(s, pos, a + t, enc_id_str_payload(id, 2, d));
            cbor::lemma_bytes_at_split(s, pos, a, t);
            cbor::lemma_parse_array_enc(s, pos, 2);
            cbor::lemma_parse_uint_enc(s, pos + a.len(), 3);
            lemma_parse_id_str_payload_enc(s, pos + a.len() + t.len(), id, 2, d);
        },
        FileMessageV::ChunkAck(id) => {
            let t = cbor::enc_uint(4);
            cbor::lemma_bytes_at_split(s, pos, a + t, enc_uint_payload(id as u64));
            cbor::lemma_bytes_at_split(s, pos, a, t);
            cbor::lemma_parse_array_enc(s, pos, 2);
            cbor::lemma_parse_uint_enc(s, pos + a.len(), 4);
            crate::message::lemma_parse_uint_payload_enc(s, pos + a.len() + t.len(), id as u64);
        },
    }
}

/// Decoding inverts encoding for every file message.
pub proof fn lemma_file_message_round_trip(m: FileMessageV)
    requires
        wf_file_message(m),
    ensures
        parse_file_message(enc_file_message(m), 0) == Some((m, enc_file_message(m).len() as int)),
{
    lemma_parse_file_message_enc(enc_file_message(m), 0, m);
}

/// Encode a file message.
pub fn encode_file_message(m: &FileMessage) -> (out: Vec<u8>)
    ensures
        out@ == enc_file_message(m@),
{
    let mut out: Vec<u8> = Vec::new();
    cbor::write_array(2, &mut out);
    match m {
        FileMessage::List => {
            cbor::write_uint(0, &mut out);
            write_unit_payload(&mut out);
        },
        FileMessage::ListReply(l) => {
            cbor::write_uint(1, &mut out);
            cbor::write_map(1, &mut out);
            cbor::write_uint(0, &mut out);
            write_share_list(l, &mut out);
        },
        FileMessage::Get(id, f) => {
            cbor::write_uint(2, &mut out);
            cbor::write_map(2, &mut out);
            cbor::write_uint(0, &mut out);
            cbor::write_uint(*id as u64, &mut out);
            cbor::write_uint(1, &mut out);
            cbor::write_str(3, f, &mut out);
        },
        FileMessage::Chunk(id, d) => {
            cbor::write_uint(3, &mut out);
            cbor::write_map(2, &mut out);
            cbor::write_uint(0, &mut out);
            cbor::write_uint(*id as u64, &mut out);
            cbor::write_uint(1, &mut out);
            cbor::write_str(2, d, &mut out);
        },
        FileMessage::ChunkAck(id) => {
            cbor::write_uint(4, &mut out);
            write_uint_payload(*id as u64, &mut out);
        },
    }
    out
}

/// Decode a file message; every byte must be consumed.
pub fn decode_file_message(buf: &Vec<u8>) -> (r: Option<FileMessage>)
    ensures
        match r {
            Some(m) => parse_file_message(buf@, 0) == Some((m@, buf@.len() as int)),
            None => parse_file_message(buf@, 0) is None || parse_file_message(buf@, 0)->Some_0.1
                != buf@.len(),
        },
{
    match read_file_message(buf, 0) {
        Some((m, end)) => {
            if end == buf.len() {
                Some(m)
            } else {
                None
            }
        },
        None => None,
    }
}

/// Read a file message at `pos`.
pub fn read_file_message(buf: &Vec<u8>, pos: usize) -> (r: Option<(FileMessage, usize)>)
    ensures
        match r {
            Some((m, end)) => parse_file_message(buf@, pos as int) == Some((m@, end as int)) && pos
                < end <= buf.len(),
            None => parse_file_message(buf@, pos as int) is None,
        },
{
    match cbor::read_array(buf, pos) {
        None => None,
        Some((n, p1)) => {
            if n != 2 {
                return None;
            }
            match cbor::read_uint(buf, p1) {
                None => None,
                Some((tag, p2)) => {
                    if tag == 0 {
                        match read_unit_payload(buf, p2) {
                            Some(p3) => Some((FileMessage::List, p3)),
                            None => None,
                        }
                    } else if tag == 1 {
                        match read_shares_payload(buf, p2) {
                            Some((l, p3)) => Some((FileMessage::ListReply(l), p3)),
                            None => None,
                        }
                    } else if tag == 2 {
                        match read_id_str_payload(buf, p2, 3) {
                            Some(((id, f), p3)) => Some((FileMessage::Get(id, f), p3)),
                            None => None,
                        }
                    } else if tag == 3 {
                        match read_id_str_payload(buf, p2, 2) {
                            Some(((id, d), p3)) => Some((FileMessage::Chunk(id, d), p3)),
                            None => None,
                        }
                    } else if tag == 4 {
                        match read_uint_payload(buf, p2) {
                            Some((v, p3)) => if v <= 0xffff_ffff {
                                Some((FileMessage::ChunkAck(v as u32), p3))
                            } else {
                                None
                            },
                            None => None,
                        }
                    } else {
                        None
                    }
                },
            }
        },
    }
}

fn read_shares_payload(buf: &Vec<u8>, pos: usize) -> (r: Option<(Vec<(Vec<u8>, u64)>, usize)>)
    ensures
        match r {
            Some((l, end)) => parse_shares_payload(buf@, pos as int) == Some(
                (shares_view(l@), end as int),
            ) && pos < end <= buf.len(),
            None => parse_shares_payload(buf@, pos as int) is None,
        },
{
    match cbor::read_map(buf, pos) {
        None => None,
        Some((n, p1)) => {
            let mut f0: Option<Vec<(Vec<u8>, u64)>> = None;
            let mut cur: usize = p1;
            let mut rem: u64 = n;
            loop
                invariant
                    pos < cur <= buf.len(),
                    parse_shares_payload(buf@, pos as int) == parse_shares_entries(
                        buf@,
                        cur as int,
                        rem as nat,
                        match f0 {
                            Some(ref l) => Some(shares_view(l@)),
                            None => None,
                        },
                    ),
                decreases rem,
            {
                if rem == 0 {
                    match f0 {
                        Some(l) => {
                            return Some((l, cur));
                        },
                        None => {
                            return None;
                        },
                    }
                }
                match cbor::read_uint(buf, cur) {
                    None => {
                        return None;
                    },
                    Some((k, p2)) => {
                        if k == 0 {
                            match read_share_list(buf, p2) {
                                None => {
                                    return None;
                                },
                                Some((l, p3)) => {
                                    f0 = Some(l);
                                    cur = p3;
                                    rem = rem - 1;
                                },
                            }
                        } else {
                            match cbor::skip_items(buf, p2, 1) {
                                None => {
                                    return None;
                                },
                                Some(p3) => {
                                    cur = p3;
                                    rem = rem - 1;
                                },
                            }
                        }
                    },
                }
            }
        },
    }
}

// ---- the per-transfer state machine ----

/// State of one file transfer.
#[derive(Debug, PartialEq)]
pub enum FTState {
    New,
    SendChunk,
    SendAck,
    SendLastAck,
    WaitChunk,
    WaitAck,
    WaitLastAck,
    Done,
    Error(Vec<u8>),
}

impl FTState {
    /// Done or failed: no further transition but none is expected.
    pub open spec fn terminal(self) -> bool {
        self is Done || self is Error
    }
}

/// One file transfer.  An upload goes from this node (`from` empty) to the
/// peer `to`; a download comes from the peer `from`.  The file bytes are in
/// memory: `content` is the upload source read at start, or the bytes
/// received so far in a download; `pos` is the next upload byte to send.
#[derive(Debug, PartialEq)]
pub struct FileTransfer {
    pub id: u32,
    pub from: Vec<u8>,
    pub to: Vec<u8>,
    pub file: Vec<u8>,
    pub state: FTState,
    pub opened: bool,
    pub content: Vec<u8>,
    pub pos: usize,
    pub created_at: u64,
    pub last_active: u64,
    pub completed_at: u64,
    pub num_bytes: u64,
}

/// The text of the error state after a cancellation.
pub open spec fn text_canceled() -> Seq<u8> {
    seq![67u8, 97, 110, 99, 101, 108, 101, 100, 32, 98, 121, 32, 117, 115, 101, 114]
}

/// The text of the error state after a timeout.
pub open spec fn text_timeout() -> Seq<u8> {
    seq![84u8, 105, 109, 101, 111, 117, 116]
}

/// The text of the error state when the file cannot be opened.
pub open spec fn text_open_error() -> Seq<u8> {
    seq![69u8, 114, 114, 111, 114, 32, 111, 112, 101, 110, 105, 110, 103, 32, 102, 105, 108, 101]
}

/// "Canceled by user"
pub fn canceled_text() -> (r: Vec<u8>)
    ensures
        r@ == text_canceled(),
{
    let v: Vec<u8> = vec![67u8, 97, 110, 99, 101, 108, 101, 100, 32, 98, 121, 32, 117, 115, 101, 114];
    proof {
        assert(v@ =~= text_canceled());
    }
    v
}

/// "Timeout"
pub fn timeout_text() -> (r: Vec<u8>)
    ensures
        r@ == text_timeout(),
{
    let v: Vec<u8> = vec![84u8, 105, 109, 101, 111, 117, 116];
    proof {
        assert(v@ =~= text_timeout());
    }
    v
}

/// "Error opening file"
pub fn open_error_text() -> (r: Vec<u8>)
    ensures
        r@ == text_open_error(),
{
    let v: Vec<u8> = vec![
        69u8, 114, 114, 111, 114, 32, 111, 112, 101, 110, 105, 110, 103, 32, 102, 105, 108, 101,
    ];
    proof {
        assert(v@ =~= text_open_error());
    }
    v
}

impl FileTransfer {
    /// An upload is a transfer whose source is this node.
    pub open spec fn spec_is_upload(self) -> bool {
        self.from@.len() == 0
    }

    /// An upload never sends past the end of its content.
    pub open spec fn wf(self) -> bool {
        self.pos <= self.content@.len()
    }

    /// Fresh transfer: an upload when `from` is empty, a download otherwise.
    pub fn new(id: u32, from: Vec<u8>, to: Vec<u8>, file: Vec<u8>, now: u64) -> (r: Self)
        ensures
            r.id == id,
            r.from@ == from@,
            r.to@ == to@,
            r.file@ == file@,
            r.state is New,
            !r.opened,
            r.content@.len() == 0,
            r.pos == 0,
            r.created_at == now,
            r.last_active == now,
            r.completed_at == 0,
            r.num_bytes == 0,
            r.wf(),
    {
        FileTransfer {
            id,
            from,
            to,
            file,
            state: FTState::New,
            opened: false,
            content: Vec::new(),
            pos: 0,
            created_at: now,
            last_active: now,
            completed_at: 0,
            num_bytes: 0,
        }
    }

    pub fn is_done(&self) -> (r: bool)
        ensures
            r == (self.state is Done),
    {
        match self.state {
            FTState::Done => true,
            _ => false,
        }
    }

    pub fn is_error(&self) -> (r: bool)
        ensures
            r == (self.state is Error),
    {
        match self.state {
            FTState::Error(_) => true,
            _ => false,
        }
    }

    pub fn is_upload(&self) -> (r: bool)
        ensures
            r == self.spec_is_upload(),
    {
        self.from.len() == 0
    }

    /// Messages for an upload must come from its destination peer; for a
    /// download, from its source peer.
    pub fn is_valid_sender(&self, from: &Vec<u8>) -> (r: bool)
        ensures
            r == if self.spec_is_upload() {
                from@ == self.to@
            } else {
                from@ == self.from@
            },
    {
        if self.is_upload() {
            bytes_eq(from, &self.to)
        } else {
            bytes_eq(from, &self.from)
        }
    }

    /// Mark activity at `now`.
    pub fn reset_timeout(&mut self, now: u64)
        ensures
            *final(self) == (FileTransfer { last_active: now, ..*old(self) }),
    {
        self.last_active = now;
    }

    /// Finish the transfer, unless it already reached a terminal state.
    pub fn complete(&mut self, error: Option<Vec<u8>>, now: u64)
        ensures
            old(self).state.terminal() ==> *final(self) == *old(self),
            !old(self).state.terminal() ==> *final(self) == (FileTransfer {
                state: match error {
                    None => FTState::Done,
                    Some(e) => FTState::Error(e),
                },
                completed_at: now,
                ..*old(self)
            }),
    {
        if self.is_done() || self.is_error() {
            return ;
        }
        self.completed_at = now;
        match error {
            None => {
                self.state = FTState::Done;
            },
            Some(e) => {
                self.state = FTState::Error(e);
            },
        }
    }

    /// Cancel the transfer.
    pub fn cancel(&mut self, now: u64)
        ensures
            old(self).state.terminal() ==> *final(self) == *old(self),
            !old(self).state.terminal() ==> *final(self) == (FileTransfer {
                state: FTState::Error(final(self).state->Error_0),
                completed_at: now,
                ..*old(self)
            }) && final(self).state->Error_0@ == text_canceled(),
    {
        self.complete(Some(canceled_text()), now);
    }

    /// Move a non-terminal transfer that has been idle for longer than the
    /// timeout into the timeout error state; touch nothing else.
    pub fn check_timeout(&mut self, now: u64)
        ensures
            (old(self).state.terminal() || !(old(self).last_active < now && now - old(self).last_active > crate::IDLE_TIMEOUT)) ==> *final(self) == *old(self),
            (!old(self).state.terminal() && old(self).last_active < now && now - old(self).last_active > crate::IDLE_TIMEOUT) ==> *final(self) == (FileTransfer {
                state: FTState::Error(final(self).state->Error_0),
                completed_at: now,
                ..*old(self)
            }) && final(self).state->Error_0@ == text_timeout(),
    {
        if self.is_done() || self.is_error() {
            return ;
        }
        if self.last_active < now && now - self.last_active > crate::IDLE_TIMEOUT {
            self.complete(Some(timeout_text()), now);
        }
    }

    /// Bytes per second moved so far, zero before any time has passed.
    pub fn get_data_rate(&self) -> (r: u64)
        ensures
            r == ({
                let t = if self.completed_at > 0 {
                    self.completed_at
                } else {
                    self.last_active
                };
                if t <= self.created_at {
                    0u64
                } else {
                    (self.num_bytes / ((t - self.created_at) as u64)) as u64
                }
            }),
    {
        let t = if self.completed_at > 0 {
            self.completed_at
        } else {
            self.last_active
        };
        if t <= self.created_at {
            return 0;
        }
        self.num_bytes / (t - self.created_at)
    }

    /// The data of the next chunk: up to a chunk size of bytes at `pos`.
    pub open spec fn next_chunk_data(self) -> Seq<u8> {
        if self.content@.len() - self.pos >= crate::CHUNK_SIZE {
            self.content@.subrange(self.pos as int, self.pos + crate::CHUNK_SIZE)
        } else {
            self.content@.subrange(self.pos as int, self.content@.len() as int)
        }
    }

    /// Start an upload in state `New`: without the file's contents the
    /// transfer fails; with them, the first chunk is produced, the sent
    /// window advances, and the transfer waits for its acknowledgement
    /// (for the last one when the chunk is short).
    pub fn start_upload(&mut self, open: Option<Vec<u8>>, now: u64) -> (r: Option<FileMessage>)
        requires
            old(self).state is New,
            old(self).spec_is_upload(),
            old(self).pos == 0,
            old(self).num_bytes == 0,
        ensures
            ft_start_upload_rel(
                *old(self),
                *final(self),
                match open {
                    Some(ref v) => Some(v@),
                    None => None,
                },
                match r {
                    Some(ref m) => Some(m@),
                    None => None,
                },
                now,
            ),
    {
        match open {
            None => {
                self.state = FTState::Error(open_error_text());
                None
            },
            Some(data) => {
                self.content = data;
                self.opened = true;
                self.next_chunk_message(now)
            },
        }
    }

    /// Start a download in state `New`: the transfer waits for the first
    /// chunk and asks the peer for the file, or fails when the destination
    /// file cannot be created.
    pub fn start_download(&mut self, open_ok: bool, now: u64) -> (r: Option<FileMessage>)
        requires
            old(self).state is New,
            !old(self).spec_is_upload(),
            old(self).wf(),
        ensures
            final(self).wf(),
            final(self).id == old(self).id,
            final(self).from == old(self).from,
            final(self).to == old(self).to,
            final(self).file == old(self).file,
            final(self).content == old(self).content,
            if open_ok {
                final(self).opened && final(self).state is WaitChunk && match r {
                    Some(msg) => msg@ == FileMessageV::Get(old(self).id, old(self).file@),
                    None => false,
                }
            } else {
                r is None && (final(self).state matches FTState::Error(e) && e@
                    == text_open_error())
            },
    {
        if !open_ok {
            self.state = FTState::Error(open_error_text());
            return None;
        }
        self.opened = true;
        self.state = FTState::WaitChunk;
        Some(FileMessage::Get(self.id, clone_bytes(&self.file)))
    }

    /// Produce the next chunk message of an upload and advance the sent
    /// window; used at start and after each acknowledgement.
    fn next_chunk_message(&mut self, now: u64) -> (r: Option<FileMessage>)
        requires
            old(self).wf(),
        ensures
            final(self).wf(),
            final(self).id == old(self).id,
            final(self).from == old(self).from,
            final(self).to == old(self).to,
            final(self).file == old(self).file,
            final(self).content == old(self).content,
            final(self).created_at == old(self).created_at,
            final(self).opened == old(self).opened,
            final(self).last_active == now,
            match r {
                Some(msg) => {
                    &&& msg@ == FileMessageV::Chunk(
                        old(self).id,
                        old(self).content@.subrange(old(self).pos as int, final(self).pos as int),
                    )
                    &&& final(self).pos == old(self).pos + (
                    if old(self).content@.len() - old(self).pos >= crate::CHUNK_SIZE {
                        crate::CHUNK_SIZE as int
                    } else {
                        old(self).content@.len() - old(self).pos
                    })
                    &&& final(self).num_bytes == (if old(self).num_bytes + (final(self).pos
                        - old(self).pos) <= u64::MAX {
                        old(self).num_bytes + (final(self).pos - old(self).pos)
                    } else {
                        u64::MAX as int
                    })
                    &&& (final(self).state is WaitAck <==> final(self).pos - old(self).pos
                        == crate::CHUNK_SIZE)
                    &&& (final(self).state is WaitLastAck <==> final(self).pos - old(self).pos
                        < crate::CHUNK_SIZE)
                },
                None => false,
            },
    {
        self.last_active = now;
        let remaining = self.content.len() - self.pos;
        let take = if remaining >= crate::CHUNK_SIZE {
            crate::CHUNK_SIZE
        } else {
            remaining
        };
        let end = self.pos + take;
        let mut data: Vec<u8> = Vec::new();
        let mut i: usize = self.pos;
        while i < end
            invariant
                self.pos <= i <= end,
                end == self.pos + take,
                end <= self.content@.len(),
                data@ == self.content@.subrange(self.pos as int, i as int),
            decreases end - i,
        {
            data.push(self.content[i]);
            proof {
                assert(self.content@.subrange(self.pos as int, i + 1) =~= self.content@.subrange(
                    self.pos as int,
                    i as int,
                ).push(self.content@[i as int]));
            }
            i = i + 1;
        }
        if self.num_bytes <= u64::MAX - take as u64 {
            self.num_bytes = self.num_bytes + take as u64;
        } else {
            self.num_bytes = u64::MAX;
        }
        self.pos = end;
        self.state = if take == crate::CHUNK_SIZE {
            FTState::WaitAck
        } else {
            FTState::WaitLastAck
        };
        Some(FileMessage::Chunk(self.id, data))
    }

    /// Apply one incoming message.  For an upload, an acknowledgement moves
    /// `WaitAck` to `SendChunk` and completes at `WaitLastAck`.  For a
    /// download, a chunk in `WaitChunk` is appended to the content and
    /// answered from `SendAck`, or `SendLastAck` when the chunk is short.
    /// Everything else changes nothing.
    pub fn handle(&mut self, message: FileMessage, now: u64)
        requires
            old(self).wf(),
        ensures
            ft_handle_rel(*old(self), *final(self), message@, now),
    {
        if self.is_upload() {
            match message {
                FileMessage::ChunkAck(_) => {
                    match self.state {
                        FTState::WaitAck => {
                            self.state = FTState::SendChunk;
                        },
                        FTState::WaitLastAck => {
                            self.complete(None, now);
                        },
                        _ => {},
                    }
                },
                _ => {},
            }
        } else {
            match message {
                FileMessage::Chunk(_, data) => {
                    match self.state {
                        FTState::WaitChunk => {
                            self.state = if data.len() < crate::CHUNK_SIZE {
                                FTState::SendLastAck
                            } else {
                                FTState::SendAck
                            };
                            self.last_active = now;
                            if self.num_bytes <= u64::MAX - data.len() as u64 {
                                self.num_bytes = self.num_bytes + data.len() as u64;
                            } else {
                                self.num_bytes = u64::MAX;
                            }
                            let ghost pre = self.content@;
                            let ghost snap = *self;
                            let mut k: usize = 0;
                            while k < data.len()
                                invariant
                                    k <= data@.len(),
                                    self.content@ == pre + data@.subrange(0, k as int),
                                    self.id == snap.id,
                                    self.from == snap.from,
                                    self.to == snap.to,
                                    self.file == snap.file,
                                    self.state == snap.state,
                                    self.opened == snap.opened,
                                    self.pos == snap.pos,
                                    self.created_at == snap.created_at,
                                    self.last_active == snap.last_active,
                                    self.completed_at == snap.completed_at,
                                    self.num_bytes == snap.num_bytes,
                                decreases data@.len() - k,
                            {
                                self.content.push(data[k]);
                                proof {
                                    assert(pre + data@.subrange(0, k + 1) =~= (pre
                                        + data@.subrange(0, k as int)).push(data@[k as int]));
                                }
                                k = k + 1;
                            }
                            proof {
                                assert(data@.subrange(0, data@.len() as int) =~= data@);
                            }
                        },
                        _ => {},
                    }
                },
                _ => {},
            }
        }
    }

    /// Produce the next outgoing message.  `SendChunk` yields the next
    /// chunk; `SendAck` acknowledges and waits for more; `SendLastAck`
    /// acknowledges and completes.  Waiting and terminal states yield
    /// nothing.
    pub fn next(&mut self, now: u64) -> (r: Option<FileMessage>)
        requires
            old(self).wf(),
            !(old(self).state is New),
        ensures
            ft_next_rel(
                *old(self),
                *final(self),
                match r {
                    Some(ref m) => Some(m@),
                    None => None,
                },
                now,
            ),
    {
        match self.state {
            FTState::SendChunk => self.next_chunk_message(now),
            FTState::SendAck => {
                self.state = FTState::WaitChunk;
                Some(FileMessage::ChunkAck(self.id))
            },
            FTState::SendLastAck => {
                self.complete(None, now);
                Some(FileMessage::ChunkAck(self.id))
            },
            _ => None,
        }
    }
}

// ---- the file client ----

/// The share list has an entry named `name`.
pub open spec fn has_share(sh: Seq<(Vec<u8>, u64)>, name: Seq<u8>) -> bool {
    exists|i: int| 0 <= i < sh.len() && (#[trigger] sh[i]).0@ == name
}

/// The share list after offering `fs` in order: every file not yet shared
/// is appended once.
pub open spec fn shares_after(sh: Seq<(Vec<u8>, u64)>, fs: Seq<(Vec<u8>, u64)>) -> Seq<
    (Vec<u8>, u64),
>
    decreases fs.len(),
{
    if fs.len() == 0 {
        sh
    } else {
        let m = shares_after(sh, fs.drop_last());
        if has_share(m, fs.last().0@) {
            m
        } else {
            m.push(fs.last())
        }
    }
}

/// Some transfer has id `id`.
pub open spec fn has_transfer(ts: Seq<(u32, FileTransfer)>, id: u32) -> bool {
    exists|i: int| 0 <= i < ts.len() && (#[trigger] ts[i]).0 == id
}

/// The file client's state: shares offered, live transfers and the messages
/// queued towards the daemon, oldest first.
pub struct FileClient {
    pub client_id: u16,
    pub peers: Vec<(Vec<u8>, IdSet)>,
    pub shares: Vec<(Vec<u8>, u64)>,
    pub transfers: Vec<(u32, FileTransfer)>,
    pub outbox: Vec<Message>,
}

/// Views of the messages queued towards the daemon.
pub open spec fn fobv(v: Seq<Message>) -> Seq<MessageV> {
    v.map_values(|m: Message| m@)
}

/// The per-service message that carries a file message back to a peer.
pub open spec fn file_reply_msg(
    to_peer: Seq<u8>,
    to_client: u16,
    from_client: u16,
    body: FileMessageV,
) -> MessageV {
    MessageV::Message {
        to_peer,
        from_peer: Seq::empty(),
        to_client,
        from_client,
        service: Service::File.spec_id(),
        content: enc_file_message(body),
    }
}

impl FileClient {
    /// Transfer ids are unique; every transfer is past `New` and well formed.
    pub open spec fn wf(&self) -> bool {
        &&& forall|i: int, j: int|
            0 <= i < j < self.transfers@.len() ==> (#[trigger] self.transfers@[i]).0 != (
            #[trigger] self.transfers@[j]).0
        &&& forall|i: int|
            0 <= i < self.transfers@.len() ==> (#[trigger] self.transfers@[i]).1.wf() && !(
            self.transfers@[i].1.state is New)
    }

    /// Fresh file client with nothing shared and no transfers.
    pub fn new() -> (r: Self)
        ensures
            r.wf(),
            r.client_id == 0,
            r.peers@.len() == 0,
            r.shares@.len() == 0,
            r.transfers@.len() == 0,
            r.outbox@.len() == 0,
    {
        FileClient {
            client_id: 0,
            peers: Vec::new(),
            shares: Vec::new(),
            transfers: Vec::new(),
            outbox: Vec::new(),
        }
    }

    /// Queue the registration of this client for the file service.
    pub fn register_client(&mut self)
        requires
            old(self).wf(),
        ensures
            final(self).wf(),
            final(self).client_id == old(self).client_id,
            final(self).peers == old(self).peers,
            final(self).shares == old(self).shares,
            final(self).transfers == old(self).transfers,
            fobv(final(self).outbox@) == fobv(old(self).outbox@).push(
                MessageV::Register { services: seq![Service::File.spec_id()] },
            ),
    {
        let mut services = IdSet::new();
        services.insert(Service::File.id());
        proof {
            assert(services@.contains(Service::File.spec_id()));
            let w = choose|w: int|
                0 <= w < services@.len() && services@[w] == Service::File.spec_id();
            assert(services@.len() == 1);
            assert(services@ =~= seq![Service::File.spec_id()]);
        }
        let m = Message::Register { services };
        let ghost prev = self.outbox@;
        self.outbox.push(m);
        proof {
            assert(fobv(self.outbox@) =~= fobv(prev).push(
                MessageV::Register { services: seq![Service::File.spec_id()] },
            ));
        }
    }

    /// The file is in the share list.
    pub fn is_shared(&self, file: &Vec<u8>) -> (r: bool)
        ensures
            r == has_share(self.shares@, file@),
    {
        let mut i: usize = 0;
        while i < self.shares.len()
            invariant
                i <= self.shares@.len(),
                forall|k: int| 0 <= k < i ==> (#[trigger] self.shares@[k]).0@ != file@,
            decreases self.shares@.len() - i,
        {
            if bytes_eq(&self.shares[i].0, file) {
                return true;
            }
            i = i + 1;
        }
        false
    }

    /// Offer files: each one not yet shared is appended, in input order.
    pub fn share_files(&mut self, files: Vec<(Vec<u8>, u64)>)
        requires
            old(self).wf(),
        ensures
            final(self).wf(),
            final(self).client_id == old(self).client_id,
            final(self).peers == old(self).peers,
            final(self).transfers == old(self).transfers,
            final(self).outbox == old(self).outbox,
            final(self).shares@ == shares_after(old(self).shares@, files@),
    {
        let ghost fs = files@;
        let mut files = files;
        while files.len() > 0
            invariant
                files@.len() <= fs.len(),
                files@ == fs.subrange(fs.len() - files@.len(), fs.len() as int),
                self.client_id == old(self).client_id,
                self.peers == old(self).peers,
                self.transfers == old(self).transfers,
                self.outbox == old(self).outbox,
                self.wf(),
                self.shares@ == shares_after(
                    old(self).shares@,
                    fs.subrange(0, fs.len() - files@.len()),
                ),
            decreases files@.len(),
        {
            let ghost i = fs.len() - files@.len();
            let f = files.remove(0);
            proof {
                assert(f == fs[i as int]);
                assert(fs.subrange(i as int, fs.len() as int).remove(0) =~= fs.subrange(
                    i + 1,
                    fs.len() as int,
                ));
                assert(fs.subrange(0, i + 1).drop_last() =~= fs.subrange(0, i as int));
                assert(fs.subrange(0, i + 1).last() == fs[i as int]);
            }
            if !self.is_shared(&f.0) {
                self.shares.push(f);
            }
        }
        proof {
            assert(fs.subrange(0, fs.len() as int) =~= fs);
        }
    }

    /// A transfer id not yet in use: the seed itself when free, else the
    /// first free id probing upward from it; exhausted after as many probes
    /// as there are transfers plus one.
    pub fn new_id(&self, seed: u32) -> (r: Option<u32>)
        ensures
            match r {
                Some(id) => !has_transfer(self.transfers@, id) && (!has_transfer(
                    self.transfers@,
                    seed,
                ) ==> id == seed),
                None => true,
            },
    {
        if !self.contains_transfer(seed) {
            return Some(seed);
        }
        let mut k: usize = 0;
        while k < self.transfers.len()
            invariant
                k <= self.transfers@.len(),
                has_transfer(self.transfers@, seed),
            decreases self.transfers@.len() - k,
        {
            let cand = seed.wrapping_add(#[verifier::truncate] ((k + 1) as u32));
            if !self.contains_transfer(cand) {
                return Some(cand);
            }
            k = k + 1;
        }
        None
    }

    /// A transfer id drawn at random, probing past ids already in use.
    pub fn fresh_transfer_id(&self) -> (r: Option<u32>)
        ensures
            match r {
                Some(id) => !has_transfer(self.transfers@, id),
                None => true,
            },
    {
        let seed = crate::ext::random_u32();
        self.new_id(seed)
    }

    /// A transfer with this id exists.
    pub fn contains_transfer(&self, id: u32) -> (r: bool)
        ensures
            r == has_transfer(self.transfers@, id),
    {
        match self.find_transfer(id) {
            Some(_) => true,
            None => false,
        }
    }

    /// Index of the transfer with id `id`.
    fn find_transfer(&self, id: u32) -> (r: Option<usize>)
        ensures
            match r {
                Some(i) => i < self.transfers@.len() && self.transfers@[i as int].0 == id,
                None => !has_transfer(self.transfers@, id),
            },
    {
        let mut i: usize = 0;
        while i < self.transfers.len()
            invariant
                i <= self.transfers@.len(),
                forall|k: int| 0 <= k < i ==> (#[trigger] self.transfers@[k]).0 != id,
            decreases self.transfers@.len() - i,
        {
            if self.transfers[i].0 == id {
                return Some(i);
            }
            i = i + 1;
        }
        None
    }

    /// Check every transfer against the idle timeout: stale non-terminal
    /// transfers fail with the timeout error; every other transfer is left
    /// exactly as it was.
    pub fn check_timeouts(&mut self, now: u64)
        requires
            old(self).wf(),
        ensures
            final(self).wf(),
            final(self).client_id == old(self).client_id,
            final(self).peers == old(self).peers,
            final(self).shares == old(self).shares,
            final(self).outbox == old(self).outbox,
            final(self).transfers@.len() == old(self).transfers@.len(),
            forall|j: int|
                0 <= j < old(self).transfers@.len() ==> (#[trigger] final(self).transfers@[j]).0
                    == old(self).transfers@[j].0 && ({
                    let t = old(self).transfers@[j].1;
                    let t2 = final(self).transfers@[j].1;
                    if t.state.terminal() || !(t.last_active < now && now - t.last_active
                        > crate::IDLE_TIMEOUT) {
                        t2 == t
                    } else {
                        t2 == (FileTransfer {
                            state: FTState::Error(t2.state->Error_0),
                            completed_at: now,
                            ..t
                        }) && t2.state->Error_0@ == text_timeout()
                    }
                }),
    {
        let ghost a = self.transfers@;
        let mut i: usize = 0;
        while i < self.transfers.len()
            invariant
                i <= a.len(),
                self.transfers@.len() == a.len(),
                self.client_id == old(self).client_id,
                self.peers == old(self).peers,
                self.shares == old(self).shares,
                self.outbox == old(self).outbox,
                cs_like_wf(a),
                forall|j: int|
                    0 <= j < i ==> (#[trigger] self.transfers@[j]).0 == a[j].0 && ({
                        let t = a[j].1;
                        let t2 = self.transfers@[j].1;
                        if t.state.terminal() || !(t.last_active < now && now - t.last_active
                            > crate::IDLE_TIMEOUT) {
                            t2 == t
                        } else {
                            t2 == (FileTransfer {
                                state: FTState::Error(t2.state->Error_0),
                                completed_at: now,
                                ..t
                            }) && t2.state->Error_0@ == text_timeout()
                        }
                    }),
                forall|j: int| i <= j < a.len() ==> self.transfers@[j] == a[j],
            decreases a.len() - i,
        {
            self.transfers[i].1.check_timeout(now);
            i = i + 1;
        }
        proof {
            assert forall|i2: int, j2: int|
                0 <= i2 < j2 < self.transfers@.len() implies (#[trigger] self.transfers@[i2]).0
                != (#[trigger] self.transfers@[j2]).0 by {
                assert(self.transfers@[i2].0 == a[i2].0);
                assert(self.transfers@[j2].0 == a[j2].0);
            }
            assert forall|i2: int| 0 <= i2 < self.transfers@.len() implies (
            #[trigger] self.transfers@[i2]).1.wf() && !(self.transfers@[i2].1.state is New) by {
                let t = a[i2].1;
                let t2 = self.transfers@[i2].1;
                assert(t.wf() && !(t.state is New));
            }
        }
    }

    /// Cancel the transfer with id `id`, if present; no other transfer and
    /// nothing else changes.
    pub fn cancel_transfer(&mut self, id: u32, now: u64)
        requires
            old(self).wf(),
        ensures
            final(self).wf(),
            final(self).client_id == old(self).client_id,
            final(self).peers == old(self).peers,
            final(self).shares == old(self).shares,
            final(self).outbox == old(self).outbox,
            final(self).transfers@.len() == old(self).transfers@.len(),
            forall|j: int|
                0 <= j < old(self).transfers@.len() ==> (#[trigger] final(self).transfers@[j]).0
                    == old(self).transfers@[j].0 && ({
                    let t = old(self).transfers@[j].1;
                    let t2 = final(self).transfers@[j].1;
                    if old(self).transfers@[j].0 != id || t.state.terminal() {
                        t2 == t
                    } else {
                        t2 == (FileTransfer {
                            state: FTState::Error(t2.state->Error_0),
                            completed_at: now,
                            ..t
                        }) && t2.state->Error_0@ == text_canceled()
                    }
                }),
    {
        let ghost a = self.transfers@;
        match self.find_transfer(id) {
            None => {
            },
            Some(i) => {
                self.transfers[i].1.cancel(now);
                proof {
                    assert forall|j: int| 0 <= j < a.len() && j != i implies self.transfers@[j]
                        == a[j] by {}
                    assert forall|p: int, q: int|
                        0 <= p < q < self.transfers@.len() implies (
                    #[trigger] self.transfers@[p]).0 != (#[trigger] self.transfers@[q]).0 by {
                        assert(self.transfers@[p].0 == a[p].0);
                        assert(self.transfers@[q].0 == a[q].0);
                    }
                    assert forall|j: int|
                        0 <= j < a.len() && a[j].0 == id implies j == i by {
                        if j < i {
                            assert(a[j].0 != a[i as int].0);
                        } else if j > i {
                            assert(a[i as int].0 != a[j].0);
                        }
                    }
                }
            },
        }
    }
}

/// Transition of `FileTransfer::handle`: `t2` is `t` after one incoming
/// message.
pub open spec fn ft_handle_rel(t: FileTransfer, t2: FileTransfer, message: FileMessageV, now: u64) -> bool {
    &&& t2.wf()
    &&& t2.id == t.id
    &&& t2.from == t.from
    &&& t2.to == t.to
    &&& t2.file == t.file
    &&& t2.created_at == t.created_at
    &&& if t.spec_is_upload() {
        match (message, t.state) {
            (FileMessageV::ChunkAck(_), FTState::WaitAck) => t2 == (FileTransfer {
                state: FTState::SendChunk,
                ..t
            }),
            (FileMessageV::ChunkAck(_), FTState::WaitLastAck) => t2 == (FileTransfer {
                state: FTState::Done,
                completed_at: now,
                ..t
            }),
            _ => t2 == t,
        }
    } else {
        match (message, t.state) {
            (FileMessageV::Chunk(_, data), FTState::WaitChunk) => {
                &&& t2.content@ == t.content@ + data
                &&& t2.num_bytes == (if t.num_bytes + data.len() <= u64::MAX {
                    t.num_bytes + data.len()
                } else {
                    u64::MAX as int
                })
                &&& t2.last_active == now
                &&& (t2.state is SendAck <==> data.len() >= crate::CHUNK_SIZE)
                &&& (t2.state is SendLastAck <==> data.len() < crate::CHUNK_SIZE)
                &&& t2.pos == t.pos
                &&& t2.completed_at == t.completed_at
                &&& t2.opened == t.opened
            },
            _ => t2 == t,
        }
    }
}

/// Transition of `FileTransfer::next`: `t2` is `t` after producing the next
/// outgoing message `r`.
pub open spec fn ft_next_rel(t: FileTransfer, t2: FileTransfer, r: Option<FileMessageV>, now: u64) -> bool {
    &&& t2.wf()
    &&& t2.id == t.id
    &&& t2.from == t.from
    &&& t2.to == t.to
    &&& t2.file == t.file
    &&& t2.created_at == t.created_at
    &&& match t.state {
        FTState::SendChunk => {
            &&& t2.content == t.content
            &&& match r {
                Some(msg) => {
                    &&& msg == FileMessageV::Chunk(
                        t.id,
                        t.content@.subrange(t.pos as int, t2.pos as int),
                    )
                    &&& t2.pos == t.pos + (if t.content@.len() - t.pos >= crate::CHUNK_SIZE {
                        crate::CHUNK_SIZE as int
                    } else {
                        t.content@.len() - t.pos
                    })
                    &&& (t2.state is WaitAck <==> t2.pos - t.pos == crate::CHUNK_SIZE)
                    &&& (t2.state is WaitLastAck <==> t2.pos - t.pos < crate::CHUNK_SIZE)
                },
                None => false,
            }
        },
        FTState::SendAck => t2 == (FileTransfer { state: FTState::WaitChunk, ..t }) && (
        r matches Some(msg) && msg == FileMessageV::ChunkAck(t.id)),
        FTState::SendLastAck => t2 == (FileTransfer {
            state: FTState::Done,
            completed_at: now,
            ..t
        }) && (r matches Some(msg) && msg == FileMessageV::ChunkAck(t.id)),
        _ => t2 == t && r is None,
    }
}

/// Transition of `FileTransfer::start_upload`.
pub open spec fn ft_start_upload_rel(
    t: FileTransfer,
    t2: FileTransfer,
    open: Option<Seq<u8>>,
    r: Option<FileMessageV>,
    now: u64,
) -> bool {
    &&& t2.wf()
    &&& t2.id == t.id
    &&& t2.from == t.from
    &&& t2.to == t.to
    &&& t2.file == t.file
    &&& t2.created_at == t.created_at
    &&& match open {
        None => r is None && (t2.state matches FTState::Error(e) && e@ == text_open_error())
            && t2.content == t.content,
        Some(data) => {
            &&& t2.opened
            &&& t2.content@ == data
            &&& t2.last_active == now
            &&& match r {
                Some(msg) => msg == FileMessageV::Chunk(
                    t.id,
                    t2.content@.subrange(0, t2.pos as int),
                ) && t2.pos == (if data.len() >= crate::CHUNK_SIZE {
                    crate::CHUNK_SIZE as int
                } else {
                    data.len() as int
                }) && t2.num_bytes == t2.pos && (t2.state is WaitAck <==> t2.pos
                    == crate::CHUNK_SIZE) && (t2.state is WaitLastAck <==> t2.pos
                    < crate::CHUNK_SIZE),
                None => false,
            }
        },
    }
}

/// A transfer freshly created for `id` between `from` and `to`.
pub open spec fn ft_fresh(t: FileTransfer, id: u32, from: Seq<u8>, to: Seq<u8>, file: Seq<u8>, now: u64) -> bool {
    &&& t.id == id
    &&& t.from@ == from
    &&& t.to@ == to
    &&& t.file@ == file
    &&& t.state is New
    &&& !t.opened
    &&& t.content@.len() == 0
    &&& t.pos == 0
    &&& t.created_at == now
    &&& t.last_active == now
    &&& t.completed_at == 0
    &&& t.num_bytes == 0
}

/// The sender is the transfer's counterparty.
pub open spec fn valid_sender(t: FileTransfer, from: Seq<u8>) -> bool {
    if t.spec_is_upload() {
        from == t.to@
    } else {
        from == t.from@
    }
}

/// The outbox after optionally sending a file message back.
pub open spec fn outbox_after_reply(
    pre: Seq<MessageV>,
    from_peer: Seq<u8>,
    from_client: u16,
    client_id: u16,
    out: Option<FileMessageV>,
) -> Seq<MessageV> {
    match out {
        Some(b) => pre.push(file_reply_msg(from_peer, from_client, client_id, b)),
        None => pre,
    }
}

/// Effect of one chunk or acknowledgement addressed to transfer `id`.
pub open spec fn file_chunk_effect(
    pre: FileClient,
    post: FileClient,
    from_peer: Seq<u8>,
    from_client: u16,
    id: u32,
    body: FileMessageV,
    now: u64,
) -> bool {
    &&& post.client_id == pre.client_id
    &&& post.peers == pre.peers
    &&& post.shares == pre.shares
    &&& if !has_transfer(pre.transfers@, id) {
        post.transfers == pre.transfers && post.outbox == pre.outbox
    } else {
        exists|i: int|
            {
                &&& 0 <= i < pre.transfers@.len()
                &&& (#[trigger] pre.transfers@[i]).0 == id
                &&& if !valid_sender(pre.transfers@[i].1, from_peer) {
                    post.transfers == pre.transfers && post.outbox == pre.outbox
                } else {
                    exists|mid: FileTransfer, t2: FileTransfer, out: Option<FileMessageV>|
                        {
                            &&& ft_handle_rel(pre.transfers@[i].1, mid, body, now)
                            &&& ft_next_rel(mid, t2, out, now)
                            &&& post.transfers@ == pre.transfers@.update(i, (id, t2))
                            &&& fobv(post.outbox@) == outbox_after_reply(
                                fobv(pre.outbox@),
                                from_peer,
                                from_client,
                                pre.client_id,
                                out,
                            )
                        }
                }
            }
    }
}

/// Effect of one file message received from a peer: the share list is
/// served and displayed, downloads are requested, and chunks and their
/// acknowledgements drive the addressed transfer.
pub open spec fn file_msg_effect(
    pre: FileClient,
    post: FileClient,
    from_peer: Seq<u8>,
    from_client: u16,
    body: FileMessageV,
    open: Option<Seq<u8>>,
    now: u64,
    display: Option<Seq<(Seq<u8>, u64)>>,
) -> bool {
    match body {
        FileMessageV::List => {
            &&& post.client_id == pre.client_id
            &&& post.peers == pre.peers
            &&& post.shares == pre.shares
            &&& post.transfers == pre.transfers
            &&& fobv(post.outbox@) == fobv(pre.outbox@).push(
                file_reply_msg(
                    from_peer,
                    from_client,
                    pre.client_id,
                    FileMessageV::ListReply(shares_view(pre.shares@)),
                ),
            )
            &&& display is None
        },
        FileMessageV::ListReply(l) => post == pre && display == Some(l),
        FileMessageV::Get(id, file) => {
            &&& display is None
            &&& post.client_id == pre.client_id
            &&& post.peers == pre.peers
            &&& post.shares == pre.shares
            &&& if has_transfer(pre.transfers@, id) {
                exists|i: int|
                    {
                        &&& 0 <= i < pre.transfers@.len()
                        &&& (#[trigger] pre.transfers@[i]).0 == id
                        &&& exists|t2: FileTransfer, out: Option<FileMessageV>|
                            {
                                &&& ft_next_rel(pre.transfers@[i].1, t2, out, now)
                                &&& post.transfers@ == pre.transfers@.update(i, (id, t2))
                                &&& fobv(post.outbox@) == outbox_after_reply(
                                    fobv(pre.outbox@),
                                    from_peer,
                                    from_client,
                                    pre.client_id,
                                    out,
                                )
                            }
                    }
            } else if has_share(pre.shares@, file) {
                exists|t0: FileTransfer, t2: FileTransfer, out: Option<FileMessageV>|
                    {
                        &&& ft_fresh(t0, id, Seq::empty(), from_peer, file, now)
                        &&& ft_start_upload_rel(t0, t2, open, out, now)
                        &&& post.transfers@ == pre.transfers@.push((id, t2))
                        &&& fobv(post.outbox@) == outbox_after_reply(
                            fobv(pre.outbox@),
                            from_peer,
                            from_client,
                            pre.client_id,
                            out,
                        )
                    }
            } else {
                post.transfers == pre.transfers && post.outbox == pre.outbox
            }
        },
        FileMessageV::Chunk(id, _) => display is None && file_chunk_effect(
            pre,
            post,
            from_peer,
            from_client,
            id,
            body,
            now,
        ),
        FileMessageV::ChunkAck(id) => display is None && file_chunk_effect(
            pre,
            post,
            from_peer,
            from_client,
            id,
            body,
            now,
        ),
    }
}

impl FileClient {
    /// Handle one file message from a peer; `open` carries the contents of
    /// the requested file when the message may start an upload.  Returns a
    /// share list to display, when the message was a list reply.
    pub fn handle_daemon_message_file(
        &mut self,
        from_peer: Vec<u8>,
        from_client: u16,
        file_message: FileMessage,
        open: Option<Vec<u8>>,
        now: u64,
    ) -> (display: Option<Vec<(Vec<u8>, u64)>>)
        requires
            old(self).wf(),
        ensures
            final(self).wf(),
            file_msg_effect(
                *old(self),
                *final(self),
                from_peer@,
                from_client,
                file_message@,
                match open {
                    Some(ref v) => Some(v@),
                    None => None,
                },
                now,
                match display {
                    Some(ref l) => Some(shares_view(l@)),
                    None => None,
                },
            ),
    {
        match file_message {
            FileMessage::List => {
                let reply = FileMessage::ListReply(clone_share_list(&self.shares));
                self.push_file_reply(from_peer, from_client, &reply);
                None
            },
            FileMessage::ListReply(l) => Some(l),
            FileMessage::Get(id, file) => {
                match self.find_transfer(id) {
                    Some(i) => {
                        let ghost a = self.transfers@;
                        let out = self.transfers[i].1.next(now);
                        proof {
                            lemma_table_update(a, self.transfers@, i as int);
                        }
                        match out {
                            Some(b) => {
                                self.push_file_reply(from_peer, from_client, &b);
                            },
                            None => {},
                        }
                        None
                    },
                    None => {
                        self.handle_get_request(file, id, from_peer, from_client, open, now);
                        None
                    },
                }
            },
            FileMessage::Chunk(id, data) => {
                self.handle_chunk_message(
                    from_peer,
                    from_client,
                    id,
                    FileMessage::Chunk(id, data),
                    now,
                );
                None
            },
            FileMessage::ChunkAck(id) => {
                self.handle_chunk_message(
                    from_peer,
                    from_client,
                    id,
                    FileMessage::ChunkAck(id),
                    now,
                );
                None
            },
        }
    }

    /// Drive the transfer addressed by a chunk or acknowledgement.
    fn handle_chunk_message(
        &mut self,
        from_peer: Vec<u8>,
        from_client: u16,
        id: u32,
        body: FileMessage,
        now: u64,
    )
        requires
            old(self).wf(),
            body@ matches FileMessageV::Chunk(id2, _) ==> id2 == id,
            body@ matches FileMessageV::ChunkAck(id2) ==> id2 == id,
        ensures
            final(self).wf(),
            file_chunk_effect(
                *old(self),
                *final(self),
                from_peer@,
                from_client,
                id,
                body@,
                now,
            ),
    {
        match self.find_transfer(id) {
            None => {
            },
            Some(i) => {
                let valid = self.transfers[i].1.is_valid_sender(&from_peer);
                if valid {
                    let ghost a = self.transfers@;
                    self.transfers[i].1.handle(body, now);
                    let ghost amid = self.transfers@;
                    let out = self.transfers[i].1.next(now);
                    proof {
                        lemma_table_update(a, amid, i as int);
                        lemma_table_update(amid, self.transfers@, i as int);
                        assert(self.transfers@ =~= a.update(
                            i as int,
                            (id, self.transfers@[i as int].1),
                        ));
                    }
                    match out {
                        Some(b) => {
                            self.push_file_reply(from_peer, from_client, &b);
                        },
                        None => {},
                    }
                }
            },
        }
    }

    /// Accept a get request from a peer: for a shared file under a fresh
    /// id, start the upload from the opened contents and queue its first
    /// message; anything else changes nothing.
    pub fn handle_get_request(
        &mut self,
        file: Vec<u8>,
        id: u32,
        from: Vec<u8>,
        from_client: u16,
        open: Option<Vec<u8>>,
        now: u64,
    )
        requires
            old(self).wf(),
            !has_transfer(old(self).transfers@, id),
        ensures
            final(self).wf(),
            final(self).client_id == old(self).client_id,
            final(self).peers == old(self).peers,
            final(self).shares == old(self).shares,
            if has_share(old(self).shares@, file@) {
                exists|t0: FileTransfer, t2: FileTransfer, out: Option<FileMessageV>|
                    {
                        &&& ft_fresh(t0, id, Seq::empty(), from@, file@, now)
                        &&& ft_start_upload_rel(
                            t0,
                            t2,
                            match open {
                                Some(ref v) => Some(v@),
                                None => None,
                            },
                            out,
                            now,
                        )
                        &&& final(self).transfers@ == old(self).transfers@.push((id, t2))
                        &&& fobv(final(self).outbox@) == outbox_after_reply(
                            fobv(old(self).outbox@),
                            from@,
                            from_client,
                            old(self).client_id,
                            out,
                        )
                    }
            } else {
                final(self).transfers == old(self).transfers && final(self).outbox == old(
                    self,
                ).outbox
            },
    {
        if !self.is_shared(&file) {
            return ;
        }
        let t0 = FileTransfer::new(id, Vec::new(), clone_bytes(&from), file, now);
        let ghost t0v = t0;
        let ghost openv: Option<Seq<u8>> = match open {
            Some(ref v) => Some(v@),
            None => None,
        };
        let mut t = t0;
        let out = t.start_upload(open, now);
        let ghost outv: Option<FileMessageV> = match out {
            Some(ref b) => Some(b@),
            None => None,
        };
        let ghost t2w = t;
        proof {
            assert(t0v.to@ == from@ && t0v.file@ == file@);
            assert(ft_fresh(t0v, id, Seq::empty(), from@, file@, now));
            assert(openv == (match open {
                Some(ref v) => Some(v@),
                None => None,
            }));
            assert(ft_start_upload_rel(
                t0v,
                t2w,
                match open {
                    Some(ref v) => Some(v@),
                    None => None,
                },
                outv,
                now,
            ));
        }
        let ghost a = self.transfers@;
        self.transfers.push((id, t));
        proof {
            assert forall|p: int, q: int| 0 <= p < q < self.transfers@.len() implies (
            #[trigger] self.transfers@[p]).0 != (#[trigger] self.transfers@[q]).0 by {
                if q == self.transfers@.len() - 1 {
                    assert(self.transfers@[p] == a[p]);
                    assert(!has_transfer(a, id));
                } else {
                    assert(self.transfers@[p] == a[p]);
                    assert(self.transfers@[q] == a[q]);
                }
            }
            assert forall|p: int| 0 <= p < self.transfers@.len() implies (
            #[trigger] self.transfers@[p]).1.wf() && !(self.transfers@[p].1.state is New) by {
                if p < self.transfers@.len() - 1 {
                    assert(self.transfers@[p] == a[p]);
                }
            }
        }
        match out {
            Some(b) => {
                self.push_file_reply(from, from_client, &b);
            },
            None => {},
        }
        proof {
            assert(self.transfers@.last().1 == t2w);
            assert(self.transfers@ == a.push((id, t2w)));
            assert(fobv(self.outbox@) == outbox_after_reply(
                fobv(old(self).outbox@),
                from@,
                from_client,
                old(self).client_id,
                outv,
            ));
            assert(exists|t0: FileTransfer, t2: FileTransfer, out: Option<FileMessageV>|
                {
                    &&& ft_fresh(t0, id, Seq::empty(), from@, file@, now)
                    &&& ft_start_upload_rel(
                        t0,
                        t2,
                        match open {
                            Some(ref v) => Some(v@),
                            None => None,
                        },
                        out,
                        now,
                    )
                    &&& self.transfers@ == old(self).transfers@.push((id, t2))
                    &&& fobv(self.outbox@) == outbox_after_reply(
                        fobv(old(self).outbox@),
                        from@,
                        from_client,
                        old(self).client_id,
                        out,
                    )
                });
        }
    }

    /// Queue one file message back to the peer it came from.
    fn push_file_reply(&mut self, to_peer: Vec<u8>, to_client: u16, body: &FileMessage)
        requires
            old(self).wf(),
        ensures
            final(self).wf(),
            final(self).client_id == old(self).client_id,
            final(self).peers == old(self).peers,
            final(self).shares == old(self).shares,
            final(self).transfers == old(self).transfers,
            fobv(final(self).outbox@) == fobv(old(self).outbox@).push(
                file_reply_msg(to_peer@, to_client, old(self).client_id, body@),
            ),
    {
        let content = encode_file_message(body);
        let m = Message::Message {
            to_peer,
            from_peer: Vec::new(),
            to_client,
            from_client: self.client_id,
            service: Service::File.id(),
            content,
        };
        let ghost prev = self.outbox@;
        let ghost mv = m@;
        self.outbox.push(m);
        proof {
            assert(fobv(self.outbox@) =~= fobv(prev).push(mv));
        }
    }

    /// Start a download of `file` from `peer` / `to_client` under the fresh
    /// id `id`; the request message is queued when the destination file
    /// could be created.
    pub fn handle_user_command_get(
        &mut self,
        peer: Vec<u8>,
        to_client: u16,
        file: Vec<u8>,
        id: u32,
        open_ok: bool,
        now: u64,
    )
        requires
            old(self).wf(),
            !has_transfer(old(self).transfers@, id),
            peer@.len() > 0,
        ensures
            final(self).wf(),
            final(self).client_id == old(self).client_id,
            final(self).peers == old(self).peers,
            final(self).shares == old(self).shares,
            exists|t2: FileTransfer|
                {
                    &&& (exists|t0: FileTransfer|
                        ft_fresh(t0, id, peer@, Seq::empty(), file@, now) && (if open_ok {
                            t2.opened && t2.state is WaitChunk && t2.id == id && t2.from == t0.from
                                && t2.file == t0.file
                        } else {
                            t2.state matches FTState::Error(e) && e@ == text_open_error()
                        }))
                    &&& final(self).transfers@ == old(self).transfers@.push((id, t2))
                },
            fobv(final(self).outbox@) == if open_ok {
                fobv(old(self).outbox@).push(
                    file_reply_msg(
                        peer@,
                        to_client,
                        old(self).client_id,
                        FileMessageV::Get(id, file@),
                    ),
                )
            } else {
                fobv(old(self).outbox@)
            },
    {
        let t0 = FileTransfer::new(id, clone_bytes(&peer), Vec::new(), file, now);
        let ghost t0v = t0;
        let mut t = t0;
        let out = t.start_download(open_ok, now);
        proof {
            assert(ft_fresh(t0v, id, peer@, Seq::empty(), t0v.file@, now));
        }
        let ghost a = self.transfers@;
        self.transfers.push((id, t));
        proof {
            assert forall|p: int, q: int| 0 <= p < q < self.transfers@.len() implies (
            #[trigger] self.transfers@[p]).0 != (#[trigger] self.transfers@[q]).0 by {
                if q == self.transfers@.len() - 1 {
                    assert(self.transfers@[p] == a[p]);
                    assert(!has_transfer(a, id));
                } else {
                    assert(self.transfers@[p] == a[p]);
                    assert(self.transfers@[q] == a[q]);
                }
            }
            assert forall|p: int| 0 <= p < self.transfers@.len() implies (
            #[trigger] self.transfers@[p]).1.wf() && !(self.transfers@[p].1.state is New) by {
                if p < self.transfers@.len() - 1 {
                    assert(self.transfers@[p] == a[p]);
                }
            }
        }
        match out {
            Some(b) => {
                self.push_file_reply(peer, to_client, &b);
            },
            None => {},
        }
    }
}

/// The file this node would upload in answer to `msg`: the requested name,
/// when the message is a get request addressed to this client for a shared
/// file under a fresh transfer id.
pub open spec fn wanted_upload_spec(c: FileClient, msg: MessageV) -> Option<Seq<u8>> {
    match msg {
        MessageV::Message { to_client, service, content, .. } => {
            if to_client == c.client_id && service == Service::File.spec_id() {
                match parse_file_message(content, 0) {
                    Some((FileMessageV::Get(id, file), end)) => if end == content.len()
                        && !has_transfer(c.transfers@, id) && has_share(c.shares@, file) {
                        Some(file)
                    } else {
                        None
                    },
                    _ => None,
                }
            } else {
                None
            }
        },
        _ => None,
    }
}

impl FileClient {
    /// The file whose contents the caller should read before handing `msg`
    /// to the message handler, because it may start an upload.
    pub fn wanted_upload(&self, msg: &Message) -> (r: Option<Vec<u8>>)
        ensures
            opt_bytes(r) == wanted_upload_spec(*self, msg@),
    {
        match msg {
            Message::Message { to_client, service, content, .. } => {
                if *to_client == self.client_id && *service == Service::File.id() {
                    match decode_file_message(content) {
                        Some(FileMessage::Get(id, file)) => {
                            if !self.contains_transfer(id) && self.is_shared(&file) {
                                Some(file)
                            } else {
                                None
                            }
                        },
                        _ => None,
                    }
                } else {
                    None
                }
            },
            _ => None,
        }
    }

    /// Ask one file client on one peer for its share list.
    pub fn handle_user_command_ls(&mut self, peer: Vec<u8>, to_client: u16)
        requires
            old(self).wf(),
        ensures
            final(self).wf(),
            final(self).client_id == old(self).client_id,
            final(self).peers == old(self).peers,
            final(self).shares == old(self).shares,
            final(self).transfers == old(self).transfers,
            fobv(final(self).outbox@) == fobv(old(self).outbox@).push(
                file_reply_msg(peer@, to_client, old(self).client_id, FileMessageV::List),
            ),
    {
        self.push_file_reply(peer, to_client, &FileMessage::List);
    }
}

impl FileClient {
    /// Dispatch one message received from the daemon: the registration
    /// reply fixes this client's id; a service update for the file service
    /// replaces the peer map; a per-service message addressed to this
    /// client drives the file handlers.  Everything else is dropped.
    pub fn handle_daemon_message(
        &mut self,
        message: Message,
        open: Option<Vec<u8>>,
        now: u64,
    ) -> (display: Option<Vec<(Vec<u8>, u64)>>)
        requires
            old(self).wf(),
        ensures
            final(self).wf(),
            match message@ {
                MessageV::RegisterOk { client_id } => final(self).client_id == client_id && final(self).peers == old(self).peers && final(self).shares == old(self).shares && final(self).transfers == old(self).transfers && final(self).outbox == old(self).outbox
                    && display is None,
                MessageV::Event { to_client, event, .. } => display is None && (
                if to_client == old(self).client_id && (event matches EventV::ServiceUpdate(svc, _)
                    && svc == Service::File.spec_id()) {
                    final(self).client_id == old(self).client_id && final(self).shares == old(self).shares && final(self).transfers == old(self).transfers && final(self).outbox
                        == old(self).outbox && crate::message::pcs_view(final(self).peers@)
                        == event->ServiceUpdate_1
                } else {
                    *final(self) == *old(self)
                }),
                MessageV::Message { from_peer, from_client, to_client, service, content, .. } => (
                if to_client == old(self).client_id && service == Service::File.spec_id() {
                    match parse_file_message(content, 0) {
                        Some((body, end)) => if end == content.len() {
                            file_msg_effect(
                                *old(self),
                                *final(self),
                                from_peer,
                                from_client,
                                body,
                                match open {
                                    Some(ref v) => Some(v@),
                                    None => None,
                                },
                                now,
                                match display {
                                    Some(ref l) => Some(shares_view(l@)),
                                    None => None,
                                },
                            )
                        } else {
                            *final(self) == *old(self) && display is None
                        },
                        None => *final(self) == *old(self) && display is None,
                    }
                } else {
                    *final(self) == *old(self) && display is None
                }),
                _ => *final(self) == *old(self) && display is None,
            },
    {
        match message {
            Message::RegisterOk { client_id } => {
                self.client_id = client_id;
                None
            },
            Message::Event { to_client, from_client: _, event } => {
                if to_client == self.client_id {
                    match event {
                        Event::ServiceUpdate(svc, m) => {
                            if svc == Service::File.id() {
                                self.peers = m;
                            }
                        },
                        _ => {},
                    }
                }
                None
            },
            Message::Message { to_peer: _, from_peer, to_client, from_client, service, content } => {
                if to_client == self.client_id && service == Service::File.id() {
                    match decode_file_message(&content) {
                        Some(body) => self.handle_daemon_message_file(
                            from_peer,
                            from_client,
                            body,
                            open,
                            now,
                        ),
                        None => None,
                    }
                } else {
                    None
                }
            },
            _ => None,
        }
    }
}

/// A decimal digit.
pub open spec fn is_digit(b: u8) -> bool {
    48 <= b <= 57
}

/// The value of a decimal digit string.
pub open spec fn dec_val(s: Seq<u8>) -> int
    decreases s.len(),
{
    if s.len() == 0 {
        0
    } else {
        dec_val(s.drop_last()) * 10 + (s.last() - 48)
    }
}

/// `s` splits at its first slash into a peer id and the decimal client id
/// `c`.
pub open spec fn splits_to(s: Seq<u8>, peer: Seq<u8>, c: u16, k: int) -> bool {
    &&& 0 <= k < s.len() - 1
    &&& s[k] == 47
    &&& (forall|j: int| 0 <= j < k ==> s[j] != 47)
    &&& peer == s.subrange(0, k)
    &&& (forall|j: int| k < j < s.len() ==> is_digit(#[trigger] s[j]))
    &&& dec_val(s.subrange(k + 1, s.len() as int)) == c
}

/// A longer digit string has at least the value of its prefix.
proof fn lemma_dec_val_grows(s: Seq<u8>, i: int)
    requires
        0 <= i <= s.len(),
        forall|j: int| 0 <= j < s.len() ==> is_digit(#[trigger] s[j]),
    ensures
        dec_val(s) >= dec_val(s.subrange(0, i)),
        dec_val(s) >= 0,
    decreases s.len() - i,
{
    if i == s.len() {
        assert(s.subrange(0, i) =~= s);
        lemma_dec_val_nonneg(s);
    } else {
        assert(s.subrange(0, i + 1).drop_last() =~= s.subrange(0, i));
        assert(dec_val(s.subrange(0, i + 1)) == dec_val(s.subrange(0, i)) * 10 + (s[i] - 48));
        assert(forall|j: int| 0 <= j < i ==> is_digit(#[trigger] s.subrange(0, i)[j]));
        lemma_dec_val_nonneg(s.subrange(0, i));
        lemma_dec_val_grows(s, i + 1);
    }
}

/// A digit string's value is never negative.
proof fn lemma_dec_val_nonneg(s: Seq<u8>)
    requires
        forall|j: int| 0 <= j < s.len() ==> is_digit(#[trigger] s[j]),
    ensures
        dec_val(s) >= 0,
    decreases s.len(),
{
    if s.len() > 0 {
        lemma_dec_val_nonneg(s.drop_last());
    }
}

/// Parse a download target of the form `peer/client`: the bytes before the
/// first slash name the peer, the decimal digits after it the client id.
pub fn parse_peer_client(s: &Vec<u8>) -> (r: Option<(Vec<u8>, u16)>)
    ensures
        match r {
            Some((peer, c)) => exists|k: int, p: Seq<u8>|
                #[trigger] splits_to(s@, p, c, k) && p == peer@,
            None => forall|peer: Seq<u8>, c: u16, k: int| !splits_to(s@, peer, c, k),
        },
{
    let mut k: usize = 0;
    while k < s.len() && s[k] != 47
        invariant
            k <= s@.len(),
            forall|j: int| 0 <= j < k ==> s@[j] != 47,
        decreases s@.len() - k,
    {
        k = k + 1;
    }
    if k >= s.len() || k + 1 >= s.len() {
        proof {
            assert forall|peer: Seq<u8>, c: u16, kk: int| !splits_to(s@, peer, c, kk) by {
                if 0 <= kk < s@.len() - 1 && s@[kk] == 47 {
                    assert(kk >= k);
                    assert(k < s@.len());
                }
            }
        }
        return None;
    }
    let mut peer: Vec<u8> = Vec::new();
    let mut j: usize = 0;
    while j < k
        invariant
            j <= k < s@.len(),
            peer@ == s@.subrange(0, j as int),
        decreases k - j,
    {
        peer.push(s[j]);
        proof {
            assert(s@.subrange(0, j + 1) =~= s@.subrange(0, j as int).push(s@[j as int]));
        }
        j = j + 1;
    }
    let mut val: u64 = 0;
    let mut i: usize = k + 1;
    while i < s.len()
        invariant
            k + 1 <= i <= s@.len(),
            k < s@.len() - 1,
            s@[k as int] == 47,
            forall|j2: int| 0 <= j2 < k ==> s@[j2] != 47,
            forall|j2: int| k < j2 < i ==> is_digit(#[trigger] s@[j2]),
            val <= 65535,
            val == dec_val(s@.subrange(k + 1, i as int)),
        decreases s@.len() - i,
    {
        let b = s[i];
        proof {
            assert(s@.subrange(k + 1, i + 1).drop_last() =~= s@.subrange(k + 1, i as int));
            assert(s@.subrange(k + 1, i + 1).last() == s@[i as int]);
        }
        if b < 48 || b > 57 {
            proof {
                assert forall|peer2: Seq<u8>, c: u16, kk: int| !splits_to(s@, peer2, c, kk) by {
                    if 0 <= kk < s@.len() - 1 && s@[kk] == 47 && (forall|j2: int|
                        0 <= j2 < kk ==> s@[j2] != 47) {
                        assert(kk == k) by {
                            if kk < k {
                                assert(s@[kk] != 47);
                            } else if kk > k {
                                assert(s@[k as int] != 47);
                            }
                        }
                        assert(!is_digit(s@[i as int]));
                    }
                }
            }
            return None;
        }
        let d = (b - 48) as u64;
        if val > 6553 || (val == 6553 && d > 5) {
            proof {
                assert forall|peer2: Seq<u8>, c: u16, kk: int| !splits_to(s@, peer2, c, kk) by {
                    if 0 <= kk < s@.len() - 1 && s@[kk] == 47 && (forall|j2: int|
                        0 <= j2 < kk ==> s@[j2] != 47) && (forall|j2: int|
                        kk < j2 < s@.len() ==> is_digit(#[trigger] s@[j2])) {
                        assert(kk == k) by {
                            if kk < k {
                                assert(s@[kk] != 47);
                            } else if kk > k {
                                assert(s@[k as int] != 47);
                            }
                        }
                        let tail = s@.subrange(k + 1, s@.len() as int);
                        assert(dec_val(s@.subrange(k + 1, i + 1)) > 65535);
                        assert(forall|j2: int|
                            0 <= j2 < tail.len() ==> is_digit(#[trigger] tail[j2]));
                        lemma_dec_val_grows(tail, i + 1 - (k + 1));
                        assert(tail.subrange(0, i + 1 - (k + 1)) =~= s@.subrange(k + 1, i + 1));
                        assert(dec_val(tail) > 65535);
                    }
                }
            }
            return None;
        }
        val = val * 10 + d;
        i = i + 1;
    }
    proof {
        assert(s@.subrange(k + 1, s@.len() as int) =~= s@.subrange(k + 1, i as int));
        assert(splits_to(s@, peer@, val as u16, k as int));
    }
    let r = Some((peer, val as u16));
    proof {
        assert((r->0).0@ == s@.subrange(0, k as int));
        assert(splits_to(s@, (r->0).0@, (r->0).1, k as int));
        assert(exists|kk: int, p: Seq<u8>| #[trigger] splits_to(s@, p, (r->0).1, kk) && p
            == (r->0).0@);
    }
    r
}

/// Bytes received equal bytes sent: one chunk exchanged moves the sender's
/// window forward by exactly the chunk, and appends exactly those bytes to
/// the receiver's content.
pub proof fn lemma_chunk_bytes_equal(
    s1: FileTransfer,
    s2: FileTransfer,
    out: FileMessageV,
    r1: FileTransfer,
    r2: FileTransfer,
    now1: u64,
    now2: u64,
)
    requires
        s1.state is SendChunk,
        ft_next_rel(s1, s2, Some(out), now1),
        r1.state is WaitChunk,
        !r1.spec_is_upload(),
        ft_handle_rel(r1, r2, out, now2),
    ensures
        out == FileMessageV::Chunk(
            s1.id,
            s1.content@.subrange(s1.pos as int, s2.pos as int),
        ),
        r2.content@ == r1.content@ + s1.content@.subrange(s1.pos as int, s2.pos as int),
{
}

/// Exactly one acknowledgement per chunk: after taking a chunk, the next
/// outgoing message is one `ChunkAck`, and the receiver then waits for the
/// next chunk, or completes after the last one.
pub proof fn lemma_one_ack_per_chunk(
    r2: FileTransfer,
    r3: FileTransfer,
    ack: Option<FileMessageV>,
    now: u64,
)
    requires
        r2.state is SendAck || r2.state is SendLastAck,
        ft_next_rel(r2, r3, ack, now),
    ensures
        ack == Some(FileMessageV::ChunkAck(r2.id)),
        r2.state is SendAck ==> r3.state is WaitChunk,
        r2.state is SendLastAck ==> r3.state is Done,
{
}

/// A copy of a share list with the same view.
pub fn clone_share_list(l: &Vec<(Vec<u8>, u64)>) -> (r: Vec<(Vec<u8>, u64)>)
    ensures
        shares_view(r@) == shares_view(l@),
{
    let mut out: Vec<(Vec<u8>, u64)> = Vec::new();
    let mut i: usize = 0;
    while i < l.len()
        invariant
            i <= l.len(),
            shares_view(out@) == shares_view(l@.subrange(0, i as int)),
        decreases l.len() - i,
    {
        let ghost prev = out@;
        let name = clone_bytes(&l[i].0);
        let size = l[i].1;
        out.push((name, size));
        proof {
            assert(prev.len() == shares_view(prev).len());
            assert(prev.len() == i as int);
            assert forall|j: int| 0 <= j < prev.len() + 1 implies shares_view(out@)[j]
                == shares_view(l@.subrange(0, i + 1))[j] by {
                if j < prev.len() {
                    assert(out@[j] == prev[j]);
                    assert(shares_view(prev)[j] == shares_view(l@.subrange(0, i as int))[j]);
                    assert(shares_view(l@.subrange(0, i as int))[j] == (l@.subrange(
                        0,
                        i as int,
                    )[j].0@, l@.subrange(0, i as int)[j].1));
                    assert(l@.subrange(0, i as int)[j] == l@.subrange(0, i + 1)[j]);
                } else {
                    assert(l@.subrange(0, i + 1)[j] == l@[i as int]);
                }
            }
            assert(shares_view(out@) =~= shares_view(l@.subrange(0, i + 1)));
        }
        i = i + 1;
    }
    proof {
        assert(l@.subrange(0, l@.len() as int) =~= l@);
    }
    out
}

/// In a table with unique ids, changing the entry at `i` leaves the others
/// and turns the table into an update at `i`.
proof fn lemma_table_update(a: Seq<(u32, FileTransfer)>, b: Seq<(u32, FileTransfer)>, i: int)
    requires
        0 <= i < a.len(),
        b == a.update(i, b[i]),
    ensures
        forall|j: int| 0 <= j < a.len() && j != i ==> #[trigger] b[j] == a[j],
        b.len() == a.len(),
{
}

/// Transfer ids in a transfer table are unique; every transfer is well
/// formed and past `New`.
pub open spec fn cs_like_wf(ts: Seq<(u32, FileTransfer)>) -> bool {
    &&& forall|i: int, j: int|
        0 <= i < j < ts.len() ==> (#[trigger] ts[i]).0 != (#[trigger] ts[j]).0
    &&& forall|i: int|
        0 <= i < ts.len() ==> (#[trigger] ts[i]).1.wf() && !(ts[i].1.state is New)
}

} // verus!
