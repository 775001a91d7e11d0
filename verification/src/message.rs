//! The daemon's data model and its wire encoding: peer records, get/set
//! requests, events and the envelope message, as tagged CBOR values.
//!
//! Structs are encoded as maps from numeric field index to value; enums as a
//! two-element array of variant tag and field map.  Decoders ignore unknown
//! field indices and reject unknown variant tags and missing mandatory fields.

use crate::cbor;
use crate::idset::{self, IdSet};
use vstd::prelude::*;

verus! {

/// Well-known service numbers.
#[derive(Debug, PartialEq)]
pub enum Service {
    Service,
    Chat,
    File,
}

impl Service {
    /// The 16-bit id of this service.
    pub open spec fn spec_id(self) -> u16 {
        match self {
            Service::Service => 1,
            Service::Chat => 1025,
            Service::File => 1026,
        }
    }

    pub fn id(self) -> (r: u16)
        ensures
            r == self.spec_id(),
    {
        match self {
            Service::Service => 1,
            Service::Chat => 1025,
            Service::File => 1026,
        }
    }
}

/// A known peer: opaque id, display name, services tag and the time of the
/// last gossip refresh in unix seconds.
#[derive(Debug, PartialEq)]
pub struct PeerInfo {
    pub peer_id: Vec<u8>,
    pub name: Vec<u8>,
    pub services_tag: u32,
    pub last_update: u64,
}

/// Mathematical model of a peer record.
pub struct PeerInfoV {
    pub peer_id: Seq<u8>,
    pub name: Seq<u8>,
    pub services_tag: u32,
    pub last_update: u64,
}

impl View for PeerInfo {
    type V = PeerInfoV;

    open spec fn view(&self) -> PeerInfoV {
        PeerInfoV {
            peer_id: self.peer_id@,
            name: self.name@,
            services_tag: self.services_tag,
            last_update: self.last_update,
        }
    }
}

impl Clone for PeerInfo {
    fn clone(&self) -> (r: Self)
        ensures
            r@ == self@,
    {
        PeerInfo {
            peer_id: clone_bytes(&self.peer_id),
            name: clone_bytes(&self.name),
            services_tag: self.services_tag,
            last_update: self.last_update,
        }
    }
}

/// Byte vectors hold the same bytes.
pub fn bytes_eq(a: &Vec<u8>, b: &Vec<u8>) -> (r: bool)
    ensures
        r == (a@ == b@),
{
    if a.len() != b.len() {
        return false;
    }
    let mut i: usize = 0;
    while i < a.len()
        invariant
            i <= a.len(),
            a@.len() == b@.len(),
            forall|k: int| 0 <= k < i ==> a@[k] == b@[k],
        decreases a.len() - i,
    {
        if a[i] != b[i] {
            return false;
        }
        i = i + 1;
    }
    proof {
        assert(a@ =~= b@);
    }
    true
}

/// Every vector's length fits the wire format's 64-bit size fields.
pub proof fn lemma_vec_len_bound<T>(v: &Vec<T>)
    ensures
        v@.len() <= u64::MAX,
{
    assert(vstd::std_specs::vec::spec_vec_len(v) == v@.len());
}

/// Copy of a byte vector.
pub fn clone_bytes(v: &Vec<u8>) -> (r: Vec<u8>)
    ensures
        r@ == v@,
{
    let mut out: Vec<u8> = Vec::new();
    let mut i: usize = 0;
    while i < v.len()
        invariant
            i <= v.len(),
            out@ == v@.subrange(0, i as int),
        decreases v.len() - i,
    {
        out.push(v[i]);
        proof {
            assert(v@.subrange(0, i + 1) =~= v@.subrange(0, i as int).push(v@[i as int]));
        }
        i = i + 1;
    }
    proof {
        assert(v@.subrange(0, v@.len() as int) =~= v@);
    }
    out
}

pub open spec fn wf_peer_info(p: PeerInfoV) -> bool {
    p.peer_id.len() <= u64::MAX && p.name.len() <= u64::MAX
}

/// Encoded peer record: field 3 of the wire format is reserved and absent.
pub open spec fn enc_peer_info(p: PeerInfoV) -> Seq<u8> {
    cbor::enc_map(4) + cbor::enc_uint(0) + cbor::enc_str(3, p.peer_id) + cbor::enc_uint(1)
        + cbor::enc_str(3, p.name) + cbor::enc_uint(2) + cbor::enc_uint(p.services_tag as u64)
        + cbor::enc_uint(4) + cbor::enc_uint(p.last_update)
}

pub open spec fn parse_peer_info_entries(
    s: Seq<u8>,
    pos: int,
    n: nat,
    f0: Option<Seq<u8>>,
    f1: Option<Seq<u8>>,
    f2: Option<u32>,
    f4: Option<u64>,
) -> Option<(PeerInfoV, int)>
    decreases n,
{
    if n == 0 {
        match (f0, f1, f2, f4) {
            (Some(peer_id), Some(name), Some(services_tag), Some(last_update)) => Some(
                (PeerInfoV { peer_id, name, services_tag, last_update }, pos),
            ),
            _ => None,
        }
    } else {
        match cbor::parse_uint(s, pos) {
            None => None,
            Some((k, p1)) => {
                if k == 0 {
                    match cbor::parse_str(s, p1, 3) {
                        Some((b, p2)) => parse_peer_info_entries(
                            s,
                            p2,
                            (n - 1) as nat,
                            Some(b),
                            f1,
                            f2,
                            f4,
                        ),
                        None => None,
                    }
                } else if k == 1 {
                    match cbor::parse_str(s, p1, 3) {
                        Some((b, p2)) => parse_peer_info_entries(
                            s,
                            p2,
                            (n - 1) as nat,
                            f0,
                            Some(b),
                            f2,
                            f4,
                        ),
                        None => None,
                    }
                } else if k == 2 {
                    match cbor::parse_uint(s, p1) {
                        Some((v, p2)) => if v <= u32::MAX as u64 {
                            parse_peer_info_entries(
                                s,
                                p2,
                                (n - 1) as nat,
                                f0,
                                f1,
                                Some(v as u32),
                                f4,
                            )
                        } else {
                            None
                        },
                        None => None,
                    }
                } else if k == 4 {
                    match cbor::parse_uint(s, p1) {
                        Some((v, p2)) => parse_peer_info_entries(
                            s,
                            p2,
                            (n - 1) as nat,
                            f0,
                            f1,
                            f2,
                            Some(v),
                        ),
                        None => None,
                    }
                } else {
                    match cbor::skip_n(s, p1, 1) {
                        Some(p2) => parse_peer_info_entries(s, p2, (n - 1) as nat, f0, f1, f2, f4),
                        None => None,
                    }
                }
            },
        }
    }
}

pub open spec fn parse_peer_info(s: Seq<u8>, pos: int) -> Option<(PeerInfoV, int)> {
    match cbor::parse_map(s, pos) {
        Some((n, p1)) => parse_peer_info_entries(s, p1, n as nat, None, None, None, None),
        None => None,
    }
}

/// Parsing an encoded peer record yields the record back.
#[verifier::rlimit(100)]
#[verifier::spinoff_prover]
pub proof fn lemma_parse_peer_info_enc(s: Seq<u8>, pos: int, p: PeerInfoV)
    requires
        wf_peer_info(p),
        cbor::bytes_at(s, pos, enc_peer_info(p)),
    ensures
        parse_peer_info(s, pos) == Some((p, pos + enc_peer_info(p).len())),
{
    let m = cbor::enc_map(4);
    let k0 = cbor::enc_uint(0);
    let v0 = cbor::enc_str(3, p.peer_id);
    let k1 = cbor::enc_uint(1);
    let v1 = cbor::enc_str(3, p.name);
    let k2 = cbor::enc_uint(2);
    let v2 = cbor::enc_uint(p.services_tag as u64);
    let k4 = cbor::enc_uint(4);
    let v4 = cbor::enc_uint(p.last_update);
    cbor::lemma_bytes_at_split(s, pos, m + k0 + v0 + k1 + v1 + k2 + v2 + k4, v4);
    cbor::lemma_bytes_at_split(s, pos, m + k0 + v0 + k1 + v1 + k2 + v2, k4);
    cbor::lemma_bytes_at_split(s, pos, m + k0 + v0 + k1 + v1 + k2, v2);
    cbor::lemma_bytes_at_split(s, pos, m + k0 + v0 + k1 + v1, k2);
    cbor::lemma_bytes_at_split(s, pos, m + k0 + v0 + k1, v1);
    cbor::lemma_bytes_at_split(s, pos, m + k0 + v0, k1);
    cbor::lemma_bytes_at_split(s, pos, m + k0, v0);
    cbor::lemma_bytes_at_split(s, pos, m, k0);
    let p0 = pos + m.len();
    let p0v = p0 + k0.len();
    let p1 = p0v + v0.len();
    let p1v = p1 + k1.len();
    let p2 = p1v + v1.len();
    let p2v = p2 + k2.len();
    let p4 = p2v + v2.len();
    let p4v = p4 + k4.len();
    let pe = p4v + v4.len();
    cbor::lemma_parse_map_enc(s, pos, 4);
    cbor::lemma_parse_uint_enc(s, p0, 0);
    cbor::lemma_parse_str_enc(s, p0v, 3, p.peer_id);
    cbor::lemma_parse_uint_enc(s, p1, 1);
    cbor::lemma_parse_str_enc(s, p1v, 3, p.name);
    cbor::lemma_parse_uint_enc(s, p2, 2);
    cbor::lemma_parse_uint_enc(s, p2v, p.services_tag as u64);
    cbor::lemma_parse_uint_enc(s, p4, 4);
    cbor::lemma_parse_uint_enc(s, p4v, p.last_update);
    assert(parse_peer_info_entries(s, p0, 4, None, None, None, None)
        == parse_peer_info_entries(s, p1, 3, Some(p.peer_id), None, None, None));
    assert(parse_peer_info_entries(s, p1, 3, Some(p.peer_id), None, None, None)
        == parse_peer_info_entries(s, p2, 2, Some(p.peer_id), Some(p.name), None, None));
    assert(parse_peer_info_entries(s, p2, 2, Some(p.peer_id), Some(p.name), None, None)
        == parse_peer_info_entries(
        s,
        p4,
        1,
        Some(p.peer_id),
        Some(p.name),
        Some(p.services_tag),
        None,
    ));
    assert(parse_peer_info_entries(
        s,
        p4,
        1,
        Some(p.peer_id),
        Some(p.name),
        Some(p.services_tag),
        None,
    ) == parse_peer_info_entries(
        s,
        pe,
        0,
        Some(p.peer_id),
        Some(p.name),
        Some(p.services_tag),
        Some(p.last_update),
    ));
}

/// Append the encoding of `p` to `out`.
pub fn write_peer_info(p: &PeerInfo, out: &mut Vec<u8>)
    ensures
        final(out)@ == old(out)@ + enc_peer_info(p@),
{
    cbor::write_map(4, out);
    cbor::write_uint(0, out);
    cbor::write_str(3, &p.peer_id, out);
    cbor::write_uint(1, out);
    cbor::write_str(3, &p.name, out);
    cbor::write_uint(2, out);
    cbor::write_uint(p.services_tag as u64, out);
    cbor::write_uint(4, out);
    cbor::write_uint(p.last_update, out);
}

pub open spec fn opt_bytes(o: Option<Vec<u8>>) -> Option<Seq<u8>> {
    match o {
        Some(v) => Some(v@),
        None => None,
    }
}

/// Read a peer record at `pos`.
pub fn read_peer_info(buf: &Vec<u8>, pos: usize) -> (r: Option<(PeerInfo, usize)>)
    ensures
        match r {
            Some((p, end)) => parse_peer_info(buf@, pos as int) == Some((p@, end as int)) && pos
                < end <= buf.len(),
            None => parse_peer_info(buf@, pos as int) is None,
        },
{
    match cbor::read_map(buf, pos) {
        None => None,
        Some((n, p1)) => {
            let mut f0: Option<Vec<u8>> = None;
            let mut f1: Option<Vec<u8>> = None;
            let mut f2: Option<u32> = None;
            let mut f4: Option<u64> = None;
            let mut cur: usize = p1;
            let mut rem: u64 = n;
            loop
                invariant
                    pos < cur <= buf.len(),
                    parse_peer_info(buf@, pos as int) == parse_peer_info_entries(
                        buf@,
                        cur as int,
                        rem as nat,
                        opt_bytes(f0),
                        opt_bytes(f1),
                        f2,
                        f4,
                    ),
                decreases rem,
            {
                if rem == 0 {
                    match (f0, f1, f2, f4) {
                        (Some(peer_id), Some(name), Some(services_tag), Some(last_update)) => {
                            return Some(
                                (PeerInfo { peer_id, name, services_tag, last_update }, cur),
                            );
                        },
                        _ => {
                            return None;
                        },
                    }
                }
                match cbor::read_uint(buf, cur) {
                    None => {
                        return None;
                    },
                    Some((k, p2)) => {
                        if k == 0 {
                            match cbor::read_str(buf, p2, 3) {
                                None => {
                                    return None;
                                },
                                Some((b, p3)) => {
                                    f0 = Some(b);
                                    cur = p3;
                                    rem = rem - 1;
                                },
                            }
                        } else if k == 1 {
                            match cbor::read_str(buf, p2, 3) {
                                None => {
                                    return None;
                                },
                                Some((b, p3)) => {
                                    f1 = Some(b);
                                    cur = p3;
                                    rem = rem - 1;
                                },
                            }
                        } else if k == 2 {
                            match cbor::read_uint(buf, p2) {
                                None => {
                                    return None;
                                },
                                Some((v, p3)) => {
                                    if v <= 0xffff_ffff {
                                        f2 = Some(v as u32);
                                        cur = p3;
                                        rem = rem - 1;
                                    } else {
                                        return None;
                                    }
                                },
                            }
                        } else if k == 4 {
                            match cbor::read_uint(buf, p2) {
                                None => {
                                    return None;
                                },
                                Some((v, p3)) => {
                                    f4 = Some(v);
                                    cur = p3;
                                    rem = rem - 1;
                                },
                            }
                        } else {
                            match cbor::skip_items(buf, p2, 1) {
                                None => {
                                    return None;
                                },
                                Some(p3) => {
                                    cur = p3;
                                    rem = rem - 1;
                                },
                            }
                        }
                    },
                }
            }
        },
    }
}

/// View of a vector of peer records.
pub open spec fn peers_view(v: Seq<PeerInfo>) -> Seq<PeerInfoV> {
    v.map_values(|p: PeerInfo| p@)
}

pub open spec fn wf_peer_list(ps: Seq<PeerInfoV>) -> bool {
    ps.len() <= u64::MAX && forall|i: int| 0 <= i < ps.len() ==> wf_peer_info(#[trigger] ps[i])
}

pub open spec fn enc_peer_list_items(ps: Seq<PeerInfoV>) -> Seq<u8>
    decreases ps.len(),
{
    if ps.len() == 0 {
        Seq::empty()
    } else {
        enc_peer_info(ps[0]) + enc_peer_list_items(ps.drop_first())
    }
}

/// Encoded list of peer records: an array of maps.
pub open spec fn enc_peer_list(ps: Seq<PeerInfoV>) -> Seq<u8> {
    cbor::enc_array(ps.len() as u64) + enc_peer_list_items(ps)
}

pub open spec fn parse_peer_list_items(s: Seq<u8>, pos: int, n: nat, acc: Seq<PeerInfoV>) -> Option<
    (Seq<PeerInfoV>, int),
>
    decreases n,
{
    if n == 0 {
        Some((acc, pos))
    } else {
        match parse_peer_info(s, pos) {
            Some((p, p1)) => parse_peer_list_items(s, p1, (n - 1) as nat, acc.push(p)),
            None => None,
        }
    }
}

pub open spec fn parse_peer_list(s: Seq<u8>, pos: int) -> Option<(Seq<PeerInfoV>, int)> {
    match cbor::parse_array(s, pos) {
        Some((n, p1)) => parse_peer_list_items(s, p1, n as nat, Seq::empty()),
        None => None,
    }
}

proof fn lemma_parse_peer_list_items_enc(s: Seq<u8>, pos: int, ps: Seq<PeerInfoV>, acc: Seq<
    PeerInfoV,
>)
    requires
        forall|i: int| 0 <= i < ps.len() ==> wf_peer_info(#[trigger] ps[i]),
        cbor::bytes_at(s, pos, enc_peer_list_items(ps)),
    ensures
        parse_peer_list_items(s, pos, ps.len(), acc) == Some(
            (acc + ps, pos + enc_peer_list_items(ps).len()),
        ),
    decreases ps.len(),
{
    if ps.len() == 0 {
        assert(acc + ps =~= acc);
    } else {
        let p = ps[0];
        let rest = ps.drop_first();
        cbor::lemma_bytes_at_split(s, pos, enc_peer_info(p), enc_peer_list_items(rest));
        lemma_parse_peer_info_enc(s, pos, p);
        let p1 = pos + enc_peer_info(p).len();
        assert(acc.push(p) + rest =~= acc + ps);
        lemma_parse_peer_list_items_enc(s, p1, rest, acc.push(p));
    }
}

/// Parsing an encoded peer list yields the list back.
pub proof fn lemma_parse_peer_list_enc(s: Seq<u8>, pos: int, ps: Seq<PeerInfoV>)
    requires
        wf_peer_list(ps),
        cbor::bytes_at(s, pos, enc_peer_list(ps)),
    ensures
        parse_peer_list(s, pos) == Some((ps, pos + enc_peer_list(ps).len())),
{
    cbor::lemma_bytes_at_split(s, pos, cbor::enc_array(ps.len() as u64), enc_peer_list_items(ps));
    cbor::lemma_parse_array_enc(s, pos, ps.len() as u64);
    let p1 = pos + cbor::enc_array(ps.len() as u64).len();
    assert(Seq::<PeerInfoV>::empty() + ps =~= ps);
    lemma_parse_peer_list_items_enc(s, p1, ps, Seq::empty());
}

proof fn lemma_enc_peer_list_items_push(ps: Seq<PeerInfoV>, p: PeerInfoV)
    ensures
        enc_peer_list_items(ps.push(p)) == enc_peer_list_items(ps) + enc_peer_info(p),
    decreases ps.len(),
{
    if ps.len() == 0 {
        assert(ps.push(p)[0] == p);
        assert(ps.push(p).drop_first() =~= Seq::<PeerInfoV>::empty());
        assert(enc_peer_list_items(ps.push(p)) == enc_peer_info(p) + enc_peer_list_items(
            ps.push(p).drop_first(),
        ));
        assert(enc_peer_info(p) + Seq::<u8>::empty() =~= enc_peer_info(p));
        assert(enc_peer_list_items(ps) + enc_peer_info(p) =~= enc_peer_info(p));
    } else {
        assert(ps.push(p)[0] == ps[0]);
        assert(ps.push(p).drop_first() =~= ps.drop_first().push(p));
        lemma_enc_peer_list_items_push(ps.drop_first(), p);
        assert(enc_peer_info(ps[0]) + (enc_peer_list_items(ps.drop_first()) + enc_peer_info(p))
            =~= (enc_peer_info(ps[0]) + enc_peer_list_items(ps.drop_first())) + enc_peer_info(p));
    }
}

/// Append the encoding of the peer list to `out`.
pub fn write_peer_list(ps: &Vec<PeerInfo>, out: &mut Vec<u8>)
    ensures
        final(out)@ == old(out)@ + enc_peer_list(peers_view(ps@)),
{
    cbor::write_array(ps.len() as u64, out);
    let mut i: usize = 0;
    while i < ps.len()
        invariant
            i <= ps.len(),
            out@ == old(out)@ + cbor::enc_array(ps@.len() as u64) + enc_peer_list_items(
                peers_view(ps@.subrange(0, i as int)),
            ),
        decreases ps.len() - i,
    {
        write_peer_info(&ps[i], out);
        proof {
            assert(peers_view(ps@.subrange(0, i + 1)) =~= peers_view(
                ps@.subrange(0, i as int),
            ).push(ps@[i as int]@));
            lemma_enc_peer_list_items_push(
                peers_view(ps@.subrange(0, i as int)),
                ps@[i as int]@,
            );
        }
        i = i + 1;
    }
    proof {
        assert(ps@.subrange(0, ps@.len() as int) =~= ps@);
        assert(old(out)@ + cbor::enc_array(ps@.len() as u64) + enc_peer_list_items(peers_view(ps@))
            =~= old(out)@ + enc_peer_list(peers_view(ps@)));
    }
}

/// Read a list of peer records at `pos`.
pub fn read_peer_list(buf: &Vec<u8>, pos: usize) -> (r: Option<(Vec<PeerInfo>, usize)>)
    ensures
        match r {
            Some((ps, end)) => parse_peer_list(buf@, pos as int) == Some(
                (peers_view(ps@), end as int),
            ) && pos < end <= buf.len(),
            None => parse_peer_list(buf@, pos as int) is None,
        },
{
    match cbor::read_array(buf, pos) {
        None => None,
        Some((n, p1)) => {
            let mut ps: Vec<PeerInfo> = Vec::new();
            let mut cur: usize = p1;
            let mut rem: u64 = n;
            proof {
                assert(peers_view(ps@) =~= Seq::<PeerInfoV>::empty());
            }
            loop
                invariant
                    pos < cur <= buf.len(),
                    parse_peer_list(buf@, pos as int) == parse_peer_list_items(
                        buf@,
                        cur as int,
                        rem as nat,
                        peers_view(ps@),
                    ),
                decreases rem,
            {
                if rem == 0 {
                    return Some((ps, cur));
                }
                match read_peer_info(buf, cur) {
                    None => {
                        return None;
                    },
                    Some((p, p2)) => {
                        proof {
                            assert(peers_view(ps@.push(p)) =~= peers_view(ps@).push(p@));
                        }
                        ps.push(p);
                        cur = p2;
                        rem = rem - 1;
                    },
                }
            }
        },
    }
}

// ---- generic single-field variant payloads ----

/// Payload of a variant without fields: an empty map, with unknown fields
/// skipped on decode.
pub open spec fn enc_unit_payload() -> Seq<u8> {
    cbor::enc_map(0)
}

pub open spec fn parse_unit_payload(s: Seq<u8>, pos: int) -> Option<int> {
    match cbor::parse_map(s, pos) {
        Some((n, p1)) => cbor::skip_n(s, p1, (2 * n) as nat),
        None => None,
    }
}

pub proof fn lemma_parse_unit_payload_enc(s: Seq<u8>, pos: int)
    requires
        cbor::bytes_at(s, pos, enc_unit_payload()),
    ensures
        parse_unit_payload(s, pos) == Some(pos + enc_unit_payload().len()),
{
    cbor::lemma_parse_map_enc(s, pos, 0);
}

pub fn read_unit_payload(buf: &Vec<u8>, pos: usize) -> (r: Option<usize>)
    ensures
        match r {
            Some(end) => parse_unit_payload(buf@, pos as int) == Some(end as int) && pos < end
                <= buf.len(),
            None => parse_unit_payload(buf@, pos as int) is None,
        },
{
    match cbor::read_map(buf, pos) {
        None => None,
        Some((n, p1)) => cbor::skip_items(buf, p1, 2 * (n as u128)),
    }
}

pub fn write_unit_payload(out: &mut Vec<u8>)
    ensures
        final(out)@ == old(out)@ + enc_unit_payload(),
{
    cbor::write_map(0, out);
}

/// Payload of a variant with one text field at index 0.
pub open spec fn enc_text_payload(b: Seq<u8>) -> Seq<u8> {
    cbor::enc_map(1) + cbor::enc_uint(0) + cbor::enc_str(3, b)
}

pub open spec fn parse_text_entries(s: Seq<u8>, pos: int, n: nat, f0: Option<Seq<u8>>) -> Option<
    (Seq<u8>, int),
>
    decreases n,
{
    if n == 0 {
        match f0 {
            Some(b) => Some((b, pos)),
            None => None,
        }
    } else {
        match cbor::parse_uint(s, pos) {
            None => None,
            Some((k, p1)) => {
                if k == 0 {
                    match cbor::parse_str(s, p1, 3) {
                        Some((b, p2)) => parse_text_entries(s, p2, (n - 1) as nat, Some(b)),
                        None => None,
                    }
                } else {
                    match cbor::skip_n(s, p1, 1) {
                        Some(p2) => parse_text_entries(s, p2, (n - 1) as nat, f0),
                        None => None,
                    }
                }
            },
        }
    }
}

pub open spec fn parse_text_payload(s: Seq<u8>, pos: int) -> Option<(Seq<u8>, int)> {
    match cbor::parse_map(s, pos) {
        Some((n, p1)) => parse_text_entries(s, p1, n as nat, None),
        None => None,
    }
}

pub proof fn lemma_parse_text_payload_enc(s: Seq<u8>, pos: int, b: Seq<u8>)
    requires
        b.len() <= u64::MAX,
        cbor::bytes_at(s, pos, enc_text_payload(b)),
    ensures
        parse_text_payload(s, pos) == Some((b, pos + enc_text_payload(b).len())),
{
    let m = cbor::enc_map(1);
    let k0 = cbor::enc_uint(0);
    let v0 = cbor::enc_str(3, b);
    cbor::lemma_bytes_at_split(s, pos, m + k0, v0);
    cbor::lemma_bytes_at_split(s, pos, m, k0);
    cbor::lemma_parse_map_enc(s, pos, 1);
    cbor::lemma_parse_uint_enc(s, pos + m.len(), 0);
    cbor::lemma_parse_str_enc(s, pos + m.len() + k0.len(), 3, b);
    let pe = pos + m.len() + k0.len() + v0.len();
    assert(parse_text_entries(s, pos + m.len(), 1, None) == parse_text_entries(s, pe, 0, Some(b)));
    assert(parse_text_entries(s, pe, 0, Some(b)) == Some((b, pe)));
}

pub fn read_text_payload(buf: &Vec<u8>, pos: usize) -> (r: Option<(Vec<u8>, usize)>)
    ensures
        match r {
            Some((v, end)) => parse_text_payload(buf@, pos as int) == Some((v@, end as int)) && pos
                < end <= buf.len(),
            None => parse_text_payload(buf@, pos as int) is None,
        },
{
    match cbor::read_map(buf, pos) {
        None => None,
        Some((n, p1)) => {
            let mut f0: Option<Vec<u8>> = None;
            let mut cur: usize = p1;
            let mut rem: u64 = n;
            loop
                invariant
                    pos < cur <= buf.len(),
                    parse_text_payload(buf@, pos as int) == parse_text_entries(
                        buf@,
                        cur as int,
                        rem as nat,
                        opt_bytes(f0),
                    ),
                decreases rem,
            {
                if rem == 0 {
                    match f0 {
                        Some(v) => {
                            return Some((v, cur));
                        },
                        None => {
                            return None;
                        },
                    }
                }
                match cbor::read_uint(buf, cur) {
                    None => {
                        return None;
                    },
                    Some((k, p2)) => {
                        if k == 0 {
                            match cbor::read_str(buf, p2, 3) {
                                None => {
                                    return None;
                                },
                                Some((b, p3)) => {
                                    f0 = Some(b);
                                    cur = p3;
                                    rem = rem - 1;
                                },
                            }
                        } else {
                            match cbor::skip_items(buf, p2, 1) {
                                None => {
                                    return None;
                                },
                                Some(p3) => {
                                    cur = p3;
                                    rem = rem - 1;
                                },
                            }
                        }
                    },
                }
            }
        },
    }
}

pub fn write_text_payload(b: &Vec<u8>, out: &mut Vec<u8>)
    ensures
        final(out)@ == old(out)@ + enc_text_payload(b@),
{
    cbor::write_map(1, out);
    cbor::write_uint(0, out);
    cbor::write_str(3, b, out);
}

/// Payload of a variant with one unsigned-integer field at index 0.
pub open spec fn enc_uint_payload(v: u64) -> Seq<u8> {
    cbor::enc_map(1) + cbor::enc_uint(0) + cbor::enc_uint(v)
}

pub open spec fn parse_uint_entries(s: Seq<u8>, pos: int, n: nat, f0: Option<u64>) -> Option<
    (u64, int),
>
    decreases n,
{
    if n == 0 {
        match f0 {
            Some(v) => Some((v, pos)),
            None => None,
        }
    } else {
        match cbor::parse_uint(s, pos) {
            None => None,
            Some((k, p1)) => {
                if k == 0 {
                    match cbor::parse_uint(s, p1) {
                        Some((v, p2)) => parse_uint_entries(s, p2, (n - 1) as nat, Some(v)),
                        None => None,
                    }
                } else {
                    match cbor::skip_n(s, p1, 1) {
                        Some(p2) => parse_uint_entries(s, p2, (n - 1) as nat, f0),
                        None => None,
                    }
                }
            },
        }
    }
}

pub open spec fn parse_uint_payload(s: Seq<u8>, pos: int) -> Option<(u64, int)> {
    match cbor::parse_map(s, pos) {
        Some((n, p1)) => parse_uint_entries(s, p1, n as nat, None),
        None => None,
    }
}

pub proof fn lemma_parse_uint_payload_enc(s: Seq<u8>, pos: int, v: u64)
    requires
        cbor::bytes_at(s, pos, enc_uint_payload(v)),
    ensures
        parse_uint_payload(s, pos) == Some((v, pos + enc_uint_payload(v).len())),
{
    let m = cbor::enc_map(1);
    let k0 = cbor::enc_uint(0);
    let v0 = cbor::enc_uint(v);
    cbor::lemma_bytes_at_split(s, pos, m + k0, v0);
    cbor::lemma_bytes_at_split(s, pos, m, k0);
    cbor::lemma_parse_map_enc(s, pos, 1);
    cbor::lemma_parse_uint_enc(s, pos + m.len(), 0);
    cbor::lemma_parse_uint_enc(s, pos + m.len() + k0.len(), v);
    let pe = pos + m.len() + k0.len() + v0.len();
    assert(parse_uint_entries(s, pos + m.len(), 1, None) == parse_uint_entries(s, pe, 0, Some(v)));
    assert(parse_uint_entries(s, pe, 0, Some(v)) == Some((v, pe)));
}

pub fn read_uint_payload(buf: &Vec<u8>, pos: usize) -> (r: Option<(u64, usize)>)
    ensures
        match r {
            Some((v, end)) => parse_uint_payload(buf@, pos as int) == Some((v, end as int)) && pos
                < end <= buf.len(),
            None => parse_uint_payload(buf@, pos as int) is None,
        },
{
    match cbor::read_map(buf, pos) {
        None => None,
        Some((n, p1)) => {
            let mut f0: Option<u64> = None;
            let mut cur: usize = p1;
            let mut rem: u64 = n;
            loop
                invariant
                    pos < cur <= buf.len(),
                    parse_uint_payload(buf@, pos as int) == parse_uint_entries(
                        buf@,
                        cur as int,
                        rem as nat,
                        f0,
                    ),
                decreases rem,
            {
                if rem == 0 {
                    match f0 {
                        Some(v) => {
                            return Some((v, cur));
                        },
                        None => {
                            return None;
                        },
                    }
                }
                match cbor::read_uint(buf, cur) {
                    None => {
                        return None;
                    },
                    Some((k, p2)) => {
                        if k == 0 {
                            match cbor::read_uint(buf, p2) {
                                None => {
                                    return None;
                                },
                                Some((v, p3)) => {
                                    f0 = Some(v);
                                    cur = p3;
                                    rem = rem - 1;
                                },
                            }
                        } else {
                            match cbor::skip_items(buf, p2, 1) {
                                None => {
                                    return None;
                                },
                                Some(p3) => {
                                    cur = p3;
                                    rem = rem - 1;
                                },
                            }
                        }
                    },
                }
            }
        },
    }
}

pub fn write_uint_payload(v: u64, out: &mut Vec<u8>)
    ensures
        final(out)@ == old(out)@ + enc_uint_payload(v),
{
    cbor::write_map(1, out);
    cbor::write_uint(0, out);
    cbor::write_uint(v, out);
}

/// Payload of a variant with one id-set field at index 0.
pub open spec fn enc_idset_payload(ids: Seq<u16>) -> Seq<u8> {
    cbor::enc_map(1) + cbor::enc_uint(0) + idset::enc_idset(ids)
}

pub open spec fn parse_idset_entries(s: Seq<u8>, pos: int, n: nat, f0: Option<Seq<u16>>) -> Option<
    (Seq<u16>, int),
>
    decreases n,
{
    if n == 0 {
        match f0 {
            Some(ids) => Some((ids, pos)),
            None => None,
        }
    } else {
        match cbor::parse_uint(s, pos) {
            None => None,
            Some((k, p1)) => {
                if k == 0 {
                    match idset::parse_idset(s, p1) {
                        Some((ids, p2)) => parse_idset_entries(s, p2, (n - 1) as nat, Some(ids)),
                        None => None,
                    }
                } else {
                    match cbor::skip_n(s, p1, 1) {
                        Some(p2) => parse_idset_entries(s, p2, (n - 1) as nat, f0),
                        None => None,
                    }
                }
            },
        }
    }
}

pub open spec fn parse_idset_payload(s: Seq<u8>, pos: int) -> Option<(Seq<u16>, int)> {
    match cbor::parse_map(s, pos) {
        Some((n, p1)) => parse_idset_entries(s, p1, n as nat, None),
        None => None,
    }
}

pub proof fn lemma_parse_idset_payload_enc(s: Seq<u8>, pos: int, ids: Seq<u16>)
    requires
        idset::sorted(ids),
        ids.len() <= u64::MAX,
        cbor::bytes_at(s, pos, enc_idset_payload(ids)),
    ensures
        parse_idset_payload(s, pos) == Some((ids, pos + enc_idset_payload(ids).len())),
{
    let m = cbor::enc_map(1);
    let k0 = cbor::enc_uint(0);
    let v0 = idset::enc_idset(ids);
    cbor::lemma_bytes_at_split(s, pos, m + k0, v0);
    cbor::lemma_bytes_at_split(s, pos, m, k0);
    cbor::lemma_parse_map_enc(s, pos, 1);
    cbor::lemma_parse_uint_enc(s, pos + m.len(), 0);
    idset::lemma_parse_idset_enc(s, pos + m.len() + k0.len(), ids);
    let pe = pos + m.len() + k0.len() + v0.len();
    assert(parse_idset_entries(s, pos + m.len(), 1, None) == parse_idset_entries(
        s,
        pe,
        0,
        Some(ids),
    ));
    assert(parse_idset_entries(s, pe, 0, Some(ids)) == Some((ids, pe)));
}

pub open spec fn opt_idset(o: Option<IdSet>) -> Option<Seq<u16>> {
    match o {
        Some(v) => Some(v@),
        None => None,
    }
}

pub fn read_idset_payload(buf: &Vec<u8>, pos: usize) -> (r: Option<(IdSet, usize)>)
    ensures
        match r {
            Some((ids, end)) => parse_idset_payload(buf@, pos as int) == Some((ids@, end as int))
                && ids.wf() && pos < end <= buf.len(),
            None => parse_idset_payload(buf@, pos as int) is None,
        },
{
    match cbor::read_map(buf, pos) {
        None => None,
        Some((n, p1)) => {
            let mut f0: Option<IdSet> = None;
            let mut cur: usize = p1;
            let mut rem: u64 = n;
            loop
                invariant
                    pos < cur <= buf.len(),
                    parse_idset_payload(buf@, pos as int) == parse_idset_entries(
                        buf@,
                        cur as int,
                        rem as nat,
                        opt_idset(f0),
                    ),
                    f0 is Some ==> f0->0.wf(),
                decreases rem,
            {
                if rem == 0 {
                    match f0 {
                        Some(ids) => {
                            return Some((ids, cur));
                        },
                        None => {
                            return None;
                        },
                    }
                }
                match cbor::read_uint(buf, cur) {
                    None => {
                        return None;
                    },
                    Some((k, p2)) => {
                        if k == 0 {
                            match idset::read_idset(buf, p2) {
                                None => {
                                    return None;
                                },
                                Some((ids, p3)) => {
                                    f0 = Some(ids);
                                    cur = p3;
                                    rem = rem - 1;
                                },
                            }
                        } else {
                            match cbor::skip_items(buf, p2, 1) {
                                None => {
                                    return None;
                                },
                                Some(p3) => {
                                    cur = p3;
                                    rem = rem - 1;
                                },
                            }
                        }
                    },
                }
            }
        },
    }
}

pub fn write_idset_payload(ids: &IdSet, out: &mut Vec<u8>)
    ensures
        final(out)@ == old(out)@ + enc_idset_payload(ids@),
{
    cbor::write_map(1, out);
    cbor::write_uint(0, out);
    idset::write_idset(ids, out);
}

/// Payload of a variant with one peer-list field at index 0.
pub open spec fn enc_peers_payload(ps: Seq<PeerInfoV>) -> Seq<u8> {
    cbor::enc_map(1) + cbor::enc_uint(0) + enc_peer_list(ps)
}

pub open spec fn parse_peers_entries(s: Seq<u8>, pos: int, n: nat, f0: Option<Seq<PeerInfoV>>)
    -> Option<(Seq<PeerInfoV>, int)>
    decreases n,
{
    if n == 0 {
        match f0 {
            Some(ps) => Some((ps, pos)),
            None => None,
        }
    } else {
        match cbor::parse_uint(s, pos) {
            None => None,
            Some((k, p1)) => {
                if k == 0 {
                    match parse_peer_list(s, p1) {
                        Some((ps, p2)) => parse_peers_entries(s, p2, (n - 1) as nat, Some(ps)),
                        None => None,
                    }
                } else {
                    match cbor::skip_n(s, p1, 1) {
                        Some(p2) => parse_peers_entries(s, p2, (n - 1) as nat, f0),
                        None => None,
                    }
                }
            },
        }
    }
}

pub open spec fn parse_peers_payload(s: Seq<u8>, pos: int) -> Option<(Seq<PeerInfoV>, int)> {
    match cbor::parse_map(s, pos) {
        Some((n, p1)) => parse_peers_entries(s, p1, n as nat, None),
        None => None,
    }
}

pub proof fn lemma_parse_peers_payload_enc(s: Seq<u8>, pos: int, ps: Seq<PeerInfoV>)
    requires
        wf_peer_list(ps),
        cbor::bytes_at(s, pos, enc_peers_payload(ps)),
    ensures
        parse_peers_payload(s, pos) == Some((ps, pos + enc_peers_payload(ps).len())),
{
    let m = cbor::enc_map(1);
    let k0 = cbor::enc_uint(0);
    let v0 = enc_peer_list(ps);
    cbor::lemma_bytes_at_split(s, pos, m + k0, v0);
    cbor::lemma_bytes_at_split(s, pos, m, k0);
    cbor::lemma_parse_map_enc(s, pos, 1);
    cbor::lemma_parse_uint_enc(s, pos + m.len(), 0);
    lemma_parse_peer_list_enc(s, pos + m.len() + k0.len(), ps);
    let pe = pos + m.len() + k0.len() + v0.len();
    assert(parse_peers_entries(s, pos + m.len(), 1, None) == parse_peers_entries(
        s,
        pe,
        0,
        Some(ps),
    ));
    assert(parse_peers_entries(s, pe, 0, Some(ps)) == Some((ps, pe)));
}

pub open spec fn opt_peers(o: Option<Vec<PeerInfo>>) -> Option<Seq<PeerInfoV>> {
    match o {
        Some(v) => Some(peers_view(v@)),
        None => None,
    }
}

pub fn read_peers_payload(buf: &Vec<u8>, pos: usize) -> (r: Option<(Vec<PeerInfo>, usize)>)
    ensures
        match r {
            Some((ps, end)) => parse_peers_payload(buf@, pos as int) == Some(
                (peers_view(ps@), end as int),
            ) && pos < end <= buf.len(),
            None => parse_peers_payload(buf@, pos as int) is None,
        },
{
    match cbor::read_map(buf, pos) {
        None => None,
        Some((n, p1)) => {
            let mut f0: Option<Vec<PeerInfo>> = None;
            let mut cur: usize = p1;
            let mut rem: u64 = n;
            loop
                invariant
                    pos < cur <= buf.len(),
                    parse_peers_payload(buf@, pos as int) == parse_peers_entries(
                        buf@,
                        cur as int,
                        rem as nat,
                        opt_peers(f0),
                    ),
                decreases rem,
            {
                if rem == 0 {
                    match f0 {
                        Some(ps) => {
                            return Some((ps, cur));
                        },
                        None => {
                            return None;
                        },
                    }
                }
                match cbor::read_uint(buf, cur) {
                    None => {
                        return None;
                    },
                    Some((k, p2)) => {
                        if k == 0 {
                            match read_peer_list(buf, p2) {
                                None => {
                                    return None;
                                },
                                Some((ps, p3)) => {
                                    f0 = Some(ps);
                                    cur = p3;
                                    rem = rem - 1;
                                },
                            }
                        } else {
                            match cbor::skip_items(buf, p2, 1) {
                                None => {
                                    return None;
                                },
                                Some(p3) => {
                                    cur = p3;
                                    rem = rem - 1;
                                },
                            }
                        }
                    },
                }
            }
        },
    }
}

pub fn write_peers_payload(ps: &Vec<PeerInfo>, out: &mut Vec<u8>)
    ensures
        final(out)@ == old(out)@ + enc_peers_payload(peers_view(ps@)),
{
    cbor::write_map(1, out);
    cbor::write_uint(0, out);
    write_peer_list(ps, out);
}

/// Payload of a variant with one peer-record field at index 0.
pub open spec fn enc_peer_info_payload(p: PeerInfoV) -> Seq<u8> {
    cbor::enc_map(1) + cbor::enc_uint(0) + enc_peer_info(p)
}

pub open spec fn parse_peer_info_entries1(s: Seq<u8>, pos: int, n: nat, f0: Option<PeerInfoV>)
    -> Option<(PeerInfoV, int)>
    decreases n,
{
    if n == 0 {
        match f0 {
            Some(p) => Some((p, pos)),
            None => None,
        }
    } else {
        match cbor::parse_uint(s, pos) {
            None => None,
            Some((k, p1)) => {
                if k == 0 {
                    match parse_peer_info(s, p1) {
                        Some((p, p2)) => parse_peer_info_entries1(s, p2, (n - 1) as nat, Some(p)),
                        None => None,
                    }
                } else {
                    match cbor::skip_n(s, p1, 1) {
                        Some(p2) => parse_peer_info_entries1(s, p2, (n - 1) as nat, f0),
                        None => None,
                    }
                }
            },
        }
    }
}

pub open spec fn parse_peer_info_payload(s: Seq<u8>, pos: int) -> Option<(PeerInfoV, int)> {
    match cbor::parse_map(s, pos) {
        Some((n, p1)) => parse_peer_info_entries1(s, p1, n as nat, None),
        None => None,
    }
}

pub proof fn lemma_parse_peer_info_payload_enc(s: Seq<u8>, pos: int, p: PeerInfoV)
    requires
        wf_peer_info(p),
        cbor::bytes_at(s, pos, enc_peer_info_payload(p)),
    ensures
        parse_peer_info_payload(s, pos) == Some((p, pos + enc_peer_info_payload(p).len())),
{
    let m = cbor::enc_map(1);
    let k0 = cbor::enc_uint(0);
    let v0 = enc_peer_info(p);
    cbor::lemma_bytes_at_split(s, pos, m + k0, v0);
    cbor::lemma_bytes_at_split(s, pos, m, k0);
    cbor::lemma_parse_map_enc(s, pos, 1);
    cbor::lemma_parse_uint_enc(s, pos + m.len(), 0);
    lemma_parse_peer_info_enc(s, pos + m.len() + k0.len(), p);
    let pe = pos + m.len() + k0.len() + v0.len();
    assert(parse_peer_info_entries1(s, pos + m.len(), 1, None) == parse_peer_info_entries1(
        s,
        pe,
        0,
        Some(p),
    ));
    assert(parse_peer_info_entries1(s, pe, 0, Some(p)) == Some((p, pe)));
}

pub open spec fn opt_peer_info(o: Option<PeerInfo>) -> Option<PeerInfoV> {
    match o {
        Some(p) => Some(p@),
        None => None,
    }
}

pub fn read_peer_info_payload(buf: &Vec<u8>, pos: usize) -> (r: Option<(PeerInfo, usize)>)
    ensures
        match r {
            Some((p, end)) => parse_peer_info_payload(buf@, pos as int) == Some((p@, end as int))
                && pos < end <= buf.len(),
            None => parse_peer_info_payload(buf@, pos as int) is None,
        },
{
    match cbor::read_map(buf, pos) {
        None => None,
        Some((n, p1)) => {
            let mut f0: Option<PeerInfo> = None;
            let mut cur: usize = p1;
            let mut rem: u64 = n;
            loop
                invariant
                    pos < cur <= buf.len(),
                    parse_peer_info_payload(buf@, pos as int) == parse_peer_info_entries1(
                        buf@,
                        cur as int,
                        rem as nat,
                        opt_peer_info(f0),
                    ),
                decreases rem,
            {
                if rem == 0 {
                    match f0 {
                        Some(p) => {
                            return Some((p, cur));
                        },
                        None => {
                            return None;
                        },
                    }
                }
                match cbor::read_uint(buf, cur) {
                    None => {
                        return None;
                    },
                    Some((k, p2)) => {
                        if k == 0 {
                            match read_peer_info(buf, p2) {
                                None => {
                                    return None;
                                },
                                Some((p, p3)) => {
                                    f0 = Some(p);
                                    cur = p3;
                                    rem = rem - 1;
                                },
                            }
                        } else {
                            match cbor::skip_items(buf, p2, 1) {
                                None => {
                                    return None;
                                },
                                Some(p3) => {
                                    cur = p3;
                                    rem = rem - 1;
                                },
                            }
                        }
                    },
                }
            }
        },
    }
}

pub fn write_peer_info_payload(p: &PeerInfo, out: &mut Vec<u8>)
    ensures
        final(out)@ == old(out)@ + enc_peer_info_payload(p@),
{
    cbor::write_map(1, out);
    cbor::write_uint(0, out);
    write_peer_info(p, out);
}

// ---- map of peer id to client set ----

/// View of a vector of (peer id, client set) pairs.
pub open spec fn pcs_view(v: Seq<(Vec<u8>, IdSet)>) -> Seq<(Seq<u8>, Seq<u16>)> {
    v.map_values(|pr: (Vec<u8>, IdSet)| (pr.0@, pr.1@))
}

pub open spec fn wf_peer_clients(m: Seq<(Seq<u8>, Seq<u16>)>) -> bool {
    &&& m.len() <= u64::MAX
    &&& forall|i: int|
        0 <= i < m.len() ==> (#[trigger] m[i]).0.len() <= u64::MAX && idset::sorted(m[i].1)
            && m[i].1.len() <= u64::MAX
}

pub open spec fn enc_peer_clients_items(m: Seq<(Seq<u8>, Seq<u16>)>) -> Seq<u8>
    decreases m.len(),
{
    if m.len() == 0 {
        Seq::empty()
    } else {
        cbor::enc_str(3, m[0].0) + idset::enc_idset(m[0].1) + enc_peer_clients_items(
            m.drop_first(),
        )
    }
}

/// Encoded map from peer id to the set of its clients: text keys, array values.
pub open spec fn enc_peer_clients(m: Seq<(Seq<u8>, Seq<u16>)>) -> Seq<u8> {
    cbor::enc_map(m.len() as u64) + enc_peer_clients_items(m)
}

pub open spec fn parse_peer_clients_items(
    s: Seq<u8>,
    pos: int,
    n: nat,
    acc: Seq<(Seq<u8>, Seq<u16>)>,
) -> Option<(Seq<(Seq<u8>, Seq<u16>)>, int)>
    decreases n,
{
    if n == 0 {
        Some((acc, pos))
    } else {
        match cbor::parse_str(s, pos, 3) {
            None => None,
            Some((key, p1)) => {
                match idset::parse_idset(s, p1) {
                    None => None,
                    Some((ids, p2)) => parse_peer_clients_items(
                        s,
                        p2,
                        (n - 1) as nat,
                        acc.push((key, ids)),
                    ),
                }
            },
        }
    }
}

pub open spec fn parse_peer_clients(s: Seq<u8>, pos: int) -> Option<(Seq<(Seq<u8>, Seq<u16>)>, int)> {
    match cbor::parse_map(s, pos) {
        Some((n, p1)) => parse_peer_clients_items(s, p1, n as nat, Seq::empty()),
        None => None,
    }
}

proof fn lemma_parse_peer_clients_items_enc(
    s: Seq<u8>,
    pos: int,
    m: Seq<(Seq<u8>, Seq<u16>)>,
    acc: Seq<(Seq<u8>, Seq<u16>)>,
)
    requires
        forall|i: int|
            0 <= i < m.len() ==> (#[trigger] m[i]).0.len() <= u64::MAX && idset::sorted(m[i].1)
                && m[i].1.len() <= u64::MAX,
        cbor::bytes_at(s, pos, enc_peer_clients_items(m)),
    ensures
        parse_peer_clients_items(s, pos, m.len(), acc) == Some(
            (acc + m, pos + enc_peer_clients_items(m).len()),
        ),
    decreases m.len(),
{
    if m.len() == 0 {
        assert(acc + m =~= acc);
    } else {
        let key = m[0].0;
        let ids = m[0].1;
        let rest = m.drop_first();
        let ek = cbor::enc_str(3, key);
        let ev = idset::enc_idset(ids);
        cbor::lemma_bytes_at_split(s, pos, ek + ev, enc_peer_clients_items(rest));
        cbor::lemma_bytes_at_split(s, pos, ek, ev);
        cbor::lemma_parse_str_enc(s, pos, 3, key);
        idset::lemma_parse_idset_enc(s, pos + ek.len(), ids);
        let p2 = pos + ek.len() + ev.len();
        assert(acc.push((key, ids)) + rest =~= acc + m);
        lemma_parse_peer_clients_items_enc(s, p2, rest, acc.push((key, ids)));
    }
}

/// Parsing an encoded peer-clients map yields the pairs back, in order.
pub proof fn lemma_parse_peer_clients_enc(s: Seq<u8>, pos: int, m: Seq<(Seq<u8>, Seq<u16>)>)
    requires
        wf_peer_clients(m),
        cbor::bytes_at(s, pos, enc_peer_clients(m)),
    ensures
        parse_peer_clients(s, pos) == Some((m, pos + enc_peer_clients(m).len())),
{
    cbor::lemma_bytes_at_split(s, pos, cbor::enc_map(m.len() as u64), enc_peer_clients_items(m));
    cbor::lemma_parse_map_enc(s, pos, m.len() as u64);
    let p1 = pos + cbor::enc_map(m.len() as u64).len();
    assert(Seq::<(Seq<u8>, Seq<u16>)>::empty() + m =~= m);
    lemma_parse_peer_clients_items_enc(s, p1, m, Seq::empty());
}

proof fn lemma_enc_peer_clients_items_push(m: Seq<(Seq<u8>, Seq<u16>)>, e: (Seq<u8>, Seq<u16>))
    ensures
        enc_peer_clients_items(m.push(e)) == enc_peer_clients_items(m) + (cbor::enc_str(3, e.0)
            + idset::enc_idset(e.1)),
    decreases m.len(),
{
    if m.len() == 0 {
        assert(m.push(e)[0] == e);
        assert(m.push(e).drop_first() =~= Seq::<(Seq<u8>, Seq<u16>)>::empty());
        assert(enc_peer_clients_items(m.push(e)) == cbor::enc_str(3, e.0) + idset::enc_idset(e.1)
            + enc_peer_clients_items(m.push(e).drop_first()));
        assert(enc_peer_clients_items(m) + (cbor::enc_str(3, e.0) + idset::enc_idset(e.1))
            =~= cbor::enc_str(3, e.0) + idset::enc_idset(e.1) + Seq::<u8>::empty());
    } else {
        assert(m.push(e)[0] == m[0]);
        assert(m.push(e).drop_first() =~= m.drop_first().push(e));
        lemma_enc_peer_clients_items_push(m.drop_first(), e);
        assert(enc_peer_clients_items(m.push(e)) =~= (cbor::enc_str(3, m[0].0) + idset::enc_idset(
            m[0].1,
        ) + enc_peer_clients_items(m.drop_first())) + (cbor::enc_str(3, e.0) + idset::enc_idset(
            e.1,
        )));
    }
}

/// Append the encoding of the peer-clients map to `out`.
pub fn write_peer_clients(m: &Vec<(Vec<u8>, IdSet)>, out: &mut Vec<u8>)
    ensures
        final(out)@ == old(out)@ + enc_peer_clients(pcs_view(m@)),
{
    cbor::write_map(m.len() as u64, out);
    let mut i: usize = 0;
    while i < m.len()
        invariant
            i <= m.len(),
            out@ == old(out)@ + cbor::enc_map(m@.len() as u64) + enc_peer_clients_items(
                pcs_view(m@.subrange(0, i as int)),
            ),
        decreases m.len() - i,
    {
        cbor::write_str(3, &m[i].0, out);
        idset::write_idset(&m[i].1, out);
        proof {
            assert(pcs_view(m@.subrange(0, i + 1)) =~= pcs_view(m@.subrange(0, i as int)).push(
                (m@[i as int].0@, m@[i as int].1@),
            ));
            lemma_enc_peer_clients_items_push(
                pcs_view(m@.subrange(0, i as int)),
                (m@[i as int].0@, m@[i as int].1@),
            );
        }
        i = i + 1;
    }
    proof {
        assert(m@.subrange(0, m@.len() as int) =~= m@);
        assert(old(out)@ + cbor::enc_map(m@.len() as u64) + enc_peer_clients_items(pcs_view(m@))
            =~= old(out)@ + enc_peer_clients(pcs_view(m@)));
    }
}

/// Read a peer-clients map at `pos`; every value set is well formed.
pub fn read_peer_clients(buf: &Vec<u8>, pos: usize) -> (r: Option<(Vec<(Vec<u8>, IdSet)>, usize)>)
    ensures
        match r {
            Some((m, end)) => parse_peer_clients(buf@, pos as int) == Some(
                (pcs_view(m@), end as int),
            ) && pos < end <= buf.len() && (forall|i: int|
                0 <= i < m@.len() ==> (#[trigger] m@[i]).1.wf()),
            None => parse_peer_clients(buf@, pos as int) is None,
        },
{
    match cbor::read_map(buf, pos) {
        None => None,
        Some((n, p1)) => {
            let mut m: Vec<(Vec<u8>, IdSet)> = Vec::new();
            let mut cur: usize = p1;
            let mut rem: u64 = n;
            proof {
                assert(pcs_view(m@) =~= Seq::<(Seq<u8>, Seq<u16>)>::empty());
            }
            loop
                invariant
                    pos < cur <= buf.len(),
                    parse_peer_clients(buf@, pos as int) == parse_peer_clients_items(
                        buf@,
                        cur as int,
                        rem as nat,
                        pcs_view(m@),
                    ),
                    forall|i: int| 0 <= i < m@.len() ==> (#[trigger] m@[i]).1.wf(),
                decreases rem,
            {
                if rem == 0 {
                    return Some((m, cur));
                }
                match cbor::read_str(buf, cur, 3) {
                    None => {
                        return None;
                    },
                    Some((key, p2)) => {
                        match idset::read_idset(buf, p2) {
                            None => {
                                return None;
                            },
                            Some((ids, p3)) => {
                                proof {
                                    assert(pcs_view(m@.push((key, ids))) =~= pcs_view(m@).push(
                                        (key@, ids@),
                                    ));
                                }
                                m.push((key, ids));
                                cur = p3;
                                rem = rem - 1;
                            },
                        }
                    },
                }
            }
        },
    }
}

// ---- get/set request content ----

/// Content of a get or set exchange.
#[derive(Debug, PartialEq)]
pub enum GetSet {
    Okay,
    Error(Vec<u8>),
    Name(Vec<u8>),
    Peers(Vec<PeerInfo>),
    Connect(Vec<u8>),
    ServicesTag(u32),
}

/// Mathematical model of get/set content.
pub enum GetSetV {
    Okay,
    Error(Seq<u8>),
    Name(Seq<u8>),
    Peers(Seq<PeerInfoV>),
    Connect(Seq<u8>),
    ServicesTag(u32),
}

impl View for GetSet {
    type V = GetSetV;

    open spec fn view(&self) -> GetSetV {
        match self {
            GetSet::Okay => GetSetV::Okay,
            GetSet::Error(b) => GetSetV::Error(b@),
            GetSet::Name(b) => GetSetV::Name(b@),
            GetSet::Peers(ps) => GetSetV::Peers(peers_view(ps@)),
            GetSet::Connect(b) => GetSetV::Connect(b@),
            GetSet::ServicesTag(t) => GetSetV::ServicesTag(*t),
        }
    }
}

pub fn clone_peer_list(ps: &Vec<PeerInfo>) -> (r: Vec<PeerInfo>)
    ensures
        peers_view(r@) == peers_view(ps@),
{
    let mut out: Vec<PeerInfo> = Vec::new();
    let mut i: usize = 0;
    while i < ps.len()
        invariant
            i <= ps.len(),
            peers_view(out@) == peers_view(ps@.subrange(0, i as int)),
        decreases ps.len() - i,
    {
        let ghost prev = out@;
        let c = ps[i].clone();
        out.push(c);
        proof {
            assert(prev.len() == peers_view(prev).len());
            assert(prev.len() == i as int);
            assert forall|j: int| 0 <= j < prev.len() + 1 implies peers_view(out@)[j] == peers_view(
                ps@.subrange(0, i + 1),
            )[j] by {
                if j < prev.len() {
                    assert(out@[j] == prev[j]);
                    assert(peers_view(prev)[j] == peers_view(ps@.subrange(0, i as int))[j]);
                    assert(peers_view(ps@.subrange(0, i as int))[j] == ps@.subrange(
                        0,
                        i as int,
                    )[j]@);
                    assert(ps@.subrange(0, i as int)[j] == ps@.subrange(0, i + 1)[j]);
                } else {
                    assert(out@[j] == c);
                    assert(ps@.subrange(0, i + 1)[j] == ps@[i as int]);
                }
            }
            assert(peers_view(out@) =~= peers_view(ps@.subrange(0, i + 1)));
        }
        i = i + 1;
    }
    proof {
        assert(ps@.subrange(0, ps@.len() as int) =~= ps@);
    }
    out
}

impl Clone for GetSet {
    fn clone(&self) -> (r: Self)
        ensures
            r@ == self@,
    {
        match self {
            GetSet::Okay => GetSet::Okay,
            GetSet::Error(b) => GetSet::Error(clone_bytes(b)),
            GetSet::Name(b) => GetSet::Name(clone_bytes(b)),
            GetSet::Peers(ps) => GetSet::Peers(clone_peer_list(ps)),
            GetSet::Connect(b) => GetSet::Connect(clone_bytes(b)),
            GetSet::ServicesTag(t) => GetSet::ServicesTag(*t),
        }
    }
}

pub open spec fn wf_getset(g: GetSetV) -> bool {
    match g {
        GetSetV::Okay => true,
        GetSetV::Error(b) => b.len() <= u64::MAX,
        GetSetV::Name(b) => b.len() <= u64::MAX,
        GetSetV::Peers(ps) => wf_peer_list(ps),
        GetSetV::Connect(b) => b.len() <= u64::MAX,
        GetSetV::ServicesTag(_) => true,
    }
}

/// Encoded get/set content: variant tag then a field map.
pub open spec fn enc_getset(g: GetSetV) -> Seq<u8> {
    match g {
        GetSetV::Okay => cbor::enc_array(2) + cbor::enc_uint(0) + enc_unit_payload(),
        GetSetV::Error(b) => cbor::enc_array(2) + cbor::enc_uint(1) + enc_text_payload(b),
        GetSetV::Name(b) => cbor::enc_array(2) + cbor::enc_uint(2) + enc_text_payload(b),
        GetSetV::Peers(ps) => cbor::enc_array(2) + cbor::enc_uint(3) + enc_peers_payload(ps),
        GetSetV::Connect(b) => cbor::enc_array(2) + cbor::enc_uint(4) + enc_text_payload(b),
        GetSetV::ServicesTag(t) => cbor::enc_array(2) + cbor::enc_uint(5) + enc_uint_payload(
            t as u64,
        ),
    }
}

pub open spec fn parse_getset(s: Seq<u8>, pos: int) -> Option<(GetSetV, int)> {
    match cbor::parse_array(s, pos) {
        None => None,
        Some((n, p1)) => if n != 2 {
            None
        } else {
            match cbor::parse_uint(s, p1) {
                None => None,
                Some((tag, p2)) => {
                    if tag == 0 {
                        match parse_unit_payload(s, p2) {
                            Some(p3) => Some((GetSetV::Okay, p3)),
                            None => None,
                        }
                    } else if tag == 1 {
                        match parse_text_payload(s, p2) {
                            Some((b, p3)) => Some((GetSetV::Error(b), p3)),
                            None => None,
                        }
                    } else if tag == 2 {
                        match parse_text_payload(s, p2) {
                            Some((b, p3)) => Some((GetSetV::Name(b), p3)),
                            None => None,
                        }
                    } else if tag == 3 {
                        match parse_peers_payload(s, p2) {
                            Some((ps, p3)) => Some((GetSetV::Peers(ps), p3)),
                            None => None,
                        }
                    } else if tag == 4 {
                        match parse_text_payload(s, p2) {
                            Some((b, p3)) => Some((GetSetV::Connect(b), p3)),
                            None => None,
                        }
                    } else if tag == 5 {
                        match parse_uint_payload(s, p2) {
                            Some((v, p3)) => if v <= u32::MAX as u64 {
                                Some((GetSetV::ServicesTag(v as u32), p3))
                            } else {
                                None
                            },
                            None => None,
                        }
                    } else {
                        None
                    }
                },
            }
        },
    }
}

/// Parsing encoded get/set content yields the content back.
#[verifier::rlimit(100)]
#[verifier::spinoff_prover]
pub proof fn lemma_parse_getset_enc(s: Seq<u8>, pos: int, g: GetSetV)
    requires
        wf_getset(g),
        cbor::bytes_at(s, pos, enc_getset(g)),
    ensures
        parse_getset(s, pos) == Some((g, pos + enc_getset(g).len())),
{
    let a = cbor::enc_array(2);
    match g {
        GetSetV::Okay => {
            let t = cbor::enc_uint(0);
            cbor::lemma_bytes_at_split(s, pos, a + t, enc_unit_payload());
            cbor::lemma_bytes_at_split(s, pos, a, t);
            cbor::lemma_parse_array_enc(s, pos, 2);
            cbor::lemma_parse_uint_enc(s, pos + a.len(), 0);
            lemma_parse_unit_payload_enc(s, pos + a.len() + t.len());
        },
        GetSetV::Error(b) => {
            let t = cbor::enc_uint(1);
            cbor::lemma_bytes_at_split(s, pos, a + t, enc_text_payload(b));
            cbor::lemma_bytes_at_split(s, pos, a, t);
            cbor::lemma_parse_array_enc(s, pos, 2);
            cbor::lemma_parse_uint_enc(s, pos + a.len(), 1);
            lemma_parse_text_payload_enc(s, pos + a.len() + t.len(), b);
        },
        GetSetV::Name(b) => {
            let t = cbor::enc_uint(2);
            cbor::lemma_bytes_at_split(s, pos, a + t, enc_text_payload(b));
            cbor::lemma_bytes_at_split(s, pos, a, t);
            cbor::lemma_parse_array_enc(s, pos, 2);
            cbor::lemma_parse_uint_enc(s, pos + a.len(), 2);
            lemma_parse_text_payload_enc(s, pos + a.len() + t.len(), b);
        },
        GetSetV::Peers(ps) => {
            let t = cbor::enc_uint(3);
            cbor::lemma_bytes_at_split(s, pos, a + t, enc_peers_payload(ps));
            cbor::lemma_bytes_at_split(s, pos, a, t);
            cbor::lemma_parse_array_enc(s, pos, 2);
            cbor::lemma_parse_uint_enc(s, pos + a.len(), 3);
            lemma_parse_peers_payload_enc(s, pos + a.len() + t.len(), ps);
        },
        GetSetV::Connect(b) => {
            let t = cbor::enc_uint(4);
            cbor::lemma_bytes_at_split(s, pos, a + t, enc_text_payload(b));
            cbor::lemma_bytes_at_split(s, pos, a, t);
            cbor::lemma_parse_array_enc(s, pos, 2);
            cbor::lemma_parse_uint_enc(s, pos + a.len(), 4);
            lemma_parse_text_payload_enc(s, pos + a.len() + t.len(), b);
        },
        GetSetV::ServicesTag(v) => {
            let t = cbor::enc_uint(5);
            cbor::lemma_bytes_at_split(s, pos, a + t, enc_uint_payload(v as u64));
            cbor::lemma_bytes_at_split(s, pos, a, t);
            cbor::lemma_parse_array_enc(s, pos, 2);
            cbor::lemma_parse_uint_enc(s, pos + a.len(), 5);
            lemma_parse_uint_payload_enc(s, pos + a.len() + t.len(), v as u64);
        },
    }
}

/// Read get/set content at `pos`.
pub fn read_getset(buf: &Vec<u8>, pos: usize) -> (r: Option<(GetSet, usize)>)
    ensures
        match r {
            Some((g, end)) => parse_getset(buf@, pos as int) == Some((g@, end as int)) && pos < end
                <= buf.len() && wf_getset(g@),
            None => parse_getset(buf@, pos as int) is None,
        },
{
    match cbor::read_array(buf, pos) {
        None => None,
        Some((n, p1)) => {
            if n != 2 {
                return None;
            }
            match cbor::read_uint(buf, p1) {
                None => None,
                Some((tag, p2)) => {
                    if tag == 0 {
                        match read_unit_payload(buf, p2) {
                            Some(p3) => Some((GetSet::Okay, p3)),
                            None => None,
                        }
                    } else if tag == 1 {
                        match read_text_payload(buf, p2) {
                            Some((b, p3)) => {
                                proof {
                                    lemma_vec_len_bound(&b);
                                }
                                Some((GetSet::Error(b), p3))
                            },
                            None => None,
                        }
                    } else if tag == 2 {
                        match read_text_payload(buf, p2) {
                            Some((b, p3)) => {
                                proof {
                                    lemma_vec_len_bound(&b);
                                }
                                Some((GetSet::Name(b), p3))
                            },
                            None => None,
                        }
                    } else if tag == 3 {
                        match read_peers_payload(buf, p2) {
                            Some((ps, p3)) => {
                                proof {
                                    lemma_vec_len_bound(&ps);
                                    assert forall|i: int| 0 <= i < peers_view(ps@).len() implies
                                        wf_peer_info(#[trigger] peers_view(ps@)[i]) by {
                                        lemma_vec_len_bound(&ps@[i].peer_id);
                                        lemma_vec_len_bound(&ps@[i].name);
                                        assert(peers_view(ps@)[i] == ps@[i]@);
                                    }
                                }
                                Some((GetSet::Peers(ps), p3))
                            },
                            None => None,
                        }
                    } else if tag == 4 {
                        match read_text_payload(buf, p2) {
                            Some((b, p3)) => {
                                proof {
                                    lemma_vec_len_bound(&b);
                                }
                                Some((GetSet::Connect(b), p3))
                            },
                            None => None,
                        }
                    } else if tag == 5 {
                        match read_uint_payload(buf, p2) {
                            Some((v, p3)) => if v <= 0xffff_ffff {
                                Some((GetSet::ServicesTag(v as u32), p3))
                            } else {
                                None
                            },
                            None => None,
                        }
                    } else {
                        None
                    }
                },
            }
        },
    }
}

/// Append the encoding of `g` to `out`.
pub fn write_getset(g: &GetSet, out: &mut Vec<u8>)
    ensures
        final(out)@ == old(out)@ + enc_getset(g@),
{
    cbor::write_array(2, out);
    match g {
        GetSet::Okay => {
            cbor::write_uint(0, out);
            write_unit_payload(out);
        },
        GetSet::Error(b) => {
            cbor::write_uint(1, out);
            write_text_payload(b, out);
        },
        GetSet::Name(b) => {
            cbor::write_uint(2, out);
            write_text_payload(b, out);
        },
        GetSet::Peers(ps) => {
            cbor::write_uint(3, out);
            write_peers_payload(ps, out);
        },
        GetSet::Connect(b) => {
            cbor::write_uint(4, out);
            write_text_payload(b, out);
        },
        GetSet::ServicesTag(t) => {
            cbor::write_uint(5, out);
            write_uint_payload(*t as u64, out);
        },
    }
}

// ---- events ----

/// Presence and service-directory events pushed to local clients.
#[derive(Debug, PartialEq)]
pub enum Event {
    /// Client added or removed: add flag, client id, its services.
    ClientUpdate(bool, u16, IdSet),
    /// A peer record was refreshed or expired.
    PeerUpdate(PeerInfo),
    /// For one service, the peers and clients that offer it.
    ServiceUpdate(u16, Vec<(Vec<u8>, IdSet)>),
}

/// Mathematical model of an event.
pub enum EventV {
    ClientUpdate(bool, u16, Seq<u16>),
    PeerUpdate(PeerInfoV),
    ServiceUpdate(u16, Seq<(Seq<u8>, Seq<u16>)>),
}

impl View for Event {
    type V = EventV;

    open spec fn view(&self) -> EventV {
        match self {
            Event::ClientUpdate(add, id, services) => EventV::ClientUpdate(*add, *id, services@),
            Event::PeerUpdate(p) => EventV::PeerUpdate(p@),
            Event::ServiceUpdate(service, m) => EventV::ServiceUpdate(*service, pcs_view(m@)),
        }
    }
}

pub fn clone_idset(ids: &IdSet) -> (r: IdSet)
    ensures
        r@ == ids@,
{
    let mut items: Vec<u16> = Vec::new();
    let mut i: usize = 0;
    while i < ids.items.len()
        invariant
            i <= ids.items.len(),
            items@ == ids.items@.subrange(0, i as int),
        decreases ids.items.len() - i,
    {
        items.push(ids.items[i]);
        proof {
            assert(ids.items@.subrange(0, i + 1) =~= ids.items@.subrange(0, i as int).push(
                ids.items@[i as int],
            ));
        }
        i = i + 1;
    }
    proof {
        assert(ids.items@.subrange(0, ids.items@.len() as int) =~= ids.items@);
    }
    IdSet { items }
}

pub fn clone_peer_clients(m: &Vec<(Vec<u8>, IdSet)>) -> (r: Vec<(Vec<u8>, IdSet)>)
    ensures
        pcs_view(r@) == pcs_view(m@),
{
    let mut out: Vec<(Vec<u8>, IdSet)> = Vec::new();
    let mut i: usize = 0;
    while i < m.len()
        invariant
            i <= m.len(),
            pcs_view(out@) == pcs_view(m@.subrange(0, i as int)),
        decreases m.len() - i,
    {
        let ghost prev = out@;
        let key = clone_bytes(&m[i].0);
        let ids = clone_idset(&m[i].1);
        out.push((key, ids));
        proof {
            assert(prev.len() == pcs_view(prev).len());
            assert(prev.len() == i as int);
            assert forall|j: int| 0 <= j < prev.len() + 1 implies pcs_view(out@)[j] == pcs_view(
                m@.subrange(0, i + 1),
            )[j] by {
                if j < prev.len() {
                    assert(out@[j] == prev[j]);
                    assert(pcs_view(prev)[j] == pcs_view(m@.subrange(0, i as int))[j]);
                    assert(pcs_view(m@.subrange(0, i as int))[j] == (m@.subrange(0, i as int)[j].0@,
                    m@.subrange(0, i as int)[j].1@));
                    assert(m@.subrange(0, i as int)[j] == m@.subrange(0, i + 1)[j]);
                } else {
                    assert(m@.subrange(0, i + 1)[j] == m@[i as int]);
                }
            }
            assert(pcs_view(out@) =~= pcs_view(m@.subrange(0, i + 1)));
        }
        i = i + 1;
    }
    proof {
        assert(m@.subrange(0, m@.len() as int) =~= m@);
    }
    out
}

impl Clone for Event {
    fn clone(&self) -> (r: Self)
        ensures
            r@ == self@,
    {
        match self {
            Event::ClientUpdate(add, id, services) => Event::ClientUpdate(
                *add,
                *id,
                clone_idset(services),
            ),
            Event::PeerUpdate(p) => Event::PeerUpdate(p.clone()),
            Event::ServiceUpdate(service, m) => Event::ServiceUpdate(
                *service,
                clone_peer_clients(m),
            ),
        }
    }
}

pub open spec fn wf_event(e: EventV) -> bool {
    match e {
        EventV::ClientUpdate(_, _, services) => idset::sorted(services) && services.len()
            <= u64::MAX,
        EventV::PeerUpdate(p) => wf_peer_info(p),
        EventV::ServiceUpdate(_, m) => wf_peer_clients(m),
    }
}

/// Payload of a client-update event: add flag, client id, services.
pub open spec fn enc_client_update_payload(add: bool, id: u16, services: Seq<u16>) -> Seq<u8> {
    cbor::enc_map(3) + cbor::enc_uint(0) + cbor::enc_bool(add) + cbor::enc_uint(1) + cbor::enc_uint(
        id as u64,
    ) + cbor::enc_uint(2) + idset::enc_idset(services)
}

pub open spec fn parse_client_update_entries(
    s: Seq<u8>,
    pos: int,
    n: nat,
    f0: Option<bool>,
    f1: Option<u16>,
    f2: Option<Seq<u16>>,
) -> Option<((bool, u16, Seq<u16>), int)>
    decreases n,
{
    if n == 0 {
        match (f0, f1, f2) {
            (Some(add), Some(id), Some(services)) => Some(((add, id, services), pos)),
            _ => None,
        }
    } else {
        match cbor::parse_uint(s, pos) {
            None => None,
            Some((k, p1)) => {
                if k == 0 {
                    match cbor::parse_bool(s, p1) {
                        Some((b, p2)) => parse_client_update_entries(
                            s,
                            p2,
                            (n - 1) as nat,
                            Some(b),
                            f1,
                            f2,
                        ),
                        None => None,
                    }
                } else if k == 1 {
                    match cbor::parse_uint(s, p1) {
                        Some((v, p2)) => if v <= 0xffff {
                            parse_client_update_entries(
                                s,
                                p2,
                                (n - 1) as nat,
                                f0,
                                Some(v as u16),
                                f2,
                            )
                        } else {
                            None
                        },
                        None => None,
                    }
                } else if k == 2 {
                    match idset::parse_idset(s, p1) {
                        Some((ids, p2)) => parse_client_update_entries(
                            s,
                            p2,
                            (n - 1) as nat,
                            f0,
                            f1,
                            Some(ids),
                        ),
                        None => None,
                    }
                } else {
                    match cbor::skip_n(s, p1, 1) {
                        Some(p2) => parse_client_update_entries(s, p2, (n - 1) as nat, f0, f1, f2),
                        None => None,
                    }
                }
            },
        }
    }
}

pub open spec fn parse_client_update_payload(s: Seq<u8>, pos: int) -> Option<
    ((bool, u16, Seq<u16>), int),
> {
    match cbor::parse_map(s, pos) {
        Some((n, p1)) => parse_client_update_entries(s, p1, n as nat, None, None, None),
        None => None,
    }
}

#[verifier::rlimit(100)]
#[verifier::spinoff_prover]
pub proof fn lemma_parse_client_update_payload_enc(
    s: Seq<u8>,
    pos: int,
    add: bool,
    id: u16,
    services: Seq<u16>,
)
    requires
        idset::sorted(services),
        services.len() <= u64::MAX,
        cbor::bytes_at(s, pos, enc_client_update_payload(add, id, services)),
    ensures
        parse_client_update_payload(s, pos) == Some(
            ((add, id, services), pos + enc_client_update_payload(add, id, services).len()),
        ),
{
    let m = cbor::enc_map(3);
    let k0 = cbor::enc_uint(0);
    let v0 = cbor::enc_bool(add);
    let k1 = cbor::enc_uint(1);
    let v1 = cbor::enc_uint(id as u64);
    let k2 = cbor::enc_uint(2);
    let v2 = idset::enc_idset(services);
    cbor::lemma_bytes_at_split(s, pos, m + k0 + v0 + k1 + v1 + k2, v2);
    cbor::lemma_bytes_at_split(s, pos, m + k0 + v0 + k1 + v1, k2);
    cbor::lemma_bytes_at_split(s, pos, m + k0 + v0 + k1, v1);
    cbor::lemma_bytes_at_split(s, pos, m + k0 + v0, k1);
    cbor::lemma_bytes_at_split(s, pos, m + k0, v0);
    cbor::lemma_bytes_at_split(s, pos, m, k0);
    let p0 = pos + m.len();
    let p0v = p0 + k0.len();
    let p1 = p0v + v0.len();
    let p1v = p1 + k1.len();
    let p2 = p1v + v1.len();
    let p2v = p2 + k2.len();
    let pe = p2v + v2.len();
    cbor::lemma_parse_map_enc(s, pos, 3);
    cbor::lemma_parse_uint_enc(s, p0, 0);
    cbor::lemma_parse_bool_enc(s, p0v, add);
    cbor::lemma_parse_uint_enc(s, p1, 1);
    cbor::lemma_parse_uint_enc(s, p1v, id as u64);
    cbor::lemma_parse_uint_enc(s, p2, 2);
    idset::lemma_parse_idset_enc(s, p2v, services);
    assert(parse_client_update_entries(s, p0, 3, None, None, None)
        == parse_client_update_entries(s, p1, 2, Some(add), None, None));
    assert(parse_client_update_entries(s, p1, 2, Some(add), None, None)
        == parse_client_update_entries(s, p2, 1, Some(add), Some(id), None));
    assert(parse_client_update_entries(s, p2, 1, Some(add), Some(id), None)
        == parse_client_update_entries(s, pe, 0, Some(add), Some(id), Some(services)));
}

/// Payload of a service-update event: service id and peer-clients map.
pub open spec fn enc_service_update_payload(service: u16, m: Seq<(Seq<u8>, Seq<u16>)>) -> Seq<u8> {
    cbor::enc_map(2) + cbor::enc_uint(0) + cbor::enc_uint(service as u64) + cbor::enc_uint(1)
        + enc_peer_clients(m)
}

pub open spec fn parse_service_update_entries(
    s: Seq<u8>,
    pos: int,
    n: nat,
    f0: Option<u16>,
    f1: Option<Seq<(Seq<u8>, Seq<u16>)>>,
) -> Option<((u16, Seq<(Seq<u8>, Seq<u16>)>), int)>
    decreases n,
{
    if n == 0 {
        match (f0, f1) {
            (Some(service), Some(m)) => Some(((service, m), pos)),
            _ => None,
        }
    } else {
        match cbor::parse_uint(s, pos) {
            None => None,
            Some((k, p1)) => {
                if k == 0 {
                    match cbor::parse_uint(s, p1) {
                        Some((v, p2)) => if v <= 0xffff {
                            parse_service_update_entries(s, p2, (n - 1) as nat, Some(v as u16), f1)
                        } else {
                            None
                        },
                        None => None,
                    }
                } else if k == 1 {
                    match parse_peer_clients(s, p1) {
                        Some((m, p2)) => parse_service_update_entries(
                            s,
                            p2,
                            (n - 1) as nat,
                            f0,
                            Some(m),
                        ),
                        None => None,
                    }
                } else {
                    match cbor::skip_n(s, p1, 1) {
                        Some(p2) => parse_service_update_entries(s, p2, (n - 1) as nat, f0, f1),
                        None => None,
                    }
                }
            },
        }
    }
}

pub open spec fn parse_service_update_payload(s: Seq<u8>, pos: int) -> Option<
    ((u16, Seq<(Seq<u8>, Seq<u16>)>), int),
> {
    match cbor::parse_map(s, pos) {
        Some((n, p1)) => parse_service_update_entries(s, p1, n as nat, None, None),
        None => None,
    }
}

#[verifier::rlimit(100)]
#[verifier::spinoff_prover]
pub proof fn lemma_parse_service_update_payload_enc(
    s: Seq<u8>,
    pos: int,
    service: u16,
    m: Seq<(Seq<u8>, Seq<u16>)>,
)
    requires
        wf_peer_clients(m),
        cbor::bytes_at(s, pos, enc_service_update_payload(service, m)),
    ensures
        parse_service_update_payload(s, pos) == Some(
            ((service, m), pos + enc_service_update_payload(service, m).len()),
        ),
{
    let h = cbor::enc_map(2);
    let k0 = cbor::enc_uint(0);
    let v0 = cbor::enc_uint(service as u64);
    let k1 = cbor::enc_uint(1);
    let v1 = enc_peer_clients(m);
    cbor::lemma_bytes_at_split(s, pos, h + k0 + v0 + k1, v1);
    cbor::lemma_bytes_at_split(s, pos, h + k0 + v0, k1);
    cbor::lemma_bytes_at_split(s, pos, h + k0, v0);
    cbor::lemma_bytes_at_split(s, pos, h, k0);
    let p0 = pos + h.len();
    let p0v = p0 + k0.len();
    let p1 = p0v + v0.len();
    let p1v = p1 + k1.len();
    let pe = p1v + v1.len();
    cbor::lemma_parse_map_enc(s, pos, 2);
    cbor::lemma_parse_uint_enc(s, p0, 0);
    cbor::lemma_parse_uint_enc(s, p0v, service as u64);
    cbor::lemma_parse_uint_enc(s, p1, 1);
    lemma_parse_peer_clients_enc(s, p1v, m);
    assert(parse_service_update_entries(s, p0, 2, None, None)
        == parse_service_update_entries(s, p1, 1, Some(service), None));
    assert(parse_service_update_entries(s, p1, 1, Some(service), None)
        == parse_service_update_entries(s, pe, 0, Some(service), Some(m)));
}

/// Encoded event: variant tag then a field map.
pub open spec fn enc_event(e: EventV) -> Seq<u8> {
    match e {
        EventV::ClientUpdate(add, id, services) => cbor::enc_array(2) + cbor::enc_uint(0)
            + enc_client_update_payload(add, id, services),
        EventV::PeerUpdate(p) => cbor::enc_array(2) + cbor::enc_uint(1) + enc_peer_info_payload(p),
        EventV::ServiceUpdate(service, m) => cbor::enc_array(2) + cbor::enc_uint(2)
            + enc_service_update_payload(service, m),
    }
}

pub open spec fn parse_event(s: Seq<u8>, pos: int) -> Option<(EventV, int)> {
    match cbor::parse_array(s, pos) {
        None => None,
        Some((n, p1)) => if n != 2 {
            None
        } else {
            match cbor::parse_uint(s, p1) {
                None => None,
                Some((tag, p2)) => {
                    if tag == 0 {
                        match parse_client_update_payload(s, p2) {
                            Some(((add, id, services), p3)) => Some(
                                (EventV::ClientUpdate(add, id, services), p3),
                            ),
                            None => None,
                        }
                    } else if tag == 1 {
                        match parse_peer_info_payload(s, p2) {
                            Some((p, p3)) => Some((EventV::PeerUpdate(p), p3)),
                            None => None,
                        }
                    } else if tag == 2 {
                        match parse_service_update_payload(s, p2) {
                            Some(((service, m), p3)) => Some(
                                (EventV::ServiceUpdate(service, m), p3),
                            ),
                            None => None,
                        }
                    } else {
                        None
                    }
                },
            }
        },
    }
}

/// Parsing an encoded event yields the event back.
#[verifier::rlimit(100)]
#[verifier::spinoff_prover]
pub proof fn lemma_parse_event_enc(s: Seq<u8>, pos: int, e: EventV)
    requires
        wf_event(e),
        cbor::bytes_at(s, pos, enc_event(e)),
    ensures
        parse_event(s, pos) == Some((e, pos + enc_event(e).len())),
{
    let a = cbor::enc_array(2);
    match e {
        EventV::ClientUpdate(add, id, services) => {
            let t = cbor::enc_uint(0);
            cbor::lemma_bytes_at_split(s, pos, a + t, enc_client_update_payload(add, id, services));
            cbor::lemma_bytes_at_split(s, pos, a, t);
            cbor::lemma_parse_array_enc(s, pos, 2);
            cbor::lemma_parse_uint_enc(s, pos + a.len(), 0);
            lemma_parse_client_update_payload_enc(s, pos + a.len() + t.len(), add, id, services);
        },
        EventV::PeerUpdate(p) => {
            let t = cbor::enc_uint(1);
            cbor::lemma_bytes_at_split(s, pos, a + t, enc_peer_info_payload(p));
            cbor::lemma_bytes_at_split(s, pos, a, t);
            cbor::lemma_parse_array_enc(s, pos, 2);
            cbor::lemma_parse_uint_enc(s, pos + a.len(), 1);
            lemma_parse_peer_info_payload_enc(s, pos + a.len() + t.len(), p);
        },
        EventV::ServiceUpdate(service, m) => {
            let t = cbor::enc_uint(2);
            cbor::lemma_bytes_at_split(s, pos, a + t, enc_service_update_payload(service, m));
            cbor::lemma_bytes_at_split(s, pos, a, t);
            cbor::lemma_parse_array_enc(s, pos, 2);
            cbor::lemma_parse_uint_enc(s, pos + a.len(), 2);
            lemma_parse_service_update_payload_enc(s, pos + a.len() + t.len(), service, m);
        },
    }
}

/// Read an event at `pos`; id sets in it are well formed.
pub fn read_event(buf: &Vec<u8>, pos: usize) -> (r: Option<(Event, usize)>)
    ensures
        match r {
            Some((e, end)) => parse_event(buf@, pos as int) == Some((e@, end as int)) && pos < end
                <= buf.len() && wf_event(e@),
            None => parse_event(buf@, pos as int) is None,
        },
{
    match cbor::read_array(buf, pos) {
        None => None,
        Some((n, p1)) => {
            if n != 2 {
                return None;
            }
            match cbor::read_uint(buf, p1) {
                None => None,
                Some((tag, p2)) => {
                    if tag == 0 {
                        match read_client_update_payload(buf, p2) {
                            Some(((add, id, services), p3)) => {
                                proof {
                                    lemma_vec_len_bound(&services.items);
                                }
                                Some((Event::ClientUpdate(add, id, services), p3))
                            },
                            None => None,
                        }
                    } else if tag == 1 {
                        match read_peer_info_payload(buf, p2) {
                            Some((p, p3)) => {
                                proof {
                                    lemma_vec_len_bound(&p.peer_id);
                                    lemma_vec_len_bound(&p.name);
                                }
                                Some((Event::PeerUpdate(p), p3))
                            },
                            None => None,
                        }
                    } else if tag == 2 {
                        match read_service_update_payload(buf, p2) {
                            Some(((service, m), p3)) => {
                                proof {
                                    lemma_vec_len_bound(&m);
                                    assert forall|i: int| 0 <= i < pcs_view(m@).len() implies (
                                    #[trigger] pcs_view(m@)[i]).0.len() <= u64::MAX
                                        && idset::sorted(pcs_view(m@)[i].1) && pcs_view(
                                        m@,
                                    )[i].1.len() <= u64::MAX by {
                                        lemma_vec_len_bound(&m@[i].0);
                                        lemma_vec_len_bound(&m@[i].1.items);
                                        assert(pcs_view(m@)[i] == (m@[i].0@, m@[i].1@));
                                        assert(m@[i].1.wf());
                                    }
                                }
                                Some((Event::ServiceUpdate(service, m), p3))
                            },
                            None => None,
                        }
                    } else {
                        None
                    }
                },
            }
        },
    }
}

pub fn read_client_update_payload(buf: &Vec<u8>, pos: usize) -> (r: Option<
    ((bool, u16, IdSet), usize),
>)
    ensures
        match r {
            Some(((add, id, ids), end)) => parse_client_update_payload(buf@, pos as int) == Some(
                (((add, id, ids@)), end as int),
            ) && ids.wf() && pos < end <= buf.len(),
            None => parse_client_update_payload(buf@, pos as int) is None,
        },
{
    match cbor::read_map(buf, pos) {
        None => None,
        Some((n, p1)) => {
            let mut f0: Option<bool> = None;
            let mut f1: Option<u16> = None;
            let mut f2: Option<IdSet> = None;
            let mut cur: usize = p1;
            let mut rem: u64 = n;
            loop
                invariant
                    pos < cur <= buf.len(),
                    parse_client_update_payload(buf@, pos as int) == parse_client_update_entries(
                        buf@,
                        cur as int,
                        rem as nat,
                        f0,
                        f1,
                        opt_idset(f2),
                    ),
                    f2 is Some ==> f2->0.wf(),
                decreases rem,
            {
                if rem == 0 {
                    match (f0, f1, f2) {
                        (Some(add), Some(id), Some(ids)) => {
                            return Some(((add, id, ids), cur));
                        },
                        _ => {
                            return None;
                        },
                    }
                }
                match cbor::read_uint(buf, cur) {
                    None => {
                        return None;
                    },
                    Some((k, p2)) => {
                        if k == 0 {
                            match cbor::read_bool(buf, p2) {
                                None => {
                                    return None;
                                },
                                Some((b, p3)) => {
                                    f0 = Some(b);
                                    cur = p3;
                                    rem = rem - 1;
                                },
                            }
                        } else if k == 1 {
                            match cbor::read_uint(buf, p2) {
                                None => {
                                    return None;
                                },
                                Some((v, p3)) => {
                                    if v <= 0xffff {
                                        f1 = Some(v as u16);
                                        cur = p3;
                                        rem = rem - 1;
                                    } else {
                                        return None;
                                    }
                                },
                            }
                        } else if k == 2 {
                            match idset::read_idset(buf, p2) {
                                None => {
                                    return None;
                                },
                                Some((ids, p3)) => {
                                    f2 = Some(ids);
                                    cur = p3;
                                    rem = rem - 1;
                                },
                            }
                        } else {
                            match cbor::skip_items(buf, p2, 1) {
                                None => {
                                    return None;
                                },
                                Some(p3) => {
                                    cur = p3;
                                    rem = rem - 1;
                                },
                            }
                        }
                    },
                }
            }
        },
    }
}

pub open spec fn opt_pcs(o: Option<Vec<(Vec<u8>, IdSet)>>) -> Option<Seq<(Seq<u8>, Seq<u16>)>> {
    match o {
        Some(v) => Some(pcs_view(v@)),
        None => None,
    }
}

pub fn read_service_update_payload(buf: &Vec<u8>, pos: usize) -> (r: Option<
    ((u16, Vec<(Vec<u8>, IdSet)>), usize),
>)
    ensures
        match r {
            Some(((service, m), end)) => parse_service_update_payload(buf@, pos as int) == Some(
                (((service, pcs_view(m@))), end as int),
            ) && pos < end <= buf.len() && (forall|i: int|
                0 <= i < m@.len() ==> (#[trigger] m@[i]).1.wf()),
            None => parse_service_update_payload(buf@, pos as int) is None,
        },
{
    match cbor::read_map(buf, pos) {
        None => None,
        Some((n, p1)) => {
            let mut f0: Option<u16> = None;
            let mut f1: Option<Vec<(Vec<u8>, IdSet)>> = None;
            let mut cur: usize = p1;
            let mut rem: u64 = n;
            loop
                invariant
                    pos < cur <= buf.len(),
                    parse_service_update_payload(buf@, pos as int) == parse_service_update_entries(
                        buf@,
                        cur as int,
                        rem as nat,
                        f0,
                        opt_pcs(f1),
                    ),
                    match f1 {
                        Some(ref m) => forall|i: int|
                            0 <= i < m@.len() ==> (#[trigger] m@[i]).1.wf(),
                        None => true,
                    },
                decreases rem,
            {
                if rem == 0 {
                    match (f0, f1) {
                        (Some(service), Some(m)) => {
                            return Some(((service, m), cur));
                        },
                        _ => {
                            return None;
                        },
                    }
                }
                match cbor::read_uint(buf, cur) {
                    None => {
                        return None;
                    },
                    Some((k, p2)) => {
                        if k == 0 {
                            match cbor::read_uint(buf, p2) {
                                None => {
                                    return None;
                                },
                                Some((v, p3)) => {
                                    if v <= 0xffff {
                                        f0 = Some(v as u16);
                                        cur = p3;
                                        rem = rem - 1;
                                    } else {
                                        return None;
                                    }
                                },
                            }
                        } else if k == 1 {
                            match read_peer_clients(buf, p2) {
                                None => {
                                    return None;
                                },
                                Some((m, p3)) => {
                                    f1 = Some(m);
                                    cur = p3;
                                    rem = rem - 1;
                                },
                            }
                        } else {
                            match cbor::skip_items(buf, p2, 1) {
                                None => {
                                    return None;
                                },
                                Some(p3) => {
                                    cur = p3;
                                    rem = rem - 1;
                                },
                            }
                        }
                    },
                }
            }
        },
    }
}

/// Append the encoding of `e` to `out`.
pub fn write_event(e: &Event, out: &mut Vec<u8>)
    ensures
        final(out)@ == old(out)@ + enc_event(e@),
{
    cbor::write_array(2, out);
    match e {
        Event::ClientUpdate(add, id, services) => {
            cbor::write_uint(0, out);
            cbor::write_map(3, out);
            cbor::write_uint(0, out);
            cbor::write_bool(*add, out);
            cbor::write_uint(1, out);
            cbor::write_uint(*id as u64, out);
            cbor::write_uint(2, out);
            idset::write_idset(services, out);
        },
        Event::PeerUpdate(p) => {
            cbor::write_uint(1, out);
            write_peer_info_payload(p, out);
        },
        Event::ServiceUpdate(service, m) => {
            cbor::write_uint(2, out);
            cbor::write_map(2, out);
            cbor::write_uint(0, out);
            cbor::write_uint(*service as u64, out);
            cbor::write_uint(1, out);
            write_peer_clients(m, out);
        },
    }
}

// ---- the envelope message ----

/// Message exchanged between a client and its daemon over the IPC socket.
#[derive(Debug, PartialEq)]
pub enum Message {
    /// Plain acknowledgement.
    Okay,
    /// Error reply with a text.
    Error { message: Vec<u8> },
    /// Register this client with its services.
    Register { services: IdSet },
    /// Successful registration with the allocated client id.
    RegisterOk { client_id: u16 },
    /// Read a value from the daemon.
    Get { client_id: u16, request_id: u32, content: GetSet },
    /// Change a value on the daemon.
    Put { client_id: u16, request_id: u32, content: GetSet },
    /// Per-service message between clients on any two peers.
    Message {
        to_peer: Vec<u8>,
        from_peer: Vec<u8>,
        to_client: u16,
        from_client: u16,
        service: u16,
        content: Vec<u8>,
    },
    /// Event pushed to a local client.
    Event { to_client: u16, from_client: u16, event: Event },
}

/// Mathematical model of an envelope message.
pub enum MessageV {
    Okay,
    Error { message: Seq<u8> },
    Register { services: Seq<u16> },
    RegisterOk { client_id: u16 },
    Get { client_id: u16, request_id: u32, content: GetSetV },
    Put { client_id: u16, request_id: u32, content: GetSetV },
    Message {
        to_peer: Seq<u8>,
        from_peer: Seq<u8>,
        to_client: u16,
        from_client: u16,
        service: u16,
        content: Seq<u8>,
    },
    Event { to_client: u16, from_client: u16, event: EventV },
}

impl View for Message {
    type V = MessageV;

    open spec fn view(&self) -> MessageV {
        match self {
            Message::Okay => MessageV::Okay,
            Message::Error { message } => MessageV::Error { message: message@ },
            Message::Register { services } => MessageV::Register { services: services@ },
            Message::RegisterOk { client_id } => MessageV::RegisterOk { client_id: *client_id },
            Message::Get { client_id, request_id, content } => MessageV::Get {
                client_id: *client_id,
                request_id: *request_id,
                content: content@,
            },
            Message::Put { client_id, request_id, content } => MessageV::Put {
                client_id: *client_id,
                request_id: *request_id,
                content: content@,
            },
            Message::Message { to_peer, from_peer, to_client, from_client, service, content } => {
                MessageV::Message {
                    to_peer: to_peer@,
                    from_peer: from_peer@,
                    to_client: *to_client,
                    from_client: *from_client,
                    service: *service,
                    content: content@,
                }
            },
            Message::Event { to_client, from_client, event } => MessageV::Event {
                to_client: *to_client,
                from_client: *from_client,
                event: event@,
            },
        }
    }
}

impl Clone for Message {
    fn clone(&self) -> (r: Self)
        ensures
            r@ == self@,
    {
        match self {
            Message::Okay => Message::Okay,
            Message::Error { message } => Message::Error { message: clone_bytes(message) },
            Message::Register { services } => Message::Register { services: clone_idset(services) },
            Message::RegisterOk { client_id } => Message::RegisterOk { client_id: *client_id },
            Message::Get { client_id, request_id, content } => Message::Get {
                client_id: *client_id,
                request_id: *request_id,
                content: content.clone(),
            },
            Message::Put { client_id, request_id, content } => Message::Put {
                client_id: *client_id,
                request_id: *request_id,
                content: content.clone(),
            },
            Message::Message { to_peer, from_peer, to_client, from_client, service, content } => {
                Message::Message {
                    to_peer: clone_bytes(to_peer),
                    from_peer: clone_bytes(from_peer),
                    to_client: *to_client,
                    from_client: *from_client,
                    service: *service,
                    content: clone_bytes(content),
                }
            },
            Message::Event { to_client, from_client, event } => Message::Event {
                to_client: *to_client,
                from_client: *from_client,
                event: event.clone(),
            },
        }
    }
}

pub open spec fn wf_message(m: MessageV) -> bool {
    match m {
        MessageV::Okay => true,
        MessageV::Error { message } => message.len() <= u64::MAX,
        MessageV::Register { services } => idset::sorted(services) && services.len() <= u64::MAX,
        MessageV::RegisterOk { .. } => true,
        MessageV::Get { content, .. } => wf_getset(content),
        MessageV::Put { content, .. } => wf_getset(content),
        MessageV::Message { to_peer, from_peer, content, .. } => to_peer.len() <= u64::MAX
            && from_peer.len() <= u64::MAX && content.len() <= u64::MAX,
        MessageV::Event { event, .. } => wf_event(event),
    }
}

/// Payload of a get or set request: client id, request id and content.
pub open spec fn enc_reqres_payload(client_id: u16, request_id: u32, content: GetSetV) -> Seq<u8> {
    cbor::enc_map(3) + cbor::enc_uint(0) + cbor::enc_uint(client_id as u64) + cbor::enc_uint(1)
        + cbor::enc_uint(request_id as u64) + cbor::enc_uint(2) + enc_getset(content)
}

pub open spec fn parse_reqres_entries(
    s: Seq<u8>,
    pos: int,
    n: nat,
    f0: Option<u16>,
    f1: Option<u32>,
    f2: Option<GetSetV>,
) -> Option<((u16, u32, GetSetV), int)>
    decreases n,
{
    if n == 0 {
        match (f0, f1, f2) {
            (Some(client_id), Some(request_id), Some(content)) => Some(
                ((client_id, request_id, content), pos),
            ),
            _ => None,
        }
    } else {
        match cbor::parse_uint(s, pos) {
            None => None,
            Some((k, p1)) => {
                if k == 0 {
                    match cbor::parse_uint(s, p1) {
                        Some((v, p2)) => if v <= 0xffff {
                            parse_reqres_entries(s, p2, (n - 1) as nat, Some(v as u16), f1, f2)
                        } else {
                            None
                        },
                        None => None,
                    }
                } else if k == 1 {
                    match cbor::parse_uint(s, p1) {
                        Some((v, p2)) => if v <= u32::MAX as u64 {
                            parse_reqres_entries(s, p2, (n - 1) as nat, f0, Some(v as u32), f2)
                        } else {
                            None
                        },
                        None => None,
                    }
                } else if k == 2 {
                    match parse_getset(s, p1) {
                        Some((g, p2)) => parse_reqres_entries(s, p2, (n - 1) as nat, f0, f1, Some(g)),
                        None => None,
                    }
                } else {
                    match cbor::skip_n(s, p1, 1) {
                        Some(p2) => parse_reqres_entries(s, p2, (n - 1) as nat, f0, f1, f2),
                        None => None,
                    }
                }
            },
        }
    }
}

pub open spec fn parse_reqres_payload(s: Seq<u8>, pos: int) -> Option<((u16, u32, GetSetV), int)> {
    match cbor::parse_map(s, pos) {
        Some((n, p1)) => parse_reqres_entries(s, p1, n as nat, None, None, None),
        None => None,
    }
}

#[verifier::rlimit(100)]
#[verifier::spinoff_prover]
pub proof fn lemma_parse_reqres_payload_enc(
    s: Seq<u8>,
    pos: int,
    client_id: u16,
    request_id: u32,
    content: GetSetV,
)
    requires
        wf_getset(content),
        cbor::bytes_at(s, pos, enc_reqres_payload(client_id, request_id, content)),
    ensures
        parse_reqres_payload(s, pos) == Some(
            (
                (client_id, request_id, content),
                pos + enc_reqres_payload(client_id, request_id, content).len(),
            ),
        ),
{
    let h = cbor::enc_map(3);
    let k0 = cbor::enc_uint(0);
    let v0 = cbor::enc_uint(client_id as u64);
    let k1 = cbor::enc_uint(1);
    let v1 = cbor::enc_uint(request_id as u64);
    let k2 = cbor::enc_uint(2);
    let v2 = enc_getset(content);
    cbor::lemma_bytes_at_split(s, pos, h + k0 + v0 + k1 + v1 + k2, v2);
    cbor::lemma_bytes_at_split(s, pos, h + k0 + v0 + k1 + v1, k2);
    cbor::lemma_bytes_at_split(s, pos, h + k0 + v0 + k1, v1);
    cbor::lemma_bytes_at_split(s, pos, h + k0 + v0, k1);
    cbor::lemma_bytes_at_split(s, pos, h + k0, v0);
    cbor::lemma_bytes_at_split(s, pos, h, k0);
    let p0 = pos + h.len();
    let p0v = p0 + k0.len();
    let p1 = p0v + v0.len();
    let p1v = p1 + k1.len();
    let p2 = p1v + v1.len();
    let p2v = p2 + k2.len();
    let pe = p2v + v2.len();
    cbor::lemma_parse_map_enc(s, pos, 3);
    cbor::lemma_parse_uint_enc(s, p0, 0);
    cbor::lemma_parse_uint_enc(s, p0v, client_id as u64);
    cbor::lemma_parse_uint_enc(s, p1, 1);
    cbor::lemma_parse_uint_enc(s, p1v, request_id as u64);
    cbor::lemma_parse_uint_enc(s, p2, 2);
    lemma_parse_getset_enc(s, p2v, content);
    assert(parse_reqres_entries(s, p0, 3, None, None, None)
        == parse_reqres_entries(s, p1, 2, Some(client_id), None, None));
    assert(parse_reqres_entries(s, p1, 2, Some(client_id), None, None)
        == parse_reqres_entries(s, p2, 1, Some(client_id), Some(request_id), None));
    assert(parse_reqres_entries(s, p2, 1, Some(client_id), Some(request_id), None)
        == parse_reqres_entries(s, pe, 0, Some(client_id), Some(request_id), Some(content)));
}

/// Payload of a per-service message: the six envelope fields.
pub open spec fn enc_envelope_payload(
    to_peer: Seq<u8>,
    from_peer: Seq<u8>,
    to_client: u16,
    from_client: u16,
    service: u16,
    content: Seq<u8>,
) -> Seq<u8> {
    cbor::enc_map(6) + cbor::enc_uint(0) + cbor::enc_str(3, to_peer) + cbor::enc_uint(1)
        + cbor::enc_str(3, from_peer) + cbor::enc_uint(2) + cbor::enc_uint(to_client as u64)
        + cbor::enc_uint(3) + cbor::enc_uint(from_client as u64) + cbor::enc_uint(4)
        + cbor::enc_uint(service as u64) + cbor::enc_uint(5) + cbor::enc_str(2, content)
}

pub open spec fn parse_envelope_entries(
    s: Seq<u8>,
    pos: int,
    n: nat,
    f0: Option<Seq<u8>>,
    f1: Option<Seq<u8>>,
    f2: Option<u16>,
    f3: Option<u16>,
    f4: Option<u16>,
    f5: Option<Seq<u8>>,
) -> Option<((Seq<u8>, Seq<u8>, u16, u16, u16, Seq<u8>), int)>
    decreases n,
{
    if n == 0 {
        match (f0, f1, f2, f3, f4, f5) {
            (
                Some(to_peer),
                Some(from_peer),
                Some(to_client),
                Some(from_client),
                Some(service),
                Some(content),
            ) => Some(((to_peer, from_peer, to_client, from_client, service, content), pos)),
            _ => None,
        }
    } else {
        match cbor::parse_uint(s, pos) {
            None => None,
            Some((k, p1)) => {
                if k == 0 {
                    match cbor::parse_str(s, p1, 3) {
                        Some((b, p2)) => parse_envelope_entries(
                            s,
                            p2,
                            (n - 1) as nat,
                            Some(b),
                            f1,
                            f2,
                            f3,
                            f4,
                            f5,
                        ),
                        None => None,
                    }
                } else if k == 1 {
                    match cbor::parse_str(s, p1, 3) {
                        Some((b, p2)) => parse_envelope_entries(
                            s,
                            p2,
                            (n - 1) as nat,
                            f0,
                            Some(b),
                            f2,
                            f3,
                            f4,
                            f5,
                        ),
                        None => None,
                    }
                } else if k == 2 {
                    match cbor::parse_uint(s, p1) {
                        Some((v, p2)) => if v <= 0xffff {
                            parse_envelope_entries(
                                s,
                                p2,
                                (n - 1) as nat,
                                f0,
                                f1,
                                Some(v as u16),
                                f3,
                                f4,
                                f5,
                            )
                        } else {
                            None
                        },
                        None => None,
                    }
                } else if k == 3 {
                    match cbor::parse_uint(s, p1) {
                        Some((v, p2)) => if v <= 0xffff {
                            parse_envelope_entries(
                                s,
                                p2,
                                (n - 1) as nat,
                                f0,
                                f1,
                                f2,
                                Some(v as u16),
                                f4,
                                f5,
                            )
                        } else {
                            None
                        },
                        None => None,
                    }
                } else if k == 4 {
                    match cbor::parse_uint(s, p1) {
                        Some((v, p2)) => if v <= 0xffff {
                            parse_envelope_entries(
                                s,
                                p2,
                                (n - 1) as nat,
                                f0,
                                f1,
                                f2,
                                f3,
                                Some(v as u16),
                                f5,
                            )
                        } else {
                            None
                        },
                        None => None,
                    }
                } else if k == 5 {
                    match cbor::parse_str(s, p1, 2) {
                        Some((b, p2)) => parse_envelope_entries(
                            s,
                            p2,
                            (n - 1) as nat,
                            f0,
                            f1,
                            f2,
                            f3,
                            f4,
                            Some(b),
                        ),
                        None => None,
                    }
                } else {
                    match cbor::skip_n(s, p1, 1) {
                        Some(p2) => parse_envelope_entries(
                            s,
                            p2,
                            (n - 1) as nat,
                            f0,
                            f1,
                            f2,
                            f3,
                            f4,
                            f5,
                        ),
                        None => None,
                    }
                }
            },
        }
    }
}

pub open spec fn parse_envelope_payload(s: Seq<u8>, pos: int) -> Option<
    ((Seq<u8>, Seq<u8>, u16, u16, u16, Seq<u8>), int),
> {
    match cbor::parse_map(s, pos) {
        Some((n, p1)) => parse_envelope_entries(s, p1, n as nat, None, None, None, None, None, None),
        None => None,
    }
}

#[verifier::rlimit(100)]
#[verifier::spinoff_prover]
pub proof fn lemma_parse_envelope_payload_enc(
    s: Seq<u8>,
    pos: int,
    to_peer: Seq<u8>,
    from_peer: Seq<u8>,
    to_client: u16,
    from_client: u16,
    service: u16,
    content: Seq<u8>,
)
    requires
        to_peer.len() <= u64::MAX,
        from_peer.len() <= u64::MAX,
        content.len() <= u64::MAX,
        cbor::bytes_at(
            s,
            pos,
            enc_envelope_payload(to_peer, from_peer, to_client, from_client, service, content),
        ),
    ensures
        parse_envelope_payload(s, pos) == Some(
            (
                (to_peer, from_peer, to_client, from_client, service, content),
                pos + enc_envelope_payload(
                    to_peer,
                    from_peer,
                    to_client,
                    from_client,
                    service,
                    content,
                ).len(),
            ),
        ),
{
    let h = cbor::enc_map(6);
    let k0 = cbor::enc_uint(0);
    let v0 = cbor::enc_str(3, to_peer);
    let k1 = cbor::enc_uint(1);
    let v1 = cbor::enc_str(3, from_peer);
    let k2 = cbor::enc_uint(2);
    let v2 = cbor::enc_uint(to_client as u64);
    let k3 = cbor::enc_uint(3);
    let v3 = cbor::enc_uint(from_client as u64);
    let k4 = cbor::enc_uint(4);
    let v4 = cbor::enc_uint(service as u64);
    let k5 = cbor::enc_uint(5);
    let v5 = cbor::enc_str(2, content);
    cbor::lemma_bytes_at_split(
        s,
        pos,
        h + k0 + v0 + k1 + v1 + k2 + v2 + k3 + v3 + k4 + v4 + k5,
        v5,
    );
    cbor::lemma_bytes_at_split(s, pos, h + k0 + v0 + k1 + v1 + k2 + v2 + k3 + v3 + k4 + v4, k5);
    cbor::lemma_bytes_at_split(s, pos, h + k0 + v0 + k1 + v1 + k2 + v2 + k3 + v3 + k4, v4);
    cbor::lemma_bytes_at_split(s, pos, h + k0 + v0 + k1 + v1 + k2 + v2 + k3 + v3, k4);
    cbor::lemma_bytes_at_split(s, pos, h + k0 + v0 + k1 + v1 + k2 + v2 + k3, v3);
    cbor::lemma_bytes_at_split(s, pos, h + k0 + v0 + k1 + v1 + k2 + v2, k3);
    cbor::lemma_bytes_at_split(s, pos, h + k0 + v0 + k1 + v1 + k2, v2);
    cbor::lemma_bytes_at_split(s, pos, h + k0 + v0 + k1 + v1, k2);
    cbor::lemma_bytes_at_split(s, pos, h + k0 + v0 + k1, v1);
    cbor::lemma_bytes_at_split(s, pos, h + k0 + v0, k1);
    cbor::lemma_bytes_at_split(s, pos, h + k0, v0);
    cbor::lemma_bytes_at_split(s, pos, h, k0);
    let p0 = pos + h.len();
    let p0v = p0 + k0.len();
    let p1 = p0v + v0.len();
    let p1v = p1 + k1.len();
    let p2 = p1v + v1.len();
    let p2v = p2 + k2.len();
    let p3 = p2v + v2.len();
    let p3v = p3 + k3.len();
    let p4 = p3v + v3.len();
    let p4v = p4 + k4.len();
    let p5 = p4v + v4.len();
    let p5v = p5 + k5.len();
    let pe = p5v + v5.len();
    cbor::lemma_parse_map_enc(s, pos, 6);
    cbor::lemma_parse_uint_enc(s, p0, 0);
    cbor::lemma_parse_str_enc(s, p0v, 3, to_peer);
    cbor::lemma_parse_uint_enc(s, p1, 1);
    cbor::lemma_parse_str_enc(s, p1v, 3, from_peer);
    cbor::lemma_parse_uint_enc(s, p2, 2);
    cbor::lemma_parse_uint_enc(s, p2v, to_client as u64);
    cbor::lemma_parse_uint_enc(s, p3, 3);
    cbor::lemma_parse_uint_enc(s, p3v, from_client as u64);
    cbor::lemma_parse_uint_enc(s, p4, 4);
    cbor::lemma_parse_uint_enc(s, p4v, service as u64);
    cbor::lemma_parse_uint_enc(s, p5, 5);
    cbor::lemma_parse_str_enc(s, p5v, 2, content);
    assert(parse_envelope_entries(s, p0, 6, None, None, None, None, None, None)
        == parse_envelope_entries(s, p1, 5, Some(to_peer), None, None, None, None, None));
    assert(parse_envelope_entries(s, p1, 5, Some(to_peer), None, None, None, None, None)
        == parse_envelope_entries(s, p2, 4, Some(to_peer), Some(from_peer), None, None, None, None));
    assert(parse_envelope_entries(s, p2, 4, Some(to_peer), Some(from_peer), None, None, None, None)
        == parse_envelope_entries(
        s,
        p3,
        3,
        Some(to_peer),
        Some(from_peer),
        Some(to_client),
        None,
        None,
        None,
    ));
    assert(parse_envelope_entries(
        s,
        p3,
        3,
        Some(to_peer),
        Some(from_peer),
        Some(to_client),
        None,
        None,
        None,
    ) == parse_envelope_entries(
        s,
        p4,
        2,
        Some(to_peer),
        Some(from_peer),
        Some(to_client),
        Some(from_client),
        None,
        None,
    ));
    assert(parse_envelope_entries(
        s,
        p4,
        2,
        Some(to_peer),
        Some(from_peer),
        Some(to_client),
        Some(from_client),
        None,
        None,
    ) == parse_envelope_entries(
        s,
        p5,
        1,
        Some(to_peer),
        Some(from_peer),
        Some(to_client),
        Some(from_client),
        Some(service),
        None,
    ));
    assert(parse_envelope_entries(
        s,
        p5,
        1,
        Some(to_peer),
        Some(from_peer),
        Some(to_client),
        Some(from_client),
        Some(service),
        None,
    ) == parse_envelope_entries(
        s,
        pe,
        0,
        Some(to_peer),
        Some(from_peer),
        Some(to_client),
        Some(from_client),
        Some(service),
        Some(content),
    ));
}

/// Payload of an event message: destination, source and the event.
pub open spec fn enc_event_msg_payload(to_client: u16, from_client: u16, event: EventV) -> Seq<u8> {
    cbor::enc_map(3) + cbor::enc_uint(0) + cbor::enc_uint(to_client as u64) + cbor::enc_uint(1)
        + cbor::enc_uint(from_client as u64) + cbor::enc_uint(2) + enc_event(event)
}

pub open spec fn parse_event_msg_entries(
    s: Seq<u8>,
    pos: int,
    n: nat,
    f0: Option<u16>,
    f1: Option<u16>,
    f2: Option<EventV>,
) -> Option<((u16, u16, EventV), int)>
    decreases n,
{
    if n == 0 {
        match (f0, f1, f2) {
            (Some(to_client), Some(from_client), Some(event)) => Some(
                ((to_client, from_client, event), pos),
            ),
            _ => None,
        }
    } else {
        match cbor::parse_uint(s, pos) {
            None => None,
            Some((k, p1)) => {
                if k == 0 {
                    match cbor::parse_uint(s, p1) {
                        Some((v, p2)) => if v <= 0xffff {
                            parse_event_msg_entries(s, p2, (n - 1) as nat, Some(v as u16), f1, f2)
                        } else {
                            None
                        },
                        None => None,
                    }
                } else if k == 1 {
                    match cbor::parse_uint(s, p1) {
                        Some((v, p2)) => if v <= 0xffff {
                            parse_event_msg_entries(s, p2, (n - 1) as nat, f0, Some(v as u16), f2)
                        } else {
                            None
                        },
                        None => None,
                    }
                } else if k == 2 {
                    match parse_event(s, p1) {
                        Some((e, p2)) => parse_event_msg_entries(
                            s,
                            p2,
                            (n - 1) as nat,
                            f0,
                            f1,
                            Some(e),
                        ),
                        None => None,
                    }
                } else {
                    match cbor::skip_n(s, p1, 1) {
                        Some(p2) => parse_event_msg_entries(s, p2, (n - 1) as nat, f0, f1, f2),
                        None => None,
                    }
                }
            },
        }
    }
}

pub open spec fn parse_event_msg_payload(s: Seq<u8>, pos: int) -> Option<((u16, u16, EventV), int)> {
    match cbor::parse_map(s, pos) {
        Some((n, p1)) => parse_event_msg_entries(s, p1, n as nat, None, None, None),
        None => None,
    }
}

#[verifier::rlimit(100)]
#[verifier::spinoff_prover]
pub proof fn lemma_parse_event_msg_payload_enc(
    s: Seq<u8>,
    pos: int,
    to_client: u16,
    from_client: u16,
    event: EventV,
)
    requires
        wf_event(event),
        cbor::bytes_at(s, pos, enc_event_msg_payload(to_client, from_client, event)),
    ensures
        parse_event_msg_payload(s, pos) == Some(
            (
                (to_client, from_client, event),
                pos + enc_event_msg_payload(to_client, from_client, event).len(),
            ),
        ),
{
    let h = cbor::enc_map(3);
    let k0 = cbor::enc_uint(0);
    let v0 = cbor::enc_uint(to_client as u64);
    let k1 = cbor::enc_uint(1);
    let v1 = cbor::enc_uint(from_client as u64);
    let k2 = cbor::enc_uint(2);
    let v2 = enc_event(event);
    cbor::lemma_bytes_at_split(s, pos, h + k0 + v0 + k1 + v1 + k2, v2);
    cbor::lemma_bytes_at_split(s, pos, h + k0 + v0 + k1 + v1, k2);
    cbor::lemma_bytes_at_split(s, pos, h + k0 + v0 + k1, v1);
    cbor::lemma_bytes_at_split(s, pos, h + k0 + v0, k1);
    cbor::lemma_bytes_at_split(s, pos, h + k0, v0);
    cbor::lemma_bytes_at_split(s, pos, h, k0);
    let p0 = pos + h.len();
    let p0v = p0 + k0.len();
    let p1 = p0v + v0.len();
    let p1v = p1 + k1.len();
    let p2 = p1v + v1.len();
    let p2v = p2 + k2.len();
    let pe = p2v + v2.len();
    cbor::lemma_parse_map_enc(s, pos, 3);
    cbor::lemma_parse_uint_enc(s, p0, 0);
    cbor::lemma_parse_uint_enc(s, p0v, to_client as u64);
    cbor::lemma_parse_uint_enc(s, p1, 1);
    cbor::lemma_parse_uint_enc(s, p1v, from_client as u64);
    cbor::lemma_parse_uint_enc(s, p2, 2);
    lemma_parse_event_enc(s, p2v, event);
    assert(parse_event_msg_entries(s, p0, 3, None, None, None)
        == parse_event_msg_entries(s, p1, 2, Some(to_client), None, None));
    assert(parse_event_msg_entries(s, p1, 2, Some(to_client), None, None)
        == parse_event_msg_entries(s, p2, 1, Some(to_client), Some(from_client), None));
    assert(parse_event_msg_entries(s, p2, 1, Some(to_client), Some(from_client), None)
        == parse_event_msg_entries(s, pe, 0, Some(to_client), Some(from_client), Some(event)));
}

/// Encoded envelope message: variant tag then a field map.  Tag 2 is the
/// legacy file message and is never produced; decoding it fails.
pub open spec fn enc_message(m: MessageV) -> Seq<u8> {
    match m {
        MessageV::Okay => cbor::enc_array(2) + cbor::enc_uint(0) + enc_unit_payload(),
        MessageV::Error { message } => cbor::enc_array(2) + cbor::enc_uint(1) + enc_text_payload(
            message,
        ),
        MessageV::Register { services } => cbor::enc_array(2) + cbor::enc_uint(3)
            + enc_idset_payload(services),
        MessageV::RegisterOk { client_id } => cbor::enc_array(2) + cbor::enc_uint(4)
            + enc_uint_payload(client_id as u64),
        MessageV::Get { client_id, request_id, content } => cbor::enc_array(2) + cbor::enc_uint(5)
            + enc_reqres_payload(client_id, request_id, content),
        MessageV::Put { client_id, request_id, content } => cbor::enc_array(2) + cbor::enc_uint(6)
            + enc_reqres_payload(client_id, request_id, content),
        MessageV::Message { to_peer, from_peer, to_client, from_client, service, content } => {
            cbor::enc_array(2) + cbor::enc_uint(7) + enc_envelope_payload(
                to_peer,
                from_peer,
                to_client,
                from_client,
                service,
                content,
            )
        },
        MessageV::Event { to_client, from_client, event } => cbor::enc_array(2) + cbor::enc_uint(8)
            + enc_event_msg_payload(to_client, from_client, event),
    }
}

pub open spec fn parse_message(s: Seq<u8>, pos: int) -> Option<(MessageV, int)> {
    match cbor::parse_array(s, pos) {
        None => None,
        Some((n, p1)) => if n != 2 {
            None
        } else {
            match cbor::parse_uint(s, p1) {
                None => None,
                Some((tag, p2)) => {
                    if tag == 0 {
                        match parse_unit_payload(s, p2) {
                            Some(p3) => Some((MessageV::Okay, p3)),
                            None => None,
                        }
                    } else if tag == 1 {
                        match parse_text_payload(s, p2) {
                            Some((b, p3)) => Some((MessageV::Error { message: b }, p3)),
                            None => None,
                        }
                    } else if tag == 3 {
                        match parse_idset_payload(s, p2) {
                            Some((ids, p3)) => Some((MessageV::Register { services: ids }, p3)),
                            None => None,
                        }
                    } else if tag == 4 {
                        match parse_uint_payload(s, p2) {
                            Some((v, p3)) => if v <= 0xffff {
                                Some((MessageV::RegisterOk { client_id: v as u16 }, p3))
                            } else {
                                None
                            },
                            None => None,
                        }
                    } else if tag == 5 {
                        match parse_reqres_payload(s, p2) {
                            Some(((client_id, request_id, content), p3)) => Some(
                                (MessageV::Get { client_id, request_id, content }, p3),
                            ),
                            None => None,
                        }
                    } else if tag == 6 {
                        match parse_reqres_payload(s, p2) {
                            Some(((client_id, request_id, content), p3)) => Some(
                                (MessageV::Put { client_id, request_id, content }, p3),
                            ),
                            None => None,
                        }
                    } else if tag == 7 {
                        match parse_envelope_payload(s, p2) {
                            Some(
                                ((to_peer, from_peer, to_client, from_client, service, content), p3),
                            ) => Some(
                                (
                                    MessageV::Message {
                                        to_peer,
                                        from_peer,
                                        to_client,
                                        from_client,
                                        service,
                                        content,
                                    },
                                    p3,
                                ),
                            ),
                            None => None,
                        }
                    } else if tag == 8 {
                        match parse_event_msg_payload(s, p2) {
                            Some(((to_client, from_client, event), p3)) => Some(
                                (MessageV::Event { to_client, from_client, event }, p3),
                            ),
                            None => None,
                        }
                    } else {
                        None
                    }
                },
            }
        },
    }
}

/// Parsing an encoded message at its position yields the message back.
#[verifier::rlimit(100)]
#[verifier::spinoff_prover]
pub proof fn lemma_parse_message_enc(s: Seq<u8>, pos: int, m: MessageV)
    requires
        wf_message(m),
        cbor::bytes_at(s, pos, enc_message(m)),
    ensures
        parse_message(s, pos) == Some((m, pos + enc_message(m).len())),
{
    let a = cbor::enc_array(2);
    match m {
        MessageV::Okay => {
            let t = cbor::enc_uint(0);
            cbor::lemma_bytes_at_split(s, pos, a + t, enc_unit_payload());
            cbor::lemma_bytes_at_split(s, pos, a, t);
            cbor::lemma_parse_array_enc(s, pos, 2);
            cbor::lemma_parse_uint_enc(s, pos + a.len(), 0);
            lemma_parse_unit_payload_enc(s, pos + a.len() + t.len());
        },
        MessageV::Error { message } => {
            let t = cbor::enc_uint(1);
            cbor::lemma_bytes_at_split(s, pos, a + t, enc_text_payload(message));
            cbor::lemma_bytes_at_split(s, pos, a, t);
            cbor::lemma_parse_array_enc(s, pos, 2);
            cbor::lemma_parse_uint_enc(s, pos + a.len(), 1);
            lemma_parse_text_payload_enc(s, pos + a.len() + t.len(), message);
        },
        MessageV::Register { services } => {
            let t = cbor::enc_uint(3);
            cbor::lemma_bytes_at_split(s, pos, a + t, enc_idset_payload(services));
            cbor::lemma_bytes_at_split(s, pos, a, t);
            cbor::lemma_parse_array_enc(s, pos, 2);
            cbor::lemma_parse_uint_enc(s, pos + a.len(), 3);
            lemma_parse_idset_payload_enc(s, pos + a.len() + t.len(), services);
        },
        MessageV::RegisterOk { client_id } => {
            let t = cbor::enc_uint(4);
            cbor::lemma_bytes_at_split(s, pos, a + t, enc_uint_payload(client_id as u64));
            cbor::lemma_bytes_at_split(s, pos, a, t);
            cbor::lemma_parse_array_enc(s, pos, 2);
            cbor::lemma_parse_uint_enc(s, pos + a.len(), 4);
            lemma_parse_uint_payload_enc(s, pos + a.len() + t.len(), client_id as u64);
        },
        MessageV::Get { client_id, request_id, content } => {
            let t = cbor::enc_uint(5);
            cbor::lemma_bytes_at_split(
                s,
                pos,
                a + t,
                enc_reqres_payload(client_id, request_id, content),
            );
            cbor::lemma_bytes_at_split(s, pos, a, t);
            cbor::lemma_parse_array_enc(s, pos, 2);
            cbor::lemma_parse_uint_enc(s, pos + a.len(), 5);
            lemma_parse_reqres_payload_enc(
                s,
                pos + a.len() + t.len(),
                client_id,
                request_id,
                content,
            );
        },
        MessageV::Put { client_id, request_id, content } => {
            let t = cbor::enc_uint(6);
            cbor::lemma_bytes_at_split(
                s,
                pos,
                a + t,
                enc_reqres_payload(client_id, request_id, content),
            );
            cbor::lemma_bytes_at_split(s, pos, a, t);
            cbor::lemma_parse_array_enc(s, pos, 2);
            cbor::lemma_parse_uint_enc(s, pos + a.len(), 6);
            lemma_parse_reqres_payload_enc(
                s,
                pos + a.len() + t.len(),
                client_id,
                request_id,
                content,
            );
        },
        MessageV::Message { to_peer, from_peer, to_client, from_client, service, content } => {
            let t = cbor::enc_uint(7);
            cbor::lemma_bytes_at_split(
                s,
                pos,
                a + t,
                enc_envelope_payload(to_peer, from_peer, to_client, from_client, service, content),
            );
            cbor::lemma_bytes_at_split(s, pos, a, t);
            cbor::lemma_parse_array_enc(s, pos, 2);
            cbor::lemma_parse_uint_enc(s, pos + a.len(), 7);
            lemma_parse_envelope_payload_enc(
                s,
                pos + a.len() + t.len(),
                to_peer,
                from_peer,
                to_client,
                from_client,
                service,
                content,
            );
        },
        MessageV::Event { to_client, from_client, event } => {
            let t = cbor::enc_uint(8);
            cbor::lemma_bytes_at_split(
                s,
                pos,
                a + t,
                enc_event_msg_payload(to_client, from_client, event),
            );
            cbor::lemma_bytes_at_split(s, pos, a, t);
            cbor::lemma_parse_array_enc(s, pos, 2);
            cbor::lemma_parse_uint_enc(s, pos + a.len(), 8);
            lemma_parse_event_msg_payload_enc(
                s,
                pos + a.len() + t.len(),
                to_client,
                from_client,
                event,
            );
        },
    }
}

pub fn read_reqres_payload(buf: &Vec<u8>, pos: usize) -> (r: Option<((u16, u32, GetSet), usize)>)
    ensures
        match r {
            Some(((client_id, request_id, content), end)) => parse_reqres_payload(
                buf@,
                pos as int,
            ) == Some((((client_id, request_id, content@)), end as int)) && pos < end <= buf.len()
                && wf_getset(content@),
            None => parse_reqres_payload(buf@, pos as int) is None,
        },
{
    match cbor::read_map(buf, pos) {
        None => None,
        Some((n, p1)) => {
            let mut f0: Option<u16> = None;
            let mut f1: Option<u32> = None;
            let mut f2: Option<GetSet> = None;
            let mut cur: usize = p1;
            let mut rem: u64 = n;
            loop
                invariant
                    pos < cur <= buf.len(),
                    parse_reqres_payload(buf@, pos as int) == parse_reqres_entries(
                        buf@,
                        cur as int,
                        rem as nat,
                        f0,
                        f1,
                        match f2 {
                            Some(ref g) => Some(g@),
                            None => None,
                        },
                    ),
                    match f2 {
                        Some(ref g) => wf_getset(g@),
                        None => true,
                    },
                decreases rem,
            {
                if rem == 0 {
                    match (f0, f1, f2) {
                        (Some(client_id), Some(request_id), Some(content)) => {
                            return Some(((client_id, request_id, content), cur));
                        },
                        _ => {
                            return None;
                        },
                    }
                }
                match cbor::read_uint(buf, cur) {
                    None => {
                        return None;
                    },
                    Some((k, p2)) => {
                        if k == 0 {
                            match cbor::read_uint(buf, p2) {
                                None => {
                                    return None;
                                },
                                Some((v, p3)) => {
                                    if v <= 0xffff {
                                        f0 = Some(v as u16);
                                        cur = p3;
                                        rem = rem - 1;
                                    } else {
                                        return None;
                                    }
                                },
                            }
                        } else if k == 1 {
                            match cbor::read_uint(buf, p2) {
                                None => {
                                    return None;
                                },
                                Some((v, p3)) => {
                                    if v <= 0xffff_ffff {
                                        f1 = Some(v as u32);
                                        cur = p3;
                                        rem = rem - 1;
                                    } else {
                                        return None;
                                    }
                                },
                            }
                        } else if k == 2 {
                            match read_getset(buf, p2) {
                                None => {
                                    return None;
                                },
                                Some((g, p3)) => {
                                    f2 = Some(g);
                                    cur = p3;
                                    rem = rem - 1;
                                },
                            }
                        } else {
                            match cbor::skip_items(buf, p2, 1) {
                                None => {
                                    return None;
                                },
                                Some(p3) => {
                                    cur = p3;
                                    rem = rem - 1;
                                },
                            }
                        }
                    },
                }
            }
        },
    }
}

pub fn read_envelope_payload(buf: &Vec<u8>, pos: usize) -> (r: Option<
    ((Vec<u8>, Vec<u8>, u16, u16, u16, Vec<u8>), usize),
>)
    ensures
        match r {
            Some(((tp, fp, tc, fc, sv, ct), end)) => parse_envelope_payload(buf@, pos as int)
                == Some((((tp@, fp@, tc, fc, sv, ct@)), end as int)) && pos < end <= buf.len(),
            None => parse_envelope_payload(buf@, pos as int) is None,
        },
{
    match cbor::read_map(buf, pos) {
        None => None,
        Some((n, p1)) => {
            let mut f0: Option<Vec<u8>> = None;
            let mut f1: Option<Vec<u8>> = None;
            let mut f2: Option<u16> = None;
            let mut f3: Option<u16> = None;
            let mut f4: Option<u16> = None;
            let mut f5: Option<Vec<u8>> = None;
            let mut cur: usize = p1;
            let mut rem: u64 = n;
            loop
                invariant
                    pos < cur <= buf.len(),
                    parse_envelope_payload(buf@, pos as int) == parse_envelope_entries(
                        buf@,
                        cur as int,
                        rem as nat,
                        opt_bytes(f0),
                        opt_bytes(f1),
                        f2,
                        f3,
                        f4,
                        opt_bytes(f5),
                    ),
                decreases rem,
            {
                if rem == 0 {
                    match (f0, f1, f2, f3, f4, f5) {
                        (Some(tp), Some(fp), Some(tc), Some(fc), Some(sv), Some(ct)) => {
                            return Some(((tp, fp, tc, fc, sv, ct), cur));
                        },
                        _ => {
                            return None;
                        },
                    }
                }
                match cbor::read_uint(buf, cur) {
                    None => {
                        return None;
                    },
                    Some((k, p2)) => {
                        if k == 0 {
                            match cbor::read_str(buf, p2, 3) {
                                None => {
                                    return None;
                                },
                                Some((b, p3)) => {
                                    f0 = Some(b);
                                    cur = p3;
                                    rem = rem - 1;
                                },
                            }
                        } else if k == 1 {
                            match cbor::read_str(buf, p2, 3) {
                                None => {
                                    return None;
                                },
                                Some((b, p3)) => {
                                    f1 = Some(b);
                                    cur = p3;
                                    rem = rem - 1;
                                },
                            }
                        } else if k == 2 {
                            match cbor::read_uint(buf, p2) {
                                None => {
                                    return None;
                                },
                                Some((v, p3)) => {
                                    if v <= 0xffff {
                                        f2 = Some(v as u16);
                                        cur = p3;
                                        rem = rem - 1;
                                    } else {
                                        return None;
                                    }
                                },
                            }
                        } else if k == 3 {
                            match cbor::read_uint(buf, p2) {
                                None => {
                                    return None;
                                },
                                Some((v, p3)) => {
                                    if v <= 0xffff {
                                        f3 = Some(v as u16);
                                        cur = p3;
                                        rem = rem - 1;
                                    } else {
                                        return None;
                                    }
                                },
                            }
                        } else if k == 4 {
                            match cbor::read_uint(buf, p2) {
                                None => {
                                    return None;
                                },
                                Some((v, p3)) => {
                                    if v <= 0xffff {
                                        f4 = Some(v as u16);
                                        cur = p3;
                                        rem = rem - 1;
                                    } else {
                                        return None;
                                    }
                                },
                            }
                        } else if k == 5 {
                            match cbor::read_str(buf, p2, 2) {
                                None => {
                                    return None;
                                },
                                Some((b, p3)) => {
                                    f5 = Some(b);
                                    cur = p3;
                                    rem = rem - 1;
                                },
                            }
                        } else {
                            match cbor::skip_items(buf, p2, 1) {
                                None => {
                                    return None;
                                },
                                Some(p3) => {
                                    cur = p3;
                                    rem = rem - 1;
                                },
                            }
                        }
                    },
                }
            }
        },
    }
}

pub fn read_event_msg_payload(buf: &Vec<u8>, pos: usize) -> (r: Option<((u16, u16, Event), usize)>)
    ensures
        match r {
            Some(((tc, fc, e), end)) => parse_event_msg_payload(buf@, pos as int) == Some(
                (((tc, fc, e@)), end as int),
            ) && pos < end <= buf.len() && wf_event(e@),
            None => parse_event_msg_payload(buf@, pos as int) is None,
        },
{
    match cbor::read_map(buf, pos) {
        None => None,
        Some((n, p1)) => {
            let mut f0: Option<u16> = None;
            let mut f1: Option<u16> = None;
            let mut f2: Option<Event> = None;
            let mut cur: usize = p1;
            let mut rem: u64 = n;
            loop
                invariant
                    pos < cur <= buf.len(),
                    parse_event_msg_payload(buf@, pos as int) == parse_event_msg_entries(
                        buf@,
                        cur as int,
                        rem as nat,
                        f0,
                        f1,
                        match f2 {
                            Some(ref e) => Some(e@),
                            None => None,
                        },
                    ),
                    match f2 {
                        Some(ref e) => wf_event(e@),
                        None => true,
                    },
                decreases rem,
            {
                if rem == 0 {
                    match (f0, f1, f2) {
                        (Some(tc), Some(fc), Some(e)) => {
                            return Some(((tc, fc, e), cur));
                        },
                        _ => {
                            return None;
                        },
                    }
                }
                match cbor::read_uint(buf, cur) {
                    None => {
                        return None;
                    },
                    Some((k, p2)) => {
                        if k == 0 {
                            match cbor::read_uint(buf, p2) {
                                None => {
                                    return None;
                                },
                                Some((v, p3)) => {
                                    if v <= 0xffff {
                                        f0 = Some(v as u16);
                                        cur = p3;
                                        rem = rem - 1;
                                    } else {
                                        return None;
                                    }
                                },
                            }
                        } else if k == 1 {
                            match cbor::read_uint(buf, p2) {
                                None => {
                                    return None;
                                },
                                Some((v, p3)) => {
                                    if v <= 0xffff {
                                        f1 = Some(v as u16);
                                        cur = p3;
                                        rem = rem - 1;
                                    } else {
                                        return None;
                                    }
                                },
                            }
                        } else if k == 2 {
                            match read_event(buf, p2) {
                                None => {
                                    return None;
                                },
                                Some((e, p3)) => {
                                    f2 = Some(e);
                                    cur = p3;
                                    rem = rem - 1;
                                },
                            }
                        } else {
                            match cbor::skip_items(buf, p2, 1) {
                                None => {
                                    return None;
                                },
                                Some(p3) => {
                                    cur = p3;
                                    rem = rem - 1;
                                },
                            }
                        }
                    },
                }
            }
        },
    }
}

/// Read an envelope message at `pos`.
pub fn read_message(buf: &Vec<u8>, pos: usize) -> (r: Option<(Message, usize)>)
    ensures
        match r {
            Some((m, end)) => parse_message(buf@, pos as int) == Some((m@, end as int)) && pos < end
                <= buf.len() && wf_message(m@),
            None => parse_message(buf@, pos as int) is None,
        },
{
    match cbor::read_array(buf, pos) {
        None => None,
        Some((n, p1)) => {
            if n != 2 {
                return None;
            }
            match cbor::read_uint(buf, p1) {
                None => None,
                Some((tag, p2)) => {
                    if tag == 0 {
                        match read_unit_payload(buf, p2) {
                            Some(p3) => Some((Message::Okay, p3)),
                            None => None,
                        }
                    } else if tag == 1 {
                        match read_text_payload(buf, p2) {
                            Some((b, p3)) => {
                                proof {
                                    lemma_vec_len_bound(&b);
                                }
                                Some((Message::Error { message: b }, p3))
                            },
                            None => None,
                        }
                    } else if tag == 3 {
                        match read_idset_payload(buf, p2) {
                            Some((ids, p3)) => {
                                proof {
                                    lemma_vec_len_bound(&ids.items);
                                }
                                Some((Message::Register { services: ids }, p3))
                            },
                            None => None,
                        }
                    } else if tag == 4 {
                        match read_uint_payload(buf, p2) {
                            Some((v, p3)) => if v <= 0xffff {
                                Some((Message::RegisterOk { client_id: v as u16 }, p3))
                            } else {
                                None
                            },
                            None => None,
                        }
                    } else if tag == 5 {
                        match read_reqres_payload(buf, p2) {
                            Some(((client_id, request_id, content), p3)) => Some(
                                (Message::Get { client_id, request_id, content }, p3),
                            ),
                            None => None,
                        }
                    } else if tag == 6 {
                        match read_reqres_payload(buf, p2) {
                            Some(((client_id, request_id, content), p3)) => Some(
                                (Message::Put { client_id, request_id, content }, p3),
                            ),
                            None => None,
                        }
                    } else if tag == 7 {
                        match read_envelope_payload(buf, p2) {
                            Some(((tp, fp, tc, fc, sv, ct), p3)) => {
                                proof {
                                    lemma_vec_len_bound(&tp);
                                    lemma_vec_len_bound(&fp);
                                    lemma_vec_len_bound(&ct);
                                }
                                Some(
                                    (
                                        Message::Message {
                                            to_peer: tp,
                                            from_peer: fp,
                                            to_client: tc,
                                            from_client: fc,
                                            service: sv,
                                            content: ct,
                                        },
                                        p3,
                                    ),
                                )
                            },
                            None => None,
                        }
                    } else if tag == 8 {
                        match read_event_msg_payload(buf, p2) {
                            Some(((tc, fc, e), p3)) => Some(
                                (Message::Event { to_client: tc, from_client: fc, event: e }, p3),
                            ),
                            None => None,
                        }
                    } else {
                        None
                    }
                },
            }
        },
    }
}

/// Append the encoding of `m` to `out`.
#[verifier::rlimit(100)]
#[verifier::spinoff_prover]
pub fn write_message(m: &Message, out: &mut Vec<u8>)
    ensures
        final(out)@ == old(out)@ + enc_message(m@),
{
    cbor::write_array(2, out);
    match m {
        Message::Okay => {
            cbor::write_uint(0, out);
            write_unit_payload(out);
        },
        Message::Error { message } => {
            cbor::write_uint(1, out);
            write_text_payload(message, out);
        },
        Message::Register { services } => {
            cbor::write_uint(3, out);
            write_idset_payload(services, out);
        },
        Message::RegisterOk { client_id } => {
            cbor::write_uint(4, out);
            write_uint_payload(*client_id as u64, out);
        },
        Message::Get { client_id, request_id, content } => {
            cbor::write_uint(5, out);
            cbor::write_map(3, out);
            cbor::write_uint(0, out);
            cbor::write_uint(*client_id as u64, out);
            cbor::write_uint(1, out);
            cbor::write_uint(*request_id as u64, out);
            cbor::write_uint(2, out);
            write_getset(content, out);
        },
        Message::Put { client_id, request_id, content } => {
            cbor::write_uint(6, out);
            cbor::write_map(3, out);
            cbor::write_uint(0, out);
            cbor::write_uint(*client_id as u64, out);
            cbor::write_uint(1, out);
            cbor::write_uint(*request_id as u64, out);
            cbor::write_uint(2, out);
            write_getset(content, out);
        },
        Message::Message { to_peer, from_peer, to_client, from_client, service, content } => {
            cbor::write_uint(7, out);
            cbor::write_map(6, out);
            cbor::write_uint(0, out);
            cbor::write_str(3, to_peer, out);
            cbor::write_uint(1, out);
            cbor::write_str(3, from_peer, out);
            cbor::write_uint(2, out);
            cbor::write_uint(*to_client as u64, out);
            cbor::write_uint(3, out);
            cbor::write_uint(*from_client as u64, out);
            cbor::write_uint(4, out);
            cbor::write_uint(*service as u64, out);
            cbor::write_uint(5, out);
            cbor::write_str(2, content, out);
        },
        Message::Event { to_client, from_client, event } => {
            cbor::write_uint(8, out);
            cbor::write_map(3, out);
            cbor::write_uint(0, out);
            cbor::write_uint(*to_client as u64, out);
            cbor::write_uint(1, out);
            cbor::write_uint(*from_client as u64, out);
            cbor::write_uint(2, out);
            write_event(event, out);
        },
    }
}

impl Message {
    /// Encode this message; the bytes are exactly its canonical encoding.
    pub fn to_bytes(&self) -> (r: Option<Vec<u8>>)
        ensures
            r is Some,
            r->0@ == enc_message(self@),
    {
        let mut out: Vec<u8> = Vec::new();
        write_message(self, &mut out);
        Some(out)
    }

    /// Decode one message from `bytes`; every byte must be consumed.
    pub fn from_bytes(bytes: &Vec<u8>) -> (r: Option<Message>)
        ensures
            match r {
                Some(m) => parse_message(bytes@, 0) == Some((m@, bytes@.len() as int))
                    && wf_message(m@),
                None => parse_message(bytes@, 0) is None || parse_message(bytes@, 0)->Some_0.1
                    != bytes@.len(),
            },
    {
        match read_message(bytes, 0) {
            Some((m, end)) => {
                if end == bytes.len() {
                    Some(m)
                } else {
                    None
                }
            },
            None => None,
        }
    }
}

/// Decoding inverts encoding: for every well-formed message value, parsing
/// its own encoding gives that value back and consumes every byte.
pub proof fn lemma_message_round_trip(m: MessageV)
    requires
        wf_message(m),
    ensures
        parse_message(enc_message(m), 0) == Some((m, enc_message(m).len() as int)),
{
    lemma_parse_message_enc(enc_message(m), 0, m);
}

} // verus!
