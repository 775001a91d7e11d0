//! The service directory: a privileged local client that tracks which
//! clients offer which services, locally and on every known peer, and pushes
//! service updates to interested local clients.
//!
//! Sends to the daemon are modelled by an outbox of messages, oldest first.

use crate::cbor;
use crate::idset::{self, IdSet};
use crate::message::{
    bytes_eq, clone_bytes, clone_idset, Event, EventV, GetSet, GetSetV, Message,
    MessageV, PeerInfo, Service,
};
use vstd::prelude::*;

verus! {

/// Message exchanged between the service directories of two peers.
#[derive(Debug, PartialEq)]
pub enum ServiceMessage {
    /// Ask the peer for its full service map.
    ServiceRequest,
    /// Authoritative snapshot: tag and map from client id to services.
    ServiceReply { services_tag: u32, services: Vec<(u16, IdSet)> },
}

/// Mathematical model of a directory message.
pub enum ServiceMessageV {
    ServiceRequest,
    ServiceReply { services_tag: u32, services: Seq<(u16, Seq<u16>)> },
}

/// View of a vector of (client id, service set) pairs.
pub open spec fn csm_view(v: Seq<(u16, IdSet)>) -> Seq<(u16, Seq<u16>)> {
    v.map_values(|pr: (u16, IdSet)| (pr.0, pr.1@))
}

impl View for ServiceMessage {
    type V = ServiceMessageV;

    open spec fn view(&self) -> ServiceMessageV {
        match self {
            ServiceMessage::ServiceRequest => ServiceMessageV::ServiceRequest,
            ServiceMessage::ServiceReply { services_tag, services } => {
                ServiceMessageV::ServiceReply {
                    services_tag: *services_tag,
                    services: csm_view(services@),
                }
            },
        }
    }
}

pub open spec fn wf_service_message(m: ServiceMessageV) -> bool {
    match m {
        ServiceMessageV::ServiceRequest => true,
        ServiceMessageV::ServiceReply { services, .. } => services.len() <= u64::MAX && forall|
            i: int,
        |
            0 <= i < services.len() ==> idset::sorted((#[trigger] services[i]).1) && services[
                i
            ].1.len() <= u64::MAX,
    }
}

pub open spec fn enc_client_services_items(m: Seq<(u16, Seq<u16>)>) -> Seq<u8>
    decreases m.len(),
{
    if m.len() == 0 {
        Seq::empty()
    } else {
        cbor::enc_uint(m[0].0 as u64) + idset::enc_idset(m[0].1) + enc_client_services_items(
            m.drop_first(),
        )
    }
}

/// Encoded map from client id to service set.
pub open spec fn enc_client_services(m: Seq<(u16, Seq<u16>)>) -> Seq<u8> {
    cbor::enc_map(m.len() as u64) + enc_client_services_items(m)
}

pub open spec fn parse_client_services_items(
    s: Seq<u8>,
    pos: int,
    n: nat,
    acc: Seq<(u16, Seq<u16>)>,
) -> Option<(Seq<(u16, Seq<u16>)>, int)>
    decreases n,
{
    if n == 0 {
        Some((acc, pos))
    } else {
        match cbor::parse_uint(s, pos) {
            None => None,
            Some((k, p1)) => if k <= 0xffff {
                match idset::parse_idset(s, p1) {
                    None => None,
                    Some((ids, p2)) => parse_client_services_items(
                        s,
                        p2,
                        (n - 1) as nat,
                        acc.push((k as u16, ids)),
                    ),
                }
            } else {
                None
            },
        }
    }
}

pub open spec fn parse_client_services(s: Seq<u8>, pos: int) -> Option<(Seq<(u16, Seq<u16>)>, int)> {
    match cbor::parse_map(s, pos) {
        Some((n, p1)) => parse_client_services_items(s, p1, n as nat, Seq::empty()),
        None => None,
    }
}

proof fn lemma_parse_client_services_items_enc(
    s: Seq<u8>,
    pos: int,
    m: Seq<(u16, Seq<u16>)>,
    acc: Seq<(u16, Seq<u16>)>,
)
    requires
        forall|i: int|
            0 <= i < m.len() ==> idset::sorted((#[trigger] m[i]).1) && m[i].1.len() <= u64::MAX,
        cbor::bytes_at(s, pos, enc_client_services_items(m)),
    ensures
        parse_client_services_items(s, pos, m.len(), acc) == Some(
            (acc + m, pos + enc_client_services_items(m).len()),
        ),
    decreases m.len(),
{
    if m.len() == 0 {
        assert(acc + m =~= acc);
    } else {
        let key = m[0].0;
        let ids = m[0].1;
        let rest = m.drop_first();
        let ek = cbor::enc_uint(key as u64);
        let ev = idset::enc_idset(ids);
        cbor::lemma_bytes_at_split(s, pos, ek + ev, enc_client_services_items(rest));
        cbor::lemma_bytes_at_split(s, pos, ek, ev);
        cbor::lemma_parse_uint_enc(s, pos, key as u64);
        idset::lemma_parse_idset_enc(s, pos + ek.len(), ids);
        let p2 = pos + ek.len() + ev.len();
        assert(acc.push((key, ids)) + rest =~= acc + m);
        lemma_parse_client_services_items_enc(s, p2, rest, acc.push((key, ids)));
    }
}

/// Parsing an encoded client-services map yields the pairs back, in order.
pub proof fn lemma_parse_client_services_enc(s: Seq<u8>, pos: int, m: Seq<(u16, Seq<u16>)>)
    requires
        m.len() <= u64::MAX,
        forall|i: int|
            0 <= i < m.len() ==> idset::sorted((#[trigger] m[i]).1) && m[i].1.len() <= u64::MAX,
        cbor::bytes_at(s, pos, enc_client_services(m)),
    ensures
        parse_client_services(s, pos) == Some((m, pos + enc_client_services(m).len())),
{
    cbor::lemma_bytes_at_split(s, pos, cbor::enc_map(m.len() as u64), enc_client_services_items(m));
    cbor::lemma_parse_map_enc(s, pos, m.len() as u64);
    assert(Seq::<(u16, Seq<u16>)>::empty() + m =~= m);
    lemma_parse_client_services_items_enc(
        s,
        pos + cbor::enc_map(m.len() as u64).len(),
        m,
        Seq::empty(),
    );
}

proof fn lemma_enc_client_services_items_push(m: Seq<(u16, Seq<u16>)>, e: (u16, Seq<u16>))
    ensures
        enc_client_services_items(m.push(e)) == enc_client_services_items(m) + (cbor::enc_uint(
            e.0 as u64,
        ) + idset::enc_idset(e.1)),
    decreases m.len(),
{
    if m.len() == 0 {
        assert(m.push(e)[0] == e);
        assert(m.push(e).drop_first() =~= Seq::<(u16, Seq<u16>)>::empty());
        assert(enc_client_services_items(m.push(e)) == cbor::enc_uint(e.0 as u64)
            + idset::enc_idset(e.1) + enc_client_services_items(m.push(e).drop_first()));
        assert(enc_client_services_items(m) + (cbor::enc_uint(e.0 as u64) + idset::enc_idset(e.1))
            =~= cbor::enc_uint(e.0 as u64) + idset::enc_idset(e.1) + Seq::<u8>::empty());
    } else {
        assert(m.push(e)[0] == m[0]);
        assert(m.push(e).drop_first() =~= m.drop_first().push(e));
        lemma_enc_client_services_items_push(m.drop_first(), e);
        assert(enc_client_services_items(m.push(e)) =~= (cbor::enc_uint(m[0].0 as u64)
            + idset::enc_idset(m[0].1) + enc_client_services_items(m.drop_first())) + (
        cbor::enc_uint(e.0 as u64) + idset::enc_idset(e.1)));
    }
}

/// Append the encoding of the client-services map to `out`.
pub fn write_client_services(m: &Vec<(u16, IdSet)>, out: &mut Vec<u8>)
    ensures
        final(out)@ == old(out)@ + enc_client_services(csm_view(m@)),
{
    cbor::write_map(m.len() as u64, out);
    let mut i: usize = 0;
    while i < m.len()
        invariant
            i <= m.len(),
            out@ == old(out)@ + cbor::enc_map(m@.len() as u64) + enc_client_services_items(
                csm_view(m@.subrange(0, i as int)),
            ),
        decreases m.len() - i,
    {
        cbor::write_uint(m[i].0 as u64, out);
        idset::write_idset(&m[i].1, out);
        proof {
            assert(csm_view(m@.subrange(0, i + 1)) =~= csm_view(m@.subrange(0, i as int)).push(
                (m@[i as int].0, m@[i as int].1@),
            ));
            lemma_enc_client_services_items_push(
                csm_view(m@.subrange(0, i as int)),
                (m@[i as int].0, m@[i as int].1@),
            );
        }
        i = i + 1;
    }
    proof {
        assert(m@.subrange(0, m@.len() as int) =~= m@);
        assert(old(out)@ + cbor::enc_map(m@.len() as u64) + enc_client_services_items(
            csm_view(m@),
        ) =~= old(out)@ + enc_client_services(csm_view(m@)));
    }
}

/// Read a client-services map at `pos`; every value set is well formed.
pub fn read_client_services(buf: &Vec<u8>, pos: usize) -> (r: Option<(Vec<(u16, IdSet)>, usize)>)
    ensures
        match r {
            Some((m, end)) => parse_client_services(buf@, pos as int) == Some(
                (csm_view(m@), end as int),
            ) && pos < end <= buf.len() && (forall|i: int|
                0 <= i < m@.len() ==> (#[trigger] m@[i]).1.wf()),
            None => parse_client_services(buf@, pos as int) is None,
        },
{
    match cbor::read_map(buf, pos) {
        None => None,
        Some((n, p1)) => {
            let mut m: Vec<(u16, IdSet)> = Vec::new();
            let mut cur: usize = p1;
            let mut rem: u64 = n;
            proof {
                assert(csm_view(m@) =~= Seq::<(u16, Seq<u16>)>::empty());
            }
            loop
                invariant
                    pos < cur <= buf.len(),
                    parse_client_services(buf@, pos as int) == parse_client_services_items(
                        buf@,
                        cur as int,
                        rem as nat,
                        csm_view(m@),
                    ),
                    forall|i: int| 0 <= i < m@.len() ==> (#[trigger] m@[i]).1.wf(),
                decreases rem,
            {
                if rem == 0 {
                    return Some((m, cur));
                }
                match cbor::read_uint(buf, cur) {
                    None => {
                        return None;
                    },
                    Some((k, p2)) => {
                        if k > 0xffff {
                            return None;
                        }
                        match idset::read_idset(buf, p2) {
                            None => {
                                return None;
                            },
                            Some((ids, p3)) => {
                                proof {
                                    assert(csm_view(m@.push((k as u16, ids))) =~= csm_view(
                                        m@,
                                    ).push((k as u16, ids@)));
                                }
                                m.push((k as u16, ids));
                                cur = p3;
                                rem = rem - 1;
                            },
                        }
                    },
                }
            }
        },
    }
}

/// Encoded directory message: variant tag then a field map.
pub open spec fn enc_service_message(m: ServiceMessageV) -> Seq<u8> {
    match m {
        ServiceMessageV::ServiceRequest => cbor::enc_array(2) + cbor::enc_uint(0)
            + crate::message::enc_unit_payload(),
        ServiceMessageV::ServiceReply { services_tag, services } => cbor::enc_array(2)
            + cbor::enc_uint(1) + (cbor::enc_map(2) + cbor::enc_uint(0) + cbor::enc_uint(
            services_tag as u64,
        ) + cbor::enc_uint(1) + enc_client_services(services)),
    }
}

pub open spec fn parse_reply_entries(
    s: Seq<u8>,
    pos: int,
    n: nat,
    f0: Option<u32>,
    f1: Option<Seq<(u16, Seq<u16>)>>,
) -> Option<((u32, Seq<(u16, Seq<u16>)>), int)>
    decreases n,
{
    if n == 0 {
        match (f0, f1) {
            (Some(tag), Some(m)) => Some(((tag, m), pos)),
            _ => None,
        }
    } else {
        match cbor::parse_uint(s, pos) {
            None => None,
            Some((k, p1)) => {
                if k == 0 {
                    match cbor::parse_uint(s, p1) {
                        Some((v, p2)) => if v <= u32::MAX as u64 {
                            parse_reply_entries(s, p2, (n - 1) as nat, Some(v as u32), f1)
                        } else {
                            None
                        },
                        None => None,
                    }
                } else if k == 1 {
                    match parse_client_services(s, p1) {
                        Some((m, p2)) => parse_reply_entries(s, p2, (n - 1) as nat, f0, Some(m)),
                        None => None,
                    }
                } else {
                    match cbor::skip_n(s, p1, 1) {
                        Some(p2) => parse_reply_entries(s, p2, (n - 1) as nat, f0, f1),
                        None => None,
                    }
                }
            },
        }
    }
}

pub open spec fn parse_service_message(s: Seq<u8>, pos: int) -> Option<(ServiceMessageV, int)> {
    match cbor::parse_array(s, pos) {
        None => None,
        Some((n, p1)) => if n != 2 {
            None
        } else {
            match cbor::parse_uint(s, p1) {
                None => None,
                Some((tag, p2)) => {
                    if tag == 0 {
                        match crate::message::parse_unit_payload(s, p2) {
                            Some(p3) => Some((ServiceMessageV::ServiceRequest, p3)),
                            None => None,
                        }
                    } else if tag == 1 {
                        match cbor::parse_map(s, p2) {
                            Some((nf, p3)) => match parse_reply_entries(
                                s,
                                p3,
                                nf as nat,
                                None,
                                None,
                            ) {
                                Some(((services_tag, services), p4)) => Some(
                                    (ServiceMessageV::ServiceReply { services_tag, services }, p4),
                                ),
                                None => None,
                            },
                            None => None,
                        }
                    } else {
                        None
                    }
                },
            }
        },
    }
}

/// Parsing an encoded directory message yields the message back.
#[verifier::rlimit(100)]
#[verifier::spinoff_prover]
pub proof fn lemma_parse_service_message_enc(s: Seq<u8>, pos: int, m: ServiceMessageV)
    requires
        wf_service_message(m),
        cbor::bytes_at(s, pos, enc_service_message(m)),
    ensures
        parse_service_message(s, pos) == Some((m, pos + enc_service_message(m).len())),
{
    let a = cbor::enc_array(2);
    match m {
        ServiceMessageV::ServiceRequest => {
            let t = cbor::enc_uint(0);
            cbor::lemma_bytes_at_split(s, pos, a + t, crate::message::enc_unit_payload());
            cbor::lemma_bytes_at_split(s, pos, a, t);
            cbor::lemma_parse_array_enc(s, pos, 2);
            cbor::lemma_parse_uint_enc(s, pos + a.len(), 0);
            crate::message::lemma_parse_unit_payload_enc(s, pos + a.len() + t.len());
        },
        ServiceMessageV::ServiceReply { services_tag, services } => {
            let t = cbor::enc_uint(1);
            let h = cbor::enc_map(2);
            let k0 = cbor::enc_uint(0);
            let v0 = cbor::enc_uint(services_tag as u64);
            let k1 = cbor::enc_uint(1);
            let v1 = enc_client_services(services);
            cbor::lemma_bytes_at_split(s, pos, a + t, h + k0 + v0 + k1 + v1);
            cbor::lemma_bytes_at_split(s, pos, a, t);
            cbor::lemma_parse_array_enc(s, pos, 2);
            cbor::lemma_parse_uint_enc(s, pos + a.len(), 1);
            let pp = pos + a.len() + t.len();
            cbor::lemma_bytes_at_split(s, pp, h + k0 + v0 + k1, v1);
            cbor::lemma_bytes_at_split(s, pp, h + k0 + v0, k1);
            cbor::lemma_bytes_at_split(s, pp, h + k0, v0);
            cbor::lemma_bytes_at_split(s, pp, h, k0);
            let p0 = pp + h.len();
            let p0v = p0 + k0.len();
            let p1 = p0v + v0.len();
            let p1v = p1 + k1.len();
            let pe = p1v + v1.len();
            cbor::lemma_parse_map_enc(s, pp, 2);
            cbor::lemma_parse_uint_enc(s, p0, 0);
            cbor::lemma_parse_uint_enc(s, p0v, services_tag as u64);
            cbor::lemma_parse_uint_enc(s, p1, 1);
            lemma_parse_client_services_enc(s, p1v, services);
            assert(parse_reply_entries(s, p0, 2, None, None) == parse_reply_entries(
                s,
                p1,
                1,
                Some(services_tag),
                None,
            ));
            assert(parse_reply_entries(s, p1, 1, Some(services_tag), None) == parse_reply_entries(
                s,
                pe,
                0,
                Some(services_tag),
                Some(services),
            ));
        },
    }
}

/// Decoding inverts encoding for every directory message.
pub proof fn lemma_service_message_round_trip(m: ServiceMessageV)
    requires
        wf_service_message(m),
    ensures
        parse_service_message(enc_service_message(m), 0) == Some(
            (m, enc_service_message(m).len() as int),
        ),
{
    lemma_parse_service_message_enc(enc_service_message(m), 0, m);
}

/// Encode a directory message.
pub fn encode_service_message(m: &ServiceMessage) -> (out: Vec<u8>)
    ensures
        out@ == enc_service_message(m@),
{
    let mut out: Vec<u8> = Vec::new();
    cbor::write_array(2, &mut out);
    match m {
        ServiceMessage::ServiceRequest => {
            cbor::write_uint(0, &mut out);
            crate::message::write_unit_payload(&mut out);
        },
        ServiceMessage::ServiceReply { services_tag, services } => {
            cbor::write_uint(1, &mut out);
            cbor::write_map(2, &mut out);
            cbor::write_uint(0, &mut out);
            cbor::write_uint(*services_tag as u64, &mut out);
            cbor::write_uint(1, &mut out);
            write_client_services(services, &mut out);
        },
    }
    out
}

/// Decode a directory message; every byte must be consumed.
pub fn decode_service_message(buf: &Vec<u8>) -> (r: Option<ServiceMessage>)
    ensures
        match r {
            Some(m) => parse_service_message(buf@, 0) == Some((m@, buf@.len() as int)) && (
            m matches ServiceMessage::ServiceReply { services, .. } ==> forall|i: int|
                0 <= i < services@.len() ==> (#[trigger] services@[i]).1.wf()),
            None => parse_service_message(buf@, 0) is None || parse_service_message(
                buf@,
                0,
            )->Some_0.1 != buf@.len(),
        },
{
    match cbor::read_array(buf, 0) {
        None => None,
        Some((n, p1)) => {
            if n != 2 {
                return None;
            }
            match cbor::read_uint(buf, p1) {
                None => None,
                Some((tag, p2)) => {
                    if tag == 0 {
                        match crate::message::read_unit_payload(buf, p2) {
                            Some(p3) => {
                                if p3 == buf.len() {
                                    Some(ServiceMessage::ServiceRequest)
                                } else {
                                    None
                                }
                            },
                            None => None,
                        }
                    } else if tag == 1 {
                        match read_reply_fields(buf, p2) {
                            Some(((services_tag, services), p3)) => {
                                if p3 == buf.len() {
                                    Some(ServiceMessage::ServiceReply { services_tag, services })
                                } else {
                                    None
                                }
                            },
                            None => None,
                        }
                    } else {
                        None
                    }
                },
            }
        },
    }
}

fn read_reply_fields(buf: &Vec<u8>, pos: usize) -> (r: Option<((u32, Vec<(u16, IdSet)>), usize)>)
    ensures
        match r {
            Some(((tag, m), end)) => ({
                match cbor::parse_map(buf@, pos as int) {
                    Some((nf, p3)) => parse_reply_entries(buf@, p3, nf as nat, None, None) == Some(
                        (((tag, csm_view(m@))), end as int),
                    ),
                    None => false,
                }
            }) && pos < end <= buf.len() && (forall|i: int|
                0 <= i < m@.len() ==> (#[trigger] m@[i]).1.wf()),
            None => ({
                match cbor::parse_map(buf@, pos as int) {
                    Some((nf, p3)) => parse_reply_entries(buf@, p3, nf as nat, None, None) is None,
                    None => true,
                }
            }),
        },
{
    match cbor::read_map(buf, pos) {
        None => None,
        Some((n, p1)) => {
            let mut f0: Option<u32> = None;
            let mut f1: Option<Vec<(u16, IdSet)>> = None;
            let mut cur: usize = p1;
            let mut rem: u64 = n;
            loop
                invariant
                    pos < cur <= buf.len(),
                    ({
                        match cbor::parse_map(buf@, pos as int) {
                            Some((nf, p3)) => parse_reply_entries(buf@, p3, nf as nat, None, None)
                                == parse_reply_entries(
                                buf@,
                                cur as int,
                                rem as nat,
                                f0,
                                match f1 {
                                    Some(ref m) => Some(csm_view(m@)),
                                    None => None,
                                },
                            ),
                            None => false,
                        }
                    }),
                    match f1 {
                        Some(ref m) => forall|i: int|
                            0 <= i < m@.len() ==> (#[trigger] m@[i]).1.wf(),
                        None => true,
                    },
                decreases rem,
            {
                if rem == 0 {
                    match (f0, f1) {
                        (Some(tag), Some(m)) => {
                            return Some(((tag, m), cur));
                        },
                        _ => {
                            return None;
                        },
                    }
                }
                match cbor::read_uint(buf, cur) {
                    None => {
                        return None;
                    },
                    Some((k, p2)) => {
                        if k == 0 {
                            match cbor::read_uint(buf, p2) {
                                None => {
                                    return None;
                                },
                                Some((v, p3)) => {
                                    if v <= 0xffff_ffff {
                                        f0 = Some(v as u32);
                                        cur = p3;
                                        rem = rem - 1;
                                    } else {
                                        return None;
                                    }
                                },
                            }
                        } else if k == 1 {
                            match read_client_services(buf, p2) {
                                None => {
                                    return None;
                                },
                                Some((m, p3)) => {
                                    f1 = Some(m);
                                    cur = p3;
                                    rem = rem - 1;
                                },
                            }
                        } else {
                            match cbor::skip_items(buf, p2, 1) {
                                None => {
                                    return None;
                                },
                                Some(p3) => {
                                    cur = p3;
                                    rem = rem - 1;
                                },
                            }
                        }
                    },
                }
            }
        },
    }
}

/// Client-id keys are unique and every service set is well formed.
pub open spec fn cs_keys_wf(v: Seq<(u16, IdSet)>) -> bool {
    &&& forall|i: int, j: int| 0 <= i < j < v.len() ==> (#[trigger] v[i]).0 != (#[trigger] v[j]).0
    &&& forall|i: int| 0 <= i < v.len() ==> (#[trigger] v[i]).1.wf()
}

/// The map has an entry for client `c`.
pub open spec fn cs_has(v: Seq<(u16, IdSet)>, c: u16) -> bool {
    exists|i: int| 0 <= i < v.len() && (#[trigger] v[i]).0 == c
}

/// Client `c` offers service `s` somewhere in the map.
pub open spec fn offers(m: Seq<(u16, IdSet)>, c: u16, s: u16) -> bool {
    exists|j: int| 0 <= j < m.len() && (#[trigger] m[j]).0 == c && m[j].1@.contains(s)
}

/// The services of one node: a version tag and a map from client id to the
/// services that client offers.
pub struct ServiceMap {
    pub services_tag: u32,
    pub services: Vec<(u16, IdSet)>,
}

pub open spec fn sm_wf(m: ServiceMap) -> bool {
    forall|i: int| 0 <= i < m.services@.len() ==> (#[trigger] m.services@[i]).1.wf()
}

/// The services tag is zero exactly when the map is empty.
pub open spec fn tag_consistent(m: ServiceMap) -> bool {
    (m.services_tag == 0) <==> (m.services@.len() == 0)
}

impl ServiceMap {
    /// Empty map with tag zero.
    pub fn new() -> (r: Self)
        ensures
            r.services_tag == 0,
            r.services@.len() == 0,
            sm_wf(r),
            tag_consistent(r),
            cs_keys_wf(r.services@),
    {
        ServiceMap { services_tag: 0, services: Vec::new() }
    }
}

/// Some peer in the map offers service `s`.
pub open spec fn peer_offers(p: (Vec<u8>, ServiceMap), s: u16) -> bool {
    exists|c: u16| offers(p.1.services@, c, s)
}

/// `m` is the fan-out map for service `s` over `peers`, in table order: one
/// entry per peer with at least one client offering `s`, holding exactly
/// those clients.
pub open spec fn fanout_ok(
    peers: Seq<(Vec<u8>, ServiceMap)>,
    s: u16,
    m: Seq<(Seq<u8>, Seq<u16>)>,
) -> bool
    decreases peers.len(),
{
    if peers.len() == 0 {
        m.len() == 0
    } else {
        let p = peers.last();
        if peer_offers(p, s) {
            &&& m.len() > 0
            &&& m.last().0 == p.0@
            &&& idset::sorted(m.last().1)
            &&& forall|c: u16| m.last().1.contains(c) <==> offers(p.1.services@, c, s)
            &&& fanout_ok(peers.drop_last(), s, m.drop_last())
        } else {
            fanout_ok(peers.drop_last(), s, m)
        }
    }
}

/// `msgs` are the service-update events for `s` and map `m`, one per local
/// client that offers `s`, in map order.
pub open spec fn updates_ok(
    local: Seq<(u16, IdSet)>,
    s: u16,
    from: u16,
    m: Seq<(Seq<u8>, Seq<u16>)>,
    msgs: Seq<MessageV>,
) -> bool
    decreases local.len(),
{
    if local.len() == 0 {
        msgs.len() == 0
    } else {
        let e = local.last();
        if e.1@.contains(s) {
            &&& msgs.len() > 0
            &&& msgs.last() == MessageV::Event {
                to_client: e.0,
                from_client: from,
                event: EventV::ServiceUpdate(s, m),
            }
            &&& updates_ok(local.drop_last(), s, from, m, msgs.drop_last())
        } else {
            updates_ok(local.drop_last(), s, from, m, msgs)
        }
    }
}

/// `delta` consists of, for each service in `u` in order, the service-update
/// events of that service's fan-out.
pub open spec fn all_updates_ok(
    u: Seq<u16>,
    local: Seq<(u16, IdSet)>,
    peers: Seq<(Vec<u8>, ServiceMap)>,
    from: u16,
    delta: Seq<MessageV>,
) -> bool
    decreases u.len(),
{
    if u.len() == 0 {
        delta.len() == 0
    } else {
        exists|k: int, m: Seq<(Seq<u8>, Seq<u16>)>|
            {
                &&& 0 <= k <= delta.len()
                &&& all_updates_ok(u.drop_last(), local, peers, from, delta.subrange(0, k))
                &&& fanout_ok(peers, u.last(), m)
                &&& updates_ok(local, u.last(), from, m, delta.subrange(k, delta.len() as int))
            }
    }
}

/// Effect of a client update on the directory state.
pub open spec fn client_update_effect(
    pre: ServiceClient,
    post: ServiceClient,
    add: bool,
    client_id: u16,
    services: Seq<u16>,
) -> bool {
    &&& post.wf()
    &&& tag_consistent(post.local)
    &&& post.client_id == pre.client_id
    &&& post.peers == pre.peers
    &&& ({
        let keep = add && services.len() > 0;
        &&& (cs_has(post.local.services@, client_id) <==> keep)
        &&& (keep ==> exists|i: int|
            0 <= i < post.local.services@.len() && (#[trigger] post.local.services@[i]).0
                == client_id && post.local.services@[i].1@ == services)
        &&& forall|c: u16|
            c != client_id ==> ((cs_has(post.local.services@, c) <==> cs_has(
                pre.local.services@,
                c,
            )) && (cs_has(pre.local.services@, c) ==> exists|i: int, j: int|
                0 <= i < pre.local.services@.len() && 0 <= j < post.local.services@.len() && (
                #[trigger] pre.local.services@[i]).0 == c && (#[trigger] post.local.services@[j]).0
                    == c && pre.local.services@[i].1@ == post.local.services@[j].1@))
    })
    &&& obv(post.outbox@) == obv(pre.outbox@).push(
        MessageV::Put {
            client_id: pre.client_id,
            request_id: post.request_id,
            content: GetSetV::ServicesTag(post.local.services_tag),
        },
    )
}

/// Effect of a peer update on the directory state.
pub open spec fn peer_update_effect(
    pre: ServiceClient,
    post: ServiceClient,
    peer_id: Seq<u8>,
    services_tag: u32,
) -> bool {
    &&& post.wf()
    &&& post.client_id == pre.client_id
    &&& post.request_id == pre.request_id
    &&& post.local == pre.local
    &&& ({
        let known = exists|i: int|
            0 <= i < pre.peers@.len() && (#[trigger] pre.peers@[i]).0@ == peer_id;
        let changed = !known || exists|i: int|
            0 <= i < pre.peers@.len() && (#[trigger] pre.peers@[i]).0@ == peer_id && pre.peers@[
                i
            ].1.services_tag != services_tag;
        &&& (exists|i: int|
            0 <= i < post.peers@.len() && (#[trigger] post.peers@[i]).0@ == peer_id)
        &&& obv(post.outbox@) == if changed {
            obv(pre.outbox@).push(
                MessageV::Message {
                    to_peer: peer_id,
                    from_peer: Seq::empty(),
                    to_client: crate::ALL_CLIENTS,
                    from_client: pre.client_id,
                    service: Service::Service.spec_id(),
                    content: enc_service_message(ServiceMessageV::ServiceRequest),
                },
            )
        } else {
            obv(pre.outbox@)
        }
    })
}

/// Effect of answering a service request.
pub open spec fn service_request_effect(
    pre: ServiceClient,
    post: ServiceClient,
    from_peer: Seq<u8>,
    from_client: u16,
) -> bool {
    &&& post.wf()
    &&& post.client_id == pre.client_id
    &&& post.request_id == pre.request_id
    &&& post.local == pre.local
    &&& post.peers == pre.peers
    &&& obv(post.outbox@) == obv(pre.outbox@).push(
        MessageV::Message {
            to_peer: from_peer,
            from_peer: Seq::empty(),
            to_client: from_client,
            from_client: pre.client_id,
            service: Service::Service.spec_id(),
            content: enc_service_message(
                ServiceMessageV::ServiceReply {
                    services_tag: pre.local.services_tag,
                    services: csm_view(pre.local.services@),
                },
            ),
        },
    )
}

/// Effect of installing a service reply.
pub open spec fn service_reply_effect(
    pre: ServiceClient,
    post: ServiceClient,
    from_peer: Seq<u8>,
    services_tag: u32,
    services: Seq<(u16, Seq<u16>)>,
) -> bool {
    &&& post.wf()
    &&& post.client_id == pre.client_id
    &&& post.request_id == pre.request_id
    &&& post.local == pre.local
    &&& ((forall|i: int|
        0 <= i < pre.peers@.len() ==> (#[trigger] pre.peers@[i]).0@ != from_peer) ==> post.peers
        == pre.peers && post.outbox == pre.outbox)
    &&& ((exists|i: int|
        0 <= i < pre.peers@.len() && (#[trigger] pre.peers@[i]).0@ == from_peer) ==> exists|i: int|
        {
            &&& 0 <= i < pre.peers@.len()
            &&& (#[trigger] pre.peers@[i]).0@ == from_peer
            &&& post.peers@.len() == pre.peers@.len()
            &&& post.peers@[i].0 == pre.peers@[i].0
            &&& post.peers@[i].1.services_tag == services_tag
            &&& csm_view(post.peers@[i].1.services@) == services
            &&& forall|j: int|
                0 <= j < pre.peers@.len() && j != i ==> post.peers@[j] == pre.peers@[j]
            &&& obv(post.outbox@).len() >= obv(pre.outbox@).len()
            &&& obv(post.outbox@).subrange(0, obv(pre.outbox@).len() as int) == obv(pre.outbox@)
            &&& exists|u: Seq<u16>|
                {
                    &&& idset::sorted(u)
                    &&& (forall|c: u16|
                        u.contains(c) <==> exists|j: int|
                            0 <= j < post.local.services@.len() && (#[trigger] post.local.services@[
                                j
                            ]).1@.contains(c))
                    &&& all_updates_ok(
                        u,
                        post.local.services@,
                        post.peers@,
                        pre.client_id,
                        obv(post.outbox@).subrange(
                            obv(pre.outbox@).len() as int,
                            obv(post.outbox@).len() as int,
                        ),
                    )
                }
        })
}

/// The service directory client's state.
pub struct ServiceClient {
    pub client_id: u16,
    pub request_id: u32,
    pub local: ServiceMap,
    pub peers: Vec<(Vec<u8>, ServiceMap)>,
    pub outbox: Vec<Message>,
}

/// Views of the messages queued towards the daemon, oldest first.
pub open spec fn obv(v: Seq<Message>) -> Seq<MessageV> {
    v.map_values(|m: Message| m@)
}

impl ServiceClient {
    /// The maps are well formed; the tag may be out of step with the local
    /// map (it is between a map change and the tag refresh).
    pub open spec fn wf_maps(&self) -> bool {
        &&& sm_wf(self.local)
        &&& cs_keys_wf(self.local.services@)
        &&& forall|i: int, j: int|
            0 <= i < j < self.peers@.len() ==> (#[trigger] self.peers@[i]).0@ != (
            #[trigger] self.peers@[j]).0@
        &&& forall|i: int| 0 <= i < self.peers@.len() ==> sm_wf((#[trigger] self.peers@[i]).1)
    }

    pub open spec fn wf(&self) -> bool {
        &&& self.wf_maps()
        &&& tag_consistent(self.local)
    }

    /// Fresh directory client: not yet registered, with empty maps.
    pub fn new() -> (r: Self)
        ensures
            r.wf(),
            r.client_id == 0,
            r.request_id == 0,
            r.local.services_tag == 0,
            r.local.services@.len() == 0,
            r.peers@.len() == 0,
            r.outbox@.len() == 0,
    {
        ServiceClient {
            client_id: 0,
            request_id: 0,
            local: ServiceMap::new(),
            peers: Vec::new(),
            outbox: Vec::new(),
        }
    }

    /// The next request id, wrapping around.
    pub fn get_request_id(&mut self) -> (r: u32)
        ensures
            final(self).request_id == (if old(self).request_id == u32::MAX {
                0u32
            } else {
                (old(self).request_id + 1) as u32
            }),
            r == final(self).request_id,
            final(self).client_id == old(self).client_id,
            final(self).local == old(self).local,
            final(self).peers == old(self).peers,
            final(self).outbox == old(self).outbox,
    {
        self.request_id = if self.request_id == u32::MAX {
            0
        } else {
            self.request_id + 1
        };
        self.request_id
    }

    /// Queue the registration of this client for the directory service.
    pub fn register_client(&mut self)
        requires
            old(self).wf(),
        ensures
            final(self).wf(),
            final(self).client_id == old(self).client_id,
            final(self).request_id == old(self).request_id,
            final(self).local == old(self).local,
            final(self).peers == old(self).peers,
            obv(final(self).outbox@) == obv(old(self).outbox@).push(
                MessageV::Register { services: seq![Service::Service.spec_id()] },
            ),
    {
        let mut services = IdSet::new();
        services.insert(Service::Service.id());
        proof {
            assert(services@.contains(1u16));
            let w = choose|w: int| 0 <= w < services@.len() && services@[w] == 1u16;
            assert(services@.len() == 1);
            assert(services@ =~= seq![Service::Service.spec_id()]);
        }
        let m = Message::Register { services };
        let ghost prev = self.outbox@;
        self.outbox.push(m);
        proof {
            assert(obv(self.outbox@) =~= obv(prev).push(
                MessageV::Register { services: seq![Service::Service.spec_id()] },
            ));
        }
    }

    /// Queue one directory message towards `peer_id` / `client_id`.
    fn send_message(&mut self, peer_id: Vec<u8>, client_id: u16, message: &ServiceMessage)
        requires
            old(self).wf(),
        ensures
            final(self).wf(),
            final(self).client_id == old(self).client_id,
            final(self).request_id == old(self).request_id,
            final(self).local == old(self).local,
            final(self).peers == old(self).peers,
            obv(final(self).outbox@) == obv(old(self).outbox@).push(
                MessageV::Message {
                    to_peer: peer_id@,
                    from_peer: Seq::empty(),
                    to_client: client_id,
                    from_client: old(self).client_id,
                    service: Service::Service.spec_id(),
                    content: enc_service_message(message@),
                },
            ),
    {
        let content = encode_service_message(message);
        let m = Message::Message {
            to_peer: peer_id,
            from_peer: Vec::new(),
            to_client: client_id,
            from_client: self.client_id,
            service: Service::Service.id(),
            content,
        };
        let ghost prev = self.outbox@;
        let ghost mv = m@;
        self.outbox.push(m);
        proof {
            assert(obv(self.outbox@) =~= obv(prev).push(mv));
        }
    }

    /// Pick the advertised services tag from the fresh random value: zero
    /// exactly when no local client offers a service, never zero otherwise;
    /// then queue the set request that tells the daemon.
    pub fn update_services_tag(&mut self, fresh: u32)
        requires
            old(self).wf_maps(),
        ensures
            final(self).wf(),
            tag_consistent(final(self).local),
            final(self).local.services == old(self).local.services,
            final(self).local.services_tag == (if old(self).local.services@.len() == 0 {
                0u32
            } else if fresh == 0 {
                1u32
            } else {
                fresh
            }),
            final(self).client_id == old(self).client_id,
            final(self).peers == old(self).peers,
            final(self).request_id == (if old(self).request_id == u32::MAX {
                0u32
            } else {
                (old(self).request_id + 1) as u32
            }),
            obv(final(self).outbox@) == obv(old(self).outbox@).push(
                MessageV::Put {
                    client_id: old(self).client_id,
                    request_id: final(self).request_id,
                    content: GetSetV::ServicesTag(final(self).local.services_tag),
                },
            ),
    {
        let tag: u32 = if self.local.services.len() == 0 {
            0
        } else if fresh == 0 {
            1
        } else {
            fresh
        };
        self.local.services_tag = tag;
        let request_id = self.get_request_id();
        let m = Message::Put {
            client_id: self.client_id,
            request_id,
            content: GetSet::ServicesTag(tag),
        };
        let ghost prev = self.outbox@;
        let ghost mv = m@;
        self.outbox.push(m);
        proof {
            assert(obv(self.outbox@) =~= obv(prev).push(mv));
        }
    }

    /// Choose a fresh random services tag and queue the set request that
    /// advertises it; the tag is zero exactly when the local map is empty.
    pub fn refresh_services_tag(&mut self)
        requires
            old(self).wf_maps(),
        ensures
            final(self).wf(),
            tag_consistent(final(self).local),
            final(self).local.services == old(self).local.services,
            final(self).client_id == old(self).client_id,
            final(self).peers == old(self).peers,
            obv(final(self).outbox@) == obv(old(self).outbox@).push(
                MessageV::Put {
                    client_id: old(self).client_id,
                    request_id: final(self).request_id,
                    content: GetSetV::ServicesTag(final(self).local.services_tag),
                },
            ),
    {
        let fresh = crate::ext::random_u32();
        self.update_services_tag(fresh);
    }

    /// Record a client update in the local map: an empty set, or `add` being
    /// false, removes the entry; otherwise the entry is created or replaced.
    /// A fresh services tag is then chosen and queued.
    pub fn handle_event_client_update(&mut self, add: bool, client_id: u16, services: IdSet, fresh: u32)
        requires
            old(self).wf(),
            services.wf(),
        ensures
            client_update_effect(*old(self), *final(self), add, client_id, services@),
    {
        let keep = add && services.len() > 0;
        let ghost a = self.local.services@;
        if keep {
            match self.find_local(client_id) {
                Some(i) => {
                    self.local.services[i].1 = services;
                    proof {
                        let b = self.local.services@;
                        assert forall|p: int| 0 <= p < b.len() implies (
                        #[trigger] b[p]).1.wf() by {
                            if p != i {
                                assert(b[p] == a[p]);
                            }
                        }
                        assert forall|p: int, q: int| 0 <= p < q < b.len() implies (
                        #[trigger] b[p]).0 != (#[trigger] b[q]).0 by {
                            assert(b[p].0 == a[p].0);
                            assert(b[q].0 == a[q].0);
                        }
                        assert(b[i as int].0 == client_id && b[i as int].1@ == services@);
                        assert(cs_has(b, client_id));
                        assert forall|c: u16| c != client_id && cs_has(a, c) implies cs_has(
                            b,
                            c,
                        ) && exists|i2: int, j: int|
                            0 <= i2 < a.len() && 0 <= j < b.len() && (#[trigger] a[i2]).0 == c && (
                            #[trigger] b[j]).0 == c && a[i2].1@ == b[j].1@ by {
                            let w = choose|w: int| 0 <= w < a.len() && (#[trigger] a[w]).0 == c;
                            assert(a[i as int].0 == client_id);
                            assert(w != i);
                            assert(b[w] == a[w]);
                        }
                        assert forall|c: u16| c != client_id && cs_has(b, c) implies cs_has(
                            a,
                            c,
                        ) by {
                            let w = choose|w: int| 0 <= w < b.len() && (#[trigger] b[w]).0 == c;
                            assert(w != i);
                            assert(b[w] == a[w]);
                        }
                    }
                },
                None => {
                    self.local.services.push((client_id, services));
                    proof {
                        let b = self.local.services@;
                        assert forall|p: int, q: int| 0 <= p < q < b.len() implies (
                        #[trigger] b[p]).0 != (#[trigger] b[q]).0 by {
                            if q == b.len() - 1 {
                                assert(b[p] == a[p]);
                                assert(!cs_has(a, client_id));
                            } else {
                                assert(b[p] == a[p]);
                                assert(b[q] == a[q]);
                            }
                        }
                        assert forall|p: int| 0 <= p < b.len() implies (
                        #[trigger] b[p]).1.wf() by {
                            if p < b.len() - 1 {
                                assert(b[p] == a[p]);
                            }
                        }
                        assert(b.last().0 == client_id && b.last().1@ == services@);
                        assert(cs_has(b, client_id));
                        assert forall|c: u16| c != client_id && cs_has(a, c) implies cs_has(
                            b,
                            c,
                        ) && exists|i2: int, j: int|
                            0 <= i2 < a.len() && 0 <= j < b.len() && (#[trigger] a[i2]).0 == c && (
                            #[trigger] b[j]).0 == c && a[i2].1@ == b[j].1@ by {
                            let w = choose|w: int| 0 <= w < a.len() && (#[trigger] a[w]).0 == c;
                            assert(b[w] == a[w]);
                        }
                        assert forall|c: u16| c != client_id && cs_has(b, c) implies cs_has(
                            a,
                            c,
                        ) by {
                            let w = choose|w: int| 0 <= w < b.len() && (#[trigger] b[w]).0 == c;
                            assert(w != b.len() - 1);
                            assert(b[w] == a[w]);
                        }
                    }
                },
            }
        } else {
            match self.find_local(client_id) {
                Some(i) => {
                    self.local.services.remove(i);
                    proof {
                        assert forall|p: int| 0 <= p < self.local.services@.len() implies (
                        #[trigger] self.local.services@[p]).0 != client_id && self.local.services@[
                            p
                        ].1.wf() by {
                            let pp = if p < i {
                                p
                            } else {
                                p + 1
                            };
                            assert(self.local.services@[p] == a[pp]);
                            if pp < i {
                                assert(a[pp].0 != a[i as int].0);
                            } else if pp > i {
                                assert(a[i as int].0 != a[pp].0);
                            }
                        }
                        assert forall|p: int, q: int|
                            0 <= p < q < self.local.services@.len() implies (
                        #[trigger] self.local.services@[p]).0 != (
                        #[trigger] self.local.services@[q]).0 by {
                            let pp = if p < i {
                                p
                            } else {
                                p + 1
                            };
                            let qq = if q < i {
                                q
                            } else {
                                q + 1
                            };
                            assert(self.local.services@[p] == a[pp]);
                            assert(self.local.services@[q] == a[qq]);
                        }
                        assert forall|c: u16|
                            c != client_id && cs_has(a, c) implies cs_has(
                            self.local.services@,
                            c,
                        ) by {
                            let w = choose|w: int| 0 <= w < a.len() && (#[trigger] a[w]).0 == c;
                            if w < i {
                                assert(self.local.services@[w] == a[w]);
                            } else if w > i {
                                assert(self.local.services@[w - 1] == a[w]);
                            } else {
                                assert(a[i as int].0 == client_id);
                            }
                        }
                        assert forall|c: u16|
                            c != client_id && cs_has(a, c) implies exists|i2: int, j: int|
                            0 <= i2 < a.len() && 0 <= j < self.local.services@.len() && (
                            #[trigger] a[i2]).0 == c && (#[trigger] self.local.services@[j]).0 == c
                                && a[i2].1@ == self.local.services@[j].1@ by {
                            let w = choose|w: int| 0 <= w < a.len() && (#[trigger] a[w]).0 == c;
                            if w < i {
                                assert(self.local.services@[w] == a[w]);
                            } else if w > i {
                                assert(self.local.services@[w - 1] == a[w]);
                            } else {
                                assert(a[i as int].0 == client_id);
                            }
                        }
                    }
                },
                None => {
                },
            }
        }
        self.update_services_tag(fresh);
    }

    /// Index of the local map entry for client `c`.
    fn find_local(&self, c: u16) -> (r: Option<usize>)
        ensures
            match r {
                Some(i) => i < self.local.services@.len() && self.local.services@[i as int].0 == c,
                None => !cs_has(self.local.services@, c),
            },
    {
        let mut i: usize = 0;
        while i < self.local.services.len()
            invariant
                i <= self.local.services@.len(),
                forall|k: int| 0 <= k < i ==> (#[trigger] self.local.services@[k]).0 != c,
            decreases self.local.services@.len() - i,
        {
            if self.local.services[i].0 == c {
                return Some(i);
            }
            i = i + 1;
        }
        None
    }

    /// Record a peer update: a new peer gets an empty map, a known peer gets
    /// the announced tag.  When the peer is new or its tag changed, one
    /// service request towards that peer is queued.
    pub fn handle_event_peer_update(&mut self, peer_info: &PeerInfo)
        requires
            old(self).wf(),
        ensures
            peer_update_effect(
                *old(self),
                *final(self),
                peer_info.peer_id@,
                peer_info.services_tag,
            ),
    {
        let ghost ps = self.peers@;
        let request_update: bool;
        match self.find_peer(&peer_info.peer_id) {
            None => {
                self.peers.push((clone_bytes(&peer_info.peer_id), ServiceMap::new()));
                request_update = true;
                proof {
                    assert forall|p: int, q: int| 0 <= p < q < self.peers@.len() implies (
                    #[trigger] self.peers@[p]).0@ != (#[trigger] self.peers@[q]).0@ by {
                        if q == self.peers@.len() - 1 {
                            assert(self.peers@[p] == ps[p]);
                        } else {
                            assert(self.peers@[p] == ps[p] && self.peers@[q] == ps[q]);
                        }
                    }
                    assert forall|p: int| 0 <= p < self.peers@.len() implies sm_wf(
                        (#[trigger] self.peers@[p]).1,
                    ) by {
                        if p < self.peers@.len() - 1 {
                            assert(self.peers@[p] == ps[p]);
                        }
                    }
                    assert(self.peers@.last().0@ == peer_info.peer_id@);
                }
            },
            Some(i) => {
                request_update = self.peers[i].1.services_tag != peer_info.services_tag;
                self.peers[i].1.services_tag = peer_info.services_tag;
                proof {
                    assert forall|p: int, q: int| 0 <= p < q < self.peers@.len() implies (
                    #[trigger] self.peers@[p]).0@ != (#[trigger] self.peers@[q]).0@ by {
                        assert(self.peers@[p].0@ == ps[p].0@);
                        assert(self.peers@[q].0@ == ps[q].0@);
                    }
                    assert forall|p: int| 0 <= p < self.peers@.len() implies sm_wf(
                        (#[trigger] self.peers@[p]).1,
                    ) by {
                        if p != i {
                            assert(self.peers@[p] == ps[p]);
                        } else {
                            assert(self.peers@[p].1.services == ps[p].1.services);
                        }
                    }
                    assert(self.peers@[i as int].0@ == peer_info.peer_id@);
                    if request_update {
                        assert(ps[i as int].1.services_tag != peer_info.services_tag);
                    } else {
                        assert forall|w: int|
                            0 <= w < ps.len() && (#[trigger] ps[w]).0@ == peer_info.peer_id@
                                implies ps[w].1.services_tag == peer_info.services_tag by {
                            if w != i {
                                assert(ps[w].0@ != ps[i as int].0@);
                            }
                        }
                    }
                }
            },
        }
        if request_update {
            let pid = clone_bytes(&peer_info.peer_id);
            self.send_message(pid, crate::ALL_CLIENTS, &ServiceMessage::ServiceRequest);
        }
    }

    /// Answer a service request with the authoritative local snapshot.
    pub fn handle_message_service_request(&mut self, from_peer: Vec<u8>, from_client: u16)
        requires
            old(self).wf(),
        ensures
            service_request_effect(*old(self), *final(self), from_peer@, from_client),
    {
        let mut snapshot: Vec<(u16, IdSet)> = Vec::new();
        let mut i: usize = 0;
        while i < self.local.services.len()
            invariant
                i <= self.local.services@.len(),
                csm_view(snapshot@) == csm_view(self.local.services@.subrange(0, i as int)),
            decreases self.local.services@.len() - i,
        {
            let ghost prev = snapshot@;
            let c = self.local.services[i].0;
            let ids = clone_idset(&self.local.services[i].1);
            snapshot.push((c, ids));
            proof {
                assert(prev.len() == csm_view(prev).len());
                assert(prev.len() == i as int);
                assert forall|j: int| 0 <= j < prev.len() + 1 implies csm_view(snapshot@)[j]
                    == csm_view(self.local.services@.subrange(0, i + 1))[j] by {
                    if j < prev.len() {
                        assert(snapshot@[j] == prev[j]);
                        assert(csm_view(prev)[j] == csm_view(
                            self.local.services@.subrange(0, i as int),
                        )[j]);
                        assert(csm_view(self.local.services@.subrange(0, i as int))[j] == (
                        self.local.services@.subrange(0, i as int)[j].0,
                        self.local.services@.subrange(0, i as int)[j].1@,
                        ));
                        assert(self.local.services@.subrange(0, i as int)[j]
                            == self.local.services@.subrange(0, i + 1)[j]);
                    } else {
                        assert(self.local.services@.subrange(0, i + 1)[j]
                            == self.local.services@[i as int]);
                    }
                }
                assert(csm_view(snapshot@) =~= csm_view(self.local.services@.subrange(0, i + 1)));
            }
            i = i + 1;
        }
        proof {
            assert(self.local.services@.subrange(0, self.local.services@.len() as int)
                =~= self.local.services@);
        }
        let reply = ServiceMessage::ServiceReply {
            services_tag: self.local.services_tag,
            services: snapshot,
        };
        self.send_message(from_peer, from_client, &reply);
    }

    /// Install a service reply from a known peer, then recompute and push
    /// the service updates.  A reply from an unknown peer changes nothing.
    pub fn handle_message_service_reply(
        &mut self,
        from_peer: &Vec<u8>,
        services_tag: u32,
        services: Vec<(u16, IdSet)>,
    )
        requires
            old(self).wf(),
            forall|i: int| 0 <= i < services@.len() ==> (#[trigger] services@[i]).1.wf(),
        ensures
            service_reply_effect(
                *old(self),
                *final(self),
                from_peer@,
                services_tag,
                csm_view(services@),
            ),
    {
        let ghost ps = self.peers@;
        match self.find_peer(from_peer) {
            None => {
            },
            Some(i) => {
                self.peers[i].1.services_tag = services_tag;
                self.peers[i].1.services = services;
                proof {
                    assert forall|p: int, q: int| 0 <= p < q < self.peers@.len() implies (
                    #[trigger] self.peers@[p]).0@ != (#[trigger] self.peers@[q]).0@ by {
                        assert(self.peers@[p].0@ == ps[p].0@);
                        assert(self.peers@[q].0@ == ps[q].0@);
                    }
                    assert forall|p: int| 0 <= p < self.peers@.len() implies sm_wf(
                        (#[trigger] self.peers@[p]).1,
                    ) by {
                        if p != i {
                            assert(self.peers@[p] == ps[p]);
                        }
                    }
                }
                self.update_services();
            },
        }
    }

    /// Recompute and push the service updates: for every service that some
    /// local client offers, every interested local client gets one service
    /// update holding, per peer, exactly the clients that offer the service.
    #[verifier::loop_isolation(false)]
    pub fn update_services(&mut self)
        requires
            old(self).wf(),
        ensures
            final(self).wf(),
            final(self).client_id == old(self).client_id,
            final(self).request_id == old(self).request_id,
            final(self).local == old(self).local,
            final(self).peers == old(self).peers,
            obv(final(self).outbox@).len() >= obv(old(self).outbox@).len(),
            obv(final(self).outbox@).subrange(0, obv(old(self).outbox@).len() as int) == obv(
                old(self).outbox@,
            ),
            exists|u: Seq<u16>|
                {
                    &&& idset::sorted(u)
                    &&& (forall|c: u16|
                        u.contains(c) <==> exists|j: int|
                            0 <= j < old(self).local.services@.len() && (#[trigger] old(self).local.services@[j]).1@.contains(c))
                    &&& all_updates_ok(
                        u,
                        old(self).local.services@,
                        old(self).peers@,
                        old(self).client_id,
                        obv(final(self).outbox@).subrange(
                            obv(old(self).outbox@).len() as int,
                            obv(final(self).outbox@).len() as int,
                        ),
                    )
                },
    {
        // the services that any local client offers, as a sorted set
        let mut u = IdSet::new();
        let mut li: usize = 0;
        while li < self.local.services.len()
            invariant
                li <= self.local.services@.len(),
                u.wf(),
                forall|c: u16|
                    #[trigger] u@.contains(c) <==> exists|j: int|
                        0 <= j < li && (#[trigger] self.local.services@[j]).1@.contains(c),
            decreases self.local.services@.len() - li,
        {
            let mut k: usize = 0;
            let ghost entry = self.local.services@[li as int];
            while k < self.local.services[li].1.items.len()
                invariant
                    li < self.local.services@.len(),
                    entry == self.local.services@[li as int],
                    k <= entry.1.items@.len(),
                    u.wf(),
                    forall|c: u16|
                        #[trigger] u@.contains(c) <==> (exists|j: int|
                            0 <= j < li && (#[trigger] self.local.services@[j]).1@.contains(c))
                            || entry.1.items@.subrange(0, k as int).contains(c),
                decreases entry.1.items@.len() - k,
            {
                let v = self.local.services[li].1.items[k];
                let ghost upre = u@;
                u.insert(v);
                proof {
                    assert(entry.1.items@.subrange(0, k + 1) =~= entry.1.items@.subrange(
                        0,
                        k as int,
                    ).push(v));
                    assert forall|c: u16| #[trigger] u@.contains(c) implies ((exists|j: int|
                        0 <= j < li && (#[trigger] self.local.services@[j]).1@.contains(c))
                        || entry.1.items@.subrange(0, k + 1).contains(c)) by {
                        assert(upre.contains(c) || c == v);
                        if c == v {
                            assert(entry.1.items@.subrange(0, k + 1)[k as int] == v);
                            assert(entry.1.items@.subrange(0, k + 1).contains(c));
                        } else if entry.1.items@.subrange(0, k as int).contains(c) {
                            let w = choose|w: int|
                                0 <= w < k && #[trigger] entry.1.items@.subrange(
                                    0,
                                    k as int,
                                )[w] == c;
                            assert(entry.1.items@.subrange(0, k + 1)[w] == c);
                            assert(entry.1.items@.subrange(0, k + 1).contains(c));
                        }
                    }
                    assert forall|c: u16| ((exists|j: int|
                        0 <= j < li && (#[trigger] self.local.services@[j]).1@.contains(c))
                        || entry.1.items@.subrange(0, k + 1).contains(c)) implies #[trigger] u@.contains(
                        c,
                    ) by {
                        if entry.1.items@.subrange(0, k + 1).contains(c) {
                            let w = choose|w: int|
                                0 <= w < k + 1 && #[trigger] entry.1.items@.subrange(
                                    0,
                                    k + 1,
                                )[w] == c;
                            if w < k {
                                assert(entry.1.items@.subrange(0, k as int)[w] == c);
                                assert(entry.1.items@.subrange(0, k as int).contains(c));
                                assert(upre.contains(c));
                            } else {
                                assert(c == v);
                            }
                        } else {
                            assert(upre.contains(c));
                        }
                        assert(u@.contains(c));
                    }
                }
                k = k + 1;
            }
            proof {
                assert(entry.1.items@.subrange(0, entry.1.items@.len() as int)
                    =~= entry.1.items@);
                assert forall|c: u16|
                    #[trigger] u@.contains(c) implies (exists|j: int|
                    0 <= j < li + 1 && (#[trigger] self.local.services@[j]).1@.contains(c)) by {
                    if entry.1.items@.contains(c) {
                        assert(self.local.services@[li as int].1@.contains(c));
                    }
                }
                assert forall|c: u16|
                    (exists|j: int|
                        0 <= j < li + 1 && (#[trigger] self.local.services@[j]).1@.contains(c))
                        implies #[trigger] u@.contains(c) by {
                    let j = choose|j: int|
                        0 <= j < li + 1 && (#[trigger] self.local.services@[j]).1@.contains(c);
                    if j == li {
                        assert(entry.1.items@.contains(c));
                    }
                }
            }
            li = li + 1;
        }
        let ghost uv = u@;
        let ghost base = obv(self.outbox@);
        // for each such service: compute the fan-out map, then push one
        // update per interested local client
        let mut si: usize = 0;
        while si < u.items.len()
            invariant
                si <= uv.len(),
                u@ == uv,
                u.wf(),
                self.client_id == old(self).client_id,
                self.request_id == old(self).request_id,
                self.local == old(self).local,
                self.peers == old(self).peers,
                self.wf(),
                base == obv(old(self).outbox@),
                obv(self.outbox@).len() >= base.len(),
                obv(self.outbox@).subrange(0, base.len() as int) == base,
                all_updates_ok(
                    uv.subrange(0, si as int),
                    self.local.services@,
                    self.peers@,
                    self.client_id,
                    obv(self.outbox@).subrange(base.len() as int, obv(self.outbox@).len() as int),
                ),
            decreases uv.len() - si,
        {
            let s = u.items[si];
            // fan-out map for s
            let mut m: Vec<(Vec<u8>, IdSet)> = Vec::new();
            let mut pi: usize = 0;
            while pi < self.peers.len()
                invariant
                    pi <= self.peers@.len(),
                    fanout_ok(
                        self.peers@.subrange(0, pi as int),
                        s,
                        crate::message::pcs_view(m@),
                    ),
                    forall|x: int| 0 <= x < m@.len() ==> (#[trigger] m@[x]).1.wf(),
                decreases self.peers@.len() - pi,
            {
                let ghost p = self.peers@[pi as int];
                let mut pc = IdSet::new();
                let mut ci: usize = 0;
                while ci < self.peers[pi].1.services.len()
                    invariant
                        pi < self.peers@.len(),
                        p == self.peers@[pi as int],
                        ci <= p.1.services@.len(),
                        pc.wf(),
                        forall|c: u16|
                            #[trigger] pc@.contains(c) <==> exists|j: int|
                                0 <= j < ci && (#[trigger] p.1.services@[j]).0 == c && p.1.services@[
                                    j
                                ].1@.contains(s),
                    decreases p.1.services@.len() - ci,
                {
                    let c = self.peers[pi].1.services[ci].0;
                    let has_s = self.peers[pi].1.services[ci].1.contains(s);
                    let ghost pcpre = pc@;
                    if has_s {
                        pc.insert(c);
                    }
                    proof {
                        assert forall|x: u16| #[trigger] pc@.contains(x) implies (exists|j: int|
                            0 <= j < ci + 1 && (#[trigger] p.1.services@[j]).0 == x
                                && p.1.services@[j].1@.contains(s)) by {
                            if has_s && x == c {
                                assert(p.1.services@[ci as int].0 == c && p.1.services@[
                                    ci as int
                                ].1@.contains(s));
                            } else {
                                assert(pcpre.contains(x));
                                let j = choose|j: int|
                                    0 <= j < ci && (#[trigger] p.1.services@[j]).0 == x
                                        && p.1.services@[j].1@.contains(s);
                                assert(0 <= j < ci + 1 && p.1.services@[j].0 == x && p.1.services@[
                                    j
                                ].1@.contains(s));
                            }
                        }
                        assert forall|x: u16| (exists|j: int|
                            0 <= j < ci + 1 && (#[trigger] p.1.services@[j]).0 == x
                                && p.1.services@[j].1@.contains(s)) implies #[trigger] pc@.contains(
                            x,
                        ) by {
                            let j = choose|j: int|
                                0 <= j < ci + 1 && (#[trigger] p.1.services@[j]).0 == x
                                    && p.1.services@[j].1@.contains(s);
                            if j < ci {
                                assert(pcpre.contains(x));
                            } else {
                                assert(x == c && has_s);
                            }
                            assert(pc@.contains(x));
                        }
                    }
                    ci = ci + 1;
                }
                proof {
                    assert forall|c: u16| #[trigger] pc@.contains(c) <==> offers(
                        p.1.services@,
                        c,
                        s,
                    ) by {}
                }
                let ghost mpre = crate::message::pcs_view(m@);
                if pc.len() > 0 {
                    proof {
                        assert(pc@.contains(pc@[0]));
                        let ghost c0 = pc@[0];
                        assert(pc@.contains(c0));
                        assert(offers(p.1.services@, c0, s));
                        assert(peer_offers(p, s));
                    }
                    m.push((clone_bytes(&self.peers[pi].0), pc));
                    proof {
                        assert(crate::message::pcs_view(m@) =~= mpre.push(
                            (p.0@, m@.last().1@),
                        ));
                        assert(self.peers@.subrange(0, pi + 1).drop_last() =~= self.peers@.subrange(
                            0,
                            pi as int,
                        ));
                        assert(self.peers@.subrange(0, pi + 1).last() == p);
                        assert(crate::message::pcs_view(m@).drop_last() =~= mpre);
                    }
                } else {
                    proof {
                        if peer_offers(p, s) {
                            let c = choose|c: u16| offers(p.1.services@, c, s);
                            assert(pc.has(c));
                            assert(pc@.len() > 0);
                        }
                        assert(self.peers@.subrange(0, pi + 1).drop_last() =~= self.peers@.subrange(
                            0,
                            pi as int,
                        ));
                        assert(self.peers@.subrange(0, pi + 1).last() == p);
                    }
                }
                pi = pi + 1;
            }
            proof {
                assert(self.peers@.subrange(0, self.peers@.len() as int) =~= self.peers@);
            }
            // deliver to interested local clients
            let ghost mv = crate::message::pcs_view(m@);
            let ghost snap = obv(self.outbox@);
            let ghost delta_start = snap.len();
            let mut li2: usize = 0;
            while li2 < self.local.services.len()
                invariant
                    li2 <= self.local.services@.len(),
                    self.client_id == old(self).client_id,
                    self.request_id == old(self).request_id,
                    self.local == old(self).local,
                    self.peers == old(self).peers,
                    self.wf(),
                    delta_start == snap.len(),
                    obv(self.outbox@).len() >= delta_start,
                    obv(self.outbox@).subrange(0, delta_start as int) == snap,
                    updates_ok(
                        self.local.services@.subrange(0, li2 as int),
                        s,
                        self.client_id,
                        mv,
                        obv(self.outbox@).subrange(
                            delta_start as int,
                            obv(self.outbox@).len() as int,
                        ),
                    ),
                decreases self.local.services@.len() - li2,
            {
                let ghost e = self.local.services@[li2 as int];
                let interested = self.local.services[li2].1.contains(s);
                if interested {
                    let to_client = self.local.services[li2].0;
                    let ev = Event::ServiceUpdate(s, crate::message::clone_peer_clients(&m));
                    let msg = Message::Event {
                        to_client,
                        from_client: self.client_id,
                        event: ev,
                    };
                    let ghost prevout = obv(self.outbox@);
                    let ghost msgv = msg@;
                    self.outbox.push(msg);
                    proof {
                        assert(obv(self.outbox@) =~= prevout.push(msgv));
                        assert(to_client == e.0);
                        assert(msgv matches MessageV::Event { event: ev2, .. } && ev2 matches
                            EventV::ServiceUpdate(s2, m2) && s2 == s && m2 == mv) by {
                            assert(crate::message::pcs_view(m@) == mv);
                        }
                        assert(msgv == MessageV::Event {
                            to_client: e.0,
                            from_client: self.client_id,
                            event: EventV::ServiceUpdate(s, mv),
                        });
                        assert(obv(self.outbox@).subrange(0, delta_start as int) =~= prevout.subrange(
                            0,
                            delta_start as int,
                        ));
                        assert(self.local.services@.subrange(0, li2 + 1).drop_last()
                            =~= self.local.services@.subrange(0, li2 as int));
                        assert(self.local.services@.subrange(0, li2 + 1).last() == e);
                        assert(obv(self.outbox@).subrange(
                            delta_start as int,
                            obv(self.outbox@).len() as int,
                        ) =~= prevout.subrange(delta_start as int, prevout.len() as int).push(
                            msgv,
                        ));
                        assert(obv(self.outbox@).subrange(
                            delta_start as int,
                            obv(self.outbox@).len() as int,
                        ).drop_last() =~= prevout.subrange(
                            delta_start as int,
                            prevout.len() as int,
                        ));
                    }
                } else {
                    proof {
                        assert(self.local.services@.subrange(0, li2 + 1).drop_last()
                            =~= self.local.services@.subrange(0, li2 as int));
                        assert(self.local.services@.subrange(0, li2 + 1).last() == e);
                    }
                }
                li2 = li2 + 1;
            }
            proof {
                assert(self.local.services@.subrange(0, self.local.services@.len() as int)
                    =~= self.local.services@);
                // extend all_updates_ok by one service
                assert(uv.subrange(0, si + 1).drop_last() =~= uv.subrange(0, si as int));
                assert(uv.subrange(0, si + 1).last() == uv[si as int]);
                let total = obv(self.outbox@);
                let k = delta_start - base.len();
                let delta = total.subrange(base.len() as int, total.len() as int);
                assert(delta.subrange(0, k as int) =~= snap.subrange(
                    base.len() as int,
                    delta_start as int,
                ));
                assert(snap.subrange(base.len() as int, delta_start as int) =~= snap.subrange(
                    base.len() as int,
                    snap.len() as int,
                ));
                assert(all_updates_ok(
                    uv.subrange(0, si as int),
                    self.local.services@,
                    self.peers@,
                    self.client_id,
                    delta.subrange(0, k as int),
                ));
                assert(delta.subrange(k as int, delta.len() as int) =~= total.subrange(
                    delta_start as int,
                    total.len() as int,
                ));
                assert(updates_ok(
                    self.local.services@,
                    uv[si as int],
                    self.client_id,
                    mv,
                    delta.subrange(k as int, delta.len() as int),
                ));
                assert(fanout_ok(self.peers@, uv[si as int], mv));
                assert(all_updates_ok(
                    uv.subrange(0, si + 1),
                    self.local.services@,
                    self.peers@,
                    self.client_id,
                    delta,
                ));
                assert(total.subrange(0, base.len() as int) =~= base);
            }
            si = si + 1;
        }
        proof {
            assert(uv.subrange(0, uv.len() as int) =~= uv);
            let total = obv(self.outbox@);
            let delta = total.subrange(base.len() as int, total.len() as int);
            assert(idset::sorted(uv));
            assert(forall|c: u16|
                uv.contains(c) <==> exists|j: int|
                    0 <= j < old(self).local.services@.len() && (#[trigger] old(self).local.services@[j]).1@.contains(c));
            assert(all_updates_ok(
                uv,
                old(self).local.services@,
                old(self).peers@,
                old(self).client_id,
                delta,
            ));
        }
    }

    /// Dispatch one event received from the daemon: client updates change
    /// the local map and tag, peer updates refresh the peer table, service
    /// updates are not for the directory and are dropped.
    pub fn handle_event(&mut self, event: Event, fresh: u32)
        requires
            old(self).wf(),
            crate::message::wf_event(event@),
        ensures
            match event@ {
                EventV::ClientUpdate(add, id, services) => client_update_effect(
                    *old(self),
                    *final(self),
                    add,
                    id,
                    services,
                ),
                EventV::PeerUpdate(p) => peer_update_effect(
                    *old(self),
                    *final(self),
                    p.peer_id,
                    p.services_tag,
                ),
                EventV::ServiceUpdate(_, _) => *final(self) == *old(self),
            },
    {
        match event {
            Event::ClientUpdate(add, id, services) => {
                self.handle_event_client_update(add, id, services, fresh);
            },
            Event::PeerUpdate(p) => {
                self.handle_event_peer_update(&p);
            },
            Event::ServiceUpdate(_, _) => {
            },
        }
    }

    /// Dispatch one directory message received from another peer; bytes
    /// that do not decode to a directory message are dropped.
    pub fn handle_message(&mut self, from_peer: Vec<u8>, from_client: u16, content: Vec<u8>)
        requires
            old(self).wf(),
        ensures
            match parse_service_message(content@, 0) {
                Some((m, end)) => if end == content@.len() {
                    match m {
                        ServiceMessageV::ServiceRequest => service_request_effect(
                            *old(self),
                            *final(self),
                            from_peer@,
                            from_client,
                        ),
                        ServiceMessageV::ServiceReply { services_tag, services } => {
                            service_reply_effect(
                                *old(self),
                                *final(self),
                                from_peer@,
                                services_tag,
                                services,
                            )
                        },
                    }
                } else {
                    *final(self) == *old(self)
                },
                None => *final(self) == *old(self),
            },
    {
        match decode_service_message(&content) {
            None => {
            },
            Some(ServiceMessage::ServiceRequest) => {
                self.handle_message_service_request(from_peer, from_client);
            },
            Some(ServiceMessage::ServiceReply { services_tag, services }) => {
                self.handle_message_service_reply(&from_peer, services_tag, services);
            },
        }
    }

    /// Dispatch one message received from the daemon: the registration
    /// reply fixes this client's id; events and per-service messages go to
    /// their handlers; everything else is dropped.
    pub fn handle_daemon_message(&mut self, msg: Message, fresh: u32)
        requires
            old(self).wf(),
            crate::message::wf_message(msg@),
        ensures
            match msg@ {
                MessageV::RegisterOk { client_id } => final(self).client_id == client_id && final(self).request_id == old(self).request_id && final(self).local == old(self).local
                    && final(self).peers == old(self).peers && final(self).outbox == old(self).outbox && final(self).wf(),
                MessageV::Event { event, .. } => match event {
                    EventV::ClientUpdate(add, id, services) => client_update_effect(
                        *old(self),
                        *final(self),
                        add,
                        id,
                        services,
                    ),
                    EventV::PeerUpdate(p) => peer_update_effect(
                        *old(self),
                        *final(self),
                        p.peer_id,
                        p.services_tag,
                    ),
                    EventV::ServiceUpdate(_, _) => *final(self) == *old(self),
                },
                MessageV::Message { from_peer, from_client, content, .. } => match parse_service_message(
                    content,
                    0,
                ) {
                    Some((m, end)) => if end == content.len() {
                        match m {
                            ServiceMessageV::ServiceRequest => service_request_effect(
                                *old(self),
                                *final(self),
                                from_peer,
                                from_client,
                            ),
                            ServiceMessageV::ServiceReply { services_tag, services } => {
                                service_reply_effect(
                                    *old(self),
                                    *final(self),
                                    from_peer,
                                    services_tag,
                                    services,
                                )
                            },
                        }
                    } else {
                        *final(self) == *old(self)
                    },
                    None => *final(self) == *old(self),
                },
                _ => *final(self) == *old(self),
            },
    {
        match msg {
            Message::RegisterOk { client_id } => {
                self.client_id = client_id;
            },
            Message::Event { event, .. } => {
                self.handle_event(event, fresh);
            },
            Message::Message { from_peer, from_client, content, .. } => {
                self.handle_message(from_peer, from_client, content);
            },
            _ => {
            },
        }
    }

    /// Index of the peer entry for `peer_id`.
    fn find_peer(&self, peer_id: &Vec<u8>) -> (r: Option<usize>)
        ensures
            match r {
                Some(i) => i < self.peers@.len() && self.peers@[i as int].0@ == peer_id@,
                None => forall|i: int| 0 <= i < self.peers@.len() ==> (#[trigger] self.peers@[i]).0@
                    != peer_id@,
            },
    {
        let mut i: usize = 0;
        while i < self.peers.len()
            invariant
                i <= self.peers@.len(),
                forall|k: int| 0 <= k < i ==> (#[trigger] self.peers@[k]).0@ != peer_id@,
            decreases self.peers@.len() - i,
        {
            if bytes_eq(&self.peers[i].0, peer_id) {
                return Some(i);
            }
            i = i + 1;
        }
        None
    }
}

} // verus!
