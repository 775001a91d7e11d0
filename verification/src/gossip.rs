//! The announce message gossiped on the overlay topic: protocol version,
//! node name and services tag, as a tagged map.

use crate::cbor;
use crate::message::opt_bytes;
use vstd::prelude::*;

verus! {

/// Presence announcement sent over the gossip topic.
#[derive(Debug, PartialEq)]
pub struct HiAnnounce {
    pub version: u8,
    pub name: Vec<u8>,
    pub services_tag: u32,
}

/// Mathematical model of an announcement.
pub struct HiAnnounceV {
    pub version: u8,
    pub name: Seq<u8>,
    pub services_tag: u32,
}

impl View for HiAnnounce {
    type V = HiAnnounceV;

    open spec fn view(&self) -> HiAnnounceV {
        HiAnnounceV { version: self.version, name: self.name@, services_tag: self.services_tag }
    }
}

pub open spec fn wf_announce(a: HiAnnounceV) -> bool {
    a.name.len() <= u64::MAX
}

/// Encoded announcement: map with version at 0, name at 1, services tag at 2.
pub open spec fn enc_announce(a: HiAnnounceV) -> Seq<u8> {
    cbor::enc_map(3) + cbor::enc_uint(0) + cbor::enc_uint(a.version as u64) + cbor::enc_uint(1)
        + cbor::enc_str(3, a.name) + cbor::enc_uint(2) + cbor::enc_uint(a.services_tag as u64)
}

pub open spec fn parse_announce_entries(
    s: Seq<u8>,
    pos: int,
    n: nat,
    f0: Option<u8>,
    f1: Option<Seq<u8>>,
    f2: Option<u32>,
) -> Option<(HiAnnounceV, int)>
    decreases n,
{
    if n == 0 {
        match (f0, f1, f2) {
            (Some(version), Some(name), Some(services_tag)) => Some(
                (HiAnnounceV { version, name, services_tag }, pos),
            ),
            _ => None,
        }
    } else {
        match cbor::parse_uint(s, pos) {
            None => None,
            Some((k, p1)) => {
                if k == 0 {
                    match cbor::parse_uint(s, p1) {
                        Some((v, p2)) => if v <= 0xff {
                            parse_announce_entries(s, p2, (n - 1) as nat, Some(v as u8), f1, f2)
                        } else {
                            None
                        },
                        None => None,
                    }
                } else if k == 1 {
                    match cbor::parse_str(s, p1, 3) {
                        Some((b, p2)) => parse_announce_entries(
                            s,
                            p2,
                            (n - 1) as nat,
                            f0,
                            Some(b),
                            f2,
                        ),
                        None => None,
                    }
                } else if k == 2 {
                    match cbor::parse_uint(s, p1) {
                        Some((v, p2)) => if v <= u32::MAX as u64 {
                            parse_announce_entries(s, p2, (n - 1) as nat, f0, f1, Some(v as u32))
                        } else {
                            None
                        },
                        None => None,
                    }
                } else {
                    match cbor::skip_n(s, p1, 1) {
                        Some(p2) => parse_announce_entries(s, p2, (n - 1) as nat, f0, f1, f2),
                        None => None,
                    }
                }
            },
        }
    }
}

/// Parse an announcement; the three fields are mandatory, unknown numeric
/// fields are skipped.
pub open spec fn parse_announce(s: Seq<u8>, pos: int) -> Option<(HiAnnounceV, int)> {
    match cbor::parse_map(s, pos) {
        Some((n, p1)) => parse_announce_entries(s, p1, n as nat, None, None, None),
        None => None,
    }
}

/// Parsing an encoded announcement yields the announcement back.
#[verifier::rlimit(100)]
#[verifier::spinoff_prover]
pub proof fn lemma_parse_announce_enc(s: Seq<u8>, pos: int, a: HiAnnounceV)
    requires
        wf_announce(a),
        cbor::bytes_at(s, pos, enc_announce(a)),
    ensures
        parse_announce(s, pos) == Some((a, pos + enc_announce(a).len())),
{
    let h = cbor::enc_map(3);
    let k0 = cbor::enc_uint(0);
    let v0 = cbor::enc_uint(a.version as u64);
    let k1 = cbor::enc_uint(1);
    let v1 = cbor::enc_str(3, a.name);
    let k2 = cbor::enc_uint(2);
    let v2 = cbor::enc_uint(a.services_tag as u64);
    cbor::lemma_bytes_at_split(s, pos, h + k0 + v0 + k1 + v1 + k2, v2);
    cbor::lemma_bytes_at_split(s, pos, h + k0 + v0 + k1 + v1, k2);
    cbor::lemma_bytes_at_split(s, pos, h + k0 + v0 + k1, v1);
    cbor::lemma_bytes_at_split(s, pos, h + k0 + v0, k1);
    cbor::lemma_bytes_at_split(s, pos, h + k0, v0);
    cbor::lemma_bytes_at_split(s, pos, h, k0);
    let p0 = pos + h.len();
    let p0v = p0 + k0.len();
    let p1 = p0v + v0.len();
    let p1v = p1 + k1.len();
    let p2 = p1v + v1.len();
    let p2v = p2 + k2.len();
    let pe = p2v + v2.len();
    cbor::lemma_parse_map_enc(s, pos, 3);
    cbor::lemma_parse_uint_enc(s, p0, 0);
    cbor::lemma_parse_uint_enc(s, p0v, a.version as u64);
    cbor::lemma_parse_uint_enc(s, p1, 1);
    cbor::lemma_parse_str_enc(s, p1v, 3, a.name);
    cbor::lemma_parse_uint_enc(s, p2, 2);
    cbor::lemma_parse_uint_enc(s, p2v, a.services_tag as u64);
    assert(parse_announce_entries(s, p0, 3, None, None, None)
        == parse_announce_entries(s, p1, 2, Some(a.version), None, None));
    assert(parse_announce_entries(s, p1, 2, Some(a.version), None, None)
        == parse_announce_entries(s, p2, 1, Some(a.version), Some(a.name), None));
    assert(parse_announce_entries(s, p2, 1, Some(a.version), Some(a.name), None)
        == parse_announce_entries(s, pe, 0, Some(a.version), Some(a.name), Some(a.services_tag)));
}

/// Decoding inverts encoding for every announcement.
pub proof fn lemma_announce_round_trip(a: HiAnnounceV)
    requires
        wf_announce(a),
    ensures
        parse_announce(enc_announce(a), 0) == Some((a, enc_announce(a).len() as int)),
{
    lemma_parse_announce_enc(enc_announce(a), 0, a);
}

impl HiAnnounce {
    /// Fresh announcement: current protocol version, no name, tag zero.
    pub fn new() -> (r: Self)
        ensures
            r@.version == 0,
            r@.name == Seq::<u8>::empty(),
            r@.services_tag == 0,
    {
        HiAnnounce { version: 0, name: Vec::new(), services_tag: 0 }
    }

    /// Encode this announcement.
    pub fn encode(&self) -> (r: Option<Vec<u8>>)
        ensures
            r is Some,
            r->0@ == enc_announce(self@),
    {
        let mut out: Vec<u8> = Vec::new();
        cbor::write_map(3, &mut out);
        cbor::write_uint(0, &mut out);
        cbor::write_uint(self.version as u64, &mut out);
        cbor::write_uint(1, &mut out);
        cbor::write_str(3, &self.name, &mut out);
        cbor::write_uint(2, &mut out);
        cbor::write_uint(self.services_tag as u64, &mut out);
        Some(out)
    }

    /// Decode an announcement; every byte must be consumed.
    pub fn decode(buffer: &Vec<u8>) -> (r: Option<HiAnnounce>)
        ensures
            match r {
                Some(a) => parse_announce(buffer@, 0) == Some((a@, buffer@.len() as int)),
                None => parse_announce(buffer@, 0) is None || parse_announce(buffer@, 0)->Some_0.1
                    != buffer@.len(),
            },
    {
        match read_announce(buffer, 0) {
            Some((a, end)) => {
                if end == buffer.len() {
                    Some(a)
                } else {
                    None
                }
            },
            None => None,
        }
    }
}

/// Read an announcement at `pos`.
pub fn read_announce(buf: &Vec<u8>, pos: usize) -> (r: Option<(HiAnnounce, usize)>)
    ensures
        match r {
            Some((a, end)) => parse_announce(buf@, pos as int) == Some((a@, end as int)) && pos
                < end <= buf.len(),
            None => parse_announce(buf@, pos as int) is None,
        },
{
    match cbor::read_map(buf, pos) {
        None => None,
        Some((n, p1)) => {
            let mut f0: Option<u8> = None;
            let mut f1: Option<Vec<u8>> = None;
            let mut f2: Option<u32> = None;
            let mut cur: usize = p1;
            let mut rem: u64 = n;
            loop
                invariant
                    pos < cur <= buf.len(),
                    parse_announce(buf@, pos as int) == parse_announce_entries(
                        buf@,
                        cur as int,
                        rem as nat,
                        f0,
                        opt_bytes(f1),
                        f2,
                    ),
                decreases rem,
            {
                if rem == 0 {
                    match (f0, f1, f2) {
                        (Some(version), Some(name), Some(services_tag)) => {
                            return Some((HiAnnounce { version, name, services_tag }, cur));
                        },
                        _ => {
                            return None;
                        },
                    }
                }
                match cbor::read_uint(buf, cur) {
                    None => {
                        return None;
                    },
                    Some((k, p2)) => {
                        if k == 0 {
                            match cbor::read_uint(buf, p2) {
                                None => {
                                    return None;
                                },
                                Some((v, p3)) => {
                                    if v <= 0xff {
                                        f0 = Some(v as u8);
                                        cur = p3;
                                        rem = rem - 1;
                                    } else {
                                        return None;
                                    }
                                },
                            }
                        } else if k == 1 {
                            match cbor::read_str(buf, p2, 3) {
                                None => {
                                    return None;
                                },
                                Some((b, p3)) => {
                                    f1 = Some(b);
                                    cur = p3;
                                    rem = rem - 1;
                                },
                            }
                        } else if k == 2 {
                            match cbor::read_uint(buf, p2) {
                                None => {
                                    return None;
                                },
                                Some((v, p3)) => {
                                    if v <= 0xffff_ffff {
                                        f2 = Some(v as u32);
                                        cur = p3;
                                        rem = rem - 1;
                                    } else {
                                        return None;
                                    }
                                },
                            }
                        } else {
                            match cbor::skip_items(buf, p2, 1) {
                                None => {
                                    return None;
                                },
                                Some(p3) => {
                                    cur = p3;
                                    rem = rem - 1;
                                },
                            }
                        }
                    },
                }
            }
        },
    }
}

} // verus!
