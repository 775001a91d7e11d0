//! Request and response bodies of the overlay request/response protocol,
//! and the pure part of the inbound request handler.

use crate::cbor;
use crate::message::{
    enc_text_payload, enc_unit_payload, parse_text_payload, parse_unit_payload, read_text_payload,
    read_unit_payload, write_text_payload, write_unit_payload, opt_bytes,
};
use crate::swarm;
use vstd::prelude::*;

verus! {

/// Request carried by the overlay request/response protocol.
#[derive(Debug, PartialEq)]
pub enum HiRequest {
    /// Per-service message: destination client, source client, service, content.
    Message(u16, u16, u16, Vec<u8>),
}

/// Mathematical model of a request.
pub enum HiRequestV {
    Message(u16, u16, u16, Seq<u8>),
}

impl View for HiRequest {
    type V = HiRequestV;

    open spec fn view(&self) -> HiRequestV {
        match self {
            HiRequest::Message(tc, fc, sv, c) => HiRequestV::Message(*tc, *fc, *sv, c@),
        }
    }
}

/// Response carried by the overlay request/response protocol.
#[derive(Debug, PartialEq)]
pub enum HiResponse {
    Okay,
    Error(Vec<u8>),
}

/// Mathematical model of a response.
pub enum HiResponseV {
    Okay,
    Error(Seq<u8>),
}

impl View for HiResponse {
    type V = HiResponseV;

    open spec fn view(&self) -> HiResponseV {
        match self {
            HiResponse::Okay => HiResponseV::Okay,
            HiResponse::Error(b) => HiResponseV::Error(b@),
        }
    }
}

pub open spec fn wf_request(r: HiRequestV) -> bool {
    match r {
        HiRequestV::Message(_, _, _, c) => c.len() <= u64::MAX,
    }
}

/// Payload of the message request: the four fields by index.
pub open spec fn enc_request_payload(tc: u16, fc: u16, sv: u16, c: Seq<u8>) -> Seq<u8> {
    cbor::enc_map(4) + cbor::enc_uint(0) + cbor::enc_uint(tc as u64) + cbor::enc_uint(1)
        + cbor::enc_uint(fc as u64) + cbor::enc_uint(2) + cbor::enc_uint(sv as u64)
        + cbor::enc_uint(3) + cbor::enc_str(2, c)
}

pub open spec fn parse_request_entries(
    s: Seq<u8>,
    pos: int,
    n: nat,
    f0: Option<u16>,
    f1: Option<u16>,
    f2: Option<u16>,
    f3: Option<Seq<u8>>,
) -> Option<((u16, u16, u16, Seq<u8>), int)>
    decreases n,
{
    if n == 0 {
        match (f0, f1, f2, f3) {
            (Some(tc), Some(fc), Some(sv), Some(c)) => Some(((tc, fc, sv, c), pos)),
            _ => None,
        }
    } else {
        match cbor::parse_uint(s, pos) {
            None => None,
            Some((k, p1)) => {
                if k == 0 {
                    match cbor::parse_uint(s, p1) {
                        Some((v, p2)) => if v <= 0xffff {
                            parse_request_entries(s, p2, (n - 1) as nat, Some(v as u16), f1, f2, f3)
                        } else {
                            None
                        },
                        None => None,
                    }
                } else if k == 1 {
                    match cbor::parse_uint(s, p1) {
                        Some((v, p2)) => if v <= 0xffff {
                            parse_request_entries(s, p2, (n - 1) as nat, f0, Some(v as u16), f2, f3)
                        } else {
                            None
                        },
                        None => None,
                    }
                } else if k == 2 {
                    match cbor::parse_uint(s, p1) {
                        Some((v, p2)) => if v <= 0xffff {
                            parse_request_entries(s, p2, (n - 1) as nat, f0, f1, Some(v as u16), f3)
                        } else {
                            None
                        },
                        None => None,
                    }
                } else if k == 3 {
                    match cbor::parse_str(s, p1, 2) {
                        Some((b, p2)) => parse_request_entries(
                            s,
                            p2,
                            (n - 1) as nat,
                            f0,
                            f1,
                            f2,
                            Some(b),
                        ),
                        None => None,
                    }
                } else {
                    match cbor::skip_n(s, p1, 1) {
                        Some(p2) => parse_request_entries(s, p2, (n - 1) as nat, f0, f1, f2, f3),
                        None => None,
                    }
                }
            },
        }
    }
}

/// Encoded request: variant tag then a field map.
pub open spec fn enc_request(r: HiRequestV) -> Seq<u8> {
    match r {
        HiRequestV::Message(tc, fc, sv, c) => cbor::enc_array(2) + cbor::enc_uint(0)
            + enc_request_payload(tc, fc, sv, c),
    }
}

pub open spec fn parse_request(s: Seq<u8>, pos: int) -> Option<(HiRequestV, int)> {
    match cbor::parse_array(s, pos) {
        None => None,
        Some((n, p1)) => if n != 2 {
            None
        } else {
            match cbor::parse_uint(s, p1) {
                None => None,
                Some((tag, p2)) => {
                    if tag == 0 {
                        match cbor::parse_map(s, p2) {
                            Some((nf, p3)) => match parse_request_entries(
                                s,
                                p3,
                                nf as nat,
                                None,
                                None,
                                None,
                                None,
                            ) {
                                Some(((tc, fc, sv, c), p4)) => Some(
                                    (HiRequestV::Message(tc, fc, sv, c), p4),
                                ),
                                None => None,
                            },
                            None => None,
                        }
                    } else {
                        None
                    }
                },
            }
        },
    }
}

/// Parsing an encoded request yields the request back.
#[verifier::rlimit(100)]
#[verifier::spinoff_prover]
pub proof fn lemma_parse_request_enc(s: Seq<u8>, pos: int, r: HiRequestV)
    requires
        wf_request(r),
        cbor::bytes_at(s, pos, enc_request(r)),
    ensures
        parse_request(s, pos) == Some((r, pos + enc_request(r).len())),
{
    let a = cbor::enc_array(2);
    let t = cbor::enc_uint(0);
    match r {
        HiRequestV::Message(tc, fc, sv, c) => {
            let h = cbor::enc_map(4);
            let k0 = cbor::enc_uint(0);
            let v0 = cbor::enc_uint(tc as u64);
            let k1 = cbor::enc_uint(1);
            let v1 = cbor::enc_uint(fc as u64);
            let k2 = cbor::enc_uint(2);
            let v2 = cbor::enc_uint(sv as u64);
            let k3 = cbor::enc_uint(3);
            let v3 = cbor::enc_str(2, c);
            cbor::lemma_bytes_at_split(s, pos, a + t, enc_request_payload(tc, fc, sv, c));
            cbor::lemma_bytes_at_split(s, pos, a, t);
            cbor::lemma_parse_array_enc(s, pos, 2);
            cbor::lemma_parse_uint_enc(s, pos + a.len(), 0);
            let pp = pos + a.len() + t.len();
            cbor::lemma_bytes_at_split(s, pp, h + k0 + v0 + k1 + v1 + k2 + v2 + k3, v3);
            cbor::lemma_bytes_at_split(s, pp, h + k0 + v0 + k1 + v1 + k2 + v2, k3);
            cbor::lemma_bytes_at_split(s, pp, h + k0 + v0 + k1 + v1 + k2, v2);
            cbor::lemma_bytes_at_split(s, pp, h + k0 + v0 + k1 + v1, k2);
            cbor::lemma_bytes_at_split(s, pp, h + k0 + v0 + k1, v1);
            cbor::lemma_bytes_at_split(s, pp, h + k0 + v0, k1);
            cbor::lemma_bytes_at_split(s, pp, h + k0, v0);
            cbor::lemma_bytes_at_split(s, pp, h, k0);
            let p0 = pp + h.len();
            let p0v = p0 + k0.len();
            let p1 = p0v + v0.len();
            let p1v = p1 + k1.len();
            let p2 = p1v + v1.len();
            let p2v = p2 + k2.len();
            let p3 = p2v + v2.len();
            let p3v = p3 + k3.len();
            let pe = p3v + v3.len();
            cbor::lemma_parse_map_enc(s, pp, 4);
            cbor::lemma_parse_uint_enc(s, p0, 0);
            cbor::lemma_parse_uint_enc(s, p0v, tc as u64);
            cbor::lemma_parse_uint_enc(s, p1, 1);
            cbor::lemma_parse_uint_enc(s, p1v, fc as u64);
            cbor::lemma_parse_uint_enc(s, p2, 2);
            cbor::lemma_parse_uint_enc(s, p2v, sv as u64);
            cbor::lemma_parse_uint_enc(s, p3, 3);
            cbor::lemma_parse_str_enc(s, p3v, 2, c);
            assert(parse_request_entries(s, p0, 4, None, None, None, None)
                == parse_request_entries(s, p1, 3, Some(tc), None, None, None));
            assert(parse_request_entries(s, p1, 3, Some(tc), None, None, None)
                == parse_request_entries(s, p2, 2, Some(tc), Some(fc), None, None));
            assert(parse_request_entries(s, p2, 2, Some(tc), Some(fc), None, None)
                == parse_request_entries(s, p3, 1, Some(tc), Some(fc), Some(sv), None));
            assert(parse_request_entries(s, p3, 1, Some(tc), Some(fc), Some(sv), None)
                == parse_request_entries(s, pe, 0, Some(tc), Some(fc), Some(sv), Some(c)));
        },
    }
}

/// Decoding inverts encoding for every request.
pub proof fn lemma_request_round_trip(r: HiRequestV)
    requires
        wf_request(r),
    ensures
        parse_request(enc_request(r), 0) == Some((r, enc_request(r).len() as int)),
{
    lemma_parse_request_enc(enc_request(r), 0, r);
}

/// Encoded response: variant tag then a field map.
pub open spec fn enc_response(r: HiResponseV) -> Seq<u8> {
    match r {
        HiResponseV::Okay => cbor::enc_array(2) + cbor::enc_uint(0) + enc_unit_payload(),
        HiResponseV::Error(b) => cbor::enc_array(2) + cbor::enc_uint(1) + enc_text_payload(b),
    }
}

pub open spec fn wf_response(r: HiResponseV) -> bool {
    match r {
        HiResponseV::Okay => true,
        HiResponseV::Error(b) => b.len() <= u64::MAX,
    }
}

pub open spec fn parse_response(s: Seq<u8>, pos: int) -> Option<(HiResponseV, int)> {
    match cbor::parse_array(s, pos) {
        None => None,
        Some((n, p1)) => if n != 2 {
            None
        } else {
            match cbor::parse_uint(s, p1) {
                None => None,
                Some((tag, p2)) => {
                    if tag == 0 {
                        match parse_unit_payload(s, p2) {
                            Some(p3) => Some((HiResponseV::Okay, p3)),
                            None => None,
                        }
                    } else if tag == 1 {
                        match parse_text_payload(s, p2) {
                            Some((b, p3)) => Some((HiResponseV::Error(b), p3)),
                            None => None,
                        }
                    } else {
                        None
                    }
                },
            }
        },
    }
}

/// Parsing an encoded response yields the response back.
pub proof fn lemma_parse_response_enc(s: Seq<u8>, pos: int, r: HiResponseV)
    requires
        wf_response(r),
        cbor::bytes_at(s, pos, enc_response(r)),
    ensures
        parse_response(s, pos) == Some((r, pos + enc_response(r).len())),
{
    let a = cbor::enc_array(2);
    match r {
        HiResponseV::Okay => {
            let t = cbor::enc_uint(0);
            cbor::lemma_bytes_at_split(s, pos, a + t, enc_unit_payload());
            cbor::lemma_bytes_at_split(s, pos, a, t);
            cbor::lemma_parse_array_enc(s, pos, 2);
            cbor::lemma_parse_uint_enc(s, pos + a.len(), 0);
            crate::message::lemma_parse_unit_payload_enc(s, pos + a.len() + t.len());
        },
        HiResponseV::Error(b) => {
            let t = cbor::enc_uint(1);
            cbor::lemma_bytes_at_split(s, pos, a + t, enc_text_payload(b));
            cbor::lemma_bytes_at_split(s, pos, a, t);
            cbor::lemma_parse_array_enc(s, pos, 2);
            cbor::lemma_parse_uint_enc(s, pos + a.len(), 1);
            crate::message::lemma_parse_text_payload_enc(s, pos + a.len() + t.len(), b);
        },
    }
}

/// Decoding inverts encoding for every response.
pub proof fn lemma_response_round_trip(r: HiResponseV)
    requires
        wf_response(r),
    ensures
        parse_response(enc_response(r), 0) == Some((r, enc_response(r).len() as int)),
{
    lemma_parse_response_enc(enc_response(r), 0, r);
}

/// Encode a request.
pub fn encode_request(r: &HiRequest) -> (out: Vec<u8>)
    ensures
        out@ == enc_request(r@),
{
    let mut out: Vec<u8> = Vec::new();
    cbor::write_array(2, &mut out);
    match r {
        HiRequest::Message(tc, fc, sv, c) => {
            cbor::write_uint(0, &mut out);
            cbor::write_map(4, &mut out);
            cbor::write_uint(0, &mut out);
            cbor::write_uint(*tc as u64, &mut out);
            cbor::write_uint(1, &mut out);
            cbor::write_uint(*fc as u64, &mut out);
            cbor::write_uint(2, &mut out);
            cbor::write_uint(*sv as u64, &mut out);
            cbor::write_uint(3, &mut out);
            cbor::write_str(2, c, &mut out);
        },
    }
    out
}

/// Encode a response.
pub fn encode_response(r: &HiResponse) -> (out: Vec<u8>)
    ensures
        out@ == enc_response(r@),
{
    let mut out: Vec<u8> = Vec::new();
    cbor::write_array(2, &mut out);
    match r {
        HiResponse::Okay => {
            cbor::write_uint(0, &mut out);
            write_unit_payload(&mut out);
        },
        HiResponse::Error(b) => {
            cbor::write_uint(1, &mut out);
            write_text_payload(b, &mut out);
        },
    }
    out
}

/// Decode a request; every byte must be consumed.
pub fn decode_request(buf: &Vec<u8>) -> (r: Option<HiRequest>)
    ensures
        match r {
            Some(req) => parse_request(buf@, 0) == Some((req@, buf@.len() as int)),
            None => parse_request(buf@, 0) is None || parse_request(buf@, 0)->Some_0.1
                != buf@.len(),
        },
{
    match cbor::read_array(buf, 0) {
        None => None,
        Some((n, p1)) => {
            if n != 2 {
                return None;
            }
            match cbor::read_uint(buf, p1) {
                None => None,
                Some((tag, p2)) => {
                    if tag != 0 {
                        return None;
                    }
                    match read_request_fields(buf, p2) {
                        Some(((tc, fc, sv, c), p3)) => {
                            if p3 == buf.len() {
                                Some(HiRequest::Message(tc, fc, sv, c))
                            } else {
                                None
                            }
                        },
                        None => None,
                    }
                },
            }
        },
    }
}

fn read_request_fields(buf: &Vec<u8>, pos: usize) -> (r: Option<((u16, u16, u16, Vec<u8>), usize)>)
    ensures
        match r {
            Some(((tc, fc, sv, c), end)) => ({
                match cbor::parse_map(buf@, pos as int) {
                    Some((nf, p3)) => parse_request_entries(
                        buf@,
                        p3,
                        nf as nat,
                        None,
                        None,
                        None,
                        None,
                    ) == Some((((tc, fc, sv, c@)), end as int)),
                    None => false,
                }
            }) && pos < end <= buf.len(),
            None => ({
                match cbor::parse_map(buf@, pos as int) {
                    Some((nf, p3)) => parse_request_entries(
                        buf@,
                        p3,
                        nf as nat,
                        None,
                        None,
                        None,
                        None,
                    ) is None,
                    None => true,
                }
            }),
        },
{
    match cbor::read_map(buf, pos) {
        None => None,
        Some((n, p1)) => {
            let mut f0: Option<u16> = None;
            let mut f1: Option<u16> = None;
            let mut f2: Option<u16> = None;
            let mut f3: Option<Vec<u8>> = None;
            let mut cur: usize = p1;
            let mut rem: u64 = n;
            loop
                invariant
                    pos < cur <= buf.len(),
                    ({
                        match cbor::parse_map(buf@, pos as int) {
                            Some((nf, p3)) => parse_request_entries(
                                buf@,
                                p3,
                                nf as nat,
                                None,
                                None,
                                None,
                                None,
                            ) == parse_request_entries(
                                buf@,
                                cur as int,
                                rem as nat,
                                f0,
                                f1,
                                f2,
                                opt_bytes(f3),
                            ),
                            None => false,
                        }
                    }),
                decreases rem,
            {
                if rem == 0 {
                    match (f0, f1, f2, f3) {
                        (Some(tc), Some(fc), Some(sv), Some(c)) => {
                            return Some(((tc, fc, sv, c), cur));
                        },
                        _ => {
                            return None;
                        },
                    }
                }
                match cbor::read_uint(buf, cur) {
                    None => {
                        return None;
                    },
                    Some((k, p2)) => {
                        if k == 0 || k == 1 || k == 2 {
                            match cbor::read_uint(buf, p2) {
                                None => {
                                    return None;
                                },
                                Some((v, p3)) => {
                                    if v <= 0xffff {
                                        if k == 0 {
                                            f0 = Some(v as u16);
                                        } else if k == 1 {
                                            f1 = Some(v as u16);
                                        } else {
                                            f2 = Some(v as u16);
                                        }
                                        cur = p3;
                                        rem = rem - 1;
                                    } else {
                                        return None;
                                    }
                                },
                            }
                        } else if k == 3 {
                            match cbor::read_str(buf, p2, 2) {
                                None => {
                                    return None;
                                },
                                Some((b, p3)) => {
                                    f3 = Some(b);
                                    cur = p3;
                                    rem = rem - 1;
                                },
                            }
                        } else {
                            match cbor::skip_items(buf, p2, 1) {
                                None => {
                                    return None;
                                },
                                Some(p3) => {
                                    cur = p3;
                                    rem = rem - 1;
                                },
                            }
                        }
                    },
                }
            }
        },
    }
}

/// Decode a response; every byte must be consumed.
pub fn decode_response(buf: &Vec<u8>) -> (r: Option<HiResponse>)
    ensures
        match r {
            Some(resp) => parse_response(buf@, 0) == Some((resp@, buf@.len() as int)),
            None => parse_response(buf@, 0) is None || parse_response(buf@, 0)->Some_0.1
                != buf@.len(),
        },
{
    match cbor::read_array(buf, 0) {
        None => None,
        Some((n, p1)) => {
            if n != 2 {
                return None;
            }
            match cbor::read_uint(buf, p1) {
                None => None,
                Some((tag, p2)) => {
                    if tag == 0 {
                        match read_unit_payload(buf, p2) {
                            Some(p3) => {
                                if p3 == buf.len() {
                                    Some(HiResponse::Okay)
                                } else {
                                    None
                                }
                            },
                            None => None,
                        }
                    } else if tag == 1 {
                        match read_text_payload(buf, p2) {
                            Some((b, p3)) => {
                                if p3 == buf.len() {
                                    Some(HiResponse::Error(b))
                                } else {
                                    None
                                }
                            },
                            None => None,
                        }
                    } else {
                        None
                    }
                },
            }
        },
    }
}

/// Turn an inbound overlay request into the router event and the transport
/// response: a message request always yields one message event and `Okay`.
pub fn handle_request_response_request(peer: Vec<u8>, request: HiRequest) -> (r: (
    swarm::Event,
    HiResponse,
))
    ensures
        ({
            let (ev, resp) = r;
            match request@ {
                HiRequestV::Message(tc, fc, sv, c) => ev@ == swarm::EventV::Message(
                    peer@,
                    fc,
                    tc,
                    sv,
                    c,
                ) && resp@ == HiResponseV::Okay,
            }
        }),
{
    match request {
        HiRequest::Message(to_client, from_client, service, content) => (
            swarm::Event::Message(peer, from_client, to_client, service, content),
            HiResponse::Okay,
        ),
    }
}

} // verus!
