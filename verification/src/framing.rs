//! IPC framing: a 2-byte big-endian length followed by that many bytes of
//! encoded payload.  The socket reader and writer live outside the library;
//! here the frame bytes are built and taken apart, with a round-trip law.

use vstd::prelude::*;

verus! {

/// A framed payload: big-endian length, then the payload itself.
pub open spec fn enc_frame(payload: Seq<u8>) -> Seq<u8>
    recommends
        payload.len() <= 0xffff,
{
    seq![
        ((payload.len() as u16) >> 8) as u8,
        (payload.len() as u16) as u8,
    ] + payload
}

/// Read one frame from the front of `s`: the payload and the position after it.
pub open spec fn parse_frame(s: Seq<u8>) -> Option<(Seq<u8>, int)> {
    if s.len() < 2 {
        None
    } else {
        let len = (s[0] as int) * 256 + (s[1] as int);
        if 2 + len <= s.len() {
            Some((s.subrange(2, 2 + len), 2 + len))
        } else {
            None
        }
    }
}

/// Taking apart a frame yields the framed payload, whatever follows it.
pub proof fn lemma_frame_round_trip(payload: Seq<u8>, rest: Seq<u8>)
    requires
        payload.len() <= 0xffff,
    ensures
        parse_frame(enc_frame(payload) + rest) == Some((payload, 2 + payload.len() as int)),
{
    let s = enc_frame(payload) + rest;
    let l = payload.len() as u16;
    assert(s[0] == (l >> 8) as u8);
    assert(s[1] == l as u8);
    assert((((l >> 8) as u8) as int) * 256 + ((l as u8) as int) == l as int) by (bit_vector);
    assert forall|i: int| 0 <= i < payload.len() implies s.subrange(2, 2 + payload.len() as int)[i]
        == payload[i] by {
        assert(s[2 + i] == (enc_frame(payload) + rest)[2 + i]);
        assert((enc_frame(payload))[2 + i] == payload[i]);
    }
    assert(s.subrange(2, 2 + payload.len() as int) =~= payload);
}

/// Frame `payload`; fails exactly when it is longer than a frame can carry.
pub fn frame_payload(payload: &Vec<u8>) -> (r: Option<Vec<u8>>)
    ensures
        match r {
            Some(f) => payload@.len() <= 0xffff && f@ == enc_frame(payload@),
            None => payload@.len() > 0xffff,
        },
{
    if payload.len() > 0xffff {
        return None;
    }
    let l = payload.len() as u16;
    let mut out: Vec<u8> = Vec::new();
    out.push((l >> 8) as u8);
    out.push(#[verifier::truncate] (l as u8));
    let mut i: usize = 0;
    while i < payload.len()
        invariant
            i <= payload.len(),
            payload@.len() <= 0xffff,
            out@ == seq![
                ((payload@.len() as u16) >> 8) as u8,
                (payload@.len() as u16) as u8,
            ] + payload@.subrange(0, i as int),
        decreases payload.len() - i,
    {
        out.push(payload[i]);
        proof {
            assert(payload@.subrange(0, i + 1) =~= payload@.subrange(0, i as int).push(
                payload@[i as int],
            ));
        }
        i = i + 1;
    }
    proof {
        assert(payload@.subrange(0, payload@.len() as int) =~= payload@);
    }
    Some(out)
}

/// The length of the frame body announced by a frame header.
pub fn frame_body_len(b0: u8, b1: u8) -> (r: usize)
    ensures
        r == (b0 as int) * 256 + (b1 as int),
        r <= 0xffff,
{
    (b0 as usize) * 256 + (b1 as usize)
}

/// Take one frame from the front of `buf`: the payload and the position of
/// the first byte after the frame.
pub fn read_frame(buf: &Vec<u8>) -> (r: Option<(Vec<u8>, usize)>)
    ensures
        match r {
            Some((p, end)) => parse_frame(buf@) == Some((p@, end as int)) && end <= buf.len(),
            None => parse_frame(buf@) is None,
        },
{
    if buf.len() < 2 {
        return None;
    }
    let len = frame_body_len(buf[0], buf[1]);
    if len > buf.len() - 2 {
        return None;
    }
    let mut p: Vec<u8> = Vec::new();
    let mut i: usize = 2;
    while i < 2 + len
        invariant
            2 <= i <= 2 + len,
            2 + len <= buf.len(),
            p@ == buf@.subrange(2, i as int),
        decreases 2 + len - i,
    {
        p.push(buf[i]);
        proof {
            assert(buf@.subrange(2, i + 1) =~= buf@.subrange(2, i as int).push(buf@[i as int]));
        }
        i = i + 1;
    }
    Some((p, 2 + len))
}

} // verus!
