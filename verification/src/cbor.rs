//! Binary encoding primitives: a CBOR subset with unsigned integers, byte
//! strings, text strings, arrays, maps and booleans.
//!
//! Every item starts with a head byte holding a major type (upper three bits)
//! and additional info (lower five bits); values of 24 and above are carried
//! in 1, 2, 4 or 8 following big-endian bytes.  Encoders emit the shortest
//! form; decoders accept longer forms too.

use vstd::prelude::*;

verus! {

/// The bytes `b` occur in `s` starting at `pos`.
pub open spec fn bytes_at(s: Seq<u8>, pos: int, b: Seq<u8>) -> bool {
    &&& 0 <= pos
    &&& pos + b.len() <= s.len()
    &&& forall|i: int| 0 <= i < b.len() ==> s[pos + i] == b[i]
}

pub proof fn lemma_bytes_at_split(s: Seq<u8>, pos: int, a: Seq<u8>, b: Seq<u8>)
    requires
        bytes_at(s, pos, a + b),
    ensures
        bytes_at(s, pos, a),
        bytes_at(s, pos + a.len(), b),
{
    assert forall|i: int| 0 <= i < a.len() implies s[pos + i] == a[i] by {
        assert((a + b)[i] == a[i]);
        assert(s[pos + i] == (a + b)[i]);
    }
    assert forall|i: int| 0 <= i < b.len() implies s[pos + a.len() + i] == b[i] by {
        assert((a + b)[a.len() + i] == b[i]);
        assert(s[pos + (a.len() + i)] == (a + b)[a.len() + i]);
        assert(pos + (a.len() + i) == pos + a.len() + i);
    }
}

/// Head byte plus big-endian value bytes for major type `major` and value `val`.
pub open spec fn enc_head(major: u8, val: u64) -> Seq<u8>
    recommends
        major < 8,
{
    if val < 24 {
        seq![(major << 5) | (val as u8)]
    } else if val < 0x100 {
        seq![(major << 5) | 24, val as u8]
    } else if val < 0x10000 {
        seq![(major << 5) | 25, (val >> 8) as u8, val as u8]
    } else if val < 0x1_0000_0000 {
        seq![
            (major << 5) | 26,
            (val >> 24) as u8,
            (val >> 16) as u8,
            (val >> 8) as u8,
            val as u8,
        ]
    } else {
        seq![
            (major << 5) | 27,
            (val >> 56) as u8,
            (val >> 48) as u8,
            (val >> 40) as u8,
            (val >> 32) as u8,
            (val >> 24) as u8,
            (val >> 16) as u8,
            (val >> 8) as u8,
            val as u8,
        ]
    }
}

/// Read a head at `pos`: major type, value and the position after the head.
pub open spec fn parse_head(s: Seq<u8>, pos: int) -> Option<(u8, u64, int)> {
    if pos < 0 || pos >= s.len() {
        None
    } else {
        let b = s[pos];
        let major = b >> 5;
        let ai = b & 0x1f;
        if ai < 24 {
            Some((major, ai as u64, pos + 1))
        } else if ai == 24 {
            if pos + 2 <= s.len() {
                Some((major, s[pos + 1] as u64, pos + 2))
            } else {
                None
            }
        } else if ai == 25 {
            if pos + 3 <= s.len() {
                Some((major, ((s[pos + 1] as u64) << 8) | (s[pos + 2] as u64), pos + 3))
            } else {
                None
            }
        } else if ai == 26 {
            if pos + 5 <= s.len() {
                Some((
                    major,
                    ((s[pos + 1] as u64) << 24) | ((s[pos + 2] as u64) << 16)
                        | ((s[pos + 3] as u64) << 8) | (s[pos + 4] as u64),
                    pos + 5,
                ))
            } else {
                None
            }
        } else if ai == 27 {
            if pos + 9 <= s.len() {
                Some((
                    major,
                    ((s[pos + 1] as u64) << 56) | ((s[pos + 2] as u64) << 48)
                        | ((s[pos + 3] as u64) << 40) | ((s[pos + 4] as u64) << 32)
                        | ((s[pos + 5] as u64) << 24) | ((s[pos + 6] as u64) << 16)
                        | ((s[pos + 7] as u64) << 8) | (s[pos + 8] as u64),
                    pos + 9,
                ))
            } else {
                None
            }
        } else {
            None
        }
    }
}

/// A head always takes at least one byte and stays inside `s`.
pub proof fn lemma_parse_head_bounds(s: Seq<u8>, pos: int)
    ensures
        parse_head(s, pos) is Some ==> {
            let (major, val, end) = parse_head(s, pos)->Some_0;
            pos < end <= s.len() && major < 8
        },
{
    if parse_head(s, pos) is Some {
        let b = s[pos];
        assert(b >> 5 < 8) by (bit_vector);
    }
}

/// Parsing an encoded head at its position yields the encoded major and value.
pub proof fn lemma_parse_head_enc(s: Seq<u8>, pos: int, major: u8, val: u64)
    requires
        major < 8,
        bytes_at(s, pos, enc_head(major, val)),
    ensures
        parse_head(s, pos) == Some((major, val, pos + enc_head(major, val).len())),
{
    let e = enc_head(major, val);
    assert(s[pos + 0] == e[0]);
    let b = s[pos];
    if val < 24 {
        assert(b == (major << 5) | (val as u8));
        assert({
            let bb = (major << 5) | (val as u8);
            major < 8 && val < 24 ==> (bb >> 5) == major && (bb & 0x1f) == val as u8 && ((bb
                & 0x1f) as u64) == val
        }) by (bit_vector);
    } else if val < 0x100 {
        assert(s[pos + 1] == e[1]);
        assert({
            let bb = (major << 5) | 24u8;
            major < 8 ==> (bb >> 5) == major && (bb & 0x1f) == 24
        }) by (bit_vector);
        assert(val < 0x100 ==> (val as u8) as u64 == val) by (bit_vector);
    } else if val < 0x10000 {
        assert(s[pos + 1] == e[1]);
        assert(s[pos + 2] == e[2]);
        assert({
            let bb = (major << 5) | 25u8;
            major < 8 ==> (bb >> 5) == major && (bb & 0x1f) == 25
        }) by (bit_vector);
        assert(val < 0x10000 ==> ((((val >> 8) as u8) as u64) << 8) | ((val as u8) as u64)
            == val) by (bit_vector);
    } else if val < 0x1_0000_0000 {
        assert(s[pos + 1] == e[1]);
        assert(s[pos + 2] == e[2]);
        assert(s[pos + 3] == e[3]);
        assert(s[pos + 4] == e[4]);
        assert({
            let bb = (major << 5) | 26u8;
            major < 8 ==> (bb >> 5) == major && (bb & 0x1f) == 26
        }) by (bit_vector);
        assert(val < 0x1_0000_0000 ==> ((((val >> 24) as u8) as u64) << 24) | ((((val
            >> 16) as u8) as u64) << 16) | ((((val >> 8) as u8) as u64) << 8) | ((val
            as u8) as u64) == val) by (bit_vector);
    } else {
        assert(s[pos + 1] == e[1]);
        assert(s[pos + 2] == e[2]);
        assert(s[pos + 3] == e[3]);
        assert(s[pos + 4] == e[4]);
        assert(s[pos + 5] == e[5]);
        assert(s[pos + 6] == e[6]);
        assert(s[pos + 7] == e[7]);
        assert(s[pos + 8] == e[8]);
        assert({
            let bb = (major << 5) | 27u8;
            major < 8 ==> (bb >> 5) == major && (bb & 0x1f) == 27
        }) by (bit_vector);
        assert(((((val >> 56) as u8) as u64) << 56) | ((((val >> 48) as u8) as u64) << 48)
            | ((((val >> 40) as u8) as u64) << 40) | ((((val >> 32) as u8) as u64) << 32)
            | ((((val >> 24) as u8) as u64) << 24) | ((((val >> 16) as u8) as u64) << 16)
            | ((((val >> 8) as u8) as u64) << 8) | ((val as u8) as u64) == val)
            by (bit_vector);
    }
}

/// Append the head for `major` and `val` to `out`.
pub fn write_head(major: u8, val: u64, out: &mut Vec<u8>)
    requires
        major < 8,
    ensures
        final(out)@ == old(out)@ + enc_head(major, val),
{
    let m = major << 5;
    if val < 24 {
        out.push(m | (val as u8));
    } else if val < 0x100 {
        out.push(m | 24);
        out.push(val as u8);
    } else if val < 0x10000 {
        out.push(m | 25);
        out.push(#[verifier::truncate] ((val >> 8) as u8));
        out.push(#[verifier::truncate] (val as u8));
    } else if val < 0x1_0000_0000 {
        out.push(m | 26);
        out.push(#[verifier::truncate] ((val >> 24) as u8));
        out.push(#[verifier::truncate] ((val >> 16) as u8));
        out.push(#[verifier::truncate] ((val >> 8) as u8));
        out.push(#[verifier::truncate] (val as u8));
    } else {
        out.push(m | 27);
        out.push(#[verifier::truncate] ((val >> 56) as u8));
        out.push(#[verifier::truncate] ((val >> 48) as u8));
        out.push(#[verifier::truncate] ((val >> 40) as u8));
        out.push(#[verifier::truncate] ((val >> 32) as u8));
        out.push(#[verifier::truncate] ((val >> 24) as u8));
        out.push(#[verifier::truncate] ((val >> 16) as u8));
        out.push(#[verifier::truncate] ((val >> 8) as u8));
        out.push(#[verifier::truncate] (val as u8));
    }
}

/// View of an exec head-read result.
pub open spec fn head_opt(r: Option<(u8, u64, usize)>) -> Option<(u8, u64, int)> {
    match r {
        Some((major, val, end)) => Some((major, val, end as int)),
        None => None,
    }
}

/// Read a head at `pos` in `buf`.
pub fn read_head(buf: &Vec<u8>, pos: usize) -> (r: Option<(u8, u64, usize)>)
    ensures
        head_opt(r) == parse_head(buf@, pos as int),
        r is Some ==> pos < r->Some_0.2 <= buf.len(),
{
    proof {
        lemma_parse_head_bounds(buf@, pos as int);
    }
    if pos >= buf.len() {
        return None;
    }
    let b = buf[pos];
    let major = b >> 5;
    let ai = b & 0x1f;
    if ai < 24 {
        Some((major, ai as u64, pos + 1))
    } else if ai == 24 {
        if buf.len() - pos >= 2 {
            Some((major, buf[pos + 1] as u64, pos + 2))
        } else {
            None
        }
    } else if ai == 25 {
        if buf.len() - pos >= 3 {
            Some((major, ((buf[pos + 1] as u64) << 8) | (buf[pos + 2] as u64), pos + 3))
        } else {
            None
        }
    } else if ai == 26 {
        if buf.len() - pos >= 5 {
            Some((
                major,
                ((buf[pos + 1] as u64) << 24) | ((buf[pos + 2] as u64) << 16) | ((buf[pos
                    + 3] as u64) << 8) | (buf[pos + 4] as u64),
                pos + 5,
            ))
        } else {
            None
        }
    } else if ai == 27 {
        if buf.len() - pos >= 9 {
            Some((
                major,
                ((buf[pos + 1] as u64) << 56) | ((buf[pos + 2] as u64) << 48) | ((buf[pos
                    + 3] as u64) << 40) | ((buf[pos + 4] as u64) << 32) | ((buf[pos
                    + 5] as u64) << 24) | ((buf[pos + 6] as u64) << 16) | ((buf[pos
                    + 7] as u64) << 8) | (buf[pos + 8] as u64),
                pos + 9,
            ))
        } else {
            None
        }
    } else {
        None
    }
}

/// Encoded unsigned integer (major type 0).
pub open spec fn enc_uint(val: u64) -> Seq<u8> {
    enc_head(0, val)
}

pub open spec fn parse_uint(s: Seq<u8>, pos: int) -> Option<(u64, int)> {
    match parse_head(s, pos) {
        Some((major, val, end)) => if major == 0 {
            Some((val, end))
        } else {
            None
        },
        None => None,
    }
}

pub proof fn lemma_parse_uint_enc(s: Seq<u8>, pos: int, val: u64)
    requires
        bytes_at(s, pos, enc_uint(val)),
    ensures
        parse_uint(s, pos) == Some((val, pos + enc_uint(val).len())),
{
    lemma_parse_head_enc(s, pos, 0, val);
}

pub open spec fn uint_opt(r: Option<(u64, usize)>) -> Option<(u64, int)> {
    match r {
        Some((val, end)) => Some((val, end as int)),
        None => None,
    }
}

pub fn read_uint(buf: &Vec<u8>, pos: usize) -> (r: Option<(u64, usize)>)
    ensures
        uint_opt(r) == parse_uint(buf@, pos as int),
        r is Some ==> pos < r->Some_0.1 <= buf.len(),
{
    match read_head(buf, pos) {
        Some((major, val, end)) => if major == 0 {
            Some((val, end))
        } else {
            None
        },
        None => None,
    }
}

pub fn write_uint(val: u64, out: &mut Vec<u8>)
    ensures
        final(out)@ == old(out)@ + enc_uint(val),
{
    write_head(0, val, out);
}

/// Encoded byte string (major type 2) or text string (major type 3).
pub open spec fn enc_str(major: u8, b: Seq<u8>) -> Seq<u8> {
    enc_head(major, b.len() as u64) + b
}

pub open spec fn parse_str(s: Seq<u8>, pos: int, major: u8) -> Option<(Seq<u8>, int)> {
    match parse_head(s, pos) {
        Some((m, len, p1)) => if m == major && p1 + len <= s.len() {
            Some((s.subrange(p1, p1 + len as int), p1 + len as int))
        } else {
            None
        },
        None => None,
    }
}

pub proof fn lemma_parse_str_enc(s: Seq<u8>, pos: int, major: u8, b: Seq<u8>)
    requires
        major == 2 || major == 3,
        b.len() <= u64::MAX,
        bytes_at(s, pos, enc_str(major, b)),
    ensures
        parse_str(s, pos, major) == Some((b, pos + enc_str(major, b).len())),
{
    let h = enc_head(major, b.len() as u64);
    lemma_bytes_at_split(s, pos, h, b);
    lemma_parse_head_enc(s, pos, major, b.len() as u64);
    let p1 = pos + h.len();
    assert(s.subrange(p1, p1 + b.len()) =~= b);
}

pub open spec fn str_opt(r: Option<(Vec<u8>, usize)>) -> Option<(Seq<u8>, int)> {
    match r {
        Some((v, end)) => Some((v@, end as int)),
        None => None,
    }
}

pub fn read_str(buf: &Vec<u8>, pos: usize, major: u8) -> (r: Option<(Vec<u8>, usize)>)
    requires
        major == 2 || major == 3,
    ensures
        str_opt(r) == parse_str(buf@, pos as int, major),
        r is Some ==> pos < r->Some_0.1 <= buf.len(),
{
    match read_head(buf, pos) {
        Some((m, len, p1)) => {
            if m == major && len <= (buf.len() - p1) as u64 {
                let l = len as usize;
                let mut v: Vec<u8> = Vec::new();
                let mut i: usize = p1;
                while i < p1 + l
                    invariant
                        p1 <= i <= p1 + l,
                        p1 + l <= buf.len(),
                        v@ == buf@.subrange(p1 as int, i as int),
                    decreases p1 + l - i,
                {
                    v.push(buf[i]);
                    proof {
                        assert(buf@.subrange(p1 as int, i + 1) =~= buf@.subrange(
                            p1 as int,
                            i as int,
                        ) + seq![buf@[i as int]]);
                    }
                    i = i + 1;
                }
                Some((v, p1 + l))
            } else {
                None
            }
        },
        None => None,
    }
}

pub fn write_str(major: u8, b: &Vec<u8>, out: &mut Vec<u8>)
    requires
        major == 2 || major == 3,
    ensures
        final(out)@ == old(out)@ + enc_str(major, b@),
{
    write_head(major, b.len() as u64, out);
    let mut i: usize = 0;
    while i < b.len()
        invariant
            i <= b.len(),
            out@ == old(out)@ + enc_head(major, b@.len() as u64) + b@.subrange(0, i as int),
        decreases b.len() - i,
    {
        out.push(b[i]);
        proof {
            assert(b@.subrange(0, i + 1) =~= b@.subrange(0, i as int) + seq![b@[i as int]]);
        }
        i = i + 1;
    }
    proof {
        assert(b@.subrange(0, b@.len() as int) =~= b@);
        assert(old(out)@ + enc_head(major, b@.len() as u64) + b@ =~= old(out)@ + enc_str(
            major,
            b@,
        ));
    }
}

/// Encoded array head (major type 4): `n` items follow.
pub open spec fn enc_array(n: u64) -> Seq<u8> {
    enc_head(4, n)
}

pub open spec fn parse_array(s: Seq<u8>, pos: int) -> Option<(u64, int)> {
    match parse_head(s, pos) {
        Some((major, n, end)) => if major == 4 {
            Some((n, end))
        } else {
            None
        },
        None => None,
    }
}

pub proof fn lemma_parse_array_enc(s: Seq<u8>, pos: int, n: u64)
    requires
        bytes_at(s, pos, enc_array(n)),
    ensures
        parse_array(s, pos) == Some((n, pos + enc_array(n).len())),
{
    lemma_parse_head_enc(s, pos, 4, n);
}

pub fn read_array(buf: &Vec<u8>, pos: usize) -> (r: Option<(u64, usize)>)
    ensures
        uint_opt(r) == parse_array(buf@, pos as int),
        r is Some ==> pos < r->Some_0.1 <= buf.len(),
{
    match read_head(buf, pos) {
        Some((major, n, end)) => if major == 4 {
            Some((n, end))
        } else {
            None
        },
        None => None,
    }
}

pub fn write_array(n: u64, out: &mut Vec<u8>)
    ensures
        final(out)@ == old(out)@ + enc_array(n),
{
    write_head(4, n, out);
}

/// Encoded map head (major type 5): `n` key-value pairs follow.
pub open spec fn enc_map(n: u64) -> Seq<u8> {
    enc_head(5, n)
}

pub open spec fn parse_map(s: Seq<u8>, pos: int) -> Option<(u64, int)> {
    match parse_head(s, pos) {
        Some((major, n, end)) => if major == 5 {
            Some((n, end))
        } else {
            None
        },
        None => None,
    }
}

pub proof fn lemma_parse_map_enc(s: Seq<u8>, pos: int, n: u64)
    requires
        bytes_at(s, pos, enc_map(n)),
    ensures
        parse_map(s, pos) == Some((n, pos + enc_map(n).len())),
{
    lemma_parse_head_enc(s, pos, 5, n);
}

pub fn read_map(buf: &Vec<u8>, pos: usize) -> (r: Option<(u64, usize)>)
    ensures
        uint_opt(r) == parse_map(buf@, pos as int),
        r is Some ==> pos < r->Some_0.1 <= buf.len(),
{
    match read_head(buf, pos) {
        Some((major, n, end)) => if major == 5 {
            Some((n, end))
        } else {
            None
        },
        None => None,
    }
}

pub fn write_map(n: u64, out: &mut Vec<u8>)
    ensures
        final(out)@ == old(out)@ + enc_map(n),
{
    write_head(5, n, out);
}

/// Encoded boolean (major type 7, simple values 20 and 21).
pub open spec fn enc_bool(b: bool) -> Seq<u8> {
    if b {
        seq![0xf5u8]
    } else {
        seq![0xf4u8]
    }
}

pub open spec fn parse_bool(s: Seq<u8>, pos: int) -> Option<(bool, int)> {
    if 0 <= pos < s.len() {
        if s[pos] == 0xf4 {
            Some((false, pos + 1))
        } else if s[pos] == 0xf5 {
            Some((true, pos + 1))
        } else {
            None
        }
    } else {
        None
    }
}

pub proof fn lemma_parse_bool_enc(s: Seq<u8>, pos: int, b: bool)
    requires
        bytes_at(s, pos, enc_bool(b)),
    ensures
        parse_bool(s, pos) == Some((b, pos + 1)),
{
    assert(s[pos + 0] == enc_bool(b)[0]);
}

pub open spec fn bool_opt(r: Option<(bool, usize)>) -> Option<(bool, int)> {
    match r {
        Some((b, end)) => Some((b, end as int)),
        None => None,
    }
}

pub fn read_bool(buf: &Vec<u8>, pos: usize) -> (r: Option<(bool, usize)>)
    ensures
        bool_opt(r) == parse_bool(buf@, pos as int),
        r is Some ==> pos < r->Some_0.1 <= buf.len(),
{
    if pos < buf.len() {
        let b = buf[pos];
        if b == 0xf4 {
            Some((false, pos + 1))
        } else if b == 0xf5 {
            Some((true, pos + 1))
        } else {
            None
        }
    } else {
        None
    }
}

pub fn write_bool(b: bool, out: &mut Vec<u8>)
    ensures
        final(out)@ == old(out)@ + enc_bool(b),
{
    if b {
        out.push(0xf5);
    } else {
        out.push(0xf4);
    }
}

/// Position after skipping `n` whole items starting at `pos`, or `None` when
/// the bytes do not hold that many items.
pub open spec fn skip_n(s: Seq<u8>, pos: int, n: nat) -> Option<int>
    decreases s.len() - pos, n,
{
    if n == 0 {
        Some(pos)
    } else if n > s.len() - pos {
        None
    } else {
        match parse_head(s, pos) {
            None => None,
            Some((major, val, p1)) => {
                if major == 0 || major == 1 || major == 7 {
                    skip_n(s, p1, (n - 1) as nat)
                } else if major == 2 || major == 3 {
                    if p1 + val <= s.len() {
                        skip_n(s, p1 + val as int, (n - 1) as nat)
                    } else {
                        None
                    }
                } else if major == 4 {
                    skip_n(s, p1, (n - 1 + val) as nat)
                } else if major == 5 {
                    skip_n(s, p1, (n - 1 + 2 * val) as nat)
                } else {
                    skip_n(s, p1, n)
                }
            },
        }
    }
}

/// Skipping lands between `pos` and the end of `s`.
pub proof fn lemma_skip_n_bounds(s: Seq<u8>, pos: int, n: nat)
    requires
        0 <= pos <= s.len(),
    ensures
        skip_n(s, pos, n) is Some ==> pos <= skip_n(s, pos, n)->Some_0 <= s.len(),
    decreases s.len() - pos, n,
{
    if n == 0 || n > s.len() - pos {
    } else {
        match parse_head(s, pos) {
            None => {},
            Some((major, val, p1)) => {
                lemma_parse_head_bounds(s, pos);
                if major == 0 || major == 1 || major == 7 {
                    lemma_skip_n_bounds(s, p1, (n - 1) as nat);
                } else if major == 2 || major == 3 {
                    if p1 + val <= s.len() {
                        lemma_skip_n_bounds(s, p1 + val as int, (n - 1) as nat);
                    }
                } else if major == 4 {
                    lemma_skip_n_bounds(s, p1, (n - 1 + val) as nat);
                } else if major == 5 {
                    lemma_skip_n_bounds(s, p1, (n - 1 + 2 * val) as nat);
                } else {
                    lemma_skip_n_bounds(s, p1, n);
                }
            },
        }
    }
}

/// Skip `n` whole items starting at `pos`.
pub fn skip_items(buf: &Vec<u8>, pos: usize, n: u128) -> (r: Option<usize>)
    requires
        pos <= buf.len(),
    ensures
        match r {
            Some(end) => skip_n(buf@, pos as int, n as nat) == Some(end as int) && pos <= end
                <= buf.len(),
            None => skip_n(buf@, pos as int, n as nat) is None,
        },
{
    let mut cur: usize = pos;
    let mut rem: u128 = n;
    loop
        invariant
            pos <= cur <= buf.len(),
            skip_n(buf@, pos as int, n as nat) == skip_n(buf@, cur as int, rem as nat),
        decreases buf.len() - cur, rem,
    {
        if rem == 0 {
            proof {
                lemma_skip_n_bounds(buf@, pos as int, n as nat);
            }
            return Some(cur);
        }
        if rem > (buf.len() - cur) as u128 {
            return None;
        }
        match read_head(buf, cur) {
            None => {
                return None;
            },
            Some((major, val, p1)) => {
                if major == 0 || major == 1 || major == 7 {
                    cur = p1;
                    rem = rem - 1;
                } else if major == 2 || major == 3 {
                    if val <= (buf.len() - p1) as u64 {
                        cur = p1 + val as usize;
                        rem = rem - 1;
                    } else {
                        return None;
                    }
                } else if major == 4 {
                    cur = p1;
                    rem = rem - 1 + val as u128;
                } else if major == 5 {
                    cur = p1;
                    rem = rem - 1 + 2 * (val as u128);
                } else {
                    cur = p1;
                }
            },
        }
    }
}

} // verus!
