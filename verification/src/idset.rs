//! Sets of 16-bit ids (service ids, client ids): a sorted vector with unique
//! elements, and its encoding as an array of unsigned integers.

use crate::cbor;
use vstd::prelude::*;

verus! {

/// Strictly increasing, hence free of duplicates.
pub open spec fn sorted(s: Seq<u16>) -> bool {
    forall|i: int, j: int| 0 <= i < j < s.len() ==> s[i] < s[j]
}

/// A set of 16-bit ids, kept strictly sorted.
#[derive(Debug, PartialEq)]
pub struct IdSet {
    pub items: Vec<u16>,
}

impl View for IdSet {
    type V = Seq<u16>;

    open spec fn view(&self) -> Seq<u16> {
        self.items@
    }
}

impl IdSet {
    pub open spec fn wf(&self) -> bool {
        sorted(self@)
    }

    /// The set holds `v`.
    pub open spec fn has(&self, v: u16) -> bool {
        self@.contains(v)
    }

    pub fn new() -> (r: Self)
        ensures
            r@ == Seq::<u16>::empty(),
            r.wf(),
    {
        IdSet { items: Vec::new() }
    }

    pub fn contains(&self, v: u16) -> (r: bool)
        ensures
            r == self.has(v),
    {
        let mut i: usize = 0;
        while i < self.items.len()
            invariant
                i <= self.items.len(),
                forall|k: int| 0 <= k < i ==> self.items@[k] != v,
            decreases self.items.len() - i,
        {
            if self.items[i] == v {
                return true;
            }
            i = i + 1;
        }
        false
    }

    /// Add `v`; the contents stay sorted and every other element stays.
    pub fn insert(&mut self, v: u16)
        requires
            old(self).wf(),
        ensures
            final(self).wf(),
            final(self)@.contains(v),
            forall|x: u16| #[trigger] final(self)@.contains(x) <==> old(self)@.contains(x) || x == v,
            old(self)@.contains(v) ==> final(self)@ == old(self)@,
            final(self)@.len() <= old(self)@.len() + 1,
    {
        let ghost olds = self@;
        let mut i: usize = 0;
        while i < self.items.len() && self.items[i] < v
            invariant
                i <= self.items.len(),
                self@ == olds,
                forall|k: int| 0 <= k < i ==> self.items@[k] < v,
            decreases self.items.len() - i,
        {
            i = i + 1;
        }
        if i < self.items.len() && self.items[i] == v {
            proof {
                assert(self@.contains(v));
            }
            return;
        }
        self.items.insert(i, v);
        proof {
            assert forall|p: int, q: int| 0 <= p < q < self@.len() implies self@[p] < self@[q] by {
                if q < i {
                } else if p < i && q == i {
                } else if p < i && q > i {
                    assert(olds[q - 1] == self@[q]);
                    if i < olds.len() {
                        assert(olds[i as int] > v || olds[i as int] == v);
                    }
                } else if p == i {
                    assert(self@[q] == olds[q - 1]);
                    assert(olds[i as int] >= v);
                } else {
                    assert(self@[p] == olds[p - 1] && self@[q] == olds[q - 1]);
                }
            }
            assert(self@[i as int] == v);
            assert forall|x: u16| #[trigger] self@.contains(x) implies olds.contains(x) || x == v by {
                let w = choose|k: int| 0 <= k < self@.len() && self@[k] == x;
                if w < i {
                    assert(olds[w] == x);
                } else if w > i {
                    assert(olds[w - 1] == x);
                }
            }
            assert forall|x: u16| olds.contains(x) implies #[trigger] self@.contains(x) by {
                let w = choose|k: int| 0 <= k < olds.len() && olds[k] == x;
                if w < i {
                    assert(self@[w] == x);
                } else {
                    assert(self@[w + 1] == x);
                }
            }
        }
    }

    pub fn len(&self) -> (r: usize)
        ensures
            r == self@.len(),
    {
        self.items.len()
    }

    pub fn is_empty(&self) -> (r: bool)
        ensures
            r == (self@.len() == 0),
    {
        self.items.len() == 0
    }
}

/// A sorted sequence stays sorted when an element above its last is pushed.
proof fn lemma_sorted_push(s: Seq<u16>, v: u16)
    requires
        sorted(s),
        s.len() == 0 || s.last() < v,
    ensures
        sorted(s.push(v)),
{
    assert forall|i: int, j: int| 0 <= i < j < s.push(v).len() implies #[trigger] s.push(v)[i]
        < #[trigger] s.push(v)[j] by {
        if j < s.len() {
            assert(s.push(v)[i] == s[i] && s.push(v)[j] == s[j]);
        } else {
            assert(s.push(v)[j] == v);
            if i < s.len() {
                assert(s.push(v)[i] == s[i]);
                if i < s.len() - 1 {
                    assert(s[i] < s[s.len() - 1]);
                }
            }
        }
    }
}

/// Encoded elements of an id set, in order.
pub open spec fn enc_idset_items(s: Seq<u16>) -> Seq<u8>
    decreases s.len(),
{
    if s.len() == 0 {
        Seq::empty()
    } else {
        cbor::enc_uint(s[0] as u64) + enc_idset_items(s.drop_first())
    }
}

/// Encoded id set: an array of unsigned integers in strictly increasing order.
pub open spec fn enc_idset(s: Seq<u16>) -> Seq<u8> {
    cbor::enc_array(s.len() as u64) + enc_idset_items(s)
}

pub open spec fn parse_idset_items(s: Seq<u8>, pos: int, n: nat, acc: Seq<u16>) -> Option<
    (Seq<u16>, int),
>
    decreases n,
{
    if n == 0 {
        Some((acc, pos))
    } else {
        match cbor::parse_uint(s, pos) {
            Some((v, p1)) => if v <= 0xffff && (acc.len() == 0 || acc.last() < v as u16) {
                parse_idset_items(s, p1, (n - 1) as nat, acc.push(v as u16))
            } else {
                None
            },
            None => None,
        }
    }
}

/// Parse an id set; elements must be strictly increasing 16-bit values.
pub open spec fn parse_idset(s: Seq<u8>, pos: int) -> Option<(Seq<u16>, int)> {
    match cbor::parse_array(s, pos) {
        Some((n, p1)) => parse_idset_items(s, p1, n as nat, Seq::empty()),
        None => None,
    }
}

proof fn lemma_parse_idset_items_enc(s: Seq<u8>, pos: int, ids: Seq<u16>, acc: Seq<u16>)
    requires
        sorted(acc + ids),
        cbor::bytes_at(s, pos, enc_idset_items(ids)),
    ensures
        parse_idset_items(s, pos, ids.len(), acc) == Some(
            (acc + ids, pos + enc_idset_items(ids).len()),
        ),
    decreases ids.len(),
{
    if ids.len() == 0 {
        assert(acc + ids =~= acc);
    } else {
        let v = ids[0];
        let rest = ids.drop_first();
        cbor::lemma_bytes_at_split(s, pos, cbor::enc_uint(v as u64), enc_idset_items(rest));
        cbor::lemma_parse_uint_enc(s, pos, v as u64);
        let p1 = pos + cbor::enc_uint(v as u64).len();
        if acc.len() > 0 {
            assert((acc + ids)[acc.len() - 1] == acc.last());
            assert((acc + ids)[acc.len() as int] == v);
        }
        assert(acc.push(v) + rest =~= acc + ids);
        assert(sorted(acc.push(v) + rest));
        lemma_parse_idset_items_enc(s, p1, rest, acc.push(v));
    }
}

/// Parsing an encoded id set yields the ids back.
pub proof fn lemma_parse_idset_enc(s: Seq<u8>, pos: int, ids: Seq<u16>)
    requires
        sorted(ids),
        ids.len() <= u64::MAX,
        cbor::bytes_at(s, pos, enc_idset(ids)),
    ensures
        parse_idset(s, pos) == Some((ids, pos + enc_idset(ids).len())),
{
    cbor::lemma_bytes_at_split(s, pos, cbor::enc_array(ids.len() as u64), enc_idset_items(ids));
    cbor::lemma_parse_array_enc(s, pos, ids.len() as u64);
    let p1 = pos + cbor::enc_array(ids.len() as u64).len();
    assert(Seq::<u16>::empty() + ids =~= ids);
    lemma_parse_idset_items_enc(s, p1, ids, Seq::empty());
}

proof fn lemma_enc_idset_items_push(s: Seq<u16>, v: u16)
    ensures
        enc_idset_items(s.push(v)) == enc_idset_items(s) + cbor::enc_uint(v as u64),
    decreases s.len(),
{
    if s.len() == 0 {
        assert(s.push(v)[0] == v);
        assert(s.push(v).drop_first() =~= Seq::<u16>::empty());
        assert(enc_idset_items(s) + cbor::enc_uint(v as u64) =~= cbor::enc_uint(v as u64)
            + Seq::empty());
        assert(enc_idset_items(s.push(v)) == cbor::enc_uint(s.push(v)[0] as u64)
            + enc_idset_items(s.push(v).drop_first()));
        assert(cbor::enc_uint(v as u64) + Seq::empty() =~= cbor::enc_uint(v as u64));
    } else {
        assert(s.push(v)[0] == s[0]);
        assert(s.push(v).drop_first() =~= s.drop_first().push(v));
        lemma_enc_idset_items_push(s.drop_first(), v);
        assert(enc_idset_items(s.push(v)) == cbor::enc_uint(s[0] as u64) + (enc_idset_items(
            s.drop_first(),
        ) + cbor::enc_uint(v as u64)));
        assert(cbor::enc_uint(s[0] as u64) + (enc_idset_items(s.drop_first()) + cbor::enc_uint(
            v as u64,
        )) =~= (cbor::enc_uint(s[0] as u64) + enc_idset_items(s.drop_first())) + cbor::enc_uint(
            v as u64,
        ));
    }
}

/// Append the encoding of `ids` to `out`.
pub fn write_idset(ids: &IdSet, out: &mut Vec<u8>)
    ensures
        final(out)@ == old(out)@ + enc_idset(ids@),
{
    cbor::write_array(ids.items.len() as u64, out);
    let mut i: usize = 0;
    while i < ids.items.len()
        invariant
            i <= ids.items.len(),
            out@ == old(out)@ + cbor::enc_array(ids.items@.len() as u64) + enc_idset_items(
                ids.items@.subrange(0, i as int),
            ),
        decreases ids.items.len() - i,
    {
        let v = ids.items[i];
        cbor::write_uint(v as u64, out);
        proof {
            assert(ids.items@.subrange(0, i + 1) =~= ids.items@.subrange(0, i as int).push(v));
            lemma_enc_idset_items_push(ids.items@.subrange(0, i as int), v);
        }
        i = i + 1;
    }
    proof {
        assert(ids.items@.subrange(0, ids.items@.len() as int) =~= ids.items@);
        assert(old(out)@ + cbor::enc_array(ids.items@.len() as u64) + enc_idset_items(ids.items@)
            =~= old(out)@ + enc_idset(ids@));
    }
}

/// Read an id set at `pos`; the result is well formed by construction.
pub fn read_idset(buf: &Vec<u8>, pos: usize) -> (r: Option<(IdSet, usize)>)
    ensures
        match r {
            Some((ids, end)) => parse_idset(buf@, pos as int) == Some((ids@, end as int))
                && ids.wf() && pos < end <= buf.len(),
            None => parse_idset(buf@, pos as int) is None,
        },
{
    match cbor::read_array(buf, pos) {
        None => None,
        Some((n, p1)) => {
            let mut items: Vec<u16> = Vec::new();
            let mut cur: usize = p1;
            let mut rem: u64 = n;
            loop
                invariant
                    pos < cur <= buf.len(),
                    sorted(items@),
                    parse_idset(buf@, pos as int) == parse_idset_items(
                        buf@,
                        cur as int,
                        rem as nat,
                        items@,
                    ),
                decreases rem,
            {
                if rem == 0 {
                    return Some((IdSet { items }, cur));
                }
                match cbor::read_uint(buf, cur) {
                    None => {
                        return None;
                    },
                    Some((v, p2)) => {
                        if v <= 0xffff && (items.len() == 0 || (items[items.len() - 1] as u64) < v) {
                            proof {
                                if items@.len() > 0 {
                                    assert(items@.last() == items@[items@.len() - 1]);
                                }
                                lemma_sorted_push(items@, v as u16);
                            }
                            items.push(v as u16);
                            cur = p2;
                            rem = rem - 1;
                        } else {
                            return None;
                        }
                    },
                }
            }
        },
    }
}

} // verus!
