//! A byte dump of a whole decomposition, for fast reloading on the same kind of machine.
//!
//! Every integer is written as eight bytes, least significant first; a list is its length
//! followed by its items; a string is the length of its UTF-8 bytes followed by those bytes.
//! The arenas and the node and edge records follow one another in a fixed order. Reading checks
//! only that the bytes can be decoded, not that the result is a valid decomposition.
use crate::decomposition::{
    Block, BlockView, Component, ComponentView, CutNode, CutNodeView, DecompositionView,
    EdgeDataView, NodeDataView,
    SPQRDecompositionEdgeData, SPQRDecompositionNodeData, SPQREdge, SPQRNode, SPQRNodeType,
    SPQRNodeView,
};
use crate::indices::{
    ArenaIndex, BlockIndex, ComponentIndex, CutNodeIndex, OptionalCutNodeIndex, SPQREdgeIndex,
    SPQRNodeIndex,
};
use vstd::prelude::*;
use vstd::utf8::{decode_utf8, encode_utf8, valid_utf8};

verus! {

/// The eight bytes of `x`, least significant first.
pub open spec fn u64_bytes(x: u64) -> Seq<u8> {
    seq![
        (x & 0xff) as u8,
        ((x >> 8u64) & 0xff) as u8,
        ((x >> 16u64) & 0xff) as u8,
        ((x >> 24u64) & 0xff) as u8,
        ((x >> 32u64) & 0xff) as u8,
        ((x >> 40u64) & 0xff) as u8,
        ((x >> 48u64) & 0xff) as u8,
        ((x >> 56u64) & 0xff) as u8,
    ]
}

/// The integer whose eight bytes, least significant first, are `b[p..p + 8]`.
pub open spec fn u64_at(b: Seq<u8>, p: int) -> u64 {
    (b[p] as u64) | ((b[p + 1] as u64) << 8u64) | ((b[p + 2] as u64) << 16u64) | ((b[p + 3] as u64)
        << 24u64) | ((b[p + 4] as u64) << 32u64) | ((b[p + 5] as u64) << 40u64) | ((b[p + 6] as u64)
        << 48u64) | ((b[p + 7] as u64) << 56u64)
}

/// The integer at `p`, and the position after it.
pub open spec fn decode_u64(b: Seq<u8>, p: int) -> Option<(u64, int)> {
    if 0 <= p && p + 8 <= b.len() {
        Some((u64_at(b, p), p + 8))
    } else {
        None
    }
}

proof fn lemma_u64_bits(x: u64)
    ensures
        ((((x & 0xff) as u8) as u64) | (((((x >> 8u64) & 0xff) as u8) as u64) << 8u64) | (((((x
            >> 16u64) & 0xff) as u8) as u64) << 16u64) | (((((x >> 24u64) & 0xff) as u8) as u64)
            << 24u64) | (((((x >> 32u64) & 0xff) as u8) as u64) << 32u64) | (((((x >> 40u64)
            & 0xff) as u8) as u64) << 40u64) | (((((x >> 48u64) & 0xff) as u8) as u64) << 48u64)
            | (((((x >> 56u64) & 0xff) as u8) as u64) << 56u64)) == x,
{
    assert(((((x & 0xff) as u8) as u64) | (((((x >> 8u64) & 0xff) as u8) as u64) << 8u64) | (((((x
        >> 16u64) & 0xff) as u8) as u64) << 16u64) | (((((x >> 24u64) & 0xff) as u8) as u64)
        << 24u64) | (((((x >> 32u64) & 0xff) as u8) as u64) << 32u64) | (((((x >> 40u64) & 0xff)
        as u8) as u64) << 40u64) | (((((x >> 48u64) & 0xff) as u8) as u64) << 48u64) | (((((x
        >> 56u64) & 0xff) as u8) as u64) << 56u64)) == x) by (bit_vector);
}

/// The eight bytes of an integer read back give the integer.
pub proof fn lemma_u64_round_trip(x: u64, b: Seq<u8>, p: int)
    requires
        0 <= p,
        p + 8 <= b.len(),
        b.subrange(p, p + 8) == u64_bytes(x),
    ensures
        decode_u64(b, p) == Some((x, p + 8)),
{
    assert(b[p] == b.subrange(p, p + 8)[0]);
    assert(b[p + 1] == b.subrange(p, p + 8)[1]);
    assert(b[p + 2] == b.subrange(p, p + 8)[2]);
    assert(b[p + 3] == b.subrange(p, p + 8)[3]);
    assert(b[p + 4] == b.subrange(p, p + 8)[4]);
    assert(b[p + 5] == b.subrange(p, p + 8)[5]);
    assert(b[p + 6] == b.subrange(p, p + 8)[6]);
    assert(b[p + 7] == b.subrange(p, p + 8)[7]);
    lemma_u64_bits(x);
}

/// Appends the eight bytes of `x`.
pub fn write_u64(out: &mut Vec<u8>, x: u64)
    ensures
        final(out)@ == old(out)@ + u64_bytes(x),
{
    out.push((x & 0xff) as u8);
    out.push(((x >> 8u64) & 0xff) as u8);
    out.push(((x >> 16u64) & 0xff) as u8);
    out.push(((x >> 24u64) & 0xff) as u8);
    out.push(((x >> 32u64) & 0xff) as u8);
    out.push(((x >> 40u64) & 0xff) as u8);
    out.push(((x >> 48u64) & 0xff) as u8);
    out.push(((x >> 56u64) & 0xff) as u8);
    assert(final(out)@ =~= old(out)@ + u64_bytes(x));
}

/// Reads the integer at `p`.
pub fn read_u64(b: &Vec<u8>, p: usize) -> (r: Option<(u64, usize)>)
    ensures
        match r {
            Some((x, q)) => decode_u64(b@, p as int) == Some((x, q as int)),
            None => decode_u64(b@, p as int) is None,
        },
{
    if p > b.len() || b.len() - p < 8 {
        return None;
    }
    let x = (b[p] as u64) | ((b[p + 1] as u64) << 8u64) | ((b[p + 2] as u64) << 16u64) | ((b[p
        + 3] as u64) << 24u64) | ((b[p + 4] as u64) << 32u64) | ((b[p + 5] as u64) << 40u64) | ((b[p
        + 6] as u64) << 48u64) | ((b[p + 7] as u64) << 56u64);
    Some((x, p + 8))
}

/// Appends the eight bytes of `x`.
pub fn write_usize_binary(value: usize, out: &mut Vec<u8>)
    ensures
        final(out)@ == old(out)@ + u64_bytes(value as u64),
{
    write_u64(out, value as u64);
}

/// Reads the index at `p`; an integer too large for an index is no index.
pub fn read_usize_binary(b: &Vec<u8>, p: usize) -> (r: Option<(usize, usize)>)
    ensures
        match r {
            Some((x, q)) => decode_u64(b@, p as int) == Some((x as u64, q as int)),
            None => decode_u64(b@, p as int) matches Some((x, _)) ==> x > usize::MAX,
        },
{
    match read_u64(b, p) {
        Some((x, q)) => if x <= usize::MAX as u64 {
            Some((x as usize, q))
        } else {
            None
        },
        None => None,
    }
}

/// The bytes of the items of a list of indices, each as eight bytes.
pub open spec fn index_items<T: ArenaIndex>(s: Seq<T>) -> Seq<u8>
    decreases s.len(),
{
    if s.len() == 0 {
        Seq::empty()
    } else {
        index_items(s.drop_last()) + u64_bytes(s.last().index_value() as u64)
    }
}

/// A list of indices: its length, then its items.
pub open spec fn index_list_bytes<T: ArenaIndex>(s: Seq<T>) -> Seq<u8> {
    u64_bytes(s.len() as u64) + index_items(s)
}

/// The list of indices at `p`, and the position after it.
pub open spec fn decode_index_list<T: ArenaIndex>(b: Seq<u8>, p: int) -> Option<(Seq<T>, int)> {
    match decode_u64(b, p) {
        Some((n, q)) => if q + 8 * n <= b.len() {
            Some((Seq::new(n as nat, |i: int| T::spec_from_index(u64_at(b, q + 8 * i) as usize)), q + 8 * n))
        } else {
            None
        },
        None => None,
    }
}

proof fn lemma_index_items<T: ArenaIndex>(s: Seq<T>)
    ensures
        index_items(s).len() == 8 * s.len(),
        forall|i: int|
            0 <= i < s.len() ==> #[trigger] index_items(s).subrange(8 * i, 8 * i + 8) == u64_bytes(
                s[i].index_value() as u64,
            ),
    decreases s.len(),
{
    if s.len() > 0 {
        let t = s.drop_last();
        lemma_index_items(t);
        assert forall|i: int| 0 <= i < s.len() implies #[trigger] index_items(s).subrange(8 * i, 8 * i + 8)
            == u64_bytes(s[i].index_value() as u64) by {
            if i < t.len() {
                assert(index_items(s).subrange(8 * i, 8 * i + 8) =~= index_items(t).subrange(8 * i, 8 * i + 8));
                assert(t[i] == s[i]);
            } else {
                assert(index_items(s).subrange(8 * i, 8 * i + 8) =~= u64_bytes(s.last().index_value() as u64));
            }
        }
    }
}

/// A list of indices written out reads back as the same list.
pub proof fn lemma_index_list_round_trip<T: ArenaIndex>(s: Seq<T>, b: Seq<u8>, p: int)
    requires
        0 <= p,
        p + index_list_bytes(s).len() <= b.len(),
        b.subrange(p, p + index_list_bytes(s).len()) == index_list_bytes(s),
        s.len() <= u64::MAX,
    ensures
        index_list_bytes(s).len() == 8 + 8 * s.len(),
        decode_index_list::<T>(b, p) == Some((s, p + index_list_bytes(s).len())),
{
    lemma_index_items(s);
    let e = index_list_bytes(s);
    assert(b.subrange(p, p + 8) =~= e.subrange(0, 8));
    assert(e.subrange(0, 8) =~= u64_bytes(s.len() as u64));
    lemma_u64_round_trip(s.len() as u64, b, p);
    let d = Seq::new(s.len(), |i: int| T::spec_from_index(u64_at(b, p + 8 + 8 * i) as usize));
    assert forall|i: int| 0 <= i < s.len() implies d[i] == s[i] by {
        assert forall|k: int| 0 <= k < e.len() implies b[p + k] == e[k] by {
            assert(b.subrange(p, p + e.len())[k] == b[p + k]);
        }
        assert(e.subrange(8 + 8 * i, 8 + 8 * i + 8) =~= index_items(s).subrange(8 * i, 8 * i + 8));
        assert(b.subrange(p + 8 + 8 * i, p + 8 + 8 * i + 8) =~= e.subrange(8 + 8 * i, 8 + 8 * i + 8));
        lemma_u64_round_trip(s[i].index_value() as u64, b, p + 8 + 8 * i);
        T::lemma_from_index_value(s[i]);
    }
    assert(d =~= s);
}

/// Appends a list of indices.
pub fn write_slice_binary<T: ArenaIndex>(s: &Vec<T>, out: &mut Vec<u8>)
    ensures
        final(out)@ == old(out)@ + index_list_bytes(s@),
        s@.len() <= u64::MAX,
{
    write_u64(out, s.len() as u64);
    let ghost start = old(out)@ + u64_bytes(s@.len() as u64);
    let mut i: usize = 0;
    while i < s.len()
        invariant
            0 <= i <= s@.len(),
            out@ == start + index_items(s@.subrange(0, i as int)),
        decreases s@.len() - i,
    {
        let x = s[i].index();
        write_u64(out, x as u64);
        proof {
            let t = s@.subrange(0, i + 1);
            assert(t.drop_last() =~= s@.subrange(0, i as int));
            assert(t.last() == s@[i as int]);
        }
        i = i + 1;
    }
    assert(s@.subrange(0, s@.len() as int) =~= s@);
}

/// Reads the list of indices at `p`.
pub fn read_vec_binary<T: ArenaIndex>(b: &Vec<u8>, p: usize) -> (r: Option<(Vec<T>, usize)>)
    ensures
        match r {
            Some((v, q)) => decode_index_list::<T>(b@, p as int) == Some((v@, q as int)),
            None => decode_index_list::<T>(b@, p as int) is None,
        },
{
    let (n, q) = match read_u64(b, p) {
        Some(x) => x,
        None => {
            return None;
        },
    };
    if (((b.len() - q) / 8) as u64) < n {
        return None;
    }
    let n = n as usize;
    assert(8 * n <= b@.len() - q) by (nonlinear_arith)
        requires
            n <= (b@.len() - q) / 8,
            q <= b@.len(),
    ;
    let mut v: Vec<T> = Vec::new();
    let blen = b.len();
    let mut i: usize = 0;
    while i < n
        invariant
            blen == b@.len(),
            0 <= i <= n,
            q + 8 * n <= b@.len(),
            v@.len() == i,
            forall|j: int| 0 <= j < i ==> v@[j] == T::spec_from_index(u64_at(b@, q + 8 * j) as usize),
        decreases n - i,
    {
        let (x, _) = match read_u64(b, q + 8 * i) {
            Some(x) => x,
            None => {
                return None;
            },
        };
        v.push(T::from_index(x as usize));
        i = i + 1;
    }
    assert(v@ =~= Seq::new(n as nat, |j: int| T::spec_from_index(u64_at(b@, q + 8 * j) as usize)));
    Some((v, q + 8 * n))
}

/// A string: the length of its UTF-8 bytes, then those bytes.
pub open spec fn string_bytes(s: Seq<char>) -> Seq<u8> {
    u64_bytes(encode_utf8(s).len() as u64) + encode_utf8(s)
}

/// The string at `p`, and the position after it.
pub open spec fn decode_string(b: Seq<u8>, p: int) -> Option<(Seq<char>, int)> {
    match decode_u64(b, p) {
        Some((n, q)) => if q + n <= b.len() && valid_utf8(b.subrange(q, q + n)) {
            Some((decode_utf8(b.subrange(q, q + n)), q + n))
        } else {
            None
        },
        None => None,
    }
}

/// A string written out reads back as the same string.
pub proof fn lemma_string_round_trip(s: Seq<char>, b: Seq<u8>, p: int)
    requires
        0 <= p,
        p + string_bytes(s).len() <= b.len(),
        b.subrange(p, p + string_bytes(s).len()) == string_bytes(s),
        encode_utf8(s).len() <= u64::MAX,
    ensures
        decode_string(b, p) == Some((s, p + string_bytes(s).len())),
{
    let e = string_bytes(s);
    let n = encode_utf8(s).len();
    assert(b.subrange(p, p + 8) =~= e.subrange(0, 8));
    assert(e.subrange(0, 8) =~= u64_bytes(n as u64));
    lemma_u64_round_trip(n as u64, b, p);
    assert forall|k: int| 0 <= k < e.len() implies b[p + k] == e[k] by {
        assert(b.subrange(p, p + e.len())[k] == b[p + k]);
    }
    assert(b.subrange(p + 8, p + 8 + n) =~= e.subrange(8, 8 + n as int));
    assert(e.subrange(8, 8 + n as int) =~= encode_utf8(s));
    vstd::utf8::encode_utf8_valid_utf8(s);
    vstd::utf8::encode_utf8_decode_utf8(s);
}

/// Relies on `String::from_utf8`: the string that valid UTF-8 bytes encode, and an error
/// exactly for bytes that are not valid UTF-8.
#[verifier::external_body]
fn string_from_utf8(bytes: Vec<u8>) -> (r: Option<String>)
    ensures
        r is Some <==> valid_utf8(bytes@),
        r matches Some(s) ==> s@ == decode_utf8(bytes@),
{
    String::from_utf8(bytes).ok()
}

/// Appends a string.
pub fn write_str_binary(s: &str, out: &mut Vec<u8>)
    ensures
        final(out)@ == old(out)@ + string_bytes(s@),
        encode_utf8(s@).len() <= u64::MAX,
{
    let bytes = s.as_bytes();
    let count = bytes.len();
    write_u64(out, bytes.len() as u64);
    let ghost start = old(out)@ + u64_bytes(bytes@.len() as u64);
    let mut i: usize = 0;
    while i < bytes.len()
        invariant
            0 <= i <= bytes@.len(),
            out@ == start + bytes@.subrange(0, i as int),
        decreases bytes@.len() - i,
    {
        out.push(bytes[i]);
        assert(out@ =~= start + bytes@.subrange(0, i + 1));
        i = i + 1;
    }
    assert(bytes@.subrange(0, bytes@.len() as int) =~= bytes@);
}

/// Reads the string at `p`.
pub fn read_string_binary(b: &Vec<u8>, p: usize) -> (r: Option<(String, usize)>)
    ensures
        match r {
            Some((s, q)) => decode_string(b@, p as int) == Some((s@, q as int)),
            None => decode_string(b@, p as int) is None,
        },
{
    let (n, q) = match read_u64(b, p) {
        Some(x) => x,
        None => {
            return None;
        },
    };
    if ((b.len() - q) as u64) < n {
        return None;
    }
    let n = n as usize;
    assert(q + n <= b@.len());
    let mut bytes: Vec<u8> = Vec::new();
    let blen = b.len();
    let mut i: usize = 0;
    while i < n
        invariant
            blen == b@.len(),
            0 <= i <= n,
            q + n <= b@.len(),
            bytes@ == b@.subrange(q as int, q + i),
        decreases n - i,
    {
        bytes.push(b[q + i]);
        assert(bytes@ =~= b@.subrange(q as int, q + i + 1));
        i = i + 1;
    }
    match string_from_utf8(bytes) {
        Some(s) => Some((s, q + n)),
        None => None,
    }
}

/// `b[p..]` starts with `x + y`: it starts with `x`, and `y` follows.
pub proof fn lemma_split(b: Seq<u8>, p: int, x: Seq<u8>, y: Seq<u8>)
    requires
        0 <= p,
        p + (x + y).len() <= b.len(),
        b.subrange(p, p + (x + y).len()) == x + y,
    ensures
        p + x.len() + y.len() <= b.len(),
        b.subrange(p, p + x.len()) == x,
        b.subrange(p + x.len(), p + x.len() + y.len()) == y,
{
    assert forall|k: int| 0 <= k < (x + y).len() implies b[p + k] == (x + y)[k] by {
        assert(b.subrange(p, p + (x + y).len())[k] == b[p + k]);
    }
    assert(b.subrange(p, p + x.len()) =~= x);
    assert forall|k: int| 0 <= k < y.len() implies b.subrange(p + x.len(), p + x.len() + y.len())[k] == y[k] by {
        assert((x + y)[x.len() + k] == y[k]);
        assert(b[p + x.len() + k] == (x + y)[x.len() + k]);
    }
    assert(b.subrange(p + x.len(), p + x.len() + y.len()) =~= y);
}

/// One index, as eight bytes.
pub open spec fn index_bytes<T: ArenaIndex>(t: T) -> Seq<u8> {
    u64_bytes(t.index_value() as u64)
}

/// The index at `p`, and the position after it.
pub open spec fn decode_index<T: ArenaIndex>(b: Seq<u8>, p: int) -> Option<(T, int)> {
    match decode_u64(b, p) {
        Some((x, q)) => if x <= usize::MAX {
            Some((T::spec_from_index(x as usize), q))
        } else {
            None
        },
        None => None,
    }
}

pub proof fn lemma_index_round_trip<T: ArenaIndex>(t: T, b: Seq<u8>, p: int)
    requires
        0 <= p,
        p + 8 <= b.len(),
        b.subrange(p, p + 8) == index_bytes(t),
    ensures
        index_bytes(t).len() == 8,
        decode_index::<T>(b, p) == Some((t, p + 8)),
{
    lemma_u64_round_trip(t.index_value() as u64, b, p);
    T::lemma_from_index_value(t);
}

pub fn write_index<T: ArenaIndex>(t: &T, out: &mut Vec<u8>)
    ensures
        final(out)@ == old(out)@ + index_bytes(*t),
{
    write_u64(out, t.index() as u64);
}

pub fn read_index<T: ArenaIndex>(b: &Vec<u8>, p: usize) -> (r: Option<(T, usize)>)
    ensures
        match r {
            Some((t, q)) => decode_index::<T>(b@, p as int) == Some((t, q as int)),
            None => decode_index::<T>(b@, p as int) is None,
        },
{
    match read_u64(b, p) {
        Some((x, q)) => if x <= usize::MAX as u64 {
            Some((T::from_index(x as usize), q))
        } else {
            None
        },
        None => None,
    }
}

/// A record that can be written as bytes and read back.
pub trait BinaryRecord: Sized + View {
    /// The bytes of a record.
    spec fn record_bytes(v: Self::V) -> Seq<u8>;

    /// The record at `p`, and the position after it.
    spec fn decode_record(b: Seq<u8>, p: int) -> Option<(Self::V, int)>;

    /// Whether every list and string of the record has a length that fits in eight bytes.
    spec fn writable(v: Self::V) -> bool;

    fn write_binary(&self, out: &mut Vec<u8>)
        ensures
            final(out)@ == old(out)@ + Self::record_bytes(self@),
            Self::writable(self@),
    ;

    fn read_binary(b: &Vec<u8>, p: usize) -> (r: Option<(Self, usize)>)
        ensures
            match r {
                Some((x, q)) => Self::decode_record(b@, p as int) == Some((x@, q as int)),
                None => Self::decode_record(b@, p as int) is None,
            },
    ;

    /// A record written out reads back as the same record.
    proof fn lemma_record_round_trip(v: Self::V, b: Seq<u8>, p: int)
        requires
            Self::writable(v),
            0 <= p,
            p + Self::record_bytes(v).len() <= b.len(),
            b.subrange(p, p + Self::record_bytes(v).len()) == Self::record_bytes(v),
        ensures
            Self::decode_record(b, p) == Some((v, p + Self::record_bytes(v).len())),
    ;
}

impl SPQRNodeType {
    /// Appends the type as one byte: 0, 1 or 2 for S, P or R.
    pub fn write_binary(&self, out: &mut Vec<u8>)
        ensures
            final(out)@ == old(out)@ + <SPQRNodeType as BinaryRecord>::record_bytes(*self),
    {
        let byte: u8 = match self {
            SPQRNodeType::SNode => 0,
            SPQRNodeType::PNode => 1,
            SPQRNodeType::RNode => 2,
        };
        out.push(byte);
        assert(out@ =~= old(out)@ + <SPQRNodeType as BinaryRecord>::record_bytes(*self));
    }

    /// Reads the type byte at `p`; a byte other than 0, 1 or 2 is no type.
    pub fn read_binary(b: &Vec<u8>, p: usize) -> (r: Option<(SPQRNodeType, usize)>)
        ensures
            match r {
                Some((t, q)) => <SPQRNodeType as BinaryRecord>::decode_record(b@, p as int) == Some((t, q as int)),
                None => <SPQRNodeType as BinaryRecord>::decode_record(b@, p as int) is None,
            },
    {
        if p >= b.len() {
            return None;
        }
        match b[p] {
            0 => Some((SPQRNodeType::SNode, p + 1)),
            1 => Some((SPQRNodeType::PNode, p + 1)),
            2 => Some((SPQRNodeType::RNode, p + 1)),
            _ => None,
        }
    }
}

impl BinaryRecord for SPQRNodeType {
    open spec fn record_bytes(v: SPQRNodeType) -> Seq<u8> {
        seq![
            match v {
                SPQRNodeType::SNode => 0u8,
                SPQRNodeType::PNode => 1u8,
                SPQRNodeType::RNode => 2u8,
            },
        ]
    }

    open spec fn decode_record(b: Seq<u8>, p: int) -> Option<(SPQRNodeType, int)> {
        if 0 <= p < b.len() {
            if b[p] == 0 {
                Some((SPQRNodeType::SNode, p + 1))
            } else if b[p] == 1 {
                Some((SPQRNodeType::PNode, p + 1))
            } else if b[p] == 2 {
                Some((SPQRNodeType::RNode, p + 1))
            } else {
                None
            }
        } else {
            None
        }
    }

    open spec fn writable(v: SPQRNodeType) -> bool {
        true
    }

    fn write_binary(&self, out: &mut Vec<u8>) {
        SPQRNodeType::write_binary(self, out);
    }

    fn read_binary(b: &Vec<u8>, p: usize) -> (r: Option<(SPQRNodeType, usize)>) {
        SPQRNodeType::read_binary(b, p)
    }

    proof fn lemma_record_round_trip(v: SPQRNodeType, b: Seq<u8>, p: int) {
        assert(b[p] == b.subrange(p, p + 1)[0]);
    }
}

impl BinaryRecord for SPQREdge {
    open spec fn record_bytes(v: SPQREdge) -> Seq<u8> {
        index_bytes(v.endpoints.0) + index_bytes(v.endpoints.1) + index_bytes(v.virtual_edge.0)
            + index_bytes(v.virtual_edge.1)
    }

    open spec fn decode_record(b: Seq<u8>, p: int) -> Option<(SPQREdge, int)> {
        match (
            decode_index::<SPQRNodeIndex>(b, p),
            decode_index::<SPQRNodeIndex>(b, p + 8),
            decode_index::<usize>(b, p + 16),
            decode_index::<usize>(b, p + 24),
        ) {
            (Some((u, _)), Some((w, _)), Some((x, _)), Some((y, q))) => Some(
                (SPQREdge { endpoints: (u, w), virtual_edge: (x, y) }, q),
            ),
            _ => None,
        }
    }

    open spec fn writable(v: SPQREdge) -> bool {
        true
    }

    fn write_binary(&self, out: &mut Vec<u8>) {
        write_index(&self.endpoints.0, out);
        write_index(&self.endpoints.1, out);
        write_index(&self.virtual_edge.0, out);
        write_index(&self.virtual_edge.1, out);
        assert(out@ =~= old(out)@ + Self::record_bytes(self@));
    }

    fn read_binary(b: &Vec<u8>, p: usize) -> (r: Option<(SPQREdge, usize)>) {
        if p > b.len() || b.len() - p < 32 {
            proof {
                assert(decode_index::<usize>(b@, p + 24) is None);
            }
            return None;
        }
        let (u, _) = read_index::<SPQRNodeIndex>(b, p)?;
        let (w, _) = read_index::<SPQRNodeIndex>(b, p + 8)?;
        let (x, _) = read_index::<usize>(b, p + 16)?;
        let (y, q) = read_index::<usize>(b, p + 24)?;
        Some((SPQREdge { endpoints: (u, w), virtual_edge: (x, y) }, q))
    }

    proof fn lemma_record_round_trip(v: SPQREdge, b: Seq<u8>, p: int) {
        let a0 = index_bytes(v.endpoints.0);
        let a1 = index_bytes(v.endpoints.1);
        let a2 = index_bytes(v.virtual_edge.0);
        let a3 = index_bytes(v.virtual_edge.1);
        lemma_split(b, p, a0 + a1 + a2, a3);
        lemma_split(b, p, a0 + a1, a2);
        lemma_split(b, p, a0, a1);
        lemma_index_round_trip(v.endpoints.0, b, p);
        lemma_index_round_trip(v.endpoints.1, b, p + 8);
        lemma_index_round_trip(v.virtual_edge.0, b, p + 16);
        lemma_index_round_trip(v.virtual_edge.1, b, p + 24);
    }
}

impl BinaryRecord for Component {
    open spec fn record_bytes(v: ComponentView) -> Seq<u8> {
        index_list_bytes(v.nodes) + index_list_bytes(v.blocks) + index_list_bytes(v.cut_nodes)
    }

    open spec fn decode_record(b: Seq<u8>, p: int) -> Option<(ComponentView, int)> {
        match decode_index_list::<usize>(b, p) {
            Some((nodes, p1)) => match decode_index_list::<BlockIndex>(b, p1) {
                Some((blocks, p2)) => match decode_index_list::<CutNodeIndex>(b, p2) {
                    Some((cut_nodes, p3)) => Some(
                        (ComponentView { nodes: nodes, blocks: blocks, cut_nodes: cut_nodes }, p3),
                    ),
                    None => None,
                },
                None => None,
            },
            None => None,
        }
    }

    open spec fn writable(v: ComponentView) -> bool {
        v.nodes.len() <= u64::MAX && v.blocks.len() <= u64::MAX && v.cut_nodes.len() <= u64::MAX
    }

    fn write_binary(&self, out: &mut Vec<u8>) {
        write_slice_binary(&self.nodes, out);
        write_slice_binary(&self.blocks, out);
        write_slice_binary(&self.cut_nodes, out);
        assert(out@ =~= old(out)@ + Self::record_bytes(self@));
    }

    fn read_binary(b: &Vec<u8>, p: usize) -> (r: Option<(Component, usize)>) {
        let (nodes, p1) = read_vec_binary::<usize>(b, p)?;
        let (blocks, p2) = read_vec_binary::<BlockIndex>(b, p1)?;
        let (cut_nodes, p3) = read_vec_binary::<CutNodeIndex>(b, p2)?;
        Some((Component { nodes, blocks, cut_nodes }, p3))
    }

    proof fn lemma_record_round_trip(v: ComponentView, b: Seq<u8>, p: int) {
        let a0 = index_list_bytes(v.nodes);
        let a1 = index_list_bytes(v.blocks);
        let a2 = index_list_bytes(v.cut_nodes);
        lemma_split(b, p, a0 + a1, a2);
        lemma_split(b, p, a0, a1);
        lemma_index_list_round_trip(v.nodes, b, p);
        lemma_index_list_round_trip(v.blocks, b, p + a0.len());
        lemma_index_list_round_trip(v.cut_nodes, b, p + a0.len() + a1.len());
    }
}

impl BinaryRecord for Block {
    open spec fn record_bytes(v: BlockView) -> Seq<u8> {
        index_bytes(v.component) + index_list_bytes(v.nodes) + index_list_bytes(v.cut_nodes)
            + index_list_bytes(v.spqr_nodes) + index_list_bytes(v.spqr_edges)
    }

    open spec fn decode_record(b: Seq<u8>, p: int) -> Option<(BlockView, int)> {
        match decode_index::<ComponentIndex>(b, p) {
            Some((component, p0)) => match decode_index_list::<usize>(b, p0) {
                Some((nodes, p1)) => match decode_index_list::<CutNodeIndex>(b, p1) {
                    Some((cut_nodes, p2)) => match decode_index_list::<SPQRNodeIndex>(b, p2) {
                        Some((spqr_nodes, p3)) => match decode_index_list::<SPQREdgeIndex>(b, p3) {
                            Some((spqr_edges, p4)) => Some(
                                (
                                    BlockView {
                                        component: component,
                                        nodes: nodes,
                                        cut_nodes: cut_nodes,
                                        spqr_nodes: spqr_nodes,
                                        spqr_edges: spqr_edges,
                                    },
                                    p4,
                                ),
                            ),
                            None => None,
                        },
                        None => None,
                    },
                    None => None,
                },
                None => None,
            },
            None => None,
        }
    }

    open spec fn writable(v: BlockView) -> bool {
        &&& v.nodes.len() <= u64::MAX
        &&& v.cut_nodes.len() <= u64::MAX
        &&& v.spqr_nodes.len() <= u64::MAX
        &&& v.spqr_edges.len() <= u64::MAX
    }

    fn write_binary(&self, out: &mut Vec<u8>) {
        write_index(&self.component, out);
        write_slice_binary(&self.nodes, out);
        write_slice_binary(&self.cut_nodes, out);
        write_slice_binary(&self.spqr_nodes, out);
        write_slice_binary(&self.spqr_edges, out);
        assert(out@ =~= old(out)@ + Self::record_bytes(self@));
    }

    fn read_binary(b: &Vec<u8>, p: usize) -> (r: Option<(Block, usize)>) {
        let (component, p0) = read_index::<ComponentIndex>(b, p)?;
        let (nodes, p1) = read_vec_binary::<usize>(b, p0)?;
        let (cut_nodes, p2) = read_vec_binary::<CutNodeIndex>(b, p1)?;
        let (spqr_nodes, p3) = read_vec_binary::<SPQRNodeIndex>(b, p2)?;
        let (spqr_edges, p4) = read_vec_binary::<SPQREdgeIndex>(b, p3)?;
        Some((Block { component, nodes, cut_nodes, spqr_nodes, spqr_edges }, p4))
    }

    proof fn lemma_record_round_trip(v: BlockView, b: Seq<u8>, p: int) {
        let a0 = index_bytes(v.component);
        let a1 = index_list_bytes(v.nodes);
        let a2 = index_list_bytes(v.cut_nodes);
        let a3 = index_list_bytes(v.spqr_nodes);
        let a4 = index_list_bytes(v.spqr_edges);
        lemma_split(b, p, a0 + a1 + a2 + a3, a4);
        lemma_split(b, p, a0 + a1 + a2, a3);
        lemma_split(b, p, a0 + a1, a2);
        lemma_split(b, p, a0, a1);
        lemma_index_round_trip(v.component, b, p);
        lemma_index_list_round_trip(v.nodes, b, p + a0.len());
        lemma_index_list_round_trip(v.cut_nodes, b, p + a0.len() + a1.len());
        lemma_index_list_round_trip(v.spqr_nodes, b, p + a0.len() + a1.len() + a2.len());
        lemma_index_list_round_trip(v.spqr_edges, b, p + a0.len() + a1.len() + a2.len() + a3.len());
    }
}

impl BinaryRecord for CutNode {
    open spec fn record_bytes(v: CutNodeView) -> Seq<u8> {
        index_bytes(v.component) + index_bytes(v.node) + index_list_bytes(v.adjacent_blocks)
    }

    open spec fn decode_record(b: Seq<u8>, p: int) -> Option<(CutNodeView, int)> {
        match decode_index::<ComponentIndex>(b, p) {
            Some((component, p0)) => match decode_index::<usize>(b, p0) {
                Some((node, p1)) => match decode_index_list::<BlockIndex>(b, p1) {
                    Some((adjacent_blocks, p2)) => Some(
                        (CutNodeView { component: component, node: node, adjacent_blocks: adjacent_blocks }, p2),
                    ),
                    None => None,
                },
                None => None,
            },
            None => None,
        }
    }

    open spec fn writable(v: CutNodeView) -> bool {
        v.adjacent_blocks.len() <= u64::MAX
    }

    fn write_binary(&self, out: &mut Vec<u8>) {
        write_index(&self.component, out);
        write_index(&self.node, out);
        write_slice_binary(&self.adjacent_blocks, out);
        assert(out@ =~= old(out)@ + Self::record_bytes(self@));
    }

    fn read_binary(b: &Vec<u8>, p: usize) -> (r: Option<(CutNode, usize)>) {
        let (component, p0) = read_index::<ComponentIndex>(b, p)?;
        let (node, p1) = read_index::<usize>(b, p0)?;
        let (adjacent_blocks, p2) = read_vec_binary::<BlockIndex>(b, p1)?;
        Some((CutNode { component, node, adjacent_blocks }, p2))
    }

    proof fn lemma_record_round_trip(v: CutNodeView, b: Seq<u8>, p: int) {
        let a0 = index_bytes(v.component);
        let a1 = index_bytes(v.node);
        let a2 = index_list_bytes(v.adjacent_blocks);
        lemma_split(b, p, a0 + a1, a2);
        lemma_split(b, p, a0, a1);
        lemma_index_round_trip(v.component, b, p);
        lemma_index_round_trip(v.node, b, p + 8);
        lemma_index_list_round_trip(v.adjacent_blocks, b, p + 16);
    }
}

impl BinaryRecord for SPQRNode {
    open spec fn record_bytes(v: SPQRNodeView) -> Seq<u8> {
        index_bytes(v.block) + index_list_bytes(v.nodes) + index_list_bytes(v.edges)
            + SPQRNodeType::record_bytes(v.spqr_node_type) + index_list_bytes(v.spqr_edges)
    }

    open spec fn decode_record(b: Seq<u8>, p: int) -> Option<(SPQRNodeView, int)> {
        match decode_index::<BlockIndex>(b, p) {
            Some((block, p0)) => match decode_index_list::<usize>(b, p0) {
                Some((nodes, p1)) => match decode_index_list::<usize>(b, p1) {
                    Some((edges, p2)) => match SPQRNodeType::decode_record(b, p2) {
                        Some((spqr_node_type, p3)) => match decode_index_list::<SPQREdgeIndex>(b, p3) {
                            Some((spqr_edges, p4)) => Some(
                                (
                                    SPQRNodeView {
                                        block: block,
                                        nodes: nodes,
                                        edges: edges,
                                        spqr_node_type: spqr_node_type,
                                        spqr_edges: spqr_edges,
                                    },
                                    p4,
                                ),
                            ),
                            None => None,
                        },
                        None => None,
                    },
                    None => None,
                },
                None => None,
            },
            None => None,
        }
    }

    open spec fn writable(v: SPQRNodeView) -> bool {
        &&& v.nodes.len() <= u64::MAX
        &&& v.edges.len() <= u64::MAX
        &&& v.spqr_edges.len() <= u64::MAX
    }

    fn write_binary(&self, out: &mut Vec<u8>) {
        write_index(&self.block, out);
        write_slice_binary(&self.nodes, out);
        write_slice_binary(&self.edges, out);
        SPQRNodeType::write_binary(&self.spqr_node_type, out);
        write_slice_binary(&self.spqr_edges, out);
        assert(out@ =~= old(out)@ + Self::record_bytes(self@));
    }

    fn read_binary(b: &Vec<u8>, p: usize) -> (r: Option<(SPQRNode, usize)>) {
        let (block, p0) = read_index::<BlockIndex>(b, p)?;
        let (nodes, p1) = read_vec_binary::<usize>(b, p0)?;
        let (edges, p2) = read_vec_binary::<usize>(b, p1)?;
        let (spqr_node_type, p3) = <SPQRNodeType as BinaryRecord>::read_binary(b, p2)?;
        let (spqr_edges, p4) = read_vec_binary::<SPQREdgeIndex>(b, p3)?;
        Some((SPQRNode { block, nodes, edges, spqr_node_type, spqr_edges }, p4))
    }

    proof fn lemma_record_round_trip(v: SPQRNodeView, b: Seq<u8>, p: int) {
        let a0 = index_bytes(v.block);
        let a1 = index_list_bytes(v.nodes);
        let a2 = index_list_bytes(v.edges);
        let a3 = SPQRNodeType::record_bytes(v.spqr_node_type);
        let a4 = index_list_bytes(v.spqr_edges);
        lemma_split(b, p, a0 + a1 + a2 + a3, a4);
        lemma_split(b, p, a0 + a1 + a2, a3);
        lemma_split(b, p, a0 + a1, a2);
        lemma_split(b, p, a0, a1);
        lemma_index_round_trip(v.block, b, p);
        lemma_index_list_round_trip(v.nodes, b, p + a0.len());
        lemma_index_list_round_trip(v.edges, b, p + a0.len() + a1.len());
        SPQRNodeType::lemma_record_round_trip(v.spqr_node_type, b, p + a0.len() + a1.len() + a2.len());
        lemma_index_list_round_trip(v.spqr_edges, b, p + a0.len() + a1.len() + a2.len() + a3.len());
    }
}

impl BinaryRecord for SPQRDecompositionNodeData {
    open spec fn record_bytes(v: NodeDataView) -> Seq<u8> {
        index_bytes(v.component_index) + index_list_bytes(v.block_indices) + index_bytes(
            v.cut_node_index,
        ) + index_list_bytes(v.spqr_node_indices) + string_bytes(v.extra_data)
    }

    open spec fn decode_record(b: Seq<u8>, p: int) -> Option<(NodeDataView, int)> {
        match decode_index::<ComponentIndex>(b, p) {
            Some((component_index, p0)) => match decode_index_list::<BlockIndex>(b, p0) {
                Some((block_indices, p1)) => match decode_index::<OptionalCutNodeIndex>(b, p1) {
                    Some((cut_node_index, p2)) => match decode_index_list::<SPQRNodeIndex>(b, p2) {
                        Some((spqr_node_indices, p3)) => match decode_string(b, p3) {
                            Some((extra_data, p4)) => Some(
                                (
                                    NodeDataView {
                                        component_index: component_index,
                                        block_indices: block_indices,
                                        cut_node_index: cut_node_index,
                                        spqr_node_indices: spqr_node_indices,
                                        extra_data: extra_data,
                                    },
                                    p4,
                                ),
                            ),
                            None => None,
                        },
                        None => None,
                    },
                    None => None,
                },
                None => None,
            },
            None => None,
        }
    }

    open spec fn writable(v: NodeDataView) -> bool {
        &&& v.block_indices.len() <= u64::MAX
        &&& v.spqr_node_indices.len() <= u64::MAX
        &&& encode_utf8(v.extra_data).len() <= u64::MAX
    }

    fn write_binary(&self, out: &mut Vec<u8>) {
        write_index(&self.component_index, out);
        write_slice_binary(&self.block_indices, out);
        write_index(&self.cut_node_index, out);
        write_slice_binary(&self.spqr_node_indices, out);
        write_str_binary(self.extra_data.as_str(), out);
        assert(out@ =~= old(out)@ + Self::record_bytes(self@));
    }

    fn read_binary(b: &Vec<u8>, p: usize) -> (r: Option<(SPQRDecompositionNodeData, usize)>) {
        let (component_index, p0) = read_index::<ComponentIndex>(b, p)?;
        let (block_indices, p1) = read_vec_binary::<BlockIndex>(b, p0)?;
        let (cut_node_index, p2) = read_index::<OptionalCutNodeIndex>(b, p1)?;
        let (spqr_node_indices, p3) = read_vec_binary::<SPQRNodeIndex>(b, p2)?;
        let (extra_data, p4) = read_string_binary(b, p3)?;
        Some(
            (
                SPQRDecompositionNodeData {
                    component_index,
                    block_indices,
                    cut_node_index,
                    spqr_node_indices,
                    extra_data,
                },
                p4,
            ),
        )
    }

    proof fn lemma_record_round_trip(v: NodeDataView, b: Seq<u8>, p: int) {
        let a0 = index_bytes(v.component_index);
        let a1 = index_list_bytes(v.block_indices);
        let a2 = index_bytes(v.cut_node_index);
        let a3 = index_list_bytes(v.spqr_node_indices);
        let a4 = string_bytes(v.extra_data);
        lemma_split(b, p, a0 + a1 + a2 + a3, a4);
        lemma_split(b, p, a0 + a1 + a2, a3);
        lemma_split(b, p, a0 + a1, a2);
        lemma_split(b, p, a0, a1);
        lemma_index_round_trip(v.component_index, b, p);
        lemma_index_list_round_trip(v.block_indices, b, p + a0.len());
        lemma_index_round_trip(v.cut_node_index, b, p + a0.len() + a1.len());
        lemma_index_list_round_trip(v.spqr_node_indices, b, p + a0.len() + a1.len() + a2.len());
        lemma_string_round_trip(v.extra_data, b, p + a0.len() + a1.len() + a2.len() + a3.len());
    }
}

impl BinaryRecord for SPQRDecompositionEdgeData {
    open spec fn record_bytes(v: EdgeDataView) -> Seq<u8> {
        index_bytes(v.component_index) + index_bytes(v.block_index) + index_bytes(v.spqr_node_index)
            + string_bytes(v.extra_data)
    }

    open spec fn decode_record(b: Seq<u8>, p: int) -> Option<(EdgeDataView, int)> {
        match decode_index::<ComponentIndex>(b, p) {
            Some((component_index, p0)) => match decode_index::<BlockIndex>(b, p0) {
                Some((block_index, p1)) => match decode_index::<SPQRNodeIndex>(b, p1) {
                    Some((spqr_node_index, p2)) => match decode_string(b, p2) {
                        Some((extra_data, p3)) => Some(
                            (
                                EdgeDataView {
                                    component_index: component_index,
                                    block_index: block_index,
                                    spqr_node_index: spqr_node_index,
                                    extra_data: extra_data,
                                },
                                p3,
                            ),
                        ),
                        None => None,
                    },
                    None => None,
                },
                None => None,
            },
            None => None,
        }
    }

    open spec fn writable(v: EdgeDataView) -> bool {
        encode_utf8(v.extra_data).len() <= u64::MAX
    }

    fn write_binary(&self, out: &mut Vec<u8>) {
        write_index(&self.component_index, out);
        write_index(&self.block_index, out);
        write_index(&self.spqr_node_index, out);
        write_str_binary(self.extra_data.as_str(), out);
        assert(out@ =~= old(out)@ + Self::record_bytes(self@));
    }

    fn read_binary(b: &Vec<u8>, p: usize) -> (r: Option<(SPQRDecompositionEdgeData, usize)>) {
        let (component_index, p0) = read_index::<ComponentIndex>(b, p)?;
        let (block_index, p1) = read_index::<BlockIndex>(b, p0)?;
        let (spqr_node_index, p2) = read_index::<SPQRNodeIndex>(b, p1)?;
        let (extra_data, p3) = read_string_binary(b, p2)?;
        Some((SPQRDecompositionEdgeData { component_index, block_index, spqr_node_index, extra_data }, p3))
    }

    proof fn lemma_record_round_trip(v: EdgeDataView, b: Seq<u8>, p: int) {
        let a0 = index_bytes(v.component_index);
        let a1 = index_bytes(v.block_index);
        let a2 = index_bytes(v.spqr_node_index);
        let a3 = string_bytes(v.extra_data);
        lemma_split(b, p, a0 + a1 + a2, a3);
        lemma_split(b, p, a0 + a1, a2);
        lemma_split(b, p, a0, a1);
        lemma_index_round_trip(v.component_index, b, p);
        lemma_index_round_trip(v.block_index, b, p + 8);
        lemma_index_round_trip(v.spqr_node_index, b, p + 16);
        lemma_string_round_trip(v.extra_data, b, p + 24);
    }
}

/// The records of an arena, one after another.
pub open spec fn arena_items<T: BinaryRecord>(s: Seq<T::V>) -> Seq<u8>
    decreases s.len(),
{
    if s.len() == 0 {
        Seq::empty()
    } else {
        arena_items::<T>(s.drop_last()) + T::record_bytes(s.last())
    }
}

/// An arena: its length, then its records.
pub open spec fn arena_bytes<T: BinaryRecord>(s: Seq<T::V>) -> Seq<u8> {
    u64_bytes(s.len() as u64) + arena_items::<T>(s)
}

/// The `n` records from `p` on, and the position after them.
pub open spec fn decode_items<T: BinaryRecord>(b: Seq<u8>, p: int, n: nat) -> Option<(Seq<T::V>, int)>
    decreases n,
{
    if n == 0 {
        Some((Seq::empty(), p))
    } else {
        match decode_items::<T>(b, p, (n - 1) as nat) {
            Some((s, q)) => match T::decode_record(b, q) {
                Some((x, q2)) => Some((s.push(x), q2)),
                None => None,
            },
            None => None,
        }
    }
}

/// The arena at `p`, and the position after it.
#[verifier::opaque]
pub open spec fn decode_arena<T: BinaryRecord>(b: Seq<u8>, p: int) -> Option<(Seq<T::V>, int)> {
    match decode_u64(b, p) {
        Some((n, q)) => decode_items::<T>(b, q, n as nat),
        None => None,
    }
}

/// Whether every record of an arena, and the arena itself, can be written.
pub open spec fn arena_writable<T: BinaryRecord>(s: Seq<T::V>) -> bool {
    s.len() <= u64::MAX && forall|i: int| 0 <= i < s.len() ==> T::writable(#[trigger] s[i])
}

proof fn lemma_items_none<T: BinaryRecord>(b: Seq<u8>, p: int, k: nat, n: nat)
    requires
        k <= n,
        decode_items::<T>(b, p, k) is None,
    ensures
        decode_items::<T>(b, p, n) is None,
    decreases n - k,
{
    if k < n {
        lemma_items_none::<T>(b, p, k, (n - 1) as nat);
    }
}

proof fn lemma_items_round_trip<T: BinaryRecord>(s: Seq<T::V>, b: Seq<u8>, p: int)
    requires
        forall|i: int| 0 <= i < s.len() ==> T::writable(#[trigger] s[i]),
        0 <= p,
        p + arena_items::<T>(s).len() <= b.len(),
        b.subrange(p, p + arena_items::<T>(s).len()) == arena_items::<T>(s),
    ensures
        decode_items::<T>(b, p, s.len()) == Some((s, p + arena_items::<T>(s).len())),
    decreases s.len(),
{
    if s.len() > 0 {
        let t = s.drop_last();
        lemma_split(b, p, arena_items::<T>(t), T::record_bytes(s.last()));
        lemma_items_round_trip::<T>(t, b, p);
        T::lemma_record_round_trip(s.last(), b, p + arena_items::<T>(t).len());
        assert(t.push(s.last()) =~= s);
    } else {
        assert(s =~= Seq::empty());
    }
}

/// An arena written out reads back as the same arena.
pub proof fn lemma_arena_round_trip<T: BinaryRecord>(s: Seq<T::V>, b: Seq<u8>, p: int)
    requires
        arena_writable::<T>(s),
        0 <= p,
        p + arena_bytes::<T>(s).len() <= b.len(),
        b.subrange(p, p + arena_bytes::<T>(s).len()) == arena_bytes::<T>(s),
    ensures
        decode_arena::<T>(b, p) == Some((s, p + arena_bytes::<T>(s).len())),
{
    reveal(decode_arena);
    lemma_split(b, p, u64_bytes(s.len() as u64), arena_items::<T>(s));
    lemma_u64_round_trip(s.len() as u64, b, p);
    lemma_items_round_trip::<T>(s, b, p + 8);
}

/// Appends an arena.
pub fn write_arena<T: BinaryRecord>(v: &Vec<T>, out: &mut Vec<u8>)
    ensures
        final(out)@ == old(out)@ + arena_bytes::<T>(v@.map_values(|x: T| x@)),
        arena_writable::<T>(v@.map_values(|x: T| x@)),
{
    let ghost s = v@.map_values(|x: T| x@);
    write_u64(out, v.len() as u64);
    let ghost start = old(out)@ + u64_bytes(v@.len() as u64);
    let mut i: usize = 0;
    while i < v.len()
        invariant
            0 <= i <= v@.len(),
            s == v@.map_values(|x: T| x@),
            out@ == start + arena_items::<T>(s.subrange(0, i as int)),
            forall|j: int| 0 <= j < i ==> T::writable(#[trigger] s[j]),
        decreases v@.len() - i,
    {
        v[i].write_binary(out);
        proof {
            let t = s.subrange(0, i + 1);
            assert(t.drop_last() =~= s.subrange(0, i as int));
            assert(t.last() == v@[i as int]@);
        }
        i = i + 1;
    }
    assert(s.subrange(0, s.len() as int) =~= s);
}

/// Reads the arena at `p`.
pub fn read_arena<T: BinaryRecord>(b: &Vec<u8>, p: usize) -> (r: Option<(Vec<T>, usize)>)
    ensures
        match r {
            Some((v, q)) => decode_arena::<T>(b@, p as int) == Some((v@.map_values(|x: T| x@), q as int)),
            None => decode_arena::<T>(b@, p as int) is None,
        },
{
    reveal(decode_arena);
    let (n, q) = read_u64(b, p)?;
    let mut v: Vec<T> = Vec::new();
    let mut cur: usize = q;
    let mut i: u64 = 0;
    proof {
        assert(v@.map_values(|x: T| x@) =~= Seq::<T::V>::empty());
    }
    while i < n
        invariant
            0 <= i <= n,
            decode_u64(b@, p as int) == Some((n, q as int)),
            decode_items::<T>(b@, q as int, i as nat) == Some((v@.map_values(|x: T| x@), cur as int)),
        decreases n - i,
    {
        match T::read_binary(b, cur) {
            Some((x, next)) => {
                proof {
                    assert(v@.push(x).map_values(|y: T| y@) =~= v@.map_values(|y: T| y@).push(x@));
                }
                v.push(x);
                cur = next;
            },
            None => {
                proof {
                    reveal(decode_arena);
                    lemma_items_none::<T>(b@, q as int, (i + 1) as nat, n as nat);
                }
                return None;
            },
        }
        i = i + 1;
    }
    proof {
        reveal(decode_arena);
    }
    Some((v, cur))
}

/// The bytes of a whole decomposition: its seven arenas in order.
pub open spec fn decomposition_bytes(d: DecompositionView) -> Seq<u8> {
    arena_bytes::<Component>(d.components) + arena_bytes::<Block>(d.blocks) + arena_bytes::<CutNode>(
        d.cut_nodes,
    ) + arena_bytes::<SPQRNode>(d.spqr_nodes) + arena_bytes::<SPQREdge>(d.spqr_edges)
        + arena_bytes::<SPQRDecompositionNodeData>(d.node_data) + arena_bytes::<
        SPQRDecompositionEdgeData,
    >(d.edge_data)
}

/// The decomposition that bytes start with.
pub open spec fn decode_decomposition(b: Seq<u8>) -> Option<DecompositionView> {
    match decode_arena::<Component>(b, 0) {
        Some((components, p0)) => match decode_arena::<Block>(b, p0) {
            Some((blocks, p1)) => match decode_arena::<CutNode>(b, p1) {
                Some((cut_nodes, p2)) => match decode_arena::<SPQRNode>(b, p2) {
                    Some((spqr_nodes, p3)) => match decode_arena::<SPQREdge>(b, p3) {
                        Some((spqr_edges, p4)) => match decode_arena::<SPQRDecompositionNodeData>(b, p4) {
                            Some((node_data, p5)) => match decode_arena::<SPQRDecompositionEdgeData>(b, p5) {
                                Some((edge_data, _)) => Some(
                                    DecompositionView {
                                        components: components,
                                        blocks: blocks,
                                        cut_nodes: cut_nodes,
                                        spqr_nodes: spqr_nodes,
                                        spqr_edges: spqr_edges,
                                        node_data: node_data,
                                        edge_data: edge_data,
                                    },
                                ),
                                None => None,
                            },
                            None => None,
                        },
                        None => None,
                    },
                    None => None,
                },
                None => None,
            },
            None => None,
        },
        None => None,
    }
}

/// Whether every arena of a decomposition can be written.
pub open spec fn decomposition_writable(d: DecompositionView) -> bool {
    &&& arena_writable::<Component>(d.components)
    &&& arena_writable::<Block>(d.blocks)
    &&& arena_writable::<CutNode>(d.cut_nodes)
    &&& arena_writable::<SPQRNode>(d.spqr_nodes)
    &&& arena_writable::<SPQREdge>(d.spqr_edges)
    &&& arena_writable::<SPQRDecompositionNodeData>(d.node_data)
    &&& arena_writable::<SPQRDecompositionEdgeData>(d.edge_data)
}

/// Reading back the bytes of a decomposition gives the same decomposition, field for field,
/// with every list in the same order and every string with the same characters.
#[verifier::rlimit(50)]
pub proof fn lemma_binary_round_trip(d: DecompositionView)
    requires
        decomposition_writable(d),
    ensures
        decode_decomposition(decomposition_bytes(d)) == Some(d),
{
    let b = decomposition_bytes(d);
    let a0 = arena_bytes::<Component>(d.components);
    let a1 = arena_bytes::<Block>(d.blocks);
    let a2 = arena_bytes::<CutNode>(d.cut_nodes);
    let a3 = arena_bytes::<SPQRNode>(d.spqr_nodes);
    let a4 = arena_bytes::<SPQREdge>(d.spqr_edges);
    let a5 = arena_bytes::<SPQRDecompositionNodeData>(d.node_data);
    let a6 = arena_bytes::<SPQRDecompositionEdgeData>(d.edge_data);
    assert(b.subrange(0, b.len() as int) =~= b);
    lemma_split(b, 0, a0 + a1 + a2 + a3 + a4 + a5, a6);
    lemma_split(b, 0, a0 + a1 + a2 + a3 + a4, a5);
    lemma_split(b, 0, a0 + a1 + a2 + a3, a4);
    lemma_split(b, 0, a0 + a1 + a2, a3);
    lemma_split(b, 0, a0 + a1, a2);
    lemma_split(b, 0, a0, a1);
    let p1 = a0.len() as int;
    let p2 = p1 + a1.len();
    let p3 = p2 + a2.len();
    let p4 = p3 + a3.len();
    let p5 = p4 + a4.len();
    let p6 = p5 + a5.len();
    lemma_arena_round_trip::<Component>(d.components, b, 0);
    lemma_arena_round_trip::<Block>(d.blocks, b, p1);
    lemma_arena_round_trip::<CutNode>(d.cut_nodes, b, p2);
    lemma_arena_round_trip::<SPQRNode>(d.spqr_nodes, b, p3);
    lemma_arena_round_trip::<SPQREdge>(d.spqr_edges, b, p4);
    lemma_arena_round_trip::<SPQRDecompositionNodeData>(d.node_data, b, p5);
    lemma_arena_round_trip::<SPQRDecompositionEdgeData>(d.edge_data, b, p6);
}

} // verus!
