//! The canonical protobuf wire encoding of the descriptors.
//!
//! Fields equal to their default (zero, empty) are left out; a present
//! sub-message is always written, with its length in front.
use vstd::prelude::*;
use vstd::utf8::{encode_utf8, valid_utf8};

verus! {

/// Base-128 little-endian varint of `v`.
pub open spec fn varint(v: nat) -> Seq<u8>
    decreases v,
{
    if v < 128 {
        seq![v as u8]
    } else {
        seq![((v % 128) + 128) as u8] + varint(v / 128)
    }
}

/// Field key: the field number and the wire type.
pub open spec fn field_key(tag: nat, wire_type: nat) -> Seq<u8> {
    varint(tag * 8 + wire_type)
}

/// A scalar (varint) field; left out when zero.
pub open spec fn uint_field(tag: nat, v: nat) -> Seq<u8> {
    if v == 0 {
        Seq::empty()
    } else {
        field_key(tag, 0) + varint(v)
    }
}

/// A length-delimited field holding `b`, always written.
pub open spec fn delimited(tag: nat, b: Seq<u8>) -> Seq<u8> {
    field_key(tag, 2) + varint(b.len()) + b
}

/// A `bytes` or `string` field; left out when empty.
pub open spec fn bytes_field(tag: nat, b: Seq<u8>) -> Seq<u8> {
    if b.len() == 0 {
        Seq::empty()
    } else {
        delimited(tag, b)
    }
}

/// Relies on prost::encoding::encode_varint: appends the LEB128 encoding of `v`.
#[verifier::external_body]
fn put_varint(buf: &mut Vec<u8>, v: u64)
    ensures
        final(buf)@ == old(buf)@ + varint(v as nat),
{
    prost::encoding::encode_varint(v, buf)
}

/// Appends a scalar field.
pub fn put_uint_field(buf: &mut Vec<u8>, tag: u32, v: u64)
    requires
        1 <= tag < 16,
    ensures
        final(buf)@ == old(buf)@ + uint_field(tag as nat, v as nat),
{
    if v != 0 {
        put_varint(buf, (tag as u64) * 8);
        put_varint(buf, v);
        assert(final(buf)@ =~= old(buf)@ + uint_field(tag as nat, v as nat));
    } else {
        assert(buf@ =~= old(buf)@ + uint_field(tag as nat, v as nat));
    }
}

/// Appends a length-delimited field holding `b`, even when `b` is empty.
pub fn put_delimited(buf: &mut Vec<u8>, tag: u32, b: &[u8])
    requires
        1 <= tag < 16,
    ensures
        final(buf)@ == old(buf)@ + delimited(tag as nat, b@),
{
    put_varint(buf, (tag as u64) * 8 + 2);
    put_varint(buf, b.len() as u64);
    buf.extend_from_slice(b);
    assert(final(buf)@ =~= old(buf)@ + delimited(tag as nat, b@));
}

/// Appends a `bytes` or `string` field.
pub fn put_bytes_field(buf: &mut Vec<u8>, tag: u32, b: &[u8])
    requires
        1 <= tag < 16,
    ensures
        final(buf)@ == old(buf)@ + bytes_field(tag as nat, b@),
{
    if b.len() != 0 {
        put_delimited(buf, tag, b);
    } else {
        assert(buf@ =~= old(buf)@ + bytes_field(tag as nat, b@));
    }
}

/// `s` holds `t` from `pos` on.
pub open spec fn starts_with(s: Seq<u8>, pos: int, t: Seq<u8>) -> bool {
    0 <= pos && pos + t.len() <= s.len() && s.subrange(pos, pos + t.len()) == t
}

proof fn lemma_varint_shape(v: nat)
    ensures
        varint(v).len() >= 1,
        v < 128 ==> varint(v) == seq![v as u8],
        v >= 128 ==> varint(v)[0] >= 128 && varint(v)[0] as nat == v % 128 + 128 && varint(v) == seq![
            varint(v)[0],
        ] + varint(v / 128),
        v >= 128 ==> v / 128 >= 1 && v / 128 < v,
{
    if v >= 128 {
        assert(varint(v) == seq![((v % 128) + 128) as u8] + varint(v / 128));
    }
}

/// The first byte of a field that is written out is its key.
pub proof fn lemma_field_first_byte(tag: nat, v: nat, c: Seq<u8>)
    requires
        1 <= tag < 16,
    ensures
        v != 0 ==> uint_field(tag, v).len() > 0 && uint_field(tag, v)[0] == (tag * 8) as u8,
        c.len() != 0 ==> bytes_field(tag, c).len() > 0 && bytes_field(tag, c)[0] == (tag * 8 + 2) as u8,
        delimited(tag, c).len() > 0 && delimited(tag, c)[0] == (tag * 8 + 2) as u8,
{
    lemma_varint_shape(tag * 8);
    lemma_varint_shape(tag * 8 + 2);
}

/// Read a varint at `pos`, in its shortest form, that fits 64 bits. The
/// result is the value and the position after it; every such varint is read.
pub fn read_varint(b: &[u8], pos: usize) -> (r: Option<(u64, usize)>)
    ensures
        r is Some ==> pos < r->Some_0.1 <= b@.len() && b@.subrange(pos as int, r->Some_0.1 as int)
            == varint(r->Some_0.0 as nat),
        forall|v: u64| #[trigger] starts_with(b@, pos as int, varint(v as nat)) ==> r == Some(
            (v, (pos + varint(v as nat).len()) as usize),
        ),
    decreases b@.len() - pos,
{
    if pos >= b.len() {
        proof {
            assert forall|v: u64| !#[trigger] starts_with(b@, pos as int, varint(v as nat)) by {
                lemma_varint_shape(v as nat);
            }
        }
        return None;
    }
    let x = b[pos];
    if x < 128 {
        assert(b@.subrange(pos as int, pos + 1) =~= varint(x as nat));
        proof {
            assert forall|v: u64| #[trigger] starts_with(b@, pos as int, varint(v as nat)) implies v == x as u64
                && varint(v as nat).len() == 1 by {
                lemma_varint_shape(v as nat);
                assert(b@.subrange(pos as int, pos + varint(v as nat).len())[0] == b@[pos as int]);
            }
        }
        return Some((x as u64, pos + 1));
    }
    let rec = read_varint(b, pos + 1);
    proof {
        assert forall|v: u64| #[trigger] starts_with(b@, pos as int, varint(v as nat)) implies v >= 128
            && starts_with(b@, pos + 1, varint((v / 128) as nat)) && varint(v as nat).len() == 1 + varint(
            (v / 128) as nat,
        ).len() && x as nat == v % 128 + 128 by {
            lemma_varint_shape(v as nat);
            let n = varint(v as nat).len();
            assert(b@.subrange(pos as int, pos + n)[0] == b@[pos as int]);
            assert(b@.subrange(pos + 1, pos + n) =~= b@.subrange(pos as int, pos + n).skip(1));
            assert(varint(v as nat).skip(1) =~= varint((v / 128) as nat));
        }
    }
    match rec {
        None => {
            proof {
                assert forall|v: u64| !#[trigger] starts_with(b@, pos as int, varint(v as nat)) by {
                    if starts_with(b@, pos as int, varint(v as nat)) {
                        let u = (v / 128) as u64;
                        assert(starts_with(b@, pos + 1, varint(u as nat)));
                    }
                }
            }
            None
        },
        Some((v, end)) => {
            proof {
                assert forall|t: u64| #[trigger] starts_with(b@, pos as int, varint(t as nat)) implies t / 128 == v
                    && end == pos + varint(t as nat).len() by {
                    let u = (t / 128) as u64;
                    assert(starts_with(b@, pos + 1, varint(u as nat)));
                }
            }
            if v == 0 || v > 0x1ffffffffffffff {
                proof {
                    assert forall|t: u64| !#[trigger] starts_with(b@, pos as int, varint(t as nat)) by {
                        if starts_with(b@, pos as int, varint(t as nat)) {
                            assert(t / 128 <= 0x1ffffffffffffff);
                        }
                    }
                }
                return None;
            }
            let w: u64 = (x as u64 - 128) + v * 128;
            proof {
                let wn = w as nat;
                assert(wn >= 128);
                assert(wn % 128 == (x as nat) - 128 && wn / 128 == v as nat) by (nonlinear_arith)
                    requires
                        wn == ((x as nat) - 128) + (v as nat) * 128,
                        128 <= x < 256,
                ;
                assert(b@.subrange(pos as int, end as int) =~= seq![x] + b@.subrange(pos + 1, end as int));
                assert(varint(wn) == seq![((wn % 128) + 128) as u8] + varint(wn / 128));
                assert forall|t: u64| #[trigger] starts_with(b@, pos as int, varint(t as nat)) implies t == w by {
                    assert(t as nat == (t as nat % 128) + (t as nat / 128) * 128) by (nonlinear_arith);
                }
            }
            Some((w, end))
        },
    }
}

/// Read an optional scalar field `tag` at `pos`: its value (zero when
/// absent) and the position after it. A zero written out is refused.
pub fn read_uint_field(b: &[u8], pos: usize, tag: u8) -> (r: Option<(u64, usize)>)
    requires
        1 <= tag < 16,
        pos <= b@.len(),
    ensures
        r is Some ==> pos <= r->Some_0.1 <= b@.len() && b@.subrange(pos as int, r->Some_0.1 as int)
            == uint_field(tag as nat, r->Some_0.0 as nat),
        forall|v: u64|
            #[trigger] starts_with(b@, pos as int, uint_field(tag as nat, v as nat)) && (v != 0 || pos == b@.len()
                || b@[pos as int] != tag * 8) ==> r == Some((v, (pos + uint_field(tag as nat, v as nat).len()) as usize)),
{
    proof {
        lemma_varint_shape((tag * 8) as nat);
        assert forall|v: u64| #[trigger] starts_with(b@, pos as int, uint_field(tag as nat, v as nat)) && v != 0
            implies b@[pos as int] == tag * 8 && starts_with(b@, pos + 1, varint(v as nat))
            && uint_field(tag as nat, v as nat).len() == 1 + varint(v as nat).len() by {
            let u = uint_field(tag as nat, v as nat);
            assert(u == seq![(tag * 8) as u8] + varint(v as nat));
            assert(b@.subrange(pos as int, pos + u.len())[0] == b@[pos as int]);
            assert(b@.subrange(pos + 1, pos + u.len()) =~= b@.subrange(pos as int, pos + u.len()).skip(1));
            assert(u.skip(1) =~= varint(v as nat));
        }
    }
    if pos < b.len() && b[pos] == tag * 8 {
        match read_varint(b, pos + 1) {
            Some((v, end)) => {
                if v == 0 {
                    return None;
                }
                proof {
                    assert(field_key(tag as nat, 0) =~= seq![b@[pos as int]]);
                    assert(b@.subrange(pos as int, end as int) =~= seq![b@[pos as int]] + b@.subrange(pos + 1, end as int));
                }
                Some((v, end))
            },
            None => None,
        }
    } else {
        assert(b@.subrange(pos as int, pos as int) =~= uint_field(tag as nat, 0));
        Some((0, pos))
    }
}

/// Read a length-delimited field `tag` at `pos`, if one is there: the
/// bounds of its contents and the position after it.
pub fn read_delimited(b: &[u8], pos: usize, tag: u8) -> (r: Option<(usize, usize)>)
    requires
        1 <= tag < 16,
        pos <= b@.len(),
    ensures
        r is Some ==> pos < r->Some_0.0 <= r->Some_0.1 <= b@.len() && b@.subrange(pos as int, r->Some_0.1 as int)
            == delimited(tag as nat, b@.subrange(r->Some_0.0 as int, r->Some_0.1 as int)),
        forall|c: Seq<u8>| #[trigger] starts_with(b@, pos as int, delimited(tag as nat, c)) ==> r is Some
            && r->Some_0.1 == pos + delimited(tag as nat, c).len() && b@.subrange(r->Some_0.0 as int, r->Some_0.1 as int) == c,
{
    let blen = b.len();
    proof {
        lemma_varint_shape((tag * 8 + 2) as nat);
        assert forall|c: Seq<u8>| #[trigger] starts_with(b@, pos as int, delimited(tag as nat, c))
            implies c.len() <= blen && b@[pos as int] == tag * 8 + 2 && starts_with(b@, pos + 1, varint(c.len() as u64 as nat))
            && starts_with(b@, pos + 1 + varint(c.len()).len(), c) by {
            let u = delimited(tag as nat, c);
            assert(u == seq![(tag * 8 + 2) as u8] + varint(c.len()) + c);
            let n = u.len() as int;
            assert(b@.subrange(pos as int, pos + n)[0] == b@[pos as int]);
            let k = varint(c.len()).len() as int;
            assert(b@.subrange(pos + 1, pos + 1 + k) =~= b@.subrange(pos as int, pos + n).subrange(1, 1 + k));
            assert(u.subrange(1, 1 + k) =~= varint(c.len()));
            assert(b@.subrange(pos + 1 + k, pos + n) =~= b@.subrange(pos as int, pos + n).subrange(1 + k, n));
            assert(u.subrange(1 + k, n) =~= c);
        }
    }
    if pos < b.len() && b[pos] == tag * 8 + 2 {
        match read_varint(b, pos + 1) {
            Some((n, start)) => {
                if n > (b.len() - start) as u64 {
                    return None;
                }
                let end = start + n as usize;
                proof {
                    assert(field_key(tag as nat, 2) =~= seq![b@[pos as int]]);
                    assert(b@.subrange(pos as int, end as int) =~= seq![b@[pos as int]] + b@.subrange(pos + 1, start as int)
                        + b@.subrange(start as int, end as int));
                }
                Some((start, end))
            },
            None => None,
        }
    } else {
        None
    }
}

/// Read an optional `bytes` or `string` field `tag` at `pos`: the bounds of
/// its contents (empty when absent) and the position after it. An empty
/// value written out is refused.
pub fn read_bytes_field(b: &[u8], pos: usize, tag: u8) -> (r: Option<(usize, usize, usize)>)
    requires
        1 <= tag < 16,
        pos <= b@.len(),
    ensures
        r is Some ==> r->Some_0.0 <= r->Some_0.1 <= b@.len() && pos <= r->Some_0.2 <= b@.len()
            && b@.subrange(pos as int, r->Some_0.2 as int) == bytes_field(
            tag as nat,
            b@.subrange(r->Some_0.0 as int, r->Some_0.1 as int),
        ),
        forall|c: Seq<u8>|
            #[trigger] starts_with(b@, pos as int, bytes_field(tag as nat, c)) && (c.len() != 0 || pos == b@.len()
                || b@[pos as int] != tag * 8 + 2) ==> r is Some && r->Some_0.2 == pos + bytes_field(tag as nat, c).len()
                && b@.subrange(r->Some_0.0 as int, r->Some_0.1 as int) == c,
{
    proof {
        lemma_varint_shape((tag * 8 + 2) as nat);
        assert forall|c: Seq<u8>| #[trigger] starts_with(b@, pos as int, bytes_field(tag as nat, c)) && c.len() != 0
            implies b@[pos as int] == tag * 8 + 2 && starts_with(b@, pos as int, delimited(tag as nat, c)) by {
            let u = delimited(tag as nat, c);
            assert(u == seq![(tag * 8 + 2) as u8] + varint(c.len()) + c);
            assert(b@.subrange(pos as int, pos + u.len())[0] == b@[pos as int]);
        }
    }
    if pos < b.len() && b[pos] == tag * 8 + 2 {
        match read_delimited(b, pos, tag) {
            Some((start, end)) => {
                if start == end {
                    return None;
                }
                Some((start, end, end))
            },
            None => None,
        }
    } else {
        assert(b@.subrange(pos as int, pos as int) =~= bytes_field(tag as nat, b@.subrange(pos as int, pos as int)));
        Some((pos, pos, pos))
    }
}

/// Relies on String::from_utf8: the bytes as a string exactly when they are
/// valid UTF-8, keeping them as they are.
#[verifier::external_body]
pub(crate) fn string_from_utf8(v: Vec<u8>) -> (r: Option<String>)
    ensures
        r is Some <==> valid_utf8(v@),
        r is Some ==> encode_utf8(r->Some_0@) == v@,
{
    String::from_utf8(v).ok()
}

} // verus!
