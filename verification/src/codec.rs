//! Wire encoding of the library's messages.
//!
//! Multi-byte integers are written big-endian, and variable-length byte
//! strings are length-prefixed, in the style of the TLS presentation
//! language. [`encode_report`] and [`decode_report`] are mutual inverses:
//! decoding accepts exactly the encodings of well-formed reports.

use vstd::prelude::*;

verus! {

// ---------------------------------------------------------------------------
// Big-endian integer primitives
// ---------------------------------------------------------------------------

/// Big-endian bytes of a 16-bit integer.
pub open spec fn enc_u16(x: u16) -> Seq<u8> {
    seq![((x >> 8) & 0xff) as u8, (x & 0xff) as u8]
}

/// The 16-bit integer read big-endian from two bytes.
pub open spec fn be16(b0: u8, b1: u8) -> u16 {
    (((b0 as u16) << 8) | (b1 as u16)) as u16
}

pub proof fn lemma_u16_round_trip(x: u16)
    ensures
        be16(enc_u16(x)[0], enc_u16(x)[1]) == x,
{
    let b0 = ((x >> 8) & 0xff) as u8;
    let b1 = (x & 0xff) as u8;
    assert((((b0 as u16) << 8) | (b1 as u16)) == x) by (bit_vector)
        requires
            b0 == ((x >> 8) & 0xff) as u8,
            b1 == (x & 0xff) as u8,
    ;
}

/// Big-endian bytes of a 32-bit integer.
pub open spec fn enc_u32(x: u32) -> Seq<u8> {
    seq![
        ((x >> 24) & 0xff) as u8,
        ((x >> 16) & 0xff) as u8,
        ((x >> 8) & 0xff) as u8,
        (x & 0xff) as u8,
    ]
}

/// The 32-bit integer read big-endian from four bytes.
pub open spec fn be32(b0: u8, b1: u8, b2: u8, b3: u8) -> u32 {
    (((b0 as u32) << 24) | ((b1 as u32) << 16) | ((b2 as u32) << 8) | (b3 as u32)) as u32
}

pub proof fn lemma_u32_round_trip(x: u32)
    ensures
        be32(enc_u32(x)[0], enc_u32(x)[1], enc_u32(x)[2], enc_u32(x)[3]) == x,
{
    let b0 = ((x >> 24) & 0xff) as u8;
    let b1 = ((x >> 16) & 0xff) as u8;
    let b2 = ((x >> 8) & 0xff) as u8;
    let b3 = (x & 0xff) as u8;
    assert((((b0 as u32) << 24) | ((b1 as u32) << 16) | ((b2 as u32) << 8) | (b3 as u32)) == x)
        by (bit_vector)
        requires
            b0 == ((x >> 24) & 0xff) as u8,
            b1 == ((x >> 16) & 0xff) as u8,
            b2 == ((x >> 8) & 0xff) as u8,
            b3 == (x & 0xff) as u8,
    ;
}

pub proof fn lemma_u32_bytes_inverse(b0: u8, b1: u8, b2: u8, b3: u8)
    ensures
        enc_u32(be32(b0, b1, b2, b3)) =~= seq![b0, b1, b2, b3],
{
    let x = be32(b0, b1, b2, b3);
    assert(((x >> 24) & 0xff) as u8 == b0 && ((x >> 16) & 0xff) as u8 == b1
        && ((x >> 8) & 0xff) as u8 == b2 && (x & 0xff) as u8 == b3) by (bit_vector)
        requires
            x == (((b0 as u32) << 24) | ((b1 as u32) << 16) | ((b2 as u32) << 8) | (b3 as u32))
                as u32,
    ;
}

/// Big-endian bytes of a 64-bit integer.
pub open spec fn enc_u64(x: u64) -> Seq<u8> {
    seq![
        ((x >> 56) & 0xff) as u8,
        ((x >> 48) & 0xff) as u8,
        ((x >> 40) & 0xff) as u8,
        ((x >> 32) & 0xff) as u8,
        ((x >> 24) & 0xff) as u8,
        ((x >> 16) & 0xff) as u8,
        ((x >> 8) & 0xff) as u8,
        (x & 0xff) as u8,
    ]
}

/// The 64-bit integer read big-endian from eight bytes.
pub open spec fn be64(s: Seq<u8>) -> u64
    recommends
        s.len() == 8,
{
    (((s[0] as u64) << 56) | ((s[1] as u64) << 48) | ((s[2] as u64) << 40) | ((s[3] as u64) << 32)
        | ((s[4] as u64) << 24) | ((s[5] as u64) << 16) | ((s[6] as u64) << 8) | (s[7] as u64))
        as u64
}

pub proof fn lemma_u64_round_trip(x: u64)
    ensures
        be64(enc_u64(x)) == x,
{
    let b0 = ((x >> 56) & 0xff) as u8;
    let b1 = ((x >> 48) & 0xff) as u8;
    let b2 = ((x >> 40) & 0xff) as u8;
    let b3 = ((x >> 32) & 0xff) as u8;
    let b4 = ((x >> 24) & 0xff) as u8;
    let b5 = ((x >> 16) & 0xff) as u8;
    let b6 = ((x >> 8) & 0xff) as u8;
    let b7 = (x & 0xff) as u8;
    assert((((b0 as u64) << 56) | ((b1 as u64) << 48) | ((b2 as u64) << 40) | ((b3 as u64) << 32)
        | ((b4 as u64) << 24) | ((b5 as u64) << 16) | ((b6 as u64) << 8) | (b7 as u64)) == x)
        by (bit_vector)
        requires
            b0 == ((x >> 56) & 0xff) as u8,
            b1 == ((x >> 48) & 0xff) as u8,
            b2 == ((x >> 40) & 0xff) as u8,
            b3 == ((x >> 32) & 0xff) as u8,
            b4 == ((x >> 24) & 0xff) as u8,
            b5 == ((x >> 16) & 0xff) as u8,
            b6 == ((x >> 8) & 0xff) as u8,
            b7 == (x & 0xff) as u8,
    ;
}

pub proof fn lemma_u64_bytes_inverse(s: Seq<u8>)
    requires
        s.len() == 8,
    ensures
        enc_u64(be64(s)) =~= s,
{
    let b0 = s[0];
    let b1 = s[1];
    let b2 = s[2];
    let b3 = s[3];
    let b4 = s[4];
    let b5 = s[5];
    let b6 = s[6];
    let b7 = s[7];
    let x = be64(s);
    assert(((x >> 56) & 0xff) as u8 == b0 && ((x >> 48) & 0xff) as u8 == b1
        && ((x >> 40) & 0xff) as u8 == b2 && ((x >> 32) & 0xff) as u8 == b3
        && ((x >> 24) & 0xff) as u8 == b4 && ((x >> 16) & 0xff) as u8 == b5
        && ((x >> 8) & 0xff) as u8 == b6 && (x & 0xff) as u8 == b7) by (bit_vector)
        requires
            x == (((b0 as u64) << 56) | ((b1 as u64) << 48) | ((b2 as u64) << 40)
                | ((b3 as u64) << 32) | ((b4 as u64) << 24) | ((b5 as u64) << 16)
                | ((b6 as u64) << 8) | (b7 as u64)) as u64,
    ;
}

/// Appends the big-endian bytes of `x` to `out`.
pub fn push_u64_be(out: &mut Vec<u8>, x: u64)
    ensures
        final(out)@ == old(out)@ + enc_u64(x),
{
    proof {
        assert((x >> 56) & 0xff < 256 && (x >> 48) & 0xff < 256 && (x >> 40) & 0xff < 256
            && (x >> 32) & 0xff < 256 && (x >> 24) & 0xff < 256 && (x >> 16) & 0xff < 256
            && (x >> 8) & 0xff < 256 && x & 0xff < 256) by (bit_vector);
    }
    out.push(((x >> 56) & 0xff) as u8);
    out.push(((x >> 48) & 0xff) as u8);
    out.push(((x >> 40) & 0xff) as u8);
    out.push(((x >> 32) & 0xff) as u8);
    out.push(((x >> 24) & 0xff) as u8);
    out.push(((x >> 16) & 0xff) as u8);
    out.push(((x >> 8) & 0xff) as u8);
    out.push((x & 0xff) as u8);
    proof {
        assert(out@ =~= old(out)@ + enc_u64(x));
    }
}

/// Appends the big-endian bytes of `x` to `out`.
pub fn push_u32_be(out: &mut Vec<u8>, x: u32)
    ensures
        final(out)@ == old(out)@ + enc_u32(x),
{
    proof {
        assert((x >> 24) & 0xff < 256 && (x >> 16) & 0xff < 256 && (x >> 8) & 0xff < 256
            && x & 0xff < 256) by (bit_vector);
    }
    out.push(((x >> 24) & 0xff) as u8);
    out.push(((x >> 16) & 0xff) as u8);
    out.push(((x >> 8) & 0xff) as u8);
    out.push((x & 0xff) as u8);
    proof {
        assert(out@ =~= old(out)@ + enc_u32(x));
    }
}

/// Appends the big-endian bytes of `x` to `out`.
pub fn push_u16_be(out: &mut Vec<u8>, x: u16)
    ensures
        final(out)@ == old(out)@ + enc_u16(x),
{
    proof {
        assert((x >> 8) & 0xff < 256 && x & 0xff < 256) by (bit_vector);
    }
    out.push(((x >> 8) & 0xff) as u8);
    out.push((x & 0xff) as u8);
    proof {
        assert(out@ =~= old(out)@ + enc_u16(x));
    }
}

// ---------------------------------------------------------------------------
// Output shares
// ---------------------------------------------------------------------------

/// The plaintext sealed to the Collector: the length-prefixed encoded sum
/// followed by the big-endian contribution count.
pub open spec fn enc_output_share(sum: Seq<u8>, contributions: u64) -> Seq<u8> {
    enc_u32(sum.len() as u32) + sum + enc_u64(contributions)
}

/// Encodes an output share for sealing.
pub fn encode_output_share(share: &crate::messages::OutputShare) -> (out: Vec<u8>)
    requires
        share.sum@.len() <= u32::MAX,
    ensures
        out@ == enc_output_share(share.sum@, share.contributions),
{
    let mut out: Vec<u8> = Vec::new();
    push_u32_be(&mut out, share.sum.len() as u32);
    let n = share.sum.len();
    let mut i: usize = 0;
    while i < n
        invariant
            i <= n,
            n == share.sum@.len(),
            out@ =~= enc_u32(share.sum@.len() as u32) + share.sum@.take(i as int),
        decreases n - i,
    {
        out.push(share.sum[i]);
        proof {
            assert(out@ =~= enc_u32(share.sum@.len() as u32) + share.sum@.take(i + 1));
        }
        i = i + 1;
    }
    push_u64_be(&mut out, share.contributions);
    proof {
        assert(share.sum@.take(n as int) =~= share.sum@);
        assert(out@ =~= enc_output_share(share.sum@, share.contributions));
    }
    out
}

/// Decodes an output share. Succeeds exactly on the encodings that
/// [`encode_output_share`] produces.
pub fn decode_output_share(bytes: &Vec<u8>) -> (r: Option<crate::messages::OutputShare>)
    ensures
        match r {
            Some(share) => {
                &&& share.sum@.len() <= u32::MAX
                &&& bytes@ == enc_output_share(share.sum@, share.contributions)
            },
            None => forall|sum: Seq<u8>, c: u64|
                sum.len() <= u32::MAX ==> bytes@ != enc_output_share(sum, c),
        },
{
    let total = bytes.len();
    if total < 12 {
        proof {
            assert forall|sum: Seq<u8>, c: u64|
                sum.len() <= u32::MAX implies bytes@ != enc_output_share(sum, c) by {
                assert(enc_output_share(sum, c).len() == 12 + sum.len());
            }
        }
        return None;
    }
    let len = read_u32_be(bytes, 0);
    if (total - 12) as u64 != len as u64 {
        proof {
            assert forall|sum: Seq<u8>, c: u64|
                sum.len() <= u32::MAX implies bytes@ != enc_output_share(sum, c) by {
                if bytes@ == enc_output_share(sum, c) {
                    assert(enc_output_share(sum, c).len() == 12 + sum.len());
                    let e = enc_u32(sum.len() as u32);
                    assert(bytes@[0] == e[0] && bytes@[1] == e[1] && bytes@[2] == e[2]
                        && bytes@[3] == e[3]);
                    lemma_u32_round_trip(sum.len() as u32);
                }
            }
        }
        return None;
    }
    let mut sum: Vec<u8> = Vec::new();
    let mut i: usize = 4;
    let end = total - 8;
    while i < end
        invariant
            4 <= i <= end,
            end == bytes@.len() - 8,
            bytes@.len() >= 12,
            sum@ =~= bytes@.subrange(4, i as int),
        decreases end - i,
    {
        sum.push(bytes[i]);
        proof {
            assert(sum@ =~= bytes@.subrange(4, i + 1));
        }
        i = i + 1;
    }
    let contributions = read_u64_be(bytes, end);
    let share = crate::messages::OutputShare { sum, contributions };
    proof {
        let e = enc_output_share(share.sum@, share.contributions);
        lemma_u32_round_trip(len);
        lemma_u64_bytes_inverse(bytes@.subrange(end as int, end + 8));
        assert(bytes@[0] == be32(bytes@[0], bytes@[1], bytes@[2], bytes@[3]) == len ==> true);
        assert(enc_u32(share.sum@.len() as u32) =~= seq![bytes@[0], bytes@[1], bytes@[2], bytes@[3]])
            by {
            assert(share.sum@.len() as u32 == len);
            lemma_u32_bytes_inverse(bytes@[0], bytes@[1], bytes@[2], bytes@[3]);
        }
        assert(enc_u64(share.contributions) =~= bytes@.subrange(end as int, end + 8));
        assert(bytes@ =~= e);
    }
    Some(share)
}

/// Reads the 64-bit big-endian integer at offset `i`.
pub fn read_u64_be(bytes: &Vec<u8>, i: usize) -> (x: u64)
    requires
        i + 8 <= bytes@.len(),
    ensures
        x == be64(bytes@.subrange(i as int, i + 8)),
{
    let _n: usize = bytes.len();
    let x = (((bytes[i] as u64) << 56) | ((bytes[i + 1] as u64) << 48)
        | ((bytes[i + 2] as u64) << 40) | ((bytes[i + 3] as u64) << 32)
        | ((bytes[i + 4] as u64) << 24) | ((bytes[i + 5] as u64) << 16)
        | ((bytes[i + 6] as u64) << 8) | (bytes[i + 7] as u64)) as u64;
    proof {
        let s = bytes@.subrange(i as int, i + 8);
        assert(s[0] == bytes@[i as int] && s[1] == bytes@[i + 1] && s[2] == bytes@[i + 2]
            && s[3] == bytes@[i + 3] && s[4] == bytes@[i + 4] && s[5] == bytes@[i + 5]
            && s[6] == bytes@[i + 6] && s[7] == bytes@[i + 7]);
    }
    x
}

/// Reads the 32-bit big-endian integer at offset `i`.
pub fn read_u32_be(bytes: &Vec<u8>, i: usize) -> (x: u32)
    requires
        i + 4 <= bytes@.len(),
    ensures
        x == be32(bytes@[i as int], bytes@[i + 1], bytes@[i + 2], bytes@[i + 3]),
{
    let _n: usize = bytes.len();
    (((bytes[i] as u32) << 24) | ((bytes[i + 1] as u32) << 16) | ((bytes[i + 2] as u32) << 8)
        | (bytes[i + 3] as u32)) as u32
}

/// Reads the 16-bit big-endian integer at offset `i`.
pub fn read_u16_be(bytes: &Vec<u8>, i: usize) -> (x: u16)
    requires
        i + 2 <= bytes@.len(),
    ensures
        x == be16(bytes@[i as int], bytes@[i + 1]),
{
    let _n: usize = bytes.len();
    (((bytes[i] as u16) << 8) | (bytes[i + 1] as u16)) as u16
}

} // verus!

// The report wire format lives in its own section: fixed-width task id,
// times, then length-prefixed extension and share lists.

verus! {

use crate::messages::{
    report_wf, EncryptedInputShare, EncryptedShareView, ExtensionView, Report, ReportExtension,
    ReportExtensionType, ReportView, TaskId, TASK_ID_BYTES,
};

// ---------------------------------------------------------------------------
// Encoding
// ---------------------------------------------------------------------------

/// A length-prefixed byte string: 32-bit big-endian length, then the bytes.
pub open spec fn enc_bytes(b: Seq<u8>) -> Seq<u8> {
    enc_u32(b.len() as u32) + b
}

/// One extension: 16-bit type code, then the length-prefixed data.
pub open spec fn enc_ext(e: ExtensionView) -> Seq<u8> {
    enc_u16(e.extension_type.spec_code()) + enc_bytes(e.extension_data)
}

/// A list of extensions, one after the other.
pub open spec fn enc_exts(s: Seq<ExtensionView>) -> Seq<u8>
    decreases s.len(),
{
    if s.len() == 0 {
        Seq::empty()
    } else {
        enc_ext(s.first()) + enc_exts(s.drop_first())
    }
}

/// One encrypted input share: config id, then the length-prefixed
/// encapsulated context and payload.
pub open spec fn enc_enc_share(sh: EncryptedShareView) -> Seq<u8> {
    seq![sh.config_id] + enc_bytes(sh.encapsulated_context) + enc_bytes(sh.payload)
}

/// A whole report: task id, big-endian time and nonce, the counted
/// extension list, and the two role-indexed shares.
pub open spec fn enc_report(r: ReportView) -> Seq<u8>
    recommends
        report_wf(r),
{
    r.task_id + enc_u64(r.time) + enc_u64(r.nonce) + enc_u32(r.extensions.len() as u32) + enc_exts(
        r.extensions,
    ) + enc_enc_share(r.encrypted_input_shares[0]) + enc_enc_share(r.encrypted_input_shares[1])
}

// ---------------------------------------------------------------------------
// Parsing, as a total specification
// ---------------------------------------------------------------------------

/// Parses a 16-bit integer at offset `i`; yields the value and the offset
/// after it.
pub open spec fn p_u16(s: Seq<u8>, i: int) -> Option<(u16, int)> {
    if 0 <= i && i + 2 <= s.len() {
        Some((be16(s[i], s[i + 1]), i + 2))
    } else {
        None
    }
}

/// Parses a 32-bit integer at offset `i`.
pub open spec fn p_u32(s: Seq<u8>, i: int) -> Option<(u32, int)> {
    if 0 <= i && i + 4 <= s.len() {
        Some((be32(s[i], s[i + 1], s[i + 2], s[i + 3]), i + 4))
    } else {
        None
    }
}

/// Parses a 64-bit integer at offset `i`.
pub open spec fn p_u64(s: Seq<u8>, i: int) -> Option<(u64, int)> {
    if 0 <= i && i + 8 <= s.len() {
        Some((be64(s.subrange(i, i + 8)), i + 8))
    } else {
        None
    }
}

/// Parses a length-prefixed byte string at offset `i`.
pub open spec fn p_bytes(s: Seq<u8>, i: int) -> Option<(Seq<u8>, int)> {
    match p_u32(s, i) {
        Some((n, j)) => if j + n <= s.len() {
            Some((s.subrange(j, j + n), j + n))
        } else {
            None
        },
        None => None,
    }
}

/// The extension type of a wire code, if the code is assigned.
pub open spec fn type_of_code(c: u16) -> Option<ReportExtensionType> {
    if c == 1 {
        Some(ReportExtensionType::AuthenticationInformation)
    } else if c == 65535 {
        Some(ReportExtensionType::MaximumExtensionType)
    } else {
        None
    }
}

/// Parses one extension at offset `i`.
pub open spec fn p_ext(s: Seq<u8>, i: int) -> Option<(ExtensionView, int)> {
    match p_u16(s, i) {
        Some((code, j)) => match type_of_code(code) {
            Some(t) => match p_bytes(s, j) {
                Some((data, k)) => Some(
                    (ExtensionView { extension_type: t, extension_data: data }, k),
                ),
                None => None,
            },
            None => None,
        },
        None => None,
    }
}

/// Parses `count` extensions at offset `i`.
pub open spec fn p_exts(s: Seq<u8>, i: int, count: int) -> Option<(Seq<ExtensionView>, int)>
    decreases count,
{
    if count <= 0 {
        Some((Seq::empty(), i))
    } else {
        match p_ext(s, i) {
            Some((e, j)) => match p_exts(s, j, count - 1) {
                Some((rest, k)) => Some((seq![e] + rest, k)),
                None => None,
            },
            None => None,
        }
    }
}

/// Parses one encrypted input share at offset `i`.
pub open spec fn p_enc_share(s: Seq<u8>, i: int) -> Option<(EncryptedShareView, int)> {
    if 0 <= i && i + 1 <= s.len() {
        let config_id = s[i];
        match p_bytes(s, i + 1) {
            Some((enc, j)) => match p_bytes(s, j) {
                Some((payload, k)) => Some(
                    (
                        EncryptedShareView {
                            config_id,
                            encapsulated_context: enc,
                            payload,
                        },
                        k,
                    ),
                ),
                None => None,
            },
            None => None,
        }
    } else {
        None
    }
}

/// Parses a whole report; the encoding must fill the bytes exactly.
pub open spec fn dec_report(s: Seq<u8>) -> Option<ReportView> {
    if s.len() < TASK_ID_BYTES {
        None
    } else {
        let task_id = s.subrange(0, TASK_ID_BYTES as int);
        match p_u64(s, TASK_ID_BYTES as int) {
            Some((time, i1)) => match p_u64(s, i1) {
                Some((nonce, i2)) => match p_u32(s, i2) {
                    Some((count, i3)) => match p_exts(s, i3, count as int) {
                        Some((extensions, i4)) => match p_enc_share(s, i4) {
                            Some((share0, i5)) => match p_enc_share(s, i5) {
                                Some((share1, i6)) => if i6 == s.len() {
                                    Some(
                                        ReportView {
                                            task_id,
                                            time,
                                            nonce,
                                            extensions,
                                            encrypted_input_shares: seq![share0, share1],
                                        },
                                    )
                                } else {
                                    None
                                },
                                None => None,
                            },
                            None => None,
                        },
                        None => None,
                    },
                    None => None,
                },
                None => None,
            },
            None => None,
        }
    }
}

} // verus!

// Round-trip proofs: parsing inverts encoding at any offset.

verus! {

proof fn lemma_index_concat3(a: Seq<u8>, m: Seq<u8>, b: Seq<u8>, k: int)
    requires
        0 <= k < m.len(),
    ensures
        (a + m + b)[a.len() + k] == m[k],
{
}

proof fn lemma_p_u16_at(a: Seq<u8>, x: u16, b: Seq<u8>)
    ensures
        p_u16(a + enc_u16(x) + b, a.len() as int) == Some((x, a.len() + 2int)),
{
    let s = a + enc_u16(x) + b;
    let i = a.len() as int;
    lemma_index_concat3(a, enc_u16(x), b, 0);
    lemma_index_concat3(a, enc_u16(x), b, 1);
    lemma_u16_round_trip(x);
}

proof fn lemma_p_u32_at(a: Seq<u8>, x: u32, b: Seq<u8>)
    ensures
        p_u32(a + enc_u32(x) + b, a.len() as int) == Some((x, a.len() + 4int)),
{
    let s = a + enc_u32(x) + b;
    lemma_index_concat3(a, enc_u32(x), b, 0);
    lemma_index_concat3(a, enc_u32(x), b, 1);
    lemma_index_concat3(a, enc_u32(x), b, 2);
    lemma_index_concat3(a, enc_u32(x), b, 3);
    lemma_u32_round_trip(x);
}

proof fn lemma_p_u64_at(a: Seq<u8>, x: u64, b: Seq<u8>)
    ensures
        p_u64(a + enc_u64(x) + b, a.len() as int) == Some((x, a.len() + 8int)),
{
    let s = a + enc_u64(x) + b;
    let i = a.len() as int;
    assert(s.subrange(i, i + 8) =~= enc_u64(x));
    lemma_u64_round_trip(x);
}

proof fn lemma_p_bytes_at(a: Seq<u8>, bs: Seq<u8>, b: Seq<u8>)
    requires
        bs.len() <= u32::MAX,
    ensures
        p_bytes(a + enc_bytes(bs) + b, a.len() as int) == Some(
            (bs, a.len() + enc_bytes(bs).len() as int),
        ),
{
    let s = a + enc_bytes(bs) + b;
    let i = a.len() as int;
    assert(a + enc_bytes(bs) + b =~= a + enc_u32(bs.len() as u32) + (bs + b));
    lemma_p_u32_at(a, bs.len() as u32, bs + b);
    let j = i + 4;
    assert(s.subrange(j, j + bs.len()) =~= bs);
}

proof fn lemma_p_ext_at(a: Seq<u8>, e: ExtensionView, b: Seq<u8>)
    requires
        e.extension_data.len() <= u32::MAX,
    ensures
        p_ext(a + enc_ext(e) + b, a.len() as int) == Some((e, a.len() + enc_ext(e).len() as int)),
{
    let code = e.extension_type.spec_code();
    assert(a + enc_ext(e) + b =~= a + enc_u16(code) + (enc_bytes(e.extension_data) + b));
    lemma_p_u16_at(a, code, enc_bytes(e.extension_data) + b);
    assert(type_of_code(code) == Some(e.extension_type));
    assert(a + enc_ext(e) + b =~= (a + enc_u16(code)) + enc_bytes(e.extension_data) + b);
    lemma_p_bytes_at(a + enc_u16(code), e.extension_data, b);
}

/// Every extension list parses back, element by element.
proof fn lemma_p_exts_at(a: Seq<u8>, items: Seq<ExtensionView>, b: Seq<u8>)
    requires
        forall|i: int| 0 <= i < items.len() ==> (#[trigger] items[i]).extension_data.len()
            <= u32::MAX,
    ensures
        p_exts(a + enc_exts(items) + b, a.len() as int, items.len() as int) == Some(
            (items, a.len() + enc_exts(items).len() as int),
        ),
    decreases items.len(),
{
    if items.len() == 0 {
        assert(a + enc_exts(items) + b =~= a + b);
        assert(p_exts(a + b, a.len() as int, 0) == Some((Seq::<ExtensionView>::empty(), a.len() as int)));
        assert(items =~= Seq::<ExtensionView>::empty());
    } else {
        let e = items.first();
        let rest = items.drop_first();
        assert(enc_exts(items) == enc_ext(e) + enc_exts(rest));
        assert(a + enc_exts(items) + b =~= a + enc_ext(e) + (enc_exts(rest) + b));
        lemma_p_ext_at(a, e, enc_exts(rest) + b);
        assert(a + enc_exts(items) + b =~= (a + enc_ext(e)) + enc_exts(rest) + b);
        lemma_p_exts_at(a + enc_ext(e), rest, b);
        assert(seq![e] + rest =~= items);
    }
}

proof fn lemma_p_enc_share_at(a: Seq<u8>, sh: EncryptedShareView, b: Seq<u8>)
    requires
        sh.encapsulated_context.len() <= u32::MAX,
        sh.payload.len() <= u32::MAX,
    ensures
        p_enc_share(a + enc_enc_share(sh) + b, a.len() as int) == Some(
            (sh, a.len() + enc_enc_share(sh).len() as int),
        ),
{
    let s = a + enc_enc_share(sh) + b;
    let i = a.len() as int;
    lemma_index_concat3(a, enc_enc_share(sh), b, 0);
    assert(s[i] == sh.config_id);
    assert(s =~= (a + seq![sh.config_id]) + enc_bytes(sh.encapsulated_context) + (enc_bytes(
        sh.payload,
    ) + b));
    lemma_p_bytes_at(
        a + seq![sh.config_id],
        sh.encapsulated_context,
        enc_bytes(sh.payload) + b,
    );
    assert(s =~= ((a + seq![sh.config_id]) + enc_bytes(sh.encapsulated_context)) + enc_bytes(
        sh.payload,
    ) + b);
    lemma_p_bytes_at(
        (a + seq![sh.config_id]) + enc_bytes(sh.encapsulated_context),
        sh.payload,
        b,
    );
}

proof fn lemma_assoc(x: Seq<u8>, y: Seq<u8>, z: Seq<u8>)
    ensures
        (x + y) + z == x + (y + z),
{
    assert((x + y) + z =~= x + (y + z));
}

#[verifier::rlimit(100)]
proof fn lemma_rt_head(w: ReportView)
    requires
        report_wf(w),
    ensures
        enc_report(w).subrange(0, TASK_ID_BYTES as int) == w.task_id,
        p_u64(enc_report(w), TASK_ID_BYTES as int) == Some((w.time, 40int)),
        p_u64(enc_report(w), 40) == Some((w.nonce, 48int)),
        p_u32(enc_report(w), 48) == Some((w.extensions.len() as u32, 52int)),
{
    let s = enc_report(w);
    let tid = w.task_id;
    let e1 = enc_u64(w.time);
    let e2 = enc_u64(w.nonce);
    let e3 = enc_u32(w.extensions.len() as u32);
    let e4 = enc_exts(w.extensions);
    let e5 = enc_enc_share(w.encrypted_input_shares[0]);
    let e6 = enc_enc_share(w.encrypted_input_shares[1]);
    let x1 = tid + e1;
    let x2 = x1 + e2;
    let x3 = x2 + e3;
    let x4 = x3 + e4;
    let r6 = e6;
    let r5 = e5 + r6;
    let r4 = e4 + r5;
    let r3 = e3 + r4;
    let r2 = e2 + r3;
    lemma_assoc(x4, e5, e6);
    lemma_assoc(x3, e4, r5);
    lemma_assoc(x2, e3, r4);
    lemma_assoc(x1, e2, r3);
    assert(s == x1 + r2);
    assert(s == x2 + r3);
    assert(s == x3 + r4);
    assert(s.subrange(0, TASK_ID_BYTES as int) =~= tid);
    lemma_p_u64_at(tid, w.time, r2);
    lemma_p_u64_at(x1, w.nonce, r3);
    lemma_p_u32_at(x2, w.extensions.len() as u32, r4);
}

proof fn lemma_rt_tail(w: ReportView)
    requires
        report_wf(w),
    ensures
        p_exts(enc_report(w), 52, w.extensions.len() as int) == Some(
            (w.extensions, 52 + enc_exts(w.extensions).len() as int),
        ),
        p_enc_share(enc_report(w), 52 + enc_exts(w.extensions).len() as int) == Some(
            (
                w.encrypted_input_shares[0],
                52 + enc_exts(w.extensions).len() + enc_enc_share(
                    w.encrypted_input_shares[0],
                ).len() as int,
            ),
        ),
        p_enc_share(
            enc_report(w),
            52 + enc_exts(w.extensions).len() + enc_enc_share(
                w.encrypted_input_shares[0],
            ).len() as int,
        ) == Some((w.encrypted_input_shares[1], enc_report(w).len() as int)),
{
    let s = enc_report(w);
    let tid = w.task_id;
    let e1 = enc_u64(w.time);
    let e2 = enc_u64(w.nonce);
    let e3 = enc_u32(w.extensions.len() as u32);
    let e4 = enc_exts(w.extensions);
    let sh0 = w.encrypted_input_shares[0];
    let sh1 = w.encrypted_input_shares[1];
    let e5 = enc_enc_share(sh0);
    let e6 = enc_enc_share(sh1);
    let x3 = ((tid + e1) + e2) + e3;
    let x4 = x3 + e4;
    let x5 = x4 + e5;
    let r6 = e6;
    let r5 = e5 + r6;
    lemma_assoc(x4, e5, e6);
    assert(s == x4 + r5);
    assert(x3.len() == 52);
    lemma_p_exts_at(x3, w.extensions, r5);
    lemma_p_enc_share_at(x4, sh0, r6);
    assert(s =~= (x5 + e6) + Seq::<u8>::empty());
    lemma_p_enc_share_at(x5, sh1, Seq::<u8>::empty());
}

proof fn lemma_rt_assemble(w: ReportView, s: Seq<u8>, i4: int, i5: int)
    requires
        report_wf(w),
        s.len() >= TASK_ID_BYTES,
        s.subrange(0, TASK_ID_BYTES as int) == w.task_id,
        p_u64(s, TASK_ID_BYTES as int) == Some((w.time, 40int)),
        p_u64(s, 40) == Some((w.nonce, 48int)),
        p_u32(s, 48) == Some((w.extensions.len() as u32, 52int)),
        p_exts(s, 52, w.extensions.len() as int) == Some((w.extensions, i4)),
        p_enc_share(s, i4) == Some((w.encrypted_input_shares[0], i5)),
        p_enc_share(s, i5) == Some((w.encrypted_input_shares[1], s.len() as int)),
    ensures
        dec_report(s) == Some(w),
{
    assert(seq![w.encrypted_input_shares[0], w.encrypted_input_shares[1]]
        =~= w.encrypted_input_shares);
    assert((w.extensions.len() as u32) as int == w.extensions.len() as int);
}

/// Decoding inverts encoding: every well-formed report is recovered exactly
/// from its wire bytes.
pub proof fn lemma_report_round_trip(w: ReportView)
    requires
        report_wf(w),
    ensures
        dec_report(enc_report(w)) == Some(w),
{
    let s = enc_report(w);
    lemma_rt_head(w);
    lemma_rt_tail(w);
    let i4: int = 52 + enc_exts(w.extensions).len() as int;
    let i5: int = 52 + enc_exts(w.extensions).len() + enc_enc_share(
        w.encrypted_input_shares[0],
    ).len() as int;
    assert(s.len() >= TASK_ID_BYTES) by {
        assert(p_u64(s, TASK_ID_BYTES as int) is Some);
    }
    lemma_rt_assemble(w, s, i4, i5);
}

} // verus!

// Executable encoding and decoding of reports.

verus! {

/// Appends all of `v` to `out`.
fn push_raw(out: &mut Vec<u8>, v: &Vec<u8>)
    ensures
        final(out)@ == old(out)@ + v@,
{
    let n = v.len();
    let mut i: usize = 0;
    while i < n
        invariant
            i <= n,
            n == v@.len(),
            out@ =~= old(out)@ + v@.take(i as int),
        decreases n - i,
    {
        out.push(v[i]);
        proof {
            assert(out@ =~= old(out)@ + v@.take(i + 1));
        }
        i = i + 1;
    }
    proof {
        assert(v@.take(n as int) =~= v@);
    }
}

/// Appends the length-prefixed encoding of `v` to `out`.
fn push_len_bytes(out: &mut Vec<u8>, v: &Vec<u8>)
    requires
        v@.len() <= u32::MAX,
    ensures
        final(out)@ == old(out)@ + enc_bytes(v@),
{
    push_u32_be(out, v.len() as u32);
    push_raw(out, v);
    proof {
        assert(out@ =~= old(out)@ + enc_bytes(v@));
    }
}

proof fn lemma_enc_exts_take_step(s: Seq<ExtensionView>, i: int)
    requires
        0 <= i < s.len(),
    ensures
        enc_exts(s.take(i + 1)) =~= enc_exts(s.take(i)) + enc_ext(s[i]),
    decreases i,
{
    if i == 0 {
        assert(s.take(1).drop_first() =~= s.take(0));
        assert(enc_exts(s.take(0)) =~= Seq::empty());
    } else {
        lemma_enc_exts_take_step(s.drop_first(), i - 1);
        assert(s.take(i + 1).first() == s.first());
        assert(s.take(i + 1).drop_first() =~= s.drop_first().take(i));
        assert(s.take(i).first() == s.first());
        assert(s.take(i).drop_first() =~= s.drop_first().take(i - 1));
        assert(s.drop_first()[i - 1] == s[i]);
    }
}

/// Appends the encoding of one encrypted share to `out`.
fn push_enc_share(out: &mut Vec<u8>, sh: &EncryptedInputShare)
    requires
        sh.encapsulated_context@.len() <= u32::MAX,
        sh.payload@.len() <= u32::MAX,
    ensures
        final(out)@ == old(out)@ + enc_enc_share(sh@),
{
    out.push(sh.config_id);
    push_len_bytes(out, &sh.encapsulated_context);
    push_len_bytes(out, &sh.payload);
    proof {
        assert(out@ =~= old(out)@ + enc_enc_share(sh@));
    }
}

/// Encodes a report for the wire.
pub fn encode_report(r: &Report) -> (out: Vec<u8>)
    requires
        report_wf(r@),
    ensures
        out@ == enc_report(r@),
{
    let mut out: Vec<u8> = Vec::new();
    push_raw(&mut out, &r.task_id.bytes);
    push_u64_be(&mut out, r.time);
    push_u64_be(&mut out, r.nonce);
    push_u32_be(&mut out, r.extensions.len() as u32);
    let ghost head = out@;

    let n = r.extensions.len();
    let mut i: usize = 0;
    while i < n
        invariant
            i <= n,
            n == r.extensions@.len(),
            report_wf(r@),
            r@.extensions.len() == n,
            out@ =~= head + enc_exts(r@.extensions.take(i as int)),
        decreases n - i,
    {
        let e = &r.extensions[i];
        proof {
            assert(r@.extensions[i as int] == r.extensions@[i as int]@);
            assert(e@.extension_data.len() <= u32::MAX);
        }
        push_u16_be(&mut out, e.extension_type.code());
        push_len_bytes(&mut out, &e.extension_data);
        proof {
            lemma_enc_exts_take_step(r@.extensions, i as int);
            assert(out@ =~= head + enc_exts(r@.extensions.take(i + 1)));
        }
        i = i + 1;
    }
    proof {
        assert(r@.extensions.take(n as int) =~= r@.extensions);
    }

    proof {
        assert(r@.encrypted_input_shares[0] == r.encrypted_input_shares@[0]@);
        assert(r@.encrypted_input_shares[1] == r.encrypted_input_shares@[1]@);
    }
    push_enc_share(&mut out, &r.encrypted_input_shares[0]);
    push_enc_share(&mut out, &r.encrypted_input_shares[1]);
    proof {
        assert(out@ =~= enc_report(r@));
    }
    out
}

/// The `len` bytes starting at `start`, in a fresh vector.
fn read_vec(bytes: &Vec<u8>, start: usize, len: usize) -> (r: Vec<u8>)
    requires
        start + len <= bytes@.len(),
    ensures
        r@ == bytes@.subrange(start as int, start + len),
{
    let total = bytes.len();
    let mut out: Vec<u8> = Vec::new();
    let mut i: usize = 0;
    while i < len
        invariant
            i <= len,
            total == bytes@.len(),
            start + len <= total,
            out@ =~= bytes@.subrange(start as int, start + i),
        decreases len - i,
    {
        out.push(bytes[start + i]);
        proof {
            assert(out@ =~= bytes@.subrange(start as int, start + i + 1));
        }
        i = i + 1;
    }
    out
}

} // verus!

// Executable decoding.

verus! {

/// The parse of the whole extension list equals the extensions already
/// decoded, `done`, composed with whatever the remaining `rem` extensions
/// from offset `cur` parse to.
pub open spec fn exts_from(
    s: Seq<u8>,
    count: int,
    done: Seq<ExtensionView>,
    cur: int,
    rem: int,
) -> bool {
    p_exts(s, 52, count) == (match p_exts(s, cur, rem) {
        Some((rest, end)) => Some((done + rest, end)),
        None => None::<(Seq<ExtensionView>, int)>,
    })
}

/// Parses one encrypted input share at offset `i`.
fn parse_enc_share(bytes: &Vec<u8>, i: usize) -> (r: Option<(EncryptedInputShare, usize)>)
    requires
        i <= bytes@.len(),
    ensures
        match r {
            Some(p) => {
                &&& p_enc_share(bytes@, i as int) == Some((p.0@, p.1 as int))
                &&& p.1 <= bytes@.len()
                &&& p.0@.encapsulated_context.len() <= u32::MAX
                &&& p.0@.payload.len() <= u32::MAX
            },
            None => p_enc_share(bytes@, i as int) is None,
        },
{
    let total = bytes.len();
    if total - i < 1 {
        return None;
    }
    let config_id = bytes[i];
    if total - (i + 1) < 4 {
        return None;
    }
    let n1 = read_u32_be(bytes, i + 1);
    if n1 as u64 > (total - (i + 5)) as u64 {
        return None;
    }
    let n1 = n1 as usize;
    let encapsulated_context = read_vec(bytes, i + 5, n1);
    let j = i + 5 + n1;
    if total - j < 4 {
        return None;
    }
    let n2 = read_u32_be(bytes, j);
    if n2 as u64 > (total - (j + 4)) as u64 {
        return None;
    }
    let n2 = n2 as usize;
    let payload = read_vec(bytes, j + 4, n2);
    let k = j + 4 + n2;
    let share = EncryptedInputShare { config_id, encapsulated_context, payload };
    Some((share, k))
}

/// Decodes a report from the wire. Succeeds exactly on the encodings of
/// well-formed reports, and then returns that report.
pub fn decode_report(bytes: &Vec<u8>) -> (r: Option<Report>)
    ensures
        match r {
            Some(rep) => dec_report(bytes@) == Some(rep@) && report_wf(rep@),
            None => dec_report(bytes@) is None,
        },
{
    let total = bytes.len();
    if total < 32 {
        return None;
    }
    let task_bytes = read_vec(bytes, 0, 32);
    if total < 52 {
        proof {
            if total < 40 {
                assert(p_u64(bytes@, 32) is None);
            } else if total < 48 {
                assert(p_u64(bytes@, 40) is None);
            } else {
                assert(p_u32(bytes@, 48) is None);
            }
        }
        return None;
    }
    let time = read_u64_be(bytes, 32);
    let nonce = read_u64_be(bytes, 40);
    let count = read_u32_be(bytes, 48);

    let mut extensions: Vec<ReportExtension> = Vec::new();
    let mut cur: usize = 52;
    let mut rem: u32 = count;
    proof {
        assert(p_exts(bytes@, 52, count as int) == p_exts(bytes@, 52, count as int));
    }
    while rem > 0
        invariant
            52 <= cur <= total,
            total == bytes@.len(),
            rem <= count,
            extensions@.len() == count - rem,
            p_u32(bytes@, 48) == Some((count, 52int)),
            exts_from(
                bytes@,
                count as int,
                extensions@.map_values(|e: ReportExtension| e@),
                cur as int,
                rem as int,
            ),
            forall|j: int|
                0 <= j < extensions@.len() ==> (#[trigger] extensions@[j])@.extension_data.len()
                    <= u32::MAX,
        decreases rem,
    {
        let ghost done0 = extensions@.map_values(|e: ReportExtension| e@);
        let ghost cur0 = cur as int;
        if total - cur < 2 {
            proof {
                assert(p_ext(bytes@, cur0) is None);
                assert(p_exts(bytes@, cur0, rem as int) is None);
            }
            return None;
        }
        let code = read_u16_be(bytes, cur);
        let extension_type = match ReportExtensionType::from_code(code) {
            Some(t) => t,
            None => {
                proof {
                    assert(p_ext(bytes@, cur0) is None);
                    assert(p_exts(bytes@, cur0, rem as int) is None);
                }
                return None;
            },
        };
        if total - (cur + 2) < 4 {
            proof {
                assert(p_bytes(bytes@, cur0 + 2) is None);
                assert(p_ext(bytes@, cur0) is None);
                assert(p_exts(bytes@, cur0, rem as int) is None);
            }
            return None;
        }
        let dlen = read_u32_be(bytes, cur + 2);
        if dlen as u64 > (total - (cur + 6)) as u64 {
            proof {
                assert(p_bytes(bytes@, cur0 + 2) is None);
                assert(p_ext(bytes@, cur0) is None);
                assert(p_exts(bytes@, cur0, rem as int) is None);
            }
            return None;
        }
        let dlen = dlen as usize;
        let extension_data = read_vec(bytes, cur + 6, dlen);
        let ghost e = ExtensionView {
            extension_type,
            extension_data: extension_data@,
        };
        extensions.push(ReportExtension { extension_type, extension_data });
        cur = cur + 6 + dlen;
        rem = rem - 1;
        proof {
            assert(p_ext(bytes@, cur0) == Some((e, cur as int)));
            let done1 = extensions@.map_values(|ex: ReportExtension| ex@);
            assert(done1 =~= done0.push(e));
            match p_exts(bytes@, cur as int, rem as int) {
                Some((rest, end)) => {
                    assert(p_exts(bytes@, cur0, rem as int + 1) == Some(
                        (seq![e] + rest, end),
                    ));
                    assert(done0 + (seq![e] + rest) =~= done1 + rest);
                },
                None => {
                    assert(p_exts(bytes@, cur0, rem as int + 1) is None);
                },
            }
        }
    }
    proof {
        assert(p_exts(bytes@, cur as int, 0) == Some(
            (Seq::<ExtensionView>::empty(), cur as int),
        ));
        let done = extensions@.map_values(|e: ReportExtension| e@);
        assert(done + Seq::<ExtensionView>::empty() =~= done);
    }

    let (share0, i5) = match parse_enc_share(bytes, cur) {
        Some(p) => p,
        None => {
            return None;
        },
    };
    let (share1, i6) = match parse_enc_share(bytes, i5) {
        Some(p) => p,
        None => {
            return None;
        },
    };
    if i6 != total {
        return None;
    }

    let mut encrypted_input_shares: Vec<EncryptedInputShare> = Vec::new();
    encrypted_input_shares.push(share0);
    encrypted_input_shares.push(share1);
    let report = Report {
        task_id: TaskId { bytes: task_bytes },
        time,
        nonce,
        extensions,
        encrypted_input_shares,
    };
    proof {
        let w = report@;
        assert(w.encrypted_input_shares =~= seq![encrypted_input_shares@[0]@, encrypted_input_shares@[1]@]);
        assert(report_wf(w));
        lemma_rt_assemble(w, bytes@, cur as int, i5 as int);
    }
    Some(report)
}

} // verus!
