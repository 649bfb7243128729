//! Aggregate shares as vectors of prime-field elements.
//!
//! An aggregate share is a vector of elements of `GF(FIELD_MODULUS)`.
//! Merging two shares adds them element-wise; the merge is commutative and
//! associative, so folding any collection of verified output shares gives
//! the same aggregate in every order. Elements are encoded as 12 big-endian
//! bytes each.

use vstd::prelude::*;
use vstd::arithmetic::div_mod::{lemma_add_mod_noop, lemma_small_mod, lemma_mod_bound};

verus! {

/// The 96-bit prime modulus of the sum scheme's field.
pub const FIELD_MODULUS: u128 = 79228148845226978974766202881;

/// Number of bytes in the encoding of one field element.
pub const FIELD_ENCODED_SIZE: usize = 12;

/// A canonical field element.
pub open spec fn elem_wf(x: u128) -> bool {
    x < FIELD_MODULUS
}

/// A well-formed share: every element canonical.
pub open spec fn share_wf(s: Seq<u128>) -> bool {
    forall|i: int| 0 <= i < s.len() ==> elem_wf(#[trigger] s[i])
}

/// Field addition.
pub open spec fn add_elem(a: u128, b: u128) -> u128 {
    (((a + b) % (FIELD_MODULUS as int))) as u128
}

/// Element-wise field addition of two equal-length shares.
pub open spec fn merge_spec(a: Seq<u128>, b: Seq<u128>) -> Seq<u128>
    recommends
        a.len() == b.len(),
{
    Seq::new(a.len(), |i: int| add_elem(a[i], b[i]))
}

/// Field addition is commutative.
pub proof fn lemma_add_elem_comm(a: u128, b: u128)
    ensures
        add_elem(a, b) == add_elem(b, a),
{
}

/// Field addition is associative.
pub proof fn lemma_add_elem_assoc(a: u128, b: u128, c: u128)
    requires
        elem_wf(a) && elem_wf(b) && elem_wf(c),
    ensures
        add_elem(add_elem(a, b), c) == add_elem(a, add_elem(b, c)),
{
    let p = FIELD_MODULUS as int;
    lemma_small_mod(a as nat, p as nat);
    lemma_small_mod(c as nat, p as nat);
    lemma_add_mod_noop(a + b, c as int, p);
    lemma_add_mod_noop(a as int, b + c, p);
    assert((a + b) + c == a + (b + c));
}

/// Merging shares is commutative: folding two verified output shares in
/// either order yields the same aggregate share.
pub proof fn lemma_merge_comm(a: Seq<u128>, b: Seq<u128>)
    requires
        a.len() == b.len(),
    ensures
        merge_spec(a, b) =~= merge_spec(b, a),
{
}

/// Merging shares is associative: any parenthesisation of a fold of
/// verified output shares yields the same aggregate share. Together with
/// [`lemma_merge_comm`] this makes the fold order-independent.
pub proof fn lemma_merge_assoc(a: Seq<u128>, b: Seq<u128>, c: Seq<u128>)
    requires
        a.len() == b.len() && b.len() == c.len(),
        share_wf(a) && share_wf(b) && share_wf(c),
    ensures
        merge_spec(merge_spec(a, b), c) =~= merge_spec(a, merge_spec(b, c)),
{
    assert forall|i: int| 0 <= i < a.len() implies merge_spec(merge_spec(a, b), c)[i]
        == merge_spec(a, merge_spec(b, c))[i] by {
        lemma_add_elem_assoc(a[i], b[i], c[i]);
    }
}

/// The result of a merge is again well-formed.
pub proof fn lemma_merge_wf(a: Seq<u128>, b: Seq<u128>)
    requires
        a.len() == b.len(),
    ensures
        share_wf(merge_spec(a, b)),
{
    assert forall|i: int| 0 <= i < merge_spec(a, b).len() implies elem_wf(
        #[trigger] merge_spec(a, b)[i],
    ) by {
        lemma_mod_bound(a[i] + b[i], FIELD_MODULUS as int);
    }
}

/// Merges `other` into `acc` element-wise. Fails, leaving `acc` unchanged,
/// iff the lengths differ.
pub fn merge_into(acc: &mut Vec<u128>, other: &Vec<u128>) -> (ok: bool)
    requires
        share_wf(old(acc)@),
        share_wf(other@),
    ensures
        ok == (old(acc)@.len() == other@.len()),
        ok ==> final(acc)@ == merge_spec(old(acc)@, other@),
        !ok ==> final(acc)@ == old(acc)@,
        share_wf(final(acc)@),
{
    if acc.len() != other.len() {
        return false;
    }
    let n = acc.len();
    let mut i: usize = 0;
    while i < n
        invariant
            i <= n,
            n == acc@.len() && n == other@.len(),
            old(acc)@.len() == n,
            share_wf(other@),
            share_wf(old(acc)@),
            forall|j: int| 0 <= j < i ==> acc@[j] == add_elem(old(acc)@[j], other@[j]),
            forall|j: int| i <= j < n ==> acc@[j] == old(acc)@[j],
        decreases n - i,
    {
        let a = acc[i];
        let b = other[i];
        proof {
            lemma_mod_bound(a + b, FIELD_MODULUS as int);
        }
        let sum: u128 = (a + b) % FIELD_MODULUS;
        acc.set(i, sum);
        i = i + 1;
    }
    proof {
        assert(acc@ =~= merge_spec(old(acc)@, other@));
        lemma_merge_wf(old(acc)@, other@);
    }
    true
}

// ---------------------------------------------------------------------------
// Byte encoding
// ---------------------------------------------------------------------------

/// The 12 big-endian bytes of one field element.
pub open spec fn enc_elem(x: u128) -> Seq<u8> {
    seq![
        ((x >> 88) & 0xff) as u8,
        ((x >> 80) & 0xff) as u8,
        ((x >> 72) & 0xff) as u8,
        ((x >> 64) & 0xff) as u8,
        ((x >> 56) & 0xff) as u8,
        ((x >> 48) & 0xff) as u8,
        ((x >> 40) & 0xff) as u8,
        ((x >> 32) & 0xff) as u8,
        ((x >> 24) & 0xff) as u8,
        ((x >> 16) & 0xff) as u8,
        ((x >> 8) & 0xff) as u8,
        (x & 0xff) as u8,
    ]
}

/// The integer read big-endian from 12 bytes.
pub open spec fn be96(s: Seq<u8>) -> u128
    recommends
        s.len() == 12,
{
    (((s[0] as u128) << 88) | ((s[1] as u128) << 80) | ((s[2] as u128) << 72)
        | ((s[3] as u128) << 64) | ((s[4] as u128) << 56) | ((s[5] as u128) << 48)
        | ((s[6] as u128) << 40) | ((s[7] as u128) << 32) | ((s[8] as u128) << 24)
        | ((s[9] as u128) << 16) | ((s[10] as u128) << 8) | (s[11] as u128)) as u128
}

/// The encoding of a whole share, element after element.
pub open spec fn enc_share(s: Seq<u128>) -> Seq<u8>
    decreases s.len(),
{
    if s.len() == 0 {
        Seq::empty()
    } else {
        enc_elem(s.first()) + enc_share(s.drop_first())
    }
}

/// The share read back from bytes: 12-byte chunks, each a canonical field
/// element; anything else is rejected.
pub open spec fn dec_share(bytes: Seq<u8>) -> Option<Seq<u128>>
    decreases bytes.len(),
{
    if bytes.len() == 0 {
        Some(Seq::empty())
    } else if bytes.len() < 12 {
        None
    } else {
        let x = be96(bytes.take(12));
        if x >= FIELD_MODULUS {
            None
        } else {
            match dec_share(bytes.skip(12)) {
                Some(rest) => Some(seq![x] + rest),
                None => None,
            }
        }
    }
}

proof fn lemma_elem_round_trip(x: u128)
    requires
        x < FIELD_MODULUS,
    ensures
        be96(enc_elem(x)) == x,
{
    let b0 = ((x >> 88) & 0xff) as u8;
    let b1 = ((x >> 80) & 0xff) as u8;
    let b2 = ((x >> 72) & 0xff) as u8;
    let b3 = ((x >> 64) & 0xff) as u8;
    let b4 = ((x >> 56) & 0xff) as u8;
    let b5 = ((x >> 48) & 0xff) as u8;
    let b6 = ((x >> 40) & 0xff) as u8;
    let b7 = ((x >> 32) & 0xff) as u8;
    let b8 = ((x >> 24) & 0xff) as u8;
    let b9 = ((x >> 16) & 0xff) as u8;
    let b10 = ((x >> 8) & 0xff) as u8;
    let b11 = (x & 0xff) as u8;
    assert((((b0 as u128) << 88) | ((b1 as u128) << 80) | ((b2 as u128) << 72)
        | ((b3 as u128) << 64) | ((b4 as u128) << 56) | ((b5 as u128) << 48)
        | ((b6 as u128) << 40) | ((b7 as u128) << 32) | ((b8 as u128) << 24)
        | ((b9 as u128) << 16) | ((b10 as u128) << 8) | (b11 as u128)) == x) by (bit_vector)
        requires
            x < 79228148845226978974766202881u128,
            b0 == ((x >> 88) & 0xff) as u8,
            b1 == ((x >> 80) & 0xff) as u8,
            b2 == ((x >> 72) & 0xff) as u8,
            b3 == ((x >> 64) & 0xff) as u8,
            b4 == ((x >> 56) & 0xff) as u8,
            b5 == ((x >> 48) & 0xff) as u8,
            b6 == ((x >> 40) & 0xff) as u8,
            b7 == ((x >> 32) & 0xff) as u8,
            b8 == ((x >> 24) & 0xff) as u8,
            b9 == ((x >> 16) & 0xff) as u8,
            b10 == ((x >> 8) & 0xff) as u8,
            b11 == (x & 0xff) as u8,
    ;
}

/// Decoding inverts encoding on every well-formed share.
pub proof fn lemma_share_round_trip(s: Seq<u128>)
    requires
        share_wf(s),
    ensures
        dec_share(enc_share(s)) == Some(s),
    decreases s.len(),
{
    if s.len() == 0 {
        assert(enc_share(s).len() == 0);
    } else {
        let bytes = enc_share(s);
        assert(bytes == enc_elem(s.first()) + enc_share(s.drop_first()));
        assert(enc_elem(s.first()).len() == 12);
        assert(bytes.take(12) =~= enc_elem(s.first()));
        assert(bytes.skip(12) =~= enc_share(s.drop_first()));
        lemma_elem_round_trip(s.first());
        lemma_share_round_trip(s.drop_first());
        assert(seq![s.first()] + s.drop_first() =~= s);
    }
}

/// Encodes a share as bytes, 12 per element, big-endian.
pub fn encode_share(v: &Vec<u128>) -> (out: Vec<u8>)
    requires
        share_wf(v@),
    ensures
        out@ == enc_share(v@),
        out@.len() == 12 * v@.len(),
{
    proof {
        lemma_enc_share_len(v@);
    }
    let mut out: Vec<u8> = Vec::new();
    let n = v.len();
    let mut i: usize = 0;
    while i < n
        invariant
            i <= n,
            n == v@.len(),
            share_wf(v@),
            out@ =~= enc_share(v@.take(i as int)),
            out@.len() == 12 * i,
        decreases n - i,
    {
        let x = v[i];
        proof {
            assert((x >> 88) & 0xff < 256 && (x >> 80) & 0xff < 256 && (x >> 72) & 0xff < 256
                && (x >> 64) & 0xff < 256 && (x >> 56) & 0xff < 256 && (x >> 48) & 0xff < 256
                && (x >> 40) & 0xff < 256 && (x >> 32) & 0xff < 256 && (x >> 24) & 0xff < 256
                && (x >> 16) & 0xff < 256 && (x >> 8) & 0xff < 256 && x & 0xff < 256)
                by (bit_vector);
        }
        out.push(((x >> 88) & 0xff) as u8);
        out.push(((x >> 80) & 0xff) as u8);
        out.push(((x >> 72) & 0xff) as u8);
        out.push(((x >> 64) & 0xff) as u8);
        out.push(((x >> 56) & 0xff) as u8);
        out.push(((x >> 48) & 0xff) as u8);
        out.push(((x >> 40) & 0xff) as u8);
        out.push(((x >> 32) & 0xff) as u8);
        out.push(((x >> 24) & 0xff) as u8);
        out.push(((x >> 16) & 0xff) as u8);
        out.push(((x >> 8) & 0xff) as u8);
        out.push((x & 0xff) as u8);
        proof {
            lemma_enc_share_take_step(v@, i as int);
        }
        i = i + 1;
    }
    proof {
        assert(v@.take(n as int) =~= v@);
    }
    out
}

/// The encoding of a share is 12 bytes per element.
pub proof fn lemma_enc_share_len(s: Seq<u128>)
    ensures
        enc_share(s).len() == 12 * s.len(),
    decreases s.len(),
{
    if s.len() > 0 {
        lemma_enc_share_len(s.drop_first());
    }
}

proof fn lemma_enc_share_take_step(s: Seq<u128>, i: int)
    requires
        0 <= i < s.len(),
    ensures
        enc_share(s.take(i + 1)) =~= enc_share(s.take(i)) + enc_elem(s[i]),
    decreases i,
{
    if i == 0 {
        assert(s.take(1).drop_first() =~= s.take(0));
        assert(enc_share(s.take(0)) =~= Seq::empty());
    } else {
        lemma_enc_share_take_step(s.drop_first(), i - 1);
        assert(s.take(i + 1).first() == s.first());
        assert(s.take(i + 1).drop_first() =~= s.drop_first().take(i));
        assert(s.take(i).first() == s.first());
        assert(s.take(i).drop_first() =~= s.drop_first().take(i - 1));
        assert(s.drop_first()[i - 1] == s[i]);
    }
}

/// The decoding of all of `bytes` equals the elements already decoded,
/// `done`, followed by whatever the suffix from `i` decodes to; if the
/// suffix is malformed, so is the whole.
pub open spec fn dec_share_from(bytes: Seq<u8>, done: Seq<u128>, i: int) -> bool {
    dec_share(bytes) == (match dec_share(bytes.skip(i)) {
        Some(rest) => Some(done + rest),
        None => None::<Seq<u128>>,
    })
}

/// Decodes a share from bytes. Fails iff the length is not a multiple of 12
/// or a chunk is not a canonical field element.
pub fn decode_share(bytes: &Vec<u8>) -> (r: Option<Vec<u128>>)
    ensures
        match r {
            Some(v) => dec_share(bytes@) == Some(v@) && share_wf(v@),
            None => dec_share(bytes@) is None,
        },
{
    let n = bytes.len();
    let mut out: Vec<u128> = Vec::new();
    let mut i: usize = 0;
    proof {
        assert(bytes@.skip(0) =~= bytes@);
        if dec_share(bytes@) is Some {
            assert(out@ + dec_share(bytes@).unwrap() =~= dec_share(bytes@).unwrap());
        }
    }
    while i < n
        invariant
            i <= n,
            n == bytes@.len(),
            i % 12 == 0,
            share_wf(out@),
            dec_share_from(bytes@, out@, i as int),
        decreases n - i,
    {
        if n - i < 12 {
            proof {
                assert(bytes@.skip(i as int).len() == n - i);
                assert(dec_share(bytes@.skip(i as int)) is None);
            }
            return None;
        }
        let ghost prev = i as int;
        let ghost out_prev = out@;
        let x = (((bytes[i] as u128) << 88) | ((bytes[i + 1] as u128) << 80)
            | ((bytes[i + 2] as u128) << 72) | ((bytes[i + 3] as u128) << 64)
            | ((bytes[i + 4] as u128) << 56) | ((bytes[i + 5] as u128) << 48)
            | ((bytes[i + 6] as u128) << 40) | ((bytes[i + 7] as u128) << 32)
            | ((bytes[i + 8] as u128) << 24) | ((bytes[i + 9] as u128) << 16)
            | ((bytes[i + 10] as u128) << 8) | (bytes[i + 11] as u128)) as u128;
        proof {
            let tail = bytes@.skip(prev);
            assert(tail.take(12) =~= bytes@.subrange(prev, prev + 12));
            assert(x == be96(tail.take(12)));
        }
        if x >= FIELD_MODULUS {
            proof {
                assert(dec_share(bytes@.skip(prev)) is None);
            }
            return None;
        }
        out.push(x);
        i = i + 12;
        proof {
            let tail = bytes@.skip(prev);
            assert(tail.skip(12) =~= bytes@.skip(i as int));
            match dec_share(bytes@.skip(i as int)) {
                Some(rest) => {
                    assert(dec_share(tail) == Some(seq![x] + rest));
                    assert(out_prev + (seq![x] + rest) =~= out@ + rest);
                },
                None => {
                    assert(dec_share(tail) is None);
                },
            }
        }
    }
    proof {
        assert(bytes@.skip(n as int).len() == 0);
        assert(dec_share(bytes@.skip(n as int)) == Some(Seq::<u128>::empty()));
        assert(out@ + Seq::<u128>::empty() =~= out@);
    }
    Some(out)
}

} // verus!

// Folding many output shares.

verus! {

/// All shares of the collection are canonical and of length `len`.
pub open spec fn shares_wf(shares: Seq<Seq<u128>>, len: nat) -> bool {
    forall|i: int|
        0 <= i < shares.len() ==> (#[trigger] shares[i]).len() == len && share_wf(shares[i])
}

/// The aggregate share that results from folding every share of the
/// collection, in order, into `init`.
pub open spec fn fold_shares(init: Seq<u128>, shares: Seq<Seq<u128>>) -> Seq<u128>
    decreases shares.len(),
{
    if shares.len() == 0 {
        init
    } else {
        fold_shares(merge_spec(init, shares.first()), shares.drop_first())
    }
}

proof fn lemma_fold_shares_front(init: Seq<u128>, shares: Seq<Seq<u128>>, k: int)
    requires
        share_wf(init),
        shares_wf(shares, init.len()),
        0 <= k < shares.len(),
    ensures
        fold_shares(init, shares) == fold_shares(init, seq![shares[k]] + shares.remove(k)),
    decreases k,
{
    let s0 = shares.first();
    let rest = shares.drop_first();
    if k == 0 {
        assert(seq![shares[0]] + shares.remove(0) =~= shares);
    } else {
        let x = shares[k];
        assert(rest[k - 1] == x);
        assert(forall|i: int| 0 <= i < rest.len() ==> rest[i] == shares[i + 1]);
        let m0 = merge_spec(init, s0);
        lemma_merge_wf(init, s0);
        lemma_fold_shares_front(m0, rest, k - 1);
        // fold(init, shares) == fold(m0, seq![x] + rest.remove(k-1))
        let tail = rest.remove(k - 1);
        assert(shares_wf(tail, init.len())) by {
            assert(forall|i: int| 0 <= i < tail.len() ==> tail[i] == rest.remove(k - 1)[i]);
        }
        assert(fold_shares(m0, seq![x] + tail) == fold_shares(
            merge_spec(m0, x),
            tail,
        )) by {
            assert((seq![x] + tail).first() == x);
            assert((seq![x] + tail).drop_first() =~= tail);
        }
        // Reorder the two merges at the head.
        assert(merge_spec(merge_spec(init, s0), x) =~= merge_spec(merge_spec(init, x), s0)) by {
            lemma_merge_assoc(init, s0, x);
            lemma_merge_comm(s0, x);
            lemma_merge_assoc(init, x, s0);
        }
        // Refold on the other side.
        let goal = seq![x] + shares.remove(k);
        assert(goal.first() == x);
        assert(goal.drop_first() =~= shares.remove(k));
        assert(shares.remove(k).first() == s0);
        assert(shares.remove(k).drop_first() =~= tail);
        lemma_merge_wf(init, x);
        assert(fold_shares(init, goal) == fold_shares(merge_spec(init, x), shares.remove(k)));
        assert(fold_shares(merge_spec(init, x), shares.remove(k)) == fold_shares(
            merge_spec(merge_spec(init, x), s0),
            tail,
        ));
    }
}

/// Folding verified output shares is order-independent: two collections
/// holding the same shares, in any order, fold to the same aggregate.
pub proof fn lemma_fold_shares_any_order(
    init: Seq<u128>,
    shares1: Seq<Seq<u128>>,
    shares2: Seq<Seq<u128>>,
)
    requires
        share_wf(init),
        shares_wf(shares1, init.len()),
        shares_wf(shares2, init.len()),
        shares1.to_multiset() == shares2.to_multiset(),
    ensures
        fold_shares(init, shares1) == fold_shares(init, shares2),
    decreases shares1.len(),
{
    shares1.to_multiset_ensures();
    shares2.to_multiset_ensures();
    if shares1.len() == 0 {
        assert(shares2.len() == 0);
    } else {
        let x = shares1.first();
        assert(shares1.to_multiset().count(x) > 0) by {
            assert(shares1.contains(x));
        }
        assert(shares2.contains(x));
        let k = choose|k: int| 0 <= k < shares2.len() && shares2[k] == x;
        lemma_fold_shares_front(init, shares2, k);
        let goal = seq![x] + shares2.remove(k);
        assert(goal.first() == x);
        assert(goal.drop_first() =~= shares2.remove(k));
        lemma_merge_wf(init, x);
        assert(shares_wf(shares1.drop_first(), init.len())) by {
            assert(forall|i: int|
                0 <= i < shares1.drop_first().len() ==> shares1.drop_first()[i] == shares1[i
                    + 1]);
        }
        assert(shares_wf(shares2.remove(k), init.len())) by {
            assert(forall|i: int|
                0 <= i < shares2.remove(k).len() ==> shares2.remove(k)[i] == (if i < k {
                    shares2[i]
                } else {
                    shares2[i + 1]
                }));
        }
        assert(shares1.drop_first().to_multiset() =~= shares2.remove(k).to_multiset()) by {
            assert(shares1.drop_first() =~= shares1.remove(0));
            assert(shares1.remove(0).to_multiset() =~= shares1.to_multiset().remove(x));
            assert(shares2.remove(k).to_multiset() =~= shares2.to_multiset().remove(x));
        }
        lemma_fold_shares_any_order(
            merge_spec(init, x),
            shares1.drop_first(),
            shares2.remove(k),
        );
    }
}

} // verus!
