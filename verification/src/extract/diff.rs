//! Perceptual-hash comparison and key-frame selection.
//!
//! A perceptual hash is a 64-bit fingerprint of a frame; two frames look
//! alike when their fingerprints differ in few bits. The change score of the
//! tool is the number of differing bits divided by 64; the verified core
//! works with the number of differing bits itself, so that a score is exact.
//! Computing the fingerprint of an image (decoding, resizing and a
//! floating-point cosine transform) is the application's part.

use vstd::prelude::*;
use vstd::arithmetic::power2::{pow2, lemma_pow2_unfold, lemma2_to64};

verus! {

/// A perceptual hash — 64-bit fingerprint of an image.
#[derive(Debug, Clone, Copy, PartialEq, Eq, Structural)]
pub struct PHash(pub u64);

/// The number of one bits of a natural number.
pub open spec fn popcount(x: nat) -> nat
    decreases x,
{
    if x == 0 {
        0
    } else {
        x % 2 + popcount(x / 2)
    }
}

/// The number of bits in which two hashes differ.
pub open spec fn distance(a: PHash, b: PHash) -> nat {
    popcount((a.0 ^ b.0) as nat)
}

/// A number below `2^k` has at most `k` one bits, and exactly `k` only when
/// it is `2^k - 1`.
pub proof fn lemma_popcount_bound(x: nat, k: nat)
    requires
        x < pow2(k),
    ensures
        popcount(x) <= k,
        popcount(x) == k ==> x + 1 == pow2(k),
    decreases k,
{
    if k == 0 {
        assert(pow2(0) == 1) by {
            reveal(vstd::arithmetic::power::pow);
        }
    } else {
        lemma_pow2_unfold(k);
        assert(pow2(k) == 2 * pow2((k - 1) as nat));
        assert(x / 2 < pow2((k - 1) as nat));
        lemma_popcount_bound(x / 2, (k - 1) as nat);
    }
}

/// Only zero has no one bit.
pub proof fn lemma_popcount_zero(x: nat)
    ensures
        popcount(x) == 0 <==> x == 0,
    decreases x,
{
    if x > 0 {
        lemma_popcount_zero(x / 2);
    }
}

/// Compute the hamming distance between two perceptual hashes.
/// Returns a value between 0 (identical) and 64 (completely different).
pub fn hamming_distance(a: PHash, b: PHash) -> (d: u32)
    ensures
        d == distance(a, b),
        d <= 64,
{
    let x0 = a.0 ^ b.0;
    proof {
        lemma2_to64();
        lemma_popcount_bound(x0 as nat, 64);
    }
    let mut x = x0;
    let mut count: u32 = 0;
    while x != 0
        invariant
            count + popcount(x as nat) == popcount(x0 as nat),
            popcount(x0 as nat) <= 64,
        decreases x,
    {
        count = count + (x % 2) as u32;
        x = x / 2;
    }
    count
}

/// Whether bit `i` of a number is set.
pub open spec fn bit_at(x: nat, i: nat) -> bool {
    (x / pow2(i)) % 2 == 1
}

/// The number of bit positions below `k` where two hashes differ.
pub open spec fn differing_bits(a: u64, b: u64, k: nat) -> nat
    decreases k,
{
    if k == 0 {
        0
    } else {
        differing_bits(a, b, (k - 1) as nat) + if bit_at(a as nat, (k - 1) as nat) != bit_at(
            b as nat,
            (k - 1) as nat,
        ) {
            1nat
        } else {
            0nat
        }
    }
}

/// The number of set bits of a number below position `k`.
spec fn bits_below(x: nat, k: nat) -> nat
    decreases k,
{
    if k == 0 {
        0
    } else {
        bits_below(x, (k - 1) as nat) + if bit_at(x, (k - 1) as nat) {
            1nat
        } else {
            0nat
        }
    }
}

proof fn lemma_bits_below_shift(x: nat, k: nat)
    ensures
        bits_below(x, k + 1) == x % 2 + bits_below(x / 2, k),
    decreases k,
{
    if k == 0 {
        assert(pow2(0) == 1) by {
            reveal(vstd::arithmetic::power::pow);
        }
        assert(x / pow2(0) == x);
        assert(bits_below(x, 1) == bits_below(x, 0) + if bit_at(x, 0) {
            1nat
        } else {
            0nat
        });
    } else {
        lemma_bits_below_shift(x, (k - 1) as nat);
        assert(bits_below(x, k + 1) == bits_below(x, k) + if bit_at(x, k) {
            1nat
        } else {
            0nat
        });
        assert(bits_below(x / 2, k) == bits_below(x / 2, (k - 1) as nat) + if bit_at(
            x / 2,
            (k - 1) as nat,
        ) {
            1nat
        } else {
            0nat
        });
        lemma_pow2_unfold(k);
        vstd::arithmetic::power2::lemma_pow2_pos((k - 1) as nat);
        vstd::arithmetic::div_mod::lemma_div_denominator(x as int, 2, pow2((k - 1) as nat) as int);
        assert(x / pow2(k) == (x / 2) / pow2((k - 1) as nat));
    }
}

proof fn lemma_popcount_bits_below(x: nat, k: nat)
    requires
        x < pow2(k),
    ensures
        popcount(x) == bits_below(x, k),
    decreases k,
{
    if k == 0 {
        assert(pow2(0) == 1) by {
            reveal(vstd::arithmetic::power::pow);
        }
    } else {
        lemma_pow2_unfold(k);
        assert(x / 2 < pow2((k - 1) as nat));
        lemma_popcount_bits_below(x / 2, (k - 1) as nat);
        lemma_bits_below_shift(x, (k - 1) as nat);
        if x == 0 {
            assert(popcount(0) == 0);
        }
    }
}

proof fn lemma_xor_bit(a: u64, b: u64, i: nat)
    requires
        i < 64,
    ensures
        bit_at((a ^ b) as nat, i) == (bit_at(a as nat, i) != bit_at(b as nat, i)),
{
    let s = i as u64;
    vstd::bits::lemma_u64_shr_is_div(a ^ b, s);
    vstd::bits::lemma_u64_shr_is_div(a, s);
    vstd::bits::lemma_u64_shr_is_div(b, s);
    assert(((a ^ b) >> s) % 2 == 1 <==> (((a >> s) % 2 == 1) != ((b >> s) % 2 == 1))) by (bit_vector)
        requires
            s < 64,
    ;
}

proof fn lemma_xor_bits_below(a: u64, b: u64, k: nat)
    requires
        k <= 64,
    ensures
        bits_below((a ^ b) as nat, k) == differing_bits(a, b, k),
    decreases k,
{
    if k > 0 {
        lemma_xor_bits_below(a, b, (k - 1) as nat);
        lemma_xor_bit(a, b, (k - 1) as nat);
    }
}

/// The distance of two hashes is the number of the 64 bit positions where
/// they differ.
pub proof fn lemma_distance_counts_differing_bits(a: PHash, b: PHash)
    ensures
        distance(a, b) == differing_bits(a.0, b.0, 64),
{
    lemma2_to64();
    lemma_popcount_bits_below((a.0 ^ b.0) as nat, 64);
    lemma_xor_bits_below(a.0, b.0, 64);
}

/// The change score of two hashes, exactly: `distance / 64`.
#[derive(Debug, Clone, Copy, PartialEq, Eq, Structural)]
pub struct ChangeScore {
    /// The number of differing bits, at most 64.
    pub distance: u32,
}

/// Compute a normalized change score between two hashes: the number of
/// differing bits out of 64, from 0 (identical) to 64 (completely different).
pub fn change_score(a: PHash, b: PHash) -> (s: ChangeScore)
    ensures
        s.distance == distance(a, b),
        s.distance <= 64,
{
    ChangeScore { distance: hamming_distance(a, b) }
}

/// The hamming distance is symmetric, is zero exactly for identical hashes,
/// is at most 64, and is 64 exactly when one hash is the bitwise complement
/// of the other.
pub proof fn lemma_distance_laws(a: PHash, b: PHash)
    ensures
        distance(a, b) == distance(b, a),
        distance(a, b) == 0 <==> a == b,
        distance(a, b) <= 64,
        distance(a, b) == 64 <==> b.0 == !a.0,
{
    let (p, q) = (a.0, b.0);
    let x = p ^ q;
    assert(p ^ q == q ^ p) by (bit_vector);
    assert(x == 0 <==> p == q) by (bit_vector)
        requires
            x == p ^ q,
    ;
    assert(x == 0xffff_ffff_ffff_ffffu64 <==> q == !p) by (bit_vector)
        requires
            x == p ^ q,
    ;
    lemma2_to64();
    lemma_popcount_bound(x as nat, 64);
    lemma_popcount_zero(x as nat);
    if b.0 == !a.0 {
        assert(popcount(0xffff_ffff_ffff_ffff) == 64) by {
            lemma_popcount_all_ones(64);
        }
    }
}

/// `2^k - 1` has `k` one bits.
pub proof fn lemma_popcount_all_ones(k: nat)
    ensures
        popcount((pow2(k) - 1) as nat) == k,
    decreases k,
{
    if k == 0 {
        assert(pow2(0) == 1) by {
            reveal(vstd::arithmetic::power::pow);
        }
    } else {
        lemma_pow2_unfold(k);
        vstd::arithmetic::power2::lemma_pow2_pos((k - 1) as nat);
        let y = (pow2(k) - 1) as nat;
        assert(y / 2 == pow2((k - 1) as nat) - 1);
        assert(y % 2 == 1);
        lemma_popcount_all_ones((k - 1) as nat);
    }
}

/// A kept frame: its position among the sampled frames and the number of
/// bits in which its hash differs from the previously kept frame (0 for the
/// first frame).
#[derive(Debug, Clone, Copy, PartialEq, Eq, Structural)]
pub struct KeyFrame {
    pub index: usize,
    pub distance: u32,
}

/// Key-frame selection over the hashes of the sampled frames, in order: the
/// first frame is always kept; a later frame is kept when it differs from the
/// last *kept* frame in at least `min_distance` bits.
pub open spec fn greedy_selection(h: Seq<PHash>, min_distance: nat) -> Seq<KeyFrame>
    decreases h.len(),
{
    if h.len() == 0 {
        Seq::empty()
    } else if h.len() == 1 {
        seq![KeyFrame { index: 0, distance: 0 }]
    } else {
        let prev = greedy_selection(h.drop_last(), min_distance);
        let d = distance(h[prev.last().index as int], h.last());
        if d >= min_distance {
            prev.push(KeyFrame { index: (h.len() - 1) as usize, distance: d as u32 })
        } else {
            prev
        }
    }
}

/// Whether a selection over `n` frames starts with frame 0, lists frames in
/// strictly increasing order, and records distances of at most 64.
pub open spec fn well_ordered_selection(sel: Seq<KeyFrame>, n: nat) -> bool {
    &&& n > 0 ==> sel.len() > 0 && sel[0] == (KeyFrame { index: 0, distance: 0 })
    &&& n == 0 ==> sel.len() == 0
    &&& forall|i: int| 0 <= i < sel.len() ==> #[trigger] sel[i].index < n
    &&& forall|i: int, j: int| 0 <= i < j < sel.len() ==> sel[i].index < sel[j].index
    &&& forall|i: int| 0 <= i < sel.len() ==> #[trigger] sel[i].distance <= 64
}

/// The greedy selection is well ordered, and every frame after the first
/// differs from its predecessor in the selection in at least `min_distance`
/// bits, the distance being the one recorded.
#[verifier::spinoff_prover]
#[verifier::rlimit(40)]
pub proof fn lemma_greedy_selection_shape(h: Seq<PHash>, min_distance: nat)
    requires
        h.len() <= usize::MAX,
    ensures
        well_ordered_selection(greedy_selection(h, min_distance), h.len()),
        forall|i: int|
            0 < i < greedy_selection(h, min_distance).len() ==> {
                &&& (#[trigger] greedy_selection(h, min_distance)[i]).distance >= min_distance
                &&& greedy_selection(h, min_distance)[i].distance == distance(
                    h[greedy_selection(h, min_distance)[i - 1].index as int],
                    h[greedy_selection(h, min_distance)[i].index as int],
                )
            },
    decreases h.len(),
{
    let sel = greedy_selection(h, min_distance);
    let n = h.len();
    if n == 1 {
        assert(sel == seq![KeyFrame { index: 0, distance: 0 }]);
    } else if n > 1 {
        let hp = h.drop_last();
        let prev = greedy_selection(hp, min_distance);
        lemma_greedy_selection_shape(hp, min_distance);
        let last = prev.last();
        assert(last == prev[prev.len() - 1]);
        assert(last.index < n - 1);
        let a = h[last.index as int];
        assert(hp[last.index as int] == a);
        let d = distance(a, h.last());
        lemma_distance_laws(a, h.last());
        assert(sel == if d >= min_distance {
            prev.push(KeyFrame { index: (n - 1) as usize, distance: d as u32 })
        } else {
            prev
        });
        assert forall|i: int| 0 <= i < prev.len() implies #[trigger] sel[i] == prev[i] by {}
        assert forall|i: int| 0 <= i < sel.len() implies #[trigger] sel[i].index < n by {
            if i < prev.len() {
                assert(prev[i].index < n - 1);
            }
        }
        assert forall|i: int, j: int| 0 <= i < j < sel.len() implies sel[i].index < sel[j].index by {
            if j < prev.len() {
                assert(prev[i].index < prev[j].index);
            } else {
                assert(prev[i].index < n - 1);
            }
        }
        assert forall|i: int| 0 <= i < sel.len() implies #[trigger] sel[i].distance <= 64 by {
            if i < prev.len() {
                assert(prev[i].distance <= 64);
            }
        }
        assert forall|i: int| 0 < i < sel.len() implies {
            &&& (#[trigger] sel[i]).distance >= min_distance
            &&& sel[i].distance == distance(h[sel[i - 1].index as int], h[sel[i].index as int])
        } by {
            if i < prev.len() {
                assert(prev[i].distance >= min_distance);
                assert(prev[i].index < n - 1 && prev[i - 1].index < n - 1);
                assert(hp[prev[i].index as int] == h[prev[i].index as int]);
                assert(hp[prev[i - 1].index as int] == h[prev[i - 1].index as int]);
            } else {
                assert(sel[i - 1] == last);
            }
        }
    }
}

/// Whether every frame that `sel` skips differs from the last frame kept
/// before it in fewer than `min_distance` bits.
#[verifier::opaque]
pub open spec fn skips_only_close(h: Seq<PHash>, sel: Seq<KeyFrame>, min_distance: nat) -> bool {
    forall|i: int, j: int|
        0 <= i < sel.len() && sel[i].index < j < h.len() && (i == sel.len() - 1 || j < sel[i
            + 1].index) ==> distance(h[(#[trigger] sel[i]).index as int], #[trigger] h[j])
            < min_distance
}

/// The greedy selection skips a frame only when it differs from the last
/// frame kept before it in fewer than `min_distance` bits.
pub proof fn lemma_greedy_skips_close_frames(h: Seq<PHash>, min_distance: nat)
    requires
        h.len() <= usize::MAX,
    ensures
        forall|i: int, j: int|
            0 <= i < greedy_selection(h, min_distance).len() && greedy_selection(h, min_distance)[i].index
                < j < h.len() && (i == greedy_selection(h, min_distance).len() - 1 || j
                < greedy_selection(h, min_distance)[i + 1].index) ==> distance(
                h[(#[trigger] greedy_selection(h, min_distance)[i]).index as int],
                #[trigger] h[j],
            ) < min_distance,
{
    lemma_greedy_skips_step(h, min_distance);
    reveal(skips_only_close);
}

/// The greedy selection of a non-empty sequence is non-empty, and names
/// frames of the sequence only.
proof fn lemma_greedy_indices(h: Seq<PHash>, min_distance: nat)
    requires
        h.len() <= usize::MAX,
    ensures
        h.len() > 0 ==> greedy_selection(h, min_distance).len() > 0,
        forall|k: int|
            0 <= k < greedy_selection(h, min_distance).len() ==> (#[trigger] greedy_selection(
                h,
                min_distance,
            )[k]).index < h.len(),
{
    lemma_greedy_selection_shape(h, min_distance);
}

#[verifier::rlimit(40)]
proof fn lemma_greedy_skips_step(h: Seq<PHash>, min_distance: nat)
    requires
        h.len() <= usize::MAX,
    ensures
        skips_only_close(h, greedy_selection(h, min_distance), min_distance),
    decreases h.len(),
{
    let n = h.len();
    let sel = greedy_selection(h, min_distance);
    if n <= 1 {
        reveal(skips_only_close);
        if n == 1 {
            assert(sel =~= seq![KeyFrame { index: 0, distance: 0 }]);
        }
    } else {
        let hp = h.drop_last();
        let prev = greedy_selection(hp, min_distance);
        lemma_greedy_skips_step(hp, min_distance);
        lemma_greedy_indices(hp, min_distance);
        let last = prev.last();
        let d = distance(h[last.index as int], h.last());
        assert(last == prev[prev.len() - 1]);
        assert(hp[last.index as int] == h[last.index as int]);
        assert(sel == if d >= min_distance {
            prev.push(KeyFrame { index: (n - 1) as usize, distance: d as u32 })
        } else {
            prev
        });
        reveal(skips_only_close);
        assert forall|i: int, j: int|
            0 <= i < sel.len() && sel[i].index < j < n && (i == sel.len() - 1 || j < sel[i
                + 1].index) implies distance(h[(#[trigger] sel[i]).index as int], #[trigger] h[j])
            < min_distance by {
            if i < prev.len() {
                assert(sel[i] == prev[i]);
                assert(prev[i].index < n - 1);
                assert(hp[prev[i].index as int] == h[prev[i].index as int]);
                if i < prev.len() - 1 {
                    assert(sel[i + 1] == prev[i + 1]);
                    assert(prev[i + 1].index < n - 1);
                }
                if j < n - 1 {
                    assert(hp[j] == h[j]);
                    assert(distance(hp[prev[i].index as int], hp[j]) < min_distance);
                }
            } else {
                assert(sel[i].index == n - 1);
            }
        }
    }
}

/// The state of a key-frame selection that sees the hashes one at a time,
/// as the streaming analysis does.
pub struct KeyFrameSelector {
    min_distance: u32,
    anchor: Option<PHash>,
}

/// The effect of offering a hash to a selector whose last kept hash is
/// `anchor`: the new anchor and, when the frame is kept, its distance.
pub open spec fn offer_outcome(min_distance: nat, anchor: Option<PHash>, h: PHash) -> (
    Option<PHash>,
    Option<u32>,
) {
    match anchor {
        None => (Some(h), Some(0u32)),
        Some(a) => if distance(a, h) >= min_distance {
            (Some(h), Some(distance(a, h) as u32))
        } else {
            (Some(a), None)
        },
    }
}

/// The anchor and the kept frames after offering the hashes `h` in order to
/// a fresh selector.
pub open spec fn replay_offers(min_distance: nat, h: Seq<PHash>) -> (Option<PHash>, Seq<KeyFrame>)
    decreases h.len(),
{
    if h.len() == 0 {
        (None, Seq::empty())
    } else {
        let (anchor, kept) = replay_offers(min_distance, h.drop_last());
        let (next, d) = offer_outcome(min_distance, anchor, h.last());
        match d {
            Some(d) => (next, kept.push(KeyFrame { index: (h.len() - 1) as usize, distance: d })),
            None => (next, kept),
        }
    }
}

/// Offering the frames one at a time keeps exactly the frames that the batch
/// selection keeps: streaming and batch selection agree.
pub proof fn lemma_streaming_matches_batch(min_distance: nat, h: Seq<PHash>)
    requires
        h.len() <= usize::MAX,
    ensures
        replay_offers(min_distance, h).1 == greedy_selection(h, min_distance),
        h.len() > 0 ==> replay_offers(min_distance, h).0 == Some(
            h[greedy_selection(h, min_distance).last().index as int],
        ),
        h.len() == 0 ==> replay_offers(min_distance, h).0 is None,
    decreases h.len(),
{
    if h.len() > 0 {
        let hp = h.drop_last();
        lemma_streaming_matches_batch(min_distance, hp);
        lemma_greedy_selection_shape(hp, min_distance);
        lemma_greedy_selection_shape(h, min_distance);
        let sel = greedy_selection(h, min_distance);
        if h.len() == 1 {
            assert(sel.last().index == 0);
        } else {
            let prev = greedy_selection(hp, min_distance);
            assert(prev.last() == prev[prev.len() - 1]);
            assert(prev.last().index < h.len() - 1);
            assert(hp[prev.last().index as int] == h[prev.last().index as int]);
            lemma_distance_laws(h[prev.last().index as int], h.last());
        }
    }
}

impl KeyFrameSelector {
    /// The least number of differing bits for a frame to be kept.
    pub closed spec fn min_distance_of(&self) -> nat {
        self.min_distance as nat
    }

    /// The hash of the last kept frame, if any frame was offered.
    pub closed spec fn anchor_of(&self) -> Option<PHash> {
        self.anchor
    }

    /// A selector that has seen no frame.
    pub fn new(min_distance: u32) -> (s: KeyFrameSelector)
        ensures
            s.min_distance_of() == min_distance,
            s.anchor_of() is None,
    {
        KeyFrameSelector { min_distance, anchor: None }
    }

    /// Offers the hash of the next frame; returns its distance to the last
    /// kept frame when the frame is kept, `None` when it is skipped.
    pub fn offer(&mut self, h: PHash) -> (kept: Option<u32>)
        ensures
            final(self).min_distance_of() == old(self).min_distance_of(),
            (final(self).anchor_of(), kept) == offer_outcome(
                old(self).min_distance_of(),
                old(self).anchor_of(),
                h,
            ),
    {
        match self.anchor {
            None => {
                self.anchor = Some(h);
                Some(0)
            },
            Some(a) => {
                let d = hamming_distance(a, h);
                if d >= self.min_distance {
                    self.anchor = Some(h);
                    Some(d)
                } else {
                    None
                }
            },
        }
    }
}

/// The greedy selection over the hashes, with the frame whose hash differs
/// from the last kept one in at least `min_distance` bits kept.
fn greedy_select(hashes: &[PHash], min_distance: u32) -> (sel: Vec<KeyFrame>)
    ensures
        sel@ == greedy_selection(hashes@, min_distance as nat),
{
    let mut selector = KeyFrameSelector::new(min_distance);
    let mut sel: Vec<KeyFrame> = Vec::new();
    let mut i: usize = 0;
    assert(hashes@.take(0) =~= Seq::<PHash>::empty());
    while i < hashes.len()
        invariant
            i <= hashes.len(),
            selector.min_distance_of() == min_distance,
            replay_offers(min_distance as nat, hashes@.take(i as int)) == (
                selector.anchor_of(),
                sel@,
            ),
        decreases hashes.len() - i,
    {
        assert(hashes@.take(i + 1).drop_last() =~= hashes@.take(i as int));
        match selector.offer(hashes[i]) {
            Some(d) => sel.push(KeyFrame { index: i, distance: d }),
            None => {},
        }
        i = i + 1;
    }
    assert(hashes@.take(hashes.len() as int) =~= hashes@);
    proof {
        lemma_streaming_matches_batch(min_distance as nat, hashes@);
    }
    sel
}

/// Whether kept frame `a` ranks before kept frame `b` when the selection is
/// cut down: a larger change first, and among equal changes the earlier frame.
pub open spec fn outranks(a: KeyFrame, b: KeyFrame) -> bool {
    a.distance > b.distance || (a.distance == b.distance && a.index < b.index)
}

/// The frames that rank before `r`.
pub open spec fn outranks_pred(r: KeyFrame) -> spec_fn(KeyFrame) -> bool {
    |s: KeyFrame| outranks(s, r)
}

/// How many frames of `frames` rank before `r`.
pub open spec fn outranked_by(frames: Seq<KeyFrame>, r: KeyFrame) -> nat {
    frames.filter(outranks_pred(r)).len()
}

/// The frames of `frames` that are among its `k` best ranked.
pub open spec fn top_ranked_pred(frames: Seq<KeyFrame>, k: int) -> spec_fn(KeyFrame) -> bool {
    |r: KeyFrame| outranked_by(frames, r) < k
}

/// A selection cut down to at most `max_frames` frames, when it is longer:
/// a cap of zero leaves no frame; otherwise the first frame stays, followed
/// by the `max_frames - 1` frames of the rest with the largest changes (the
/// earlier frame first among equal changes), in their original order.
pub open spec fn capped_selection(sel: Seq<KeyFrame>, max_frames: Option<usize>) -> Seq<KeyFrame> {
    match max_frames {
        Some(m) => if sel.len() > m {
            if m == 0 {
                Seq::empty()
            } else {
                let rest = sel.drop_first();
                seq![sel[0]] + rest.filter(top_ranked_pred(rest, m - 1))
            }
        } else {
            sel
        },
        None => sel,
    }
}

/// The key frames selected from the hashes of the sampled frames.
pub open spec fn key_frame_selection(h: Seq<PHash>, min_distance: nat, max_frames: Option<usize>) -> Seq<KeyFrame> {
    capped_selection(greedy_selection(h, min_distance), max_frames)
}

/// One step of `filter` over a growing prefix.
pub proof fn lemma_filter_take_step<A>(s: Seq<A>, p: spec_fn(A) -> bool, k: int)
    requires
        0 <= k < s.len(),
    ensures
        s.take(k + 1).filter(p) == if p(s[k]) {
            s.take(k).filter(p).push(s[k])
        } else {
            s.take(k).filter(p)
        },
{
    reveal(Seq::filter);
    assert(s.take(k + 1).drop_last() =~= s.take(k));
    assert(s.take(k + 1).last() == s[k]);
}

fn outranks_exec(a: KeyFrame, b: KeyFrame) -> (r: bool)
    ensures
        r == outranks(a, b),
{
    a.distance > b.distance || (a.distance == b.distance && a.index < b.index)
}

/// Cuts a selection longer than `max_frames` down to `max_frames` frames.
fn cap_selection(sel: &Vec<KeyFrame>, max_frames: usize) -> (out: Vec<KeyFrame>)
    requires
        max_frames > 0,
        sel.len() > max_frames,
    ensures
        out@ == capped_selection(sel@, Some(max_frames)),
{
    let n = sel.len();
    let ghost rest = sel@.drop_first();
    let ghost keep = top_ranked_pred(rest, max_frames - 1);
    let mut out: Vec<KeyFrame> = Vec::new();
    out.push(sel[0]);
    assert(rest.take(0).filter(keep) =~= Seq::<KeyFrame>::empty()) by {
        reveal(Seq::filter);
    }
    assert(out@ =~= seq![sel@[0]] + rest.take(0).filter(keep));
    let mut i: usize = 1;
    while i < n
        invariant
            n == sel.len(),
            n > max_frames > 0,
            1 <= i <= n,
            rest == sel@.drop_first(),
            keep == top_ranked_pred(rest, max_frames - 1),
            out@ == seq![sel@[0]] + rest.take(i - 1).filter(keep),
        decreases n - i,
    {
        let r = sel[i];
        let mut count: usize = 0;
        let mut j: usize = 1;
        assert(rest.take(0).filter(outranks_pred(r)) =~= Seq::<KeyFrame>::empty()) by {
            reveal(Seq::filter);
        }
        while j < n
            invariant
                n == sel.len(),
                1 <= j <= n,
                rest == sel@.drop_first(),
                count <= j,
                count == rest.take(j - 1).filter(outranks_pred(r)).len(),
            decreases n - j,
        {
            proof {
                lemma_filter_take_step(rest, outranks_pred(r), j - 1);
            }
            assert(rest[j - 1] == sel@[j as int]);
            if outranks_exec(sel[j], r) {
                count = count + 1;
            }
            j = j + 1;
        }
        assert(rest.take(n - 1) =~= rest);
        assert(rest[i - 1] == r);
        proof {
            lemma_filter_take_step(rest, keep, i - 1);
        }
        if count < max_frames - 1 {
            out.push(r);
        }
        assert(out@ =~= seq![sel@[0]] + rest.take(i as int).filter(keep));
        i = i + 1;
    }
    assert(rest.take(n - 1) =~= rest);
    out
}

/// Select key frames from the perceptual hashes of the sampled frames.
///
/// The first frame is always included. Subsequent frames are included only if
/// they differ from the last *included* frame in at least `min_distance` bits
/// (a change score of at least `min_distance / 64`). When `max_frames` is set
/// and more frames were selected, the selection is cut down to `max_frames`
/// frames: none for a cap of zero, otherwise the first frame and the
/// `max_frames - 1` largest changes, in chronological order.
pub fn select_key_frames(hashes: &[PHash], min_distance: u32, max_frames: Option<usize>) -> (sel: Vec<
    KeyFrame,
>)
    ensures
        sel@ == key_frame_selection(hashes@, min_distance as nat, max_frames),
{
    let selected = greedy_select(hashes, min_distance);
    match max_frames {
        Some(m) => {
            if selected.len() > m {
                if m == 0 {
                    Vec::new()
                } else {
                    cap_selection(&selected, m)
                }
            } else {
                selected
            }
        },
        None => selected,
    }
}

/// Whether the frames are listed in strictly increasing order of position.
pub open spec fn increasing_indices(s: Seq<KeyFrame>) -> bool {
    forall|i: int, j: int| 0 <= i < j < s.len() ==> s[i].index < s[j].index
}

/// Filtering keeps the order of the frames and only keeps frames of the
/// original sequence.
pub proof fn lemma_filter_keeps_order(s: Seq<KeyFrame>, p: spec_fn(KeyFrame) -> bool)
    requires
        increasing_indices(s),
    ensures
        increasing_indices(s.filter(p)),
        forall|i: int|
            0 <= i < s.filter(p).len() ==> exists|j: int|
                0 <= j < s.len() && s[j] == #[trigger] s.filter(p)[i],
        forall|i: int| 0 <= i < s.filter(p).len() ==> p(#[trigger] s.filter(p)[i]),
    decreases s.len(),
{
    reveal(Seq::filter);
    if s.len() > 0 {
        let t = s.drop_last();
        lemma_filter_keeps_order(t, p);
        let f = s.filter(p);
        let g = t.filter(p);
        assert forall|i: int| 0 <= i < f.len() implies exists|j: int|
            0 <= j < s.len() && s[j] == #[trigger] f[i] by {
            if i < g.len() {
                let j = choose|j: int| 0 <= j < t.len() && t[j] == g[i];
                assert(s[j] == f[i]);
            } else {
                assert(s[s.len() - 1] == f[i]);
            }
        }
        assert forall|i: int, k: int| 0 <= i < k < f.len() implies f[i].index < f[k].index by {
            if k < g.len() {
            } else {
                let j = choose|j: int| 0 <= j < t.len() && t[j] == g[i];
                assert(s[j] == t[j]);
            }
        }
    }
}

/// Every frame except the one at `w` ranks before the frame at `w`.
pub open spec fn worst_at(a: Seq<KeyFrame>, w: int) -> bool {
    &&& 0 <= w < a.len()
    &&& forall|j: int| 0 <= j < a.len() && j != w ==> outranks(#[trigger] a[j], a[w])
}

/// A non-empty list of distinct frames has a frame that all others outrank.
pub proof fn lemma_worst_exists(a: Seq<KeyFrame>)
    requires
        a.len() > 0,
        increasing_indices(a),
    ensures
        exists|w: int| worst_at(a, w),
    decreases a.len(),
{
    if a.len() == 1 {
        assert(worst_at(a, 0));
    } else {
        let t = a.drop_last();
        lemma_worst_exists(t);
        let w = choose|w: int| worst_at(t, w);
        let x = a.last();
        if outranks(x, a[w]) {
            assert(worst_at(a, w)) by {
                assert forall|j: int| 0 <= j < a.len() && j != w implies outranks(#[trigger] a[j], a[w]) by {
                    if j < t.len() {
                        assert(t[j] == a[j]);
                    }
                }
            }
        } else {
            assert(a[w].index < x.index);
            assert(worst_at(a, a.len() - 1)) by {
                assert forall|j: int| 0 <= j < a.len() && j != a.len() - 1 implies outranks(
                    #[trigger] a[j],
                    a[a.len() - 1],
                ) by {
                    if j != w {
                        assert(t[j] == a[j]);
                        assert(outranks(t[j], t[w]));
                    }
                }
            }
        }
    }
}

/// Keeping first the frames that pass `q` cannot leave more frames passing
/// `p` than there are in the whole sequence.
pub proof fn lemma_filter_filter_len(s: Seq<KeyFrame>, q: spec_fn(KeyFrame) -> bool, p: spec_fn(KeyFrame) -> bool)
    ensures
        s.filter(q).filter(p).len() <= s.filter(p).len(),
    decreases s.len(),
{
    reveal(Seq::filter);
    if s.len() > 0 {
        let t = s.drop_last();
        lemma_filter_filter_len(t, q, p);
        let x = s.last();
        if q(x) {
            assert(s.filter(q) == t.filter(q).push(x));
            assert(s.filter(q).drop_last() =~= t.filter(q));
        }
    }
}

/// When every frame but one passes `p`, filtering drops at most one frame.
pub proof fn lemma_filter_all_but_one(a: Seq<KeyFrame>, p: spec_fn(KeyFrame) -> bool, w: int)
    requires
        0 <= w < a.len(),
        forall|j: int| 0 <= j < a.len() && j != w ==> p(#[trigger] a[j]),
    ensures
        a.filter(p).len() + 1 >= a.len(),
    decreases a.len(),
{
    reveal(Seq::filter);
    let t = a.drop_last();
    if w == a.len() - 1 {
        lemma_filter_all(t, p);
    } else {
        assert forall|j: int| 0 <= j < t.len() && j != w implies p(#[trigger] t[j]) by {
            assert(t[j] == a[j]);
        }
        lemma_filter_all_but_one(t, p, w);
        assert(p(a[a.len() - 1]));
    }
}

/// When every frame passes `p`, filtering keeps them all.
pub proof fn lemma_filter_all(a: Seq<KeyFrame>, p: spec_fn(KeyFrame) -> bool)
    requires
        forall|j: int| 0 <= j < a.len() ==> p(#[trigger] a[j]),
    ensures
        a.filter(p).len() == a.len(),
    decreases a.len(),
{
    reveal(Seq::filter);
    if a.len() > 0 {
        let t = a.drop_last();
        assert forall|j: int| 0 <= j < t.len() implies p(#[trigger] t[j]) by {
            assert(t[j] == a[j]);
        }
        lemma_filter_all(t, p);
        assert(p(a[a.len() - 1]));
    }
}

/// Among distinct frames, at most `k` are ranked among the `k` best.
pub proof fn lemma_top_ranked_len(rest: Seq<KeyFrame>, k: int)
    requires
        increasing_indices(rest),
        k >= 0,
    ensures
        rest.filter(top_ranked_pred(rest, k)).len() <= k,
{
    let a = rest.filter(top_ranked_pred(rest, k));
    lemma_filter_keeps_order(rest, top_ranked_pred(rest, k));
    if a.len() > k {
        lemma_worst_exists(a);
        let w = choose|w: int| worst_at(a, w);
        let p = outranks_pred(a[w]);
        assert forall|j: int| 0 <= j < a.len() && j != w implies p(#[trigger] a[j]) by {}
        lemma_filter_all_but_one(a, p, w);
        lemma_filter_filter_len(rest, top_ranked_pred(rest, k), p);
        assert(top_ranked_pred(rest, k)(a[w]));
        assert(false);
    }
}

/// Removing one frame from a sequence removes it from a filter of the
/// sequence, when it passes the filter, and changes nothing else.
pub proof fn lemma_filter_remove_len(s: Seq<KeyFrame>, p: spec_fn(KeyFrame) -> bool, w: int)
    requires
        0 <= w < s.len(),
    ensures
        s.filter(p).len() == s.remove(w).filter(p).len() + if p(s[w]) {
            1int
        } else {
            0int
        },
    decreases s.len(),
{
    reveal(Seq::filter);
    let t = s.drop_last();
    if w == s.len() - 1 {
        assert(s.remove(w) =~= t);
    } else {
        lemma_filter_remove_len(t, p, w);
        assert(s.remove(w).drop_last() =~= t.remove(w));
        assert(s.remove(w).last() == s.last());
    }
}

/// Filters by two predicates that agree on every frame of a sequence are
/// equal.
pub proof fn lemma_filter_congruent(s: Seq<KeyFrame>, p: spec_fn(KeyFrame) -> bool, q: spec_fn(KeyFrame) -> bool)
    requires
        forall|i: int| 0 <= i < s.len() ==> p(#[trigger] s[i]) == q(s[i]),
    ensures
        s.filter(p) == s.filter(q),
    decreases s.len(),
{
    reveal(Seq::filter);
    if s.len() > 0 {
        let t = s.drop_last();
        assert forall|i: int| 0 <= i < t.len() implies p(#[trigger] t[i]) == q(t[i]) by {
            assert(t[i] == s[i]);
        }
        lemma_filter_congruent(t, p, q);
        assert(p(s[s.len() - 1]) == q(s[s.len() - 1]));
    }
}

/// A predicate that holds wherever another does passes at least as many
/// frames, and more when it also holds somewhere the other does not.
pub proof fn lemma_filter_len_mono(s: Seq<KeyFrame>, p: spec_fn(KeyFrame) -> bool, q: spec_fn(KeyFrame) -> bool)
    requires
        forall|i: int| 0 <= i < s.len() && p(#[trigger] s[i]) ==> q(s[i]),
    ensures
        s.filter(p).len() <= s.filter(q).len(),
        (exists|j: int| 0 <= j < s.len() && q(#[trigger] s[j]) && !p(s[j])) ==> s.filter(p).len()
            < s.filter(q).len(),
    decreases s.len(),
{
    reveal(Seq::filter);
    if s.len() > 0 {
        let t = s.drop_last();
        assert forall|i: int| 0 <= i < t.len() && p(#[trigger] t[i]) implies q(t[i]) by {
            assert(t[i] == s[i]);
        }
        lemma_filter_len_mono(t, p, q);
        let x = s[s.len() - 1];
        assert(p(x) ==> q(x));
        if exists|j: int| 0 <= j < s.len() && q(#[trigger] s[j]) && !p(s[j]) {
            let j = choose|j: int| 0 <= j < s.len() && q(#[trigger] s[j]) && !p(s[j]);
            if j < t.len() {
                assert(t[j] == s[j]);
            }
        }
    }
}

/// Among distinct frames, exactly `min(k, len)` are ranked among the `k`
/// best.
pub proof fn lemma_top_ranked_count(s: Seq<KeyFrame>, k: int)
    requires
        increasing_indices(s),
        k >= 0,
    ensures
        s.filter(top_ranked_pred(s, k)).len() == if k <= s.len() {
            k
        } else {
            s.len() as int
        },
    decreases s.len(),
{
    reveal(Seq::filter);
    if s.len() > 0 {
        lemma_worst_exists(s);
        let w = choose|w: int| worst_at(s, w);
        let x = s[w];
        let t = s.remove(w);
        assert forall|i: int| 0 <= i < t.len() implies (i < w ==> #[trigger] t[i] == s[i]) && (i
            >= w ==> t[i] == s[i + 1]) by {}
        assert(increasing_indices(t)) by {
            assert forall|i: int, j: int| 0 <= i < j < t.len() implies t[i].index < t[j].index by {
                let i2 = if i < w { i } else { i + 1 };
                let j2 = if j < w { j } else { j + 1 };
                assert(t[i] == s[i2] && t[j] == s[j2]);
            }
        }
        lemma_top_ranked_count(t, k);
        // The worst frame is outranked by all the others and by nobody else.
        lemma_filter_remove_len(s, outranks_pred(x), w);
        assert forall|j: int| 0 <= j < t.len() implies #[trigger] outranks_pred(x)(t[j]) by {
            let j2 = if j < w { j } else { j + 1 };
            assert(t[j] == s[j2]);
        }
        lemma_filter_all(t, outranks_pred(x));
        assert(outranked_by(s, x) == s.len() - 1);
        // The others rank the same with or without the worst frame.
        assert forall|i: int| 0 <= i < t.len() implies top_ranked_pred(s, k)(#[trigger] t[i])
            == top_ranked_pred(t, k)(t[i]) by {
            let i2 = if i < w { i } else { i + 1 };
            assert(t[i] == s[i2]);
            assert(outranks(s[i2], x));
            lemma_filter_remove_len(s, outranks_pred(t[i]), w);
        }
        lemma_filter_congruent(t, top_ranked_pred(s, k), top_ranked_pred(t, k));
        lemma_filter_remove_len(s, top_ranked_pred(s, k), w);
    }
}

/// Among distinct frames, a frame outside the `k` best changed no more than
/// any frame among them.
pub proof fn lemma_dropped_not_larger(s: Seq<KeyFrame>, k: int, i: int, j: int)
    requires
        increasing_indices(s),
        0 <= i < s.len(),
        0 <= j < s.len(),
        !top_ranked_pred(s, k)(s[i]),
        top_ranked_pred(s, k)(s[j]),
    ensures
        s[i].distance <= s[j].distance,
{
    let y = s[i];
    let z = s[j];
    if outranks(y, z) {
        assert forall|e: int| 0 <= e < s.len() && outranks_pred(y)(#[trigger] s[e]) implies outranks_pred(
            z,
        )(s[e]) by {}
        assert(outranks_pred(z)(s[i]) && !outranks_pred(y)(s[i]));
        lemma_filter_len_mono(s, outranks_pred(y), outranks_pred(z));
    }
    if i != j {
        assert(s[i].index != s[j].index) by {
            if i < j {
            } else {
            }
        }
    }
}

/// When a selection is longer than a cap `m` of at least one, the cut keeps
/// exactly `m` frames: the first frame, then frames of the selection in
/// their order; and every frame it drops changed no more than any frame it
/// keeps after the first.
pub proof fn lemma_capped_selection_law(sel: Seq<KeyFrame>, m: usize)
    requires
        increasing_indices(sel),
        m >= 1,
        sel.len() > m,
    ensures
        capped_selection(sel, Some(m)).len() == m,
        capped_selection(sel, Some(m))[0] == sel[0],
        increasing_indices(capped_selection(sel, Some(m))),
        forall|i: int|
            0 <= i < capped_selection(sel, Some(m)).len() ==> sel.contains(
                #[trigger] capped_selection(sel, Some(m))[i],
            ),
        forall|j: int, i: int|
            1 <= j < sel.len() && 1 <= i < capped_selection(sel, Some(m)).len() && !capped_selection(
                sel,
                Some(m),
            ).contains(#[trigger] sel[j]) ==> sel[j].distance <= (#[trigger] capped_selection(
                sel,
                Some(m),
            )[i]).distance,
{
    let out = capped_selection(sel, Some(m));
    let rest = sel.drop_first();
    let keep = top_ranked_pred(rest, m - 1);
    let a = rest.filter(keep);
    assert(increasing_indices(rest));
    lemma_top_ranked_count(rest, m - 1);
    lemma_filter_keeps_order(rest, keep);
    assert(out == seq![sel[0]] + a);
    assert forall|i: int| 0 <= i < out.len() implies sel.contains(#[trigger] out[i]) by {
        if i == 0 {
            assert(sel[0] == out[0]);
        } else {
            assert(out[i] == a[i - 1]);
            let k = choose|k: int| 0 <= k < rest.len() && rest[k] == a[i - 1];
            assert(sel[k + 1] == out[i]);
        }
    }
    assert forall|i: int, j: int| 0 <= i < j < out.len() implies out[i].index < out[j].index by {
        if i > 0 {
            assert(out[i] == a[i - 1] && out[j] == a[j - 1]);
        } else {
            assert(out[j] == a[j - 1]);
            let k = choose|k: int| 0 <= k < rest.len() && rest[k] == a[j - 1];
            assert(rest[k] == sel[k + 1]);
        }
    }
    assert forall|j: int, i: int|
        1 <= j < sel.len() && 1 <= i < out.len() && !out.contains(#[trigger] sel[j]) implies sel[j].distance
        <= (#[trigger] out[i]).distance by {
        assert(rest[j - 1] == sel[j]);
        if keep(rest[j - 1]) {
            rest.lemma_filter_contains(keep, j - 1);
            let q = choose|q: int| 0 <= q < a.len() && a[q] == rest[j - 1];
            assert(out[q + 1] == sel[j]);
        }
        assert(out[i] == a[i - 1]);
        rest.lemma_filter_pred(keep, i - 1);
        let k = choose|k: int| 0 <= k < rest.len() && rest[k] == a[i - 1];
        lemma_dropped_not_larger(rest, m - 1, j - 1, k);
    }
}

/// A cap of `m` frames leaves a selection of at most `m` frames unchanged and
/// cuts a longer one to exactly `m` frames (none for a cap of zero): the
/// first frame, then frames of the uncapped selection in their order, where
/// every frame left out changed no more than any kept frame after the first.
pub proof fn lemma_key_frame_cap_law(h: Seq<PHash>, min_distance: nat, m: usize)
    requires
        h.len() <= usize::MAX,
    ensures
        ({
            let u = key_frame_selection(h, min_distance, None);
            let s = key_frame_selection(h, min_distance, Some(m));
            &&& u.len() <= m ==> s == u
            &&& u.len() > m ==> s.len() == m
            &&& u.len() > m && m >= 1 ==> s[0] == u[0]
            &&& increasing_indices(s)
            &&& forall|i: int| 0 <= i < s.len() ==> u.contains(#[trigger] s[i])
            &&& forall|j: int, i: int|
                1 <= j < u.len() && 1 <= i < s.len() && !s.contains(#[trigger] u[j]) ==> u[j].distance
                    <= (#[trigger] s[i]).distance
        }),
{
    let u = greedy_selection(h, min_distance);
    lemma_greedy_selection_shape(h, min_distance);
    assert(increasing_indices(u));
    if u.len() > m && m >= 1 {
        lemma_capped_selection_law(u, m);
    }
}

/// The selection keeps the first frame (unless the cap is zero, which leaves
/// no frame), lists the kept frames in chronological order, keeps only frames
/// that changed by at least `min_distance` bits from the previously kept
/// frame, and never returns more than `max_frames` frames.
pub proof fn lemma_key_frame_selection_laws(h: Seq<PHash>, min_distance: nat, max_frames: Option<usize>)
    requires
        h.len() <= usize::MAX,
    ensures
        max_frames != Some(0usize) ==> well_ordered_selection(
            key_frame_selection(h, min_distance, max_frames),
            h.len(),
        ),
        max_frames == Some(0usize) ==> key_frame_selection(h, min_distance, max_frames).len() == 0,
        increasing_indices(key_frame_selection(h, min_distance, max_frames)),
        forall|i: int|
            0 < i < key_frame_selection(h, min_distance, max_frames).len() ==> (#[trigger] key_frame_selection(
                h,
                min_distance,
                max_frames,
            )[i]).distance >= min_distance,
        max_frames matches Some(m) ==> key_frame_selection(h, min_distance, max_frames).len() <= m,
        key_frame_selection(h, min_distance, max_frames).len() <= h.len(),
{
    let sel = greedy_selection(h, min_distance);
    lemma_greedy_selection_shape(h, min_distance);
    let out = key_frame_selection(h, min_distance, max_frames);
    assert(increasing_indices(sel));
    if let Some(m) = max_frames {
        if sel.len() > m && m > 0 {
            let rest = sel.drop_first();
            assert(increasing_indices(rest));
            let keep = top_ranked_pred(rest, m - 1);
            let a = rest.filter(keep);
            lemma_filter_keeps_order(rest, keep);
            lemma_top_ranked_len(rest, m - 1);
            assert(out == seq![sel[0]] + a);
            assert forall|i: int| 0 <= i < out.len() implies #[trigger] out[i].index < h.len()
                && out[i].distance <= 64 && (i > 0 ==> out[i].distance >= min_distance) by {
                if i > 0 {
                    assert(out[i] == a[i - 1]);
                    let j = choose|j: int| 0 <= j < rest.len() && rest[j] == a[i - 1];
                    assert(rest[j] == sel[j + 1]);
                }
            }
            assert forall|i: int, j: int| 0 <= i < j < out.len() implies out[i].index
                < out[j].index by {
                if i > 0 {
                    assert(out[i] == a[i - 1] && out[j] == a[j - 1]);
                } else {
                    assert(out[j] == a[j - 1]);
                    let k = choose|k: int| 0 <= k < rest.len() && rest[k] == a[j - 1];
                    assert(rest[k] == sel[k + 1]);
                }
            }
        }
    }
    if out.len() > h.len() {
        assert(sel.len() <= h.len()) by {
            if sel.len() > h.len() {
                assert(sel[h.len() as int].index < h.len());
                lemma_indices_bound(sel, h.len());
            }
        }
    }
}

/// A threshold of zero keeps every frame, so no threshold keeps more frames
/// than a threshold of zero does.
pub proof fn lemma_zero_threshold_keeps_most(h: Seq<PHash>, min_distance: nat)
    requires
        h.len() <= usize::MAX,
    ensures
        greedy_selection(h, 0).len() == h.len(),
        key_frame_selection(h, min_distance, None).len() <= key_frame_selection(h, 0, None).len(),
    decreases h.len(),
{
    if h.len() > 1 {
        lemma_zero_threshold_keeps_most(h.drop_last(), min_distance);
    }
    lemma_key_frame_selection_laws(h, min_distance, None);
}

/// A list of frames in strictly increasing order of position, all below `n`,
/// has at most `n` frames.
pub proof fn lemma_indices_bound(s: Seq<KeyFrame>, n: nat)
    requires
        increasing_indices(s),
        forall|i: int| 0 <= i < s.len() ==> #[trigger] s[i].index < n,
    ensures
        s.len() <= n,
    decreases s.len(),
{
    if s.len() > 0 {
        let t = s.drop_last();
        assert forall|i: int| 0 <= i < t.len() implies #[trigger] t[i].index < s.last().index by {
            assert(t[i] == s[i]);
        }
        lemma_indices_bound(t, s.last().index as nat);
    }
}

} // verus!
