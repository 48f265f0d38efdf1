//! The sequence of a walk in positional order: for every position, the
//! tokens active there with their signed weights, in one contiguous buffer.

use crate::reale::{e_finito, finito, minore, positivo, Reale, ZERO};
use vstd::prelude::*;
use vstd::multiset::Multiset;
use vstd::seq_lib::to_multiset_insert;

verus! {

/// The identifier of a token in the vocabulary.
pub type TokenId = u32;

/// A position of an ordered-sparse sequence.
pub type Position = u32;

/// An activation: a token and its signed weight.
pub type Attivazione = (TokenId, Reale);

/// The activations are sorted by token id.
pub open spec fn ordinate_per_token(s: Seq<Attivazione>) -> bool {
    forall|a: int, b: int| 0 <= a <= b < s.len() ==> s[a].0 <= s[b].0
}

/// Sorts the activations of one position by token id (insertion sort).
fn ordina_per_token(frame: &Vec<Attivazione>) -> (r: Vec<Attivazione>)
    ensures
        ordinate_per_token(r@),
        r@.to_multiset() == frame@.to_multiset(),
        r@.len() == frame@.len(),
{
    let mut r: Vec<Attivazione> = Vec::new();
    let mut i: usize = 0;
    proof {
        assert(r@ =~= frame@.take(0));
    }
    while i < frame.len()
        invariant
            0 <= i <= frame.len(),
            ordinate_per_token(r@),
            r@.to_multiset() == frame@.take(i as int).to_multiset(),
            r@.len() == i,
        decreases frame.len() - i,
    {
        let x = frame[i];
        let mut p: usize = 0;
        while p < r.len() && r[p].0 <= x.0
            invariant
                0 <= p <= r.len(),
                forall|a: int| 0 <= a < p ==> r@[a].0 <= x.0,
            decreases r.len() - p,
        {
            p += 1;
        }
        proof {
            assert(forall|a: int| p <= a < r@.len() ==> r@[a].0 > x.0) by {
                if p < r@.len() {
                    assert(r@[p as int].0 > x.0);
                }
            }
            to_multiset_insert(r@, p as int, x);
            assert(frame@.take(i + 1) =~= frame@.take(i as int).push(x));
            vstd::seq_lib::to_multiset_build(frame@.take(i as int), x);
        }
        r.insert(p, x);
        i += 1;
    }
    proof {
        assert(frame@.take(frame@.len() as int) =~= frame@);
    }
    r
}

/// Error: an empty sequence.
pub const ERR_SEQUENZA_VUOTA: &'static str = "La sequenza ordered-sparse non può essere vuota";

/// Error: a position without activations.
pub const ERR_POSIZIONE_VUOTA: &'static str = "Una posizione della sequenza non può essere vuota";

/// Error: a weight that is infinite or NaN.
pub const ERR_PESO_NON_FINITO: &'static str = "Il peso di un token deve essere finito";

/// What is wrong with the activations of one position, if anything.
pub open spec fn difetto_posizione(f: Seq<Attivazione>) -> Option<&'static str> {
    if f.len() == 0 {
        Some(ERR_POSIZIONE_VUOTA)
    } else if exists|k: int| 0 <= k < f.len() && !e_finito(#[trigger] f[k].1) {
        Some(ERR_PESO_NON_FINITO)
    } else {
        None
    }
}

/// The first thing wrong with the positions from `da` on.
pub open spec fn primo_difetto(frames: Seq<Vec<Attivazione>>, da: int) -> Option<&'static str>
    decreases frames.len() - da,
{
    if da >= frames.len() || da < 0 {
        None
    } else if difetto_posizione(frames[da]@) is Some {
        difetto_posizione(frames[da]@)
    } else {
        primo_difetto(frames, da + 1)
    }
}

/// The total number of activations of the positions.
pub open spec fn totale_attivazioni(frames: Seq<Vec<Attivazione>>) -> int
    decreases frames.len(),
{
    if frames.len() == 0 {
        0
    } else {
        totale_attivazioni(frames.drop_last()) + frames.last()@.len()
    }
}

/// The hash of a token in the global signature. It equals
/// `(t as u128).wrapping_mul(0x9E3779B97F4A7C15).rotate_left(17)` folded as
/// `(h ^ (h >> 31)) as u64`: the product of a token by the constant stays
/// below 2^96, so it never wraps and the rotation is a shift.
pub open spec fn impronta(t: TokenId) -> u64 {
    let x = ((t as int) * 0x9E37_79B9_7F4A_7C15 * 0x20000) as u128;
    (x ^ (x >> 31u128)) as u64
}

/// `h.rotate_left(32)` on 64 bits.
pub open spec fn ruota32(h: u64) -> u64 {
    (h << 32u64) | (h >> 32u64)
}

/// The signature of a run of activations: the hashes of the emitted tokens
/// (weight > 0) OR-ed together, and the same rotated by 32 bits.
pub open spec fn firma(s: Seq<Attivazione>) -> (u64, u64)
    decreases s.len(),
{
    if s.len() == 0 {
        (0, 0)
    } else {
        let prima = firma(s.drop_last());
        if minore(ZERO, s.last().1) {
            (prima.0 | impronta(s.last().0), prima.1 | ruota32(impronta(s.last().0)))
        } else {
            prima
        }
    }
}

/// The activations of two parallel buffers of tokens and weights.
pub open spec fn coppie(t: Seq<TokenId>, w: Seq<Reale>) -> Seq<Attivazione> {
    Seq::new(t.len(), |k: int| (t[k], w[k]))
}

fn impronta_exec(t: TokenId) -> (r: u64)
    ensures
        r == impronta(t),
{
    let x: u128 = (t as u128) * 0x9E37_79B9_7F4A_7C15u128 * 0x20000u128;
    (x ^ (x >> 31u128)) as u64
}

/// A sequence of token activations kept in positional order, in one
/// contiguous buffer: the frame of position `i` is
/// `tokens[offsets[i]..offsets[i + 1]]` with the matching `weights`.
/// Weights are the bits of the double holding the single-precision value.
#[derive(Clone, Debug, PartialEq)]
pub struct OrderedSparseSequence {
    /// Global signature for O(1) pruning: the hashes of the emitted tokens.
    pub global_signature: [u64; 2],
    /// Start of each position's frame in the buffers; one more than the
    /// number of positions.
    pub offsets: Vec<u32>,
    /// The tokens of all positions, concatenated in positional order.
    pub tokens: Vec<TokenId>,
    /// The weights, aligned with `tokens`.
    pub weights: Vec<Reale>,
}

impl OrderedSparseSequence {
    /// The offsets start at 0, never decrease, and end at the length of the
    /// two aligned buffers.
    pub open spec fn ben_formata(&self) -> bool {
        &&& self.offsets@.len() >= 1
        &&& self.offsets@[0] == 0
        &&& forall|k: int|
            0 <= k < self.offsets@.len() - 1 ==> self.offsets@[k] <= #[trigger] self.offsets@[k + 1]
        &&& self.offsets@.last() == self.tokens@.len()
        &&& self.tokens@.len() == self.weights@.len()
    }

    /// The number of positions of the sequence.
    pub open spec fn posizioni(&self) -> int {
        if self.offsets@.len() == 0 {
            0
        } else {
            self.offsets@.len() - 1
        }
    }

    /// All activations, in buffer order.
    pub open spec fn attivazioni(&self) -> Seq<Attivazione> {
        coppie(self.tokens@, self.weights@)
    }

    /// The activations of position `i`.
    pub open spec fn frame(&self, i: int) -> Seq<Attivazione> {
        self.attivazioni().subrange(self.offsets@[i] as int, self.offsets@[i + 1] as int)
    }

    /// Builds the sequence from the activations of each position, sorting
    /// every position by token id and computing the global signature.
    /// Fails on an empty sequence, and on the first position that is empty
    /// or holds a weight that is not finite.
    pub fn from_frames(frames: &[Vec<Attivazione>]) -> (r: Result<Self, &'static str>)
        requires
            totale_attivazioni(frames@) <= u32::MAX,
        ensures
            frames@.len() == 0 ==> r == Err::<Self, &'static str>(ERR_SEQUENZA_VUOTA),
            frames@.len() > 0 ==> match primo_difetto(frames@, 0) {
                Some(m) => r == Err::<Self, &'static str>(m),
                None => r is Ok,
            },
            r matches Ok(seq) ==> {
                &&& seq.ben_formata()
                &&& seq.posizioni() == frames@.len()
                &&& forall|p: int|
                    0 <= p < frames@.len() ==> #[trigger] seq.offsets@[p + 1] == seq.offsets@[p]
                        + frames@[p]@.len()
                &&& forall|p: int|
                    0 <= p < frames@.len() ==> {
                        &&& ordinate_per_token(#[trigger] seq.frame(p))
                        &&& seq.frame(p).to_multiset() == frames@[p]@.to_multiset()
                    }
                &&& seq.global_signature[0] == firma(seq.attivazioni()).0
                &&& seq.global_signature[1] == firma(seq.attivazioni()).1
                &&& forall|b: u64|
                    b < 64 ==> (ha_bit(seq.global_signature[0], b) <==> exists|p: int|
                        0 <= p < frames@.len() && #[trigger] positivo_con_bit(
                            frames@[p]@,
                            b,
                            false,
                        ))
                &&& forall|b: u64|
                    b < 64 ==> (ha_bit(seq.global_signature[1], b) <==> exists|p: int|
                        0 <= p < frames@.len() && #[trigger] positivo_con_bit(
                            frames@[p]@,
                            b,
                            true,
                        ))
                &&& (forall|p: int, a: int|
                    0 <= p < frames@.len() && 0 <= a < frames@[p]@.len() ==> !minore(
                        ZERO,
                        (#[trigger] frames@[p]@[a]).1,
                    )) ==> seq.global_signature[0] == 0 && seq.global_signature[1] == 0
            },
    {
        if frames.len() == 0 {
            return Err(ERR_SEQUENZA_VUOTA);
        }
        let ghost fs = frames@;
        let mut offsets: Vec<u32> = Vec::new();
        let mut tokens: Vec<TokenId> = Vec::new();
        let mut weights: Vec<Reale> = Vec::new();
        let mut sig0: u64 = 0;
        let mut sig1: u64 = 0;
        offsets.push(0u32);
        let mut i: usize = 0;
        proof {
            assert(fs.take(0).len() == 0);
            assert(coppie(tokens@, weights@) =~= Seq::<Attivazione>::empty());
        }
        while i < frames.len()
            invariant
                fs == frames@,
                0 <= i <= fs.len(),
                totale_attivazioni(fs) <= u32::MAX,
                offsets@.len() == i + 1,
                offsets@[0] == 0,
                forall|p: int|
                    0 <= p < i ==> #[trigger] offsets@[p + 1] == offsets@[p] + fs[p]@.len(),
                offsets@.last() == tokens@.len(),
                tokens@.len() == weights@.len(),
                tokens@.len() == totale_attivazioni(fs.take(i as int)),
                forall|p: int|
                    0 <= p < i ==> {
                        &&& ordinate_per_token(
                            #[trigger] coppie(tokens@, weights@).subrange(
                                offsets@[p] as int,
                                offsets@[p + 1] as int,
                            ),
                        )
                        &&& coppie(tokens@, weights@).subrange(
                            offsets@[p] as int,
                            offsets@[p + 1] as int,
                        ).to_multiset() == fs[p]@.to_multiset()
                    },
                sig0 == firma(coppie(tokens@, weights@)).0,
                sig1 == firma(coppie(tokens@, weights@)).1,
                primo_difetto(fs, 0) == primo_difetto(fs, i as int),
            decreases fs.len() - i,
        {
            let frame = &frames[i];
            if frame.len() == 0 {
                return Err(ERR_POSIZIONE_VUOTA);
            }
            let mut k: usize = 0;
            while k < frame.len()
                invariant
                    fs == frames@,
                    0 <= i < fs.len(),
                    0 <= k <= frame@.len(),
                    frame@ == fs[i as int]@,
                    primo_difetto(fs, 0) == primo_difetto(fs, i as int),
                    forall|a: int| 0 <= a < k ==> e_finito(#[trigger] frame@[a].1),
                decreases frame.len() - k,
            {
                if !finito(frame[k].1) {
                    proof {
                        assert(!e_finito(fs[i as int]@[k as int].1));
                        assert(difetto_posizione(fs[i as int]@) == Some(ERR_PESO_NON_FINITO));
                    }
                    return Err(ERR_PESO_NON_FINITO);
                }
                k += 1;
            }
            proof {
                assert(difetto_posizione(fs[i as int]@) is None);
                assert(primo_difetto(fs, i as int) == primo_difetto(fs, i + 1));
                lemma_totale_prefisso(fs, i as int);
            }
            let ordinato = ordina_per_token(frame);
            let ghost base = coppie(tokens@, weights@);
            let ghost base_off = offsets@;
            let mut j: usize = 0;
            while j < ordinato.len()
                invariant
                    0 <= j <= ordinato@.len(),
                    ordinato@.len() == fs[i as int]@.len(),
                    base.len() + ordinato@.len() <= u32::MAX,
                    coppie(tokens@, weights@) =~= base + ordinato@.take(j as int),
                    tokens@.len() == weights@.len(),
                    sig0 == firma(coppie(tokens@, weights@)).0,
                    sig1 == firma(coppie(tokens@, weights@)).1,
                decreases ordinato.len() - j,
            {
                let (t, w) = ordinato[j];
                if positivo(w) {
                    let h = impronta_exec(t);
                    sig0 = sig0 | h;
                    sig1 = sig1 | ((h << 32u64) | (h >> 32u64));
                }
                let ghost prima = coppie(tokens@, weights@);
                tokens.push(t);
                weights.push(w);
                proof {
                    assert(coppie(tokens@, weights@) =~= prima.push((t, w)));
                    assert(coppie(tokens@, weights@).drop_last() =~= prima);
                    assert(ordinato@.take(j + 1) =~= ordinato@.take(j as int).push((t, w)));
                }
                j += 1;
            }
            proof {
                assert(ordinato@.take(ordinato@.len() as int) =~= ordinato@);
            }
            offsets.push(tokens.len() as u32);
            proof {
                let ora = coppie(tokens@, weights@);
                assert(ora.subrange(base.len() as int, ora.len() as int) =~= ordinato@);
                assert forall|p: int| 0 <= p < i implies #[trigger] ora.subrange(
                    offsets@[p] as int,
                    offsets@[p + 1] as int,
                ) =~= base.subrange(offsets@[p] as int, offsets@[p + 1] as int) by {
                    lemma_offset_nel_prefisso(base_off, fs, p, i as int);
                }
            }
            i += 1;
        }
        let seq = OrderedSparseSequence {
            global_signature: [sig0, sig1],
            offsets,
            tokens,
            weights,
        };
        proof {
            assert forall|k: int| 0 <= k < seq.offsets@.len() - 1 implies seq.offsets@[k]
                <= #[trigger] seq.offsets@[k + 1] by {
                assert(seq.offsets@[k + 1] == seq.offsets@[k] + fs[k]@.len());
            }
            assert forall|p: int| 0 <= p < fs.len() implies {
                &&& ordinate_per_token(#[trigger] seq.frame(p))
                &&& seq.frame(p).to_multiset() == fs[p]@.to_multiset()
            } by {
                assert(seq.frame(p) == coppie(seq.tokens@, seq.weights@).subrange(
                    seq.offsets@[p] as int,
                    seq.offsets@[p + 1] as int,
                ));
            }
            lemma_firma_dai_frame(&seq, fs);
        }
        Ok(seq)
    }
}

/// The number of one bits of `x` (`x.count_ones()`).
pub open spec fn bit_accesi(x: u64) -> nat
    decreases x,
{
    if x == 0 {
        0
    } else {
        (x % 2) as nat + bit_accesi(x / 2)
    }
}

fn conta_bit(x: u64) -> (r: u32)
    ensures
        r == bit_accesi(x),
        r <= 64,
{
    let mut y = x;
    let mut c: u32 = 0;
    proof {
        lemma_bit_accesi_limite(x);
    }
    while y != 0
        invariant
            c + bit_accesi(y) == bit_accesi(x),
            bit_accesi(x) <= 64,
        decreases y,
    {
        c = c + (y % 2) as u32;
        y = y / 2;
    }
    c
}

/// A 64-bit word has at most 64 one bits.
proof fn lemma_bit_accesi_limite(x: u64)
    ensures
        bit_accesi(x) <= 64,
{
    reveal_with_fuel(pow2, 65);
    lemma_bit_accesi_sotto(x, 64);
}

proof fn lemma_bit_accesi_sotto(x: u64, n: nat)
    requires
        x < pow2(n),
    ensures
        bit_accesi(x) <= n,
    decreases n,
{
    if x != 0 {
        if n == 0 {
            assert(false);
        } else {
            lemma_bit_accesi_sotto(x / 2, (n - 1) as nat);
        }
    }
}

/// `2^n`.
pub open spec fn pow2(n: nat) -> int
    decreases n,
{
    if n == 0 {
        1
    } else {
        2 * pow2((n - 1) as nat)
    }
}

/// The number of emitted activations (weight > 0).
pub open spec fn emesse(w: Seq<Reale>) -> int
    decreases w.len(),
{
    if w.len() == 0 {
        0
    } else {
        (if minore(ZERO, w[0]) {
            1int
        } else {
            0int
        }) + emesse(w.drop_first())
    }
}

/// The two-pointer merge of two frames sorted by token, over the emitted
/// activations only: the pair (shared tokens, tokens in either). On frames
/// sorted by token these are the sizes of the intersection and of the union
/// of the two multisets of emitted tokens.
pub open spec fn fusione(ta: Seq<TokenId>, wa: Seq<Reale>, tb: Seq<TokenId>, wb: Seq<Reale>) -> (
    int,
    int,
)
    decreases ta.len() + tb.len(),
{
    if ta.len() == 0 || wa.len() == 0 {
        (0, emesse(wb))
    } else if tb.len() == 0 || wb.len() == 0 {
        (0, emesse(wa))
    } else if !minore(ZERO, wa[0]) {
        fusione(ta.drop_first(), wa.drop_first(), tb, wb)
    } else if !minore(ZERO, wb[0]) {
        fusione(ta, wa, tb.drop_first(), wb.drop_first())
    } else if ta[0] == tb[0] {
        let r = fusione(ta.drop_first(), wa.drop_first(), tb.drop_first(), wb.drop_first());
        (r.0 + 1, r.1 + 1)
    } else if ta[0] < tb[0] {
        let r = fusione(ta.drop_first(), wa.drop_first(), tb, wb);
        (r.0, r.1 + 1)
    } else {
        let r = fusione(ta, wa, tb.drop_first(), wb.drop_first());
        (r.0, r.1 + 1)
    }
}

impl OrderedSparseSequence {
    /// The number of bits that the global signatures of two sequences share.
    pub open spec fn sovrapposizione(&self, other: &Self) -> nat {
        bit_accesi(self.global_signature[0] & other.global_signature[0]) + bit_accesi(
            self.global_signature[1] & other.global_signature[1],
        )
    }

    /// Checks that the buffers of the sequence are well formed.
    pub fn e_ben_formata(&self) -> (r: bool)
        ensures
            r == self.ben_formata(),
    {
        let n = self.offsets.len();
        if n == 0 || self.offsets[0] != 0 || self.tokens.len() != self.weights.len() {
            return false;
        }
        let mut k: usize = 0;
        while k + 1 < n
            invariant
                n == self.offsets@.len(),
                0 <= k < n,
                forall|j: int| 0 <= j < k ==> self.offsets@[j] <= #[trigger] self.offsets@[j + 1],
            decreases n - k,
        {
            if self.offsets[k] > self.offsets[k + 1] {
                return false;
            }
            k += 1;
        }
        self.offsets[n - 1] as usize == self.tokens.len()
    }

    /// The number of positions (steps) of the sequence.
    pub fn num_positions(&self) -> (r: usize)
        ensures
            r == self.posizioni(),
    {
        if self.offsets.len() == 0 {
            0
        } else {
            self.offsets.len() - 1
        }
    }

    /// The tokens of position `i`.
    pub fn tokens_at(&self, i: usize) -> (r: &[TokenId])
        requires
            self.ben_formata(),
            i < self.posizioni(),
        ensures
            r@ == self.tokens@.subrange(self.offsets@[i as int] as int, self.offsets@[i + 1] as int),
    {
        let n = self.offsets.len();
        let start = self.offsets[i] as usize;
        let end = self.offsets[i + 1] as usize;
        proof {
            lemma_offset_limitati(self, i as int);
        }
        &self.tokens.as_slice()[start..end]
    }

    /// The weights of position `i`.
    pub fn weights_at(&self, i: usize) -> (r: &[Reale])
        requires
            self.ben_formata(),
            i < self.posizioni(),
        ensures
            r@ == self.weights@.subrange(
                self.offsets@[i as int] as int,
                self.offsets@[i + 1] as int,
            ),
    {
        let n = self.offsets.len();
        let start = self.offsets[i] as usize;
        let end = self.offsets[i + 1] as usize;
        proof {
            lemma_offset_limitati(self, i as int);
        }
        &self.weights.as_slice()[start..end]
    }

    /// Layer 1, O(1) pruning: the number of bits shared by the two global
    /// signatures (0 to 128).
    pub fn global_overlap(&self, other: &Self) -> (r: u32)
        ensures
            r == self.sovrapposizione(other),
            r <= 128,
    {
        let a = self.global_signature[0] & other.global_signature[0];
        let b = self.global_signature[1] & other.global_signature[1];
        conta_bit(a) + conta_bit(b)
    }

    /// Layer 2, positional overlap at position `i`: the shared and the total
    /// emitted tokens of the two frames, from which the local Jaccard
    /// coefficient is their ratio. On frames sorted by token (as
    /// `from_frames` builds them) these are the sizes of the intersection and
    /// of the union of the multisets of emitted tokens. `None` when both
    /// frames are empty.
    pub fn concordanza_posizionale(&self, other: &Self, i: usize) -> (r: Option<(usize, usize)>)
        requires
            self.ben_formata(),
            other.ben_formata(),
            i < self.posizioni(),
            i < other.posizioni(),
            self.tokens@.len() + other.tokens@.len() <= usize::MAX,
        ensures
            ({
                let ta = self.tokens@.subrange(
                    self.offsets@[i as int] as int,
                    self.offsets@[i + 1] as int,
                );
                let wa = self.weights@.subrange(
                    self.offsets@[i as int] as int,
                    self.offsets@[i + 1] as int,
                );
                let tb = other.tokens@.subrange(
                    other.offsets@[i as int] as int,
                    other.offsets@[i + 1] as int,
                );
                let wb = other.weights@.subrange(
                    other.offsets@[i as int] as int,
                    other.offsets@[i + 1] as int,
                );
                if ta.len() == 0 && tb.len() == 0 {
                    r is None
                } else {
                    &&& r matches Some(c) && c.0 == fusione(ta, wa, tb, wb).0 && c.1 == fusione(
                        ta,
                        wa,
                        tb,
                        wb,
                    ).1
                    &&& token_ordinati(ta) && token_ordinati(tb) ==> (r matches Some(c) && c.0
                        == token_emessi(ta, wa).intersection_with(token_emessi(tb, wb)).len()
                        && c.1 == token_emessi(ta, wa).len() + token_emessi(tb, wb).len() - c.0)
                }
            }),
    {
        proof {
            lemma_offset_limitati(self, i as int);
            lemma_offset_limitati(other, i as int);
        }
        let ta = self.tokens_at(i);
        let tb = other.tokens_at(i);
        let wa = self.weights_at(i);
        let wb = other.weights_at(i);
        if ta.len() == 0 && tb.len() == 0 {
            return None;
        }
        let ghost (sta, swa, stb, swb) = (ta@, wa@, tb@, wb@);
        let mut pa: usize = 0;
        let mut pb: usize = 0;
        let mut inter: usize = 0;
        let mut union: usize = 0;
        proof {
            assert(sta.skip(0) =~= sta);
            assert(swa.skip(0) =~= swa);
            assert(stb.skip(0) =~= stb);
            assert(swb.skip(0) =~= swb);
        }
        while pa < ta.len() && pb < tb.len()
            invariant
                sta == ta@,
                swa == wa@,
                stb == tb@,
                swb == wb@,
                ta@.len() == wa@.len(),
                tb@.len() == wb@.len(),
                0 <= pa <= ta@.len(),
                0 <= pb <= tb@.len(),
                inter <= pa + pb,
                union <= pa + pb,
                ta@.len() + tb@.len() <= usize::MAX,
                inter + fusione(sta.skip(pa as int), swa.skip(pa as int), stb.skip(pb as int), swb.skip(pb as int)).0
                    == fusione(sta, swa, stb, swb).0,
                union + fusione(sta.skip(pa as int), swa.skip(pa as int), stb.skip(pb as int), swb.skip(pb as int)).1
                    == fusione(sta, swa, stb, swb).1,
            decreases ta.len() + tb.len() - pa - pb,
        {
            proof {
                assert(sta.skip(pa as int).drop_first() =~= sta.skip(pa + 1));
                assert(swa.skip(pa as int).drop_first() =~= swa.skip(pa + 1));
                assert(stb.skip(pb as int).drop_first() =~= stb.skip(pb + 1));
                assert(swb.skip(pb as int).drop_first() =~= swb.skip(pb + 1));
            }
            if !positivo(wa[pa]) {
                pa += 1;
                continue;
            }
            if !positivo(wb[pb]) {
                pb += 1;
                continue;
            }
            union += 1;
            if ta[pa] == tb[pb] {
                inter += 1;
                pa += 1;
                pb += 1;
            } else if ta[pa] < tb[pb] {
                pa += 1;
            } else {
                pb += 1;
            }
        }
        proof {
            assert(sta.skip(pa as int).len() == 0 || stb.skip(pb as int).len() == 0);
            if sta.skip(pa as int).len() == 0 {
                assert(swa.skip(pa as int) =~= Seq::<Reale>::empty());
            } else {
                assert(swb.skip(pb as int) =~= Seq::<Reale>::empty());
            }
            assert(emesse(Seq::<Reale>::empty()) == 0);
        }
        while pa < ta.len()
            invariant
                sta == ta@,
                swa == wa@,
                swb == wb@,
                ta@.len() == wa@.len(),
                tb@.len() == wb@.len(),
                0 <= pa <= ta@.len(),
                0 <= pb <= tb@.len(),
                pa == ta@.len() || pb == tb@.len(),
                union <= pa + pb,
                ta@.len() + tb@.len() <= usize::MAX,
                union + emesse(swa.skip(pa as int)) + emesse(swb.skip(pb as int)) == fusione(
                    sta,
                    swa,
                    stb,
                    swb,
                ).1,
            decreases ta.len() - pa,
        {
            proof {
                assert(swa.skip(pa as int).drop_first() =~= swa.skip(pa + 1));
            }
            if positivo(wa[pa]) {
                union += 1;
            }
            pa += 1;
            proof {
                if pb < tb@.len() {
                    assert(false);
                }
            }
        }
        proof {
            assert(swa.skip(pa as int) =~= Seq::<Reale>::empty());
        }
        while pb < tb.len()
            invariant
                stb == tb@,
                swb == wb@,
                tb@.len() == wb@.len(),
                0 <= pb <= tb@.len(),
                union <= ta@.len() + pb,
                ta@.len() + tb@.len() <= usize::MAX,
                union + emesse(swb.skip(pb as int)) == fusione(sta, swa, stb, swb).1,
            decreases tb.len() - pb,
        {
            proof {
                assert(swb.skip(pb as int).drop_first() =~= swb.skip(pb + 1));
            }
            if positivo(wb[pb]) {
                union += 1;
            }
            pb += 1;
        }
        proof {
            if token_ordinati(sta) && token_ordinati(stb) {
                concordanza_e_jaccard_dei_multinsiemi(sta, swa, stb, swb);
            }
        }
        Some((inter, union))
    }
}

/// The multiset of the emitted tokens (weight > 0) of a frame.
pub open spec fn token_emessi(t: Seq<TokenId>, w: Seq<Reale>) -> Multiset<TokenId>
    decreases t.len(),
{
    if t.len() == 0 || w.len() == 0 {
        Multiset::empty()
    } else {
        let resto = token_emessi(t.drop_first(), w.drop_first());
        if minore(ZERO, w[0]) {
            resto.insert(t[0])
        } else {
            resto
        }
    }
}

/// The tokens are sorted.
pub open spec fn token_ordinati(t: Seq<TokenId>) -> bool {
    forall|a: int, b: int| 0 <= a <= b < t.len() ==> t[a] <= t[b]
}

proof fn lemma_emessi_contati(t: Seq<TokenId>, w: Seq<Reale>)
    requires
        t.len() == w.len(),
    ensures
        token_emessi(t, w).len() == emesse(w),
    decreases t.len(),
{
    broadcast use vstd::multiset::group_multiset_properties;

    if t.len() > 0 {
        lemma_emessi_contati(t.drop_first(), w.drop_first());
    }
}

proof fn lemma_emessi_assente(t: Seq<TokenId>, w: Seq<Reale>, x: TokenId)
    requires
        forall|k: int| 0 <= k < t.len() ==> t[k] != x,
    ensures
        token_emessi(t, w).count(x) == 0,
    decreases t.len(),
{
    broadcast use vstd::multiset::group_multiset_properties;

    if t.len() > 0 && w.len() > 0 {
        lemma_emessi_assente(t.drop_first(), w.drop_first(), x);
    }
}

/// On frames sorted by token, the two-pointer merge counts the shared
/// emitted tokens and the emitted tokens of either frame: the sizes of the
/// intersection and of the union of the two multisets of emitted tokens. The
/// local Jaccard coefficient is their ratio.
pub proof fn concordanza_e_jaccard_dei_multinsiemi(
    ta: Seq<TokenId>,
    wa: Seq<Reale>,
    tb: Seq<TokenId>,
    wb: Seq<Reale>,
)
    requires
        ta.len() == wa.len(),
        tb.len() == wb.len(),
        token_ordinati(ta),
        token_ordinati(tb),
    ensures
        fusione(ta, wa, tb, wb).0 == token_emessi(ta, wa).intersection_with(
            token_emessi(tb, wb),
        ).len(),
        fusione(ta, wa, tb, wb).1 == token_emessi(ta, wa).len() + token_emessi(tb, wb).len()
            - fusione(ta, wa, tb, wb).0,
    decreases ta.len() + tb.len(),
{
    broadcast use vstd::multiset::group_multiset_properties;

    let ma = token_emessi(ta, wa);
    let mb = token_emessi(tb, wb);
    lemma_emessi_contati(ta, wa);
    lemma_emessi_contati(tb, wb);
    if ta.len() == 0 {
        assert(ma.intersection_with(mb) =~= Multiset::empty());
    } else if tb.len() == 0 {
        assert(ma.intersection_with(mb) =~= Multiset::empty());
    } else {
        let (ta1, wa1, tb1, wb1) = (ta.drop_first(), wa.drop_first(), tb.drop_first(), wb.drop_first());
        assert(token_ordinati(ta1));
        assert(token_ordinati(tb1));
        let ma1 = token_emessi(ta1, wa1);
        let mb1 = token_emessi(tb1, wb1);
        if !minore(ZERO, wa[0]) {
            concordanza_e_jaccard_dei_multinsiemi(ta1, wa1, tb, wb);
        } else if !minore(ZERO, wb[0]) {
            concordanza_e_jaccard_dei_multinsiemi(ta, wa, tb1, wb1);
        } else if ta[0] == tb[0] {
            concordanza_e_jaccard_dei_multinsiemi(ta1, wa1, tb1, wb1);
            let x = ta[0];
            assert(ma.intersection_with(mb) =~= ma1.intersection_with(mb1).insert(x));
        } else if ta[0] < tb[0] {
            concordanza_e_jaccard_dei_multinsiemi(ta1, wa1, tb, wb);
            let x = ta[0];
            assert forall|k: int| 0 <= k < tb.len() implies tb[k] != x by {
                assert(tb[0] <= tb[k]);
            }
            lemma_emessi_assente(tb, wb, x);
            assert(ma.intersection_with(mb) =~= ma1.intersection_with(mb));
        } else {
            concordanza_e_jaccard_dei_multinsiemi(ta, wa, tb1, wb1);
            let x = tb[0];
            assert forall|k: int| 0 <= k < ta.len() implies ta[k] != x by {
                assert(ta[0] <= ta[k]);
            }
            lemma_emessi_assente(ta, wa, x);
            assert(ma.intersection_with(mb) =~= ma.intersection_with(mb1));
        }
    }
}

/// On frames sorted by token, the positional overlap does not depend on the
/// order of the two frames, and a frame overlaps itself in all of its
/// emitted tokens (its local Jaccard coefficient with itself is 1 as soon as
/// it emits a token).
pub proof fn concordanza_simmetrica_e_riflessiva(
    ta: Seq<TokenId>,
    wa: Seq<Reale>,
    tb: Seq<TokenId>,
    wb: Seq<Reale>,
)
    requires
        ta.len() == wa.len(),
        tb.len() == wb.len(),
        token_ordinati(ta),
        token_ordinati(tb),
    ensures
        fusione(ta, wa, tb, wb) == fusione(tb, wb, ta, wa),
        fusione(ta, wa, ta, wa) == (emesse(wa), emesse(wa)),
{
    broadcast use vstd::multiset::group_multiset_properties;

    concordanza_e_jaccard_dei_multinsiemi(ta, wa, tb, wb);
    concordanza_e_jaccard_dei_multinsiemi(tb, wb, ta, wa);
    concordanza_e_jaccard_dei_multinsiemi(ta, wa, ta, wa);
    lemma_emessi_contati(ta, wa);
    let ma = token_emessi(ta, wa);
    let mb = token_emessi(tb, wb);
    assert(ma.intersection_with(mb) =~= mb.intersection_with(ma));
    assert(ma.intersection_with(ma) =~= ma);
}

/// The overlap of two global signatures does not depend on their order, and
/// a signature overlaps itself in all of its one bits.
pub proof fn sovrapposizione_simmetrica(a: OrderedSparseSequence, b: OrderedSparseSequence)
    ensures
        a.sovrapposizione(&b) == b.sovrapposizione(&a),
        a.sovrapposizione(&a) == bit_accesi(a.global_signature[0]) + bit_accesi(
            a.global_signature[1],
        ),
{
    let (x0, x1, y0, y1) = (
        a.global_signature[0],
        a.global_signature[1],
        b.global_signature[0],
        b.global_signature[1],
    );
    assert(x0 & y0 == y0 & x0) by (bit_vector);
    assert(x1 & y1 == y1 & x1) by (bit_vector);
    assert(x0 & x0 == x0) by (bit_vector);
    assert(x1 & x1 == x1) by (bit_vector);
}

/// Bit `b` of `x` is set.
pub open spec fn ha_bit(x: u64, b: u64) -> bool {
    (x >> b) & 1u64 == 1u64
}

/// Some activation of `s` has a strictly positive weight and a hash whose
/// bit `b` is set (the hash rotated by 32 bits when `ruotato`).
pub open spec fn positivo_con_bit(s: Seq<Attivazione>, b: u64, ruotato: bool) -> bool {
    exists|k: int|
        0 <= k < s.len() && minore(ZERO, (#[trigger] s[k]).1) && ha_bit(
            if ruotato {
                ruota32(impronta(s[k].0))
            } else {
                impronta(s[k].0)
            },
            b,
        )
}

proof fn lemma_bit_or(x: u64, y: u64, b: u64)
    requires
        b < 64,
    ensures
        ha_bit(x | y, b) <==> (ha_bit(x, b) || ha_bit(y, b)),
        !ha_bit(0u64, b),
{
    assert(((x | y) >> b) & 1u64 == 1u64 <==> (((x >> b) & 1u64 == 1u64) || ((y >> b) & 1u64
        == 1u64))) by (bit_vector)
        requires
            b < 64u64,
    ;
    assert((0u64 >> b) & 1u64 != 1u64) by (bit_vector);
}

/// The signature is the OR of the hashes of the activations whose weight is
/// strictly positive, and of those only: a bit of its first word is set
/// exactly when it is set in the hash of such a token, and a bit of its
/// second word exactly when it is set in that hash rotated by 32 bits.
pub proof fn firma_e_or_dei_positivi(s: Seq<Attivazione>, b: u64)
    requires
        b < 64,
    ensures
        ha_bit(firma(s).0, b) <==> positivo_con_bit(s, b, false),
        ha_bit(firma(s).1, b) <==> positivo_con_bit(s, b, true),
    decreases s.len(),
{
    if s.len() == 0 {
        lemma_bit_or(0u64, 0u64, b);
    } else {
        let pre = s.drop_last();
        let x = s.last();
        firma_e_or_dei_positivi(pre, b);
        let f = firma(pre);
        lemma_bit_or(f.0, impronta(x.0), b);
        lemma_bit_or(f.1, ruota32(impronta(x.0)), b);
        assert(s[s.len() - 1] == x);
        if positivo_con_bit(pre, b, false) {
            let k = choose|k: int|
                0 <= k < pre.len() && minore(ZERO, (#[trigger] pre[k]).1) && ha_bit(
                    impronta(pre[k].0),
                    b,
                );
            assert(s[k] == pre[k]);
        }
        if positivo_con_bit(pre, b, true) {
            let k = choose|k: int|
                0 <= k < pre.len() && minore(ZERO, (#[trigger] pre[k]).1) && ha_bit(
                    ruota32(impronta(pre[k].0)),
                    b,
                );
            assert(s[k] == pre[k]);
        }
        if positivo_con_bit(s, b, false) {
            let k = choose|k: int|
                0 <= k < s.len() && minore(ZERO, (#[trigger] s[k]).1) && ha_bit(
                    impronta(s[k].0),
                    b,
                );
            if k < pre.len() {
                assert(s[k] == pre[k]);
            }
        }
        if positivo_con_bit(s, b, true) {
            let k = choose|k: int|
                0 <= k < s.len() && minore(ZERO, (#[trigger] s[k]).1) && ha_bit(
                    ruota32(impronta(s[k].0)),
                    b,
                );
            if k < pre.len() {
                assert(s[k] == pre[k]);
            }
        }
    }
}

/// A run of activations in which no weight is strictly positive has the
/// empty signature `[0, 0]`.
pub proof fn firma_senza_pesi_positivi(s: Seq<Attivazione>)
    requires
        forall|k: int| 0 <= k < s.len() ==> !minore(ZERO, (#[trigger] s[k]).1),
    ensures
        firma(s) == (0u64, 0u64),
    decreases s.len(),
{
    if s.len() > 0 {
        let pre = s.drop_last();
        assert forall|k: int| 0 <= k < pre.len() implies !minore(ZERO, (#[trigger] pre[k]).1) by {
            assert(pre[k] == s[k]);
        }
        firma_senza_pesi_positivi(pre);
        assert(!minore(ZERO, s[s.len() - 1].1));
    }
}

/// Adding an activation whose weight is not strictly positive, at any place
/// of a run, leaves its signature unchanged.
pub proof fn firma_ignora_i_pesi_non_positivi(s: Seq<Attivazione>, k: int, x: Attivazione)
    requires
        0 <= k <= s.len(),
        !minore(ZERO, x.1),
    ensures
        firma(s.insert(k, x)) == firma(s),
    decreases s.len(),
{
    let t = s.insert(k, x);
    if k == s.len() {
        assert(t.drop_last() =~= s);
        assert(t.last() == x);
    } else {
        assert(t.drop_last() =~= s.drop_last().insert(k, x));
        assert(t.last() == s.last());
        firma_ignora_i_pesi_non_positivi(s.drop_last(), k, x);
    }
}

proof fn lemma_posizione_di(s: &OrderedSparseSequence, k: int, p: int)
    requires
        s.ben_formata(),
        0 <= p < s.posizioni(),
        s.offsets@[p] <= k < s.tokens@.len(),
    ensures
        exists|q: int|
            0 <= q < s.posizioni() && s.offsets@[q] <= k < #[trigger] s.offsets@[q + 1],
    decreases s.posizioni() - p,
{
    if k >= s.offsets@[p + 1] {
        lemma_posizione_di(s, k, p + 1);
    }
}

/// Each activation of a sequence built from `frames` is an activation of
/// one of the positions.
proof fn lemma_attivazione_da_frame(s: &OrderedSparseSequence, frames: Seq<Vec<Attivazione>>, k: int)
    requires
        s.ben_formata(),
        s.posizioni() == frames.len(),
        frames.len() > 0,
        forall|p: int|
            0 <= p < frames.len() ==> (#[trigger] s.frame(p)).to_multiset()
                == frames[p]@.to_multiset(),
        0 <= k < s.attivazioni().len(),
    ensures
        exists|p: int, a: int|
            0 <= p < frames.len() && 0 <= a < frames[p]@.len() && #[trigger] frames[p]@[a]
                == s.attivazioni()[k],
{
    let x = s.attivazioni()[k];
    lemma_posizione_di(s, k, 0);
    let q = choose|q: int|
        0 <= q < s.posizioni() && s.offsets@[q] <= k < #[trigger] s.offsets@[q + 1];
    lemma_offset_limitati(s, q);
    let fr = s.frame(q);
    assert(fr[k - s.offsets@[q]] == x);
    assert(fr.contains(x));
    fr.to_multiset_ensures();
    frames[q]@.to_multiset_ensures();
    assert(fr.to_multiset() == frames[q]@.to_multiset());
    assert(fr.to_multiset().count(x) > 0);
    assert(frames[q]@.to_multiset().count(x) > 0);
    assert(frames[q]@.contains(x));
    let a = choose|a: int| 0 <= a < frames[q]@.len() && frames[q]@[a] == x;
    assert(frames[q]@[a] == x);
}

/// Each activation of a position is among the activations of a sequence
/// built from `frames`.
proof fn lemma_frame_in_attivazioni(s: &OrderedSparseSequence, frames: Seq<Vec<Attivazione>>, p: int, a: int)
    requires
        s.ben_formata(),
        s.posizioni() == frames.len(),
        forall|p: int|
            0 <= p < frames.len() ==> (#[trigger] s.frame(p)).to_multiset()
                == frames[p]@.to_multiset(),
        0 <= p < frames.len(),
        0 <= a < frames[p]@.len(),
    ensures
        exists|k: int| 0 <= k < s.attivazioni().len() && #[trigger] s.attivazioni()[k] == frames[p]@[a],
{
    let x = frames[p]@[a];
    lemma_offset_limitati(s, p);
    let fr = s.frame(p);
    fr.to_multiset_ensures();
    frames[p]@.to_multiset_ensures();
    assert(frames[p]@.contains(x));
    assert(fr.to_multiset() == frames[p]@.to_multiset());
    assert(frames[p]@.to_multiset().count(x) > 0);
    assert(fr.to_multiset().count(x) > 0);
    assert(fr.contains(x));
    let h = choose|h: int| 0 <= h < fr.len() && fr[h] == x;
    assert(s.attivazioni()[s.offsets@[p] + h] == fr[h]);
}

/// The signature of a sequence built from `frames`, read on the positions:
/// a bit is set exactly when some activation of some position has a
/// strictly positive weight and a hash with that bit set (rotated for the
/// second word); with no positive weight anywhere it is `[0, 0]`.
proof fn lemma_firma_dai_frame(s: &OrderedSparseSequence, frames: Seq<Vec<Attivazione>>)
    requires
        s.ben_formata(),
        s.posizioni() == frames.len(),
        frames.len() > 0,
        forall|p: int|
            0 <= p < frames.len() ==> (#[trigger] s.frame(p)).to_multiset()
                == frames[p]@.to_multiset(),
    ensures
        forall|b: u64|
            b < 64 ==> (ha_bit(firma(s.attivazioni()).0, b) <==> exists|p: int|
                0 <= p < frames.len() && #[trigger] positivo_con_bit(frames[p]@, b, false)),
        forall|b: u64|
            b < 64 ==> (ha_bit(firma(s.attivazioni()).1, b) <==> exists|p: int|
                0 <= p < frames.len() && #[trigger] positivo_con_bit(frames[p]@, b, true)),
        (forall|p: int, a: int|
            0 <= p < frames.len() && 0 <= a < frames[p]@.len() ==> !minore(
                ZERO,
                (#[trigger] frames[p]@[a]).1,
            )) ==> firma(s.attivazioni()) == (0u64, 0u64),
{
    let att = s.attivazioni();
    assert forall|b: u64, r: bool| #![trigger positivo_con_bit(att, b, r)] b < 64 implies (positivo_con_bit(att, b, r) <==> exists|p: int|
        0 <= p < frames.len() && #[trigger] positivo_con_bit(frames[p]@, b, r)) by {
        if positivo_con_bit(att, b, r) {
            let k = choose|k: int|
                0 <= k < att.len() && minore(ZERO, (#[trigger] att[k]).1) && ha_bit(
                    if r {
                        ruota32(impronta(att[k].0))
                    } else {
                        impronta(att[k].0)
                    },
                    b,
                );
            lemma_attivazione_da_frame(s, frames, k);
            let (p, a) = choose|p: int, a: int|
                0 <= p < frames.len() && 0 <= a < frames[p]@.len() && #[trigger] frames[p]@[a]
                    == att[k];
            assert(positivo_con_bit(frames[p]@, b, r));
        }
        if exists|p: int| 0 <= p < frames.len() && #[trigger] positivo_con_bit(frames[p]@, b, r) {
            let p = choose|p: int|
                0 <= p < frames.len() && #[trigger] positivo_con_bit(frames[p]@, b, r);
            let a = choose|a: int|
                0 <= a < frames[p]@.len() && minore(ZERO, (#[trigger] frames[p]@[a]).1) && ha_bit(
                    if r {
                        ruota32(impronta(frames[p]@[a].0))
                    } else {
                        impronta(frames[p]@[a].0)
                    },
                    b,
                );
            lemma_frame_in_attivazioni(s, frames, p, a);
            let k = choose|k: int| 0 <= k < att.len() && #[trigger] att[k] == frames[p]@[a];
            assert(positivo_con_bit(att, b, r));
        }
    }
    assert forall|b: u64| #![trigger ha_bit(firma(att).0, b)] b < 64 implies (ha_bit(firma(att).0, b) <==> exists|p: int|
        0 <= p < frames.len() && #[trigger] positivo_con_bit(frames[p]@, b, false)) by {
        firma_e_or_dei_positivi(att, b);
        assert(positivo_con_bit(att, b, false) <==> exists|p: int|
            0 <= p < frames.len() && #[trigger] positivo_con_bit(frames[p]@, b, false));
    }
    assert forall|b: u64| #![trigger ha_bit(firma(att).1, b)] b < 64 implies (ha_bit(firma(att).1, b) <==> exists|p: int|
        0 <= p < frames.len() && #[trigger] positivo_con_bit(frames[p]@, b, true)) by {
        firma_e_or_dei_positivi(att, b);
        assert(positivo_con_bit(att, b, true) <==> exists|p: int|
            0 <= p < frames.len() && #[trigger] positivo_con_bit(frames[p]@, b, true));
    }
    if forall|p: int, a: int|
        0 <= p < frames.len() && 0 <= a < frames[p]@.len() ==> !minore(
            ZERO,
            (#[trigger] frames[p]@[a]).1,
        ) {
        assert forall|k: int| 0 <= k < att.len() implies !minore(ZERO, (#[trigger] att[k]).1) by {
            lemma_attivazione_da_frame(s, frames, k);
            let (p, a) = choose|p: int, a: int|
                0 <= p < frames.len() && 0 <= a < frames[p]@.len() && #[trigger] frames[p]@[a]
                    == att[k];
        }
        firma_senza_pesi_positivi(att);
    }
}

proof fn lemma_offset_limitati(s: &OrderedSparseSequence, i: int)
    requires
        s.ben_formata(),
        0 <= i < s.posizioni(),
    ensures
        s.offsets@[i] <= s.offsets@[i + 1] <= s.tokens@.len(),
    decreases s.posizioni() - i,
{
    if i + 1 < s.posizioni() {
        lemma_offset_limitati(s, i + 1);
    }
}

/// When no position from `da` on is defective there is no first defect, and
/// when one is there is.
pub proof fn lemma_primo_difetto(frames: Seq<Vec<Attivazione>>, da: int)
    requires
        0 <= da <= frames.len(),
    ensures
        primo_difetto(frames, da) is None <==> forall|k: int|
            da <= k < frames.len() ==> difetto_posizione(#[trigger] frames[k]@) is None,
    decreases frames.len() - da,
{
    if da < frames.len() {
        lemma_primo_difetto(frames, da + 1);
        if difetto_posizione(frames[da]@) is None {
            assert forall|k: int|
                da <= k < frames.len() && (forall|j: int|
                    da + 1 <= j < frames.len() ==> difetto_posizione(#[trigger] frames[j]@) is None)
                implies difetto_posizione(#[trigger] frames[k]@) is None by {
                if k > da {
                }
            }
        }
    }
}

/// The total number of activations when every position has exactly one.
pub proof fn lemma_totale_singoli(frames: Seq<Vec<Attivazione>>)
    requires
        forall|k: int| 0 <= k < frames.len() ==> (#[trigger] frames[k])@.len() == 1,
    ensures
        totale_attivazioni(frames) == frames.len(),
    decreases frames.len(),
{
    if frames.len() > 0 {
        lemma_totale_singoli(frames.drop_last());
    }
}

proof fn lemma_totale_prefisso(fs: Seq<Vec<Attivazione>>, i: int)
    requires
        0 <= i < fs.len(),
    ensures
        totale_attivazioni(fs.take(i + 1)) == totale_attivazioni(fs.take(i)) + fs[i]@.len(),
        totale_attivazioni(fs.take(i + 1)) <= totale_attivazioni(fs),
    decreases fs.len() - i,
{
    assert(fs.take(i + 1).drop_last() =~= fs.take(i));
    if i + 1 < fs.len() {
        lemma_totale_prefisso(fs, i + 1);
    } else {
        assert(fs.take(i + 1) =~= fs);
    }
}

proof fn lemma_offset_nel_prefisso(off: Seq<u32>, fs: Seq<Vec<Attivazione>>, p: int, i: int)
    requires
        0 <= p < i,
        off.len() == i + 1,
        forall|q: int| 0 <= q < i ==> #[trigger] off[q + 1] == off[q] + fs[q]@.len(),
    ensures
        off[p] <= off[p + 1] <= off[i],
    decreases i - p,
{
    if p + 1 < i {
        lemma_offset_nel_prefisso(off, fs, p + 1, i);
    }
}

} // verus!
