//! The hidden 8x8 marker grid and its canonical 64-bit encoding.

use vstd::prelude::*;
use vstd::arithmetic::power2::{
    pow2, lemma2_to64, lemma2_to64_rest, lemma_pow2_pos, lemma_pow2_unfold,
    lemma_pow2_strictly_increases,
};
use vstd::arithmetic::div_mod::{lemma_div_denominator, lemma_mod_breakdown, lemma_small_mod};
use crate::i8vec2::I8Vec2;

verus! {

/// Index of cell (v.x, v.y) in the row-major scan order of the view.
pub open spec fn grid_index(v: I8Vec2) -> int {
    v.y * 8 + v.x
}

/// What a read of coordinate `v` yields on cell sequence `cells`:
/// `false` for any out-of-grid coordinate, the stored cell otherwise.
pub open spec fn grid_get(cells: Seq<bool>, v: I8Vec2) -> bool {
    v.spec_in_grid() && cells[grid_index(v)]
}

/// Number of `true` entries of a cell sequence.
pub open spec fn count_true(s: Seq<bool>) -> nat
    decreases s.len(),
{
    if s.len() == 0 {
        0
    } else {
        count_true(s.drop_last()) + (if s.last() {
            1nat
        } else {
            0nat
        })
    }
}

/// Horner fold of the cells in scan order: the first cell of the scan ends
/// up in the most significant bit of the canonical encoding.
pub open spec fn encode_fold(s: Seq<bool>) -> nat
    decreases s.len(),
{
    if s.len() == 0 {
        0
    } else {
        2 * encode_fold(s.drop_last()) + (if s.last() {
            1nat
        } else {
            0nat
        })
    }
}

/// Bit `k` (counting from the least significant bit) of `n`.
pub open spec fn nth_bit(n: nat, k: nat) -> bool {
    (n / pow2(k)) % 2 == 1
}

/// The 64 cells encoded by `n`: scan index `i` carries bit `63 - i`.
pub open spec fn decode_seq(n: nat) -> Seq<bool> {
    Seq::new(64, |i: int| nth_bit(n, (63 - i) as nat))
}

/// The hidden inner secret of the game: which of the 64 cells hold a marker.
///
/// The view is the sequence of the 64 cells in row-major scan order:
/// cell (x, y) sits at entry `y * 8 + x`.
#[derive(Debug, PartialEq, Eq)]
pub struct AtomGrid {
    cells: Vec<bool>,
}

impl View for AtomGrid {
    type V = Seq<bool>;

    closed spec fn view(&self) -> Seq<bool> {
        self.cells@
    }
}

impl Default for AtomGrid {
    /// A grid without any markers.
    fn default() -> (r: Self)
        ensures
            r@.len() == 64,
            forall|i: int| 0 <= i < 64 ==> !r@[i],
    {
        let mut cells: Vec<bool> = Vec::new();
        let mut i: usize = 0;
        while i < 64
            invariant
                i <= 64,
                cells@.len() == i,
                forall|t: int| 0 <= t < i ==> !cells@[t],
            decreases 64 - i,
        {
            cells.push(false);
            i += 1;
        }
        AtomGrid { cells }
    }
}

impl AtomGrid {
    #[verifier::type_invariant]
    spec fn wf(self) -> bool {
        self.cells@.len() == 64
    }

    /// Read a cell; out-of-grid coordinates read as empty.
    pub fn get(&self, v: I8Vec2) -> (r: bool)
        ensures
            r == grid_get(self@, v),
    {
        proof {
            use_type_invariant(self);
        }
        if v.in_grid() {
            let idx: usize = (v.y as usize) * 8 + (v.x as usize);
            self.cells[idx]
        } else {
            false
        }
    }

    /// Write a cell. The coordinate must be in the grid.
    pub fn set(&mut self, v: I8Vec2, value: bool)
        requires
            v.spec_in_grid(),
        ensures
            final(self)@ == old(self)@.update(grid_index(v), value),
    {
        proof {
            use_type_invariant(&*self);
        }
        let idx: usize = (v.y as usize) * 8 + (v.x as usize);
        self.cells[idx] = value;
    }

    /// A grid with exactly `atom_count` markers, their cells drawn uniformly
    /// among the cells still empty at each step.
    pub fn random(atom_count: u8) -> (r: Self)
        requires
            atom_count <= 64,
        ensures
            r@.len() == 64,
            count_true(r@) == atom_count,
    {
        let mut this = Self::default();
        proof {
            lemma_count_true_all_false(this@);
        }
        let mut placed: u8 = 0;
        while placed < atom_count
            invariant
                placed <= atom_count,
                atom_count <= 64,
                this@.len() == 64,
                count_true(this@) == placed,
            decreases atom_count - placed,
        {
            let draw: u64 = rand::random::<u64>();
            let target: usize = (draw % (64 - placed as u64)) as usize;
            let idx = this.find_empty(target);
            let ghost prev = this@;
            let v = I8Vec2::new((idx % 8) as i8, (idx / 8) as i8);
            this.set(v, true);
            proof {
                assert(grid_index(v) == idx as int);
                lemma_count_true_update(prev, idx as int, true);
            }
            placed += 1;
        }
        this
    }

    /// Index of the `target + 1`-th empty cell in scan order.
    fn find_empty(&self, target: usize) -> (idx: usize)
        requires
            self@.len() == 64,
            target + count_true(self@) < 64,
        ensures
            idx < 64,
            !self@[idx as int],
    {
        let mut idx: usize = 0;
        let mut seen: usize = 0;
        while idx < 64
            invariant
                idx <= 64,
                self@.len() == 64,
                seen + count_true(self@.take(idx as int)) == idx,
                seen <= target,
                target + count_true(self@) < 64,
            decreases 64 - idx,
        {
            proof {
                use_type_invariant(self);
                lemma_count_true_take_step(self@, idx as int);
            }
            if !self.cells[idx] {
                if seen == target {
                    return idx;
                }
                seen += 1;
            }
            idx += 1;
        }
        proof {
            assert(self@.take(64int) =~= self@);
            assert(false);
        }
        unreached()
    }

    /// The canonical 64-bit encoding: cells in scan order, first cell in the
    /// most significant bit.
    pub fn as_bitboard(&self) -> (r: u64)
        ensures
            self@.len() == 64,
            r == encode_fold(self@),
    {
        proof {
            use_type_invariant(self);
            lemma2_to64();
            lemma2_to64_rest();
        }
        let mut result: u64 = 0;
        let mut i: usize = 0;
        while i < 64
            invariant
                i <= 64,
                self@.len() == 64,
                result == encode_fold(self@.take(i as int)),
                result < pow2(i as nat),
            decreases 64 - i,
        {
            proof {
                use_type_invariant(self);
                lemma2_to64();
                lemma2_to64_rest();
                if (i as nat) < 63 {
                    lemma_pow2_strictly_increases(i as nat, 63);
                }
                lemma_pow2_unfold((i + 1) as nat);
                assert(self@.take(i + 1).drop_last() =~= self@.take(i as int));
            }
            let cell = self.cells[i];
            result = 2 * result + (if cell {
                1
            } else {
                0
            });
            i += 1;
        }
        proof {
            assert(self@.take(64int) =~= self@);
        }
        result
    }

    /// Exact inverse of `as_bitboard`: rebuild the grid whose canonical
    /// encoding is `bitboard`.
    pub fn from_bitboard(bitboard: u64) -> (r: Self)
        ensures
            r@ == decode_seq(bitboard as nat),
            r@.len() == 64,
    {
        let ghost n: nat = bitboard as nat;
        let mut bits: Vec<bool> = Vec::new();
        let mut cur: u64 = bitboard;
        let mut j: usize = 0;
        proof {
            lemma2_to64();
        }
        while j < 64
            invariant
                j <= 64,
                bits@.len() == j,
                n == bitboard as nat,
                cur == n / pow2(j as nat),
                forall|t: int| 0 <= t < j ==> bits@[t] == nth_bit(n, t as nat),
            decreases 64 - j,
        {
            let b = cur % 2 == 1;
            bits.push(b);
            cur = cur / 2;
            j += 1;
            proof {
                lemma_pow2_pos((j - 1) as nat);
                lemma_pow2_unfold(j as nat);
                lemma_div_denominator(n as int, pow2((j - 1) as nat) as int, 2);
            }
        }
        let mut cells: Vec<bool> = Vec::new();
        let mut i: usize = 0;
        while i < 64
            invariant
                i <= 64,
                bits@.len() == 64,
                cells@.len() == i,
                n == bitboard as nat,
                forall|t: int| 0 <= t < 64 ==> bits@[t] == nth_bit(n, t as nat),
                forall|t: int| 0 <= t < i ==> cells@[t] == nth_bit(n, (63 - t) as nat),
            decreases 64 - i,
        {
            let bit = bits[63 - i];
            cells.push(bit);
            i += 1;
        }
        let r = AtomGrid { cells };
        proof {
            assert(r@ =~= decode_seq(n));
        }
        r
    }
}

/// A cell sequence without any `true` entry has count zero.
proof fn lemma_count_true_all_false(s: Seq<bool>)
    requires
        forall|i: int| 0 <= i < s.len() ==> !s[i],
    ensures
        count_true(s) == 0,
    decreases s.len(),
{
    if s.len() > 0 {
        lemma_count_true_all_false(s.drop_last());
    }
}

/// Extending a prefix by one cell adds that cell's contribution to the count.
proof fn lemma_count_true_take_step(s: Seq<bool>, i: int)
    requires
        0 <= i < s.len(),
    ensures
        count_true(s.take(i + 1)) == count_true(s.take(i)) + (if s[i] {
            1int
        } else {
            0int
        }),
{
    assert(s.take(i + 1).drop_last() =~= s.take(i));
}

/// Overwriting one cell changes the count by the difference of the two cells.
proof fn lemma_count_true_update(s: Seq<bool>, i: int, v: bool)
    requires
        0 <= i < s.len(),
    ensures
        count_true(s.update(i, v)) == count_true(s) - (if s[i] {
            1int
        } else {
            0int
        }) + (if v {
            1int
        } else {
            0int
        }),
    decreases s.len(),
{
    let s2 = s.update(i, v);
    if i == s.len() - 1 {
        assert(s2.drop_last() =~= s.drop_last());
    } else {
        assert(s2.drop_last() =~= s.drop_last().update(i, v));
        lemma_count_true_update(s.drop_last(), i, v);
    }
}

/// Bit `j` of an encoding is the cell at scan index `len - 1 - j`.
proof fn lemma_encode_bit(s: Seq<bool>, j: nat)
    requires
        j < s.len(),
    ensures
        nth_bit(encode_fold(s), j) == s[s.len() - 1 - j],
    decreases s.len(),
{
    let a = encode_fold(s.drop_last());
    let b: nat = if s.last() {
        1
    } else {
        0
    };
    assert(encode_fold(s) == 2 * a + b);
    if j == 0 {
        lemma2_to64();
        assert((2 * a + b) / pow2(0) == 2 * a + b);
        assert((2 * a + b) % 2 == b);
    } else {
        lemma_encode_bit(s.drop_last(), (j - 1) as nat);
        lemma_pow2_pos((j - 1) as nat);
        lemma_pow2_unfold(j);
        lemma_div_denominator((2 * a + b) as int, 2, pow2((j - 1) as nat) as int);
        assert((2 * a + b) / 2 == a);
    }
}

/// Round trip: decoding the canonical encoding of any 64-cell sequence
/// yields that sequence again, bit for bit.
pub proof fn lemma_bitboard_round_trip(s: Seq<bool>)
    requires
        s.len() == 64,
    ensures
        decode_seq(encode_fold(s)) == s,
{
    let n = encode_fold(s);
    assert forall|i: int| 0 <= i < 64 implies decode_seq(n)[i] == s[i] by {
        lemma_encode_bit(s, (63 - i) as nat);
    }
    assert(decode_seq(n) =~= s);
}

/// The `m` lowest bits of `n`, most significant first.
spec fn bits_msb(n: nat, m: nat) -> Seq<bool> {
    Seq::new(m, |i: int| nth_bit(n, (m - 1 - i) as nat))
}

/// Folding the `m` lowest bits of `n` back up recovers `n` modulo `2^m`.
proof fn lemma_encode_bits_msb(n: nat, m: nat)
    ensures
        encode_fold(bits_msb(n, m)) == n % pow2(m),
    decreases m,
{
    let s = bits_msb(n, m);
    if m == 0 {
        lemma2_to64();
    } else {
        lemma_encode_bits_msb(n / 2, (m - 1) as nat);
        assert forall|i: int| 0 <= i < m - 1 implies s.drop_last()[i] == bits_msb(
            n / 2,
            (m - 1) as nat,
        )[i] by {
            let k = (m - 1 - i) as nat;
            lemma_pow2_pos((k - 1) as nat);
            lemma_pow2_unfold(k);
            lemma_div_denominator(n as int, 2, pow2((k - 1) as nat) as int);
        }
        assert(s.drop_last() =~= bits_msb(n / 2, (m - 1) as nat));
        lemma2_to64();
        assert(s.last() == (n % 2 == 1));
        lemma_pow2_pos((m - 1) as nat);
        lemma_pow2_unfold(m);
        lemma_mod_breakdown(n as int, 2, pow2((m - 1) as nat) as int);
    }
}

/// The converse round trip: every 64-bit word is the canonical encoding
/// of the grid it decodes to, so encoding and decoding form a bijection.
pub proof fn lemma_bitboard_round_trip_back(n: u64)
    ensures
        encode_fold(decode_seq(n as nat)) == n,
{
    lemma_encode_bits_msb(n as nat, 64);
    assert(decode_seq(n as nat) =~= bits_msb(n as nat, 64));
    lemma2_to64();
    lemma2_to64_rest();
    lemma_small_mod(n as nat, pow2(64));
}

} // verus!
