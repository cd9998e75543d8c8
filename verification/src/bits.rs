//! Bit patterns of a 32-bit word: single bits, set bits, transitions and runs.

use vstd::prelude::*;

verus! {

/// Bit `i` of `v`, counted from the least significant end.
pub open spec fn bit(v: u32, i: int) -> bool {
    (v >> (i as u32)) & 1u32 == 1u32
}

/// The scan window of a 32-bit word: `width`, but never more than the 32 bits
/// that exist.
pub open spec fn window(width: nat) -> nat {
    if width > 32 {
        32
    } else {
        width
    }
}

/// Number of set bits among the low `n` bits of `v`.
pub open spec fn ones_below(v: u32, n: nat) -> nat
    decreases n,
{
    if n == 0 {
        0
    } else {
        ones_below(v, (n - 1) as nat) + if bit(v, n - 1) { 1nat } else { 0nat }
    }
}

/// Number of set bits among the low `width` bits of `v`.
pub open spec fn ones(v: u32, width: nat) -> nat {
    ones_below(v, window(width))
}

/// Number of positions `i` with `lo <= i` and `i + 1 < hi` at which bit `i`
/// and bit `i + 1` of `v` differ.
pub open spec fn transitions_in(v: u32, lo: nat, hi: nat) -> nat
    decreases hi,
{
    if hi <= lo + 1 {
        0
    } else {
        transitions_in(v, lo, (hi - 1) as nat) + if bit(v, hi - 2) != bit(v, hi - 1) {
            1nat
        } else {
            0nat
        }
    }
}

/// Number of transitions among the low `width` bits of `v`.
pub open spec fn transitions(v: u32, width: nat) -> nat {
    transitions_in(v, 0, window(width))
}

/// The positions below `n` at which `v` has a set bit.
pub open spec fn one_positions(v: u32, n: nat) -> Set<int> {
    Set::new(|i: int| 0 <= i < n && bit(v, i))
}

/// The positions `i` with `lo <= i` and `i + 1 < hi` at which bit `i` and
/// bit `i + 1` of `v` differ.
pub open spec fn transition_positions(v: u32, lo: nat, hi: nat) -> Set<int> {
    Set::new(|i: int| lo <= i && i + 1 < hi && bit(v, i) != bit(v, i + 1))
}

/// `ones_below` is the number of positions with a set bit.
pub proof fn lemma_ones_count_positions(v: u32, n: nat)
    ensures
        one_positions(v, n).finite(),
        ones_below(v, n) == one_positions(v, n).len(),
    decreases n,
{
    if n == 0 {
        assert(one_positions(v, n) =~= Set::<int>::empty());
    } else {
        lemma_ones_count_positions(v, (n - 1) as nat);
        let before = one_positions(v, (n - 1) as nat);
        if bit(v, n - 1) {
            assert(one_positions(v, n) =~= before.insert(n - 1));
        } else {
            assert(one_positions(v, n) =~= before);
        }
    }
}

/// `transitions_in` is the number of positions at which neighbouring bits
/// differ.
pub proof fn lemma_transitions_count_positions(v: u32, lo: nat, hi: nat)
    ensures
        transition_positions(v, lo, hi).finite(),
        transitions_in(v, lo, hi) == transition_positions(v, lo, hi).len(),
    decreases hi,
{
    if hi <= lo + 1 {
        assert(transition_positions(v, lo, hi) =~= Set::<int>::empty());
    } else {
        lemma_transitions_count_positions(v, lo, (hi - 1) as nat);
        let before = transition_positions(v, lo, (hi - 1) as nat);
        if bit(v, hi - 2) != bit(v, hi - 1) {
            assert(transition_positions(v, lo, hi) =~= before.insert(hi - 2));
        } else {
            assert(transition_positions(v, lo, hi) =~= before);
        }
    }
}

/// Masking the shifted word with one leaves zero or one, and one where the
/// bit is set.
proof fn lemma_bit_is_mask(v: u32, i: u32)
    requires
        i < 32,
    ensures
        bit(v, i as int) == ((v >> i) & 1u32 != 0u32),
        (v >> i) & 1u32 == 0u32 || (v >> i) & 1u32 == 1u32,
{
    assert((v >> i) & 1u32 == 0u32 || (v >> i) & 1u32 == 1u32) by (bit_vector);
}

/// A window holds at most one transition for each pair of neighbours in it.
proof fn lemma_transitions_bound(v: u32, lo: nat, hi: nat)
    ensures
        transitions_in(v, lo, hi) <= if hi <= lo + 1 { 0 } else { hi - lo - 1 },
    decreases hi,
{
    if hi > lo + 1 {
        lemma_transitions_bound(v, lo, (hi - 1) as nat);
    }
}

/// Counts the positions at which adjacent bits differ, over the low `width`
/// bits of `value`. A `width` above 32 scans the whole word.
pub fn transition_count(value: u32, width: u32) -> (count: u8)
    ensures
        count == transitions(value, width as nat),
{
    let w: u32 = if width > 32 { 32 } else { width };
    let mut count: u8 = 0;
    let mut i: u32 = 1;
    while i < w
        invariant
            1 <= i <= 32,
            w == window(width as nat),
            i <= w || i == 1,
            count == transitions_in(value, 0, i as nat),
        decreases 32 - i,
    {
        let below: u32 = (value >> (i - 1)) & 1;
        let here: u32 = (value >> i) & 1;
        proof {
            lemma_bit_is_mask(value, (i - 1) as u32);
            lemma_bit_is_mask(value, i);
            lemma_transitions_bound(value, 0, (i + 1) as nat);
        }
        if below != here {
            count += 1;
        }
        i += 1;
    }
    count
}

/// `v` rotated left by one position: every bit moves up by one, and bit 31
/// becomes bit 0.
pub open spec fn rotate_left_one(v: u32) -> u32 {
    (v << 1u32) | (v >> 31u32)
}

/// Bit `i` of the word combined with its rotation is set where bit `i`
/// differs from the bit below it, which for bit 0 is bit 31.
proof fn lemma_rotation_marks_transitions(v: u32, i: u32)
    requires
        i < 32,
    ensures
        bit(v ^ rotate_left_one(v), i as int) == (bit(v, i as int) != bit(
            v,
            if i == 0 {
                31
            } else {
                i - 1
            },
        )),
{
    if i == 0 {
        assert(((v ^ ((v << 1u32) | (v >> 31u32))) >> 0u32) & 1u32 == 1u32 <==> ((v >> 0u32) & 1u32
            == 1u32) != ((v >> 31u32) & 1u32 == 1u32)) by (bit_vector);
    } else {
        let h: u32 = (i - 1) as u32;
        assert(((v ^ ((v << 1u32) | (v >> 31u32))) >> i) & 1u32 == 1u32 <==> ((v >> i) & 1u32
            == 1u32) != ((v >> h) & 1u32 == 1u32)) by (bit_vector)
            requires
                1 <= i < 32,
                h == i - 1,
        ;
    }
}

/// The rotation law on the low `n` bits.
proof fn lemma_rotation_counts_transitions(v: u32, n: nat)
    requires
        1 <= n <= 32,
    ensures
        ones_below(v ^ rotate_left_one(v), n) == transitions_in(v, 0, n) + if bit(v, 31) != bit(
            v,
            0,
        ) {
            1nat
        } else {
            0nat
        },
    decreases n,
{
    let x = v ^ rotate_left_one(v);
    lemma_rotation_marks_transitions(v, (n - 1) as u32);
    if n == 1 {
        assert(ones_below(x, 0) == 0);
    } else {
        lemma_rotation_counts_transitions(v, (n - 1) as nat);
    }
}

/// The set bits of a word combined by exclusive-or with its own rotation by
/// one mark the places where neighbouring bits differ, end to end: they are
/// the transitions of the word, and one more where bit 31 differs from bit 0.
pub proof fn lemma_transitions_by_rotation(v: u32)
    ensures
        ones(v ^ rotate_left_one(v), 32) == transitions(v, 32) + if bit(v, 31) != bit(v, 0) {
            1nat
        } else {
            0nat
        },
        bit(v, 31) == bit(v, 0) ==> transitions(v, 32) == ones(v ^ rotate_left_one(v), 32),
{
    lemma_rotation_counts_transitions(v, 32);
}

/// The transitions among the low `n` bits of `v >> s` are those of `v` among
/// the `n` bits from position `s` upwards.
pub proof fn lemma_transitions_of_shifted(v: u32, s: u32, n: nat)
    requires
        s + n <= 32,
    ensures
        transitions_in(v >> s, 0, n) == transitions_in(v, s as nat, (s + n) as nat),
    decreases n,
{
    if n > 1 {
        lemma_transitions_of_shifted(v, s, (n - 1) as nat);
        let i: u32 = (n - 2) as u32;
        let j: u32 = (n - 1) as u32;
        let si: u32 = (s + i) as u32;
        let sj: u32 = (s + j) as u32;
        assert(((v >> s) >> i) & 1u32 == (v >> si) & 1u32) by (bit_vector)
            requires
                si == s + i,
                si < 32,
        ;
        assert(((v >> s) >> j) & 1u32 == (v >> sj) & 1u32) by (bit_vector)
            requires
                sj == s + j,
                sj < 32,
        ;
    }
}

/// Counts the set bits among the low `width` bits of `value`. A `width`
/// above 32 counts over the whole word.
pub fn ones_count(value: u32, width: u32) -> (count: u8)
    ensures
        count == ones(value, width as nat),
{
    let w: u32 = if width > 32 { 32 } else { width };
    let mut count: u8 = 0;
    let mut i: u32 = 0;
    while i < w
        invariant
            i <= w <= 32,
            count == ones_below(value, i as nat),
            count <= i,
        decreases w - i,
    {
        proof {
            lemma_bit_is_mask(value, i);
        }
        if (value >> i) & 1 != 0 {
            count += 1;
        }
        i += 1;
    }
    count
}

/// Length of the run of equal bits of `v` that ends at position `i`, counted
/// downwards from `i`.
pub open spec fn run_ending_at(v: u32, i: nat) -> nat
    decreases i,
{
    if i > 0 && bit(v, i as int) == bit(v, i - 1) {
        run_ending_at(v, (i - 1) as nat) + 1
    } else {
        1
    }
}

/// Length of the longest run of equal bits that lies within the low `n` bits
/// of `v`.
pub open spec fn longest_run_below(v: u32, n: nat) -> nat
    decreases n,
{
    if n == 0 {
        0
    } else {
        let before = longest_run_below(v, (n - 1) as nat);
        let last = run_ending_at(v, (n - 1) as nat);
        if last > before {
            last
        } else {
            before
        }
    }
}

/// Length of the longest run of equal bits in the 32 bits of `v`.
pub open spec fn longest_run(v: u32) -> nat {
    longest_run_below(v, 32)
}

/// The `len` bits of `v` from position `lo` upwards are all equal.
pub open spec fn uniform(v: u32, lo: nat, len: nat) -> bool {
    forall|j: int| lo <= j < lo + len ==> bit(v, j) == bit(v, lo as int)
}

/// The run that ends at `i` is a window of equal bits that ends at `i`.
proof fn lemma_run_reaches_down(v: u32, i: nat)
    ensures
        1 <= run_ending_at(v, i) <= i + 1,
        uniform(v, (i + 1 - run_ending_at(v, i)) as nat, run_ending_at(v, i)),
    decreases i,
{
    if i > 0 && bit(v, i as int) == bit(v, i - 1) {
        lemma_run_reaches_down(v, (i - 1) as nat);
    }
}

/// The run that ends where a window of equal bits ends is at least as long
/// as the window.
proof fn lemma_run_covers_window(v: u32, lo: nat, len: nat)
    requires
        len >= 1,
        uniform(v, lo, len),
    ensures
        run_ending_at(v, (lo + len - 1) as nat) >= len,
    decreases len,
{
    if len > 1 {
        lemma_run_covers_window(v, lo, (len - 1) as nat);
        assert(bit(v, lo + len - 1) == bit(v, lo as int));
        assert(bit(v, lo + len - 2) == bit(v, lo as int));
    }
}

/// The longest run among the low `n` bits is at least the run that ends at
/// any position below `n`.
proof fn lemma_longest_run_below_dominates(v: u32, n: nat, i: nat)
    requires
        i < n,
    ensures
        run_ending_at(v, i) <= longest_run_below(v, n),
    decreases n,
{
    if i < n - 1 {
        lemma_longest_run_below_dominates(v, (n - 1) as nat, i);
    }
}

/// The longest run among the low `n` bits is the length of a window of equal
/// bits among them, which starts at the position returned.
proof fn lemma_longest_run_below_attained(v: u32, n: nat) -> (lo: nat)
    requires
        n >= 1,
    ensures
        1 <= longest_run_below(v, n),
        lo + longest_run_below(v, n) <= n,
        uniform(v, lo, longest_run_below(v, n)),
    decreases n,
{
    let last = run_ending_at(v, (n - 1) as nat);
    lemma_run_reaches_down(v, (n - 1) as nat);
    if n == 1 {
        (n - last) as nat
    } else {
        let lo = lemma_longest_run_below_attained(v, (n - 1) as nat);
        if last > longest_run_below(v, (n - 1) as nat) {
            (n - last) as nat
        } else {
            lo
        }
    }
}

/// The longest run is the length of a window of equal bits that exists in
/// the word, and no window of equal bits in the word is longer.
pub proof fn lemma_longest_run_is_longest(v: u32)
    ensures
        1 <= longest_run(v) <= 32,
        exists|lo: nat| lo + longest_run(v) <= 32 && uniform(v, lo, longest_run(v)),
        forall|lo: nat, len: nat|
            lo + len <= 32 && #[trigger] uniform(v, lo, len) ==> len <= longest_run(v),
{
    let at = lemma_longest_run_below_attained(v, 32);
    assert(at + longest_run(v) <= 32 && uniform(v, at, longest_run(v)));
    assert forall|lo: nat, len: nat| lo + len <= 32 && #[trigger] uniform(v, lo, len) implies len
        <= longest_run(v) by {
        if len >= 1 {
            lemma_run_covers_window(v, lo, len);
            lemma_longest_run_below_dominates(v, 32, (lo + len - 1) as nat);
        }
    }
}

/// Length of the longest run of consecutive equal bits among the 32 bits of
/// `r`; 32 when all bits are equal.
pub fn max_consecutive_bits(r: u32) -> (count: u8)
    ensures
        count == longest_run(r),
{
    let mut best: u8 = 1;
    let mut run: u8 = 1;
    let mut i: u32 = 1;
    assert(longest_run_below(r, 1) == 1) by {
        assert(longest_run_below(r, 0) == 0);
    }
    while i < 32
        invariant
            1 <= i <= 32,
            run == run_ending_at(r, (i - 1) as nat),
            best == longest_run_below(r, i as nat),
            run <= i,
            best <= i,
        decreases 32 - i,
    {
        let below: u32 = (r >> (i - 1)) & 1;
        let here: u32 = (r >> i) & 1;
        proof {
            lemma_bit_is_mask(r, (i - 1) as u32);
            lemma_bit_is_mask(r, i);
        }
        if below == here {
            run += 1;
        } else {
            run = 1;
        }
        if run > best {
            best = run;
        }
        i += 1;
    }
    best
}

} // verus!
