//! Validity of a 32-bit access address for a new connection or periodic
//! advertising train.

use crate::bits::{
    bit, lemma_ones_count_positions, lemma_transitions_of_shifted, longest_run,
    max_consecutive_bits, one_positions, ones, ones_count, transition_count, transitions,
    transitions_in,
};
use vstd::prelude::*;

verus! {

/// The access address of every packet on the advertising physical channels.
pub const ADV_ACCESS_ADDR: u32 = 0x8E89_BED6;

/// The access addresses that this device has in use, for its connections and
/// its enabled periodic advertising trains.
pub struct ActiveAddressSet {
    addrs: Vec<u32>,
}

impl View for ActiveAddressSet {
    type V = Set<u32>;

    closed spec fn view(&self) -> Set<u32> {
        self.addrs@.to_set()
    }
}

impl ActiveAddressSet {
    /// A set with no address in use.
    pub fn new() -> (set: Self)
        ensures
            set@ == Set::<u32>::empty(),
    {
        let set = ActiveAddressSet { addrs: Vec::new() };
        assert(set.addrs@.to_set() =~= Set::<u32>::empty());
        set
    }

    /// Marks `addr` as in use.
    pub fn insert(&mut self, addr: u32)
        ensures
            final(self)@ == old(self)@.insert(addr),
    {
        if !self.contains(addr) {
            self.addrs.push(addr);
            assert forall|a: u32|
                self.addrs@.to_set().contains(a) == old(self).addrs@.to_set().insert(
                    addr,
                ).contains(a) by {
                if old(self).addrs@.contains(a) {
                    let i = choose|i: int|
                        0 <= i < old(self).addrs@.len() && old(self).addrs@[i] == a;
                    assert(self.addrs@[i] == a);
                }
                if a == addr {
                    assert(self.addrs@[self.addrs@.len() - 1] == a);
                }
            }
            assert(self.addrs@.to_set() =~= old(self).addrs@.to_set().insert(addr));
        } else {
            assert(self@ =~= old(self)@.insert(addr));
        }
    }

    /// Whether `addr` is in use.
    pub fn contains(&self, addr: u32) -> (found: bool)
        ensures
            found == self@.contains(addr),
    {
        let mut i: usize = 0;
        while i < self.addrs.len()
            invariant
                i <= self.addrs.len(),
                forall|j: int| 0 <= j < i ==> self.addrs@[j] != addr,
            decreases self.addrs.len() - i,
        {
            if self.addrs[i] == addr {
                return true;
            }
            i += 1;
        }
        false
    }
}

/// The four octets of `v` are all the same.
pub open spec fn has_equal_octets(v: u32) -> bool {
    let a = v & 0xff;
    let b = (v >> 8u32) & 0xff;
    let c = (v >> 16u32) & 0xff;
    let d = (v >> 24u32) & 0xff;
    a == b && b == c && c == d
}

/// Number of bit positions at which `a` and `b` differ.
pub open spec fn hamming_distance(a: u32, b: u32) -> nat {
    ones(a ^ b, 32)
}

/// The positions at which `a` and `b` have different bits.
pub open spec fn differing_positions(a: u32, b: u32) -> Set<int> {
    Set::new(|i: int| 0 <= i < 32 && bit(a, i) != bit(b, i))
}

/// The Hamming distance is the number of positions at which the two words
/// have different bits.
pub proof fn lemma_hamming_distance_counts_differing_bits(a: u32, b: u32)
    ensures
        differing_positions(a, b).finite(),
        hamming_distance(a, b) == differing_positions(a, b).len(),
{
    lemma_ones_count_positions(a ^ b, 32);
    assert forall|i: int| 0 <= i < 32 implies #[trigger] bit(a ^ b, i) == (bit(a, i) != bit(
        b,
        i,
    )) by {
        let k = i as u32;
        assert(((a ^ b) >> k) & 1u32 == 1u32 <==> ((a >> k) & 1u32 == 1u32) != ((b >> k) & 1u32
            == 1u32)) by (bit_vector);
    }
    assert(one_positions(a ^ b, 32) =~= differing_positions(a, b));
}

/// What every access address must meet, whatever the PHY: it is not in
/// use, has no run of more than six equal bits, is neither the advertising
/// access address nor one bit away from it, does not repeat one octet four
/// times, has at most 24 transitions, and has at least two transitions among
/// its six most significant bits.
pub open spec fn base_rules_hold(candidate: u32, active: Set<u32>) -> bool {
    &&& !active.contains(candidate)
    &&& longest_run(candidate) <= 6
    &&& candidate != ADV_ACCESS_ADDR
    &&& hamming_distance(candidate, ADV_ACCESS_ADDR) != 1
    &&& !has_equal_octets(candidate)
    &&& transitions(candidate, 32) <= 24
    &&& transitions_in(candidate, 26, 32) >= 2
}

/// What the LE Coded PHY asks in addition: at least three set bits among
/// the eight least significant bits, and at most eleven transitions among
/// the sixteen least significant bits.
pub open spec fn coded_phy_rules_hold(candidate: u32) -> bool {
    &&& ones(candidate, 8) >= 3
    &&& transitions(candidate, 16) <= 11
}

/// `candidate` may serve as a new access address on a device whose addresses
/// in use are `active`, and which supports the LE Coded PHY if
/// `coded_phy_supported`.
pub open spec fn access_addr_valid(
    candidate: u32,
    active: Set<u32>,
    coded_phy_supported: bool,
) -> bool {
    &&& base_rules_hold(candidate, active)
    &&& coded_phy_supported ==> coded_phy_rules_hold(candidate)
}

/// The rules of the LE Coded PHY bear on the verdict exactly when the device
/// supports that PHY: without it, a candidate is valid as soon as it meets
/// the other rules; with it, a candidate that breaks one of the two is
/// invalid.
pub proof fn lemma_coded_phy_rules_apply_with_coded_phy_only(candidate: u32, active: Set<u32>)
    ensures
        access_addr_valid(candidate, active, false) == base_rules_hold(candidate, active),
        access_addr_valid(candidate, active, true) == (base_rules_hold(candidate, active)
            && coded_phy_rules_hold(candidate)),
        access_addr_valid(candidate, active, true) ==> access_addr_valid(candidate, active, false),
{
}

/// Decides whether `candidate` may serve as a new access address.
pub fn is_valid_access_addr(
    candidate: u32,
    active: &ActiveAddressSet,
    coded_phy_supported: bool,
) -> (valid: bool)
    ensures
        valid == access_addr_valid(candidate, active@, coded_phy_supported),
{
    if active.contains(candidate) {
        return false;
    }
    if max_consecutive_bits(candidate) > 6 {
        return false;
    }
    if candidate == ADV_ACCESS_ADDR {
        return false;
    }
    if ones_count(candidate ^ ADV_ACCESS_ADDR, 32) == 1 {
        return false;
    }
    let a: u32 = candidate & 0xff;
    let b: u32 = (candidate >> 8) & 0xff;
    let c: u32 = (candidate >> 16) & 0xff;
    let d: u32 = (candidate >> 24) & 0xff;
    if a == b && b == c && c == d {
        return false;
    }
    if transition_count(candidate, 32) > 24 {
        return false;
    }
    proof {
        lemma_transitions_of_shifted(candidate, 26, 6);
    }
    if transition_count(candidate >> 26, 6) < 2 {
        return false;
    }
    if coded_phy_supported {
        if ones_count(candidate, 8) < 3 {
            return false;
        }
        if transition_count(candidate, 16) > 11 {
            return false;
        }
    }
    true
}

} // verus!
