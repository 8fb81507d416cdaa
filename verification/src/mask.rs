//! Sets of channels, kept as the bits of a 64-bit word.

use vstd::prelude::*;

verus! {

/// The bit of channel `i` in a word.
pub open spec fn bit_of(bits: u64, i: u64) -> bool {
    (bits >> i) & 1 == 1
}

proof fn lemma_set_bit(bits: u64, i: u64, j: u64)
    requires
        i < 64,
        j < 64,
    ensures
        bit_of(bits | (1u64 << i), j) == (i == j || bit_of(bits, j)),
        bit_of(bits & !(1u64 << i), j) == (i != j && bit_of(bits, j)),
{
    assert((((bits | (1u64 << i)) >> j) & 1 == 1) == (i == j || (bits >> j) & 1 == 1))
        by (bit_vector)
        requires
            i < 64,
            j < 64,
    ;
    assert((((bits & !(1u64 << i)) >> j) & 1 == 1) == (i != j && (bits >> j) & 1 == 1))
        by (bit_vector)
        requires
            i < 64,
            j < 64,
    ;
}

proof fn lemma_and_bits(a: u64, b: u64, j: u64)
    requires
        j < 64,
    ensures
        bit_of(a & b, j) == (bit_of(a, j) && bit_of(b, j)),
{
    assert((((a & b) >> j) & 1 == 1) == ((a >> j) & 1 == 1 && (b >> j) & 1 == 1)) by (bit_vector)
        requires
            j < 64,
    ;
}

proof fn lemma_low_bits(n: u64, j: u64)
    requires
        n < 64,
        j < 64,
    ensures
        1u64 << n >= 1,
        bit_of(((1u64 << n) - 1) as u64, j) == (j < n),
        bit_of(0xFFFF_FFFF_FFFF_FFFFu64, j),
        !bit_of(0u64, j),
{
    assert(1u64 << n >= 1) by (bit_vector)
        requires
            n < 64,
    ;
    assert(((((1u64 << n) - 1) as u64 >> j) & 1 == 1) == (j < n)) by (bit_vector)
        requires
            n < 64,
            j < 64,
    ;
    assert((0xFFFF_FFFF_FFFF_FFFFu64 >> j) & 1 == 1) by (bit_vector)
        requires
            j < 64,
    ;
    assert((0u64 >> j) & 1 == 0) by (bit_vector);
}

/// The word whose bits below `n` are set.
pub open spec fn low_bits(n: int) -> u64 {
    if n >= 64 {
        0xFFFF_FFFF_FFFF_FFFF
    } else {
        ((1u64 << (n as u64)) - 1) as u64
    }
}

proof fn lemma_covers(a: u64, n: u64)
    requires
        n <= 64,
    ensures
        (a & low_bits(n as int) == low_bits(n as int)) == (forall|j: u64|
            j < n ==> #[trigger] bit_of(a, j)),
    decreases n,
{
    if n == 0 {
        assert(1u64 << 0u64 == 1) by (bit_vector);
        assert(a & 0 == 0) by (bit_vector);
    } else {
        let m: u64 = (n - 1) as u64;
        lemma_covers(a, m);
        let low: u64 = low_bits(n as int);
        let low_m: u64 = low_bits(m as int);
        if n == 64 {
            assert(low == 0xFFFF_FFFF_FFFF_FFFF && low_m == ((1u64 << 63u64) - 1) as u64);
            assert((a & 0xFFFF_FFFF_FFFF_FFFF == 0xFFFF_FFFF_FFFF_FFFF) == (a & ((1u64 << 63u64)
                - 1) as u64 == ((1u64 << 63u64) - 1) as u64 && (a >> 63) & 1 == 1)) by (bit_vector);
        } else {
            assert((a & ((1u64 << n) - 1) as u64 == ((1u64 << n) - 1) as u64) == (a & ((1u64 << m)
                - 1) as u64 == ((1u64 << m) - 1) as u64 && (a >> m) & 1 == 1)) by (bit_vector)
                requires
                    n < 64,
                    m == n - 1,
                    n > 0,
            ;
        }
        assert((a & low == low) == (a & low_m == low_m && bit_of(a, m)));
        if a & low == low {
            assert forall|j: u64| j < n implies #[trigger] bit_of(a, j) by {
                if j < m {
                }
            }
        }
    }
}

/// Which channels of a buffer are known to hold only silence.
#[derive(Debug, Clone, Copy, PartialEq, Eq, Hash, Structural)]
pub struct SilenceMask(pub u64);

impl SilenceMask {
    /// Whether channel `i` is marked silent.
    pub open spec fn silent(self, i: int) -> bool {
        bit_of(self.0, i as u64)
    }

    /// No channel is marked silent.
    pub fn none_silent() -> (mask: Self)
        ensures
            forall|i: int| 0 <= i < 64 ==> !#[trigger] mask.silent(i),
    {
        let mask = SilenceMask(0);
        proof {
            assert forall|i: int| 0 <= i < 64 implies !#[trigger] mask.silent(i) by {
                lemma_low_bits(0, i as u64);
            }
        }
        mask
    }

    /// The first `num_channels` channels are marked silent, the others are not.
    pub fn new_all_silent(num_channels: usize) -> (mask: Self)
        ensures
            forall|i: int| 0 <= i < 64 ==> #[trigger] mask.silent(i) == (i < num_channels),
    {
        let mask = if num_channels >= 64 {
            SilenceMask(0xFFFF_FFFF_FFFF_FFFF)
        } else {
            proof {
                lemma_low_bits(num_channels as u64, 0);
            }
            SilenceMask((1u64 << (num_channels as u64)) - 1)
        };
        proof {
            assert forall|i: int| 0 <= i < 64 implies #[trigger] mask.silent(i) == (i
                < num_channels) by {
                if num_channels >= 64 {
                    lemma_low_bits(0, i as u64);
                } else {
                    lemma_low_bits(num_channels as u64, i as u64);
                }
            }
        }
        mask
    }

    /// Whether channel `i` is marked silent.
    pub fn is_channel_silent(&self, i: usize) -> (silent: bool)
        requires
            i < 64,
        ensures
            silent == self.silent(i as int),
    {
        (self.0 >> (i as u64)) & 1 == 1
    }

    /// Whether the first `num_channels` channels are all marked silent.
    pub fn all_channels_silent(&self, num_channels: usize) -> (silent: bool)
        ensures
            silent == (forall|i: int| 0 <= i < num_channels && i < 64 ==> #[trigger] self.silent(i)),
    {
        let low: u64 = if num_channels >= 64 {
            0xFFFF_FFFF_FFFF_FFFF
        } else {
            proof {
                lemma_low_bits(num_channels as u64, 0);
            }
            (1u64 << (num_channels as u64)) - 1
        };
        let silent = self.0 & low == low;
        proof {
            let n: u64 = if num_channels >= 64 { 64 } else { num_channels as u64 };
            lemma_covers(self.0, n);
            if silent {
                assert forall|i: int| 0 <= i < num_channels && i < 64 implies #[trigger] self.silent(
                    i,
                ) by {
                    assert(bit_of(self.0, i as u64));
                }
            } else {
                let j = choose|j: u64| j < n && !bit_of(self.0, j);
                assert(!self.silent(j as int));
            }
        }
        silent
    }

    /// Marks channel `i` as silent or not.
    pub fn set_channel(&mut self, i: usize, silent: bool)
        requires
            i < 64,
        ensures
            forall|j: int|
                0 <= j < 64 ==> #[trigger] final(self).silent(j) == (if j == i {
                    silent
                } else {
                    old(self).silent(j)
                }),
    {
        if silent {
            self.0 = self.0 | (1u64 << (i as u64));
        } else {
            self.0 = self.0 & !(1u64 << (i as u64));
        }
        proof {
            assert forall|j: int| 0 <= j < 64 implies #[trigger] self.silent(j) == (if j == i {
                silent
            } else {
                old(self).silent(j)
            }) by {
                lemma_set_bit(old(self).0, i as u64, j as u64);
            }
        }
    }

    /// Keeps as silent only the channels that `other` marks silent too.
    pub fn union_with(&mut self, other: SilenceMask)
        ensures
            forall|j: int|
                0 <= j < 64 ==> #[trigger] final(self).silent(j) == (old(self).silent(j)
                    && other.silent(j)),
    {
        self.0 = self.0 & other.0;
        proof {
            assert forall|j: int| 0 <= j < 64 implies #[trigger] self.silent(j) == (old(
                self,
            ).silent(j) && other.silent(j)) by {
                lemma_and_bits(old(self).0, other.0, j as u64);
            }
        }
    }
}

/// Which ports of a node have an edge.
#[derive(Debug, Clone, Copy, PartialEq, Eq, Hash, Structural)]
pub struct ConnectedMask(pub u64);

impl ConnectedMask {
    /// Whether port `i` is marked connected.
    pub open spec fn connected(self, i: int) -> bool {
        bit_of(self.0, i as u64)
    }

    /// No port is marked connected.
    pub fn none() -> (mask: Self)
        ensures
            forall|i: int| 0 <= i < 64 ==> !#[trigger] mask.connected(i),
    {
        let mask = ConnectedMask(0);
        proof {
            assert forall|i: int| 0 <= i < 64 implies !#[trigger] mask.connected(i) by {
                lemma_low_bits(0, i as u64);
            }
        }
        mask
    }

    /// Whether port `i` is marked connected.
    pub fn is_channel_connected(&self, i: usize) -> (connected: bool)
        requires
            i < 64,
        ensures
            connected == self.connected(i as int),
    {
        (self.0 >> (i as u64)) & 1 == 1
    }

    /// Marks port `i` as connected or not.
    pub fn set_channel(&mut self, i: usize, connected: bool)
        requires
            i < 64,
        ensures
            forall|j: int|
                0 <= j < 64 ==> #[trigger] final(self).connected(j) == (if j == i {
                    connected
                } else {
                    old(self).connected(j)
                }),
    {
        if connected {
            self.0 = self.0 | (1u64 << (i as u64));
        } else {
            self.0 = self.0 & !(1u64 << (i as u64));
        }
        proof {
            assert forall|j: int| 0 <= j < 64 implies #[trigger] self.connected(j) == (if j == i {
                connected
            } else {
                old(self).connected(j)
            }) by {
                lemma_set_bit(old(self).0, i as u64, j as u64);
            }
        }
    }
}

/// A channel is silent, or connected, if the bit of its number is set in the mask.
pub proof fn law_mask_bits_are_channels(bits: u64, i: u64)
    requires
        i < 64,
    ensures
        SilenceMask(bits).silent(i as int) <==> bits & (1u64 << i) != 0,
        ConnectedMask(bits).connected(i as int) <==> bits & (1u64 << i) != 0,
{
    assert(((bits >> i) & 1 == 1) == (bits & (1u64 << i) != 0)) by (bit_vector)
        requires
            i < 64,
    ;
}

/// The lowest bits are those of the channels up to a number.
pub proof fn law_low_bits_are_the_first_channels(n: int, i: u64)
    requires
        0 <= n,
        i < 64,
    ensures
        low_bits(n) & (1u64 << i) != 0 <==> i < n,
{
    if n < 64 {
        lemma_low_bits(n as u64, i);
        law_mask_bits_are_channels(low_bits(n), i);
    } else {
        assert(0xFFFF_FFFF_FFFF_FFFFu64 & (1u64 << i) != 0) by (bit_vector)
            requires
                i < 64,
        ;
    }
}

} // verus!
