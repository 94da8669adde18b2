//! What is known of one relay, and how much the planner trusts it.

use vstd::prelude::*;
use crate::url::RelayUrl;

verus! {

/// The record of one relay. It alone says whether the relay is to be used.
#[derive(Debug)]
pub struct Relay {
    pub url: RelayUrl,
    /// The purposes the relay serves: a set of the bits below.
    pub usage_bits: u64,
    /// The user's judgement, 0 to 9. A relay of rank 0 is never connected to.
    pub rank: u8,
    /// Hidden from lists; still used.
    pub hidden: bool,
    pub success_count: u64,
    pub failure_count: u64,
    /// When a connection last succeeded, in seconds since 1970.
    pub last_success_at: Option<u64>,
}

impl Clone for Relay {
    fn clone(&self) -> (r: Self)
        ensures
            r == *self,
    {
        Relay {
            url: self.url.clone(),
            usage_bits: self.usage_bits,
            rank: self.rank,
            hidden: self.hidden,
            success_count: self.success_count,
            failure_count: self.failure_count,
            last_success_at: self.last_success_at,
        }
    }
}

/// The weight by which the planner multiplies a relay's score: the rank
/// times 1.3 times the share of connections that succeeded, rounded down.
/// A relay that was never tried counts as succeeding half of the time.
pub open spec fn rank_multiplier(rank: u8, success_count: u64, failure_count: u64) -> int {
    if success_count + failure_count == 0 {
        (13 * rank) / 20
    } else {
        (13 * rank * success_count) / (10 * (success_count + failure_count))
    }
}

/// The share of connections that succeeded, as a fraction: the
/// successes over the attempts, or one half for a relay never tried.
pub open spec fn success_fraction(success_count: u64, failure_count: u64) -> (int, int) {
    if success_count + failure_count == 0 {
        (1, 2)
    } else {
        (success_count as int, success_count + failure_count)
    }
}

impl Relay {
    /// Whether this relay has succeeded in a larger share of its
    /// connections than `other`.
    pub open spec fn succeeds_more(&self, other: &Relay) -> bool {
        let (n1, d1) = success_fraction(self.success_count, self.failure_count);
        let (n2, d2) = success_fraction(other.success_count, other.failure_count);
        n1 * d2 > n2 * d1
    }

    /// The successes and failures by which rates are compared: those on
    /// record, or one of each for a relay never tried.
    fn tally(&self) -> (r: (u128, u128))
        ensures
            success_fraction(self.success_count, self.failure_count) == (r.0 as int, r.0 + r.1),
            r.0 <= u64::MAX,
            r.1 <= u64::MAX,
    {
        if self.success_count == 0 && self.failure_count == 0 {
            (1, 1)
        } else {
            (self.success_count as u128, self.failure_count as u128)
        }
    }

    /// Whether this relay has succeeded in a larger share of its
    /// connections than `other`.
    pub fn has_higher_success_rate(&self, other: &Relay) -> (r: bool)
        ensures
            r == self.succeeds_more(other),
    {
        let (s1, f1) = self.tally();
        let (s2, f2) = other.tally();
        assert(s1 * f2 <= 0xFFFF_FFFF_FFFF_FFFF * 0xFFFF_FFFF_FFFF_FFFF) by (nonlinear_arith)
            requires
                0 <= s1 <= 0xFFFF_FFFF_FFFF_FFFF,
                0 <= f2 <= 0xFFFF_FFFF_FFFF_FFFF,
        ;
        assert(s2 * f1 <= 0xFFFF_FFFF_FFFF_FFFF * 0xFFFF_FFFF_FFFF_FFFF) by (nonlinear_arith)
            requires
                0 <= s2 <= 0xFFFF_FFFF_FFFF_FFFF,
                0 <= f1 <= 0xFFFF_FFFF_FFFF_FFFF,
        ;
        assert((s1 * (s2 + f2) > s2 * (s1 + f1)) == (s1 * f2 > s2 * f1)) by (nonlinear_arith);
        s1 * f2 > s2 * f1
    }

    /// Sets the user's judgement of the relay.
    pub fn rank_relay(&mut self, rank: u8)
        ensures
            *final(self) == (Relay { rank, ..*old(self) }),
    {
        self.rank = rank;
    }

    /// Hides the relay from lists, or shows it again.
    pub fn hide_or_show_relay(&mut self, hidden: bool)
        ensures
            *final(self) == (Relay { hidden, ..*old(self) }),
    {
        self.hidden = hidden;
    }
}

impl Relay {
    pub const READ: u64 = 1;

    pub const WRITE: u64 = 2;

    pub const ADVERTISE: u64 = 4;

    pub const INBOX: u64 = 8;

    pub const OUTBOX: u64 = 16;

    pub const DISCOVER: u64 = 32;

    pub const PRIVATE: u64 = 64;

    /// Our inbox and our outbox together.
    pub const MAILBOX: u64 = 24;

    /// The rank of a relay that the user has not ranked.
    pub const DEFAULT_RANK: u8 = 3;

    /// A record for a relay seen for the first time.
    pub fn new(url: RelayUrl) -> (r: Relay)
        ensures
            r == (Relay {
                url,
                usage_bits: 0,
                rank: 3,
                hidden: false,
                success_count: 0,
                failure_count: 0,
                last_success_at: None,
            }),
    {
        Relay {
            url,
            usage_bits: 0,
            rank: Relay::DEFAULT_RANK,
            hidden: false,
            success_count: 0,
            failure_count: 0,
            last_success_at: None,
        }
    }

    /// Whether every bit of `bits` is set.
    pub open spec fn spec_has_usage_bits(&self, bits: u64) -> bool {
        self.usage_bits & bits == bits
    }

    /// Whether every bit of `bits` is set.
    #[verifier::when_used_as_spec(spec_has_usage_bits)]
    pub fn has_usage_bits(&self, bits: u64) -> (r: bool)
        ensures
            r == self.spec_has_usage_bits(bits),
    {
        self.usage_bits & bits == bits
    }

    /// Whether the relay serves any purpose at all.
    pub fn has_any_usage_bit(&self) -> (r: bool)
        ensures
            r == (self.usage_bits != 0),
    {
        self.usage_bits != 0
    }

    /// Whether the relay may be used for `bits`: it serves them and its rank
    /// is not 0.
    pub open spec fn spec_usable_for(&self, bits: u64) -> bool {
        self.spec_has_usage_bits(bits) && self.rank != 0
    }

    /// Whether the relay may be used for `bits`: it serves them and its rank
    /// is not 0.
    #[verifier::when_used_as_spec(spec_usable_for)]
    pub fn usable_for(&self, bits: u64) -> (r: bool)
        ensures
            r == self.spec_usable_for(bits),
    {
        self.has_usage_bits(bits) && self.rank != 0
    }

    /// The planner's weight for this relay.
    pub open spec fn multiplier(&self) -> int {
        rank_multiplier(self.rank, self.success_count, self.failure_count)
    }

    /// The planner's weight for this relay.
    pub fn score_multiplier(&self) -> (r: u64)
        ensures
            r == self.multiplier(),
            r <= 331,
    {
        let rank: u128 = self.rank as u128;
        let s: u128 = self.success_count as u128;
        let f: u128 = self.failure_count as u128;
        let attempts: u128 = s + f;
        if attempts == 0 {
            let m: u128 = (13 * rank) / 20;
            m as u64
        } else {
            let weight: u128 = 13 * rank;
            assert(weight * s <= 3315 * 0xFFFF_FFFF_FFFF_FFFF) by (nonlinear_arith)
                requires
                    0 <= weight <= 3315,
                    0 <= s <= 0xFFFF_FFFF_FFFF_FFFF,
            ;
            let num: u128 = weight * s;
            let den: u128 = 10 * attempts;
            assert(num / den <= 331) by (nonlinear_arith)
                requires
                    num == 13 * rank * s,
                    den == 10 * (s + f),
                    rank <= 255,
                    s + f > 0,
                    f >= 0,
                    s >= 0,
            ;
            let m: u128 = num / den;
            m as u64
        }
    }

    /// The record after one more failed connection. The counter stops at
    /// its largest value.
    pub fn bump_failure_count(&mut self)
        ensures
            final(self).failure_count == if old(self).failure_count == u64::MAX {
                u64::MAX
            } else {
                (old(self).failure_count + 1) as u64
            },
            final(self).url == old(self).url,
            final(self).usage_bits == old(self).usage_bits,
            final(self).rank == old(self).rank,
            final(self).hidden == old(self).hidden,
            final(self).success_count == old(self).success_count,
            final(self).last_success_at == old(self).last_success_at,
    {
        if self.failure_count < u64::MAX {
            self.failure_count = self.failure_count + 1;
        }
    }

    /// The record after a connection that succeeded at `now`. The counter
    /// stops at its largest value.
    pub fn record_success(&mut self, now: u64)
        ensures
            final(self).success_count == if old(self).success_count == u64::MAX {
                u64::MAX
            } else {
                (old(self).success_count + 1) as u64
            },
            final(self).last_success_at == Some(now),
            final(self).url == old(self).url,
            final(self).usage_bits == old(self).usage_bits,
            final(self).rank == old(self).rank,
            final(self).hidden == old(self).hidden,
            final(self).failure_count == old(self).failure_count,
    {
        if self.success_count < u64::MAX {
            self.success_count = self.success_count + 1;
        }
        self.last_success_at = Some(now);
    }
}

} // verus!
