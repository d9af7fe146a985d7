//! The four-tier classifier that turns an activity count into a colour bucket.

use vstd::prelude::*;

verus! {

/// Index of the bucket that receives every count above all four tiers.
pub const OVERFLOW_BUCKET: usize = 3;

/// Four activity-count tiers. The tiers may be given in any order: a count is
/// classified by scanning all of them.
///
/// For a vibration map whose pixel holds the count of its lit neighbours,
///
/// ```text
///     0 1 1    0 1 1
///     1 0 1 -> 1 6 1
///     1 1 0    1 1 0
/// ```
///
/// the tiers `5, 6, 7, 8` put the centre pixel (count 6) into bucket 1.
#[derive(Clone, Copy, Debug)]
pub struct PyColorBounds {
    pub ch1: i32,
    pub ch2: i32,
    pub ch3: i32,
    pub ch4: i32,
}

impl PyColorBounds {
    /// The value of tier `i`, for `i` in `0..4`.
    pub open spec fn tier(self, i: int) -> int {
        if i == 0 {
            self.ch1 as int
        } else if i == 1 {
            self.ch2 as int
        } else if i == 2 {
            self.ch3 as int
        } else {
            self.ch4 as int
        }
    }

    /// Some tier is at least `count`.
    pub open spec fn covers(self, count: int) -> bool {
        exists|i: int| 0 <= i < 4 && self.tier(i) >= count
    }

    /// Tier `i` is the one that `count` falls into: it is at least `count`, no
    /// tier that is at least `count` is smaller, and among equal tiers it has
    /// the lowest index.
    pub open spec fn selects(self, count: int, i: int) -> bool {
        &&& 0 <= i < 4
        &&& self.tier(i) >= count
        &&& forall|j: int|
            0 <= j < 4 && self.tier(j) >= count ==> {
                ||| self.tier(i) < self.tier(j)
                ||| (self.tier(i) == self.tier(j) && i <= j)
            }
    }

    /// The tier that `count` falls into among the first `k` tiers, if any of
    /// them is at least `count`.
    pub open spec fn scan(self, count: int, k: int) -> Option<int>
        decreases k,
    {
        if k <= 0 {
            None
        } else {
            let before = self.scan(count, k - 1);
            let i = k - 1;
            if self.tier(i) >= count && (before.is_none() || self.tier(i) < self.tier(
                before.unwrap(),
            )) {
                Some(i)
            } else {
                before
            }
        }
    }

    /// The bucket of `count`: the tier it falls into, or the overflow bucket
    /// where it exceeds every tier.
    pub open spec fn classify_spec(self, count: int) -> int {
        match self.scan(count, 4) {
            Some(i) => i,
            None => OVERFLOW_BUCKET as int,
        }
    }

    /// What `scan` finds among the first `k` tiers.
    pub proof fn lemma_scan(self, count: int, k: int)
        requires
            0 <= k <= 4,
        ensures
            match self.scan(count, k) {
                Some(i) => {
                    &&& 0 <= i < k
                    &&& self.tier(i) >= count
                    &&& forall|j: int|
                        0 <= j < k && self.tier(j) >= count ==> {
                            ||| self.tier(i) < self.tier(j)
                            ||| (self.tier(i) == self.tier(j) && i <= j)
                        }
                },
                None => forall|j: int| 0 <= j < k ==> self.tier(j) < count,
            },
        decreases k,
    {
        if k > 0 {
            self.lemma_scan(count, k - 1);
        }
    }

    /// The classification rule: a count that some tier covers goes to the
    /// smallest such tier, the lowest index winning among equal tiers; any
    /// other count goes to the overflow bucket.
    pub proof fn lemma_classify_rule(self, count: int)
        ensures
            0 <= self.classify_spec(count) < 4,
            self.covers(count) ==> self.selects(count, self.classify_spec(count)),
            !self.covers(count) ==> self.classify_spec(count) == OVERFLOW_BUCKET,
    {
        self.lemma_scan(count, 4);
    }

    /// No other bucket than the classified one is selected.
    pub proof fn lemma_selected_is_unique(self, count: int, i: int)
        requires
            self.selects(count, i),
        ensures
            i == self.classify_spec(count),
    {
        self.lemma_scan(count, 4);
    }

    /// Every count above `i32::MAX` lands in the overflow bucket.
    pub proof fn lemma_large_count_overflows(self, count: int)
        requires
            count > i32::MAX,
        ensures
            self.classify_spec(count) == OVERFLOW_BUCKET,
    {
        self.lemma_scan(count, 4);
    }

    pub fn new(ch1: i32, ch2: i32, ch3: i32, ch4: i32) -> (bounds: PyColorBounds)
        ensures
            bounds.ch1 == ch1,
            bounds.ch2 == ch2,
            bounds.ch3 == ch3,
            bounds.ch4 == ch4,
    {
        PyColorBounds { ch1, ch2, ch3, ch4 }
    }

    fn tier_at(&self, i: usize) -> (t: i32)
        requires
            i < 4,
        ensures
            t == self.tier(i as int),
    {
        if i == 0 {
            self.ch1
        } else if i == 1 {
            self.ch2
        } else if i == 2 {
            self.ch3
        } else {
            self.ch4
        }
    }

    /// Classifies an activity count into one of the buckets `0..=3`.
    pub fn classify(&self, count: u32) -> (bucket: usize)
        ensures
            bucket < 4,
            bucket == self.classify_spec(count as int),
            self.covers(count as int) ==> self.selects(count as int, bucket as int),
            !self.covers(count as int) ==> bucket == OVERFLOW_BUCKET,
    {
        let wanted: i64 = count as i64;
        let mut best: Option<usize> = None;
        let mut best_tier: i32 = 0;
        let mut k: usize = 0;
        while k < 4
            invariant
                k <= 4,
                wanted == count,
                match best {
                    Some(i) => self.scan(count as int, k as int) == Some(i as int) && i < k
                        && best_tier == self.tier(i as int),
                    None => self.scan(count as int, k as int).is_none(),
                },
            decreases 4 - k,
        {
            let t = self.tier_at(k);
            if t as i64 >= wanted && (best.is_none() || t < best_tier) {
                best = Some(k);
                best_tier = t;
            }
            k += 1;
        }
        proof {
            self.lemma_classify_rule(count as int);
        }
        match best {
            Some(i) => i,
            None => OVERFLOW_BUCKET,
        }
    }
}

} // verus!
