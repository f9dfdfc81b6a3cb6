//! Percentiles of samples, budgets rounded to clean values, and durations as text.
use crate::text::{decimal, decimal_of};
use vstd::prelude::*;
use vstd::seq_lib::*;
use vstd::utf8::{decode_utf8, encode_utf8, encode_utf8_decode_utf8, is_char_boundary};

verus! {

/// Whether numbers do not descend.
pub open spec fn nondescending(numbers: Seq<u64>) -> bool {
    forall|i: int, j: int| 0 <= i < j < numbers.len() ==> #[trigger] numbers[i] <= #[trigger] numbers[j]
}

/// The position of the sample at a percentile, by nearest rank: the least position such that at
/// least that part of the samples stands up to it.
pub open spec fn rank_position(len: nat, percent: nat) -> int {
    let rank = (len * percent + 99) / 100;
    if rank == 0 {
        0
    } else if rank > len {
        len - 1
    } else {
        rank - 1
    }
}

/// The sample at a percentile of samples that do not descend, and zero where there are none.
pub open spec fn sample_at(sorted: Seq<u64>, percent: nat) -> u64 {
    if sorted.len() == 0 {
        0
    } else {
        sorted[rank_position(sorted.len(), percent)]
    }
}

/// The sample at a percentile of samples in ascending order.
pub fn nearest_rank(sorted: &[u64], percent: u64) -> (r: u64)
    ensures
        r == sample_at(sorted@, percent as nat),
{
    let len: usize = sorted.len();
    if len == 0 {
        return 0;
    }
    assert(len * percent + 99 <= u128::MAX) by (nonlinear_arith)
        requires
            len <= 0xffff_ffff_ffff_ffff,
            percent <= 0xffff_ffff_ffff_ffff,
    ;
    assert(len * percent <= u128::MAX - 99);
    let rank: u128 = (len as u128 * percent as u128 + 99) / 100;
    if rank == 0 {
        sorted[0]
    } else if rank > len as u128 {
        sorted[len - 1]
    } else {
        sorted[(rank - 1) as usize]
    }
}

/// Whether `sorted` holds the samples in an order that does not descend.
pub open spec fn sorts(samples: Seq<u64>, sorted: Seq<u64>) -> bool {
    nondescending(sorted) && sorted.to_multiset() == samples.to_multiset()
}

/// The samples in ascending order.
pub fn sorted_samples(samples: &Vec<u64>) -> (r: Vec<u64>)
    ensures
        sorts(samples@, r@),
        r@.len() == samples@.len(),
{
    let mut out: Vec<u64> = Vec::new();
    assert(samples@.take(0) =~= out@);
    for i in 0..samples.len()
        invariant
            nondescending(out@),
            out@.len() == i,
            out@.to_multiset() == samples@.take(i as int).to_multiset(),
    {
        let item: u64 = samples[i];
        let mut at: usize = 0;
        while at < out.len() && out[at] <= item
            invariant
                at <= out@.len(),
                forall|k: int| 0 <= k < at ==> #[trigger] out@[k] <= item,
            decreases out.len() - at,
        {
            at += 1;
        }
        let ghost prior = out@;
        out.insert(at, item);
        proof {
            to_multiset_insert(prior, at as int, item);
            to_multiset_build(samples@.take(i as int), item);
            assert(samples@.take(i + 1) =~= samples@.take(i as int).push(item));
            assert forall|a: int, b: int| 0 <= a < b < out@.len() implies #[trigger] out@[a]
                <= #[trigger] out@[b] by {
                let x = if a < at {
                    prior[a]
                } else if a == at {
                    item
                } else {
                    prior[a - 1]
                };
                let y = if b < at {
                    prior[b]
                } else if b == at {
                    item
                } else {
                    prior[b - 1]
                };
                assert(out@[a] == x && out@[b] == y);
                if b > at && at < prior.len() {
                    assert(item <= prior[at as int]);
                }
            }
        }
    }
    assert(samples@.take(samples@.len() as int) =~= samples@);
    out
}

/// The median and the ninetieth percentile of some samples.
#[derive(Debug)]
pub struct Percentiles {
    pub samples: usize,
    pub median_seconds: u64,
    pub p90_seconds: u64,
}

impl Percentiles {
    /// What this says of some samples.
    pub open spec fn summarizes(self, samples: Seq<u64>) -> bool {
        &&& self.samples == samples.len()
        &&& exists|sorted: Seq<u64>| #[trigger]
            sorts(samples, sorted) && self.median_seconds == sample_at(sorted, 50)
                && self.p90_seconds == sample_at(sorted, 90)
    }
}

/// The median and the ninetieth percentile, by nearest rank.
pub fn percentiles(samples: &Vec<u64>) -> (r: Percentiles)
    ensures
        r.summarizes(samples@),
{
    let sorted = sorted_samples(samples);
    proof {
        to_multiset_len(samples@);
    }
    Percentiles {
        samples: sorted.len(),
        median_seconds: nearest_rank(sorted.as_slice(), 50),
        p90_seconds: nearest_rank(sorted.as_slice(), 90),
    }
}

/// A percentile of samples is one of the samples.
pub proof fn percentile_is_a_sample(samples: Seq<u64>, sorted: Seq<u64>, percent: nat)
    requires
        sorts(samples, sorted),
        samples.len() > 0,
    ensures
        samples.contains(sample_at(sorted, percent)),
{
    to_multiset_len(samples);
    to_multiset_len(sorted);
    let i = rank_position(sorted.len(), percent);
    assert(0 <= i < sorted.len());
    assert(sorted.contains(sorted[i]));
    to_multiset_contains(sorted, sorted[i]);
    to_multiset_contains(samples, sorted[i]);
}

/// A higher percentile is no smaller sample.
pub proof fn percentiles_do_not_descend(sorted: Seq<u64>, lower: nat, higher: nat)
    requires
        nondescending(sorted),
        lower <= higher,
    ensures
        sample_at(sorted, lower) <= sample_at(sorted, higher),
{
    let len = sorted.len();
    if len > 0 {
        assert(len * lower <= len * higher) by (nonlinear_arith)
            requires
                lower <= higher,
        ;
        let a = rank_position(len, lower);
        let b = rank_position(len, higher);
        assert(0 <= a <= b < len);
        if a < b {
            assert(sorted[a] <= sorted[b]);
        }
    }
}

/// Whether a number of seconds is a clean budget: a step of the ladder or whole days.
pub open spec fn clean(seconds: nat) -> bool {
    ||| seconds == 30
    ||| seconds == 60
    ||| seconds == 120
    ||| seconds == 300
    ||| seconds == 600
    ||| seconds == 900
    ||| seconds == 1800
    ||| seconds == 3600
    ||| seconds == 7200
    ||| seconds == 14400
    ||| seconds == 28800
    ||| (seconds > 0 && seconds % 86400 == 0)
}

/// Whether `budget` is the least clean number of seconds that is not below `seconds`.
pub open spec fn clean_ceiling(seconds: nat, budget: nat) -> bool {
    &&& clean(budget)
    &&& seconds <= budget
    &&& forall|other: nat| #[trigger] clean(other) && seconds <= other ==> budget <= other
}

/// The least clean budget that is not below a duration, where it fits.
pub fn round_up_clean(seconds: u64) -> (r: u64)
    requires
        (seconds + 86399) / 86400 * 86400 <= u64::MAX,
    ensures
        clean_ceiling(seconds as nat, r as nat),
{
    if seconds <= 30 {
        30
    } else if seconds <= 60 {
        60
    } else if seconds <= 120 {
        120
    } else if seconds <= 300 {
        300
    } else if seconds <= 600 {
        600
    } else if seconds <= 900 {
        900
    } else if seconds <= 1800 {
        1800
    } else if seconds <= 3600 {
        3600
    } else if seconds <= 7200 {
        7200
    } else if seconds <= 14400 {
        14400
    } else if seconds <= 28800 {
        28800
    } else {
        let whole: u64 = seconds / 86400;
        let days: u64 = if seconds % 86400 == 0 {
            whole
        } else {
            whole + 1
        };
        assert(days == (seconds + 86399) / 86400);
        let r: u64 = days * 86400;
        assert(r as nat % 86400 == 0);
        assert forall|other: nat| #[trigger] clean(other) && seconds <= other implies r
            <= other by {
            assert(other % 86400 == 0);
            let n = other / 86400;
            assert(other == n * 86400);
            assert(n >= days);
        }
        r
    }
}

/// A longer duration has no smaller budget.
pub proof fn budgets_do_not_descend(a: nat, budget_a: nat, b: nat, budget_b: nat)
    requires
        clean_ceiling(a, budget_a),
        clean_ceiling(b, budget_b),
        a <= b,
    ensures
        budget_a <= budget_b,
{
}

/// A clean budget rounds up to itself.
pub proof fn clean_budgets_stay(budget: nat, rounded: nat)
    requires
        clean(budget),
        clean_ceiling(budget, rounded),
    ensures
        rounded == budget,
{
}

/// A duration as text: hours and minutes, and seconds where there are no hours.
pub open spec fn duration_text(seconds: nat) -> Seq<char> {
    let hours = seconds / 3600;
    let minutes = (seconds % 3600) / 60;
    let secs = seconds % 60;
    if seconds == 0 {
        "0s"@
    } else {
        (if hours > 0 {
            decimal_of(hours) + "h"@
        } else {
            Seq::empty()
        }) + (if minutes > 0 {
            decimal_of(minutes) + "m"@
        } else {
            Seq::empty()
        }) + (if secs > 0 && hours == 0 {
            decimal_of(secs) + "s"@
        } else {
            Seq::empty()
        })
    }
}

/// A duration as text.
pub fn format_duration(seconds: u64) -> (r: String)
    ensures
        r@ == duration_text(seconds as nat),
{
    if seconds == 0 {
        return "0s".to_string();
    }
    let hours: u64 = seconds / 3600;
    let minutes: u64 = (seconds % 3600) / 60;
    let secs: u64 = seconds % 60;
    let mut out = String::new();
    if hours > 0 {
        out.append(decimal(hours).as_str());
        out.append("h");
    }
    if minutes > 0 {
        out.append(decimal(minutes).as_str());
        out.append("m");
    }
    if secs > 0 && hours == 0 {
        out.append(decimal(secs).as_str());
        out.append("s");
    }
    assert(out@ =~= duration_text(seconds as nat));
    out
}

/// Whether a text can be cut to a width: the cut, if there is one, falls between two characters.
pub open spec fn cuts(text: Seq<char>, width: nat) -> bool {
    encode_utf8(text).len() <= usize::MAX && (encode_utf8(text).len() > width ==> width > 0
        && is_char_boundary(encode_utf8(text), width - 1))
}

/// A text of at most `width` bytes, or the first `width - 1` bytes of a longer one with an
/// ellipsis behind them.
pub open spec fn cut(text: Seq<char>, width: nat) -> Seq<char> {
    if encode_utf8(text).len() <= width {
        text
    } else {
        decode_utf8(encode_utf8(text).take(width - 1)) + "…"@
    }
}

/// A text of at most `width` bytes, or the first `width - 1` bytes of a longer one with an
/// ellipsis behind them. The cut has to fall between two characters.
pub fn truncate(text: &str, width: usize) -> (r: String)
    requires
        cuts(text@, width as nat),
    ensures
        r@ == cut(text@, width as nat),
{
    if text.len() <= width {
        text.to_string()
    } else {
        let (kept, _) = text.split_at(width - 1);
        let mut out = kept.to_string();
        out.append("…");
        proof {
            assert(encode_utf8(kept@) =~= encode_utf8(text@).take(width - 1));
            encode_utf8_decode_utf8(kept@);
        }
        out
    }
}

/// At a percentile at least that part of the samples has been reached, and one sample earlier it had
/// not.
pub proof fn percentiles_reach_their_part(len: nat, percent: nat)
    requires
        len > 0,
        0 < percent <= 100,
    ensures
        0 <= rank_position(len, percent) < len,
        (rank_position(len, percent) + 1) * 100 >= len * percent,
        rank_position(len, percent) * 100 < len * percent,
{
    let x = len * percent;
    assert(0 < x <= len * 100) by (nonlinear_arith)
        requires
            x == len * percent,
            len > 0,
            0 < percent <= 100,
    ;
}

/// No sample is greater than the one at the hundredth percentile.
pub proof fn the_last_percentile_is_the_greatest(sorted: Seq<u64>, i: int)
    requires
        nondescending(sorted),
        0 <= i < sorted.len(),
    ensures
        sorted[i] <= sample_at(sorted, 100),
{
    percentiles_reach_their_part(sorted.len(), 100);
}

} // verus!
