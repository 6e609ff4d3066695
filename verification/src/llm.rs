//! Which human predictions get no LLM counterpart: the circuit breaker.
use vstd::prelude::*;

use crate::clock::Timestamp;
use crate::text::byte_len;

verus! {

/// Why a prediction gets no LLM counterpart.
#[derive(Clone, Copy, Debug, PartialEq, Eq, Structural)]
pub enum MeltdownReason {
    /// Its news item was flagged as noise.
    NoiseFlagged,
    /// Its extracted facts are shorter than 5 bytes.
    FactsTooShort,
    /// Its news item was published more than 3 whole days ago.
    Stale,
}

/// Whole days from `from` to `to`, as chrono's `signed_duration_since` and
/// `num_days` count them: the difference in whole seconds rounded toward zero,
/// then divided by 86400 rounding toward zero.
pub open spec fn whole_days_between(from: Timestamp, to: Timestamp) -> int {
    let ns = to.total_nanos() - from.total_nanos();
    let secs = if ns >= 0 {
        ns / 1_000_000_000
    } else {
        -((-ns) / 1_000_000_000)
    };
    if secs >= 0 {
        secs / 86400
    } else {
        -((-secs) / 86400)
    }
}

/// What the circuit breaker decides: noise flags first, then the facts' length,
/// then the news item's age; `None` where the prediction goes ahead.
pub open spec fn spec_meltdown(
    noise_flags: i64,
    facts: Seq<char>,
    published_at: Timestamp,
    now: Timestamp,
) -> Option<MeltdownReason> {
    if noise_flags > 0 {
        Some(MeltdownReason::NoiseFlagged)
    } else if byte_len(facts) < 5 {
        Some(MeltdownReason::FactsTooShort)
    } else if whole_days_between(published_at, now) > 3 {
        Some(MeltdownReason::Stale)
    } else {
        None
    }
}

/// Whether a human prediction is skipped instead of getting an LLM
/// counterpart, given how many noise flags its news item has, its extracted
/// facts, when the item was published and the current time.
pub fn check_meltdown(noise_flags: i64, facts: &str, published_at: Timestamp, now: Timestamp) -> (r:
    Option<MeltdownReason>)
    requires
        published_at.wf(),
        now.wf(),
    ensures
        r == spec_meltdown(noise_flags, facts@, published_at, now),
{
    if noise_flags > 0 {
        return Some(MeltdownReason::NoiseFlagged);
    }
    if facts.len() < 5 {
        return Some(MeltdownReason::FactsTooShort);
    }
    let ns: i128 = (now.secs as i128 - published_at.secs as i128) * 1_000_000_000 + (
    now.nanos as i128 - published_at.nanos as i128);
    assert(ns == now.total_nanos() - published_at.total_nanos());
    let days: i128 = if ns >= 0 {
        ns / 1_000_000_000 / 86400
    } else {
        -((-ns) / 1_000_000_000 / 86400)
    };
    assert(days == whole_days_between(published_at, now)) by {
        if ns < 0 {
            let q = (-ns) / 1_000_000_000;
            assert(q >= 0);
            if q == 0 {
                assert((-ns) / 1_000_000_000 / 86400 == 0);
            }
        }
    }
    if days > 3 {
        Some(MeltdownReason::Stale)
    } else {
        None
    }
}

/// A news item counts as stale exactly when at least four full days have
/// passed since it was published.
pub proof fn lemma_stale_after_four_days(published_at: Timestamp, now: Timestamp)
    ensures
        whole_days_between(published_at, now) > 3 <==> now.total_nanos()
            - published_at.total_nanos() >= 4 * 86400 * 1_000_000_000,
{
    let ns = now.total_nanos() - published_at.total_nanos();
    if ns >= 0 {
        let secs = ns / 1_000_000_000;
        assert(secs / 86400 > 3 <==> ns >= 345_600_000_000_000) by (nonlinear_arith)
            requires
                ns >= 0,
                secs == ns / 1_000_000_000,
        ;
    } else {
        let secs = -((-ns) / 1_000_000_000);
        assert(secs <= 0) by (nonlinear_arith)
            requires
                ns < 0,
                secs == -((-ns) / 1_000_000_000),
        ;
        if secs < 0 {
            assert(-((-secs) / 86400) <= 0) by (nonlinear_arith)
                requires
                    secs < 0,
            ;
        }
    }
}

/// The circuit breaker trips for a flagged news item whatever else holds;
/// for an unflagged one, for facts under 5 bytes; for unflagged, long enough
/// facts, for an item at least 4 whole days old; and lets every other
/// prediction through.
pub proof fn lemma_meltdown_reasons(
    noise_flags: i64,
    facts: Seq<char>,
    published_at: Timestamp,
    now: Timestamp,
)
    ensures
        noise_flags > 0 ==> spec_meltdown(noise_flags, facts, published_at, now) == Some(
            MeltdownReason::NoiseFlagged,
        ),
        noise_flags <= 0 && byte_len(facts) < 5 ==> spec_meltdown(
            noise_flags,
            facts,
            published_at,
            now,
        ) == Some(MeltdownReason::FactsTooShort),
        spec_meltdown(noise_flags, facts, published_at, now) is None == (noise_flags <= 0
            && byte_len(facts) >= 5 && now.total_nanos() - published_at.total_nanos() < 4 * 86400
            * 1_000_000_000),
{
    lemma_stale_after_four_days(published_at, now);
}

} // verus!
