//! Conflict resolution between a local and a remote version of a value.

use vstd::prelude::*;
use crate::text::str_eq;

verus! {

/// Strategy for resolving conflicts between local and remote data.
#[derive(Debug, Clone, Copy, PartialEq, Eq, Structural)]
pub enum ConflictResolution {
    /// Most recent write wins (based on the update timestamp).
    LastWriteWins,
    /// Local value always wins.
    LocalWins,
    /// Remote value always wins.
    RemoteWins,
    /// Higher confidence value wins, falls back to LastWriteWins on tie.
    HighestConfidence,
    /// Requires manual resolution.
    Manual,
}

/// The text form of each `ConflictResolution`.
pub open spec fn conflict_resolution_name(x: ConflictResolution) -> Seq<char> {
    match x {
        ConflictResolution::LastWriteWins => "last_write_wins"@,
        ConflictResolution::LocalWins => "local_wins"@,
        ConflictResolution::RemoteWins => "remote_wins"@,
        ConflictResolution::HighestConfidence => "highest_confidence"@,
        ConflictResolution::Manual => "manual"@,
    }
}

/// The `ConflictResolution` that a text names, if any.
pub open spec fn conflict_resolution_parse(s: Seq<char>) -> Option<ConflictResolution> {
    if s == "last_write_wins"@ {
        Some(ConflictResolution::LastWriteWins)
    } else if s == "local_wins"@ {
        Some(ConflictResolution::LocalWins)
    } else if s == "remote_wins"@ {
        Some(ConflictResolution::RemoteWins)
    } else if s == "highest_confidence"@ {
        Some(ConflictResolution::HighestConfidence)
    } else if s == "manual"@ {
        Some(ConflictResolution::Manual)
    } else {
        None
    }
}

impl ConflictResolution {
    /// The text form of this value.
    pub fn as_str(&self) -> (r: &'static str)
        ensures
            r@ == conflict_resolution_name(*self),
    {
        match self {
            ConflictResolution::LastWriteWins => "last_write_wins",
            ConflictResolution::LocalWins => "local_wins",
            ConflictResolution::RemoteWins => "remote_wins",
            ConflictResolution::HighestConfidence => "highest_confidence",
            ConflictResolution::Manual => "manual",
        }
    }

    /// Parses the text form; `None` for any other text.
    pub fn from_str(s: &str) -> (r: Option<ConflictResolution>)
        ensures
            r == conflict_resolution_parse(s@),
    {
        if str_eq(s, "last_write_wins") {
            Some(ConflictResolution::LastWriteWins)
        } else if str_eq(s, "local_wins") {
            Some(ConflictResolution::LocalWins)
        } else if str_eq(s, "remote_wins") {
            Some(ConflictResolution::RemoteWins)
        } else if str_eq(s, "highest_confidence") {
            Some(ConflictResolution::HighestConfidence)
        } else if str_eq(s, "manual") {
            Some(ConflictResolution::Manual)
        } else {
            None
        }
    }
}

/// Reading back the text form of a `ConflictResolution` gives the same value, and a text
/// that reads as a value is that value's text form.
pub proof fn lemma_conflict_resolution_roundtrip(x: ConflictResolution, s: Seq<char>)
    ensures
        conflict_resolution_parse(conflict_resolution_name(x)) == Some(x),
        conflict_resolution_parse(s) == Some(x) && s != conflict_resolution_name(x) ==> false,
{
    reveal_strlit("last_write_wins");
    reveal_strlit("local_wins");
    reveal_strlit("remote_wins");
    reveal_strlit("highest_confidence");
    reveal_strlit("manual");
    assert("local_wins"@.len() != "last_write_wins"@.len());
    assert("remote_wins"@.len() != "last_write_wins"@.len());
    assert("remote_wins"@.len() != "local_wins"@.len());
    assert("highest_confidence"@.len() != "last_write_wins"@.len());
    assert("highest_confidence"@.len() != "local_wins"@.len());
    assert("highest_confidence"@.len() != "remote_wins"@.len());
    assert("manual"@.len() != "last_write_wins"@.len());
    assert("manual"@.len() != "local_wins"@.len());
    assert("manual"@.len() != "remote_wins"@.len());
    assert("manual"@.len() != "highest_confidence"@.len());
}
impl Default for ConflictResolution {
    fn default() -> (r: Self)
        ensures
            r == ConflictResolution::LastWriteWins,
    {
        ConflictResolution::LastWriteWins
    }
}

/// Context for conflict resolution decisions.
///
/// A confidence score is carried as the IEEE-754 bit pattern of the `f64`
/// (`f64::to_bits`); scores are compared as the floating-point numbers they
/// stand for (see `float_bits_gt`).
#[derive(Debug, Clone, Copy)]
pub struct ConflictContext {
    /// When the local value was last updated (milliseconds since epoch).
    pub local_updated_at: i64,
    /// When the remote value was last updated (milliseconds since epoch).
    pub remote_updated_at: i64,
    /// Confidence of the local value, if available (bit pattern of the score).
    pub local_confidence: Option<u64>,
    /// Confidence of the remote value, if available (bit pattern of the score).
    pub remote_confidence: Option<u64>,
}

/// Outcome of conflict resolution.
#[derive(Debug, Clone, Copy, PartialEq, Eq, Structural)]
pub enum ConflictOutcome {
    /// Keep the local value.
    KeepLocal,
    /// Accept the remote value.
    AcceptRemote,
    /// Cannot be resolved automatically; requires manual intervention.
    RequiresManual,
}

/// The sign bit of an `f64` bit pattern.
pub open spec fn sign_bit() -> int {
    0x8000_0000_0000_0000
}

/// Whether an `f64` bit pattern is a NaN: all exponent bits set and a
/// non-zero mantissa.
pub open spec fn is_nan_bits(x: u64) -> bool {
    (x as int) % sign_bit() > 0x7ff0_0000_0000_0000
}

/// A number that orders non-NaN `f64` bit patterns as the numbers they stand
/// for: the magnitude bits, negated when the sign bit is set (so `-0.0` and
/// `0.0` both give 0).
pub open spec fn float_key(x: u64) -> int {
    if x >= sign_bit() {
        -((x as int) % sign_bit())
    } else {
        x as int
    }
}

/// `a > b` for the `f64` numbers with these bit patterns: never true when
/// either is a NaN, and `-0.0` equals `0.0`.
pub open spec fn float_bits_gt(a: u64, b: u64) -> bool {
    !is_nan_bits(a) && !is_nan_bits(b) && float_key(a) > float_key(b)
}

/// The order key of a bit pattern.
fn float_key_of(x: u64) -> (r: i128)
    ensures
        r == float_key(x),
{
    let mag = x % 0x8000_0000_0000_0000u64;
    if x >= 0x8000_0000_0000_0000u64 {
        -(mag as i128)
    } else {
        x as i128
    }
}

/// Compares two confidence scores, given as `f64` bit patterns, as numbers.
pub fn float_bits_greater(a: u64, b: u64) -> (r: bool)
    ensures
        r == float_bits_gt(a, b),
{
    let nan_a = a % 0x8000_0000_0000_0000u64 > 0x7ff0_0000_0000_0000u64;
    let nan_b = b % 0x8000_0000_0000_0000u64 > 0x7ff0_0000_0000_0000u64;
    !nan_a && !nan_b && float_key_of(a) > float_key_of(b)
}

/// Last write wins: the remote value is accepted only when it is strictly newer.
pub open spec fn spec_last_write_wins(ctx: ConflictContext) -> ConflictOutcome {
    if ctx.remote_updated_at > ctx.local_updated_at {
        ConflictOutcome::AcceptRemote
    } else {
        ConflictOutcome::KeepLocal
    }
}

/// The outcome of resolving a conflict under a strategy.
pub open spec fn spec_resolve_conflict(strategy: ConflictResolution, ctx: ConflictContext) -> ConflictOutcome {
    match strategy {
        ConflictResolution::LastWriteWins => spec_last_write_wins(ctx),
        ConflictResolution::LocalWins => ConflictOutcome::KeepLocal,
        ConflictResolution::RemoteWins => ConflictOutcome::AcceptRemote,
        ConflictResolution::HighestConfidence => match (ctx.local_confidence, ctx.remote_confidence) {
            (Some(l), Some(r)) => if float_bits_gt(r, l) {
                ConflictOutcome::AcceptRemote
            } else if float_bits_gt(l, r) {
                ConflictOutcome::KeepLocal
            } else {
                spec_last_write_wins(ctx)
            },
            _ => spec_last_write_wins(ctx),
        },
        ConflictResolution::Manual => ConflictOutcome::RequiresManual,
    }
}

/// Resolve a conflict between local and remote data.
pub fn resolve_conflict(strategy: ConflictResolution, ctx: &ConflictContext) -> (r: ConflictOutcome)
    ensures
        r == spec_resolve_conflict(strategy, *ctx),
{
    match strategy {
        ConflictResolution::LastWriteWins => {
            if ctx.remote_updated_at > ctx.local_updated_at {
                ConflictOutcome::AcceptRemote
            } else {
                ConflictOutcome::KeepLocal
            }
        },
        ConflictResolution::LocalWins => ConflictOutcome::KeepLocal,
        ConflictResolution::RemoteWins => ConflictOutcome::AcceptRemote,
        ConflictResolution::HighestConfidence => {
            match (ctx.local_confidence, ctx.remote_confidence) {
                (Some(l), Some(r)) => {
                    if float_bits_greater(r, l) {
                        ConflictOutcome::AcceptRemote
                    } else if float_bits_greater(l, r) {
                        ConflictOutcome::KeepLocal
                    } else {
                        // Tie: fall back to last write wins.
                        if ctx.remote_updated_at > ctx.local_updated_at {
                            ConflictOutcome::AcceptRemote
                        } else {
                            ConflictOutcome::KeepLocal
                        }
                    }
                },
                // If a confidence is missing, fall back to last write wins.
                _ => {
                    if ctx.remote_updated_at > ctx.local_updated_at {
                        ConflictOutcome::AcceptRemote
                    } else {
                        ConflictOutcome::KeepLocal
                    }
                },
            }
        },
        ConflictResolution::Manual => ConflictOutcome::RequiresManual,
    }
}

/// Only the manual strategy ever asks for manual resolution, and it always does.
pub proof fn lemma_manual_only(strategy: ConflictResolution, ctx: ConflictContext)
    ensures
        (spec_resolve_conflict(strategy, ctx) == ConflictOutcome::RequiresManual) <==> (strategy
            == ConflictResolution::Manual),
{
}

/// Resolution is symmetric: swapping the local and the remote side of a conflict
/// that an automatic strategy decides on distinct timestamps (or distinct
/// confidences) swaps the outcome.
pub proof fn lemma_resolution_antisymmetric(strategy: ConflictResolution, ctx: ConflictContext)
    requires
        strategy == ConflictResolution::LastWriteWins || strategy
            == ConflictResolution::HighestConfidence,
        ctx.local_updated_at != ctx.remote_updated_at,
    ensures
        ({
            let swapped = ConflictContext {
                local_updated_at: ctx.remote_updated_at,
                remote_updated_at: ctx.local_updated_at,
                local_confidence: ctx.remote_confidence,
                remote_confidence: ctx.local_confidence,
            };
            spec_resolve_conflict(strategy, swapped) != spec_resolve_conflict(strategy, ctx)
        }),
{
}

/// Under the highest-confidence strategy, a conflict in which either side has
/// no confidence score is decided by time alone: the remote value is accepted
/// exactly when it is strictly newer, and the local value is kept otherwise.
pub proof fn lemma_missing_confidence_falls_back_to_time(ctx: ConflictContext)
    requires
        ctx.local_confidence is None || ctx.remote_confidence is None,
    ensures
        spec_resolve_conflict(ConflictResolution::HighestConfidence, ctx) == (if ctx.remote_updated_at
            > ctx.local_updated_at {
            ConflictOutcome::AcceptRemote
        } else {
            ConflictOutcome::KeepLocal
        }),
{
}

/// Under the highest-confidence strategy, when both sides carry a score, the
/// side with the strictly greater score wins; equal (or incomparable) scores
/// are decided by time, the remote value winning only when strictly newer.
pub proof fn lemma_higher_confidence_wins(ctx: ConflictContext, l: u64, r: u64)
    requires
        ctx.local_confidence == Some(l),
        ctx.remote_confidence == Some(r),
    ensures
        float_bits_gt(r, l) ==> spec_resolve_conflict(ConflictResolution::HighestConfidence, ctx)
            == ConflictOutcome::AcceptRemote,
        float_bits_gt(l, r) ==> spec_resolve_conflict(ConflictResolution::HighestConfidence, ctx)
            == ConflictOutcome::KeepLocal,
        !float_bits_gt(r, l) && !float_bits_gt(l, r) ==> spec_resolve_conflict(
            ConflictResolution::HighestConfidence,
            ctx,
        ) == (if ctx.remote_updated_at > ctx.local_updated_at {
            ConflictOutcome::AcceptRemote
        } else {
            ConflictOutcome::KeepLocal
        }),
{
}

/// The fixed strategies: last write wins accepts the remote value exactly when
/// it is strictly newer, local wins always keeps the local value, and remote
/// wins always accepts the remote one.
pub proof fn lemma_fixed_strategies(ctx: ConflictContext)
    ensures
        (spec_resolve_conflict(ConflictResolution::LastWriteWins, ctx)
            == ConflictOutcome::AcceptRemote) <==> ctx.remote_updated_at > ctx.local_updated_at,
        (spec_resolve_conflict(ConflictResolution::LastWriteWins, ctx)
            == ConflictOutcome::KeepLocal) <==> ctx.remote_updated_at <= ctx.local_updated_at,
        spec_resolve_conflict(ConflictResolution::LocalWins, ctx) == ConflictOutcome::KeepLocal,
        spec_resolve_conflict(ConflictResolution::RemoteWins, ctx) == ConflictOutcome::AcceptRemote,
{
}

} // verus!
