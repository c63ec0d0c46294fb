//! A single API credential and its availability / penalty bookkeeping.

use vstd::prelude::*;

verus! {

/// Extra cooldown added to a credential each time an attempt with it fails,
/// and removed again (floored at zero) when it later succeeds.
pub const TROUBLE_PENALTY_SECONDS: i64 = 3600;

/// One credential of the shared pool: an API key plus the bookkeeping that
/// gates when it may be dispensed again.
///
/// A credential is *available* at time `now` when it has never been claimed
/// (`triggered_on` is `None`) or its cooldown window has elapsed
/// (`now >= triggered_on + delay_by_second`).
#[derive(Debug, PartialEq, Eq)]
pub struct Token {
    /// Unique identifier within the pool.
    pub id: i64,
    /// The API key itself.
    pub token: String,
    /// Which vendor this credential belongs to (for example `"openrouter"`
    /// or `"gemini"`); an open set, the store never interprets it.
    pub token_type: String,
    /// Seconds-since-epoch timestamp of the most recent claim, or `None` if
    /// the credential was never dispensed.
    pub triggered_on: Option<i64>,
    /// Accumulated cooldown in seconds; never negative.
    pub delay_by_second: i64,
    /// True while the credential is under penalty after a failed attempt.
    pub trouble_delay: bool,
}

impl Clone for Token {
    /// A field-for-field copy.
    fn clone(&self) -> (r: Self)
        ensures
            r == *self,
    {
        Token {
            id: self.id,
            token: self.token.clone(),
            token_type: self.token_type.clone(),
            triggered_on: self.triggered_on,
            delay_by_second: self.delay_by_second,
            trouble_delay: self.trouble_delay,
        }
    }
}

impl Token {
    /// Structural invariant: the cooldown is never negative.
    pub open spec fn wf(self) -> bool {
        self.delay_by_second >= 0
    }

    /// The availability predicate: never claimed, or the cooldown window has
    /// elapsed at `now`.
    pub open spec fn spec_is_available(self, now: i64) -> bool {
        match self.triggered_on {
            None => true,
            Some(t) => now as int >= t as int + self.delay_by_second as int,
        }
    }

    /// Runtime check of [`Token::spec_is_available`]; the sum is taken in
    /// `i128` so extreme timestamps cannot overflow.
    pub fn is_available(&self, now: i64) -> (r: bool)
        ensures
            r == self.spec_is_available(now),
    {
        match self.triggered_on {
            None => true,
            Some(t) => now as i128 >= t as i128 + self.delay_by_second as i128,
        }
    }

    /// Sort key for FIFO-by-oldest-claim selection: a credential that was
    /// never claimed sorts before every claimed one.
    pub open spec fn claim_key(self) -> int {
        match self.triggered_on {
            None => i64::MIN as int - 1,
            Some(t) => t as int,
        }
    }

    /// Runtime value of [`Token::claim_key`], widened to `i128` so the
    /// never-claimed sentinel has room below `i64::MIN`.
    pub fn claim_key_val(&self) -> (r: i128)
        ensures
            r as int == self.claim_key(),
    {
        match self.triggered_on {
            None => i64::MIN as i128 - 1,
            Some(t) => t as i128,
        }
    }

    /// The credential as it stands right after being dispensed at `now`.
    pub open spec fn claimed(self, now: i64) -> Token {
        Token { triggered_on: Some(now), ..self }
    }

    /// The credential as it stands right after a penalty: flagged as
    /// troubled, with the cooldown grown by [`TROUBLE_PENALTY_SECONDS`]
    /// (saturating at `i64::MAX`).
    pub open spec fn marked(self) -> Token {
        Token {
            trouble_delay: true,
            delay_by_second: if self.delay_by_second + TROUBLE_PENALTY_SECONDS <= i64::MAX {
                (self.delay_by_second + TROUBLE_PENALTY_SECONDS) as i64
            } else {
                i64::MAX
            },
            ..self
        }
    }

    /// The credential as it stands right after rehabilitation: if it was
    /// troubled, the flag is dropped and the penalty is taken back out of the
    /// cooldown (floored at zero); otherwise nothing changes.
    pub open spec fn cleared(self) -> Token {
        if self.trouble_delay {
            Token {
                trouble_delay: false,
                delay_by_second: if self.delay_by_second - TROUBLE_PENALTY_SECONDS >= 0 {
                    (self.delay_by_second - TROUBLE_PENALTY_SECONDS) as i64
                } else {
                    0
                },
                ..self
            }
        } else {
            self
        }
    }
}

/// Penalty round-trip: marking a credential and then clearing it restores
/// the cooldown to its prior value and leaves the trouble flag off, as long
/// as the accumulated cooldown has room for one more penalty.
pub proof fn lemma_penalty_round_trip(t: Token)
    requires
        t.wf(),
        t.delay_by_second <= i64::MAX - TROUBLE_PENALTY_SECONDS,
    ensures
        t.marked().cleared().delay_by_second == t.delay_by_second,
        !t.marked().cleared().trouble_delay,
        t.marked().cleared() == (Token { trouble_delay: false, ..t }),
{
}

/// Idempotent clear: rehabilitating a credential that is not under penalty
/// changes nothing at all.
pub proof fn lemma_idempotent_clear(t: Token)
    requires
        !t.trouble_delay,
    ensures
        t.cleared() == t,
{
}

} // verus!
