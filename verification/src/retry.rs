//! The retry coordinator: the per-request state machine that claims a
//! credential, interprets attempt outcomes, penalizes and rotates
//! credentials (switching vendor when the replacement demands it), sleeps
//! when the pool is empty, and gives up after a bounded number of failures.
//!
//! The coordinator owns the decisions; the outside work — the vendor network
//! call, the sleep, appending a log entry — is returned to the caller as a
//! [`StepResult`] to carry out. The embedding loop is uniform: perform the
//! directive, report the outcome, repeat. A vendor switch needs no special
//! path outside: every [`NextStep::Dispatch`] names the adapter to use, as
//! typed fields rather than text to re-parse.

use vstd::prelude::*;
use crate::client::{AttemptResult, LLMError};
use crate::errors::GatewayError;
use crate::store::{acquire_post, acquire_result, spec_clear, spec_mark, TokenStore};
use crate::token::Token;

verus! {

/// How many failed attempts end a request with
/// [`GatewayError::RetriesExhausted`].
pub const MAX_RETRY_ATTEMPTS: u32 = 10;

/// How long the coordinator asks its caller to sleep when no replacement
/// credential is available.
pub const RETRY_DELAY_SECONDS: u64 = 30;

/// One record for the best-effort outcome log: the prompt pair, the response
/// text or error text, and the credential the attempt ran on. Appending it
/// is the caller's step; a failure to log is swallowed and never aborts the
/// request.
#[derive(Debug, PartialEq, Eq)]
pub struct LogEntry {
    pub system_prompt: String,
    pub prompt: String,
    pub response: String,
    pub token: String,
    pub token_type: String,
}

/// The outside step the coordinator asks its caller to perform next.
#[derive(Debug, PartialEq, Eq)]
pub enum NextStep {
    /// Call the adapter for `token_type` with the credential `token`, then
    /// report the outcome through [`Coordinator::on_outcome`].
    Dispatch { id: i64, token: String, token_type: String },
    /// Sleep for `seconds`, then ask again through
    /// [`Coordinator::reacquire`].
    SleepThenRetry { seconds: u64 },
    /// Terminal success: the response text and the vendor kind that produced
    /// it.
    Done { content: String, token_type: String },
    /// Terminal failure.
    Abort { error: GatewayError },
}

/// One coordinator step: an optional log record to append (best effort),
/// and the next outside step.
#[derive(Debug, PartialEq, Eq)]
pub struct StepResult {
    pub log: Option<LogEntry>,
    pub next: NextStep,
}

/// Whether a failure observed with `attempts_before` earlier failures on
/// record is the one that exhausts the attempt cap.
pub open spec fn failure_step_aborts(attempts_before: u32) -> bool {
    attempts_before + 1 >= MAX_RETRY_ATTEMPTS
}

/// The vendor filter of a request, as the mathematical value the store
/// specifications speak of.
pub open spec fn opt_filter(llms: Option<Vec<String>>) -> Option<Seq<Seq<char>>> {
    match llms {
        None => None,
        Some(l) => Some(l.deep_view()),
    }
}

/// The per-request retry state machine. One coordinator serves one inbound
/// request; concurrent requests each run their own, and share only the
/// [`TokenStore`].
#[derive(Debug, PartialEq, Eq)]
pub struct Coordinator {
    /// The user prompt of the request (carried for the outcome log).
    pub prompt: String,
    /// The system prompt of the request (carried for the outcome log).
    pub system_prompt: String,
    /// The vendor filter of the request; `None` admits every vendor.
    pub llms: Option<Vec<String>>,
    /// Failed attempts so far.
    pub attempts: u32,
    /// The credential currently bound.
    pub current_id: i64,
    /// The bound credential's secret.
    pub current_token: String,
    /// The bound credential's vendor kind — which adapter dispatches next.
    pub current_type: String,
}

impl Coordinator {
    /// A live coordinator has attempts left.
    pub open spec fn wf(self) -> bool {
        self.attempts < MAX_RETRY_ATTEMPTS
    }

    /// See [`opt_filter`].
    pub open spec fn spec_filter(self) -> Option<Seq<Seq<char>>> {
        opt_filter(self.llms)
    }

    /// The state after one more failure is on record.
    pub open spec fn bumped(self) -> Coordinator {
        Coordinator { attempts: (self.attempts + 1) as u32, ..self }
    }

    /// The state after rebinding to a replacement credential — a vendor
    /// switch when the kinds differ.
    pub open spec fn rebound(self, t: Token) -> Coordinator {
        Coordinator { current_id: t.id, current_token: t.token, current_type: t.token_type, ..self }
    }

    /// The log record of a failed attempt on the bound credential.
    pub open spec fn failure_log(self, error: LLMError) -> LogEntry {
        LogEntry {
            system_prompt: self.system_prompt,
            prompt: self.prompt,
            response: error.0,
            token: self.current_token,
            token_type: self.current_type,
        }
    }

    /// The log record of the successful attempt on the bound credential.
    pub open spec fn success_log(self, content: String) -> LogEntry {
        LogEntry {
            system_prompt: self.system_prompt,
            prompt: self.prompt,
            response: content,
            token: self.current_token,
            token_type: self.current_type,
        }
    }
}

/// The success step as a relation: the bound credential is rehabilitated,
/// the success is logged with the response text itself, and the request is
/// done with that text and the vendor kind that produced it.
pub open spec fn success_transition(
    c: Coordinator,
    pre: Seq<Token>,
    content: String,
    post: Seq<Token>,
    r: StepResult,
) -> bool {
    &&& post == spec_clear(pre, c.current_id)
    &&& r.log == Some(c.success_log(content))
    &&& r.next == (NextStep::Done { content: content, token_type: c.current_type })
}

/// The failure step as a relation. When the cap is reached the request
/// aborts with [`GatewayError::RetriesExhausted`] and the pool is left
/// alone. Otherwise the failure is logged, the bound credential is
/// penalized, and a replacement is acquired under the request's filter:
/// found, the coordinator rebinds (vendor switch included) and dispatches;
/// not found, it asks for a sleep, keeping the current binding.
pub open spec fn failure_transition(
    c: Coordinator,
    pre: Seq<Token>,
    now: i64,
    error: LLMError,
    c2: Coordinator,
    post: Seq<Token>,
    r: StepResult,
) -> bool {
    if failure_step_aborts(c.attempts) {
        &&& post == pre
        &&& c2 == c.bumped()
        &&& r.log is None
        &&& r.next == (NextStep::Abort {
            error: GatewayError::RetriesExhausted {
                attempts: MAX_RETRY_ATTEMPTS,
                token_id: c.current_id,
                last_error: error,
            },
        })
    } else {
        let marked = spec_mark(pre, c.current_id);
        &&& post == acquire_post(marked, now, c.spec_filter())
        &&& r.log == Some(c.failure_log(error))
        &&& match acquire_result(marked, now, c.spec_filter()) {
            Some(t) => c2 == c.bumped().rebound(t) && r.next == (NextStep::Dispatch {
                id: t.id,
                token: t.token,
                token_type: t.token_type,
            }),
            None => c2 == c.bumped() && r.next == (NextStep::SleepThenRetry {
                seconds: RETRY_DELAY_SECONDS,
            }),
        }
    }
}

impl Coordinator {
    /// Resolves the initial credential and starts the state machine.
    /// Returns [`GatewayError::NoCredentialAvailable`] — a hard failure,
    /// never retried — when nothing in the pool satisfies the filter at
    /// `now`; the retry loop only begins once an initial credential exists.
    pub fn start(
        prompt: String,
        system_prompt: String,
        llms: Option<Vec<String>>,
        store: &mut TokenStore,
        now: i64,
    ) -> (r: Result<Coordinator, GatewayError>)
        requires
            old(store).wf(),
        ensures
            final(store).wf(),
            final(store)@ == acquire_post(old(store)@, now, opt_filter(llms)),
            match acquire_result(old(store)@, now, opt_filter(llms)) {
                None => r == Err::<Coordinator, GatewayError>(GatewayError::NoCredentialAvailable),
                Some(t) => r == Ok::<Coordinator, GatewayError>(
                    Coordinator {
                        prompt: prompt,
                        system_prompt: system_prompt,
                        llms: llms,
                        attempts: 0,
                        current_id: t.id,
                        current_token: t.token,
                        current_type: t.token_type,
                    },
                ),
            },
            r matches Ok(c) ==> c.wf(),
    {
        let acquired = match &llms {
            None => store.get_next_token_by_llms(now, None),
            Some(l) => store.get_next_token_by_llms(now, Some(l)),
        };
        match acquired {
            None => Err(GatewayError::NoCredentialAvailable),
            Some(t) => Ok(
                Coordinator {
                    prompt,
                    system_prompt,
                    llms,
                    attempts: 0,
                    current_id: t.id,
                    current_token: t.token,
                    current_type: t.token_type,
                },
            ),
        }
    }

    /// The attempt succeeded: rehabilitate the bound credential, hand back
    /// the success log record and the terminal [`NextStep::Done`].
    pub fn on_success(&self, store: &mut TokenStore, content: String) -> (r: StepResult)
        requires
            old(store).wf(),
        ensures
            final(store).wf(),
            success_transition(*self, old(store)@, content, final(store)@, r),
    {
        let entry = LogEntry {
            system_prompt: self.system_prompt.clone(),
            prompt: self.prompt.clone(),
            response: content.clone(),
            token: self.current_token.clone(),
            token_type: self.current_type.clone(),
        };
        store.clear_token_trouble(self.current_id);
        StepResult {
            log: Some(entry),
            next: NextStep::Done { content, token_type: self.current_type.clone() },
        }
    }

    /// The attempt failed: count it, and either abort on the cap, or log,
    /// penalize and rotate as [`failure_transition`] describes.
    pub fn on_failure(&mut self, store: &mut TokenStore, now: i64, error: LLMError) -> (r:
        StepResult)
        requires
            old(self).wf(),
            old(store).wf(),
        ensures
            final(store).wf(),
            failure_transition(
                *old(self),
                old(store)@,
                now,
                error,
                *final(self),
                final(store)@,
                r,
            ),
            final(self).attempts == old(self).attempts + 1,
            (r.next matches NextStep::Abort { .. }) == failure_step_aborts(old(self).attempts),
            !failure_step_aborts(old(self).attempts) ==> final(self).wf(),
    {
        self.attempts = self.attempts + 1;
        if self.attempts >= MAX_RETRY_ATTEMPTS {
            return StepResult {
                log: None,
                next: NextStep::Abort {
                    error: GatewayError::RetriesExhausted {
                        attempts: MAX_RETRY_ATTEMPTS,
                        token_id: self.current_id,
                        last_error: error,
                    },
                },
            };
        }
        let LLMError(message) = error;
        let entry = LogEntry {
            system_prompt: self.system_prompt.clone(),
            prompt: self.prompt.clone(),
            response: message,
            token: self.current_token.clone(),
            token_type: self.current_type.clone(),
        };
        store.mark_token_trouble(self.current_id);
        let acquired = match &self.llms {
            None => store.get_next_token_by_llms(now, None),
            Some(l) => store.get_next_token_by_llms(now, Some(l)),
        };
        match acquired {
            Some(t) => {
                self.current_id = t.id;
                self.current_token = t.token.clone();
                self.current_type = t.token_type.clone();
                StepResult {
                    log: Some(entry),
                    next: NextStep::Dispatch {
                        id: t.id,
                        token: t.token,
                        token_type: t.token_type,
                    },
                }
            },
            None => StepResult {
                log: Some(entry),
                next: NextStep::SleepThenRetry { seconds: RETRY_DELAY_SECONDS },
            },
        }
    }

    /// After the sleep [`NextStep::SleepThenRetry`] asked for: try to
    /// acquire a replacement again, without counting a new failure. The
    /// loop stays here until a credential appears or a later failure
    /// reaches the cap.
    pub fn reacquire(&mut self, store: &mut TokenStore, now: i64) -> (r: StepResult)
        requires
            old(self).wf(),
            old(store).wf(),
        ensures
            final(self).wf(),
            final(store).wf(),
            final(self).attempts == old(self).attempts,
            final(store)@ == acquire_post(old(store)@, now, old(self).spec_filter()),
            r.log is None,
            match acquire_result(old(store)@, now, old(self).spec_filter()) {
                Some(t) => *final(self) == old(self).rebound(t) && r.next == (NextStep::Dispatch {
                    id: t.id,
                    token: t.token,
                    token_type: t.token_type,
                }),
                None => *final(self) == *old(self) && r.next == (NextStep::SleepThenRetry {
                    seconds: RETRY_DELAY_SECONDS,
                }),
            },
    {
        let acquired = match &self.llms {
            None => store.get_next_token_by_llms(now, None),
            Some(l) => store.get_next_token_by_llms(now, Some(l)),
        };
        match acquired {
            Some(t) => {
                self.current_id = t.id;
                self.current_token = t.token.clone();
                self.current_type = t.token_type.clone();
                StepResult {
                    log: None,
                    next: NextStep::Dispatch {
                        id: t.id,
                        token: t.token,
                        token_type: t.token_type,
                    },
                }
            },
            None => StepResult {
                log: None,
                next: NextStep::SleepThenRetry { seconds: RETRY_DELAY_SECONDS },
            },
        }
    }

    /// Feeds one attempt outcome into the machine: success and failure in
    /// one entry point, as an adapter hands it back.
    pub fn on_outcome(&mut self, store: &mut TokenStore, now: i64, attempt: AttemptResult) -> (r:
        StepResult)
        requires
            old(self).wf(),
            old(store).wf(),
        ensures
            final(store).wf(),
            attempt.result matches Ok(content) ==> (*final(self) == *old(self)
                && success_transition(*old(self), old(store)@, content, final(store)@, r)),
            attempt.result matches Err(e) ==> failure_transition(
                *old(self),
                old(store)@,
                now,
                e,
                *final(self),
                final(store)@,
                r,
            ),
    {
        match attempt.result {
            Ok(content) => self.on_success(store, content),
            Err(e) => self.on_failure(store, now, e),
        }
    }
}

/// Bounded retries: counting consecutive failures from a fresh coordinator
/// (`attempts == 0`), the `k`-th failure — which, by the contract of
/// [`Coordinator::on_failure`], runs with `attempts == k - 1` on record —
/// aborts with `RetriesExhausted` exactly when `k` is
/// [`MAX_RETRY_ATTEMPTS`]: never before, always then. Afterwards the
/// coordinator has no attempts left, so no further step exists.
pub proof fn lemma_bounded_retries(k: u32)
    requires
        1 <= k <= MAX_RETRY_ATTEMPTS,
    ensures
        failure_step_aborts((k - 1) as u32) <==> k == MAX_RETRY_ATTEMPTS,
        forall|c: Coordinator| c.attempts >= MAX_RETRY_ATTEMPTS ==> !(#[trigger] c.wf()),
{
}

} // verus!
