use llm_gateway::client::{AttemptResult, LLMError};
use llm_gateway::errors::GatewayError;
use llm_gateway::retry::{Coordinator, NextStep, StepResult, MAX_RETRY_ATTEMPTS, RETRY_DELAY_SECONDS};
use llm_gateway::store::TokenStore;
use llm_gateway::token::Token;

fn tok(id: i64, kind: &str) -> Token {
    Token {
        id,
        token: format!("sk-{}", id),
        token_type: kind.to_string(),
        triggered_on: None,
        delay_by_second: 0,
        trouble_delay: false,
    }
}

fn pool(tokens: Vec<Token>) -> TokenStore {
    let mut s = TokenStore::new();
    for t in tokens {
        assert!(s.add_token(t));
    }
    s
}

fn start(store: &mut TokenStore, llms: Option<Vec<String>>, now: i64) -> Coordinator {
    Coordinator::start(
        "the prompt".to_string(),
        "the system prompt".to_string(),
        llms,
        store,
        now,
    )
    .unwrap()
}

#[test]
fn start_without_credentials_fails_immediately() {
    let mut s = TokenStore::new();
    let r = Coordinator::start(
        "p".to_string(),
        "sp".to_string(),
        None,
        &mut s,
        1000,
    );
    assert_eq!(r.unwrap_err(), GatewayError::NoCredentialAvailable);
}

#[test]
fn start_claims_the_initial_credential() {
    let mut s = pool(vec![tok(1, "gemini")]);
    let c = start(&mut s, None, 1000);
    assert_eq!(c.attempts, 0);
    assert_eq!(c.current_id, 1);
    assert_eq!(c.current_token, "sk-1");
    assert_eq!(c.current_type, "gemini");
    assert_eq!(s.get_token_by_id(1).unwrap().triggered_on, Some(1000));
}

#[test]
fn an_always_failing_adapter_stops_after_exactly_the_attempt_cap() {
    // Ten credentials, so a replacement is always at hand; the adapter
    // fails every attempt. The coordinator must count exactly
    // MAX_RETRY_ATTEMPTS failures and then abort with RetriesExhausted.
    let n = MAX_RETRY_ATTEMPTS as i64;
    let mut s = pool((1..=n).map(|i| tok(i, "gemini")).collect());
    let mut c = start(&mut s, None, 1000);
    let mut failures = 0u32;
    loop {
        failures += 1;
        let step = c.on_failure(&mut s, 1000, LLMError(format!("boom {}", failures)));
        match step.next {
            NextStep::Dispatch { .. } => {
                assert!(failures < MAX_RETRY_ATTEMPTS);
                assert!(step.log.is_some());
                continue;
            }
            NextStep::Abort { error } => {
                // The aborting failure is not logged and penalizes nothing.
                assert!(step.log.is_none());
                assert_eq!(failures, MAX_RETRY_ATTEMPTS);
                assert_eq!(c.attempts, MAX_RETRY_ATTEMPTS);
                match error {
                    GatewayError::RetriesExhausted { attempts, token_id, last_error } => {
                        assert_eq!(attempts, MAX_RETRY_ATTEMPTS);
                        assert_eq!(token_id, n);
                        assert_eq!(last_error, LLMError(format!("boom {}", failures)));
                    }
                    other => panic!("expected RetriesExhausted, got {:?}", other),
                }
                break;
            }
            other => panic!("unexpected step {:?}", other),
        }
    }
    // The aborting failure never penalizes its credential, the earlier nine
    // all do.
    for i in 1..n {
        assert!(s.is_token_in_trouble(i), "credential {} should be troubled", i);
    }
    assert!(!s.is_token_in_trouble(n));
}

#[test]
fn an_empty_pool_asks_for_a_sleep_without_counting_an_attempt() {
    let mut s = pool(vec![tok(1, "gemini")]);
    let mut c = start(&mut s, None, 1000);
    let step = c.on_failure(&mut s, 1000, LLMError("down".to_string()));
    assert_eq!(c.attempts, 1);
    match step.next {
        NextStep::SleepThenRetry { seconds } => assert_eq!(seconds, RETRY_DELAY_SECONDS),
        other => panic!("unexpected step {:?}", other),
    }
    // Sleeping and asking again does not change the failure count; once the
    // penalized credential's cooldown has elapsed, it is dispensed again.
    let step = c.reacquire(&mut s, 1000);
    assert!(matches!(step.next, NextStep::SleepThenRetry { .. }));
    assert_eq!(c.attempts, 1);
    let step = c.reacquire(&mut s, 1000 + 3600);
    match step.next {
        NextStep::Dispatch { id, .. } => assert_eq!(id, 1),
        other => panic!("unexpected step {:?}", other),
    }
    assert_eq!(c.attempts, 1);
}

#[test]
fn two_failures_then_success_leaves_one_success_log_entry() {
    // Scenario: the adapter fails on the first two credentials and succeeds
    // on the third. The failed credentials stay troubled, the third does
    // not, and exactly one success entry carries the returned text.
    let mut s = pool(vec![tok(1, "x-vendor"), tok(2, "x-vendor"), tok(3, "x-vendor")]);
    let mut c = start(&mut s, None, 1000);
    let mut log: Vec<llm_gateway::retry::LogEntry> = Vec::new();

    let step = c.on_outcome(
        &mut s,
        1000,
        AttemptResult { result: Err(LLMError("first down".to_string())) },
    );
    log.extend(step.log);
    assert!(matches!(step.next, NextStep::Dispatch { id: 2, .. }));

    let step = c.on_outcome(
        &mut s,
        1000,
        AttemptResult { result: Err(LLMError("second down".to_string())) },
    );
    log.extend(step.log);
    assert!(matches!(step.next, NextStep::Dispatch { id: 3, .. }));

    let step = c.on_outcome(
        &mut s,
        1000,
        AttemptResult { result: Ok("the answer".to_string()) },
    );
    log.extend(step.log);
    match step.next {
        NextStep::Done { content, token_type } => {
            assert_eq!(content, "the answer");
            assert_eq!(token_type, "x-vendor");
        }
        other => panic!("unexpected step {:?}", other),
    }

    assert!(s.is_token_in_trouble(1));
    assert!(s.is_token_in_trouble(2));
    assert!(!s.is_token_in_trouble(3));

    let successes: Vec<_> = log.iter().filter(|e| e.response == "the answer").collect();
    assert_eq!(successes.len(), 1);
    assert_eq!(successes[0].token, "sk-3");
    assert_eq!(successes[0].token_type, "x-vendor");
    assert_eq!(successes[0].prompt, "the prompt");
    assert_eq!(successes[0].system_prompt, "the system prompt");
    assert_eq!(log.len(), 3);
    assert_eq!(log[0].response, "first down");
    assert_eq!(log[1].response, "second down");
}

#[test]
fn a_vendor_switch_rebinds_the_dispatch_to_the_new_adapter() {
    // Scenario: the attempt on credential A (vendor x) fails and the
    // replacement is credential B (vendor y): every later dispatch must
    // name the y adapter, not the x adapter.
    let mut s = pool(vec![tok(1, "x-vendor"), tok(2, "y-vendor")]);
    let filter = vec!["x-vendor".to_string(), "y-vendor".to_string()];
    let mut c = start(&mut s, Some(filter), 1000);
    assert_eq!(c.current_type, "x-vendor");

    let step = c.on_failure(&mut s, 1000, LLMError("x is down".to_string()));
    match step.next {
        NextStep::Dispatch { id, token, token_type } => {
            assert_eq!(id, 2);
            assert_eq!(token, "sk-2");
            assert_eq!(token_type, "y-vendor");
        }
        other => panic!("unexpected step {:?}", other),
    }
    assert_eq!(c.current_type, "y-vendor");

    let step = c.on_outcome(
        &mut s,
        1000,
        AttemptResult { result: Ok("from y".to_string()) },
    );
    assert!(matches!(
        step.next,
        NextStep::Done { token_type, .. } if token_type == "y-vendor"
    ));
}

#[test]
fn the_filter_keeps_the_whole_retry_on_listed_vendors() {
    let mut s = pool(vec![tok(1, "x-vendor"), tok(2, "y-vendor"), tok(3, "x-vendor")]);
    let filter = vec!["x-vendor".to_string()];
    let mut c = start(&mut s, Some(filter), 1000);
    assert_eq!(c.current_id, 1);
    let step = c.on_failure(&mut s, 1000, LLMError("down".to_string()));
    match step.next {
        NextStep::Dispatch { id, token_type, .. } => {
            assert_eq!(id, 3);
            assert_eq!(token_type, "x-vendor");
        }
        other => panic!("unexpected step {:?}", other),
    }
    // Both x credentials are now claimed or penalized; y is never touched.
    let step = c.on_failure(&mut s, 1000, LLMError("down again".to_string()));
    assert!(matches!(step.next, NextStep::SleepThenRetry { .. }));
    assert!(!s.is_token_in_trouble(2));
    assert_eq!(s.get_token_by_id(2).unwrap().triggered_on, None);
}

#[test]
fn success_rehabilitates_the_credential_and_logs_the_response() {
    let mut s = pool(vec![Token {
        trouble_delay: true,
        delay_by_second: 3600,
        ..tok(1, "gemini")
    }]);
    // Claimed long ago, so it is available despite the cooldown.
    let mut c = start(&mut s, None, 1_000_000);
    let step: StepResult = c.on_outcome(
        &mut s,
        1_000_000,
        AttemptResult { result: Ok("hello".to_string()) },
    );
    let entry = step.log.unwrap();
    assert_eq!(entry.response, "hello");
    assert_eq!(entry.token, "sk-1");
    let t = s.get_token_by_id(1).unwrap();
    assert!(!t.trouble_delay);
    assert_eq!(t.delay_by_second, 0);
}
