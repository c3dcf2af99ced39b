use lsp_client_pool::{
    backoff_millis, AttemptFailure, CapabilitiesSummary, CreationAttempts, Language, LaunchPlan,
    LspClientPool, PoolConfig, PoolError, RetryDecision, WarmUpReport, WarmUpStep,
};

fn pool_with_retries(max_retries: usize) -> LspClientPool {
    LspClientPool::new(PoolConfig {
        max_instances_per_language: 4,
        max_idle_time: 300_000,
        init_timeout: 8_000,
        request_timeout: 2_000,
        max_retries,
    })
}

#[test]
fn backoff_doubles_from_five_milliseconds() {
    assert_eq!(backoff_millis(0), 5);
    assert_eq!(backoff_millis(1), 10);
    assert_eq!(backoff_millis(2), 20);
    assert_eq!(backoff_millis(10), 5_120);
    assert_eq!(backoff_millis(61), 5 * (1u64 << 61));
}

#[test]
fn backoff_that_does_not_fit_is_the_longest_pause() {
    assert_eq!(backoff_millis(62), u64::MAX);
    assert_eq!(backoff_millis(63), u64::MAX);
    assert_eq!(backoff_millis(10_000), u64::MAX);
}

#[test]
fn three_failing_attempts_pause_twice_and_give_up() {
    let pool = pool_with_retries(3);
    let first = pool.create_client_with_retry("rust").unwrap();
    assert_eq!(
        first,
        CreationAttempts {
            plan: LaunchPlan { language: Language::Rust, init_timeout: 8_000 },
            max_retries: 3,
            failed: 0,
        }
    );

    let second = match first.attempt_failed(AttemptFailure::Spawn("no such file".to_string())) {
        RetryDecision::RetryAfter { backoff_millis, next } => {
            assert_eq!(backoff_millis, 5);
            next
        }
        RetryDecision::GiveUp(error) => panic!("gave up after one attempt: {:?}", error),
    };
    assert_eq!(second.failed, 1);

    let third = match second.attempt_failed(AttemptFailure::InitializationTimeout) {
        RetryDecision::RetryAfter { backoff_millis, next } => {
            assert_eq!(backoff_millis, 10);
            next
        }
        RetryDecision::GiveUp(error) => panic!("gave up after two attempts: {:?}", error),
    };
    assert_eq!(third.failed, 2);

    let last = AttemptFailure::Initialization("server said no".to_string());
    assert_eq!(
        third.attempt_failed(last.clone()),
        RetryDecision::GiveUp(PoolError::ClientCreationFailed(Some(last)))
    );
}

#[test]
fn a_single_attempt_is_given_up_at_once() {
    let pool = pool_with_retries(1);
    let only = pool.create_client_with_retry("nix").unwrap();
    assert_eq!(
        only.attempt_failed(AttemptFailure::InitializationTimeout),
        RetryDecision::GiveUp(PoolError::ClientCreationFailed(Some(AttemptFailure::InitializationTimeout)))
    );
}

#[test]
fn a_creation_without_attempts_left_is_given_up() {
    let spent = CreationAttempts {
        plan: LaunchPlan { language: Language::Go, init_timeout: 1 },
        max_retries: 2,
        failed: 7,
    };
    assert_eq!(
        spent.attempt_failed(AttemptFailure::InitializationTimeout),
        RetryDecision::GiveUp(PoolError::ClientCreationFailed(Some(AttemptFailure::InitializationTimeout)))
    );
}

#[test]
fn without_attempts_a_creation_fails_without_a_failure() {
    let pool = pool_with_retries(0);
    assert_eq!(pool.create_client_with_retry("rust"), Err(PoolError::ClientCreationFailed(None)));
}

#[test]
fn creation_for_an_unknown_language_is_refused() {
    let pool = pool_with_retries(3);
    assert_eq!(pool.create_client_with_retry("cobol"), Err(PoolError::UnsupportedLanguage));
    assert_eq!(pool.create_client_internal("cobol"), Err(PoolError::UnsupportedLanguage));
    assert_eq!(pool_with_retries(0).create_client_with_retry("cobol"), Err(PoolError::UnsupportedLanguage));
}

#[test]
fn a_launch_is_planned_with_the_language_and_the_timeout() {
    let pool = pool_with_retries(2);
    assert_eq!(
        pool.create_client_internal("typescript"),
        Ok(LaunchPlan { language: Language::TypeScript, init_timeout: 8_000 })
    );
}

#[test]
fn warm_up_goes_on_after_a_language_that_fails() {
    let mut pool = pool_with_retries(1);
    let mut report = WarmUpReport::new();
    let capabilities = CapabilitiesSummary::from_answers(&vec![true; 8]);

    // "nix" launches and succeeds.
    match report.begin(&mut pool, "nix", "/proj", 0) {
        WarmUpStep::Launch(attempts) => assert_eq!(attempts.plan.language, Language::Nix),
        WarmUpStep::Settled => panic!("nix needs a launch"),
    }
    assert!(pool.get_stats().languages.is_empty());
    assert_eq!(report.launched(&mut pool, "nix", "/proj", capabilities, 1), Some(0));

    // "rust" launches and fails.
    let attempts = match report.begin(&mut pool, "rust", "/proj", 2) {
        WarmUpStep::Launch(attempts) => attempts,
        WarmUpStep::Settled => panic!("rust needs a launch"),
    };
    match attempts.attempt_failed(AttemptFailure::Spawn("rust-analyzer not found".to_string())) {
        RetryDecision::GiveUp(PoolError::ClientCreationFailed(Some(_))) => report.launch_failed("rust"),
        other => panic!("expected the creation to be given up, got {:?}", other),
    }

    assert_eq!(report.successful, vec!["nix".to_string()]);
    assert_eq!(report.failed, vec!["rust".to_string()]);
    assert!(!report.all_succeeded());
    let stats = pool.get_stats();
    assert_eq!(stats.total_clients, 1);
    assert_eq!(stats.active_clients, 1);
    assert_eq!(stats.languages, vec!["nix".to_string()]);
    assert_eq!(pool.instances_for_language("nix").len(), 1);
    assert_eq!(pool.instances_for_language("nix")[0].ref_count, 1);
    assert_eq!(pool.instances_for_language("nix")[0].project_root, "/proj");
    assert!(pool.instances_for_language("rust").is_empty());
}

#[test]
fn warm_up_notes_an_unsupported_language_that_was_launched_as_failed() {
    let mut pool = pool_with_retries(1);
    let mut report = WarmUpReport::new();
    assert_eq!(report.launched(&mut pool, "cobol", "/proj", CapabilitiesSummary::none(), 1), None);
    assert_eq!(report.failed, vec!["cobol".to_string()]);
    assert!(pool.get_stats().languages.is_empty());
}

#[test]
fn warm_up_shares_what_is_already_there() {
    let mut pool = pool_with_retries(1);
    let mut report = WarmUpReport::new();
    assert!(report.all_succeeded());
    pool.install_client("go", "/proj", CapabilitiesSummary::none(), 0).unwrap();
    assert_eq!(report.begin(&mut pool, "go", "/proj", 1), WarmUpStep::Settled);
    assert_eq!(report.begin(&mut pool, "cobol", "/proj", 1), WarmUpStep::Settled);
    assert_eq!(report.successful, vec!["go".to_string()]);
    assert_eq!(report.failed, vec!["cobol".to_string()]);
    assert_eq!(pool.instances_for_language("go")[0].ref_count, 2);
}

#[test]
fn warm_up_without_attempts_fails_every_launch() {
    let mut pool = pool_with_retries(0);
    let mut report = WarmUpReport::new();
    assert_eq!(report.begin(&mut pool, "java", "/proj", 1), WarmUpStep::Settled);
    assert_eq!(report.failed, vec!["java".to_string()]);
    assert!(report.successful.is_empty());
    assert!(pool.get_stats().languages.is_empty());
}
