use lsp_client_pool::{
    Acquisition, CapabilitiesSummary, LspClientPool, PoolConfig, PoolError, PoolStats, ScopedClient,
};

fn config(max_instances: usize, max_idle_time: u64, max_retries: usize) -> PoolConfig {
    PoolConfig {
        max_instances_per_language: max_instances,
        max_idle_time,
        init_timeout: 8_000,
        request_timeout: 2_000,
        max_retries,
    }
}

fn symbols_only() -> CapabilitiesSummary {
    CapabilitiesSummary::from_answers(&vec![true, false, false, false, false, true])
}

/// Acquires by file path and registers a client where a launch is asked for.
fn acquire(pool: &mut LspClientPool, file: &str, language: &str, root: &str, now: u64) -> u64 {
    match pool.get_or_create_client(file, root, now).unwrap() {
        Acquisition::Reused { instance_id } => instance_id,
        Acquisition::OverSubscribed { instance_id } => instance_id,
        Acquisition::Launch { .. } => pool.install_client(language, root, symbols_only(), now).unwrap(),
    }
}

fn ref_counts(pool: &LspClientPool, language: &str) -> Vec<usize> {
    pool.instances_for_language(language).iter().map(|client| client.ref_count).collect()
}

fn ids(pool: &LspClientPool, language: &str) -> Vec<u64> {
    pool.instances_for_language(language).iter().map(|client| client.instance_id).collect()
}

#[test]
fn test_pool_creation() {
    let pool = LspClientPool::with_defaults();
    let stats = pool.get_stats();
    assert_eq!(stats.total_clients, 0);
    assert_eq!(stats.active_clients, 0);
}

#[test]
fn test_pool_config() {
    let config = PoolConfig {
        max_instances_per_language: 4,
        max_idle_time: 60 * 1000,
        init_timeout: 10 * 1000,
        request_timeout: 2 * 1000,
        max_retries: 5,
    };

    let pool = LspClientPool::new(config.clone());
    assert_eq!(pool.config().max_retries, 5);
    assert_eq!(pool.config().init_timeout, 10 * 1000);
}

#[test]
fn test_scoped_client() {
    let mut pool = LspClientPool::with_defaults();

    {
        let client = ScopedClient::new(&mut pool, "/tmp/project/test.rs", "/tmp/project", 0);
        let stats = pool.get_stats();
        assert!(stats.total_clients <= 1);
        client.unwrap().release(&mut pool);
    }

    pool.cleanup_idle_clients(0);
}

#[test]
fn default_config_has_the_recommended_values() {
    let config = PoolConfig::default();
    assert_eq!(config.max_instances_per_language, 4);
    assert_eq!(config.max_idle_time, 300_000);
    assert_eq!(config.init_timeout, 8_000);
    assert_eq!(config.request_timeout, 2_000);
    assert_eq!(config.max_retries, 1);
    assert_eq!(LspClientPool::with_defaults().config(), config);
}

#[test]
fn first_acquisition_asks_for_a_launch() {
    let mut pool = LspClientPool::with_defaults();
    let decision = pool.get_or_create_client("src/main.rs", "/proj", 10);
    assert_eq!(decision, Ok(Acquisition::Launch { evicted: None }));
    let stats = pool.get_stats();
    assert_eq!(stats, PoolStats { total_clients: 0, active_clients: 0, languages: vec!["rust".to_string()] });
    assert_eq!(pool.install_client("rust", "/proj", symbols_only(), 12), Ok(0));
    let records = pool.instances_for_language("rust");
    assert_eq!(records.len(), 1);
    assert_eq!(records[0].instance_id, 0);
    assert_eq!(records[0].project_root, "/proj");
    assert_eq!(records[0].last_used, 12);
    assert_eq!(records[0].ref_count, 1);
    assert_eq!(records[0].capabilities_summary, symbols_only());
}

#[test]
fn acquiring_twice_shares_one_record_with_two_references() {
    let mut pool = LspClientPool::with_defaults();
    let first = acquire(&mut pool, "a.nix", "nix", "/proj", 100);
    let second = pool.get_or_create_client("b.nix", "/proj", 200);
    assert_eq!(second, Ok(Acquisition::Reused { instance_id: first }));
    assert_eq!(ref_counts(&pool, "nix"), vec![2]);
    assert_eq!(pool.instances_for_language("nix")[0].last_used, 200);
    let stats = pool.get_stats();
    assert_eq!(stats.total_clients, 1);
    assert_eq!(stats.active_clients, 1);
}

#[test]
fn releases_bring_the_reference_count_back_to_zero() {
    let mut pool = LspClientPool::with_defaults();
    for now in 0..5 {
        acquire(&mut pool, "main.go", "go", "/proj", now);
    }
    assert_eq!(ref_counts(&pool, "go"), vec![5]);
    for left in (0..5).rev() {
        pool.release_client("go");
        assert_eq!(ref_counts(&pool, "go"), vec![left]);
    }
    assert_eq!(pool.get_stats().active_clients, 0);
    assert_eq!(pool.get_stats().total_clients, 1);
}

#[test]
fn release_without_a_reference_changes_nothing() {
    let mut pool = LspClientPool::with_defaults();
    pool.release_client("rust");
    assert_eq!(pool.get_stats(), PoolStats { total_clients: 0, active_clients: 0, languages: vec![] });
    acquire(&mut pool, "a.py", "python", "/proj", 1);
    pool.release_client("python");
    pool.release_client("python");
    pool.release_client("rust");
    assert_eq!(ref_counts(&pool, "python"), vec![0]);
    assert_eq!(pool.get_stats().languages, vec!["python".to_string()]);
}

#[test]
fn release_takes_from_the_first_referenced_record() {
    let mut pool = LspClientPool::with_defaults();
    acquire(&mut pool, "a.rs", "rust", "/one", 1);
    acquire(&mut pool, "a.rs", "rust", "/two", 2);
    acquire(&mut pool, "a.rs", "rust", "/two", 3);
    assert_eq!(ref_counts(&pool, "rust"), vec![1, 2]);
    pool.release_client("rust");
    assert_eq!(ref_counts(&pool, "rust"), vec![0, 2]);
    pool.release_client("rust");
    assert_eq!(ref_counts(&pool, "rust"), vec![0, 1]);
}

#[test]
fn cleanup_never_drops_a_referenced_record() {
    let mut pool = LspClientPool::new(config(4, 1_000, 1));
    let id = acquire(&mut pool, "a.rs", "rust", "/proj", 0);
    let evicted = pool.cleanup_idle_clients(u64::MAX);
    assert!(evicted.is_empty());
    assert_eq!(ids(&pool, "rust"), vec![id]);
    assert_eq!(pool.get_stats().total_clients, 1);
}

#[test]
fn cleanup_drops_an_idle_record_once_the_idle_time_is_reached() {
    let mut pool = LspClientPool::new(config(4, 1_000, 1));
    let id = acquire(&mut pool, "a.rs", "rust", "/proj", 500);
    pool.release_client("rust");

    assert!(pool.cleanup_idle_clients(1_499).is_empty());
    assert_eq!(ids(&pool, "rust"), vec![id]);
    // A clock that reads earlier than the last use counts as no idle time.
    assert!(pool.cleanup_idle_clients(100).is_empty());
    assert_eq!(ids(&pool, "rust"), vec![id]);

    assert_eq!(pool.cleanup_idle_clients(1_500), vec![id]);
    assert_eq!(pool.get_stats(), PoolStats { total_clients: 0, active_clients: 0, languages: vec![] });
}

#[test]
fn cleanup_keeps_the_order_and_reports_what_it_dropped() {
    let mut pool = LspClientPool::new(config(4, 100, 1));
    let a = acquire(&mut pool, "a.rs", "rust", "/a", 0);
    let b = acquire(&mut pool, "a.rs", "rust", "/b", 10);
    let c = acquire(&mut pool, "a.rs", "rust", "/c", 50);
    let n = acquire(&mut pool, "a.nix", "nix", "/a", 0);
    pool.release_client("rust");
    pool.release_client("rust");
    pool.release_client("rust");
    pool.release_client("nix");
    let p = acquire(&mut pool, "a.py", "python", "/a", 0);

    let evicted = pool.cleanup_idle_clients(120);
    assert_eq!(evicted, vec![a, b, n]);
    assert_eq!(ids(&pool, "rust"), vec![c]);
    assert_eq!(ids(&pool, "python"), vec![p]);
    assert_eq!(pool.get_stats().languages, vec!["rust".to_string(), "python".to_string()]);
    assert_eq!(pool.get_stats().total_clients, 2);
    assert_eq!(pool.get_stats().active_clients, 1);
}

#[test]
fn cleanup_drops_languages_without_records() {
    let mut pool = LspClientPool::with_defaults();
    assert_eq!(pool.get_or_create_client("a.java", "/proj", 0), Ok(Acquisition::Launch { evicted: None }));
    assert_eq!(pool.get_stats().languages, vec!["java".to_string()]);
    assert!(pool.cleanup_idle_clients(0).is_empty());
    assert!(pool.get_stats().languages.is_empty());
}

#[test]
fn least_loaded_record_with_the_same_root_is_shared() {
    let mut pool = LspClientPool::with_defaults();
    // Two records for the same root come from the path by language.
    assert_eq!(pool.install_client("rust", "/proj", symbols_only(), 0), Ok(0));
    assert_eq!(pool.install_client("rust", "/proj", symbols_only(), 0), Ok(1));
    assert_eq!(pool.install_client("rust", "/other", symbols_only(), 0), Ok(2));
    pool.release_client("rust");
    assert_eq!(ref_counts(&pool, "rust"), vec![0, 1, 1]);

    assert_eq!(pool.get_or_create_client("a.rs", "/proj", 5), Ok(Acquisition::Reused { instance_id: 0 }));
    assert_eq!(ref_counts(&pool, "rust"), vec![1, 1, 1]);
    // A tie goes to the first.
    assert_eq!(pool.get_or_create_client("a.rs", "/proj", 6), Ok(Acquisition::Reused { instance_id: 0 }));
    assert_eq!(pool.get_or_create_client("a.rs", "/proj", 7), Ok(Acquisition::Reused { instance_id: 1 }));
    assert_eq!(ref_counts(&pool, "rust"), vec![2, 2, 1]);
}

#[test]
fn acquisition_by_language_shares_the_first_record_with_the_root() {
    let mut pool = LspClientPool::with_defaults();
    assert_eq!(pool.install_client("rust", "/proj", symbols_only(), 0), Ok(0));
    assert_eq!(pool.install_client("rust", "/proj", symbols_only(), 0), Ok(1));
    for now in 1..4 {
        assert_eq!(
            pool.get_or_create_client_for_language("rust", "/proj", now),
            Ok(Acquisition::Reused { instance_id: 0 })
        );
    }
    assert_eq!(ref_counts(&pool, "rust"), vec![4, 1]);
    assert_eq!(
        pool.get_or_create_client_for_language("rust", "/elsewhere", 9),
        Ok(Acquisition::Launch { evicted: None })
    );
}

#[test]
fn a_failed_creation_by_language_leaves_the_pool_as_it_was() {
    let mut pool = LspClientPool::with_defaults();
    assert_eq!(
        pool.get_or_create_client_for_language("rust", "/proj", 1),
        Ok(Acquisition::Launch { evicted: None })
    );
    // The launch fails: nothing is registered, and nothing is left behind.
    assert_eq!(pool.get_stats(), PoolStats { total_clients: 0, active_clients: 0, languages: vec![] });

    acquire(&mut pool, "a.rs", "rust", "/a", 5);
    let before = pool.instances_for_language("rust");
    assert_eq!(
        pool.get_or_create_client_for_language("rust", "/b", 9),
        Ok(Acquisition::Launch { evicted: None })
    );
    assert_eq!(pool.instances_for_language("rust"), before);
    assert_eq!(
        pool.get_stats(),
        PoolStats { total_clients: 1, active_clients: 1, languages: vec!["rust".to_string()] }
    );
}

#[test]
fn a_creation_by_language_tracks_the_language_once_installed() {
    let mut pool = LspClientPool::with_defaults();
    assert_eq!(
        pool.get_or_create_client_for_language("nix", "/proj", 1),
        Ok(Acquisition::Launch { evicted: None })
    );
    assert!(pool.get_stats().languages.is_empty());
    assert_eq!(pool.install_client("nix", "/proj", symbols_only(), 2), Ok(0));
    assert_eq!(
        pool.get_stats(),
        PoolStats { total_clients: 1, active_clients: 1, languages: vec!["nix".to_string()] }
    );
}

#[test]
fn at_the_cap_the_oldest_idle_record_makes_room() {
    let mut pool = LspClientPool::new(config(2, 60_000, 1));
    let a = acquire(&mut pool, "a.rs", "rust", "/a", 30);
    let b = acquire(&mut pool, "a.rs", "rust", "/b", 10);
    pool.release_client("rust");
    pool.release_client("rust");

    let decision = pool.get_or_create_client("a.rs", "/c", 40);
    assert_eq!(decision, Ok(Acquisition::Launch { evicted: Some(b) }));
    assert_eq!(ids(&pool, "rust"), vec![a]);
    let c = pool.install_client("rust", "/c", symbols_only(), 41).unwrap();
    assert_eq!(ids(&pool, "rust"), vec![a, c]);
    assert_eq!(pool.get_stats().total_clients, 2);
}

#[test]
fn among_equally_old_idle_records_the_first_makes_room() {
    let mut pool = LspClientPool::new(config(2, 60_000, 1));
    let a = acquire(&mut pool, "a.rs", "rust", "/a", 10);
    let b = acquire(&mut pool, "a.rs", "rust", "/b", 10);
    pool.release_client("rust");
    pool.release_client("rust");
    assert_eq!(pool.get_or_create_client("a.rs", "/c", 10), Ok(Acquisition::Launch { evicted: Some(a) }));
    assert_eq!(ids(&pool, "rust"), vec![b]);
}

#[test]
fn at_the_cap_with_every_record_busy_the_first_is_shared() {
    let mut pool = LspClientPool::new(config(2, 60_000, 1));
    let a = acquire(&mut pool, "a.rs", "rust", "/a", 1);
    let b = acquire(&mut pool, "a.rs", "rust", "/b", 2);

    let decision = pool.get_or_create_client("a.rs", "/c", 3);
    assert_eq!(decision, Ok(Acquisition::OverSubscribed { instance_id: a }));
    assert_eq!(ids(&pool, "rust"), vec![a, b]);
    assert_eq!(ref_counts(&pool, "rust"), vec![2, 1]);
    // The time of last use stays as it was.
    assert_eq!(pool.instances_for_language("rust")[0].last_used, 1);
    let stats = pool.get_stats();
    assert_eq!(stats.total_clients, 2);
    assert_eq!(stats.active_clients, 2);
}

#[test]
fn a_cap_of_zero_never_blocks_a_launch() {
    let mut pool = LspClientPool::new(config(0, 60_000, 1));
    assert_eq!(pool.get_or_create_client("a.rs", "/a", 1), Ok(Acquisition::Launch { evicted: None }));
    assert_eq!(pool.install_client("rust", "/a", symbols_only(), 1), Ok(0));
    assert_eq!(pool.get_or_create_client("a.rs", "/b", 2), Ok(Acquisition::OverSubscribed { instance_id: 0 }));
}

#[test]
fn the_cap_counts_each_language_on_its_own() {
    let mut pool = LspClientPool::new(config(1, 60_000, 1));
    acquire(&mut pool, "a.rs", "rust", "/a", 1);
    assert_eq!(pool.get_or_create_client("a.nix", "/a", 2), Ok(Acquisition::Launch { evicted: None }));
    assert_eq!(pool.install_client("nix", "/a", symbols_only(), 2), Ok(1));
    assert_eq!(pool.get_stats().total_clients, 2);
    assert_eq!(pool.get_stats().languages, vec!["rust".to_string(), "nix".to_string()]);
}

#[test]
fn unknown_extension_is_an_unsupported_language() {
    let mut pool = LspClientPool::with_defaults();
    assert_eq!(pool.get_or_create_client("notes.xyz123", "/proj", 0), Err(PoolError::UnsupportedLanguage));
    assert_eq!(pool.get_or_create_client("Makefile", "/proj", 0), Err(PoolError::UnsupportedLanguage));
    assert_eq!(pool.get_or_create_client(".rs", "/proj", 0), Err(PoolError::UnsupportedLanguage));
    assert_eq!(
        pool.get_or_create_client_for_language("cobol", "/proj", 0),
        Err(PoolError::UnsupportedLanguage)
    );
    assert_eq!(pool.install_client("cobol", "/proj", symbols_only(), 0), Err(PoolError::UnsupportedLanguage));
    assert_eq!(pool.get_stats(), PoolStats { total_clients: 0, active_clients: 0, languages: vec![] });
    assert!(ScopedClient::new(&mut pool, "notes.xyz123", "/proj", 0).is_err());
    assert!(pool.get_stats().languages.is_empty());
}

#[test]
fn shutdown_drops_every_record() {
    let mut pool = LspClientPool::with_defaults();
    acquire(&mut pool, "a.rs", "rust", "/a", 1);
    acquire(&mut pool, "a.nix", "nix", "/a", 1);
    pool.shutdown_all();
    assert_eq!(pool.get_stats(), PoolStats { total_clients: 0, active_clients: 0, languages: vec![] });
    // Identifiers are not handed out again.
    assert_eq!(pool.install_client("rust", "/a", symbols_only(), 2), Ok(2));
}

#[test]
fn capabilities_are_those_of_the_first_record() {
    let mut pool = LspClientPool::with_defaults();
    assert_eq!(pool.get_capabilities_for_language("rust"), None);
    assert!(!pool.has_capability_for_language("rust", "textDocument/documentSymbol"));

    let all = CapabilitiesSummary::from_answers(&vec![true; 8]);
    pool.install_client("rust", "/a", symbols_only(), 0).unwrap();
    pool.install_client("rust", "/b", all, 0).unwrap();
    assert_eq!(pool.get_capabilities_for_language("rust"), Some(symbols_only()));
    assert!(pool.has_capability_for_language("rust", "textDocument/documentSymbol"));
    assert!(pool.has_capability_for_language("rust", "workspace/symbol"));
    assert!(!pool.has_capability_for_language("rust", "textDocument/definition"));
    assert!(!pool.has_capability_for_language("rust", "textDocument/semanticTokens"));
    assert!(!pool.has_capability_for_language("rust", "textDocument/hover"));
    assert!(!pool.has_capability_for_language("nix", "workspace/symbol"));
}

#[test]
fn stats_count_records_and_referenced_records() {
    let mut pool = LspClientPool::with_defaults();
    acquire(&mut pool, "a.rs", "rust", "/a", 1);
    acquire(&mut pool, "a.rs", "rust", "/b", 1);
    acquire(&mut pool, "a.ts", "typescript", "/a", 1);
    acquire(&mut pool, "a.js", "javascript", "/a", 1);
    pool.release_client("rust");
    pool.release_client("javascript");
    let stats = pool.get_stats();
    assert_eq!(stats.total_clients, 4);
    assert_eq!(stats.active_clients, 2);
    assert_eq!(
        stats.languages,
        vec!["rust".to_string(), "typescript".to_string(), "javascript".to_string()]
    );
}

#[test]
fn a_fresh_pool_has_headroom() {
    let mut pool = LspClientPool::with_defaults();
    assert!(pool.has_headroom());
    acquire(&mut pool, "a.rs", "rust", "/a", 1);
    assert!(pool.has_headroom());
}

#[test]
fn a_scope_leaves_the_reference_count_as_it_was() {
    let mut pool = LspClientPool::with_defaults();
    acquire(&mut pool, "a.rs", "rust", "/a", 1);
    assert_eq!(ref_counts(&pool, "rust"), vec![1]);

    let scoped = ScopedClient::new(&mut pool, "b.rs", "/a", 2).unwrap();
    assert_eq!(scoped.client(), Some(0));
    assert_eq!(scoped.language_id(), "rust");
    assert_eq!(ref_counts(&pool, "rust"), vec![2]);
    scoped.release(&mut pool);
    assert_eq!(ref_counts(&pool, "rust"), vec![1]);
}

#[test]
fn a_scope_with_a_launch_holds_a_reference_once_attached() {
    let mut pool = LspClientPool::with_defaults();
    let mut scoped = ScopedClient::new(&mut pool, "b.nix", "/a", 2).unwrap();
    assert_eq!(scoped.client(), None);
    assert_eq!(scoped.evicted(), None);
    scoped.attach(&mut pool, "/a", symbols_only(), 3);
    assert_eq!(scoped.client(), Some(0));
    assert_eq!(ref_counts(&pool, "nix"), vec![1]);
    // Attaching again changes nothing.
    scoped.attach(&mut pool, "/a", symbols_only(), 4);
    assert_eq!(ref_counts(&pool, "nix"), vec![1]);
    scoped.release(&mut pool);
    assert_eq!(ref_counts(&pool, "nix"), vec![0]);
    assert_eq!(pool.get_stats().total_clients, 1);
}

#[test]
fn a_scope_whose_launch_never_came_gives_nothing_back() {
    let mut pool = LspClientPool::with_defaults();
    acquire(&mut pool, "a.rs", "rust", "/a", 1);
    let scoped = ScopedClient::new(&mut pool, "b.rs", "/b", 2).unwrap();
    assert_eq!(scoped.client(), None);
    scoped.release(&mut pool);
    assert_eq!(ref_counts(&pool, "rust"), vec![1]);
}
