use std::sync::atomic::{AtomicBool, AtomicUsize, Ordering};
use std::sync::Arc;

use probe_agent::collectors::{
    merge_aws_settings, merge_db_settings, merge_http_settings, merge_system_settings, parse_u64,
    split_csv, AwsSdkCollectorSettings, CollectionFrequency, CollectorBuilder,
    DatabaseCollectorSettings, HttpCollectorSettings, SystemCollectorSettings,
};
use probe_agent::collector_kinds::{
    status_text, CpuCollectorFactory, HttpMethod, NoSqlOperationType, QueryType,
};
use probe_agent::db_tracker::{extract_table_name, truncate_query, DbQueryTracker};
use probe_agent::deps::MinimalDependencyLoader;
use probe_agent::procfs::{
    memory_usage_permille, parse_counter, parse_cpu_counters, split_fields, tally_process_states,
    transfer_rate,
};
use probe_agent::preload::{
    preload_components, select_within_budget, AwsSdkPreloader, LambdaRuntimePreloader,
    NetworkPreloader, Preloadable, PreloadGuard,
};
use probe_agent::startup::{CriticalInitialization, Lazy, ConditionalLazy, StartupOptimizer};

struct TestComponent {
    name: &'static str,
    initialized: Arc<AtomicUsize>,
}

impl TestComponent {
    fn new(name: &'static str, initialized: Arc<AtomicUsize>) -> Self {
        initialized.fetch_add(1, Ordering::SeqCst);
        Self { name, initialized }
    }
}

impl CriticalInitialization for TestComponent {
    fn initialize(&self) {
        // Already initialized in constructor
    }

    fn name(&self) -> &'static str {
        self.name
    }
}

#[test]
fn test_startup_optimizer() {
    let critical_init = Arc::new(AtomicUsize::new(0));
    let lazy_init = Arc::new(AtomicUsize::new(0));

    let critical_clone = critical_init.clone();
    let lazy_clone = lazy_init.clone();

    let mut optimizer = StartupOptimizer::new();

    // Add critical component
    optimizer.add_critical(Box::new(TestComponent::new("critical", critical_clone)));

    // Add lazy component
    let mut lazy = Lazy::new("lazy", move || TestComponent::new("lazy", lazy_clone));
    optimizer.add_lazy_name("lazy");

    // Initialize critical components
    optimizer.initialize_critical();

    // Check initialization state
    assert_eq!(critical_init.load(Ordering::SeqCst), 1, "Critical component should be initialized");
    assert_eq!(lazy_init.load(Ordering::SeqCst), 0, "Lazy component should not be initialized yet");

    // the lazy one initializes on first use only
    assert!(!lazy.is_initialized());
    lazy.get();
    assert_eq!(lazy_init.load(Ordering::SeqCst), 1);
}

#[test]
fn test_lazy_initialization() {
    let initialized = Arc::new(AtomicUsize::new(0));
    let init_clone = initialized.clone();

    let mut lazy = Lazy::new("test_component", move || {
        init_clone.fetch_add(1, Ordering::SeqCst);
        42usize
    });

    // Should not be initialized yet
    assert_eq!(initialized.load(Ordering::SeqCst), 0);

    // Access value to trigger initialization
    let component = lazy.get();
    assert_eq!(*component, 42);

    // Should be initialized now
    assert_eq!(initialized.load(Ordering::SeqCst), 1);

    // Second access should not reinitialize
    let component2 = lazy.get();
    assert_eq!(*component2, 42);
    assert_eq!(initialized.load(Ordering::SeqCst), 1);
}

#[test]
fn test_conditional_initialization() {
    let initialized = Arc::new(AtomicUsize::new(0));
    let init_clone = initialized.clone();

    // Create conditional component that should initialize
    let mut conditional_true = ConditionalLazy::new(
        "conditional_true",
        move || {
            init_clone.fetch_add(1, Ordering::SeqCst);
            1usize
        },
        || true,
    );

    // Create conditional component that should not initialize
    let init_clone2 = initialized.clone();
    let mut conditional_false = ConditionalLazy::new(
        "conditional_false",
        move || {
            init_clone2.fetch_add(1, Ordering::SeqCst);
            2usize
        },
        || false,
    );

    // Check values
    let component1 = conditional_true.get();
    assert!(component1.is_some());
    assert_eq!(*component1.unwrap(), 1);

    let component2 = conditional_false.get();
    assert!(component2.is_none());

    // Only one should have initialized
    assert_eq!(initialized.load(Ordering::SeqCst), 1);

    // Force initialize the second component
    let forced = conditional_false.force_initialize();
    assert_eq!(*forced, 2);

    // Now both should be initialized
    assert_eq!(initialized.load(Ordering::SeqCst), 2);
}

struct TestPreloadable {
    name: &'static str,
    memory_usage: usize,
    preload_count: Arc<AtomicBool>,
}

impl Preloadable for TestPreloadable {
    fn spec_preloaded(&self) -> bool {
        self.preload_count.load(Ordering::SeqCst)
    }

    fn spec_cost(&self) -> usize {
        self.memory_usage
    }

    fn preload(&mut self) -> Vec<String> {
        self.preload_count.store(true, Ordering::SeqCst);
        vec![self.name.to_string()]
    }

    fn name(&self) -> &'static str {
        self.name
    }

    fn estimated_memory(&self) -> usize {
        self.memory_usage
    }
}

#[test]
fn test_preload_components() {
    let flag1 = Arc::new(AtomicBool::new(false));
    let flag2 = Arc::new(AtomicBool::new(false));
    let component1 = TestPreloadable { name: "test1", memory_usage: 1024, preload_count: flag1.clone() };
    let component2 = TestPreloadable { name: "test2", memory_usage: 1024, preload_count: flag2.clone() };

    let mut guard = PreloadGuard::new();
    let mut components: Vec<Box<dyn Preloadable>> = vec![Box::new(component1), Box::new(component2)];

    // Preload with no memory limit
    preload_components(&mut guard, &mut components, None);

    assert!(flag1.load(Ordering::SeqCst));
    assert!(flag2.load(Ordering::SeqCst));

    // a second pass is a no-op: the guard already fired
    let targets = preload_components(&mut guard, &mut components, None);
    assert!(targets.is_empty());

    // Reset for memory limit test
    let big_flag = Arc::new(AtomicBool::new(false));
    let small_flag = Arc::new(AtomicBool::new(false));
    let big = TestPreloadable { name: "big", memory_usage: 1024 * 1024 * 10, preload_count: big_flag.clone() };
    let small = TestPreloadable { name: "small", memory_usage: 1024, preload_count: small_flag.clone() };

    let mut guard2 = PreloadGuard::new();
    let mut limited: Vec<Box<dyn Preloadable>> = vec![Box::new(big), Box::new(small)];

    // Preload with a 5 MB memory limit
    preload_components(&mut guard2, &mut limited, Some(5));

    // Only the small component should be preloaded
    assert!(!big_flag.load(Ordering::SeqCst));
    assert!(small_flag.load(Ordering::SeqCst));
}

#[test]
fn preloaders_are_idempotent() {
    let mut p = LambdaRuntimePreloader::new();
    let first = p.preload();
    assert!(!first.is_empty());
    assert!(p.preload().is_empty(), "a second preload does nothing");

    let mut n = NetworkPreloader::with_default_aws_endpoints();
    assert_eq!(n.preload().len(), 5);
    assert!(n.preload().is_empty());

    let mut a = AwsSdkPreloader::new(true);
    let targets = a.preload();
    assert!(targets.contains(&"http_client_pool".to_string()));
    assert!(a.preload().is_empty());
}

#[test]
fn budget_selection_is_greedy_in_order() {
    let costs = vec![4usize, 3, 2, 1];
    assert_eq!(select_within_budget(&costs, Some(5)), vec![true, false, false, true]);
    assert_eq!(select_within_budget(&costs, None), vec![true, true, true, true]);
}

#[test]
fn test_minimal_dependency_loader() {
    let mut loader = MinimalDependencyLoader::new(false);

    // Test basic loading
    assert!(loader.load_dependency("std"));
    assert!(loader.load_dependency("tokio"));

    // Test non-essential dependency
    assert!(loader.load_dependency("aws_sdk_s3"));

    // Check statistics
    let stats = loader.get_statistics();
    assert_eq!(stats.total_loaded, 3);
    assert_eq!(stats.essential, 2);
    assert_eq!(stats.non_essential, 1);
    assert!(stats.non_essential_deps.contains(&"aws_sdk_s3"));

    // Test adding allowed dependencies
    loader.allow(&vec!["aws_sdk_s3"]);

    // Recalculate statistics
    let stats = loader.get_statistics();
    assert_eq!(stats.essential, 3);
    assert_eq!(stats.non_essential, 0);

    // Test deactivation
    loader.deactivate();
    assert!(loader.load_dependency("new_dependency"));

    // Should not have added the dependency
    assert!(!loader.get_loaded_dependencies().contains(&"new_dependency"));
}

#[test]
fn test_strict_mode() {
    let mut loader = MinimalDependencyLoader::new(true);

    // Essential dependencies should load
    assert!(loader.load_dependency("std"));

    // Non-essential dependencies should fail in strict mode
    assert!(!loader.load_dependency("aws_sdk_s3"));
}

#[test]
fn builder_produces_metadata_and_config() {
    let builder = CollectorBuilder::new()
        .with_id("system.cpu")
        .with_name("CPU")
        .with_description("cpu sampling")
        .with_source_type("system")
        .enabled(true)
        .with_frequency(CollectionFrequency::Interval(30_000))
        .with_setting("collect_per_core", "true");
    let meta = builder.build_metadata().unwrap();
    assert_eq!(meta.id, "system.cpu");
    assert_eq!(meta.name, "CPU");
    let config = builder.build_config().unwrap();
    assert_eq!(config.id, "system.cpu");
    assert_eq!(config.frequency, CollectionFrequency::Interval(30_000));
    assert_eq!(config.settings.unwrap().len(), 1);

    // without an id nothing can be built
    assert!(CollectorBuilder::new().build_metadata().is_err());
    assert!(CollectorBuilder::new().build_config().is_err());
}

#[test]
fn merges_overlay_valid_values_only() {
    let cfg = vec![
        ("collect_headers".to_string(), "false".to_string()),
        ("collect_bodies".to_string(), "1".to_string()),
        ("max_body_size".to_string(), "2048".to_string()),
        ("include_headers".to_string(), " X-One , ,x-two ".to_string()),
    ];
    let merged = merge_http_settings(&HttpCollectorSettings::new_default(), Some(&cfg)).unwrap();
    assert!(!merged.collect_headers);
    assert!(merged.collect_bodies);
    assert_eq!(merged.max_body_size, 2048);
    assert_eq!(merged.include_headers, vec!["x-one".to_string(), "x-two".to_string()]);
    // absent keys keep the defaults
    assert_eq!(merged.exclude_headers.len(), 4);

    let db_cfg = vec![
        ("max_queries".to_string(), "not-a-number".to_string()),
        ("collect_parameters".to_string(), "true".to_string()),
    ];
    let db = merge_db_settings(&DatabaseCollectorSettings::new_default(), Some(&db_cfg)).unwrap();
    assert_eq!(db.max_queries, 100, "a malformed number keeps the default");
    assert!(db.collect_parameters);

    let aws_cfg = vec![("region".to_string(), "eu-west-1".to_string())];
    let aws = merge_aws_settings(&AwsSdkCollectorSettings::new_default(None), Some(&aws_cfg))
        .unwrap();
    assert_eq!(aws.region.unwrap(), "eu-west-1");

    let sys_cfg = vec![("interval_seconds".to_string(), "30".to_string())];
    let sys = merge_system_settings(&SystemCollectorSettings::new_default(), Some(&sys_cfg))
        .unwrap();
    assert_eq!(sys.interval_seconds, 30);
    assert_eq!(sys.max_processes, 10);
}

#[test]
fn parse_u64_boundaries() {
    assert_eq!(parse_u64("0"), Some(0));
    assert_eq!(parse_u64("18446744073709551615"), Some(u64::MAX));
    assert_eq!(parse_u64("18446744073709551616"), None);
    assert_eq!(parse_u64(""), None);
    assert_eq!(parse_u64("12a"), None);
    assert_eq!(parse_u64("007"), Some(7));
}

#[test]
fn split_csv_cleans_words() {
    assert_eq!(
        split_csv("Content-Type, ,  USER-agent ,x-id"),
        vec!["content-type".to_string(), "user-agent".to_string(), "x-id".to_string()]
    );
    assert!(split_csv(" , ,").is_empty());
}

#[test]
fn query_classification() {
    assert_eq!(QueryType::from_query("  SELECT * FROM t"), QueryType::Select);
    assert_eq!(QueryType::from_query("insert into t values (1)"), QueryType::Insert);
    assert_eq!(QueryType::from_query("Update t set x=1"), QueryType::Update);
    assert_eq!(QueryType::from_query("ROLLBACK"), QueryType::Rollback);
    assert_eq!(
        QueryType::from_query("EXPLAIN SELECT 1"),
        QueryType::Other("EXPLAIN SELECT 1".to_string())
    );
}

#[test]
fn http_method_classification() {
    assert_eq!(HttpMethod::from_name("get"), HttpMethod::Get);
    assert_eq!(HttpMethod::from_name("POST"), HttpMethod::Post);
    assert_eq!(HttpMethod::from_name("Patch"), HttpMethod::Patch);
    assert_eq!(HttpMethod::from_name("BREW"), HttpMethod::Other("BREW".to_string()));
}

#[test]
fn nosql_operation_names() {
    assert_eq!(NoSqlOperationType::Find.as_str(), "find");
    assert_eq!(NoSqlOperationType::MapReduce.as_str(), "map_reduce");
    assert_eq!(NoSqlOperationType::BatchWrite.as_str(), "batch_write");
    assert_eq!(NoSqlOperationType::Other("touch".to_string()).as_str(), "touch");
}

#[test]
fn factories_carry_their_metadata() {
    let f = CpuCollectorFactory::new();
    let meta = f.metadata();
    assert_eq!(meta.id, "system.cpu");
    assert_eq!(meta.source_type, "system.cpu");
    assert!(meta.enabled_by_default);
}

#[test]
fn proc_stat_parsing_and_usage() {
    let line = b"cpu  4705 150 1120 16250 520 30 45 0 0 0";
    let fields = split_fields(line);
    assert_eq!(fields.len(), 11);
    assert_eq!(parse_counter(&fields[1]), Some(4705));
    let counters = parse_cpu_counters(&fields).unwrap();
    assert_eq!(counters.user, 4705);
    assert_eq!(counters.idle, 16250);
    // busy share: 1000 - idle*1000/total, total = 22820
    assert_eq!(counters.usage_permille(), 1000 - (16250 * 1000) / 22820);
    assert_eq!(parse_counter(&b"12x".to_vec()), None);
    assert_eq!(parse_counter(&b"".to_vec()), None);

    let tallies = tally_process_states(&vec![b'R', b'S', b'S', b'D', b'Z', b'I', b'T']);
    assert_eq!(tallies.total, 7);
    assert_eq!(tallies.running, 1);
    assert_eq!(tallies.sleeping, 3);
    assert_eq!(tallies.blocked, 1);
    assert_eq!(tallies.zombie, 1);
}

#[test]
fn memory_and_network_kernels() {
    assert_eq!(memory_usage_permille(1000, 250), 750);
    assert_eq!(memory_usage_permille(0, 10), 0);
    assert_eq!(transfer_rate(1000, 3000, 500), 4000);
    assert_eq!(transfer_rate(3000, 1000, 500), 0, "a wrapped counter reads as zero");
    assert_eq!(transfer_rate(0, 100, 0), 0);
}

#[test]
fn query_tracker_counts_and_caps() {
    assert_eq!(extract_table_name("SELECT * FROM users WHERE id = 1").unwrap(), "users");
    assert_eq!(extract_table_name("insert into `orders` values (1)").unwrap(), "orders");
    assert_eq!(extract_table_name("UPDATE accounts SET x = 1").unwrap(), "accounts");
    assert!(extract_table_name("COMMIT").is_none());
    assert_eq!(truncate_query("select 1", 5), "selec");
    assert_eq!(truncate_query("short", 100), "short");

    let mut settings = DatabaseCollectorSettings::new_default();
    settings.max_queries = 2;
    let mut tracker = DbQueryTracker::new(settings);
    let id = tracker.track_query("SELECT * FROM users", 12, None, Some(3), None, 1000);
    assert_eq!(id.len(), 36);
    tracker.track_query("INSERT INTO users VALUES (1)", 5, Some(1), None, None, 1001);
    tracker.track_query(
        "SELECT * FROM orders",
        7,
        None,
        None,
        Some("timeout".to_string()),
        1002,
    );
    assert_eq!(tracker.total_queries, 3);
    assert_eq!(tracker.error_count, 1);
    assert_eq!(tracker.count_for("select"), 2);
    assert_eq!(tracker.count_for("insert"), 1);
    assert_eq!(tracker.count_for("delete"), 0);
    assert_eq!(tracker.recent.len(), 2, "history is capped at the settings' limit");
    assert_eq!(tracker.tables.len(), 2);
    assert_eq!(tracker.tables[0].table_name, "users");
    assert_eq!(tracker.tables[0].reads, 1);
    assert_eq!(tracker.tables[0].writes, 1);
    assert_eq!(tracker.tables[1].table_name, "orders");
}

#[test]
fn nosql_operation_tracking() {
    let mut tracker = DbQueryTracker::new(probe_agent::collectors::DatabaseCollectorSettings::new_default());
    tracker.track_operation(&NoSqlOperationType::Find, "users", None, 5);
    tracker.track_operation(&NoSqlOperationType::Insert, "users", None, 6);
    tracker.track_operation(
        &NoSqlOperationType::Scan,
        "orders",
        Some("throttled".to_string()),
        7,
    );
    assert_eq!(tracker.total_queries, 3);
    assert_eq!(tracker.error_count, 1);
    assert_eq!(tracker.count_for("find"), 1);
    assert_eq!(tracker.count_for("insert"), 1);
    assert_eq!(tracker.tables.len(), 2);
    assert_eq!(tracker.tables[0].reads, 1);
    assert_eq!(tracker.tables[0].writes, 1);
}

#[test]
fn status_text_phrases() {
    assert_eq!(status_text(200), "OK");
    assert_eq!(status_text(404), "Not Found");
    assert_eq!(status_text(503), "Service Unavailable");
    assert_eq!(status_text(599), "Unknown");
}
