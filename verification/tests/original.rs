use pkgtrace::cache::{is_fresh_at, CacheManager, PathStatus};
use pkgtrace::config::{Config, ConfigBuilder};
use pkgtrace::logger::Logger;
use pkgtrace::models::{Package, PackageEvent, PackageSource};
use pkgtrace::strmap::StrMap;
use pkgtrace::utils::{
    format_size, is_path_safe, packages_to_csv, packages_to_markdown, resolve_filename_to_package,
};
use pkgtrace::version::{compare_versions, parse_version};
use std::cmp::Ordering;

fn package(name: &str, version: &str, source: PackageSource, path: &str, size: u64) -> Package {
    Package {
        name: name.to_string(),
        version: Some(version.to_string()),
        source,
        install_path: path.to_string(),
        size: Some(size),
        dependencies: None,
        installed_date: None,
        last_used: None,
        usage_count: None,
        checksum: None,
    }
}

fn event(package: &str, action: &str, timestamp: i64) -> PackageEvent {
    PackageEvent {
        timestamp,
        package: package.to_string(),
        action: action.to_string(),
        source: PackageSource::Pkg,
        details: None,
        pid: None,
        user: None,
    }
}

fn temp_dir_text() -> (tempfile::TempDir, String) {
    let dir = tempfile::tempdir().unwrap();
    let text = dir.path().to_string_lossy().into_owned();
    (dir, text)
}

#[test]
fn test_cache_manager_creation() {
    let (_dir, path) = temp_dir_text();
    let config = Config::default().with_custom_dir(&path);
    let manager = CacheManager::new(config);
    assert!(manager.cache_file_path().contains("packages.db.json"));
    assert!(manager.metadata_file_path().contains("metadata.json"));
}

#[test]
fn test_save_and_load() {
    let (_dir, path) = temp_dir_text();
    let config = Config::default().with_custom_dir(&path);
    let mut manager = CacheManager::new(config);
    let packages = vec![
        package("test1", "1.0.0", PackageSource::Pkg, "/usr/bin/test1", 1024),
        package("test2", "2.0.0", PackageSource::Cargo, "/usr/bin/test2", 2048),
    ];
    manager.load_entries(packages);
    assert_eq!(manager.len(), 2);
    assert!(manager.get_package("test1").is_some());
    assert!(manager.get_package("test2").is_some());
    let all = manager.get_all();
    assert_eq!(all.len(), 2);
}

#[test]
fn test_add_and_remove() {
    let (_dir, path) = temp_dir_text();
    let config = Config::default().with_custom_dir(&path);
    let mut manager = CacheManager::new(config);
    let pkg = package("test", "1.0.0", PackageSource::Pkg, "/usr/bin/test", 1024);
    manager.add_package(pkg.clone());
    assert_eq!(manager.len(), 1);
    manager.remove_package("test");
    assert_eq!(manager.len(), 0);
}

#[test]
fn test_is_fresh() {
    let config = Config::default();
    let now = 1_700_000_000;
    assert!(!is_fresh_at(None, now, config.scan_interval));
    assert!(is_fresh_at(Some(now), now, config.scan_interval));
}

#[test]
fn test_validate() {
    let (_dir, path) = temp_dir_text();
    let config = Config::default().with_custom_dir(&path);
    let mut manager = CacheManager::new(config);
    let pkg = package("test", "1.0.0", PackageSource::Pkg, "/nonexistent/path", 1024);
    manager.add_package(pkg);
    let status = vec![PathStatus { exists: false, size: None }];
    let issues = manager.validate(&status);
    assert!(!issues.is_empty());
    assert!(issues[0].contains("path does not exist"));
}

#[test]
fn test_config_default() {
    let config = Config::default();
    assert!(config.log_file.contains("pkgtrace.log"));
    assert!(config.db_file.contains("packages.db.json"));
    assert!(config.cache_dir.contains("cache"));
    assert!(!config.scan_dirs.is_empty());
    assert!(!config.exclude_patterns.is_empty());
    assert!(config.auto_scan);
    assert_eq!(config.scan_interval, 86400);
    assert!(config.max_log_size > 0);
    assert!(!config.log_level.is_empty());
    assert!(config.dependency_depth > 0);
    assert!(config.protect_core);
    assert!(config.backup_before_remove);
    assert!(config.parallel_scans > 0);
}

#[test]
fn test_config_builder() {
    let dir = tempfile::tempdir().unwrap();
    let join = |name: &str| dir.path().join(name).to_string_lossy().into_owned();
    let config = ConfigBuilder::new()
        .log_file(join("test.log"))
        .db_file(join("test.db.json"))
        .cache_dir(join("cache"))
        .auto_scan(false)
        .scan_interval(3600)
        .log_level("debug")
        .dependency_depth(10)
        .build()
        .unwrap();
    assert_eq!(config.log_file, join("test.log"));
    assert_eq!(config.db_file, join("test.db.json"));
    assert_eq!(config.cache_dir, join("cache"));
    assert!(!config.auto_scan);
    assert_eq!(config.scan_interval, 3600);
    assert_eq!(config.log_level, "debug");
    assert_eq!(config.dependency_depth, 10);
}

#[test]
fn test_validation() {
    let config = ConfigBuilder::new().dependency_depth(0).build();
    assert!(config.is_err());
    let config = ConfigBuilder::new().parallel_scans(0).build();
    assert!(config.is_err());
    let config = ConfigBuilder::new().scan_interval(30).build();
    assert!(config.is_err());
    let config = ConfigBuilder::new().max_log_size(1024).build();
    assert!(config.is_err());
}

#[test]
fn test_is_excluded() {
    let config = Config::default();
    assert!(config.is_excluded("test.so"));
    assert!(!config.is_excluded("test.py"));
}

#[test]
fn test_log_event() {
    let mut config = Config::default();
    config.log_file = "test.log".to_string();
    let mut logger = Logger::new(config);
    logger.reload(vec![event("test", "INSTALL", 1_700_000_000)]);
    let logs = logger.read_logs(10);
    assert_eq!(logs.len(), 1);
    assert_eq!(logs[0].package, "test");
    assert_eq!(logs[0].action, "INSTALL");
}

#[test]
fn test_load_all_events() {
    let mut config = Config::default();
    config.log_file = "test.log".to_string();
    let mut logger = Logger::new(config);
    let events: Vec<PackageEvent> =
        (0..5).map(|i| event(&format!("test-{}", i), "INSTALL", 1_700_000_000)).collect();
    logger.reload(events);
    let events = logger.load_all_events();
    assert_eq!(events.len(), 5);
    let events2 = logger.load_all_events();
    assert_eq!(events2.len(), 5);
}

#[test]
fn test_get_events_for_package() {
    let mut config = Config::default();
    config.log_file = "test.log".to_string();
    let mut logger = Logger::new(config);
    logger.reload(vec![event("test-pkg", "USE", 1_700_000_000)]);
    let events = logger.get_events_for_package("test-pkg");
    assert_eq!(events.len(), 1);
    assert_eq!(events[0].action, "USE");
}

#[test]
fn test_get_used_packages() {
    let mut config = Config::default();
    config.log_file = "test.log".to_string();
    let mut logger = Logger::new(config);
    logger.reload(vec![
        event("installed-pkg", "INSTALL", 1_700_000_000),
        event("used-pkg", "USE", 1_700_000_001),
    ]);
    let used = logger.get_used_packages();
    assert!(used.contains(&"installed-pkg".to_string()));
    assert!(used.contains(&"used-pkg".to_string()));
    assert!(!used.contains(&"not-used-pkg".to_string()));
}

#[test]
fn test_log_stats() {
    let mut config = Config::default();
    config.log_file = "test.log".to_string();
    let mut logger = Logger::new(config);
    let now = 1_700_000_000;
    let user = Some("tester".to_string());
    let events = vec![
        logger.log_install("pkg1", "pkg", 1, user.clone(), now),
        logger.log_install("pkg2", "pkg", 1, user.clone(), now),
        logger.log_remove("pkg1", "pkg", 1, user.clone(), now),
        logger.log_use("pkg2", 1, user.clone(), now),
        logger.info("test info", 1, user.clone(), now),
        logger.warning("test warning", 1, user.clone(), now),
    ];
    logger.reload(events);
    let stats = logger.get_log_stats(Some(600));
    assert!(stats.total_events >= 6);
    assert!(stats.installs >= 2);
    assert!(stats.removes >= 1);
    assert!(stats.uses >= 1);
    assert!(stats.warnings >= 1);
}

#[test]
fn test_cache_invalidation() {
    let mut config = Config::default();
    config.log_file = "test.log".to_string();
    let mut logger = Logger::new(config);
    let _ = logger.load_all_events();
    logger.invalidate_cache();
    logger.reload(vec![event("new-pkg", "INSTALL", 1_700_000_000)]);
    let events = logger.load_all_events();
    assert!(events.iter().any(|e| e.package == "new-pkg"));
}

#[test]
fn test_format_size() {
    assert_eq!(format_size(0), "0.0 B");
    assert_eq!(format_size(1024), "1.0 KB");
    assert_eq!(format_size(1024 * 1024), "1.0 MB");
    assert_eq!(format_size(1024 * 1024 * 1024), "1.0 GB");
    assert_eq!(format_size(1024 * 1024 * 1024 * 1024), "1.0 TB");
}

#[test]
fn test_parse_version() {
    assert_eq!(parse_version("1.2.3"), Some((1, 2, 3)));
    assert_eq!(parse_version("1.2"), None);
    assert_eq!(parse_version("1.2.3.4"), Some((1, 2, 3)));
    assert_eq!(parse_version("v1.2.3"), Some((1, 2, 3)));
}

#[test]
fn test_compare_versions() {
    assert_eq!(compare_versions("1.2.3", "1.2.3"), Some(Ordering::Equal));
    assert_eq!(compare_versions("1.2.4", "1.2.3"), Some(Ordering::Greater));
    assert_eq!(compare_versions("1.1.3", "1.2.3"), Some(Ordering::Less));
    assert_eq!(compare_versions("1.2.3", "2.0.0"), Some(Ordering::Less));
}

#[test]
fn test_is_path_safe() {
    assert!(is_path_safe("/usr/bin"));
    assert!(!is_path_safe("../etc/passwd"));
    assert!(!is_path_safe("//etc/passwd"));
}

#[test]
fn test_packages_to_csv() {
    let pkg = package("test", "1.0.0", PackageSource::Pkg, "/usr/bin/test", 1024);
    let csv = packages_to_csv(&[pkg]);
    assert!(csv.contains("test,1.0.0,pkg,/usr/bin/test,1.0 KB"));
}

#[test]
fn test_packages_to_markdown() {
    let pkg = package("test", "1.0.0", PackageSource::Pkg, "/usr/bin/test", 1024);
    let md = packages_to_markdown(&[pkg]);
    assert!(md.contains("| test | 1.0.0 | pkg | /usr/bin/test | 1.0 KB |"));
}

#[test]
fn test_resolve_filename_to_package() {
    let mut map: StrMap<String> = StrMap::new();
    map.insert("nm".to_string(), "binutils".to_string());
    map.insert("libcrypto.so.3".to_string(), "openssl".to_string());
    assert_eq!(resolve_filename_to_package("nm", &map), Some("binutils".to_string()));
    assert_eq!(
        resolve_filename_to_package("libcrypto.so.3", &map),
        Some("openssl".to_string())
    );
    assert_eq!(resolve_filename_to_package("unknown", &map), None);
}
