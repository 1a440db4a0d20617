use pkgtrace::analyzer::Analyzer;
use pkgtrace::cache::CacheManager;
use pkgtrace::config::{Config, ConfigBuilder, ConfigError};
use pkgtrace::graph::DepLookup;
use pkgtrace::logger::Logger;
use pkgtrace::models::{Package, PackageEvent, PackageSource, PackageStatus, RiskLevel, UnusedPackage};
use pkgtrace::scanner::PackageScanner;
use pkgtrace::select::{
    autoremove_selection, filter_min_size, is_yes, list_selection, monitor_unused, search_packages, verify_issues,
};
use pkgtrace::show::{parse_dependencies, parse_dependencies_batch};
use pkgtrace::strmap::StrMap;
use pkgtrace::text::{lines_of, words_of};
use pkgtrace::tracker::{build_usage_cache, Protection, Tracker, TrackerError};
use pkgtrace::utils::{build_file_package_map, compute_file_checksum, format_size, get_file_extension};
use pkgtrace::version::compare_versions;
use pkgtrace::walk::ChainError;

const NOW: i64 = 1_700_000_000;
const DAY: i64 = 86_400;

fn package(name: &str, source: PackageSource, size: Option<u64>, date: Option<i64>) -> Package {
    Package {
        name: name.to_string(),
        version: Some("1.0".to_string()),
        source,
        install_path: format!("/usr/bin/{}", name),
        size,
        dependencies: None,
        installed_date: date,
        last_used: None,
        usage_count: None,
        checksum: None,
    }
}

fn event(package: &str, action: &str, timestamp: i64) -> PackageEvent {
    PackageEvent {
        timestamp,
        package: package.to_string(),
        action: action.to_string(),
        source: PackageSource::Pkg,
        details: None,
        pid: None,
        user: None,
    }
}

fn deps(list: &[(&str, &[&str])]) -> StrMap<Vec<String>> {
    let mut m: StrMap<Vec<String>> = StrMap::new();
    for (name, ds) in list {
        m.insert(name.to_string(), ds.iter().map(|d| d.to_string()).collect());
    }
    m
}

fn config() -> Config {
    Config::for_home("/home/test")
}

/// A tracker holding `packages`, the log `events` and the dependency lists `dm`.
fn tracker(packages: Vec<Package>, events: Vec<PackageEvent>, dm: &StrMap<Vec<String>>) -> Tracker {
    let mut t = Tracker::new(config());
    t.cache_manager.load_entries(packages);
    t.rebuild_caches(events, dm, NOW);
    t
}

fn reference_size(bytes: u64) -> String {
    let units = ["B", "KB", "MB", "GB", "TB"];
    let mut size = bytes as f64;
    let mut unit = 0;
    while size >= 1024.0 && unit < units.len() - 1 {
        size /= 1024.0;
        unit += 1;
    }
    format!("{:.1} {}", size, units[unit])
}

#[test]
fn format_size_matches_float_formatting() {
    let mut values: Vec<u64> = (0..5000).collect();
    for k in 0..64 {
        let p = 1u64 << k;
        values.extend([p - 1, p, p.wrapping_add(1), p / 2 * 3]);
    }
    values.extend([1280, 1075, 1126, 1177, 2611, 10485760, 104857600, u64::MAX, u64::MAX - 1024]);
    values.extend([(1u64 << 53) + 1, (1u64 << 53) + 3, (1u64 << 60) + 12345, 9007199254740993]);
    let mut x: u64 = 0x9E37_79B9_7F4A_7C15;
    for _ in 0..20000 {
        x ^= x << 13;
        x ^= x >> 7;
        x ^= x << 17;
        values.push(x >> (x % 64));
    }
    for v in values {
        assert_eq!(format_size(v), reference_size(v), "size {}", v);
    }
}

#[test]
fn format_size_exact_values() {
    assert_eq!(format_size(1536), "1.5 KB");
    assert_eq!(format_size(1023), "1023.0 B");
    assert_eq!(format_size(u64::MAX), "16777216.0 TB");
}

#[test]
fn config_errors_have_messages() {
    let e = ConfigBuilder::new().dependency_depth(0).build().unwrap_err();
    assert_eq!(e, ConfigError::DependencyDepthZero);
    assert_eq!(e.message(), "dependency_depth must be > 0");
    let e = ConfigBuilder::new().parallel_scans(0).build().unwrap_err();
    assert_eq!(e, ConfigError::ParallelScansZero);
    assert_eq!(e.message(), "parallel_scans must be > 0");
    let e = ConfigBuilder::new().scan_interval(59).build().unwrap_err();
    assert_eq!(e, ConfigError::ScanIntervalTooShort);
    assert_eq!(e.message(), "scan_interval must be at least 60 seconds");
    let e = ConfigBuilder::new().max_log_size(1048575).build().unwrap_err();
    assert_eq!(e, ConfigError::MaxLogSizeTooSmall);
    assert_eq!(e.message(), "max_log_size must be at least 1MB");
    assert!(ConfigBuilder::new().scan_interval(60).max_log_size(1048576).build().is_ok());
}

#[test]
fn config_rotation_threshold() {
    let c = config();
    assert!(!c.should_rotate_log(None));
    assert!(!c.should_rotate_log(Some(c.max_log_size)));
    assert!(c.should_rotate_log(Some(c.max_log_size + 1)));
}

#[test]
fn lines_follow_std() {
    for text in ["", "a", "a\n", "a\r\nb", "a\n\nb\n", "x\r", "\n", "a\r\n\r\n"] {
        let expected: Vec<String> = text.lines().map(|l| l.to_string()).collect();
        assert_eq!(lines_of(text), expected, "text {:?}", text);
    }
}

#[test]
fn words_follow_std() {
    for text in ["", "  a  b ", "pkg 1.0 [installed]", "\tx\u{a0}y\n", "one"] {
        let expected: Vec<String> = text.split_whitespace().map(|l| l.to_string()).collect();
        assert_eq!(words_of(text), expected, "text {:?}", text);
    }
}

#[test]
fn show_output_gives_dependencies() {
    let out = "Package: curl\nVersion: 8.0\nDepends: libcurl (>= 8.0), openssl, zlib\n libssh2, ca-certificates\nHomepage: x\nDepends: ignored\n";
    assert_eq!(
        parse_dependencies(out),
        vec!["libcurl", "openssl", "zlib", "libssh2", "ca-certificates"]
    );
    assert_eq!(parse_dependencies("Package: a\nVersion: 1\n"), Vec::<String>::new());
    let out = "Depends: a\n\nDepends: b\n";
    assert_eq!(parse_dependencies(out), vec!["a"]);
}

#[test]
fn batch_show_output_gives_dependencies_by_package() {
    let out = "Package: curl\nDepends: openssl, zlib\n\nPackage: git\nDepends: curl,\n less\nPackage:Package: bash\n";
    let m = parse_dependencies_batch(out);
    assert_eq!(m.len(), 3);
    assert_eq!(m.get("curl").unwrap(), &vec!["openssl".to_string(), "zlib".to_string()]);
    assert_eq!(m.get("git").unwrap(), &vec!["curl".to_string(), "less".to_string()]);
    assert_eq!(m.get("bash").unwrap(), &Vec::<String>::new());
}

#[test]
fn usage_cache_indexes_events() {
    let events = vec![event("a", "INSTALL", 10), event("b", "USE", 5), event("a", "USE", 30), event("a", "REMOVE", 40)];
    let c = build_usage_cache(events, NOW);
    assert_eq!(c.event_count, 4);
    assert_eq!(c.last_event_timestamp, 40);
    assert_eq!(c.get_events_for_package("a").len(), 3);
    assert_eq!(c.get_last_use("a"), Some(30));
    assert_eq!(c.get_usage_count("a"), 2);
    assert_eq!(c.get_install_time("a"), Some(10));
    assert_eq!(c.get_last_use("c"), None);
    assert_eq!(c.get_usage_count("c"), 0);
    assert_eq!(c.get_used_packages(), vec!["a".to_string(), "b".to_string()]);
}

#[test]
fn unused_packages_by_age() {
    let packages = vec![
        package("old", PackageSource::Pkg, Some(100), None),
        package("fresh", PackageSource::Pkg, Some(200), None),
        package("bash", PackageSource::Pkg, Some(300), None),
        package("never", PackageSource::Pkg, Some(400), None),
    ];
    let events = vec![event("fresh", "USE", NOW - DAY)];
    let t = tracker(packages, events, &deps(&[]));
    let unused = t.find_unused(0, NOW);
    let names: Vec<&str> = unused.iter().map(|u| u.name.as_str()).collect();
    assert_eq!(names, vec!["old", "never"]);
    assert!(unused.iter().all(|u| u.status == PackageStatus::Unused && u.days_unused == 0));
    assert!(t.find_unused(30, NOW).is_empty());
}

#[test]
fn unused_with_deps_asks_for_missing_lists_then_filters() {
    let packages = vec![
        package("app", PackageSource::Pkg, Some(1), None),
        package("lib", PackageSource::Pkg, Some(2), None),
        package("stray", PackageSource::Pkg, Some(3), None),
    ];
    let events = vec![event("app", "INSTALL", NOW - 100 * DAY)];
    let mut t = tracker(packages, events, &deps(&[("app", &["lib", "ext"])]));
    assert_eq!(t.find_unused(0, NOW).len(), 2);
    match t.find_unused_with_deps(0, NOW) {
        Err(missing) => assert_eq!(missing, vec!["ext".to_string()]),
        Ok(_) => panic!("the dependencies of ext are not recorded"),
    }
    t.record_dependencies("ext".to_string(), vec![]);
    let kept = t.find_unused_with_deps(0, NOW).unwrap();
    let names: Vec<&str> = kept.iter().map(|u| u.name.as_str()).collect();
    assert_eq!(names, vec!["stray"]);
    assert_eq!(t.explain_protection("app").unwrap().message("app"), "Package 'app' is directly used (you installed it)");
    assert_eq!(t.explain_protection("lib").unwrap().message("lib"), "Package 'lib' is a dependency of 'app'");
    assert_eq!(t.explain_protection("stray").unwrap().message("stray"), "Package 'stray' is not protected");
    assert_eq!(t.explain_protection("bash").unwrap().message("bash"), "Package 'bash' is a core system package");
    match t.explain_protection("stray") {
        Ok(Protection::NotProtected) => {},
        other => panic!("{:?}", other),
    }
}

#[test]
fn dependency_lookup_records_and_reverses() {
    let packages = vec![package("a", PackageSource::Pkg, None, None), package("b", PackageSource::Pkg, None, None)];
    let mut t = tracker(packages, vec![], &deps(&[("a", &["b"])]));
    match t.get_dependencies("a") {
        DepLookup::Known(d) => assert_eq!(d, vec!["b".to_string()]),
        DepLookup::Unknown(_) => panic!("recorded"),
    }
    match t.get_dependencies("zzz") {
        DepLookup::Unknown(n) => assert_eq!(n, "zzz"),
        DepLookup::Known(_) => panic!("not recorded"),
    }
    assert_eq!(t.get_reverse_dependencies("b").unwrap(), vec!["a".to_string()]);
    let mut t2 = tracker(
        vec![package("a", PackageSource::Pkg, None, None), package("c", PackageSource::Pkg, None, None)],
        vec![],
        &StrMap::new(),
    );
    t2.dependency_cache.direct_deps = deps(&[("a", &["c"])]);
    assert_eq!(t2.get_reverse_dependencies("c").unwrap_err(), vec!["c".to_string()]);
}

#[test]
fn package_info_and_errors() {
    let t = tracker(vec![package("a", PackageSource::Cargo, Some(5), None)], vec![event("a", "USE", 1)], &deps(&[]));
    let info = t.get_package_info("a", vec![], vec![], None, Some("then".to_string())).unwrap();
    assert_eq!(info.usage_count, Some(1));
    assert_eq!(info.source, PackageSource::Cargo);
    assert_eq!(info.last_used_date, Some("then".to_string()));
    let e = t.get_package_info("nope", vec![], vec![], None, None).unwrap_err();
    assert_eq!(e.message(), "Package 'nope' not found");
    let mut t = t;
    let e = t.install_package(&package("gem1", PackageSource::Gem, None, None), NOW).unwrap_err();
    assert_eq!(e.message(), "Cannot automatically install gem packages");
    match e {
        TrackerError::CannotInstall(s) => assert_eq!(s, PackageSource::Gem),
        _ => panic!("wrong error"),
    }
    let ev = t.install_package(&package("p", PackageSource::Pkg, None, None), NOW).unwrap();
    assert_eq!(ev.action, "INSTALL");
    assert_eq!(t.get_installed_packages_all().len(), 2);
    let unused = UnusedPackage {
        name: "p".to_string(),
        source: PackageSource::Pkg,
        last_used: None,
        days_unused: 0,
        size: None,
        status: PackageStatus::Unused,
        install_path: "/usr/bin/p".to_string(),
    };
    let ev = t.remove_package(&unused, NOW);
    assert_eq!((ev.action.as_str(), ev.package.as_str(), ev.timestamp), ("REMOVE", "p", NOW));
    assert_eq!(t.get_installed_packages_all().len(), 1);
}

#[test]
fn stats_sort_and_group() {
    let packages = vec![
        package("a", PackageSource::Pip, Some(10), Some(3)),
        package("b", PackageSource::Pkg, Some(30), Some(1)),
        package("c", PackageSource::Pkg, None, Some(2)),
        package("d", PackageSource::Pkg, Some(30), None),
    ];
    let events = vec![event("a", "INSTALL", 1), event("b", "REMOVE", 2), event("a", "USE", 3)];
    let t = tracker(packages, events, &deps(&[]));
    assert_eq!(t.total_installed_size(), Some(70));
    let st = t.get_stats();
    assert_eq!(st.total_packages, 4);
    assert_eq!(st.used_packages, 1);
    assert_eq!(st.total_size, 70);
    assert_eq!(st.by_source, vec![("pkg".to_string(), 3, 60), ("pip".to_string(), 1, 10)]);
    let names = |v: &Vec<Package>| v.iter().map(|p| p.name.clone()).collect::<Vec<_>>();
    assert_eq!(names(&st.largest_packages), vec!["b", "d", "a", "c"]);
    assert_eq!(names(&st.oldest_packages), vec!["d", "b", "c", "a"]);
    assert_eq!(names(&st.newest_packages), vec!["a", "c", "b", "d"]);
    assert_eq!(st.average_package_size, 17);
    assert_eq!((st.total_log_entries, st.total_install_events, st.total_remove_events), (3, 1, 1));
}

#[test]
fn analyzer_reports() {
    let big = 20 * 1024 * 1024;
    let packages = vec![
        package("big", PackageSource::Pkg, Some(big), None),
        package("small", PackageSource::Npm, Some(1024), None),
        package("used", PackageSource::Pkg, Some(1), None),
    ];
    let events = vec![event("used", "USE", NOW)];
    let t = tracker(packages, events, &deps(&[("used", &[])]));
    let a = Analyzer::new(t);
    let rep = a.analyze(0, NOW).unwrap();
    assert_eq!((rep.total_packages, rep.used_packages, rep.unused_packages), (3, 1, 2));
    assert_eq!(rep.potential_savings, big + 1024);
    assert_eq!(rep.packages_by_source, vec![("pkg".to_string(), 2), ("npm".to_string(), 1)]);
    assert_eq!(rep.large_unused.len(), 1);
    assert_eq!(
        rep.recommendations,
        vec!["Remove 2 unused packages to free up 20.0 MB".to_string(), "Start with large packages: big".to_string()]
    );
    let risk = a.analyze_risk(0, NOW).unwrap();
    assert_eq!(risk.safe_to_remove.len(), 2);
    assert_eq!(risk.total_savings, big + 1024);
    assert_eq!(risk.risk_level, RiskLevel::Low);
    assert_eq!(a.get_safe_to_remove(0, NOW).unwrap().len(), 2);
    let summary = a.summary();
    assert!(summary.starts_with("Package Summary\n========================================\nTotal packages:   3\n"));
    assert!(summary.ends_with("By source:\n  pkg: 2 packages (20.0 MB total)\n  npm: 1 packages (1.0 KB total)\n"));
}

#[test]
fn analyzer_compares_lists() {
    let mut cur = package("a", PackageSource::Pkg, None, None);
    cur.version = Some("1".to_string());
    let t = tracker(vec![cur, package("b", PackageSource::Pkg, None, None)], vec![], &deps(&[]));
    let a = Analyzer::new(t);
    let mut other_a = package("a", PackageSource::Pkg, None, None);
    other_a.version = Some("2".to_string());
    let other = vec![other_a, package("c", PackageSource::Pkg, None, None)];
    let c = a.compare(&other);
    assert_eq!(c.only_current.iter().map(|p| p.name.as_str()).collect::<Vec<_>>(), vec!["b"]);
    assert_eq!(c.only_other.iter().map(|p| p.name.as_str()).collect::<Vec<_>>(), vec!["c"]);
    assert_eq!(c.common, vec!["a".to_string()]);
    assert_eq!(c.version_differences.len(), 1);
    assert_eq!(c.version_differences[0].current_version, Some("1".to_string()));
    assert_eq!(c.version_differences[0].other_version, Some("2".to_string()));
}

#[test]
fn dependency_graph_tree_cycles_and_chain() {
    let dm = deps(&[("a", &["b", "c"]), ("b", &["c"]), ("c", &["a"])]);
    let installed = vec![
        package("a", PackageSource::Pkg, None, None),
        package("b", PackageSource::Pip, None, None),
        package("c", PackageSource::Npm, None, None),
    ];
    let t = tracker(installed, vec![], &dm);
    let mut an = Analyzer::new(t);
    let g = an.get_dependency_graph("a").unwrap();
    let nodes: Vec<(String, usize, String)> =
        g.dependencies.iter().map(|n| (n.name.clone(), n.depth, n.parent.clone())).collect();
    assert_eq!(
        nodes,
        vec![
            ("b".to_string(), 1, "a".to_string()),
            ("c".to_string(), 2, "b".to_string()),
            ("a".to_string(), 3, "c".to_string()),
            ("c".to_string(), 1, "a".to_string()),
        ]
    );
    assert_eq!(g.dependencies[0].source, PackageSource::Pip);
    assert_eq!(g.dependencies[1].source, PackageSource::Npm);
    assert_eq!(g.dependencies[2].source, PackageSource::Pkg);
    assert_eq!(g.depth, 2);
    assert_eq!(g.total_nodes, 5);
    assert_eq!(g.cycles, vec![vec!["a".to_string(), "b".to_string(), "c".to_string()]]);
    assert_eq!(g.dependents, vec!["c".to_string()]);
    assert_eq!(an.get_dependency_chain("a", "c").unwrap(), vec!["a".to_string(), "b".to_string(), "c".to_string()]);
    match an.get_dependency_chain("c", "zzz") {
        Err(ChainError::NoPath(x, y)) => assert_eq!((x.as_str(), y.as_str()), ("c", "zzz")),
        other => panic!("{:?}", other),
    }
    assert_eq!(
        ChainError::NoPath("c".to_string(), "zzz".to_string()).message(),
        "No path found from c to zzz"
    );
    match an.get_dependency_chain("q", "zzz") {
        Err(ChainError::Unrecorded(n)) => assert_eq!(n, "q"),
        other => panic!("{:?}", other),
    }
}

#[test]
fn dependency_tree_text() {
    let dm = deps(&[("a", &["b", "c"]), ("b", &["a"]), ("c", &[])]);
    let installed = vec![
        package("a", PackageSource::Pkg, None, None),
        package("b", PackageSource::Pkg, None, None),
        package("c", PackageSource::Pkg, None, None),
    ];
    let t = tracker(installed, vec![], &dm);
    let text = t.print_dependency_tree("a", 10).unwrap();
    assert_eq!(
        text,
        "Dependency tree for 'a' (max depth: 10):\n├── b\n  │   └── a\n        ├── b [cycle]\n        └── c\n└── c\n"
    );
    let text = t.print_dependency_tree("a", 1).unwrap();
    assert_eq!(
        text,
        "Dependency tree for 'a' (max depth: 1):\n├── b\n  ... (depth limit reached)\n└── c\n"
    );
    assert_eq!(t.print_dependency_tree("zzz", 3).unwrap_err(), "zzz");
}

#[test]
fn scanner_reads_package_managers() {
    let list = "Listing...\nbash/stable,now 5.2 aarch64 [installed]\ncurl/stable 8.0\nbad\ncurl/stable 8.0\n";
    let dpkg = "Desired=Unknown\nii  zlib  1.3  aarch64  compression\nii  bash/stable,now  x\nrc  gone  1\nii  onlyname\n";
    let found = PackageScanner::scan_pkg(list, Some(dpkg));
    let names: Vec<&str> = found.iter().map(|p| p.name.as_str()).collect();
    assert_eq!(names, vec!["bash/stable,now", "curl/stable", "zlib", "onlyname"]);
    assert_eq!(found[3].version, None);
    assert_eq!(found[2].version, Some("1.3".to_string()));
    assert_eq!(found[2].install_path, "/data/data/com.termux/files/usr/bin/zlib");
    assert_eq!(PackageScanner::scan_pkg(list, None).len(), 2);
    let cargo = PackageScanner::cargo_package("rg", "/c/rg", 10, Some("ripgrep 14.1.0 (rev abc)")).unwrap();
    assert_eq!(cargo.version, Some("14.1.0".to_string()));
    let cargo = PackageScanner::cargo_package("rg", "/c/rg", 10, Some("no version here")).unwrap();
    assert_eq!(cargo.version, None);
    assert_eq!(PackageScanner::pip_locations("Name: x\nLocation: /usr/lib/py \nRequires:\n"), vec!["/usr/lib/py".to_string()]);
    assert_eq!(PackageScanner::gem_install_path("/gems", "rake", "13.0"), "/gems/gems/rake-13.0");
}

#[test]
fn scanner_records_and_merges() {
    let mut ps: Vec<Package> = Vec::new();
    let patterns = vec![".*\\.so$".to_string()];
    PackageScanner::add_manual_binary(&mut ps, "tool", "/bin/tool", 5, &patterns);
    PackageScanner::add_manual_binary(&mut ps, "lib.so", "/bin/lib.so", 5, &patterns);
    PackageScanner::add_manual_binary(&mut ps, "tool", "/other/tool", 6, &patterns);
    PackageScanner::add_built_binary(&mut ps, "proj", "/src/proj/proj", Some(9));
    PackageScanner::add_built_binary(&mut ps, "tool", "/src/tool/tool", None);
    assert_eq!(ps.iter().map(|p| p.name.as_str()).collect::<Vec<_>>(), vec!["tool", "proj"]);
    assert!(PackageScanner::is_build_marker("Makefile"));
    assert!(PackageScanner::is_build_marker("build.sh"));
    assert!(!PackageScanner::is_build_marker("sh"));
    assert!(!PackageScanner::is_build_marker("makefile"));
    assert_eq!(
        PackageScanner::source_dirs_under("/h"),
        vec!["/h/src".to_string(), "/h/build".to_string(), "/h/projects".to_string()]
    );
    let merged = PackageScanner::scan_all(vec![
        vec![package("x", PackageSource::Cargo, None, Some(5)), package("y", PackageSource::Npm, None, Some(1))],
        vec![package("x", PackageSource::Pkg, None, Some(1)), package("y", PackageSource::Gem, None, Some(9))],
    ]);
    let kept: Vec<(&str, PackageSource)> = merged.iter().map(|p| (p.name.as_str(), p.source)).collect();
    assert_eq!(kept, vec![("x", PackageSource::Pkg), ("y", PackageSource::Gem)]);
    let enriched = PackageScanner::enrich_package(package("z", PackageSource::Pkg, None, Some(4)), Some(8), Some(7), Some("h".to_string()));
    assert_eq!((enriched.size, enriched.installed_date, enriched.checksum), (Some(8), Some(4), Some("h".to_string())));
}

#[test]
fn checksums_and_file_owners() {
    assert_eq!(
        compute_file_checksum(b"abc"),
        "ba7816bf8f01cfea414140de5dae2223b00361a396177a9cb410ff61f20015ad"
    );
    let out = "openssl: /usr/lib/libcrypto.so.3, /usr/bin/openssl\nbinutils: /usr/bin/nm\ndiversion by x\ncoreutils: /usr/bin/\n";
    let m = build_file_package_map(out);
    assert_eq!(m.get("libcrypto.so.3"), Some(&"openssl".to_string()));
    assert_eq!(m.get("openssl"), Some(&"openssl".to_string()));
    assert_eq!(m.get("nm"), Some(&"binutils".to_string()));
    assert_eq!(m.len(), 3);
    assert_eq!(get_file_extension("/a/b.tar.gz"), Some("gz".to_string()));
    assert_eq!(get_file_extension("/a/b"), None);
}

#[test]
fn logger_queries_and_events() {
    let mut l = Logger::new(config());
    l.reload(vec![event("a", "INSTALL", 10), event("b", "USE", 20), event("a", "USE", 30)]);
    assert_eq!(l.read_logs(2).iter().map(|e| e.timestamp).collect::<Vec<_>>(), vec![20, 30]);
    assert_eq!(l.read_logs(9).len(), 3);
    assert_eq!(l.read_logs_since(20).len(), 2);
    assert_eq!(l.get_recent_activity(0, 25).len(), 1);
    assert_eq!(l.get_last_use("a"), Some(30));
    assert_eq!(l.get_usage_count("a"), 2);
    l.load_new_events(vec![event("c", "ERROR", 40)], 77);
    assert_eq!((l.load_all_events().len(), l.last_read_position), (4, 77));
    let st = l.get_log_stats(Some(2048));
    assert_eq!(st.summary(), "Log size: 2.0 KB, Events: 4, Installs: 1, Removes: 0, Uses: 2, Errors: 1, Warnings: 0");
    assert_eq!(l.get_log_stats(None).total_events, 0);
    let e = l.log_scan(3, 7, None, NOW);
    assert_eq!(e.details, Some("{\"packages_found\":3}".to_string()));
    assert_eq!(e.user, Some("unknown".to_string()));
    assert_eq!(e.action, "SCAN");
    let e = l.info("hi", 7, Some("me".to_string()), NOW);
    assert_eq!(e.details, Some("{\"message\":\"hi\"}".to_string()));
}

#[test]
fn command_selections() {
    let ps = vec![
        package("zed", PackageSource::Pkg, Some(2 * 1024 * 1024), None),
        package("alpha", PackageSource::Pip, Some(5), None),
        package("Beta", PackageSource::Pkg, None, None),
    ];
    let all = list_selection(&ps, None, None, None);
    assert_eq!(all.iter().map(|p| p.name.as_str()).collect::<Vec<_>>(), vec!["Beta", "alpha", "zed"]);
    let pkg_only = list_selection(&ps, Some("PKG"), None, None);
    assert_eq!(pkg_only.iter().map(|p| p.name.as_str()).collect::<Vec<_>>(), vec!["Beta", "zed"]);
    let big = list_selection(&ps, None, Some(1), None);
    assert_eq!(big.iter().map(|p| p.name.as_str()).collect::<Vec<_>>(), vec!["zed"]);
    let used = vec!["alpha".to_string()];
    assert_eq!(list_selection(&ps, None, None, Some(&used)).len(), 1);
    assert_eq!(search_packages(&ps, "BET", None).len(), 1);
    assert_eq!(search_packages(&ps, "a", Some("pip")).len(), 1);
    assert_eq!(monitor_unused(&ps, &used).len(), 2);
    let issues = verify_issues(&ps, &vec![true, false, true]);
    assert_eq!(issues, vec!["Package 'alpha' missing from /usr/bin/alpha".to_string()]);
    let unused = vec![
        UnusedPackage {
            name: "u".to_string(),
            source: PackageSource::Pkg,
            last_used: None,
            days_unused: 0,
            size: Some(3 * 1024 * 1024),
            status: PackageStatus::Dependency,
            install_path: String::new(),
        },
        UnusedPackage {
            name: "v".to_string(),
            source: PackageSource::Pkg,
            last_used: None,
            days_unused: 0,
            size: None,
            status: PackageStatus::Unused,
            install_path: String::new(),
        },
    ];
    assert_eq!(filter_min_size(unused.clone(), Some(3)).len(), 1);
    assert_eq!(filter_min_size(unused.clone(), None).len(), 2);
    assert_eq!(autoremove_selection(unused).len(), 1);
    assert!(is_yes(" YES\n"));
    assert!(is_yes("y"));
    assert!(!is_yes("no"));
}

#[test]
fn compare_versions_is_antisymmetric_on_samples() {
    let vs = ["1.2.3", "1.10.0", "v2.0.0", "0.0.1", "1.2.3.9", "x"];
    for a in vs {
        for b in vs {
            let ab = compare_versions(a, b);
            let ba = compare_versions(b, a);
            assert_eq!(ab.map(|o| o.reverse()), ba);
        }
    }
}

#[test]
fn config_hash_fingerprints_scan_settings() {
    let m = CacheManager::new(Config::for_home("/home/test"));
    assert_eq!(m.config_hash(), "e734ecae49c1093ed245201c4a788dd47907c5a809109e38686b6d7c73ba5334");
    let mut changed = Config::for_home("/home/test");
    changed.scan_interval = 3600;
    assert_ne!(CacheManager::new(changed).config_hash(), m.config_hash());
}

#[test]
fn cache_reads_back_writes_and_merges_by_date() {
    let mut m = CacheManager::new(config());
    m.add_package(package("a", PackageSource::Pkg, Some(1), Some(10)));
    m.add_package(package("b", PackageSource::Pip, Some(7), None));
    assert_eq!(m.get_package("a").unwrap().size, Some(1));
    assert_eq!(m.len(), 2);
    m.remove_package("b");
    assert!(m.get_package("b").is_none());
    assert_eq!(m.len(), 1);
    let before = m.get_all();
    m.merge(before);
    assert_eq!(m.len(), 1);
    assert_eq!(m.get_package("a").unwrap().size, Some(1));
    m.merge(vec![package("a", PackageSource::Pkg, Some(2), Some(20)), package("c", PackageSource::Npm, None, None)]);
    assert_eq!(m.get_package("a").unwrap().size, Some(2));
    assert_eq!(m.get_package("c").unwrap().source, PackageSource::Npm);
    m.merge(vec![package("a", PackageSource::Pkg, Some(3), Some(5))]);
    assert_eq!(m.get_package("a").unwrap().size, Some(2));
    assert!(Config::for_home("/anywhere").validate().is_ok());
}

#[test]
fn csv_dates_are_utc_days() {
    let mut p = package("t", PackageSource::Pkg, Some(1024), Some(86_400 * 365));
    p.last_used = Some(1_700_000_000);
    let csv = pkgtrace::utils::packages_to_csv(&[p]);
    assert!(csv.ends_with("t,1.0,pkg,/usr/bin/t,1.0 KB,1971-01-01,2023-11-14\n"));
    let never = pkgtrace::utils::packages_to_csv(&[package("u", PackageSource::Pkg, None, None)]);
    assert!(never.ends_with("u,1.0,pkg,/usr/bin/u,unknown,unknown,never\n"));
}

#[test]
fn config_hash_formats_scan_dirs_as_paths() {
    let mut c = Config::for_home("/home/test");
    c.scan_dirs = vec!["/it's".to_string()];
    c.exclude_patterns = vec![];
    c.scan_interval = 60;
    c.dependency_depth = 1;
    assert_eq!(
        CacheManager::new(c).config_hash(),
        "995fa478c056786768766b2dfacfc3543fe7ea0e1f0c47c70f3ca5447b07fca0"
    );
}

#[test]
fn pkg_scan_tells_packages_apart_by_name_and_source() {
    let list = "Listing...\ncurl/stable 8.0\ncurl/stable 8.1\n";
    let found = PackageScanner::scan_pkg(list, None);
    assert_eq!(found.len(), 1);
    assert_eq!(found[0].version, Some("8.0".to_string()));
}

#[test]
fn source_names_read_back_ignoring_case() {
    for s in [PackageSource::Pkg, PackageSource::Cargo, PackageSource::Pip, PackageSource::Npm, PackageSource::Gem, PackageSource::Manual, PackageSource::Unknown] {
        assert_eq!(PackageSource::from_str(&s.to_string()), s);
        assert_eq!(PackageSource::from_str(&s.to_string().to_uppercase()), s);
    }
    assert_eq!(PackageSource::from_str("PIP"), PackageSource::Pip);
    assert_eq!(PackageSource::from_str("pipx"), PackageSource::Unknown);
}

#[test]
fn cache_listing_holds_what_was_added() {
    let mut m = CacheManager::new(config());
    m.add_package(package("test", PackageSource::Pkg, Some(1024), None));
    let all = m.get_all();
    assert_eq!(all.len(), 1);
    assert_eq!(all[0].name, "test");
    let issues = m.validate(&vec![pkgtrace::cache::PathStatus { exists: false, size: None }]);
    assert!(issues[0].contains("path does not exist"));
}

#[test]
fn executable_needs_a_file_and_an_execute_bit() {
    assert!(pkgtrace::utils::is_executable_mode(true, 0o755));
    assert!(pkgtrace::utils::is_executable_mode(true, 0o001));
    assert!(!pkgtrace::utils::is_executable_mode(true, 0o644));
    assert!(!pkgtrace::utils::is_executable_mode(false, 0o755));
}

#[test]
fn log_details_are_escaped_json() {
    let l = Logger::new(config());
    let e = l.warning("a\"b\\c\nd\u{1}é", 1, None, NOW);
    assert_eq!(e.details, Some("{\"message\":\"a\\\"b\\\\c\\nd\\u0001é\"}".to_string()));
    let e = l.log_scan(0, 1, None, NOW);
    assert_eq!(e.details, Some("{\"packages_found\":0}".to_string()));
}
