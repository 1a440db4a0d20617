//! Settings: where files live, what to scan and exclude, and the limits that must hold.

use vstd::prelude::*;
use crate::models::clone_strings;
use crate::strmap::views_of;
use crate::text::{join_spec, lowercase, owned, path_join, to_lowercase};

verus! {

broadcast use vstd::string::group_string_axioms;

/// The tracker's settings.
#[derive(Debug)]
pub struct Config {
    pub log_file: String,
    pub db_file: String,
    pub cache_dir: String,
    pub scan_dirs: Vec<String>,
    pub exclude_patterns: Vec<String>,
    pub auto_scan: bool,
    pub scan_interval: u64,
    pub max_log_size: u64,
    pub log_level: String,
    pub dependency_depth: usize,
    pub protect_core: bool,
    pub backup_before_remove: bool,
    pub parallel_scans: usize,
}

/// What a configuration holds, as mathematical values.
pub struct ConfigModel {
    pub log_file: Seq<char>,
    pub db_file: Seq<char>,
    pub cache_dir: Seq<char>,
    pub scan_dirs: Seq<Seq<char>>,
    pub exclude_patterns: Seq<Seq<char>>,
    pub auto_scan: bool,
    pub scan_interval: u64,
    pub max_log_size: u64,
    pub log_level: Seq<char>,
    pub dependency_depth: usize,
    pub protect_core: bool,
    pub backup_before_remove: bool,
    pub parallel_scans: usize,
}

impl View for Config {
    type V = ConfigModel;

    open spec fn view(&self) -> ConfigModel {
        ConfigModel {
            log_file: self.log_file@,
            db_file: self.db_file@,
            cache_dir: self.cache_dir@,
            scan_dirs: views_of(self.scan_dirs@),
            exclude_patterns: views_of(self.exclude_patterns@),
            auto_scan: self.auto_scan,
            scan_interval: self.scan_interval,
            max_log_size: self.max_log_size,
            log_level: self.log_level@,
            dependency_depth: self.dependency_depth,
            protect_core: self.protect_core,
            backup_before_remove: self.backup_before_remove,
            parallel_scans: self.parallel_scans,
        }
    }
}

/// The settings directory under a home directory.
pub open spec fn config_dir_of(home: Seq<char>) -> Seq<char> {
    join_spec(home, ".config/pkgtrace"@)
}

/// The default settings for a given home directory.
pub open spec fn default_config(home: Seq<char>) -> ConfigModel {
    let dir = config_dir_of(home);
    ConfigModel {
        log_file: join_spec(dir, "pkgtrace.log"@),
        db_file: join_spec(dir, "packages.db.json"@),
        cache_dir: join_spec(dir, "cache"@),
        scan_dirs: seq![
            join_spec(home, "bin"@),
            join_spec(home, ".local/bin"@),
            join_spec(home, "opt"@),
            "/data/data/com.termux/files/usr/bin"@,
            "/data/data/com.termux/files/usr/local/bin"@,
            "/data/data/com.termux/files/usr/lib"@,
        ],
        exclude_patterns: seq![
            ".*\\.so$"@,
            ".*\\.a$"@,
            ".*\\.o$"@,
            ".*\\.pyc$"@,
            ".*\\.pyo$"@,
            ".*\\.elc$"@,
            ".*\\.class$"@,
            ".*\\.jar$"@,
            "^lib.*\\.dylib$"@,
        ],
        auto_scan: true,
        scan_interval: 86400,
        max_log_size: 10485760,
        log_level: "info"@,
        dependency_depth: 20,
        protect_core: true,
        backup_before_remove: true,
        parallel_scans: 4,
    }
}

/// Calls `home::home_dir`, turning the path into text (lossily where it is not UTF-8).
/// It reads the environment, so nothing is promised of the result.
#[verifier::external_body]
pub(crate) fn home_dir_text() -> (r: Option<String>) {
    home::home_dir().map(|p| p.to_string_lossy().into_owned())
}

/// Whether `pattern` compiles as a regular expression (`regex::Regex::new` succeeds).
pub uninterp spec fn regex_compiles(pattern: Seq<char>) -> bool;

/// Whether the compiled `pattern` matches somewhere in `text` (`regex::Regex::is_match`).
pub uninterp spec fn regex_finds(pattern: Seq<char>, text: Seq<char>) -> bool;

/// Compiles `pattern` with `regex::Regex::new` and, if that succeeds, tests `text`
/// with `is_match`; `None` when the pattern does not compile.
#[verifier::external_body]
fn regex_is_match(pattern: &str, text: &str) -> (r: Option<bool>)
    ensures
        r is Some == regex_compiles(pattern@),
        r matches Some(b) ==> b == regex_finds(pattern@, text@),
{
    match regex::Regex::new(pattern) {
        Ok(re) => Some(re.is_match(text)),
        Err(_) => None,
    }
}

/// Whether some pattern of `patterns` compiles and matches `text`.
pub open spec fn excluded_by(patterns: Seq<Seq<char>>, text: Seq<char>) -> bool {
    exists|i: int| 0 <= i < patterns.len() && regex_compiles(patterns[i]) && regex_finds(patterns[i], text)
}

/// Whether some pattern of `patterns` compiles and matches `text`.
pub fn matches_any(patterns: &Vec<String>, text: &str) -> (b: bool)
    ensures
        b == excluded_by(views_of(patterns@), text@),
{
    let mut i: usize = 0;
    while i < patterns.len()
        invariant
            i <= patterns@.len(),
            forall|j: int|
                0 <= j < i ==> !(regex_compiles(#[trigger] views_of(patterns@)[j]) && regex_finds(
                    views_of(patterns@)[j],
                    text@,
                )),
        decreases patterns@.len() - i,
    {
        assert(views_of(patterns@)[i as int] == patterns@[i as int]@);
        if let Some(true) = regex_is_match(patterns[i].as_str(), text) {
            return true;
        }
        i = i + 1;
    }
    false
}

/// Why a configuration is refused.
#[derive(Debug, Clone, Copy, PartialEq, Eq, Structural)]
pub enum ConfigError {
    DependencyDepthZero,
    ParallelScansZero,
    ScanIntervalTooShort,
    MaxLogSizeTooSmall,
}

impl ConfigError {
    /// The message of an error.
    pub open spec fn text(self) -> Seq<char> {
        match self {
            ConfigError::DependencyDepthZero => "dependency_depth must be > 0"@,
            ConfigError::ParallelScansZero => "parallel_scans must be > 0"@,
            ConfigError::ScanIntervalTooShort => "scan_interval must be at least 60 seconds"@,
            ConfigError::MaxLogSizeTooSmall => "max_log_size must be at least 1MB"@,
        }
    }

    /// The message of the error.
    pub fn message(&self) -> (s: String)
        ensures
            s@ == self.text(),
    {
        match self {
            ConfigError::DependencyDepthZero => owned("dependency_depth must be > 0"),
            ConfigError::ParallelScansZero => owned("parallel_scans must be > 0"),
            ConfigError::ScanIntervalTooShort => owned("scan_interval must be at least 60 seconds"),
            ConfigError::MaxLogSizeTooSmall => owned("max_log_size must be at least 1MB"),
        }
    }
}

/// The first limit that a configuration breaks, checked in order: dependency depth,
/// parallel scans, scan interval (at least 60 s), log size (at least 1 MiB).
pub open spec fn config_problem(c: ConfigModel) -> Option<ConfigError> {
    if c.dependency_depth == 0 {
        Some(ConfigError::DependencyDepthZero)
    } else if c.parallel_scans == 0 {
        Some(ConfigError::ParallelScansZero)
    } else if c.scan_interval < 60 {
        Some(ConfigError::ScanIntervalTooShort)
    } else if c.max_log_size < 1048576 {
        Some(ConfigError::MaxLogSizeTooSmall)
    } else {
        None
    }
}

impl Default for Config {
    /// The default settings, under the home directory the system reports
    /// (or the Termux home when it reports none).
    fn default() -> (c: Self)
        ensures
            exists|h: Seq<char>| c@ == default_config(h),
    {
        let home = match home_dir_text() {
            Some(h) => h,
            None => owned("/data/data/com.termux/files/home"),
        };
        Config::for_home(home.as_str())
    }
}

impl Config {
    /// The default settings under the home directory `home`.
    pub fn for_home(home: &str) -> (c: Self)
        ensures
            c@ == default_config(home@),
    {
        let dir = path_join(home, ".config/pkgtrace");
        let mut scan_dirs: Vec<String> = Vec::new();
        scan_dirs.push(path_join(home, "bin"));
        scan_dirs.push(path_join(home, ".local/bin"));
        scan_dirs.push(path_join(home, "opt"));
        scan_dirs.push(owned("/data/data/com.termux/files/usr/bin"));
        scan_dirs.push(owned("/data/data/com.termux/files/usr/local/bin"));
        scan_dirs.push(owned("/data/data/com.termux/files/usr/lib"));
        let mut exclude_patterns: Vec<String> = Vec::new();
        exclude_patterns.push(owned(".*\\.so$"));
        exclude_patterns.push(owned(".*\\.a$"));
        exclude_patterns.push(owned(".*\\.o$"));
        exclude_patterns.push(owned(".*\\.pyc$"));
        exclude_patterns.push(owned(".*\\.pyo$"));
        exclude_patterns.push(owned(".*\\.elc$"));
        exclude_patterns.push(owned(".*\\.class$"));
        exclude_patterns.push(owned(".*\\.jar$"));
        exclude_patterns.push(owned("^lib.*\\.dylib$"));
        let c = Config {
            log_file: path_join(dir.as_str(), "pkgtrace.log"),
            db_file: path_join(dir.as_str(), "packages.db.json"),
            cache_dir: path_join(dir.as_str(), "cache"),
            scan_dirs,
            exclude_patterns,
            auto_scan: true,
            scan_interval: 86400,
            max_log_size: 10 * 1024 * 1024,
            log_level: owned("info"),
            dependency_depth: 20,
            protect_core: true,
            backup_before_remove: true,
            parallel_scans: 4,
        };
        assert(c@.scan_dirs =~= default_config(home@).scan_dirs);
        assert(c@.exclude_patterns =~= default_config(home@).exclude_patterns);
        c
    }

    /// A copy of the settings.
    pub fn duplicate(&self) -> (c: Self)
        ensures
            c@ == self@,
    {
        Config {
            log_file: self.log_file.clone(),
            db_file: self.db_file.clone(),
            cache_dir: self.cache_dir.clone(),
            scan_dirs: clone_strings(&self.scan_dirs),
            exclude_patterns: clone_strings(&self.exclude_patterns),
            auto_scan: self.auto_scan,
            scan_interval: self.scan_interval,
            max_log_size: self.max_log_size,
            log_level: self.log_level.clone(),
            dependency_depth: self.dependency_depth,
            protect_core: self.protect_core,
            backup_before_remove: self.backup_before_remove,
            parallel_scans: self.parallel_scans,
        }
    }

    /// The log level in lower case.
    pub fn get_log_level_filter(&self) -> (s: String)
        ensures
            s@ == lowercase(self.log_level@),
    {
        to_lowercase(self.log_level.as_str())
    }

    /// The directories to scan.
    pub fn get_scan_dirs(&self) -> (v: Vec<String>)
        ensures
            v@ == self.scan_dirs@,
    {
        clone_strings(&self.scan_dirs)
    }

    /// The patterns of file names to leave out.
    pub fn get_exclude_patterns(&self) -> (v: Vec<String>)
        ensures
            v@ == self.exclude_patterns@,
    {
        clone_strings(&self.exclude_patterns)
    }

    /// Whether some exclude pattern compiles and matches `path`.
    pub fn is_excluded(&self, path: &str) -> (b: bool)
        ensures
            b == excluded_by(self@.exclude_patterns, path@),
    {
        matches_any(&self.exclude_patterns, path)
    }

    /// The same settings with their files under `dir/.config/pkgtrace`.
    pub fn with_custom_dir(self, dir: &str) -> (c: Self)
        ensures
            c@ == (ConfigModel {
                log_file: join_spec(config_dir_of(dir@), "pkgtrace.log"@),
                db_file: join_spec(config_dir_of(dir@), "packages.db.json"@),
                cache_dir: join_spec(config_dir_of(dir@), "cache"@),
                ..self@
            }),
    {
        let config_dir = path_join(dir, ".config/pkgtrace");
        let mut c = self;
        c.log_file = path_join(config_dir.as_str(), "pkgtrace.log");
        c.db_file = path_join(config_dir.as_str(), "packages.db.json");
        c.cache_dir = path_join(config_dir.as_str(), "cache");
        c
    }

    /// Whether the log file, of `log_size` bytes (`None` when it cannot be read), is
    /// over the size at which it is rotated.
    pub fn should_rotate_log(&self, log_size: Option<u64>) -> (b: bool)
        ensures
            b == (log_size matches Some(z) && z > self.max_log_size),
    {
        match log_size {
            Some(z) => z > self.max_log_size,
            None => false,
        }
    }

    /// Checks the limits: `Ok` exactly when none is broken, else the first broken one.
    pub fn validate(&self) -> (r: Result<(), ConfigError>)
        ensures
            match r {
                Ok(()) => config_problem(self@) is None,
                Err(e) => config_problem(self@) == Some(e),
            },
    {
        if self.dependency_depth == 0 {
            return Err(ConfigError::DependencyDepthZero);
        }
        if self.parallel_scans == 0 {
            return Err(ConfigError::ParallelScansZero);
        }
        if self.scan_interval < 60 {
            return Err(ConfigError::ScanIntervalTooShort);
        }
        if self.max_log_size < 1024 * 1024 {
            return Err(ConfigError::MaxLogSizeTooSmall);
        }
        Ok(())
    }
}

/// Builds a configuration from the defaults, one setting at a time.
pub struct ConfigBuilder {
    config: Config,
}

impl ConfigBuilder {
    /// The configuration built so far.
    pub closed spec fn current(&self) -> ConfigModel {
        self.config@
    }

    /// Starts from the default settings.
    pub fn new() -> (b: Self)
        ensures
            exists|h: Seq<char>| b.current() == default_config(h),
    {
        ConfigBuilder { config: Config::default() }
    }

    /// Starts from given settings.
    pub fn from_config(config: Config) -> (b: Self)
        ensures
            b.current() == config@,
    {
        ConfigBuilder { config }
    }

    /// Sets the log file.
    pub fn log_file(self, path: String) -> (b: Self)
        ensures
            b.current() == (ConfigModel { log_file: path@, ..self.current() }),
    {
        let mut c = self.config;
        c.log_file = path;
        ConfigBuilder { config: c }
    }

    /// Sets the package database file.
    pub fn db_file(self, path: String) -> (b: Self)
        ensures
            b.current() == (ConfigModel { db_file: path@, ..self.current() }),
    {
        let mut c = self.config;
        c.db_file = path;
        ConfigBuilder { config: c }
    }

    /// Sets the cache directory.
    pub fn cache_dir(self, path: String) -> (b: Self)
        ensures
            b.current() == (ConfigModel { cache_dir: path@, ..self.current() }),
    {
        let mut c = self.config;
        c.cache_dir = path;
        ConfigBuilder { config: c }
    }

    /// Sets the directories to scan.
    pub fn scan_dirs(self, dirs: Vec<String>) -> (b: Self)
        ensures
            b.current() == (ConfigModel { scan_dirs: views_of(dirs@), ..self.current() }),
    {
        let mut c = self.config;
        c.scan_dirs = dirs;
        ConfigBuilder { config: c }
    }

    /// Sets the exclude patterns.
    pub fn exclude_patterns(self, patterns: Vec<String>) -> (b: Self)
        ensures
            b.current() == (ConfigModel { exclude_patterns: views_of(patterns@), ..self.current() }),
    {
        let mut c = self.config;
        c.exclude_patterns = patterns;
        ConfigBuilder { config: c }
    }

    /// Turns automatic scanning on or off.
    pub fn auto_scan(self, enabled: bool) -> (b: Self)
        ensures
            b.current() == (ConfigModel { auto_scan: enabled, ..self.current() }),
    {
        let mut c = self.config;
        c.auto_scan = enabled;
        ConfigBuilder { config: c }
    }

    /// Sets the scan interval in seconds.
    pub fn scan_interval(self, seconds: u64) -> (b: Self)
        ensures
            b.current() == (ConfigModel { scan_interval: seconds, ..self.current() }),
    {
        let mut c = self.config;
        c.scan_interval = seconds;
        ConfigBuilder { config: c }
    }

    /// Sets the largest log size in bytes.
    pub fn max_log_size(self, bytes: u64) -> (b: Self)
        ensures
            b.current() == (ConfigModel { max_log_size: bytes, ..self.current() }),
    {
        let mut c = self.config;
        c.max_log_size = bytes;
        ConfigBuilder { config: c }
    }

    /// Sets the log level.
    pub fn log_level(self, level: &str) -> (b: Self)
        ensures
            b.current() == (ConfigModel { log_level: level@, ..self.current() }),
    {
        let mut c = self.config;
        c.log_level = owned(level);
        ConfigBuilder { config: c }
    }

    /// Sets how deep dependencies are followed.
    pub fn dependency_depth(self, depth: usize) -> (b: Self)
        ensures
            b.current() == (ConfigModel { dependency_depth: depth, ..self.current() }),
    {
        let mut c = self.config;
        c.dependency_depth = depth;
        ConfigBuilder { config: c }
    }

    /// Turns protection of core packages on or off.
    pub fn protect_core(self, protect: bool) -> (b: Self)
        ensures
            b.current() == (ConfigModel { protect_core: protect, ..self.current() }),
    {
        let mut c = self.config;
        c.protect_core = protect;
        ConfigBuilder { config: c }
    }

    /// Turns backups before removal on or off.
    pub fn backup_before_remove(self, backup: bool) -> (b: Self)
        ensures
            b.current() == (ConfigModel { backup_before_remove: backup, ..self.current() }),
    {
        let mut c = self.config;
        c.backup_before_remove = backup;
        ConfigBuilder { config: c }
    }

    /// Sets how many scans run at once.
    pub fn parallel_scans(self, count: usize) -> (b: Self)
        ensures
            b.current() == (ConfigModel { parallel_scans: count, ..self.current() }),
    {
        let mut c = self.config;
        c.parallel_scans = count;
        ConfigBuilder { config: c }
    }

    /// The configuration, if it passes validation; else the first broken limit.
    pub fn build(self) -> (r: Result<Config, ConfigError>)
        ensures
            match r {
                Ok(c) => c@ == self.current() && config_problem(self.current()) is None,
                Err(e) => config_problem(self.current()) == Some(e),
            },
    {
        match self.config.validate() {
            Ok(()) => Ok(self.config),
            Err(e) => Err(e),
        }
    }
}

/// The default settings pass validation, whatever the home directory.
pub proof fn law_default_is_valid(home: Seq<char>)
    ensures
        config_problem(default_config(home)) is None,
{
}

} // verus!
