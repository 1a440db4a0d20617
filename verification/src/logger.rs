//! The activity log: the events read from the log file, the queries over them, and the
//! events that the tracker writes.
//!
//! Reading and appending to the log file are left to the caller, which hands the
//! events read to the logger and writes the events it builds.

use vstd::prelude::*;
use crate::config::Config;
use crate::models::{
    LogAction, PackageEvent, PackageSource, action_is, clone_opt_string, is_use_event, max_timestamp, use_events,
    used_names, used_order, lemma_used_order,
};
use crate::stats::count_action;
use crate::strmap::views_of;
use crate::text::{decimal, owned, push_str, push_u64, str_eq};
use crate::tracker::events_of;
use crate::utils::{format_size, format_size_spec, hex_digit};

verus! {

broadcast use vstd::string::group_string_axioms;

/// The activity log of the tracker: where it lives and the events read from it.
pub struct Logger {
    pub config: Config,
    pub log_file: String,
    pub events: Vec<PackageEvent>,
    pub last_read_position: u64,
}

/// Counts of the events of a log file by kind.
#[derive(Debug)]
pub struct LogStats {
    pub file_size: u64,
    pub total_events: usize,
    pub installs: usize,
    pub removes: usize,
    pub uses: usize,
    pub errors: usize,
    pub warnings: usize,
}

impl LogStats {
    /// Statistics of a log that does not exist: all zero.
    pub fn default() -> (s: Self)
        ensures
            s.file_size == 0 && s.total_events == 0 && s.installs == 0 && s.removes == 0 && s.uses == 0 && s.errors
                == 0 && s.warnings == 0,
    {
        LogStats { file_size: 0, total_events: 0, installs: 0, removes: 0, uses: 0, errors: 0, warnings: 0 }
    }

    /// The one-line summary of the statistics.
    pub open spec fn summary_text(self) -> Seq<char> {
        "Log size: "@ + format_size_spec(self.file_size as nat) + ", Events: "@ + decimal(self.total_events as nat)
            + ", Installs: "@ + decimal(self.installs as nat) + ", Removes: "@ + decimal(self.removes as nat)
            + ", Uses: "@ + decimal(self.uses as nat) + ", Errors: "@ + decimal(self.errors as nat) + ", Warnings: "@
            + decimal(self.warnings as nat)
    }

    /// The one-line summary of the statistics.
    pub fn summary(&self) -> (s: String)
        ensures
            s@ == self.summary_text(),
    {
        let mut s = owned("Log size: ");
        let size = format_size(self.file_size);
        push_str(&mut s, size.as_str());
        push_str(&mut s, ", Events: ");
        push_u64(&mut s, self.total_events as u64);
        push_str(&mut s, ", Installs: ");
        push_u64(&mut s, self.installs as u64);
        push_str(&mut s, ", Removes: ");
        push_u64(&mut s, self.removes as u64);
        push_str(&mut s, ", Uses: ");
        push_u64(&mut s, self.uses as u64);
        push_str(&mut s, ", Errors: ");
        push_u64(&mut s, self.errors as u64);
        push_str(&mut s, ", Warnings: ");
        push_u64(&mut s, self.warnings as u64);
        s
    }
}

/// The last `limit` events of `es` (all of them when there are fewer).
pub open spec fn last_events(es: Seq<PackageEvent>, limit: nat) -> Seq<PackageEvent> {
    if es.len() > limit {
        es.skip(es.len() - limit)
    } else {
        es
    }
}

/// The events of `es` at or after `ts`, in order.
pub open spec fn events_since(es: Seq<PackageEvent>, ts: int) -> Seq<PackageEvent>
    decreases es.len(),
{
    if es.len() == 0 {
        Seq::empty()
    } else if es.last().timestamp >= ts {
        events_since(es.drop_last(), ts).push(es.last())
    } else {
        events_since(es.drop_last(), ts)
    }
}

/// How one character is written inside a JSON string: `"` and `\` after a backslash,
/// backspace, tab, line feed, form feed and carriage return as `\b`, `\t`, `\n`, `\f`,
/// `\r`, any other character below U+0020 as `\u00` and two lower-case hexadecimal
/// digits, and every other character as itself.
pub open spec fn json_escaped_char(c: char) -> Seq<char> {
    let n = c as int;
    if c == '"' {
        seq!['\\', '"']
    } else if c == '\\' {
        seq!['\\', '\\']
    } else if n == 8 {
        seq!['\\', 'b']
    } else if n == 9 {
        seq!['\\', 't']
    } else if n == 10 {
        seq!['\\', 'n']
    } else if n == 12 {
        seq!['\\', 'f']
    } else if n == 13 {
        seq!['\\', 'r']
    } else if n < 32 {
        seq!['\\', 'u', '0', '0', hex_digit((n / 16) as nat), hex_digit((n % 16) as nat)]
    } else {
        seq![c]
    }
}

/// The characters of `s` as written inside a JSON string.
pub open spec fn json_escaped(s: Seq<char>) -> Seq<char>
    decreases s.len(),
{
    if s.len() == 0 {
        Seq::empty()
    } else {
        json_escaped(s.drop_last()) + json_escaped_char(s.last())
    }
}

/// `s` as a JSON string: between double quotes, escaped.
pub open spec fn json_quoted(s: Seq<char>) -> Seq<char> {
    seq!['"'] + json_escaped(s) + seq!['"']
}

/// The JSON text of an object with the one string member `key`, as `serde_json` writes it
/// in compact form.
pub open spec fn json_string_member(key: Seq<char>, value: Seq<char>) -> Seq<char> {
    seq!['{'] + json_quoted(key) + seq![':'] + json_quoted(value) + seq!['}']
}

/// The JSON text of an object with the one number member `key`, as `serde_json` writes it
/// in compact form (the number in decimal).
pub open spec fn json_number_member(key: Seq<char>, value: u64) -> Seq<char> {
    seq!['{'] + json_quoted(key) + seq![':'] + decimal(value as nat) + seq!['}']
}

/// Writes the object `{key: value}` with `serde_json` (a `Map` holding one string
/// `Value`, printed by `Value::to_string`).
#[verifier::external_body]
fn json_with_string(key: &str, value: &str) -> (s: String)
    ensures
        s@ == json_string_member(key@, value@),
{
    let mut m = serde_json::Map::new();
    m.insert(key.to_string(), serde_json::Value::String(value.to_string()));
    serde_json::Value::Object(m).to_string()
}

/// Writes the object `{key: value}` with `serde_json` (a `Map` holding one number
/// `Value`, printed by `Value::to_string`).
#[verifier::external_body]
fn json_with_number(key: &str, value: u64) -> (s: String)
    ensures
        s@ == json_number_member(key@, value),
{
    let mut m = serde_json::Map::new();
    m.insert(key.to_string(), serde_json::Value::from(value));
    serde_json::Value::Object(m).to_string()
}

/// Whether `e` is the event recording `action` on `package` at `now`, by the process
/// `pid` of `user` (or "unknown"), with `details`.
pub open spec fn action_event(
    e: PackageEvent,
    action: LogAction,
    package: Seq<char>,
    details: Option<Seq<char>>,
    pid: u32,
    user: Option<Seq<char>>,
    now: i64,
) -> bool {
    &&& e.timestamp == now
    &&& e.package@ == package
    &&& e.action@ == action.name()
    &&& e.source == PackageSource::Unknown
    &&& crate::models::opt_view(e.details) == details
    &&& e.pid == Some(pid)
    &&& e.user matches Some(u) && u@ == match user {
        Some(x) => x,
        None => "unknown"@,
    }
}

impl Logger {
    /// A logger for the configured log file, with no events read yet.
    pub fn new(config: Config) -> (l: Self)
        ensures
            l.config@ == config@,
            l.log_file@ == config@.log_file,
            l.events@.len() == 0,
            l.last_read_position == 0,
    {
        let log_file = config.log_file.clone();
        Logger { config, log_file, events: Vec::new(), last_read_position: 0 }
    }

    /// The path of the log file.
    pub fn get_log_path(&self) -> (p: &String)
        ensures
            p@ == self.log_file@,
    {
        &self.log_file
    }

    /// Forgets the events read, as when the file changed.
    pub fn invalidate_cache(&mut self)
        ensures
            final(self).events@.len() == 0,
            final(self).last_read_position == 0,
            final(self).config == old(self).config,
            final(self).log_file == old(self).log_file,
    {
        self.events = Vec::new();
        self.last_read_position = 0;
    }

    /// Replaces the events with all those read again from the file.
    pub fn reload(&mut self, events: Vec<PackageEvent>)
        ensures
            final(self).events@ == events@,
            final(self).last_read_position == 0,
            final(self).config == old(self).config,
            final(self).log_file == old(self).log_file,
    {
        self.events = events;
        self.last_read_position = 0;
    }

    /// All events read.
    pub fn load_all_events(&self) -> (r: Vec<PackageEvent>)
        ensures
            r@ == self.events@,
    {
        let mut r: Vec<PackageEvent> = Vec::new();
        let mut i: usize = 0;
        while i < self.events.len()
            invariant
                i <= self.events@.len(),
                r@ == self.events@.take(i as int),
            decreases self.events@.len() - i,
        {
            r.push(self.events[i].clone());
            assert(r@ =~= self.events@.take(i + 1));
            i = i + 1;
        }
        assert(self.events@.take(self.events@.len() as int) =~= self.events@);
        r
    }

    /// Adds the events read past the last read position (`bytes` bytes were read).
    pub fn load_new_events(&mut self, new_events: Vec<PackageEvent>, bytes: u64)
        requires
            old(self).last_read_position + bytes <= u64::MAX,
        ensures
            final(self).events@ == old(self).events@ + new_events@,
            final(self).last_read_position == old(self).last_read_position + bytes,
            final(self).config == old(self).config,
            final(self).log_file == old(self).log_file,
    {
        let mut i: usize = 0;
        let ghost start = self.events@;
        while i < new_events.len()
            invariant
                i <= new_events@.len(),
                self.events@ == start + new_events@.take(i as int),
                self.last_read_position == old(self).last_read_position,
                self.last_read_position + bytes <= u64::MAX,
                self.config == old(self).config,
                self.log_file == old(self).log_file,
            decreases new_events@.len() - i,
        {
            self.events.push(new_events[i].clone());
            assert(self.events@ =~= start + new_events@.take(i + 1));
            i = i + 1;
        }
        assert(new_events@.take(new_events@.len() as int) =~= new_events@);
        self.last_read_position = self.last_read_position + bytes;
    }

    /// The events of `package`, in order.
    pub fn get_events_for_package(&self, package: &str) -> (r: Vec<PackageEvent>)
        ensures
            r@ == events_of(self.events@, package@),
    {
        let mut r: Vec<PackageEvent> = Vec::new();
        let mut i: usize = 0;
        while i < self.events.len()
            invariant
                i <= self.events@.len(),
                r@ == events_of(self.events@.take(i as int), package@),
            decreases self.events@.len() - i,
        {
            assert(self.events@.take(i + 1).drop_last() =~= self.events@.take(i as int));
            if str_eq(self.events[i].package.as_str(), package) {
                r.push(self.events[i].clone());
            }
            i = i + 1;
        }
        assert(self.events@.take(self.events@.len() as int) =~= self.events@);
        r
    }

    /// The events of `package` (see `get_events_for_package`).
    pub fn get_package_activity(&self, package: &str) -> (r: Vec<PackageEvent>)
        ensures
            r@ == events_of(self.events@, package@),
    {
        self.get_events_for_package(package)
    }

    /// The latest time `package` was installed or used, if ever.
    pub fn get_last_use(&self, package: &str) -> (r: Option<i64>)
        ensures
            r == max_timestamp(use_events(events_of(self.events@, package@))),
    {
        let evs = self.get_events_for_package(package);
        let mut best: Option<i64> = None;
        let mut i: usize = 0;
        while i < evs.len()
            invariant
                i <= evs@.len(),
                best == max_timestamp(use_events(evs@.take(i as int))),
            decreases evs@.len() - i,
        {
            assert(evs@.take(i + 1).drop_last() =~= evs@.take(i as int));
            proof {
                let t1 = evs@.take(i + 1);
                assert(t1.last() == evs@[i as int]);
                assert(use_events(evs@.take(i as int)).push(evs@[i as int]).drop_last() =~= use_events(
                    evs@.take(i as int),
                ));
            }
            if is_use_event(&evs[i]) {
                let t = evs[i].timestamp;
                best = match best {
                    None => Some(t),
                    Some(m) => Some(if t >= m { t } else { m }),
                };
            }
            i = i + 1;
        }
        assert(evs@.take(evs@.len() as int) =~= evs@);
        best
    }

    /// The number of times `package` was installed or used.
    pub fn get_usage_count(&self, package: &str) -> (n: usize)
        ensures
            n == use_events(events_of(self.events@, package@)).len(),
    {
        let evs = self.get_events_for_package(package);
        let mut n: usize = 0;
        let mut i: usize = 0;
        while i < evs.len()
            invariant
                i <= evs@.len(),
                n == use_events(evs@.take(i as int)).len(),
                n <= i,
            decreases evs@.len() - i,
        {
            assert(evs@.take(i + 1).drop_last() =~= evs@.take(i as int));
            assert(evs@.take(i + 1).last() == evs@[i as int]);
            if is_use_event(&evs[i]) {
                n = n + 1;
            }
            i = i + 1;
        }
        assert(evs@.take(evs@.len() as int) =~= evs@);
        n
    }

    /// The packages installed or used, each once, in order of first use.
    pub fn get_used_packages(&self) -> (r: Vec<String>)
        ensures
            views_of(r@) == used_order(self.events@),
            views_of(r@).no_duplicates(),
            views_of(r@).to_set() == used_names(self.events@),
    {
        let cache = crate::models::UsageCache {
            events: self.load_all_events(),
            package_index: crate::strmap::StrMap::new(),
            loaded_at: 0,
            last_event_timestamp: 0,
            event_count: 0,
        };
        cache.get_used_packages()
    }

    /// The last `limit` events (all of them when there are fewer).
    pub fn read_logs(&self, limit: usize) -> (r: Vec<PackageEvent>)
        ensures
            r@ == last_events(self.events@, limit as nat),
    {
        let n = self.events.len();
        let start = if n > limit {
            n - limit
        } else {
            0
        };
        let mut r: Vec<PackageEvent> = Vec::new();
        let mut i = start;
        while i < n
            invariant
                start <= i <= n == self.events@.len(),
                start == if n > limit { n - limit } else { 0 },
                r@ == self.events@.subrange(start as int, i as int),
            decreases n - i,
        {
            r.push(self.events[i].clone());
            assert(r@ =~= self.events@.subrange(start as int, i + 1));
            i = i + 1;
        }
        assert(self.events@.subrange(start as int, n as int) =~= last_events(self.events@, limit as nat));
        r
    }

    /// The events at or after `timestamp`, in order.
    pub fn read_logs_since(&self, timestamp: i64) -> (r: Vec<PackageEvent>)
        ensures
            r@ == events_since(self.events@, timestamp as int),
    {
        let mut r: Vec<PackageEvent> = Vec::new();
        let mut i: usize = 0;
        while i < self.events.len()
            invariant
                i <= self.events@.len(),
                r@ == events_since(self.events@.take(i as int), timestamp as int),
            decreases self.events@.len() - i,
        {
            assert(self.events@.take(i + 1).drop_last() =~= self.events@.take(i as int));
            if self.events[i].timestamp >= timestamp {
                r.push(self.events[i].clone());
            }
            i = i + 1;
        }
        assert(self.events@.take(self.events@.len() as int) =~= self.events@);
        r
    }

    /// The events of the last `hours` hours before `now`.
    pub fn get_recent_activity(&self, hours: u64, now: i64) -> (r: Vec<PackageEvent>)
        requires
            hours * 3600 <= i64::MAX,
            now - hours * 3600 >= i64::MIN,
        ensures
            r@ == events_since(self.events@, now - hours * 3600),
    {
        let span = (hours * 3600) as i64;
        self.read_logs_since(now - span)
    }

    /// Counts of the events by kind, for a log file of `file_size` bytes (`None` when
    /// the file does not exist, which gives all zero).
    pub fn get_log_stats(&self, file_size: Option<u64>) -> (s: LogStats)
        ensures
            file_size is None ==> s.file_size == 0 && s.total_events == 0 && s.installs == 0 && s.removes == 0
                && s.uses == 0 && s.errors == 0 && s.warnings == 0,
            file_size matches Some(z) ==> {
                &&& s.file_size == z
                &&& s.total_events == self.events@.len()
                &&& s.installs == count_action(self.events@, "INSTALL"@)
                &&& s.removes == count_action(self.events@, "REMOVE"@)
                &&& s.uses == count_action(self.events@, "USE"@)
                &&& s.errors == count_action(self.events@, "ERROR"@)
                &&& s.warnings == count_action(self.events@, "WARNING"@)
            },
    {
        let file_size = match file_size {
            None => {
                return LogStats::default();
            },
            Some(z) => z,
        };
        let es = &self.events;
        let mut installs: usize = 0;
        let mut removes: usize = 0;
        let mut uses: usize = 0;
        let mut errors: usize = 0;
        let mut warnings: usize = 0;
        let mut i: usize = 0;
        while i < es.len()
            invariant
                i <= es@.len(),
                installs == count_action(es@.take(i as int), "INSTALL"@),
                removes == count_action(es@.take(i as int), "REMOVE"@),
                uses == count_action(es@.take(i as int), "USE"@),
                errors == count_action(es@.take(i as int), "ERROR"@),
                warnings == count_action(es@.take(i as int), "WARNING"@),
                installs <= i && removes <= i && uses <= i && errors <= i && warnings <= i,
            decreases es@.len() - i,
        {
            assert(es@.take(i + 1).drop_last() =~= es@.take(i as int));
            assert(es@.take(i + 1).last() == es@[i as int]);
            let e = &es[i];
            if action_is(e, "INSTALL") {
                installs = installs + 1;
            }
            if action_is(e, "REMOVE") {
                removes = removes + 1;
            }
            if action_is(e, "USE") {
                uses = uses + 1;
            }
            if action_is(e, "ERROR") {
                errors = errors + 1;
            }
            if action_is(e, "WARNING") {
                warnings = warnings + 1;
            }
            i = i + 1;
        }
        assert(es@.take(es@.len() as int) =~= es@);
        LogStats { file_size, total_events: es.len(), installs, removes, uses, errors, warnings }
    }

    /// The event recording `action` on `package` at `now`, by the process `pid` of
    /// `user` (or "unknown" when the user is not known), with `details`.
    pub fn log_action(
        &self,
        action: LogAction,
        package: &str,
        details: Option<String>,
        pid: u32,
        user: Option<String>,
        now: i64,
    ) -> (e: PackageEvent)
        ensures
            action_event(e, action, package@, crate::models::opt_view(details), pid, crate::models::opt_view(user), now),
    {
        let user = match user {
            Some(u) => u,
            None => owned("unknown"),
        };
        PackageEvent {
            timestamp: now,
            package: owned(package),
            action: action.to_string(),
            source: PackageSource::Unknown,
            details,
            pid: Some(pid),
            user: Some(user),
        }
    }

    /// The `INFO` event for the tracker with `message`.
    pub fn info(&self, message: &str, pid: u32, user: Option<String>, now: i64) -> (e: PackageEvent)
        ensures
            action_event(e, LogAction::Info, "pkgtrace"@, Some(json_string_member("message"@, message@)), pid, crate::models::opt_view(user), now),
    {
        self.log_action(LogAction::Info, "pkgtrace", Some(json_with_string("message", message)), pid, user, now)
    }

    /// The `WARNING` event for the tracker with `message`.
    pub fn warning(&self, message: &str, pid: u32, user: Option<String>, now: i64) -> (e: PackageEvent)
        ensures
            action_event(e, LogAction::Warning, "pkgtrace"@, Some(json_string_member("message"@, message@)), pid, crate::models::opt_view(user), now),
    {
        self.log_action(LogAction::Warning, "pkgtrace", Some(json_with_string("message", message)), pid, user, now)
    }

    /// The `ERROR` event for the tracker with `message`.
    pub fn error(&self, message: &str, pid: u32, user: Option<String>, now: i64) -> (e: PackageEvent)
        ensures
            action_event(e, LogAction::Error, "pkgtrace"@, Some(json_string_member("message"@, message@)), pid, crate::models::opt_view(user), now),
    {
        self.log_action(LogAction::Error, "pkgtrace", Some(json_with_string("message", message)), pid, user, now)
    }

    /// The `INSTALL` event for `package` from `source`.
    pub fn log_install(&self, package: &str, source: &str, pid: u32, user: Option<String>, now: i64) -> (e: PackageEvent)
        ensures
            action_event(e, LogAction::Install, package@, Some(json_string_member("source"@, source@)), pid, crate::models::opt_view(user), now),
    {
        self.log_action(LogAction::Install, package, Some(json_with_string("source", source)), pid, user, now)
    }

    /// The `REMOVE` event for `package` from `source`.
    pub fn log_remove(&self, package: &str, source: &str, pid: u32, user: Option<String>, now: i64) -> (e: PackageEvent)
        ensures
            action_event(e, LogAction::Remove, package@, Some(json_string_member("source"@, source@)), pid, crate::models::opt_view(user), now),
    {
        self.log_action(LogAction::Remove, package, Some(json_with_string("source", source)), pid, user, now)
    }

    /// The `USE` event for `package`.
    pub fn log_use(&self, package: &str, pid: u32, user: Option<String>, now: i64) -> (e: PackageEvent)
        ensures
            action_event(e, LogAction::Use, package@, None, pid, crate::models::opt_view(user), now),
    {
        self.log_action(LogAction::Use, package, None, pid, user, now)
    }

    /// The `SCAN` event for the tracker, with the number of packages found.
    pub fn log_scan(&self, count: usize, pid: u32, user: Option<String>, now: i64) -> (e: PackageEvent)
        ensures
            action_event(e, LogAction::Scan, "pkgtrace"@, Some(json_number_member("packages_found"@, count as u64)), pid, crate::models::opt_view(user), now),
    {
        self.log_action(LogAction::Scan, "pkgtrace", Some(json_with_number("packages_found", count as u64)), pid, user, now)
    }
}

} // verus!
