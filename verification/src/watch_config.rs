//! Watched trees: what is kept of each, when one is due, and where that is kept.

use vstd::prelude::*;
use vstd::string::StringExecFns;
use vstd::utf8;
use crate::digest;
use crate::path;
use crate::text;

verus! {

/// The name of the file that holds the watched trees.
pub const WATCH_CONFIG_FILENAME: &'static str = "dream-watch.json";

/// How many hours lie between two looks at a tree unless it says otherwise.
pub const DEFAULT_WATCH_INTERVAL_HOURS: u64 = 48;

/// The version of a file that does not give one.
pub const DEFAULT_VERSION: u32 = 1;

/// The directory below the home directory that holds the configuration.
pub const STATE_DIRNAME: &'static str = ".crabcode";

pub const HOUR_MS: u64 = 3_600_000;

/// How many bytes of a digest name a watched tree.
pub const WATCH_ID_BYTES: usize = 8;

/// The watched trees.
#[derive(Debug, Clone)]
pub struct WatchConfig {
    pub version: u32,
    pub targets: Vec<WatchTarget>,
}

impl Default for WatchConfig {
    fn default() -> (r: Self)
        ensures
            r.version == DEFAULT_VERSION,
            r.version == 1,
            r.targets@.len() == 0,
    {
        WatchConfig { version: DEFAULT_VERSION, targets: Vec::new() }
    }
}

/// One watched tree.
#[derive(Debug, Clone)]
pub struct WatchTarget {
    pub id: String,
    pub label: Option<String>,
    pub path: String,
    pub memory_dir: String,
    pub project_state_dir: String,
    pub interval_hours: u64,
    pub focus: Option<String>,
    pub enabled: bool,
    pub last_run_ms: Option<u64>,
    pub last_status: Option<String>,
}

/// How many milliseconds lie between two looks at a tree: an hour at least, and no more than a number can
/// hold.
pub open spec fn interval_ms(hours: u64) -> int {
    let h = if hours == 0 {
        1
    } else {
        hours as int
    };
    if h * HOUR_MS > u64::MAX {
        u64::MAX as int
    } else {
        h * HOUR_MS
    }
}

/// The time from `last` to `now`; none where the clock went back.
pub open spec fn elapsed_ms(now_ms: u64, last_ms: u64) -> int {
    if now_ms < last_ms {
        0
    } else {
        now_ms - last_ms
    }
}

impl WatchTarget {
    /// Whether the tree is due for a look.
    pub open spec fn due(self, now_ms: u64) -> bool {
        &&& self.enabled
        &&& match self.last_run_ms {
            None => true,
            Some(last) => last == 0 || elapsed_ms(now_ms, last) >= interval_ms(self.interval_hours),
        }
    }

    /// See [`WatchTarget::due`].
    pub fn is_due(&self, now_ms: u64) -> (r: bool)
        ensures
            r == self.due(now_ms),
    {
        if !self.enabled {
            return false;
        }
        match self.last_run_ms {
            None => true,
            Some(last) => {
                if last == 0 {
                    return true;
                }
                let hours: u64 = if self.interval_hours == 0 {
                    1
                } else {
                    self.interval_hours
                };
                let interval: u64 = match hours.checked_mul(HOUR_MS) {
                    Some(ms) => ms,
                    None => u64::MAX,
                };
                let elapsed: u64 = if now_ms < last {
                    0
                } else {
                    now_ms - last
                };
                elapsed >= interval
            },
        }
    }
}

/// A tree that is due stays due until it is looked at, and one that was just looked at is not due.
pub proof fn due_trees_stay_due(t: WatchTarget, now_ms: u64, later_ms: u64)
    requires
        now_ms <= later_ms,
    ensures
        t.due(now_ms) ==> t.due(later_ms),
        !t.enabled ==> !t.due(now_ms),
        now_ms != 0 ==> !(WatchTarget { last_run_ms: Some(now_ms), ..t }).due(now_ms),
{
    let h = if t.interval_hours == 0 {
        1
    } else {
        t.interval_hours as int
    };
    assert(h * HOUR_MS >= 1) by (nonlinear_arith)
        requires
            h >= 1,
    ;
}

/// Where the watched trees are kept.
pub fn watch_config_path(base_dir: &str) -> (r: String)
    ensures
        r@ == path::under(base_dir@, WATCH_CONFIG_FILENAME@),
        r@ == path::under(base_dir@, "dream-watch.json"@),
{
    path::child(base_dir, WATCH_CONFIG_FILENAME)
}

/// What the name of a new tree is derived from.
pub open spec fn watch_seed(now_ns: u128, pid: u32, count: u64, entropy_hint: Seq<char>) -> Seq<char> {
    text::decimal(now_ns as nat) + ":"@ + text::decimal(pid as nat) + ":"@ + text::decimal(
        count as nat,
    ) + ":"@ + entropy_hint
}

/// A name for a new tree: the beginning of a digest of the time, the process, a count and a hint, in
/// hexadecimal.
pub fn generate_watch_id(now_ns: u128, pid: u32, count: u64, entropy_hint: &str) -> (r: String)
    ensures
        r@ == text::hex(
            digest::sha256_of(
                utf8::encode_utf8(watch_seed(now_ns, pid, count, entropy_hint@)),
            ).take(WATCH_ID_BYTES as int),
        ),
        r@.len() == 2 * WATCH_ID_BYTES,
        r@.len() == 16,
        forall|i: int| 0 <= i < r@.len() ==> text::is_ascii_hex(#[trigger] r@[i]),
{
    let mut seed = text::wide_decimal_of(now_ns);
    seed.append(":");
    let p = text::decimal_of(pid as u64);
    seed.append(p.as_str());
    seed.append(":");
    let c = text::decimal_of(count);
    seed.append(c.as_str());
    seed.append(":");
    seed.append(entropy_hint);
    let d = digest::sha256(seed.as_str().as_bytes());
    proof {
        text::lemma_hex(d@.take(WATCH_ID_BYTES as int));
    }
    text::hex_of(&d, WATCH_ID_BYTES)
}

/// A setting, unless it is absent or blank.
pub open spec fn setting(v: Option<Seq<char>>) -> Option<Seq<char>> {
    match v {
        Some(s) => if text::is_blank(s) {
            None
        } else {
            Some(s)
        },
        None => None,
    }
}

/// The directory of the configuration: the configured one as it is, or a directory below the configured home,
/// or one below the home of the user, or one below the working directory.
pub open spec fn base_dir(
    config_dir: Option<Seq<char>>,
    home_base: Option<Seq<char>>,
    os_home: Option<Seq<char>>,
) -> Seq<char> {
    match setting(config_dir) {
        Some(dir) => dir,
        None => match setting(home_base) {
            Some(home) => path::under(home, STATE_DIRNAME@),
            None => match os_home {
                Some(home) => if home.len() == 0 {
                    STATE_DIRNAME@
                } else {
                    path::under(home, STATE_DIRNAME@)
                },
                None => STATE_DIRNAME@,
            },
        },
    }
}

/// A setting, unless it is absent or blank.
pub fn non_empty_env(value: Option<String>) -> (r: Option<String>)
    ensures
        text::opt_view(r) == setting(text::opt_view(value)),
{
    match value {
        Some(s) => if text::blank(s.as_str()) {
            None
        } else {
            Some(s)
        },
        None => None,
    }
}

/// See [`base_dir`].
pub fn resolve_base_dir(
    config_dir: Option<String>,
    home_base: Option<String>,
    os_home: Option<String>,
) -> (r: String)
    ensures
        r@ == base_dir(
            text::opt_view(config_dir),
            text::opt_view(home_base),
            text::opt_view(os_home),
        ),
{
    if let Some(dir) = non_empty_env(config_dir) {
        return dir;
    }
    if let Some(home) = non_empty_env(home_base) {
        return path::child(home.as_str(), STATE_DIRNAME);
    }
    match os_home {
        Some(home) => if home.as_str().is_empty() {
            STATE_DIRNAME.to_owned()
        } else {
            path::child(home.as_str(), STATE_DIRNAME)
        },
        None => STATE_DIRNAME.to_owned(),
    }
}

// ---------------------------------------------------------------------------
// What watching promises
// ---------------------------------------------------------------------------

/// A tree is due where it is enabled and was never looked at, or as many hours ago as it asks for, where none counts as
/// one.
pub proof fn trees_are_due_by_the_hour(t: WatchTarget, now_ms: u64)
    ensures
        t.enabled && (t.last_run_ms is None || t.last_run_ms == Some(0u64)) ==> t.due(now_ms),
        t.enabled ==> (t.last_run_ms matches Some(last) ==> last > 0 && t.interval_hours > 0
            && t.interval_hours * 3_600_000 <= u64::MAX ==> (t.due(now_ms) <==> now_ms >= last
            + t.interval_hours * 3_600_000)),
        t.enabled && t.interval_hours == 0 ==> (t.last_run_ms matches Some(last) ==> last > 0 ==> (
        t.due(now_ms) <==> now_ms >= last + 3_600_000)),
        t.enabled && t.interval_hours * 3_600_000 > u64::MAX ==> (t.last_run_ms matches Some(last)
            ==> last > 0 ==> !t.due(now_ms)),
        !t.enabled ==> !t.due(now_ms),
{
}

/// A directory that is configured is taken as it is; else one below the configured home, or below the home of the user, or
/// below the working directory. What is blank is not configured.
pub proof fn configured_directories_win(
    config_dir: Option<Seq<char>>,
    home_base: Option<Seq<char>>,
    os_home: Option<Seq<char>>,
)
    ensures
        ({
            let dir = base_dir(config_dir, home_base, os_home);
            let configured = config_dir is Some && text::trim(config_dir->0).len() > 0;
            let housed = home_base is Some && text::trim(home_base->0).len() > 0;
            &&& configured ==> dir == config_dir->0
            &&& !configured && housed ==> dir == path::under(home_base->0, ".crabcode"@)
            &&& !configured && !housed && os_home is Some && os_home->0.len() > 0 ==> dir == path::under(
                os_home->0,
                ".crabcode"@,
            )
            &&& !configured && !housed && (os_home is None || os_home->0.len() == 0) ==> dir
                == ".crabcode"@
        }),
{
}

/// The names of two trees are derived from different texts where the counts differ, or the hints do.
pub proof fn watch_seeds_are_distinct(
    now_ns: u128,
    pid: u32,
    m: u64,
    n: u64,
    a: Seq<char>,
    b: Seq<char>,
)
    ensures
        m != n ==> watch_seed(now_ns, pid, m, a) != watch_seed(now_ns, pid, n, a),
        a != b ==> watch_seed(now_ns, pid, m, a) != watch_seed(now_ns, pid, m, b),
{
    let head = text::decimal(now_ns as nat) + ":"@ + text::decimal(pid as nat) + ":"@;
    let dm = text::decimal(m as nat);
    let dn = text::decimal(n as nat);
    let s = watch_seed(now_ns, pid, m, a);
    let t = watch_seed(now_ns, pid, n, a);
    let u = watch_seed(now_ns, pid, m, b);
    assert(s =~= head + dm + ":"@ + a);
    assert(t =~= head + dn + ":"@ + a);
    assert(u =~= head + dm + ":"@ + b);
    assert(s.len() == head.len() + dm.len() + ":"@.len() + a.len());
    assert(t.len() == head.len() + dn.len() + ":"@.len() + a.len());
    assert(u.len() == head.len() + dm.len() + ":"@.len() + b.len());
    if s == t {
        assert(dm.len() == dn.len());
        assert(dm =~= s.subrange(head.len() as int, (head.len() + dm.len()) as int));
        assert(dn =~= t.subrange(head.len() as int, (head.len() + dn.len()) as int));
        crate::tier::lemma_decimal_injective(m as nat, n as nat);
    }
    if s == u {
        assert(a.len() == b.len());
        assert(a =~= s.skip(s.len() - a.len()));
        assert(b =~= u.skip(u.len() - b.len()));
    }
}

} // verus!
