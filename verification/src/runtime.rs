//! The runtime contract an extension implements.
//!
//! Lifecycle, health, capability and observability hooks, and the
//! format of extension identifiers.

use vstd::prelude::*;
use vstd::string::StrSliceExecFns;
use vstd::string::StringExecFns;
use std::collections::HashMap;
use std::collections::HashSet;

verus! {

/// Health levels an extension reports.
#[derive(Clone, Copy, Debug, PartialEq, Eq, Structural)]
pub enum HealthLevel {
    Healthy,
    Degraded,
    Unhealthy,
}

/// A health check result.
#[derive(Clone, Debug)]
pub struct HealthStatus {
    pub level: HealthLevel,
    pub message: String,
    pub check_duration_ms: u64,
}

impl HealthStatus {
    /// A healthy report carrying `message`.
    pub fn healthy(message: &str) -> (r: Self)
        ensures
            r.level == HealthLevel::Healthy,
            r.message@ == message@,
            r.check_duration_ms == 0,
    {
        HealthStatus {
            level: HealthLevel::Healthy,
            message: String::from_str(message),
            check_duration_ms: 0,
        }
    }

    /// A degraded report carrying `message`.
    pub fn degraded(message: &str) -> (r: Self)
        ensures
            r.level == HealthLevel::Degraded,
            r.message@ == message@,
            r.check_duration_ms == 0,
    {
        HealthStatus {
            level: HealthLevel::Degraded,
            message: String::from_str(message),
            check_duration_ms: 0,
        }
    }

    /// An unhealthy report carrying `message`.
    pub fn unhealthy(message: &str) -> (r: Self)
        ensures
            r.level == HealthLevel::Unhealthy,
            r.message@ == message@,
            r.check_duration_ms == 0,
    {
        HealthStatus {
            level: HealthLevel::Unhealthy,
            message: String::from_str(message),
            check_duration_ms: 0,
        }
    }
}

/// Configuration handed to an extension during initialization.
#[derive(Clone, Debug)]
pub struct ExtensionConfig {
    pub debug: bool,
    pub timeout_init_ms: u64,
    pub timeout_operation_ms: u64,
    pub timeout_shutdown_ms: u64,
    pub metadata: HashMap<String, String>,
}

/// Log severities.
#[derive(Clone, Copy, Debug, PartialEq, Eq, Structural)]
pub enum LogLevel {
    Debug,
    Info,
    Warn,
    Error,
}

/// Logging configuration of an extension.
#[derive(Clone, Debug)]
pub struct LogConfig {
    pub level: LogLevel,
    pub structured: bool,
    pub namespace: String,
}

/// Kinds of metrics.
#[derive(Clone, Copy, Debug, PartialEq, Eq, Structural)]
pub enum MetricType {
    Counter,
    Gauge,
    Histogram,
}

/// One metric an extension exposes.
#[derive(Clone, Debug)]
pub struct MetricDefinition {
    pub name: String,
    pub metric_type: MetricType,
    pub description: String,
    pub labels: Vec<String>,
}

/// Errors of extension operations.
#[derive(Debug)]
pub enum ExtensionError {
    InitializationFailed(String),
    Timeout(u64),
    InvalidConfig(String),
    DependencyMissing(String),
    Other(String),
}

impl ExtensionError {
    /// A short description of the error kind.
    pub fn kind(&self) -> (r: &'static str)
        ensures
            (self is Timeout) ==> r@ == "timeout"@,
    {
        match self {
            ExtensionError::InitializationFailed(_) => "initialization failed",
            ExtensionError::Timeout(_) => "timeout",
            ExtensionError::InvalidConfig(_) => "configuration invalid",
            ExtensionError::DependencyMissing(_) => "dependency not satisfied",
            ExtensionError::Other(_) => "extension error",
        }
    }
}

/// The outcome of registering an extension.
#[derive(Clone, Debug)]
pub struct RegistrationResult {
    pub success: bool,
    pub extension_id: String,
    pub message: String,
    pub warnings: Vec<String>,
}

/// The runtime contract all extensions implement: lifecycle,
/// capabilities and observability.  Implementations live with their
/// extensions, outside this crate.
pub trait ExtensionRuntime {
    /// The unique id, in `namespace:category:name` form.
    fn extension_id(&self) -> &str;

    /// The extension's category.
    fn category(&self) -> crate::extension::ExtensionCategory;

    /// Initializes with the given configuration; idempotent.
    fn initialize(&mut self, config: ExtensionConfig) -> Result<(), ExtensionError>;

    /// Graceful shutdown releasing all resources.
    fn dispose(&mut self) -> Result<(), ExtensionError>;

    /// A prompt health check.
    fn health(&self) -> HealthStatus;

    /// The capabilities this extension provides.
    fn capabilities(&self) -> HashSet<String>;

    /// The capabilities this extension requires from others.
    fn dependencies(&self) -> HashSet<String>;

    /// The metrics this extension exposes.
    fn metrics(&self) -> Vec<MetricDefinition>;

    /// How this extension logs.
    fn log_config(&self) -> LogConfig;
}

/// One lowercase-alphanumeric name part: a letter first, then letters,
/// digits or hyphens.
pub open spec fn valid_id_part(s: Seq<char>) -> bool {
    &&& s.len() > 0
    &&& 'a' <= s[0] <= 'z'
    &&& forall|i: int|
        0 < i < s.len() ==> ('a' <= #[trigger] s[i] <= 'z' || '0' <= s[i] <= '9' || s[i] == '-')
}

/// A valid extension id: exactly three valid parts joined by colons.
pub open spec fn valid_extension_id_spec(s: Seq<char>) -> bool {
    exists|i: int, j: int|
        {
            &&& 0 <= i < j < s.len()
            &&& s[i] == ':'
            &&& s[j] == ':'
            &&& valid_id_part(s.take(i))
            &&& valid_id_part(s.subrange(i + 1, j))
            &&& valid_id_part(s.skip(j + 1))
            &&& forall|k: int| 0 <= k < s.len() && k != i && k != j ==> s[k] != ':'
        }
}

/// Checks the `namespace:category:name` format of an extension id.
pub fn validate_extension_id(id: &str) -> (r: bool)
    ensures
        r == valid_extension_id_spec(id@),
{
    let n = id.unicode_len();
    // Locate the colons; more or fewer than two is invalid.
    let mut first: Option<usize> = None;
    let mut second: Option<usize> = None;
    let mut extra = false;
    let mut i: usize = 0;
    while i < n
        invariant
            0 <= i <= n,
            n == id@.len(),
            match (first, second) {
                (None, None) => !extra && forall|k: int| 0 <= k < i ==> id@[k] != ':',
                (Some(f), None) => {
                    &&& !extra
                    &&& 0 <= f < i
                    &&& id@[f as int] == ':'
                    &&& forall|k: int| 0 <= k < i && k != f ==> id@[k] != ':'
                },
                (Some(f), Some(s)) => {
                    &&& 0 <= f < s < i
                    &&& id@[f as int] == ':'
                    &&& id@[s as int] == ':'
                    &&& (extra <==> exists|k: int|
                        0 <= k < i && k != f && k != s && id@[k] == ':')
                },
                (None, Some(_)) => false,
            },
        decreases n - i,
    {
        if id.get_char(i) == ':' {
            if first.is_none() {
                first = Some(i);
            } else if second.is_none() {
                second = Some(i);
            } else {
                extra = true;
                proof {
                    assert(id@[i as int] == ':');
                }
            }
        }
        i = i + 1;
    }
    let f = match first {
        Some(f) => f,
        None => {
            proof {
                if valid_extension_id_spec(id@) {
                    let (p, q) = choose|p: int, q: int|
                        0 <= p < q < id@.len() && id@[p] == ':' && id@[q] == ':' && valid_id_part(
                            id@.take(p),
                        ) && valid_id_part(id@.subrange(p + 1, q)) && valid_id_part(
                            id@.skip(q + 1),
                        ) && forall|k: int|
                            0 <= k < id@.len() && k != p && k != q ==> id@[k] != ':';
                    assert(id@[p] == ':');
                }
            }
            return false;
        },
    };
    let s = match second {
        Some(s) => s,
        None => {
            proof {
                if valid_extension_id_spec(id@) {
                    let (p, q) = choose|p: int, q: int|
                        0 <= p < q < id@.len() && id@[p] == ':' && id@[q] == ':' && valid_id_part(
                            id@.take(p),
                        ) && valid_id_part(id@.subrange(p + 1, q)) && valid_id_part(
                            id@.skip(q + 1),
                        ) && forall|k: int|
                            0 <= k < id@.len() && k != p && k != q ==> id@[k] != ':';
                    assert(p == f);
                    assert(id@[q] == ':');
                }
            }
            return false;
        },
    };
    if extra {
        proof {
            if valid_extension_id_spec(id@) {
                let (p, q) = choose|p: int, q: int|
                    0 <= p < q < id@.len() && id@[p] == ':' && id@[q] == ':' && valid_id_part(
                        id@.take(p),
                    ) && valid_id_part(id@.subrange(p + 1, q)) && valid_id_part(id@.skip(q + 1))
                        && forall|k: int|
                        0 <= k < id@.len() && k != p && k != q ==> id@[k] != ':';
                assert(p == f && q == s);
                let k = choose|k: int| 0 <= k < n && k != f && k != s && id@[k] == ':';
                assert(false);
            }
        }
        return false;
    }
    let p1 = check_part(id, 0, f);
    let p2 = check_part(id, f + 1, s);
    let p3 = check_part(id, s + 1, n);
    proof {
        assert(id@.take(f as int) =~= id@.subrange(0, f as int));
        assert(id@.skip(s + 1) =~= id@.subrange(s + 1, n as int));
        if p1 && p2 && p3 {
            assert(valid_extension_id_spec(id@)) by {
                assert(id@[f as int] == ':' && id@[s as int] == ':');
                assert(forall|k: int|
                    0 <= k < id@.len() && k != f && k != s ==> id@[k] != ':');
            }
        } else {
            if valid_extension_id_spec(id@) {
                let (p, q) = choose|p: int, q: int|
                    0 <= p < q < id@.len() && id@[p] == ':' && id@[q] == ':' && valid_id_part(
                        id@.take(p),
                    ) && valid_id_part(id@.subrange(p + 1, q)) && valid_id_part(id@.skip(q + 1))
                        && forall|k: int|
                        0 <= k < id@.len() && k != p && k != q ==> id@[k] != ':';
                assert(p == f && q == s);
            }
        }
    }
    p1 && p2 && p3
}

/// Checks one name part, the characters of `id` from `from` to `to`.
fn check_part(id: &str, from: usize, to: usize) -> (r: bool)
    requires
        from <= to <= id@.len(),
    ensures
        r == valid_id_part(id@.subrange(from as int, to as int)),
{
    let ghost part = id@.subrange(from as int, to as int);
    if from == to {
        return false;
    }
    let c0 = id.get_char(from);
    if !('a' <= c0 && c0 <= 'z') {
        proof {
            assert(part[0] == id@[from as int]);
        }
        return false;
    }
    let mut i: usize = from + 1;
    while i < to
        invariant
            from < i <= to <= id@.len(),
            part == id@.subrange(from as int, to as int),
            part.len() == to - from,
            'a' <= part[0] <= 'z',
            forall|k: int|
                0 < k < i - from ==> ('a' <= #[trigger] part[k] <= 'z' || '0' <= part[k] <= '9'
                    || part[k] == '-'),
        decreases to - i,
    {
        let c = id.get_char(i);
        if !(('a' <= c && c <= 'z') || ('0' <= c && c <= '9') || c == '-') {
            proof {
                assert(part[i - from] == id@[i as int]);
            }
            return false;
        }
        proof {
            assert(part[i - from] == id@[i as int]);
        }
        i = i + 1;
    }
    true
}

} // verus!
