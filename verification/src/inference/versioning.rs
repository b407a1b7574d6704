//! Versions of models, their health, and what to fall back to.

use crate::error::{InferenceError, InferenceResult};
use crate::names::NamedMap;
use crate::number::Double;
use crate::text::{chars_of, decimal, find_char, join, join3, parse_u32};
use crate::time::{now, rfc3339_now, Span};
use std::time::Instant;
use vstd::prelude::*;
use vstd::string::*;

verus! {

/// The arithmetic on latencies that statistics need. Nothing is required of
/// what the operations return.
pub trait LatencyMath {
    /// `a + b`.
    fn sum(&self, a: Double, b: Double) -> Double;

    /// `total / count`.
    fn mean(&self, total: Double, count: usize) -> Double;

    /// `part / whole`.
    fn ratio(&self, part: usize, whole: usize) -> Double;

    /// A value written with two decimals.
    fn two_decimals(&self, value: Double) -> String;
}

/// A semantic version.
#[derive(Debug, Clone, Copy, PartialEq, Eq, PartialOrd, Ord, Structural)]
pub struct ModelVersion {
    /// Changes with breaking changes.
    pub major: u32,
    /// Changes with new features.
    pub minor: u32,
    /// Changes with bug fixes.
    pub patch: u32,
}

/// What a text reads as: a version, or why it is none.
pub open spec fn version_of(s: Seq<char>) -> Result<ModelVersion, Seq<char>> {
    let i = crate::text::first_char(s, '.', 0);
    let j = crate::text::first_char(s, '.', i + 1);
    let k = crate::text::first_char(s, '.', j + 1);
    if i < s.len() && j < s.len() && k == s.len() {
        let major = s.take(i);
        let minor = s.subrange(i + 1, j);
        let patch = s.skip(j + 1);
        match (
            crate::text::u32_value(major),
            crate::text::u32_value(minor),
            crate::text::u32_value(patch),
        ) {
            (None, _, _) => Err("Invalid major version: "@ + major),
            (_, None, _) => Err("Invalid minor version: "@ + minor),
            (_, _, None) => Err("Invalid patch version: "@ + patch),
            (Some(a), Some(b), Some(c)) => Ok(ModelVersion { major: a, minor: b, patch: c }),
        }
    } else {
        Err("Invalid version format: "@ + s)
    }
}

impl ModelVersion {
    /// The text of a version.
    pub open spec fn text(self) -> Seq<char> {
        crate::text::numeral(self.major as nat) + "."@ + crate::text::numeral(self.minor as nat)
            + "."@ + crate::text::numeral(self.patch as nat)
    }

    /// Whether the version comes before another.
    pub open spec fn before(self, other: Self) -> bool {
        ||| self.major < other.major
        ||| self.major == other.major && self.minor < other.minor
        ||| self.major == other.major && self.minor == other.minor && self.patch < other.patch
    }

    /// A version from its parts.
    pub fn new(major: u32, minor: u32, patch: u32) -> (r: Self)
        ensures
            r == (ModelVersion { major, minor, patch }),
    {
        ModelVersion { major, minor, patch }
    }

    /// Reads a version: three numbers with dots between them.
    pub fn parse(s: &str) -> (r: InferenceResult<Self>)
        ensures
            match version_of(s@) {
                Ok(version) => r == Ok::<Self, InferenceError>(version),
                Err(text) => r matches Err(InferenceError::ForwardError(t)) && t@ == text,
            },
    {
        let chars: Vec<char> = chars_of(s);
        let n: usize = chars.len();
        let all: &[char] = chars.as_slice();
        let i: usize = find_char(all, '.', 0);
        if i == n {
            return Err(InferenceError::ForwardError(join("Invalid version format: ", s)));
        }
        let j: usize = find_char(all, '.', i + 1);
        proof {
            crate::text::first_char_bounds(s@, '.', i + 1);
        }
        if j == n {
            return Err(InferenceError::ForwardError(join("Invalid version format: ", s)));
        }
        if find_char(all, '.', j + 1) != n {
            proof {
                crate::text::first_char_bounds(s@, '.', j + 1);
            }
            return Err(InferenceError::ForwardError(join("Invalid version format: ", s)));
        }
        let major: Option<u32> = parse_u32(vstd::slice::slice_subrange(all, 0, i));
        let minor: Option<u32> = parse_u32(vstd::slice::slice_subrange(all, i + 1, j));
        let patch: Option<u32> = parse_u32(vstd::slice::slice_subrange(all, j + 1, n));
        proof {
            assert(s@.subrange(0, i as int) =~= s@.take(i as int));
            assert(s@.subrange(j + 1, n as int) =~= s@.skip(j + 1));
        }
        match major {
            None => Err(
                InferenceError::ForwardError(
                    join("Invalid major version: ", s.substring_char(0, i)),
                ),
            ),
            Some(major) => match minor {
                None => Err(
                    InferenceError::ForwardError(
                        join("Invalid minor version: ", s.substring_char(i + 1, j)),
                    ),
                ),
                Some(minor) => match patch {
                    None => Err(
                        InferenceError::ForwardError(
                            join("Invalid patch version: ", s.substring_char(j + 1, n)),
                        ),
                    ),
                    Some(patch) => Ok(ModelVersion { major, minor, patch }),
                },
            },
        }
    }

    /// Whether two versions have the same major number.
    pub fn is_compatible_with(&self, other: &ModelVersion) -> (r: bool)
        ensures
            r == (self.major == other.major),
    {
        self.major == other.major
    }

    /// The text of the version.
    pub fn to_text(&self) -> (r: String)
        ensures
            r@ == self.text(),
    {
        let mut out: String = decimal(self.major as u64);
        out.append(".");
        out.append(decimal(self.minor as u64).as_str());
        out.append(".");
        out.append(decimal(self.patch as u64).as_str());
        out
    }

    /// Whether the version comes before another.
    pub fn precedes(&self, other: &ModelVersion) -> (r: bool)
        ensures
            r == self.before(*other),
    {
        self.major < other.major || (self.major == other.major && (self.minor < other.minor || (
        self.minor == other.minor && self.patch < other.patch)))
    }
}

/// The text of a version is read back as that version.
pub proof fn version_round_trip(v: ModelVersion)
    ensures
        version_of(v.text()) == Ok::<ModelVersion, Seq<char>>(v),
{
    reveal_strlit(".");
    let a = crate::text::numeral(v.major as nat);
    let b = crate::text::numeral(v.minor as nat);
    let c = crate::text::numeral(v.patch as nat);
    crate::text::numeral_round_trip(v.major as nat);
    crate::text::numeral_round_trip(v.minor as nat);
    crate::text::numeral_round_trip(v.patch as nat);
    crate::text::u32_round_trip(v.major);
    crate::text::u32_round_trip(v.minor);
    crate::text::u32_round_trip(v.patch);
    let s = v.text();
    let i = a.len() as int;
    let j = i + 1 + b.len();
    let n = s.len() as int;
    assert(n == j + 1 + c.len());
    assert forall|k: int| 0 <= k < i implies #[trigger] s[k] != '.' by {
        assert(s[k] == a[k]);
    }
    assert(s[i] == '.');
    crate::text::first_char_skips(s, '.', 0, i);
    assert forall|k: int| i + 1 <= k < j implies #[trigger] s[k] != '.' by {
        assert(s[k] == b[k - i - 1]);
    }
    assert(s[j] == '.');
    crate::text::first_char_skips(s, '.', i + 1, j);
    assert forall|k: int| j + 1 <= k < n implies #[trigger] s[k] != '.' by {
        assert(s[k] == c[k - j - 1]);
    }
    crate::text::first_char_skips(s, '.', j + 1, n);
    assert(s.take(i) =~= a);
    assert(s.subrange(i + 1, j) =~= b);
    assert(s.skip(j + 1) =~= c);
}

/// Versions are ordered: of two different ones exactly one comes before the
/// other, and what comes before one comes before all that come after it.
pub proof fn versions_are_ordered(a: ModelVersion, b: ModelVersion, c: ModelVersion)
    ensures
        a == b || a.before(b) || b.before(a),
        !(a.before(b) && b.before(a)),
        !a.before(a),
        a.before(b) && b.before(c) ==> a.before(c),
{
}

/// How well a model does.
#[derive(Debug, Clone, Copy, PartialEq, Eq, Structural)]
pub enum HealthStatus {
    /// Well.
    Healthy,
    /// Usable.
    Degraded,
    /// Not to be used.
    Unhealthy,
}

/// The bit pattern of 0.1.
pub const TENTH_BITS: u64 = 0x3fb9_9999_9999_999a;

/// The bit pattern of 1000.0.
pub const THOUSAND_BITS: u64 = 0x408f_4000_0000_0000;

/// How well a model does that has an error rate and an average latency, where
/// the configuration sets the limits of both.
pub open spec fn status_of(
    config: VersioningConfig,
    error_rate: Double,
    latency: Double,
) -> HealthStatus {
    if config.max_error_rate.below(error_rate) {
        HealthStatus::Unhealthy
    } else if config.max_latency_ms.below(latency) {
        HealthStatus::Degraded
    } else {
        HealthStatus::Healthy
    }
}

/// The result of looking at how well a model does.
#[derive(Debug)]
pub struct HealthCheck {
    /// How well it does.
    pub status: HealthStatus,
    /// When it was looked at.
    pub timestamp: Instant,
    /// Average latency in milliseconds.
    pub avg_latency_ms: Double,
    /// Errors per request.
    pub error_rate: Double,
    /// Number of requests.
    pub request_count: usize,
    /// A description.
    pub details: String,
}

impl HealthCheck {
    /// A result without numbers.
    pub fn new(status: HealthStatus) -> (r: Self)
        ensures
            r.status == status,
            r.avg_latency_ms.bits == 0,
            r.error_rate.bits == 0,
            r.request_count == 0,
            r.details@.len() == 0,
    {
        HealthCheck {
            status,
            timestamp: now(),
            avg_latency_ms: Double::zero(),
            error_rate: Double::zero(),
            request_count: 0,
            details: String::new(),
        }
    }

    /// Whether the model can be used.
    pub fn is_usable(&self) -> (r: bool)
        ensures
            r == (self.status != HealthStatus::Unhealthy),
    {
        match self.status {
            HealthStatus::Healthy | HealthStatus::Degraded => true,
            HealthStatus::Unhealthy => false,
        }
    }

    /// Whether two results say the same, whenever they were taken.
    pub open spec fn says_same(&self, other: &Self) -> bool {
        &&& self.status == other.status
        &&& self.avg_latency_ms == other.avg_latency_ms
        &&& self.error_rate == other.error_rate
        &&& self.request_count == other.request_count
        &&& self.details@ == other.details@
    }

    fn copy(&self) -> (r: Self)
        ensures
            r.says_same(self),
            r.timestamp == self.timestamp,
    {
        HealthCheck {
            status: self.status,
            timestamp: self.timestamp,
            avg_latency_ms: self.avg_latency_ms,
            error_rate: self.error_rate,
            request_count: self.request_count,
            details: self.details.clone(),
        }
    }
}

/// What is known of a model version.
pub struct ModelMetadata {
    /// The model.
    pub id: String,
    /// The version.
    pub version: ModelVersion,
    /// The architecture.
    pub architecture: String,
    /// When the description was made.
    pub created_at: String,
    /// A checksum of the model.
    pub checksum: Option<String>,
    /// Further entries.
    pub extra: NamedMap<String>,
}

impl ModelMetadata {
    /// A description made now.
    pub fn new(id: String, version: ModelVersion, architecture: String) -> (r: Self)
        ensures
            r.id == id,
            r.version == version,
            r.architecture == architecture,
            r.checksum is None,
            r.extra.wf(),
            r.extra@ == Map::<Seq<char>, String>::empty(),
    {
        Self::created(id, version, architecture, rfc3339_now())
    }

    /// A description made at a given time.
    pub fn created(
        id: String,
        version: ModelVersion,
        architecture: String,
        created_at: String,
    ) -> (r: Self)
        ensures
            r.id == id,
            r.version == version,
            r.architecture == architecture,
            r.created_at == created_at,
            r.checksum is None,
            r.extra.wf(),
            r.extra@ == Map::<Seq<char>, String>::empty(),
    {
        ModelMetadata {
            id,
            version,
            architecture,
            created_at,
            checksum: None,
            extra: NamedMap::new(),
        }
    }

    /// Sets the checksum.
    pub fn with_checksum(self, checksum: String) -> (r: Self)
        ensures
            r == (ModelMetadata { checksum: Some(checksum), ..self }),
    {
        ModelMetadata { checksum: Some(checksum), ..self }
    }

    /// Sets a further entry.
    pub fn add_metadata(self, key: String, value: String) -> (r: Self)
        requires
            self.extra.wf(),
        ensures
            r.extra.wf(),
            r.extra@ == self.extra@.insert(key@, value),
            r == (ModelMetadata { extra: r.extra, ..self }),
    {
        let mut extra: NamedMap<String> = self.extra;
        let replaced: Option<String> = extra.insert(key, value);
        ModelMetadata { extra, ..self }
    }
}

/// What a model version has done so far.
#[derive(Debug)]
pub struct ModelStats {
    /// Number of requests.
    pub total_requests: usize,
    /// Number of errors.
    pub total_errors: usize,
    /// The sum of the latencies in milliseconds.
    pub total_latency_ms: Double,
    /// The last look at how well the model does.
    pub last_health_check: Option<HealthCheck>,
}

impl Default for ModelStats {
    fn default() -> (r: Self)
        ensures
            r == blank_stats(),
    {
        ModelStats {
            total_requests: 0,
            total_errors: 0,
            total_latency_ms: Double { bits: 0 },
            last_health_check: None,
        }
    }
}

/// The statistics of a model that has done nothing.
pub open spec fn blank_stats() -> ModelStats {
    ModelStats {
        total_requests: 0,
        total_errors: 0,
        total_latency_ms: Double { bits: 0 },
        last_health_check: None,
    }
}

impl ModelStats {
    /// There are no more errors than requests.
    pub open spec fn wf(&self) -> bool {
        self.total_errors <= self.total_requests
    }

    /// Whether `after` is what recording a request makes of the statistics.
    pub open spec fn records<L: LatencyMath>(
        &self,
        l: L,
        latency_ms: Double,
        is_error: bool,
        after: &Self,
    ) -> bool {
        &&& after.total_requests == self.total_requests + 1
        &&& after.total_errors == self.total_errors + if is_error {
            1int
        } else {
            0
        }
        &&& call_ensures(
            L::sum,
            (&l, self.total_latency_ms, latency_ms),
            after.total_latency_ms,
        )
        &&& after.last_health_check == self.last_health_check
    }

    /// Records a request that succeeded.
    pub fn record_success<L: LatencyMath>(&mut self, l: &L, latency_ms: Double)
        requires
            old(self).wf(),
            old(self).total_requests < usize::MAX,
        ensures
            final(self).wf(),
            old(self).records(*l, latency_ms, false, final(self)),
    {
        self.total_requests += 1;
        self.total_latency_ms = l.sum(self.total_latency_ms, latency_ms);
    }

    /// Records a request that failed.
    pub fn record_error<L: LatencyMath>(&mut self, l: &L, latency_ms: Double)
        requires
            old(self).wf(),
            old(self).total_requests < usize::MAX,
        ensures
            final(self).wf(),
            old(self).records(*l, latency_ms, true, final(self)),
    {
        self.total_requests += 1;
        self.total_errors += 1;
        self.total_latency_ms = l.sum(self.total_latency_ms, latency_ms);
    }

    /// Whether `ms` is the average latency.
    pub open spec fn is_latency<L: LatencyMath>(&self, l: L, ms: Double) -> bool {
        if self.total_requests == 0 {
            ms.bits == 0
        } else {
            call_ensures(L::mean, (&l, self.total_latency_ms, self.total_requests), ms)
        }
    }

    /// Whether `rate` is the error rate.
    pub open spec fn is_rate<L: LatencyMath>(&self, l: L, rate: Double) -> bool {
        if self.total_requests == 0 {
            rate.bits == 0
        } else {
            call_ensures(L::ratio, (&l, self.total_errors, self.total_requests), rate)
        }
    }

    /// The average latency; zero without requests.
    pub fn avg_latency_ms<L: LatencyMath>(&self, l: &L) -> (r: Double)
        ensures
            self.is_latency(*l, r),
    {
        if self.total_requests == 0 {
            Double::zero()
        } else {
            l.mean(self.total_latency_ms, self.total_requests)
        }
    }

    /// The error rate; zero without requests.
    pub fn error_rate<L: LatencyMath>(&self, l: &L) -> (r: Double)
        ensures
            self.is_rate(*l, r),
    {
        if self.total_requests == 0 {
            Double::zero()
        } else {
            l.ratio(self.total_errors, self.total_requests)
        }
    }

    /// Whether `check` is what the statistics say of how well the model does.
    pub open spec fn is_checked<L: LatencyMath>(
        &self,
        l: L,
        config: VersioningConfig,
        check: HealthCheck,
    ) -> bool {
        &&& self.is_rate(l, check.error_rate)
        &&& self.is_latency(l, check.avg_latency_ms)
        &&& check.status == status_of(config, check.error_rate, check.avg_latency_ms)
        &&& check.request_count == self.total_requests
        &&& exists|ms: String|
            {
                &&& #[trigger] call_ensures(L::two_decimals, (&l, check.avg_latency_ms), ms)
                &&& check.details@ == "Requests: "@ + crate::text::numeral(
                    self.total_requests as nat,
                ) + ", Errors: "@ + crate::text::numeral(self.total_errors as nat)
                    + ", Avg Latency: "@ + ms@ + "ms"@
            }
    }

    /// Looks at how well the model does, by the limits of a configuration.
    pub fn to_health_check<L: LatencyMath>(&self, l: &L, config: &VersioningConfig) -> (r:
        HealthCheck)
        ensures
            self.is_checked(*l, *config, r),
    {
        let error_rate: Double = self.error_rate(l);
        let avg_latency_ms: Double = self.avg_latency_ms(l);
        let status: HealthStatus = if config.max_error_rate.less(error_rate) {
            HealthStatus::Unhealthy
        } else if config.max_latency_ms.less(avg_latency_ms) {
            HealthStatus::Degraded
        } else {
            HealthStatus::Healthy
        };
        let ms: String = l.two_decimals(avg_latency_ms);
        let mut details: String = join(
            "Requests: ",
            decimal(self.total_requests as u64).as_str(),
        );
        details.append(", Errors: ");
        details.append(decimal(self.total_errors as u64).as_str());
        details.append(", Avg Latency: ");
        details.append(ms.as_str());
        details.append("ms");
        HealthCheck {
            status,
            timestamp: now(),
            avg_latency_ms,
            error_rate,
            request_count: self.total_requests,
            details,
        }
    }
}

/// What to use when a model fails.
#[derive(Debug, Clone, Copy, PartialEq, Eq, Structural)]
pub enum FallbackStrategy {
    /// The next lower version.
    NextVersion,
    /// The newest stable version before the current one.
    PreviousStable,
    /// A version that is named elsewhere.
    SpecificVersion,
    /// Nothing.
    NoFallback,
}

/// Configuration of versioning.
#[derive(Debug, Clone, Copy, PartialEq, Eq, Structural)]
pub struct VersioningConfig {
    /// What to use when a model fails.
    pub fallback_strategy: FallbackStrategy,
    /// How often models are looked at.
    pub health_check_interval: Span,
    /// The error rate above which a model is unhealthy.
    pub max_error_rate: Double,
    /// The latency above which a model is degraded.
    pub max_latency_ms: Double,
    /// Whether models recover by themselves.
    pub auto_recovery: bool,
}

impl Default for VersioningConfig {
    fn default() -> (r: Self)
        ensures
            r == (VersioningConfig {
                fallback_strategy: FallbackStrategy::PreviousStable,
                health_check_interval: Span { secs: 60, nanos: 0 },
                max_error_rate: Double { bits: TENTH_BITS },
                max_latency_ms: Double { bits: THOUSAND_BITS },
                auto_recovery: true,
            }),
    {
        VersioningConfig {
            fallback_strategy: FallbackStrategy::PreviousStable,
            health_check_interval: Span { secs: 60, nanos: 0 },
            max_error_rate: Double { bits: TENTH_BITS },
            max_latency_ms: Double { bits: THOUSAND_BITS },
            auto_recovery: true,
        }
    }
}

/// A registered version.
pub struct VersionedModelEntry {
    pub metadata: ModelMetadata,
    pub stats: ModelStats,
    pub is_stable: bool,
}

/// Whether versions stand in descending order, none of them twice.
pub open spec fn descending(entries: Seq<VersionedModelEntry>) -> bool {
    forall|i: int, j: int|
        0 <= i < j < entries.len() ==> (#[trigger] entries[j]).metadata.version.before(
            (#[trigger] entries[i]).metadata.version,
        )
}

/// The place of a version among entries, or their number.
pub open spec fn place_of(entries: Seq<VersionedModelEntry>, v: ModelVersion, from: int) -> int
    decreases entries.len() - from,
{
    if from >= entries.len() {
        entries.len() as int
    } else if entries[from].metadata.version == v {
        from
    } else {
        place_of(entries, v, from + 1)
    }
}

/// Whether a version is among entries.
pub open spec fn has_version(entries: Seq<VersionedModelEntry>, v: ModelVersion) -> bool {
    exists|i: int| 0 <= i < entries.len() && (#[trigger] entries[i]).metadata.version == v
}

fn find_version(entries: &[VersionedModelEntry], version: &ModelVersion) -> (r: Option<usize>)
    ensures
        match r {
            Some(i) => i < entries@.len() && i == place_of(entries@, *version, 0)
                && entries@[i as int].metadata.version == *version,
            None => !has_version(entries@, *version) && place_of(entries@, *version, 0)
                == entries@.len(),
        },
{
    let mut i: usize = 0;
    while i < entries.len()
        invariant
            i <= entries@.len(),
            place_of(entries@, *version, 0) == place_of(entries@, *version, i as int),
            forall|k: int| 0 <= k < i ==> (#[trigger] entries@[k]).metadata.version != *version,
        decreases entries@.len() - i,
    {
        if entries[i].metadata.version == *version {
            return Some(i);
        }
        i += 1;
    }
    None
}

/// Whether an entry can stand in for the current version.
pub open spec fn can_replace(
    strategy: FallbackStrategy,
    entry: VersionedModelEntry,
    current: ModelVersion,
) -> bool {
    match strategy {
        FallbackStrategy::NextVersion => entry.metadata.version.before(current),
        FallbackStrategy::PreviousStable => entry.is_stable && entry.metadata.version.before(
            current,
        ),
        FallbackStrategy::SpecificVersion => false,
        FallbackStrategy::NoFallback => false,
    }
}

/// Keeps the versions of models, which one is active, and what they have done.
pub struct ModelVersionManager {
    models: NamedMap<Vec<VersionedModelEntry>>,
    active_versions: NamedMap<ModelVersion>,
    config: VersioningConfig,
}

impl ModelVersionManager {
    /// The registered versions of a model, newest first.
    pub closed spec fn versions(&self, id: Seq<char>) -> Seq<VersionedModelEntry> {
        if self.models@.contains_key(id) {
            self.models@[id]@
        } else {
            Seq::empty()
        }
    }

    /// Whether a model has been registered.
    pub closed spec fn knows(&self, id: Seq<char>) -> bool {
        self.models@.contains_key(id)
    }

    /// The active version of a model.
    pub closed spec fn active(&self, id: Seq<char>) -> Option<ModelVersion> {
        if self.active_versions@.contains_key(id) {
            Some(self.active_versions@[id])
        } else {
            None
        }
    }

    /// The configuration.
    pub closed spec fn settings(&self) -> VersioningConfig {
        self.config
    }

    /// The versions of every model descend, each is registered under its own
    /// model, and an active version is a registered one.
    pub closed spec fn wf(&self) -> bool {
        &&& self.models.wf()
        &&& self.active_versions.wf()
        &&& forall|id: Seq<char>| descending(#[trigger] self.versions(id))
        &&& forall|id: Seq<char>|
            (#[trigger] self.active(id)) is Some ==> has_version(
                self.versions(id),
                self.active(id)->0,
            )
        &&& forall|id: Seq<char>, i: int|
            0 <= i < self.versions(id).len() ==> (#[trigger] self.versions(id)[i]).stats.wf()
    }

    /// What a consistent manager keeps.
    pub proof fn keeps(&self, id: Seq<char>)
        requires
            self.wf(),
        ensures
            descending(self.versions(id)),
            self.active(id) is Some ==> has_version(self.versions(id), self.active(id)->0),
            !self.knows(id) ==> self.versions(id).len() == 0,
    {
    }

    /// A manager without models.
    pub fn new(config: VersioningConfig) -> (r: Self)
        ensures
            r.wf(),
            r.settings() == config,
            forall|id: Seq<char>| !(#[trigger] r.knows(id)),
            forall|id: Seq<char>| (#[trigger] r.versions(id)).len() == 0,
            forall|id: Seq<char>| (#[trigger] r.active(id)) is None,
    {
        ModelVersionManager { models: NamedMap::new(), active_versions: NamedMap::new(), config }
    }

    /// Registers a version of a model. A version that is there already is
    /// refused.
    pub fn register_version(&mut self, metadata: ModelMetadata, is_stable: bool) -> (r:
        InferenceResult<()>)
        requires
            old(self).wf(),
        ensures
            final(self).wf(),
            final(self).settings() == old(self).settings(),
            forall|id: Seq<char>| #[trigger] final(self).active(id) == old(self).active(id),
            forall|id: Seq<char>|
                id != metadata.id@ ==> #[trigger] final(self).versions(id) == old(self).versions(
                    id,
                ),
            ({
                let before = old(self).versions(metadata.id@);
                let after = final(self).versions(metadata.id@);
                if has_version(before, metadata.version) {
                    &&& r matches Err(InferenceError::ForwardError(t)) && t@ == "Version "@
                        + metadata.version.text() + " already registered for model "@
                        + metadata.id@
                    &&& after == before
                } else {
                    &&& r is Ok
                    &&& final(self).knows(metadata.id@)
                    &&& exists|place: int|
                        {
                            &&& 0 <= place <= before.len()
                            &&& after == #[trigger] before.insert(
                                place,
                                VersionedModelEntry { metadata, stats: blank_stats(), is_stable },
                            )
                        }
                }
            }),
    {
        let id: String = metadata.id.clone();
        let mut entries: Vec<VersionedModelEntry> = match self.models.remove(id.as_str()) {
            Some(entries) => entries,
            None => Vec::new(),
        };
        let ghost before = old(self).versions(metadata.id@);
        assert(entries@ =~= before);
        assert(descending(before));
        if find_version(entries.as_slice(), &metadata.version).is_some() {
            let mut text: String = join3(
                "Version ",
                metadata.version.to_text().as_str(),
                " already registered for model ",
            );
            text.append(metadata.id.as_str());
            let replaced: Option<Vec<VersionedModelEntry>> = self.models.insert(id, entries);
            proof {
                self.holds_as_before(old(self), id@);
            }
            return Err(InferenceError::ForwardError(text));
        }
        let mut place: usize = 0;
        while place < entries.len() && metadata.version.precedes(&entries[place].metadata.version)
            invariant
                place <= entries@.len(),
                forall|k: int|
                    0 <= k < place ==> metadata.version.before(
                        (#[trigger] entries@[k]).metadata.version,
                    ),
            decreases entries@.len() - place,
        {
            place += 1;
        }
        let ghost v = metadata.version;
        let ghost at = place as int;
        proof {
            if at < before.len() {
                assert(before[at].metadata.version != v);
            }
        }
        let entry: VersionedModelEntry = VersionedModelEntry {
            metadata,
            stats: ModelStats::default(),
            is_stable,
        };
        entries.insert(place, entry);
        let ghost after = entries@;
        proof {
            assert(after == before.insert(at, entry));
            assert forall|i: int, j: int| 0 <= i < j < after.len() implies (
            #[trigger] after[j]).metadata.version.before(
                (#[trigger] after[i]).metadata.version,
            ) by {
                let x = if i < at { i } else { i - 1 };
                let y = if j < at { j } else { j - 1 };
                if i < at {
                    assert(after[i] == before[i]);
                } else if i > at {
                    assert(after[i] == before[i - 1]);
                }
                if j < at {
                    assert(after[j] == before[j]);
                } else if j > at {
                    assert(after[j] == before[j - 1]);
                }
                if i == at && j > at + 1 {
                    assert(before[j - 1].metadata.version.before(before[at].metadata.version));
                }
                if i < at && j > at && i != j - 1 {
                    assert(before[j - 1].metadata.version.before(before[i].metadata.version));
                }
            }
        }
        let ghost key = id@;
        let replaced: Option<Vec<VersionedModelEntry>> = self.models.insert(id, entries);
        proof {
            assert(self.versions(key) == after);
            assert forall|other: Seq<char>| other != key implies #[trigger] self.versions(other)
                == old(self).versions(other) by {}
            assert forall|other: Seq<char>| (#[trigger] self.active(other)) is Some implies
                has_version(self.versions(other), self.active(other)->0) by {
                assert(old(self).active(other) == self.active(other));
                assert(has_version(old(self).versions(other), self.active(other)->0));
                if other == key {
                    let w = choose|i: int|
                        0 <= i < before.len() && (#[trigger] before[i]).metadata.version
                            == self.active(other)->0;
                    let x = if w < at { w } else { w + 1 };
                    assert(after[x] == before[w]);
                }
            }
            assert forall|other: Seq<char>, i: int| 0 <= i < self.versions(other).len() implies (
            #[trigger] self.versions(other)[i]).stats.wf() by {
                if other == key {
                    if i < at {
                        assert(after[i] == old(self).versions(other)[i]);
                    } else if i > at {
                        assert(after[i] == old(self).versions(other)[i - 1]);
                    }
                } else {
                    assert(self.versions(other)[i] == old(self).versions(other)[i]);
                }
            }
            assert forall|other: Seq<char>| descending(#[trigger] self.versions(other)) by {
                if other != key {
                    assert(self.versions(other) == old(self).versions(other));
                }
            }
        }
        Ok(())
    }

    proof fn holds_as_before(&self, before: &Self, id: Seq<char>)
        requires
            before.wf(),
            self.models.wf(),
            self.active_versions == before.active_versions,
            self.models@.contains_key(id),
            before.versions(id).len() > 0,
            self.models@ == before.models@.remove(id).insert(id, self.models@[id]),
            self.models@[id]@ == before.versions(id),
        ensures
            self.wf(),
            forall|other: Seq<char>| #[trigger] self.versions(other) == before.versions(other),
            forall|other: Seq<char>| #[trigger] self.active(other) == before.active(other),
    {
        assert forall|other: Seq<char>| #[trigger]
            self.versions(other) == before.versions(other) by {}
        assert forall|other: Seq<char>| #[trigger] self.active(other) == before.active(other) by {}
        assert forall|other: Seq<char>| (#[trigger] self.active(other)) is Some implies has_version(
            self.versions(other),
            self.active(other)->0,
        ) by {
            assert(before.active(other) is Some);
        }
        assert forall|other: Seq<char>, i: int| 0 <= i < self.versions(other).len() implies (
        #[trigger] self.versions(other)[i]).stats.wf() by {
            assert(before.versions(other)[i].stats.wf());
        }
    }

    /// The active version of a model.
    pub fn get_active_version(&self, model_id: &str) -> (r: Option<ModelVersion>)
        requires
            self.wf(),
        ensures
            r == self.active(model_id@),
    {
        match self.active_versions.get(model_id) {
            Some(version) => Some(*version),
            None => None,
        }
    }

    /// Makes a registered version of a model the active one.
    pub fn set_active_version(&mut self, model_id: &str, version: ModelVersion) -> (r:
        InferenceResult<()>)
        requires
            old(self).wf(),
        ensures
            final(self).wf(),
            final(self).settings() == old(self).settings(),
            forall|id: Seq<char>| #[trigger] final(self).versions(id) == old(self).versions(id),
            forall|id: Seq<char>|
                id != model_id@ ==> #[trigger] final(self).active(id) == old(self).active(id),
            if !old(self).knows(model_id@) {
                &&& r matches Err(InferenceError::ForwardError(t)) && t@ == "Model "@ + model_id@
                    + " not found"@
                &&& final(self).active(model_id@) == old(self).active(model_id@)
            } else if !has_version(old(self).versions(model_id@), version) {
                &&& r matches Err(InferenceError::ForwardError(t)) && t@ == "Version "@
                    + version.text() + " not found for model "@ + model_id@
                &&& final(self).active(model_id@) == old(self).active(model_id@)
            } else {
                r is Ok && final(self).active(model_id@) == Some(version)
            },
    {
        match self.models.get(model_id) {
            None => {
                return Err(InferenceError::ForwardError(join3("Model ", model_id, " not found")));
            },
            Some(entries) => {
                match find_version(entries.as_slice(), &version) {
                    None => {
                        return Err(
                            InferenceError::ForwardError(missing_version(&version, model_id)),
                        );
                    },
                    Some(i) => {
                        assert(self.versions(model_id@)[i as int].metadata.version == version);
                    },
                }
            },
        }
        let replaced: Option<ModelVersion> = self.active_versions.insert(
            model_id.to_owned(),
            version,
        );
        proof {
            assert forall|id: Seq<char>| (#[trigger] self.active(id)) is Some implies has_version(
                self.versions(id),
                self.active(id)->0,
            ) by {
                if id != model_id@ {
                    assert(old(self).active(id) == self.active(id));
                }
                assert(self.versions(id) == old(self).versions(id));
            }
            assert forall|id: Seq<char>, i: int| 0 <= i < self.versions(id).len() implies (
            #[trigger] self.versions(id)[i]).stats.wf() by {
                assert(old(self).versions(id)[i].stats.wf());
            }
            assert forall|id: Seq<char>| descending(#[trigger] self.versions(id)) by {
                assert(self.versions(id) == old(self).versions(id));
            }
        }
        Ok(())
    }

    /// Why a version of a model cannot be worked on, if it cannot.
    pub open spec fn absence(&self, id: Seq<char>, version: ModelVersion) -> Option<Seq<char>> {
        if !self.knows(id) {
            Some("Model "@ + id + " not found"@)
        } else if !has_version(self.versions(id), version) {
            Some("Version "@ + version.text() + " not found for model "@ + id)
        } else {
            None
        }
    }

    /// Whether `after` differs only in the statistics of one version.
    pub open spec fn only_stats_change(
        &self,
        id: Seq<char>,
        version: ModelVersion,
        stats: ModelStats,
        after: &Self,
    ) -> bool {
        let place = place_of(self.versions(id), version, 0);
        &&& after.settings() == self.settings()
        &&& forall|other: Seq<char>| #[trigger] after.active(other) == self.active(other)
        &&& forall|other: Seq<char>|
            other != id ==> #[trigger] after.versions(other) == self.versions(other)
        &&& after.versions(id) == self.versions(id).update(
            place,
            VersionedModelEntry { stats, ..self.versions(id)[place] },
        )
    }

    fn put_back(
        &mut self,
        Ghost(start): Ghost<Self>,
        id: &str,
        entries: Vec<VersionedModelEntry>,
        Ghost(version): Ghost<ModelVersion>,
    )
        requires
            start.wf(),
            old(self).models.wf(),
            old(self).models@ == start.models@.remove(id@),
            old(self).active_versions == start.active_versions,
            old(self).config == start.config,
            start.knows(id@),
            has_version(start.versions(id@), version),
            ({
                let place = place_of(start.versions(id@), version, 0);
                &&& 0 <= place < start.versions(id@).len()
                &&& entries@.len() == start.versions(id@).len()
                &&& entries@[place].stats.wf()
                &&& entries@ == start.versions(id@).update(
                    place,
                    VersionedModelEntry {
                        stats: entries@[place].stats,
                        ..start.versions(id@)[place]
                    },
                )
            }),
        ensures
            final(self).wf(),
            start.only_stats_change(
                id@,
                version,
                entries@[place_of(start.versions(id@), version, 0)].stats,
                final(self),
            ),
    {
        let ghost after = entries@;
        let ghost place = place_of(start.versions(id@), version, 0);
        let replaced: Option<Vec<VersionedModelEntry>> = self.models.insert(
            id.to_owned(),
            entries,
        );
        proof {
            let before = start.versions(id@);
            assert(self.versions(id@) == after);
            assert forall|other: Seq<char>| other != id@ implies #[trigger] self.versions(other)
                == start.versions(other) by {}
            assert forall|other: Seq<char>| #[trigger] self.active(other) == start.active(
                other,
            ) by {}
            assert forall|i: int| 0 <= i < after.len() implies (
            #[trigger] after[i]).metadata.version == before[i].metadata.version by {}
            assert forall|other: Seq<char>| descending(#[trigger] self.versions(other)) by {
                if other != id@ {
                    assert(self.versions(other) == start.versions(other));
                }
                assert(descending(start.versions(other)));
            }
            assert forall|other: Seq<char>| (#[trigger] self.active(other)) is Some implies
                has_version(self.versions(other), self.active(other)->0) by {
                assert(start.active(other) is Some);
                if other == id@ {
                    let w = choose|i: int|
                        0 <= i < before.len() && (#[trigger] before[i]).metadata.version
                            == self.active(other)->0;
                    assert(after[w].metadata.version == before[w].metadata.version);
                }
            }
            assert forall|other: Seq<char>, i: int| 0 <= i < self.versions(other).len() implies (
            #[trigger] self.versions(other)[i]).stats.wf() by {
                assert(start.versions(other)[i].stats.wf());
            }
        }
    }

    /// Records a request to a version of a model.
    pub fn record_request<L: LatencyMath>(
        &mut self,
        l: &L,
        model_id: &str,
        version: &ModelVersion,
        latency_ms: Double,
        is_error: bool,
    ) -> (r: InferenceResult<()>)
        requires
            old(self).wf(),
            forall|i: int|
                0 <= i < old(self).versions(model_id@).len() ==> (#[trigger] old(self).versions(
                    model_id@,
                )[i]).stats.total_requests < usize::MAX,
        ensures
            final(self).wf(),
            match old(self).absence(model_id@, *version) {
                Some(text) => {
                    &&& r matches Err(InferenceError::ForwardError(t)) && t@ == text
                    &&& *final(self) == *old(self)
                },
                None => {
                    &&& r is Ok
                    &&& exists|stats: ModelStats|
                        {
                            &&& #[trigger] old(self).only_stats_change(
                                model_id@,
                                *version,
                                stats,
                                final(self),
                            )
                            &&& old(self).versions(model_id@)[place_of(
                                old(self).versions(model_id@),
                                *version,
                                0,
                            )].stats.records(*l, latency_ms, is_error, &stats)
                        }
                },
            },
    {
        match self.models.get(model_id) {
            None => {
                return Err(InferenceError::ForwardError(join3("Model ", model_id, " not found")));
            },
            Some(entries) => {
                if find_version(entries.as_slice(), version).is_none() {
                    return Err(InferenceError::ForwardError(missing_version(version, model_id)));
                }
            },
        }
        let ghost start = *self;
        if let Some(found) = self.models.remove(model_id) {
            let mut entries: Vec<VersionedModelEntry> = found;
            assert(entries@ == start.versions(model_id@));
            if let Some(i) = find_version(entries.as_slice(), version) {
                assert(start.versions(model_id@)[i as int].stats.wf());
                if is_error {
                    entries[i].stats.record_error(l, latency_ms);
                } else {
                    entries[i].stats.record_success(l, latency_ms);
                }
                let ghost stats = entries@[i as int].stats;
                self.put_back(Ghost(start), model_id, entries, Ghost(*version));
                assert(start.only_stats_change(model_id@, *version, stats, self));
            }
        }
        Ok(())
    }

    /// Looks at how well a version of a model does, and keeps the result.
    pub fn health_check<L: LatencyMath>(
        &mut self,
        l: &L,
        model_id: &str,
        version: &ModelVersion,
    ) -> (r: InferenceResult<HealthCheck>)
        requires
            old(self).wf(),
        ensures
            final(self).wf(),
            match old(self).absence(model_id@, *version) {
                Some(text) => {
                    &&& r matches Err(InferenceError::ForwardError(t)) && t@ == text
                    &&& *final(self) == *old(self)
                },
                None => {
                    &&& r is Ok
                    &&& exists|stats: ModelStats|
                        {
                            let before = old(self).versions(model_id@)[place_of(
                                old(self).versions(model_id@),
                                *version,
                                0,
                            )].stats;
                            &&& #[trigger] old(self).only_stats_change(
                                model_id@,
                                *version,
                                stats,
                                final(self),
                            )
                            &&& before.is_checked(*l, old(self).settings(), r->Ok_0)
                            &&& stats == (ModelStats {
                                last_health_check: stats.last_health_check,
                                ..before
                            })
                            &&& stats.last_health_check is Some
                            &&& stats.last_health_check->0.says_same(&r->Ok_0)
                        }
                },
            },
    {
        match self.models.get(model_id) {
            None => {
                return Err(InferenceError::ForwardError(join3("Model ", model_id, " not found")));
            },
            Some(entries) => {
                if find_version(entries.as_slice(), version).is_none() {
                    return Err(InferenceError::ForwardError(missing_version(version, model_id)));
                }
            },
        }
        let ghost start = *self;
        let mut result: Option<HealthCheck> = None;
        if let Some(found) = self.models.remove(model_id) {
            let mut entries: Vec<VersionedModelEntry> = found;
            assert(entries@ == start.versions(model_id@));
            if let Some(i) = find_version(entries.as_slice(), version) {
                assert(start.versions(model_id@)[i as int].stats.wf());
                let check: HealthCheck = entries[i].stats.to_health_check(l, &self.config);
                entries[i].stats.last_health_check = Some(check.copy());
                result = Some(check);
                let ghost stats = entries@[i as int].stats;
                self.put_back(Ghost(start), model_id, entries, Ghost(*version));
                assert(start.only_stats_change(model_id@, *version, stats, self));
            }
        }
        match result {
            Some(check) => Ok(check),
            None => Err(InferenceError::ForwardError(missing_version(version, model_id))),
        }
    }

    /// The version to fall back to from the current one: the newest of those
    /// that can replace it.
    pub fn get_fallback_version(&self, model_id: &str, current: &ModelVersion) -> (r: Option<
        ModelVersion,
    >)
        requires
            self.wf(),
        ensures
            ({
                let all = self.versions(model_id@);
                let strategy = self.settings().fallback_strategy;
                match r {
                    Some(v) => exists|i: int|
                        {
                            &&& 0 <= i < all.len()
                            &&& (#[trigger] all[i]).metadata.version == v
                            &&& can_replace(strategy, all[i], *current)
                            &&& forall|k: int|
                                0 <= k < all.len() && k != i && can_replace(
                                    strategy,
                                    #[trigger] all[k],
                                    *current,
                                ) ==> all[k].metadata.version.before(v)
                        },
                    None => forall|i: int|
                        0 <= i < all.len() ==> !can_replace(strategy, #[trigger] all[i], *current),
                }
            }),
    {
        let ghost all = self.versions(model_id@);
        assert(descending(all));
        let strategy: FallbackStrategy = self.config.fallback_strategy;
        match self.models.get(model_id) {
            None => None,
            Some(entries) => {
                let mut i: usize = 0;
                while i < entries.len()
                    invariant
                        i <= entries@.len(),
                        entries@ == all,
                        descending(all),
                        all == self.versions(model_id@),
                        strategy == self.settings().fallback_strategy,
                        forall|k: int|
                            0 <= k < i ==> !can_replace(strategy, #[trigger] all[k], *current),
                    decreases entries@.len() - i,
                {
                    let version: ModelVersion = entries[i].metadata.version;
                    let fits: bool = match strategy {
                        FallbackStrategy::NextVersion => version.precedes(current),
                        FallbackStrategy::PreviousStable => entries[i].is_stable
                            && version.precedes(current),
                        FallbackStrategy::SpecificVersion => false,
                        FallbackStrategy::NoFallback => false,
                    };
                    if fits {
                        assert(all[i as int].metadata.version == version);
                        return Some(version);
                    }
                    i += 1;
                }
                None
            },
        }
    }

    /// The versions of a model, newest first.
    pub fn list_versions(&self, model_id: &str) -> (r: Vec<ModelVersion>)
        requires
            self.wf(),
        ensures
            r@ == self.versions(model_id@).map_values(|e: VersionedModelEntry| e.metadata.version),
    {
        let mut out: Vec<ModelVersion> = Vec::new();
        let ghost all = self.versions(model_id@);
        if let Some(entries) = self.models.get(model_id) {
            let mut i: usize = 0;
            while i < entries.len()
                invariant
                    i <= entries@.len(),
                    entries@ == all,
                    out@.len() == i,
                    forall|k: int| 0 <= k < i ==> #[trigger] out@[k] == all[k].metadata.version,
                decreases entries@.len() - i,
            {
                out.push(entries[i].metadata.version);
                i += 1;
            }
        }
        assert(out@ =~= all.map_values(|e: VersionedModelEntry| e.metadata.version));
        out
    }

    /// What is known of a version of a model.
    pub fn get_metadata(&self, model_id: &str, version: &ModelVersion) -> (r: Option<
        &ModelMetadata,
    >)
        requires
            self.wf(),
        ensures
            match r {
                Some(m) => has_version(self.versions(model_id@), *version) && *m
                    == self.versions(model_id@)[place_of(
                    self.versions(model_id@),
                    *version,
                    0,
                )].metadata,
                None => !has_version(self.versions(model_id@), *version),
            },
    {
        match self.models.get(model_id) {
            None => None,
            Some(entries) => match find_version(entries.as_slice(), version) {
                Some(i) => {
                    assert(self.versions(model_id@)[i as int].metadata.version == *version);
                    Some(&entries[i].metadata)
                },
                None => None,
            },
        }
    }

    /// What a version of a model has done so far.
    pub fn get_stats(&self, model_id: &str, version: &ModelVersion) -> (r: Option<&ModelStats>)
        requires
            self.wf(),
        ensures
            match r {
                Some(s) => has_version(self.versions(model_id@), *version) && *s
                    == self.versions(model_id@)[place_of(
                    self.versions(model_id@),
                    *version,
                    0,
                )].stats,
                None => !has_version(self.versions(model_id@), *version),
            },
    {
        match self.models.get(model_id) {
            None => None,
            Some(entries) => match find_version(entries.as_slice(), version) {
                Some(i) => {
                    assert(self.versions(model_id@)[i as int].metadata.version == *version);
                    Some(&entries[i].stats)
                },
                None => None,
            },
        }
    }
}

fn missing_version(version: &ModelVersion, model_id: &str) -> (r: String)
    ensures
        r@ == "Version "@ + version.text() + " not found for model "@ + model_id@,
{
    let mut text: String = join3("Version ", version.to_text().as_str(), " not found for model ");
    text.append(model_id);
    text
}

} // verus!
