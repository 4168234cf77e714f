//! Commit-time cache priming gates: the scene-version gate shared by the
//! markdown and truncation caches, and the adaptive mid-drag cadence that
//! rate-limits truncation re-primes.

use vstd::prelude::*;

verus! {

/// Content shorter than this (bytes) re-primes at the fast cadence.
pub const RESIZE_REPRIME_SHORT_THRESHOLD_BYTES: usize = 1_024;

/// Content at least this long (bytes) re-primes at the slow cadence.
pub const RESIZE_REPRIME_LONG_THRESHOLD_BYTES: usize = 16_384;

/// Re-prime interval for short content (< 1 KiB): about 60 Hz.
pub const RESIZE_REPRIME_INTERVAL_SHORT_MS: u64 = 16;

/// Re-prime interval for medium content (1 KiB to 16 KiB): about 20 Hz.
pub const RESIZE_REPRIME_INTERVAL_MEDIUM_MS: u64 = 50;

/// Re-prime interval for long content (at least 16 KiB): about 10 Hz.
pub const RESIZE_REPRIME_INTERVAL_LONG_MS: u64 = 100;

/// The scene-version value that forces the next prime.
pub const FORCED_PRIME_VERSION: u64 = u64::MAX;

/// The adaptive re-prime interval for a given Ellipsis content size.
pub open spec fn reprime_interval_ms(total_content_bytes: int) -> u64 {
    if total_content_bytes < 1_024 {
        16
    } else if total_content_bytes < 16_384 {
        50
    } else {
        100
    }
}

/// Compute the adaptive re-prime interval in milliseconds from the total
/// byte count of Ellipsis text content in the scene.
pub fn adaptive_reprime_interval_ms(total_content_bytes: usize) -> (ms: u64)
    ensures
        ms == reprime_interval_ms(total_content_bytes as int),
{
    if total_content_bytes < RESIZE_REPRIME_SHORT_THRESHOLD_BYTES {
        RESIZE_REPRIME_INTERVAL_SHORT_MS
    } else if total_content_bytes < RESIZE_REPRIME_LONG_THRESHOLD_BYTES {
        RESIZE_REPRIME_INTERVAL_MEDIUM_MS
    } else {
        RESIZE_REPRIME_INTERVAL_LONG_MS
    }
}

/// Longer content never re-primes more often than shorter content.
pub proof fn law_reprime_interval_monotone(a: int, b: int)
    requires
        a <= b,
    ensures
        reprime_interval_ms(a) <= reprime_interval_ms(b),
{
}

/// Whether a re-prime must wait: only when a prime has run before
/// (`last_elapsed_nanos` is the time since it) and less than `interval_ms`
/// has elapsed since.
pub open spec fn defer_reprime(last_elapsed_nanos: Option<u128>, interval_ms: u64) -> bool {
    match last_elapsed_nanos {
        None => false,
        Some(e) => e < interval_ms * 1_000_000,
    }
}

/// Decide whether to defer a re-prime that falls inside the adaptive
/// interval. `last_elapsed_nanos` is the time since the last prime, or
/// `None` when no prime has run yet.
pub fn should_defer_reprime(last_elapsed_nanos: Option<u128>, interval_ms: u64) -> (defer: bool)
    ensures
        defer == defer_reprime(last_elapsed_nanos, interval_ms),
{
    match last_elapsed_nanos {
        None => false,
        Some(elapsed) => elapsed < (interval_ms as u128) * 1_000_000,
    }
}

/// The identity of the scene a cache was last primed for.
#[derive(Clone, Copy, Debug, PartialEq, Eq, Structural)]
pub struct SceneVersionGate {
    /// Scene version of the last prime, or `FORCED_PRIME_VERSION`.
    pub version: u64,
    /// Instance identity of the scene of the last prime.
    pub instance: Option<u128>,
}

impl SceneVersionGate {
    /// A gate that forces the first prime.
    pub fn new() -> (g: Self)
        ensures
            g.version == FORCED_PRIME_VERSION,
            g.instance is None,
    {
        SceneVersionGate { version: FORCED_PRIME_VERSION, instance: None }
    }

    /// True when the cache was primed for exactly this scene instance at this
    /// version, so priming again would change nothing.
    pub fn is_current(&self, scene_version: u64, scene_instance: u128) -> (current: bool)
        ensures
            current == (self.instance == Some(scene_instance) && self.version == scene_version),
    {
        match self.instance {
            Some(i) => i == scene_instance && self.version == scene_version,
            None => false,
        }
    }

    /// Record a prime of this scene instance at this version.
    pub fn record(&mut self, scene_version: u64, scene_instance: u128)
        ensures
            final(self).version == scene_version,
            final(self).instance == Some(scene_instance),
    {
        self.version = scene_version;
        self.instance = Some(scene_instance);
    }

    /// Force the next prime (token-map or font change).
    pub fn force(&mut self)
        ensures
            final(self).version == FORCED_PRIME_VERSION,
            final(self).instance is None,
    {
        self.version = FORCED_PRIME_VERSION;
        self.instance = None;
    }

    /// True when the next prime bypasses the cadence gate: a forced re-prime,
    /// or a scene instance other than the one last primed.
    pub fn is_forced_for(&self, scene_instance: u128) -> (forced: bool)
        ensures
            forced == (self.version == FORCED_PRIME_VERSION || self.instance != Some(
                scene_instance,
            )),
    {
        let same_instance = match self.instance {
            Some(i) => i == scene_instance,
            None => false,
        };
        self.version == FORCED_PRIME_VERSION || !same_instance
    }
}

/// What a truncation-cache prime request does this frame.
#[derive(Clone, Copy, Debug, PartialEq, Eq, Structural)]
pub enum TruncationPrimeDecision {
    /// The cache is already primed for this scene instance and version.
    Unchanged,
    /// Inside the adaptive cadence window: retry on a later frame.
    Deferred,
    /// The text rasterizer is not initialized yet: retry later.
    RasterizerUnavailable,
    /// Build the truncation entries for this scene.
    Prime,
}

/// The truncation-cache prime gate: scene identity of the last prime plus
/// the content size that drives the adaptive cadence.
pub struct TruncationPrimeGate {
    /// Scene identity of the last prime.
    pub scene: SceneVersionGate,
    /// Total Ellipsis content bytes seen by the last prime.
    pub content_bytes: usize,
}

/// The decision for a prime request (see [`TruncationPrimeGate::decide`]).
pub open spec fn prime_decision(
    gate: SceneVersionGate,
    content_bytes: int,
    scene_version: u64,
    scene_instance: u128,
    last_elapsed_nanos: Option<u128>,
    rasterizer_ready: bool,
) -> TruncationPrimeDecision {
    let same_instance = gate.instance == Some(scene_instance);
    let forced = gate.version == FORCED_PRIME_VERSION || !same_instance;
    if same_instance && gate.version == scene_version {
        TruncationPrimeDecision::Unchanged
    } else if !forced && defer_reprime(last_elapsed_nanos, reprime_interval_ms(content_bytes)) {
        TruncationPrimeDecision::Deferred
    } else if !rasterizer_ready {
        TruncationPrimeDecision::RasterizerUnavailable
    } else {
        TruncationPrimeDecision::Prime
    }
}

impl TruncationPrimeGate {
    /// A gate that forces the first prime.
    pub fn new() -> (g: Self)
        ensures
            g.scene.version == FORCED_PRIME_VERSION,
            g.scene.instance is None,
            g.content_bytes == 0,
    {
        TruncationPrimeGate { scene: SceneVersionGate::new(), content_bytes: 0 }
    }

    /// Decide what a prime request for `scene_version` of `scene_instance`
    /// does: skip an unchanged scene, defer inside the adaptive cadence window
    /// (never for a forced prime or a new scene instance), wait for the text
    /// rasterizer, or prime. Only a `Prime` decision records the scene.
    pub fn decide(
        &mut self,
        scene_version: u64,
        scene_instance: u128,
        last_elapsed_nanos: Option<u128>,
        rasterizer_ready: bool,
    ) -> (d: TruncationPrimeDecision)
        ensures
            d == prime_decision(
                old(self).scene,
                old(self).content_bytes as int,
                scene_version,
                scene_instance,
                last_elapsed_nanos,
                rasterizer_ready,
            ),
            final(self).content_bytes == old(self).content_bytes,
            d == TruncationPrimeDecision::Prime ==> final(self).scene.version == scene_version
                && final(self).scene.instance == Some(scene_instance),
            d != TruncationPrimeDecision::Prime ==> final(self).scene == old(self).scene,
    {
        if self.scene.is_current(scene_version, scene_instance) {
            return TruncationPrimeDecision::Unchanged;
        }
        let forced = self.scene.is_forced_for(scene_instance);
        let interval_ms = adaptive_reprime_interval_ms(self.content_bytes);
        if !forced && should_defer_reprime(last_elapsed_nanos, interval_ms) {
            return TruncationPrimeDecision::Deferred;
        }
        if !rasterizer_ready {
            return TruncationPrimeDecision::RasterizerUnavailable;
        }
        self.scene.record(scene_version, scene_instance);
        TruncationPrimeDecision::Prime
    }

    /// Record the Ellipsis content size of a completed prime, for the next
    /// cadence decision.
    pub fn finish_prime(&mut self, content_bytes: usize)
        ensures
            final(self).content_bytes == content_bytes,
            final(self).scene == old(self).scene,
    {
        self.content_bytes = content_bytes;
    }

    /// Force the next prime (token-map change or newly loaded font).
    pub fn force(&mut self)
        ensures
            final(self).scene.version == FORCED_PRIME_VERSION,
            final(self).scene.instance is None,
            final(self).content_bytes == old(self).content_bytes,
    {
        self.scene.force();
    }
}

/// A forced prime is never deferred and never skipped: once the rasterizer
/// is available it primes immediately, whatever the cadence window says.
pub proof fn law_forced_prime_is_immediate(
    content_bytes: int,
    scene_version: u64,
    scene_instance: u128,
    last_elapsed_nanos: Option<u128>,
)
    ensures
        prime_decision(
            SceneVersionGate { version: FORCED_PRIME_VERSION, instance: None },
            content_bytes,
            scene_version,
            scene_instance,
            last_elapsed_nanos,
            true,
        ) == TruncationPrimeDecision::Prime,
{
}

/// Priming is idempotent: right after a prime of a scene, a second request
/// for the same scene instance and version changes nothing.
pub proof fn law_prime_then_unchanged(
    gate: SceneVersionGate,
    content_bytes: int,
    scene_version: u64,
    scene_instance: u128,
    last_elapsed_nanos: Option<u128>,
    later_elapsed_nanos: Option<u128>,
    rasterizer_ready: bool,
)
    requires
        prime_decision(
            gate,
            content_bytes,
            scene_version,
            scene_instance,
            last_elapsed_nanos,
            true,
        ) == TruncationPrimeDecision::Prime,
    ensures
        prime_decision(
            SceneVersionGate { version: scene_version, instance: Some(scene_instance) },
            content_bytes,
            scene_version,
            scene_instance,
            later_elapsed_nanos,
            rasterizer_ready,
        ) == TruncationPrimeDecision::Unchanged,
{
}

/// A changed version of the same scene is deferred only inside the window:
/// once the adaptive interval has elapsed since the last prime, it primes.
pub proof fn law_changed_scene_primes_after_interval(
    gate: SceneVersionGate,
    content_bytes: int,
    scene_version: u64,
    scene_instance: u128,
    elapsed_nanos: u128,
)
    requires
        gate.instance == Some(scene_instance),
        gate.version != scene_version,
        elapsed_nanos >= reprime_interval_ms(content_bytes) * 1_000_000,
    ensures
        prime_decision(
            gate,
            content_bytes,
            scene_version,
            scene_instance,
            Some(elapsed_nanos),
            true,
        ) == TruncationPrimeDecision::Prime,
{
}

} // verus!
