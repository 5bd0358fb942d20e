//! Finding the functions that are called often.

use dashmap::DashMap;
use vstd::prelude::*;
use crate::atom::Atom;

verus! {

/// After how many calls a function is compiled, unless told otherwise.
pub const DEFAULT_JIT_THRESHOLD: u32 = 1000;

pub const MIN_TUNED_THRESHOLD: u32 = 100;

pub const MAX_TUNED_THRESHOLD: u32 = 10_000;

pub const STATE_INTERPRETING: u8 = 0;

pub const STATE_PENDING: u8 = 1;

pub const STATE_COMPILED: u8 = 2;

pub const STATE_UNSUPPORTED: u8 = 3;

/// A function of a module.
#[derive(Debug, Clone, Copy, PartialEq, Eq, Hash, Structural)]
pub struct MfaKey {
    pub module: Atom,
    pub function: Atom,
    pub arity: u8,
}

impl MfaKey {
    /// The function of the name and arity.
    pub fn new(module: Atom, function: Atom, arity: u8) -> (r: MfaKey)
        ensures
            r == (MfaKey { module, function, arity }),
    {
        MfaKey { module, function, arity }
    }
}

/// What follows from a call.
#[derive(Debug, Clone, Copy, PartialEq, Eq, Structural)]
pub enum RecordResult {
    Continue,
    /// The function has become hot and should be compiled.
    CompileNow,
}

/// How much faster compiled code turned out to be.
#[derive(Debug, Clone, Copy, PartialEq, Eq, Structural)]
pub enum Speedup {
    /// More than two times.
    Strong,
    /// Neither strong nor weak.
    Moderate,
    /// Less than one and a half times.
    Weak,
}

/// How often a function was called, and what became of it.
#[derive(Debug, Clone, Copy, PartialEq, Eq, Structural)]
pub struct FunctionProfile {
    pub counter: u32,
    pub state: u8,
}

/// What is known of a function that was never called.
pub open spec fn fresh_profile() -> FunctionProfile {
    FunctionProfile { counter: 0, state: STATE_INTERPRETING }
}

/// The profiles by module, function and arity, each a counter and a state.
type Profiles = DashMap<(u32, u32, u8), (u32, u8), std::collections::hash_map::RandomState>;

/// What a map of profiles holds.
pub uninterp spec fn held_profiles(map: DashMap<(u32, u32, u8), (u32, u8), std::collections::hash_map::RandomState>) -> Map<(u32, u32, u8), (u32, u8)>;

/// No profiles.
pub open spec fn no_profiles() -> Map<(u32, u32, u8), (u32, u8)> {
    Map::empty()
}

/// `DashMap::new`: a map that holds nothing.
#[verifier::external_body]
fn new_profiles() -> (r: Profiles)
    ensures
        held_profiles(r) == no_profiles(),
{
    DashMap::new()
}

/// `DashMap::insert`: sets the profile under a key, and leaves the other keys.
#[verifier::external_body]
fn put_profile(map: &mut Profiles, key: (u32, u32, u8), profile: (u32, u8))
    ensures
        held_profiles(*final(map)) == held_profiles(*old(map)).insert(key, profile),
{
    map.insert(key, profile);
}

/// The profile under a key, if there is one.
pub open spec fn found_profile(profiles: Map<(u32, u32, u8), (u32, u8)>, key: (u32, u32, u8)) -> Option<
    (u32, u8),
> {
    if profiles.contains_key(key) {
        Some(profiles[key])
    } else {
        None
    }
}

/// `DashMap::get`: the profile under a key.
#[verifier::external_body]
fn get_profile(map: &Profiles, key: (u32, u32, u8)) -> (r: Option<(u32, u8)>)
    ensures
        r == found_profile(held_profiles(*map), key),
{
    map.get(&key).map(|entry| *entry.value())
}

/// What a profiler knows: from how many calls on a function is compiled, and the
/// functions that it has seen.
#[verifier::ext_equal]
pub struct ProfilerView {
    pub threshold: u32,
    pub profiles: Map<MfaKey, FunctionProfile>,
}

impl ProfilerView {
    /// What is known of a function.
    pub open spec fn profile(self, key: MfaKey) -> FunctionProfile {
        if self.profiles.contains_key(key) {
            self.profiles[key]
        } else {
            fresh_profile()
        }
    }

    /// With another profile of a function.
    pub open spec fn with(self, key: MfaKey, profile: FunctionProfile) -> ProfilerView {
        ProfilerView { profiles: self.profiles.insert(key, profile), ..self }
    }

    /// What follows from a call, and what is known after it. Calls are counted
    /// while the function is interpreted; when they reach the threshold, its
    /// compilation is asked for, once.
    pub open spec fn record(self, key: MfaKey) -> (RecordResult, ProfilerView) {
        let profile = self.profile(key);
        if profile.state != STATE_INTERPRETING {
            (RecordResult::Continue, self.with(key, profile))
        } else {
            let counter = if profile.counter == u32::MAX {
                u32::MAX
            } else {
                (profile.counter + 1) as u32
            };
            if counter < self.threshold {
                (
                    RecordResult::Continue,
                    self.with(key, FunctionProfile { counter, state: STATE_INTERPRETING }),
                )
            } else {
                (
                    RecordResult::CompileNow,
                    self.with(key, FunctionProfile { counter, state: STATE_PENDING }),
                )
            }
        }
    }

    /// What is known after something became of a function.
    pub open spec fn set_state(self, key: MfaKey, state: u8) -> ProfilerView {
        self.with(key, FunctionProfile { state, ..self.profile(key) })
    }

    /// Whether that became of a function.
    pub open spec fn has_state(self, key: MfaKey, state: u8) -> bool {
        self.profiles.contains_key(key) && self.profiles[key].state == state
    }
}

/// A threshold, changed by what compiling cost and brought: lower when it was
/// cheap and code got much faster, higher when it was dear or brought little.
pub open spec fn tuned(current: u32, compilation_time_us: u64, speedup: Speedup) -> int {
    if speedup is Strong && compilation_time_us < 10_000 {
        saturated(saturated(current * 3) + 3) / 4
    } else if speedup is Weak || compilation_time_us > 100_000 {
        saturated(saturated(current * 5) + 3) / 4
    } else {
        current as int
    }
}

/// The number, or the largest when it is too large.
pub open spec fn saturated(n: int) -> int {
    if n > u32::MAX {
        u32::MAX as int
    } else {
        n
    }
}

fn saturate(n: u64) -> (r: u32)
    ensures
        r == saturated(n as int),
{
    if n > u32::MAX as u64 {
        u32::MAX
    } else {
        n as u32
    }
}

/// The threshold within its bounds.
pub open spec fn clamped(threshold: int) -> int {
    if threshold < MIN_TUNED_THRESHOLD {
        MIN_TUNED_THRESHOLD as int
    } else if threshold > MAX_TUNED_THRESHOLD {
        MAX_TUNED_THRESHOLD as int
    } else {
        threshold
    }
}

fn clamp_tuned_threshold(threshold: u32) -> (r: u32)
    ensures
        r == clamped(threshold as int),
{
    if threshold < MIN_TUNED_THRESHOLD {
        MIN_TUNED_THRESHOLD
    } else if threshold > MAX_TUNED_THRESHOLD {
        MAX_TUNED_THRESHOLD
    } else {
        threshold
    }
}

/// Counts the calls of functions.
#[derive(Debug)]
pub struct JitProfiler {
    threshold: u32,
    profiles: Profiles,
}

spec fn raw_key(key: MfaKey) -> (u32, u32, u8) {
    (key.module.0, key.function.0, key.arity)
}

spec fn profile_map(raw: Map<(u32, u32, u8), (u32, u8)>) -> Map<MfaKey, FunctionProfile> {
    Map::new(
        |key: MfaKey| raw.contains_key(raw_key(key)),
        |key: MfaKey|
            FunctionProfile { counter: raw[raw_key(key)].0, state: raw[raw_key(key)].1 },
    )
}

impl View for JitProfiler {
    type V = ProfilerView;

    closed spec fn view(&self) -> ProfilerView {
        ProfilerView {
            threshold: self.threshold,
            profiles: profile_map(held_profiles(self.profiles)),
        }
    }
}

impl JitProfiler {
    /// A profiler with a threshold of at least one call.
    pub fn new(threshold: u32) -> (r: JitProfiler)
        ensures
            r@ == (ProfilerView {
                threshold: if threshold == 0 {
                    1
                } else {
                    threshold
                },
                profiles: Map::empty(),
            }),
    {
        let r = JitProfiler {
            threshold: if threshold == 0 {
                1
            } else {
                threshold
            },
            profiles: new_profiles(),
        };
        assert(r@.profiles =~= Map::empty());
        r
    }

    /// From how many calls on a function is compiled.
    pub fn current_threshold(&self) -> (r: u32)
        ensures
            r == self@.threshold,
    {
        self.threshold
    }

    /// From how many calls on a function is compiled.
    pub fn threshold(&self) -> (r: u32)
        ensures
            r == self@.threshold,
    {
        self.current_threshold()
    }

    /// Changes the threshold by what compiling cost and brought.
    pub fn tune_threshold(&mut self, compilation_time_us: u64, speedup: Speedup)
        ensures
            final(self)@ == (ProfilerView {
                threshold: clamped(tuned(old(self)@.threshold, compilation_time_us, speedup)) as u32,
                ..old(self)@
            }),
    {
        let current: u32 = self.threshold;
        let strong = matches!(speedup, Speedup::Strong);
        let weak = matches!(speedup, Speedup::Weak);
        let tuned: u32 = if strong && compilation_time_us < 10_000 {
            saturate(current as u64 * 3).saturating_add(3) / 4
        } else if weak || compilation_time_us > 100_000 {
            saturate(current as u64 * 5).saturating_add(3) / 4
        } else {
            current
        };
        self.threshold = clamp_tuned_threshold(tuned);
    }

    fn profile(&self, key: MfaKey) -> (r: FunctionProfile)
        ensures
            r == self@.profile(key),
    {
        match get_profile(&self.profiles, (key.module.0, key.function.0, key.arity)) {
            Some((counter, state)) => FunctionProfile { counter, state },
            None => FunctionProfile { counter: 0, state: STATE_INTERPRETING },
        }
    }

    fn set_profile(&mut self, key: MfaKey, profile: FunctionProfile)
        ensures
            final(self)@ == old(self)@.with(key, profile),
    {
        put_profile(
            &mut self.profiles,
            (key.module.0, key.function.0, key.arity),
            (profile.counter, profile.state),
        );
        assert(self@.profiles =~= old(self)@.profiles.insert(key, profile));
    }

    /// Counts a call.
    pub fn record_call(&mut self, module: Atom, function: Atom, arity: u8) -> (r: RecordResult)
        ensures
            (r, final(self)@) == old(self)@.record(MfaKey { module, function, arity }),
    {
        let key = MfaKey::new(module, function, arity);
        let profile = self.profile(key);
        if profile.state != STATE_INTERPRETING {
            self.set_profile(key, profile);
            return RecordResult::Continue;
        }
        let counter: u32 = profile.counter.saturating_add(1);
        if counter < self.threshold {
            self.set_profile(key, FunctionProfile { counter, state: STATE_INTERPRETING });
            return RecordResult::Continue;
        }
        self.set_profile(key, FunctionProfile { counter, state: STATE_PENDING });
        RecordResult::CompileNow
    }

    fn set_state(&mut self, key: MfaKey, state: u8)
        ensures
            final(self)@ == old(self)@.set_state(key, state),
    {
        let profile = self.profile(key);
        self.set_profile(key, FunctionProfile { counter: profile.counter, state });
    }

    /// Notes that a function was compiled.
    pub fn mark_compiled(&mut self, module: Atom, function: Atom, arity: u8)
        ensures
            final(self)@ == old(self)@.set_state(
                MfaKey { module, function, arity },
                STATE_COMPILED,
            ),
    {
        self.set_state(MfaKey::new(module, function, arity), STATE_COMPILED);
    }

    /// Notes that a function cannot be compiled.
    pub fn mark_unsupported(&mut self, module: Atom, function: Atom, arity: u8)
        ensures
            final(self)@ == old(self)@.set_state(
                MfaKey { module, function, arity },
                STATE_UNSUPPORTED,
            ),
    {
        self.set_state(MfaKey::new(module, function, arity), STATE_UNSUPPORTED);
    }

    fn state_is(&self, key: MfaKey, state: u8) -> (r: bool)
        ensures
            r == self@.has_state(key, state),
    {
        match get_profile(&self.profiles, (key.module.0, key.function.0, key.arity)) {
            Some((_, found)) => found == state,
            None => false,
        }
    }

    /// Whether a function was compiled.
    pub fn is_compiled(&self, module: Atom, function: Atom, arity: u8) -> (r: bool)
        ensures
            r == self@.has_state(MfaKey { module, function, arity }, STATE_COMPILED),
    {
        self.state_is(MfaKey::new(module, function, arity), STATE_COMPILED)
    }

    /// Whether a function cannot be compiled.
    pub fn is_unsupported(&self, module: Atom, function: Atom, arity: u8) -> (r: bool)
        ensures
            r == self@.has_state(MfaKey { module, function, arity }, STATE_UNSUPPORTED),
    {
        self.state_is(MfaKey::new(module, function, arity), STATE_UNSUPPORTED)
    }

    /// Lets a function become hot again.
    pub fn reset_counter(&mut self, module: Atom, function: Atom, arity: u8)
        ensures
            final(self)@ == old(self)@.with(MfaKey { module, function, arity }, fresh_profile()),
    {
        self.set_profile(
            MfaKey::new(module, function, arity),
            FunctionProfile { counter: 0, state: STATE_INTERPRETING },
        );
    }
}

/// What is known after calls of functions.
pub open spec fn after_calls(profiler: ProfilerView, calls: Seq<MfaKey>) -> ProfilerView
    decreases calls.len(),
{
    if calls.len() == 0 {
        profiler
    } else {
        after_calls(profiler, calls.drop_last()).record(calls.last()).1
    }
}

/// How many of the calls are of a function.
pub open spec fn calls_of(calls: Seq<MfaKey>, key: MfaKey) -> nat
    decreases calls.len(),
{
    if calls.len() == 0 {
        0
    } else if calls.last() == key {
        calls_of(calls.drop_last(), key) + 1
    } else {
        calls_of(calls.drop_last(), key)
    }
}

/// A function that was never called is compiled at the call that reaches the
/// threshold, and at no other, whatever else is called in between.
pub proof fn law_compilation_is_asked_for_at_the_threshold(
    profiler: ProfilerView,
    key: MfaKey,
    calls: Seq<MfaKey>,
)
    requires
        !profiler.profiles.contains_key(key),
        profiler.threshold >= 1,
    ensures
        after_calls(profiler, calls).record(key).0 is CompileNow <==> calls_of(calls, key) + 1
            == profiler.threshold,
{
    lemma_calls(profiler, key, calls);
}

proof fn lemma_calls(profiler: ProfilerView, key: MfaKey, calls: Seq<MfaKey>)
    requires
        !profiler.profiles.contains_key(key),
        profiler.threshold >= 1,
    ensures
        after_calls(profiler, calls).threshold == profiler.threshold,
        calls_of(calls, key) < profiler.threshold ==> after_calls(profiler, calls).profile(key) == (
        FunctionProfile { counter: calls_of(calls, key) as u32, state: STATE_INTERPRETING }),
        calls_of(calls, key) >= profiler.threshold ==> after_calls(profiler, calls).profile(
            key,
        ).state == STATE_PENDING,
    decreases calls.len(),
{
    if calls.len() > 0 {
        lemma_calls(profiler, key, calls.drop_last());
        if calls.last() != key {
            law_functions_are_counted_apart(
                after_calls(profiler, calls.drop_last()),
                calls.last(),
                key,
            );
        }
    }
}

/// A function that was compiled, or cannot be, is not asked for again until its
/// counter is reset.
pub proof fn law_settled_functions_are_left_alone(
    profiler: ProfilerView,
    key: MfaKey,
    calls: Seq<MfaKey>,
)
    requires
        profiler.profile(key).state != STATE_INTERPRETING,
    ensures
        after_calls(profiler, calls).record(key).0 is Continue,
        after_calls(profiler, calls).profile(key) == profiler.profile(key),
    decreases calls.len(),
{
    if calls.len() > 0 {
        law_settled_functions_are_left_alone(profiler, key, calls.drop_last());
        if calls.last() != key {
            law_functions_are_counted_apart(
                after_calls(profiler, calls.drop_last()),
                calls.last(),
                key,
            );
        }
    }
}

/// The calls of one function say nothing of another.
pub proof fn law_functions_are_counted_apart(profiler: ProfilerView, key: MfaKey, other: MfaKey)
    requires
        other != key,
    ensures
        profiler.record(key).1.profile(other) == profiler.profile(other),
{
}

/// A tuned threshold is within its bounds, and a cheap compilation that made
/// code much faster does not raise it from there, nor does one that was dear or
/// brought little lower it.
pub proof fn law_tuning_goes_the_right_way(current: u32, compilation_time_us: u64, speedup: Speedup)
    ensures
        MIN_TUNED_THRESHOLD <= clamped(tuned(current, compilation_time_us, speedup))
            <= MAX_TUNED_THRESHOLD,
        MIN_TUNED_THRESHOLD <= current <= MAX_TUNED_THRESHOLD && speedup is Strong
            && compilation_time_us < 10_000 ==> clamped(
            tuned(current, compilation_time_us, speedup),
        ) <= current,
        MIN_TUNED_THRESHOLD <= current <= MAX_TUNED_THRESHOLD && (speedup is Weak
            || compilation_time_us > 100_000) ==> clamped(
            tuned(current, compilation_time_us, speedup),
        ) >= current,
{
}

/// A cheap compilation, below ten milliseconds, that made code much faster lowers the threshold to
/// three quarters, and one that brought little or took above a hundred raises it to five; both
/// are rounded up, and stay between a hundred and ten thousand.
pub proof fn law_thresholds_move_by_a_quarter(
    current: u32,
    compilation_time_us: u64,
    speedup: Speedup,
)
    requires
        current <= 10_000,
    ensures
        ({
            let next = tuned(current, compilation_time_us, speedup);
            &&& speedup is Strong && compilation_time_us < 10_000 ==> 3 * current <= 4 * next < 3
                * current + 4
            &&& speedup is Weak || (compilation_time_us > 100_000) ==> 5 * current <= 4 * next < 5
                * current + 4
            &&& !(speedup is Strong && compilation_time_us < 10_000) && !(speedup is Weak)
                && compilation_time_us <= 100_000 ==> next == current
            &&& clamped(next) == if next < 100 {
                100
            } else if next > 10_000 {
                10_000
            } else {
                next
            }
        }),
{
}

} // verus!
