//! Situational utility injection: deciding, from the metadata of the window in
//! front, when the app should offer its memories without being asked.
//!
//! Time is read from a monotonic clock as nanoseconds since a fixed start; a
//! reading earlier than a stored one counts as no time elapsed.
use vstd::prelude::*;

verus! {

/// How long after an activation every further signal is ignored (15 minutes).
pub const COOLDOWN_NANOS: u64 = 900_000_000_000;

/// How long a matching context must persist before it activates (3 seconds).
pub const CONFIRMATION_NANOS: u64 = 3_000_000_000;

/// The pattern, matched case-insensitively anywhere in a field, that marks a
/// transactional context.
pub const TRANSACTIONAL_PATTERN: &'static str =
    "(?i)checkout|billing|cart|pricing|buy|payment|subscribe|order|receipt";

/// Metadata of the window in front, as the native side reports it.
pub struct WindowMetadata {
    pub app_name: String,
    pub title: String,
    pub url: String,
    pub error: Option<String>,
}

/// What the trigger remembers between two readings of the window metadata.
#[derive(Clone, Copy, Debug)]
pub struct IntentState {
    /// When the last activation happened.
    pub last_triggered: Option<u64>,
    /// Since when a matching context has been seen without interruption.
    pub confirmation_start: Option<u64>,
    pub current_context_hash: u64,
}

impl Default for IntentState {
    fn default() -> (s: Self)
        ensures
            s.last_triggered is None,
            s.confirmation_start is None,
            s.current_context_hash == 0,
    {
        IntentState { last_triggered: None, confirmation_start: None, current_context_hash: 0 }
    }
}

/// The outcome of one reading of the window metadata.
#[derive(PartialEq, Eq, Structural, Clone, Copy, Debug)]
pub enum TriggerDecision {
    Ignore,
    Monitoring,
    NeedVisual,
    Activate,
}

/// `regex::Regex`, carried through the library as an opaque value.
#[verifier::external_type_specification]
#[verifier::external_body]
pub struct ExRegex(regex::Regex);

/// Whether `regex::Regex::new(pattern)` succeeds.
pub uninterp spec fn regex_compiles(pattern: Seq<char>) -> bool;

/// What `Regex::is_match(haystack)` returns for the regex compiled from
/// `pattern`: whether it matches somewhere in the haystack.
pub uninterp spec fn regex_matches(pattern: Seq<char>, haystack: Seq<char>) -> bool;

/// A compiled regex together with the pattern it was compiled from. Only
/// `compile_pattern` builds one, so the two always agree.
pub struct CompiledPattern {
    re: regex::Regex,
    pattern: Ghost<Seq<char>>,
}

impl CompiledPattern {
    /// The pattern the regex was compiled from.
    pub closed spec fn source(&self) -> Seq<char> {
        self.pattern@
    }
}

/// Compiles `pattern` with `regex::Regex::new`. Trusted: it succeeds exactly
/// where the named `regex_compiles` holds, and the result remembers the
/// pattern it came from.
#[verifier::external_body]
fn compile_pattern(pattern: &str) -> (r: Option<CompiledPattern>)
    ensures
        r is Some <==> regex_compiles(pattern@),
        r matches Some(c) ==> c.source() == pattern@,
{
    match regex::Regex::new(pattern) {
        Ok(re) => Some(CompiledPattern { re, pattern: Ghost(pattern@) }),
        Err(_) => None,
    }
}

/// Runs `regex::Regex::is_match` on `haystack`. Trusted: the result is the
/// named `regex_matches` of the pattern the regex was compiled from and the
/// haystack, which depends on those two alone.
#[verifier::external_body]
fn pattern_is_match(c: &CompiledPattern, haystack: &str) -> (b: bool)
    ensures
        b == regex_matches(c.source(), haystack@),
{
    c.re.is_match(haystack)
}

/// A field marks a transactional context: the pattern compiles and matches it.
pub open spec fn field_is_transactional(field: Seq<char>) -> bool {
    regex_compiles(TRANSACTIONAL_PATTERN@) && regex_matches(TRANSACTIONAL_PATTERN@, field)
}

/// The window's title, URL or application name marks a transactional context.
pub open spec fn metadata_matches(m: WindowMetadata) -> bool {
    field_is_transactional(m.title@) || field_is_transactional(m.url@)
        || field_is_transactional(m.app_name@)
}

/// Time from `since` to `now`, zero when `now` is earlier.
pub open spec fn elapsed(since: u64, now: u64) -> int {
    if now >= since {
        now - since
    } else {
        0
    }
}

/// An activation happened less than the cooldown before `now`.
pub open spec fn in_cooldown(s: IntentState, now: u64) -> bool {
    s.last_triggered matches Some(last) && elapsed(last, now) < COOLDOWN_NANOS
}

/// The state and decision after one reading at time `now`, where `matched`
/// tells whether the metadata marks a transactional context.
pub open spec fn next_intent(s: IntentState, matched: bool, now: u64) -> (IntentState, TriggerDecision) {
    if in_cooldown(s, now) {
        (s, TriggerDecision::Ignore)
    } else if !matched {
        (IntentState { confirmation_start: None, ..s }, TriggerDecision::Ignore)
    } else {
        match s.confirmation_start {
            None => (IntentState { confirmation_start: Some(now), ..s }, TriggerDecision::Monitoring),
            Some(start) => if elapsed(start, now) >= CONFIRMATION_NANOS {
                (
                    IntentState { last_triggered: Some(now), confirmation_start: None, ..s },
                    TriggerDecision::Activate,
                )
            } else {
                (s, TriggerDecision::Monitoring)
            },
        }
    }
}

fn is_transactional(pattern: &Option<CompiledPattern>, field: &String) -> (b: bool)
    requires
        pattern is Some <==> regex_compiles(TRANSACTIONAL_PATTERN@),
        pattern matches Some(c) ==> c.source() == TRANSACTIONAL_PATTERN@,
    ensures
        b == field_is_transactional(field@),
{
    match pattern {
        Some(c) => pattern_is_match(c, field.as_str()),
        None => false,
    }
}

fn elapsed_since(since: u64, now: u64) -> (e: u64)
    ensures
        e == elapsed(since, now),
{
    if now >= since {
        now - since
    } else {
        0
    }
}

/// Decides on one reading at time `now` (nanoseconds on the monotonic clock),
/// given whether the metadata matched: within the cooldown after an
/// activation everything is ignored; a context that does not match ends any
/// confirmation; a matching context starts a confirmation and activates once
/// it has been seen continuously for the confirmation time.
pub fn decide_trigger(state: &mut IntentState, matched: bool, now: u64) -> (d: TriggerDecision)
    ensures
        (*final(state), d) == next_intent(*old(state), matched, now),
{
    if let Some(last) = state.last_triggered {
        if elapsed_since(last, now) < COOLDOWN_NANOS {
            return TriggerDecision::Ignore;
        }
    }
    if !matched {
        state.confirmation_start = None;
        return TriggerDecision::Ignore;
    }
    match state.confirmation_start {
        None => {
            state.confirmation_start = Some(now);
            TriggerDecision::Monitoring
        },
        Some(start) => {
            if elapsed_since(start, now) >= CONFIRMATION_NANOS {
                state.last_triggered = Some(now);
                state.confirmation_start = None;
                TriggerDecision::Activate
            } else {
                TriggerDecision::Monitoring
            }
        },
    }
}

/// Reads the window metadata at time `now` (nanoseconds on the monotonic
/// clock): it matches when its title, URL or application name marks a
/// transactional context, and the decision is then that of `decide_trigger`.
pub fn process_metadata_trigger(
    metadata: &WindowMetadata,
    state: &mut IntentState,
    now: u64,
) -> (d: TriggerDecision)
    ensures
        (*final(state), d) == next_intent(*old(state), metadata_matches(*metadata), now),
        (*final(state), d) == next_intent(
            *old(state),
            field_is_transactional(metadata.title@) || field_is_transactional(metadata.url@)
                || field_is_transactional(metadata.app_name@),
            now,
        ),
{
    proof {
        lemma_any_field_matches(*metadata);
    }
    let pattern = compile_pattern(TRANSACTIONAL_PATTERN);
    let matched = is_transactional(&pattern, &metadata.title) || is_transactional(
        &pattern,
        &metadata.url,
    ) || is_transactional(&pattern, &metadata.app_name);
    decide_trigger(state, matched, now)
}

/// The state after a run of readings, each a pair of whether the metadata
/// matched and the time of the reading.
pub open spec fn run_intents(s: IntentState, events: Seq<(bool, u64)>) -> IntentState
    decreases events.len(),
{
    if events.len() == 0 {
        s
    } else {
        next_intent(run_intents(s, events.drop_last()), events.last().0, events.last().1).0
    }
}

/// The decision at reading `k` of a run.
pub open spec fn decision_at(s: IntentState, events: Seq<(bool, u64)>, k: int) -> TriggerDecision {
    next_intent(run_intents(s, events.take(k)), events[k].0, events[k].1).1
}

/// The readings come at times that never go backwards.
pub open spec fn times_monotone(events: Seq<(bool, u64)>) -> bool {
    forall|a: int, b: int| 0 <= a <= b < events.len() ==> #[trigger] events[a].1 <= #[trigger] events[b].1
}

proof fn lemma_run_step(s: IntentState, events: Seq<(bool, u64)>, i: int)
    requires
        0 <= i < events.len(),
    ensures
        run_intents(s, events.take(i + 1)) == next_intent(run_intents(s, events.take(i)), events[i].0, events[i].1).0,
{
    assert(events.take(i + 1).drop_last() =~= events.take(i));
    assert(events.take(i + 1).last() == events[i]);
}

spec fn confirmation_witnessed(s: IntentState, st: IntentState, events: Seq<(bool, u64)>, i: int) -> bool {
    st.confirmation_start matches Some(t) ==> {
        &&& exists|j: int| 0 <= j < i && (#[trigger] events[j]).1 == t && decision_at(s, events, j) == TriggerDecision::Monitoring && forall|x: int| j <= x < i ==> (#[trigger] events[x]).0
        &&& st.last_triggered matches Some(l) ==> t >= l && t - l >= COOLDOWN_NANOS
    }
}

proof fn lemma_confirmation_invariant(s: IntentState, events: Seq<(bool, u64)>, i: int)
    requires
        times_monotone(events),
        s.confirmation_start is None,
        0 <= i <= events.len(),
    ensures
        confirmation_witnessed(s, run_intents(s, events.take(i)), events, i),
    decreases i,
{
    if i == 0 {
        assert(events.take(0) =~= Seq::<(bool, u64)>::empty());
    } else {
        lemma_confirmation_invariant(s, events, i - 1);
        lemma_run_step(s, events, i - 1);
        let st = run_intents(s, events.take(i - 1));
        let ev = events[i - 1];
        let st2 = run_intents(s, events.take(i));
        if let Some(t) = st.confirmation_start {
            let j = choose|j: int| 0 <= j < i - 1 && (#[trigger] events[j]).1 == t && decision_at(s, events, j) == TriggerDecision::Monitoring && forall|x: int| j <= x < i - 1 ==> (#[trigger] events[x]).0;
            assert(events[j].1 <= events[i - 1].1);
            if let Some(l) = st.last_triggered {
                assert(!in_cooldown(st, ev.1));
            }
            if st2.confirmation_start is Some && ev.0 {
                assert(st2 == st || st2.confirmation_start == Some(ev.1));
                if st2 == st {
                    assert forall|x: int| j <= x < i implies (#[trigger] events[x]).0 by {
                        if x < i - 1 {
                        }
                    }
                }
            }
        }
        if st2.confirmation_start is Some {
            if st.confirmation_start is None {
                assert(st2.confirmation_start == Some(ev.1));
                assert(decision_at(s, events, i - 1) == TriggerDecision::Monitoring);
                assert(forall|x: int| i - 1 <= x < i ==> (#[trigger] events[x]).0);
            }
        }
    }
}

/// A matching context must persist: from a state with no confirmation under
/// way, an activation at reading `k` of a run whose times never go backwards
/// comes only after a reading that was answered with Monitoring at least the
/// confirmation time earlier, and every reading from that one up to `k`
/// matched.
pub proof fn lemma_activation_requires_persistent_match(s: IntentState, events: Seq<(bool, u64)>, k: int)
    requires
        times_monotone(events),
        s.confirmation_start is None,
        0 <= k < events.len(),
        decision_at(s, events, k) == TriggerDecision::Activate,
    ensures
        exists|j: int|
            0 <= j < k && events[k].1 - (#[trigger] events[j]).1 >= CONFIRMATION_NANOS && decision_at(s, events, j)
                == TriggerDecision::Monitoring && forall|x: int| j <= x <= k ==> (#[trigger] events[x]).0,
{
    lemma_confirmation_invariant(s, events, k);
    let st = run_intents(s, events.take(k));
    let t = st.confirmation_start->Some_0;
    let j = choose|j: int| 0 <= j < k && (#[trigger] events[j]).1 == t && decision_at(s, events, j) == TriggerDecision::Monitoring && forall|x: int| j <= x < k ==> (#[trigger] events[x]).0;
    assert(events[j].1 <= events[k].1);
    assert forall|x: int| j <= x <= k implies (#[trigger] events[x]).0 by {
        if x < k {
        }
    }
}

/// Once activated, the trigger stays quiet for the cooldown: in a run whose
/// times never go backwards, every reading after an activation and less than
/// the cooldown later is ignored.
pub proof fn lemma_no_activation_within_cooldown(s: IntentState, events: Seq<(bool, u64)>, k: int, i: int)
    requires
        times_monotone(events),
        0 <= k < i < events.len(),
        decision_at(s, events, k) == TriggerDecision::Activate,
        events[i].1 - events[k].1 < COOLDOWN_NANOS,
    ensures
        decision_at(s, events, i) == TriggerDecision::Ignore,
        run_intents(s, events.take(i)) == run_intents(s, events.take(k + 1)),
    decreases i - k,
{
    lemma_run_step(s, events, k);
    let after = run_intents(s, events.take(k + 1));
    assert(after.last_triggered == Some(events[k].1));
    if i == k + 1 {
    } else {
        assert(events[i - 1].1 <= events[i].1);
        lemma_no_activation_within_cooldown(s, events, k, i - 1);
        lemma_run_step(s, events, i - 1);
        assert(events[k].1 <= events[i - 1].1);
    }
    assert(events[k].1 <= events[i].1);
}


proof fn lemma_last_trigger_after(s: IntentState, events: Seq<(bool, u64)>, k: int, i: int)
    requires
        times_monotone(events),
        0 <= k < i <= events.len(),
        decision_at(s, events, k) == TriggerDecision::Activate,
    ensures
        run_intents(s, events.take(i)).last_triggered matches Some(l) && events[k].1 <= l <= events[i - 1].1,
    decreases i - k,
{
    lemma_run_step(s, events, i - 1);
    if i > k + 1 {
        lemma_last_trigger_after(s, events, k, i - 1);
        assert(events[i - 2].1 <= events[i - 1].1);
    }
}

/// Two activations are at least the cooldown plus the confirmation time apart:
/// in a run whose times never go backwards, from a state with no confirmation
/// under way, activations at readings `k1 < k2` are 903 seconds apart or more.
pub proof fn lemma_activations_far_apart(s: IntentState, events: Seq<(bool, u64)>, k1: int, k2: int)
    requires
        times_monotone(events),
        s.confirmation_start is None,
        0 <= k1 < k2 < events.len(),
        decision_at(s, events, k1) == TriggerDecision::Activate,
        decision_at(s, events, k2) == TriggerDecision::Activate,
    ensures
        events[k2].1 - events[k1].1 >= COOLDOWN_NANOS + CONFIRMATION_NANOS,
{
    lemma_last_trigger_after(s, events, k1, k2);
    lemma_confirmation_invariant(s, events, k2);
    let st = run_intents(s, events.take(k2));
    let l = st.last_triggered->Some_0;
    let t = st.confirmation_start->Some_0;
    let j = choose|j: int| 0 <= j < k2 && (#[trigger] events[j]).1 == t && decision_at(s, events, j) == TriggerDecision::Monitoring && forall|x: int| j <= x < k2 ==> (#[trigger] events[x]).0;
    assert(events[j].1 <= events[k2].1);
}

/// The trigger never asks for a visual check, and never changes the context
/// hash.
pub proof fn lemma_decision_never_needs_visual(s: IntentState, matched: bool, now: u64)
    ensures
        next_intent(s, matched, now).1 != TriggerDecision::NeedVisual,
        next_intent(s, matched, now).0.current_context_hash == s.current_context_hash,
{
}

/// Over any run of readings the context hash stays what it was, so from the
/// default state it stays 0, and no reading is answered with NeedVisual.
pub proof fn lemma_run_keeps_context_hash(s: IntentState, events: Seq<(bool, u64)>)
    ensures
        run_intents(s, events).current_context_hash == s.current_context_hash,
        forall|k: int| 0 <= k < events.len() ==> #[trigger] decision_at(s, events, k) != TriggerDecision::NeedVisual,
    decreases events.len(),
{
    if events.len() > 0 {
        lemma_run_keeps_context_hash(s, events.drop_last());
    }
}


/// A reading matches when any one of its title, URL or application name marks
/// a transactional context, whatever the other two hold; and only then.
pub proof fn lemma_any_field_matches(m: WindowMetadata)
    ensures
        field_is_transactional(m.title@) ==> metadata_matches(m),
        field_is_transactional(m.url@) ==> metadata_matches(m),
        field_is_transactional(m.app_name@) ==> metadata_matches(m),
        metadata_matches(m) ==> field_is_transactional(m.title@) || field_is_transactional(m.url@)
            || field_is_transactional(m.app_name@),
{
}

/// Outside the cooldown and with no confirmation under way, a reading in which
/// any one field marks a transactional context starts a confirmation at that
/// moment and is answered with Monitoring; one in which no field does is
/// ignored and starts nothing.
pub proof fn lemma_matching_field_starts_confirmation(s: IntentState, m: WindowMetadata, now: u64)
    requires
        !in_cooldown(s, now),
        s.confirmation_start is None,
    ensures
        field_is_transactional(m.title@) || field_is_transactional(m.url@) || field_is_transactional(
            m.app_name@,
        ) ==> next_intent(s, metadata_matches(m), now) == (
            IntentState { confirmation_start: Some(now), ..s },
            TriggerDecision::Monitoring,
        ),
        !(field_is_transactional(m.title@) || field_is_transactional(m.url@) || field_is_transactional(
            m.app_name@,
        )) ==> next_intent(s, metadata_matches(m), now) == (s, TriggerDecision::Ignore),
{
    lemma_any_field_matches(m);
}

} // verus!
