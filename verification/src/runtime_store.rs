//! What the daemon remembers of one server between messages and across restarts: the messages it
//! has handled, those it is handling, and how its attempts to connect have fared.

use vstd::prelude::*;

use crate::clock;
use crate::clock::Timestamp;
use crate::retry;
use crate::retry::{RetryConfig, StormGuardConfig};
use crate::text;

verus! {

/// The state of a series of failed attempts to connect.
#[derive(Debug, Clone)]
pub struct ReconnectStormState {
    pub consecutive_failures: u32,
    pub cooldown_ms: Option<u64>,
    pub next_attempt_at: Option<String>,
    pub last_error_kind: Option<String>,
}

pub struct StormView {
    pub consecutive_failures: u32,
    pub cooldown_ms: Option<u64>,
    pub next_attempt_at: Option<Seq<char>>,
    pub last_error_kind: Option<Seq<char>>,
}

impl View for ReconnectStormState {
    type V = StormView;

    open spec fn view(&self) -> StormView {
        StormView {
            consecutive_failures: self.consecutive_failures,
            cooldown_ms: self.cooldown_ms,
            next_attempt_at: text::opt_text(self.next_attempt_at),
            last_error_kind: text::opt_text(self.last_error_kind),
        }
    }
}

pub open spec fn calm() -> StormView {
    StormView {
        consecutive_failures: 0,
        cooldown_ms: None,
        next_attempt_at: None,
        last_error_kind: None,
    }
}

impl Default for ReconnectStormState {
    fn default() -> (storm: Self)
        ensures
            storm@ == calm(),
    {
        ReconnectStormState {
            consecutive_failures: 0,
            cooldown_ms: None,
            next_attempt_at: None,
            last_error_kind: None,
        }
    }
}

impl ReconnectStormState {
    fn copy(&self) -> (copy: Self)
        ensures
            copy == *self,
    {
        ReconnectStormState {
            consecutive_failures: self.consecutive_failures,
            cooldown_ms: self.cooldown_ms,
            next_attempt_at: text::copy_opt(&self.next_attempt_at),
            last_error_kind: text::copy_opt(&self.last_error_kind),
        }
    }
}

/// A pause after too many failed attempts to connect.
#[derive(Debug, Clone)]
pub struct ReconnectCooldown {
    pub consecutive_failures: u32,
    pub cooldown_ms: u64,
    pub next_attempt_at: String,
    pub last_error_kind: Option<String>,
}

pub struct CooldownView {
    pub consecutive_failures: u32,
    pub cooldown_ms: u64,
    pub next_attempt_at: Seq<char>,
    pub last_error_kind: Option<Seq<char>>,
}

impl View for ReconnectCooldown {
    type V = CooldownView;

    open spec fn view(&self) -> CooldownView {
        CooldownView {
            consecutive_failures: self.consecutive_failures,
            cooldown_ms: self.cooldown_ms,
            next_attempt_at: self.next_attempt_at@,
            last_error_kind: text::opt_text(self.last_error_kind),
        }
    }
}

pub open spec fn opt_cooldown(cooldown: Option<ReconnectCooldown>) -> Option<CooldownView> {
    match cooldown {
        Some(c) => Some(c@),
        None => None,
    }
}

/// What is kept of a [`RuntimeStore`] across restarts.
#[derive(Debug, Clone)]
pub struct RuntimeFile {
    pub last_seen_ts: Option<String>,
    pub recent_ids: Vec<String>,
    pub reconnect_storm: ReconnectStormState,
}

/// The runtime state of one server.
#[derive(Debug)]
pub struct RuntimeStore {
    dedupe_window_size: usize,
    discard_before_ts: Option<String>,
    last_seen_ts: Option<String>,
    recent_ids: Vec<String>,
    pending_ids: Vec<String>,
    reconnect_storm: ReconnectStormState,
    failure_window_started_at: Option<Timestamp>,
}

pub struct RuntimeView {
    /// How many handled messages are remembered.
    pub window: nat,
    /// Messages before this timestamp are dropped.
    pub floor: Option<Seq<char>>,
    pub last_seen: Option<Seq<char>>,
    /// The handled messages that are remembered, oldest first.
    pub recent: Seq<Seq<char>>,
    /// The messages being handled.
    pub pending: Set<Seq<char>>,
    pub storm: StormView,
    /// When the failures that are being counted began, in nanoseconds from the Unix epoch.
    pub failures_since: Option<int>,
}

pub open spec fn opt_instant(instant: Option<Timestamp>) -> Option<int> {
    match instant {
        Some(t) => Some(t@),
        None => None,
    }
}

// ---------------------------------------------------------------------------
// Handled messages
// ---------------------------------------------------------------------------

/// The last `window` elements of `s`.
pub open spec fn last_of(s: Seq<Seq<char>>, window: nat) -> Seq<Seq<char>> {
    if s.len() > window {
        s.skip(s.len() - window)
    } else {
        s
    }
}

/// The remembered messages after `id` has been handled.
pub open spec fn remembered(recent: Seq<Seq<char>>, id: Seq<char>, window: nat) -> Seq<Seq<char>> {
    last_of(
        if recent.contains(id) {
            recent
        } else {
            recent.push(id)
        },
        window,
    )
}

/// The remembered messages after all of `ids` have been handled, in order.
pub open spec fn remembered_all(ids: Seq<Seq<char>>, window: nat) -> Seq<Seq<char>>
    decreases ids.len(),
{
    if ids.len() == 0 {
        Seq::empty()
    } else {
        remembered(remembered_all(ids.drop_last(), window), ids.last(), window)
    }
}

/// Whether a message of the given timestamp lies before the floor. Timestamps are compared as
/// instants where both are in RFC 3339 notation, and as texts otherwise.
pub open spec fn before_floor(timestamp: Seq<char>, floor: Option<Seq<char>>) -> bool {
    match floor {
        None => false,
        Some(floor) => match (clock::rfc3339_nanos(timestamp), clock::rfc3339_nanos(floor)) {
            (Some(t), Some(f)) => t < f,
            _ => text::precedes(timestamp, floor),
        },
    }
}

/// Whether a message of the given timestamp lies before the floor.
pub fn timestamp_before_floor(timestamp: &str, floor: &Option<String>) -> (before: bool)
    ensures
        before == before_floor(timestamp@, text::opt_text(*floor)),
{
    match floor {
        None => false,
        Some(floor) => match (Timestamp::parse(timestamp), Timestamp::parse(floor.as_str())) {
            (Some(t), Some(f)) => t.is_before(&f),
            _ => text::is_before(timestamp, floor.as_str()),
        },
    }
}

/// The timestamp of the latest message seen, after one with the given timestamp.
pub open spec fn later_seen(last_seen: Option<Seq<char>>, timestamp: Seq<char>) -> Option<Seq<char>> {
    match last_seen {
        Some(current) => if text::precedes(current, timestamp) {
            Some(timestamp)
        } else {
            Some(current)
        },
        None => Some(timestamp),
    }
}

// ---------------------------------------------------------------------------
// Failed attempts to connect
// ---------------------------------------------------------------------------

/// The span of time, in nanoseconds, within which failures are counted together.
pub open spec fn failure_window_nanos(guard: StormGuardConfig) -> int {
    (guard.failure_window_ms as i64) * clock::NANOS_PER_MS
}

/// Whether a failure at `now` begins a new count.
pub open spec fn count_restarts(
    storm: StormView,
    since: Option<int>,
    now: int,
    guard: StormGuardConfig,
) -> bool {
    storm.cooldown_ms is None && (since is None || now - since->0 > failure_window_nanos(guard))
}

/// The number of failures in a row, with one more at `now`.
pub open spec fn failures_with_one_more(
    storm: StormView,
    since: Option<int>,
    now: int,
    guard: StormGuardConfig,
) -> u32 {
    if count_restarts(storm, since, now, guard) {
        1
    } else if storm.consecutive_failures == u32::MAX {
        u32::MAX
    } else {
        (storm.consecutive_failures + 1) as u32
    }
}

/// The pause that follows, before it is varied at random: twice the last one, within the limit.
pub open spec fn base_cooldown(storm: StormView, guard: StormGuardConfig) -> u64 {
    let wanted = match storm.cooldown_ms {
        Some(last) => retry::doubled(last),
        None => guard.cooldown_ms,
    };
    if wanted <= guard.max_cooldown_ms {
        wanted
    } else {
        guard.max_cooldown_ms
    }
}

/// The pause that another failure at `now` would bring, before it is varied at random; nothing
/// where there are too few failures.
pub open spec fn cooldown_due(
    storm: StormView,
    since: Option<int>,
    now: int,
    guard: StormGuardConfig,
) -> Option<u64> {
    if failures_with_one_more(storm, since, now, guard) < guard.consecutive_failure_threshold {
        None
    } else {
        Some(base_cooldown(storm, guard))
    }
}

/// The pause as it is applied: `varied_ms`, within the limit.
pub open spec fn effective_cooldown(varied_ms: u64, guard: StormGuardConfig) -> u64 {
    if varied_ms <= guard.max_cooldown_ms {
        varied_ms
    } else {
        guard.max_cooldown_ms
    }
}

pub open spec fn capped_ms(ms: u64) -> u64 {
    if ms <= i64::MAX {
        ms
    } else {
        i64::MAX as u64
    }
}

/// When the next attempt is made after a pause of `ms` from `now` on.
pub open spec fn attempt_instant(now: int, ms: u64) -> int {
    now + capped_ms(ms) * clock::NANOS_PER_MS
}

/// The state after a failure at `now`; `varied_ms` is the due pause, varied at random.
pub open spec fn storm_after(
    storm: StormView,
    since: Option<int>,
    now: int,
    guard: StormGuardConfig,
    kind: Seq<char>,
    varied_ms: u64,
) -> StormView {
    let failures = failures_with_one_more(storm, since, now, guard);
    if cooldown_due(storm, since, now, guard) is None {
        StormView { consecutive_failures: failures, last_error_kind: Some(kind), ..storm }
    } else {
        let ms = effective_cooldown(varied_ms, guard);
        StormView {
            consecutive_failures: failures,
            cooldown_ms: Some(ms),
            next_attempt_at: Some(clock::instant_text(attempt_instant(now, ms))),
            last_error_kind: Some(kind),
        }
    }
}

/// The pause that the state prescribes.
pub open spec fn cooldown_of(storm: StormView) -> Option<CooldownView> {
    if storm.cooldown_ms is Some && storm.next_attempt_at is Some {
        Some(
            CooldownView {
                consecutive_failures: storm.consecutive_failures,
                cooldown_ms: storm.cooldown_ms->0,
                next_attempt_at: storm.next_attempt_at->0,
                last_error_kind: storm.last_error_kind,
            },
        )
    } else {
        None
    }
}

/// How long, in milliseconds, is left at `now` of a pause that ends at `next_attempt_at`.
pub open spec fn remaining_ms(next_attempt_at: Seq<char>, now: int) -> int {
    match clock::rfc3339_nanos(next_attempt_at) {
        Some(next) => if next > now {
            (next - now) / (clock::NANOS_PER_MS as int)
        } else {
            0
        },
        None => 0,
    }
}

impl ReconnectCooldown {
    /// How long, in milliseconds, is left of the pause.
    pub fn wait_ms(&self, now: Timestamp) -> (ms: u64)
        ensures
            ms == remaining_ms(self@.next_attempt_at, now@),
    {
        match Timestamp::parse(self.next_attempt_at.as_str()) {
            Some(next) => {
                if now.is_before(&next) {
                    let span: i128 = next.nanos_since(&now);
                    (span / clock::NANOS_PER_MS) as u64
                } else {
                    0
                }
            },
            None => 0,
        }
    }
}

// ---------------------------------------------------------------------------
// The store
// ---------------------------------------------------------------------------

/// The runtime state after a failure at `now`.
pub open spec fn after_failure(
    store: RuntimeView,
    now: int,
    guard: StormGuardConfig,
    kind: Seq<char>,
    varied_ms: u64,
) -> RuntimeView {
    RuntimeView {
        storm: storm_after(store.storm, store.failures_since, now, guard, kind, varied_ms),
        failures_since: if count_restarts(store.storm, store.failures_since, now, guard) {
            Some(now)
        } else {
            store.failures_since
        },
        ..store
    }
}

/// Whether a message is taken up: it is not before the floor, not remembered and not being handled.
pub open spec fn takes_up(store: RuntimeView, id: Seq<char>, timestamp: Seq<char>) -> bool {
    !before_floor(timestamp, store.floor) && !store.recent.contains(id) && !store.pending.contains(
        id,
    )
}

/// The runtime state after a message has been offered.
pub open spec fn after_offer(store: RuntimeView, id: Seq<char>, timestamp: Seq<char>) -> RuntimeView {
    if takes_up(store, id, timestamp) {
        RuntimeView { pending: store.pending.insert(id), ..store }
    } else {
        store
    }
}

/// The runtime state after the handling of a message has failed.
pub open spec fn after_abandon(store: RuntimeView, id: Seq<char>) -> RuntimeView {
    RuntimeView { pending: store.pending.remove(id), ..store }
}

/// The runtime state after a message has been handled.
pub open spec fn after_handling(
    store: RuntimeView,
    id: Seq<char>,
    timestamp: Seq<char>,
) -> RuntimeView {
    RuntimeView {
        pending: store.pending.remove(id),
        recent: remembered(store.recent, id, store.window),
        last_seen: later_seen(store.last_seen, timestamp),
        ..store
    }
}

/// The runtime state that begins with what a file has kept.
pub open spec fn restored(
    file: RuntimeFile,
    window: nat,
    floor: Option<Seq<char>>,
    now: int,
) -> RuntimeView {
    RuntimeView {
        window,
        floor,
        last_seen: text::opt_text(file.last_seen_ts),
        recent: remembered_all(text::texts(file.recent_ids@), window),
        pending: Set::empty(),
        storm: file.reconnect_storm@,
        failures_since: if file.reconnect_storm@.consecutive_failures > 0
            && file.reconnect_storm@.cooldown_ms is None {
            Some(now)
        } else {
            None
        },
    }
}

/// The runtime state of a server that is new.
pub open spec fn blank(window: nat, floor: Option<Seq<char>>) -> RuntimeView {
    RuntimeView {
        window,
        floor,
        last_seen: None,
        recent: Seq::empty(),
        pending: Set::empty(),
        storm: calm(),
        failures_since: None,
    }
}

impl View for RuntimeStore {
    type V = RuntimeView;

    closed spec fn view(&self) -> RuntimeView {
        RuntimeView {
            window: self.dedupe_window_size as nat,
            floor: text::opt_text(self.discard_before_ts),
            last_seen: text::opt_text(self.last_seen_ts),
            recent: text::texts(self.recent_ids@),
            pending: text::texts(self.pending_ids@).to_set(),
            storm: self.reconnect_storm@,
            failures_since: opt_instant(self.failure_window_started_at),
        }
    }
}

/// Removes the only occurrence of `id` from a list.
fn remove_id(ids: &mut Vec<String>, id: &str)
    requires
        text::texts(old(ids)@).no_duplicates(),
    ensures
        text::texts(final(ids)@).no_duplicates(),
        text::texts(final(ids)@).to_set() == text::texts(old(ids)@).to_set().remove(id@),
{
    let ghost before = text::texts(ids@);
    match text::position(ids, id) {
        Some(i) => {
            ids.remove(i);
            let ghost after = text::texts(ids@);
            proof {
                assert(before[i as int] == id@);
                assert(after == before.remove(i as int));
                assert forall|a: int, b: int|
                    0 <= a < after.len() && 0 <= b < after.len() && a != b implies after[a]
                    != after[b] by {
                    let a0 = if a < i { a } else { a + 1 };
                    let b0 = if b < i { b } else { b + 1 };
                    assert(after[a] == before[a0] && after[b] == before[b0]);
                }
                assert forall|x: Seq<char>| after.to_set().contains(x) <==> before.to_set().remove(
                    id@,
                ).contains(x) by {
                    if after.contains(x) {
                        let k = choose|k: int| 0 <= k < after.len() && after[k] == x;
                        let k0 = if k < i { k } else { k + 1 };
                        assert(before[k0] == x);
                    }
                    if before.contains(x) && x != id@ {
                        let k = choose|k: int| 0 <= k < before.len() && before[k] == x;
                        let k1 = if k < i { k } else { k - 1 };
                        assert(after[k1] == x);
                    }
                }
                assert(after.to_set() =~= before.to_set().remove(id@));
            }
        },
        None => {
            assert(before.to_set() =~= before.to_set().remove(id@));
        },
    }
}

impl RuntimeStore {
    /// No message is remembered twice, none is being handled twice, and no more are remembered
    /// than the window holds.
    pub closed spec fn wf(&self) -> bool {
        &&& text::texts(self.recent_ids@).no_duplicates()
        &&& self.recent_ids@.len() <= self.dedupe_window_size
        &&& text::texts(self.pending_ids@).no_duplicates()
    }

    /// No message is remembered twice, no more are remembered than the window holds, and finitely
    /// many are being handled.
    pub proof fn law_memory_is_bounded(&self)
        requires
            self.wf(),
        ensures
            self@.recent.no_duplicates(),
            self@.recent.len() <= self@.window,
            self@.pending.finite(),
    {
        vstd::seq_lib::seq_to_set_is_finite(text::texts(self.pending_ids@));
    }

    /// The runtime state of a server: what `file` has kept, or a blank one.
    pub fn load(
        file: Option<RuntimeFile>,
        dedupe_window_size: usize,
        discard_before_ts: Option<String>,
        now: Timestamp,
    ) -> (store: RuntimeStore)
        ensures
            store.wf(),
            store@ == match file {
                Some(file) => restored(
                    file,
                    dedupe_window_size as nat,
                    text::opt_text(discard_before_ts),
                    now@,
                ),
                None => blank(dedupe_window_size as nat, text::opt_text(discard_before_ts)),
            },
    {
        match file {
            None => {
                let store = RuntimeStore {
                    dedupe_window_size,
                    discard_before_ts,
                    last_seen_ts: None,
                    recent_ids: Vec::new(),
                    pending_ids: Vec::new(),
                    reconnect_storm: ReconnectStormState::default(),
                    failure_window_started_at: None,
                };
                assert(store@.recent == Seq::<Seq<char>>::empty());
                assert(store@.pending =~= Set::<Seq<char>>::empty());
                store
            },
            Some(file) => {
                let ghost ids = text::texts(file.recent_ids@);
                let counting = file.reconnect_storm.consecutive_failures > 0
                    && file.reconnect_storm.cooldown_ms.is_none();
                let mut store = RuntimeStore {
                    dedupe_window_size,
                    discard_before_ts,
                    last_seen_ts: file.last_seen_ts,
                    recent_ids: Vec::new(),
                    pending_ids: Vec::new(),
                    reconnect_storm: file.reconnect_storm,
                    failure_window_started_at: if counting {
                        Some(now)
                    } else {
                        None
                    },
                };
                let ghost first = store@;
                assert(store@.recent == Seq::<Seq<char>>::empty());
                assert(store@.pending =~= Set::<Seq<char>>::empty());
                assert(ids.take(0) == Seq::<Seq<char>>::empty());
                let mut i: usize = 0;
                while i < file.recent_ids.len()
                    invariant
                        i <= file.recent_ids.len(),
                        ids == text::texts(file.recent_ids@),
                        store.wf(),
                        store@ == (RuntimeView {
                            recent: remembered_all(ids.take(i as int), first.window),
                            ..first
                        }),
                    decreases file.recent_ids.len() - i,
                {
                    let ghost before = store@;
                    store.insert_recent(file.recent_ids[i].clone());
                    assert(ids.take(i + 1).drop_last() == ids.take(i as int));
                    assert(ids.take(i + 1).last() == file.recent_ids@[i as int]@);
                    i = i + 1;
                }
                assert(ids.take(ids.len() as int) == ids);
                store
            },
        }
    }

    fn insert_recent(&mut self, id: String)
        requires
            old(self).wf(),
        ensures
            final(self).wf(),
            final(self)@ == (RuntimeView {
                recent: remembered(old(self)@.recent, id@, old(self)@.window),
                ..old(self)@
            }),
    {
        let ghost before = self@.recent;
        let ghost id_text = id@;
        if !text::list_contains(&self.recent_ids, id.as_str()) {
            self.recent_ids.push(id);
            proof {
                let after = text::texts(self.recent_ids@);
                assert(after == before.push(id_text));
                assert forall|a: int, b: int|
                    0 <= a < after.len() && 0 <= b < after.len() && a != b implies after[a]
                    != after[b] by {
                    if a == before.len() {
                        assert(before[b] != id_text);
                    } else if b == before.len() {
                        assert(before[a] != id_text);
                    }
                }
            }
        }
        if self.recent_ids.len() > self.dedupe_window_size {
            let ghost grown = text::texts(self.recent_ids@);
            self.recent_ids.remove(0);
            let ghost shrunk = text::texts(self.recent_ids@);
            assert(shrunk == grown.skip(1));
            assert forall|a: int, b: int|
                0 <= a < shrunk.len() && 0 <= b < shrunk.len() && a != b implies shrunk[a]
                != shrunk[b] by {
                assert(shrunk[a] == grown[a + 1] && shrunk[b] == grown[b + 1]);
            }
        }
    }

    /// Whether a message is to be taken up; if so, it counts as being handled from now on.
    pub fn should_enqueue(&mut self, message_id: &str, timestamp: &str) -> (taken: bool)
        requires
            old(self).wf(),
        ensures
            final(self).wf(),
            taken == takes_up(old(self)@, message_id@, timestamp@),
            final(self)@ == after_offer(old(self)@, message_id@, timestamp@),
    {
        if timestamp_before_floor(timestamp, &self.discard_before_ts) {
            return false;
        }
        let ghost before = text::texts(self.pending_ids@);
        if text::list_contains(&self.recent_ids, message_id) || text::list_contains(
            &self.pending_ids,
            message_id,
        ) {
            return false;
        }
        self.pending_ids.push(message_id.to_owned());
        proof {
            let after = text::texts(self.pending_ids@);
            assert(after == before.push(message_id@));
            assert forall|a: int, b: int|
                0 <= a < after.len() && 0 <= b < after.len() && a != b implies after[a] != after[b] by {
                if a == before.len() {
                    assert(before[b] != message_id@);
                } else if b == before.len() {
                    assert(before[a] != message_id@);
                }
            }
            assert forall|x: Seq<char>| after.to_set().contains(x) <==> before.to_set().insert(
                message_id@,
            ).contains(x) by {
                if after.contains(x) {
                    let k = choose|k: int| 0 <= k < after.len() && after[k] == x;
                    if k < before.len() {
                        assert(before[k] == x);
                    }
                }
                if before.contains(x) {
                    let k = choose|k: int| 0 <= k < before.len() && before[k] == x;
                    assert(after[k] == x);
                }
                assert(after[before.len() as int] == message_id@);
            }
            assert(after.to_set() =~= before.to_set().insert(message_id@));
        }
        true
    }

    /// Gives up the handling of a message, which may be offered again.
    pub fn mark_failed(&mut self, message_id: &str)
        requires
            old(self).wf(),
        ensures
            final(self).wf(),
            final(self)@ == after_abandon(old(self)@, message_id@),
    {
        remove_id(&mut self.pending_ids, message_id);
    }

    /// Records that a message has been handled.
    pub fn mark_processed(&mut self, message_id: &str, timestamp: &str)
        requires
            old(self).wf(),
        ensures
            final(self).wf(),
            final(self)@ == after_handling(old(self)@, message_id@, timestamp@),
    {
        remove_id(&mut self.pending_ids, message_id);
        self.insert_recent(message_id.to_owned());
        let newer = match &self.last_seen_ts {
            Some(current) => text::is_before(current.as_str(), timestamp),
            None => true,
        };
        if newer {
            self.last_seen_ts = Some(timestamp.to_owned());
        }
    }

    /// What is to be written to the runtime file.
    pub fn flush(&self) -> (file: RuntimeFile)
        requires
            self.wf(),
        ensures
            text::opt_text(file.last_seen_ts) == self@.last_seen,
            text::texts(file.recent_ids@) == self@.recent,
            file.reconnect_storm@ == self@.storm,
    {
        RuntimeFile {
            last_seen_ts: text::copy_opt(&self.last_seen_ts),
            recent_ids: text::copy_list(&self.recent_ids),
            reconnect_storm: self.reconnect_storm.copy(),
        }
    }

    /// The pause that is to be kept before the next attempt to connect.
    pub fn reconnect_cooldown(&self) -> (cooldown: Option<ReconnectCooldown>)
        ensures
            opt_cooldown(cooldown) == cooldown_of(self@.storm),
    {
        match (self.reconnect_storm.cooldown_ms, &self.reconnect_storm.next_attempt_at) {
            (Some(cooldown_ms), Some(next_attempt_at)) => Some(
                ReconnectCooldown {
                    consecutive_failures: self.reconnect_storm.consecutive_failures,
                    cooldown_ms,
                    next_attempt_at: next_attempt_at.clone(),
                    last_error_kind: text::copy_opt(&self.reconnect_storm.last_error_kind),
                },
            ),
            _ => None,
        }
    }

    fn count_restarts(&self, now: Timestamp, guard: &StormGuardConfig) -> (restarts: bool)
        ensures
            restarts == count_restarts(self@.storm, self@.failures_since, now@, *guard),
    {
        if self.reconnect_storm.cooldown_ms.is_some() {
            return false;
        }
        match &self.failure_window_started_at {
            None => true,
            Some(started_at) => {
                let window_ms: i64 = guard.failure_window_ms as i64;
                let window: i128 = window_ms as i128 * clock::NANOS_PER_MS;
                now.nanos_since(started_at) > window
            },
        }
    }

    /// The pause that another failure at `now` would bring, before it is varied at random.
    pub fn cooldown_due(&self, now: Timestamp, retry: &RetryConfig) -> (due: Option<u64>)
        ensures
            due == cooldown_due(self@.storm, self@.failures_since, now@, retry.storm_guard),
    {
        let guard = &retry.storm_guard;
        let failures: u32 = if self.count_restarts(now, guard) {
            1
        } else if self.reconnect_storm.consecutive_failures == u32::MAX {
            u32::MAX
        } else {
            self.reconnect_storm.consecutive_failures + 1
        };
        if failures < guard.consecutive_failure_threshold {
            return None;
        }
        let wanted: u64 = match self.reconnect_storm.cooldown_ms {
            Some(last) => retry::double(last),
            None => guard.cooldown_ms,
        };
        if wanted <= guard.max_cooldown_ms {
            Some(wanted)
        } else {
            Some(guard.max_cooldown_ms)
        }
    }

    /// Records a failed attempt to connect at `now`. `varied_ms` is the due pause, varied at
    /// random; it counts only where a pause is due. The instant at which the pause ends must lie
    /// on the calendar.
    pub fn record_reconnect_failure(
        &mut self,
        now: Timestamp,
        retry: &RetryConfig,
        last_error_kind: String,
        varied_ms: u64,
    ) -> (cooldown: Option<ReconnectCooldown>)
        requires
            old(self).wf(),
            cooldown_due(old(self)@.storm, old(self)@.failures_since, now@, retry.storm_guard)
                is Some ==> attempt_instant(
                now@,
                effective_cooldown(varied_ms, retry.storm_guard),
            ) <= clock::LAST_INSTANT,
        ensures
            final(self).wf(),
            final(self)@ == after_failure(
                old(self)@,
                now@,
                retry.storm_guard,
                last_error_kind@,
                varied_ms,
            ),
            cooldown is Some <==> cooldown_due(
                old(self)@.storm,
                old(self)@.failures_since,
                now@,
                retry.storm_guard,
            ) is Some,
            cooldown is Some ==> opt_cooldown(cooldown) == cooldown_of(final(self)@.storm),
            // Right after the failure, what is left of the pause is the whole pause.
            cooldown matches Some(c) ==> clock::YEAR_ZERO <= now@ && c.cooldown_ms <= i64::MAX
                ==> remaining_ms(c.next_attempt_at@, now@) == c.cooldown_ms,
    {
        let due = self.cooldown_due(now, retry);
        if self.count_restarts(now, &retry.storm_guard) {
            self.failure_window_started_at = Some(now);
            self.reconnect_storm.consecutive_failures = 1;
        } else if self.reconnect_storm.consecutive_failures < u32::MAX {
            self.reconnect_storm.consecutive_failures = self.reconnect_storm.consecutive_failures + 1;
        }
        self.reconnect_storm.last_error_kind = Some(last_error_kind);
        if due.is_none() {
            return None;
        }
        let ms: u64 = if varied_ms <= retry.storm_guard.max_cooldown_ms {
            varied_ms
        } else {
            retry.storm_guard.max_cooldown_ms
        };
        let capped: u64 = if ms <= i64::MAX as u64 {
            ms
        } else {
            i64::MAX as u64
        };
        let next_attempt_at = now.plus_ms(capped);
        self.reconnect_storm.cooldown_ms = Some(ms);
        self.reconnect_storm.next_attempt_at = Some(next_attempt_at.format());
        assert((ms * clock::NANOS_PER_MS) / (clock::NANOS_PER_MS as int) == ms);
        self.reconnect_cooldown()
    }

    /// Forgets all failed attempts to connect.
    pub fn clear_reconnect_storm(&mut self)
        requires
            old(self).wf(),
        ensures
            final(self).wf(),
            final(self)@ == (RuntimeView { storm: calm(), failures_since: None, ..old(self)@ }),
    {
        self.reconnect_storm = ReconnectStormState::default();
        self.failure_window_started_at = None;
    }
}

// ---------------------------------------------------------------------------
// Laws
// ---------------------------------------------------------------------------

/// A message that has been taken up is not taken up again, whatever timestamp it is offered with,
/// until it is given up or handled.
pub proof fn law_pending_message_is_not_taken_again(
    store: RuntimeView,
    id: Seq<char>,
    timestamp: Seq<char>,
    later_timestamp: Seq<char>,
)
    requires
        takes_up(store, id, timestamp),
    ensures
        !takes_up(after_offer(store, id, timestamp), id, later_timestamp),
{
}

/// A message that has been handled is not taken up again while it is remembered; it is remembered
/// unless nothing is.
pub proof fn law_handled_message_is_not_taken_again(
    store: RuntimeView,
    id: Seq<char>,
    timestamp: Seq<char>,
    later_timestamp: Seq<char>,
)
    requires
        store.window > 0,
        store.recent.len() <= store.window,
    ensures
        after_handling(store, id, timestamp).recent.contains(id),
        !takes_up(after_handling(store, id, timestamp), id, later_timestamp),
{
    let grown = if store.recent.contains(id) {
        store.recent
    } else {
        store.recent.push(id)
    };
    let kept = last_of(grown, store.window);
    if store.recent.contains(id) {
        assert(kept == store.recent);
    } else {
        assert(grown.last() == id);
        assert(kept.last() == id);
        assert(kept[kept.len() - 1] == id);
    }
}

/// Giving a message up undoes that it was taken up: the state is what it was before.
pub proof fn law_abandon_undoes_offer(store: RuntimeView, id: Seq<char>, timestamp: Seq<char>)
    requires
        takes_up(store, id, timestamp),
    ensures
        after_abandon(after_offer(store, id, timestamp), id) == store,
{
    assert(store.pending.insert(id).remove(id) =~= store.pending);
}

/// Handling a message forgets at most one other, the one that was remembered longest.
pub proof fn law_handling_forgets_the_oldest(
    store: RuntimeView,
    id: Seq<char>,
    timestamp: Seq<char>,
)
    requires
        store.recent.len() <= store.window,
        store.window > 0,
    ensures
        forall|i: int|
            1 <= i < store.recent.len() ==> after_handling(store, id, timestamp).recent.contains(
                #[trigger] store.recent[i],
            ),
        store.recent.len() < store.window ==> forall|i: int|
            0 <= i < store.recent.len() ==> after_handling(store, id, timestamp).recent.contains(
                #[trigger] store.recent[i],
            ),
{
    let after = after_handling(store, id, timestamp).recent;
    let grown = if store.recent.contains(id) {
        store.recent
    } else {
        store.recent.push(id)
    };
    let dropped = if grown.len() > store.window { grown.len() - store.window } else { 0 };
    assert(dropped <= 1);
    assert forall|i: int| dropped <= i < store.recent.len() implies after.contains(
        #[trigger] store.recent[i],
    ) by {
        assert(after[i - dropped] == store.recent[i]);
    }
}

/// Remembered messages survive a restart: a store that was written out and is read back remembers
/// the same messages in the same order, the same latest timestamp and the same failures; nothing is
/// being handled.
pub proof fn law_restart_keeps_memory(
    store: RuntimeView,
    file: RuntimeFile,
    now: int,
)
    requires
        store.recent.no_duplicates(),
        store.recent.len() <= store.window,
        text::opt_text(file.last_seen_ts) == store.last_seen,
        text::texts(file.recent_ids@) == store.recent,
        file.reconnect_storm@ == store.storm,
    ensures
        restored(file, store.window, store.floor, now).recent == store.recent,
        restored(file, store.window, store.floor, now).last_seen == store.last_seen,
        restored(file, store.window, store.floor, now).storm == store.storm,
        restored(file, store.window, store.floor, now).pending == Set::<Seq<char>>::empty(),
{
    lemma_remembered_all(store.recent, store.window);
}

proof fn lemma_remembered_all(ids: Seq<Seq<char>>, window: nat)
    requires
        ids.no_duplicates(),
        ids.len() <= window,
    ensures
        remembered_all(ids, window) == ids,
    decreases ids.len(),
{
    if ids.len() > 0 {
        let rest = ids.drop_last();
        lemma_remembered_all(rest, window);
        assert(!rest.contains(ids.last())) by {
            if rest.contains(ids.last()) {
                let k = choose|k: int| 0 <= k < rest.len() && rest[k] == ids.last();
                assert(ids[k] == ids[ids.len() - 1]);
            }
        }
        assert(rest.push(ids.last()) == ids);
    } else {
        assert(ids == Seq::<Seq<char>>::empty());
    }
}

/// A pause is never longer than the limit, and it is entered only after the configured number of
/// failures.
pub proof fn law_cooldown_is_bounded(
    storm: StormView,
    since: Option<int>,
    now: int,
    guard: StormGuardConfig,
    kind: Seq<char>,
    varied_ms: u64,
)
    ensures
        cooldown_due(storm, since, now, guard) matches Some(due) ==> due <= guard.max_cooldown_ms,
        cooldown_due(storm, since, now, guard) is Some ==> storm_after(
            storm,
            since,
            now,
            guard,
            kind,
            varied_ms,
        ).cooldown_ms->0 <= guard.max_cooldown_ms,
        storm.cooldown_ms is None && storm_after(
            storm,
            since,
            now,
            guard,
            kind,
            varied_ms,
        ).cooldown_ms is Some ==> storm_after(storm, since, now, guard, kind, varied_ms).consecutive_failures
            >= guard.consecutive_failure_threshold,
{
}

/// A message that is neither remembered nor being handled is taken up where there is no floor, and
/// where there is one exactly if its timestamp is not earlier: as an instant where both are instants,
/// and as a text otherwise. One that is remembered or being handled is not.
pub proof fn law_new_message_is_taken_up(
    store: RuntimeView,
    id: Seq<char>,
    timestamp: Seq<char>,
    floor: Seq<char>,
)
    ensures
        store.recent.contains(id) || store.pending.contains(id) ==> !takes_up(store, id, timestamp),
        !store.recent.contains(id) && !store.pending.contains(id) && store.floor is None
            ==> takes_up(store, id, timestamp),
        !store.recent.contains(id) && !store.pending.contains(id) && store.floor == Some(floor) ==> (
        clock::rfc3339_nanos(timestamp) matches Some(t) ==> (clock::rfc3339_nanos(
            floor,
        ) matches Some(f) ==> (takes_up(store, id, timestamp) <==> t >= f))),
        !store.recent.contains(id) && !store.pending.contains(id) && store.floor == Some(floor) && (
        clock::rfc3339_nanos(timestamp) is None || clock::rfc3339_nanos(floor) is None) ==> (
        takes_up(store, id, timestamp) <==> !text::precedes(timestamp, floor)),
{
}

/// Taking a message up changes nothing but that it is being handled; and once it has been handled, it
/// is no longer, while all others still are.
pub proof fn law_only_the_message_changes_hands(
    store: RuntimeView,
    id: Seq<char>,
    timestamp: Seq<char>,
    other: Seq<char>,
)
    requires
        other != id,
    ensures
        takes_up(store, id, timestamp) ==> after_offer(store, id, timestamp).pending.contains(id),
        after_offer(store, id, timestamp).pending.contains(other) == store.pending.contains(other),
        after_offer(store, id, timestamp).recent == store.recent,
        after_offer(store, id, timestamp).last_seen == store.last_seen,
        !after_abandon(store, id).pending.contains(id),
        after_abandon(store, id).pending.contains(other) == store.pending.contains(other),
        after_abandon(store, id).recent == store.recent,
        !after_handling(store, id, timestamp).pending.contains(id),
        after_handling(store, id, timestamp).pending.contains(other) == store.pending.contains(
            other,
        ),
        after_handling(store, id, timestamp).storm == store.storm,
        after_handling(store, id, timestamp).floor == store.floor,
        after_handling(store, id, timestamp).window == store.window,
{
}

/// The latest timestamp seen never goes back: after a message it is the later of the one before and
/// that of the message.
pub proof fn law_latest_timestamp_advances(
    store: RuntimeView,
    id: Seq<char>,
    timestamp: Seq<char>,
)
    ensures
        after_handling(store, id, timestamp).last_seen matches Some(seen) && !text::precedes(
            seen,
            timestamp,
        ) && (seen == timestamp || store.last_seen == Some(seen)) && (store.last_seen matches Some(
            before,
        ) ==> !text::precedes(seen, before)),
{
    text::lemma_precedes_irreflexive(timestamp);
    if let Some(before) = store.last_seen {
        text::lemma_precedes_irreflexive(before);
        if text::precedes(before, timestamp) && text::precedes(timestamp, before) {
            text::lemma_precedes_transitive(before, timestamp, before);
        }
    }
}

/// What is remembered keeps its order, with a new message at the end: it is the end of the list of
/// those remembered before and the message.
pub proof fn law_memory_keeps_its_order(store: RuntimeView, id: Seq<char>, timestamp: Seq<char>)
    requires
        store.recent.len() <= store.window,
        !store.recent.contains(id),
    ensures
        ({
            let after = after_handling(store, id, timestamp).recent;
            let before = store.recent;
            &&& after.len() == (if before.len() < store.window {
                before.len() + 1
            } else {
                store.window
            })
            &&& forall|k: int|
                0 <= k < after.len() ==> #[trigger] after[after.len() - 1 - k] == (if k == 0 {
                    id
                } else {
                    before[before.len() - k]
                })
        }),
{
}

/// Failures are counted: one more with each, beginning anew with one where none was counted or the
/// first of them lies too far back, unless there is a pause already.
pub proof fn law_failures_are_counted(
    storm: StormView,
    since: Option<int>,
    now: int,
    guard: StormGuardConfig,
    kind: Seq<char>,
    varied_ms: u64,
)
    requires
        guard.failure_window_ms <= i64::MAX,
    ensures
        ({
            let after = storm_after(storm, since, now, guard, kind, varied_ms);
            &&& after.last_error_kind == Some(kind)
            &&& storm.cooldown_ms is None && since is None ==> after.consecutive_failures == 1
            &&& storm.cooldown_ms is None ==> (since matches Some(start) ==> (now - start
                > guard.failure_window_ms * 1_000_000 ==> after.consecutive_failures == 1))
            &&& storm.cooldown_ms is None && storm.consecutive_failures < u32::MAX ==> (
            since matches Some(start) ==> (now - start <= guard.failure_window_ms * 1_000_000
                ==> after.consecutive_failures == storm.consecutive_failures + 1))
            &&& storm.cooldown_ms is Some && storm.consecutive_failures < u32::MAX
                ==> after.consecutive_failures == storm.consecutive_failures + 1
        }),
{
    assert(guard.failure_window_ms as i64 == guard.failure_window_ms);
    assert(failure_window_nanos(guard) == guard.failure_window_ms * 1_000_000);
}

/// With the configured number of failures a pause begins, and not before: the configured one at
/// first, and twice the last one with each further failure, within the limit; it ends that much later.
pub proof fn law_too_many_failures_bring_a_pause(
    storm: StormView,
    since: Option<int>,
    now: int,
    guard: StormGuardConfig,
    kind: Seq<char>,
    varied_ms: u64,
)
    ensures
        ({
            let after = storm_after(storm, since, now, guard, kind, varied_ms);
            let due = cooldown_due(storm, since, now, guard);
            &&& due is Some <==> after.consecutive_failures >= guard.consecutive_failure_threshold
            &&& due is None ==> after.cooldown_ms == storm.cooldown_ms && after.next_attempt_at
                == storm.next_attempt_at
            &&& due is Some && storm.cooldown_ms is None && guard.cooldown_ms
                <= guard.max_cooldown_ms ==> due == Some(guard.cooldown_ms)
            &&& due is Some ==> (storm.cooldown_ms matches Some(last) ==> (2 * last
                <= guard.max_cooldown_ms ==> due == Some((2 * last) as u64)))
            &&& due is Some ==> (storm.cooldown_ms matches Some(last) ==> (2 * last
                > guard.max_cooldown_ms ==> due == Some(guard.max_cooldown_ms)))
            &&& due is Some && varied_ms <= guard.max_cooldown_ms ==> after.cooldown_ms == Some(
                varied_ms,
            )
            &&& due is Some && varied_ms <= guard.max_cooldown_ms && varied_ms <= i64::MAX
                ==> after.next_attempt_at == Some(
                clock::instant_text(now + varied_ms * 1_000_000),
            )
            &&& due is Some ==> (cooldown_of(after) matches Some(pause) && pause.cooldown_ms
                == after.cooldown_ms->0 && pause.next_attempt_at == after.next_attempt_at->0
                && pause.consecutive_failures == after.consecutive_failures
                && pause.last_error_kind == Some(kind))
        }),
{
}

/// What is left of a pause is the time until its end, in whole milliseconds, and nothing once that
/// has come.
pub proof fn law_pause_runs_out(next_attempt_at: Seq<char>, now: int, end: i128)
    requires
        clock::rfc3339_nanos(next_attempt_at) == Some(end),
    ensures
        now >= end ==> remaining_ms(next_attempt_at, now) == 0,
        now < end ==> remaining_ms(next_attempt_at, now) * 1_000_000 <= end - now < (remaining_ms(
            next_attempt_at,
            now,
        ) + 1) * 1_000_000,
{
}

/// A server that has gone live begins with a clean record, and one that is new has nothing to
/// remember.
pub proof fn law_clean_record(window: nat, floor: Option<Seq<char>>, id: Seq<char>)
    ensures
        calm().consecutive_failures == 0,
        cooldown_of(calm()) is None,
        !blank(window, floor).recent.contains(id),
        !blank(window, floor).pending.contains(id),
        blank(window, floor).last_seen is None,
        blank(window, floor).floor == floor,
        blank(window, floor).window == window,
        cooldown_of(blank(window, floor).storm) is None,
{
}

/// Failures that follow one another within the window are counted together: a second one after a first
/// makes two, and the window still runs from the first.
pub proof fn law_failures_in_a_row_add_up(
    store: RuntimeView,
    now: int,
    later: int,
    guard: StormGuardConfig,
    kind: Seq<char>,
    other: Seq<char>,
    varied_ms: u64,
)
    requires
        store.storm.cooldown_ms is None,
        store.failures_since is None,
        now <= later,
        later - now <= (guard.failure_window_ms as i64) * clock::NANOS_PER_MS,
        guard.consecutive_failure_threshold > 2,
    ensures
        ({
            let once = after_failure(store, now, guard, kind, varied_ms);
            let twice = after_failure(once, later, guard, other, varied_ms);
            &&& once.storm.consecutive_failures == 1
            &&& once.failures_since == Some(now)
            &&& twice.storm.consecutive_failures == 2
            &&& twice.failures_since == Some(now)
            &&& twice.storm.last_error_kind == Some(other)
        }),
{
}

/// After a restart messages are held to the floor that is configured now, and failures that were counted
/// before go on to be counted, from the restart on.
pub proof fn law_restart_takes_the_new_settings(
    file: RuntimeFile,
    window: nat,
    floor: Option<Seq<char>>,
    now: int,
)
    ensures
        ({
            let store = restored(file, window, floor, now);
            &&& store.floor == floor
            &&& store.window == window
            &&& store.failures_since == (if file.reconnect_storm@.consecutive_failures > 0
                && file.reconnect_storm@.cooldown_ms is None {
                Some(now)
            } else {
                None
            })
            &&& forall|id: Seq<char>| !(#[trigger] store.pending.contains(id))
        }),
{
}

} // verus!
