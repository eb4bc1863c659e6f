//! Hooks that are run when the daemon fails in a way that an operator should hear of.

use vstd::prelude::*;

use crate::json;
use crate::json::{Json, JsonView};
use crate::lists::reversed;
use crate::sorted_map::SortedMap;
use crate::text;

verus! {

/// A command to run on a hard failure.
#[derive(Debug, Clone)]
pub struct HardFailureHookConfig {
    pub key: String,
    pub command: String,
    pub args: Vec<String>,
    pub env: Vec<(String, String)>,
    pub template: String,
    pub timeout_ms: u64,
    pub throttle_ms: u64,
    pub enabled: bool,
}

/// A hard failure.
#[derive(Debug)]
pub struct HardFailureEvent {
    pub kind: String,
    pub component: String,
    pub target: Option<String>,
    pub message: String,
    pub metadata: Json,
}

pub struct EventView {
    pub kind: Seq<char>,
    pub component: Seq<char>,
    pub target: Option<Seq<char>>,
    pub message: Seq<char>,
    pub metadata: JsonView,
}

impl View for HardFailureEvent {
    type V = EventView;

    open spec fn view(&self) -> EventView {
        EventView {
            kind: self.kind@,
            component: self.component@,
            target: text::opt_text(self.target),
            message: self.message@,
            metadata: self.metadata@,
        }
    }
}

pub open spec fn or_empty(value: Option<Seq<char>>) -> Seq<char> {
    match value {
        Some(s) => s,
        None => Seq::empty(),
    }
}

/// What tells one failure from another where hooks are throttled.
pub open spec fn dedupe_key(event: EventView) -> Seq<char> {
    event.kind + ":"@ + event.component + ":"@ + or_empty(event.target)
}

/// The event as the payload that hooks are given.
pub open spec fn event_payload(event: EventView) -> JsonView {
    let head = json::object_view().with_text("kind"@, event.kind).with_text(
        "component"@,
        event.component,
    );
    let named = match event.target {
        Some(target) => head.with_text("target"@, target),
        None => head,
    };
    named.with_text("message"@, event.message).with("metadata"@, event.metadata)
}

impl HardFailureEvent {
    /// A hard failure of the given kind in a component.
    pub fn new(
        kind: &str,
        component: &str,
        target: Option<String>,
        message: &str,
        metadata: Json,
    ) -> (event: Self)
        ensures
            event@ == (EventView {
                kind: kind@,
                component: component@,
                target: text::opt_text(target),
                message: message@,
                metadata: metadata@,
            }),
    {
        HardFailureEvent {
            kind: kind.to_owned(),
            component: component.to_owned(),
            target,
            message: message.to_owned(),
            metadata,
        }
    }

    /// The target, or nothing.
    fn target_text(&self) -> (target: &str)
        ensures
            target@ == or_empty(self@.target),
    {
        match &self.target {
            Some(target) => target.as_str(),
            None => {
                proof {
                    reveal_strlit("");
                    assert(""@ == Seq::<char>::empty());
                }
                ""
            },
        }
    }

    /// What tells the failure from others where hooks are throttled.
    pub fn dedupe_key(&self) -> (key: String)
        ensures
            key@ == dedupe_key(self@),
    {
        let mut key = self.kind.clone();
        key.append(":");
        key.append(self.component.as_str());
        key.append(":");
        key.append(self.target_text());
        key
    }

    /// The event as the payload that hooks are given.
    pub fn into_payload(self) -> (payload: Json)
        ensures
            payload@ == event_payload(self@),
    {
        let head = json::empty_object().with_text("kind", self.kind.as_str()).with_text(
            "component",
            self.component.as_str(),
        );
        let named = match &self.target {
            Some(target) => head.with_text("target", target.as_str()),
            None => head,
        };
        named.with_text("message", self.message.as_str()).with("metadata", self.metadata)
    }
}

/// A template with its placeholders filled in, one after another.
pub open spec fn rendered(template: Seq<char>, event: EventView, payload: Seq<char>) -> Seq<char> {
    let with_payload = text::replaced(template, "{{payload}}"@, payload);
    let with_kind = text::replaced(with_payload, "{{kind}}"@, event.kind);
    let with_component = text::replaced(with_kind, "{{component}}"@, event.component);
    let with_target = text::replaced(with_component, "{{target}}"@, or_empty(event.target));
    text::replaced(with_target, "{{message}}"@, event.message)
}

/// A template with its placeholders filled in.
pub fn render_template(template: &str, event: &HardFailureEvent, payload: &str) -> (out: String)
    ensures
        out@ == rendered(template@, event@, payload@),
{
    proof {
        reveal_strlit("{{payload}}");
        reveal_strlit("{{kind}}");
        reveal_strlit("{{component}}");
        reveal_strlit("{{target}}");
        reveal_strlit("{{message}}");
    }
    let with_payload = text::replace(template, "{{payload}}", payload);
    let with_kind = text::replace(with_payload.as_str(), "{{kind}}", event.kind.as_str());
    let with_component = text::replace(
        with_kind.as_str(),
        "{{component}}",
        event.component.as_str(),
    );
    let with_target = text::replace(with_component.as_str(), "{{target}}", event.target_text());
    text::replace(with_target.as_str(), "{{message}}", event.message.as_str())
}

// ---------------------------------------------------------------------------
// Throttling
// ---------------------------------------------------------------------------

/// The hooks of the daemon, and when each was last run for a failure.
#[derive(Debug)]
pub struct HardFailureHooks {
    hooks: Vec<HardFailureHookConfig>,
    last_sent: SortedMap<u64>,
}

/// What tells the failures of a hook apart.
pub open spec fn hook_key(hook: HardFailureHookConfig, event: EventView) -> Seq<char> {
    hook.key@ + ":"@ + dedupe_key(event)
}

/// A hook is not run again for the same failure until its throttle time has passed. Times are in
/// nanoseconds.
pub open spec fn is_throttled(
    sent: Map<Seq<char>, u64>,
    hook: HardFailureHookConfig,
    event: EventView,
    now_ns: u64,
) -> bool {
    hook.throttle_ms > 0 && sent.dom().contains(hook_key(hook, event)) && (if now_ns
        < sent[hook_key(hook, event)] {
        0int
    } else {
        now_ns - sent[hook_key(hook, event)]
    }) < hook.throttle_ms * 1_000_000
}

/// The times after a hook has been considered for a failure.
pub open spec fn after_consideration(
    sent: Map<Seq<char>, u64>,
    hook: HardFailureHookConfig,
    event: EventView,
    now_ns: u64,
) -> Map<Seq<char>, u64> {
    if hook.throttle_ms == 0 || is_throttled(sent, hook, event, now_ns) {
        sent
    } else {
        sent.insert(hook_key(hook, event), now_ns)
    }
}

/// The enabled hooks of a list, in order.
pub open spec fn enabled_hooks(hooks: Seq<HardFailureHookConfig>) -> Seq<HardFailureHookConfig> {
    hooks.filter(|hook: HardFailureHookConfig| hook.enabled)
}

impl HardFailureHooks {
    /// The hooks that are run.
    pub closed spec fn hooks(&self) -> Seq<HardFailureHookConfig> {
        self.hooks@
    }

    /// When each hook was last run for a failure.
    pub closed spec fn sent(&self) -> Map<Seq<char>, u64> {
        self.last_sent@
    }

    pub closed spec fn wf(&self) -> bool {
        self.last_sent.wf()
    }

    /// The enabled ones of the configured hooks, none of which has been run.
    pub fn new(hooks: Vec<HardFailureHookConfig>) -> (result: Self)
        ensures
            result.wf(),
            result.hooks() == enabled_hooks(hooks@),
            result.sent() == Map::<Seq<char>, u64>::empty(),
    {
        let ghost all = hooks@;
        let ghost enabled = |hook: HardFailureHookConfig| hook.enabled;
        let mut rest = reversed(hooks);
        let mut kept: Vec<HardFailureHookConfig> = Vec::new();
        let ghost mut done: int = 0;
        assert(all.take(0).filter(enabled) == Seq::<HardFailureHookConfig>::empty()) by {
            assert(all.take(0) == Seq::<HardFailureHookConfig>::empty());
            reveal(Seq::filter);
        }
        while rest.len() > 0
            invariant
                done + rest@.len() == all.len(),
                0 <= done,
                enabled == (|hook: HardFailureHookConfig| hook.enabled),
                forall|j: int|
                    0 <= j < rest@.len() ==> (#[trigger] rest@[j]) == all[all.len() - 1 - j],
                kept@ == all.take(done).filter(enabled),
            decreases rest.len(),
        {
            let hook = rest.pop().unwrap();
            proof {
                assert(hook == all[done]);
                assert(all.take(done + 1).drop_last() == all.take(done));
                assert(all.take(done + 1).last() == all[done]);
                reveal(Seq::filter);
                done = done + 1;
            }
            if hook.enabled {
                kept.push(hook);
            }
        }
        assert(all.take(all.len() as int) == all);
        HardFailureHooks { hooks: kept, last_sent: SortedMap::new() }
    }

    /// Whether there is no hook to run.
    pub fn is_empty(&self) -> (b: bool)
        ensures
            b == (self.hooks().len() == 0),
    {
        self.hooks.len() == 0
    }

    /// The number of hooks to run.
    pub fn len(&self) -> (n: usize)
        ensures
            n == self.hooks().len(),
    {
        self.hooks.len()
    }

    /// A hook to run.
    pub fn hook(&self, i: usize) -> (hook: &HardFailureHookConfig)
        requires
            i < self.hooks().len(),
        ensures
            *hook == self.hooks()[i as int],
    {
        &self.hooks[i]
    }

    /// Whether a hook is to be passed over for a failure because it was run for the same one
    /// lately; if not, it counts as run now. `now_ns` is a time in nanoseconds on a clock that does
    /// not go back.
    pub fn throttled(&mut self, i: usize, event: &HardFailureEvent, now_ns: u64) -> (b: bool)
        requires
            old(self).wf(),
            i < old(self).hooks().len(),
        ensures
            final(self).wf(),
            final(self).hooks() == old(self).hooks(),
            b == is_throttled(old(self).sent(), old(self).hooks()[i as int], event@, now_ns),
            final(self).sent() == after_consideration(
                old(self).sent(),
                old(self).hooks()[i as int],
                event@,
                now_ns,
            ),
    {
        let throttle_ms: u64 = self.hooks[i].throttle_ms;
        if throttle_ms == 0 {
            return false;
        }
        let mut key = self.hooks[i].key.clone();
        key.append(":");
        key.append(event.dedupe_key().as_str());
        proof {
            let hook = self.hooks@[i as int];
            assert(key@ == hook_key(hook, event@));
        }
        match self.last_sent.get(key.as_str()) {
            Some(last) => {
                let last: u64 = *last;
                let elapsed: u64 = if now_ns < last {
                    0
                } else {
                    now_ns - last
                };
                if (elapsed as u128) < throttle_ms as u128 * 1_000_000 {
                    return true;
                }
            },
            None => {},
        }
        self.last_sent.insert(key, now_ns);
        false
    }
}

/// Within the throttle time, the same failure is reported by a hook once.
pub proof fn law_hook_runs_once_within_throttle(
    sent: Map<Seq<char>, u64>,
    hook: HardFailureHookConfig,
    event: EventView,
    now_ns: u64,
    later_ns: u64,
)
    requires
        hook.throttle_ms > 0,
        now_ns <= later_ns,
        later_ns - now_ns < hook.throttle_ms * 1_000_000,
        !is_throttled(sent, hook, event, now_ns),
    ensures
        is_throttled(after_consideration(sent, hook, event, now_ns), hook, event, later_ns),
{
}

/// Once the throttle time has passed since a hook was run for a failure, it is run again.
pub proof fn law_hook_runs_again_after_throttle(
    sent: Map<Seq<char>, u64>,
    hook: HardFailureHookConfig,
    event: EventView,
    now_ns: u64,
    later_ns: u64,
)
    requires
        !is_throttled(sent, hook, event, now_ns),
        later_ns - now_ns >= hook.throttle_ms * 1_000_000,
    ensures
        !is_throttled(after_consideration(sent, hook, event, now_ns), hook, event, later_ns),
{
}

/// The payload says all of a failure; it has a target exactly if the failure has one.
pub proof fn law_payload_says_it_all(event: EventView)
    ensures
        event_payload(event).text_member("kind"@) == Some(event.kind),
        event_payload(event).text_member("component"@) == Some(event.component),
        event_payload(event).text_member("message"@) == Some(event.message),
        event_payload(event).member("metadata"@) == Some(event.metadata),
        match event.target {
            Some(target) => event_payload(event).text_member("target"@) == Some(target),
            None => event_payload(event).member("target"@) is None,
        },
{
    reveal_strlit("kind");
    reveal_strlit("component");
    reveal_strlit("message");
    reveal_strlit("metadata");
    reveal_strlit("target");
    assert("kind"@.len() == 4);
    assert("component"@.len() == 9);
    assert("message"@.len() == 7);
    assert("metadata"@.len() == 8);
    assert("target"@.len() == 6);
    json::lemma_members();
}

/// Every hook that is enabled is run, and no other.
pub proof fn law_every_enabled_hook_is_run(
    hooks: Seq<HardFailureHookConfig>,
    hook: HardFailureHookConfig,
)
    ensures
        enabled_hooks(hooks).contains(hook) <==> hooks.contains(hook) && hook.enabled,
        (forall|i: int| 0 <= i < hooks.len() ==> (#[trigger] hooks[i]).enabled)
            ==> enabled_hooks(hooks) == hooks,
    decreases hooks.len(),
{
    reveal(Seq::filter);
    if hooks.len() > 0 {
        let rest = hooks.drop_last();
        law_every_enabled_hook_is_run(rest, hook);
        assert(rest.push(hooks.last()) =~= hooks);
        assert(forall|i: int| 0 <= i < rest.len() ==> #[trigger] rest[i] == hooks[i]);
        let kept = enabled_hooks(rest);
        if hooks.last().enabled {
            assert(enabled_hooks(hooks) == kept.push(hooks.last()));
            if kept.contains(hook) {
                let i = choose|i: int| 0 <= i < kept.len() && kept[i] == hook;
                assert(kept.push(hooks.last())[i] == hook);
            }
            if hook == hooks.last() {
                assert(kept.push(hooks.last())[kept.len() as int] == hook);
                assert(hooks[rest.len() as int] == hook);
            }
        } else {
            assert(enabled_hooks(hooks) == kept);
        }
        if rest.contains(hook) {
            let i = choose|i: int| 0 <= i < rest.len() && rest[i] == hook;
            assert(hooks[i] == hook);
        }
        if hooks.contains(hook) {
            let i = choose|i: int| 0 <= i < hooks.len() && hooks[i] == hook;
            if i < rest.len() {
                assert(rest[i] == hook);
            }
        }
        if forall|i: int| 0 <= i < hooks.len() ==> (#[trigger] hooks[i]).enabled {
            assert(hooks[rest.len() as int].enabled);
            assert(forall|i: int| 0 <= i < rest.len() ==> (#[trigger] rest[i]).enabled);
        }
    }
}

/// To a hook, failures are the same if their kind, component and target are; what they say does not
/// count.
pub proof fn law_same_failure_is_recognized(
    event: EventView,
    message: Seq<char>,
    metadata: JsonView,
    hook: HardFailureHookConfig,
)
    ensures
        hook_key(hook, (EventView { message, metadata, ..event })) == hook_key(hook, event),
        (event.kind + ":"@).is_prefix_of(dedupe_key(event)),
        (":"@ + event.component + ":"@ + or_empty(event.target)).is_suffix_of(dedupe_key(event)),
        (hook.key@ + ":"@).is_prefix_of(hook_key(hook, event)),
        dedupe_key(event).is_suffix_of(hook_key(hook, event)),
        event.target matches Some(target) ==> target.is_suffix_of(dedupe_key(event)),
{
    let key = dedupe_key(event);
    let head = event.kind + ":"@;
    let tail = ":"@ + event.component + ":"@ + or_empty(event.target);
    assert(key.take(head.len() as int) =~= head);
    assert(key.skip(key.len() - tail.len()) =~= tail);
    let whole = hook_key(hook, event);
    let first = hook.key@ + ":"@;
    assert(whole.take(first.len() as int) =~= first);
    assert(whole.skip(whole.len() - key.len()) =~= key);
    if let Some(target) = event.target {
        assert(key.skip(key.len() - target.len()) =~= target);
    }
}

/// A failure never keeps a hook from being run for another one, and a hook without a throttle time is
/// run every time.
pub proof fn law_other_failures_are_not_held_back(
    sent: Map<Seq<char>, u64>,
    hook: HardFailureHookConfig,
    event: EventView,
    now_ns: u64,
    other_hook: HardFailureHookConfig,
    other: EventView,
    later_ns: u64,
)
    requires
        hook_key(hook, event) != hook_key(other_hook, other),
    ensures
        is_throttled(
            after_consideration(sent, hook, event, now_ns),
            other_hook,
            other,
            later_ns,
        ) == is_throttled(sent, other_hook, other, later_ns),
        hook.throttle_ms == 0 ==> !is_throttled(sent, hook, event, now_ns),
        !sent.dom().contains(hook_key(hook, event)) ==> !is_throttled(sent, hook, event, now_ns),
{
}

/// No mark stands in the text.
pub open spec fn without_braces(s: Seq<char>) -> bool {
    forall|i: int| 0 <= i < s.len() ==> #[trigger] s[i] != '{'
}

/// A mark of a template: two braces, and a letter that no other mark has behind them.
spec fn mark(m: Seq<char>, letter: char) -> bool {
    &&& m.len() > 3
    &&& m[0] == '{'
    &&& m[1] == '{'
    &&& m[2] == letter
    &&& letter != '{'
    &&& forall|i: int| 2 <= i < m.len() ==> #[trigger] m[i] != '{'
}

proof fn lemma_marks()
    ensures
        mark("{{payload}}"@, 'p'),
        mark("{{kind}}"@, 'k'),
        mark("{{component}}"@, 'c'),
        mark("{{target}}"@, 't'),
        mark("{{message}}"@, 'm'),
{
    reveal_strlit("{{payload}}");
    reveal_strlit("{{kind}}");
    reveal_strlit("{{component}}");
    reveal_strlit("{{target}}");
    reveal_strlit("{{message}}");
}

proof fn lemma_plain_text_stays(s: Seq<char>, m: Seq<char>, letter: char, to: Seq<char>)
    requires
        without_braces(s),
        mark(m, letter),
    ensures
        text::replaced(s, m, to) == s,
{
    assert(!text::has_part(s, m)) by {
        if text::has_part(s, m) {
            let i = choose|i: int|
                0 <= i <= s.len() - m.len() && #[trigger] s.subrange(i, i + m.len()) == m;
            assert(s.subrange(i, i + m.len())[0] == s[i]);
        }
    }
    text::law_text_without_mark_is_kept(s, m, to);
}

proof fn lemma_other_mark_stays(
    a: Seq<char>,
    m: Seq<char>,
    letter: char,
    b: Seq<char>,
    n: Seq<char>,
    other: char,
    to: Seq<char>,
)
    requires
        without_braces(a),
        without_braces(b),
        mark(m, letter),
        mark(n, other),
        letter != other,
    ensures
        text::replaced(a + m + b, n, to) == a + m + b,
{
    let s = a + m + b;
    assert(!text::has_part(s, n)) by {
        if text::has_part(s, n) {
            let i = choose|i: int|
                0 <= i <= s.len() - n.len() && #[trigger] s.subrange(i, i + n.len()) == n;
            let part = s.subrange(i, i + n.len());
            assert(part[0] == s[i] && part[1] == s[i + 1] && part[2] == s[i + 2]);
            if i < a.len() {
                assert(s[i] == a[i]);
            } else if i >= a.len() + m.len() {
                assert(s[i] == b[i - a.len() - m.len()]);
            } else {
                assert(s[i] == m[i - a.len()]);
                if i == a.len() {
                    assert(s[i + 2] == m[2]);
                } else if i == a.len() + 1 {
                    assert(s[i + 1] == m[2]);
                }
            }
        }
    }
    text::law_text_without_mark_is_kept(s, n, to);
}

proof fn lemma_mark_is_replaced(
    a: Seq<char>,
    m: Seq<char>,
    letter: char,
    b: Seq<char>,
    to: Seq<char>,
)
    requires
        without_braces(a),
        without_braces(b),
        mark(m, letter),
    ensures
        text::replaced(a + m + b, m, to) == a + to + b,
{
    let s = a + m + b;
    assert forall|i: int| 0 <= i < a.len() implies !(#[trigger] s.subrange(i, i + m.len())
        == m) by {
        assert(s.subrange(i, i + m.len())[0] == a[i]);
    }
    text::law_first_mark_is_replaced(a, m, b, to);
    lemma_plain_text_stays(b, m, letter, to);
}

/// A mark in a template is replaced by what it stands for, and the text around it is kept.
pub proof fn law_template_is_filled_in(
    a: Seq<char>,
    b: Seq<char>,
    event: EventView,
    payload: Seq<char>,
)
    requires
        without_braces(a),
        without_braces(b),
    ensures
        rendered(a + b, event, payload) == a + b,
        without_braces(payload) ==> rendered(a + "{{payload}}"@ + b, event, payload) == a + payload
            + b,
        without_braces(event.kind) ==> rendered(a + "{{kind}}"@ + b, event, payload) == a
            + event.kind + b,
        without_braces(event.component) ==> rendered(a + "{{component}}"@ + b, event, payload) == a
            + event.component + b,
        event.target matches Some(target) ==> (without_braces(target) ==> rendered(
            a + "{{target}}"@ + b,
            event,
            payload,
        ) == a + target + b),
        event.target is None ==> rendered(a + "{{target}}"@ + b, event, payload) == a + b,
        rendered(a + "{{message}}"@ + b, event, payload) == a + event.message + b,
{
    lemma_marks();
    let p = "{{payload}}"@;
    let k = "{{kind}}"@;
    let c = "{{component}}"@;
    let t = "{{target}}"@;
    let m = "{{message}}"@;
    let target = or_empty(event.target);
    lemma_plain(a + b, event, payload);
    lemma_mark_is_replaced(a, p, 'p', b, payload);
    if without_braces(payload) {
        lemma_plain(a + payload + b, event, payload);
    }
    lemma_other_mark_stays(a, k, 'k', b, p, 'p', payload);
    lemma_mark_is_replaced(a, k, 'k', b, event.kind);
    if without_braces(event.kind) {
        lemma_plain(a + event.kind + b, event, payload);
    }
    lemma_other_mark_stays(a, c, 'c', b, p, 'p', payload);
    lemma_other_mark_stays(a, c, 'c', b, k, 'k', event.kind);
    lemma_mark_is_replaced(a, c, 'c', b, event.component);
    if without_braces(event.component) {
        lemma_plain(a + event.component + b, event, payload);
    }
    lemma_other_mark_stays(a, t, 't', b, p, 'p', payload);
    lemma_other_mark_stays(a, t, 't', b, k, 'k', event.kind);
    lemma_other_mark_stays(a, t, 't', b, c, 'c', event.component);
    lemma_mark_is_replaced(a, t, 't', b, target);
    if without_braces(target) {
        lemma_plain(a + target + b, event, payload);
    }
    assert(a + Seq::<char>::empty() + b =~= a + b);
    lemma_other_mark_stays(a, m, 'm', b, p, 'p', payload);
    lemma_other_mark_stays(a, m, 'm', b, k, 'k', event.kind);
    lemma_other_mark_stays(a, m, 'm', b, c, 'c', event.component);
    lemma_other_mark_stays(a, m, 'm', b, t, 't', target);
    lemma_mark_is_replaced(a, m, 'm', b, event.message);
}

/// No mark is found in a text without braces.
proof fn lemma_plain(s: Seq<char>, event: EventView, payload: Seq<char>)
    requires
        without_braces(s),
    ensures
        text::replaced(s, "{{payload}}"@, payload) == s,
        text::replaced(s, "{{kind}}"@, event.kind) == s,
        text::replaced(s, "{{component}}"@, event.component) == s,
        text::replaced(s, "{{target}}"@, or_empty(event.target)) == s,
        text::replaced(s, "{{message}}"@, event.message) == s,
{
    lemma_marks();
    lemma_plain_text_stays(s, "{{payload}}"@, 'p', payload);
    lemma_plain_text_stays(s, "{{kind}}"@, 'k', event.kind);
    lemma_plain_text_stays(s, "{{component}}"@, 'c', event.component);
    lemma_plain_text_stays(s, "{{target}}"@, 't', or_empty(event.target));
    lemma_plain_text_stays(s, "{{message}}"@, 'm', event.message);
}

} // verus!
