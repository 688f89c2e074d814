//! A fake adapter: effects that only write to a log.

use vstd::prelude::*;

use crate::delta;
use crate::delta::Op;
use crate::effect;
use crate::effect::VersionRef;
use crate::effects::class_a::ClassA;
use crate::effects::class_b::PreconditionCtx;
use crate::effects::fire_capability::FireCapability;
use crate::effects::receipt::EffectReceipt;
use crate::effects::sealed::Sealed;
use crate::error::ReelError;
use crate::interop::json;

verus! {

/// Something that the fake adapter saw.
#[derive(Debug, PartialEq, Eq)]
pub enum FakeAdapterEvent {
    /// A pure local effect was applied.
    ClassAApplied {
        /// What it was.
        label: String,
    },
    /// An idempotent effect fired.
    ClassBFired {
        /// What it was.
        label: String,
        /// The version that it carried.
        version_ref: VersionRef,
    },
    /// An irreversible effect fired.
    ClassCFired {
        /// What it was.
        label: String,
    },
}

/// What a [`FakeAdapterEvent`] holds.
pub enum Event {
    /// A pure local effect was applied.
    Applied(Seq<char>),
    /// An idempotent effect fired.
    FiredB(Seq<char>, effect::Version),
    /// An irreversible effect fired.
    FiredC(Seq<char>),
}

impl FakeAdapterEvent {
    /// What the event holds.
    pub open spec fn view(&self) -> Event {
        match self {
            FakeAdapterEvent::ClassAApplied { label } => Event::Applied(label@),
            FakeAdapterEvent::ClassBFired { label, version_ref } => Event::FiredB(
                label@,
                version_ref.view(),
            ),
            FakeAdapterEvent::ClassCFired { label } => Event::FiredC(label@),
        }
    }
}

impl Clone for FakeAdapterEvent {
    fn clone(&self) -> (e: Self)
        ensures
            e.view() == self.view(),
    {
        match self {
            FakeAdapterEvent::ClassAApplied { label } => FakeAdapterEvent::ClassAApplied {
                label: label.clone(),
            },
            FakeAdapterEvent::ClassBFired { label, version_ref } => FakeAdapterEvent::ClassBFired {
                label: label.clone(),
                version_ref: version_ref.clone(),
            },
            FakeAdapterEvent::ClassCFired { label } => FakeAdapterEvent::ClassCFired {
                label: label.clone(),
            },
        }
    }
}

/// A log of the fake adapter. It is a handle: the events stand in the
/// [`FakeAdapter`], and clones of a handle name the same log.
#[derive(Debug)]
pub struct FakeAdapterLog {
    number: u64,
}

/// An event of one log.
#[derive(Debug)]
struct Line {
    log: FakeAdapterLog,
    event: FakeAdapterEvent,
}

/// What the fake adapter saw, over all its logs in order.
#[derive(Debug)]
pub struct FakeAdapter {
    lines: Vec<Line>,
    issued: u64,
}

/// An event of one log.
pub struct Entry {
    /// The log.
    pub log: FakeAdapterLog,
    /// The event.
    pub event: Event,
}

/// What a list of events holds.
pub open spec fn events_of(events: Seq<FakeAdapterEvent>) -> Seq<Event> {
    events.map_values(|e: FakeAdapterEvent| e.view())
}

/// The events of one log, in order.
pub open spec fn seen_by(entries: Seq<Entry>, log: FakeAdapterLog) -> Seq<Event>
    decreases entries.len(),
{
    if entries.len() == 0 {
        Seq::empty()
    } else {
        let before = seen_by(entries.drop_last(), log);
        if entries.last().log == log {
            before.push(entries.last().event)
        } else {
            before
        }
    }
}

impl FakeAdapter {
    /// What was seen, in order.
    pub closed spec fn view(&self) -> Seq<Entry> {
        self.lines@.map_values(|l: Line| Entry { log: l.log, event: l.event.view() })
    }

    /// The least number that was not given to a log yet.
    pub closed spec fn issued(&self) -> u64 {
        self.issued
    }

    /// An adapter that has seen nothing.
    #[must_use]
    pub fn new() -> (a: Self)
        ensures
            a.view() == Seq::<Entry>::empty(),
            a.issued() == 0,
    {
        let a = FakeAdapter { lines: Vec::new(), issued: 0 };
        assert(a.view() =~= Seq::<Entry>::empty());
        a
    }
}

impl Default for FakeAdapter {
    fn default() -> (a: Self)
        ensures
            a.view() == Seq::<Entry>::empty(),
            a.issued() == 0,
    {
        FakeAdapter::new()
    }
}

impl Clone for FakeAdapterLog {
    fn clone(&self) -> (l: Self)
        ensures
            l == *self,
    {
        FakeAdapterLog { number: self.number }
    }
}

impl FakeAdapterLog {
    /// The number of the log.
    pub closed spec fn spec_number(&self) -> u64 {
        self.number
    }

    /// A fresh, empty log of `adapter`. Where every number is taken, it is the
    /// log with the largest.
    #[must_use]
    pub fn new(adapter: &mut FakeAdapter) -> (l: Self)
        ensures
            final(adapter).view() == old(adapter).view(),
            l.spec_number() == free_number(old(adapter).view(), old(adapter).issued()),
            final(adapter).issued() == number_after(l.spec_number()),
            l.spec_number() < u64::MAX ==> seen_by(final(adapter).view(), l) == Seq::<
                Event,
            >::empty(),
    {
        let ghost entries = adapter.view();
        let mut number: u64 = adapter.issued;
        let mut i: usize = 0;
        assert(entries.take(0) =~= Seq::empty());
        while i < adapter.lines.len()
            invariant
                i <= adapter.lines@.len(),
                *adapter == *old(adapter),
                entries == adapter.view(),
                number == free_number(entries.take(i as int), old(adapter).issued()),
            decreases adapter.lines@.len() - i,
        {
            proof {
                assert(entries.take(i + 1).drop_last() =~= entries.take(i as int));
                assert(entries.take(i + 1).last() == entries[i as int]);
            }
            let used: u64 = adapter.lines[i].log.number;
            if used >= number {
                number = if used == u64::MAX {
                    used
                } else {
                    used + 1
                };
            }
            i += 1;
        }
        let l = FakeAdapterLog { number };
        proof {
            assert(entries.take(i as int) =~= entries);
            if number < u64::MAX {
                lemma_free_number(entries, adapter.issued());
                lemma_unseen(entries, l);
            }
        }
        adapter.issued = if number == u64::MAX {
            number
        } else {
            number + 1
        };
        l
    }

    /// Adds an event at the end of the log.
    pub fn append(&self, adapter: &mut FakeAdapter, ev: FakeAdapterEvent)
        ensures
            final(adapter).view() == old(adapter).view().push(
                Entry { log: *self, event: ev.view() },
            ),
            final(adapter).issued() == old(adapter).issued(),
            seen_by(final(adapter).view(), *self) == seen_by(old(adapter).view(), *self).push(
                ev.view(),
            ),
    {
        let ghost e = Entry { log: *self, event: ev.view() };
        adapter.lines.push(Line { log: self.clone(), event: ev });
        proof {
            assert(adapter.view() =~= old(adapter).view().push(e));
            law_clones_share_one_log(old(adapter).view(), e, *self);
        }
    }

    /// A copy of the events of the log.
    #[must_use]
    pub fn snapshot(&self, adapter: &FakeAdapter) -> (v: Vec<FakeAdapterEvent>)
        ensures
            events_of(v@) == seen_by(adapter.view(), *self),
    {
        let mut v: Vec<FakeAdapterEvent> = Vec::new();
        let mut i: usize = 0;
        assert(adapter.view().take(0) =~= Seq::empty());
        assert(events_of(v@) =~= Seq::empty());
        while i < adapter.lines.len()
            invariant
                i <= adapter.lines@.len(),
                events_of(v@) == seen_by(adapter.view().take(i as int), *self),
            decreases adapter.lines@.len() - i,
        {
            let ghost before = v@;
            proof {
                assert(adapter.view().take(i + 1).drop_last() =~= adapter.view().take(i as int));
                assert(adapter.view().take(i + 1).last() == adapter.view()[i as int]);
            }
            if adapter.lines[i].log.number == self.number {
                v.push(adapter.lines[i].event.clone());
                assert(events_of(v@) =~= events_of(before).push(adapter.view()[i as int].event));
            }
            i += 1;
        }
        assert(adapter.view().take(i as int) =~= adapter.view());
        v
    }

    /// Whether an irreversible effect fired.
    #[must_use]
    pub fn has_class_c_fired(&self, adapter: &FakeAdapter) -> (b: bool)
        ensures
            b == exists|i: int|
                0 <= i < seen_by(adapter.view(), *self).len() && (#[trigger] seen_by(
                    adapter.view(),
                    *self,
                )[i]) is FiredC,
    {
        let events = self.snapshot(adapter);
        let ghost seen = seen_by(adapter.view(), *self);
        let mut i: usize = 0;
        while i < events.len()
            invariant
                i <= events@.len(),
                seen == seen_by(adapter.view(), *self),
                seen == events_of(events@),
                forall|j: int| 0 <= j < i ==> !((#[trigger] seen[j]) is FiredC),
            decreases events@.len() - i,
        {
            assert(seen[i as int] == events@[i as int].view());
            if let FakeAdapterEvent::ClassCFired { .. } = &events[i] {
                assert(seen[i as int] is FiredC);
                return true;
            }
            i += 1;
        }
        false
    }
}

/// The number after `n`, up to the largest.
pub open spec fn number_after(n: u64) -> u64 {
    if n == u64::MAX {
        n
    } else {
        (n + 1) as u64
    }
}

/// The least number, from `start` on, that is larger than that of every log in
/// `entries`.
pub open spec fn free_number(entries: Seq<Entry>, start: u64) -> u64
    decreases entries.len(),
{
    if entries.len() == 0 {
        start
    } else {
        let before = free_number(entries.drop_last(), start);
        let used = entries.last().log.spec_number();
        if used >= before {
            number_after(used)
        } else {
            before
        }
    }
}

proof fn lemma_free_number(entries: Seq<Entry>, start: u64)
    ensures
        free_number(entries, start) >= start,
        free_number(entries, start) < u64::MAX ==> forall|i: int|
            0 <= i < entries.len() ==> (#[trigger] entries[i]).log.spec_number() < free_number(
                entries,
                start,
            ),
    decreases entries.len(),
{
    if entries.len() > 0 {
        lemma_free_number(entries.drop_last(), start);
        assert forall|i: int|
            free_number(entries, start) < u64::MAX && 0 <= i < entries.len() implies (
        #[trigger] entries[i]).log.spec_number() < free_number(entries, start) by {
            if i < entries.len() - 1 {
                assert(entries.drop_last()[i] == entries[i]);
            }
        }
    }
}

proof fn lemma_unseen(entries: Seq<Entry>, log: FakeAdapterLog)
    requires
        forall|i: int| 0 <= i < entries.len() ==> (#[trigger] entries[i]).log != log,
    ensures
        seen_by(entries, log) == Seq::<Event>::empty(),
    decreases entries.len(),
{
    if entries.len() > 0 {
        assert(entries.last() == entries[entries.len() - 1]);
        lemma_unseen(entries.drop_last(), log);
    }
}

/// An event that is added through any handle of a log is the last one that
/// every handle of the log shows, after those that it showed before, and no
/// other log shows it.
pub proof fn law_clones_share_one_log(entries: Seq<Entry>, added: Entry, log: FakeAdapterLog)
    ensures
        added.log == log ==> seen_by(entries.push(added), log) == seen_by(entries, log).push(
            added.event,
        ),
        added.log != log ==> seen_by(entries.push(added), log) == seen_by(entries, log),
{
    assert(entries.push(added).drop_last() =~= entries);
    assert(entries.push(added).last() == added);
}

/// A pure local effect that writes a file.
#[derive(Debug)]
pub struct FakeFsWrite {
    path: String,
    content_hash: crate::hash::Hash,
    log: FakeAdapterLog,
}

impl FakeFsWrite {
    /// The path that is written.
    pub closed spec fn spec_path(&self) -> Seq<char> {
        self.path@
    }

    /// The block with the content.
    pub closed spec fn spec_content(&self) -> crate::hash::Hash {
        self.content_hash
    }

    /// The log that the effect writes to.
    pub closed spec fn spec_log(&self) -> FakeAdapterLog {
        self.log
    }

    /// What applying the effect leaves behind.
    pub open spec fn entry(&self) -> Entry {
        Entry {
            log: self.spec_log(),
            event: Event::Applied("fs.write("@ + self.spec_path() + ")"@),
        }
    }

    /// An effect that writes the block `content_hash` to `path`.
    #[must_use]
    pub fn new(path: String, content_hash: crate::hash::Hash, log: FakeAdapterLog) -> (e: Self)
        ensures
            e.spec_path() == path@,
            e.spec_content() == content_hash,
            e.spec_log() == log,
    {
        FakeFsWrite { path, content_hash, log }
    }
}

impl Sealed for FakeFsWrite {

}

impl ClassA for FakeFsWrite {
    type Witness = FakeAdapter;

    open spec fn mutation(&self) -> delta::Mutation {
        delta::Mutation::Put(self.spec_path(), self.spec_content())
    }

    /// One event in the effect's log.
    open spec fn witnessed(&self, before: FakeAdapter, after: FakeAdapter) -> bool {
        &&& after.view() == before.view().push(self.entry())
        &&& after.issued() == before.issued()
    }

    fn apply(&self, witness: &mut FakeAdapter) -> (op: Op) {
        self.log.append(
            witness,
            FakeAdapterEvent::ClassAApplied {
                label: String::from_str("fs.write(").concat(self.path.as_str()).concat(")"),
            },
        );
        Op::Put { name: self.path.clone(), hash: self.content_hash }
    }
}

/// An idempotent effect that updates a message.
#[derive(Debug)]
pub struct FakeSlackUpdate {
    label: String,
    version_ref: VersionRef,
    log: FakeAdapterLog,
}

/// What a [`FakeSlackUpdate`] holds.
pub struct Update {
    /// What it is.
    pub label: Seq<char>,
    /// The version that it carries.
    pub version: effect::Version,
    /// The log that it writes to.
    pub log: FakeAdapterLog,
}

impl Update {
    /// What firing the effect leaves behind.
    pub open spec fn entry(self) -> Entry {
        Entry {
            log: self.log,
            event: Event::FiredB("slack.update("@ + self.label + ")"@, self.version),
        }
    }
}

/// The report of a fired effect of the fake adapter.
pub open spec fn fake_diagnostic(class: Seq<char>) -> json::JsonTree {
    json::JsonTree::Object(
        Map::empty().insert("fake"@, json::JsonTree::Bool(true)).insert(
            "class"@,
            json::JsonTree::Text(class),
        ),
    )
}

fn fake_diagnostic_json(class: &str) -> (v: serde_json::Value)
    ensures
        json::json_tree(v) == fake_diagnostic(class@),
{
    let mut v = json::empty_object();
    json::set_field(&mut v, "fake", json::flag_json(true));
    json::set_field(&mut v, "class", json::text_json(class));
    v
}

impl FakeSlackUpdate {
    /// What the effect holds.
    pub closed spec fn view(&self) -> Update {
        Update { label: self.label@, version: self.version_ref.view(), log: self.log }
    }

    /// An effect that updates the message `label` at a version.
    #[must_use]
    pub fn new(label: String, version_ref: VersionRef, log: FakeAdapterLog) -> (e: Self)
        ensures
            e.view() == (Update { label: label@, version: version_ref.view(), log }),
    {
        FakeSlackUpdate { label, version_ref, log }
    }

    /// The version that the effect carries.
    pub fn version_ref(&self) -> (v: VersionRef)
        ensures
            v.view() == self.view().version,
    {
        self.version_ref.clone()
    }

    /// Checks the precondition, which always holds here.
    pub fn assert_precondition(&self, ctx: &PreconditionCtx) -> (r: Result<(), ReelError>)
        ensures
            r is Ok,
    {
        Ok(())
    }

    /// Fires the effect.
    pub fn fire(self, cap: &FireCapability, adapter: &mut FakeAdapter) -> (r: Result<
        EffectReceipt,
        ReelError,
    >)
        ensures
            r is Ok,
            final(adapter).view() == old(adapter).view().push(self.view().entry()),
            final(adapter).issued() == old(adapter).issued(),
            r->Ok_0.effect_id == 0,
            effect::version_of(r->Ok_0.version_ref_after) == Some(self.view().version),
            json::json_tree(r->Ok_0.adapter_diagnostic) == fake_diagnostic("B"@),
    {
        self.log.append(
            adapter,
            FakeAdapterEvent::ClassBFired {
                label: String::from_str("slack.update(").concat(self.label.as_str()).concat(")"),
                version_ref: self.version_ref.clone(),
            },
        );
        Ok(
            EffectReceipt {
                effect_id: 0,
                version_ref_after: Some(self.version_ref),
                adapter_diagnostic: fake_diagnostic_json("B"),
            },
        )
    }
}

impl Sealed for FakeSlackUpdate {

}

/// An irreversible effect that posts a message.
#[derive(Debug)]
pub struct FakeSlackPost {
    label: String,
    log: FakeAdapterLog,
}

/// What a [`FakeSlackPost`] holds.
pub struct Post {
    /// What is posted.
    pub label: Seq<char>,
    /// The log that it writes to.
    pub log: FakeAdapterLog,
}

impl Post {
    /// What firing the effect leaves behind.
    pub open spec fn entry(self) -> Entry {
        Entry { log: self.log, event: Event::FiredC("slack.post("@ + self.label + ")"@) }
    }
}

/// What the user is shown of the post `label` before a commit.
pub open spec fn post_description(label: Seq<char>) -> json::JsonTree {
    json::JsonTree::Object(
        Map::empty().insert("class"@, json::JsonTree::Text("C"@)).insert(
            "irreversible"@,
            json::JsonTree::Bool(true),
        ).insert("label"@, json::JsonTree::Text(label)),
    )
}

impl FakeSlackPost {
    /// What the effect holds.
    pub closed spec fn view(&self) -> Post {
        Post { label: self.label@, log: self.log }
    }

    /// An effect that posts the message `label`.
    #[must_use]
    pub fn new(label: String, log: FakeAdapterLog) -> (e: Self)
        ensures
            e.view() == (Post { label: label@, log }),
    {
        FakeSlackPost { label, log }
    }

    /// What the user is shown before a commit.
    pub fn describe(&self) -> (v: serde_json::Value)
        ensures
            json::json_tree(v) == post_description(self.view().label),
    {
        let mut v = json::empty_object();
        json::set_field(&mut v, "class", json::text_json("C"));
        json::set_field(&mut v, "irreversible", json::flag_json(true));
        json::set_field(&mut v, "label", json::text_json(self.label.as_str()));
        v
    }

    /// Fires the effect.
    pub fn fire(self, cap: &FireCapability, adapter: &mut FakeAdapter) -> (r: Result<
        EffectReceipt,
        ReelError,
    >)
        ensures
            r is Ok,
            final(adapter).view() == old(adapter).view().push(self.view().entry()),
            final(adapter).issued() == old(adapter).issued(),
            r->Ok_0.effect_id == 0,
            r->Ok_0.version_ref_after is None,
            json::json_tree(r->Ok_0.adapter_diagnostic) == fake_diagnostic("C"@),
    {
        self.log.append(
            adapter,
            FakeAdapterEvent::ClassCFired {
                label: String::from_str("slack.post(").concat(self.label.as_str()).concat(")"),
            },
        );
        Ok(
            EffectReceipt {
                effect_id: 0,
                version_ref_after: None,
                adapter_diagnostic: fake_diagnostic_json("C"),
            },
        )
    }
}

impl Sealed for FakeSlackPost {

}

/// A log that nothing was added to shows nothing.
pub proof fn law_fresh_log_is_empty(log: FakeAdapterLog)
    ensures
        seen_by(Seq::empty(), log) == Seq::<Event>::empty(),
{
}

/// The number of a fresh log is that of no log that the adapter has seen, and
/// not below the numbers that were given out, as long as numbers are left.
pub proof fn law_fresh_number_is_unused(entries: Seq<Entry>, start: u64, i: int)
    ensures
        free_number(entries, start) >= start,
        free_number(entries, start) < u64::MAX && 0 <= i < entries.len()
            ==> entries[i].log.spec_number() < free_number(entries, start),
        entries.len() == 0 ==> free_number(entries, start) == start,
        start < u64::MAX ==> number_after(start) == start + 1,
        number_after(u64::MAX) == u64::MAX,
{
    lemma_free_number(entries, start);
}

/// What an event holds: its class, its label and, for an idempotent effect,
/// its version.
pub proof fn law_events_hold_class_and_label(e: FakeAdapterEvent)
    ensures
        e matches FakeAdapterEvent::ClassAApplied { label } ==> e.view() == Event::Applied(label@),
        e matches FakeAdapterEvent::ClassBFired { label, version_ref } ==> e.view()
            == Event::FiredB(
            label@,
            effect::Version { kind: version_ref.kind, value: version_ref.value@ },
        ),
        e matches FakeAdapterEvent::ClassCFired { label } ==> e.view() == Event::FiredC(label@),
{
}

/// The report of a fired effect says that the adapter is a fake and which class
/// the effect has, and nothing else.
pub proof fn law_report_says_the_class(class: Seq<char>)
    ensures
        fake_diagnostic(class) == json::JsonTree::Object(
            map!["fake"@ => json::JsonTree::Bool(true), "class"@ => json::JsonTree::Text(class)],
        ),
{
}

/// Applying a write leaves one event in its log, at the end of what the adapter
/// has seen, and makes the put of its block at its path.
pub proof fn law_write_leaves_one_event(e: FakeFsWrite, before: FakeAdapter, after: FakeAdapter)
    requires
        e.witnessed(before, after),
    ensures
        after.view() == before.view().push(
            Entry {
                log: e.spec_log(),
                event: Event::Applied("fs.write("@ + e.spec_path() + ")"@),
            },
        ),
        after.issued() == before.issued(),
        e.mutation() == delta::Mutation::Put(e.spec_path(), e.spec_content()),
{
}

/// Firing an update or a post leaves one event in its own log, with its own
/// label.
pub proof fn law_fired_effects_are_seen_in_their_log(u: Update, q: Post)
    ensures
        u.entry() == (Entry {
            log: u.log,
            event: Event::FiredB("slack.update("@ + u.label + ")"@, u.version),
        }),
        q.entry() == (Entry { log: q.log, event: Event::FiredC("slack.post("@ + q.label + ")"@) }),
{
}

/// A list of events holds each of them, in order.
pub proof fn law_events_are_held_in_order(events: Seq<FakeAdapterEvent>, i: int)
    ensures
        events_of(events).len() == events.len(),
        0 <= i < events.len() ==> events_of(events)[i] == events[i].view(),
{
}

/// What a log shows are the events that were added to it, all of them and in
/// order: those of one list and then those of the other.
pub proof fn law_log_shows_its_own_events_in_order(
    a: Seq<Entry>,
    b: Seq<Entry>,
    log: FakeAdapterLog,
)
    ensures
        seen_by(a + b, log) == seen_by(a, log) + seen_by(b, log),
        (forall|i: int| 0 <= i < a.len() ==> (#[trigger] a[i]).log == log) ==> seen_by(a, log)
            == a.map_values(|e: Entry| e.event),
        (forall|i: int| 0 <= i < a.len() ==> (#[trigger] a[i]).log != log) ==> seen_by(a, log)
            == Seq::<Event>::empty(),
    decreases a.len() + b.len(),
{
    if b.len() > 0 {
        assert((a + b).drop_last() =~= a + b.drop_last());
        law_log_shows_its_own_events_in_order(a, b.drop_last(), log);
        assert(seen_by(a + b, log) =~= seen_by(a, log) + seen_by(b, log));
    } else {
        assert(a + b =~= a);
        assert(seen_by(a, log) + seen_by(b, log) =~= seen_by(a, log));
        if a.len() > 0 {
            let first = a.drop_last();
            law_log_shows_its_own_events_in_order(first, b, log);
        }
    }
    if forall|i: int| 0 <= i < a.len() ==> (#[trigger] a[i]).log == log {
        lemma_all_seen(a, log);
    }
    if forall|i: int| 0 <= i < a.len() ==> (#[trigger] a[i]).log != log {
        lemma_unseen(a, log);
    }
}

proof fn lemma_all_seen(entries: Seq<Entry>, log: FakeAdapterLog)
    requires
        forall|i: int| 0 <= i < entries.len() ==> (#[trigger] entries[i]).log == log,
    ensures
        seen_by(entries, log) == entries.map_values(|e: Entry| e.event),
    decreases entries.len(),
{
    if entries.len() > 0 {
        assert(entries.last() == entries[entries.len() - 1]);
        lemma_all_seen(entries.drop_last(), log);
    }
    assert(seen_by(entries, log) =~= entries.map_values(|e: Entry| e.event));
}

} // verus!
