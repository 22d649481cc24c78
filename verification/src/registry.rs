//! The port registry and the arbiter that owns it.
//!
//! The arbiter decides; its driver touches the hardware. Each operation
//! says what the driver has to do next and what is sent to which session.

use vstd::prelude::*;
use crate::protocol::{
    ErrorKind, Event, EventView, PortConfig, Request, RequestView, base64_text, names,
};

verus! {

/// What the registry knows of one open port.
pub ghost struct PortState {
    pub config: PortConfig,
    pub subscribers: Seq<u64>,
}

/// The registry as a map from device identifier to the state of its port.
pub type Registry = Map<Seq<char>, PortState>;

/// `subscribers` with `session` among them.
pub open spec fn joined(subscribers: Seq<u64>, session: u64) -> Seq<u64> {
    if subscribers.contains(session) {
        subscribers
    } else {
        subscribers.push(session)
    }
}

/// `subscribers` in their order, with every occurrence of `session` left out.
pub open spec fn without(subscribers: Seq<u64>, session: u64) -> Seq<u64>
    decreases subscribers.len(),
{
    if subscribers.len() == 0 {
        subscribers
    } else if subscribers.last() == session {
        without(subscribers.drop_last(), session)
    } else {
        without(subscribers.drop_last(), session).push(subscribers.last())
    }
}

/// The registry after `session` has subscribed to the open port `device`.
pub open spec fn after_join(r: Registry, device: Seq<char>, session: u64) -> Registry {
    r.insert(
        device,
        PortState { config: r[device].config, subscribers: joined(r[device].subscribers, session) },
    )
}

/// The registry after the hardware handle for `device` was opened on
/// behalf of `session`.
pub open spec fn after_create(
    r: Registry,
    device: Seq<char>,
    config: PortConfig,
    session: u64,
) -> Registry {
    r.insert(device, PortState { config, subscribers: seq![session] })
}

/// The registry after `session` has left `device`: the entry goes with its
/// last subscriber.
pub open spec fn after_close(r: Registry, device: Seq<char>, session: u64) -> Registry {
    if r.dom().contains(device) {
        let rest = without(r[device].subscribers, session);
        if rest.len() == 0 {
            r.remove(device)
        } else {
            r.insert(device, PortState { config: r[device].config, subscribers: rest })
        }
    } else {
        r
    }
}

/// The registry after `session` has left every device.
pub open spec fn after_disconnect(r: Registry, session: u64) -> Registry {
    Map::new(
        |d: Seq<char>| r.dom().contains(d) && without(r[d].subscribers, session).len() > 0,
        |d: Seq<char>|
            PortState { config: r[d].config, subscribers: without(r[d].subscribers, session) },
    )
}

/// Whether closing `session`'s subscription to `device` releases the
/// hardware handle.
pub open spec fn releases(r: Registry, device: Seq<char>, session: u64) -> bool {
    r.dom().contains(device) && without(r[device].subscribers, session).len() == 0
}

/// The sessions that receive what `device` produces, in the order of their
/// subscription; none where the device is not open.
pub open spec fn listeners(r: Registry, device: Seq<char>) -> Seq<u64> {
    if r.dom().contains(device) {
        r[device].subscribers
    } else {
        Seq::empty()
    }
}

/// Every open port has a subscriber, and none is subscribed twice.
pub open spec fn valid(r: Registry) -> bool {
    forall|d: Seq<char>| #[trigger]
        r.dom().contains(d) ==> r[d].subscribers.len() > 0 && r[d].subscribers.no_duplicates()
}

/// One event on its way to one session.
#[derive(Clone, Debug, PartialEq, Eq)]
pub struct Delivery {
    pub session: u64,
    pub event: Event,
}

/// What the arbiter decides on a request that may need the hardware.
#[derive(Clone, Debug, PartialEq, Eq)]
pub enum Verdict {
    /// The request is settled: send this event to the requester.
    Reply { event: Event },
    /// The driver has to perform the hardware operation and report back.
    Hardware,
}

/// The outcome of a close request.
#[derive(Clone, Debug, PartialEq, Eq)]
pub struct Closing {
    /// The event for the requester.
    pub event: Event,
    /// Whether the driver has to close and discard the hardware handle.
    pub release: bool,
}

struct PortEntry {
    device: String,
    config: PortConfig,
    subscribers: Vec<u64>,
}

impl PortEntry {
    spec fn state(self) -> PortState {
        PortState { config: self.config, subscribers: self.subscribers@ }
    }
}

spec fn listed(entries: Seq<PortEntry>, device: Seq<char>) -> bool {
    exists|i: int| 0 <= i < entries.len() && (#[trigger] entries[i]).device@ == device
}

spec fn slot(entries: Seq<PortEntry>, device: Seq<char>) -> int {
    choose|i: int| 0 <= i < entries.len() && (#[trigger] entries[i]).device@ == device
}

spec fn distinct(entries: Seq<PortEntry>) -> bool {
    forall|i: int, j: int|
        0 <= i < j < entries.len() ==> (#[trigger] entries[i]).device@ != (
        #[trigger] entries[j]).device@
}

spec fn populated(entries: Seq<PortEntry>) -> bool {
    forall|i: int|
        0 <= i < entries.len() ==> (#[trigger] entries[i]).subscribers@.len() > 0
            && entries[i].subscribers@.no_duplicates()
}

spec fn registry_of(entries: Seq<PortEntry>) -> Registry {
    Map::new(|d: Seq<char>| listed(entries, d), |d: Seq<char>| entries[slot(entries, d)].state())
}

/// Every entry is found in the registry under its device, and every device
/// of the registry has an entry.
spec fn mirrors(entries: Seq<PortEntry>, r: Registry) -> bool {
    &&& forall|i: int|
        0 <= i < entries.len() ==> r.dom().contains((#[trigger] entries[i]).device@)
            && r[entries[i].device@] == entries[i].state()
    &&& forall|d: Seq<char>| #[trigger] r.dom().contains(d) ==> listed(entries, d)
}

proof fn lemma_registry_mirrors(entries: Seq<PortEntry>)
    requires
        distinct(entries),
    ensures
        mirrors(entries, registry_of(entries)),
{
    let r = registry_of(entries);
    assert forall|i: int| 0 <= i < entries.len() implies r.dom().contains(
        (#[trigger] entries[i]).device@,
    ) && r[entries[i].device@] == entries[i].state() by {
        let d = entries[i].device@;
        assert(listed(entries, d));
        let j = slot(entries, d);
        assert(entries[j].device@ == d);
        assert(i == j);
    }
}

proof fn lemma_mirrored_is_registry(entries: Seq<PortEntry>, r: Registry)
    requires
        mirrors(entries, r),
    ensures
        registry_of(entries) == r,
{
    let m = registry_of(entries);
    assert forall|d: Seq<char>| m.dom().contains(d) == r.dom().contains(d) by {
        if listed(entries, d) {
            let j = slot(entries, d);
            assert(r.dom().contains(entries[j].device@));
        }
    }
    assert forall|d: Seq<char>| m.dom().contains(d) implies m[d] == r[d] by {
        let j = slot(entries, d);
        assert(r[entries[j].device@] == entries[j].state());
    }
    assert(m =~= r);
}


proof fn lemma_replace(before: Seq<PortEntry>, i: int, entry: PortEntry)
    requires
        distinct(before),
        populated(before),
        0 <= i < before.len(),
        entry.device@ == before[i].device@,
        entry.subscribers@.len() > 0,
        entry.subscribers@.no_duplicates(),
    ensures
        distinct(before.update(i, entry)),
        populated(before.update(i, entry)),
        registry_of(before.update(i, entry)) == registry_of(before).insert(
            entry.device@,
            entry.state(),
        ),
{
    let after = before.update(i, entry);
    let target = registry_of(before).insert(entry.device@, entry.state());
    lemma_registry_mirrors(before);
    assert forall|a: int, b: int| 0 <= a < b < after.len() implies (#[trigger] after[a]).device@ != (
    #[trigger] after[b]).device@ by {
        assert(before[a].device@ != before[b].device@);
    }
    assert forall|k: int| 0 <= k < after.len() implies (#[trigger] after[k]).subscribers@.len() > 0
        && after[k].subscribers@.no_duplicates() by {
        if k != i {
            assert(after[k] == before[k]);
        }
    }
    assert forall|k: int| 0 <= k < after.len() implies target.dom().contains(
        (#[trigger] after[k]).device@,
    ) && target[after[k].device@] == after[k].state() by {
        if k != i {
            assert(after[k] == before[k]);
            if k < i {
                assert(before[k].device@ != before[i].device@);
            } else {
                assert(before[i].device@ != before[k].device@);
            }
        }
    }
    assert forall|d: Seq<char>| #[trigger] target.dom().contains(d) implies listed(after, d) by {
        if d == entry.device@ {
            assert(after[i].device@ == d);
        } else {
            let j = slot(before, d);
            assert(before[j].device@ == d);
            assert(after[j].device@ == d);
        }
    }
    lemma_mirrored_is_registry(after, target);
}

proof fn lemma_append(before: Seq<PortEntry>, entry: PortEntry)
    requires
        distinct(before),
        populated(before),
        !listed(before, entry.device@),
        entry.subscribers@.len() > 0,
        entry.subscribers@.no_duplicates(),
    ensures
        distinct(before.push(entry)),
        populated(before.push(entry)),
        registry_of(before.push(entry)) == registry_of(before).insert(
            entry.device@,
            entry.state(),
        ),
{
    let after = before.push(entry);
    let n = before.len() as int;
    let target = registry_of(before).insert(entry.device@, entry.state());
    lemma_registry_mirrors(before);
    assert forall|a: int, b: int| 0 <= a < b < after.len() implies (#[trigger] after[a]).device@ != (
    #[trigger] after[b]).device@ by {
        if b < n {
            assert(before[a].device@ != before[b].device@);
        } else {
            assert(before[a].device@ != entry.device@);
        }
    }
    assert forall|k: int| 0 <= k < after.len() implies (#[trigger] after[k]).subscribers@.len() > 0
        && after[k].subscribers@.no_duplicates() by {
        if k < n {
            assert(after[k] == before[k]);
        }
    }
    assert forall|k: int| 0 <= k < after.len() implies target.dom().contains(
        (#[trigger] after[k]).device@,
    ) && target[after[k].device@] == after[k].state() by {
        if k < n {
            assert(after[k] == before[k]);
            assert(before[k].device@ != entry.device@);
        }
    }
    assert forall|d: Seq<char>| #[trigger] target.dom().contains(d) implies listed(after, d) by {
        if d == entry.device@ {
            assert(after[n].device@ == d);
        } else {
            let j = slot(before, d);
            assert(before[j].device@ == d);
            assert(after[j].device@ == d);
        }
    }
    lemma_mirrored_is_registry(after, target);
}

/// The facts of `lemma_discard`, for any `after` that is `before` with
/// the entry at `i` taken out.
proof fn lemma_discard_at(before: Seq<PortEntry>, after: Seq<PortEntry>, i: int)
    requires
        distinct(before),
        populated(before),
        0 <= i < before.len(),
        after.len() == before.len() - 1,
        forall|k: int| 0 <= k < i ==> #[trigger] after[k] == before[k],
        forall|k: int| i <= k < after.len() ==> #[trigger] after[k] == before[k + 1],
    ensures
        distinct(after),
        populated(after),
        registry_of(after) == registry_of(before).remove(before[i].device@),
{
    let target = registry_of(before).remove(before[i].device@);
    lemma_registry_mirrors(before);
    assert(distinct(after)) by {
        assert forall|a: int, b: int| 0 <= a < b < after.len() implies (#[trigger] after[a]).device@
            != (#[trigger] after[b]).device@ by {
            let a0 = if a < i { a } else { a + 1 };
            let b0 = if b < i { b } else { b + 1 };
            assert(after[a] == before[a0]);
            assert(after[b] == before[b0]);
            assert(before[a0].device@ != before[b0].device@);
        }
    }
    assert(populated(after)) by {
        assert forall|k: int| 0 <= k < after.len() implies (#[trigger] after[k]).subscribers@.len()
            > 0 && after[k].subscribers@.no_duplicates() by {
            let k0 = if k < i { k } else { k + 1 };
            assert(after[k] == before[k0]);
            assert(before[k0].subscribers@.len() > 0);
        }
    }
    assert(mirrors(after, target)) by {
        assert forall|k: int| 0 <= k < after.len() implies target.dom().contains(
            (#[trigger] after[k]).device@,
        ) && target[after[k].device@] == after[k].state() by {
            let k0 = if k < i { k } else { k + 1 };
            assert(after[k] == before[k0]);
            if k0 < i {
                assert(before[k0].device@ != before[i].device@);
            } else {
                assert(before[i].device@ != before[k0].device@);
            }
            assert(registry_of(before).dom().contains(before[k0].device@));
        }
        assert forall|d: Seq<char>| #[trigger] target.dom().contains(d) implies listed(after, d) by {
            assert(registry_of(before).dom().contains(d));
            let j = slot(before, d);
            assert(before[j].device@ == d);
            let j1 = if j < i { j } else { j - 1 };
            assert(after[j1] == before[j]);
            assert(after[j1].device@ == d);
        }
    }
    lemma_mirrored_is_registry(after, target);
}

proof fn lemma_discard(before: Seq<PortEntry>, i: int)
    requires
        distinct(before),
        populated(before),
        0 <= i < before.len(),
    ensures
        distinct(before.remove(i)),
        populated(before.remove(i)),
        registry_of(before.remove(i)) == registry_of(before).remove(before[i].device@),
{
    lemma_discard_at(before, before.remove(i), i);
}

/// `without` leaves out the session, keeps every other one, and keeps a
/// sequence free of duplicates so.
pub proof fn lemma_without(subscribers: Seq<u64>, session: u64)
    ensures
        !without(subscribers, session).contains(session),
        forall|t: u64|
            t != session ==> (#[trigger] without(subscribers, session).contains(t)
                <==> subscribers.contains(t)),
        subscribers.no_duplicates() ==> without(subscribers, session).no_duplicates(),
        !subscribers.contains(session) ==> without(subscribers, session) == subscribers,
        without(subscribers, session).len() <= subscribers.len(),
    decreases subscribers.len(),
{
    let out = without(subscribers, session);
    if subscribers.len() > 0 {
        let front = subscribers.drop_last();
        let last = subscribers.last();
        lemma_without(front, session);
        let inner = without(front, session);
        assert(subscribers =~= front.push(last));
        assert forall|t: u64| subscribers.contains(t) <==> (front.contains(t) || t == last) by {
            if subscribers.contains(t) {
                let k = choose|k: int| 0 <= k < subscribers.len() && subscribers[k] == t;
                if k < front.len() {
                    assert(front[k] == t);
                }
            }
            if front.contains(t) {
                let k = choose|k: int| 0 <= k < front.len() && front[k] == t;
                assert(subscribers[k] == t);
            }
            if t == last {
                assert(subscribers[subscribers.len() - 1] == t);
            }
        }
        if last != session {
            assert(out == inner.push(last));
            assert forall|t: u64| out.contains(t) <==> (inner.contains(t) || t == last) by {
                if out.contains(t) {
                    let k = choose|k: int| 0 <= k < out.len() && out[k] == t;
                    if k < inner.len() {
                        assert(inner[k] == t);
                    }
                }
                if inner.contains(t) {
                    let k = choose|k: int| 0 <= k < inner.len() && inner[k] == t;
                    assert(out[k] == t);
                }
                if t == last {
                    assert(out[out.len() - 1] == t);
                }
            }
            if subscribers.no_duplicates() {
                assert(front.no_duplicates());
                assert(!front.contains(last)) by {
                    if front.contains(last) {
                        let k = choose|k: int| 0 <= k < front.len() && front[k] == last;
                        assert(subscribers[k] == subscribers[subscribers.len() - 1]);
                    }
                }
                assert(!inner.contains(last));
                assert(out.no_duplicates());
            }
            if !subscribers.contains(session) {
                assert(!front.contains(session));
                assert(out == subscribers);
            }
        } else {
            assert(out == inner);
            if subscribers.no_duplicates() {
                assert(front.no_duplicates());
            }
        }
    }
}

/// The single owner of the port registry.
pub struct Arbiter {
    entries: Vec<PortEntry>,
}

impl View for Arbiter {
    type V = Registry;

    closed spec fn view(&self) -> Registry {
        registry_of(self.entries@)
    }
}

impl Arbiter {
    /// The registry holds one entry per device, each with its subscribers.
    pub closed spec fn wf(&self) -> bool {
        distinct(self.entries@) && populated(self.entries@)
    }

    /// The devices of the hardware handles that are open, one per handle.
    pub closed spec fn handles(&self) -> Seq<Seq<char>> {
        Seq::new(self.entries@.len(), |i: int| self.entries@[i].device@)
    }

    /// No device has two handles, the handles are those of the registry's
    /// devices, and every open port has subscribers.
    pub proof fn lemma_one_handle_per_device(&self)
        requires
            self.wf(),
        ensures
            self.handles().no_duplicates(),
            forall|d: Seq<char>| self.handles().contains(d) <==> self@.dom().contains(d),
            valid(self@),
    {
        let entries = self.entries@;
        lemma_registry_mirrors(entries);
        assert forall|d: Seq<char>| self.handles().contains(d) <==> self@.dom().contains(d) by {
            if self.handles().contains(d) {
                let k = choose|k: int| 0 <= k < self.handles().len() && self.handles()[k] == d;
                assert(entries[k].device@ == d);
            }
            if self@.dom().contains(d) {
                let k = slot(entries, d);
                assert(self.handles()[k] == d);
            }
        }
        assert forall|d: Seq<char>| #[trigger] self@.dom().contains(d) implies self@[d].subscribers.len()
            > 0 && self@[d].subscribers.no_duplicates() by {
            let k = slot(entries, d);
            assert(entries[k].device@ == d);
        }
    }

    /// An arbiter with no port open.
    pub fn new() -> (arbiter: Arbiter)
        ensures
            arbiter.wf(),
            arbiter@ == Map::<Seq<char>, PortState>::empty(),
    {
        let arbiter = Arbiter { entries: Vec::new() };
        proof {
            assert(arbiter@ =~= Map::<Seq<char>, PortState>::empty());
        }
        arbiter
    }

    fn find(&self, device: &String) -> (res: Option<usize>)
        ensures
            match res {
                Some(i) => i < self.entries@.len() && self.entries@[i as int].device@ == device@,
                None => !listed(self.entries@, device@),
            },
    {
        let mut i: usize = 0;
        while i < self.entries.len()
            invariant
                i <= self.entries@.len(),
                forall|k: int| 0 <= k < i ==> (#[trigger] self.entries@[k]).device@ != device@,
            decreases self.entries@.len() - i,
        {
            if self.entries[i].device == *device {
                return Some(i);
            }
            i += 1;
        }
        None
    }

    /// The number of ports that are open.
    pub fn open_ports(&self) -> (n: usize)
        requires
            self.wf(),
        ensures
            n == self.handles().len(),
    {
        self.entries.len()
    }

    /// Whether `device` is open.
    pub fn is_open(&self, device: &String) -> (open: bool)
        requires
            self.wf(),
        ensures
            open == self@.dom().contains(device@),
    {
        proof {
            lemma_registry_mirrors(self.entries@);
        }
        self.find(device).is_some()
    }

    /// The subscribers of `device` in the order of their subscription; none
    /// where the device is not open.
    pub fn subscribers(&self, device: &String) -> (sessions: Vec<u64>)
        requires
            self.wf(),
        ensures
            sessions@ == listeners(self@, device@),
    {
        proof {
            lemma_registry_mirrors(self.entries@);
        }
        match self.find(device) {
            Some(i) => self.entries[i].subscribers.clone(),
            None => Vec::new(),
        }
    }

    /// The configuration that `device` was opened with, if it is open.
    pub fn config(&self, device: &String) -> (config: Option<PortConfig>)
        requires
            self.wf(),
        ensures
            config == if self@.dom().contains(device@) {
                Some(self@[device@].config)
            } else {
                None
            },
    {
        proof {
            lemma_registry_mirrors(self.entries@);
        }
        match self.find(device) {
            Some(i) => Some(self.entries[i].config),
            None => None,
        }
    }
}


/// Removes every occurrence of `session` from a list of subscribers.
fn remove_session(subscribers: &Vec<u64>, session: u64) -> (rest: Vec<u64>)
    ensures
        rest@ == without(subscribers@, session),
{
    let mut rest: Vec<u64> = Vec::new();
    let mut i: usize = 0;
    while i < subscribers.len()
        invariant
            i <= subscribers@.len(),
            rest@ == without(subscribers@.take(i as int), session),
        decreases subscribers@.len() - i,
    {
        proof {
            assert(subscribers@.take(i + 1).drop_last() =~= subscribers@.take(i as int));
        }
        if subscribers[i] != session {
            rest.push(subscribers[i]);
        }
        i += 1;
    }
    proof {
        assert(subscribers@.take(i as int) =~= subscribers@);
    }
    rest
}

fn holds_session(subscribers: &Vec<u64>, session: u64) -> (found: bool)
    ensures
        found == subscribers@.contains(session),
{
    let mut i: usize = 0;
    while i < subscribers.len()
        invariant
            i <= subscribers@.len(),
            forall|k: int| 0 <= k < i ==> subscribers@[k] != session,
        decreases subscribers@.len() - i,
    {
        if subscribers[i] == session {
            return true;
        }
        i += 1;
    }
    false
}

/// What an open request comes to on registry `r`, before any hardware is
/// touched: `None` where the hardware handle has to be opened first.
pub open spec fn open_reply(r: Registry, device: Seq<char>, config: PortConfig) -> Option<
    EventView,
> {
    if !r.dom().contains(device) {
        None
    } else if r[device].config == config {
        Some(EventView::Opened { device })
    } else {
        Some(EventView::Error { kind: ErrorKind::AlreadyOpen, detail: device })
    }
}

/// The registry after an open request, before any hardware is touched.
pub open spec fn after_open(
    r: Registry,
    device: Seq<char>,
    config: PortConfig,
    session: u64,
) -> Registry {
    if r.dom().contains(device) && r[device].config == config {
        after_join(r, device, session)
    } else {
        r
    }
}

/// The reply once the driver has tried to open the hardware handle.
pub open spec fn opened_reply(r: Registry, device: Seq<char>, opened: bool) -> EventView {
    if !opened {
        EventView::Error { kind: ErrorKind::DeviceUnavailable, detail: device }
    } else if r.dom().contains(device) {
        EventView::Error { kind: ErrorKind::AlreadyOpen, detail: device }
    } else {
        EventView::Opened { device }
    }
}

/// The registry once the driver has tried to open the hardware handle.
pub open spec fn after_opened(
    r: Registry,
    device: Seq<char>,
    config: PortConfig,
    session: u64,
    opened: bool,
) -> Registry {
    if opened && !r.dom().contains(device) {
        after_create(r, device, config, session)
    } else {
        r
    }
}

/// The deliveries of one event to each of `sessions`, in their order.
pub open spec fn fan_out(deliveries: Seq<Delivery>, sessions: Seq<u64>, event: EventView) -> bool {
    &&& deliveries.len() == sessions.len()
    &&& forall|i: int|
        0 <= i < deliveries.len() ==> (#[trigger] deliveries[i]).session == sessions[i]
            && deliveries[i].event@ == event
}

impl Arbiter {
    /// Handles an open request of `session`. A device that is open with the
    /// same configuration is joined; with another configuration the request
    /// is refused and nothing changes. For a device that is not open the
    /// verdict is `Hardware`: the driver opens the handle and reports the
    /// outcome to `device_opened`; the registry is unchanged until then.
    pub fn open(&mut self, device: String, config: PortConfig, session: u64) -> (verdict: Verdict)
        requires
            old(self).wf(),
        ensures
            final(self).wf(),
            final(self)@ == after_open(old(self)@, device@, config, session),
            match verdict {
                Verdict::Reply { event } => open_reply(old(self)@, device@, config) == Some(
                    event@,
                ),
                Verdict::Hardware => open_reply(old(self)@, device@, config).is_none(),
            },
    {
        proof {
            lemma_registry_mirrors(self.entries@);
        }
        match self.find(&device) {
            None => Verdict::Hardware,
            Some(i) => {
                if self.entries[i].config == config {
                    if !holds_session(&self.entries[i].subscribers, session) {
                        let mut subscribers = self.entries[i].subscribers.clone();
                        subscribers.push(session);
                        let name = self.entries[i].device.clone();
                        let ghost before = self.entries@;
                        self.entries.set(i, PortEntry { device: name, config, subscribers });
                        proof {
                            let old_subs = before[i as int].subscribers@;
                            assert(self.entries@[i as int].subscribers@ =~= old_subs.push(session));
                            assert(self.entries@ =~= before.update(i as int, self.entries@[i as int]));
                            lemma_replace(before, i as int, self.entries@[i as int]);
                        }
                    } else {
                        proof {
                            assert(self@ =~= after_open(self@, device@, config, session));
                        }
                    }
                    Verdict::Reply { event: Event::Opened { device } }
                } else {
                    Verdict::Reply { event: Event::Error { kind: ErrorKind::AlreadyOpen, detail: device } }
                }
            },
        }
    }

    /// Takes the outcome of the driver's attempt to open the hardware
    /// handle for `device`. A failed attempt is answered with
    /// `DeviceUnavailable`. A handle for a device that is registered already
    /// is refused with `AlreadyOpen`; the driver discards it. Otherwise the
    /// device is registered with `session` as its sole subscriber.
    pub fn device_opened(
        &mut self,
        device: String,
        config: PortConfig,
        session: u64,
        opened: bool,
    ) -> (event: Event)
        requires
            old(self).wf(),
        ensures
            final(self).wf(),
            final(self)@ == after_opened(old(self)@, device@, config, session, opened),
            event@ == opened_reply(old(self)@, device@, opened),
    {
        proof {
            lemma_registry_mirrors(self.entries@);
        }
        if !opened {
            return Event::Error { kind: ErrorKind::DeviceUnavailable, detail: device };
        }
        match self.find(&device) {
            Some(_) => Event::Error { kind: ErrorKind::AlreadyOpen, detail: device },
            None => {
                let mut subscribers: Vec<u64> = Vec::new();
                subscribers.push(session);
                let ghost before = self.entries@;
                self.entries.push(PortEntry { device: device.clone(), config, subscribers });
                proof {
                    let n = before.len() as int;
                    assert(self.entries@[n].subscribers@ =~= seq![session]);
                    assert(self.entries@ =~= before.push(self.entries@[n]));
                    lemma_append(before, self.entries@[n]);
                }
                Event::Opened { device }
            },
        }
    }

    /// Handles a close request of `session`: the session leaves the
    /// device's subscribers, and the entry goes with its last subscriber,
    /// in which case the driver has to release the hardware handle. A
    /// device that the session was not subscribed to is left as it is. The
    /// requester is answered with `Closed` in every case.
    pub fn close(&mut self, device: String, session: u64) -> (outcome: Closing)
        requires
            old(self).wf(),
        ensures
            final(self).wf(),
            final(self)@ == after_close(old(self)@, device@, session),
            outcome.release == releases(old(self)@, device@, session),
            outcome.event@ == (EventView::Closed { device: device@ }),
    {
        proof {
            lemma_registry_mirrors(self.entries@);
        }
        let ghost before = self.entries@;
        let mut release = false;
        match self.find(&device) {
            None => {},
            Some(i) => {
                let rest = remove_session(&self.entries[i].subscribers, session);
                proof {
                    lemma_without(before[i as int].subscribers@, session);
                }
                if rest.len() == 0 {
                    self.entries.remove(i);
                    release = true;
                    proof {
                        lemma_discard(before, i as int);
                    }
                } else {
                    let name = self.entries[i].device.clone();
                    let config = self.entries[i].config;
                    self.entries.set(i, PortEntry { device: name, config, subscribers: rest });
                    proof {
                        assert(self.entries@ =~= before.update(i as int, self.entries@[i as int]));
                        lemma_replace(before, i as int, self.entries@[i as int]);
                    }
                }
            },
        }
        Closing { event: Event::Closed { device }, release }
    }

    /// Handles a write request: refused with `NotOpen` where the device is
    /// not registered, so that the hardware is not touched; else the driver
    /// writes the bytes and reports to `write_reply`.
    pub fn write(&self, device: String) -> (verdict: Verdict)
        requires
            self.wf(),
        ensures
            match verdict {
                Verdict::Reply { event } => !self@.dom().contains(device@) && event@ == (
                EventView::Error { kind: ErrorKind::NotOpen, detail: device@ }),
                Verdict::Hardware => self@.dom().contains(device@),
            },
    {
        proof {
            lemma_registry_mirrors(self.entries@);
        }
        match self.find(&device) {
            Some(_) => Verdict::Hardware,
            None => Verdict::Reply { event: Event::Error { kind: ErrorKind::NotOpen, detail: device } },
        }
    }

    /// Wraps what `device` produced for each of its current subscribers, in
    /// the order of their subscription.
    pub fn deliver(&self, device: &String, bytes: &Vec<u8>) -> (deliveries: Vec<Delivery>)
        requires
            self.wf(),
        ensures
            fan_out(
                deliveries@,
                listeners(self@, device@),
                EventView::Data { device: device@, bytes: base64_text(bytes@) },
            ),
    {
        proof {
            lemma_registry_mirrors(self.entries@);
        }
        let mut deliveries: Vec<Delivery> = Vec::new();
        match self.find(device) {
            None => {},
            Some(i) => {
                let subscribers = &self.entries[i].subscribers;
                let ghost event = EventView::Data { device: device@, bytes: base64_text(bytes@) };
                let mut k: usize = 0;
                while k < subscribers.len()
                    invariant
                        k <= subscribers@.len(),
                        event == (EventView::Data { device: device@, bytes: base64_text(bytes@) }),
                        fan_out(deliveries@, subscribers@.take(k as int), event),
                    decreases subscribers@.len() - k,
                {
                    deliveries.push(
                        Delivery { session: subscribers[k], event: Event::data(device.clone(), bytes) },
                    );
                    k += 1;
                }
                proof {
                    assert(subscribers@.take(k as int) =~= subscribers@);
                }
            },
        }
        deliveries
    }
}

spec fn kept_from(
    kept: Seq<PortEntry>,
    origin: Seq<int>,
    before: Seq<PortEntry>,
    k: int,
    session: u64,
) -> bool {
    &&& origin.len() == kept.len()
    &&& forall|j: int|
        0 <= j < kept.len() ==> 0 <= #[trigger] origin[j] < k && kept[j].device@
            == before[origin[j]].device@ && kept[j].config == before[origin[j]].config
            && kept[j].subscribers@ == without(before[origin[j]].subscribers@, session)
            && kept[j].subscribers@.len() > 0
}

spec fn released_from(
    released: Seq<String>,
    origin: Seq<int>,
    before: Seq<PortEntry>,
    k: int,
    session: u64,
) -> bool {
    &&& origin.len() == released.len()
    &&& forall|j: int|
        0 <= j < released.len() ==> 0 <= #[trigger] origin[j] < k && released[j]@
            == before[origin[j]].device@ && without(
            before[origin[j]].subscribers@,
            session,
        ).len() == 0
    &&& forall|a: int, b: int|
        0 <= a < b < released.len() ==> #[trigger] origin[a] != #[trigger] origin[b]
}

spec fn sorted_out(
    kept: Seq<PortEntry>,
    released: Seq<String>,
    before: Seq<PortEntry>,
    k: int,
    session: u64,
) -> bool {
    forall|i: int|
        0 <= i < k ==> if without((#[trigger] before[i]).subscribers@, session).len() > 0 {
            listed(kept, before[i].device@)
        } else {
            names(released).contains(before[i].device@)
        }
}

proof fn lemma_keep(
    kept: Seq<PortEntry>,
    origin: Seq<int>,
    released: Seq<String>,
    before: Seq<PortEntry>,
    k: int,
    session: u64,
    entry: PortEntry,
)
    requires
        distinct(before),
        populated(before),
        0 <= k < before.len(),
        distinct(kept),
        populated(kept),
        kept_from(kept, origin, before, k, session),
        sorted_out(kept, released, before, k, session),
        entry.device@ == before[k].device@,
        entry.config == before[k].config,
        entry.subscribers@ == without(before[k].subscribers@, session),
        entry.subscribers@.len() > 0,
    ensures
        distinct(kept.push(entry)),
        populated(kept.push(entry)),
        kept_from(kept.push(entry), origin.push(k), before, k + 1, session),
        sorted_out(kept.push(entry), released, before, k + 1, session),
{
    let after = kept.push(entry);
    let origin2 = origin.push(k);
    let n = kept.len() as int;
    lemma_without(before[k].subscribers@, session);
    assert(kept_from(after, origin2, before, k + 1, session)) by {
        assert forall|j: int| 0 <= j < after.len() implies 0 <= #[trigger] origin2[j] < k + 1
            && after[j].device@ == before[origin2[j]].device@ && after[j].config
            == before[origin2[j]].config && after[j].subscribers@ == without(
            before[origin2[j]].subscribers@,
            session,
        ) && after[j].subscribers@.len() > 0 by {
            if j < n {
                assert(origin2[j] == origin[j]);
                assert(after[j] == kept[j]);
            }
        }
    }
    assert(distinct(after)) by {
        assert forall|a: int, b: int| 0 <= a < b < after.len() implies (#[trigger] after[a]).device@
            != (#[trigger] after[b]).device@ by {
            if b < n {
                assert(kept[a].device@ != kept[b].device@);
            } else {
                let i = origin[a];
                assert(before[i].device@ != before[k].device@);
            }
        }
    }
    assert(populated(after)) by {
        assert forall|j: int| 0 <= j < after.len() implies (#[trigger] after[j]).subscribers@.len()
            > 0 && after[j].subscribers@.no_duplicates() by {
            if j < n {
                assert(after[j] == kept[j]);
            }
        }
    }
    assert(sorted_out(after, released, before, k + 1, session)) by {
        assert forall|i: int| 0 <= i < k + 1 implies if without(
            (#[trigger] before[i]).subscribers@,
            session,
        ).len() > 0 {
            listed(after, before[i].device@)
        } else {
            names(released).contains(before[i].device@)
        } by {
            if i < k {
                if without(before[i].subscribers@, session).len() > 0 {
                    let j = slot(kept, before[i].device@);
                    assert(after[j].device@ == before[i].device@);
                }
            } else {
                assert(after[n].device@ == before[i].device@);
            }
        }
    }
}

proof fn lemma_release(
    kept: Seq<PortEntry>,
    released: Seq<String>,
    origin: Seq<int>,
    before: Seq<PortEntry>,
    k: int,
    session: u64,
    name: String,
)
    requires
        0 <= k < before.len(),
        released_from(released, origin, before, k, session),
        sorted_out(kept, released, before, k, session),
        name@ == before[k].device@,
        without(before[k].subscribers@, session).len() == 0,
    ensures
        released_from(released.push(name), origin.push(k), before, k + 1, session),
        sorted_out(kept, released.push(name), before, k + 1, session),
{
    let after = released.push(name);
    let origin2 = origin.push(k);
    let n = released.len() as int;
    assert(released_from(after, origin2, before, k + 1, session)) by {
        assert forall|j: int| 0 <= j < after.len() implies 0 <= #[trigger] origin2[j] < k + 1
            && after[j]@ == before[origin2[j]].device@ && without(
            before[origin2[j]].subscribers@,
            session,
        ).len() == 0 by {
            if j < n {
                assert(origin2[j] == origin[j]);
                assert(after[j] == released[j]);
            }
        }
        assert forall|a: int, b: int| 0 <= a < b < after.len() implies #[trigger] origin2[a]
            != #[trigger] origin2[b] by {
            assert(origin2[a] == origin[a]);
            if b < n {
                assert(origin2[b] == origin[b]);
            }
        }
    }
    assert(sorted_out(kept, after, before, k + 1, session)) by {
        assert forall|i: int| 0 <= i < k + 1 implies if without(
            (#[trigger] before[i]).subscribers@,
            session,
        ).len() > 0 {
            listed(kept, before[i].device@)
        } else {
            names(after).contains(before[i].device@)
        } by {
            if i < k {
                if without(before[i].subscribers@, session).len() == 0 {
                    let d = before[i].device@;
                    let j = choose|j: int| 0 <= j < names(released).len() && names(released)[j] == d;
                    assert(names(after)[j] == d);
                }
            } else {
                assert(names(after)[n] == before[i].device@);
            }
        }
    }
}

proof fn lemma_disconnected(
    kept: Seq<PortEntry>,
    kept_origin: Seq<int>,
    released: Seq<String>,
    released_origin: Seq<int>,
    before: Seq<PortEntry>,
    session: u64,
)
    requires
        distinct(before),
        populated(before),
        kept_from(kept, kept_origin, before, before.len() as int, session),
        released_from(released, released_origin, before, before.len() as int, session),
        sorted_out(kept, released, before, before.len() as int, session),
    ensures
        registry_of(kept) == after_disconnect(registry_of(before), session),
        names(released).no_duplicates(),
        forall|d: Seq<char>|
            names(released).contains(d) <==> releases(registry_of(before), d, session),
{
    let r = registry_of(before);
    let target = after_disconnect(r, session);
    let labels = names(released);
    lemma_registry_mirrors(before);
    assert(mirrors(kept, target)) by {
        assert forall|j: int| 0 <= j < kept.len() implies target.dom().contains(
            (#[trigger] kept[j]).device@,
        ) && target[kept[j].device@] == kept[j].state() by {
            let i = kept_origin[j];
            assert(r.dom().contains(before[i].device@));
        }
        assert forall|d: Seq<char>| #[trigger] target.dom().contains(d) implies listed(kept, d) by {
            let i = slot(before, d);
            assert(before[i].device@ == d);
            assert(r.dom().contains(before[i].device@));
        }
    }
    lemma_mirrored_is_registry(kept, target);
    assert forall|a: int, b: int| 0 <= a < b < labels.len() implies labels[a] != labels[b] by {
        let ia = released_origin[a];
        let ib = released_origin[b];
        if ia < ib {
            assert(before[ia].device@ != before[ib].device@);
        } else {
            assert(before[ib].device@ != before[ia].device@);
        }
    }
    assert forall|d: Seq<char>| labels.contains(d) <==> releases(r, d, session) by {
        if labels.contains(d) {
            let j = choose|j: int| 0 <= j < labels.len() && labels[j] == d;
            let i = released_origin[j];
            assert(r.dom().contains(before[i].device@));
        }
        if releases(r, d, session) {
            let i = slot(before, d);
            assert(before[i].device@ == d);
            assert(r.dom().contains(before[i].device@));
        }
    }
}

impl Arbiter {
    /// Takes a read failure on `device`: the port is assumed lost, so its
    /// entry is removed (the driver discards the handle) and an `IOError`
    /// goes to every session that was subscribed to it.
    pub fn read_failed(&mut self, device: &String) -> (deliveries: Vec<Delivery>)
        requires
            old(self).wf(),
        ensures
            final(self).wf(),
            final(self)@ == old(self)@.remove(device@),
            fan_out(
                deliveries@,
                listeners(old(self)@, device@),
                EventView::Error { kind: ErrorKind::IOError, detail: device@ },
            ),
    {
        proof {
            lemma_registry_mirrors(self.entries@);
        }
        let ghost before = self.entries@;
        let mut deliveries: Vec<Delivery> = Vec::new();
        match self.find(device) {
            None => {
                proof {
                    assert(self@ =~= self@.remove(device@));
                }
            },
            Some(i) => {
                let subscribers = self.entries[i].subscribers.clone();
                let ghost event = EventView::Error { kind: ErrorKind::IOError, detail: device@ };
                let mut k: usize = 0;
                while k < subscribers.len()
                    invariant
                        k <= subscribers@.len(),
                        event == (EventView::Error { kind: ErrorKind::IOError, detail: device@ }),
                        fan_out(deliveries@, subscribers@.take(k as int), event),
                    decreases subscribers@.len() - k,
                {
                    deliveries.push(
                        Delivery {
                            session: subscribers[k],
                            event: Event::Error { kind: ErrorKind::IOError, detail: device.clone() },
                        },
                    );
                    k += 1;
                }
                self.entries.remove(i);
                proof {
                    assert(subscribers@.take(k as int) =~= subscribers@);
                    lemma_discard(before, i as int);
                }
            },
        }
        deliveries
    }

    /// Removes `session` from every device, as on disconnect or forced
    /// termination. An entry goes with its last subscriber; the devices of
    /// those entries are returned, each once, for the driver to release
    /// their handles. Every other subscription stays as it is.
    pub fn disconnect(&mut self, session: u64) -> (released: Vec<String>)
        requires
            old(self).wf(),
        ensures
            final(self).wf(),
            final(self)@ == after_disconnect(old(self)@, session),
            names(released@).no_duplicates(),
            forall|d: Seq<char>|
                names(released@).contains(d) <==> releases(old(self)@, d, session),
    {
        let ghost before = self.entries@;
        let mut kept: Vec<PortEntry> = Vec::new();
        let mut released: Vec<String> = Vec::new();
        let ghost mut kept_origin: Seq<int> = Seq::empty();
        let ghost mut released_origin: Seq<int> = Seq::empty();
        let mut k: usize = 0;
        while k < self.entries.len()
            invariant
                self.entries@ == before,
                distinct(before),
                populated(before),
                k <= before.len(),
                distinct(kept@),
                populated(kept@),
                kept_from(kept@, kept_origin, before, k as int, session),
                released_from(released@, released_origin, before, k as int, session),
                sorted_out(kept@, released@, before, k as int, session),
            decreases before.len() - k,
        {
            let rest = remove_session(&self.entries[k].subscribers, session);
            let name = self.entries[k].device.clone();
            if rest.len() == 0 {
                proof {
                    lemma_release(
                        kept@,
                        released@,
                        released_origin,
                        before,
                        k as int,
                        session,
                        name,
                    );
                    released_origin = released_origin.push(k as int);
                    assert forall|j: int| 0 <= j < kept@.len() implies 0 <= #[trigger] kept_origin[j]
                        < k + 1 by {}
                }
                released.push(name);
            } else {
                let entry = PortEntry { device: name, config: self.entries[k].config, subscribers: rest };
                proof {
                    lemma_keep(
                        kept@,
                        kept_origin,
                        released@,
                        before,
                        k as int,
                        session,
                        entry,
                    );
                    kept_origin = kept_origin.push(k as int);
                    assert forall|j: int| 0 <= j < released@.len() implies 0
                        <= #[trigger] released_origin[j] < k + 1 by {}
                }
                kept.push(entry);
            }
            k += 1;
        }
        proof {
            lemma_disconnected(kept@, kept_origin, released@, released_origin, before, session);
        }
        self.entries = kept;
        released
    }
}

/// The reply to a write once the driver has tried it: nothing where the
/// bytes were written, else an `IOError` for the requester alone.
pub fn write_reply(device: String, written: bool) -> (reply: Option<Event>)
    ensures
        match reply {
            None => written,
            Some(event) => !written && event@ == (
            EventView::Error { kind: ErrorKind::IOError, detail: device@ }),
        },
{
    if written {
        None
    } else {
        Some(Event::Error { kind: ErrorKind::IOError, detail: device })
    }
}


/// What the driver of the arbiter has to do on a request.
#[derive(Clone, Debug, PartialEq, Eq)]
pub enum Command {
    /// Send the event to the requester.
    Send { event: Event },
    /// Open the hardware handle and report to `device_opened`.
    OpenDevice { device: String, config: PortConfig },
    /// Write the bytes to the handle and report to `write_reply`.
    WriteDevice { device: String, bytes: Vec<u8> },
    /// Send the event to the requester, then close and discard the handle.
    Release { event: Event, device: String },
    /// Enumerate the host's serial devices and report to `port_list`.
    ListDevices,
}

pub ghost enum CommandView {
    Send { event: EventView },
    OpenDevice { device: Seq<char>, config: PortConfig },
    WriteDevice { device: Seq<char>, bytes: Seq<u8> },
    Release { event: EventView, device: Seq<char> },
    ListDevices,
}

impl View for Command {
    type V = CommandView;

    open spec fn view(&self) -> CommandView {
        match *self {
            Command::Send { event } => CommandView::Send { event: event@ },
            Command::OpenDevice { device, config } => CommandView::OpenDevice {
                device: device@,
                config,
            },
            Command::WriteDevice { device, bytes } => CommandView::WriteDevice {
                device: device@,
                bytes: bytes@,
            },
            Command::Release { event, device } => CommandView::Release {
                event: event@,
                device: device@,
            },
            Command::ListDevices => CommandView::ListDevices,
        }
    }
}

/// The command that a request of `session` comes to on registry `r`.
pub open spec fn commanded(r: Registry, request: RequestView, session: u64) -> CommandView {
    match request {
        RequestView::Open { device, config } => match open_reply(r, device, config) {
            Some(event) => CommandView::Send { event },
            None => CommandView::OpenDevice { device, config },
        },
        RequestView::Close { device } => if releases(r, device, session) {
            CommandView::Release { event: EventView::Closed { device }, device }
        } else {
            CommandView::Send { event: EventView::Closed { device } }
        },
        RequestView::Write { device, bytes } => if r.dom().contains(device) {
            CommandView::WriteDevice { device, bytes }
        } else {
            CommandView::Send {
                event: EventView::Error { kind: ErrorKind::NotOpen, detail: device },
            }
        },
        RequestView::List => CommandView::ListDevices,
    }
}

/// The registry after a request of `session`, before any hardware is
/// touched.
pub open spec fn after_request(r: Registry, request: RequestView, session: u64) -> Registry {
    match request {
        RequestView::Open { device, config } => after_open(r, device, config, session),
        RequestView::Close { device } => after_close(r, device, session),
        _ => r,
    }
}

/// The devices of `found` that are not open in `r`, in their order.
pub open spec fn unopened(r: Registry, found: Seq<Seq<char>>) -> Seq<Seq<char>>
    decreases found.len(),
{
    if found.len() == 0 {
        found
    } else if r.dom().contains(found.last()) {
        unopened(r, found.drop_last())
    } else {
        unopened(r, found.drop_last()).push(found.last())
    }
}

/// The reply to a list request, given what the host enumerated (`None`:
/// the enumeration failed).
pub open spec fn listing(r: Registry, found: Option<Seq<Seq<char>>>, hide_open: bool) -> EventView {
    match found {
        Some(devices) => EventView::PortList {
            devices: if hide_open {
                unopened(r, devices)
            } else {
                devices
            },
        },
        None => EventView::Error {
            kind: ErrorKind::DeviceEnumerationFailed,
            detail: Seq::<char>::empty(),
        },
    }
}

impl Arbiter {
    /// The devices that `session` is subscribed to, each once, in the
    /// order in which they were opened.
    pub fn subscriptions(&self, session: u64) -> (devices: Vec<String>)
        requires
            self.wf(),
        ensures
            names(devices@).no_duplicates(),
            forall|d: Seq<char>|
                names(devices@).contains(d) <==> listeners(self@, d).contains(session),
    {
        let ghost entries = self.entries@;
        let mut devices: Vec<String> = Vec::new();
        let ghost mut origin: Seq<int> = Seq::empty();
        let mut i: usize = 0;
        while i < self.entries.len()
            invariant
                entries == self.entries@,
                i <= entries.len(),
                origin.len() == devices@.len(),
                forall|k: int|
                    0 <= k < devices@.len() ==> 0 <= #[trigger] origin[k] < i && devices@[k]@
                        == entries[origin[k]].device@ && entries[origin[k]].subscribers@.contains(
                        session,
                    ),
                forall|a: int, b: int|
                    0 <= a < b < devices@.len() ==> #[trigger] origin[a] < #[trigger] origin[b],
                forall|j: int|
                    0 <= j < i && (#[trigger] entries[j]).subscribers@.contains(session)
                        ==> names(devices@).contains(entries[j].device@),
            decreases entries.len() - i,
        {
            if holds_session(&self.entries[i].subscribers, session) {
                let ghost before = devices@;
                devices.push(self.entries[i].device.clone());
                proof {
                    let n = before.len() as int;
                    origin = origin.push(i as int);
                    assert forall|j: int|
                        0 <= j < i + 1 && (#[trigger] entries[j]).subscribers@.contains(
                            session,
                        ) implies names(devices@).contains(entries[j].device@) by {
                        if j < i {
                            let d = entries[j].device@;
                            let k = choose|k: int| 0 <= k < names(before).len() && names(before)[k] == d;
                            assert(names(devices@)[k] == d);
                        } else {
                            assert(names(devices@)[n] == entries[j].device@);
                        }
                    }
                }
            }
            i += 1;
        }
        proof {
            let labels = names(devices@);
            lemma_registry_mirrors(entries);
            assert forall|a: int, b: int| 0 <= a < b < labels.len() implies labels[a]
                != labels[b] by {
                assert(origin[a] < origin[b]);
                assert(entries[origin[a]].device@ != entries[origin[b]].device@);
            }
            assert forall|d: Seq<char>| labels.contains(d) <==> listeners(self@, d).contains(
                session,
            ) by {
                if labels.contains(d) {
                    let k = choose|k: int| 0 <= k < labels.len() && labels[k] == d;
                    let j = origin[k];
                    assert(self@.dom().contains(entries[j].device@));
                }
                if listeners(self@, d).contains(session) {
                    let j = slot(entries, d);
                    assert(entries[j].device@ == d);
                    assert(self@.dom().contains(entries[j].device@));
                }
            }
        }
        devices
    }

    /// Handles one request of `session` and tells the driver what to do.
    pub fn dispatch(&mut self, request: Request, session: u64) -> (command: Command)
        requires
            old(self).wf(),
        ensures
            final(self).wf(),
            final(self)@ == after_request(old(self)@, request@, session),
            command@ == commanded(old(self)@, request@, session),
    {
        match request {
            Request::Open { device, config } => {
                let name = device.clone();
                match self.open(device, config, session) {
                    Verdict::Reply { event } => Command::Send { event },
                    Verdict::Hardware => Command::OpenDevice { device: name, config },
                }
            },
            Request::Close { device } => {
                let name = device.clone();
                let outcome = self.close(device, session);
                if outcome.release {
                    Command::Release { event: outcome.event, device: name }
                } else {
                    Command::Send { event: outcome.event }
                }
            },
            Request::Write { device, bytes } => {
                let name = device.clone();
                match self.write(device) {
                    Verdict::Reply { event } => Command::Send { event },
                    Verdict::Hardware => Command::WriteDevice { device: name, bytes },
                }
            },
            Request::List => Command::ListDevices,
        }
    }

    /// The reply to a list request. The host's enumeration does not depend
    /// on the registry; with `hide_open` the devices that are open here
    /// are left out of the list.
    pub fn port_list(&self, found: Option<Vec<String>>, hide_open: bool) -> (event: Event)
        requires
            self.wf(),
        ensures
            event@ == listing(
                self@,
                match found {
                    Some(devices) => Some(names(devices@)),
                    None => None,
                },
                hide_open,
            ),
    {
        match found {
            None => Event::port_list(None),
            Some(devices) => {
                if !hide_open {
                    Event::port_list(Some(devices))
                } else {
                    proof {
                        lemma_registry_mirrors(self.entries@);
                    }
                    let mut shown: Vec<String> = Vec::new();
                    let mut i: usize = 0;
                    while i < devices.len()
                        invariant
                            i <= devices@.len(),
                            mirrors(self.entries@, self@),
                            names(shown@) == unopened(self@, names(devices@).take(i as int)),
                        decreases devices@.len() - i,
                    {
                        let ghost front = names(devices@).take(i as int);
                        let ghost next = names(devices@).take(i + 1);
                        proof {
                            assert(next.drop_last() =~= front);
                            assert(next.last() == devices@[i as int]@);
                        }
                        if self.find(&devices[i]).is_none() {
                            let ghost before = shown@;
                            shown.push(devices[i].clone());
                            proof {
                                assert(names(shown@) =~= names(before).push(devices@[i as int]@));
                            }
                        }
                        i += 1;
                    }
                    proof {
                        assert(names(devices@).take(i as int) =~= names(devices@));
                    }
                    Event::port_list(Some(shown))
                }
            },
        }
    }
}

} // verus!
