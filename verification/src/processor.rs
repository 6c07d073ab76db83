use vstd::prelude::*;

use crate::message::Com;
use crate::message::Observation;
use crate::message::SendError;
use crate::message::SlotKind;
use crate::message::StreamEndpoint;
use crate::message::Violation;
use crate::privilege::Privilege;

verus! {

/// Number of control/segment registers in the core's `dcs` bank.
pub const DCS_COUNT: usize = 4;

/// The phase of the core's dispatch loop.
#[derive(Clone, Copy, PartialEq, Eq, Structural, Debug)]
pub enum CoreState {
    /// Accepting and servicing every message kind.
    Running,
    /// A kill was received: no new registrations are accepted; already
    /// registered endpoints are drained until each reports closure.
    Draining,
    /// Terminal: nothing is serviced and every send is refused.
    Halted,
}

/// One registered inbound endpoint, keyed by the identity of the bus that
/// registered it and by the slot (control or data) it occupies.
pub struct Feed {
    /// `remote_id` of the registering bus.
    pub id: u32,
    /// Which of the bus's two slots the endpoint occupies.
    pub slot: SlotKind,
    /// The privilege carried by the envelope that registered the endpoint;
    /// every value drained from the endpoint is checked against it.
    pub privilege: Privilege,
    /// The endpoint itself.
    pub endpoint: StreamEndpoint,
}

/// The mathematical state of a core: every contract of [`U032`] speaks of
/// this model, reached through the core's view.
pub struct CoreModel {
    /// Dispatch phase.
    pub state: CoreState,
    /// Program counter.
    pub pc: u32,
    /// The bank of [`DCS_COUNT`] control/segment registers.
    pub dcs: Seq<u32>,
    /// Byte-addressed program store.
    pub pmem: Seq<u8>,
    /// Word-addressed data store.
    pub mem: Seq<u32>,
    /// How many buses were ever acquired; the next bus gets this identity.
    pub total_buses: u32,
    /// Every identity handed out so far, in order of acquisition.
    pub issued: Seq<u32>,
    /// Bound of each of the four inbound queues.
    pub capacity: usize,
    /// Pending interrupt envelopes, oldest first.
    pub interrupt_q: Seq<Com<u32>>,
    /// Pending kill envelopes, oldest first.
    pub kill_q: Seq<Com<()>>,
    /// Pending incept envelopes, oldest first.
    pub incept_q: Seq<Com<StreamEndpoint>>,
    /// Pending stream envelopes, oldest first.
    pub stream_q: Seq<Com<StreamEndpoint>>,
    /// The registered endpoints, in order of first registration.
    pub feeds: Seq<Feed>,
    /// Round-robin position: the feed index polled first.
    pub cursor: usize,
    /// Every streamed value the core has consumed, in consumption order.
    pub observed: Seq<Observation>,
    /// Every privilege violation reported so far, in order.
    pub violations: Seq<Violation>,
    /// The downstream buses the core itself forwards to, in attachment order.
    pub out_buses: Seq<U32Bus>,
}

/// Well-formedness of a core model: queue bounds are respected, the register
/// bank has its fixed size, registered feeds are keyed uniquely by
/// `(id, slot)`, the round-robin cursor points at a feed, and the issued
/// identities are exactly `0, 1, ..., total_buses - 1` in order.
pub open spec fn model_inv(m: CoreModel) -> bool {
    &&& m.dcs.len() == DCS_COUNT
    &&& m.interrupt_q.len() <= m.capacity
    &&& m.kill_q.len() <= m.capacity
    &&& m.incept_q.len() <= m.capacity
    &&& m.stream_q.len() <= m.capacity
    &&& (forall|i: int| 0 <= i < m.incept_q.len() ==> (#[trigger] m.incept_q[i]).message.wf())
    &&& (forall|i: int| 0 <= i < m.stream_q.len() ==> (#[trigger] m.stream_q[i]).message.wf())
    &&& (forall|i: int| 0 <= i < m.feeds.len() ==> (#[trigger] m.feeds[i]).endpoint.wf())
    &&& (forall|i: int, j: int|
        0 <= i < j < m.feeds.len() ==> !(#[trigger] m.feeds[i].id == #[trigger] m.feeds[j].id
            && m.feeds[i].slot == m.feeds[j].slot))
    &&& (m.cursor < m.feeds.len() || m.cursor == 0)
    &&& m.issued.len() == m.total_buses
    &&& (forall|k: int| 0 <= k < m.issued.len() ==> #[trigger] m.issued[k] == k)
}

/// Whether a privilege permits a data-memory write. The privilege's address
/// must lie entirely within the sender's core-local mask (no bit selected by
/// `permission` may be set) and must fall inside the data store.
pub open spec fn write_allowed(p: Privilege, mem_len: nat) -> bool {
    &&& p.address & p.permission == 0
    &&& (p.address as int) < mem_len
}

/// All four fixed inbound queues are empty.
pub open spec fn queues_empty(m: CoreModel) -> bool {
    &&& m.interrupt_q.len() == 0
    &&& m.kill_q.len() == 0
    &&& m.incept_q.len() == 0
    &&& m.stream_q.len() == 0
}

/// Every registered endpoint has reported closure (is empty).
pub open spec fn all_feeds_empty(feeds: Seq<Feed>) -> bool {
    forall|i: int| 0 <= i < feeds.len() ==> (#[trigger] feeds[i]).endpoint@.len() == 0
}

/// Whether feed `f` occupies the slot `(id, slot)`.
pub open spec fn feed_matches(f: Feed, id: u32, slot: SlotKind) -> bool {
    f.id == id && f.slot == slot
}

/// Whether some registered feed occupies the slot `(id, slot)`.
pub open spec fn has_feed(feeds: Seq<Feed>, id: u32, slot: SlotKind) -> bool {
    exists|i: int| 0 <= i < feeds.len() && feed_matches(#[trigger] feeds[i], id, slot)
}

/// The index of the feed occupying `(id, slot)`; meaningful when `has_feed`
/// holds, and unique under the core's invariant.
pub open spec fn feed_at(feeds: Seq<Feed>, id: u32, slot: SlotKind) -> int {
    choose|i: int| 0 <= i < feeds.len() && feed_matches(#[trigger] feeds[i], id, slot)
}

/// Last-registration-wins: the new feed replaces the one already occupying its
/// `(id, slot)` key, or is appended when the key is fresh.
pub open spec fn register_feed(feeds: Seq<Feed>, f: Feed) -> Seq<Feed> {
    if has_feed(feeds, f.id, f.slot) {
        feeds.update(feed_at(feeds, f.id, f.slot), f)
    } else {
        feeds.push(f)
    }
}

/// The first feed index in `[lo, hi)` whose endpoint has a pending value.
pub open spec fn first_ready_in(feeds: Seq<Feed>, lo: int, hi: int) -> Option<int>
    decreases hi - lo,
{
    if lo < 0 || hi > feeds.len() || lo >= hi {
        None
    } else if feeds[lo].endpoint@.len() > 0 {
        Some(lo)
    } else {
        first_ready_in(feeds, lo + 1, hi)
    }
}

/// Round-robin choice of the next feed to service: the first ready feed at or
/// after the cursor, wrapping around to the front.
pub open spec fn rr_choice(m: CoreModel) -> Option<int> {
    match first_ready_in(m.feeds, m.cursor as int, m.feeds.len() as int) {
        Some(i) => Some(i),
        None => first_ready_in(m.feeds, 0, m.cursor as int),
    }
}

/// An interrupt is applied only when the sender's core-local address selects
/// one of the [`DCS_COUNT`] control registers.
pub open spec fn interrupt_ok(e: Com<u32>) -> bool {
    e.privilege.spec_local_address() < DCS_COUNT
}

/// What one call of [`U032::step`] reports.
#[derive(Clone, Copy, PartialEq, Eq, Structural, Debug)]
pub enum StepOutcome {
    /// Nothing was ready to service; the core is unchanged.
    Idle,
    /// The drain finished: the core reached `Halted`.
    Halt,
    /// A kill envelope was consumed; the core is now draining.
    Kill { id: u32 },
    /// An interrupt envelope was consumed; `applied` reports whether it passed
    /// the privilege check.
    Interrupt { id: u32, applied: bool },
    /// An incept envelope was consumed and its endpoint registered in the
    /// control slot; `replaced` reports whether it displaced an earlier one.
    Incept { id: u32, replaced: bool },
    /// A stream envelope was consumed and its endpoint registered in the data
    /// slot; `replaced` reports whether it displaced an earlier one.
    Stream { id: u32, replaced: bool },
    /// One value of a registered endpoint was consumed; `written` reports
    /// whether it passed the write policy and reached data memory.
    Feed { id: u32, slot: SlotKind, written: bool },
    /// An envelope arriving while the core drains was discarded.
    Ignored { id: u32 },
}

/// The core has nothing to do and stays as it is: it is halted, or it is
/// running with no envelope queued and no endpoint value pending.
pub open spec fn step_idle(m: CoreModel, m2: CoreModel, o: StepOutcome) -> bool {
    &&& o == StepOutcome::Idle
    &&& m2 == m
    &&& (m.state == CoreState::Halted || (m.state == CoreState::Running && queues_empty(m)
        && all_feeds_empty(m.feeds)))
}

/// Kill is serviced with the highest priority: the oldest kill envelope is
/// consumed and the core begins draining.
pub open spec fn step_kill(m: CoreModel, m2: CoreModel, o: StepOutcome) -> bool {
    &&& m.state != CoreState::Halted
    &&& m.kill_q.len() > 0
    &&& o == (StepOutcome::Kill { id: m.kill_q[0].id })
    &&& m2 == (CoreModel { state: CoreState::Draining, kill_q: m.kill_q.drop_first(), ..m })
}

/// A running core consumes the oldest interrupt envelope: the payload lands in
/// the control register selected by the sender's core-local address, or the
/// interrupt is discarded with one reported violation when that address
/// selects none.
pub open spec fn step_interrupt(m: CoreModel, m2: CoreModel, o: StepOutcome) -> bool {
    &&& m.state == CoreState::Running
    &&& m.kill_q.len() == 0
    &&& m.interrupt_q.len() > 0
    &&& {
        let e = m.interrupt_q[0];
        if interrupt_ok(e) {
            &&& o == (StepOutcome::Interrupt { id: e.id, applied: true })
            &&& m2 == (CoreModel {
                interrupt_q: m.interrupt_q.drop_first(),
                dcs: m.dcs.update(e.privilege.spec_local_address() as int, e.message),
                ..m
            })
        } else {
            &&& o == (StepOutcome::Interrupt { id: e.id, applied: false })
            &&& m2 == (CoreModel {
                interrupt_q: m.interrupt_q.drop_first(),
                violations: m.violations.push(
                    Violation { id: e.id, address: e.privilege.address },
                ),
                ..m
            })
        }
    }
}

/// A running core consumes the oldest incept envelope and registers its
/// endpoint in the sender's control slot, displacing an earlier registration
/// under the same key (last incept wins).
pub open spec fn step_incept(m: CoreModel, m2: CoreModel, o: StepOutcome) -> bool {
    &&& m.state == CoreState::Running
    &&& m.kill_q.len() == 0
    &&& m.interrupt_q.len() == 0
    &&& m.incept_q.len() > 0
    &&& {
        let e = m.incept_q[0];
        let f = Feed { id: e.id, slot: SlotKind::Control, privilege: e.privilege, endpoint: e.message };
        &&& o == (StepOutcome::Incept {
            id: e.id,
            replaced: has_feed(m.feeds, e.id, SlotKind::Control),
        })
        &&& m2 == (CoreModel {
            incept_q: m.incept_q.drop_first(),
            feeds: register_feed(m.feeds, f),
            ..m
        })
    }
}

/// A running core consumes the oldest stream envelope and registers its
/// endpoint in the sender's data slot, displacing an earlier registration
/// under the same key.
pub open spec fn step_stream(m: CoreModel, m2: CoreModel, o: StepOutcome) -> bool {
    &&& m.state == CoreState::Running
    &&& m.kill_q.len() == 0
    &&& m.interrupt_q.len() == 0
    &&& m.incept_q.len() == 0
    &&& m.stream_q.len() > 0
    &&& {
        let e = m.stream_q[0];
        let f = Feed { id: e.id, slot: SlotKind::Data, privilege: e.privilege, endpoint: e.message };
        &&& o == (StepOutcome::Stream {
            id: e.id,
            replaced: has_feed(m.feeds, e.id, SlotKind::Data),
        })
        &&& m2 == (CoreModel {
            stream_q: m.stream_q.drop_first(),
            feeds: register_feed(m.feeds, f),
            ..m
        })
    }
}

/// A draining core ignores further interrupt, incept and stream envelopes: the
/// oldest one (in that priority order) is consumed and discarded.
pub open spec fn step_ignored(m: CoreModel, m2: CoreModel, o: StepOutcome) -> bool {
    &&& m.state == CoreState::Draining
    &&& m.kill_q.len() == 0
    &&& if m.interrupt_q.len() > 0 {
        &&& o == (StepOutcome::Ignored { id: m.interrupt_q[0].id })
        &&& m2 == (CoreModel { interrupt_q: m.interrupt_q.drop_first(), ..m })
    } else if m.incept_q.len() > 0 {
        &&& o == (StepOutcome::Ignored { id: m.incept_q[0].id })
        &&& m2 == (CoreModel { incept_q: m.incept_q.drop_first(), ..m })
    } else {
        &&& m.stream_q.len() > 0
        &&& o == (StepOutcome::Ignored { id: m.stream_q[0].id })
        &&& m2 == (CoreModel { stream_q: m.stream_q.drop_first(), ..m })
    }
}

/// With no envelope queued, the round-robin choice falls on a registered feed
/// with a pending value: the core consumes exactly that feed's oldest value,
/// records the observation, and applies the write policy — the value lands in
/// data memory at the privilege's address when the write is allowed, and is
/// otherwise dropped with exactly one reported violation.
pub open spec fn step_feed(m: CoreModel, m2: CoreModel, o: StepOutcome) -> bool {
    &&& m.state != CoreState::Halted
    &&& queues_empty(m)
    &&& rr_choice(m) is Some
    &&& {
        let i = rr_choice(m)->Some_0;
        let f = m.feeds[i];
        let v = f.endpoint@[0];
        &&& o == (StepOutcome::Feed {
            id: f.id,
            slot: f.slot,
            written: write_allowed(f.privilege, m.mem.len()),
        })
        &&& m2.feeds.len() == m.feeds.len()
        &&& m2.feeds[i].id == f.id
        &&& m2.feeds[i].slot == f.slot
        &&& m2.feeds[i].privilege == f.privilege
        &&& m2.feeds[i].endpoint@ == f.endpoint@.drop_first()
        &&& m2.feeds[i].endpoint.spec_capacity() == f.endpoint.spec_capacity()
        &&& (forall|j: int| 0 <= j < m.feeds.len() && j != i ==> #[trigger] m2.feeds[j] == m.feeds[j])
        &&& m2.cursor == if i + 1 < m.feeds.len() { i + 1 } else { 0int }
        &&& m2.observed == m.observed.push(Observation { id: f.id, value: v })
        &&& if write_allowed(f.privilege, m.mem.len()) {
            &&& m2.mem == m.mem.update(f.privilege.address as int, v)
            &&& m2.violations == m.violations
        } else {
            &&& m2.mem == m.mem
            &&& m2.violations == m.violations.push(
                Violation { id: f.id, address: f.privilege.address },
            )
        }
        &&& m2.state == m.state
        &&& m2.pc == m.pc
        &&& m2.dcs == m.dcs
        &&& m2.pmem == m.pmem
        &&& m2.total_buses == m.total_buses
        &&& m2.issued == m.issued
        &&& m2.capacity == m.capacity
        &&& m2.interrupt_q == m.interrupt_q
        &&& m2.kill_q == m.kill_q
        &&& m2.incept_q == m.incept_q
        &&& m2.stream_q == m.stream_q
        &&& m2.out_buses == m.out_buses
    }
}

/// A draining core with nothing queued and every registered endpoint closed
/// reaches the terminal state.
pub open spec fn step_halt(m: CoreModel, m2: CoreModel, o: StepOutcome) -> bool {
    &&& m.state == CoreState::Draining
    &&& queues_empty(m)
    &&& all_feeds_empty(m.feeds)
    &&& o == StepOutcome::Halt
    &&& m2 == (CoreModel { state: CoreState::Halted, ..m })
}

/// The transition relation of the dispatch loop: one call of [`U032::step`]
/// performs exactly one of these cases.
pub open spec fn step_spec(m: CoreModel, m2: CoreModel, o: StepOutcome) -> bool {
    ||| step_idle(m, m2, o)
    ||| step_kill(m, m2, o)
    ||| step_interrupt(m, m2, o)
    ||| step_incept(m, m2, o)
    ||| step_stream(m, m2, o)
    ||| step_ignored(m, m2, o)
    ||| step_feed(m, m2, o)
    ||| step_halt(m, m2, o)
}

/// How much work is still pending in a core: one unit per queued envelope and
/// one per value carried by a queued or registered endpoint, plus one unit
/// until the core is halted. Every serviced message strictly shrinks it.
pub open spec fn ep_q_load(s: Seq<Com<StreamEndpoint>>) -> nat
    decreases s.len(),
{
    if s.len() == 0 {
        0
    } else {
        1 + s[0].message@.len() + ep_q_load(s.drop_first())
    }
}

/// Total number of values pending across a feed table.
pub open spec fn feeds_load(s: Seq<Feed>) -> nat
    decreases s.len(),
{
    if s.len() == 0 {
        0
    } else {
        s[0].endpoint@.len() + feeds_load(s.drop_first())
    }
}

/// One unit of pending work until the core is halted.
pub open spec fn state_rank(s: CoreState) -> nat {
    match s {
        CoreState::Halted => 0,
        _ => 1,
    }
}

/// The measure that bounds the dispatch loop: see [`lemma_step_measure`].
pub open spec fn measure(m: CoreModel) -> nat {
    m.kill_q.len() + m.interrupt_q.len() + ep_q_load(m.incept_q) + ep_q_load(m.stream_q)
        + feeds_load(m.feeds) + state_rank(m.state)
}

proof fn lemma_first_ready_some(feeds: Seq<Feed>, lo: int, hi: int, i: int)
    requires
        first_ready_in(feeds, lo, hi) == Some(i),
    ensures
        lo <= i < hi <= feeds.len(),
        feeds[i].endpoint@.len() > 0,
    decreases hi - lo,
{
    if !(lo < 0 || hi > feeds.len() || lo >= hi) && feeds[lo].endpoint@.len() == 0 {
        lemma_first_ready_some(feeds, lo + 1, hi, i);
    }
}

/// When the round-robin choice picks a feed, that feed exists and has a
/// pending value.
pub proof fn lemma_rr_choice_some(m: CoreModel, i: int)
    requires
        rr_choice(m) == Some(i),
    ensures
        0 <= i < m.feeds.len(),
        m.feeds[i].endpoint@.len() > 0,
{
    match first_ready_in(m.feeds, m.cursor as int, m.feeds.len() as int) {
        Some(j) => {
            lemma_first_ready_some(m.feeds, m.cursor as int, m.feeds.len() as int, i);
        },
        None => {
            lemma_first_ready_some(m.feeds, 0, m.cursor as int, i);
        },
    }
}

proof fn lemma_feeds_load_push(s: Seq<Feed>, f: Feed)
    ensures
        feeds_load(s.push(f)) == feeds_load(s) + f.endpoint@.len(),
    decreases s.len(),
{
    if s.len() == 0 {
        assert(s.push(f)[0] == f);
        assert(s.push(f).drop_first() =~= Seq::<Feed>::empty());
        assert(feeds_load(Seq::<Feed>::empty()) == 0);
    } else {
        assert(s.push(f)[0] == s[0]);
        assert(s.push(f).drop_first() =~= s.drop_first().push(f));
        lemma_feeds_load_push(s.drop_first(), f);
    }
}

proof fn lemma_feeds_load_update(s: Seq<Feed>, i: int, f: Feed)
    requires
        0 <= i < s.len(),
    ensures
        feeds_load(s.update(i, f)) + s[i].endpoint@.len() == feeds_load(s) + f.endpoint@.len(),
    decreases s.len(),
{
    if i == 0 {
        assert(s.update(0, f).drop_first() =~= s.drop_first());
    } else {
        assert(s.update(i, f).drop_first() =~= s.drop_first().update(i - 1, f));
        lemma_feeds_load_update(s.drop_first(), i - 1, f);
    }
}

proof fn lemma_ep_q_load_drop(s: Seq<Com<StreamEndpoint>>)
    requires
        s.len() > 0,
    ensures
        ep_q_load(s) == 1 + s[0].message@.len() + ep_q_load(s.drop_first()),
{
}

/// Every serviced message strictly shrinks the pending-work measure; only an
/// idle step leaves the core as it is. This is what makes [`U032::run`]
/// terminate.
pub proof fn lemma_step_measure(m: CoreModel, m2: CoreModel, o: StepOutcome)
    requires
        model_inv(m),
        step_spec(m, m2, o),
        o != StepOutcome::Idle,
    ensures
        measure(m2) < measure(m),
{
    if step_incept(m, m2, o) {
        let e = m.incept_q[0];
        let f = Feed { id: e.id, slot: SlotKind::Control, privilege: e.privilege, endpoint: e.message };
        lemma_ep_q_load_drop(m.incept_q);
        if has_feed(m.feeds, f.id, f.slot) {
            lemma_feeds_load_update(m.feeds, feed_at(m.feeds, f.id, f.slot), f);
        } else {
            lemma_feeds_load_push(m.feeds, f);
        }
    } else if step_stream(m, m2, o) {
        let e = m.stream_q[0];
        let f = Feed { id: e.id, slot: SlotKind::Data, privilege: e.privilege, endpoint: e.message };
        lemma_ep_q_load_drop(m.stream_q);
        if has_feed(m.feeds, f.id, f.slot) {
            lemma_feeds_load_update(m.feeds, feed_at(m.feeds, f.id, f.slot), f);
        } else {
            lemma_feeds_load_push(m.feeds, f);
        }
    } else if step_ignored(m, m2, o) {
        if m.interrupt_q.len() > 0 {
        } else if m.incept_q.len() > 0 {
            lemma_ep_q_load_drop(m.incept_q);
        } else {
            lemma_ep_q_load_drop(m.stream_q);
        }
    } else if step_feed(m, m2, o) {
        let i = rr_choice(m)->Some_0;
        lemma_rr_choice_some(m, i);
        assert(m2.feeds =~= m.feeds.update(i, m2.feeds[i]));
        lemma_feeds_load_update(m.feeds, i, m2.feeds[i]);
    }
}

/// A peripheral-side capability: the identity a bus was assigned at
/// acquisition, fixed for the bus's whole life and never reused. All of the
/// bus's send operations stamp outgoing envelopes with this identity.
pub struct U32Bus {
    remote_id: u32,
}

impl U32Bus {
    /// The identity assigned at acquisition.
    pub closed spec fn spec_remote_id(&self) -> u32 {
        self.remote_id
    }

    #[verifier::when_used_as_spec(spec_remote_id)]
    pub fn remote_id(&self) -> (r: u32)
        ensures
            r == self.spec_remote_id(),
    {
        self.remote_id
    }
}

/// The virtual processor core. It owns its processor state (program counter,
/// register bank, program and data memory), the four inbound queues, and the
/// table of registered endpoints; it is the single writer of all of them.
/// Peripherals interact with it only through envelopes sent via a [`U32Bus`].
pub struct U032 {
    state: CoreState,
    pc: u32,
    dcs: Vec<u32>,
    pmem: Vec<u8>,
    mem: Vec<u32>,
    total_buses: u32,
    issued: Ghost<Seq<u32>>,
    capacity: usize,
    interrupt_q: Vec<Com<u32>>,
    kill_q: Vec<Com<()>>,
    incept_q: Vec<Com<StreamEndpoint>>,
    stream_q: Vec<Com<StreamEndpoint>>,
    feeds: Vec<Feed>,
    cursor: usize,
    observed: Vec<Observation>,
    violations: Vec<Violation>,
    out_buses: Vec<U32Bus>,
}

impl View for U032 {
    type V = CoreModel;

    closed spec fn view(&self) -> CoreModel {
        CoreModel {
            state: self.state,
            pc: self.pc,
            dcs: self.dcs@,
            pmem: self.pmem@,
            mem: self.mem@,
            total_buses: self.total_buses,
            issued: self.issued@,
            capacity: self.capacity,
            interrupt_q: self.interrupt_q@,
            kill_q: self.kill_q@,
            incept_q: self.incept_q@,
            stream_q: self.stream_q@,
            feeds: self.feeds@,
            cursor: self.cursor,
            observed: self.observed@,
            violations: self.violations@,
            out_buses: self.out_buses@,
        }
    }
}

impl U032 {
    /// The core's invariant, established by [`U032::new`] and preserved by
    /// every operation.
    pub open spec fn wf(&self) -> bool {
        model_inv(self@)
    }

    /// Builds an idle core: running, program counter and registers zeroed,
    /// program memory of `pmem_size` zero bytes, data memory of `mem_size`
    /// zero words, no bus ever acquired, and empty inbound queues each bounded
    /// by `capacity`.
    pub fn new(pmem_size: usize, mem_size: usize, capacity: usize) -> (c: U032)
        ensures
            c.wf(),
            c@.state == CoreState::Running,
            c@.pc == 0,
            c@.dcs == Seq::new(DCS_COUNT as nat, |i: int| 0u32),
            c@.pmem == Seq::new(pmem_size as nat, |i: int| 0u8),
            c@.mem == Seq::new(mem_size as nat, |i: int| 0u32),
            c@.total_buses == 0,
            c@.issued == Seq::<u32>::empty(),
            c@.capacity == capacity,
            c@.interrupt_q == Seq::<Com<u32>>::empty(),
            c@.kill_q == Seq::<Com<()>>::empty(),
            c@.incept_q == Seq::<Com<StreamEndpoint>>::empty(),
            c@.stream_q == Seq::<Com<StreamEndpoint>>::empty(),
            c@.feeds == Seq::<Feed>::empty(),
            c@.cursor == 0,
            c@.observed == Seq::<Observation>::empty(),
            c@.violations == Seq::<Violation>::empty(),
            c@.out_buses == Seq::<U32Bus>::empty(),
    {
        let c = U032 {
            state: CoreState::Running,
            pc: 0,
            dcs: vec![0u32; DCS_COUNT],
            pmem: vec![0u8; pmem_size],
            mem: vec![0u32; mem_size],
            total_buses: 0,
            issued: Ghost(Seq::empty()),
            capacity,
            interrupt_q: Vec::new(),
            kill_q: Vec::new(),
            incept_q: Vec::new(),
            stream_q: Vec::new(),
            feeds: Vec::new(),
            cursor: 0,
            observed: Vec::new(),
            violations: Vec::new(),
            out_buses: Vec::new(),
        };
        c
    }

    /// Hands out exactly one new bus: the handle's `remote_id` is the current
    /// value of `total_buses` (the first bus gets identity 0), and the counter
    /// then moves up by one. Identities are never reclaimed, even after the
    /// bus sends a kill.
    pub fn acquire_bus(&mut self) -> (bus: U32Bus)
        requires
            old(self).wf(),
            old(self)@.total_buses < u32::MAX,
        ensures
            final(self).wf(),
            bus.spec_remote_id() == old(self)@.total_buses,
            final(self)@ == (CoreModel {
                total_buses: (old(self)@.total_buses + 1) as u32,
                issued: old(self)@.issued.push(old(self)@.total_buses),
                ..old(self)@
            }),
    {
        let bus = U32Bus { remote_id: self.total_buses };
        proof {
            self.issued@ = self.issued@.push(self.total_buses);
        }
        self.total_buses = self.total_buses + 1;
        bus
    }

    /// An on-demand generator of buses over this core.
    ///
    /// The generator never exhausts: every pull yields a fresh bus. It must
    /// never be drained eagerly — callers pull a bounded number of handles,
    /// one at a time.
    pub fn bus_acquirer(&self) -> (a: BusAcquirer)
    {
        BusAcquirer {  }
    }
}

/// A generator facade over [`U032::acquire_bus`]: each pull acquires one new
/// bus from the core it is applied to.
///
/// This is an unbounded, restartable-on-demand source of capabilities, not a
/// finite collection: it never signals exhaustion, so it must never be drained
/// eagerly.
pub struct BusAcquirer {}

impl BusAcquirer {
    /// Pulls one fresh bus from `core`. Always yields a bus; the `Option` only
    /// reflects that the generator has no final element of its own.
    pub fn next(&mut self, core: &mut U032) -> (r: Option<U32Bus>)
        requires
            old(core).wf(),
            old(core)@.total_buses < u32::MAX,
        ensures
            final(core).wf(),
            r is Some,
            r->Some_0.spec_remote_id() == old(core)@.total_buses,
            final(core)@ == (CoreModel {
                total_buses: (old(core)@.total_buses + 1) as u32,
                issued: old(core)@.issued.push(old(core)@.total_buses),
                ..old(core)@
            }),
    {
        Some(core.acquire_bus())
    }
}

impl U032 {
    /// Looks up the feed registered under `(id, slot)`.
    fn find_feed(&self, id: u32, slot: SlotKind) -> (r: Option<usize>)
        ensures
            match r {
                Some(i) => 0 <= i < self@.feeds.len() && feed_matches(
                    self@.feeds[i as int],
                    id,
                    slot,
                ),
                None => !has_feed(self@.feeds, id, slot),
            },
    {
        let mut j: usize = 0;
        while j < self.feeds.len()
            invariant
                j <= self@.feeds.len(),
                forall|k: int| 0 <= k < j ==> !feed_matches(#[trigger] self@.feeds[k], id, slot),
            decreases self@.feeds.len() - j,
        {
            if self.feeds[j].id == id && self.feeds[j].slot == slot {
                return Some(j);
            }
            j = j + 1;
        }
        None
    }

    /// Registers `endpoint` under `(id, slot)`, replacing — and thereby
    /// dropping — the endpoint already there (last registration wins).
    fn register(&mut self, id: u32, slot: SlotKind, privilege: Privilege, endpoint: StreamEndpoint)
        -> (replaced: bool)
        requires
            old(self).wf(),
            endpoint.wf(),
        ensures
            final(self).wf(),
            replaced == has_feed(old(self)@.feeds, id, slot),
            final(self)@ == (CoreModel {
                feeds: register_feed(
                    old(self)@.feeds,
                    Feed { id, slot, privilege, endpoint },
                ),
                ..old(self)@
            }),
    {
        let f = Feed { id, slot, privilege, endpoint };
        match self.find_feed(id, slot) {
            Some(i) => {
                proof {
                    lemma_feed_index_unique(self@.feeds, id, slot, i as int);
                }
                let _displaced = self.feeds.remove(i);
                self.feeds.insert(i, f);
                proof {
                    assert(self.feeds@ =~= old(self)@.feeds.update(
                        feed_at(old(self)@.feeds, id, slot),
                        Feed { id, slot, privilege, endpoint },
                    ));
                }
                true
            },
            None => {
                self.feeds.push(f);
                false
            },
        }
    }

    /// Scans feed indices `[lo, hi)` for the first endpoint with a pending
    /// value.
    fn find_ready_in(&self, lo: usize, hi: usize) -> (r: Option<usize>)
        requires
            lo <= hi <= self@.feeds.len(),
        ensures
            match r {
                Some(i) => first_ready_in(self@.feeds, lo as int, hi as int) == Some(i as int)
                    && lo <= i < hi && self@.feeds[i as int].endpoint@.len() > 0,
                None => {
                    &&& first_ready_in(self@.feeds, lo as int, hi as int) is None
                    &&& forall|k: int|
                        lo <= k < hi ==> (#[trigger] self@.feeds[k]).endpoint@.len() == 0
                },
            },
    {
        let mut j: usize = lo;
        while j < hi
            invariant
                lo <= j <= hi <= self@.feeds.len(),
                first_ready_in(self@.feeds, lo as int, hi as int) == first_ready_in(
                    self@.feeds,
                    j as int,
                    hi as int,
                ),
                forall|k: int| lo <= k < j ==> (#[trigger] self@.feeds[k]).endpoint@.len() == 0,
            decreases hi - j,
        {
            if self.feeds[j].endpoint.len() > 0 {
                return Some(j);
            }
            j = j + 1;
        }
        None
    }

    /// The round-robin choice: the first ready feed at or after the cursor,
    /// wrapping around to the front.
    fn find_ready(&self) -> (r: Option<usize>)
        requires
            self.wf(),
        ensures
            match r {
                Some(i) => rr_choice(self@) == Some(i as int) && 0 <= i < self@.feeds.len()
                    && self@.feeds[i as int].endpoint@.len() > 0,
                None => rr_choice(self@) is None && all_feeds_empty(self@.feeds),
            },
    {
        let len = self.feeds.len();
        match self.find_ready_in(self.cursor, len) {
            Some(i) => Some(i),
            None => {
                match self.find_ready_in(0, self.cursor) {
                    Some(i) => Some(i),
                    None => None,
                }
            },
        }
    }
}

impl U032 {
    /// Services exactly one ready message and reports what was done.
    ///
    /// Priority: a kill is serviced first, to guarantee timely shutdown; then
    /// the interrupt, incept and stream queues; with nothing queued, the
    /// registered endpoints are polled round-robin from the cursor, so that no
    /// single noisy feed can starve the others. The whole effect is the
    /// transition relation [`step_spec`].
    pub fn step(&mut self) -> (o: StepOutcome)
        requires
            old(self).wf(),
        ensures
            final(self).wf(),
            step_spec(old(self)@, final(self)@, o),
    {
        if self.state == CoreState::Halted {
            return StepOutcome::Idle;
        }
        if self.kill_q.len() > 0 {
            let e = self.kill_q.remove(0);
            self.state = CoreState::Draining;
            proof {
                assert(self.kill_q@ =~= old(self)@.kill_q.drop_first());
                assert(step_kill(old(self)@, self@, StepOutcome::Kill { id: e.id }));
            }
            return StepOutcome::Kill { id: e.id };
        }
        if self.interrupt_q.len() > 0 {
            let e = self.interrupt_q.remove(0);
            proof {
                assert(self.interrupt_q@ =~= old(self)@.interrupt_q.drop_first());
            }
            if self.state == CoreState::Running {
                let la = e.privilege.local_address();
                if la < DCS_COUNT as u32 {
                    self.dcs[la as usize] = e.message;
                    return StepOutcome::Interrupt { id: e.id, applied: true };
                } else {
                    self.violations.push(Violation { id: e.id, address: e.privilege.address });
                    return StepOutcome::Interrupt { id: e.id, applied: false };
                }
            } else {
                return StepOutcome::Ignored { id: e.id };
            }
        }
        if self.incept_q.len() > 0 {
            let e = self.incept_q.remove(0);
            proof {
                assert(self.incept_q@ =~= old(self)@.incept_q.drop_first());
                assert(old(self)@.incept_q[0].message.wf());
            }
            let Com { message, privilege, id } = e;
            if self.state == CoreState::Running {
                let replaced = self.register(id, SlotKind::Control, privilege, message);
                return StepOutcome::Incept { id, replaced };
            } else {
                return StepOutcome::Ignored { id };
            }
        }
        if self.stream_q.len() > 0 {
            let e = self.stream_q.remove(0);
            proof {
                assert(self.stream_q@ =~= old(self)@.stream_q.drop_first());
                assert(old(self)@.stream_q[0].message.wf());
            }
            let Com { message, privilege, id } = e;
            if self.state == CoreState::Running {
                let replaced = self.register(id, SlotKind::Data, privilege, message);
                return StepOutcome::Stream { id, replaced };
            } else {
                return StepOutcome::Ignored { id };
            }
        }
        match self.find_ready() {
            Some(i) => {
                let mut f = self.feeds.remove(i);
                let value = f.endpoint.take_next().unwrap();
                let fid = f.id;
                let fslot = f.slot;
                let fpriv = f.privilege;
                self.feeds.insert(i, f);
                proof {
                    assert(self.feeds@ =~= old(self)@.feeds.update(
                        i as int,
                        self.feeds@[i as int],
                    ));
                }
                self.observed.push(Observation { id: fid, value });
                let addr = fpriv.address;
                let allowed = (addr & fpriv.permission) == 0 && (addr as usize) < self.mem.len();
                if allowed {
                    self.mem[addr as usize] = value;
                } else {
                    self.violations.push(Violation { id: fid, address: addr });
                }
                self.cursor = if i < self.feeds.len() - 1 {
                    i + 1
                } else {
                    0
                };
                let o = StepOutcome::Feed { id: fid, slot: fslot, written: allowed };
                proof {
                    assert(step_feed(old(self)@, self@, o));
                }
                o
            },
            None => {
                if self.state == CoreState::Draining {
                    self.state = CoreState::Halted;
                    StepOutcome::Halt
                } else {
                    StepOutcome::Idle
                }
            },
        }
    }
}

impl U32Bus {
    /// Wraps `value` in an envelope stamped with this bus's identity and the
    /// given privilege and enqueues it on the core's interrupt queue. Refused
    /// with `ChannelClosed` when the core has halted, and with
    /// `CapacityExceeded` when the queue is at its bound (backpressure: the
    /// sender may retry after the core has drained).
    pub fn send_interrupt(&self, core: &mut U032, privilege: Privilege, value: u32) -> (r: Result<
        (),
        SendError,
    >)
        requires
            old(core).wf(),
        ensures
            final(core).wf(),
            old(core)@.state == CoreState::Halted ==> r == Err::<(), SendError>(
                SendError::ChannelClosed,
            ) && final(core)@ == old(core)@,
            old(core)@.state != CoreState::Halted && old(core)@.interrupt_q.len()
                >= old(core)@.capacity ==> r == Err::<(), SendError>(SendError::CapacityExceeded)
                && final(core)@ == old(core)@,
            old(core)@.state != CoreState::Halted && old(core)@.interrupt_q.len()
                < old(core)@.capacity ==> r == Ok::<(), SendError>(()) && final(core)@
                == (CoreModel {
                interrupt_q: old(core)@.interrupt_q.push(
                    Com { message: value, privilege, id: self.spec_remote_id() },
                ),
                ..old(core)@
            }),
    {
        if core.state == CoreState::Halted {
            return Err(SendError::ChannelClosed);
        }
        if core.interrupt_q.len() >= core.capacity {
            return Err(SendError::CapacityExceeded);
        }
        core.interrupt_q.push(Com { message: value, privilege, id: self.remote_id });
        Ok(())
    }

    /// Enqueues a kill envelope — the pure "halt" signal — stamped with this
    /// bus's identity. Refusals are as for [`U32Bus::send_interrupt`].
    pub fn send_kill(&self, core: &mut U032, privilege: Privilege) -> (r: Result<(), SendError>)
        requires
            old(core).wf(),
        ensures
            final(core).wf(),
            old(core)@.state == CoreState::Halted ==> r == Err::<(), SendError>(
                SendError::ChannelClosed,
            ) && final(core)@ == old(core)@,
            old(core)@.state != CoreState::Halted && old(core)@.kill_q.len()
                >= old(core)@.capacity ==> r == Err::<(), SendError>(SendError::CapacityExceeded)
                && final(core)@ == old(core)@,
            old(core)@.state != CoreState::Halted && old(core)@.kill_q.len() < old(core)@.capacity
                ==> r == Ok::<(), SendError>(()) && final(core)@ == (CoreModel {
                kill_q: old(core)@.kill_q.push(
                    Com { message: (), privilege, id: self.spec_remote_id() },
                ),
                ..old(core)@
            }),
    {
        if core.state == CoreState::Halted {
            return Err(SendError::ChannelClosed);
        }
        if core.kill_q.len() >= core.capacity {
            return Err(SendError::CapacityExceeded);
        }
        core.kill_q.push(Com { message: (), privilege, id: self.remote_id });
        Ok(())
    }

    /// Hands a fresh inbound endpoint to the core inside an incept envelope:
    /// the handshake that registers (or, on a later incept, replaces) this
    /// bus's control-plane feed. Last incept wins: the displaced endpoint is
    /// dropped together with any values still pending in it — they are never
    /// observed. Refusals are as for [`U32Bus::send_interrupt`].
    pub fn send_incept(&self, core: &mut U032, privilege: Privilege, endpoint: StreamEndpoint)
        -> (r: Result<(), SendError>)
        requires
            old(core).wf(),
            endpoint.wf(),
        ensures
            final(core).wf(),
            old(core)@.state == CoreState::Halted ==> r == Err::<(), SendError>(
                SendError::ChannelClosed,
            ) && final(core)@ == old(core)@,
            old(core)@.state != CoreState::Halted && old(core)@.incept_q.len()
                >= old(core)@.capacity ==> r == Err::<(), SendError>(SendError::CapacityExceeded)
                && final(core)@ == old(core)@,
            old(core)@.state != CoreState::Halted && old(core)@.incept_q.len()
                < old(core)@.capacity ==> r == Ok::<(), SendError>(()) && final(core)@
                == (CoreModel {
                incept_q: old(core)@.incept_q.push(
                    Com { message: endpoint, privilege, id: self.spec_remote_id() },
                ),
                ..old(core)@
            }),
    {
        if core.state == CoreState::Halted {
            return Err(SendError::ChannelClosed);
        }
        if core.incept_q.len() >= core.capacity {
            return Err(SendError::CapacityExceeded);
        }
        core.incept_q.push(Com { message: endpoint, privilege, id: self.remote_id });
        Ok(())
    }

    /// Hands an inbound endpoint to the core inside a stream envelope,
    /// registering (or refreshing) this bus's bulk-data feed. Refusals are as
    /// for [`U32Bus::send_interrupt`].
    pub fn send_stream(&self, core: &mut U032, privilege: Privilege, endpoint: StreamEndpoint)
        -> (r: Result<(), SendError>)
        requires
            old(core).wf(),
            endpoint.wf(),
        ensures
            final(core).wf(),
            old(core)@.state == CoreState::Halted ==> r == Err::<(), SendError>(
                SendError::ChannelClosed,
            ) && final(core)@ == old(core)@,
            old(core)@.state != CoreState::Halted && old(core)@.stream_q.len()
                >= old(core)@.capacity ==> r == Err::<(), SendError>(SendError::CapacityExceeded)
                && final(core)@ == old(core)@,
            old(core)@.state != CoreState::Halted && old(core)@.stream_q.len()
                < old(core)@.capacity ==> r == Ok::<(), SendError>(()) && final(core)@
                == (CoreModel {
                stream_q: old(core)@.stream_q.push(
                    Com { message: endpoint, privilege, id: self.spec_remote_id() },
                ),
                ..old(core)@
            }),
    {
        if core.state == CoreState::Halted {
            return Err(SendError::ChannelClosed);
        }
        if core.stream_q.len() >= core.capacity {
            return Err(SendError::CapacityExceeded);
        }
        core.stream_q.push(Com { message: endpoint, privilege, id: self.remote_id });
        Ok(())
    }

    /// Sends one value on this bus's already-registered endpoint in `slot`.
    /// Refused with `ChannelClosed` when the core has halted or when no
    /// endpoint is registered under this bus's identity in that slot, and with
    /// `CapacityExceeded` when the endpoint is at its bound.
    pub fn feed_value(&self, core: &mut U032, slot: SlotKind, value: u32) -> (r: Result<
        (),
        SendError,
    >)
        requires
            old(core).wf(),
        ensures
            final(core).wf(),
            old(core)@.state == CoreState::Halted ==> r == Err::<(), SendError>(
                SendError::ChannelClosed,
            ) && final(core)@ == old(core)@,
            old(core)@.state != CoreState::Halted && !has_feed(
                old(core)@.feeds,
                self.spec_remote_id(),
                slot,
            ) ==> r == Err::<(), SendError>(SendError::ChannelClosed) && final(core)@
                == old(core)@,
            old(core)@.state != CoreState::Halted && has_feed(
                old(core)@.feeds,
                self.spec_remote_id(),
                slot,
            ) ==> ({
                let i = feed_at(old(core)@.feeds, self.spec_remote_id(), slot);
                let f = old(core)@.feeds[i];
                if f.endpoint@.len() < f.endpoint.spec_capacity() {
                    &&& r == Ok::<(), SendError>(())
                    &&& final(core)@.feeds.len() == old(core)@.feeds.len()
                    &&& final(core)@.feeds[i].id == f.id
                    &&& final(core)@.feeds[i].slot == f.slot
                    &&& final(core)@.feeds[i].privilege == f.privilege
                    &&& final(core)@.feeds[i].endpoint@ == f.endpoint@.push(value)
                    &&& final(core)@.feeds[i].endpoint.spec_capacity()
                        == f.endpoint.spec_capacity()
                    &&& (forall|j: int|
                        0 <= j < old(core)@.feeds.len() && j != i
                            ==> #[trigger] final(core)@.feeds[j] == old(core)@.feeds[j])
                    &&& final(core)@ == (CoreModel { feeds: final(core)@.feeds, ..old(core)@ })
                } else {
                    &&& r == Err::<(), SendError>(SendError::CapacityExceeded)
                    &&& final(core)@ == old(core)@
                }
            }),
    {
        if core.state == CoreState::Halted {
            return Err(SendError::ChannelClosed);
        }
        match core.find_feed(self.remote_id, slot) {
            None => Err(SendError::ChannelClosed),
            Some(i) => {
                proof {
                    lemma_feed_index_unique(core@.feeds, self.spec_remote_id(), slot, i as int);
                }
                if core.feeds[i].endpoint.len() >= core.feeds[i].endpoint.capacity() {
                    return Err(SendError::CapacityExceeded);
                }
                let mut f = core.feeds.remove(i);
                let _ = f.endpoint.push_value(value);
                core.feeds.insert(i, f);
                proof {
                    assert(core.feeds@ =~= old(core)@.feeds.update(i as int, core.feeds@[i as int]));
                }
                Ok(())
            },
        }
    }
}

/// The core is committed to halting: it is already draining or halted, or a
/// kill envelope is queued.
pub open spec fn halt_pending(m: CoreModel) -> bool {
    m.state == CoreState::Draining || m.state == CoreState::Halted || m.kill_q.len() > 0
}

/// Two core models are connected by one dispatch step, whatever it reported.
pub open spec fn step_connected(m: CoreModel, m2: CoreModel) -> bool {
    exists|o: StepOutcome| step_spec(m, m2, o)
}

/// Every adjacent pair of the sequence is connected by one dispatch step.
pub open spec fn steps_trace(t: Seq<CoreModel>) -> bool {
    forall|k: int| 0 <= k && k + 1 < t.len() ==> #[trigger] step_connected(t[k], t[k + 1])
}

/// The sequence is a dispatch trace leading from `m` to `m2`.
pub open spec fn trace_connects(t: Seq<CoreModel>, m: CoreModel, m2: CoreModel) -> bool {
    &&& t.len() >= 1
    &&& t[0] == m
    &&& t.last() == m2
    &&& steps_trace(t)
}

/// `m2` can be reached from `m` by dispatch steps alone: everything the loop
/// does to the core is an iteration of [`step_spec`].
pub open spec fn reachable(m: CoreModel, m2: CoreModel) -> bool {
    exists|t: Seq<CoreModel>| #[trigger] trace_connects(t, m, m2)
}

/// Appending one more dispatch step to a trace keeps it a trace.
proof fn lemma_trace_extend(t: Seq<CoreModel>, m2: CoreModel, o: StepOutcome)
    requires
        t.len() >= 1,
        steps_trace(t),
        step_spec(t.last(), m2, o),
    ensures
        steps_trace(t.push(m2)),
        t.push(m2).last() == m2,
        t.push(m2)[0] == t[0],
{
    let t2 = t.push(m2);
    assert forall|k: int| 0 <= k && k + 1 < t2.len() implies #[trigger] step_connected(
        t2[k],
        t2[k + 1],
    ) by {
        if k + 1 < t.len() {
            assert(t2[k] == t[k]);
            assert(t2[k + 1] == t[k + 1]);
            assert(step_connected(t[k], t[k + 1]));
        } else {
            assert(t2[k] == t[k]);
            assert(t[k] == t.last());
            assert(t2[k + 1] == m2);
            assert(step_spec(t.last(), m2, o));
            assert(step_connected(t.last(), m2));
        }
    }
}

/// A core that is not committed to halting — running, with no kill queued —
/// stays that way under dispatch: no step can invent a kill, so without one
/// the core never leaves `Running`.
pub proof fn lemma_step_stays_running(m: CoreModel, m2: CoreModel, o: StepOutcome)
    requires
        step_spec(m, m2, o),
        !halt_pending(m),
    ensures
        !halt_pending(m2),
        m2.state == CoreState::Running,
{
}

proof fn lemma_prefix_self<T>(s: Seq<T>)
    ensures
        s.is_prefix_of(s),
{
    assert(s =~= s.subrange(0, s.len() as int));
}

proof fn lemma_prefix_push<T>(s: Seq<T>, x: T)
    ensures
        s.is_prefix_of(s.push(x)),
{
    assert(s =~= s.push(x).subrange(0, s.len() as int));
}

proof fn lemma_prefix_trans<T>(a: Seq<T>, b: Seq<T>, c: Seq<T>)
    requires
        a.is_prefix_of(b),
        b.is_prefix_of(c),
    ensures
        a.is_prefix_of(c),
{
    assert(a =~= c.subrange(0, a.len() as int));
}

/// A dispatch step never touches the program counter, the program store, the
/// bus counter or the queue bound, and it only ever appends to the observation
/// and violation logs.
pub proof fn lemma_step_static(m: CoreModel, m2: CoreModel, o: StepOutcome)
    requires
        model_inv(m),
        step_spec(m, m2, o),
    ensures
        m2.pc == m.pc,
        m2.pmem == m.pmem,
        m2.total_buses == m.total_buses,
        m2.issued == m.issued,
        m2.capacity == m.capacity,
        m2.dcs.len() == m.dcs.len(),
        m2.out_buses == m.out_buses,
        m.observed.is_prefix_of(m2.observed),
        m.violations.is_prefix_of(m2.violations),
{
    lemma_prefix_self(m.observed);
    lemma_prefix_self(m.violations);
    if step_feed(m, m2, o) {
        lemma_rr_choice_some(m, rr_choice(m)->Some_0);
        lemma_prefix_push(m.observed, Observation {
            id: m.feeds[rr_choice(m)->Some_0].id,
            value: m.feeds[rr_choice(m)->Some_0].endpoint@[0],
        });
        if !write_allowed(m.feeds[rr_choice(m)->Some_0].privilege, m.mem.len()) {
            lemma_prefix_push(m.violations, Violation {
                id: m.feeds[rr_choice(m)->Some_0].id,
                address: m.feeds[rr_choice(m)->Some_0].privilege.address,
            });
        }
        assert(m2.dcs == m.dcs);
    } else if step_interrupt(m, m2, o) {
        if !interrupt_ok(m.interrupt_q[0]) {
            lemma_prefix_push(m.violations, Violation {
                id: m.interrupt_q[0].id,
                address: m.interrupt_q[0].privilege.address,
            });
            assert(m2.dcs == m.dcs);
        } else {
            assert(m2.dcs == m.dcs.update(
                m.interrupt_q[0].privilege.spec_local_address() as int,
                m.interrupt_q[0].message,
            ));
        }
    } else if step_idle(m, m2, o) || step_kill(m, m2, o) || step_incept(m, m2, o)
        || step_stream(m, m2, o) || step_ignored(m, m2, o) || step_halt(m, m2, o) {
        assert(m2.dcs == m.dcs);
    }
}

/// A core committed to halting stays committed: no dispatch step can bring it
/// back to unconditional running.
pub proof fn lemma_step_halt_pending(m: CoreModel, m2: CoreModel, o: StepOutcome)
    requires
        step_spec(m, m2, o),
        halt_pending(m),
    ensures
        halt_pending(m2),
{
}

/// Once the core has left `Running` — that is, once a kill has been serviced —
/// no later step applies an interrupt: the control registers are frozen, and
/// the core never runs again.
pub proof fn lemma_step_frozen_registers(m: CoreModel, m2: CoreModel, o: StepOutcome)
    requires
        step_spec(m, m2, o),
        m.state != CoreState::Running,
    ensures
        m2.state != CoreState::Running,
        m2.dcs == m.dcs,
{
}

impl U032 {
    /// Drives the dispatch loop until nothing more can happen: the core
    /// reaches `Halted`, or — when no kill was ever received — it has serviced
    /// every queued envelope and every pending endpoint value and is idle.
    ///
    /// A kill already queued, or a drain already begun, is always carried
    /// through to `Halted`; once the core has stopped running, its control
    /// registers no longer change; and without a queued kill the core never
    /// leaves `Running`.
    ///
    /// Everything a run does is dispatch: the final model is reachable from
    /// the initial one through [`step_spec`] transitions alone, so every
    /// interrupt applied, endpoint registered, value observed and word written
    /// during the run is an instance of the transition relation.
    pub fn run(&mut self)
        requires
            old(self).wf(),
        ensures
            final(self).wf(),
            reachable(old(self)@, final(self)@),
            final(self)@.state == CoreState::Halted || (final(self)@.state == CoreState::Running
                && queues_empty(final(self)@) && all_feeds_empty(final(self)@.feeds)),
            halt_pending(old(self)@) ==> final(self)@.state == CoreState::Halted,
            !halt_pending(old(self)@) ==> final(self)@.state == CoreState::Running,
            old(self)@.state != CoreState::Running ==> final(self)@.dcs == old(self)@.dcs,
            final(self)@.pc == old(self)@.pc,
            final(self)@.pmem == old(self)@.pmem,
            final(self)@.total_buses == old(self)@.total_buses,
            final(self)@.issued == old(self)@.issued,
            final(self)@.capacity == old(self)@.capacity,
            old(self)@.observed.is_prefix_of(final(self)@.observed),
            old(self)@.violations.is_prefix_of(final(self)@.violations),
    {
        proof {
            lemma_prefix_self(old(self)@.observed);
            lemma_prefix_self(old(self)@.violations);
        }
        let ghost mut trace: Seq<CoreModel> = seq![old(self)@];
        let mut done = false;
        while !done
            invariant
                self.wf(),
                trace_connects(trace, old(self)@, self@),
                self@.pc == old(self)@.pc,
                self@.pmem == old(self)@.pmem,
                self@.total_buses == old(self)@.total_buses,
                self@.issued == old(self)@.issued,
                self@.capacity == old(self)@.capacity,
                old(self)@.observed.is_prefix_of(self@.observed),
                old(self)@.violations.is_prefix_of(self@.violations),
                halt_pending(old(self)@) ==> halt_pending(self@),
                !halt_pending(old(self)@) ==> (!halt_pending(self@) && self@.state
                    == CoreState::Running),
                old(self)@.state != CoreState::Running ==> (self@.state != CoreState::Running
                    && self@.dcs == old(self)@.dcs),
                done ==> (self@.state == CoreState::Halted || (self@.state == CoreState::Running
                    && queues_empty(self@) && all_feeds_empty(self@.feeds))),
                done && halt_pending(old(self)@) ==> self@.state == CoreState::Halted,
            decreases measure(self@) + (if done { 0int } else { 1int }),
        {
            let ghost before = self@;
            let o = self.step();
            proof {
                lemma_step_static(before, self@, o);
                lemma_trace_extend(trace, self@, o);
                trace = trace.push(self@);
                lemma_prefix_trans(old(self)@.observed, before.observed, self@.observed);
                lemma_prefix_trans(old(self)@.violations, before.violations, self@.violations);
                if halt_pending(old(self)@) {
                    lemma_step_halt_pending(before, self@, o);
                } else {
                    lemma_step_stays_running(before, self@, o);
                }
                if old(self)@.state != CoreState::Running {
                    lemma_step_frozen_registers(before, self@, o);
                }
                if o != StepOutcome::Idle {
                    lemma_step_measure(before, self@, o);
                }
            }
            if o == StepOutcome::Idle || o == StepOutcome::Halt {
                done = true;
            }
        }
        proof {
            assert(trace_connects(trace, old(self)@, self@));
        }
    }

    /// Attaches a bus the core itself forwards to, modeling a multi-level bus
    /// hierarchy: the bus joins the downstream collection and stays there.
    pub fn attach_out_bus(&mut self, bus: U32Bus)
        requires
            old(self).wf(),
        ensures
            final(self).wf(),
            final(self)@ == (CoreModel {
                out_buses: old(self)@.out_buses.push(bus),
                ..old(self)@
            }),
    {
        self.out_buses.push(bus);
    }

    /// How many downstream buses are attached.
    pub fn out_bus_count(&self) -> (n: usize)
        ensures
            n == self@.out_buses.len(),
    {
        self.out_buses.len()
    }

    /// The identity of the `index`-th attached downstream bus.
    pub fn out_bus_id(&self, index: usize) -> (r: u32)
        requires
            index < self@.out_buses.len(),
        ensures
            r == self@.out_buses[index as int].spec_remote_id(),
    {
        self.out_buses[index].remote_id()
    }

    /// A read exposed outward, as later delivered to downstream consumers: the
    /// data-memory word selected by the privilege's network address, restricted
    /// to the network-visible bits of the requester's mask. Core-private
    /// address space never leaks through this path.
    pub fn network_read(&self, privilege: Privilege) -> (r: Option<u32>)
        ensures
            (privilege.spec_network_address() as int) < self@.mem.len() ==> r == Some(
                self@.mem[privilege.spec_network_address() as int] & privilege.permission,
            ),
            (privilege.spec_network_address() as int) >= self@.mem.len() ==> r is None,
    {
        let a = privilege.network_address();
        if (a as usize) < self.mem.len() {
            Some(self.mem[a as usize] & privilege.permission)
        } else {
            None
        }
    }

    /// The core's current dispatch phase.
    pub fn state(&self) -> (s: CoreState)
        ensures
            s == self@.state,
    {
        self.state
    }

    /// The program counter.
    pub fn pc(&self) -> (r: u32)
        ensures
            r == self@.pc,
    {
        self.pc
    }

    /// The control/segment register at `index`.
    pub fn dcs_register(&self, index: usize) -> (r: u32)
        requires
            self.wf(),
            index < DCS_COUNT,
        ensures
            r == self@.dcs[index as int],
    {
        self.dcs[index]
    }

    /// Number of words in data memory.
    pub fn mem_len(&self) -> (n: usize)
        ensures
            n == self@.mem.len(),
    {
        self.mem.len()
    }

    /// The data-memory word at `address`.
    pub fn mem_word(&self, address: usize) -> (r: u32)
        requires
            address < self@.mem.len(),
        ensures
            r == self@.mem[address as int],
    {
        self.mem[address]
    }

    /// How many buses have ever been acquired.
    pub fn total_buses(&self) -> (n: u32)
        ensures
            n == self@.total_buses,
    {
        self.total_buses
    }

    /// The bound of each inbound queue.
    pub fn capacity(&self) -> (n: usize)
        ensures
            n == self@.capacity,
    {
        self.capacity
    }

    /// How many streamed values the core has consumed.
    pub fn observed_count(&self) -> (n: usize)
        ensures
            n == self@.observed.len(),
    {
        self.observed.len()
    }

    /// The `index`-th consumed value, in consumption order.
    pub fn observed_at(&self, index: usize) -> (r: Observation)
        requires
            index < self@.observed.len(),
        ensures
            r == self@.observed[index as int],
    {
        self.observed[index]
    }

    /// How many violations have been reported.
    pub fn violation_count(&self) -> (n: usize)
        ensures
            n == self@.violations.len(),
    {
        self.violations.len()
    }

    /// The `index`-th reported violation, in report order.
    pub fn violation_at(&self, index: usize) -> (r: Violation)
        requires
            index < self@.violations.len(),
        ensures
            r == self@.violations[index as int],
    {
        self.violations[index]
    }
}

/// Under the uniqueness part of the invariant, any index whose feed matches
/// `(id, slot)` is the one `feed_at` picks.
proof fn lemma_feed_index_unique(feeds: Seq<Feed>, id: u32, slot: SlotKind, i: int)
    requires
        forall|x: int, y: int|
            0 <= x < y < feeds.len() ==> !(#[trigger] feeds[x].id == #[trigger] feeds[y].id
                && feeds[x].slot == feeds[y].slot),
        0 <= i < feeds.len(),
        feed_matches(feeds[i], id, slot),
    ensures
        has_feed(feeds, id, slot),
        feed_at(feeds, id, slot) == i,
{
    assert(has_feed(feeds, id, slot));
    let a = feed_at(feeds, id, slot);
    assert(0 <= a < feeds.len() && feed_matches(feeds[a], id, slot));
    if a < i {
        assert(!(feeds[a].id == feeds[i].id && feeds[a].slot == feeds[i].slot));
    } else if i < a {
        assert(!(feeds[i].id == feeds[a].id && feeds[i].slot == feeds[a].slot));
    }
}

} // verus!
