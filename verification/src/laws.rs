//! The library's global guarantees, stated and proved over the core model and
//! the dispatch transition relation.

use vstd::prelude::*;

use crate::message::Observation;
use crate::message::Violation;
use crate::privilege::Privilege;
use crate::processor::lemma_step_frozen_registers;
use crate::processor::model_inv;
use crate::processor::reachable;
use crate::processor::rr_choice;
use crate::processor::step_connected;
use crate::processor::step_spec;
use crate::processor::steps_trace;
use crate::processor::trace_connects;
use crate::processor::write_allowed;
use crate::processor::CoreModel;
use crate::processor::CoreState;
use crate::processor::StepOutcome;

verus! {

/// Bus identities are handed out strictly increasing, pairwise distinct, and
/// starting at 0: the k-th bus ever acquired carries identity k, so no two
/// acquisitions can ever share an identity and none is ever reclaimed.
pub proof fn lemma_remote_ids_strictly_increasing(m: CoreModel)
    requires
        model_inv(m),
    ensures
        forall|i: int, j: int|
            0 <= i < j < m.issued.len() ==> #[trigger] m.issued[i] < #[trigger] m.issued[j],
        m.issued.len() > 0 ==> m.issued[0] == 0,
{
}

/// A step that rejects a streamed write leaves data memory exactly as it was
/// and reports the violation exactly once: one record, naming the sending bus
/// and the offending address, is appended to the violation log.
pub proof fn lemma_rejected_write_leaves_memory(m: CoreModel, m2: CoreModel, o: StepOutcome)
    requires
        step_spec(m, m2, o),
        o matches StepOutcome::Feed { written: false, .. },
    ensures
        m2.mem == m.mem,
        m2.violations == m.violations.push(
            Violation {
                id: m.feeds[rr_choice(m)->Some_0].id,
                address: m.feeds[rr_choice(m)->Some_0].privilege.address,
            },
        ),
{
}

/// An address whose set bits fall entirely outside the sender's core-local
/// mask — every one of them is network-visible — is never an allowed write
/// target, whatever the size of data memory.
pub proof fn lemma_network_only_address_rejected(p: Privilege, mem_len: nat)
    requires
        p.address != 0,
        p.address & !p.permission == 0,
    ensures
        !write_allowed(p, mem_len),
{
    let a = p.address;
    let m = p.permission;
    assert(a != 0 && (a & !m) == 0 ==> (a & m) != 0) by (bit_vector);
}

/// A write the core does perform lands exactly at the sender's core-local
/// address: an allowed privilege's address coincides with its
/// `local_address()`, so nothing is ever written through network-visible bits.
pub proof fn lemma_written_address_is_local(p: Privilege, mem_len: nat)
    requires
        write_allowed(p, mem_len),
    ensures
        p.address == p.spec_local_address(),
{
    let a = p.address;
    let m = p.permission;
    assert((a & m) == 0 ==> (a & !m) == a) by (bit_vector);
}

/// Registered endpoints are drained in strict FIFO order: the step that
/// services a feed observes exactly that feed's oldest pending value, removes
/// exactly it, and leaves every other feed — including any replacement
/// registered later under the same identity — untouched until its own turn.
pub proof fn lemma_feed_service_is_fifo(m: CoreModel, m2: CoreModel, o: StepOutcome)
    requires
        step_spec(m, m2, o),
        o matches StepOutcome::Feed { .. },
    ensures
        rr_choice(m) is Some,
        ({
            let i = rr_choice(m)->Some_0;
            &&& m2.observed == m.observed.push(
                Observation { id: m.feeds[i].id, value: m.feeds[i].endpoint@[0] },
            )
            &&& m2.feeds[i].endpoint@ == m.feeds[i].endpoint@.drop_first()
            &&& (forall|j: int|
                0 <= j < m.feeds.len() && j != i ==> #[trigger] m2.feeds[j] == m.feeds[j])
        }),
{
}

/// Inversion of the write policy: whenever a dispatch step changes data
/// memory at all, it was a feed service whose privilege passed the write
/// policy, and the change is exactly one word, at the privilege's core-local
/// address, holding that feed's oldest pending value. Memory never changes in
/// any other way.
pub proof fn lemma_memory_changes_are_allowed_writes(m: CoreModel, m2: CoreModel, o: StepOutcome)
    requires
        step_spec(m, m2, o),
        m2.mem != m.mem,
    ensures
        o matches StepOutcome::Feed { written: true, .. },
        rr_choice(m) is Some,
        write_allowed(m.feeds[rr_choice(m)->Some_0].privilege, m.mem.len()),
        m2.mem == m.mem.update(
            m.feeds[rr_choice(m)->Some_0].privilege.address as int,
            m.feeds[rr_choice(m)->Some_0].endpoint@[0],
        ),
{
}

proof fn lemma_trace_frozen_from(t: Seq<CoreModel>, k: int)
    requires
        steps_trace(t),
        0 <= k < t.len(),
        t[k].state != CoreState::Running,
    ensures
        t.last().state != CoreState::Running,
        t.last().dcs == t[k].dcs,
    decreases t.len() - k,
{
    if k + 1 < t.len() {
        assert(step_connected(t[k], t[k + 1]));
        let here = t[k];
        let next = t[k + 1];
        let o = choose|o: StepOutcome| step_spec(here, next, o);
        lemma_step_frozen_registers(here, next, o);
        lemma_trace_frozen_from(t, k + 1);
    }
}

/// End-to-end form of the kill guarantee: from any core that has left
/// `Running` — a kill serviced, or the drain finished — no amount of further
/// dispatch, however many steps, ever runs it again or changes a control
/// register. In particular no interrupt sent after a kill is applied.
pub proof fn lemma_reachable_frozen_registers(m: CoreModel, m2: CoreModel)
    requires
        reachable(m, m2),
        m.state != CoreState::Running,
    ensures
        m2.state != CoreState::Running,
        m2.dcs == m.dcs,
{
    let t = choose|t: Seq<CoreModel>| trace_connects(t, m, m2);
    lemma_trace_frozen_from(t, 0);
}

} // verus!
