use u032::CoreState;
use u032::Observation;
use u032::Privilege;
use u032::SendError;
use u032::SlotKind;
use u032::StepOutcome;
use u032::StreamEndpoint;
use u032::Violation;
use u032::U032;

fn local(address: u32) -> Privilege {
    // permission 0: every address bit is core-local.
    Privilege::new(0, address)
}

#[test]
fn new_core_is_zeroed_and_running() {
    let c = U032::new(16, 8, 4);
    assert_eq!(c.state(), CoreState::Running);
    assert_eq!(c.pc(), 0);
    for i in 0..4 {
        assert_eq!(c.dcs_register(i), 0);
    }
    assert_eq!(c.mem_len(), 8);
    for a in 0..8 {
        assert_eq!(c.mem_word(a), 0);
    }
    assert_eq!(c.total_buses(), 0);
    assert_eq!(c.capacity(), 4);
    assert_eq!(c.observed_count(), 0);
    assert_eq!(c.violation_count(), 0);
}

#[test]
fn acquired_ids_start_at_zero_and_increase() {
    let mut c = U032::new(0, 0, 4);
    let b0 = c.acquire_bus();
    let b1 = c.acquire_bus();
    let mut gen = c.bus_acquirer();
    let b2 = gen.next(&mut c).unwrap();
    assert_eq!(b0.remote_id(), 0);
    assert_eq!(b1.remote_id(), 1);
    assert_eq!(b2.remote_id(), 2);
    assert!(b0.remote_id() < b1.remote_id() && b1.remote_id() < b2.remote_id());
    assert_eq!(c.total_buses(), 3);
}

#[test]
fn interrupt_lands_in_selected_register() {
    let mut c = U032::new(0, 4, 4);
    let bus = c.acquire_bus();
    assert_eq!(bus.send_interrupt(&mut c, local(2), 42), Ok(()));
    c.run();
    assert_eq!(c.dcs_register(2), 42);
    assert_eq!(c.violation_count(), 0);
    assert_eq!(c.state(), CoreState::Running);
}

#[test]
fn interrupt_outside_register_range_is_a_violation() {
    let mut c = U032::new(0, 4, 4);
    let bus = c.acquire_bus();
    assert_eq!(bus.send_interrupt(&mut c, local(7), 42), Ok(()));
    c.run();
    for i in 0..4 {
        assert_eq!(c.dcs_register(i), 0);
    }
    assert_eq!(c.violation_count(), 1);
    assert_eq!(c.violation_at(0), Violation { id: 0, address: 7 });
    assert_eq!(c.state(), CoreState::Running);
}

#[test]
fn kill_then_interrupt_leaves_registers_unchanged() {
    let mut c = U032::new(0, 4, 4);
    let bus = c.acquire_bus();
    assert_eq!(bus.send_kill(&mut c, local(0)), Ok(()));
    assert_eq!(bus.send_interrupt(&mut c, local(1), 99), Ok(()));
    c.run();
    assert_eq!(c.state(), CoreState::Halted);
    for i in 0..4 {
        assert_eq!(c.dcs_register(i), 0);
    }
    // The late interrupt was discarded, not reported as a violation.
    assert_eq!(c.violation_count(), 0);
}

#[test]
fn kill_is_serviced_before_anything_else() {
    let mut c = U032::new(0, 4, 4);
    let bus = c.acquire_bus();
    assert_eq!(bus.send_interrupt(&mut c, local(0), 5), Ok(()));
    assert_eq!(bus.send_kill(&mut c, local(0)), Ok(()));
    assert_eq!(c.step(), StepOutcome::Kill { id: 0 });
    assert_eq!(c.state(), CoreState::Draining);
    assert_eq!(c.step(), StepOutcome::Ignored { id: 0 });
    assert_eq!(c.step(), StepOutcome::Halt);
    assert_eq!(c.state(), CoreState::Halted);
    assert_eq!(c.step(), StepOutcome::Idle);
    assert_eq!(c.dcs_register(0), 0);
}

#[test]
fn incepted_endpoint_values_arrive_in_order() {
    let mut c = U032::new(0, 8, 4);
    let bus = c.acquire_bus();
    let ep = StreamEndpoint::new(8);
    assert_eq!(bus.send_incept(&mut c, local(5), ep), Ok(()));
    c.run();
    assert_eq!(bus.feed_value(&mut c, SlotKind::Control, 1), Ok(()));
    assert_eq!(bus.feed_value(&mut c, SlotKind::Control, 2), Ok(()));
    assert_eq!(bus.feed_value(&mut c, SlotKind::Control, 3), Ok(()));
    c.run();
    assert_eq!(c.observed_count(), 3);
    assert_eq!(c.observed_at(0), Observation { id: 0, value: 1 });
    assert_eq!(c.observed_at(1), Observation { id: 0, value: 2 });
    assert_eq!(c.observed_at(2), Observation { id: 0, value: 3 });
    // All three writes landed at the privilege's core-local address.
    assert_eq!(c.mem_word(5), 3);
    assert_eq!(c.violation_count(), 0);
}

#[test]
fn later_incept_replaces_earlier_endpoint() {
    let mut c = U032::new(0, 8, 4);
    let bus = c.acquire_bus();
    let mut ep1 = StreamEndpoint::new(8);
    assert_eq!(ep1.push_value(7), Ok(()));
    assert_eq!(ep1.push_value(8), Ok(()));
    let mut ep2 = StreamEndpoint::new(8);
    assert_eq!(ep2.push_value(1), Ok(()));
    assert_eq!(bus.send_incept(&mut c, local(3), ep1), Ok(()));
    assert_eq!(bus.send_incept(&mut c, local(3), ep2), Ok(()));
    c.run();
    // The first endpoint was displaced before being drained: its pending
    // values 7 and 8 were dropped with it.
    assert_eq!(c.observed_count(), 1);
    assert_eq!(c.observed_at(0), Observation { id: 0, value: 1 });
    assert_eq!(c.mem_word(3), 1);
}

#[test]
fn control_and_data_slots_are_independent() {
    let mut c = U032::new(0, 8, 4);
    let bus = c.acquire_bus();
    let mut control = StreamEndpoint::new(4);
    assert_eq!(control.push_value(10), Ok(()));
    let mut data = StreamEndpoint::new(4);
    assert_eq!(data.push_value(20), Ok(()));
    assert_eq!(bus.send_incept(&mut c, local(1), control), Ok(()));
    assert_eq!(bus.send_stream(&mut c, local(2), data), Ok(()));
    c.run();
    assert_eq!(c.observed_count(), 2);
    assert_eq!(c.mem_word(1), 10);
    assert_eq!(c.mem_word(2), 20);
}

#[test]
fn network_only_address_never_reaches_memory() {
    let mut c = U032::new(0, 8, 4);
    let bus = c.acquire_bus();
    let mut ep = StreamEndpoint::new(4);
    assert_eq!(ep.push_value(77), Ok(()));
    assert_eq!(ep.push_value(88), Ok(()));
    // Address 4 with permission bits covering it: every set bit is
    // network-visible, so the writes must be rejected.
    let p = Privilege::new(0xFFFF_FFFF, 4);
    assert_eq!(bus.send_incept(&mut c, p, ep), Ok(()));
    c.run();
    for a in 0..8 {
        assert_eq!(c.mem_word(a), 0);
    }
    // Exactly one violation per rejected write.
    assert_eq!(c.violation_count(), 2);
    assert_eq!(c.violation_at(0), Violation { id: 0, address: 4 });
    assert_eq!(c.violation_at(1), Violation { id: 0, address: 4 });
}

#[test]
fn out_of_range_local_address_is_rejected() {
    let mut c = U032::new(0, 8, 4);
    let bus = c.acquire_bus();
    let mut ep = StreamEndpoint::new(4);
    assert_eq!(ep.push_value(9), Ok(()));
    assert_eq!(bus.send_incept(&mut c, local(100), ep), Ok(()));
    c.run();
    for a in 0..8 {
        assert_eq!(c.mem_word(a), 0);
    }
    assert_eq!(c.violation_count(), 1);
    assert_eq!(c.violation_at(0), Violation { id: 0, address: 100 });
}

#[test]
fn two_buses_do_not_contaminate_each_other() {
    let mut c = U032::new(0, 8, 4);
    let b0 = c.acquire_bus();
    let b1 = c.acquire_bus();
    assert_eq!(b0.remote_id(), 0);
    assert_eq!(b1.remote_id(), 1);
    let mut ep = StreamEndpoint::new(8);
    assert_eq!(ep.push_value(1), Ok(()));
    assert_eq!(ep.push_value(2), Ok(()));
    assert_eq!(ep.push_value(3), Ok(()));
    assert_eq!(b0.send_incept(&mut c, local(6), ep), Ok(()));
    assert_eq!(b1.send_interrupt(&mut c, local(1), 42), Ok(()));
    c.run();
    // The interrupt is applied first (queue priority), then the stream is
    // observed in order, all of it attributed to bus 0.
    assert_eq!(c.dcs_register(1), 42);
    assert_eq!(c.observed_count(), 3);
    assert_eq!(c.observed_at(0), Observation { id: 0, value: 1 });
    assert_eq!(c.observed_at(1), Observation { id: 0, value: 2 });
    assert_eq!(c.observed_at(2), Observation { id: 0, value: 3 });
    assert_eq!(c.mem_word(6), 3);
    assert_eq!(c.violation_count(), 0);
}

#[test]
fn sends_to_halted_core_report_channel_closed() {
    let mut c = U032::new(0, 4, 4);
    let bus = c.acquire_bus();
    assert_eq!(bus.send_kill(&mut c, local(0)), Ok(()));
    c.run();
    assert_eq!(c.state(), CoreState::Halted);
    assert_eq!(bus.send_interrupt(&mut c, local(0), 1), Err(SendError::ChannelClosed));
    assert_eq!(bus.send_kill(&mut c, local(0)), Err(SendError::ChannelClosed));
    let ep = StreamEndpoint::new(4);
    assert_eq!(bus.send_incept(&mut c, local(0), ep), Err(SendError::ChannelClosed));
    let ep2 = StreamEndpoint::new(4);
    assert_eq!(bus.send_stream(&mut c, local(0), ep2), Err(SendError::ChannelClosed));
    assert_eq!(bus.feed_value(&mut c, SlotKind::Control, 1), Err(SendError::ChannelClosed));
}

#[test]
fn full_queue_reports_backpressure() {
    let mut c = U032::new(0, 4, 1);
    let bus = c.acquire_bus();
    assert_eq!(bus.send_interrupt(&mut c, local(0), 1), Ok(()));
    assert_eq!(bus.send_interrupt(&mut c, local(0), 2), Err(SendError::CapacityExceeded));
    c.run();
    // Only the first interrupt went through; after the drain there is room
    // again.
    assert_eq!(c.dcs_register(0), 1);
    assert_eq!(bus.send_interrupt(&mut c, local(0), 3), Ok(()));
}

#[test]
fn full_endpoint_reports_backpressure() {
    let mut ep = StreamEndpoint::new(2);
    assert_eq!(ep.push_value(1), Ok(()));
    assert_eq!(ep.push_value(2), Ok(()));
    assert_eq!(ep.push_value(3), Err(SendError::CapacityExceeded));
    assert_eq!(ep.take_next(), Some(1));
    assert_eq!(ep.take_next(), Some(2));
    assert_eq!(ep.take_next(), None);
}

#[test]
fn feeding_without_registration_reports_channel_closed() {
    let mut c = U032::new(0, 4, 4);
    let bus = c.acquire_bus();
    assert_eq!(bus.feed_value(&mut c, SlotKind::Control, 1), Err(SendError::ChannelClosed));
    // Registered in the control slot only: the data slot stays closed.
    let ep = StreamEndpoint::new(4);
    assert_eq!(bus.send_incept(&mut c, local(0), ep), Ok(()));
    c.run();
    assert_eq!(bus.feed_value(&mut c, SlotKind::Control, 1), Ok(()));
    assert_eq!(bus.feed_value(&mut c, SlotKind::Data, 1), Err(SendError::ChannelClosed));
}

#[test]
fn registrations_during_drain_are_ignored() {
    let mut c = U032::new(0, 4, 4);
    let bus = c.acquire_bus();
    assert_eq!(bus.send_kill(&mut c, local(0)), Ok(()));
    let mut ep = StreamEndpoint::new(4);
    assert_eq!(ep.push_value(5), Ok(()));
    assert_eq!(bus.send_incept(&mut c, local(0), ep), Ok(()));
    c.run();
    assert_eq!(c.state(), CoreState::Halted);
    // The incept arrived after the kill: its endpoint was never registered
    // and its pending value never observed.
    assert_eq!(c.observed_count(), 0);
}

#[test]
fn drain_still_services_registered_endpoints() {
    let mut c = U032::new(0, 8, 4);
    let bus = c.acquire_bus();
    let ep = StreamEndpoint::new(4);
    assert_eq!(bus.send_incept(&mut c, local(2), ep), Ok(()));
    c.run();
    assert_eq!(bus.feed_value(&mut c, SlotKind::Control, 11), Ok(()));
    assert_eq!(bus.send_kill(&mut c, local(0)), Ok(()));
    c.run();
    // The already-registered feed was drained before the core halted.
    assert_eq!(c.state(), CoreState::Halted);
    assert_eq!(c.observed_count(), 1);
    assert_eq!(c.observed_at(0), Observation { id: 0, value: 11 });
    assert_eq!(c.mem_word(2), 11);
}

#[test]
fn network_read_exposes_only_network_bits() {
    let mut c = U032::new(0, 8, 4);
    let bus = c.acquire_bus();
    let mut ep = StreamEndpoint::new(4);
    assert_eq!(ep.push_value(0xFFFF_FFFF), Ok(()));
    assert_eq!(bus.send_incept(&mut c, local(3), ep), Ok(()));
    c.run();
    assert_eq!(c.mem_word(3), 0xFFFF_FFFF);
    // A downstream consumer whose mask exposes address 3 and the low byte
    // sees only that byte of the stored word.
    let reader = Privilege::new(0x0000_00FF, 0x0000_0003);
    assert_eq!(c.network_read(reader), Some(0x0000_00FF));
    // A reader whose network address lies outside data memory gets nothing.
    let outside = Privilege::new(0xFFFF_FFFF, 100);
    assert_eq!(c.network_read(outside), None);
}

#[test]
fn downstream_buses_accumulate_in_order() {
    let mut upstream = U032::new(0, 0, 4);
    let mut c = U032::new(0, 0, 4);
    let b0 = upstream.acquire_bus();
    let b1 = upstream.acquire_bus();
    c.attach_out_bus(b0);
    c.attach_out_bus(b1);
    assert_eq!(c.out_bus_count(), 2);
    assert_eq!(c.out_bus_id(0), 0);
    assert_eq!(c.out_bus_id(1), 1);
}
