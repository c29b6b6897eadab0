use qnetsim::apps::pinger::{Pinger, RttSample};
use qnetsim::apps::ponger::Ponger;
use qnetsim::error::SimError;
use qnetsim::event::{
    AppEventData, EprFiveTuple, EprResponseData, Event, EventType, MemoryCellId, NodeEventData,
    OsEventData,
};
use qnetsim::event_queue::EventQueue;
use qnetsim::nic::Role;

#[test]
fn queue_pops_in_time_order_relative_to_present() {
    let mut q = EventQueue::default();
    assert!(q.is_empty());
    q.push(Event::new(30, EventType::Progress(3)));
    q.push(Event::new(10, EventType::Progress(1)));
    q.push(Event::new(20, EventType::Progress(2)));
    assert_eq!(3, q.len());
    let e = q.pop().unwrap();
    assert_eq!(10, e.time());
    assert_eq!(EventType::Progress(1), e.event_type);
    assert_eq!(10, q.last_time());
    // Relative to the present, now 10.
    q.push(Event::new(5, EventType::WarmupPeriodEnd));
    let e = q.pop().unwrap();
    assert_eq!(15, e.time());
    assert_eq!(EventType::WarmupPeriodEnd, e.event_type);
    let mut last = q.last_time();
    q.push_many(vec![
        Event::new(0, EventType::ExperimentEnd),
        Event::new(100, EventType::Progress(9)),
    ]);
    while let Some(e) = q.pop() {
        assert!(e.time() >= last);
        last = e.time();
    }
    assert_eq!(115, last);
    assert!(q.pop().is_none());
}

#[test]
fn event_advance_moves_time() {
    let mut e = Event::new(7, EventType::ExperimentEnd);
    e.advance(3);
    assert_eq!(10, e.time());
}

fn cell() -> MemoryCellId {
    MemoryCellId {
        neighbor_node_id: 5,
        role: Role::Master,
        local_pair_id: 77,
    }
}

#[test]
fn pinger_issues_until_max_requests() {
    let mut pinger = Pinger::new(1, 8080, 2, 50000, 2);
    let init = pinger.initial();
    assert_eq!(1, init.len());
    assert_eq!(
        EventType::AppEvent(AppEventData::EprRequest(1, 8080)),
        init[0].event_type
    );

    let (events, samples) = pinger
        .handle(Event::new(100, EventType::AppEvent(AppEventData::EprRequest(1, 8080))))
        .unwrap();
    assert!(samples.is_empty());
    assert_eq!(
        vec![Event::new(
            0,
            EventType::OsEvent(OsEventData::EprRequestApp(EprFiveTuple::new(
                1, 8080, 2, 50000, 1
            )))
        )],
        events
    );

    let response = EprResponseData {
        epr: EprFiveTuple::new(1, 8080, 2, 50000, 1),
        is_source: true,
        memory_cell: Some(cell()),
    };
    let (events, samples) = pinger
        .handle(Event::new(350, EventType::AppEvent(AppEventData::EprResponse(response))))
        .unwrap();
    assert_eq!(
        vec![RttSample {
            this_node_id: 1,
            peer_node_id: 2,
            rtt_ns: 250
        }],
        samples
    );
    assert_eq!(2, events.len());
    match events[0].event_type {
        EventType::NodeEvent(NodeEventData::EprFidelity(d)) => {
            assert_eq!(1, d.app_node_id);
            assert_eq!(8080, d.port);
            assert_eq!(1, d.consume_node_id);
            assert_eq!(cell(), d.memory_cell);
        }
        _ => panic!("wrong event type"),
    }
    assert_eq!(
        EventType::AppEvent(AppEventData::EprRequest(1, 8080)),
        events[1].event_type
    );

    // Second request, which is the last one.
    pinger
        .handle(Event::new(400, EventType::AppEvent(AppEventData::EprRequest(1, 8080))))
        .unwrap();
    let response = EprResponseData {
        epr: EprFiveTuple::new(1, 8080, 2, 50000, 2),
        is_source: true,
        memory_cell: Some(cell()),
    };
    let (events, samples) = pinger
        .handle(Event::new(420, EventType::AppEvent(AppEventData::EprResponse(response))))
        .unwrap();
    assert_eq!(1, events.len());
    assert_eq!(20, samples[0].rtt_ns);
}

#[test]
fn pinger_rejects_foreign_events() {
    let mut pinger = Pinger::new(1, 8080, 2, 50000, 5);
    assert_eq!(
        Some(SimError::ProtocolViolation),
        pinger
            .handle(Event::new(0, EventType::AppEvent(AppEventData::EprRequest(9, 8080))))
            .err()
    );
    let to_ponger = EprResponseData {
        epr: EprFiveTuple::new(1, 8080, 2, 50000, 1),
        is_source: false,
        memory_cell: Some(cell()),
    };
    assert!(pinger.handle_epr_response(10, to_ponger).is_err());
    let empty = EprResponseData {
        memory_cell: None,
        is_source: true,
        ..to_ponger
    };
    assert!(pinger.handle_epr_response(10, empty).is_err());
    assert!(pinger
        .handle(Event::new(0, EventType::ExperimentEnd))
        .is_err());
}

#[test]
fn ponger_releases_its_photon() {
    let mut ponger = Ponger::new(2, 50000);
    assert!(ponger.initial().is_empty());
    let response = EprResponseData {
        epr: EprFiveTuple::new(1, 8080, 2, 50000, 42),
        is_source: false,
        memory_cell: Some(cell()),
    };
    let events = ponger
        .handle(Event::new(5, EventType::AppEvent(AppEventData::EprResponse(response))))
        .unwrap();
    assert_eq!(1, events.len());
    match events[0].event_type {
        EventType::NodeEvent(NodeEventData::EprFidelity(d)) => {
            assert_eq!(1, d.app_node_id);
            assert_eq!(8080, d.port);
            assert_eq!(2, d.consume_node_id);
            assert_eq!(cell(), d.memory_cell);
        }
        _ => panic!("wrong event type"),
    }
    let wrong_port = EprResponseData {
        epr: EprFiveTuple::new(1, 8080, 2, 1, 42),
        ..response
    };
    assert_eq!(Err(SimError::ProtocolViolation), ponger.handle_epr_response(wrong_port));
    assert!(ponger
        .handle(Event::new(0, EventType::AppEvent(AppEventData::LocalComplete(response.epr, false))))
        .is_err());
}

