use qnetsim::apps::client::Client;
use qnetsim::apps::server::Server;
use qnetsim::apps::AppSample;
use qnetsim::event::{
    AppEventData, EprFiveTuple, EprResponseData, Event, EventType, MemoryCellId, NodeEventData,
    OsEventData,
};
use qnetsim::nic::Role;

fn is_os_epr_request(event: &EventType) -> bool {
    if let EventType::OsEvent(data) = event {
        matches!(data, OsEventData::EprRequestApp(_))
    } else {
        false
    }
}

fn is_app_epr_request(event: &EventType) -> bool {
    if let EventType::AppEvent(data) = event {
        matches!(data, AppEventData::EprRequest(_, _))
    } else {
        false
    }
}

fn is_local_complete(event: &EventType, expected_five_tuple: &EprFiveTuple) -> bool {
    if let EventType::AppEvent(AppEventData::LocalComplete(actual_five_tuple, _)) = event {
        expected_five_tuple == actual_five_tuple
    } else {
        false
    }
}

fn is_node_epr_fidelity(event: &EventType) -> bool {
    if let EventType::NodeEvent(data) = event {
        matches!(data, NodeEventData::EprFidelity(_))
    } else {
        false
    }
}

fn cell() -> MemoryCellId {
    MemoryCellId {
        neighbor_node_id: 2,
        role: Role::Master,
        local_pair_id: 0,
    }
}

#[test]
fn test_client() {
    let this_node_id = 0;
    let this_port = 50000;
    let peer_node_id = 1;
    let peer_port = 8080;
    let mut client = Client::new(this_node_id, this_port, peer_node_id, peer_port, 42);

    let events = client.initial();
    assert_eq!(1, events.len());
    assert!(is_app_epr_request(&events[0].event_type));

    let events = client
        .handle(
            Event::new(
                1_000_000_000,
                EventType::AppEvent(AppEventData::EprRequest(this_node_id, this_port)),
            ),
            7,
        )
        .unwrap()
        .0;
    assert_eq!(2, events.len());
    assert!(is_os_epr_request(&events[0].event_type));
    let five_tuple = if let EventType::OsEvent(data) = &events[0].event_type {
        #[allow(irrefutable_let_patterns)]
        if let OsEventData::EprRequestApp(five_tuple) = data {
            *five_tuple
        } else {
            panic!("wrong event sub-type");
        }
    } else {
        panic!("wrong event type")
    };

    assert!(is_app_epr_request(&events[1].event_type));
    assert_eq!(7, events[1].time());

    let events = client
        .handle(
            Event::new(
                1_000_000_000,
                EventType::AppEvent(AppEventData::EprResponse(EprResponseData {
                    epr: five_tuple,
                    is_source: true,
                    memory_cell: Some(cell()),
                })),
            ),
            5,
        )
        .unwrap()
        .0;
    assert_eq!(1, events.len());
    assert!(is_local_complete(&events[0].event_type, &five_tuple));
    assert_eq!(5, events[0].time());

    let events = client
        .handle(
            Event::new(
                1_000_000_000,
                EventType::AppEvent(AppEventData::LocalComplete(five_tuple, true)),
            ),
            0,
        )
        .unwrap()
        .0;
    assert_eq!(1, events.len());
    assert!(is_node_epr_fidelity(&events[0].event_type));

    let (events, samples) = client
        .handle(
            Event::new(
                1_500_000_000,
                EventType::AppEvent(AppEventData::RemoteComplete(five_tuple)),
            ),
            0,
        )
        .unwrap();
    assert!(events.is_empty());
    assert_eq!(
        AppSample::RequestLatency {
            node_id: 0,
            port: 50000,
            latency_ns: 500_000_000
        },
        samples[0]
    );
    // The request is finished: a second completion is refused.
    assert!(client.handle_remote_complete(0, five_tuple).is_err());
}

#[test]
fn client_drops_failed_request() {
    let mut client = Client::new(0, 1, 2, 3, 0);
    let (events, _) = client.handle_epr_request(10, 0, 1, 100).unwrap();
    let epr = match events[0].event_type {
        EventType::OsEvent(OsEventData::EprRequestApp(e)) => e,
        _ => panic!("wrong event"),
    };
    let failed = EprResponseData {
        epr,
        is_source: true,
        memory_cell: None,
    };
    assert!(client.handle_epr_response(failed, 5).unwrap().is_empty());
    assert!(client.handle_local_complete(20, epr).is_err());
    assert!(client.handle_epr_request(10, 9, 1, 100).is_err());
}

#[test]
fn test_server() {
    let this_node_id = 0;
    let this_port = 50000;
    let peer_node_id = 1;
    let peer_port = 8080;
    let request_id = 999;
    let mut server = Server::new(this_node_id, this_port);

    assert!(server.initial().is_empty());

    let five_tuple = EprFiveTuple {
        source_node_id: peer_node_id,
        source_port: peer_port,
        target_node_id: this_node_id,
        target_port: this_port,
        request_id,
    };
    let events = server
        .handle(
            Event::new(
                1_000_000_000,
                EventType::AppEvent(AppEventData::EprResponse(EprResponseData {
                    epr: five_tuple,
                    is_source: false,
                    memory_cell: Some(cell()),
                })),
            ),
            42,
        )
        .unwrap()
        .0;
    assert_eq!(1, events.len());
    assert!(is_local_complete(&events[0].event_type, &five_tuple));

    let events = server
        .handle(
            Event::new(
                1_000_000_000,
                EventType::AppEvent(AppEventData::LocalComplete(five_tuple, false)),
            ),
            0,
        )
        .unwrap()
        .0;
    assert_eq!(2, events.len());
    assert!(is_node_epr_fidelity(&events[0].event_type));
    assert_eq!(
        EventType::AppEvent(AppEventData::RemoteComplete(five_tuple)),
        events[1].event_type
    );
    assert!(server.handle_local_complete(five_tuple).is_err());
}
