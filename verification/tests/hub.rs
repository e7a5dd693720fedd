//! The hub, its routes, events and messages.

use slotbus::events::{deadline, poll_step, semaphore_name, EventCall, Poll, Timespec};
use slotbus::hub::{
    hub_event, readable_headers, reply_to, HubConfig, HubState, Outcome, Plan, RegisterRequest,
    Reply, RouteRegistration, WorkerEvent,
};
use slotbus::routes::match_route;
use slotbus::table::Table;
use slotbus::text::{chars_of, push_decimal, push_hex8, push_usize, same_text, text_of};
use slotbus::transport::{collect_pairs, Response};
use slotbus::{SlotBusConfig, SlotBusError};

fn hub() -> HubState<String> {
    HubState::new(HubConfig {
        timeout_secs: 30,
        num_slots: 64,
        region_size: 4_194_304,
        instrumentation: true,
        limited_names: false,
    })
}

fn request(name: &str, routes: &[(&str, &str)]) -> RegisterRequest {
    RegisterRequest {
        name: name.to_string(),
        routes: routes
            .iter()
            .map(|(method, path)| RouteRegistration {
                method: method.to_string(),
                path: path.to_string(),
            })
            .collect(),
    }
}

fn bus_for(config: &SlotBusConfig) -> Result<String, SlotBusError> {
    assert_eq!(config.prefix, "hub");
    assert_eq!((config.num_slots, config.region_size), (64, 4_194_304));
    assert_eq!(config.wait_timeout_ms, 5_000);
    assert!(config.instrumentation);
    Ok(format!("bus of {}", config.name))
}

fn text(reply: Reply) -> (u16, String) {
    match reply {
        Reply::Text { status, message } => (status, message),
        Reply::Full { .. } => panic!("not a message"),
    }
}

fn rejected(plan: Plan) -> (u16, String) {
    match plan {
        Plan::Reject(reply) => text(reply),
        Plan::Forward { .. } => panic!("forwarded"),
    }
}

#[test]
fn routes_match_piece_by_piece() {
    let params = match_route("/users/{id}/posts/{post}", "/users/42/posts/7").unwrap();
    assert_eq!(params.get("id").map(String::as_str), Some("42"));
    assert_eq!(params.get("post").map(String::as_str), Some("7"));
    assert_eq!(params.len(), 2);
    assert!(match_route("/users/{id}", "/users/42/posts").is_none());
    assert!(match_route("/users/{id}", "/people/42").is_none());
    assert!(match_route("/users", "/users/").is_none());
    assert_eq!(match_route("/health", "/health").unwrap().len(), 0);
    assert_eq!(match_route("", "").unwrap().len(), 0);
    let empty = match_route("/{}", "/x").unwrap();
    assert_eq!(empty.get("").map(String::as_str), Some("x"));
    assert!(match_route("/{", "/x").is_none());
    assert!(match_route("/:id", "/x").is_none());
    let twice = match_route("/{a}/{a}", "/1/2").unwrap();
    assert_eq!(twice.get("a").map(String::as_str), Some("2"));
    assert_eq!(twice.len(), 1);
    let blank = match_route("/{a}", "/").unwrap();
    assert_eq!(blank.get("a").map(String::as_str), Some(""));
    assert!(match_route("/ü/{é}", "/ü/ß").unwrap().get("é").is_some());
}

#[test]
fn a_registered_worker_gets_its_requests() {
    let mut hub = hub();
    let routes = [("GET", "/users/{id}"), ("POST", "/users")];
    let response = hub.register_worker(request("api", &routes), &bus_for).unwrap();
    assert_eq!(response.shm_name, "hub-api");
    assert_eq!(response.worker_id.len(), 36);
    assert_eq!(hub.bus(&response.worker_id).unwrap(), "bus of api");

    let headers = vec![
        ("accept".to_string(), Some("*/*".to_string())),
        ("blob".to_string(), None),
    ];
    let plan = hub.plan_request("GET", "/users/42", Some("v=1".to_string()), headers);
    match plan {
        Plan::Forward { worker_id, req_id, meta } => {
            assert_eq!(worker_id, response.worker_id);
            assert_ne!(req_id, worker_id);
            assert_eq!(meta.path, "/users/42");
            assert_eq!(meta.route_pattern, "/users/{id}");
            assert_eq!(meta.path_params, vec![("id".to_string(), "42".to_string())]);
            assert_eq!(meta.query.as_deref(), Some("v=1"));
            assert_eq!(meta.headers, vec![("accept".to_string(), "*/*".to_string())]);
        }
        Plan::Reject(_) => panic!("rejected"),
    }
    assert_eq!(
        rejected(hub.plan_request("DELETE", "/users/42", None, vec![])),
        (502, "No worker registered for DELETE /users/42".to_string())
    );
    assert_eq!(
        rejected(hub.plan_request("GET", "/users", None, vec![])),
        (502, "No worker registered for GET /users".to_string())
    );
}

#[test]
fn fresh_ids_are_version_four_uuids() {
    let mut hub = hub();
    let mut seen = std::collections::HashSet::new();
    for i in 0..20 {
        let response = hub
            .register_worker(request(&format!("w{i}"), &[]), &bus_for)
            .unwrap();
        let id = response.worker_id;
        assert_eq!(id.len(), 36);
        for (k, c) in id.chars().enumerate() {
            match k {
                8 | 13 | 18 | 23 => assert_eq!(c, '-'),
                14 => assert_eq!(c, '4'),
                19 => assert!("89ab".contains(c)),
                _ => assert!("0123456789abcdef".contains(c)),
            }
        }
        assert!(seen.insert(id));
    }
}

#[test]
fn a_new_registration_replaces_workers_of_the_same_name() {
    let mut hub = hub();
    let old = hub
        .register_as("old".to_string(), request("api", &[("GET", "/a")]), &bus_for)
        .unwrap();
    hub.register_as("other".to_string(), request("tts", &[("GET", "/b")]), &bus_for)
        .unwrap();
    hub.register_as("new".to_string(), request("api", &[("GET", "/c")]), &bus_for)
        .unwrap();
    assert_eq!(old.worker_id, "old");
    assert!(hub.bus("old").is_none());
    assert!(hub.bus("other").is_some() && hub.bus("new").is_some());
    assert!(matches!(hub.plan_request("GET", "/a", None, vec![]), Plan::Reject(_)));
    assert!(matches!(hub.plan_request("GET", "/b", None, vec![]), Plan::Forward { .. }));
    assert!(matches!(hub.plan_request("GET", "/c", None, vec![]), Plan::Forward { .. }));

    let health = hub.health();
    assert!(health.ok);
    assert_eq!(health.workers.len(), 2);
    assert_eq!(health.workers[0].name, "tts");
    assert_eq!(health.workers[0].worker_id, "other");
    assert_eq!(health.workers[1].transport, "shm:hub-api");
    assert_eq!(health.workers[1].route_count, 1);
}

#[test]
fn a_registration_without_a_bus_fails_and_still_forgets_the_old_worker() {
    let mut hub = hub();
    hub.register_as("old".to_string(), request("api", &[("GET", "/a")]), &bus_for)
        .unwrap();
    let broken = |_config: &SlotBusConfig| -> Result<String, SlotBusError> {
        Err(SlotBusError::SharedMemory("no room".to_string()))
    };
    let reply = hub
        .register_as("new".to_string(), request("api", &[]), &broken)
        .unwrap_err();
    assert_eq!(
        text(reply),
        (500, "Failed to create SHM: shared memory error: no room".to_string())
    );
    assert!(hub.bus("old").is_none() && hub.bus("new").is_none());
    assert!(hub.health().workers.is_empty());
}

#[test]
fn a_name_that_is_not_a_plain_file_name_is_refused() {
    let mut hub = hub();
    hub.register_worker(request("api", &[("GET", "/a")]), &bus_for).unwrap();
    let no_bus = |config: &SlotBusConfig| -> Result<String, SlotBusError> {
        panic!("asked for a bus for {}", config.name)
    };
    for name in ["../../../slotbus-test-escape", "..", ".", "a/b", "a\\b", "/a", "C:a"] {
        let reply = hub.register_worker(request(name, &[("GET", "/b")]), &no_bus).unwrap_err();
        assert_eq!(text(reply), (400, format!("Invalid worker name: {name}")));
    }
    assert_eq!(hub.health().workers.len(), 1);
    assert_eq!(
        rejected(hub.plan_request("GET", "/b", None, vec![])),
        (502, "No worker registered for GET /b".to_string())
    );
}

#[test]
fn the_hub_passes_the_name_limit_on() {
    let long = "a-worker-whose-name-is-far-too-long-for-some-systems";
    let mut hub = HubState::new(HubConfig {
        timeout_secs: 30,
        num_slots: 64,
        region_size: 4_194_304,
        instrumentation: true,
        limited_names: true,
    });
    let shm_name = hub.register_worker(request(long, &[]), &bus_for).unwrap().shm_name;
    assert_eq!(shm_name.len(), 30);
    assert_eq!(hub.health().workers[0].transport, format!("shm:{shm_name}"));
}

#[test]
fn the_first_route_that_fits_wins() {
    let mut hub = hub();
    hub.register_as("a".to_string(), request("a", &[("GET", "/{x}")]), &bus_for)
        .unwrap();
    hub.register_as("b".to_string(), request("b", &[("GET", "/b")]), &bus_for)
        .unwrap();
    match hub.plan_request("GET", "/b", None, vec![]) {
        Plan::Forward { worker_id, .. } => assert_eq!(worker_id, "a"),
        Plan::Reject(_) => panic!("rejected"),
    }
}

#[test]
fn replies_follow_the_outcome() {
    let reply = |outcome| text(reply_to(outcome, "/p", 30));
    assert_eq!(
        reply(Outcome::BodyUnreadable("length limit exceeded".to_string())),
        (400, "Failed to read request body: length limit exceeded".to_string())
    );
    assert_eq!(
        reply(Outcome::DispatchFailed(SlotBusError::NoFreeSlots(32))),
        (
            502,
            "SHM dispatch failed: no free slots available (all 32 slots in use)".to_string()
        )
    );
    assert_eq!(reply(Outcome::Dropped), (502, "Worker dropped the request".to_string()));
    assert_eq!(
        reply(Outcome::TimedOut),
        (504, "Request to /p timed out after 30s".to_string())
    );
    for (given, sent) in [(200u16, 200u16), (99, 500), (100, 100), (999, 999), (1000, 500)] {
        let response = Response {
            status: given,
            body: b"b".to_vec(),
            content_type: "c".to_string(),
            headers: vec![("k".to_string(), "v".to_string())],
        };
        match reply_to(Outcome::Answered(response), "/p", 30) {
            Reply::Full { status, content_type, headers, body } => {
                assert_eq!(status, sent);
                assert_eq!(content_type, "c");
                assert_eq!(headers, vec![("k".to_string(), "v".to_string())]);
                assert_eq!(body, b"b");
            }
            Reply::Text { .. } => panic!("no response"),
        }
    }
}

#[test]
fn events_pass_through() {
    let event = hub_event(WorkerEvent {
        source: "s".to_string(),
        event_type: "t".to_string(),
        data: "d".to_string(),
    });
    assert_eq!((event.source, event.event_type, event.data), ("s".into(), "t".into(), "d".into()));
    assert!(readable_headers(vec![("a".to_string(), None)]).is_empty());
}

#[test]
fn every_error_has_its_sentence() {
    let text = |e: SlotBusError| e.message();
    assert_eq!(text(SlotBusError::SharedMemory("a".into())), "shared memory error: a");
    assert_eq!(text(SlotBusError::Event("a".into())), "event error: a");
    assert_eq!(text(SlotBusError::InvalidRegion("a".into())), "invalid control region: a");
    assert_eq!(text(SlotBusError::NoFreeSlots(3)), "no free slots available (all 3 slots in use)");
    assert_eq!(text(SlotBusError::Serialization("a".into())), "serialization error: a");
    assert_eq!(text(SlotBusError::Timeout(70)), "request timed out after 70ms");
    assert_eq!(
        text(SlotBusError::BadSlotState { expected: 1, found: 2 }),
        "unexpected slot state: expected 1, found 2"
    );
    assert_eq!(
        text(SlotBusError::CasFailed { slot: 9, expected: 1, found: 2 }),
        "CAS failed on slot 9: expected 1, found 2"
    );
    assert_eq!(text(SlotBusError::ReceiveLoopStopped), "receive loop stopped");
}

#[test]
fn semaphores_have_a_leading_slash() {
    assert_eq!(semaphore_name("slotbus-w-req").unwrap(), "/slotbus-w-req");
    assert_eq!(
        semaphore_name("aé\0b").unwrap_err().message(),
        "event error: invalid name: nul byte found in provided data at position: 4"
    );
    assert_eq!(
        EventCall::SemaphoreCreate.failed("x").message(),
        "event error: sem_open(create) failed for 'x'"
    );
    assert_eq!(
        EventCall::SemaphoreOpen.failed("x").message(),
        "event error: sem_open(open) failed for 'x'"
    );
    assert_eq!(
        EventCall::WindowsCreate.failed("x").message(),
        "event error: CreateEventW failed for 'x'"
    );
    assert_eq!(
        EventCall::WindowsOpen.failed("x").message(),
        "event error: OpenEventW failed for 'x'"
    );
}

#[test]
fn deadlines_carry_into_the_seconds() {
    let at = |sec, nsec| Timespec { tv_sec: sec, tv_nsec: nsec };
    let d = deadline(at(10, 999_000_000), 5_001);
    assert_eq!((d.tv_sec, d.tv_nsec), (16, 0));
    let d = deadline(at(10, 1), 0);
    assert_eq!((d.tv_sec, d.tv_nsec), (10, 1));
    let d = deadline(at(0, 500_000_000), u32::MAX);
    assert_eq!((d.tv_sec, d.tv_nsec), (4_294_967, 795_000_000));
    assert_eq!(poll_step(true, 9, 1), Poll::Signaled);
    assert_eq!(poll_step(false, 1, 1), Poll::TimedOut);
    assert_eq!(poll_step(false, 0, 1), Poll::Wait);
}

#[test]
fn tables_keep_order_and_last_value() {
    let mut table: Table<u32> = Table::new();
    table.insert("b".to_string(), 1);
    table.insert("a".to_string(), 2);
    table.insert("b".to_string(), 3);
    assert_eq!(table.len(), 2);
    assert_eq!((table.key(0), *table.value(0)), ("b", 3));
    assert_eq!(table.get("a"), Some(&2));
    assert_eq!(table.remove("b"), Some(3));
    assert_eq!(table.remove("b"), None);
    assert_eq!((table.key(0), table.len()), ("a", 1));
    let pairs = collect_pairs(vec![
        ("k".to_string(), "1".to_string()),
        ("k".to_string(), "2".to_string()),
    ]);
    assert_eq!(pairs.get("k").map(String::as_str), Some("2"));
}

#[test]
fn numbers_are_written_out() {
    let mut s = String::new();
    push_decimal(&mut s, 0);
    s.push(' ');
    push_decimal(&mut s, u64::MAX);
    s.push(' ');
    push_usize(&mut s, 1009);
    s.push(' ');
    push_hex8(&mut s, 0x534C4231);
    push_hex8(&mut s, 0xAF);
    assert_eq!(s, "0 18446744073709551615 1009 534C4231000000AF");
    assert!(same_text("añ", "añ") && !same_text("añ", "an") && !same_text("a", "ab"));
    assert_eq!(text_of(&chars_of("h\u{e9}llo"), 1, 3), "\u{e9}l");
}
