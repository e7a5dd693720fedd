//! The full request/response cycle between a bus and a worker that share memory.

use std::cell::RefCell;
use std::collections::HashMap;
use std::rc::Rc;

use slotbus::overflow::Mapper;
use slotbus::region::ShmRegion;
use slotbus::transport::{Delivery, Request, Response};
use slotbus::types::{
    RequestMeta, SLOT_CLAIMED, SLOT_DONE, SLOT_FREE, SLOT_READY, SLOT_WRITING,
};
use slotbus::worker::Received;
use slotbus::{SlotBus, SlotBusConfig, SlotBusError, SlotWorker};

type Mappings = Rc<RefCell<HashMap<String, Vec<u8>>>>;

struct Handle {
    mappings: Mappings,
    name: String,
}

impl Drop for Handle {
    fn drop(&mut self) {
        self.mappings.borrow_mut().remove(&self.name);
    }
}

fn mapper(
    mappings: &Mappings,
) -> Mapper<
    impl Fn(&str, usize, bool) -> Result<Option<Handle>, SlotBusError> + '_,
    impl Fn(&str) -> bool,
    impl Fn(&Handle, &str, &[u8]) -> Result<(), SlotBusError> + '_,
> {
    Mapper {
        create: move |name: &str, size: usize, _again: bool| {
            if mappings.borrow().contains_key(name) {
                return Ok(None);
            }
            mappings.borrow_mut().insert(name.to_string(), vec![0; size]);
            Ok(Some(Handle {
                mappings: mappings.clone(),
                name: name.to_string(),
            }))
        },
        reclaim: |_name: &str| false,
        fill: move |_handle: &Handle, name: &str, data: &[u8]| {
            let mut all = mappings.borrow_mut();
            ShmRegion::fill_overflow(all.get_mut(name).unwrap(), name, data)
        },
    }
}

fn opener(mappings: &Mappings) -> impl Fn(&str) -> Result<Vec<u8>, SlotBusError> + '_ {
    move |name: &str| match mappings.borrow().get(name) {
        Some(mem) => Ok(mem.clone()),
        None => Err(ShmRegion::open(name, Err("no such mapping".to_string())).err().unwrap()),
    }
}

/// A bus and a worker on the same bytes. Tickets are the request ids.
struct Pair {
    bus: SlotBus<String, Handle>,
    worker: SlotWorker<Handle>,
    mem: Vec<u8>,
    mappings: Mappings,
}

impl Pair {
    fn new(test_name: &str, num_slots: usize) -> Pair {
        let name = format!("test-{test_name}");
        let config = || {
            SlotBusConfig::builder()
                .name(&name)
                .num_slots(num_slots)
                .wait_timeout_ms(500)
                .build()
        };
        let region_name = config().region_name();
        let size = config().region_size;
        let mut mem = vec![0u8; size];
        let bus = SlotBus::create(config(), ShmRegion::new(&region_name, size), &mut mem)
            .expect("failed to create SlotBus");
        let worker = SlotWorker::open(config(), ShmRegion::new(&region_name, size), &mem)
            .expect("failed to open SlotWorker");
        assert!(worker.region().is_laid_out());
        Pair {
            bus,
            worker,
            mem,
            mappings: Mappings::default(),
        }
    }

    fn dispatch(
        &mut self,
        req_id: &str,
        method: &str,
        meta: &RequestMeta,
        body: &[u8],
    ) -> Result<usize, SlotBusError> {
        self.bus.dispatch(
            &mut self.mem,
            &mapper(&self.mappings),
            req_id,
            method,
            meta,
            body,
            req_id.to_string(),
        )
    }

    /// Lets the worker answer everything that waits for it.
    fn serve(
        &mut self,
        handler: impl Fn(Request) -> (u16, Vec<u8>, &'static str, Vec<(String, String)>),
    ) {
        for slot in 0..self.worker.region().num_slots() {
            let received =
                self.worker.receive(&mut self.mem, &opener(&self.mappings), slot);
            if let Received::Taken(request) = received {
                let (status, body, content_type, headers) = handler(request);
                self.worker
                    .send_response(
                        &mut self.mem,
                        &mapper(&self.mappings),
                        slot,
                        status,
                        body,
                        content_type,
                        headers,
                    )
                    .unwrap();
            }
        }
    }

    /// Hands out every response that is done, by ticket.
    fn collect(&mut self) -> HashMap<String, Response> {
        let mut all = HashMap::new();
        for slot in 0..self.bus.region().num_slots() {
            let delivery = self.bus.collect(&mut self.mem, &opener(&self.mappings), slot);
            if let Delivery::Delivered { ticket, response, .. } = delivery {
                all.insert(ticket, response);
            }
        }
        all
    }
}

fn test_meta(path: &str) -> RequestMeta {
    RequestMeta {
        path: path.to_string(),
        route_pattern: path.to_string(),
        path_params: vec![],
        query: None,
        headers: vec![],
    }
}

#[test]
fn single_request_response() {
    let mut pair = Pair::new("single", 4);
    let meta = test_meta("/echo");
    pair.dispatch("req-1", "POST", &meta, b"hello")
        .expect("dispatch failed");
    pair.serve(|req| (200, req.body, "text/plain", vec![]));
    let resp = pair.collect().remove("req-1").expect("channel closed");

    assert_eq!(resp.status, 200);
    assert_eq!(resp.body, b"hello");
    assert_eq!(resp.content_type, "text/plain");
}

#[test]
fn sequential_requests() {
    let mut pair = Pair::new("sequential", 4);
    for i in 0..10 {
        let path = format!("/item/{i}");
        let meta = test_meta(&path);
        let req_id = format!("seq-{i}");

        pair.dispatch(&req_id, "GET", &meta, &[])
            .expect("dispatch failed");
        pair.serve(|req| (200, req.path.into_bytes(), "text/plain", vec![]));
        let resp = pair.collect().remove(&req_id).expect("channel closed");

        assert_eq!(resp.status, 200);
        assert_eq!(String::from_utf8_lossy(&resp.body), path);
    }
}

#[test]
fn concurrent_responses() {
    let mut pair = Pair::new("concurrent", 32);
    for i in 0..20 {
        let req_id = format!("conc-{i}");
        let path = format!("/concurrent/{i}");
        let meta = test_meta(&path);
        let body = format!("body-{i}");
        pair.dispatch(&req_id, "POST", &meta, body.as_bytes())
            .expect("dispatch failed");
    }
    pair.serve(|req| {
        let mut resp = req.req_id.into_bytes();
        resp.push(b':');
        resp.extend_from_slice(&req.body);
        (200, resp, "application/octet-stream", vec![])
    });
    let mut all = pair.collect();
    for i in 0..20 {
        let resp = all.remove(&format!("conc-{i}")).expect("channel closed");
        assert_eq!(resp.status, 200);
        let resp_str = String::from_utf8_lossy(&resp.body).to_string();
        let expected = format!("conc-{i}:body-{i}");
        assert_eq!(resp_str, expected);
    }
    assert!(all.is_empty());
}

#[test]
fn empty_body() {
    let mut pair = Pair::new("empty-body", 4);
    let meta = test_meta("/empty");
    pair.dispatch("req-empty", "DELETE", &meta, &[])
        .expect("dispatch failed");
    pair.serve(|req| {
        assert!(req.body.is_empty());
        assert_eq!(req.method, "DELETE");
        (204, vec![], "text/plain", vec![])
    });
    let resp = pair.collect().remove("req-empty").expect("channel closed");

    assert_eq!(resp.status, 204);
    assert!(resp.body.is_empty());
}

#[test]
fn large_body_overflow() {
    let mut pair = Pair::new("overflow", 4);
    let large_body: Vec<u8> = (0..512 * 1024).map(|i| (i % 256) as u8).collect();

    let meta = test_meta("/upload");
    pair.dispatch("req-large", "POST", &meta, &large_body)
        .expect("dispatch failed");
    assert!(pair.mappings.borrow().contains_key("slotbus-test-overflow-req-0"));
    pair.serve(|req| (200, req.body, "application/octet-stream", vec![]));
    assert!(pair.mappings.borrow().contains_key("slotbus-test-overflow-rsp-0"));
    let resp = pair.collect().remove("req-large").expect("channel closed");

    assert_eq!(resp.status, 200);
    assert_eq!(resp.body.len(), large_body.len());
    assert_eq!(resp.body, large_body);
    assert!(!pair.mappings.borrow().contains_key("slotbus-test-overflow-req-0"));
}

#[test]
fn response_headers_and_content_type() {
    let mut pair = Pair::new("headers", 4);
    let meta = test_meta("/create");
    pair.dispatch("req-headers", "POST", &meta, b"{}")
        .expect("dispatch failed");
    pair.serve(|_req| {
        let headers = vec![
            ("x-request-id".into(), "test-123".into()),
            ("x-custom".into(), "value".into()),
        ];
        (201, br#"{"ok": true}"#.to_vec(), "application/json", headers)
    });
    let resp = pair.collect().remove("req-headers").expect("channel closed");

    assert_eq!(resp.status, 201);
    assert_eq!(resp.content_type, "application/json");
    assert_eq!(resp.body, br#"{"ok": true}"#);
    assert_eq!(resp.headers.len(), 2);
    assert_eq!(resp.headers[0], ("x-request-id".into(), "test-123".into()));
    assert_eq!(resp.headers[1], ("x-custom".into(), "value".into()));
}

#[test]
fn request_metadata_preserved() {
    let mut pair = Pair::new("metadata", 4);
    let meta = RequestMeta {
        path: "/users/42".to_string(),
        route_pattern: "/users/:id".to_string(),
        path_params: vec![("id".into(), "42".into())],
        query: Some("verbose=true".into()),
        headers: vec![("accept".into(), "application/json".into())],
    };
    pair.dispatch("req-meta", "GET", &meta, &[])
        .expect("dispatch failed");
    pair.serve(|req| {
        assert_eq!(req.headers.get("accept").map(String::as_str), Some("application/json"));
        let info = format!(
            "method={} path={} route={} params={:?} query={:?}",
            req.method, req.path, req.route_pattern, req.path_params, req.query,
        );
        (200, info.into_bytes(), "text/plain", vec![])
    });
    let resp = pair.collect().remove("req-meta").expect("channel closed");

    let body = String::from_utf8_lossy(&resp.body).to_string();
    assert!(body.contains("method=GET"));
    assert!(body.contains("path=/users/42"));
    assert!(body.contains("route=/users/:id"));
    assert!(body.contains(r#""id": "42""#) || body.contains(r#""id", "42""#));
    assert!(body.contains("verbose=true"));
}

#[test]
fn async_work_in_handler() {
    let mut pair = Pair::new("async-handler", 4);
    let meta = test_meta("/async-test");
    pair.dispatch("req-async", "GET", &meta, &[])
        .expect("dispatch failed");

    // The handler only takes the work on; the answer comes after the whole pass.
    let mut work = Vec::new();
    for slot in 0..pair.worker.region().num_slots() {
        let received = pair
            .worker
            .receive(&mut pair.mem, &opener(&pair.mappings), slot);
        if let Received::Taken(request) = received {
            work.push((slot, request));
        }
    }
    assert_eq!(work.len(), 1);
    assert!(pair.collect().is_empty());
    for (slot, req) in work {
        let body = format!("async response for {}", req.path);
        pair.worker
            .send_response(
                &mut pair.mem,
                &mapper(&pair.mappings),
                slot,
                200,
                body.into_bytes(),
                "text/plain",
                vec![],
            )
            .unwrap();
    }
    let resp = pair.collect().remove("req-async").expect("channel closed");

    assert_eq!(resp.status, 200);
    assert_eq!(
        String::from_utf8_lossy(&resp.body),
        "async response for /async-test"
    );
}

#[test]
fn a_slot_goes_round_its_cycle() {
    let mut pair = Pair::new("cycle", 2);
    let state = |pair: &Pair| pair.bus.slot_diagnostics(&pair.mem);
    assert_eq!(state(&pair), vec![(0, SLOT_FREE), (1, SLOT_FREE)]);
    assert_eq!(pair.dispatch("a", "GET", &test_meta("/a"), b"").unwrap(), 0);
    assert_eq!(state(&pair), vec![(0, SLOT_READY), (1, SLOT_FREE)]);
    assert!(matches!(
        pair.worker.receive(&mut pair.mem, &opener(&pair.mappings), 1),
        Received::Idle
    ));
    assert!(matches!(
        pair.worker.receive(&mut pair.mem, &opener(&pair.mappings), 0),
        Received::Taken(_)
    ));
    assert_eq!(state(&pair), vec![(0, SLOT_CLAIMED), (1, SLOT_FREE)]);
    pair.worker
        .send_response(&mut pair.mem, &mapper(&pair.mappings), 0, 200, vec![], "x", vec![])
        .unwrap();
    assert_eq!(state(&pair), vec![(0, SLOT_DONE), (1, SLOT_FREE)]);
    assert!(matches!(
        pair.bus.collect(&mut pair.mem, &opener(&pair.mappings), 1),
        Delivery::Idle
    ));
    match pair.bus.collect(&mut pair.mem, &opener(&pair.mappings), 0) {
        Delivery::Delivered { ticket, label, response } => {
            assert_eq!(ticket, "a");
            assert_eq!(label, "GET /a");
            assert_eq!(response.content_type, "x");
        }
        _ => panic!("no delivery"),
    }
    assert_eq!(state(&pair), vec![(0, SLOT_FREE), (1, SLOT_FREE)]);
}

#[test]
fn a_full_bus_refuses_and_a_failed_dispatch_frees_its_slot() {
    let mut pair = Pair::new("full", 2);
    pair.dispatch("a", "GET", &test_meta("/a"), b"").unwrap();

    let huge = "x".repeat(600_000);
    let err = pair.dispatch("b", "GET", &test_meta(&huge), b"").unwrap_err();
    assert_eq!(
        err.message(),
        "shared memory error: heap full for request meta: need 1200009, slot arena holds 262064"
    );
    assert_eq!(
        pair.bus.slot_diagnostics(&pair.mem),
        vec![(0, SLOT_READY), (1, SLOT_FREE)]
    );

    pair.dispatch("b", "GET", &test_meta("/b"), b"").unwrap();
    let err = pair.dispatch("c", "GET", &test_meta("/c"), b"").unwrap_err();
    assert_eq!(err.message(), "no free slots available (all 2 slots in use)");
}

#[test]
fn an_id_that_a_slot_cannot_give_back_is_refused() {
    let mut pair = Pair::new("ids", 4);
    let meta = test_meta("/echo");
    let before = pair.mem.clone();
    for id in ["a".repeat(40), "a".repeat(37), "a\0b".to_string()] {
        let err = pair.dispatch(&id, "POST", &meta, b"hello").unwrap_err();
        assert_eq!(
            err.message(),
            format!(
                "serialization error: request id '{id}' does not fit in a slot: \
                 at most 36 bytes, none of them zero"
            )
        );
        assert_eq!(pair.mem, before);
    }
    let id = "a".repeat(36);
    pair.dispatch(&id, "POST", &meta, b"hello").unwrap();
    pair.serve(|req| (200, req.body, "text/plain", vec![]));
    assert_eq!(pair.collect().remove(&id).unwrap().body, b"hello");
}

#[test]
fn a_full_bus_says_so_whatever_the_id() {
    let mut pair = Pair::new("full-ids", 2);
    let meta = test_meta("/echo");
    pair.dispatch("a", "GET", &meta, b"").unwrap();
    pair.dispatch("b", "GET", &meta, b"").unwrap();
    let before = pair.mem.clone();
    for id in ["c".repeat(40), "c\0d".to_string(), "c".to_string()] {
        let err = pair.dispatch(&id, "POST", &meta, b"hello").unwrap_err();
        assert_eq!(
            err.message(),
            "no free slots available (all 2 slots in use)"
        );
        assert_eq!(pair.mem, before);
    }
    pair.serve(|req| (200, req.body, "text/plain", vec![]));
    assert_eq!(pair.collect().len(), 2);
    let err = pair.dispatch(&"c".repeat(40), "POST", &meta, b"hello").unwrap_err();
    assert!(err.message().starts_with("serialization error: request id '"));
    assert_eq!(pair.bus.slot_diagnostics(&pair.mem), vec![(0, SLOT_FREE), (1, SLOT_FREE)]);
}

#[test]
fn a_failed_response_frees_its_slot() {
    let mut pair = Pair::new("failed-response", 2);
    pair.dispatch("a", "GET", &test_meta("/a"), b"").unwrap();
    pair.worker.receive(&mut pair.mem, &opener(&pair.mappings), 0);
    let err = pair
        .worker
        .send_response(
            &mut pair.mem,
            &mapper(&pair.mappings),
            0,
            200,
            vec![],
            &"y".repeat(400_000),
            vec![],
        )
        .unwrap_err();
    assert_eq!(
        err.message(),
        "shared memory error: heap full for response meta: need 400004, slot arena holds 262064"
    );
    assert_eq!(pair.worker.region().status(&pair.mem, 0), SLOT_FREE);

    let err = pair
        .worker
        .send_response(&mut pair.mem, &mapper(&pair.mappings), 9, 200, vec![], "x", vec![])
        .unwrap_err();
    assert_eq!(
        err.message(),
        "invalid control region: write_response slot_index 9 >= num_slots 2"
    );
}

#[test]
fn requests_and_responses_that_cannot_be_read_free_their_slot() {
    let mut pair = Pair::new("unreadable", 2);
    let body = vec![1u8; 300_000];
    pair.dispatch("a", "POST", &test_meta("/a"), &body).unwrap();
    pair.mappings.borrow_mut().clear();
    match pair.worker.receive(&mut pair.mem, &opener(&pair.mappings), 0) {
        Received::Unreadable(e) => assert_eq!(
            e.message(),
            "shared memory error: open 'slotbus-test-unreadable-req-0': no such mapping"
        ),
        _ => panic!("the request was read"),
    }
    assert_eq!(pair.worker.region().status(&pair.mem, 0), SLOT_FREE);

    pair.dispatch("b", "POST", &test_meta("/b"), b"").unwrap();
    pair.serve(|_req| (200, vec![2u8; 300_000], "x", vec![]));
    pair.mappings.borrow_mut().clear();
    assert!(matches!(
        pair.bus.collect(&mut pair.mem, &opener(&pair.mappings), 0),
        Delivery::Unreadable(_)
    ));
    assert_eq!(pair.bus.region().status(&pair.mem, 0), SLOT_FREE);
}

#[test]
fn a_response_that_nobody_waits_for_is_dropped() {
    let mut pair = Pair::new("unmatched", 2);
    pair.dispatch("same", "GET", &test_meta("/a"), b"").unwrap();
    pair.dispatch("same", "GET", &test_meta("/b"), b"").unwrap();
    pair.serve(|_req| (200, vec![], "x", vec![]));
    assert!(matches!(
        pair.bus.collect(&mut pair.mem, &opener(&pair.mappings), 0),
        Delivery::Delivered { .. }
    ));
    assert!(matches!(
        pair.bus.collect(&mut pair.mem, &opener(&pair.mappings), 1),
        Delivery::Unmatched
    ));
}

#[test]
fn the_steps_without_status_leave_it_to_the_caller() {
    let mut pair = Pair::new("steps", 2);
    let claimed = slotbus::region::claim_first(2, |i| i == 1);
    assert_eq!(claimed, Some(1));
    assert_eq!(slotbus::region::claim_first(2, |_| false), None);
    pair.bus.region().set_status(&mut pair.mem, 1, SLOT_WRITING);
    pair.bus
        .dispatch_into(
            &mut pair.mem,
            &mapper(&pair.mappings),
            1,
            "id",
            "PUT",
            &test_meta("/p"),
            b"body",
            "ticket".to_string(),
        )
        .unwrap();
    assert_eq!(pair.bus.region().status(&pair.mem, 1), SLOT_WRITING);
    let request = pair.worker.take_request(&pair.mem, &opener(&pair.mappings), 1).unwrap();
    assert_eq!(request.req_id, "id");
    assert_eq!(request.method, "PUT");
    assert_eq!(request.body, b"body");
    pair.worker
        .respond_into(&mut pair.mem, &mapper(&pair.mappings), 1, 418, vec![9], "t", vec![])
        .unwrap();
    assert_eq!(pair.bus.region().status(&pair.mem, 1), SLOT_WRITING);
    let (id, outcome) = pair.bus.peek_response(&pair.mem, &opener(&pair.mappings), 1);
    assert_eq!(id, "id");
    match pair.bus.settle(1, &id, outcome) {
        Delivery::Delivered { ticket, response, .. } => {
            assert_eq!(ticket, "ticket");
            assert_eq!(response.status, 418);
            assert_eq!(response.body, vec![9]);
        }
        _ => panic!("no delivery"),
    }
}

#[test]
fn a_bus_and_a_worker_can_be_stopped() {
    let mut pair = Pair::new("stop", 1);
    assert!(pair.bus.is_running() && pair.worker.is_running());
    pair.bus.stop();
    pair.worker.stop();
    assert!(!pair.bus.is_running() && !pair.worker.is_running());
    assert_eq!(pair.bus.config().name, "test-stop");
    assert_eq!(pair.worker.config().name, "test-stop");
    assert_eq!(pair.bus.region_name(), "slotbus-test-stop");
}

#[test]
fn a_worker_refuses_foreign_and_outdated_regions() {
    let config = || SlotBusConfig::builder().name("w").build();
    let mut mem = vec![0u8; 4096];
    let open = |mem: &[u8]| {
        SlotWorker::<Handle>::open(config(), ShmRegion::new("slotbus-w", mem.len()), mem)
            .err()
            .map(|e| e.message())
    };
    assert_eq!(
        open(&mem).unwrap(),
        "invalid control region: bad magic: expected 0x534C4231, got 0x00000000"
    );
    mem[0..4].copy_from_slice(&0x534C4231u32.to_le_bytes());
    mem[4..8].copy_from_slice(&1u32.to_le_bytes());
    assert_eq!(
        open(&mem).unwrap(),
        "invalid control region: bad version: expected 2, got 1"
    );
    mem[4..8].copy_from_slice(&2u32.to_le_bytes());
    assert_eq!(open(&mem), None);
}
