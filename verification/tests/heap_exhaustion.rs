//! Heap use under sustained traffic, and the contract of the slot arenas.

use std::cell::RefCell;
use std::collections::HashMap;
use std::rc::Rc;

use slotbus::codec;
use slotbus::overflow::Mapper;
use slotbus::region::{self, ShmRegion};
use slotbus::types::{
    compute_layout, RequestMeta, METHOD_GET, OVERFLOW_INLINE, SLOT_FREE, SLOT_WRITING,
};
use slotbus::{SlotBusConfig, SlotBusError};

/// Named mappings of a pretended operating system.
type Mappings = Rc<RefCell<HashMap<String, Vec<u8>>>>;

/// Keeps a mapping alive.
struct Handle {
    mappings: Mappings,
    name: String,
}

impl Drop for Handle {
    fn drop(&mut self) {
        self.mappings.borrow_mut().remove(&self.name);
    }
}

fn mapper(
    mappings: &Mappings,
) -> Mapper<
    impl Fn(&str, usize, bool) -> Result<Option<Handle>, SlotBusError> + '_,
    impl Fn(&str) -> bool,
    impl Fn(&Handle, &str, &[u8]) -> Result<(), SlotBusError> + '_,
> {
    Mapper {
        create: move |name: &str, size: usize, _again: bool| {
            if mappings.borrow().contains_key(name) {
                return Ok(None);
            }
            mappings.borrow_mut().insert(name.to_string(), vec![0; size]);
            Ok(Some(Handle {
                mappings: mappings.clone(),
                name: name.to_string(),
            }))
        },
        reclaim: |_name: &str| false,
        fill: move |_handle: &Handle, name: &str, data: &[u8]| {
            let mut all = mappings.borrow_mut();
            ShmRegion::fill_overflow(all.get_mut(name).unwrap(), name, data)
        },
    }
}

fn opener(mappings: &Mappings) -> impl Fn(&str) -> Result<Vec<u8>, SlotBusError> + '_ {
    move |name: &str| match mappings.borrow().get(name) {
        Some(mem) => Ok(mem.clone()),
        None => Err(SlotBusError::SharedMemory(format!("open '{name}': no such mapping"))),
    }
}

fn make_config(test: &str, num_slots: usize, region_size: usize) -> SlotBusConfig {
    let name = format!("heapx-{}", test);
    SlotBusConfig::builder()
        .name(&name)
        .prefix("heapx")
        .num_slots(num_slots)
        .region_size(region_size)
        .build()
}

fn create_region(config: &SlotBusConfig) -> (ShmRegion, Vec<u8>) {
    let mut region = ShmRegion::create(&config.region_name(), Ok(config.region_size)).unwrap();
    let mut mem = vec![0u8; config.region_size];
    region.init_control(&mut mem, config).unwrap();
    (region, mem)
}

fn meta_bytes(path: &str) -> Vec<u8> {
    let meta = RequestMeta {
        path: path.to_string(),
        route_pattern: "/x/:id".into(),
        path_params: vec![],
        query: None,
        headers: vec![],
    };
    codec::encode_request_meta(&meta).unwrap()
}

fn free_slot(region: &ShmRegion, mem: &mut [u8], index: usize) {
    region.set_status(mem, index, SLOT_FREE);
}

/// Overlapping cycles that the regression test drives.
const ITERATIONS: usize = 10_000;

/// Sustained overlap does not exhaust the heap: one slot is always busy across
/// the boundary of the next, every write stays inline, and the shared allocator
/// is never touched.
#[test]
fn sustained_overlap_no_longer_exhausts_heap() {
    let config = make_config("overlap", 4, 64 * 1024);
    let (region, mut mem) = create_region(&config);
    let mappings = Mappings::default();
    let os = mapper(&mappings);

    let body = vec![0xAB_u8; 512];
    let mut completed = 0usize;
    let mut exhausted = false;
    let mut observed_inline = 0usize;

    let mut held = region::claim_free_slot(&region, &mut mem).expect("first claim");

    for i in 0..ITERATIONS {
        let next = match region::claim_free_slot(&region, &mut mem) {
            Some(s) => s,
            None => panic!("ran out of slots at iteration {i} — test is not measuring the heap"),
        };

        let meta = meta_bytes(&format!("/x/{i}"));
        let wrote = region::write_request(
            &region,
            &mut mem,
            &os,
            next,
            "00000000-0000-0000-0000-000000000000",
            METHOD_GET,
            &meta,
            &body,
            &config,
        );

        match wrote {
            Ok(_) => {
                let slot = region.slot(&mem, next);
                if slot.body_overflow == OVERFLOW_INLINE {
                    observed_inline += 1;
                }
                completed += 1;
            }
            Err(e) => {
                assert!(
                    e.message().contains("heap full"),
                    "expected heap exhaustion, got a different failure: {}",
                    e.message()
                );
                exhausted = true;
                free_slot(&region, &mut mem, next);
                break;
            }
        }

        // Release the previous slot only after the next one is busy: overlap.
        free_slot(&region, &mut mem, held);
        held = next;
    }

    free_slot(&region, &mut mem, held);

    assert!(!exhausted, "the heap exhausted after {completed} overlapping cycles");
    assert_eq!(completed, ITERATIONS);
    assert_eq!(observed_inline, completed);
    let alloc_head = region.header(&mem).alloc_head;
    assert_eq!(alloc_head, 0);
}

/// The same workload with full release between the cycles.
#[test]
fn quiescence_reclaims_the_heap_and_the_same_workload_survives() {
    let config = make_config("quiesce", 4, 64 * 1024);
    let (region, mut mem) = create_region(&config);
    let mappings = Mappings::default();
    let os = mapper(&mappings);

    let body = vec![0xCD_u8; 512];

    for i in 0..5_000 {
        region.try_reset_heap(&mut mem);

        let slot = region::claim_free_slot(&region, &mut mem).expect("claim");
        let meta = meta_bytes(&format!("/x/{i}"));
        region::write_request(
            &region,
            &mut mem,
            &os,
            slot,
            "00000000-0000-0000-0000-000000000000",
            METHOD_GET,
            &meta,
            &body,
            &config,
        )
        .unwrap_or_else(|e| {
            panic!("iteration {i} failed with quiescence available: {}", e.message())
        });

        free_slot(&region, &mut mem, slot);
    }

    assert!(!region.has_inflight_slots(&mem));
    region.try_reset_heap(&mut mem);
    assert!(
        region.alloc_heap(&mut mem, 32 * 1024).is_some(),
        "a 32 KiB allocation should succeed immediately after a reset"
    );
}

/// Overflow handles that are held open do not make any slot look in-flight.
#[test]
fn holding_overflow_handles_does_not_pin_any_slot() {
    let config = make_config("leakpin", 4, 64 * 1024);
    let (region, mut mem) = create_region(&config);
    let mappings = Mappings::default();
    let os = mapper(&mappings);
    let open = opener(&mappings);

    let payload = vec![0xEE_u8; 8192];
    let mut leaked: Vec<Handle> = Vec::new();
    for slot in 0..4 {
        let name = config.response_overflow_name(slot);
        leaked.push(ShmRegion::create_overflow(&os, &name, &payload).unwrap());
    }

    for slot in 0..4 {
        let name = config.response_overflow_name(slot);
        let got = ShmRegion::read_overflow(&open, &name, payload.len())
            .unwrap_or_else(|e| panic!("overflow region for slot {slot} not live: {}", e.message()));
        assert_eq!(got.len(), payload.len());
    }
    assert_eq!(leaked.len(), 4, "leaked handles must still be held here");

    assert!(
        !region.has_inflight_slots(&mem),
        "holding overflow handles must not make any slot appear in-flight"
    );

    region.alloc_heap(&mut mem, 1024).expect("prime the allocator");
    region.try_reset_heap(&mut mem);
    let after = region.alloc_heap(&mut mem, 32 * 1024);
    assert!(
        after.is_some(),
        "try_reset_heap should have reclaimed the heap despite the leaked handles"
    );
    assert_eq!(after, Some(0), "reset should return the allocator to offset 0");

    drop(leaked);
}

/// A slot that is stuck non-free vetoes the reset for good.
#[test]
fn a_stuck_slot_vetoes_the_reset_permanently() {
    let config = make_config("stuck", 4, 64 * 1024);
    let (region, mut mem) = create_region(&config);

    let stuck = region::claim_free_slot(&region, &mut mem).expect("claim");
    assert_ne!(region.status(&mem, stuck), SLOT_FREE);

    region.alloc_heap(&mut mem, 16 * 1024).expect("prime");

    for _ in 0..100 {
        region.try_reset_heap(&mut mem);
    }
    assert!(
        region.alloc_heap(&mut mem, 48 * 1024).is_none(),
        "reset must NOT have fired while a slot is stuck non-FREE"
    );

    free_slot(&region, &mut mem, stuck);
    region.try_reset_heap(&mut mem);
    assert_eq!(
        region.alloc_heap(&mut mem, 48 * 1024),
        Some(0),
        "reset should fire the moment the stuck slot is released"
    );
}

/// The arenas tile the heap without overlapping and without running past its
/// end.
#[test]
fn slot_arenas_are_disjoint_and_within_the_heap() {
    let config = make_config("geometry", 8, 64 * 1024);
    let (region, _mem) = create_region(&config);
    let (_, heap_size) = compute_layout(config.num_slots, config.region_size);

    let mut prev_end = 0usize;
    for slot in 0..config.num_slots {
        let ((req_base, req_len), (resp_base, resp_len)) = region.slot_arenas(slot);

        assert_eq!(
            req_base, prev_end,
            "slot {slot} request arena starts at {req_base}, leaving a gap or overlap after {prev_end}"
        );
        assert_eq!(
            resp_base,
            req_base + req_len,
            "slot {slot} response arena must begin exactly where the request arena ends"
        );
        assert!(
            resp_base + resp_len <= heap_size,
            "slot {slot} arena ends at {} but the heap is only {heap_size} bytes",
            resp_base + resp_len
        );
        assert_eq!(req_base % 8, 0, "slot {slot} request arena is misaligned");
        assert_eq!(resp_base % 8, 0, "slot {slot} response arena is misaligned");
        assert!(req_len > 0 && resp_len > 0, "slot {slot} got an empty arena");

        prev_end = resp_base + resp_len;
    }
}

/// One slot that is hammered forever cannot starve another.
#[test]
fn one_slots_traffic_cannot_starve_another() {
    let config = make_config("isolation", 4, 64 * 1024);
    let (region, mut mem) = create_region(&config);
    let mappings = Mappings::default();
    let os = mapper(&mappings);
    let open = opener(&mappings);

    let body = vec![0x5A_u8; 512];
    let hammer_slot = 0usize;
    let victim_slot = 3usize;

    for i in 0..5_000 {
        region.set_status(&mut mem, hammer_slot, SLOT_WRITING);

        let meta = meta_bytes(&format!("/hammer/{i}"));
        region::write_request(
            &region,
            &mut mem,
            &os,
            hammer_slot,
            "00000000-0000-0000-0000-000000000000",
            METHOD_GET,
            &meta,
            &body,
            &config,
        )
        .unwrap_or_else(|e| {
            panic!("hammering slot {hammer_slot} failed at iteration {i}: {}", e.message())
        });

        assert_eq!(region.slot(&mem, hammer_slot).body_overflow, OVERFLOW_INLINE);

        free_slot(&region, &mut mem, hammer_slot);
    }

    assert_eq!(
        region.status(&mem, victim_slot),
        SLOT_FREE,
        "victim slot should never have been claimed by the hammer loop"
    );

    let claimed = victim_slot;
    region.set_status(&mut mem, claimed, SLOT_WRITING);

    let meta = meta_bytes("/victim");
    region::write_request(
        &region,
        &mut mem,
        &os,
        claimed,
        "11111111-1111-1111-1111-111111111111",
        METHOD_GET,
        &meta,
        &body,
        &config,
    )
    .expect("a quiet slot must still have its full arena after another slot ran 5k cycles");

    let (_, _, read_meta, read_body) =
        region::read_request(&region, &mem, &open, claimed, &config)
            .expect("victim payload must read back");
    assert_eq!(read_meta.path, "/victim");
    assert_eq!(read_body, body, "victim body was corrupted by the hammering");
}

/// A body that is too large for its arena spills to an overflow region and still
/// round-trips.
#[test]
fn body_too_large_for_its_arena_spills_to_overflow_and_round_trips() {
    let config = make_config("spill", 4, 64 * 1024);
    let (region, mut mem) = create_region(&config);
    let mappings = Mappings::default();
    let os = mapper(&mappings);
    let open = opener(&mappings);

    let ((_, req_arena), _) = region.slot_arenas(0);
    let body: Vec<u8> = (0..req_arena * 2).map(|i| (i % 251) as u8).collect();

    let slot = region::claim_free_slot(&region, &mut mem).expect("claim");
    let meta = meta_bytes("/spill");
    let overflow = region::write_request(
        &region,
        &mut mem,
        &os,
        slot,
        "22222222-2222-2222-2222-222222222222",
        METHOD_GET,
        &meta,
        &body,
        &config,
    )
    .expect("an oversized body must spill, not fail");

    assert!(
        overflow.is_some(),
        "write_request returned no overflow handle, so the body did not spill"
    );
    assert_ne!(
        region.slot(&mem, slot).body_overflow,
        OVERFLOW_INLINE,
        "slot still marks the body as inline despite exceeding the arena"
    );

    let (_, _, read_meta, read_body) =
        region::read_request(&region, &mem, &open, slot, &config)
            .expect("spilled body must read back");
    assert_eq!(read_meta.path, "/spill");
    assert_eq!(read_body.len(), body.len(), "spilled body changed length");
    assert_eq!(read_body, body, "spilled body round-tripped corrupted");
}
