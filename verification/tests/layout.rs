//! Names, layout, heap and overflow regions.

use std::cell::RefCell;
use std::collections::HashMap;

use slotbus::codec;
use slotbus::config::{sanitize_os_name, Side};
use slotbus::overflow::Mapper;
use slotbus::region::{self, Attempt, ShmRegion};
use slotbus::slots;
use slotbus::types::{
    align8, compute_layout, method_to_u8, overflow_generation, slot_arenas, u8_to_method,
    RequestMeta, ResponseMeta, MAX_OVERFLOW_GENERATION, METHOD_OPTIONS, OVERFLOW_INLINE,
    SHM_HEADER_SIZE, SHM_MAGIC, SHM_VERSION, SLOT_DONE, SLOT_FREE, SLOT_META_SIZE, SLOT_READY,
};
use slotbus::{SlotBusConfig, SlotBusError};

fn config(name: &str) -> SlotBusConfig {
    SlotBusConfig::builder().name(name).build()
}

fn region_of(num_slots: usize, region_size: usize) -> (SlotBusConfig, ShmRegion, Vec<u8>) {
    let config = SlotBusConfig::builder()
        .name("layout")
        .num_slots(num_slots)
        .region_size(region_size)
        .build();
    let mut region = ShmRegion::new(&config.region_name(), region_size);
    let mut mem = vec![0xFFu8; region_size];
    region.init_control(&mut mem, &config).unwrap();
    (config, region, mem)
}

/// No overflow region can be made.
fn no_os() -> Mapper<
    impl Fn(&str, usize, bool) -> Result<Option<()>, SlotBusError>,
    impl Fn(&str) -> bool,
    impl Fn(&(), &str, &[u8]) -> Result<(), SlotBusError>,
> {
    Mapper {
        create: |name: &str, _size: usize, _again: bool| {
            ShmRegion::try_create_exclusive(name, Attempt::Failed("denied".to_string()))
                .map(|_| None)
        },
        reclaim: |_name: &str| false,
        fill: |_handle: &(), _name: &str, _data: &[u8]| Ok(()),
    }
}

fn nothing_open(name: &str) -> Result<Vec<u8>, SlotBusError> {
    Err(SlotBusError::SharedMemory(format!("open '{name}': nothing")))
}

// ---- Configuration -----------------------------------------------------------

#[test]
fn a_builder_starts_from_the_defaults() {
    let c = config("my-worker");
    assert_eq!(c.name, "my-worker");
    assert_eq!(c.prefix, "slotbus");
    assert_eq!(c.num_slots, 32);
    assert_eq!(c.region_size, 1_048_576);
    assert_eq!(c.wait_timeout_ms, 5_000);
    assert!(!c.instrumentation);
    let d = SlotBusConfig::default();
    assert_eq!(d.name, "");
    assert_eq!(d.prefix, "slotbus");
}

#[test]
fn a_builder_sets_and_clamps() {
    let c = SlotBusConfig::builder()
        .name("n")
        .prefix("p")
        .num_slots(0)
        .region_size(512 * 1024)
        .wait_timeout_ms(10_000)
        .instrumentation(true)
        .build();
    assert_eq!(c.prefix, "p");
    assert_eq!(c.num_slots, 1);
    assert_eq!(c.region_size, 524_288);
    assert_eq!(c.wait_timeout_ms, 10_000);
    assert!(c.instrumentation);
    let c = SlotBusConfig::builder().name("n").num_slots(1000).build();
    assert_eq!(c.num_slots, 256);
    let c = c.clone();
    assert_eq!(c.num_slots, 256);
}

#[test]
fn names_are_derived_from_prefix_and_name() {
    let c = config("my-worker");
    assert_eq!(c.region_name(), "slotbus-my-worker");
    assert_eq!(c.request_event_name(), "slotbus-my-worker-req");
    assert_eq!(c.response_event_name(), "slotbus-my-worker-rsp");
    assert_eq!(c.request_overflow_name(5), "slotbus-my-worker-req-5");
    assert_eq!(c.response_overflow_name(5), "slotbus-my-worker-rsp-5");
}

#[test]
fn generation_zero_name_is_unchanged() {
    let c = config("w");
    assert_eq!(c.request_overflow_name_gen(3, 0), c.request_overflow_name(3));
    assert_eq!(c.response_overflow_name_gen(3, 0), c.response_overflow_name(3));
    assert_eq!(c.request_overflow_name_gen(3, 12), "slotbus-w-req-3-g12");
    let mut seen = HashMap::new();
    for side in [Side::Request, Side::Response] {
        for slot in [0usize, 1, 10, 11, 100] {
            for generation in [0u8, 1, 10, 11, 100, 254] {
                let name = c.overflow_name_gen(side, slot, generation);
                assert!(seen.insert(name, ()).is_none());
            }
        }
    }
}

#[test]
fn long_names_are_shortened_to_thirty_bytes() {
    let thirty = "a".repeat(30);
    assert_eq!(sanitize_os_name(&thirty, true), thirty);
    let long = "slotbus-a-worker-with-a-long-name-req-17";
    assert_eq!(sanitize_os_name(long, false), long);
    let short = sanitize_os_name(long, true);
    assert_eq!(short.len(), 30);
    assert!(short.starts_with("sb-"));
    assert!(short.ends_with("ong-name-req-17"));
    let mut hash: u64 = 0xcbf29ce484222325;
    for b in long.bytes() {
        hash = (hash ^ b as u64).wrapping_mul(0x100000001b3);
    }
    let digits = "0123456789ABCDEFGHIJKLMNOPQRSTUVWXYZabcdefghijklmnopqrstuvwxyz".as_bytes();
    let mut encoded = String::new();
    for _ in 0..11 {
        encoded.push(digits[(hash % 62) as usize] as char);
        hash /= 62;
    }
    assert_eq!(short, format!("sb-{}{}", encoded, &long[long.len() - 16..]));
}

#[test]
fn a_character_that_is_cut_becomes_hyphens() {
    // 31 bytes: the sixteenth from the end is the second byte of an e acute.
    let name = format!("{}a", "\u{e9}".repeat(15));
    assert_eq!(name.len(), 31);
    assert_eq!(sanitize_os_name(&name, false), name);
    let short = sanitize_os_name(&name, true);
    assert_eq!(short.len(), 30);
    assert!(short.starts_with("sb-"));
    assert!(short.ends_with(&format!("-{}a", "\u{e9}".repeat(7))));
}

#[test]
fn limited_names_are_short_and_still_differ() {
    let long = "a-worker-whose-name-is-far-too-long-for-some-systems";
    let plain = SlotBusConfig::builder().name(long).build();
    let limited = SlotBusConfig::builder().name(long).limited_names(true).build();
    assert_eq!(plain.region_name(), format!("slotbus-{long}"));
    assert_eq!(
        limited.region_name(),
        sanitize_os_name(&format!("slotbus-{long}"), true)
    );
    assert_eq!(
        limited.request_event_name(),
        sanitize_os_name(&format!("slotbus-{long}-req"), true)
    );
    assert_eq!(
        limited.response_event_name(),
        sanitize_os_name(&format!("slotbus-{long}-rsp"), true)
    );
    assert_eq!(
        limited.response_overflow_name(3),
        sanitize_os_name(&format!("slotbus-{long}-rsp-3"), true)
    );
    let mut names = Vec::new();
    for slot in [0, 1, 31, 255] {
        for generation in [0, 1, 254] {
            names.push(limited.request_overflow_name_gen(slot, generation));
            names.push(limited.response_overflow_name_gen(slot, generation));
        }
    }
    assert!(names.iter().all(|n| n.len() == 30));
    let count = names.len();
    names.sort();
    names.dedup();
    assert_eq!(names.len(), count);
}

// ---- Layout ------------------------------------------------------------------

#[test]
fn constants_have_their_wire_values() {
    assert_eq!(SHM_MAGIC, 0x534C4231);
    assert_eq!(SHM_VERSION, 2);
    assert_eq!((SLOT_META_SIZE, SHM_HEADER_SIZE), (128, 64));
}

#[test]
fn methods_round_trip() {
    let names = ["GET", "POST", "PUT", "DELETE", "PATCH", "HEAD", "OPTIONS"];
    for (i, name) in names.iter().enumerate() {
        assert_eq!(method_to_u8(name), i as u8);
        assert_eq!(u8_to_method(i as u8), *name);
    }
    assert_eq!(method_to_u8("TRACE"), 0);
    assert_eq!(method_to_u8("get"), 0);
    assert_eq!(u8_to_method(METHOD_OPTIONS + 1), "GET");
}

#[test]
fn layouts_saturate() {
    assert_eq!(compute_layout(32, 1_048_576), (4160, 1_044_416));
    assert_eq!(compute_layout(256, 100), (32_832, 0));
    assert_eq!((align8(0), align8(1), align8(8), align8(9)), (0, 8, 8, 16));
}

#[test]
fn documented_geometries() {
    for (slots, size, arena, ceiling) in [
        (64usize, 4usize << 20, 65_400usize, 32_184usize),
        (64, 1 << 20, 16_248, 7_608),
        (32, 1 << 20, 32_632, 15_800),
    ] {
        let (_, region, _) = region_of(slots, size);
        let ((req_base, req_len), (_, resp_len)) = region.slot_arenas(1);
        assert_eq!(req_base, arena);
        assert_eq!(req_len + resp_len, arena);
        assert_eq!(region.inline_body_capacity(512), ceiling);
        assert_eq!(region.inline_body_capacity(1 << 20), 0);
    }
    assert_eq!(slot_arenas(2, 3, 100), ((64, 16), (80, 16)));
}

#[test]
fn markers_tell_the_generation() {
    assert_eq!(overflow_generation(OVERFLOW_INLINE), None);
    for generation in 0..=MAX_OVERFLOW_GENERATION {
        assert_eq!(overflow_generation(generation + 1), Some(generation));
    }
}

#[test]
fn an_initialized_region_validates_with_the_same_layout() {
    let (_, region, mem) = region_of(8, 64 * 1024);
    let h = region.header(&mem);
    assert_eq!((h.magic, h.version, h.num_slots), (SHM_MAGIC, 2, 8));
    assert_eq!((h.heap_offset, h.heap_size, h.alloc_head), (1088, 64_448, 0));
    assert!(mem[24..].iter().all(|&b| b == 0));
    let mut other = ShmRegion::new("other", mem.len());
    assert!(!other.is_laid_out());
    other.validate_control(&mem).unwrap();
    assert!(other.is_laid_out());
    assert_eq!(other.num_slots(), 8);
    assert_eq!(other.slot_arenas(7), region.slot_arenas(7));
    assert_eq!((other.name(), other.len(), other.is_empty()), ("other", 65_536, false));
}

#[test]
fn a_header_with_too_many_slots_is_not_laid_out() {
    let (_, _, mut mem) = region_of(8, 64 * 1024);
    mem[8..12].copy_from_slice(&9u32.to_le_bytes());
    let mut other = ShmRegion::new("other", mem.len());
    other.validate_control(&mem).unwrap();
    assert!(!other.is_laid_out());
}

#[test]
fn claims_hand_out_each_slot_once() {
    let (_, region, mut mem) = region_of(3, 8192);
    assert_eq!(region::find_free_slot(&region, &mem), Some(0));
    assert_eq!(region::claim_free_slot(&region, &mut mem), Some(0));
    assert_eq!(region::claim_free_slot(&region, &mut mem), Some(1));
    assert_eq!(region::find_free_slot(&region, &mem), Some(2));
    assert_eq!(region::claim_free_slot(&region, &mut mem), Some(2));
    assert_eq!(region::claim_free_slot(&region, &mut mem), None);
    region.set_status(&mut mem, 1, SLOT_FREE);
    assert_eq!(region::claim_free_slot(&region, &mut mem), Some(1));
    assert!(region.has_inflight_slots(&mem));
}

// ---- Heap --------------------------------------------------------------------

#[test]
fn heap_accesses_are_bounds_checked() {
    let (_, region, mut mem) = region_of(4, 8192);
    let (offset, size) = compute_layout(4, 8192);
    region.heap_write_checked(&mut mem, 0, b"abc").unwrap();
    region.heap_write_checked(&mut mem, (size - 2) as u32, b"yz").unwrap();
    assert_eq!(&mem[offset..offset + 3], b"abc");
    assert_eq!(&mem[8190..], b"yz");
    assert_eq!(region.heap_read_checked(&mem, 0, 3).unwrap(), b"abc");
    assert_eq!(region.heap_read(&mem, (size - 2) as u32, 2), b"yz");
    assert_eq!(
        region.heap_read_checked(&mem, (size - 1) as u32, 2).unwrap_err().message(),
        "invalid control region: heap read out of bounds: offset=7615 len=2 heap_size=7616"
    );
    assert_eq!(
        region.heap_read_checked(&mem, 8, usize::MAX).unwrap_err().message(),
        format!(
            "invalid control region: heap read out of bounds: offset=8 len={} heap_size=7616",
            usize::MAX
        )
    );
    let before = mem.clone();
    assert_eq!(
        region.heap_write_checked(&mut mem, 7616, b"!").unwrap_err().message(),
        "invalid control region: heap write out of bounds: offset=7616 len=1 heap_size=7616"
    );
    assert_eq!(mem, before);
}

#[test]
fn the_bump_allocator_advances_in_steps_of_eight() {
    let (_, region, mut mem) = region_of(4, 8192);
    assert_eq!(region.alloc_heap(&mut mem, 5), Some(0));
    assert_eq!(region.alloc_heap(&mut mem, 8), Some(8));
    assert_eq!(region.alloc_heap(&mut mem, 7600), Some(16));
    assert_eq!(region.alloc_heap(&mut mem, 1), None);
    assert_eq!(region.alloc_heap(&mut mem, usize::MAX), None);
    assert_eq!(region.header(&mem).alloc_head, 7616);
    region.reset_heap(&mut mem);
    assert_eq!(region.header(&mem).alloc_head, 0);
}

// ---- Slots -------------------------------------------------------------------

#[test]
fn a_request_stands_in_its_slot() {
    let (config, region, mut mem) = region_of(4, 8192);
    let res = region::write_request(
        &region, &mut mem, &no_os(), 2, "id-1", 3, b"metadata!", b"body", &config,
    );
    assert!(matches!(res, Ok(None)));
    let slot = region.slot(&mem, 2);
    assert_eq!(slot.status, SLOT_READY);
    assert_eq!(&slot.req_id[..5], b"id-1\0");
    assert_eq!(slot.method, 3);
    let ((base, _), (resp_base, _)) = region.slot_arenas(2);
    assert_eq!((slot.meta_offset as usize, slot.meta_len), (base, 9));
    assert_eq!((slot.body_offset as usize, slot.body_len), (base + 16, 4));
    assert_eq!(slot.body_overflow, OVERFLOW_INLINE);
    assert_eq!(region.heap_read(&mem, slot.body_offset, 4), b"body");

    let res = region::write_response(
        &region, &mut mem, &no_os(), 2, 404, b"m", b"", &config,
    );
    assert!(matches!(res, Ok(None)));
    let slot = region.slot(&mem, 2);
    assert_eq!((slot.status, slot.resp_status), (SLOT_DONE, 404));
    assert_eq!((slot.resp_meta_offset as usize, slot.resp_meta_len), (resp_base, 1));
    assert_eq!((slot.resp_body_offset, slot.resp_body_len), (0, 0));
    assert_eq!(region.heap_read(&mem, slot.body_offset, 4), b"body");
}

#[test]
fn ids_are_cut_to_their_field() {
    let (config, region, mut mem) = region_of(4, 8192);
    let id = "0123456789".repeat(5);
    region::write_request(&region, &mut mem, &no_os(), 0, &id, 0, b"", b"", &config).unwrap();
    assert_eq!(slots::read_id(&region, &mem, 0), &id[..36]);
    region::write_request(&region, &mut mem, &no_os(), 0, "a\0b", 0, b"", b"", &config).unwrap();
    assert_eq!(slots::read_id(&region, &mem, 0), "a");
    let at = 64 + 4;
    mem[at..at + 3].copy_from_slice(&[b'x', 0xFF, b'y']);
    mem[at + 3] = 0;
    assert_eq!(slots::read_id(&region, &mem, 0), "x\u{FFFD}y");
}

#[test]
fn lengths_that_a_slot_cannot_record_are_refused() {
    let (config, region, mut mem) = region_of(1, 1_048_576);
    let before = mem.clone();
    let err = region::write_response(&region, &mut mem, &no_os(), 0, 200, &[7; 70_000], b"", &config)
        .unwrap_err();
    assert_eq!(
        err.message(),
        "shared memory error: response meta too long: 70000 bytes, slot records at most 65535"
    );
    // Nothing but the response status has been written.
    assert_eq!(mem[64 + 64..64 + 66], 200u16.to_le_bytes());
    mem[64 + 64..64 + 66].copy_from_slice(&before[64 + 64..64 + 66]);
    assert_eq!(mem, before);
    let err =
        region::write_request(&region, &mut mem, &no_os(), 0, "id", 0, &[7; 65_536], b"", &config)
            .unwrap_err();
    assert_eq!(
        err.message(),
        "shared memory error: request meta too long: 65536 bytes, slot records at most 65535"
    );
    region::write_request(&region, &mut mem, &no_os(), 0, "id", 0, &[7; 65_535], b"", &config)
        .unwrap();
    assert_eq!(region.slot(&mem, 0).meta_len, 65_535);
}

#[test]
fn writes_outside_the_slots_are_refused() {
    let (config, region, mut mem) = region_of(4, 8192);
    let before = mem.clone();
    let err = region::write_request(&region, &mut mem, &no_os(), 4, "i", 0, b"", b"", &config)
        .unwrap_err();
    assert_eq!(
        err.message(),
        "invalid control region: write_request slot_index 4 >= num_slots 4"
    );
    assert_eq!(mem, before);
}

#[test]
fn a_write_that_fails_half_way_frees_its_slot() {
    let (config, region, mut mem) = region_of(4, 8192);
    region.set_status(&mut mem, 1, 4);
    let err =
        region::write_request(&region, &mut mem, &no_os(), 1, "i", 0, b"m", &[1; 5000], &config)
            .unwrap_err();
    assert_eq!(
        err.message(),
        "shared memory error: create 'slotbus-layout-req-1': denied"
    );
    assert_eq!(region.status(&mem, 1), SLOT_FREE);
    region.set_status(&mut mem, 1, 2);
    region::write_response(&region, &mut mem, &no_os(), 1, 200, b"m", &[1; 5000], &config)
        .unwrap_err();
    assert_eq!(region.status(&mem, 1), 2);
}

#[test]
fn metadata_is_serialized_field_by_field() {
    let meta = RequestMeta {
        path: "/a".to_string(),
        route_pattern: "/{x}".to_string(),
        path_params: vec![("x".to_string(), "a".to_string())],
        query: Some("q".to_string()),
        headers: vec![],
    };
    let data = codec::encode_request_meta(&meta).unwrap();
    assert_eq!(data, b"\x02/a\x04/{x}\x01\x01x\x01a\x01\x01q\x00");
    let back = codec::decode_request_meta(&data).unwrap();
    assert_eq!((back.path, back.route_pattern), (meta.path, meta.route_pattern));
    assert_eq!((back.path_params, back.query), (meta.path_params, meta.query));
    assert!(back.headers.is_empty());

    let meta = ResponseMeta {
        content_type: "t".to_string(),
        headers: vec![("k".to_string(), "v".to_string())],
    };
    let data = codec::encode_response_meta(&meta).unwrap();
    assert_eq!(data, b"\x01t\x01\x01k\x01v");
    let back = codec::decode_response_meta(&data).unwrap();
    assert_eq!((back.content_type, back.headers), (meta.content_type, meta.headers));
}

#[test]
fn reading_reports_what_is_wrong() {
    let (config, region, mut mem) = region_of(4, 8192);
    let read = |mem: &[u8]| {
        region::read_request(&region, mem, &nothing_open, 0, &config)
            .err()
            .map(|e| e.message())
    };
    assert_eq!(
        read(&mem).unwrap(),
        "serialization error: Hit the end of buffer, expected more data"
    );
    assert!(region::read_response(&region, &mem, &nothing_open, 0, &config).is_err());

    let record = 64;
    mem[record + 44..record + 48].copy_from_slice(&7600u32.to_le_bytes());
    mem[record + 48..record + 50].copy_from_slice(&17u16.to_le_bytes());
    assert_eq!(
        read(&mem).unwrap(),
        "invalid control region: heap read out of bounds: offset=7600 len=17 heap_size=7616"
    );

    let meta = codec::encode_request_meta(&RequestMeta {
        path: String::new(),
        route_pattern: String::new(),
        path_params: vec![],
        query: None,
        headers: vec![],
    })
    .unwrap();
    region::write_request(&region, &mut mem, &no_os(), 0, "i", 0, &meta, b"b", &config).unwrap();
    assert_eq!(read(&mem), None);
    mem[record + 52..record + 56].copy_from_slice(&7616u32.to_le_bytes());
    assert_eq!(
        read(&mem).unwrap(),
        "invalid control region: heap read out of bounds: offset=7616 len=1 heap_size=7616"
    );
    mem[record + 60] = 3;
    assert_eq!(
        read(&mem).unwrap(),
        "shared memory error: open 'slotbus-layout-req-0-g2': nothing"
    );
}

// ---- Overflow regions --------------------------------------------------------

/// A pretended operating system in which some names are taken.
fn counting_os<'a>(
    taken: &'a [String],
    asked: &'a RefCell<Vec<(String, usize)>>,
) -> Mapper<
    impl Fn(&str, usize, bool) -> Result<Option<usize>, SlotBusError> + 'a,
    impl Fn(&str) -> bool,
    impl Fn(&usize, &str, &[u8]) -> Result<(), SlotBusError>,
> {
    Mapper {
        create: move |name: &str, size: usize, _again: bool| {
            asked.borrow_mut().push((name.to_string(), size));
            Ok(if taken.iter().any(|t| t == name || t == "*") {
                None
            } else {
                Some(size)
            })
        },
        reclaim: |_name: &str| false,
        fill: |size: &usize, name: &str, data: &[u8]| {
            let mut mem = vec![0u8; *size];
            ShmRegion::fill_overflow(&mut mem, name, data)?;
            assert_eq!(&mem[..data.len()], data);
            Ok(())
        },
    }
}

#[test]
fn overflow_regions_are_whole_pages() {
    for (len, size) in [(0, 4096), (1, 4096), (4096, 4096), (4097, 8192), (76_533, 77_824)] {
        assert_eq!(ShmRegion::overflow_size_for(len), size);
    }
}

#[test]
fn a_fresh_overflow_region_skips_taken_generations() {
    let c = config("agent");
    let asked = RefCell::new(Vec::new());
    let (size, marker) = ShmRegion::create_overflow_fresh(
        &counting_os(&[], &asked), &|g: u8| c.response_overflow_name_gen(1, g), &[7; 100],
    )
    .unwrap();
    assert_eq!((size, marker), (4096, 1));

    let taken = [c.response_overflow_name(1), c.response_overflow_name_gen(1, 1)];
    asked.borrow_mut().clear();
    let (size, marker) = ShmRegion::create_overflow_fresh(
        &counting_os(&taken, &asked), &|g: u8| c.response_overflow_name_gen(1, g), &vec![7; 76_533],
    )
    .unwrap();
    assert_eq!((size, marker), (77_824, 3));
    assert_eq!(overflow_generation(marker), Some(2));
    assert_eq!(
        *asked.borrow(),
        vec![
            ("slotbus-agent-rsp-1".to_string(), 77_824),
            ("slotbus-agent-rsp-1-g1".to_string(), 77_824),
            ("slotbus-agent-rsp-1-g2".to_string(), 77_824),
        ]
    );
}

#[test]
fn a_fresh_overflow_region_gives_up_after_all_generations() {
    let c = config("agent");
    let asked = RefCell::new(Vec::new());
    let all = ["*".to_string()];
    let err = ShmRegion::create_overflow_fresh(
        &counting_os(&all, &asked), &|g: u8| c.request_overflow_name_gen(0, g), &[1],
    )
    .unwrap_err();
    assert_eq!(
        err.message(),
        "shared memory error: exhausted all 255 overflow generations for \
         'slotbus-agent-req-0-g254': need 1 bytes (every generation is held by a live peer or \
         an unreclaimable orphan)"
    );
    assert_eq!(asked.borrow().len(), 255);
}

#[test]
fn overflow_regions_are_bounds_checked() {
    let mut mem = vec![0u8; 4];
    assert_eq!(
        ShmRegion::fill_overflow(&mut mem, "o", b"12345").unwrap_err().message(),
        "shared memory error: overflow region 'o' too small for write: need 5, have 4"
    );
    ShmRegion::fill_overflow(&mut mem, "o", b"123").unwrap();
    assert_eq!(mem, b"123\0");
    assert_eq!(ShmRegion::overflow_payload("o", 2, &mem).unwrap(), b"12");
    assert_eq!(
        ShmRegion::overflow_payload("o", 5, &mem).unwrap_err().message(),
        "shared memory error: overflow region 'o' too small: need 5, have 4"
    );
    let open = |_name: &str| Ok(vec![1u8, 2, 3]);
    assert_eq!(ShmRegion::read_overflow(&open, "o", 2).unwrap(), vec![1, 2]);
    assert!(ShmRegion::read_overflow(&open, "o", 4).is_err());
}

#[test]
fn a_region_that_is_taken_is_opened() {
    let asked = RefCell::new(Vec::new());
    let taken = ["*".to_string()];
    let os = counting_os(&taken, &asked);
    let open = |_name: &str| Ok(99usize);
    assert_eq!(ShmRegion::create_or_open(&os, &open, "x", 10).unwrap(), 99);
    let os = counting_os(&[], &asked);
    assert_eq!(ShmRegion::create_or_open(&os, &open, "x", 10).unwrap(), 10);
}

#[test]
fn outcomes_of_system_calls_become_regions_or_errors() {
    assert_eq!(ShmRegion::create("r", Ok(5)).unwrap().len(), 5);
    assert_eq!(
        ShmRegion::create("r", Err("no".to_string())).unwrap_err().message(),
        "shared memory error: create 'r': no"
    );
    assert_eq!(
        ShmRegion::open("r", Err("no".to_string())).unwrap_err().message(),
        "shared memory error: open 'r': no"
    );
    assert!(ShmRegion::try_create_exclusive("r", Attempt::NameTaken).unwrap().is_none());
    let made = ShmRegion::try_create_exclusive("r", Attempt::Mapped(7)).unwrap().unwrap();
    assert_eq!((made.name(), made.len()), ("r", 7));
}
