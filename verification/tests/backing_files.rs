//! Mappings whose backing files outlive the processes that made them.

use std::cell::RefCell;
use std::collections::HashMap;
use std::rc::Rc;

use slotbus::backing::{backing_file_name, reclaim_orphaned_backing_file};
use slotbus::overflow::Mapper;
use slotbus::region::ShmRegion;
use slotbus::types::{compute_layout, SHM_MAGIC, SHM_VERSION};
use slotbus::{SlotBusConfig, SlotBusError};

const DIR: &str = "/tmp/shared_memory-rs";
const SMALL: usize = 1024 * 1024;
const LARGE: usize = 4 * 1024 * 1024;
const SLOTS: usize = 64;

/// A file of a pretended disk.
struct File {
    size: usize,
    live: bool,
}

type Disk = Rc<RefCell<HashMap<String, File>>>;

/// Keeps a file open; removes it when dropped.
struct Handle {
    disk: Disk,
    path: String,
    region: ShmRegion,
}

impl Drop for Handle {
    fn drop(&mut self) {
        self.disk.borrow_mut().remove(&self.path);
    }
}

/// The path of a name below the backing directory, with `..` walked up.
fn resolve(name: &str) -> String {
    let mut parts: Vec<&str> = DIR.split('/').filter(|p| !p.is_empty()).collect();
    for part in name.split('/') {
        match part {
            "" | "." => {}
            ".." => {
                parts.pop();
            }
            other => parts.push(other),
        }
    }
    format!("/{}", parts.join("/"))
}

fn parent(path: &str) -> String {
    let end = path.rfind('/').unwrap();
    path[..end].to_string()
}

fn reclaim(disk: &Disk, name: &str) -> bool {
    let locate = |file: &str| {
        let path = resolve(file);
        if disk.borrow().contains_key(&path) {
            Some((parent(&path), DIR.to_string()))
        } else {
            None
        }
    };
    let remove = |file: &str| {
        let path = resolve(file);
        let live = disk.borrow()[&path].live;
        if !live {
            disk.borrow_mut().remove(&path);
        }
        !live
    };
    reclaim_orphaned_backing_file(name, &locate, &remove)
}

fn mapper(
    disk: &Disk,
) -> Mapper<
    impl Fn(&str, usize, bool) -> Result<Option<Handle>, SlotBusError> + '_,
    impl Fn(&str) -> bool + '_,
    impl Fn(&Handle, &str, &[u8]) -> Result<(), SlotBusError>,
> {
    Mapper {
        create: move |name: &str, size: usize, _again: bool| {
            let path = resolve(name);
            if disk.borrow().contains_key(&path) {
                return Ok(None);
            }
            disk.borrow_mut().insert(path.clone(), File { size, live: true });
            Ok(Some(Handle {
                disk: disk.clone(),
                path,
                region: ShmRegion::create(name, Ok(size))?,
            }))
        },
        reclaim: move |name: &str| reclaim(disk, name),
        fill: |handle: &Handle, name: &str, data: &[u8]| {
            let mut mem = vec![0u8; handle.region.len()];
            ShmRegion::fill_overflow(&mut mem, name, data)
        },
    }
}

fn opener(disk: &Disk) -> impl Fn(&str) -> Result<Handle, SlotBusError> + '_ {
    move |name: &str| {
        let path = resolve(name);
        let size = match disk.borrow().get(&path) {
            Some(file) => Ok(file.size),
            None => Err("no such file".to_string()),
        };
        let region = ShmRegion::open(name, size)?;
        Ok(Handle {
            disk: Disk::default(),
            path,
            region,
        })
    }
}

fn plant(disk: &Disk, path: &str, size: usize, live: bool) {
    disk.borrow_mut().insert(path.to_string(), File { size, live });
}

fn config_for(name: &str, region_size: usize) -> SlotBusConfig {
    SlotBusConfig::builder()
        .name(name)
        .num_slots(SLOTS)
        .region_size(region_size)
        .build()
}

#[test]
fn orphaned_backing_file_is_reclaimed_not_adopted() {
    let name = "slotbus-test-orphan-reclaim";
    let disk = Disk::default();
    plant(&disk, &resolve(name), 4096, false);

    let payload = vec![0xCDu8; 76_533];
    let handle = ShmRegion::create_overflow(&mapper(&disk), name, &payload)
        .expect("a stale orphan must not block a larger write");

    assert!(handle.region.len() >= payload.len());
    assert_eq!(handle.region.len(), 77_824);
}

#[test]
fn a_live_region_is_never_reclaimed() {
    let name = "slotbus-test-orphan-live";
    let disk = Disk::default();
    let os = mapper(&disk);

    let live = ShmRegion::create_overflow(&os, name, &vec![0xAAu8; 1024])
        .expect("create live region");
    let planted = resolve(name);
    assert!(
        disk.borrow().contains_key(&planted),
        "live region should have a backing file"
    );

    let second = ShmRegion::create_overflow(&os, name, &vec![0xBBu8; 76_533]);
    assert!(
        second.is_err(),
        "must refuse rather than steal a live region's name"
    );
    assert!(
        disk.borrow().contains_key(&planted),
        "the live region's backing file was deleted — reclaim is unsafe"
    );
    assert_eq!(
        second.err().unwrap().message(),
        "shared memory error: overflow region 'slotbus-test-orphan-live' already exists: \
         need 76533 bytes (held by a live peer, or an orphaned backing file that could not \
         be reclaimed)"
    );

    drop(live);
}

#[test]
fn an_orphaned_smaller_region_is_reclaimed_so_the_header_is_honest() {
    let name = "slotbus-test-stale-orphan";
    let disk = Disk::default();
    plant(&disk, &resolve(name), SMALL, false);

    let handle = ShmRegion::create_or_open(&mapper(&disk), &opener(&disk), name, LARGE)
        .expect("create_or_open");
    let actual_len = handle.region.len();
    assert_eq!(
        actual_len, LARGE,
        "the orphaned {SMALL}-byte file should have been reclaimed, not adopted"
    );

    let mut region = ShmRegion::new(name, actual_len);
    let mut mem = vec![0u8; actual_len];
    region
        .init_control(&mut mem, &config_for(name, LARGE))
        .expect("a full-size region must initialise");

    let (heap_offset, heap) = compute_layout(SLOTS, LARGE);
    assert!(heap_offset + heap <= actual_len);
}

#[test]
fn init_control_refuses_to_describe_more_heap_than_the_mapping_has() {
    let name = "slotbus-test-stale-live";
    let disk = Disk::default();
    plant(&disk, &resolve(name), SMALL, true);

    let adopted = ShmRegion::create_or_open(&mapper(&disk), &opener(&disk), name, LARGE)
        .expect("adopt the live mapping");
    assert_eq!(
        adopted.region.len(),
        SMALL,
        "a live mapping is adopted at its own size"
    );

    let mut region = ShmRegion::new(name, adopted.region.len());
    let mut mem = vec![7u8; SMALL];
    let err = region
        .init_control(&mut mem, &config_for(name, LARGE))
        .expect_err("init_control must reject a layout the mapping cannot hold");

    let msg = err.message();
    assert!(
        msg.contains("smaller mapping was adopted"),
        "unexpected error text: {msg}"
    );
    assert_eq!(
        msg,
        "invalid control region: region 'slotbus-test-stale-live' maps 1048576 bytes but the \
         requested layout needs 4194304 (num_slots=64, region_size=4194304); an existing \
         smaller mapping was adopted — stop every peer and remove the stale region before \
         retrying"
    );
    assert!(mem.iter().all(|&b| b == 7));
    assert_eq!(region.num_slots(), 0);
}

#[test]
fn validate_control_rejects_a_header_that_overruns_the_mapping() {
    let name = "slotbus-test-stale-validate";
    let (heap_offset, heap_size) = compute_layout(SLOTS, LARGE);
    assert!(
        heap_offset + heap_size > SMALL,
        "sanity: the LARGE layout must not fit in SMALL, else this proves nothing"
    );

    let mut bytes = vec![0u8; SMALL];
    for (i, word) in [
        SHM_MAGIC,
        SHM_VERSION,
        SLOTS as u32,
        heap_offset as u32,
        heap_size as u32,
    ]
    .iter()
    .enumerate()
    {
        bytes[i * 4..i * 4 + 4].copy_from_slice(&word.to_le_bytes());
    }

    let mut opened = ShmRegion::open(name, Ok(bytes.len())).expect("open the planted region");
    assert_eq!(opened.len(), SMALL, "sanity: mapped the planted 1 MiB file");

    let err = opened
        .validate_control(&bytes)
        .expect_err("validate_control must reject a header that overruns the mapping");
    assert!(err.message().contains("header describes a layout ending at"));
    assert_eq!(
        err.message(),
        "invalid control region: region 'slotbus-test-stale-validate' maps 1048576 bytes but \
         its header describes a layout ending at 4194304 (heap_offset=8256, \
         heap_size=4186048); the region was created against a larger region_size"
    );
}

#[test]
fn without_a_stale_file_the_header_matches_the_mapping() {
    let name = "slotbus-test-stale-clean";
    let disk = Disk::default();

    let handle = ShmRegion::create_or_open(&mapper(&disk), &opener(&disk), name, LARGE)
        .expect("create_or_open");
    let actual_len = handle.region.len();
    let mut region = ShmRegion::new(name, actual_len);
    let mut mem = vec![0u8; actual_len];
    region
        .init_control(&mut mem, &config_for(name, LARGE))
        .expect("clean init must succeed");

    let (heap_offset, heap) = compute_layout(SLOTS, LARGE);
    assert_eq!(actual_len, LARGE, "clean create should get the full size");
    assert!(
        heap_offset + heap <= actual_len,
        "clean case must be in bounds: end={} len={actual_len}",
        heap_offset + heap
    );
}

#[test]
fn traversal_cannot_delete_outside_the_backing_directory() {
    let disk = Disk::default();
    let victim = "/tmp/slotbus-test-victim-rsp-0";
    plant(&disk, victim, 32, false);
    let crafted = "hub-../../../slotbus-test-victim-rsp-0";
    assert_eq!(resolve(crafted), victim);

    let attempt = ShmRegion::create_overflow(&mapper(&disk), crafted, b"payload");
    assert!(attempt.is_err());
    assert!(
        disk.borrow().contains_key(victim),
        "reclaim deleted a file outside {DIR}"
    );
}

#[test]
fn a_worker_supplied_name_still_produces_a_traversing_region_name() {
    let cfg = SlotBusConfig::builder()
        .name("../../../slotbus-test-escape")
        .prefix("hub")
        .build();

    let overflow = cfg.response_overflow_name(0);
    assert!(overflow.contains(".."));

    let disk = Disk::default();
    let victim = "/tmp/slotbus-test-escape-rsp-0";
    plant(&disk, victim, 6, false);
    assert_eq!(resolve(&overflow), victim);
    let _ = ShmRegion::create_overflow(&mapper(&disk), &overflow, b"payload");
    assert!(
        disk.borrow().contains_key(victim),
        "reclaim acted on a traversing worker-supplied name"
    );
}

#[test]
fn only_plain_file_names_back_a_file() {
    assert_eq!(backing_file_name("hub-agent").as_deref(), Some("hub-agent"));
    assert_eq!(backing_file_name("//hub-agent").as_deref(), Some("hub-agent"));
    assert_eq!(backing_file_name("..a").as_deref(), Some("..a"));
    assert_eq!(backing_file_name("ab:c").as_deref(), Some("ab:c"));
    for name in [
        "", "/", ".", "..", "/..", "a/b", "a\\b", "\\\\server\\share", "C:x", "z:", "hub/..",
    ] {
        assert_eq!(backing_file_name(name), None, "{name}");
    }
}

#[test]
fn a_file_that_really_lies_elsewhere_is_left_alone() {
    let elsewhere = |_file: &str| Some(("/etc".to_string(), DIR.to_string()));
    let inside = |_file: &str| Some((DIR.to_string(), DIR.to_string()));
    let missing = |_file: &str| None;
    let removed = RefCell::new(Vec::new());
    let remove = |file: &str| {
        removed.borrow_mut().push(file.to_string());
        true
    };
    assert!(!reclaim_orphaned_backing_file("x", &elsewhere, &remove));
    assert!(!reclaim_orphaned_backing_file("x", &missing, &remove));
    assert!(!reclaim_orphaned_backing_file("a/x", &inside, &remove));
    assert!(removed.borrow().is_empty());
    assert!(reclaim_orphaned_backing_file("/x", &inside, &remove));
    assert_eq!(*removed.borrow(), vec!["x".to_string()]);
    assert!(!reclaim_orphaned_backing_file("x", &inside, &|_file: &str| false));
}

#[test]
fn a_create_is_retried_once_after_something_was_reclaimed() {
    for (taken, orphan, expected, result) in [
        (false, false, vec!["create"], Some(1)),
        (true, false, vec!["create", "reclaim"], None),
        (true, true, vec!["create", "reclaim", "create again"], Some(2)),
    ] {
        let calls = std::cell::RefCell::new(Vec::new());
        let os = Mapper {
            create: |_name: &str, _size: usize, again: bool| -> Result<Option<u8>, SlotBusError> {
                calls.borrow_mut().push(if again { "create again" } else { "create" });
                Ok(if again {
                    Some(2)
                } else if taken {
                    None
                } else {
                    Some(1)
                })
            },
            reclaim: |_name: &str| {
                calls.borrow_mut().push("reclaim");
                orphan
            },
            fill: |_region: &u8, _name: &str, _data: &[u8]| -> Result<(), SlotBusError> { Ok(()) },
        };
        assert_eq!(ShmRegion::create_exclusive(&os, "name", 64).unwrap(), result);
        assert_eq!(*calls.borrow(), expected);
    }
}
