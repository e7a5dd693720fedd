//! The control region: header, slot records and inline heap inside one mapping.
//!
//! A [`ShmRegion`] describes a mapping; the mapped bytes themselves are handed
//! to each operation as a slice.

use vstd::prelude::*;
use vstd::string::StringExecFns;

use crate::bytes;
use crate::config::{ConfigView, Side, SlotBusConfig};
use crate::error::{ErrorView, SlotBusError};
use crate::text;
use crate::types;
use crate::types::{
    ShmHeader, SlotMeta, SHM_HEADER_SIZE, SHM_MAGIC, SHM_VERSION, SLOT_FREE, SLOT_META_SIZE,
    SLOT_WRITING,
};

pub use crate::slots::{read_request, read_response, write_request, write_response};

verus! {

// ---- ShmRegion ---------------------------------------------------------------

/// A named shared memory mapping and the layout inside it.
#[derive(Debug)]
pub struct ShmRegion {
    name: String,
    len: usize,
    num_slots: usize,
    heap_offset: usize,
    heap_size: usize,
}

/// A [`ShmRegion`] as a mathematical value.
pub struct RegionView {
    pub name: Seq<char>,
    pub len: nat,
    pub num_slots: nat,
    pub heap_offset: nat,
    pub heap_size: nat,
}

impl View for ShmRegion {
    type V = RegionView;

    closed spec fn view(&self) -> RegionView {
        RegionView {
            name: self.name@,
            len: self.len as nat,
            num_slots: self.num_slots as nat,
            heap_offset: self.heap_offset as nat,
            heap_size: self.heap_size as nat,
        }
    }
}

impl RegionView {
    /// A mapping without a layout.
    pub open spec fn plain(name: Seq<char>, len: nat) -> RegionView {
        RegionView { name, len, num_slots: 0, heap_offset: 0, heap_size: 0 }
    }

    /// Header, slot records and heap lie in the mapping, in this order.
    pub open spec fn laid_out(self) -> bool {
        &&& types::heap_start(self.num_slots) <= self.heap_offset
        &&& self.heap_offset + self.heap_size <= self.len
        &&& self.len <= usize::MAX
    }

    /// `mem` holds the bytes of this mapping.
    pub open spec fn maps(self, mem: Seq<u8>) -> bool {
        self.laid_out() && mem.len() == self.len
    }

    /// Heap-relative start of the bytes that one side of a slot owns.
    pub open spec fn arena_base(self, side: Side, slot: nat) -> nat {
        types::arena_base(side, slot, self.num_slots, self.heap_size)
    }

    /// How many bytes one side of a slot owns.
    pub open spec fn arena_size(self, side: Side) -> nat {
        types::arena_size(side, self.num_slots, self.heap_size)
    }

    /// The largest body that fits behind `meta_len` bytes of metadata in either
    /// arena of a slot.
    pub open spec fn inline_capacity(self, meta_len: nat) -> nat {
        let request = self.arena_size(Side::Request);
        let response = self.arena_size(Side::Response);
        let smaller = if request <= response {
            request
        } else {
            response
        };
        let meta = types::aligned8(meta_len);
        if smaller < meta {
            0
        } else {
            (smaller - meta) as nat
        }
    }

    /// Some slot is not free.
    pub open spec fn has_inflight(self, mem: Seq<u8>) -> bool {
        exists|slot: nat|
            slot < self.num_slots && #[trigger] types::slot_status(mem, slot) != SLOT_FREE
    }
}

/// `mem` with the status of a slot set.
pub open spec fn with_status(mem: Seq<u8>, slot: nat, status: u32) -> Seq<u8> {
    bytes::put(mem, types::record_at(slot), bytes::le32(status))
}

/// A free slot that is given some status and freed again is as it was.
pub(crate) proof fn lemma_status_restored(mem: Seq<u8>, slot: nat, status: u32)
    requires
        types::record_at(slot) + 4 <= mem.len(),
        types::slot_status(mem, slot) == SLOT_FREE,
    ensures
        with_status(with_status(mem, slot, status), slot, SLOT_FREE) == mem,
{
    assert(with_status(with_status(mem, slot, status), slot, SLOT_FREE) =~= mem);
}

/// `mem` with the head of the bump allocator set.
pub open spec fn with_alloc_head(mem: Seq<u8>, head: u32) -> Seq<u8> {
    bytes::put(mem, 20, bytes::le32(head))
}

/// A freshly initialized control region: a header in front of zeros.
pub open spec fn initial_image(len: nat, num_slots: nat, heap_offset: nat, heap_size: nat) -> Seq<
    u8,
> {
    let m0 = Seq::new(len, |i: int| 0u8);
    let m1 = bytes::put(m0, 0, bytes::le32(SHM_MAGIC));
    let m2 = bytes::put(m1, 4, bytes::le32(SHM_VERSION));
    let m3 = bytes::put(m2, 8, bytes::le32(bytes::low32(num_slots)));
    let m4 = bytes::put(m3, 12, bytes::le32(bytes::low32(heap_offset)));
    let m5 = bytes::put(m4, 16, bytes::le32(bytes::low32(heap_size)));
    with_alloc_head(m5, 0)
}

// ---- Error texts -------------------------------------------------------------

/// A read or write outside the heap.
pub open spec fn heap_bounds_text(what: Seq<char>, offset: u32, len: nat, heap_size: nat) -> Seq<
    char,
> {
    what + " out of bounds: offset="@ + text::decimal(offset as nat) + " len="@ + text::decimal(len)
        + " heap_size="@ + text::decimal(heap_size)
}

fn heap_bounds_message(what: &str, offset: u32, len: usize, heap_size: usize) -> (r: String)
    ensures
        r@ == heap_bounds_text(what@, offset, len as nat, heap_size as nat),
{
    let mut s = what.to_owned().concat(" out of bounds: offset=");
    text::push_decimal(&mut s, offset as u64);
    s.append(" len=");
    text::push_usize(&mut s, len);
    s.append(" heap_size=");
    text::push_usize(&mut s, heap_size);
    s
}

/// A layout that a mapping cannot hold.
pub open spec fn layout_too_large_text(region: RegionView, needed: nat, config: ConfigView) -> Seq<
    char,
> {
    "region '"@ + region.name + "' maps "@ + text::decimal(region.len)
        + " bytes but the requested layout needs "@ + text::decimal(needed) + " (num_slots="@
        + text::decimal(config.num_slots) + ", region_size="@ + text::decimal(config.region_size)
        + "); an existing smaller mapping was adopted — stop every peer and remove the stale region before retrying"@
}

/// A header of another kind of region.
pub open spec fn bad_magic_text(magic: u32) -> Seq<char> {
    "bad magic: expected 0x"@ + text::hex8(SHM_MAGIC) + ", got 0x"@ + text::hex8(magic)
}

/// A header of another protocol version.
pub open spec fn bad_version_text(version: u32) -> Seq<char> {
    "bad version: expected "@ + text::decimal(SHM_VERSION as nat) + ", got "@ + text::decimal(
        version as nat,
    )
}

/// A header that describes more than the mapping holds.
pub open spec fn header_overrun_text(region: RegionView, header: ShmHeader) -> Seq<char> {
    "region '"@ + region.name + "' maps "@ + text::decimal(region.len)
        + " bytes but its header describes a layout ending at "@ + text::decimal(
        (header.heap_offset + header.heap_size) as nat,
    ) + " (heap_offset="@ + text::decimal(header.heap_offset as nat) + ", heap_size="@
        + text::decimal(header.heap_size as nat)
        + "); the region was created against a larger region_size"@
}

/// A system call on a name failed.
pub open spec fn system_error_text(call: Seq<char>, name: Seq<char>, reason: Seq<char>) -> Seq<
    char,
> {
    call + " '"@ + name + "': "@ + reason
}

fn system_error(call: &str, name: &str, reason: &str) -> (r: SlotBusError)
    ensures
        r@ == ErrorView::SharedMemory(system_error_text(call@, name@, reason@)),
{
    SlotBusError::SharedMemory(
        call.to_owned().concat(" '").concat(name).concat("': ").concat(reason),
    )
}

/// How one attempt to create a mapping ended.
#[derive(Debug)]
pub enum Attempt {
    /// A mapping of so many bytes.
    Mapped(usize),
    /// The name is taken.
    NameTaken,
    /// The system refused, for the given reason.
    Failed(String),
}

// ---- Layout, header and heap -------------------------------------------------

impl ShmRegion {
    /// Describes a mapping of `len` bytes that has no layout yet.
    pub fn new(name: &str, len: usize) -> (r: Self)
        ensures
            r@ == RegionView::plain(name@, len as nat),
    {
        ShmRegion { name: name.to_owned(), len, num_slots: 0, heap_offset: 0, heap_size: 0 }
    }

    /// The region of a name that was to be created, given the size of the
    /// mapping or the reason why there is none.
    pub fn create(name: &str, mapped: Result<usize, String>) -> (r: Result<Self, SlotBusError>)
        ensures
            match mapped {
                Ok(len) => r matches Ok(region) && region@ == RegionView::plain(
                    name@,
                    len as nat,
                ),
                Err(reason) => r matches Err(e) && e@ == ErrorView::SharedMemory(
                    system_error_text("create"@, name@, reason@),
                ),
            },
    {
        match mapped {
            Ok(len) => Ok(Self::new(name, len)),
            Err(reason) => Err(system_error("create", name, reason.as_str())),
        }
    }

    /// The region of a name that was to be opened, given the size of the
    /// mapping or the reason why there is none.
    pub fn open(name: &str, mapped: Result<usize, String>) -> (r: Result<Self, SlotBusError>)
        ensures
            match mapped {
                Ok(len) => r matches Ok(region) && region@ == RegionView::plain(
                    name@,
                    len as nat,
                ),
                Err(reason) => r matches Err(e) && e@ == ErrorView::SharedMemory(
                    system_error_text("open"@, name@, reason@),
                ),
            },
    {
        match mapped {
            Ok(len) => Ok(Self::new(name, len)),
            Err(reason) => Err(system_error("open", name, reason.as_str())),
        }
    }

    /// What one attempt to create a mapping gives: `Ok(None)` means that the
    /// name is already taken.
    pub fn try_create_exclusive(name: &str, attempt: Attempt) -> (r: Result<
        Option<Self>,
        SlotBusError,
    >)
        ensures
            match attempt {
                Attempt::Mapped(len) => r matches Ok(Some(region)) && region@
                    == RegionView::plain(name@, len as nat),
                Attempt::NameTaken => r matches Ok(None),
                Attempt::Failed(reason) => r matches Err(e) && e@ == ErrorView::SharedMemory(
                    system_error_text("create"@, name@, reason@),
                ),
            },
    {
        match attempt {
            Attempt::Mapped(len) => Ok(Some(Self::new(name, len))),
            Attempt::NameTaken => Ok(None),
            Attempt::Failed(reason) => Err(system_error("create", name, reason.as_str())),
        }
    }

    /// The OS-level name of this region.
    pub fn name(&self) -> (r: &str)
        ensures
            r@ == self@.name,
    {
        self.name.as_str()
    }

    /// Total size of the mapping in bytes.
    pub fn len(&self) -> (r: usize)
        ensures
            r == self@.len,
    {
        self.len
    }

    /// Whether the mapping is empty (always false for valid regions).
    pub fn is_empty(&self) -> (r: bool)
        ensures
            r == (self@.len == 0),
    {
        self.len == 0
    }

    /// Number of slots (set after init/validate).
    pub fn num_slots(&self) -> (r: usize)
        ensures
            r == self@.num_slots,
    {
        self.num_slots
    }

    /// Whether header, slot records and heap lie in the mapping, in this order.
    pub fn is_laid_out(&self) -> (r: bool)
        ensures
            r == self@.laid_out(),
    {
        if self.heap_offset > self.len || self.heap_size > self.len - self.heap_offset {
            return false;
        }
        if self.heap_offset < SHM_HEADER_SIZE {
            return false;
        }
        self.num_slots <= (self.heap_offset - SHM_HEADER_SIZE) / SLOT_META_SIZE
    }

    /// The header (offset 0).
    pub fn header(&self, mem: &[u8]) -> (r: ShmHeader)
        requires
            mem@.len() >= SHM_HEADER_SIZE,
        ensures
            r == types::header_at(mem@),
    {
        ShmHeader {
            magic: bytes::get_u32(mem, 0),
            version: bytes::get_u32(mem, 4),
            num_slots: bytes::get_u32(mem, 8),
            heap_offset: bytes::get_u32(mem, 12),
            heap_size: bytes::get_u32(mem, 16),
            alloc_head: bytes::get_u32(mem, 20),
        }
    }

    /// Where the record of a slot starts.
    pub(crate) fn record(&self, index: usize) -> (r: usize)
        requires
            self@.laid_out(),
            index < self@.num_slots,
        ensures
            r == types::record_at(index as nat),
            r + SLOT_META_SIZE <= self@.heap_offset,
            r + SLOT_META_SIZE <= self@.len,
    {
        SHM_HEADER_SIZE + index * SLOT_META_SIZE
    }

    /// The record of a slot.
    pub fn slot(&self, mem: &[u8], index: usize) -> (r: SlotMeta)
        requires
            self@.maps(mem@),
            index < self@.num_slots,
        ensures
            r@ == types::slot_at(mem@, index as nat),
    {
        let at: usize = self.record(index);
        let mut req_id: [u8; 36] = [0u8;36];
        let mut i: usize = 0;
        while i < 36
            invariant
                i <= 36,
                at + 40 <= mem@.len() <= usize::MAX,
                forall|k: int| 0 <= k < i ==> req_id@[k] == mem@[at + 4 + k],
            decreases 36 - i,
        {
            req_id[i] = mem[at + 4 + i];
            i = i + 1;
        }
        assert(req_id@ =~= mem@.subrange(at + 4, at + 40));
        SlotMeta {
            status: bytes::get_u32(mem, at),
            req_id,
            method: mem[at + 40],
            meta_offset: bytes::get_u32(mem, at + 44),
            meta_len: bytes::get_u16(mem, at + 48),
            body_offset: bytes::get_u32(mem, at + 52),
            body_len: bytes::get_u32(mem, at + 56),
            body_overflow: mem[at + 60],
            resp_status: bytes::get_u16(mem, at + 64),
            resp_meta_offset: bytes::get_u32(mem, at + 68),
            resp_meta_len: bytes::get_u16(mem, at + 72),
            resp_body_offset: bytes::get_u32(mem, at + 76),
            resp_body_len: bytes::get_u32(mem, at + 80),
            resp_body_overflow: mem[at + 84],
        }
    }

    /// The status of a slot.
    pub fn status(&self, mem: &[u8], index: usize) -> (r: u32)
        requires
            self@.maps(mem@),
            index < self@.num_slots,
        ensures
            r == types::slot_status(mem@, index as nat),
    {
        bytes::get_u32(mem, self.record(index))
    }

    /// Sets the status of a slot.
    pub fn set_status(&self, mem: &mut [u8], index: usize, status: u32)
        requires
            self@.maps(old(mem)@),
            index < self@.num_slots,
        ensures
            final(mem)@ == with_status(old(mem)@, index as nat, status),
    {
        bytes::put_u32(mem, self.record(index), status);
    }

    /// Read `len` bytes from the heap at `offset`.
    pub fn heap_read<'a>(&self, mem: &'a [u8], offset: u32, len: usize) -> (r: &'a [u8])
        requires
            self@.maps(mem@),
            offset + len <= self@.heap_size,
        ensures
            r@ == mem@.subrange(
                self@.heap_offset + offset,
                self@.heap_offset + offset + len,
            ),
    {
        let at: usize = self.heap_offset + offset as usize;
        &mem[at..at + len]
    }

    /// Bounds-checked heap read.
    pub fn heap_read_checked<'a>(&self, mem: &'a [u8], offset: u32, len: usize) -> (r: Result<
        &'a [u8],
        SlotBusError,
    >)
        requires
            self@.maps(mem@),
        ensures
            match r {
                Ok(data) => {
                    &&& offset + len <= self@.heap_size
                    &&& data@ == mem@.subrange(
                        self@.heap_offset + offset,
                        self@.heap_offset + offset + len,
                    )
                },
                Err(e) => {
                    &&& offset + len > self@.heap_size
                    &&& e@ == ErrorView::InvalidRegion(
                        heap_bounds_text("heap read"@, offset, len as nat, self@.heap_size),
                    )
                },
            },
    {
        match (offset as usize).checked_add(len) {
            Some(end) => {
                if end <= self.heap_size {
                    return Ok(self.heap_read(mem, offset, len));
                }
            },
            None => {},
        }
        Err(
            SlotBusError::InvalidRegion(
                heap_bounds_message("heap read", offset, len, self.heap_size),
            ),
        )
    }

    /// Write `data` to the heap at `offset`.
    pub fn heap_write(&self, mem: &mut [u8], offset: u32, data: &[u8])
        requires
            self@.maps(old(mem)@),
            offset + data@.len() <= self@.heap_size,
        ensures
            final(mem)@ == bytes::put(old(mem)@, self@.heap_offset + offset, data@),
    {
        bytes::put_bytes(mem, self.heap_offset + offset as usize, data);
    }

    /// Bounds-checked heap write.
    pub fn heap_write_checked(&self, mem: &mut [u8], offset: u32, data: &[u8]) -> (r: Result<
        (),
        SlotBusError,
    >)
        requires
            self@.maps(old(mem)@),
        ensures
            match r {
                Ok(_) => {
                    &&& offset + data@.len() <= self@.heap_size
                    &&& final(mem)@ == bytes::put(old(mem)@, self@.heap_offset + offset, data@)
                },
                Err(e) => {
                    &&& offset + data@.len() > self@.heap_size
                    &&& e@ == ErrorView::InvalidRegion(
                        heap_bounds_text("heap write"@, offset, data@.len(), self@.heap_size),
                    )
                    &&& final(mem)@ == old(mem)@
                },
            },
    {
        match (offset as usize).checked_add(data.len()) {
            Some(end) => {
                if end <= self.heap_size {
                    self.heap_write(mem, offset, data);
                    return Ok(());
                }
            },
            None => {},
        }
        Err(
            SlotBusError::InvalidRegion(
                heap_bounds_message("heap write", offset, data.len(), self.heap_size),
            ),
        )
    }

    /// Heap-relative `(offset, len)` of this slot's request and response
    /// arenas, as `(request, response)`.
    pub fn slot_arenas(&self, slot_index: usize) -> (r: ((usize, usize), (usize, usize)))
        requires
            slot_index < self@.num_slots,
        ensures
            r.0.0 == self@.arena_base(Side::Request, slot_index as nat),
            r.0.1 == self@.arena_size(Side::Request),
            r.1.0 == self@.arena_base(Side::Response, slot_index as nat),
            r.1.1 == self@.arena_size(Side::Response),
    {
        types::slot_arenas(slot_index, self.num_slots, self.heap_size)
    }

    /// Heap-relative `(offset, len)` of the arena of one side of a slot.
    pub(crate) fn arena(&self, side: Side, slot_index: usize) -> (r: (usize, usize))
        requires
            slot_index < self@.num_slots,
        ensures
            r.0 == self@.arena_base(side, slot_index as nat),
            r.1 == self@.arena_size(side),
            r.0 + r.1 <= self@.heap_size,
            r.0 as nat % 8 == 0,
            r.1 as nat % 8 == 0,
    {
        proof {
            types::arenas_lie_in_the_heap(
                side,
                slot_index as nat,
                self@.num_slots,
                self@.heap_size,
            );
        }
        let (request, response) = self.slot_arenas(slot_index);
        match side {
            Side::Request => request,
            Side::Response => response,
        }
    }

    /// Largest body that fits inline alongside a `meta_len`-byte metadata
    /// blob, for either direction of a slot. Bodies above this spill to an
    /// overflow region.
    pub fn inline_body_capacity(&self, meta_len: usize) -> (r: usize)
        requires
            self@.num_slots > 0,
            meta_len + 7 <= usize::MAX,
        ensures
            r == self@.inline_capacity(meta_len as nat),
    {
        let ((_, request), (_, response)) = self.slot_arenas(0);
        let smaller: usize = if request <= response {
            request
        } else {
            response
        };
        smaller.saturating_sub(types::align8(meta_len))
    }

    /// Allocate `size` bytes from the inline heap (bump allocator).
    ///
    /// Returns the heap offset, or `None` if the heap is full. The protocol
    /// does not use this allocator: the offsets it hands out overlap the slot
    /// arenas.
    pub fn alloc_heap(&self, mem: &mut [u8], size: usize) -> (r: Option<u32>)
        requires
            self@.maps(old(mem)@),
        ensures
            ({
                let head = types::header_at(old(mem)@).alloc_head;
                let new_head = (head + types::aligned8(size as nat)) as nat;
                if new_head > self@.heap_size {
                    r is None && final(mem)@ == old(mem)@
                } else {
                    r == Some(head) && final(mem)@ == with_alloc_head(
                        old(mem)@,
                        bytes::low32(new_head),
                    )
                }
            }),
    {
        if size > self.heap_size {
            return None;
        }
        let aligned: usize = types::align8(size);
        let head: u32 = bytes::get_u32(mem, 20);
        if aligned > self.heap_size || head as usize > self.heap_size - aligned {
            return None;
        }
        bytes::put_u32(mem, 20, bytes::to_low32(head as usize + aligned));
        Some(head)
    }

    /// Reset the heap allocator to zero.
    pub fn reset_heap(&self, mem: &mut [u8])
        requires
            self@.maps(old(mem)@),
        ensures
            final(mem)@ == with_alloc_head(old(mem)@, 0),
    {
        bytes::put_u32(mem, 20, 0);
    }

    /// Check if any slots are in-flight (not Free).
    pub fn has_inflight_slots(&self, mem: &[u8]) -> (r: bool)
        requires
            self@.maps(mem@),
        ensures
            r == self@.has_inflight(mem@),
    {
        let mut i: usize = 0;
        while i < self.num_slots
            invariant
                self@.maps(mem@),
                i <= self.num_slots == self@.num_slots,
                forall|slot: nat| slot < i ==> types::slot_status(mem@, slot) == SLOT_FREE,
            decreases self.num_slots - i,
        {
            if self.status(mem, i) != SLOT_FREE {
                return true;
            }
            i = i + 1;
        }
        false
    }

    /// Reset the heap allocator if no slots are in-flight.
    pub fn try_reset_heap(&self, mem: &mut [u8])
        requires
            self@.maps(old(mem)@),
        ensures
            final(mem)@ == (if self@.has_inflight(old(mem)@) {
                old(mem)@
            } else {
                with_alloc_head(old(mem)@, 0)
            }),
    {
        if !self.has_inflight_slots(mem) {
            self.reset_heap(mem);
        }
    }

    // ---- Initialization ------------------------------------------------------

    /// Initialize a freshly-created control region with the given config.
    ///
    /// The layout follows from the requested `region_size`. A mapping that is
    /// too small to hold it is refused and left as it is.
    pub fn init_control(&mut self, mem: &mut [u8], config: &SlotBusConfig) -> (r: Result<
        (),
        SlotBusError,
    >)
        requires
            old(mem)@.len() == old(self)@.len,
            types::heap_start(config@.num_slots) <= usize::MAX,
        ensures
            ({
                let heap_offset = types::heap_start(config@.num_slots);
                let heap_size = types::heap_room(config@.num_slots, config@.region_size);
                let needed = heap_offset + heap_size;
                if needed > old(self)@.len {
                    &&& r matches Err(e)
                    &&& e@ == ErrorView::InvalidRegion(
                        layout_too_large_text(old(self)@, needed, config@),
                    )
                    &&& final(self)@ == old(self)@
                    &&& final(mem)@ == old(mem)@
                } else {
                    &&& r is Ok
                    &&& final(self)@ == (RegionView {
                        num_slots: config@.num_slots,
                        heap_offset,
                        heap_size,
                        ..old(self)@
                    })
                    &&& final(self)@.maps(final(mem)@)
                    &&& final(mem)@ == initial_image(
                        old(self)@.len,
                        config@.num_slots,
                        heap_offset,
                        heap_size,
                    )
                }
            }),
    {
        let (heap_offset, heap_size) = types::compute_layout(config.num_slots, config.region_size);
        let needed: usize = heap_offset + heap_size;
        if needed > self.len {
            let mut s = String::from_str("region '").concat(self.name.as_str()).concat("' maps ");
            text::push_usize(&mut s, self.len);
            s.append(" bytes but the requested layout needs ");
            text::push_usize(&mut s, needed);
            s.append(" (num_slots=");
            text::push_usize(&mut s, config.num_slots);
            s.append(", region_size=");
            text::push_usize(&mut s, config.region_size);
            s.append(
                "); an existing smaller mapping was adopted — stop every peer and remove the stale region before retrying",
            );
            return Err(SlotBusError::InvalidRegion(s));
        }
        self.num_slots = config.num_slots;
        self.heap_offset = heap_offset;
        self.heap_size = heap_size;
        bytes::put_zeros(mem, 0, self.len);
        assert(mem@ =~= Seq::new(self.len as nat, |i: int| 0u8));
        bytes::put_u32(mem, 0, SHM_MAGIC);
        bytes::put_u32(mem, 4, SHM_VERSION);
        bytes::put_u32(mem, 8, bytes::to_low32(config.num_slots));
        bytes::put_u32(mem, 12, bytes::to_low32(heap_offset));
        bytes::put_u32(mem, 16, bytes::to_low32(heap_size));
        bytes::put_u32(mem, 20, 0);
        Ok(())
    }

    /// Validate that a control region has the correct magic/version and read
    /// its layout. A header that describes more than the mapping holds is
    /// refused.
    pub fn validate_control(&mut self, mem: &[u8]) -> (r: Result<(), SlotBusError>)
        requires
            mem@.len() == old(self)@.len,
            mem@.len() >= SHM_HEADER_SIZE,
        ensures
            ({
                let h = types::header_at(mem@);
                let refusal = if h.magic != SHM_MAGIC {
                    Some(bad_magic_text(h.magic))
                } else if h.version != SHM_VERSION {
                    Some(bad_version_text(h.version))
                } else if h.heap_offset + h.heap_size > mem@.len() {
                    Some(header_overrun_text(old(self)@, h))
                } else {
                    None
                };
                match refusal {
                    Some(message) => {
                        &&& r matches Err(e)
                        &&& e@ == ErrorView::InvalidRegion(message)
                        &&& final(self)@ == old(self)@
                    },
                    None => {
                        &&& r is Ok
                        &&& final(self)@ == (RegionView {
                            num_slots: h.num_slots as nat,
                            heap_offset: h.heap_offset as nat,
                            heap_size: h.heap_size as nat,
                            ..old(self)@
                        })
                    },
                }
            }),
    {
        let h = self.header(mem);
        if h.magic != SHM_MAGIC {
            let mut s = String::from_str("bad magic: expected 0x");
            text::push_hex8(&mut s, SHM_MAGIC);
            s.append(", got 0x");
            text::push_hex8(&mut s, h.magic);
            return Err(SlotBusError::InvalidRegion(s));
        }
        if h.version != SHM_VERSION {
            let mut s = String::from_str("bad version: expected ");
            text::push_decimal(&mut s, SHM_VERSION as u64);
            s.append(", got ");
            text::push_decimal(&mut s, h.version as u64);
            return Err(SlotBusError::InvalidRegion(s));
        }
        let end: u64 = h.heap_offset as u64 + h.heap_size as u64;
        if end > self.len as u64 {
            let mut s = String::from_str("region '").concat(self.name.as_str()).concat("' maps ");
            text::push_usize(&mut s, self.len);
            s.append(" bytes but its header describes a layout ending at ");
            text::push_decimal(&mut s, end);
            s.append(" (heap_offset=");
            text::push_decimal(&mut s, h.heap_offset as u64);
            s.append(", heap_size=");
            text::push_decimal(&mut s, h.heap_size as u64);
            s.append("); the region was created against a larger region_size");
            return Err(SlotBusError::InvalidRegion(s));
        }
        self.num_slots = h.num_slots as usize;
        self.heap_offset = h.heap_offset as usize;
        self.heap_size = h.heap_size as usize;
        Ok(())
    }
}

// ---- Find free slot ----------------------------------------------------------

/// Find the first free slot and reserve it: Free → Writing.
pub fn claim_free_slot(region: &ShmRegion, mem: &mut [u8]) -> (r: Option<usize>)
    requires
        region@.maps(old(mem)@),
    ensures
        match r {
            Some(i) => {
                &&& i < region@.num_slots
                &&& types::slot_status(old(mem)@, i as nat) == SLOT_FREE
                &&& forall|j: nat| j < i ==> types::slot_status(old(mem)@, j) != SLOT_FREE
                &&& final(mem)@ == with_status(old(mem)@, i as nat, SLOT_WRITING)
            },
            None => {
                &&& forall|j: nat|
                    j < region@.num_slots ==> types::slot_status(old(mem)@, j) != SLOT_FREE
                &&& final(mem)@ == old(mem)@
            },
        },
{
    let found = find_free_slot(region, mem);
    if let Some(i) = found {
        region.set_status(mem, i, SLOT_WRITING);
    }
    found
}

/// No slot below `count` is free.
pub open spec fn none_free_below(mem: Seq<u8>, count: nat) -> bool {
    forall|i: nat| i < count ==> #[trigger] types::slot_status(mem, i) != SLOT_FREE
}

/// Scan slots for the first Free one, without reserving it.
pub fn find_free_slot(region: &ShmRegion, mem: &[u8]) -> (r: Option<usize>)
    requires
        region@.maps(mem@),
    ensures
        match r {
            Some(i) => {
                &&& i < region@.num_slots
                &&& types::slot_status(mem@, i as nat) == SLOT_FREE
                &&& forall|j: nat| j < i ==> types::slot_status(mem@, j) != SLOT_FREE
            },
            None => forall|j: nat|
                j < region@.num_slots ==> types::slot_status(mem@, j) != SLOT_FREE,
        },
        none_free_below(
            mem@,
            match r {
                Some(i) => i as nat,
                None => region@.num_slots,
            },
        ),
{
    let n: usize = region.num_slots();
    let mut i: usize = 0;
    while i < n
        invariant
            region@.maps(mem@),
            i <= n == region@.num_slots,
            forall|j: nat| j < i ==> types::slot_status(mem@, j) != SLOT_FREE,
        decreases n - i,
    {
        if region.status(mem, i) == SLOT_FREE {
            return Some(i);
        }
        i = i + 1;
    }
    None
}

/// Every slot below `count` may be offered to `try_claim` and lost.
pub open spec fn lost_below<C: Fn(usize) -> bool>(try_claim: C, count: usize) -> bool {
    forall|i: usize| i < count ==> #[trigger] try_claim.ensures((i,), false)
}

/// Offers the slots below `num_slots` to `try_claim` in order and stops at the
/// first that it wins: a slot is offered only after all before it were lost.
pub fn claim_first<C: Fn(usize) -> bool>(num_slots: usize, try_claim: C) -> (r: Option<usize>)
    requires
        forall|i: usize|
            i < num_slots && (forall|j: usize| j < i ==> #[trigger] try_claim.ensures((j,), false))
                ==> #[trigger] try_claim.requires((i,)),
    ensures
        match r {
            Some(i) => {
                &&& i < num_slots
                &&& try_claim.ensures((i,), true)
                &&& forall|j: usize| j < i ==> #[trigger] try_claim.ensures((j,), false)
            },
            None => forall|j: usize| j < num_slots ==> #[trigger] try_claim.ensures((j,), false),
        },
        lost_below(
            try_claim,
            match r {
                Some(i) => i,
                None => num_slots,
            },
        ),
{
    let mut i: usize = 0;
    while i < num_slots
        invariant
            i <= num_slots,
            forall|k: usize|
                k < num_slots && (forall|j: usize|
                    j < k ==> #[trigger] try_claim.ensures((j,), false))
                    ==> #[trigger] try_claim.requires((k,)),
            forall|j: usize| j < i ==> #[trigger] try_claim.ensures((j,), false),
        decreases num_slots - i,
    {
        if try_claim(i) {
            return Some(i);
        }
        i = i + 1;
    }
    None
}

// ---- In numbers ----------------------------------------------------------------

/// A region's heap is shared out evenly: each slot owns as many whole groups of
/// eight bytes as go to it, the first half of them, rounded down, for requests.
pub proof fn heaps_are_shared_out_evenly(region: RegionView, slot: nat)
    requires
        slot < region.num_slots,
    ensures
        ({
            let stride = region.heap_size / region.num_slots / 8 * 8;
            let half = stride / 2 / 8 * 8;
            &&& region.arena_base(Side::Request, slot) == slot * stride
            &&& region.arena_size(Side::Request) == half
            &&& region.arena_base(Side::Response, slot) == slot * stride + half
            &&& region.arena_size(Side::Response) == stride - half
        }),
{
    reveal(types::arena_base);
    reveal(types::arena_size);
}

/// Behind metadata rounded up to a multiple of eight, what is left of the smaller
/// arena of a slot is its inline capacity.
pub proof fn inline_capacity_is_what_metadata_leaves(region: RegionView, meta_len: nat)
    requires
        region.num_slots > 0,
    ensures
        ({
            let room = region.heap_size / region.num_slots / 8 * 8 / 2 / 8 * 8;
            let meta = (meta_len + 7) / 8 * 8;
            &&& meta <= room ==> region.inline_capacity(meta_len) == room - meta
            &&& meta > room ==> region.inline_capacity(meta_len) == 0
        }),
{
    reveal(types::arena_size);
}

/// A region is laid out where 64 bytes of header, 128 bytes for each slot and the
/// heap lie in it one behind the other.
pub proof fn layouts_hold_header_records_and_heap(region: RegionView, mem: Seq<u8>)
    ensures
        region.maps(mem) <==> {
            &&& 64 + 128 * region.num_slots <= region.heap_offset
            &&& region.heap_offset + region.heap_size <= region.len
            &&& region.len <= usize::MAX
            &&& mem.len() == region.len
        },
{
}

/// A slot is in flight unless its status is zero.
pub proof fn slots_are_in_flight_unless_zero(region: RegionView, mem: Seq<u8>)
    ensures
        region.has_inflight(mem) <==> exists|slot: nat|
            slot < region.num_slots && #[trigger] types::slot_status(mem, slot) != 0,
{
}

/// Setting the head of the allocator reaches the four bytes from 20 on alone.
pub proof fn allocator_heads_reach_their_bytes_alone(mem: Seq<u8>, head: u32)
    requires
        mem.len() >= 24,
    ensures
        with_alloc_head(mem, head).len() == mem.len(),
        types::header_at(with_alloc_head(mem, head)).alloc_head == head,
        forall|i: int|
            0 <= i < mem.len() && !(20 <= i < 24) ==> #[trigger] with_alloc_head(mem, head)[i]
                == mem[i],
{
    bytes::lemma_u32_written(mem, 20, head);
}

/// Setting the status of a slot reaches the first four bytes of its record alone.
pub proof fn statuses_reach_their_bytes_alone(mem: Seq<u8>, slot: nat, status: u32)
    requires
        64 + 128 * slot + 4 <= mem.len(),
    ensures
        with_status(mem, slot, status).len() == mem.len(),
        bytes::u32_at(with_status(mem, slot, status), (64 + 128 * slot) as int) == status,
        forall|i: int|
            0 <= i < mem.len() && !(64 + 128 * slot <= i < 64 + 128 * slot + 4)
                ==> #[trigger] with_status(mem, slot, status)[i] == mem[i],
{
    bytes::lemma_u32_written(mem, types::record_at(slot), status);
}

/// All that follows the 24 header bytes of a fresh region is zero.
pub proof fn fresh_regions_are_zero_behind_the_header(
    len: nat,
    num_slots: nat,
    heap_offset: nat,
    heap_size: nat,
)
    requires
        len >= 24,
    ensures
        initial_image(len, num_slots, heap_offset, heap_size).len() == len,
        forall|i: int|
            24 <= i < len ==> #[trigger] initial_image(len, num_slots, heap_offset, heap_size)[i]
                == 0,
{
}

/// A mapping without a layout has its name and its length, and no slots.
pub proof fn plain_mappings_have_no_slots(name: Seq<char>, len: nat)
    ensures
        RegionView::plain(name, len).name == name,
        RegionView::plain(name, len).len == len,
        RegionView::plain(name, len).num_slots == 0,
        RegionView::plain(name, len).heap_offset == 0,
        RegionView::plain(name, len).heap_size == 0,
{
}

/// The texts of the errors name what did not fit.
pub proof fn region_errors_name_what_is_wrong(
    what: Seq<char>,
    name: Seq<char>,
    reason: Seq<char>,
    offset: u32,
    len: nat,
    size: nat,
    region: RegionView,
    config: ConfigView,
    header: ShmHeader,
)
    ensures
        heap_bounds_text(what, offset, len, size) == what + " out of bounds: offset="@
            + text::decimal(offset as nat) + " len="@ + text::decimal(len) + " heap_size="@
            + text::decimal(size),
        layout_too_large_text(region, len, config) == "region '"@ + region.name + "' maps "@
            + text::decimal(region.len) + " bytes but the requested layout needs "@ + text::decimal(
            len,
        ) + " (num_slots="@ + text::decimal(config.num_slots) + ", region_size="@ + text::decimal(
            config.region_size,
        )
            + "); an existing smaller mapping was adopted — stop every peer and remove the stale region before retrying"@,
        bad_magic_text(header.magic) == "bad magic: expected 0x"@ + text::hex8(0x534C4231)
            + ", got 0x"@ + text::hex8(header.magic),
        bad_version_text(header.version) == "bad version: expected "@ + text::decimal(2)
            + ", got "@ + text::decimal(header.version as nat),
        header_overrun_text(region, header) == "region '"@ + region.name + "' maps "@
            + text::decimal(region.len) + " bytes but its header describes a layout ending at "@
            + text::decimal((header.heap_offset + header.heap_size) as nat) + " (heap_offset="@
            + text::decimal(header.heap_offset as nat) + ", heap_size="@ + text::decimal(
            header.heap_size as nat,
        ) + "); the region was created against a larger region_size"@,
        system_error_text(what, name, reason) == what + " '"@ + name + "': "@ + reason,
{
}

} // verus!
