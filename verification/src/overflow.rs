//! Overflow regions: separate mappings for bodies that do not fit inline.
//!
//! The operating system is reached through the functions of a [`Mapper`]; what
//! is done with their answers is decided here.

use vstd::prelude::*;
use vstd::slice::slice_to_vec;
use vstd::string::StringExecFns;

use crate::bytes;
use crate::config::{ConfigView, Side, SlotBusConfig};
use crate::error::{ErrorView, SlotBusError};
use crate::region::ShmRegion;
use crate::text;
use crate::types::MAX_OVERFLOW_GENERATION;

verus! {

/// The operating system's part in making overflow regions.
pub struct Mapper<C, Q, F> {
    /// One attempt to create a mapping of the given name and size: the mapping,
    /// or `None` where the name is taken. The flag tells a second attempt, after
    /// something was reclaimed, from a first one.
    pub create: C,
    /// Tries to remove what a dead process has left under a name, and tells
    /// whether something was removed.
    pub reclaim: Q,
    /// Copies data into a mapping that was created under the given name.
    pub fill: F,
}

/// An attempt to create may end like this.
pub open spec fn attempted<R, C: Fn(&str, usize, bool) -> Result<Option<R>, SlotBusError>>(
    create: C,
    name: Seq<char>,
    size: usize,
    again: bool,
    res: Result<Option<R>, SlotBusError>,
) -> bool {
    exists|n: &str| n@ == name && #[trigger] create.ensures((n, size, again), res)
}

/// An attempt to reclaim may end like this.
pub open spec fn reclaimed<Q: Fn(&str) -> bool>(reclaim: Q, name: Seq<char>, res: bool) -> bool {
    exists|n: &str| n@ == name && #[trigger] reclaim.ensures((n,), res)
}

/// Copying data into a new mapping may end like this.
pub open spec fn filled<R, F: Fn(&R, &str, &[u8]) -> Result<(), SlotBusError>>(
    fill: F,
    region: R,
    name: Seq<char>,
    data: Seq<u8>,
    res: Result<(), SlotBusError>,
) -> bool {
    exists|n: &str, d: &[u8]|
        n@ == name && d@ == data && #[trigger] fill.ensures((&region, n, d), res)
}

/// An exclusive create may end like this: as its first attempt does, or, where
/// the name was taken and something was reclaimed, as the second attempt does.
pub open spec fn created_exclusively<
    R,
    C: Fn(&str, usize, bool) -> Result<Option<R>, SlotBusError>,
    Q: Fn(&str) -> bool,
>(create: C, reclaim: Q, name: Seq<char>, size: usize, res: Result<Option<R>, SlotBusError>) -> bool {
    ||| !(res matches Ok(None)) && attempted(create, name, size, false, res)
    ||| {
        &&& attempted::<R, C>(create, name, size, false, Ok(None))
        &&& reclaimed(reclaim, name, false)
        &&& res matches Ok(None)
    }
    ||| {
        &&& attempted::<R, C>(create, name, size, false, Ok(None))
        &&& reclaimed(reclaim, name, true)
        &&& attempted(create, name, size, true, res)
    }
}

/// `create` and `reclaim` can be called as an exclusive create of this name and
/// size calls them: a first attempt; `reclaim` where the name was taken; a
/// second attempt where something was reclaimed.
pub open spec fn can_create<
    R,
    C: Fn(&str, usize, bool) -> Result<Option<R>, SlotBusError>,
    Q: Fn(&str) -> bool,
>(create: C, reclaim: Q, name: Seq<char>, size: usize) -> bool {
    &&& forall|n: &str| n@ == name ==> #[trigger] create.requires((n, size, false))
    &&& forall|n: &str|
        n@ == name && create.ensures((n, size, false), Ok(None)) ==> #[trigger] reclaim.requires(
            (n,),
        )
    &&& forall|n: &str|
        n@ == name && create.ensures((n, size, false), Ok(None)) && reclaim.ensures((n,), true)
            ==> #[trigger] create.requires((n, size, true))
}

/// `open` can be called with this name.
pub open spec fn can_open<R, O: Fn(&str) -> Result<R, SlotBusError>>(
    open: O,
    name: Seq<char>,
) -> bool {
    forall|n: &str| n@ == name ==> #[trigger] open.requires((n,))
}

/// Opening a mapping may end like this.
pub open spec fn opened<R, O: Fn(&str) -> Result<R, SlotBusError>>(
    open: O,
    name: Seq<char>,
    res: Result<R, SlotBusError>,
) -> bool {
    exists|n: &str| n@ == name && #[trigger] open.ensures((n,), res)
}

/// A payload length rounded up to whole pages of 4 KiB, one page at least.
pub open spec fn overflow_size(len: nat) -> nat {
    if len == 0 {
        4096
    } else {
        (len + 4095) as nat / 4096 * 4096
    }
}

/// The names that `name_for` may give to the generations.
pub open spec fn names_from<N: Fn(u8) -> String>(name_for: N) -> spec_fn(u8, Seq<char>) -> bool {
    |generation: u8, name: Seq<char>|
        exists|s: String| s@ == name && #[trigger] name_for.ensures((generation,), s)
}

/// The names of the generations of one side of a slot.
pub open spec fn names_of_slot(config: ConfigView, side: Side, slot: nat) -> spec_fn(
    u8,
    Seq<char>,
) -> bool {
    |generation: u8, name: Seq<char>| name == config.overflow_name_gen(side, slot, generation)
}

/// The name of a generation is taken.
pub open spec fn generation_taken<
    R,
    C: Fn(&str, usize, bool) -> Result<Option<R>, SlotBusError>,
    Q: Fn(&str) -> bool,
    F: Fn(&R, &str, &[u8]) -> Result<(), SlotBusError>,
>(
    os: Mapper<C, Q, F>,
    names: spec_fn(u8, Seq<char>) -> bool,
    data: Seq<u8>,
    generation: u8,
) -> bool {
    exists|name: Seq<char>|
        {
            &&& #[trigger] names(generation, name)
            &&& created_exclusively::<R, C, Q>(
                os.create,
                os.reclaim,
                name,
                overflow_size(data.len()) as usize,
                Ok(None),
            )
        }
}

/// The names of the first `count` generations are taken.
pub open spec fn names_taken<
    R,
    C: Fn(&str, usize, bool) -> Result<Option<R>, SlotBusError>,
    Q: Fn(&str) -> bool,
    F: Fn(&R, &str, &[u8]) -> Result<(), SlotBusError>,
>(
    os: Mapper<C, Q, F>,
    names: spec_fn(u8, Seq<char>) -> bool,
    data: Seq<u8>,
    count: nat,
) -> bool {
    forall|g: u8| g < count ==> #[trigger] generation_taken::<R, C, Q, F>(os, names, data, g)
}

/// The functions of `os` can be called as making an overflow region of this name
/// calls them: to create it, and to copy `data`, and nothing else, into a region
/// that was created.
pub open spec fn can_make<
    R,
    C: Fn(&str, usize, bool) -> Result<Option<R>, SlotBusError>,
    Q: Fn(&str) -> bool,
    F: Fn(&R, &str, &[u8]) -> Result<(), SlotBusError>,
>(os: Mapper<C, Q, F>, name: Seq<char>, data: Seq<u8>) -> bool {
    let size = overflow_size(data.len()) as usize;
    &&& can_create(os.create, os.reclaim, name, size)
    &&& forall|r: &R, n: &str, d: &[u8]|
        n@ == name && d@ == data && created_exclusively(
            os.create,
            os.reclaim,
            name,
            size,
            Ok(Some(*r)),
        ) ==> #[trigger] os.fill.requires((r, n, d))
}

/// The functions of `os` can be called as the search for a generation whose name
/// is not taken calls them: for a generation whose predecessors are all taken.
pub open spec fn can_search<
    R,
    C: Fn(&str, usize, bool) -> Result<Option<R>, SlotBusError>,
    Q: Fn(&str) -> bool,
    F: Fn(&R, &str, &[u8]) -> Result<(), SlotBusError>,
>(
    os: Mapper<C, Q, F>,
    names: spec_fn(u8, Seq<char>) -> bool,
    data: Seq<u8>,
) -> bool {
    forall|generation: u8, name: Seq<char>|
        {
            &&& #[trigger] names(generation, name)
            &&& generation <= MAX_OVERFLOW_GENERATION
            &&& names_taken::<R, C, Q, F>(os, names, data, generation as nat)
        } ==> can_make::<R, C, Q, F>(os, name, data)
}

/// The search for a generation whose name is not taken ended at `generation`:
/// every earlier name was taken, and this one was created and filled.
pub open spec fn won_generation<
    R,
    C: Fn(&str, usize, bool) -> Result<Option<R>, SlotBusError>,
    Q: Fn(&str) -> bool,
    F: Fn(&R, &str, &[u8]) -> Result<(), SlotBusError>,
>(
    os: Mapper<C, Q, F>,
    names: spec_fn(u8, Seq<char>) -> bool,
    data: Seq<u8>,
    generation: u8,
    region: R,
) -> bool {
    let size = overflow_size(data.len()) as usize;
    &&& generation <= MAX_OVERFLOW_GENERATION
    &&& names_taken::<R, C, Q, F>(os, names, data, generation as nat)
    &&& exists|name: Seq<char>|
        {
            &&& #[trigger] names(generation, name)
            &&& created_exclusively(os.create, os.reclaim, name, size, Ok(Some(region)))
            &&& filled(os.fill, region, name, data, Ok(()))
        }
}

/// At a generation the system refused, with `e`, to create or to fill the
/// mapping of this name.
pub open spec fn generation_refused<
    R,
    C: Fn(&str, usize, bool) -> Result<Option<R>, SlotBusError>,
    Q: Fn(&str) -> bool,
    F: Fn(&R, &str, &[u8]) -> Result<(), SlotBusError>,
>(
    os: Mapper<C, Q, F>,
    data: Seq<u8>,
    name: Seq<char>,
    e: SlotBusError,
) -> bool {
    let size = overflow_size(data.len()) as usize;
    ||| created_exclusively::<R, C, Q>(os.create, os.reclaim, name, size, Err(e))
    ||| exists|region: R|
        #![trigger filled(os.fill, region, name, data, Err(e))]
        {
            &&& created_exclusively(os.create, os.reclaim, name, size, Ok(Some(region)))
            &&& filled(os.fill, region, name, data, Err(e))
        }
}

/// The search for a generation whose name is not taken failed with `e`: at some
/// generation the system refused to create or to fill, or every name is taken.
pub open spec fn lost_generations<
    R,
    C: Fn(&str, usize, bool) -> Result<Option<R>, SlotBusError>,
    Q: Fn(&str) -> bool,
    F: Fn(&R, &str, &[u8]) -> Result<(), SlotBusError>,
>(
    os: Mapper<C, Q, F>,
    names: spec_fn(u8, Seq<char>) -> bool,
    data: Seq<u8>,
    e: SlotBusError,
) -> bool {
    ||| exists|generation: u8, name: Seq<char>|
        {
            &&& #[trigger] names(generation, name)
            &&& generation <= MAX_OVERFLOW_GENERATION
            &&& names_taken::<R, C, Q, F>(os, names, data, generation as nat)
            &&& generation_refused::<R, C, Q, F>(os, data, name, e)
        }
    ||| exists|last: Seq<char>|
        {
            &&& #[trigger] names(MAX_OVERFLOW_GENERATION, last)
            &&& names_taken::<R, C, Q, F>(os, names, data, 255)
            &&& e@ == ErrorView::SharedMemory(exhausted_text(last, data.len()))
        }
}

/// A search among some names is a search among more names.
proof fn lemma_won_among_more<
    R,
    C: Fn(&str, usize, bool) -> Result<Option<R>, SlotBusError>,
    Q: Fn(&str) -> bool,
    F: Fn(&R, &str, &[u8]) -> Result<(), SlotBusError>,
>(
    os: Mapper<C, Q, F>,
    names: spec_fn(u8, Seq<char>) -> bool,
    more: spec_fn(u8, Seq<char>) -> bool,
    data: Seq<u8>,
    generation: u8,
    region: R,
)
    requires
        won_generation(os, names, data, generation, region),
        forall|g: u8, n: Seq<char>| #[trigger] names(g, n) ==> more(g, n),
    ensures
        won_generation(os, more, data, generation, region),
{
    lemma_taken_among_more::<R, C, Q, F>(os, names, more, data, generation as nat);
    let size = overflow_size(data.len()) as usize;
    let name = choose|name: Seq<char>|
        {
            &&& #[trigger] names(generation, name)
            &&& created_exclusively(os.create, os.reclaim, name, size, Ok(Some(region)))
            &&& filled(os.fill, region, name, data, Ok(()))
        };
    assert(more(generation, name));
}

/// Names that are taken are taken among more names.
proof fn lemma_taken_among_more<
    R,
    C: Fn(&str, usize, bool) -> Result<Option<R>, SlotBusError>,
    Q: Fn(&str) -> bool,
    F: Fn(&R, &str, &[u8]) -> Result<(), SlotBusError>,
>(
    os: Mapper<C, Q, F>,
    names: spec_fn(u8, Seq<char>) -> bool,
    more: spec_fn(u8, Seq<char>) -> bool,
    data: Seq<u8>,
    count: nat,
)
    requires
        names_taken::<R, C, Q, F>(os, names, data, count),
        forall|g: u8, n: Seq<char>| #[trigger] names(g, n) ==> more(g, n),
    ensures
        names_taken::<R, C, Q, F>(os, more, data, count),
{
    assert forall|g: u8| g < count implies #[trigger] generation_taken::<R, C, Q, F>(
        os,
        more,
        data,
        g,
    ) by {
        assert(generation_taken::<R, C, Q, F>(os, names, data, g));
        let name = choose|name: Seq<char>|
            {
                &&& #[trigger] names(g, name)
                &&& created_exclusively::<R, C, Q>(
                    os.create,
                    os.reclaim,
                    name,
                    overflow_size(data.len()) as usize,
                    Ok(None),
                )
            };
        assert(more(g, name));
    }
}

/// A search that failed among some names failed among more names.
proof fn lemma_lost_among_more<
    R,
    C: Fn(&str, usize, bool) -> Result<Option<R>, SlotBusError>,
    Q: Fn(&str) -> bool,
    F: Fn(&R, &str, &[u8]) -> Result<(), SlotBusError>,
>(
    os: Mapper<C, Q, F>,
    names: spec_fn(u8, Seq<char>) -> bool,
    more: spec_fn(u8, Seq<char>) -> bool,
    data: Seq<u8>,
    e: SlotBusError,
)
    requires
        lost_generations::<R, C, Q, F>(os, names, data, e),
        forall|g: u8, n: Seq<char>| #[trigger] names(g, n) ==> more(g, n),
    ensures
        lost_generations::<R, C, Q, F>(os, more, data, e),
{
    if exists|generation: u8, name: Seq<char>|
        {
            &&& #[trigger] names(generation, name)
            &&& generation <= MAX_OVERFLOW_GENERATION
            &&& names_taken::<R, C, Q, F>(os, names, data, generation as nat)
            &&& generation_refused::<R, C, Q, F>(os, data, name, e)
        } {
        let (generation, name) = choose|generation: u8, name: Seq<char>|
            {
                &&& #[trigger] names(generation, name)
                &&& generation <= MAX_OVERFLOW_GENERATION
                &&& names_taken::<R, C, Q, F>(os, names, data, generation as nat)
                &&& generation_refused::<R, C, Q, F>(os, data, name, e)
            };
        lemma_taken_among_more::<R, C, Q, F>(os, names, more, data, generation as nat);
        assert(more(generation, name));
    } else {
        let last = choose|last: Seq<char>|
            {
                &&& #[trigger] names(MAX_OVERFLOW_GENERATION, last)
                &&& names_taken::<R, C, Q, F>(os, names, data, 255)
                &&& e@ == ErrorView::SharedMemory(exhausted_text(last, data.len()))
            };
        lemma_taken_among_more::<R, C, Q, F>(os, names, more, data, 255);
        assert(more(MAX_OVERFLOW_GENERATION, last));
    }
}

/// Reading `len` bytes from the mapping of a name may end like this.
pub open spec fn overflow_read<O: Fn(&str) -> Result<Vec<u8>, SlotBusError>>(
    open: O,
    name: Seq<char>,
    len: nat,
    res: Result<Vec<u8>, SlotBusError>,
) -> bool {
    ||| res matches Err(e) && opened::<Vec<u8>, O>(open, name, Err(e))
    ||| exists|mem: Vec<u8>|
        {
            &&& #[trigger] opened(open, name, Ok(mem))
            &&& match res {
                Ok(data) => len <= mem@.len() && data@ == mem@.take(len as int),
                Err(e) => {
                    &&& len > mem@.len()
                    &&& e@ == ErrorView::SharedMemory(too_small_text(name, len, mem@.len()))
                },
            }
        }
}

// ---- Error texts -------------------------------------------------------------

/// Every generation's name is taken.
pub open spec fn exhausted_text(last_name: Seq<char>, len: nat) -> Seq<char> {
    "exhausted all "@ + text::decimal(255) + " overflow generations for '"@ + last_name
        + "': need "@ + text::decimal(len)
        + " bytes (every generation is held by a live peer or an unreclaimable orphan)"@
}

/// An overflow name is taken.
pub open spec fn already_exists_text(name: Seq<char>, len: nat) -> Seq<char> {
    "overflow region '"@ + name + "' already exists: need "@ + text::decimal(len)
        + " bytes (held by a live peer, or an orphaned backing file that could not be reclaimed)"@
}

/// A mapping has no room for what is to be written.
pub open spec fn no_room_text(name: Seq<char>, need: nat, have: nat) -> Seq<char> {
    "overflow region '"@ + name + "' too small for write: need "@ + text::decimal(need) + ", have "@
        + text::decimal(have)
}

/// A mapping holds less than is to be read.
pub open spec fn too_small_text(name: Seq<char>, need: nat, have: nat) -> Seq<char> {
    "overflow region '"@ + name + "' too small: need "@ + text::decimal(need) + ", have "@
        + text::decimal(have)
}

impl ShmRegion {
    /// Create a named region, returning `Ok(None)` if the name is already
    /// taken. Never adopts a mapping created by someone else.
    ///
    /// If the name is taken only by what a dead process has left, that is
    /// removed and the create is retried once.
    pub fn create_exclusive<
        R,
        C: Fn(&str, usize, bool) -> Result<Option<R>, SlotBusError>,
        Q: Fn(&str) -> bool,
        F,
    >(os: &Mapper<C, Q, F>, name: &str, size: usize) -> (res: Result<Option<R>, SlotBusError>)
        requires
            can_create(os.create, os.reclaim, name@, size),
        ensures
            created_exclusively(os.create, os.reclaim, name@, size, res),
    {
        match (os.create)(name, size, false) {
            Ok(None) => {},
            other => return other,
        }
        if (os.reclaim)(name) {
            return (os.create)(name, size, true);
        }
        Ok(None)
    }

    /// Try to create; if already exists, open instead.
    ///
    /// The create is exclusive, so that what a dead process has left is
    /// reclaimed rather than adopted at its old size.
    pub fn create_or_open<
        R,
        C: Fn(&str, usize, bool) -> Result<Option<R>, SlotBusError>,
        Q: Fn(&str) -> bool,
        F,
        O: Fn(&str) -> Result<R, SlotBusError>,
    >(os: &Mapper<C, Q, F>, open: &O, name: &str, size: usize) -> (res: Result<R, SlotBusError>)
        requires
            can_create(os.create, os.reclaim, name@, size),
            created_exclusively::<R, C, Q>(os.create, os.reclaim, name@, size, Ok(None))
                ==> can_open(*open, name@),
        ensures
            ({
                ||| res matches Ok(region) && created_exclusively(
                    os.create,
                    os.reclaim,
                    name@,
                    size,
                    Ok(Some(region)),
                )
                ||| res matches Err(e) && created_exclusively::<R, C, Q>(
                    os.create,
                    os.reclaim,
                    name@,
                    size,
                    Err(e),
                )
                ||| {
                    &&& created_exclusively::<R, C, Q>(os.create, os.reclaim, name@, size, Ok(None))
                    &&& opened(*open, name@, res)
                }
            }),
    {
        match Self::create_exclusive(os, name, size) {
            Ok(Some(region)) => Ok(region),
            Ok(None) => open(name),
            Err(e) => Err(e),
        }
    }

    /// Round a payload length up to the mapping granularity (4KiB pages).
    pub fn overflow_size_for(len: usize) -> (r: usize)
        requires
            len + 4095 <= usize::MAX,
        ensures
            r == overflow_size(len as nat),
    {
        if len == 0 {
            4096
        } else {
            (len + 4095) / 4096 * 4096
        }
    }

    /// Create an overflow region and write data into it. Fails rather than
    /// adopting an existing same-name mapping.
    pub fn create_overflow<
        R,
        C: Fn(&str, usize, bool) -> Result<Option<R>, SlotBusError>,
        Q: Fn(&str) -> bool,
        F: Fn(&R, &str, &[u8]) -> Result<(), SlotBusError>,
    >(os: &Mapper<C, Q, F>, name: &str, data: &[u8]) -> (res: Result<R, SlotBusError>)
        requires
            data@.len() + 4095 <= usize::MAX,
            can_make::<R, C, Q, F>(*os, name@, data@),
        ensures
            ({
                let size = overflow_size(data@.len()) as usize;
                match res {
                    Ok(region) => {
                        &&& created_exclusively(
                            os.create,
                            os.reclaim,
                            name@,
                            size,
                            Ok(Some(region)),
                        )
                        &&& filled(os.fill, region, name@, data@, Ok(()))
                    },
                    Err(e) => {
                        ||| created_exclusively::<R, C, Q>(
                            os.create,
                            os.reclaim,
                            name@,
                            size,
                            Err(e),
                        )
                        ||| {
                            &&& created_exclusively::<R, C, Q>(
                                os.create,
                                os.reclaim,
                                name@,
                                size,
                                Ok(None),
                            )
                            &&& e@ == ErrorView::SharedMemory(
                                already_exists_text(name@, data@.len()),
                            )
                        }
                        ||| exists|region: R|
                            #![trigger filled(os.fill, region, name@, data@, Err(e))]
                            {
                                &&& created_exclusively(
                                    os.create,
                                    os.reclaim,
                                    name@,
                                    size,
                                    Ok(Some(region)),
                                )
                                &&& filled(os.fill, region, name@, data@, Err(e))
                            }
                    },
                }
            }),
    {
        let size: usize = Self::overflow_size_for(data.len());
        match Self::create_exclusive(os, name, size) {
            Ok(Some(region)) => match (os.fill)(&region, name, data) {
                Ok(done) => {
                    assert(done == ());
                    assert(filled(os.fill, region, name@, data@, Ok(done)));
                    Ok(region)
                },
                Err(e) => {
                    assert(filled(os.fill, region, name@, data@, Err(e)));
                    Err(e)
                },
            },
            Ok(None) => {
                let mut s = String::from_str("overflow region '").concat(name).concat(
                    "' already exists: need ",
                );
                text::push_usize(&mut s, data.len());
                s.append(
                    " bytes (held by a live peer, or an orphaned backing file that could not be reclaimed)",
                );
                Err(SlotBusError::SharedMemory(s))
            },
            Err(e) => Err(e),
        }
    }

    /// Create a *fresh* overflow region, advancing the generation until a name
    /// is found that no one else holds.
    ///
    /// `name_for(generation)` gives the name to try. Returns the region and the
    /// overflow marker to store in the slot, which is one more than the
    /// generation.
    pub fn create_overflow_fresh<
        R,
        C: Fn(&str, usize, bool) -> Result<Option<R>, SlotBusError>,
        Q: Fn(&str) -> bool,
        F: Fn(&R, &str, &[u8]) -> Result<(), SlotBusError>,
        N: Fn(u8) -> String,
    >(os: &Mapper<C, Q, F>, name_for: &N, data: &[u8]) -> (res: Result<(R, u8), SlotBusError>)
        requires
            data@.len() + 4095 <= usize::MAX,
            can_search::<R, C, Q, F>(*os, names_from(*name_for), data@),
            forall|g: u8|
                g <= MAX_OVERFLOW_GENERATION && names_taken::<R, C, Q, F>(
                    *os,
                    names_from(*name_for),
                    data@,
                    g as nat,
                ) ==> #[trigger] name_for.requires((g,)),
        ensures
            match res {
                Ok((region, marker)) => {
                    &&& marker > 0
                    &&& won_generation(
                        *os,
                        names_from(*name_for),
                        data@,
                        (marker - 1) as u8,
                        region,
                    )
                },
                Err(e) => lost_generations::<R, C, Q, F>(*os, names_from(*name_for), data@, e),
            },
    {
        let ghost names = names_from(*name_for);
        let size: usize = Self::overflow_size_for(data.len());
        let mut last_name = String::new();
        let mut marker: u8 = 0;
        while marker < 255
            invariant
                names == names_from(*name_for),
                size == overflow_size(data@.len()),
                can_search::<R, C, Q, F>(*os, names, data@),
                forall|g: u8|
                    g <= MAX_OVERFLOW_GENERATION && names_taken::<R, C, Q, F>(
                        *os,
                        names,
                        data@,
                        g as nat,
                    ) ==> #[trigger] name_for.requires((g,)),
                names_taken::<R, C, Q, F>(*os, names, data@, marker as nat),
                marker > 0 ==> names((marker - 1) as u8, last_name@),
            decreases 255 - marker,
        {
            let name = name_for(marker);
            assert(names(marker, name@));
            match Self::create_exclusive(os, name.as_str(), size) {
                Ok(Some(region)) => {
                    return match (os.fill)(&region, name.as_str(), data) {
                        Ok(done) => {
                            assert(done == ());
                            assert(filled(os.fill, region, name@, data@, Ok(done)));
                            Ok((region, marker + 1))
                        },
                        Err(e) => {
                            assert(filled(os.fill, region, name@, data@, Err(e)));
                            assert(generation_refused::<R, C, Q, F>(*os, data@, name@, e));
                            Err(e)
                        },
                    };
                },
                Ok(None) => {
                    assert(generation_taken::<R, C, Q, F>(*os, names, data@, marker));
                },
                Err(e) => {
                    assert(generation_refused::<R, C, Q, F>(*os, data@, name@, e));
                    return Err(e);
                },
            }
            last_name = name;
            marker = marker + 1;
        }
        let mut s = String::from_str("exhausted all ");
        text::push_decimal(&mut s, 255);
        s.append(" overflow generations for '");
        s.append(last_name.as_str());
        s.append("': need ");
        text::push_usize(&mut s, data.len());
        s.append(" bytes (every generation is held by a live peer or an unreclaimable orphan)");
        Err(SlotBusError::SharedMemory(s))
    }

    /// Create a fresh overflow region for one side of a slot.
    pub(crate) fn create_slot_overflow<
        R,
        C: Fn(&str, usize, bool) -> Result<Option<R>, SlotBusError>,
        Q: Fn(&str) -> bool,
        F: Fn(&R, &str, &[u8]) -> Result<(), SlotBusError>,
    >(
        os: &Mapper<C, Q, F>,
        config: &SlotBusConfig,
        side: Side,
        slot: usize,
        data: &[u8],
    ) -> (res: Result<(R, u8), SlotBusError>)
        requires
            data@.len() + 4095 <= usize::MAX,
            can_search::<R, C, Q, F>(*os, names_of_slot(config@, side, slot as nat), data@),
        ensures
            match res {
                Ok((region, marker)) => {
                    &&& marker > 0
                    &&& won_generation(
                        *os,
                        names_of_slot(config@, side, slot as nat),
                        data@,
                        (marker - 1) as u8,
                        region,
                    )
                },
                Err(e) => lost_generations::<R, C, Q, F>(
                    *os,
                    names_of_slot(config@, side, slot as nat),
                    data@,
                    e,
                ),
            },
    {
        let name_for = |generation: u8| -> (s: String)
            ensures
                s@ == config@.overflow_name_gen(side, slot as nat, generation),
            { config.overflow_name_gen(side, slot, generation) };
        let ghost names = names_from(name_for);
        let ghost of_slot = names_of_slot(config@, side, slot as nat);
        proof {
            assert forall|g: u8, n: Seq<char>| #[trigger] names(g, n) implies of_slot(g, n) by {}
            assert forall|g: u8, n: Seq<char>|
                {
                    &&& #[trigger] names(g, n)
                    &&& g <= MAX_OVERFLOW_GENERATION
                    &&& names_taken::<R, C, Q, F>(*os, names, data@, g as nat)
                } implies can_make::<R, C, Q, F>(*os, n, data@) by {
                lemma_taken_among_more::<R, C, Q, F>(*os, names, of_slot, data@, g as nat);
                assert(of_slot(g, n));
            }
        }
        let res = Self::create_overflow_fresh(os, &name_for, data);
        proof {
            if res is Ok {
                lemma_won_among_more(
                    *os,
                    names,
                    of_slot,
                    data@,
                    (res->Ok_0.1 - 1) as u8,
                    res->Ok_0.0,
                );
            } else {
                lemma_lost_among_more::<R, C, Q, F>(*os, names, of_slot, data@, res->Err_0);
            }
        }
        res
    }

    /// Copy `data` into a freshly created overflow region, bounds-checked.
    pub fn fill_overflow(mem: &mut [u8], name: &str, data: &[u8]) -> (res: Result<(), SlotBusError>)
        ensures
            match res {
                Ok(_) => {
                    &&& old(mem)@.len() >= data@.len()
                    &&& final(mem)@ == bytes::put(old(mem)@, 0, data@)
                },
                Err(e) => {
                    &&& old(mem)@.len() < data@.len()
                    &&& e@ == ErrorView::SharedMemory(
                        no_room_text(name@, data@.len(), old(mem)@.len()),
                    )
                    &&& final(mem)@ == old(mem)@
                },
            },
    {
        if mem.len() < data.len() {
            let mut s = String::from_str("overflow region '").concat(name).concat(
                "' too small for write: need ",
            );
            text::push_usize(&mut s, data.len());
            s.append(", have ");
            text::push_usize(&mut s, mem.len());
            return Err(SlotBusError::SharedMemory(s));
        }
        bytes::put_bytes(mem, 0, data);
        Ok(())
    }

    /// The first `len` bytes of an opened overflow region.
    pub fn overflow_payload(name: &str, len: usize, mem: &[u8]) -> (res: Result<
        Vec<u8>,
        SlotBusError,
    >)
        ensures
            match res {
                Ok(data) => len <= mem@.len() && data@ == mem@.take(len as int),
                Err(e) => {
                    &&& len > mem@.len()
                    &&& e@ == ErrorView::SharedMemory(
                        too_small_text(name@, len as nat, mem@.len()),
                    )
                },
            },
    {
        if len > mem.len() {
            let mut s = String::from_str("overflow region '").concat(name).concat(
                "' too small: need ",
            );
            text::push_usize(&mut s, len);
            s.append(", have ");
            text::push_usize(&mut s, mem.len());
            return Err(SlotBusError::SharedMemory(s));
        }
        Ok(slice_to_vec(&mem[0..len]))
    }

    /// Open an overflow region and read `len` bytes from it. `open` gives the
    /// bytes of the mapping of a name.
    pub fn read_overflow<O: Fn(&str) -> Result<Vec<u8>, SlotBusError>>(
        open: &O,
        name: &str,
        len: usize,
    ) -> (res: Result<Vec<u8>, SlotBusError>)
        requires
            can_open(*open, name@),
        ensures
            overflow_read(*open, name@, len as nat, res),
    {
        match open(name) {
            Ok(mem) => {
                assert(opened(*open, name@, Ok(mem)));
                Self::overflow_payload(name, len, mem.as_slice())
            },
            Err(e) => Err(e),
        }
    }
}

// ---- What searches and reads come to -----------------------------------------

/// An overflow region has the least number of whole pages of 4096 bytes that
/// holds its body, and one page for an empty one.
pub proof fn overflow_regions_are_whole_pages(len: nat)
    ensures
        overflow_size(len) % 4096 == 0,
        overflow_size(len) >= len,
        overflow_size(len) >= 4096,
        len > 0 ==> overflow_size(len) < len + 4096,
        len == 0 ==> overflow_size(len) == 4096,
{
}

/// An exclusive create ends in one of three ways. Where the first attempt met no
/// taken name, its outcome stands. Where it did and nothing was reclaimed, the
/// name is reported as taken. Where something was reclaimed, the outcome of the
/// second attempt stands, whatever it is.
pub proof fn exclusive_creates_retry_once<
    R,
    C: Fn(&str, usize, bool) -> Result<Option<R>, SlotBusError>,
    Q: Fn(&str) -> bool,
>(create: C, reclaim: Q, name: Seq<char>, size: usize, res: Result<Option<R>, SlotBusError>)
    requires
        created_exclusively(create, reclaim, name, size, res),
    ensures
        !(res matches Ok(None)) ==> (exists|n: &str|
            n@ == name && #[trigger] create.ensures((n, size, false), res)) || (exists|n: &str|
            n@ == name && #[trigger] create.ensures((n, size, true), res)),
        (forall|n: &str, r: Result<Option<R>, SlotBusError>|
            n@ == name && #[trigger] create.ensures((n, size, false), r) ==> !(r matches Ok(None)))
            ==> exists|n: &str| n@ == name && #[trigger] create.ensures((n, size, false), res),
        (forall|n: &str, r: Result<Option<R>, SlotBusError>|
            n@ == name && #[trigger] create.ensures((n, size, false), r) ==> r matches Ok(None))
            && (forall|n: &str, done: bool|
            n@ == name && #[trigger] reclaim.ensures((n,), done) ==> !done) ==> res matches Ok(None),
        (forall|n: &str, r: Result<Option<R>, SlotBusError>|
            n@ == name && #[trigger] create.ensures((n, size, false), r) ==> r matches Ok(None))
            && (forall|n: &str, done: bool|
            n@ == name && #[trigger] reclaim.ensures((n,), done) ==> done) ==> exists|n: &str|
            n@ == name && #[trigger] create.ensures((n, size, true), res),
{
    if attempted(create, name, size, false, res) {
        let n = choose|n: &str| n@ == name && #[trigger] create.ensures((n, size, false), res);
        assert(create.ensures((n, size, false), res));
    }
    if attempted(create, name, size, true, res) {
        let n = choose|n: &str| n@ == name && #[trigger] create.ensures((n, size, true), res);
        assert(create.ensures((n, size, true), res));
    }
    let taken: Result<Option<R>, SlotBusError> = Ok(None);
    if attempted(create, name, size, false, taken) {
        let n = choose|n: &str| n@ == name && #[trigger] create.ensures((n, size, false), taken);
        assert(create.ensures((n, size, false), taken));
    }
    if reclaimed(reclaim, name, true) {
        let n = choose|n: &str| n@ == name && #[trigger] reclaim.ensures((n,), true);
        assert(reclaim.ensures((n,), true));
    }
    if reclaimed(reclaim, name, false) {
        let n = choose|n: &str| n@ == name && #[trigger] reclaim.ensures((n,), false);
        assert(reclaim.ensures((n,), false));
    }
}

/// Where the system grants every mapping and every copy, the search for a
/// generation ends at the first one.
pub proof fn granted_searches_end_at_once<
    R,
    C: Fn(&str, usize, bool) -> Result<Option<R>, SlotBusError>,
    Q: Fn(&str) -> bool,
    F: Fn(&R, &str, &[u8]) -> Result<(), SlotBusError>,
>(
    os: Mapper<C, Q, F>,
    names: spec_fn(u8, Seq<char>) -> bool,
    data: Seq<u8>,
)
    requires
        forall|n: &str, size: usize, again: bool, r: Result<Option<R>, SlotBusError>| #[trigger]
            os.create.ensures((n, size, again), r) ==> (r matches Ok(Some(_))),
        forall|m: &R, n: &str, d: &[u8], r: Result<(), SlotBusError>| #[trigger]
            os.fill.ensures((m, n, d), r) ==> r is Ok,
    ensures
        forall|e: SlotBusError| !#[trigger] lost_generations::<R, C, Q, F>(os, names, data, e),
        forall|generation: u8, region: R| #[trigger]
            won_generation(os, names, data, generation, region) ==> generation == 0,
{
    assert forall|name: Seq<char>, size: usize, again: bool, r: Result<Option<R>, SlotBusError>|
        #[trigger] attempted(os.create, name, size, again, r) implies r matches Ok(Some(_)) by {
        let n = choose|n: &str| n@ == name && #[trigger] os.create.ensures((n, size, again), r);
        assert(os.create.ensures((n, size, again), r));
    }
    assert forall|region: R, name: Seq<char>, r: Result<(), SlotBusError>| #[trigger]
        filled(os.fill, region, name, data, r) implies r is Ok by {
        let (n, d) = choose|n: &str, d: &[u8]|
            n@ == name && d@ == data && #[trigger] os.fill.ensures((&region, n, d), r);
        assert(os.fill.ensures((&region, n, d), r));
    }
    assert(!generation_taken::<R, C, Q, F>(os, names, data, 0));
}

/// A search that succeeded ended at the first generation, of the 255, whose name
/// was not taken: a mapping of whole pages was created there and the data copied
/// into it, and the name of any earlier one was found taken.
pub proof fn searches_take_the_first_name_left<
    R,
    C: Fn(&str, usize, bool) -> Result<Option<R>, SlotBusError>,
    Q: Fn(&str) -> bool,
    F: Fn(&R, &str, &[u8]) -> Result<(), SlotBusError>,
>(
    os: Mapper<C, Q, F>,
    config: ConfigView,
    side: Side,
    slot: nat,
    data: Seq<u8>,
    generation: u8,
    region: R,
    size: usize,
    earlier: u8,
)
    requires
        won_generation(os, names_of_slot(config, side, slot), data, generation, region),
        size % 4096 == 0,
        data.len() <= size,
        data.len() > 0 ==> size < data.len() + 4096,
        data.len() == 0 ==> size == 4096,
    ensures
        generation <= 254,
        exists|n: &str, again: bool|
            n@ == config.overflow_name_gen(side, slot, generation) && #[trigger] os.create.ensures(
                (n, size, again),
                Ok(Some(region)),
            ),
        exists|n: &str, d: &[u8]|
            n@ == config.overflow_name_gen(side, slot, generation) && d@ == data
                && #[trigger] os.fill.ensures((&region, n, d), Ok(())),
        earlier < generation ==> exists|n: &str|
            n@ == config.overflow_name_gen(side, slot, earlier) && #[trigger] os.create.ensures(
                (n, size, false),
                Ok(None),
            ),
{
    assert(size == overflow_size(data.len()) as usize);
    let names = names_of_slot(config, side, slot);
    let name = config.overflow_name_gen(side, slot, generation);
    assert(names(generation, name));
    let made: Result<Option<R>, SlotBusError> = Ok(Some(region));
    if attempted(os.create, name, size, false, made) {
        let n = choose|n: &str| n@ == name && #[trigger] os.create.ensures((n, size, false), made);
        assert(os.create.ensures((n, size, false), made));
    } else {
        let n = choose|n: &str| n@ == name && #[trigger] os.create.ensures((n, size, true), made);
        assert(os.create.ensures((n, size, true), made));
    }
    let done: Result<(), SlotBusError> = Ok(());
    assert(filled(os.fill, region, name, data, done));
    let (n, d) = choose|n: &str, d: &[u8]|
        n@ == name && d@ == data && #[trigger] os.fill.ensures((&region, n, d), done);
    assert(os.fill.ensures((&region, n, d), done));
    let taken: Result<Option<R>, SlotBusError> = Ok(None);
    if earlier < generation {
        assert(generation_taken::<R, C, Q, F>(os, names, data, earlier));
        let name = config.overflow_name_gen(side, slot, earlier);
        assert(attempted(os.create, name, size, false, taken));
        let n = choose|n: &str| n@ == name && #[trigger] os.create.ensures((n, size, false), taken);
        assert(os.create.ensures((n, size, false), taken));
    }
}

/// A search that failed either met a refusal to create or to copy, which it
/// passes on, or found the name of any of the 255 generations taken.
pub proof fn failed_searches_met_a_refusal<
    R,
    C: Fn(&str, usize, bool) -> Result<Option<R>, SlotBusError>,
    Q: Fn(&str) -> bool,
    F: Fn(&R, &str, &[u8]) -> Result<(), SlotBusError>,
>(
    os: Mapper<C, Q, F>,
    config: ConfigView,
    side: Side,
    slot: nat,
    data: Seq<u8>,
    e: SlotBusError,
    any: u8,
)
    requires
        lost_generations::<R, C, Q, F>(os, names_of_slot(config, side, slot), data, e),
    ensures
        ({
            ||| exists|n: &str, size: usize, again: bool| #[trigger]
                os.create.ensures((n, size, again), Err(e))
            ||| exists|m: &R, n: &str, d: &[u8]|
                d@ == data && #[trigger] os.fill.ensures((m, n, d), Err(e))
            ||| {
                &&& e matches SlotBusError::SharedMemory(message)
                &&& message@ == exhausted_text(config.overflow_name_gen(side, slot, 254), data.len())
                &&& any <= 254 ==> exists|n: &str, size: usize|
                    n@ == config.overflow_name_gen(side, slot, any) && #[trigger] os.create.ensures(
                        (n, size, false),
                        Ok(None),
                    )
            }
        }),
{
    let size = overflow_size(data.len()) as usize;
    let names = names_of_slot(config, side, slot);
    let refused: Result<Option<R>, SlotBusError> = Err(e);
    let not_filled: Result<(), SlotBusError> = Err(e);
    let taken: Result<Option<R>, SlotBusError> = Ok(None);
    if exists|generation: u8, name: Seq<char>|
        {
            &&& #[trigger] names(generation, name)
            &&& generation <= MAX_OVERFLOW_GENERATION
            &&& names_taken::<R, C, Q, F>(os, names, data, generation as nat)
            &&& generation_refused::<R, C, Q, F>(os, data, name, e)
        } {
        let (generation, name) = choose|generation: u8, name: Seq<char>|
            {
                &&& #[trigger] names(generation, name)
                &&& generation <= MAX_OVERFLOW_GENERATION
                &&& names_taken::<R, C, Q, F>(os, names, data, generation as nat)
                &&& generation_refused::<R, C, Q, F>(os, data, name, e)
            };
        if created_exclusively::<R, C, Q>(os.create, os.reclaim, name, size, refused) {
            let again = !attempted(os.create, name, size, false, refused);
            let n = choose|n: &str|
                n@ == name && #[trigger] os.create.ensures((n, size, again), refused);
            assert(os.create.ensures((n, size, again), refused));
        } else {
            let region = choose|region: R|
                #![trigger filled(os.fill, region, name, data, not_filled)]
                {
                    &&& created_exclusively(os.create, os.reclaim, name, size, Ok(Some(region)))
                    &&& filled(os.fill, region, name, data, not_filled)
                };
            let (n, d) = choose|n: &str, d: &[u8]|
                n@ == name && d@ == data && #[trigger] os.fill.ensures((&region, n, d), not_filled);
            assert(os.fill.ensures((&region, n, d), not_filled));
        }
    } else {
        if any <= 254 {
            assert(generation_taken::<R, C, Q, F>(os, names, data, any));
            let name = config.overflow_name_gen(side, slot, any);
            assert(attempted(os.create, name, size, false, taken));
            let n = choose|n: &str|
                n@ == name && #[trigger] os.create.ensures((n, size, false), taken);
            assert(os.create.ensures((n, size, false), taken));
        }
    }
}

/// Reading from an overflow region gives the first bytes of what opening its name
/// gave, as many as were asked for. It fails where opening failed, with the same
/// error, and where there are fewer bytes.
pub proof fn overflow_reads_give_the_first_bytes<O: Fn(&str) -> Result<Vec<u8>, SlotBusError>>(
    open: O,
    name: Seq<char>,
    len: nat,
    res: Result<Vec<u8>, SlotBusError>,
)
    requires
        overflow_read(open, name, len, res),
    ensures
        match res {
            Ok(data) => exists|n: &str, mem: Vec<u8>|
                {
                    &&& n@ == name
                    &&& #[trigger] open.ensures((n,), Ok(mem))
                    &&& data@.len() == len <= mem@.len()
                    &&& forall|i: int| 0 <= i < len ==> #[trigger] data@[i] == mem@[i]
                },
            Err(e) => {
                ||| exists|n: &str| n@ == name && #[trigger] open.ensures((n,), Err(e))
                ||| exists|n: &str, mem: Vec<u8>|
                    {
                        &&& n@ == name
                        &&& #[trigger] open.ensures((n,), Ok(mem))
                        &&& mem@.len() < len
                        &&& e@ == ErrorView::SharedMemory(too_small_text(name, len, mem@.len()))
                    }
            },
        },
{
    let failed: Result<Vec<u8>, SlotBusError> = match res {
        Ok(data) => Ok(data),
        Err(e) => Err(e),
    };
    if res is Err && opened::<Vec<u8>, O>(open, name, failed) {
        let n = choose|n: &str| n@ == name && #[trigger] open.ensures((n,), failed);
        assert(open.ensures((n,), failed));
    } else {
        let mem = choose|mem: Vec<u8>|
            {
                &&& #[trigger] opened(open, name, Ok(mem))
                &&& match res {
                    Ok(data) => len <= mem@.len() && data@ == mem@.take(len as int),
                    Err(e) => {
                        &&& len > mem@.len()
                        &&& e@ == ErrorView::SharedMemory(too_small_text(name, len, mem@.len()))
                    },
                }
            };
        let got: Result<Vec<u8>, SlotBusError> = Ok(mem);
        let n = choose|n: &str| n@ == name && #[trigger] open.ensures((n,), got);
        assert(open.ensures((n,), got));
    }
}

/// A system that can be called with anything can be asked for overflow regions.
pub proof fn willing_systems_can_be_searched<
    R,
    C: Fn(&str, usize, bool) -> Result<Option<R>, SlotBusError>,
    Q: Fn(&str) -> bool,
    F: Fn(&R, &str, &[u8]) -> Result<(), SlotBusError>,
>(
    os: Mapper<C, Q, F>,
    names: spec_fn(u8, Seq<char>) -> bool,
    data: Seq<u8>,
)
    requires
        forall|n: &str, size: usize, again: bool| #[trigger] os.create.requires((n, size, again)),
        forall|n: &str| #[trigger] os.reclaim.requires((n,)),
        forall|m: &R, n: &str, d: &[u8]| #[trigger] os.fill.requires((m, n, d)),
    ensures
        can_search::<R, C, Q, F>(os, names, data),
{
}

/// The texts of the errors name the region and the sizes.
pub proof fn overflow_errors_name_region_and_sizes(name: Seq<char>, need: nat, have: nat)
    ensures
        exhausted_text(name, need) == "exhausted all "@ + text::decimal(255)
            + " overflow generations for '"@ + name + "': need "@ + text::decimal(need)
            + " bytes (every generation is held by a live peer or an unreclaimable orphan)"@,
        already_exists_text(name, need) == "overflow region '"@ + name + "' already exists: need "@
            + text::decimal(need)
            + " bytes (held by a live peer, or an orphaned backing file that could not be reclaimed)"@,
        no_room_text(name, need, have) == "overflow region '"@ + name
            + "' too small for write: need "@ + text::decimal(need) + ", have "@ + text::decimal(
            have,
        ),
        too_small_text(name, need, have) == "overflow region '"@ + name + "' too small: need "@
            + text::decimal(need) + ", have "@ + text::decimal(have),
{
}

} // verus!
