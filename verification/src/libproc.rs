//! What the kernel tells of a process by its number: its regions, its threads and their
//! names.
use vstd::prelude::*;
use vstd::slice::slice_subrange;

use crate::macho::{nul_position, until_nul};
use crate::probe_timing::sat_add;
use crate::text::{lossy, lossy_text};

verus! {

/// A region can be read.
pub const VM_PROT_READ: u32 = 0x1;

/// A region can be run.
pub const VM_PROT_EXECUTE: u32 = 0x4;

/// Asks for one thread, by its handle.
pub const PROC_PIDTHREADINFO: i32 = 5;

/// Asks for the threads of a process.
pub const PROC_PIDLISTTHREADS: i32 = 6;

/// Asks for the region at or behind an address, with the file that backs it.
pub const PROC_PIDREGIONPATHINFO: i32 = 8;

/// Asks for one thread, by its number.
pub const PROC_PIDTHREADID64INFO: i32 = 14;

/// A region of a process.
#[derive(Clone, Debug)]
pub struct Region {
    pub address: u64,
    pub size: u64,
    pub is_executable: bool,
    pub is_readable: bool,
    /// The file that backs it, or nothing.
    pub path: String,
}

/// A region, as the kernel tells of it.
pub struct RawRegion {
    pub protection: u32,
    pub address: u64,
    pub size: u64,
    /// The path, with a null byte behind it.
    pub path: Vec<u8>,
}

/// `region` is what `raw` tells of.
pub open spec fn is_region_of(raw: RawRegion, region: Region) -> bool {
    &&& region.address == raw.address
    &&& region.size == raw.size
    &&& region.is_executable == (raw.protection & VM_PROT_EXECUTE != 0)
    &&& region.is_readable == (raw.protection & VM_PROT_READ != 0)
    &&& region.path@ == lossy_text(until_nul(raw.path@))
}

/// The text in front of the first null byte.
fn text_until_nul(bytes: &[u8]) -> (s: String)
    ensures
        s@ == lossy_text(until_nul(bytes@)),
{
    let n: usize = nul_position(bytes);
    lossy(slice_subrange(bytes, 0, n))
}

/// A region, from what the kernel tells of it.
pub fn region_of(raw: &RawRegion) -> (r: Region)
    ensures
        is_region_of(*raw, r),
{
    Region {
        address: raw.address,
        size: raw.size,
        is_executable: raw.protection & VM_PROT_EXECUTE != 0,
        is_readable: raw.protection & VM_PROT_READ != 0,
        path: text_until_nul(raw.path.as_slice()),
    }
}

/// A question to the kernel about a process.
#[derive(Clone, Copy, Debug, PartialEq, Eq, Structural)]
pub struct PidQuery {
    pub pid: u32,
    pub flavor: i32,
    pub arg: u64,
}

/// A walk over the regions of a process, by ascending address.
pub struct RegionWalk {
    pid: u32,
    addr: u64,
    found: Vec<Region>,
}

impl RegionWalk {
    /// The process.
    pub closed spec fn target(self) -> u32 {
        self.pid
    }

    /// Where the walk stands.
    pub closed spec fn at(self) -> u64 {
        self.addr
    }

    /// The regions so far.
    pub closed spec fn regions(self) -> Seq<Region> {
        self.found@
    }

    /// Starts in front of all regions.
    pub fn new(pid: u32) -> (w: Self)
        ensures
            w.target() == pid,
            w.at() == 0,
            w.regions() == Seq::<Region>::empty(),
    {
        RegionWalk { pid, addr: 0, found: Vec::new() }
    }

    /// What to ask next.
    pub fn query(&self) -> (q: PidQuery)
        ensures
            q == (PidQuery {
                pid: self.target(),
                flavor: PROC_PIDREGIONPATHINFO,
                arg: self.at(),
            }),
    {
        PidQuery { pid: self.pid, flavor: PROC_PIDREGIONPATHINFO, arg: self.addr }
    }

    /// Takes the answer up: how much the kernel wrote, and the region. Returns whether to
    /// ask on. The walk ends where nothing was written, and where the kernel did not come
    /// any further.
    pub fn on_answer(&mut self, written: i32, raw: &RawRegion) -> (goes_on: bool)
        ensures
            final(self).target() == old(self).target(),
            goes_on == (written > 0 && sat_add(raw.address, raw.size) > old(self).at()),
            written <= 0 ==> final(self).regions() == old(self).regions(),
            written > 0 ==> final(self).regions().len() == old(self).regions().len() + 1
                && final(self).regions().drop_last() == old(self).regions() && is_region_of(
                *raw,
                final(self).regions().last(),
            ),
            final(self).at() == (if goes_on {
                sat_add(raw.address, raw.size)
            } else {
                old(self).at()
            }),
    {
        if written <= 0 {
            return false;
        }
        let ghost before = self.found@;
        self.found.push(region_of(raw));
        assert(self.found@.drop_last() =~= before);
        let next: u64 = raw.address.saturating_add(raw.size);
        if next <= self.addr {
            return false;
        }
        self.addr = next;
        true
    }

    /// The regions that were found.
    pub fn finish(self) -> (r: Vec<Region>)
        ensures
            r@ == self.regions(),
    {
        self.found
    }
}

/// What became of listing threads.
pub enum ThreadList {
    /// The kernel refused.
    Failed,
    /// The list may go on: ask with room for so many.
    Grow(usize),
    Listed(Vec<u64>),
}

/// How many threads there is room for at first.
pub const FIRST_THREAD_ROOM: usize = 64;

/// Takes up a list of threads: how many bytes the kernel wrote, and what it wrote to. A
/// full list may lack threads.
pub fn list_thread_ids(written: i32, ids: Vec<u64>) -> (r: ThreadList)
    requires
        0 < ids@.len() <= usize::MAX / 2,
    ensures
        match r {
            ThreadList::Failed => written < 0,
            ThreadList::Grow(n) => written >= 0 && written as int / 8 == ids@.len() && n == 2
                * ids@.len(),
            ThreadList::Listed(out) => written >= 0 && written as int / 8 != ids@.len() && out@
                == ids@.take(
                if written as int / 8 < ids@.len() {
                    written as int / 8
                } else {
                    ids@.len() as int
                },
            ),
        },
{
    if written < 0 {
        return ThreadList::Failed;
    }
    let room: usize = ids.len();
    let count: usize = (written as u32 / 8) as usize;
    if count == room {
        return ThreadList::Grow(room * 2);
    }
    let mut ids = ids;
    if count < room {
        ids.truncate(count);
    }
    assert(ids@ =~= ids@.take(ids@.len() as int));
    ThreadList::Listed(ids)
}

/// Asks for the threads of a process.
pub fn thread_list_query(pid: u32) -> (q: PidQuery)
    ensures
        q == (PidQuery { pid, flavor: PROC_PIDLISTTHREADS, arg: 0 }),
{
    PidQuery { pid, flavor: PROC_PIDLISTTHREADS, arg: 0 }
}

/// Asks for a thread by its handle, for its name.
pub fn thread_name(pid: u32, tid: u64) -> (q: PidQuery)
    ensures
        q == (PidQuery { pid, flavor: PROC_PIDTHREADINFO, arg: tid }),
{
    PidQuery { pid, flavor: PROC_PIDTHREADINFO, arg: tid }
}

/// Asks for a thread by the number that samples carry, for its name.
pub fn thread_name_by_id(pid: u32, thread_id: u64) -> (q: PidQuery)
    ensures
        q == (PidQuery { pid, flavor: PROC_PIDTHREADID64INFO, arg: thread_id }),
{
    PidQuery { pid, flavor: PROC_PIDTHREADID64INFO, arg: thread_id }
}

/// There is no such thread.
#[derive(Clone, Copy, Debug, PartialEq, Eq, Structural)]
pub struct NoThread;

/// The name in the answer about a thread: how much the kernel wrote, and the field of the
/// name. A thread may have none.
pub fn thread_name_of(written: i32, name: &[u8]) -> (r: Result<Option<String>, NoThread>)
    ensures
        match r {
            Err(_) => written <= 0,
            Ok(None) => written > 0 && until_nul(name@).len() == 0,
            Ok(Some(s)) => written > 0 && until_nul(name@).len() > 0 && s@ == lossy_text(
                until_nul(name@),
            ),
        },
{
    if written <= 0 {
        return Err(NoThread);
    }
    let n: usize = nul_position(name);
    assert(until_nul(name@).len() == n);
    if n == 0 {
        Ok(None)
    } else {
        Ok(Some(lossy(slice_subrange(name, 0, n))))
    }
}

/// The law of regions: each lies where the kernel says, and is readable and executable where the bits
/// of its protection say so, each of them by itself.
pub proof fn regions_show_their_protection(raw: RawRegion, region: Region)
    requires
        is_region_of(raw, region),
    ensures
        region.address == raw.address,
        region.size == raw.size,
        region.is_readable == (raw.protection % 2 == 1),
        region.is_executable == ((raw.protection / 4) % 2 == 1),
{
    let p = raw.protection;
    assert((p & 1 != 0) == (p % 2 == 1)) by (bit_vector);
    assert((p & 4 != 0) == ((p / 4) % 2 == 1)) by (bit_vector);
}

} // verus!
