//! The breakpoint table: the addresses at which the debuggee should stop, in
//! the order in which they were requested, each with the instruction byte that
//! the trap displaced while the breakpoint is armed in a live debuggee.

use crate::word::TRAP_BYTE;
use vstd::prelude::*;

verus! {

/// One requested breakpoint.
#[derive(Clone, Copy, Debug, PartialEq, Eq)]
pub struct Breakpoint {
    /// The absolute address of the instruction to stop at.
    pub address: usize,
    /// The byte that the trap instruction replaced, while the breakpoint is
    /// armed in the current debuggee; `None` while it is only requested.
    pub original: Option<u8>,
}

/// No two entries name the same address.
pub open spec fn distinct_addresses(entries: Seq<Breakpoint>) -> bool {
    forall|i: int, j: int|
        0 <= i < entries.len() && 0 <= j < entries.len() && i != j ==> (
        #[trigger] entries[i]).address != (#[trigger] entries[j]).address
}

/// Some entry names `addr`.
pub open spec fn has_address(entries: Seq<Breakpoint>, addr: usize) -> bool {
    exists|i: int| 0 <= i < entries.len() && (#[trigger] entries[i]).address == addr
}

/// Some entry names `addr` and is armed.
pub open spec fn is_armed(entries: Seq<Breakpoint>, addr: usize) -> bool {
    exists|i: int|
        0 <= i < entries.len() && (#[trigger] entries[i]).address == addr
            && entries[i].original is Some
}

/// The byte displaced at `addr`, where `addr` is armed.
pub open spec fn armed_byte(entries: Seq<Breakpoint>, addr: usize) -> Option<u8> {
    if is_armed(entries, addr) {
        let i = choose|i: int|
            0 <= i < entries.len() && (#[trigger] entries[i]).address == addr
                && entries[i].original is Some;
        entries[i].original
    } else {
        None
    }
}

/// The armed breakpoint that a debuggee stopped at `rip` has just run into:
/// its address, which is one below `rip` since the trap is one byte long, and
/// the byte that the trap displaced there.
pub open spec fn breakpoint_behind(entries: Seq<Breakpoint>, rip: usize) -> Option<(usize, u8)> {
    if rip >= 1 {
        match armed_byte(entries, (rip - 1) as usize) {
            Some(original) => Some(((rip - 1) as usize, original)),
            None => None,
        }
    } else {
        None
    }
}

/// The entry after a patch at its address has displaced the byte `displaced`.
///
/// An armed entry whose address already holds the trap keeps the byte it
/// recorded first: what was displaced is the trap of the earlier patch, not an
/// instruction of the program.
pub open spec fn after_install(entry: Breakpoint, displaced: u8) -> Breakpoint {
    if entry.original is Some && displaced == TRAP_BYTE {
        entry
    } else {
        Breakpoint { address: entry.address, original: Some(displaced) }
    }
}

/// The entries after a breakpoint has been requested at `addr`: a new entry
/// at the end for a new address, and no change for a known one.
pub open spec fn requested(entries: Seq<Breakpoint>, addr: usize) -> Seq<Breakpoint> {
    if has_address(entries, addr) {
        entries
    } else {
        entries.push(Breakpoint { address: addr, original: None })
    }
}

/// Whether `id` is the index of the entry for `addr`.
pub open spec fn is_entry_for(entries: Seq<Breakpoint>, id: int, addr: usize) -> bool {
    0 <= id < entries.len() && entries[id].address == addr
}

/// The entries after a patch at `addr` has displaced the byte `displaced`:
/// the entry for `addr` is updated, and the others stay.
pub open spec fn installed(entries: Seq<Breakpoint>, addr: usize, displaced: u8) -> Seq<
    Breakpoint,
> {
    Seq::new(
        entries.len(),
        |i: int|
            if entries[i].address == addr {
                after_install(entries[i], displaced)
            } else {
                entries[i]
            },
    )
}

/// Every entry of `entries`, requested but not armed.
pub open spec fn disarmed(entries: Seq<Breakpoint>) -> Seq<Breakpoint> {
    Seq::new(entries.len(), |i: int| Breakpoint { address: entries[i].address, original: None })
}

/// The addresses of `entries`, in order.
pub open spec fn addresses(entries: Seq<Breakpoint>) -> Seq<usize> {
    Seq::new(entries.len(), |i: int| entries[i].address)
}

/// The breakpoints of a session. It outlives every debuggee: an entry is made
/// when a breakpoint is requested and stays to the end.
pub struct BreakpointTable {
    entries: Vec<Breakpoint>,
}

impl View for BreakpointTable {
    type V = Seq<Breakpoint>;

    closed spec fn view(&self) -> Seq<Breakpoint> {
        self.entries@
    }
}

impl BreakpointTable {
    /// The table's invariant: each address has at most one entry.
    pub open spec fn wf(&self) -> bool {
        distinct_addresses(self@)
    }

    /// An empty table.
    pub fn new() -> (table: BreakpointTable)
        ensures
            table@ == Seq::<Breakpoint>::empty(),
            table.wf(),
    {
        BreakpointTable { entries: Vec::new() }
    }

    /// The number of entries.
    pub fn len(&self) -> (n: usize)
        ensures
            n == self@.len(),
    {
        self.entries.len()
    }

    /// The entry with index `id`.
    pub fn get(&self, id: usize) -> (entry: Breakpoint)
        requires
            id < self@.len(),
        ensures
            entry == self@[id as int],
    {
        self.entries[id]
    }

    /// The index of the entry for `addr`, if there is one.
    pub fn find(&self, addr: usize) -> (found: Option<usize>)
        ensures
            found is Some <==> has_address(self@, addr),
            found is Some ==> found.unwrap() < self@.len() && self@[found.unwrap() as int].address
                == addr,
            found is Some ==> forall|j: int|
                0 <= j < found.unwrap() ==> (#[trigger] self@[j]).address != addr,
    {
        let mut i: usize = 0;
        while i < self.entries.len()
            invariant
                i <= self.entries.len(),
                forall|j: int| 0 <= j < i ==> (#[trigger] self@[j]).address != addr,
            decreases self.entries.len() - i,
        {
            if self.entries[i].address == addr {
                return Some(i);
            }
            i += 1;
        }
        None
    }

    /// Requests a breakpoint at `addr` and returns the index of its entry. A
    /// new address gets a new entry at the end, not armed; an address that is
    /// already in the table keeps its entry as it is.
    pub fn set(&mut self, addr: usize) -> (id: usize)
        requires
            old(self).wf(),
        ensures
            final(self).wf(),
            id < final(self)@.len(),
            final(self)@[id as int].address == addr,
            final(self)@ == requested(old(self)@, addr),
            !has_address(old(self)@, addr) ==> id == old(self)@.len(),
    {
        match self.find(addr) {
            Some(id) => id,
            None => {
                let id = self.entries.len();
                self.entries.push(Breakpoint { address: addr, original: None });
                id
            },
        }
    }

    /// Records that a patch at the address of entry `id` has succeeded and has
    /// displaced the byte `displaced`.
    pub fn record_install(&mut self, id: usize, displaced: u8)
        requires
            old(self).wf(),
            id < old(self)@.len(),
        ensures
            final(self).wf(),
            final(self)@ == old(self)@.update(
                id as int,
                after_install(old(self)@[id as int], displaced),
            ),
    {
        let entry = self.entries[id];
        let keep = entry.original.is_some() && displaced == TRAP_BYTE;
        if !keep {
            self.entries.set(id, Breakpoint { address: entry.address, original: Some(displaced) });
        }
        assert(self@ =~= old(self)@.update(
            id as int,
            after_install(old(self)@[id as int], displaced),
        ));
    }

    /// Requests a breakpoint at `addr` whose patch has succeeded and has
    /// displaced the byte `displaced`, and returns the index of its entry.
    pub fn install(&mut self, addr: usize, displaced: u8) -> (id: usize)
        requires
            old(self).wf(),
        ensures
            final(self).wf(),
            is_entry_for(final(self)@, id as int, addr),
            final(self)@ == installed(requested(old(self)@, addr), addr, displaced),
            !has_address(old(self)@, addr) ==> id == old(self)@.len(),
    {
        let id = self.set(addr);
        self.record_install(id, displaced);
        assert(self@ =~= installed(requested(old(self)@, addr), addr, displaced));
        id
    }

    /// Forgets every displaced byte: the entries stay, none armed. This is the
    /// state of the table with respect to a debuggee that has just been
    /// created.
    pub fn disarm_all(&mut self)
        requires
            old(self).wf(),
        ensures
            final(self).wf(),
            final(self)@ == disarmed(old(self)@),
    {
        let ghost before = self@;
        let n = self.entries.len();
        let mut i: usize = 0;
        while i < n
            invariant
                n == self.entries@.len(),
                n == before.len(),
                i <= n,
                forall|j: int| 0 <= j < i ==> #[trigger] self.entries@[j] == disarmed(before)[j],
                forall|j: int| i <= j < n ==> #[trigger] self.entries@[j] == before[j],
            decreases n - i,
        {
            let address = self.entries[i].address;
            self.entries.set(i, Breakpoint { address, original: None });
            i += 1;
        }
        assert(self@ =~= disarmed(before));
    }

    /// The byte that the trap displaced at `addr`, if `addr` is armed.
    pub fn armed_at(&self, addr: usize) -> (byte: Option<u8>)
        requires
            self.wf(),
        ensures
            byte == armed_byte(self@, addr),
            byte is Some <==> is_armed(self@, addr),
    {
        match self.find(addr) {
            Some(id) => {
                let entry = self.entries[id];
                proof {
                    if entry.original is Some {
                        assert(is_armed(self@, addr));
                        let k = choose|k: int|
                            0 <= k < self@.len() && (#[trigger] self@[k]).address == addr
                                && self@[k].original is Some;
                        assert(k == id);
                    } else {
                        if is_armed(self@, addr) {
                            let k = choose|k: int|
                                0 <= k < self@.len() && (#[trigger] self@[k]).address == addr
                                    && self@[k].original is Some;
                            assert(k == id);
                        }
                    }
                }
                entry.original
            },
            None => None,
        }
    }
}

impl BreakpointTable {
    /// The armed breakpoint that a debuggee stopped at `rip` has just run
    /// into, if there is one: its address and the byte displaced there.
    pub fn hit_at(&self, rip: usize) -> (hit: Option<(usize, u8)>)
        requires
            self.wf(),
        ensures
            hit == breakpoint_behind(self@, rip),
    {
        if rip == 0 {
            return None;
        }
        match self.armed_at(rip - 1) {
            Some(original) => Some((rip - 1, original)),
            None => None,
        }
    }
}

/// With distinct addresses, the byte recorded for an address is the one in its
/// entry.
pub proof fn lemma_armed_byte_of_entry(entries: Seq<Breakpoint>, id: int)
    requires
        distinct_addresses(entries),
        0 <= id < entries.len(),
    ensures
        armed_byte(entries, entries[id].address) == entries[id].original,
        is_armed(entries, entries[id].address) <==> entries[id].original is Some,
        has_address(entries, entries[id].address),
{
    let addr = entries[id].address;
    if is_armed(entries, addr) {
        let k = choose|k: int|
            0 <= k < entries.len() && (#[trigger] entries[k]).address == addr
                && entries[k].original is Some;
        assert(k == id);
    }
}

/// A second installation at an armed address displaces the trap that the
/// first one wrote, and leaves the table as it was: the byte recorded first
/// stays.
pub proof fn lemma_reinstall_keeps_original(entries: Seq<Breakpoint>, addr: usize)
    requires
        distinct_addresses(entries),
        is_armed(entries, addr),
    ensures
        installed(requested(entries, addr), addr, TRAP_BYTE) == entries,
        armed_byte(installed(requested(entries, addr), addr, TRAP_BYTE), addr) == armed_byte(
            entries,
            addr,
        ),
{
    assert(has_address(entries, addr));
    assert(installed(requested(entries, addr), addr, TRAP_BYTE) =~= entries) by {
        assert forall|i: int| 0 <= i < entries.len() implies installed(entries, addr, TRAP_BYTE)[i]
            == entries[i] by {
            if entries[i].address == addr {
                lemma_armed_byte_of_entry(entries, i);
            }
        }
    }
}

/// The first installation at an address records the byte that it displaced.
pub proof fn lemma_install_records_byte(entries: Seq<Breakpoint>, addr: usize, displaced: u8)
    requires
        distinct_addresses(entries),
        !is_armed(entries, addr),
    ensures
        distinct_addresses(installed(requested(entries, addr), addr, displaced)),
        armed_byte(installed(requested(entries, addr), addr, displaced), addr) == Some(displaced),
{
    let wanted = requested(entries, addr);
    let after = installed(wanted, addr, displaced);
    assert(has_address(wanted, addr)) by {
        if has_address(entries, addr) {
        } else {
            assert(wanted[entries.len() as int].address == addr);
        }
    }
    let id = choose|i: int| 0 <= i < wanted.len() && (#[trigger] wanted[i]).address == addr;
    assert(wanted[id].original is None) by {
        if id < entries.len() {
            assert(entries[id] == wanted[id]);
        }
    }
    assert(after[id].address == addr);
    assert(distinct_addresses(after)) by {
        assert forall|i: int, j: int|
            0 <= i < after.len() && 0 <= j < after.len() && i != j implies (
        #[trigger] after[i]).address != (#[trigger] after[j]).address by {
            assert(after[i].address == wanted[i].address);
            assert(after[j].address == wanted[j].address);
            if i < entries.len() && j < entries.len() {
                assert(entries[i].address != entries[j].address);
            } else if i < entries.len() {
                assert(entries[i].address == wanted[i].address);
            } else if j < entries.len() {
                assert(entries[j].address == wanted[j].address);
            }
        }
    }
    lemma_armed_byte_of_entry(after, id);
}

} // verus!
