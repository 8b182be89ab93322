//! What holds of the controller whatever the operating system answers.
//!
//! Each statement here is about the scripts of the tracing protocol, which
//! are what the contracts of the controller's operations are written in. So
//! each holds of every run of the operation it speaks of.

use crate::breakpoints::{
    after_install, breakpoint_behind, disarmed, is_armed, Breakpoint,
};
use crate::protocol::{
    address_of, backtrace_at, exchange_at, in_entry, install_at, install_upto, launch_at,
    pass_at, patch_at, read_word_at, registers_at, resume_at, run_at, step_over_at, unwind_at,
    wait_at, Exchange,
};
use crate::status::{Status, TraceError};
use crate::symbols::SymbolTable;
use crate::word::{
    byte_at, lemma_patch_reads_back, lemma_patch_round_trip, lemma_with_byte_at, with_byte,
    word_base, word_offset, TRAP_BYTE,
};
use vstd::prelude::*;

verus! {

/// Resuming with no regard to breakpoints: the registers are read, and the
/// debuggee runs freely until its next event.
pub open spec fn plain_resume_at(h: Seq<Exchange>, pos: int) -> Option<
    (int, Result<Status, TraceError>),
> {
    match registers_at(h, pos) {
        Some((read, Ok(regs))) => match address_of(regs.0) {
            Ok(_) => run_at(h, read),
            Err(e) => Some((read, Err(e))),
        },
        Some((read, Err(e))) => Some((read, Err(e))),
        None => None,
    }
}

/// With no breakpoint armed, resuming is resuming with no regard to
/// breakpoints: the same requests are sent and the same status comes back.
pub proof fn lemma_resume_without_breakpoints(
    h: Seq<Exchange>,
    pos: int,
    entries: Seq<Breakpoint>,
)
    requires
        forall|addr: usize| !is_armed(entries, addr),
    ensures
        resume_at(h, pos, entries) == plain_resume_at(h, pos),
{
    assert forall|rip: usize| breakpoint_behind(entries, rip) is None by {
        if rip >= 1 {
            assert(!is_armed(entries, (rip - 1) as usize));
        }
    }
}

/// An empty table arms no breakpoint, so resuming with it is resuming with no
/// regard to breakpoints.
pub proof fn lemma_resume_with_empty_table(h: Seq<Exchange>, pos: int)
    ensures
        resume_at(h, pos, Seq::<Breakpoint>::empty()) == plain_resume_at(h, pos),
{
    lemma_resume_without_breakpoints(h, pos, Seq::<Breakpoint>::empty());
}

/// A debuggee that stands right behind an armed breakpoint is never told to
/// run freely from there with the trap in its way. If the resume tells it to
/// continue at all, then before that, in this order: the displaced byte was
/// written back at the breakpoint's address, the instruction pointer was set
/// to that address, the debuggee ran exactly one instruction and was waited
/// for, it had not ended, and the trap was written at the address again. So
/// the stop that follows is not the same trap hit a second time, and the
/// breakpoint is armed for the next pass.
pub proof fn lemma_resume_passes_breakpoint(
    h: Seq<Exchange>,
    pos: int,
    entries: Seq<Breakpoint>,
    rip: usize,
    rbp: u64,
    addr: usize,
    original: u8,
    at: int,
)
    requires
        0 <= pos,
        resume_at(h, pos, entries) is Some,
        exchange_at(h, pos) == Some(Exchange::ReadRegisters(Ok((rip as u64, rbp)))),
        breakpoint_behind(entries, rip) == Some((addr, original)),
        pos <= at < resume_at(h, pos, entries).unwrap().0,
        h[at] is Continue,
    ensures
        addr + 1 == rip,
        pass_at(h, pos + 1, addr, original) == Some(
            (at, Ok::<Option<Status>, TraceError>(None)),
        ),
        ({
            &&& step_over_at(h, pos + 1, addr, original) matches Some((stepped, Ok(status)))
            &&& !status.terminal()
            &&& patch_at(h, stepped, addr, TRAP_BYTE) matches Some((armed, Ok(_)))
            &&& armed == at
        }),
{
    assert(address_of(rip as u64) == Ok::<usize, TraceError>(rip));
}

/// The instruction that is stepped over a breakpoint is the program's own:
/// the word written before the step holds the displaced byte at the
/// breakpoint's address, and the word written after it holds the trap there.
pub proof fn lemma_patch_writes_byte(h: Seq<Exchange>, pos: int, addr: usize, val: u8)
    requires
        patch_at(h, pos, addr, val) matches Some((_, Ok(_))),
    ensures
        exchange_at(h, pos + 1) matches Some(Exchange::WriteWord(at, word, Ok(_))) && at
            == word_base(addr as int) && byte_at(word, word_offset(addr as int) as u64) == val,
{
    let base = word_base(addr as int) as usize;
    let offset = word_offset(addr as int) as u64;
    let word = read_word_at(h, pos, base).unwrap().1.unwrap();
    lemma_patch_reads_back(word, offset, val);
}

/// Two patches of one address, the second writing back the byte that the
/// first displaced, leave the word as the first patch found it, bit for bit:
/// where the second patch reads the word that the first one wrote, it writes
/// the word that the first one read.
pub proof fn lemma_patch_round_trip_in_memory(
    h: Seq<Exchange>,
    first: int,
    second: int,
    addr: usize,
    val: u8,
)
    requires
        patch_at(h, first, addr, val) matches Some((_, Ok(displaced))) && patch_at(
            h,
            second,
            addr,
            displaced,
        ) matches Some((_, Ok(_))),
        exchange_at(h, first + 1) matches Some(Exchange::WriteWord(_, written, _))
            && exchange_at(h, second) matches Some(Exchange::ReadWord(_, Ok(read))) && read
            == written,
    ensures
        exchange_at(h, first) matches Some(Exchange::ReadWord(_, Ok(found))) && exchange_at(
            h,
            second + 1,
        ) matches Some(Exchange::WriteWord(_, restored, _)) && restored == found,
        patch_at(h, second, addr, patch_at(h, first, addr, val).unwrap().1.unwrap()).unwrap().1
            == Ok::<u8, TraceError>(val),
{
    let base = word_base(addr as int) as usize;
    let offset = word_offset(addr as int) as u64;
    let found = read_word_at(h, first, base).unwrap().1.unwrap();
    lemma_patch_round_trip(found, offset, val);
    lemma_patch_reads_back(found, offset, val);
}

/// A launch succeeds exactly if the child reports a first stop, whatever the
/// patches of the installation come to: an address that cannot be patched
/// does not fail the launch. It fails with the error of the wait where the
/// wait failed, and for a child that has ended with the status it ended with,
/// and for nothing else.
pub proof fn lemma_launch_succeeds_after_first_stop(
    h: Seq<Exchange>,
    pos: int,
    entries: Seq<Breakpoint>,
)
    requires
        launch_at(h, pos, entries) is Some,
    ensures
        wait_at(h, pos) is Some,
        match wait_at(h, pos).unwrap().1 {
            Ok(status) => if status.terminal() {
                launch_at(h, pos, entries).unwrap().1 == Err::<
                    (Seq<Breakpoint>, Seq<usize>),
                    TraceError,
                >(TraceError::Ended(status))
            } else {
                &&& launch_at(h, pos, entries).unwrap().1 matches Ok(installation)
                &&& install_at(h, wait_at(h, pos).unwrap().0, entries) == Some(
                    (launch_at(h, pos, entries).unwrap().0, installation.0, installation.1),
                )
            },
            Err(e) => launch_at(h, pos, entries).unwrap().1 == Err::<
                (Seq<Breakpoint>, Seq<usize>),
                TraceError,
            >(e),
        },
{
}

/// What the installation made of one entry: the trap byte was patched in at
/// its address, and the entry is armed with the displaced byte if that
/// succeeded, and is not armed and on the list of failures if it did not.
pub open spec fn entry_installed(
    h: Seq<Exchange>,
    pos: int,
    end: int,
    address: usize,
    after: Breakpoint,
    failed: Seq<usize>,
) -> bool {
    exists|from: int|
        pos <= from < end && patched_entry(
            #[trigger] patch_at(h, from, address, TRAP_BYTE),
            end,
            address,
            after,
            failed,
        )
}

/// The entry `after` is what the patch `patch` of `address`, which ended at
/// or before `end`, made of it.
pub open spec fn patched_entry(
    patch: Option<(int, Result<u8, TraceError>)>,
    end: int,
    address: usize,
    after: Breakpoint,
    failed: Seq<usize>,
) -> bool {
    &&& patch matches Some((to, result))
    &&& to <= end
    &&& after.address == address
    &&& match result {
        Ok(displaced) => after.original == Some(displaced),
        Err(_) => after.original is None && failed.contains(address),
    }
}

proof fn lemma_install_upto_covers(
    h: Seq<Exchange>,
    pos: int,
    entries: Seq<Breakpoint>,
    count: nat,
)
    requires
        0 <= pos,
        count <= entries.len(),
        forall|k: int| 0 <= k < entries.len() ==> (#[trigger] entries[k]).original is None,
        install_upto(h, pos, entries, count) is Some,
    ensures
        ({
            let (end, done, failed) = install_upto(h, pos, entries, count).unwrap();
            &&& pos <= end
            &&& done.len() == entries.len()
            &&& forall|k: int| count <= k < entries.len() ==> #[trigger] done[k] == entries[k]
            &&& forall|k: int|
                0 <= k < count ==> entry_installed(
                    h,
                    pos,
                    end,
                    entries[k].address,
                    #[trigger] done[k],
                    failed,
                )
            &&& forall|a: usize|
                failed.contains(a) ==> exists|k: int|
                    0 <= k < count && (#[trigger] entries[k]).address == a
                        && done[k].original is None
        }),
    decreases count,
{
    if count > 0 {
        let i = (count - 1) as int;
        lemma_install_upto_covers(h, pos, entries, i as nat);
        let (next, before, failed_before) = install_upto(h, pos, entries, i as nat).unwrap();
        let (end, done, failed) = install_upto(h, pos, entries, count).unwrap();
        let address = before[i].address;
        assert(before[i] == entries[i]);
        let (to, result) = patch_at(h, next, address, TRAP_BYTE).unwrap();
        assert(to == end);
        assert(next < end);
        assert forall|k: int| 0 <= k < count implies entry_installed(
            h,
            pos,
            end,
            entries[k].address,
            #[trigger] done[k],
            failed,
        ) by {
            if k < i {
                assert(entry_installed(
                    h,
                    pos,
                    next,
                    entries[k].address,
                    before[k],
                    failed_before,
                ));
                let from = choose|from: int|
                    pos <= from < next && patched_entry(
                        #[trigger] patch_at(h, from, entries[k].address, TRAP_BYTE),
                        next,
                        entries[k].address,
                        before[k],
                        failed_before,
                    );
                assert(done[k] == before[k]);
                if failed_before.contains(entries[k].address) {
                    let j = choose|j: int|
                        0 <= j < failed_before.len() && failed_before[j] == entries[k].address;
                    assert(failed[j] == entries[k].address);
                }
                assert(patched_entry(
                    patch_at(h, from, entries[k].address, TRAP_BYTE),
                    end,
                    entries[k].address,
                    done[k],
                    failed,
                ));
            } else {
                match result {
                    Ok(displaced) => {
                        assert(done[k] == after_install(before[i], displaced));
                    },
                    Err(_) => {
                        assert(failed == failed_before.push(address));
                        assert(failed[failed_before.len() as int] == address);
                    },
                }
                assert(patched_entry(
                    patch_at(h, next, address, TRAP_BYTE),
                    end,
                    address,
                    done[k],
                    failed,
                ));
            }
        }
        assert forall|a: usize| failed.contains(a) implies exists|k: int|
            0 <= k < count && (#[trigger] entries[k]).address == a && done[k].original is None by {
            let j = choose|j: int| 0 <= j < failed.len() && failed[j] == a;
            if j < failed_before.len() {
                assert(failed_before[j] == a);
                assert(failed_before.contains(a));
                let k = choose|k: int|
                    0 <= k < i && (#[trigger] entries[k]).address == a
                        && before[k].original is None;
                assert(done[k] == before[k]);
            } else {
                assert(result is Err);
                assert(entries[i].address == a && done[i].original is None);
            }
        }
    }
}

/// After the installation that follows a debuggee's first stop, every entry
/// of the table has had the trap byte patched in at its address, in table
/// order and whatever became of the entries before it. The table has the
/// same addresses as before. An entry is armed, with the byte displaced at
/// its address, exactly if its patch succeeded; the addresses reported as
/// failures are exactly those of the entries that are not armed.
pub proof fn lemma_install_covers_table(h: Seq<Exchange>, pos: int, entries: Seq<Breakpoint>)
    requires
        0 <= pos,
        install_at(h, pos, entries) is Some,
    ensures
        ({
            let (end, done, failed) = install_at(h, pos, entries).unwrap();
            &&& done.len() == entries.len()
            &&& forall|k: int|
                0 <= k < entries.len() ==> entry_installed(
                    h,
                    pos,
                    end,
                    entries[k].address,
                    #[trigger] done[k],
                    failed,
                )
            &&& forall|a: usize|
                failed.contains(a) ==> exists|k: int|
                    0 <= k < entries.len() && (#[trigger] done[k]).address == a
                        && done[k].original is None
        }),
{
    let fresh = disarmed(entries);
    lemma_install_upto_covers(h, pos, fresh, entries.len());
    let (end, done, failed) = install_at(h, pos, entries).unwrap();
    assert forall|a: usize| failed.contains(a) implies exists|k: int|
        0 <= k < entries.len() && (#[trigger] done[k]).address == a && done[k].original is None by {
        let k = choose|k: int|
            0 <= k < entries.len() && (#[trigger] fresh[k]).address == a
                && done[k].original is None;
        assert(entry_installed(h, pos, end, fresh[k].address, done[k], failed));
    }
    assert forall|k: int| 0 <= k < entries.len() implies entry_installed(
        h,
        pos,
        end,
        entries[k].address,
        #[trigger] done[k],
        failed,
    ) by {
        assert(fresh[k].address == entries[k].address);
    }
}

/// A stack walk emits no more frames than its budget, and every frame but the
/// last lies outside the entry function. A walk that ends without an error
/// has emitted a frame, and its last frame lies in the entry function.
pub proof fn lemma_unwind_ends_in_entry(
    h: Seq<Exchange>,
    pos: int,
    symbols: &SymbolTable,
    rip: usize,
    rbp: usize,
    budget: nat,
)
    requires
        unwind_at(h, pos, symbols, rip, rbp, budget) is Some,
    ensures
        ({
            let (end, frames, error) = unwind_at(h, pos, symbols, rip, rbp, budget).unwrap();
            &&& frames.len() <= budget
            &&& budget > 0 ==> frames.len() >= 1 && frames[0] == rip
            &&& forall|i: int|
                0 <= i < frames.len() - 1 ==> !in_entry(symbols, #[trigger] frames[i])
            &&& error is None ==> frames.len() >= 1 && in_entry(symbols, frames.last())
            &&& error is Some && frames.len() >= 1 ==> !in_entry(symbols, frames.last())
        }),
    decreases budget,
{
    if budget > 0 && !in_entry(symbols, rip) && rbp + 8 <= usize::MAX {
        if let Some((first, Ok(ret))) = read_word_at(h, pos, (rbp + 8) as usize) {
            if let Some((second, Ok(saved))) = read_word_at(h, first, rbp) {
                if let Ok(caller) = address_of(ret) {
                    if let Ok(frame) = address_of(saved) {
                        lemma_unwind_ends_in_entry(
                            h,
                            second,
                            symbols,
                            caller,
                            frame,
                            (budget - 1) as nat,
                        );
                        let (end, outer, error) = unwind_at(
                            h,
                            second,
                            symbols,
                            caller,
                            frame,
                            (budget - 1) as nat,
                        ).unwrap();
                        let frames = seq![rip] + outer;
                        assert(frames[0] == rip);
                        assert forall|i: int| 0 <= i < frames.len() - 1 implies !in_entry(
                            symbols,
                            #[trigger] frames[i],
                        ) by {
                            if i > 0 {
                                assert(frames[i] == outer[i - 1]);
                            }
                        }
                        if outer.len() > 0 {
                            assert(frames.last() == outer.last());
                        }
                    }
                }
            }
        }
    }
}

/// A backtrace has at most `limit` frames. One that ends without an error
/// ends with a frame in the entry function, and no frame before that one
/// lies in it.
pub proof fn lemma_backtrace_ends_in_entry(
    h: Seq<Exchange>,
    pos: int,
    symbols: &SymbolTable,
    limit: nat,
)
    requires
        backtrace_at(h, pos, symbols, limit) is Some,
    ensures
        ({
            let (end, frames, error) = backtrace_at(h, pos, symbols, limit).unwrap();
            &&& frames.len() <= limit
            &&& forall|i: int|
                0 <= i < frames.len() - 1 ==> !in_entry(symbols, #[trigger] frames[i])
            &&& error is None ==> frames.len() >= 1 && in_entry(symbols, frames.last())
        }),
{
    if let Some((read, Ok(regs))) = registers_at(h, pos) {
        if let Ok(rip) = address_of(regs.0) {
            if let Ok(rbp) = address_of(regs.1) {
                lemma_unwind_ends_in_entry(h, read, symbols, rip, rbp, limit);
            }
        }
    }
}

/// The word that the debuggee's memory holds at `addr` after the exchanges
/// from position `from` up to position `upto`, as far as they tell: the word
/// of the last write there that succeeded.
pub open spec fn last_written(h: Seq<Exchange>, from: int, upto: int, addr: usize) -> Option<u64>
    decreases upto - from,
{
    if upto <= from || upto > h.len() || from < 0 {
        None
    } else {
        match h[upto - 1] {
            Exchange::WriteWord(at, word, Ok(_)) => if at == addr {
                Some(word)
            } else {
                last_written(h, from, upto - 1, addr)
            },
            _ => last_written(h, from, upto - 1, addr),
        }
    }
}

/// The exchange at position `k`, if it is a read that succeeded, has read
/// the word that was last written at its address, where one was written
/// since position `from`.
pub open spec fn read_agrees(h: Seq<Exchange>, from: int, k: int) -> bool {
    match h[k] {
        Exchange::ReadWord(at, Ok(word)) => match last_written(h, from, k, at) {
            Some(written) => written == word,
            None => true,
        },
        _ => true,
    }
}

/// The debuggee's memory behaves as memory through the exchanges from
/// position `from` up to position `to`: a word that is read is the word that
/// was last written at its address. This is what holds of a debuggee that
/// stays stopped all the while.
pub open spec fn reads_what_was_written(h: Seq<Exchange>, from: int, to: int) -> bool {
    forall|k: int| from <= k < to && k < h.len() ==> #[trigger] read_agrees(h, from, k)
}

/// Whether the memory, as far as the exchanges from `from` up to `upto` tell,
/// holds the byte `val` at `addr`.
pub open spec fn byte_in_place(
    h: Seq<Exchange>,
    from: int,
    upto: int,
    addr: usize,
    val: u8,
) -> bool {
    last_written(h, from, upto, word_base(addr as int) as usize) matches Some(word) && byte_at(
        word,
        word_offset(addr as int) as u64,
    ) == val
}

/// Whether the memory, as far as the exchanges from `from` up to `upto` tell,
/// holds the trap byte at `addr`.
pub open spec fn trap_in_place(h: Seq<Exchange>, from: int, upto: int, addr: usize) -> bool {
    byte_in_place(h, from, upto, addr, TRAP_BYTE)
}

/// The one instruction that is run to pass a breakpoint is the program's
/// own, and the trap is back before the debuggee runs on: when the debuggee
/// is told to step, the byte last written at the breakpoint's address is the
/// displaced byte, and when the pass is over without an error and the
/// debuggee has not ended, it is the trap byte.
pub proof fn lemma_pass_swaps_bytes(
    h: Seq<Exchange>,
    pos: int,
    addr: usize,
    original: u8,
    at: int,
)
    requires
        0 <= pos,
        pass_at(h, pos, addr, original) is Some,
        pos <= at < pass_at(h, pos, addr, original).unwrap().0,
        h[at] is Step,
    ensures
        at == pos + 3,
        exchange_at(h, pos + 2) matches Some(Exchange::WriteInstructionPointer(to, Ok(_)))
            && to == addr,
        byte_in_place(h, pos, at, addr, original),
        pass_at(h, pos, addr, original) matches Some((end, Ok(None))) ==> trap_in_place(
            h,
            pos,
            end,
            addr,
        ),
{
    let base = word_base(addr as int) as usize;
    let offset = word_offset(addr as int) as u64;
    let read = read_word_at(h, pos, base).unwrap().1.unwrap();
    lemma_patch_reads_back(read, offset, original);
    assert(last_written(h, pos, pos + 3, base) == last_written(h, pos, pos + 2, base));
    assert(last_written(h, pos, pos + 2, base) == Some(with_byte(read, offset, original)));
    if let Some((end, Ok(None))) = pass_at(h, pos, addr, original) {
        let (stepped, _) = step_over_at(h, pos, addr, original).unwrap();
        lemma_last_written_after_patch(h, pos, stepped, addr, TRAP_BYTE, base);
        let again = read_word_at(h, stepped, base).unwrap().1.unwrap();
        lemma_patch_reads_back(again, offset, TRAP_BYTE);
    }
}

proof fn lemma_last_written_after_patch(
    h: Seq<Exchange>,
    from: int,
    pos: int,
    addr: usize,
    val: u8,
    other: usize,
)
    requires
        0 <= from <= pos,
        patch_at(h, pos, addr, val) is Some,
    ensures
        ({
            let (end, result) = patch_at(h, pos, addr, val).unwrap();
            let base = word_base(addr as int) as usize;
            &&& pos < end <= h.len()
            &&& other != base ==> last_written(h, from, end, other) == last_written(
                h,
                from,
                pos,
                other,
            )
            &&& result is Err ==> last_written(h, from, end, other) == last_written(
                h,
                from,
                pos,
                other,
            )
            &&& result is Ok ==> ({
                &&& read_word_at(h, pos, base) matches Some((_, Ok(read)))
                &&& last_written(h, from, end, base) == Some(
                    with_byte(read, word_offset(addr as int) as u64, val),
                )
            })
        }),
{
    let (end, result) = patch_at(h, pos, addr, val).unwrap();
    assert(last_written(h, from, pos + 1, other) == last_written(h, from, pos, other));
    if end == pos + 2 {
        assert(last_written(h, from, pos + 2, other) == match h[pos + 1] {
            Exchange::WriteWord(at, word, Ok(_)) => if at == other {
                Some(word)
            } else {
                last_written(h, from, pos + 1, other)
            },
            _ => last_written(h, from, pos + 1, other),
        });
    }
}

proof fn lemma_install_upto_leaves_traps(
    h: Seq<Exchange>,
    pos: int,
    entries: Seq<Breakpoint>,
    count: nat,
)
    requires
        0 <= pos,
        count <= entries.len(),
        forall|k: int| 0 <= k < entries.len() ==> (#[trigger] entries[k]).original is None,
        install_upto(h, pos, entries, count) is Some,
        reads_what_was_written(h, pos, install_upto(h, pos, entries, count).unwrap().0),
    ensures
        ({
            let (end, done, failed) = install_upto(h, pos, entries, count).unwrap();
            &&& pos <= end
            &&& done.len() == entries.len()
            &&& forall|k: int| count <= k < entries.len() ==> #[trigger] done[k] == entries[k]
            &&& forall|k: int|
                0 <= k < count ==> (#[trigger] done[k]).address == entries[k].address
            &&& forall|k: int|
                0 <= k < count && (#[trigger] done[k]).original is Some ==> trap_in_place(
                    h,
                    pos,
                    end,
                    entries[k].address,
                )
        }),
    decreases count,
{
    if count > 0 {
        let i = (count - 1) as int;
        let (next, before, failed_before) = install_upto(h, pos, entries, i as nat).unwrap();
        let (end, done, failed) = install_upto(h, pos, entries, count).unwrap();
        lemma_install_upto_covers(h, pos, entries, i as nat);
        assert(before[i] == entries[i]);
        let address = before[i].address;
        let (to, result) = patch_at(h, next, address, TRAP_BYTE).unwrap();
        lemma_last_written_after_patch(h, pos, next, address, TRAP_BYTE, 0);
        assert(next <= end);
        assert(reads_what_was_written(h, pos, next));
        lemma_install_upto_leaves_traps(h, pos, entries, i as nat);
        let base = word_base(address as int) as usize;
        let offset = word_offset(address as int) as u64;
        assert forall|k: int|
            0 <= k < count && (#[trigger] done[k]).original is Some implies trap_in_place(
            h,
            pos,
            end,
            entries[k].address,
        ) by {
            let other = word_base(entries[k].address as int) as usize;
            let place = word_offset(entries[k].address as int) as u64;
            lemma_last_written_after_patch(h, pos, next, address, TRAP_BYTE, other);
            if k < i {
                assert(done[k] == before[k]);
                assert(trap_in_place(h, pos, next, entries[k].address));
                if result is Ok && other == base {
                    let read = read_word_at(h, next, base).unwrap().1.unwrap();
                    assert(h[next] == Exchange::ReadWord(base, Ok(read)));
                    assert(read_agrees(h, pos, next));
                    assert(last_written(h, pos, next, base) == Some(read));
                    lemma_with_byte_at(read, offset, TRAP_BYTE, place);
                }
            } else {
                assert(result is Ok);
                let read = read_word_at(h, next, base).unwrap().1.unwrap();
                lemma_with_byte_at(read, offset, TRAP_BYTE, offset);
            }
        }
    }
}

/// Where the debuggee's memory behaves as memory while the breakpoints are
/// installed, the trap byte is in place at the address of every armed entry
/// once the installation is over: a later patch in the same word has kept the
/// trap of an earlier one.
pub proof fn lemma_install_leaves_traps(h: Seq<Exchange>, pos: int, entries: Seq<Breakpoint>)
    requires
        0 <= pos,
        install_at(h, pos, entries) is Some,
        reads_what_was_written(h, pos, install_at(h, pos, entries).unwrap().0),
    ensures
        ({
            let (end, done, failed) = install_at(h, pos, entries).unwrap();
            &&& done.len() == entries.len()
            &&& forall|k: int|
                0 <= k < entries.len() && (#[trigger] done[k]).original is Some ==> done[k].address
                    == entries[k].address && trap_in_place(h, pos, end, entries[k].address)
        }),
{
    let fresh = disarmed(entries);
    lemma_install_upto_leaves_traps(h, pos, fresh, entries.len());
    let (end, done, failed) = install_at(h, pos, entries).unwrap();
    assert forall|k: int|
        0 <= k < entries.len() && (#[trigger] done[k]).original is Some implies done[k].address
        == entries[k].address && trap_in_place(h, pos, end, entries[k].address) by {
        assert(fresh[k].address == entries[k].address);
    }
}

} // verus!
