//! What the entry and the return instrumentation of an allocation call do
//! to the shared tables.
use vstd::prelude::*;
use crate::correlation::{CorrelationTable, Key};
use crate::event::{MemEvent, Type};
use crate::stacks::StackTable;

verus! {

/// What the instrumentation sees of the call at the moment it fires.
pub struct Registers {
    /// Process and thread of the caller: the thread in the low 32 bits.
    pub pid_tgid: u64,
    pub parm1: u64,
    pub parm2: u64,
    pub parm3: u64,
    /// The return value; meaningful at a return only.
    pub rc: u64,
    /// The caller's user-space stack, innermost frame first; `None` where
    /// it cannot be had.
    pub stack: Option<Vec<u64>>,
}

/// The thread that `pid_tgid` names.
pub open spec fn thread_of(pid_tgid: u64) -> u32 {
    (pid_tgid % 0x1_0000_0000) as u32
}

/// The stack identifier that an entry record carries: the one the capture
/// gives, or zero where there is no stack or no room to keep one.
pub open spec fn entry_stack_id(stacks: StackTable, regs: Registers) -> i32 {
    if regs.stack.is_some() && stacks.next_id() > 0 {
        stacks.next_id()
    } else {
        0
    }
}

/// The record of a call at its entry: kind, thread and arguments, with no
/// return value yet.
pub open spec fn entry_event(ty: Type, regs: Registers, stackid: i32) -> MemEvent {
    MemEvent {
        ty,
        _reserve: 0,
        tid: thread_of(regs.pid_tgid),
        stackid,
        param1: regs.parm1,
        param2: regs.parm2,
        param3: regs.parm3,
        rc: 0,
    }
}

/// A pending record completed by the call's return value.
pub open spec fn completed(pending: MemEvent, rc: u64) -> MemEvent {
    MemEvent { rc, ..pending }
}

/// The pending calls after an entry under `key`: the record is filed, over
/// an earlier one if there is one, unless the key is new and no room is left.
pub open spec fn after_entry(
    pending: Map<Key, MemEvent>,
    room: bool,
    key: Key,
    event: MemEvent,
) -> Map<Key, MemEvent> {
    if pending.contains_key(key) || room {
        pending.insert(key, event)
    } else {
        pending
    }
}

/// The record that a return under `key` emits: the pending one, completed,
/// or none where nothing is pending.
pub open spec fn emitted_at_return(pending: Map<Key, MemEvent>, key: Key, rc: u64) -> Option<
    MemEvent,
> {
    if pending.contains_key(key) {
        Some(completed(pending[key], rc))
    } else {
        None
    }
}

/// The pending calls after a return under `key`.
pub open spec fn after_return(pending: Map<Key, MemEvent>, key: Key) -> Map<Key, MemEvent> {
    pending.remove(key)
}

/// That the stack table went from `before` to `after` while the stack of
/// `regs` was captured: changed by one capture, or untouched without a stack.
pub open spec fn stack_captured(before: StackTable, regs: Registers, after: StackTable) -> bool {
    match regs.stack {
        Some(frames) => before.captured(frames@, after, before.next_id()),
        None => after == before,
    }
}

fn thread(pid_tgid: u64) -> (tid: u32)
    ensures
        tid == thread_of(pid_tgid),
{
    assert(pid_tgid & 0xffff_ffff == pid_tgid % 0x1_0000_0000) by (bit_vector);
    (pid_tgid & 0xffff_ffff) as u32
}

fn capture_stack(stacks: &mut StackTable, regs: &Registers) -> (stackid: i32)
    requires
        old(stacks).wf(),
    ensures
        final(stacks).wf(),
        stack_captured(*old(stacks), *regs, *final(stacks)),
        stackid == entry_stack_id(*old(stacks), *regs),
{
    match &regs.stack {
        Some(frames) => {
            let copy = frames.clone();
            assert(copy@ =~= frames@);
            let id: i32 = stacks.capture(copy);
            if id > 0 {
                id
            } else {
                0
            }
        },
        None => 0,
    }
}

/// Entry instrumentation of a call of kind `ty`: captures the caller's
/// stack and files the call as pending under its kind and thread.
pub fn step(info: &mut CorrelationTable, stacks: &mut StackTable, regs: &Registers, ty: Type)
    requires
        old(info).wf(),
        old(stacks).wf(),
    ensures
        final(info).wf(),
        final(stacks).wf(),
        final(info).capacity() == old(info).capacity(),
        stack_captured(*old(stacks), *regs, *final(stacks)),
        final(info)@ == after_entry(
            old(info)@,
            old(info).pending() < old(info).capacity(),
            (Key { ty, tid: thread_of(regs.pid_tgid) }),
            entry_event(ty, *regs, entry_stack_id(*old(stacks), *regs)),
        ),
{
    let tid: u32 = thread(regs.pid_tgid);
    let key = Key { ty, tid };
    let stackid: i32 = capture_stack(stacks, regs);
    let event = MemEvent {
        ty,
        _reserve: 0,
        tid,
        stackid,
        param1: regs.parm1,
        param2: regs.parm2,
        param3: regs.parm3,
        rc: 0,
    };
    info.put(key, event);
}

/// Return instrumentation of a call of kind `ty`: takes the pending record
/// of this kind and thread out of the table and emits it with the return
/// value filled in. Where nothing is pending nothing is emitted.
pub fn record(info: &mut CorrelationTable, regs: &Registers, ty: Type) -> (emitted: Option<MemEvent>)
    requires
        old(info).wf(),
    ensures
        final(info).wf(),
        final(info).capacity() == old(info).capacity(),
        emitted == emitted_at_return(
            old(info)@,
            (Key { ty, tid: thread_of(regs.pid_tgid) }),
            regs.rc,
        ),
        final(info)@ == after_return(old(info)@, (Key { ty, tid: thread_of(regs.pid_tgid) })),
{
    let tid: u32 = thread(regs.pid_tgid);
    let key = Key { ty, tid };
    match info.take(key) {
        Some(pending) => Some(MemEvent { rc: regs.rc, ..pending }),
        None => None,
    }
}

/// Instrumentation of `free`, which has no return to wait for: captures
/// the caller's stack and emits the record at once, with no return value.
pub fn free(stacks: &mut StackTable, regs: &Registers) -> (emitted: MemEvent)
    requires
        old(stacks).wf(),
    ensures
        final(stacks).wf(),
        stack_captured(*old(stacks), *regs, *final(stacks)),
        emitted == entry_event(Type::Free, *regs, entry_stack_id(*old(stacks), *regs)),
{
    let tid: u32 = thread(regs.pid_tgid);
    let stackid: i32 = capture_stack(stacks, regs);
    MemEvent {
        ty: Type::Free,
        _reserve: 0,
        tid,
        stackid,
        param1: regs.parm1,
        param2: regs.parm2,
        param3: regs.parm3,
        rc: 0,
    }
}

/// An entry that finds room, or an earlier entry under its key, followed by
/// the matching return, emits one record: the entry's, with the return's
/// value. A further return under the key emits nothing. Entries and returns
/// under other keys in between would leave this key's record alone.
pub proof fn lemma_entry_then_return(
    pending: Map<Key, MemEvent>,
    room: bool,
    key: Key,
    event: MemEvent,
    rc: u64,
)
    requires
        pending.contains_key(key) || room,
    ensures
        emitted_at_return(after_entry(pending, room, key, event), key, rc) == Some(
            completed(event, rc),
        ),
        emitted_at_return(
            after_return(after_entry(pending, room, key, event), key),
            key,
            rc,
        ).is_none(),
        forall|other: Key, room2: bool, e2: MemEvent|
            other != key ==> #[trigger] after_entry(
                after_entry(pending, room, key, event),
                room2,
                other,
                e2,
            )[key] == event,
        forall|other: Key|
            other != key ==> (#[trigger] after_return(
                after_entry(pending, room, key, event),
                other,
            ))[key] == event,
{
}

/// A second entry under a key whose first has not returned replaces the
/// pending record, whether or not room is left: the return emits the second
/// entry's record, and the first is never emitted.
pub proof fn lemma_second_entry_overwrites(
    pending: Map<Key, MemEvent>,
    room: bool,
    room_later: bool,
    key: Key,
    first: MemEvent,
    second: MemEvent,
    rc: u64,
)
    requires
        pending.contains_key(key) || room,
    ensures
        ({
            let twice = after_entry(after_entry(pending, room, key, first), room_later, key, second);
            &&& twice == after_entry(pending, room, key, second)
            &&& emitted_at_return(twice, key, rc) == Some(completed(second, rc))
            &&& emitted_at_return(after_return(twice, key), key, rc).is_none()
        }),
{
    let twice = after_entry(after_entry(pending, room, key, first), room_later, key, second);
    assert(twice =~= after_entry(pending, room, key, second));
}

} // verus!
