//! Registers, memory and threads.

use gdbstub_arch::x86::reg::id::X86_64CoreRegId;
use vstd::prelude::*;

use super::GdbTarget;
use crate::gdb::regs::{
    g_bytes, holds_snapshot, is_register, law_register_is_slice_of_file,
    lemma_snapshot_fixes_registers, overlaid, register, register_number, register_offset, TtdRegId,
    TtdRegisters,
};
use crate::gdb::xml::TargetFault;
use crate::target::DebugTarget;
use crate::ttd::types::TtdX64Regs;

verus! {

broadcast use Seq::lemma_filter_push;

/// A register of a thread was read: as much of it as fits stands at the start of
/// the buffer, and the result says how much that is. A thread without state is
/// a fault and leaves the buffer as it is.
pub open spec fn register_read(
    state: Option<(TtdX64Regs, u64)>,
    id: TtdRegId,
    before: Seq<u8>,
    after: Seq<u8>,
    r: Result<usize, TargetFault>,
) -> bool {
    match state {
        Some((regs, teb)) => r is Ok && exists|file: TtdRegisters|
            {
                let bytes = register(file, register_number(id) as int);
                &&& #[trigger] holds_snapshot(file, regs, teb)
                &&& after == overlaid(before, bytes)
                &&& r->Ok_0 == (if bytes.len() <= before.len() {
                    bytes.len()
                } else {
                    before.len()
                })
            },
        None => r == Err::<usize, TargetFault>(TargetFault::NonFatal) && after == before,
    }
}

/// The size of a register.
pub open spec fn register_width(id: TtdRegId) -> nat {
    match id {
        TtdRegId::Core(X86_64CoreRegId::Gpr(_)) => 8,
        TtdRegId::Core(X86_64CoreRegId::Rip) => 8,
        TtdRegId::Core(X86_64CoreRegId::St(_)) => 10,
        TtdRegId::Core(X86_64CoreRegId::Xmm(_)) => 16,
        TtdRegId::Core(_) => 4,
        TtdRegId::FsBase => 8,
        TtdRegId::GsBase => 8,
    }
}

/// Reading one register gives the bytes that the serialized register file of
/// the same thread holds for it, cut to the buffer, and leaves the rest of the
/// buffer alone.
pub proof fn law_register_read_agrees_with_the_file(
    regs: TtdX64Regs,
    teb: u64,
    file: TtdRegisters,
    id: TtdRegId,
    before: Seq<u8>,
    after: Seq<u8>,
    r: Result<usize, TargetFault>,
)
    requires
        is_register(id),
        holds_snapshot(file, regs, teb),
        register_read(Some((regs, teb)), id, before, after, r),
    ensures
        r is Ok,
        r->Ok_0 == (if register_width(id) <= before.len() {
            register_width(id)
        } else {
            before.len()
        }),
        after.len() == before.len(),
        ({
            let from = register_offset(register_number(id) as int);
            &&& after.take(r->Ok_0 as int) == g_bytes(file).subrange(from, from + r->Ok_0)
            &&& after.skip(r->Ok_0 as int) == before.skip(r->Ok_0 as int)
        }),
{
    let n = register_number(id) as int;
    let read = choose|other: TtdRegisters|
        {
            let bytes = register(other, n);
            &&& #[trigger] holds_snapshot(other, regs, teb)
            &&& after == overlaid(before, bytes)
            &&& r->Ok_0 == (if bytes.len() <= before.len() {
                bytes.len()
            } else {
                before.len()
            })
        };
    lemma_snapshot_fixes_registers(read, file, regs, teb, n);
    law_register_is_slice_of_file(file, n);
    let from = register_offset(n);
    let bytes = register(file, n);
    let k = r->Ok_0 as int;
    assert(g_bytes(file).subrange(from, from + k) =~= bytes.take(k));
    assert(after.take(k) =~= bytes.take(k));
    assert(after.skip(k) =~= before.skip(k));
}

impl<T: DebugTarget> GdbTarget<T> {
    /// All registers of a thread; an unknown thread is a fault.
    pub fn read_registers(&self, tid: u64) -> (r: Result<TtdRegisters, TargetFault>)
        requires
            !self@.runner.running(),
        ensures
            (match self@.backend().state_of(Some(tid)) {
                Some((regs, teb)) => r is Ok && holds_snapshot(r->Ok_0, regs, teb),
                None => r == Err::<TtdRegisters, TargetFault>(TargetFault::NonFatal),
            }),
    {
        match self.backend().thread_state(Some(tid)) {
            Some((regs, teb)) => Ok(TtdRegisters::from_ttd(&regs, teb)),
            None => Err(TargetFault::NonFatal),
        }
    }

    /// Registers cannot be written: the trace is read-only.
    pub fn write_registers(&self) -> (r: Result<(), TargetFault>)
        ensures
            r == Err::<(), TargetFault>(TargetFault::NonFatal),
    {
        Err(TargetFault::NonFatal)
    }

    /// One register of a thread, as far as it fits into `buf`; an unknown
    /// thread is a fault.
    pub fn read_register(&self, tid: u64, reg_id: TtdRegId, buf: &mut [u8]) -> (r: Result<
        usize,
        TargetFault,
    >)
        requires
            !self@.runner.running(),
            is_register(reg_id),
        ensures
            register_read(self@.backend().state_of(Some(tid)), reg_id, old(buf)@, final(buf)@, r),
    {
        match self.read_registers(tid) {
            Ok(regs) => Ok(regs.read_register(reg_id, buf)),
            Err(fault) => Err(fault),
        }
    }

    /// A register cannot be written: the trace is read-only.
    pub fn write_register(&self) -> (r: Result<(), TargetFault>)
        ensures
            r == Err::<(), TargetFault>(TargetFault::NonFatal),
    {
        Err(TargetFault::NonFatal)
    }

    /// Read memory. Not a single byte of a non-empty request is a fault.
    pub fn read_addrs(&self, start_addr: u64, data: &mut [u8]) -> (r: Result<usize, TargetFault>)
        requires
            !self@.runner.running(),
        ensures
            ({
                let got = self@.backend().memory_at(start_addr, old(data)@.len());
                &&& final(data)@.len() == old(data)@.len()
                &&& r is Err <==> got.len() == 0 && old(data)@.len() > 0
                &&& r matches Ok(n) ==> n == got.len() && n <= old(data)@.len()
                &&& got.len() <= old(data)@.len()
                &&& final(data)@.take(got.len() as int) == got
            }),
    {
        let n = self.backend().read_memory(start_addr, data);
        if n == 0 && data.len() > 0 {
            return Err(TargetFault::NonFatal);
        }
        Ok(n)
    }

    /// Memory cannot be written: the trace is read-only.
    pub fn write_addrs(&self) -> (r: Result<(), TargetFault>)
        ensures
            r == Err::<(), TargetFault>(TargetFault::NonFatal),
    {
        Err(TargetFault::NonFatal)
    }

    /// The active threads; 0 is no thread id and is left out.
    pub fn list_active_threads(&self) -> (r: Vec<u64>)
        requires
            !self@.runner.running(),
        ensures
            r@ == self@.backend().active_threads().filter(|tid: u64| tid != 0),
    {
        let ghost named = |tid: u64| tid != 0;
        let all = self.backend().active_thread_ids();
        let mut out: Vec<u64> = Vec::new();
        for i in 0..all.len()
            invariant
                named == (|tid: u64| tid != 0),
                out@ == all@.take(i as int).filter(named),
        {
            let tid = all[i];
            assert(all@.take(i as int + 1) =~= all@.take(i as int).push(tid));
            if tid != 0 {
                out.push(tid);
            }
        }
        assert(all@.take(all@.len() as int) =~= all@);
        out
    }
}

} // verus!
