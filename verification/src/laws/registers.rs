//! Registers: the bytes that the client reads are those of the registers that it
//! asks for.

use gdbstub_arch::x86::reg::id::{X86SegmentRegId, X86_64CoreRegId, X87FpuInternalRegId};
use vstd::prelude::*;

use crate::bytes::{le_bytes, lemma_bytes_of_value, lemma_le_bytes_len};
use crate::gdb::regs::{
    g_bytes, holds_snapshot, law_register_is_slice_of_file, register, register_number,
    register_offset, TtdRegId, TtdRegisters,
};
use crate::gdb::target::GdbTarget;
use crate::gdb::xml::TargetFault;
use crate::target::DebugTarget;
use crate::ttd::types::TtdX64Regs;

verus! {

/// Byte `j` of a number, the lowest byte being byte 0.
pub open spec fn byte_of(n: nat, j: nat) -> u8
    decreases j,
{
    if j == 0 {
        (n % 256) as u8
    } else {
        byte_of(n / 256, (j - 1) as nat)
    }
}

/// A number stands in some bytes, the lowest byte first.
pub open spec fn number_at(bytes: Seq<u8>, at: int, width: nat, n: nat) -> bool {
    forall|j: int| 0 <= j < width ==> #[trigger] bytes[at + j] == byte_of(n, j as nat)
}

pub proof fn lemma_number_at(bytes: Seq<u8>, at: int, width: nat, n: nat)
    requires
        0 <= at,
        at + width <= bytes.len(),
        bytes.subrange(at, at + width) == le_bytes(n, width),
    ensures
        number_at(bytes, at, width, n),
{
    assert forall|j: int| 0 <= j < width implies #[trigger] bytes[at + j] == byte_of(
        n,
        j as nat,
    ) by {
        assert(bytes.subrange(at, at + width)[j] == bytes[at + j]);
        lemma_byte_of(n, width, j as nat);
    }
}

proof fn lemma_byte_of(n: nat, width: nat, j: nat)
    requires
        j < width,
    ensures
        le_bytes(n, width)[j as int] == byte_of(n, j),
    decreases j,
{
    broadcast use lemma_le_bytes_len;

    if j > 0 {
        lemma_byte_of(n / 256, (width - 1) as nat, (j - 1) as nat);
        assert(le_bytes(n, width)[j as int] == le_bytes(n / 256, (width - 1) as nat)[j - 1]);
    }
}

/// The bytes of a register file: the general registers, the instruction pointer
/// and the flags, the segments, the x87 registers and their control registers,
/// the SSE registers and their control register, and the two segment bases.
pub open spec fn is_register_file(t: TtdX64Regs, teb: u64, bytes: Seq<u8>) -> bool {
    &&& bytes.len() == 552
    &&& number_at(bytes, 0, 8, t.rax as nat)
    &&& number_at(bytes, 8, 8, t.rbx as nat)
    &&& number_at(bytes, 16, 8, t.rcx as nat)
    &&& number_at(bytes, 24, 8, t.rdx as nat)
    &&& number_at(bytes, 32, 8, t.rsi as nat)
    &&& number_at(bytes, 40, 8, t.rdi as nat)
    &&& number_at(bytes, 48, 8, t.rbp as nat)
    &&& number_at(bytes, 56, 8, t.rsp as nat)
    &&& number_at(bytes, 64, 8, t.r8 as nat)
    &&& number_at(bytes, 72, 8, t.r9 as nat)
    &&& number_at(bytes, 80, 8, t.r10 as nat)
    &&& number_at(bytes, 88, 8, t.r11 as nat)
    &&& number_at(bytes, 96, 8, t.r12 as nat)
    &&& number_at(bytes, 104, 8, t.r13 as nat)
    &&& number_at(bytes, 112, 8, t.r14 as nat)
    &&& number_at(bytes, 120, 8, t.r15 as nat)
    &&& number_at(bytes, 128, 8, t.rip as nat)
    &&& number_at(bytes, 136, 4, t.eflags as nat)
    &&& number_at(bytes, 140, 4, t.cs as nat)
    &&& number_at(bytes, 144, 4, t.ss as nat)
    &&& number_at(bytes, 148, 4, t.ds as nat)
    &&& number_at(bytes, 152, 4, t.es as nat)
    &&& number_at(bytes, 156, 4, t.fs as nat)
    &&& number_at(bytes, 160, 4, t.gs as nat)
    &&& number_at(bytes, 244, 4, t.fctrl as nat)
    &&& number_at(bytes, 248, 4, t.fstat as nat)
    &&& number_at(bytes, 252, 4, t.ftag as nat)
    &&& number_at(bytes, 256, 4, t.fiseg as nat)
    &&& number_at(bytes, 260, 4, t.fioff as nat)
    &&& number_at(bytes, 264, 4, t.foseg as nat)
    &&& number_at(bytes, 268, 4, t.fooff as nat)
    &&& number_at(bytes, 272, 4, t.fop as nat)
    &&& number_at(bytes, 532, 4, t.mxcsr as nat)
    &&& forall|i: int| 0 <= i < 80 ==> #[trigger] bytes[164 + i] == t.st@[i]
    &&& forall|i: int| 0 <= i < 256 ==> #[trigger] bytes[276 + i] == t.xmm@[i]
    &&& number_at(bytes, 536, 8, 0)
    &&& number_at(bytes, 544, 8, teb as nat)
}

proof fn lemma_register_file(file: TtdRegisters, t: TtdX64Regs, teb: u64)
    requires
        holds_snapshot(file, t, teb),
    ensures
        is_register_file(t, teb, g_bytes(file)),
{
    broadcast use lemma_le_bytes_len;

    let bytes = g_bytes(file);
    law_register_is_slice_of_file(file, 0);
    law_register_is_slice_of_file(file, 0);
    assert(bytes.subrange(0, 8) == le_bytes(t.rax as nat, 8));
    lemma_number_at(bytes, 0, 8, t.rax as nat);
    law_register_is_slice_of_file(file, 1);
    assert(bytes.subrange(8, 16) == le_bytes(t.rbx as nat, 8));
    lemma_number_at(bytes, 8, 8, t.rbx as nat);
    law_register_is_slice_of_file(file, 2);
    assert(bytes.subrange(16, 24) == le_bytes(t.rcx as nat, 8));
    lemma_number_at(bytes, 16, 8, t.rcx as nat);
    law_register_is_slice_of_file(file, 3);
    assert(bytes.subrange(24, 32) == le_bytes(t.rdx as nat, 8));
    lemma_number_at(bytes, 24, 8, t.rdx as nat);
    law_register_is_slice_of_file(file, 4);
    assert(bytes.subrange(32, 40) == le_bytes(t.rsi as nat, 8));
    lemma_number_at(bytes, 32, 8, t.rsi as nat);
    law_register_is_slice_of_file(file, 5);
    assert(bytes.subrange(40, 48) == le_bytes(t.rdi as nat, 8));
    lemma_number_at(bytes, 40, 8, t.rdi as nat);
    law_register_is_slice_of_file(file, 6);
    assert(bytes.subrange(48, 56) == le_bytes(t.rbp as nat, 8));
    lemma_number_at(bytes, 48, 8, t.rbp as nat);
    law_register_is_slice_of_file(file, 7);
    assert(bytes.subrange(56, 64) == le_bytes(t.rsp as nat, 8));
    lemma_number_at(bytes, 56, 8, t.rsp as nat);
    law_register_is_slice_of_file(file, 8);
    assert(bytes.subrange(64, 72) == le_bytes(t.r8 as nat, 8));
    lemma_number_at(bytes, 64, 8, t.r8 as nat);
    law_register_is_slice_of_file(file, 9);
    assert(bytes.subrange(72, 80) == le_bytes(t.r9 as nat, 8));
    lemma_number_at(bytes, 72, 8, t.r9 as nat);
    law_register_is_slice_of_file(file, 10);
    assert(bytes.subrange(80, 88) == le_bytes(t.r10 as nat, 8));
    lemma_number_at(bytes, 80, 8, t.r10 as nat);
    law_register_is_slice_of_file(file, 11);
    assert(bytes.subrange(88, 96) == le_bytes(t.r11 as nat, 8));
    lemma_number_at(bytes, 88, 8, t.r11 as nat);
    law_register_is_slice_of_file(file, 12);
    assert(bytes.subrange(96, 104) == le_bytes(t.r12 as nat, 8));
    lemma_number_at(bytes, 96, 8, t.r12 as nat);
    law_register_is_slice_of_file(file, 13);
    assert(bytes.subrange(104, 112) == le_bytes(t.r13 as nat, 8));
    lemma_number_at(bytes, 104, 8, t.r13 as nat);
    law_register_is_slice_of_file(file, 14);
    assert(bytes.subrange(112, 120) == le_bytes(t.r14 as nat, 8));
    lemma_number_at(bytes, 112, 8, t.r14 as nat);
    law_register_is_slice_of_file(file, 15);
    assert(bytes.subrange(120, 128) == le_bytes(t.r15 as nat, 8));
    lemma_number_at(bytes, 120, 8, t.r15 as nat);
    law_register_is_slice_of_file(file, 16);
    assert(bytes.subrange(128, 136) == le_bytes(t.rip as nat, 8));
    lemma_number_at(bytes, 128, 8, t.rip as nat);
    law_register_is_slice_of_file(file, 17);
    assert(bytes.subrange(136, 140) == le_bytes(t.eflags as nat, 4));
    lemma_number_at(bytes, 136, 4, t.eflags as nat);
    law_register_is_slice_of_file(file, 18);
    assert(bytes.subrange(140, 144) == le_bytes(t.cs as nat, 4));
    lemma_number_at(bytes, 140, 4, t.cs as nat);
    law_register_is_slice_of_file(file, 19);
    assert(bytes.subrange(144, 148) == le_bytes(t.ss as nat, 4));
    lemma_number_at(bytes, 144, 4, t.ss as nat);
    law_register_is_slice_of_file(file, 20);
    assert(bytes.subrange(148, 152) == le_bytes(t.ds as nat, 4));
    lemma_number_at(bytes, 148, 4, t.ds as nat);
    law_register_is_slice_of_file(file, 21);
    assert(bytes.subrange(152, 156) == le_bytes(t.es as nat, 4));
    lemma_number_at(bytes, 152, 4, t.es as nat);
    law_register_is_slice_of_file(file, 22);
    assert(bytes.subrange(156, 160) == le_bytes(t.fs as nat, 4));
    lemma_number_at(bytes, 156, 4, t.fs as nat);
    law_register_is_slice_of_file(file, 23);
    assert(bytes.subrange(160, 164) == le_bytes(t.gs as nat, 4));
    lemma_number_at(bytes, 160, 4, t.gs as nat);
    law_register_is_slice_of_file(file, 32);
    assert(bytes.subrange(244, 248) == le_bytes(t.fctrl as nat, 4));
    lemma_number_at(bytes, 244, 4, t.fctrl as nat);
    law_register_is_slice_of_file(file, 33);
    assert(bytes.subrange(248, 252) == le_bytes(t.fstat as nat, 4));
    lemma_number_at(bytes, 248, 4, t.fstat as nat);
    law_register_is_slice_of_file(file, 34);
    assert(bytes.subrange(252, 256) == le_bytes(t.ftag as nat, 4));
    lemma_number_at(bytes, 252, 4, t.ftag as nat);
    law_register_is_slice_of_file(file, 35);
    assert(bytes.subrange(256, 260) == le_bytes(t.fiseg as nat, 4));
    lemma_number_at(bytes, 256, 4, t.fiseg as nat);
    law_register_is_slice_of_file(file, 36);
    assert(bytes.subrange(260, 264) == le_bytes(t.fioff as nat, 4));
    lemma_number_at(bytes, 260, 4, t.fioff as nat);
    law_register_is_slice_of_file(file, 37);
    assert(bytes.subrange(264, 268) == le_bytes(t.foseg as nat, 4));
    lemma_number_at(bytes, 264, 4, t.foseg as nat);
    law_register_is_slice_of_file(file, 38);
    assert(bytes.subrange(268, 272) == le_bytes(t.fooff as nat, 4));
    lemma_number_at(bytes, 268, 4, t.fooff as nat);
    law_register_is_slice_of_file(file, 39);
    assert(bytes.subrange(272, 276) == le_bytes(t.fop as nat, 4));
    lemma_number_at(bytes, 272, 4, t.fop as nat);
    law_register_is_slice_of_file(file, 56);
    assert(bytes.subrange(532, 536) == le_bytes(t.mxcsr as nat, 4));
    lemma_number_at(bytes, 532, 4, t.mxcsr as nat);
    law_register_is_slice_of_file(file, 57);
    assert(bytes.subrange(536, 544) == le_bytes(0, 8));
    lemma_number_at(bytes, 536, 8, 0);
    law_register_is_slice_of_file(file, 58);
    assert(bytes.subrange(544, 552) == le_bytes(teb as nat, 8));
    lemma_number_at(bytes, 544, 8, teb as nat);
    assert forall|i: int| 0 <= i < 80 implies #[trigger] bytes[164 + i] == t.st@[i] by {
        let k = i / 10;
        law_register_is_slice_of_file(file, 24 + k);
        assert(register(file, 24 + k) == file.core.st@[k]@);
        assert(bytes.subrange(164 + 10 * k, 174 + 10 * k)[i - 10 * k] == bytes[164 + i]);
        assert(t.st@.subrange(10 * k, 10 * k + 10)[i - 10 * k] == t.st@[i]);
    }
    assert forall|i: int| 0 <= i < 256 implies #[trigger] bytes[276 + i] == t.xmm@[i] by {
        let k = i / 16;
        let part = t.xmm@.subrange(16 * k, 16 * k + 16);
        law_register_is_slice_of_file(file, 40 + k);
        lemma_bytes_of_value(part);
        assert(register(file, 40 + k) == part);
        assert(bytes.subrange(276 + 16 * k, 292 + 16 * k)[i - 16 * k] == bytes[276 + i]);
        assert(part[i - 16 * k] == t.xmm@[i]);
    }
}

/// The register file of a snapshot, as the client gets it: each register at its
/// place, by name.
pub proof fn law_registers_are_sent_by_name(
    t: TtdX64Regs,
    teb: u64,
    file: TtdRegisters,
    bytes: Vec<u8>,
    pc: u64,
)
    requires
        call_ensures(TtdRegisters::from_ttd, (&t, teb), file),
        call_ensures(TtdRegisters::gdb_serialize, (&file,), bytes),
        call_ensures(TtdRegisters::pc, (&file,), pc),
    ensures
        is_register_file(t, teb, bytes@),
        pc == t.rip,
{
    lemma_register_file(file, t, teb);
}

/// Reading the registers of a thread gives its snapshot; a thread without state
/// is a fault.
pub proof fn law_thread_registers_are_its_own<T: DebugTarget>(
    target: GdbTarget<T>,
    tid: u64,
    r: Result<TtdRegisters, TargetFault>,
    bytes: Vec<u8>,
)
    requires
        call_ensures(GdbTarget::<T>::read_registers, (&target, tid), r),
        r is Ok ==> call_ensures(TtdRegisters::gdb_serialize, (&r->Ok_0,), bytes),
    ensures
        r is Err <==> target@.backend().state_of(Some(tid)) is None,
        target@.backend().state_of(Some(tid)) matches Some((t, teb)) ==> is_register_file(
            t,
            teb,
            bytes@,
        ),
{
    if r is Ok {
        let (t, teb) = target@.backend().state_of(Some(tid))->0;
        lemma_register_file(r->Ok_0, t, teb);
    }
}

/// The size of the register with a number.
pub open spec fn size_of(n: int) -> int {
    if n <= 16 || n >= 57 {
        8
    } else if 24 <= n <= 31 {
        10
    } else if 40 <= n <= 55 {
        16
    } else {
        4
    }
}

/// Where the register with a number starts in the register file.
pub open spec fn place_of(n: int) -> int
    decreases n,
{
    if n <= 0 {
        0
    } else {
        place_of(n - 1) + size_of(n - 1)
    }
}

proof fn lemma_places(n: int)
    requires
        0 <= n <= 59,
    ensures
        n < 59 ==> place_of(n) == register_offset(n),
        n == 59 ==> place_of(n) == 552,
    decreases n,
{
    if n > 0 {
        lemma_places(n - 1);
    }
}

/// Register numbers: there are 59, each has a name and a size, and the name
/// leads back to the number.
pub proof fn law_register_numbers(
    n: usize,
    r: Option<(TtdRegId, usize)>,
    back: Option<usize>,
)
    requires
        call_ensures(TtdRegId::from_raw_id, (n,), r),
        r is Some ==> call_ensures(TtdRegId::to_raw_id, (&(r->0).0,), back),
    ensures
        r is Some <==> n < 59,
        r is Some ==> (r->0).1 == size_of(n as int) && back == Some(n),
{
    if n < 59 {
        crate::gdb::regs::law_register_numbers_and_names_agree(
            n as int,
            crate::gdb::regs::register_name(n as int),
        );
    }
}

/// Reading the register with a number gives what the register file holds for
/// it, as much of it as fits, and leaves the rest of the buffer alone. The
/// registers of a file follow each other by number.
pub proof fn law_one_register_is_its_part_of_the_file<T: DebugTarget>(
    target: GdbTarget<T>,
    tid: u64,
    n: usize,
    id: TtdRegId,
    size: usize,
    buf: &mut [u8],
    r: Result<usize, TargetFault>,
    file: TtdRegisters,
    bytes: Vec<u8>,
)
    requires
        call_ensures(TtdRegId::from_raw_id, (n,), Some((id, size))),
        call_ensures(GdbTarget::<T>::read_registers, (&target, tid), Ok(file)),
        call_ensures(TtdRegisters::gdb_serialize, (&file,), bytes),
        call_ensures(GdbTarget::<T>::read_register, (&target, tid, id, buf), r),
    ensures
        r is Ok,
        final(buf)@.len() == old(buf)@.len(),
        r->Ok_0 <= size && r->Ok_0 <= old(buf)@.len(),
        r->Ok_0 == size || r->Ok_0 == old(buf)@.len(),
        forall|i: int|
            0 <= i < r->Ok_0 ==> #[trigger] final(buf)@[i] == bytes@[place_of(n as int) + i],
        forall|i: int|
            r->Ok_0 <= i < old(buf)@.len() ==> #[trigger] final(buf)@[i] == old(buf)@[i],
{
    let (t, teb) = target@.backend().state_of(Some(tid))->0;
    crate::gdb::regs::law_register_numbers_and_names_agree(n as int, id);
    crate::gdb::target::base::law_register_read_agrees_with_the_file(
        t,
        teb,
        file,
        id,
        old(buf)@,
        final(buf)@,
        r,
    );
    law_register_is_slice_of_file(file, n as int);
    lemma_places(n as int);
    let k = r->Ok_0 as int;
    let from = register_offset(n as int);
    assert forall|i: int| 0 <= i < k implies #[trigger] final(buf)@[i] == bytes@[place_of(
        n as int,
    ) + i] by {
        assert(final(buf)@.take(k)[i] == g_bytes(file).subrange(from, from + k)[i]);
    }
    assert forall|i: int| k <= i < old(buf)@.len() implies #[trigger] final(buf)@[i]
        == old(buf)@[i] by {
        assert(final(buf)@.skip(k)[i - k] == old(buf)@.skip(k)[i - k]);
    }
}

/// A thread without state has no register to read, and its buffer is left alone.
pub proof fn law_unknown_threads_have_no_registers<T: DebugTarget>(
    target: GdbTarget<T>,
    tid: u64,
    id: TtdRegId,
    buf: &mut [u8],
    r: Result<usize, TargetFault>,
)
    requires
        target@.backend().state_of(Some(tid)) is None,
        call_ensures(GdbTarget::<T>::read_register, (&target, tid, id, buf), r),
    ensures
        r is Err,
        final(buf)@ == old(buf)@,
{
}

/// A register file that was sent is read back: the registers then serialize to
/// the same bytes. Too few bytes change nothing.
pub proof fn law_register_files_are_read_back(
    regs: &mut TtdRegisters,
    bytes: &[u8],
    r: Result<(), ()>,
    after: TtdRegisters,
    sent: Vec<u8>,
)
    requires
        call_ensures(TtdRegisters::gdb_deserialize, (regs, bytes), r),
        after == *final(regs),
        call_ensures(TtdRegisters::gdb_serialize, (&after,), sent),
    ensures
        r is Ok <==> bytes@.len() >= 552,
        r is Ok ==> sent@ == bytes@.take(552),
        r is Err ==> after == *old(regs),
{
}

/// The value of a general register by its index.
pub open spec fn general_value(t: TtdX64Regs, i: u8) -> u64 {
    if i == 0 {
        t.rax
    } else if i == 1 {
        t.rbx
    } else if i == 2 {
        t.rcx
    } else if i == 3 {
        t.rdx
    } else if i == 4 {
        t.rsi
    } else if i == 5 {
        t.rdi
    } else if i == 6 {
        t.rbp
    } else if i == 7 {
        t.rsp
    } else if i == 8 {
        t.r8
    } else if i == 9 {
        t.r9
    } else if i == 10 {
        t.r10
    } else if i == 11 {
        t.r11
    } else if i == 12 {
        t.r12
    } else if i == 13 {
        t.r13
    } else if i == 14 {
        t.r14
    } else {
        t.r15
    }
}

/// The width and the value of a register that holds a number, by its name.
pub open spec fn named_number(t: TtdX64Regs, teb: u64, id: TtdRegId) -> Option<(nat, nat)> {
    match id {
        TtdRegId::Core(X86_64CoreRegId::Gpr(i)) => Some((8, general_value(t, i) as nat)),
        TtdRegId::Core(X86_64CoreRegId::Rip) => Some((8, t.rip as nat)),
        TtdRegId::Core(X86_64CoreRegId::Eflags) => Some((4, t.eflags as nat)),
        TtdRegId::Core(X86_64CoreRegId::Segment(X86SegmentRegId::CS)) => Some((4, t.cs as nat)),
        TtdRegId::Core(X86_64CoreRegId::Segment(X86SegmentRegId::SS)) => Some((4, t.ss as nat)),
        TtdRegId::Core(X86_64CoreRegId::Segment(X86SegmentRegId::DS)) => Some((4, t.ds as nat)),
        TtdRegId::Core(X86_64CoreRegId::Segment(X86SegmentRegId::ES)) => Some((4, t.es as nat)),
        TtdRegId::Core(X86_64CoreRegId::Segment(X86SegmentRegId::FS)) => Some((4, t.fs as nat)),
        TtdRegId::Core(X86_64CoreRegId::Segment(X86SegmentRegId::GS)) => Some((4, t.gs as nat)),
        TtdRegId::Core(X86_64CoreRegId::Fpu(X87FpuInternalRegId::Fctrl)) => Some(
            (4, t.fctrl as nat),
        ),
        TtdRegId::Core(X86_64CoreRegId::Fpu(X87FpuInternalRegId::Fstat)) => Some(
            (4, t.fstat as nat),
        ),
        TtdRegId::Core(X86_64CoreRegId::Fpu(X87FpuInternalRegId::Ftag)) => Some(
            (4, t.ftag as nat),
        ),
        TtdRegId::Core(X86_64CoreRegId::Fpu(X87FpuInternalRegId::Fiseg)) => Some(
            (4, t.fiseg as nat),
        ),
        TtdRegId::Core(X86_64CoreRegId::Fpu(X87FpuInternalRegId::Fioff)) => Some(
            (4, t.fioff as nat),
        ),
        TtdRegId::Core(X86_64CoreRegId::Fpu(X87FpuInternalRegId::Foseg)) => Some(
            (4, t.foseg as nat),
        ),
        TtdRegId::Core(X86_64CoreRegId::Fpu(X87FpuInternalRegId::Fooff)) => Some(
            (4, t.fooff as nat),
        ),
        TtdRegId::Core(X86_64CoreRegId::Fpu(X87FpuInternalRegId::Fop)) => Some(
            (4, t.fop as nat),
        ),
        TtdRegId::Core(X86_64CoreRegId::Mxcsr) => Some((4, t.mxcsr as nat)),
        TtdRegId::FsBase => Some((8, 0)),
        TtdRegId::GsBase => Some((8, teb as nat)),
        _ => None,
    }
}

/// A part of a buffer was filled with as much of some bytes as fits, and the rest
/// was left alone.
pub open spec fn filled(before: Seq<u8>, after: Seq<u8>, n: int, bytes: Seq<u8>) -> bool {
    &&& after.len() == before.len()
    &&& n == bytes.len() || n == before.len()
    &&& n <= bytes.len() && n <= before.len()
    &&& forall|j: int| 0 <= j < n ==> #[trigger] after[j] == bytes[j]
    &&& forall|j: int| n <= j < before.len() ==> #[trigger] after[j] == before[j]
}

/// A register that is read by its name has the value that the snapshot has under
/// that name.
pub proof fn law_registers_are_read_by_name(
    t: TtdX64Regs,
    teb: u64,
    file: TtdRegisters,
    id: TtdRegId,
    buf: &mut [u8],
    n: usize,
    i: u8,
)
    requires
        call_ensures(TtdRegisters::from_ttd, (&t, teb), file),
        call_ensures(TtdRegisters::read_register, (&file, id, buf), n),
        id matches TtdRegId::Core(X86_64CoreRegId::Gpr(k)) ==> k < 16,
    ensures
        named_number(t, teb, id) matches Some((width, value)) ==> filled(
            old(buf)@,
            final(buf)@,
            n as int,
            Seq::new(width, |j: int| byte_of(value, j as nat)),
        ),
        i < 8 && id == TtdRegId::Core(X86_64CoreRegId::St(i)) ==> filled(
            old(buf)@,
            final(buf)@,
            n as int,
            t.st@.subrange(10 * i, 10 * i + 10),
        ),
        i < 16 && id == TtdRegId::Core(X86_64CoreRegId::Xmm(i)) ==> filled(
            old(buf)@,
            final(buf)@,
            n as int,
            t.xmm@.subrange(16 * i, 16 * i + 16),
        ),
{
    broadcast use lemma_le_bytes_len;

    let bytes = register(file, register_number(id) as int);
    if named_number(t, teb, id) is Some {
        let (width, value) = named_number(t, teb, id)->0;
        assert(bytes == le_bytes(value, width));
        assert forall|j: int| 0 <= j < width implies #[trigger] bytes[j] == byte_of(
            value,
            j as nat,
        ) by {
            lemma_byte_of(value, width, j as nat);
        }
        assert(bytes =~= Seq::new(width, |j: int| byte_of(value, j as nat)));
    }
    if i < 8 && id == TtdRegId::Core(X86_64CoreRegId::St(i)) {
        assert(bytes == file.core.st@[i as int]@);
    }
    if i < 16 && id == TtdRegId::Core(X86_64CoreRegId::Xmm(i)) {
        lemma_bytes_of_value(t.xmm@.subrange(16 * i, 16 * i + 16));
        assert(bytes == le_bytes(file.core.xmm@[i as int] as nat, 16));
    }
}

} // verus!
