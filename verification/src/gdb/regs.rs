//! The x86-64 register file of the protocol frontend.
//!
//! It is the core and SSE register file of `gdbstub_arch` (general purpose, x87
//! and SSE registers in GDB's standard order), followed by `fs_base` and
//! `gs_base`. `gs_base` is the TEB address of the thread: on Windows x64 the GS
//! base is the TEB.

use gdbstub::arch::{RegId, Registers};
use gdbstub_arch::x86::reg::id::{X86SegmentRegId, X86_64CoreRegId, X87FpuInternalRegId};
use gdbstub_arch::x86::reg::{X86SegmentRegs, X86_64CoreRegs, X87FpuInternalRegs};
use vstd::prelude::*;

use crate::bytes::{
    le_bytes, le_number, le_value, lemma_bytes_of_value, lemma_le_bytes_len, lemma_value_of_bytes,
    lemma_widths, lemma_zero, lemma_zeros, push_le,
};
use crate::text::text_is;
use crate::ttd::types::TtdX64Regs;

verus! {

/// `gdbstub_arch::x86::reg::id::X86SegmentRegId`.
#[verifier::external_type_specification]
pub struct ExSegmentRegId(X86SegmentRegId);

/// `gdbstub_arch::x86::reg::id::X87FpuInternalRegId`.
#[verifier::external_type_specification]
pub struct ExFpuRegId(X87FpuInternalRegId);

/// `gdbstub_arch::x86::reg::id::X86_64CoreRegId`.
#[verifier::external_type_specification]
pub struct ExCoreRegId(X86_64CoreRegId);

/// `gdbstub_arch::x86::reg::X86SegmentRegs`.
#[verifier::external_type_specification]
pub struct ExSegmentRegs(X86SegmentRegs);

/// `gdbstub_arch::x86::reg::X87FpuInternalRegs`.
#[verifier::external_type_specification]
pub struct ExFpuRegs(X87FpuInternalRegs);

/// `gdbstub_arch::x86::reg::X86_64CoreRegs`.
#[verifier::external_type_specification]
pub struct ExCoreRegs(X86_64CoreRegs);

/// A file of the target description.
#[derive(Clone, Copy, Debug, PartialEq, Eq, Structural)]
pub enum TargetXml {
    /// `target.xml`, which refers to the others.
    Target,
    /// `64bit-core.xml`.
    Core,
    /// `64bit-sse.xml`.
    Sse,
    /// `64bit-seg.xml`.
    Seg,
}

/// The file that an annex names; the empty annex is `target.xml`.
pub open spec fn annex_file(annex: Seq<char>) -> Option<TargetXml> {
    if annex == ""@ || annex == "target.xml"@ {
        Some(TargetXml::Target)
    } else if annex == "64bit-core.xml"@ {
        Some(TargetXml::Core)
    } else if annex == "64bit-sse.xml"@ {
        Some(TargetXml::Sse)
    } else if annex == "64bit-seg.xml"@ {
        Some(TargetXml::Seg)
    } else {
        None
    }
}

/// The file of the target description that an annex names. An unknown annex is
/// handed back.
pub fn target_xml(annex: &str) -> (r: Result<TargetXml, String>)
    ensures
        (match annex_file(annex@) {
            Some(file) => r == Ok::<TargetXml, String>(file),
            None => r is Err && r->Err_0@ == annex@,
        }),
{
    if text_is(annex, "") || text_is(annex, "target.xml") {
        Ok(TargetXml::Target)
    } else if text_is(annex, "64bit-core.xml") {
        Ok(TargetXml::Core)
    } else if text_is(annex, "64bit-sse.xml") {
        Ok(TargetXml::Sse)
    } else if text_is(annex, "64bit-seg.xml") {
        Ok(TargetXml::Seg)
    } else {
        Err(String::from_str(annex))
    }
}

/// How many bytes the core registers take.
pub const CORE_SIZE: usize = 536;

/// How many bytes all registers take: the core registers, `fs_base` and
/// `gs_base`.
pub const G_BUFFER_SIZE: usize = 552;

/// How many registers there are.
pub const REGISTER_COUNT: usize = 59;

/// The register file.
#[derive(Debug, PartialEq)]
pub struct TtdRegisters {
    pub core: X86_64CoreRegs,
    pub fs_base: u64,
    pub gs_base: u64,
}

/// The name of a register.
#[derive(Clone, Copy, Debug)]
pub enum TtdRegId {
    Core(X86_64CoreRegId),
    FsBase,
    GsBase,
}

/// Segment register `n`, in GDB's order.
pub open spec fn segment_register(s: X86SegmentRegs, n: int) -> u32 {
    if n == 0 {
        s.cs
    } else if n == 1 {
        s.ss
    } else if n == 2 {
        s.ds
    } else if n == 3 {
        s.es
    } else if n == 4 {
        s.fs
    } else {
        s.gs
    }
}

/// x87 control register `n`, in GDB's order.
pub open spec fn fpu_register(f: X87FpuInternalRegs, n: int) -> u32 {
    if n == 0 {
        f.fctrl
    } else if n == 1 {
        f.fstat
    } else if n == 2 {
        f.ftag
    } else if n == 3 {
        f.fiseg
    } else if n == 4 {
        f.fioff
    } else if n == 5 {
        f.foseg
    } else if n == 6 {
        f.fooff
    } else {
        f.fop
    }
}

/// The bytes of core register number `n`.
pub open spec fn core_register(c: X86_64CoreRegs, n: int) -> Seq<u8> {
    if n < 16 {
        le_bytes(c.regs@[n] as nat, 8)
    } else if n == 16 {
        le_bytes(c.rip as nat, 8)
    } else if n == 17 {
        le_bytes(c.eflags as nat, 4)
    } else if n < 24 {
        le_bytes(segment_register(c.segments, n - 18) as nat, 4)
    } else if n < 32 {
        c.st@[n - 24]@
    } else if n < 40 {
        le_bytes(fpu_register(c.fpu, n - 32) as nat, 4)
    } else if n < 56 {
        le_bytes(c.xmm@[n - 40] as nat, 16)
    } else {
        le_bytes(c.mxcsr as nat, 4)
    }
}

/// The bytes of the first `n` core registers, by register number.
pub open spec fn core_registers(c: X86_64CoreRegs, n: nat) -> Seq<u8>
    decreases n,
{
    if n == 0 {
        Seq::empty()
    } else {
        core_registers(c, (n - 1) as nat) + core_register(c, n - 1)
    }
}

/// The bytes of register number `n`.
pub open spec fn register(r: TtdRegisters, n: int) -> Seq<u8> {
    if n < 57 {
        core_register(r.core, n)
    } else if n == 57 {
        le_bytes(r.fs_base as nat, 8)
    } else {
        le_bytes(r.gs_base as nat, 8)
    }
}

/// The bytes of all registers, by register number.
pub open spec fn g_bytes(r: TtdRegisters) -> Seq<u8> {
    core_registers(r.core, 57) + register(r, 57) + register(r, 58)
}

/// The size of register number `n`.
pub open spec fn register_size(n: int) -> nat {
    if n <= 16 || n >= 57 {
        8
    } else if 24 <= n < 32 {
        10
    } else if 40 <= n < 56 {
        16
    } else {
        4
    }
}

/// Segment register names, in GDB's order.
pub open spec fn segment_name(n: int) -> X86SegmentRegId {
    if n == 0 {
        X86SegmentRegId::CS
    } else if n == 1 {
        X86SegmentRegId::SS
    } else if n == 2 {
        X86SegmentRegId::DS
    } else if n == 3 {
        X86SegmentRegId::ES
    } else if n == 4 {
        X86SegmentRegId::FS
    } else {
        X86SegmentRegId::GS
    }
}

/// x87 control register names, in GDB's order.
pub open spec fn fpu_name(n: int) -> X87FpuInternalRegId {
    if n == 0 {
        X87FpuInternalRegId::Fctrl
    } else if n == 1 {
        X87FpuInternalRegId::Fstat
    } else if n == 2 {
        X87FpuInternalRegId::Ftag
    } else if n == 3 {
        X87FpuInternalRegId::Fiseg
    } else if n == 4 {
        X87FpuInternalRegId::Fioff
    } else if n == 5 {
        X87FpuInternalRegId::Foseg
    } else if n == 6 {
        X87FpuInternalRegId::Fooff
    } else {
        X87FpuInternalRegId::Fop
    }
}

/// The name of core register number `n`.
pub open spec fn core_name(n: int) -> X86_64CoreRegId {
    if n < 16 {
        X86_64CoreRegId::Gpr(n as u8)
    } else if n == 16 {
        X86_64CoreRegId::Rip
    } else if n == 17 {
        X86_64CoreRegId::Eflags
    } else if n < 24 {
        X86_64CoreRegId::Segment(segment_name(n - 18))
    } else if n < 32 {
        X86_64CoreRegId::St((n - 24) as u8)
    } else if n < 40 {
        X86_64CoreRegId::Fpu(fpu_name(n - 32))
    } else if n < 56 {
        X86_64CoreRegId::Xmm((n - 40) as u8)
    } else {
        X86_64CoreRegId::Mxcsr
    }
}

/// The name of register number `n`.
pub open spec fn register_name(n: int) -> TtdRegId {
    if n < 57 {
        TtdRegId::Core(core_name(n))
    } else if n == 57 {
        TtdRegId::FsBase
    } else {
        TtdRegId::GsBase
    }
}

fn push_byte(out: &mut Vec<u8>, byte: Option<u8>)
    ensures
        final(out)@ == (match byte {
            Some(b) => old(out)@.push(b),
            None => old(out)@,
        }),
{
    if let Some(b) = byte {
        out.push(b);
    }
}

/// `Registers::gdb_serialize` of `X86_64CoreRegs`: the core registers in the
/// order of their numbers, each little-endian in its own size.
#[verifier::external_body]
fn core_serialize(core: &X86_64CoreRegs) -> (r: Vec<u8>)
    ensures
        r@ == core_registers(*core, 57),
{
    let mut out = Vec::new();
    core.gdb_serialize(|byte| push_byte(&mut out, byte));
    out
}

/// `Registers::gdb_deserialize` of `X86_64CoreRegs`: fails on fewer bytes than
/// the core registers take; otherwise the registers are those whose
/// serialization the first bytes are, and further bytes do not matter.
#[verifier::external_body]
fn core_deserialize(core: &mut X86_64CoreRegs, bytes: &[u8]) -> (r: Result<(), ()>)
    ensures
        r is Ok <==> bytes@.len() >= CORE_SIZE,
        r is Ok ==> core_registers(*final(core), 57) == bytes@.take(CORE_SIZE as int),
        r is Err ==> *final(core) == *old(core),
{
    core.gdb_deserialize(bytes)
}

/// `RegId::from_raw_id` of `X86_64CoreRegId`: the name and the size of the core
/// register with a number, if there is one.
#[verifier::external_body]
fn core_from_raw_id(id: usize) -> (r: Option<(X86_64CoreRegId, usize)>)
    ensures
        r == (if id < 57 {
            Some((core_name(id as int), register_size(id as int) as usize))
        } else {
            None
        }),
{
    X86_64CoreRegId::from_raw_id(id).map(|(reg, size)| (reg, size.map_or(0, usize::from)))
}

impl Clone for TtdRegisters {
    fn clone(&self) -> (r: TtdRegisters)
        ensures
            r == *self,
    {
        let s = &self.core.segments;
        let f = &self.core.fpu;
        TtdRegisters {
            core: X86_64CoreRegs {
                regs: self.core.regs,
                eflags: self.core.eflags,
                rip: self.core.rip,
                segments: X86SegmentRegs {
                    cs: s.cs,
                    ss: s.ss,
                    ds: s.ds,
                    es: s.es,
                    fs: s.fs,
                    gs: s.gs,
                },
                st: self.core.st,
                fpu: X87FpuInternalRegs {
                    fctrl: f.fctrl,
                    fstat: f.fstat,
                    ftag: f.ftag,
                    fiseg: f.fiseg,
                    fioff: f.fioff,
                    foseg: f.foseg,
                    fooff: f.fooff,
                    fop: f.fop,
                },
                xmm: self.core.xmm,
                mxcsr: self.core.mxcsr,
            },
            fs_base: self.fs_base,
            gs_base: self.gs_base,
        }
    }
}

impl Default for TtdRegisters {
    /// All registers zero.
    fn default() -> (r: TtdRegisters)
        ensures
            forall|n: int, i: int|
                0 <= n < REGISTER_COUNT && 0 <= i < register_size(n) ==> #[trigger] register(r, n)[i]
                    == 0,
    {
        let zero = TtdX64Regs::default();
        let r = TtdRegisters::from_ttd(&zero, 0);
        proof {
            lemma_zero(4);
            lemma_zero(8);
            lemma_zero(16);
            assert forall|n: int, i: int|
                0 <= n < REGISTER_COUNT && 0 <= i < register_size(n) implies #[trigger] register(
                r,
                n,
            )[i] == 0 by {
                if 24 <= n < 32 {
                    assert(r.core.st@[n - 24]@[i] == zero.st@[10 * (n - 24) + i]);
                } else if 40 <= n < 56 {
                    lemma_zeros(zero.xmm@.subrange(16 * (n - 40), 16 * (n - 40) + 16));
                    assert(r.core.xmm@[n - 40] == 0);
                }
            }
        }
        r
    }
}

/// The register file holds a snapshot and a TEB address.
pub open spec fn holds_snapshot(r: TtdRegisters, t: TtdX64Regs, teb: u64) -> bool {
    &&& r.core.regs@ == seq![
        t.rax,
        t.rbx,
        t.rcx,
        t.rdx,
        t.rsi,
        t.rdi,
        t.rbp,
        t.rsp,
        t.r8,
        t.r9,
        t.r10,
        t.r11,
        t.r12,
        t.r13,
        t.r14,
        t.r15,
    ]
    &&& r.core.eflags == t.eflags && r.core.rip == t.rip && r.core.mxcsr == t.mxcsr
    &&& r.core.segments.cs == t.cs && r.core.segments.ss == t.ss && r.core.segments.ds == t.ds
    &&& r.core.segments.es == t.es && r.core.segments.fs == t.fs && r.core.segments.gs == t.gs
    &&& r.core.fpu.fctrl == t.fctrl && r.core.fpu.fstat == t.fstat && r.core.fpu.ftag == t.ftag
    &&& r.core.fpu.fiseg == t.fiseg && r.core.fpu.fioff == t.fioff && r.core.fpu.foseg == t.foseg
    &&& r.core.fpu.fooff == t.fooff && r.core.fpu.fop == t.fop
    &&& forall|i: int|
        0 <= i < 8 ==> (#[trigger] r.core.st@[i])@ == t.st@.subrange(10 * i, 10 * i + 10)
    &&& forall|i: int|
        0 <= i < 16 ==> #[trigger] r.core.xmm@[i] == le_value(
            t.xmm@.subrange(16 * i, 16 * i + 16),
        )
    &&& r.fs_base == 0
    &&& r.gs_base == teb
}

impl TtdRegisters {
    /// Build from a register snapshot and a TEB address.
    pub fn from_ttd(regs: &TtdX64Regs, teb: u64) -> (r: TtdRegisters)
        ensures
            holds_snapshot(r, *regs, teb),
    {
        let mut st = [[0u8;10];8];
        for i in 0..8usize
            invariant
                forall|k: int|
                    0 <= k < i ==> (#[trigger] st@[k])@ == regs.st@.subrange(10 * k, 10 * k + 10),
        {
            let mut slot = [0u8;10];
            for j in 0..10usize
                invariant
                    i < 8,
                    forall|k: int| 0 <= k < j ==> slot@[k] == regs.st@[10 * i + k],
            {
                slot[j] = regs.st[10 * i + j];
            }
            assert(slot@ =~= regs.st@.subrange(10 * i as int, 10 * i + 10));
            st[i] = slot;
        }
        let mut xmm = [0u128;16];
        for i in 0..16usize
            invariant
                forall|k: int|
                    0 <= k < i ==> #[trigger] xmm@[k] == le_value(
                        regs.xmm@.subrange(16 * k, 16 * k + 16),
                    ),
        {
            let mut slot: Vec<u8> = Vec::new();
            for j in 0..16usize
                invariant
                    i < 16,
                    slot@ == regs.xmm@.subrange(16 * i as int, 16 * i + j),
            {
                slot.push(regs.xmm[16 * i + j]);
            }
            xmm[i] = le_number(slot.as_slice());
        }
        TtdRegisters {
            core: X86_64CoreRegs {
                regs: [
                    regs.rax,
                    regs.rbx,
                    regs.rcx,
                    regs.rdx,
                    regs.rsi,
                    regs.rdi,
                    regs.rbp,
                    regs.rsp,
                    regs.r8,
                    regs.r9,
                    regs.r10,
                    regs.r11,
                    regs.r12,
                    regs.r13,
                    regs.r14,
                    regs.r15,
                ],
                eflags: regs.eflags,
                rip: regs.rip,
                segments: X86SegmentRegs {
                    cs: regs.cs as u32,
                    ss: regs.ss as u32,
                    ds: regs.ds as u32,
                    es: regs.es as u32,
                    fs: regs.fs as u32,
                    gs: regs.gs as u32,
                },
                st,
                fpu: X87FpuInternalRegs {
                    fctrl: regs.fctrl as u32,
                    fstat: regs.fstat as u32,
                    ftag: regs.ftag as u32,
                    fiseg: regs.fiseg as u32,
                    fioff: regs.fioff,
                    foseg: regs.foseg as u32,
                    fooff: regs.fooff,
                    fop: regs.fop as u32,
                },
                xmm,
                mxcsr: regs.mxcsr,
            },
            fs_base: 0,
            gs_base: teb,
        }
    }

    /// The program counter.
    pub fn pc(&self) -> (r: u64)
        ensures
            r == self.core.rip,
    {
        self.core.rip
    }

    /// The bytes of all registers, in the order that GDB expects.
    pub fn gdb_serialize(&self) -> (r: Vec<u8>)
        ensures
            r@ == g_bytes(*self),
    {
        let mut out = core_serialize(&self.core);
        push_le(&mut out, self.fs_base as u128, 8);
        push_le(&mut out, self.gs_base as u128, 8);
        out
    }

    /// Take all registers from bytes in the order that GDB uses. Fails, and
    /// changes nothing, if there are too few; ignores what there is too much.
    pub fn gdb_deserialize(&mut self, bytes: &[u8]) -> (r: Result<(), ()>)
        ensures
            r is Ok <==> bytes@.len() >= G_BUFFER_SIZE,
            r is Ok ==> g_bytes(*final(self)) == bytes@.take(G_BUFFER_SIZE as int),
            r is Err ==> *final(self) == *old(self),
    {
        if bytes.len() < G_BUFFER_SIZE {
            return Err(());
        }
        let head = vstd::slice::slice_subrange(bytes, 0, CORE_SIZE);
        if core_deserialize(&mut self.core, head).is_err() {
            return Err(());
        }
        let fs = vstd::slice::slice_subrange(bytes, 536, 544);
        let gs = vstd::slice::slice_subrange(bytes, 544, 552);
        proof {
            lemma_bytes_of_value(fs@);
            lemma_bytes_of_value(gs@);
            lemma_widths();
        }
        self.fs_base = le_number(fs) as u64;
        self.gs_base = le_number(gs) as u64;
        assert(head@.take(CORE_SIZE as int) =~= head@);
        assert(g_bytes(*self) =~= bytes@.take(G_BUFFER_SIZE as int));
        Ok(())
    }
}

fn seg_regnum(s: X86SegmentRegId) -> (r: usize)
    ensures
        r == segment_number(s),
{
    match s {
        X86SegmentRegId::CS => 0,
        X86SegmentRegId::SS => 1,
        X86SegmentRegId::DS => 2,
        X86SegmentRegId::ES => 3,
        X86SegmentRegId::FS => 4,
        X86SegmentRegId::GS => 5,
    }
}

fn fpu_regnum(f: X87FpuInternalRegId) -> (r: usize)
    ensures
        r == fpu_number(f),
{
    match f {
        X87FpuInternalRegId::Fctrl => 0,
        X87FpuInternalRegId::Fstat => 1,
        X87FpuInternalRegId::Ftag => 2,
        X87FpuInternalRegId::Fiseg => 3,
        X87FpuInternalRegId::Fioff => 4,
        X87FpuInternalRegId::Foseg => 5,
        X87FpuInternalRegId::Fooff => 6,
        X87FpuInternalRegId::Fop => 7,
    }
}

/// The number of a register, from its name.
pub open spec fn register_number(id: TtdRegId) -> nat {
    match id {
        TtdRegId::Core(X86_64CoreRegId::Gpr(i)) => i as nat,
        TtdRegId::Core(X86_64CoreRegId::Rip) => 16,
        TtdRegId::Core(X86_64CoreRegId::Eflags) => 17,
        TtdRegId::Core(X86_64CoreRegId::Segment(s)) => 18 + segment_number(s),
        TtdRegId::Core(X86_64CoreRegId::St(i)) => 24 + i as nat,
        TtdRegId::Core(X86_64CoreRegId::Fpu(f)) => 32 + fpu_number(f),
        TtdRegId::Core(X86_64CoreRegId::Xmm(i)) => 40 + i as nat,
        TtdRegId::Core(_) => 56,
        TtdRegId::FsBase => 57,
        TtdRegId::GsBase => 58,
    }
}

/// The place of a segment register among its kind.
pub open spec fn segment_number(s: X86SegmentRegId) -> nat {
    match s {
        X86SegmentRegId::CS => 0,
        X86SegmentRegId::SS => 1,
        X86SegmentRegId::DS => 2,
        X86SegmentRegId::ES => 3,
        X86SegmentRegId::FS => 4,
        X86SegmentRegId::GS => 5,
    }
}

/// The place of an x87 control register among its kind.
pub open spec fn fpu_number(f: X87FpuInternalRegId) -> nat {
    match f {
        X87FpuInternalRegId::Fctrl => 0,
        X87FpuInternalRegId::Fstat => 1,
        X87FpuInternalRegId::Ftag => 2,
        X87FpuInternalRegId::Fiseg => 3,
        X87FpuInternalRegId::Fioff => 4,
        X87FpuInternalRegId::Foseg => 5,
        X87FpuInternalRegId::Fooff => 6,
        X87FpuInternalRegId::Fop => 7,
    }
}

/// A name that a register has: indices stay within their bank.
pub open spec fn is_register(id: TtdRegId) -> bool {
    match id {
        TtdRegId::Core(X86_64CoreRegId::Gpr(i)) => i < 16,
        TtdRegId::Core(X86_64CoreRegId::St(i)) => i < 8,
        TtdRegId::Core(X86_64CoreRegId::Xmm(i)) => i < 16,
        _ => true,
    }
}

impl TtdRegId {
    /// The name and the size of the register with a number, if there is one.
    pub fn from_raw_id(id: usize) -> (r: Option<(TtdRegId, usize)>)
        ensures
            r == (if id < REGISTER_COUNT {
                Some((register_name(id as int), register_size(id as int) as usize))
            } else {
                None
            }),
    {
        if id < 57 {
            match core_from_raw_id(id) {
                Some((reg, size)) => Some((TtdRegId::Core(reg), size)),
                None => None,
            }
        } else if id == 57 {
            Some((TtdRegId::FsBase, 8))
        } else if id == 58 {
            Some((TtdRegId::GsBase, 8))
        } else {
            None
        }
    }

    /// The number of the register.
    pub fn to_raw_id(&self) -> (r: Option<usize>)
        ensures
            r == Some(register_number(*self) as usize),
    {
        match *self {
            TtdRegId::Core(reg) => match reg {
                X86_64CoreRegId::Gpr(i) => Some(i as usize),
                X86_64CoreRegId::Rip => Some(16),
                X86_64CoreRegId::Eflags => Some(17),
                X86_64CoreRegId::Segment(s) => Some(18 + seg_regnum(s)),
                X86_64CoreRegId::St(i) => Some(24 + i as usize),
                X86_64CoreRegId::Fpu(f) => Some(32 + fpu_regnum(f)),
                X86_64CoreRegId::Xmm(i) => Some(40 + i as usize),
                X86_64CoreRegId::Mxcsr => Some(56),
                _ => None,
            },
            TtdRegId::FsBase => Some(57),
            TtdRegId::GsBase => Some(58),
        }
    }
}

fn segment_value(s: &X86SegmentRegs, id: X86SegmentRegId) -> (r: u32)
    ensures
        r == segment_register(*s, segment_number(id) as int),
{
    match id {
        X86SegmentRegId::CS => s.cs,
        X86SegmentRegId::SS => s.ss,
        X86SegmentRegId::DS => s.ds,
        X86SegmentRegId::ES => s.es,
        X86SegmentRegId::FS => s.fs,
        X86SegmentRegId::GS => s.gs,
    }
}

fn fpu_value(f: &X87FpuInternalRegs, id: X87FpuInternalRegId) -> (r: u32)
    ensures
        r == fpu_register(*f, fpu_number(id) as int),
{
    match id {
        X87FpuInternalRegId::Fctrl => f.fctrl,
        X87FpuInternalRegId::Fstat => f.fstat,
        X87FpuInternalRegId::Ftag => f.ftag,
        X87FpuInternalRegId::Fiseg => f.fiseg,
        X87FpuInternalRegId::Fioff => f.fioff,
        X87FpuInternalRegId::Foseg => f.foseg,
        X87FpuInternalRegId::Fooff => f.fooff,
        X87FpuInternalRegId::Fop => f.fop,
    }
}

/// What a buffer holds once as much of `data` as fits stands at its start.
pub open spec fn overlaid(buf: Seq<u8>, data: Seq<u8>) -> Seq<u8> {
    if data.len() <= buf.len() {
        data + buf.skip(data.len() as int)
    } else {
        data.take(buf.len() as int)
    }
}

/// Copy as much of `data` as fits to the start of `buf`, and say how much that
/// is.
pub fn fill(buf: &mut [u8], data: &[u8]) -> (r: usize)
    ensures
        r == (if data@.len() <= old(buf)@.len() {
            data@.len()
        } else {
            old(buf)@.len()
        }),
        final(buf)@ == overlaid(old(buf)@, data@),
{
    let n: usize = if data.len() < buf.len() {
        data.len()
    } else {
        buf.len()
    };
    for i in 0..n
        invariant
            n <= data@.len(),
            n <= buf@.len(),
            buf@.len() == old(buf)@.len(),
            buf@ == data@.take(i as int) + old(buf)@.skip(i as int),
    {
        buf[i] = data[i];
        assert(buf@ =~= data@.take(i as int + 1) + old(buf)@.skip(i as int + 1));
    }
    assert(buf@ =~= overlaid(old(buf)@, data@));
    n
}

impl TtdRegisters {
    /// The bytes of one register.
    pub fn register_bytes(&self, id: TtdRegId) -> (r: Vec<u8>)
        requires
            is_register(id),
        ensures
            r@ == register(*self, register_number(id) as int),
    {
        let mut out: Vec<u8> = Vec::new();
        match id {
            TtdRegId::Core(X86_64CoreRegId::Gpr(i)) => {
                push_le(&mut out, self.core.regs[i as usize] as u128, 8)
            },
            TtdRegId::Core(X86_64CoreRegId::Rip) => push_le(&mut out, self.core.rip as u128, 8),
            TtdRegId::Core(X86_64CoreRegId::Eflags) => {
                push_le(&mut out, self.core.eflags as u128, 4)
            },
            TtdRegId::Core(X86_64CoreRegId::Segment(s)) => {
                push_le(&mut out, segment_value(&self.core.segments, s) as u128, 4)
            },
            TtdRegId::Core(X86_64CoreRegId::St(i)) => {
                let st = &self.core.st[i as usize];
                for j in 0..10usize
                    invariant
                        out@ == st@.take(j as int),
                {
                    out.push(st[j]);
                }
            },
            TtdRegId::Core(X86_64CoreRegId::Fpu(f)) => {
                push_le(&mut out, fpu_value(&self.core.fpu, f) as u128, 4)
            },
            TtdRegId::Core(X86_64CoreRegId::Xmm(i)) => {
                push_le(&mut out, self.core.xmm[i as usize], 16)
            },
            TtdRegId::Core(_) => push_le(&mut out, self.core.mxcsr as u128, 4),
            TtdRegId::FsBase => push_le(&mut out, self.fs_base as u128, 8),
            TtdRegId::GsBase => push_le(&mut out, self.gs_base as u128, 8),
        }
        assert(out@ =~= register(*self, register_number(id) as int));
        out
    }

    /// Copy one register to the start of `buf`, as far as it fits, and say how
    /// many bytes that took.
    pub fn read_register(&self, id: TtdRegId, buf: &mut [u8]) -> (r: usize)
        requires
            is_register(id),
        ensures
            final(buf)@ == overlaid(old(buf)@, register(*self, register_number(id) as int)),
            r == (if register(*self, register_number(id) as int).len() <= old(buf)@.len() {
                register(*self, register_number(id) as int).len()
            } else {
                old(buf)@.len()
            }),
    {
        let bytes = self.register_bytes(id);
        fill(buf, bytes.as_slice())
    }
}

/// Where register number `n` starts among the bytes of all registers.
pub open spec fn register_offset(n: int) -> int {
    if n <= 17 {
        8 * n
    } else if n <= 24 {
        136 + 4 * (n - 17)
    } else if n <= 32 {
        164 + 10 * (n - 24)
    } else if n <= 40 {
        244 + 4 * (n - 32)
    } else if n <= 56 {
        276 + 16 * (n - 40)
    } else if n == 57 {
        536
    } else {
        536 + 8 * (n - 57)
    }
}

proof fn lemma_core_slice(c: X86_64CoreRegs, n: nat, m: int)
    requires
        n <= 57,
        0 <= m < n,
    ensures
        core_registers(c, n).len() == register_offset(n as int),
        core_register(c, m).len() == register_size(m),
        register_offset(m) + register_size(m) <= register_offset(n as int),
        core_registers(c, n).subrange(register_offset(m), register_offset(m) + register_size(m))
            == core_register(c, m),
    decreases n,
{
    broadcast use lemma_le_bytes_len;

    let last = core_register(c, n - 1);
    assert(last.len() == register_size(n - 1));
    if n == 1 {
        assert(core_registers(c, 0) =~= Seq::<u8>::empty());
        assert(core_registers(c, 1) =~= last);
    } else {
        lemma_core_slice(
            c,
            (n - 1) as nat,
            if m < n - 1 {
                m
            } else {
                0
            },
        );
    }
    assert(core_registers(c, n).subrange(register_offset(m), register_offset(m) + register_size(m))
        =~= core_register(c, m));
}

/// A snapshot and a TEB address fix the bytes of every register.
pub proof fn lemma_snapshot_fixes_registers(
    a: TtdRegisters,
    b: TtdRegisters,
    t: TtdX64Regs,
    teb: u64,
    n: int,
)
    requires
        holds_snapshot(a, t, teb),
        holds_snapshot(b, t, teb),
        0 <= n < REGISTER_COUNT,
    ensures
        register(a, n) == register(b, n),
{
    if n < 16 {
        assert(a.core.regs@[n] == b.core.regs@[n]);
    } else if 24 <= n < 32 {
        assert(a.core.st@[n - 24]@ == b.core.st@[n - 24]@);
    } else if 40 <= n < 56 {
        assert(a.core.xmm@[n - 40] == b.core.xmm@[n - 40]);
    }
}

/// A single register is the slice of the whole register file that starts at its
/// offset, and the file is as long as it is announced.
pub proof fn law_register_is_slice_of_file(r: TtdRegisters, n: int)
    requires
        0 <= n < REGISTER_COUNT,
    ensures
        g_bytes(r).len() == G_BUFFER_SIZE,
        register(r, n).len() == register_size(n),
        g_bytes(r).subrange(register_offset(n), register_offset(n) + register_size(n)) == register(
            r,
            n,
        ),
{
    broadcast use lemma_le_bytes_len;

    lemma_core_slice(
        r.core,
        57,
        if n < 57 {
            n
        } else {
            0
        },
    );
    let file = g_bytes(r);
    if n < 57 {
        assert(file.subrange(register_offset(n), register_offset(n) + register_size(n))
            =~= core_registers(r.core, 57).subrange(
            register_offset(n),
            register_offset(n) + register_size(n),
        ));
    } else {
        assert(file.subrange(register_offset(n), register_offset(n) + register_size(n))
            =~= register(r, n));
    }
}

/// Numbers and names of registers determine each other, and every number below
/// the count names a register.
pub proof fn law_register_numbers_and_names_agree(n: int, id: TtdRegId)
    requires
        0 <= n < REGISTER_COUNT,
        is_register(id),
    ensures
        is_register(register_name(n)),
        register_number(register_name(n)) == n,
        register_number(id) < REGISTER_COUNT,
        register_name(register_number(id) as int) == id,
{
}

/// Two register files with the same bytes hold the same registers: what
/// `gdb_deserialize` reads of what `gdb_serialize` wrote is what was written.
pub proof fn law_registers_survive_the_wire(a: TtdRegisters, b: TtdRegisters)
    requires
        g_bytes(a) == g_bytes(b),
    ensures
        forall|n: int| 0 <= n < REGISTER_COUNT ==> #[trigger] register(a, n) == register(b, n),
        a.core.regs@ == b.core.regs@,
        a.core.rip == b.core.rip,
        a.core.eflags == b.core.eflags,
        a.core.segments == b.core.segments,
        forall|i: int| 0 <= i < 8 ==> (#[trigger] a.core.st@[i])@ == b.core.st@[i]@,
        a.core.fpu == b.core.fpu,
        a.core.xmm@ == b.core.xmm@,
        a.core.mxcsr == b.core.mxcsr,
        a.fs_base == b.fs_base,
        a.gs_base == b.gs_base,
{
    assert forall|n: int| 0 <= n < REGISTER_COUNT implies #[trigger] register(a, n) == register(
        b,
        n,
    ) by {
        law_register_is_slice_of_file(a, n);
        law_register_is_slice_of_file(b, n);
    }
    assert forall|i: int| 0 <= i < 16 implies a.core.regs@[i] == b.core.regs@[i] by {
        assert(register(a, i) == register(b, i));
        lemma_same_u64(a.core.regs@[i], b.core.regs@[i]);
    }
    assert(a.core.regs@ =~= b.core.regs@);
    assert forall|i: int| 0 <= i < 8 implies (#[trigger] a.core.st@[i])@ == b.core.st@[i]@ by {
        assert(register(a, 24 + i) == register(b, 24 + i));
    }
    assert forall|i: int| 0 <= i < 16 implies a.core.xmm@[i] == b.core.xmm@[i] by {
        assert(register(a, 40 + i) == register(b, 40 + i));
        lemma_widths();
        lemma_value_of_bytes(a.core.xmm@[i] as nat, 16);
        lemma_value_of_bytes(b.core.xmm@[i] as nat, 16);
    }
    assert(a.core.xmm@ =~= b.core.xmm@);
    assert forall|i: int| 0 <= i < 6 implies #[trigger] segment_register(a.core.segments, i)
        == segment_register(b.core.segments, i) by {
        assert(register(a, 18 + i) == register(b, 18 + i));
        lemma_same_u32(
            segment_register(a.core.segments, i),
            segment_register(b.core.segments, i),
        );
    }
    assert forall|i: int| 0 <= i < 8 implies #[trigger] fpu_register(a.core.fpu, i)
        == fpu_register(b.core.fpu, i) by {
        assert(register(a, 32 + i) == register(b, 32 + i));
        lemma_same_u32(fpu_register(a.core.fpu, i), fpu_register(b.core.fpu, i));
    }
    assert(a.core.segments == b.core.segments) by {
        assert(segment_register(a.core.segments, 0) == segment_register(b.core.segments, 0));
        assert(segment_register(a.core.segments, 1) == segment_register(b.core.segments, 1));
        assert(segment_register(a.core.segments, 2) == segment_register(b.core.segments, 2));
        assert(segment_register(a.core.segments, 3) == segment_register(b.core.segments, 3));
        assert(segment_register(a.core.segments, 4) == segment_register(b.core.segments, 4));
        assert(segment_register(a.core.segments, 5) == segment_register(b.core.segments, 5));
    }
    assert(a.core.fpu == b.core.fpu) by {
        assert(fpu_register(a.core.fpu, 0) == fpu_register(b.core.fpu, 0));
        assert(fpu_register(a.core.fpu, 1) == fpu_register(b.core.fpu, 1));
        assert(fpu_register(a.core.fpu, 2) == fpu_register(b.core.fpu, 2));
        assert(fpu_register(a.core.fpu, 3) == fpu_register(b.core.fpu, 3));
        assert(fpu_register(a.core.fpu, 4) == fpu_register(b.core.fpu, 4));
        assert(fpu_register(a.core.fpu, 5) == fpu_register(b.core.fpu, 5));
        assert(fpu_register(a.core.fpu, 6) == fpu_register(b.core.fpu, 6));
        assert(fpu_register(a.core.fpu, 7) == fpu_register(b.core.fpu, 7));
    }
    assert(register(a, 16) == register(b, 16));
    lemma_same_u64(a.core.rip, b.core.rip);
    assert(register(a, 17) == register(b, 17));
    lemma_same_u32(a.core.eflags, b.core.eflags);
    assert(register(a, 56) == register(b, 56));
    lemma_same_u32(a.core.mxcsr, b.core.mxcsr);
    assert(register(a, 57) == register(b, 57));
    lemma_same_u64(a.fs_base, b.fs_base);
    assert(register(a, 58) == register(b, 58));
    lemma_same_u64(a.gs_base, b.gs_base);
}

proof fn lemma_same_u64(a: u64, b: u64)
    requires
        le_bytes(a as nat, 8) == le_bytes(b as nat, 8),
    ensures
        a == b,
{
    lemma_widths();
    lemma_value_of_bytes(a as nat, 8);
    lemma_value_of_bytes(b as nat, 8);
}

proof fn lemma_same_u32(a: u32, b: u32)
    requires
        le_bytes(a as nat, 4) == le_bytes(b as nat, 4),
    ensures
        a == b,
{
    lemma_widths();
    lemma_value_of_bytes(a as nat, 4);
    lemma_value_of_bytes(b as nat, 4);
}

} // verus!
