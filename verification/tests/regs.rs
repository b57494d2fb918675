//! The register file.

use gdbstub_arch::x86::reg::id::{X86SegmentRegId, X86_64CoreRegId, X87FpuInternalRegId};
use ttd_gdbserver::gdb::regs::{
    target_xml, TargetXml, TtdRegId, TtdRegisters, G_BUFFER_SIZE, REGISTER_COUNT,
};
use ttd_gdbserver::ttd::types::TtdX64Regs;

/// A snapshot in which every register has a value of its own.
fn snapshot() -> TtdX64Regs {
    let mut t = TtdX64Regs::default();
    t.rax = 0x0102_0304_0506_0708;
    t.rbx = 1;
    t.rcx = 2;
    t.rdx = 3;
    t.rsi = 4;
    t.rdi = 5;
    t.rbp = 6;
    t.rsp = 7;
    t.r8 = 8;
    t.r15 = 15;
    t.rip = 0x1400_0000_1000;
    t.eflags = 0x202;
    t.cs = 0x33;
    t.gs = 0x2b;
    t.fctrl = 0x37f;
    t.fop = 0x55;
    t.fioff = 0xdead_beef;
    t.mxcsr = 0x1f80;
    for i in 0..80 {
        t.st[i] = i as u8;
    }
    for i in 0..256 {
        t.xmm[i] = (255 - i) as u8;
    }
    t
}

#[test]
fn snapshot_fills_the_register_file() {
    let r = TtdRegisters::from_ttd(&snapshot(), 0x7ffe_0000);
    assert_eq!(r.core.regs[0], 0x0102_0304_0506_0708);
    assert_eq!(r.core.regs[1..9], [1, 2, 3, 4, 5, 6, 7, 8]);
    assert_eq!(r.core.regs[15], 15);
    assert_eq!(r.pc(), 0x1400_0000_1000);
    assert_eq!(r.core.segments.cs, 0x33);
    assert_eq!(r.core.segments.gs, 0x2b);
    assert_eq!(r.core.st[7], [70, 71, 72, 73, 74, 75, 76, 77, 78, 79]);
    assert_eq!(r.core.xmm[15], 0x0001_0203_0405_0607_0809_0a0b_0c0d_0e0f);
    assert_eq!(r.core.fpu.fioff, 0xdead_beef);
    assert_eq!(r.fs_base, 0);
    assert_eq!(r.gs_base, 0x7ffe_0000);
}

#[test]
fn serialized_file_has_the_announced_layout() {
    let r = TtdRegisters::from_ttd(&snapshot(), 0x7ffe_0000);
    let g = r.gdb_serialize();
    assert_eq!(g.len(), G_BUFFER_SIZE);
    assert_eq!(&g[0..8], &[8, 7, 6, 5, 4, 3, 2, 1]);
    assert_eq!(&g[128..136], &0x1400_0000_1000u64.to_le_bytes());
    assert_eq!(&g[136..140], &0x202u32.to_le_bytes());
    assert_eq!(&g[140..144], &0x33u32.to_le_bytes());
    assert_eq!(&g[164..174], &[0, 1, 2, 3, 4, 5, 6, 7, 8, 9]);
    assert_eq!(&g[532..536], &0x1f80u32.to_le_bytes());
    assert_eq!(&g[536..544], &[0; 8]);
    assert_eq!(&g[544..552], &0x7ffe_0000u64.to_le_bytes());
}

#[test]
fn single_registers_are_slices_of_the_file() {
    let r = TtdRegisters::from_ttd(&snapshot(), 0x7ffe_0000);
    let g = r.gdb_serialize();
    let mut offset = 0;
    for n in 0..REGISTER_COUNT {
        let (id, size) = TtdRegId::from_raw_id(n).unwrap();
        assert_eq!(id.to_raw_id(), Some(n));
        let mut buf = [0xaau8; 20];
        assert_eq!(r.read_register(id, &mut buf), size);
        assert_eq!(&buf[..size], &g[offset..offset + size], "register {n}");
        assert!(buf[size..].iter().all(|b| *b == 0xaa));
        offset += size;
    }
    assert_eq!(offset, G_BUFFER_SIZE);
    assert!(TtdRegId::from_raw_id(59).is_none());
}

#[test]
fn register_numbers_of_each_kind() {
    let core = |id| TtdRegId::Core(id).to_raw_id();
    assert_eq!(core(X86_64CoreRegId::Gpr(3)), Some(3));
    assert_eq!(core(X86_64CoreRegId::Rip), Some(16));
    assert_eq!(core(X86_64CoreRegId::Eflags), Some(17));
    assert_eq!(core(X86_64CoreRegId::Segment(X86SegmentRegId::GS)), Some(23));
    assert_eq!(core(X86_64CoreRegId::St(1)), Some(25));
    assert_eq!(core(X86_64CoreRegId::Fpu(X87FpuInternalRegId::Fop)), Some(39));
    assert_eq!(core(X86_64CoreRegId::Xmm(2)), Some(42));
    assert_eq!(core(X86_64CoreRegId::Mxcsr), Some(56));
    assert_eq!(TtdRegId::FsBase.to_raw_id(), Some(57));
    assert_eq!(TtdRegId::GsBase.to_raw_id(), Some(58));
}

#[test]
fn short_buffers_get_the_low_bytes() {
    let r = TtdRegisters::from_ttd(&snapshot(), 0);
    let mut buf = [0u8; 3];
    assert_eq!(r.read_register(TtdRegId::Core(X86_64CoreRegId::Gpr(0)), &mut buf), 3);
    assert_eq!(buf, [8, 7, 6]);
    assert_eq!(r.read_register(TtdRegId::Core(X86_64CoreRegId::St(2)), &mut buf), 3);
    assert_eq!(buf, [20, 21, 22]);
    assert_eq!(r.read_register(TtdRegId::Core(X86_64CoreRegId::Xmm(0)), &mut buf), 3);
    assert_eq!(buf, [255, 254, 253]);
    assert_eq!(r.read_register(TtdRegId::GsBase, &mut []), 0);
}

#[test]
fn registers_survive_the_wire() {
    let r = TtdRegisters::from_ttd(&snapshot(), 0x7ffe_0000);
    let mut bytes = r.gdb_serialize();
    let mut back = TtdRegisters::default();
    assert_eq!(back.gdb_deserialize(&bytes), Ok(()));
    assert_eq!(back, r);
    assert_eq!(back.clone(), r);

    // Too much is ignored, too little is refused and changes nothing.
    bytes.push(9);
    let mut again = TtdRegisters::default();
    assert_eq!(again.gdb_deserialize(&bytes), Ok(()));
    assert_eq!(again, r);
    assert_eq!(again.gdb_deserialize(&bytes[..551]), Err(()));
    assert_eq!(again, r);
}

#[test]
fn default_file_is_zero() {
    assert!(TtdRegisters::default().gdb_serialize().iter().all(|b| *b == 0));
}

#[test]
fn annexes_name_the_description_files() {
    assert_eq!(target_xml(""), Ok(TargetXml::Target));
    assert_eq!(target_xml("target.xml"), Ok(TargetXml::Target));
    assert_eq!(target_xml("64bit-core.xml"), Ok(TargetXml::Core));
    assert_eq!(target_xml("64bit-sse.xml"), Ok(TargetXml::Sse));
    assert_eq!(target_xml("64bit-seg.xml"), Ok(TargetXml::Seg));
    assert_eq!(target_xml("32bit-core.xml"), Err("32bit-core.xml".to_string()));
}
