//! The documents that are served in chunks.

use ttd_gdbserver::gdb::xml::{build_libraries_xml, build_memory_map_xml, write_xml_chunk};
use ttd_gdbserver::target::ModuleInfo;

fn chunk(data: &[u8], offset: u64, length: usize, buf: &mut [u8]) -> usize {
    write_xml_chunk(data, offset, length, buf).expect("chunk read cannot fail")
}

fn module(name: &str, base: u64, size: u64) -> ModuleInfo {
    ModuleInfo {
        base_addr: base,
        size,
        name: name.to_string(),
    }
}

/// A qXfer read is a slice of a byte string; the four cases below are the
/// ones that silently corrupt payloads when wrong: exact fit, offset past
/// the end (`l` terminator), a caller buffer smaller than the chunk, and
/// a zero-length request.
#[test]
fn chunk_reads() {
    let data = b"0123456789";

    // Exact fit.
    let mut buf = [0u8; 10];
    assert_eq!(chunk(data, 0, 10, &mut buf), 10);
    assert_eq!(&buf, data);

    // Whole buffer requested but the caller's is smaller.
    let mut small = [0u8; 4];
    assert_eq!(chunk(data, 0, 10, &mut small), 4);
    assert_eq!(&small, b"0123");

    // Middle slice.
    let mut mid = [0u8; 3];
    assert_eq!(chunk(data, 4, 3, &mut mid), 3);
    assert_eq!(&mid, b"456");

    // Saturating end: 2 bytes left from offset 8.
    let mut tail = [0u8; 8];
    assert_eq!(chunk(data, 8, 8, &mut tail), 2);
    assert_eq!(&tail[..2], b"89");

    // Offset past the end -> 0 (gdb reads that as "last chunk").
    let mut none = [0u8; 4];
    assert_eq!(chunk(data, 10, 4, &mut none), 0);
    assert_eq!(chunk(data, 999, 4, &mut none), 0);

    // Zero bytes of payload: no data, no error.
    assert_eq!(chunk(b"", 0, 4, &mut none), 0);
}

#[test]
fn libraries_xml_shape() {
    let xml = build_libraries_xml(&[
        module("C:\\Windows\\System32\\ntdll.dll", 0x140_000_000, 0x1000),
        module("C:\\path with space\\test.exe", 0x7ff6_0000_0000, 0x2000),
    ]);
    assert!(xml.starts_with("<library-list version=\"1.0\">"), "{xml}");
    assert!(xml.ends_with("</library-list>"), "{xml}");
    assert!(
        xml.contains("<library name=\"C:\\Windows\\System32\\ntdll.dll\">"),
        "{xml}"
    );
    assert!(xml.contains("<segment address=\"0x140000000\"/>"), "{xml}");
    assert!(
        xml.contains("<segment address=\"0x7ff600000000\"/>"),
        "{xml}"
    );
}

/// Module paths are attacker-controlled data on the wire only in the
/// sense that they come from the trace; a name with XML metacharacters
/// must not be able to break out of the attribute.
#[test]
fn libraries_xml_escapes_module_names() {
    let xml = build_libraries_xml(&[module("a&b<c>\"d\".dll", 0x1000, 0x10)]);
    assert!(
        xml.contains("a&amp;b&lt;c&gt;&quot;d&quot;.dll"),
        "module name must be XML-escaped: {xml}"
    );
    assert!(!xml.contains("a&b"), "raw ampersand leaked: {xml}");
}

#[test]
fn memory_map_xml_shape() {
    let xml = build_memory_map_xml(&[module("a.dll", 0x1000, 0x5000)]);
    assert_eq!(
        xml,
        "<memory-map><memory type=\"ram\" start=\"0x1000\" length=\"0x5000\"/></memory-map>"
    );
}

/// An empty module list must still be a well-formed document — gdb parses
/// it and simply shows nothing (a trace always has modules, but the stub
/// must not emit a half-open tag if it ever sees none).
#[test]
fn empty_module_lists_are_valid_documents() {
    assert_eq!(
        build_libraries_xml(&[]),
        "<library-list version=\"1.0\"></library-list>"
    );
    assert_eq!(build_memory_map_xml(&[]), "<memory-map></memory-map>");
}

#[test]
fn every_special_character_is_escaped() {
    let xml = build_libraries_xml(&[module("<>&'\"\r\n\t\u{fc}", 0, 0)]);
    assert_eq!(
        xml,
        "<library-list version=\"1.0\"><library name=\"&lt;&gt;&amp;&apos;&quot;&#13;&#10;&#9;\u{fc}\">\
         <segment address=\"0x0\"/></library></library-list>"
    );
}

#[test]
fn chunks_make_up_the_document() {
    let data: Vec<u8> = (0..100).collect();
    for step in [1usize, 3, 99, 100, 1000] {
        let mut all: Vec<u8> = Vec::new();
        loop {
            let mut buf = vec![0u8; step];
            let n = chunk(&data, all.len() as u64, step, &mut buf);
            if n == 0 {
                break;
            }
            all.extend_from_slice(&buf[..n]);
        }
        assert_eq!(all, data);
    }
    assert_eq!(chunk(&data, u64::MAX, usize::MAX, &mut [0u8; 4]), 0);
}

#[test]
fn chunks_of_any_sizes_make_up_the_document() {
    let data = b"0123456789";
    let mut read: Vec<u8> = Vec::new();
    for size in [3, 1, 4, 20] {
        let mut buf = [0u8; 32];
        let n = write_xml_chunk(data, read.len() as u64, size, &mut buf).unwrap();
        assert!(n > 0);
        read.extend_from_slice(&buf[..n]);
    }
    assert_eq!(read, data);
    let mut buf = [0u8; 4];
    assert_eq!(write_xml_chunk(data, 10, 4, &mut buf).unwrap(), 0);
}
