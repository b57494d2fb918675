//! What the client reads of the process: documents in pieces, libraries, memory,
//! the auxiliary vector, threads, and the target description.

use vstd::prelude::*;
use vstd::utf8::encode_utf8;

use super::registers::number_at;
use crate::bytes::{le_bytes, lemma_le_bytes_len};
use crate::gdb::regs::{target_xml, TargetXml};
use crate::gdb::target::inspect::{
    auxv, auxv_bytes, describe_thread, is_main_base, law_main_module_is_a_module,
    law_single_names_fix_the_main_module, lower, main_module_base, name_views, named_module,
    names_match, own_names, plain_name, same_name, served, ProcessDescription,
};
use crate::gdb::target::GdbTarget;
use crate::gdb::xml::{
    build_libraries_xml, build_memory_map_xml, escaped, escaped_char, library_xml, memory_xml,
    write_xml_chunk, TargetFault,
};
use crate::target::{module_views, DebugTarget, Module, ModuleInfo, ThreadExtraInfoData};
use crate::text::{all_texts, starts_with};
use crate::text::digits::{decimal, hex};

verus! {

/// A read of a document was served: the bytes from the offset on stand at the
/// start of the buffer, as many as were asked for, fit and exist; the rest of
/// the buffer is as it was.
pub open spec fn piece_served(
    data: Seq<u8>,
    offset: u64,
    length: usize,
    before: Seq<u8>,
    after: Seq<u8>,
    n: usize,
) -> bool {
    &&& after.len() == before.len()
    &&& n <= length && n <= before.len() && (n == 0 || offset + n <= data.len())
    &&& n == length || n == before.len() || offset + n >= data.len()
    &&& forall|i: int| 0 <= i < n ==> #[trigger] after[i] == data[offset + i]
    &&& forall|i: int| n <= i < after.len() ==> #[trigger] after[i] == before[i]
}

/// Documents are read in pieces.
pub proof fn law_pieces_are_served(
    data: &[u8],
    offset: u64,
    length: usize,
    buf: &mut [u8],
    r: Result<usize, TargetFault>,
)
    requires
        call_ensures(write_xml_chunk, (data, offset, length, buf), r),
    ensures
        r matches Ok(n) && piece_served(data@, offset, length, old(buf)@, final(buf)@, n),
{
}

/// The client reads the library list and the memory map of the target's modules,
/// and the path of the executable: the one given, else the name of the first
/// module.
pub proof fn law_documents_are_the_targets<T: DebugTarget>(
    t: GdbTarget<T>,
    ms: &[ModuleInfo],
    libraries: String,
    map: String,
    offset: u64,
    length: usize,
    a: &mut [u8],
    b: &mut [u8],
    c: &mut [u8],
    r: Result<usize, TargetFault>,
    s: Result<usize, TargetFault>,
    q: Result<usize, TargetFault>,
)
    requires
        module_views(ms@) == t@.backend().module_list(),
        call_ensures(build_libraries_xml, (ms,), libraries),
        call_ensures(build_memory_map_xml, (ms,), map),
        call_ensures(GdbTarget::<T>::get_libraries, (&t, offset, length, a), r),
        call_ensures(GdbTarget::<T>::memory_map_xml, (&t, offset, length, b), s),
        call_ensures(GdbTarget::<T>::get_exec_file, (&t, offset, length, c), q),
    ensures
        r matches Ok(n) && piece_served(
            encode_utf8(libraries@),
            offset,
            length,
            old(a)@,
            final(a)@,
            n,
        ),
        s matches Ok(n) && piece_served(encode_utf8(map@), offset, length, old(b)@, final(b)@, n),
        t@.exe_path matches Some(path) ==> q is Ok && piece_served(
            encode_utf8(path),
            offset,
            length,
            old(c)@,
            final(c)@,
            q->Ok_0,
        ),
        t@.exe_path is None && ms@.len() > 0 ==> q is Ok && piece_served(
            encode_utf8(ms@[0].name@),
            offset,
            length,
            old(c)@,
            final(c)@,
            q->Ok_0,
        ),
        t@.exe_path is None && ms@.len() == 0 ==> q is Err,
{
    if ms@.len() > 0 {
        assert(module_views(ms@)[0] == ms@[0]@);
    }
}

/// The entry of a module in the library list.
pub open spec fn library_entry(m: Module) -> Seq<char> {
    "<library name=\""@ + escaped(m.name) + "\"><segment address=\"0x"@ + hex(m.base)
        + "\"/></library>"@
}

/// The entry of a module in the memory map.
pub open spec fn memory_entry(m: Module) -> Seq<char> {
    "<memory type=\"ram\" start=\"0x"@ + hex(m.base) + "\" length=\"0x"@ + hex(m.size) + "\"/>"@
}

/// The library list names each module with the address that it was loaded at,
/// in order, and the memory map gives each module's range.
pub proof fn law_module_documents(ms: &[ModuleInfo], libraries: String, map: String)
    requires
        call_ensures(build_libraries_xml, (ms,), libraries),
        call_ensures(build_memory_map_xml, (ms,), map),
    ensures
        libraries@ == "<library-list version=\"1.0\">"@ + all_texts(
            module_views(ms@),
            |m: Module| library_entry(m),
        ) + "</library-list>"@,
        map@ == "<memory-map>"@ + all_texts(module_views(ms@), |m: Module| memory_entry(m))
            + "</memory-map>"@,
{
    reveal_strlit("<");
    reveal_strlit(">");
    reveal_strlit("</");
    reveal_strlit("/>");
    reveal_strlit(" ");
    reveal_strlit("=\"");
    reveal_strlit("\"");
    reveal_strlit("library-list");
    reveal_strlit("version");
    reveal_strlit("1.0");
    reveal_strlit("library");
    reveal_strlit("name");
    reveal_strlit("segment");
    reveal_strlit("address");
    reveal_strlit("memory-map");
    reveal_strlit("memory");
    reveal_strlit("type");
    reveal_strlit("ram");
    reveal_strlit("start");
    reveal_strlit("length");
    reveal_strlit("<library-list version=\"1.0\">");
    reveal_strlit("</library-list>");
    reveal_strlit("<library name=\"");
    reveal_strlit("\"><segment address=\"0x");
    reveal_strlit("\"/></library>");
    reveal_strlit("<memory type=\"ram\" start=\"0x");
    reveal_strlit("\" length=\"0x");
    reveal_strlit("\"/>");
    reveal_strlit("<memory-map>");
    reveal_strlit("</memory-map>");
    let all = module_views(ms@);
    crate::gdb::xml::law_plain_text_is_written_as_it_is("1.0"@);
    crate::gdb::xml::law_plain_text_is_written_as_it_is("ram"@);
    assert forall|m: Module| #[trigger] library_xml(m) == library_entry(m) by {
        lemma_number_is_plain(m.base);
        assert(library_xml(m) =~= library_entry(m));
    }
    assert forall|m: Module| #[trigger] memory_xml(m) == memory_entry(m) by {
        lemma_number_is_plain(m.base);
        lemma_number_is_plain(m.size);
        assert(memory_xml(m) =~= memory_entry(m));
    }
    lemma_same_texts(all, |m: Module| library_xml(m), |m: Module| library_entry(m));
    lemma_same_texts(all, |m: Module| memory_xml(m), |m: Module| memory_entry(m));
    let entries = all_texts(all, |m: Module| library_entry(m));
    let ranges = all_texts(all, |m: Module| memory_entry(m));
    assert(libraries@ =~= "<library-list version=\"1.0\">"@ + entries + "</library-list>"@);
    assert(map@ =~= "<memory-map>"@ + ranges + "</memory-map>"@);
}

proof fn lemma_number_is_plain(n: nat)
    ensures
        escaped(crate::text::digits::hex_prefixed(n)) == seq!['0', 'x'] + hex(n),
{
    let t = crate::text::digits::hex_prefixed(n);
    super::numbers::law_numerals(n);
    assert forall|i: int| 0 <= i < t.len() implies super::numbers::digit(#[trigger] t[i]) is Some
        || t[i] == 'x' by {
        if i >= 2 {
            assert(t[i] == t.skip(2)[i - 2]);
        }
    }
    crate::gdb::xml::law_plain_text_is_written_as_it_is(t);
}

proof fn lemma_same_texts(
    all: Seq<Module>,
    a: spec_fn(Module) -> Seq<char>,
    b: spec_fn(Module) -> Seq<char>,
)
    requires
        forall|m: Module| #[trigger] a(m) == b(m),
    ensures
        all_texts(all, a) == all_texts(all, b),
    decreases all.len(),
{
    if all.len() > 0 {
        lemma_same_texts(all.drop_last(), a, b);
    }
}

/// The auxiliary vector: the entry point under its type, and the end.
pub proof fn law_auxiliary_vector(base: u64, r: Vec<u8>)
    requires
        call_ensures(auxv, (base,), r),
    ensures
        r@.len() == 32,
        number_at(r@, 0, 8, 9),
        number_at(r@, 8, 8, base as nat),
        number_at(r@, 16, 8, 0),
        number_at(r@, 24, 8, 0),
{
    broadcast use lemma_le_bytes_len;

    let v = r@;
    assert(v.subrange(0, 8) =~= le_bytes(9, 8));
    assert(v.subrange(8, 16) =~= le_bytes(base as nat, 8));
    assert(v.subrange(16, 24) =~= le_bytes(0, 8));
    assert(v.subrange(24, 32) =~= le_bytes(0, 8));
    super::registers::lemma_number_at(v, 0, 8, 9);
    super::registers::lemma_number_at(v, 8, 8, base as nat);
    super::registers::lemma_number_at(v, 16, 8, 0);
    super::registers::lemma_number_at(v, 24, 8, 0);
}

/// The client reads the auxiliary vector of the main module; without modules it
/// is a fault.
pub proof fn law_auxiliary_vector_of_the_main_module<T: DebugTarget>(
    t: GdbTarget<T>,
    offset: u64,
    length: usize,
    buf: &mut [u8],
    r: Result<usize, TargetFault>,
)
    requires
        call_ensures(GdbTarget::<T>::get_auxv, (&t, offset, length, buf), r),
    ensures
        t@.backend().module_list().len() == 0 ==> r is Err && final(buf)@ == old(buf)@,
        t@.backend().module_list().len() > 0 && t@.exe_path is None ==> r is Ok && piece_served(
            le_bytes(9, 8) + le_bytes(t@.backend().module_list()[0].base, 8) + le_bytes(0, 8)
                + le_bytes(0, 8),
            offset,
            length,
            old(buf)@,
            final(buf)@,
            r->Ok_0,
        ),
{
    let modules = t@.backend().module_list();
    let base = choose|base: Option<nat>|
        {
            &&& #[trigger] crate::gdb::target::inspect::is_main_base(t@.exe_path, modules, base)
            &&& match base {
                Some(b) => crate::gdb::target::inspect::served(
                    crate::gdb::target::inspect::auxv_bytes(b),
                    offset,
                    length,
                    old(buf)@,
                    final(buf)@,
                    r,
                ),
                None => r == Err::<usize, TargetFault>(TargetFault::NonFatal) && final(buf)@
                    == old(buf)@,
            }
        };
    crate::gdb::target::inspect::law_main_module_is_a_module(t@.exe_path, modules, base);
}

/// What the client is told of a thread.
pub proof fn law_thread_descriptions(info: Option<ThreadExtraInfoData>, tid: u64, r: String)
    requires
        call_ensures(describe_thread, (info, tid), r),
    ensures
        info is None ==> r@ == "UTID ? (OS 0x"@ + hex(tid as nat) + ")"@,
        info matches Some(i) ==> r@ == "UTID "@ + decimal(i.unique_id as nat) + " (OS 0x"@ + hex(
            tid as nat,
        ) + "); pos "@ + hex(i.current_position.sequence as nat) + ":"@ + hex(
            i.current_position.steps as nat,
        ),
{
    if info is Some {
        let i = info->0;
        assert(r@ =~= "UTID "@ + decimal(i.unique_id as nat) + " (OS 0x"@ + hex(tid as nat)
            + "); pos "@ + hex(i.current_position.sequence as nat) + ":"@ + hex(
            i.current_position.steps as nat,
        ));
    }
}

/// A session describes the threads of its target.
pub proof fn law_session_describes_threads<T: DebugTarget>(
    t: GdbTarget<T>,
    tid: u64,
    text: String,
    buf: &mut [u8],
    n: usize,
)
    requires
        call_ensures(describe_thread, (t@.backend().thread_of(tid), tid), text),
        call_ensures(GdbTarget::<T>::thread_extra_info, (&t, tid, buf), n),
    ensures
        piece_served(encode_utf8(text@), 0, usize::MAX, old(buf)@, final(buf)@, n),
{
}

/// Sections are where the first module is, and the process is a little-endian
/// one of 64 bits on Windows.
pub proof fn law_process<T: DebugTarget>(
    t: GdbTarget<T>,
    offsets: (u64, u64),
    p: ProcessDescription,
)
    requires
        call_ensures(GdbTarget::<T>::get_section_offsets, (&t,), offsets),
        call_ensures(GdbTarget::<T>::process_info, (&t,), p),
    ensures
        t@.backend().module_list().len() > 0 ==> offsets.0 == t@.backend().module_list()[0].base,
        t@.backend().module_list().len() == 0 ==> offsets.0 == 0,
        offsets.1 == offsets.0,
        p.pid == 1 && p.little_endian && p.pointer_size == 8 && p.triple@
            == "x86_64-pc-windows-msvc"@,
{
}

/// The target description is found by its file names, and under no other.
pub proof fn law_target_description(annex: &str, r: Result<TargetXml, String>)
    requires
        call_ensures(target_xml, (annex,), r),
    ensures
        annex@.len() == 0 ==> r is Ok && r->Ok_0 == TargetXml::Target,
        annex@ == "target.xml"@ ==> r is Ok && r->Ok_0 == TargetXml::Target,
        annex@ == "64bit-core.xml"@ ==> r is Ok && r->Ok_0 == TargetXml::Core,
        annex@ == "64bit-sse.xml"@ ==> r is Ok && r->Ok_0 == TargetXml::Sse,
        annex@ == "64bit-seg.xml"@ ==> r is Ok && r->Ok_0 == TargetXml::Seg,
        annex@.len() > 0 && annex@ != "target.xml"@ && annex@ != "64bit-core.xml"@ && annex@
            != "64bit-sse.xml"@ && annex@ != "64bit-seg.xml"@ ==> r is Err,
{
    reveal_strlit("");
    reveal_strlit("target.xml");
    reveal_strlit("64bit-core.xml");
    reveal_strlit("64bit-sse.xml");
    reveal_strlit("64bit-seg.xml");
    assert("64bit-core.xml"@[6] == 'c');
    assert("64bit-sse.xml"@[6] == 's' && "64bit-sse.xml"@[7] == 's');
    assert("64bit-seg.xml"@[6] == 's' && "64bit-seg.xml"@[7] == 'e');
    assert("target.xml"@[0] == 't');
    if annex@.len() == 0 {
        assert(annex@ =~= ""@);
    }
}

/// A session serves the target description under the same names.
pub proof fn law_session_target_description<T: DebugTarget>(
    t: GdbTarget<T>,
    annex: &str,
    bytes: &[u8],
    r: Result<TargetXml, String>,
    q: Result<TargetXml, TargetFault>,
)
    requires
        bytes@ == encode_utf8(annex@),
        call_ensures(target_xml, (annex,), r),
        call_ensures(GdbTarget::<T>::target_description_xml, (&t, bytes), q),
    ensures
        r matches Ok(x) ==> q is Ok && q->Ok_0 == x,
        r is Err ==> q is Err,
{
    vstd::utf8::encode_utf8_valid_utf8(annex@);
    vstd::utf8::encode_utf8_decode_utf8(annex@);
}

/// Two characters are the same letter, or the same character.
pub open spec fn same_letter(a: char, b: char) -> bool {
    a == b || 'A' <= a <= 'Z' && b as u32 == a as u32 + 32 || 'A' <= b <= 'Z' && a as u32 == b as u32
        + 32
}

/// File names are compared without regard to the case of ASCII letters.
pub proof fn law_names_are_compared(a: &str, b: &str, r: bool)
    requires
        call_ensures(names_match, (a, b), r),
    ensures
        r <==> a@.len() == b@.len() && forall|i: int|
            0 <= i < a@.len() ==> same_letter(#[trigger] a@[i], b@[i]),
{
    if r {
        assert forall|i: int| 0 <= i < a@.len() implies same_letter(#[trigger] a@[i], b@[i]) by {
            assert(lower(a@[i]) == lower(b@[i]));
            lemma_same_letter(a@[i], b@[i]);
        }
    }
    if a@.len() == b@.len() && forall|i: int|
        0 <= i < a@.len() ==> same_letter(#[trigger] a@[i], b@[i]) {
        assert forall|i: int| 0 <= i < a@.len() implies lower(#[trigger] a@[i]) == lower(
            b@[i],
        ) by {
            assert(same_letter(a@[i], b@[i]));
            lemma_same_letter(a@[i], b@[i]);
        }
    }
}

proof fn lemma_same_letter(a: char, b: char)
    ensures
        lower(a) == lower(b) <==> same_letter(a, b),
{
    vstd::utf8::char_u32_cast(a, a as u32);
    vstd::utf8::char_u32_cast(b, b as u32);
}

/// The main module is the first with the wanted file name, else the first.
pub proof fn law_main_module(
    want: Option<&str>,
    names: &[Option<String>],
    modules: &[ModuleInfo],
    r: Option<u64>,
    i: int,
)
    requires
        names@.len() == modules@.len(),
        call_ensures(main_module_base, (want, names, modules), r),
    ensures
        ({
            let named = |k: int|
                want is Some && names@[k] is Some && same_name(names@[k]->0@, want->0@);
            &&& modules@.len() == 0 ==> r is None
            &&& 0 <= i < modules@.len() && named(i) && (forall|k: int|
                0 <= k < i ==> !#[trigger] named(k)) ==> r == Some(modules@[i].base_addr)
            &&& modules@.len() > 0 && (forall|k: int|
                0 <= k < modules@.len() ==> !#[trigger] named(k)) ==> r == Some(
                modules@[0].base_addr,
            )
        }),
{
    let named = |k: int| want is Some && names@[k] is Some && same_name(names@[k]->0@, want->0@);
    let views = name_views(names@);
    let ms = module_views(modules@);
    if want is Some {
        let w = want->0@;
        assert forall|k: int| 0 <= k < views.len() implies (views[k] is Some && same_name(
            views[k]->0,
            w,
        )) == #[trigger] named(k) by {
        }
        if 0 <= i < modules@.len() && named(i) && (forall|k: int|
            0 <= k < i ==> !#[trigger] named(k)) {
            assert forall|k: int| 0 <= k < i implies !(#[trigger] views[k] is Some && same_name(
                views[k]->0,
                w,
            )) by {
                assert(!named(k));
            }
            lemma_named_at(w, views, i);
            assert(ms[i] == modules@[i]@);
        }
        if forall|k: int| 0 <= k < modules@.len() ==> !#[trigger] named(k) {
            assert forall|k: int| 0 <= k < views.len() implies !(#[trigger] views[k] is Some
                && same_name(views[k]->0, w)) by {
                assert(!named(k));
            }
            lemma_named_nowhere(w, views);
        }
    }
    if modules@.len() > 0 {
        assert(ms[0] == modules@[0]@);
    }
}

proof fn lemma_named_at(w: Seq<char>, names: Seq<Option<Seq<char>>>, i: int)
    requires
        0 <= i < names.len(),
        names[i] is Some && same_name(names[i]->0, w),
        forall|k: int|
            0 <= k < i ==> !(#[trigger] names[k] is Some && same_name(names[k]->0, w)),
    ensures
        named_module(w, names) == i,
    decreases names.len(),
{
    if i > 0 {
        assert(!(names[0] is Some && same_name(names[0]->0, w)));
        assert forall|k: int| 0 <= k < i - 1 implies !(#[trigger] names.skip(1)[k] is Some
            && same_name(names.skip(1)[k]->0, w)) by {
            assert(!(names[k + 1] is Some && same_name(names[k + 1]->0, w)));
        }
        lemma_named_at(w, names.skip(1), i - 1);
    }
}

proof fn lemma_named_nowhere(w: Seq<char>, names: Seq<Option<Seq<char>>>)
    requires
        forall|k: int|
            0 <= k < names.len() ==> !(#[trigger] names[k] is Some && same_name(names[k]->0, w)),
    ensures
        named_module(w, names) == names.len(),
    decreases names.len(),
{
    if names.len() > 0 {
        assert(!(names[0] is Some && same_name(names[0]->0, w)));
        assert forall|k: int| 0 <= k < names.skip(1).len() implies !(
        #[trigger] names.skip(1)[k] is Some && same_name(names.skip(1)[k]->0, w)) by {
            assert(!(names[k + 1] is Some && same_name(names[k + 1]->0, w)));
        }
        lemma_named_nowhere(w, names.skip(1));
    }
}

/// The session's main module is the one that the names of the executable and of
/// the modules tell, where they are single names. The auxiliary vector gives its
/// base, and without the path of an executable it is the first module.
pub proof fn law_session_main_module<T: DebugTarget>(
    t: GdbTarget<T>,
    path: &str,
    names: &[Option<String>],
    modules: &[ModuleInfo],
    named: Option<u64>,
    r: Option<u64>,
    vector: Vec<u8>,
    offset: u64,
    length: usize,
    buf: &mut [u8],
    n: Result<usize, TargetFault>,
)
    requires
        module_views(modules@) == t@.backend().module_list(),
        names@.len() == modules@.len(),
        forall|i: int|
            0 <= i < names@.len() ==> #[trigger] names@[i] is Some && names@[i]->0@
                == modules@[i].name@,
        call_ensures(main_module_base, (Some(path), names, modules), named),
        call_ensures(GdbTarget::<T>::exe_module_base, (&t,), r),
        named is Some ==> call_ensures(auxv, (named->0,), vector),
        call_ensures(GdbTarget::<T>::get_auxv, (&t, offset, length, buf), n),
    ensures
        ({
            let single = t@.exe_path == Some(path@) && plain_name(path@) && forall|i: int|
                0 <= i < modules@.len() ==> plain_name(#[trigger] modules@[i].name@);
            &&& single ==> r == named
            &&& single && named is Some ==> n is Ok && piece_served(
                vector@,
                offset,
                length,
                old(buf)@,
                final(buf)@,
                n->Ok_0,
            )
            &&& t@.exe_path is None && modules@.len() > 0 ==> r == Some(modules@[0].base_addr)
            &&& r is None <==> modules@.len() == 0
        }),
{
    let list = t@.backend().module_list();
    let base = match r {
        Some(b) => Some(b as nat),
        None => None,
    };
    law_main_module_is_a_module(t@.exe_path, list, base);
    assert forall|i: int| 0 <= i < modules@.len() implies list[i] == (#[trigger] modules@[i])@ by {
        assert(module_views(modules@)[i] == modules@[i]@);
    }
    let other = choose|base: Option<nat>|
        {
            &&& #[trigger] is_main_base(t@.exe_path, list, base)
            &&& match base {
                Some(b) => served(auxv_bytes(b), offset, length, old(buf)@, final(buf)@, n),
                None => n == Err::<usize, TargetFault>(TargetFault::NonFatal) && final(buf)@
                    == old(buf)@,
            }
        };
    if t@.exe_path == Some(path@) && plain_name(path@) && forall|i: int|
        0 <= i < modules@.len() ==> plain_name(#[trigger] modules@[i].name@) {
        assert forall|k: int| 0 <= k < list.len() implies plain_name((#[trigger] list[k]).name) by {
            assert(plain_name(modules@[k].name@));
        }
        law_single_names_fix_the_main_module(path@, list, base);
        law_single_names_fix_the_main_module(path@, list, other);
        assert(name_views(names@) =~= own_names(list)) by {
            assert forall|i: int| 0 <= i < names@.len() implies name_views(names@)[i] == own_names(
                list,
            )[i] by {
                assert(names@[i] is Some && names@[i]->0@ == modules@[i].name@);
                assert(list[i] == modules@[i]@);
            }
        }
    }
}

/// The character that a text starts with, as a reader of XML sees it, and how
/// many characters it takes.
pub open spec fn first_read(t: Seq<char>) -> (char, int) {
    if t[0] != '&' {
        (t[0], 1)
    } else if starts_with(t, "&lt;"@) {
        ('<', 4)
    } else if starts_with(t, "&gt;"@) {
        ('>', 4)
    } else if starts_with(t, "&amp;"@) {
        ('&', 5)
    } else if starts_with(t, "&apos;"@) {
        ('\'', 6)
    } else if starts_with(t, "&quot;"@) {
        ('"', 6)
    } else if starts_with(t, "&#13;"@) {
        ('\r', 5)
    } else if starts_with(t, "&#10;"@) {
        ('\n', 5)
    } else if starts_with(t, "&#9;"@) {
        ('\t', 4)
    } else {
        (t[0], 1)
    }
}

/// A text as a reader of XML sees it.
pub open spec fn read_back(t: Seq<char>) -> Seq<char>
    decreases t.len(),
{
    if t.len() == 0 {
        Seq::empty()
    } else {
        let (c, n) = first_read(t);
        if 0 < n <= t.len() {
            seq![c] + read_back(t.skip(n))
        } else {
            Seq::empty()
        }
    }
}

/// Whatever a name holds, a reader of the document reads that name.
pub proof fn law_escaped_text_is_read_back(s: Seq<char>)
    ensures
        read_back(escaped(s)) == s,
    decreases s.len(),
{
    if s.len() > 0 {
        let c = s[0];
        let rest = s.skip(1);
        law_escaped_text_is_read_back(rest);
        lemma_escaped_first(s);
        lemma_first_read(c, escaped(rest));
        let t = escaped_char(c) + escaped(rest);
        assert(t.skip(escaped_char(c).len() as int) =~= escaped(rest));
        assert(seq![c] + rest =~= s);
    }
}

proof fn lemma_escaped_first(s: Seq<char>)
    requires
        s.len() > 0,
    ensures
        escaped(s) == escaped_char(s[0]) + escaped(s.skip(1)),
    decreases s.len(),
{
    let text = |c: char| escaped_char(c);
    if s.len() == 1 {
        assert(s.drop_last() =~= Seq::<char>::empty());
        assert(s.skip(1) =~= Seq::<char>::empty());
        assert(all_texts(Seq::<char>::empty(), text) =~= Seq::<char>::empty());
        assert(escaped(s) == all_texts(s.drop_last(), text) + text(s.last()));
        assert(escaped(s) =~= escaped_char(s[0]) + escaped(s.skip(1)));
    } else {
        lemma_escaped_first(s.drop_last());
        assert(s.drop_last().skip(1) =~= s.skip(1).drop_last());
        let middle = escaped(s.skip(1).drop_last());
        let last = escaped_char(s.last());
        assert(escaped(s.skip(1)) == middle + last);
        assert(escaped(s) == escaped(s.drop_last()) + last);
        assert(escaped(s) =~= escaped_char(s[0]) + escaped(s.skip(1)));
    }
}

proof fn lemma_first_read(c: char, rest: Seq<char>)
    ensures
        escaped_char(c).len() > 0,
        first_read(escaped_char(c) + rest) == (c, escaped_char(c).len() as int),
{
    let t = escaped_char(c) + rest;
    reveal_strlit("&lt;");
    reveal_strlit("&gt;");
    reveal_strlit("&amp;");
    reveal_strlit("&apos;");
    reveal_strlit("&quot;");
    reveal_strlit("&#13;");
    reveal_strlit("&#10;");
    reveal_strlit("&#9;");
    if c == '<' {
        assert(t.take(4) =~= "&lt;"@);
    }
    if c == '>' {
        assert(t.take(4) =~= "&gt;"@);
    }
    if c == '&' {
        assert(t.take(5) =~= "&amp;"@);
    }
    if c == '\'' {
        assert(t.take(6) =~= "&apos;"@);
    }
    if c == '"' {
        assert(t.take(6) =~= "&quot;"@);
    }
    if c == '\r' {
        assert(t.take(5) =~= "&#13;"@);
    }
    if c == '\n' {
        assert(t.take(5) =~= "&#10;"@);
    }
    if c == '\t' {
        assert(t.take(4) =~= "&#9;"@);
    }
    if starts_with(t, "&lt;"@) {
        assert(t.take(4)[1] == t[1]);
        assert(t.take(4)[2] == t[2]);
        assert(t.take(4)[3] == t[3]);
    }
    if starts_with(t, "&gt;"@) {
        assert(t.take(4)[1] == t[1]);
        assert(t.take(4)[2] == t[2]);
        assert(t.take(4)[3] == t[3]);
    }
    if starts_with(t, "&amp;"@) {
        assert(t.take(5)[1] == t[1]);
        assert(t.take(5)[2] == t[2]);
        assert(t.take(5)[3] == t[3]);
    }
    if starts_with(t, "&apos;"@) {
        assert(t.take(6)[1] == t[1]);
        assert(t.take(6)[2] == t[2]);
        assert(t.take(6)[3] == t[3]);
    }
    if starts_with(t, "&quot;"@) {
        assert(t.take(6)[1] == t[1]);
        assert(t.take(6)[2] == t[2]);
        assert(t.take(6)[3] == t[3]);
    }
    if starts_with(t, "&#13;"@) {
        assert(t.take(5)[1] == t[1]);
        assert(t.take(5)[2] == t[2]);
        assert(t.take(5)[3] == t[3]);
    }
    if starts_with(t, "&#10;"@) {
        assert(t.take(5)[1] == t[1]);
        assert(t.take(5)[2] == t[2]);
        assert(t.take(5)[3] == t[3]);
    }
    if starts_with(t, "&#9;"@) {
        assert(t.take(4)[1] == t[1]);
        assert(t.take(4)[2] == t[2]);
        assert(t.take(4)[3] == t[3]);
    }
}

} // verus!
