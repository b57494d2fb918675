//! What the client can learn of the process: restart, executable, auxiliary
//! vector, modules, threads, monitor commands and the target description.

use vstd::prelude::*;
use vstd::utf8::{decode_utf8, encode_utf8, valid_utf8};

use super::{optional_text, GdbState, GdbTarget};
use crate::bytes::{le_bytes, push_le};
use crate::gdb::commands::{handle_vrun, restart_goal, restart_text, CommandTarget};
use crate::gdb::monitor::{monitor_fits, monitor_text, position_hex, render};
use crate::gdb::regs::{annex_file, fill, overlaid, target_xml, TargetXml};
use crate::gdb::xml::{
    build_libraries_xml, build_memory_map_xml, chunk, libraries_xml, memory_map_xml,
    write_xml_chunk, TargetFault,
};
use crate::target::error::DebugError;
use crate::target::stop_reason::StopReason;
use crate::target::{module_views, DebugTarget, Module, ModuleInfo, ThreadExtraInfoData};
use crate::text::chars_of;
use crate::text::digits::{decimal, hex, push_decimal, push_hex};
use crate::text::split::words;
use crate::text::utf8::text_strict;
use crate::ttd::types::TtdPosition;

verus! {

/// The process id of the only process.
pub const PROCESS_ID: u64 = 1;

/// The type of the auxiliary vector's entry point.
pub const AT_ENTRY: u64 = 9;

/// The text of a packet; empty if it is not UTF-8.
pub open spec fn packet_text(body: Seq<u8>) -> Seq<char> {
    if valid_utf8(body) {
        decode_utf8(body)
    } else {
        Seq::empty()
    }
}

/// The text of a packet; empty if it is not UTF-8.
pub fn text_of_packet(body: &[u8]) -> (r: String)
    ensures
        r@ == packet_text(body@),
{
    match text_strict(body) {
        Some(s) => s,
        None => {
            let none = String::new();
            assert(none@ =~= Seq::<char>::empty());
            none
        },
    }
}

/// A served read: as much of the requested part of `data` as fits stands at the
/// start of the buffer, and the result says how much that is.
pub open spec fn served(
    data: Seq<u8>,
    offset: u64,
    length: usize,
    before: Seq<u8>,
    after: Seq<u8>,
    r: Result<usize, TargetFault>,
) -> bool {
    let part = chunk(data, offset as nat, length as nat);
    &&& after == overlaid(before, part)
    &&& r is Ok
    &&& r->Ok_0 == (if part.len() <= before.len() {
        part.len()
    } else {
        before.len()
    })
}

/// A letter in lower case; other characters as they are.
pub open spec fn lower(c: char) -> char {
    if 'A' <= c <= 'Z' {
        (c as u8 + 32) as u8 as char
    } else {
        c
    }
}

/// Two names differ at most in the case of ASCII letters.
pub open spec fn same_name(a: Seq<char>, b: Seq<char>) -> bool {
    a.len() == b.len() && forall|i: int| 0 <= i < a.len() ==> lower(#[trigger] a[i]) == lower(b[i])
}

fn lower_char(c: char) -> (r: char)
    ensures
        r == lower(c),
{
    if 'A' <= c && c <= 'Z' {
        (c as u8 + 32) as char
    } else {
        c
    }
}

/// Whether two names differ at most in the case of ASCII letters.
pub fn names_match(a: &str, b: &str) -> (r: bool)
    ensures
        r == same_name(a@, b@),
{
    let x = chars_of(a);
    let y = chars_of(b);
    if x.len() != y.len() {
        return false;
    }
    for i in 0..x.len()
        invariant
            x@ == a@,
            y@ == b@,
            x@.len() == y@.len(),
            forall|k: int| 0 <= k < i ==> lower(#[trigger] a@[k]) == lower(b@[k]),
    {
        if lower_char(x[i]) != lower_char(y[i]) {
            assert(lower(a@[i as int]) != lower(b@[i as int]));
            return false;
        }
    }
    true
}

/// A path that is a single name on every system: it holds nothing that separates
/// components or ends a prefix, and it is neither of the two dot names.
pub open spec fn plain_name(path: Seq<char>) -> bool {
    &&& path.len() > 0
    &&& !path.contains('/') && !path.contains('\\') && !path.contains(':')
    &&& path != seq!['.'] && path != seq!['.', '.']
}

/// `std::path::Path::file_name`, as text: the last component of a path. A path
/// that is a single name is its own last component. What separates the
/// components of other paths depends on the system, so nothing is claimed of
/// them.
#[verifier::external_body]
fn file_name(path: &str) -> (r: Option<String>)
    ensures
        plain_name(path@) ==> r is Some && r->0@ == path@,
{
    std::path::Path::new(path).file_name().and_then(|name| name.to_str()).map(String::from)
}

/// `r` is what [`file_name`] gave for a path.
pub closed spec fn file_name_of(path: Seq<char>, r: Option<String>) -> bool {
    exists|s: &str| s@ == path && #[trigger] call_ensures(file_name, (s,), r)
}

/// The file names that the system gave: `want` for the executable, and `names`
/// for the modules.
pub open spec fn names_heard(
    exe_path: Option<Seq<char>>,
    modules: Seq<Module>,
    want: Option<String>,
    names: Seq<Option<String>>,
) -> bool {
    &&& match exe_path {
        Some(path) => file_name_of(path, want),
        None => want is None,
    }
    &&& names.len() == modules.len()
    &&& forall|k: int| 0 <= k < modules.len() ==> file_name_of(modules[k].name, #[trigger] names[k])
}

/// The file names of some paths.
pub open spec fn name_views(names: Seq<Option<String>>) -> Seq<Option<Seq<char>>> {
    names.map_values(
        |n: Option<String>|
            match n {
                Some(s) => Some(s@),
                None => None,
            },
    )
}

/// The index of the first module with the wanted file name; the number of
/// modules if there is none.
pub open spec fn named_module(want: Seq<char>, names: Seq<Option<Seq<char>>>) -> int
    decreases names.len(),
{
    if names.len() == 0 || (names[0] is Some && same_name(names[0]->0, want)) {
        0
    } else {
        1 + named_module(want, names.skip(1))
    }
}

/// The base address of the main module: the one whose file name is that of the
/// executable, else the first.
pub open spec fn main_base(
    want: Option<Seq<char>>,
    names: Seq<Option<Seq<char>>>,
    modules: Seq<Module>,
) -> Option<nat> {
    if modules.len() == 0 {
        None
    } else if want is Some && named_module(want->0, names) < modules.len() {
        Some(modules[named_module(want->0, names)].base)
    } else {
        Some(modules[0].base)
    }
}

/// `base` is the base address of the main module, by the file names that the
/// system gave.
pub open spec fn is_main_base(
    exe_path: Option<Seq<char>>,
    modules: Seq<Module>,
    base: Option<nat>,
) -> bool {
    exists|want: Option<String>, names: Seq<Option<String>>| #[trigger]
        names_heard(exe_path, modules, want, names) && main_base(
            optional_text(want),
            name_views(names),
            modules,
        ) == base
}

/// There is a main module exactly if there are modules, it is one of them, and
/// without the path of an executable it is the first.
pub proof fn law_main_module_is_a_module(
    exe_path: Option<Seq<char>>,
    modules: Seq<Module>,
    base: Option<nat>,
)
    requires
        is_main_base(exe_path, modules, base),
    ensures
        base is None <==> modules.len() == 0,
        base is Some ==> exists|i: int|
            0 <= i < modules.len() && (#[trigger] modules[i]).base == base->0,
        base is Some && exe_path is None ==> base->0 == modules[0].base,
{
    let (want, names) = choose|want: Option<String>, names: Seq<Option<String>>| #[trigger]
        names_heard(exe_path, modules, want, names) && main_base(
            optional_text(want),
            name_views(names),
            modules,
        ) == base;
    if want is Some {
        lemma_named_module(want->0@, name_views(names));
    }
}

/// The modules' names, each as the file name of its module.
pub open spec fn own_names(modules: Seq<Module>) -> Seq<Option<Seq<char>>> {
    modules.map_values(|m: Module| Some(m.name))
}

/// Where the path of the executable and the modules' names are single names,
/// the main module does not depend on the system: it is the first module with
/// the name of the executable, up to the case of ASCII letters, else the first.
pub proof fn law_single_names_fix_the_main_module(
    path: Seq<char>,
    modules: Seq<Module>,
    base: Option<nat>,
)
    requires
        is_main_base(Some(path), modules, base),
        plain_name(path),
        forall|k: int| 0 <= k < modules.len() ==> plain_name((#[trigger] modules[k]).name),
    ensures
        base == main_base(Some(path), own_names(modules), modules),
{
    let (want, names) = choose|want: Option<String>, names: Seq<Option<String>>| #[trigger]
        names_heard(Some(path), modules, want, names) && main_base(
            optional_text(want),
            name_views(names),
            modules,
        ) == base;
    assert(file_name_of(path, want));
    assert(optional_text(want) == Some(path));
    assert forall|k: int| 0 <= k < modules.len() implies name_views(names)[k] == own_names(
        modules,
    )[k] by {
        assert(file_name_of(modules[k].name, names[k]));
    }
    assert(name_views(names) =~= own_names(modules));
}

/// The base address of the main module, given the file names of the executable
/// and of the modules.
pub fn main_module_base(
    want: Option<&str>,
    names: &[Option<String>],
    modules: &[ModuleInfo],
) -> (r: Option<u64>)
    requires
        names@.len() == modules@.len(),
    ensures
        ({
            let wanted = match want {
                Some(w) => Some(w@),
                None => None,
            };
            match main_base(wanted, name_views(names@), module_views(modules@)) {
                Some(base) => r is Some && r->0 == base,
                None => r is None,
            }
        }),
{
    let ghost views = name_views(names@);
    let ghost ms = module_views(modules@);
    if modules.len() == 0 {
        return None;
    }
    if let Some(w) = want {
        assert(views.skip(0) =~= views);
        for i in 0..names.len()
            invariant
                views == name_views(names@),
                ms == module_views(modules@),
                names@.len() == modules@.len(),
                want == Some(w),
                modules@.len() > 0,
                named_module(w@, views) == i + named_module(w@, views.skip(i as int)),
        {
            assert(views.skip(i as int).skip(1) =~= views.skip(i as int + 1));
            assert(ms[i as int] == modules@[i as int]@);
            if let Some(n) = &names[i] {
                assert(views[i as int] == Some(n@));
                if names_match(n.as_str(), w) {
                    return Some(modules[i].base_addr);
                }
            }
        }
    }
    assert(ms[0] == modules@[0]@);
    Some(modules[0].base_addr)
}

/// The auxiliary vector: the entry point, which is the base of the main module,
/// and the end.
pub open spec fn auxv_bytes(base: nat) -> Seq<u8> {
    le_bytes(AT_ENTRY as nat, 8) + le_bytes(base, 8) + le_bytes(0, 8) + le_bytes(0, 8)
}

/// The auxiliary vector of a process whose main module is at `base`.
pub fn auxv(base: u64) -> (r: Vec<u8>)
    ensures
        r@ == auxv_bytes(base as nat),
{
    let mut out: Vec<u8> = Vec::new();
    push_le(&mut out, AT_ENTRY as u128, 8);
    push_le(&mut out, base as u128, 8);
    push_le(&mut out, 0, 8);
    push_le(&mut out, 0, 8);
    assert(out@ =~= auxv_bytes(base as nat));
    out
}

/// What the client is told of the process.
#[derive(Clone, Copy, Debug)]
pub struct ProcessDescription {
    pub pid: u64,
    pub triple: &'static str,
    pub little_endian: bool,
    pub pointer_size: u8,
}

/// What the client is told of a thread.
pub open spec fn thread_text(info: Option<ThreadExtraInfoData>, tid: u64) -> Seq<char> {
    match info {
        Some(i) => "UTID "@ + decimal(i.unique_id as nat) + " (OS 0x"@ + hex(tid as nat)
            + "); pos "@ + position_hex(i.current_position),
        None => "UTID ? (OS 0x"@ + hex(tid as nat) + ")"@,
    }
}

/// What the client is told of a thread.
pub fn describe_thread(info: Option<ThreadExtraInfoData>, tid: u64) -> (r: String)
    ensures
        r@ == thread_text(info, tid),
{
    let mut out = String::new();
    match info {
        Some(i) => {
            out.append("UTID ");
            push_decimal(&mut out, i.unique_id as u64);
            out.append(" (OS 0x");
            push_hex(&mut out, tid);
            out.append("); pos ");
            push_hex(&mut out, i.current_position.sequence);
            out.append(":");
            push_hex(&mut out, i.current_position.steps);
        },
        None => {
            out.append("UTID ? (OS 0x");
            push_hex(&mut out, tid);
            out.append(")");
        },
    }
    assert(out@ =~= thread_text(info, tid));
    out
}

/// The backend jumped to `pos`.
pub open spec fn jumped<T: DebugTarget>(
    before: GdbState<T>,
    pos: TtdPosition,
    after: GdbState<T>,
) -> bool {
    exists|b: T, reason: Result<StopReason, DebugError>| #[trigger]
        before.backend().may_goto(pos, b, reason) && after == before.with_backend(b)
}

impl<T: DebugTarget> GdbTarget<T> {
    /// Restart at the position that the first argument names. Not served while
    /// a replay is running.
    pub fn run(&mut self, arg: Option<&[u8]>) -> (r: Result<u64, TargetFault>)
        ensures
            final(self).wf() == old(self).wf(),
            r == (if old(self)@.runner.running() {
                Err::<u64, TargetFault>(TargetFault::NonFatal)
            } else {
                Ok(PROCESS_ID)
            }),
            old(self)@.runner.running() ==> final(self)@ == old(self)@,
            !old(self)@.runner.running() ==> (match restart_goal(
                restart_text(
                    match arg {
                        Some(a) => Some(a@),
                        None => None,
                    },
                ),
                old(self)@.checkpoints,
                old(self)@.backend().extent().0,
            ) {
                Some(pos) => jumped(old(self)@, pos, final(self)@),
                None => final(self)@ == old(self)@,
            }),
    {
        match self.runner.lock() {
            Some(backend) => {
                let ghost before = *backend;
                handle_vrun(backend, &self.checkpoints, arg);
                proof {
                    let after = old(self)@.with_backend(*backend);
                    assert(before == old(self)@.backend());
                    assert(*backend == before ==> after == old(self)@);
                    assert forall|pos: TtdPosition|
                        before.may_move(pos, *backend) implies #[trigger] jumped(
                        old(self)@,
                        pos,
                        after,
                    ) by {
                        let reason = choose|reason: Result<StopReason, DebugError>| #[trigger]
                            before.may_goto(pos, *backend, reason);
                        assert(old(self)@.backend().may_goto(pos, *backend, reason));
                    }
                }
            },
            None => {
                return Err(TargetFault::NonFatal);
            },
        }
        Ok(PROCESS_ID)
    }

    /// Attaching is not possible.
    pub fn attach(&self) -> (r: Result<(), TargetFault>)
        ensures
            r == Err::<(), TargetFault>(TargetFault::NonFatal),
    {
        Err(TargetFault::NonFatal)
    }

    /// Jump to the start of the trace.
    pub fn restart(&mut self)
        requires
            !old(self)@.runner.running(),
        ensures
            final(self).wf() == old(self).wf(),
            jumped(old(self)@, old(self)@.backend().extent().0, final(self)@),
    {
        let b = self.backend_mut();
        let (first, _) = b.lifetime();
        let reason = b.goto(first);
        assert(old(self)@.backend().may_goto(first, *b, reason));
    }

    /// The path of the executable: the one given for the session, else the name
    /// of the first module. Without either it is a fault.
    pub fn get_exec_file(&self, offset: u64, length: usize, buf: &mut [u8]) -> (r: Result<
        usize,
        TargetFault,
    >)
        requires
            self@.exe_path is None ==> !self@.runner.running(),
        ensures
            ({
                let path = if self@.exe_path is Some {
                    self@.exe_path
                } else if self@.backend().module_list().len() > 0 {
                    Some(self@.backend().module_list()[0].name)
                } else {
                    None
                };
                match path {
                    Some(p) => served(encode_utf8(p), offset, length, old(buf)@, final(buf)@, r),
                    None => r == Err::<usize, TargetFault>(TargetFault::NonFatal) && final(buf)@
                        == old(buf)@,
                }
            }),
    {
        if let Some(path) = &self.exe_path {
            return write_xml_chunk(path.as_str().as_bytes(), offset, length, buf);
        }
        let modules = self.backend().modules();
        if modules.len() == 0 {
            return Err(TargetFault::NonFatal);
        }
        assert(module_views(modules@)[0].name == modules@[0].name@);
        write_xml_chunk(modules[0].name.as_str().as_bytes(), offset, length, buf)
    }

    /// The base address of the main module: the one whose file name is that of
    /// the executable, else the first.
    pub fn exe_module_base(&self) -> (r: Option<u64>)
        requires
            !self@.runner.running(),
        ensures
            is_main_base(
                self@.exe_path,
                self@.backend().module_list(),
                match r {
                    Some(base) => Some(base as nat),
                    None => None,
                },
            ),
    {
        let modules = self.backend().modules();
        let ghost ms = module_views(modules@);
        let want = match &self.exe_path {
            Some(path) => file_name(path.as_str()),
            None => None,
        };
        let mut names: Vec<Option<String>> = Vec::new();
        for i in 0..modules.len()
            invariant
                ms == module_views(modules@),
                names@.len() == i,
                forall|k: int| 0 <= k < i ==> file_name_of(ms[k].name, #[trigger] names@[k]),
        {
            assert(ms[i as int] == modules@[i as int]@);
            let name = file_name(modules[i].name.as_str());
            assert(file_name_of(ms[i as int].name, name));
            names.push(name);
        }
        assert(names_heard(self@.exe_path, ms, want, names@));
        let wanted = match &want {
            Some(w) => Some(w.as_str()),
            None => None,
        };
        main_module_base(wanted, names.as_slice(), modules.as_slice())
    }

    /// The auxiliary vector. A trace without modules is a fault.
    pub fn get_auxv(&self, offset: u64, length: usize, buf: &mut [u8]) -> (r: Result<
        usize,
        TargetFault,
    >)
        requires
            !self@.runner.running(),
        ensures
            exists|base: Option<nat>|
                {
                    &&& #[trigger] is_main_base(
                        self@.exe_path,
                        self@.backend().module_list(),
                        base,
                    )
                    &&& match base {
                        Some(b) => served(
                            auxv_bytes(b),
                            offset,
                            length,
                            old(buf)@,
                            final(buf)@,
                            r,
                        ),
                        None => r == Err::<usize, TargetFault>(TargetFault::NonFatal)
                            && final(buf)@ == old(buf)@,
                    }
                },
            r is Err <==> self@.backend().module_list().len() == 0,
    {
        let main = self.exe_module_base();
        proof {
            let base = match main {
                Some(b) => Some(b as nat),
                None => None,
            };
            law_main_module_is_a_module(self@.exe_path, self@.backend().module_list(), base);
        }
        match main {
            Some(base) => {
                let bytes = auxv(base);
                write_xml_chunk(bytes.as_slice(), offset, length, buf)
            },
            None => Err(TargetFault::NonFatal),
        }
    }

    /// What the client is told of the process.
    pub fn process_info(&self) -> (r: ProcessDescription)
        ensures
            r.pid == PROCESS_ID,
            r.triple@ == "x86_64-pc-windows-msvc"@,
            r.little_endian,
            r.pointer_size == 8,
    {
        ProcessDescription {
            pid: PROCESS_ID,
            triple: "x86_64-pc-windows-msvc",
            little_endian: true,
            pointer_size: 8,
        }
    }

    /// The library list of the loaded modules.
    pub fn get_libraries(&self, offset: u64, length: usize, buf: &mut [u8]) -> (r: Result<
        usize,
        TargetFault,
    >)
        requires
            !self@.runner.running(),
        ensures
            served(
                encode_utf8(libraries_xml(self@.backend().module_list())),
                offset,
                length,
                old(buf)@,
                final(buf)@,
                r,
            ),
    {
        let modules = self.backend().modules();
        let xml = build_libraries_xml(modules.as_slice());
        write_xml_chunk(xml.as_str().as_bytes(), offset, length, buf)
    }

    /// The memory map of the loaded modules.
    pub fn memory_map_xml(&self, offset: u64, length: usize, buf: &mut [u8]) -> (r: Result<
        usize,
        TargetFault,
    >)
        requires
            !self@.runner.running(),
        ensures
            served(
                encode_utf8(memory_map_xml(self@.backend().module_list())),
                offset,
                length,
                old(buf)@,
                final(buf)@,
                r,
            ),
    {
        let modules = self.backend().modules();
        let xml = build_memory_map_xml(modules.as_slice());
        write_xml_chunk(xml.as_str().as_bytes(), offset, length, buf)
    }

    /// Where the text and the data segment were loaded: at the base of the
    /// first module, or at 0 without modules.
    pub fn get_section_offsets(&self) -> (r: (u64, u64))
        requires
            !self@.runner.running(),
        ensures
            r.0 == (if self@.backend().module_list().len() > 0 {
                self@.backend().module_list()[0].base
            } else {
                0
            }),
            r.1 == r.0,
    {
        let modules = self.backend().modules();
        let main: u64 = if modules.len() > 0 {
            assert(module_views(modules@)[0].base == modules@[0].base_addr);
            modules[0].base_addr
        } else {
            0
        };
        (main, main)
    }

    /// What there is to say of a thread, as far as it fits into `buf`.
    pub fn thread_extra_info(&self, tid: u64, buf: &mut [u8]) -> (r: usize)
        requires
            !self@.runner.running(),
        ensures
            ({
                let text = encode_utf8(thread_text(self@.backend().thread_of(tid), tid));
                &&& final(buf)@ == overlaid(old(buf)@, text)
                &&& r == (if text.len() <= old(buf)@.len() {
                    text.len()
                } else {
                    old(buf)@.len()
                })
            }),
    {
        let text = describe_thread(self.backend().thread_info(tid), tid);
        fill(buf, text.as_str().as_bytes())
    }

    /// The reply to a monitor command. While a replay is running the backend is
    /// not asked, so that an interrupt can still be delivered. `seek_ratio` is
    /// the text that `ttd stats` shows for the seeks per query.
    pub fn handle_monitor_cmd(&self, cmd: &[u8], seek_ratio: &str) -> (r: String)
        requires
            !self@.runner.running() ==> monitor_fits(
                words(packet_text(cmd@)),
                self@.backend().module_list(),
            ),
        ensures
            r@ == (if self@.runner.running() {
                "target is running; retry when stopped\n"@
            } else {
                monitor_text(
                    words(packet_text(cmd@)),
                    self@.backend().diagnosed(),
                    self@.backend().module_list(),
                    self@.backend().recorded(),
                    self@.backend().counters(),
                    seek_ratio@,
                )
            }),
    {
        let text = text_of_packet(cmd);
        match self.runner.peek() {
            None => String::from_str("target is running; retry when stopped\n"),
            Some(backend) => {
                let mut out = String::new();
                assert(out@ =~= Seq::<char>::empty());
                render(text.as_str(), backend, seek_ratio, &mut out);
                let ghost reply = monitor_text(
                    words(packet_text(cmd@)),
                    self@.backend().diagnosed(),
                    self@.backend().module_list(),
                    self@.backend().recorded(),
                    self@.backend().counters(),
                    seek_ratio@,
                );
                assert(Seq::<char>::empty() + reply =~= reply);
                out
            },
        }
    }

    /// The file of the target description that an annex names. Anything else is
    /// a fault.
    pub fn target_description_xml(&self, annex: &[u8]) -> (r: Result<TargetXml, TargetFault>)
        ensures
            r == (if valid_utf8(annex@) && annex_file(decode_utf8(annex@)) is Some {
                Ok::<TargetXml, TargetFault>(annex_file(decode_utf8(annex@))->0)
            } else {
                Err(TargetFault::NonFatal)
            }),
    {
        match text_strict(annex) {
            Some(name) => match target_xml(name.as_str()) {
                Ok(file) => Ok(file),
                Err(_) => Err(TargetFault::NonFatal),
            },
            None => Err(TargetFault::NonFatal),
        }
    }
}

proof fn lemma_named_module(want: Seq<char>, names: Seq<Option<Seq<char>>>)
    ensures
        0 <= named_module(want, names) <= names.len(),
    decreases names.len(),
{
    if names.len() > 0 {
        lemma_named_module(want, names.skip(1));
    }
}

} // verus!
