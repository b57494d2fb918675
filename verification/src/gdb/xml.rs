//! The documents that the stub serves in chunks: library list and memory map.

use quick_xml::events::BytesText;
use quick_xml::Writer;
use vstd::prelude::*;

use super::regs::{fill, overlaid};
use crate::target::{module_views, Module, ModuleInfo};
use crate::text::all_texts;
use crate::text::digits::{hex_prefixed, push_hex_prefixed};

verus! {

/// A request that the target cannot serve; the client is told of an error and
/// the session goes on.
#[derive(Clone, Copy, Debug, PartialEq, Eq, Structural)]
pub enum TargetFault {
    NonFatal,
}

/// The part of `data` that a read of `length` bytes at `offset` asks for.
pub open spec fn chunk(data: Seq<u8>, offset: nat, length: nat) -> Seq<u8> {
    let start = if offset <= data.len() {
        offset
    } else {
        data.len()
    };
    let end = if start + length <= data.len() {
        start + length
    } else {
        data.len()
    };
    data.subrange(start as int, end as int)
}

/// Copy the bytes `[offset, offset + length)` of `data` into `buf`, as far as
/// there are any and they fit. Nothing is copied from behind the end: the client
/// reads that as the last chunk.
pub fn write_xml_chunk(data: &[u8], offset: u64, length: usize, buf: &mut [u8]) -> (r: Result<
    usize,
    TargetFault,
>)
    ensures
        r is Ok,
        r->Ok_0 == (if chunk(data@, offset as nat, length as nat).len() <= old(buf)@.len() {
            chunk(data@, offset as nat, length as nat).len()
        } else {
            old(buf)@.len()
        }),
        final(buf)@ == overlaid(old(buf)@, chunk(data@, offset as nat, length as nat)),
{
    let start: usize = if offset < data.len() as u64 {
        offset as usize
    } else {
        data.len()
    };
    let end: usize = if length < data.len() - start {
        start + length
    } else {
        data.len()
    };
    Ok(fill(buf, vstd::slice::slice_subrange(data, start, end)))
}

/// What reading `data` from `offset` on gives, in chunks of these sizes.
pub open spec fn read_in_chunks(data: Seq<u8>, offset: nat, sizes: Seq<nat>) -> Seq<u8>
    decreases sizes.len(),
{
    if sizes.len() == 0 {
        Seq::empty()
    } else {
        let c = chunk(data, offset, sizes[0]);
        c + read_in_chunks(data, offset + c.len(), sizes.skip(1))
    }
}

/// How much some chunks hold together.
pub open spec fn total(sizes: Seq<nat>) -> nat
    decreases sizes.len(),
{
    if sizes.len() == 0 {
        0
    } else {
        sizes[0] + total(sizes.skip(1))
    }
}

/// Reading a document chunk by chunk gives the document from its offset on as
/// far as the chunks reach, whatever their sizes, without a gap and without a
/// byte twice. An empty answer to a request for some bytes comes exactly behind
/// the end.
pub proof fn law_chunks_make_up_the_document(data: Seq<u8>, offset: nat, sizes: Seq<nat>)
    requires
        offset <= data.len(),
    ensures
        read_in_chunks(data, offset, sizes) == data.skip(offset as int).take(
            if total(sizes) <= data.len() - offset {
                total(sizes) as int
            } else {
                data.len() - offset
            },
        ),
        total(sizes) >= data.len() - offset ==> read_in_chunks(data, offset, sizes) == data.skip(
            offset as int,
        ),
        sizes.len() > 0 && sizes[0] > 0 ==> (chunk(data, offset, sizes[0]).len() == 0 <==> offset
            == data.len()),
    decreases sizes.len(),
{
    let rest = data.skip(offset as int);
    if sizes.len() > 0 {
        let c = chunk(data, offset, sizes[0]);
        let next = offset + c.len();
        law_chunks_make_up_the_document(data, next, sizes.skip(1));
        let more = read_in_chunks(data, next, sizes.skip(1));
        assert(read_in_chunks(data, offset, sizes) == c + more);
        let n = if total(sizes) <= rest.len() {
            total(sizes) as int
        } else {
            rest.len() as int
        };
        assert(c =~= rest.take(c.len() as int));
        assert(data.skip(next as int) =~= rest.skip(c.len() as int));
        assert(c + more =~= rest.take(n));
    } else {
        assert(rest.take(0) =~= Seq::<u8>::empty());
    }
    assert(rest.take(rest.len() as int) =~= rest);
}

/// How a character is written in an attribute value.
pub open spec fn escaped_char(c: char) -> Seq<char> {
    if c == '<' {
        "&lt;"@
    } else if c == '>' {
        "&gt;"@
    } else if c == '&' {
        "&amp;"@
    } else if c == '\'' {
        "&apos;"@
    } else if c == '"' {
        "&quot;"@
    } else if c == '\r' {
        "&#13;"@
    } else if c == '\n' {
        "&#10;"@
    } else if c == '\t' {
        "&#9;"@
    } else {
        seq![c]
    }
}

/// How a text is written in an attribute value.
pub open spec fn escaped(s: Seq<char>) -> Seq<char> {
    all_texts(s, |c: char| escaped_char(c))
}

/// An attribute of an element.
pub struct Attribute {
    pub key: String,
    pub value: String,
}

/// How an attribute is written.
pub open spec fn attribute_text(key: Seq<char>, value: Seq<char>) -> Seq<char> {
    " "@ + key + "=\""@ + escaped(value) + "\""@
}

/// How the attributes of an element are written.
pub open spec fn attributes_text(attributes: Seq<Attribute>) -> Seq<char> {
    all_texts(attributes, |a: Attribute| attribute_text(a.key@, a.value@))
}

/// An element without content.
pub open spec fn empty_element(name: Seq<char>, attributes: Seq<char>) -> Seq<char> {
    "<"@ + name + attributes + "/>"@
}

/// An element with content.
pub open spec fn element(name: Seq<char>, attributes: Seq<char>, content: Seq<char>) -> Seq<char> {
    "<"@ + name + attributes + ">"@ + content + "</"@ + name + ">"@
}

/// `ElementWriter::write_empty` of `quick_xml`, on a writer without
/// indentation: the element in its short form, with the attribute values
/// escaped.
#[verifier::external_body]
fn write_empty(name: &str, attributes: &[Attribute]) -> (r: String)
    ensures
        r@ == empty_element(name@, attributes_text(attributes@)),
{
    let mut writer = Writer::new(Vec::new());
    writer
        .create_element(name)
        .with_attributes(attributes.iter().map(|a| (a.key.as_str(), a.value.as_str())))
        .write_empty()
        .expect("writing to a Vec cannot fail");
    String::from_utf8(writer.into_inner()).expect("XML is valid UTF-8")
}

/// `ElementWriter::write_text_content` of `quick_xml`, on a writer without
/// indentation: the element with its attribute values escaped and its content
/// as it is given.
#[verifier::external_body]
fn write_content(name: &str, attributes: &[Attribute], content: &str) -> (r: String)
    ensures
        r@ == element(name@, attributes_text(attributes@), content@),
{
    let mut writer = Writer::new(Vec::new());
    writer
        .create_element(name)
        .with_attributes(attributes.iter().map(|a| (a.key.as_str(), a.value.as_str())))
        .write_text_content(BytesText::from_escaped(content))
        .expect("writing to a Vec cannot fail");
    String::from_utf8(writer.into_inner()).expect("XML is valid UTF-8")
}

/// The entry of a module in the library list.
pub open spec fn library_xml(m: Module) -> Seq<char> {
    element(
        "library"@,
        attribute_text("name"@, m.name),
        empty_element("segment"@, attribute_text("address"@, hex_prefixed(m.base))),
    )
}

/// The library list of some modules.
pub open spec fn libraries_xml(modules: Seq<Module>) -> Seq<char> {
    element(
        "library-list"@,
        attribute_text("version"@, "1.0"@),
        all_texts(modules, |m: Module| library_xml(m)),
    )
}

/// The entry of a module in the memory map.
pub open spec fn memory_xml(m: Module) -> Seq<char> {
    empty_element(
        "memory"@,
        attribute_text("type"@, "ram"@) + attribute_text("start"@, hex_prefixed(m.base))
            + attribute_text("length"@, hex_prefixed(m.size)),
    )
}

/// The memory map of some modules.
pub open spec fn memory_map_xml(modules: Seq<Module>) -> Seq<char> {
    element("memory-map"@, Seq::empty(), all_texts(modules, |m: Module| memory_xml(m)))
}

fn attribute(key: &str, value: &str) -> (r: Attribute)
    ensures
        r.key@ == key@,
        r.value@ == value@,
{
    Attribute { key: String::from_str(key), value: String::from_str(value) }
}

fn address_text(n: u64) -> (r: String)
    ensures
        r@ == hex_prefixed(n as nat),
{
    let mut out = String::new();
    push_hex_prefixed(&mut out, n);
    assert(out@ =~= hex_prefixed(n as nat));
    out
}

proof fn lemma_one_attribute(a: Attribute)
    ensures
        attributes_text(seq![a]) == attribute_text(a.key@, a.value@),
{
    let text = |a: Attribute| attribute_text(a.key@, a.value@);
    assert(seq![a].drop_last() =~= Seq::<Attribute>::empty());
    assert(all_texts(Seq::<Attribute>::empty(), text) =~= Seq::<char>::empty());
    assert(attributes_text(seq![a]) =~= attribute_text(a.key@, a.value@));
}

/// The library list of the modules: each with the address that it was loaded
/// at.
pub fn build_libraries_xml(modules: &[ModuleInfo]) -> (r: String)
    ensures
        r@ == libraries_xml(module_views(modules@)),
{
    let ghost ms = module_views(modules@);
    let ghost text = |m: Module| library_xml(m);
    let mut inner = String::new();
    for i in 0..modules.len()
        invariant
            ms == module_views(modules@),
            text == (|m: Module| library_xml(m)),
            inner@ == all_texts(ms.take(i as int), text),
    {
        let m = &modules[i];
        let mut address: Vec<Attribute> = Vec::new();
        address.push(attribute("address", address_text(m.base_addr).as_str()));
        let segment = write_empty("segment", address.as_slice());
        let mut name: Vec<Attribute> = Vec::new();
        name.push(attribute("name", m.name.as_str()));
        let library = write_content("library", name.as_slice(), segment.as_str());
        proof {
            assert(address@ =~= seq![address@[0]]);
            assert(name@ =~= seq![name@[0]]);
            lemma_one_attribute(address@[0]);
            lemma_one_attribute(name@[0]);
            assert(ms[i as int] == m@);
            assert(ms.take(i as int + 1).drop_last() =~= ms.take(i as int));
        }
        inner.append(library.as_str());
    }
    assert(ms.take(ms.len() as int) =~= ms);
    let mut version: Vec<Attribute> = Vec::new();
    version.push(attribute("version", "1.0"));
    proof {
        assert(version@ =~= seq![version@[0]]);
        lemma_one_attribute(version@[0]);
    }
    write_content("library-list", version.as_slice(), inner.as_str())
}

/// The memory map of the modules: one region each.
pub fn build_memory_map_xml(modules: &[ModuleInfo]) -> (r: String)
    ensures
        r@ == memory_map_xml(module_views(modules@)),
{
    let ghost ms = module_views(modules@);
    let ghost text = |m: Module| memory_xml(m);
    let mut inner = String::new();
    for i in 0..modules.len()
        invariant
            ms == module_views(modules@),
            text == (|m: Module| memory_xml(m)),
            inner@ == all_texts(ms.take(i as int), text),
    {
        let m = &modules[i];
        let mut region: Vec<Attribute> = Vec::new();
        region.push(attribute("type", "ram"));
        region.push(attribute("start", address_text(m.base_addr).as_str()));
        region.push(attribute("length", address_text(m.size).as_str()));
        let memory = write_empty("memory", region.as_slice());
        proof {
            let a = region@[0];
            let b = region@[1];
            let c = region@[2];
            lemma_one_attribute(a);
            assert(region@.drop_last() =~= seq![a, b]);
            assert(region@.drop_last().drop_last() =~= seq![a]);
            let written = |a: Attribute| attribute_text(a.key@, a.value@);
            assert(all_texts(seq![a, b], written) == all_texts(seq![a], written) + written(b));
            assert(attributes_text(region@) =~= attribute_text(a.key@, a.value@) + attribute_text(
                b.key@,
                b.value@,
            ) + attribute_text(c.key@, c.value@));
            assert(ms[i as int] == m@);
            assert(ms.take(i as int + 1).drop_last() =~= ms.take(i as int));
        }
        inner.append(memory.as_str());
    }
    assert(ms.take(ms.len() as int) =~= ms);
    let none: Vec<Attribute> = Vec::new();
    assert(attributes_text(none@) =~= Seq::<char>::empty());
    write_content("memory-map", none.as_slice(), inner.as_str())
}

/// The characters that would end an attribute value or start markup.
pub open spec fn is_markup(c: char) -> bool {
    c == '<' || c == '>' || c == '"' || c == '\'' || c == '\r' || c == '\n' || c == '\t'
}

/// No text can break out of an attribute value: what is written of it holds no
/// character of markup.
pub proof fn law_escaped_text_holds_no_markup(s: Seq<char>)
    ensures
        forall|i: int| 0 <= i < escaped(s).len() ==> !is_markup(#[trigger] escaped(s)[i]),
    decreases s.len(),
{
    let text = |c: char| escaped_char(c);
    if s.len() > 0 {
        law_escaped_text_holds_no_markup(s.drop_last());
        let before = escaped(s.drop_last());
        let last = escaped_char(s.last());
        reveal_strlit("&lt;");
        reveal_strlit("&gt;");
        reveal_strlit("&amp;");
        reveal_strlit("&apos;");
        reveal_strlit("&quot;");
        reveal_strlit("&#13;");
        reveal_strlit("&#10;");
        reveal_strlit("&#9;");
        assert(escaped(s) == before + last);
        assert forall|i: int| 0 <= i < escaped(s).len() implies !is_markup(
            #[trigger] escaped(s)[i],
        ) by {
            if i < before.len() {
                assert(escaped(s)[i] == before[i]);
            } else {
                assert(escaped(s)[i] == last[i - before.len()]);
            }
        }
    }
}

/// Text without special characters is written as it is.
pub proof fn law_plain_text_is_written_as_it_is(s: Seq<char>)
    requires
        forall|i: int| 0 <= i < s.len() ==> !is_markup(#[trigger] s[i]) && s[i] != '&',
    ensures
        escaped(s) == s,
    decreases s.len(),
{
    if s.len() > 0 {
        assert forall|i: int| 0 <= i < s.drop_last().len() implies !is_markup(
            #[trigger] s.drop_last()[i],
        ) && s.drop_last()[i] != '&' by {
            assert(!is_markup(s[i]));
        }
        law_plain_text_is_written_as_it_is(s.drop_last());
        assert(!is_markup(s[s.len() - 1]));
        assert(escaped(s) =~= s);
    }
}

} // verus!
