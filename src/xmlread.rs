//! Reading protocol files with `quick_xml`: its events, turned into the
//! plain events that the descriptor builder reads.
use vstd::prelude::*;
use quick_xml::events::attributes::{AttrError, Attribute, Attributes};
use quick_xml::events::{BytesStart, Event};
use quick_xml::Reader;
use crate::protocol::{WlInterface, WlProtocol};
use crate::xml::{
    ifaces_view, interface_ok, interfaces_from_events, interfaces_of, IfaceV, ProtocolError, XmlEvent,
    XmlTag,
};

verus! {

/// The XML pull reader of `quick_xml`, held opaquely.
#[verifier::external_type_specification]
#[verifier::external_body]
#[verifier::reject_recursive_types(R)]
pub struct ExXmlReader<R>(Reader<R>);

/// A start tag as `quick_xml` reads it, held opaquely.
#[verifier::external_type_specification]
#[verifier::external_body]
pub struct ExBytesStart<'a>(BytesStart<'a>);

/// The attribute iterator of a `quick_xml` start tag, held opaquely.
#[verifier::external_type_specification]
#[verifier::external_body]
pub struct ExAttributes<'a>(Attributes<'a>);

/// One attribute as `quick_xml` reads it, held opaquely.
#[verifier::external_type_specification]
#[verifier::external_body]
pub struct ExAttribute<'a>(Attribute<'a>);

/// The attribute error of `quick_xml`, held opaquely.
#[verifier::external_type_specification]
#[verifier::external_body]
pub struct ExAttrError(AttrError);

/// An event of the reader, with start tags still in the reader's form.
enum RawXmlEvent<'a> {
    Start(BytesStart<'a>),
    Empty(BytesStart<'a>),
    End(String),
    Eof,
    Other,
}

/// Relies on Reader::from_str: a reader over the text.
#[verifier::external_body]
fn xml_reader<'a>(text: &'a str) -> Reader<&'a [u8]> {
    Reader::from_str(text)
}

/// Relies on Reader::read_event: the next event of the document, an end tag
/// given by its local name; `Err` when the document is not well-formed.
#[verifier::external_body]
fn next_event<'a>(reader: &mut Reader<&'a [u8]>) -> Result<RawXmlEvent<'a>, ()> {
    match reader.read_event() {
        Ok(Event::Start(e)) => Ok(RawXmlEvent::Start(e)),
        Ok(Event::Empty(e)) => Ok(RawXmlEvent::Empty(e)),
        Ok(Event::End(e)) => Ok(RawXmlEvent::End(e.local_name().as_ref().to_owned())),
        Ok(Event::Eof) => Ok(RawXmlEvent::Eof),
        Ok(_) => Ok(RawXmlEvent::Other),
        Err(_) => Err(()),
    }
}

/// Relies on BytesStart::local_name: the tag's name without its prefix.
#[verifier::external_body]
fn tag_local_name(tag: &BytesStart) -> String {
    tag.local_name().as_ref().to_owned()
}

/// Relies on BytesStart::attributes_raw: the text of the tag after its name.
#[verifier::external_body]
fn tag_attributes_len(tag: &BytesStart) -> usize {
    tag.attributes_raw().len()
}

/// Relies on BytesStart::attributes: the attributes of the tag, in order.
#[verifier::external_body]
fn tag_attributes<'b>(tag: &'b BytesStart) -> Attributes<'b> {
    tag.attributes()
}

/// Relies on the `Iterator` impl of Attributes: the next attribute's local
/// name and raw value; `Err` when the attribute is malformed.
#[verifier::external_body]
fn next_attribute(attrs: &mut Attributes) -> Option<Result<(String, String), ()>> {
    attrs.next().map(
        |a| a.map(|a| (a.key.local_name().as_ref().to_owned(), a.value.into_owned())).map_err(|_| ()),
    )
}

/// The name and attributes of a start tag.
fn plain_tag(tag: &BytesStart) -> (r: Result<XmlTag, ProtocolError>) {
    let name = tag_local_name(tag);
    let bound = tag_attributes_len(tag);
    let mut attrs_iter = tag_attributes(tag);
    let mut attrs: Vec<(String, String)> = Vec::new();
    let mut left: usize = bound;
    loop
        decreases left,
    {
        match next_attribute(&mut attrs_iter) {
            None => {
                return Ok(XmlTag { name, attrs });
            },
            Some(Ok(a)) => {
                attrs.push(a);
            },
            Some(Err(())) => {
                return Err(ProtocolError::Xml);
            },
        }
        if left == 0 {
            return Err(ProtocolError::Xml);
        }
        left = left - 1;
    }
}

/// Events that form a whole document: they end with the end of the
/// document, and only there.
pub open spec fn whole_document(evs: Seq<XmlEvent>) -> bool {
    &&& evs.len() > 0
    &&& evs.last() is Eof
    &&& forall|i: int| 0 <= i < evs.len() - 1 ==> !(#[trigger] evs[i] is Eof)
}

/// The events of an XML document, up to its end. What they are is the
/// reader's to say; they stop at the end of the document.
pub fn xml_events(text: &str) -> (r: Result<Vec<XmlEvent>, ProtocolError>)
    ensures
        r matches Ok(v) ==> whole_document(v@),
{
    let mut reader = xml_reader(text);
    let bound = text.len();
    let mut events: Vec<XmlEvent> = Vec::new();
    let mut left: usize = bound;
    loop
        invariant
            forall|i: int| 0 <= i < events@.len() ==> !(#[trigger] events@[i] is Eof),
        decreases left,
    {
        let ev = match next_event(&mut reader) {
            Ok(ev) => ev,
            Err(()) => {
                return Err(ProtocolError::Xml);
            },
        };
        let ghost before = events@;
        match ev {
            RawXmlEvent::Start(t) => events.push(XmlEvent::Start(plain_tag(&t)?)),
            RawXmlEvent::Empty(t) => events.push(XmlEvent::Empty(plain_tag(&t)?)),
            RawXmlEvent::End(n) => events.push(XmlEvent::End(n)),
            RawXmlEvent::Other => events.push(XmlEvent::Other),
            RawXmlEvent::Eof => {
                events.push(XmlEvent::Eof);
                proof {
                    assert forall|i: int| 0 <= i < events@.len() - 1 implies !(#[trigger] events@[i] is Eof) by {
                        assert(events@[i] == before[i]);
                    }
                }
                return Ok(events);
            },
        }
        proof {
            assert forall|i: int| 0 <= i < events@.len() implies !(#[trigger] events@[i] is Eof) by {
                if i < before.len() {
                    assert(events@[i] == before[i]);
                }
            }
        }
        if left == 0 {
            return Err(ProtocolError::Xml);
        }
        left = left - 1;
    }
}

/// The interfaces a protocol file declares: those of the grammar, read from
/// the events the reader gives for the text.
pub fn interfaces_from_xml(text: &str) -> (r: Result<Vec<WlInterface>, ProtocolError>)
    ensures
        r matches Ok(v) ==> forall|i: int| 0 <= i < v@.len() ==> interface_ok(#[trigger] v@[i]),
        r matches Ok(v) ==> exists|evs: Seq<XmlEvent>|
            whole_document(evs) && #[trigger] interfaces_of(evs) == Ok::<Seq<IfaceV>, ProtocolError>(
                ifaces_view(v@),
            ),
{
    let events = xml_events(text)?;
    let r = interfaces_from_events(&events);
    proof {
        if r is Ok {
            assert(whole_document(events@) && interfaces_of(events@) == Ok::<Seq<IfaceV>, ProtocolError>(
                ifaces_view(r->Ok_0@),
            ));
        }
    }
    r
}

/// The interfaces of several files, file after file; the first error stops it.
pub open spec fn files_interfaces(files: Seq<Seq<XmlEvent>>) -> Result<Seq<IfaceV>, ProtocolError>
    decreases files.len(),
{
    if files.len() == 0 {
        Ok(Seq::empty())
    } else {
        match files_interfaces(files.drop_last()) {
            Err(x) => Err(x),
            Ok(a) => match interfaces_of(files.last()) {
                Err(x) => Err(x),
                Ok(b) => Ok(a + b),
            },
        }
    }
}

/// The interfaces of a protocol made of several files, when a 32-bit index
/// can number them.
pub open spec fn protocol_of(files: Seq<Seq<XmlEvent>>) -> Result<Seq<IfaceV>, ProtocolError> {
    match files_interfaces(files) {
        Err(x) => Err(x),
        Ok(v) => if v.len() >= 0xffff_ffff {
            Err(ProtocolError::TooManyInterfaces)
        } else {
            Ok(v)
        },
    }
}

/// The events of each file.
pub open spec fn files_view(files: Seq<Vec<XmlEvent>>) -> Seq<Seq<XmlEvent>> {
    files.map_values(|f: Vec<XmlEvent>| f@)
}

/// The protocol that the events of several protocol files declare together,
/// their interfaces in file order.
pub fn protocol_from_events(files: &Vec<Vec<XmlEvent>>) -> (r: Result<WlProtocol, ProtocolError>)
    ensures
        match protocol_of(files_view(files@)) {
            Ok(v) => r matches Ok(p) && ifaces_view(p.interfaces@) == v,
            Err(e) => r matches Err(y) && y == e,
        },
        r matches Ok(p) ==> p.wf() && forall|i: int|
            0 <= i < p.interfaces@.len() ==> interface_ok(#[trigger] p.interfaces@[i]),
{
    let ghost fv = files_view(files@);
    let mut interfaces: Vec<WlInterface> = Vec::new();
    let mut k: usize = 0;
    assert(ifaces_view(interfaces@) =~= Seq::<IfaceV>::empty());
    assert(fv.subrange(0, 0) =~= Seq::<Seq<XmlEvent>>::empty());
    while k < files.len()
        invariant
            k <= files@.len(),
            fv == files_view(files@),
            forall|i: int| 0 <= i < interfaces@.len() ==> interface_ok(#[trigger] interfaces@[i]),
            files_interfaces(fv.subrange(0, k as int)) == Ok::<Seq<IfaceV>, ProtocolError>(
                ifaces_view(interfaces@),
            ),
        decreases files@.len() - k,
    {
        let ghost pre = fv.subrange(0, k as int);
        let ghost next = fv.subrange(0, k + 1);
        assert(next.drop_last() =~= pre);
        assert(next.last() == files@[k as int]@);
        let mut more = match interfaces_from_events(&files[k]) {
            Ok(m) => m,
            Err(x) => {
                proof {
                    lemma_files_prefix_err(fv, k as int + 1);
                }
                return Err(x);
            },
        };
        let ghost a = interfaces@;
        let ghost b = more@;
        interfaces.append(&mut more);
        proof {
            assert(interfaces@ =~= a + b);
            assert forall|i: int| 0 <= i < interfaces@.len() implies interface_ok(#[trigger] interfaces@[i]) by {
                if i < a.len() {
                    assert(interfaces@[i] == a[i]);
                } else {
                    assert(interfaces@[i] == b[i - a.len()]);
                }
            }
            assert(ifaces_view(interfaces@) =~= ifaces_view(a) + ifaces_view(b));
        }
        k = k + 1;
    }
    assert(fv.subrange(0, k as int) =~= fv);
    if interfaces.len() >= 0xffff_ffff {
        return Err(ProtocolError::TooManyInterfaces);
    }
    Ok(WlProtocol { interfaces })
}

/// An error in the first `k` files is the error of all of them.
proof fn lemma_files_prefix_err(files: Seq<Seq<XmlEvent>>, k: int)
    requires
        0 <= k <= files.len(),
        files_interfaces(files.subrange(0, k)) is Err,
    ensures
        files_interfaces(files) == files_interfaces(files.subrange(0, k)),
    decreases files.len() - k,
{
    if k < files.len() {
        let next = files.subrange(0, k + 1);
        assert(next.drop_last() =~= files.subrange(0, k));
        lemma_files_prefix_err(files, k + 1);
    } else {
        assert(files.subrange(0, k) =~= files);
    }
}

/// The protocol that the given protocol files declare together, their
/// interfaces in file order: that of the events the reader gives for the
/// texts.
pub fn protocol_from_xml(texts: &Vec<String>) -> (r: Result<WlProtocol, ProtocolError>)
    ensures
        r matches Ok(p) ==> p.wf() && forall|i: int|
            0 <= i < p.interfaces@.len() ==> interface_ok(#[trigger] p.interfaces@[i]),
        r matches Ok(p) ==> exists|files: Seq<Seq<XmlEvent>>|
            files.len() == texts@.len() && (forall|i: int|
                0 <= i < files.len() ==> whole_document(#[trigger] files[i]))
                && #[trigger] protocol_of(files) == Ok::<Seq<IfaceV>, ProtocolError>(
                ifaces_view(p.interfaces@),
            ),
{
    let mut files: Vec<Vec<XmlEvent>> = Vec::new();
    let mut k: usize = 0;
    while k < texts.len()
        invariant
            k <= texts@.len(),
            files@.len() == k,
            forall|i: int| 0 <= i < files@.len() ==> whole_document(#[trigger] files@[i]@),
        decreases texts@.len() - k,
    {
        let evs = xml_events(texts[k].as_str())?;
        let ghost before = files@;
        files.push(evs);
        proof {
            assert forall|i: int| 0 <= i < files@.len() implies whole_document(#[trigger] files@[i]@) by {
                if i < before.len() {
                    assert(files@[i] == before[i]);
                }
            }
        }
        k = k + 1;
    }
    let r = protocol_from_events(&files);
    proof {
        let fv = files_view(files@);
        assert forall|i: int| 0 <= i < fv.len() implies whole_document(#[trigger] fv[i]) by {
            assert(fv[i] == files@[i]@);
        }
    }
    r
}

} // verus!
