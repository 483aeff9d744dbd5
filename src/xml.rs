//! Protocol descriptors from the XML protocol files: the interfaces, their
//! requests and events with opcodes in declaration order, and the arguments
//! of each message.
use vstd::prelude::*;
use crate::args::WlArgType;
use crate::protocol::{WlInterface, WlMsg, WlMsgType};

verus! {

/// A start or empty-element tag: its local name and attributes, in order.
#[derive(Debug)]
pub struct XmlTag {
    pub name: String,
    /// Attribute local names and raw values.
    pub attrs: Vec<(String, String)>,
}

/// One event of an XML document, as far as protocol files need it.
#[derive(Debug)]
pub enum XmlEvent {
    Start(XmlTag),
    /// An element without content, `<tag/>`.
    Empty(XmlTag),
    /// An end tag, with its local name.
    End(String),
    Eof,
    /// Text, comments and the like.
    Other,
}

/// Why a protocol file could not be read.
#[derive(Clone, Copy, Debug, PartialEq, Eq, Structural)]
pub enum ProtocolError {
    /// The XML itself is broken.
    Xml,
    /// The document ends inside an interface or message.
    UnexpectedEof,
    /// An interface, message or argument has no `name`.
    MissingName,
    /// An argument has no `type`.
    MissingType,
    /// An argument type that the wire format does not know.
    UnknownArgType,
    /// An `interface` attribute on an argument that is not a `new_id`.
    InterfaceOnNonNewId,
    /// More messages in one direction than a 16-bit opcode can number.
    TooManyMessages,
    /// More interfaces than a 32-bit type index can number.
    TooManyInterfaces,
}

/// How many of `msgs` go in direction `dir`.
pub open spec fn count_dir(msgs: Seq<WlMsg>, dir: WlMsgType) -> int
    decreases msgs.len(),
{
    if msgs.len() == 0 {
        0
    } else {
        count_dir(msgs.drop_last(), dir) + if msgs.last().msg_type == dir {
            1int
        } else {
            0int
        }
    }
}

/// Opcodes number the messages of each direction 0, 1, 2, ... in declaration order.
pub open spec fn opcodes_in_order(msgs: Seq<WlMsg>) -> bool {
    forall|i: int|
        0 <= i < msgs.len() ==> (#[trigger] msgs[i]).opcode == count_dir(msgs.subrange(0, i), msgs[i].msg_type)
}

/// Every message carries the name of its interface, opcodes are in order,
/// and `new_id` arguments without a fixed interface are expanded.
pub open spec fn interface_ok(iface: WlInterface) -> bool {
    &&& opcodes_in_order(iface.msgs@)
    &&& forall|i: int|
        0 <= i < iface.msgs@.len() ==> {
            &&& (#[trigger] iface.msgs@[i]).interface_name_snake@ == iface.name_snake@
            &&& new_ids_expanded(iface.msgs@[i].args@)
        }
}

/// The argument type a protocol file names `s`.
pub open spec fn arg_type_named(s: Seq<char>) -> Option<WlArgType> {
    if s == "int"@ {
        Some(WlArgType::Int)
    } else if s == "uint"@ {
        Some(WlArgType::Uint)
    } else if s == "fixed"@ {
        Some(WlArgType::Fixed)
    } else if s == "object"@ {
        Some(WlArgType::Object)
    } else if s == "new_id"@ {
        Some(WlArgType::NewId(None))
    } else if s == "string"@ {
        Some(WlArgType::String)
    } else if s == "array"@ {
        Some(WlArgType::Array)
    } else if s == "fd"@ {
        Some(WlArgType::Fd)
    } else if s == "enum"@ {
        Some(WlArgType::Enum)
    } else {
        None
    }
}

impl WlArgType {
    /// The argument type named `s` in a protocol file.
    pub fn parse(s: &str) -> (r: Option<WlArgType>)
        ensures
            r == arg_type_named(s@),
    {
        let t = s.to_owned();
        if t == "int".to_owned() {
            Some(WlArgType::Int)
        } else if t == "uint".to_owned() {
            Some(WlArgType::Uint)
        } else if t == "fixed".to_owned() {
            Some(WlArgType::Fixed)
        } else if t == "object".to_owned() {
            Some(WlArgType::Object)
        } else if t == "new_id".to_owned() {
            Some(WlArgType::NewId(None))
        } else if t == "string".to_owned() {
            Some(WlArgType::String)
        } else if t == "array".to_owned() {
            Some(WlArgType::Array)
        } else if t == "fd".to_owned() {
            Some(WlArgType::Fd)
        } else if t == "enum".to_owned() {
            Some(WlArgType::Enum)
        } else {
            None
        }
    }

    /// Fixes the interface of a `new_id` argument; other types cannot have one.
    pub fn set_interface_name(&mut self, interface: String) -> (r: Result<(), ProtocolError>)
        ensures
            *old(self) is NewId ==> r is Ok && *final(self) == WlArgType::NewId(Some(interface)),
            !(*old(self) is NewId) ==> r == Err::<(), ProtocolError>(ProtocolError::InterfaceOnNonNewId)
                && *final(self) == *old(self),
    {
        match self {
            WlArgType::NewId(_) => {
                *self = WlArgType::NewId(Some(interface));
                Ok(())
            },
            _ => Err(ProtocolError::InterfaceOnNonNewId),
        }
    }
}

/// The value of the first attribute of `tag` named `key`.
pub open spec fn attr_string(tag: XmlTag, key: Seq<char>) -> Option<String> {
    if exists|i: int|
        0 <= i < tag.attrs@.len() && (#[trigger] tag.attrs@[i]).0@ == key && forall|j: int|
            0 <= j < i ==> (#[trigger] tag.attrs@[j]).0@ != key {
        let i = choose|i: int|
            0 <= i < tag.attrs@.len() && (#[trigger] tag.attrs@[i]).0@ == key && forall|j: int|
                0 <= j < i ==> (#[trigger] tag.attrs@[j]).0@ != key;
        Some(tag.attrs@[i].1)
    } else {
        None
    }
}

/// The text of the first attribute of `tag` named `key`.
pub open spec fn attr_value(tag: XmlTag, key: Seq<char>) -> Option<Seq<char>> {
    match attr_string(tag, key) {
        Some(v) => Some(v@),
        None => None,
    }
}

/// The value of the first attribute of `tag` named `key`.
fn attr<'a>(tag: &'a XmlTag, key: &str) -> (r: Option<&'a String>)
    ensures
        match attr_string(*tag, key@) {
            Some(v) => r matches Some(s) && *s == v,
            None => r is None,
        },
{
    let k = key.to_owned();
    let mut i: usize = 0;
    while i < tag.attrs.len()
        invariant
            i <= tag.attrs@.len(),
            k@ == key@,
            forall|j: int| 0 <= j < i ==> (#[trigger] tag.attrs@[j]).0@ != key@,
        decreases tag.attrs@.len() - i,
    {
        if tag.attrs[i].0 == k {
            proof {
                let w = choose|w: int|
                    0 <= w < tag.attrs@.len() && (#[trigger] tag.attrs@[w]).0@ == key@ && forall|j: int|
                        0 <= j < w ==> (#[trigger] tag.attrs@[j]).0@ != key@;
                assert(tag.attrs@[i as int].0@ == key@);
                assert(!(w < i));
                assert(!(w > i));
            }
            return Some(&tag.attrs[i].1);
        }
        i = i + 1;
    }
    None
}

/// Every `new_id` argument without a fixed interface comes right after its
/// interface name (a string) and version (an unsigned integer), named after it.
pub open spec fn new_ids_expanded(args: Seq<(String, WlArgType)>) -> bool {
    forall|k: int|
        (0 <= k < args.len() && (#[trigger] args[k]).1 matches WlArgType::NewId(None)) ==> {
            &&& k >= 2
            &&& args[k - 2].0@ == args[k].0@ + "_interface_name"@
            &&& args[k - 2].1 is String
            &&& args[k - 1].0@ == args[k].0@ + "_interface_version"@
            &&& args[k - 1].1 is Uint
        }
}

/// Whether `s` is the literal `lit`.
fn is(s: &String, lit: &str) -> (r: bool)
    ensures
        r == (s@ == lit@),
{
    *s == lit.to_owned()
}

/// Relies on String::push_str: appends the text of `t`.
#[verifier::external_body]
fn append_str(s: &mut String, t: &str)
    ensures
        final(s)@ == old(s)@ + t@,
{
    s.push_str(t)
}

/// `name` with `suffix` appended.
fn suffixed(name: &String, suffix: &str) -> (r: String)
    ensures
        r@ == name@ + suffix@,
{
    let mut out = name.clone();
    append_str(&mut out, suffix);
    out
}

/// Declared arguments as the contracts see them: names and types.
pub open spec fn entries_view(args: Seq<(String, WlArgType)>) -> Seq<(Seq<char>, WlArgType)> {
    args.map_values(|a: (String, WlArgType)| (a.0@, a.1))
}

/// A message descriptor as the contracts see it.
pub struct MsgV {
    pub interface: Seq<char>,
    pub name: Seq<char>,
    pub msg_type: WlMsgType,
    pub opcode: u16,
    pub is_destructor: bool,
    pub args: Seq<(Seq<char>, WlArgType)>,
}

/// An interface descriptor as the contracts see it.
pub struct IfaceV {
    pub name: Seq<char>,
    pub msgs: Seq<MsgV>,
}

pub open spec fn msg_view(m: WlMsg) -> MsgV {
    MsgV {
        interface: m.interface_name_snake@,
        name: m.name_snake@,
        msg_type: m.msg_type,
        opcode: m.opcode,
        is_destructor: m.is_destructor,
        args: entries_view(m.args@),
    }
}

pub open spec fn iface_view(i: WlInterface) -> IfaceV {
    IfaceV { name: i.name_snake@, msgs: i.msgs@.map_values(|m: WlMsg| msg_view(m)) }
}

pub open spec fn ifaces_view(v: Seq<WlInterface>) -> Seq<IfaceV> {
    v.map_values(|i: WlInterface| iface_view(i))
}

/// The declared arguments an `<arg>` tag `e` stands for: the argument, named
/// by its `name` (`type` and `msg` get a leading underscore) and typed by
/// its `type`; a `new_id` takes the `interface` attribute when there is one,
/// and is otherwise preceded by its interface name and version.
#[verifier::opaque]
pub open spec fn arg_entries_spec(e: XmlTag) -> Result<Seq<(Seq<char>, WlArgType)>, ProtocolError> {
    match attr_value(e, "name"@) {
        None => Err(ProtocolError::MissingName),
        Some(n0) => match attr_value(e, "type"@) {
            None => Err(ProtocolError::MissingType),
            Some(tn) => match arg_type_named(tn) {
                None => Err(ProtocolError::UnknownArgType),
                Some(t) => {
                    let n = if n0 == "type"@ {
                        "_type"@
                    } else if n0 == "msg"@ {
                        "_msg"@
                    } else {
                        n0
                    };
                    if t is NewId {
                        match attr_string(e, "interface"@) {
                            Some(i) => Ok(seq![(n, WlArgType::NewId(Some(i)))]),
                            None => Ok(
                                seq![
                                    (n + "_interface_name"@, WlArgType::String),
                                    (n + "_interface_version"@, WlArgType::Uint),
                                    (n, t),
                                ],
                            ),
                        }
                    } else {
                        Ok(seq![(n, t)])
                    }
                },
            },
        },
    }
}

/// The arguments of a message, read from the events from `p` up to the end
/// tag named `end`: the entries of each `<arg/>` in document order, and the
/// position after the end tag.
#[verifier::opaque]
pub open spec fn msg_body(events: Seq<XmlEvent>, p: int, end: Seq<char>) -> Result<
    (Seq<(Seq<char>, WlArgType)>, int),
    ProtocolError,
>
    decreases events.len() - p,
{
    if p < 0 || p >= events.len() {
        Err(ProtocolError::UnexpectedEof)
    } else {
        match events[p] {
            XmlEvent::Eof => Err(ProtocolError::UnexpectedEof),
            XmlEvent::Empty(t) => if t.name@ == "arg"@ {
                match arg_entries_spec(t) {
                    Err(x) => Err(x),
                    Ok(c) => match msg_body(events, p + 1, end) {
                        Err(x) => Err(x),
                        Ok((rest, q)) => Ok((c + rest, q)),
                    },
                }
            } else {
                msg_body(events, p + 1, end)
            },
            XmlEvent::End(n) => if n@ == end {
                Ok((Seq::empty(), p + 1))
            } else {
                msg_body(events, p + 1, end)
            },
            _ => msg_body(events, p + 1, end),
        }
    }
}

/// The message of interface `iface` whose start tag `start` comes just
/// before position `pos`, with direction `dir` and opcode `opcode`; and the
/// position after it.
pub open spec fn msg_spec(
    events: Seq<XmlEvent>,
    pos: int,
    opcode: u16,
    dir: WlMsgType,
    iface: Seq<char>,
    start: XmlTag,
    is_empty: bool,
) -> Result<(MsgV, int), ProtocolError> {
    match attr_value(start, "name"@) {
        None => Err(ProtocolError::MissingName),
        Some(n) => {
            let m = MsgV {
                interface: iface,
                name: n,
                msg_type: dir,
                opcode,
                is_destructor: attr_value(start, "type"@) == Some("destructor"@),
                args: Seq::empty(),
            };
            if is_empty {
                Ok((m, pos))
            } else {
                match msg_body(events, pos, start.name@) {
                    Err(x) => Err(x),
                    Ok((a, q)) => Ok((MsgV { args: a, ..m }, q)),
                }
            }
        },
    }
}

/// The start or empty-element tag of an event, with whether it is empty.
pub open spec fn tag_of(e: XmlEvent) -> Option<(XmlTag, bool)> {
    match e {
        XmlEvent::Start(t) => Some((t, false)),
        XmlEvent::Empty(t) => Some((t, true)),
        _ => None,
    }
}

/// The direction a tag named `name` declares, if it is a message.
pub open spec fn dir_of(name: Seq<char>) -> Option<WlMsgType> {
    if name == "event"@ {
        Some(WlMsgType::Event)
    } else if name == "request"@ {
        Some(WlMsgType::Request)
    } else {
        None
    }
}

/// The messages of interface `iface`, read from the events from `p` up to
/// the end tag named `end`, `ev` events and `rq` requests being already
/// numbered: its `<event>` and `<request>` children in document order, each
/// direction numbered on its own; and the position after the end tag.
#[verifier::opaque]
pub open spec fn iface_body(
    events: Seq<XmlEvent>,
    p: int,
    end: Seq<char>,
    iface: Seq<char>,
    ev: int,
    rq: int,
) -> Result<(Seq<MsgV>, int), ProtocolError>
    decreases events.len() - p,
{
    if p < 0 || p >= events.len() {
        Err(ProtocolError::UnexpectedEof)
    } else {
        match tag_of(events[p]) {
            Some((t, empty)) => match dir_of(t.name@) {
                None => iface_body(events, p + 1, end, iface, ev, rq),
                Some(d) => {
                    let op = if d == WlMsgType::Event {
                        ev
                    } else {
                        rq
                    };
                    if op < 0 || op >= 0xffff {
                        Err(ProtocolError::TooManyMessages)
                    } else {
                        match msg_spec(events, p + 1, op as u16, d, iface, t, empty) {
                            Err(x) => Err(x),
                            Ok((m, q)) => if p < q <= events.len() {
                                match iface_body(
                                    events,
                                    q,
                                    end,
                                    iface,
                                    if d == WlMsgType::Event {
                                        ev + 1
                                    } else {
                                        ev
                                    },
                                    if d == WlMsgType::Request {
                                        rq + 1
                                    } else {
                                        rq
                                    },
                                ) {
                                    Err(x) => Err(x),
                                    Ok((ms, q2)) => Ok((seq![m] + ms, q2)),
                                }
                            } else {
                                Err(ProtocolError::Xml)
                            },
                        }
                    }
                },
            },
            None => match events[p] {
                XmlEvent::Eof => Err(ProtocolError::UnexpectedEof),
                XmlEvent::End(n) => if n@ == end {
                    Ok((Seq::empty(), p + 1))
                } else {
                    iface_body(events, p + 1, end, iface, ev, rq)
                },
                _ => iface_body(events, p + 1, end, iface, ev, rq),
            },
        }
    }
}

/// The interface whose start tag `start` comes just before position `pos`,
/// and the position after it.
pub open spec fn iface_spec(events: Seq<XmlEvent>, pos: int, start: XmlTag) -> Result<
    (IfaceV, int),
    ProtocolError,
> {
    match attr_value(start, "name"@) {
        None => Err(ProtocolError::MissingName),
        Some(n) => match iface_body(events, pos, start.name@, n, 0, 0) {
            Err(x) => Err(x),
            Ok((ms, q)) => Ok((IfaceV { name: n, msgs: ms }, q)),
        },
    }
}

/// The interfaces of a protocol file from position `p` on: each
/// `<interface>` start tag in document order, up to the end of the document.
#[verifier::opaque]
pub open spec fn interfaces_from(events: Seq<XmlEvent>, p: int) -> Result<Seq<IfaceV>, ProtocolError>
    decreases events.len() - p,
{
    if p < 0 || p >= events.len() {
        Ok(Seq::empty())
    } else {
        match events[p] {
            XmlEvent::Eof => Ok(Seq::empty()),
            XmlEvent::Start(t) => if t.name@ == "interface"@ {
                match iface_spec(events, p + 1, t) {
                    Err(x) => Err(x),
                    Ok((i, q)) => if p < q <= events.len() {
                        match interfaces_from(events, q) {
                            Err(x) => Err(x),
                            Ok(is) => Ok(seq![i] + is),
                        }
                    } else {
                        Err(ProtocolError::Xml)
                    },
                }
            } else {
                interfaces_from(events, p + 1)
            },
            _ => interfaces_from(events, p + 1),
        }
    }
}

/// The interfaces a protocol file declares, read from its events.
pub open spec fn interfaces_of(events: Seq<XmlEvent>) -> Result<Seq<IfaceV>, ProtocolError> {
    interfaces_from(events, 0)
}

/// `exec` is what the spec result `spec` says: the same error, or a value
/// whose view is the spec value.
pub open spec fn entries_match(
    r: Result<Vec<(String, WlArgType)>, ProtocolError>,
    spec: Result<Seq<(Seq<char>, WlArgType)>, ProtocolError>,
) -> bool {
    match spec {
        Ok(c) => r matches Ok(v) && entries_view(v@) == c,
        Err(x) => r matches Err(y) && y == x,
    }
}

/// The one or three declared arguments that an `<arg>` tag stands for.
pub open spec fn arg_chunk_ok(c: Seq<(String, WlArgType)>) -> bool {
    ||| (c.len() == 1 && !(c[0].1 matches WlArgType::NewId(None)))
    ||| {
        &&& c.len() == 3
        &&& c[2].1 matches WlArgType::NewId(None)
        &&& c[0].0@ == c[2].0@ + "_interface_name"@
        &&& c[0].1 is String
        &&& c[1].0@ == c[2].0@ + "_interface_version"@
        &&& c[1].1 is Uint
    }
}

proof fn lemma_expanded_append(a: Seq<(String, WlArgType)>, c: Seq<(String, WlArgType)>)
    requires
        new_ids_expanded(a),
        arg_chunk_ok(c),
    ensures
        new_ids_expanded(a + c),
{
    let n = a + c;
    assert forall|k: int|
        (0 <= k < n.len() && (#[trigger] n[k]).1 matches WlArgType::NewId(None)) implies {
            &&& k >= 2
            &&& n[k - 2].0@ == n[k].0@ + "_interface_name"@
            &&& n[k - 2].1 is String
            &&& n[k - 1].0@ == n[k].0@ + "_interface_version"@
            &&& n[k - 1].1 is Uint
        } by {
        if k < a.len() {
            assert(n[k] == a[k]);
            assert(n[k - 2] == a[k - 2]);
            assert(n[k - 1] == a[k - 1]);
        } else {
            assert(n[k] == c[k - a.len()]);
            if c.len() == 3 {
                assert(k - a.len() == 2);
                assert(n[k - 2] == c[0]);
                assert(n[k - 1] == c[1]);
            }
        }
    }
}

/// The declared arguments an `<arg>` tag stands for: the argument itself,
/// preceded by its interface name and version when it is a `new_id` without
/// a fixed interface. Names that are words of the target language get a
/// leading underscore.
fn arg_entries(e: &XmlTag) -> (r: Result<Vec<(String, WlArgType)>, ProtocolError>)
    ensures
        r matches Ok(c) ==> arg_chunk_ok(c@),
        entries_match(r, arg_entries_spec(*e)),
        attr_value(*e, "name"@) is None ==> r == Err::<Vec<(String, WlArgType)>, ProtocolError>(
            ProtocolError::MissingName,
        ),
{
    proof {
        reveal(arg_entries_spec);
    }
    let mut arg_name = match attr(e, "name") {
        Some(n) => n.clone(),
        None => {
            return Err(ProtocolError::MissingName);
        },
    };
    let mut tt = match attr(e, "type") {
        Some(t) => match WlArgType::parse(t.as_str()) {
            Some(x) => x,
            None => {
                return Err(ProtocolError::UnknownArgType);
            },
        },
        None => {
            return Err(ProtocolError::MissingType);
        },
    };
    if is(&arg_name, "type") {
        arg_name = "_type".to_owned();
    } else if is(&arg_name, "msg") {
        arg_name = "_msg".to_owned();
    }
    let mut out: Vec<(String, WlArgType)> = Vec::new();
    if let WlArgType::NewId(_) = tt {
        match attr(e, "interface") {
            Some(i) => {
                let _ = tt.set_interface_name(i.clone());
            },
            None => {
                out.push((suffixed(&arg_name, "_interface_name"), WlArgType::String));
                out.push((suffixed(&arg_name, "_interface_version"), WlArgType::Uint));
            },
        }
    }
    out.push((arg_name, tt));
    reveal(arg_entries_spec);
    assert(entries_view(out@) =~= arg_entries_spec(*e)->Ok_0);
    Ok(out)
}

/// `pre` put in front of the entries that `r` holds.
pub open spec fn glue_entries(
    pre: Seq<(Seq<char>, WlArgType)>,
    r: Result<(Seq<(Seq<char>, WlArgType)>, int), ProtocolError>,
) -> Result<(Seq<(Seq<char>, WlArgType)>, int), ProtocolError> {
    match r {
        Err(x) => Err(x),
        Ok((a, q)) => Ok((pre + a, q)),
    }
}

/// `r` is what the spec result `spec` says.
pub open spec fn msg_match(
    r: Result<(WlMsg, usize), ProtocolError>,
    spec: Result<(MsgV, int), ProtocolError>,
) -> bool {
    match spec {
        Ok((m, q)) => r matches Ok((x, p)) && msg_view(x) == m && p == q,
        Err(e) => r matches Err(y) && y == e,
    }
}

/// One step of reading a message's arguments.
proof fn lemma_msg_body_step(events: Seq<XmlEvent>, p: int, end: Seq<char>)
    requires
        0 <= p < events.len(),
    ensures
        msg_body(events, p, end) == match events[p] {
            XmlEvent::Eof => Err(ProtocolError::UnexpectedEof),
            XmlEvent::Empty(t) => if t.name@ == "arg"@ {
                match arg_entries_spec(t) {
                    Err(x) => Err(x),
                    Ok(c) => glue_entries(c, msg_body(events, p + 1, end)),
                }
            } else {
                msg_body(events, p + 1, end)
            },
            XmlEvent::End(n) => if n@ == end {
                Ok((Seq::empty(), p + 1))
            } else {
                msg_body(events, p + 1, end)
            },
            _ => msg_body(events, p + 1, end),
        },
{
    reveal(msg_body);
}

/// Reads the arguments of a message from the events after its start tag, up
/// to its end tag; gives the message and the position after the end tag.
#[verifier::rlimit(80)]
fn handle_request_or_event(
    events: &Vec<XmlEvent>,
    pos: usize,
    opcode: u16,
    msg_type: WlMsgType,
    interface_name_snake: &String,
    start: &XmlTag,
    is_empty: bool,
) -> (r: Result<(WlMsg, usize), ProtocolError>)
    requires
        pos <= events@.len(),
    ensures
        msg_match(
            r,
            msg_spec(events@, pos as int, opcode, msg_type, interface_name_snake@, *start, is_empty),
        ),
        r matches Ok((m, p)) ==> {
            &&& pos <= p <= events@.len()
            &&& m.opcode == opcode
            &&& m.msg_type == msg_type
            &&& m.interface_name_snake@ == interface_name_snake@
            &&& new_ids_expanded(m.args@)
        },
{
    let name = match attr(start, "name") {
        Some(n) => n.clone(),
        None => {
            return Err(ProtocolError::MissingName);
        },
    };
    let is_destructor = match attr(start, "type") {
        Some(t) => is(t, "destructor"),
        None => false,
    };
    let mut args: Vec<(String, WlArgType)> = Vec::new();
    if is_empty {
        let m = WlMsg {
            interface_name_snake: interface_name_snake.clone(),
            name_snake: name,
            msg_type,
            opcode,
            is_destructor,
            args,
        };
        assert(entries_view(m.args@) =~= Seq::<(Seq<char>, WlArgType)>::empty());
        return Ok((m, pos));
    }
    let ghost end = start.name@;
    let mut p = pos;
    assert(entries_view(args@) =~= Seq::<(Seq<char>, WlArgType)>::empty());
    proof {
        match msg_body(events@, pos as int, end) {
            Ok((a, q)) => {
                assert(Seq::<(Seq<char>, WlArgType)>::empty() + a =~= a);
            },
            Err(_) => {},
        }
    }
    while p < events.len()
        invariant
            pos <= p <= events@.len(),
            p < events@.len() ==> true,
            new_ids_expanded(args@),
            attr_value(*start, "name"@) == Some(name@),
            is_destructor == (attr_value(*start, "type"@) == Some("destructor"@)),
            end == start.name@,
            !is_empty,
            msg_body(events@, pos as int, end) == glue_entries(
                entries_view(args@),
                msg_body(events@, p as int, end),
            ),
        decreases events@.len() - p,
    {
        proof {
            lemma_msg_body_step(events@, p as int, end);
        }
        match &events[p] {
            XmlEvent::Eof => {
                return Err(ProtocolError::UnexpectedEof);
            },
            XmlEvent::Empty(e) => {
                if is(&e.name, "arg") {
                    let mut chunk = arg_entries(e)?;
                    let ghost pre = entries_view(args@);
                    let ghost c = entries_view(chunk@);
                    proof {
                        lemma_expanded_append(args@, chunk@);
                    }
                    let ghost before = args@;
                    let ghost chunk_v = chunk@;
                    args.append(&mut chunk);
                    proof {
                        assert(args@ =~= before + chunk_v);
                        assert(entries_view(args@) =~= pre + c);
                        match msg_body(events@, p + 1, end) {
                            Ok((rest, q)) => {
                                assert(pre + (c + rest) =~= (pre + c) + rest);
                            },
                            Err(_) => {},
                        }
                    }
                }
                p = p + 1;
            },
            XmlEvent::End(n) => {
                if *n == start.name {
                    let m = WlMsg {
                        interface_name_snake: interface_name_snake.clone(),
                        name_snake: name,
                        msg_type,
                        opcode,
                        is_destructor,
                        args,
                    };
                    proof {
                        assert(entries_view(m.args@) + Seq::<(Seq<char>, WlArgType)>::empty()
                            =~= entries_view(m.args@));
                    }
                    return Ok((m, p + 1));
                }
                p = p + 1;
            },
            _ => {
                p = p + 1;
            },
        }
    }
    proof {
        reveal(msg_body);
    }
    Err(ProtocolError::UnexpectedEof)
}

proof fn lemma_opcodes_push(msgs: Seq<WlMsg>, m: WlMsg)
    requires
        opcodes_in_order(msgs),
        m.opcode == count_dir(msgs, m.msg_type),
    ensures
        opcodes_in_order(msgs.push(m)),
        count_dir(msgs.push(m), m.msg_type) == count_dir(msgs, m.msg_type) + 1,
        forall|d: WlMsgType| d != m.msg_type ==> #[trigger] count_dir(msgs.push(m), d) == count_dir(msgs, d),
{
    let n = msgs.push(m);
    assert(n.drop_last() =~= msgs);
    assert forall|i: int| 0 <= i < n.len() implies (#[trigger] n[i]).opcode == count_dir(n.subrange(0, i), n[i].msg_type) by {
        if i < msgs.len() {
            assert(n.subrange(0, i) =~= msgs.subrange(0, i));
        } else {
            assert(n.subrange(0, i) =~= msgs);
        }
    }
}

/// The views of message descriptors.
pub open spec fn msgs_view(msgs: Seq<WlMsg>) -> Seq<MsgV> {
    msgs.map_values(|m: WlMsg| msg_view(m))
}

/// `pre` put in front of the messages that `r` holds.
pub open spec fn glue_msgs(pre: Seq<MsgV>, r: Result<(Seq<MsgV>, int), ProtocolError>) -> Result<
    (Seq<MsgV>, int),
    ProtocolError,
> {
    match r {
        Err(x) => Err(x),
        Ok((a, q)) => Ok((pre + a, q)),
    }
}

/// `r` is what the spec result `spec` says.
pub open spec fn iface_match(
    r: Result<(WlInterface, usize), ProtocolError>,
    spec: Result<(IfaceV, int), ProtocolError>,
) -> bool {
    match spec {
        Ok((i, q)) => r matches Ok((x, p)) && iface_view(x) == i && p == q,
        Err(e) => r matches Err(y) && y == e,
    }
}

/// One step of reading an interface's messages.
proof fn lemma_iface_body_step(
    events: Seq<XmlEvent>,
    p: int,
    end: Seq<char>,
    iface: Seq<char>,
    ev: int,
    rq: int,
)
    requires
        0 <= p < events.len(),
    ensures
        iface_body(events, p, end, iface, ev, rq) == match tag_of(events[p]) {
            Some((t, empty)) => match dir_of(t.name@) {
                None => iface_body(events, p + 1, end, iface, ev, rq),
                Some(d) => {
                    let op = if d == WlMsgType::Event {
                        ev
                    } else {
                        rq
                    };
                    if op < 0 || op >= 0xffff {
                        Err(ProtocolError::TooManyMessages)
                    } else {
                        match msg_spec(events, p + 1, op as u16, d, iface, t, empty) {
                            Err(x) => Err(x),
                            Ok((m, q)) => if p < q <= events.len() {
                                glue_msgs(
                                    seq![m],
                                    iface_body(
                                        events,
                                        q,
                                        end,
                                        iface,
                                        if d == WlMsgType::Event {
                                            ev + 1
                                        } else {
                                            ev
                                        },
                                        if d == WlMsgType::Request {
                                            rq + 1
                                        } else {
                                            rq
                                        },
                                    ),
                                )
                            } else {
                                Err(ProtocolError::Xml)
                            },
                        }
                    }
                },
            },
            None => match events[p] {
                XmlEvent::Eof => Err(ProtocolError::UnexpectedEof),
                XmlEvent::End(n) => if n@ == end {
                    Ok((Seq::empty(), p + 1))
                } else {
                    iface_body(events, p + 1, end, iface, ev, rq)
                },
                _ => iface_body(events, p + 1, end, iface, ev, rq),
            },
        },
{
    reveal(iface_body);
}

/// Reads an interface from the events after its start tag, up to its end
/// tag; gives the interface and the position after the end tag.
#[verifier::rlimit(80)]
fn handle_interface(events: &Vec<XmlEvent>, pos: usize, start: &XmlTag) -> (r: Result<
    (WlInterface, usize),
    ProtocolError,
>)
    requires
        pos <= events@.len(),
    ensures
        iface_match(r, iface_spec(events@, pos as int, *start)),
        r matches Ok((i, p)) ==> {
            &&& pos <= p <= events@.len()
            &&& interface_ok(i)
        },
{
    let name = match attr(start, "name") {
        Some(n) => n.clone(),
        None => {
            return Err(ProtocolError::MissingName);
        },
    };
    let ghost end = start.name@;
    let mut msgs: Vec<WlMsg> = Vec::new();
    let mut event_opcode: u16 = 0;
    let mut request_opcode: u16 = 0;
    let mut p = pos;
    proof {
        assert(msgs_view(msgs@) =~= Seq::<MsgV>::empty());
        match iface_body(events@, pos as int, end, name@, 0, 0) {
            Ok((a, q)) => {
                assert(Seq::<MsgV>::empty() + a =~= a);
            },
            Err(_) => {},
        }
    }
    while p < events.len()
        invariant
            pos <= p <= events@.len(),
            end == start.name@,
            opcodes_in_order(msgs@),
            event_opcode == count_dir(msgs@, WlMsgType::Event),
            request_opcode == count_dir(msgs@, WlMsgType::Request),
            forall|i: int|
                0 <= i < msgs@.len() ==> {
                    &&& (#[trigger] msgs@[i]).interface_name_snake@ == name@
                    &&& new_ids_expanded(msgs@[i].args@)
                },
            attr_value(*start, "name"@) == Some(name@),
            iface_body(events@, pos as int, end, name@, 0, 0) == glue_msgs(
                msgs_view(msgs@),
                iface_body(events@, p as int, end, name@, event_opcode as int, request_opcode as int),
            ),
        decreases events@.len() - p,
    {
        proof {
            lemma_iface_body_step(events@, p as int, end, name@, event_opcode as int, request_opcode as int);
        }
        let (tag, is_empty) = match &events[p] {
            XmlEvent::Eof => {
                return Err(ProtocolError::UnexpectedEof);
            },
            XmlEvent::Start(e) => (Some(e), false),
            XmlEvent::Empty(e) => (Some(e), true),
            XmlEvent::End(n) => {
                if *n == start.name {
                    let i = WlInterface { name_snake: name, msgs };
                    proof {
                        assert(msgs_view(i.msgs@) + Seq::<MsgV>::empty() =~= msgs_view(i.msgs@));
                    }
                    return Ok((i, p + 1));
                }
                (None, false)
            },
            XmlEvent::Other => (None, false),
        };
        let mut next = p + 1;
        if let Some(e) = tag {
            let dir = if is(&e.name, "event") {
                Some(WlMsgType::Event)
            } else if is(&e.name, "request") {
                Some(WlMsgType::Request)
            } else {
                None
            };
            if let Some(dir) = dir {
                let opcode = match dir {
                    WlMsgType::Event => event_opcode,
                    WlMsgType::Request => request_opcode,
                };
                if opcode == u16::MAX {
                    return Err(ProtocolError::TooManyMessages);
                }
                let (m, q) = handle_request_or_event(events, p + 1, opcode, dir, &name, e, is_empty)?;
                proof {
                    lemma_opcodes_push(msgs@, m);
                }
                let ghost before = msgs@;
                let ghost mv = msg_view(m);
                msgs.push(m);
                proof {
                    assert forall|i: int| 0 <= i < msgs@.len() implies {
                        &&& (#[trigger] msgs@[i]).interface_name_snake@ == name@
                        &&& new_ids_expanded(msgs@[i].args@)
                    } by {
                        if i < before.len() {
                            assert(msgs@[i] == before[i]);
                        }
                    }
                    assert(msgs_view(msgs@) =~= msgs_view(before) + seq![mv]);
                    let nev = if dir == WlMsgType::Event { event_opcode + 1 } else { event_opcode as int };
                    let nrq = if dir == WlMsgType::Request { request_opcode + 1 } else { request_opcode as int };
                    match iface_body(events@, q as int, end, name@, nev, nrq) {
                        Ok((rest, q2)) => {
                            assert(msgs_view(before) + (seq![mv] + rest) =~= (msgs_view(before) + seq![mv]) + rest);
                        },
                        Err(_) => {},
                    }
                }
                match dir {
                    WlMsgType::Event => {
                        event_opcode = event_opcode + 1;
                    },
                    WlMsgType::Request => {
                        request_opcode = request_opcode + 1;
                    },
                }
                next = q;
            }
        }
        p = next;
    }
    proof {
        reveal(iface_body);
    }
    Err(ProtocolError::UnexpectedEof)
}

/// `r` is what the spec result `spec` says.
pub open spec fn ifaces_match(
    r: Result<Vec<WlInterface>, ProtocolError>,
    spec: Result<Seq<IfaceV>, ProtocolError>,
) -> bool {
    match spec {
        Ok(v) => r matches Ok(x) && ifaces_view(x@) == v,
        Err(e) => r matches Err(y) && y == e,
    }
}

/// `pre` put in front of the interfaces that `r` holds.
pub open spec fn glue_ifaces(pre: Seq<IfaceV>, r: Result<Seq<IfaceV>, ProtocolError>) -> Result<
    Seq<IfaceV>,
    ProtocolError,
> {
    match r {
        Err(x) => Err(x),
        Ok(a) => Ok(pre + a),
    }
}

/// One step of reading the interfaces of a file.
proof fn lemma_interfaces_step(events: Seq<XmlEvent>, p: int)
    requires
        0 <= p < events.len(),
    ensures
        interfaces_from(events, p) == match events[p] {
            XmlEvent::Eof => Ok(Seq::empty()),
            XmlEvent::Start(t) => if t.name@ == "interface"@ {
                match iface_spec(events, p + 1, t) {
                    Err(x) => Err(x),
                    Ok((i, q)) => if p < q <= events.len() {
                        glue_ifaces(seq![i], interfaces_from(events, q))
                    } else {
                        Err(ProtocolError::Xml)
                    },
                }
            } else {
                interfaces_from(events, p + 1)
            },
            _ => interfaces_from(events, p + 1),
        },
{
    reveal(interfaces_from);
}

/// The interfaces a protocol file declares, from its events in order.
#[verifier::rlimit(60)]
pub fn interfaces_from_events(events: &Vec<XmlEvent>) -> (r: Result<Vec<WlInterface>, ProtocolError>)
    ensures
        ifaces_match(r, interfaces_of(events@)),
        r matches Ok(v) ==> forall|i: int| 0 <= i < v@.len() ==> interface_ok(#[trigger] v@[i]),
{
    let mut out: Vec<WlInterface> = Vec::new();
    let mut p: usize = 0;
    proof {
        assert(ifaces_view(out@) =~= Seq::<IfaceV>::empty());
        match interfaces_from(events@, 0) {
            Ok(a) => {
                assert(Seq::<IfaceV>::empty() + a =~= a);
            },
            Err(_) => {},
        }
    }
    while p < events.len()
        invariant
            p <= events@.len(),
            forall|i: int| 0 <= i < out@.len() ==> interface_ok(#[trigger] out@[i]),
            interfaces_of(events@) == glue_ifaces(ifaces_view(out@), interfaces_from(events@, p as int)),
        decreases events@.len() - p,
    {
        proof {
            lemma_interfaces_step(events@, p as int);
        }
        match &events[p] {
            XmlEvent::Eof => {
                proof {
                    assert(ifaces_view(out@) + Seq::<IfaceV>::empty() =~= ifaces_view(out@));
                }
                return Ok(out);
            },
            XmlEvent::Start(e) => {
                if is(&e.name, "interface") {
                    let (iface, q) = handle_interface(events, p + 1, e)?;
                    let ghost before = out@;
                    let ghost iv = iface_view(iface);
                    out.push(iface);
                    proof {
                        assert forall|i: int| 0 <= i < out@.len() implies interface_ok(#[trigger] out@[i]) by {
                            if i < before.len() {
                                assert(out@[i] == before[i]);
                            }
                        }
                        assert(ifaces_view(out@) =~= ifaces_view(before) + seq![iv]);
                        match interfaces_from(events@, q as int) {
                            Ok(rest) => {
                                assert(ifaces_view(before) + (seq![iv] + rest) =~= (ifaces_view(before)
                                    + seq![iv]) + rest);
                            },
                            Err(_) => {},
                        }
                    }
                    p = q;
                } else {
                    p = p + 1;
                }
            },
            _ => {
                p = p + 1;
            },
        }
    }
    proof {
        reveal(interfaces_from);
        assert(ifaces_view(out@) + Seq::<IfaceV>::empty() =~= ifaces_view(out@));
    }
    Ok(out)
}

} // verus!
