//! Parsed messages: decoding a raw frame against the protocol descriptors,
//! and building frames from argument values.
use vstd::prelude::*;
use crate::args::{
    args_fit, args_view, encode_arg, encode_args, fd_count, lemma_args_roundtrip, lemma_encode_aligned, encode_payload, parse_args, parse_payload, types_of, arg_size_ok, ArgV,
    WlArg, WlArgType,
};
use crate::codec::{frame_bytes, frame_ok, lemma_frames_roundtrip, no_frame, split_frames, FrameV, WlRawMsg, MAX_FRAME_LEN};
use crate::objects::WlObjects;
use crate::protocol::{lookup_known_object_type, WlMsg, WlMsgType, WlObjectType, WlProtocol};
use crate::wire::Endian;

verus! {

/// What came of parsing a frame as a message.
pub enum WaylandProtocolParsingOutcome<T> {
    Parsed(T),
    /// The payload does not hold the declared arguments.
    MalformedMessage,
    IncorrectObject,
    IncorrectOpcode,
    /// No known message matches the target object and opcode.
    Unknown,
}

impl<T> WaylandProtocolParsingOutcome<T> {
    /// Applies `f` to a parsed value; other outcomes stay as they are.
    pub fn map<U, F: Fn(T) -> U>(self, f: F) -> (r: WaylandProtocolParsingOutcome<U>)
        requires
            self matches WaylandProtocolParsingOutcome::Parsed(t) ==> f.requires((t,)),
        ensures
            match self {
                WaylandProtocolParsingOutcome::Parsed(t) => r matches WaylandProtocolParsingOutcome::Parsed(u)
                    && f.ensures((t,), u),
                WaylandProtocolParsingOutcome::MalformedMessage => r is MalformedMessage,
                WaylandProtocolParsingOutcome::IncorrectObject => r is IncorrectObject,
                WaylandProtocolParsingOutcome::IncorrectOpcode => r is IncorrectOpcode,
                WaylandProtocolParsingOutcome::Unknown => r is Unknown,
            },
    {
        match self {
            WaylandProtocolParsingOutcome::Parsed(t) => WaylandProtocolParsingOutcome::Parsed(f(t)),
            WaylandProtocolParsingOutcome::MalformedMessage => {
                WaylandProtocolParsingOutcome::MalformedMessage
            },
            WaylandProtocolParsingOutcome::IncorrectObject => {
                WaylandProtocolParsingOutcome::IncorrectObject
            },
            WaylandProtocolParsingOutcome::IncorrectOpcode => {
                WaylandProtocolParsingOutcome::IncorrectOpcode
            },
            WaylandProtocolParsingOutcome::Unknown => WaylandProtocolParsingOutcome::Unknown,
        }
    }
}

/// A parsed message of any known type: its metadata and argument values.
#[derive(Debug)]
pub struct AnyWlParsedMessage {
    /// The object the message acts on.
    pub obj_id: u32,
    pub object_type: WlObjectType,
    pub msg_type: WlMsgType,
    pub opcode: u16,
    /// Name of the interface of the target object.
    pub interface: String,
    pub msg_name: String,
    pub is_destructor: bool,
    /// How many of the frame's descriptors the message uses, from the front.
    pub num_consumed_fds: usize,
    pub arg_names: Vec<String>,
    pub args: Vec<WlArg>,
    /// Objects of known type that the message creates, when it declares any.
    pub known_objects_created: Option<Vec<(u32, WlObjectType)>>,
}

/// Whether some argument is a `new_id` of fixed interface.
pub open spec fn has_typed_new_id(ts: Seq<(String, WlArgType)>) -> bool {
    exists|i: int| 0 <= i < ts.len() && (#[trigger] ts[i]).1 matches WlArgType::NewId(Some(_))
}

/// The objects that arguments `vs` of declared arguments `ts` create, with
/// their types; `None` when a fixed interface is not a known one.
#[verifier::opaque]
pub open spec fn created_spec(proto: &WlProtocol, ts: Seq<(String, WlArgType)>, vs: Seq<ArgV>) -> Option<
    Seq<(u32, WlObjectType)>,
>
    decreases ts.len(),
{
    if ts.len() == 0 || vs.len() == 0 {
        Some(Seq::empty())
    } else {
        let rest = created_spec(proto, ts.drop_first(), vs.drop_first());
        match ts[0].1 {
            WlArgType::NewId(Some(n)) => match (proto.type_named(n@), vs[0], rest) {
                (Some(t), ArgV::NewId(id), Some(r)) => Some(seq![(id, t)] + r),
                _ => None,
            },
            _ => rest,
        }
    }
}

/// The names of declared arguments.
pub open spec fn arg_names_of(ts: Seq<(String, WlArgType)>) -> Seq<Seq<char>> {
    ts.map_values(|a: (String, WlArgType)| a.0@)
}

/// The views of names.
pub open spec fn names_view(ns: Seq<String>) -> Seq<Seq<char>> {
    ns.map_values(|s: String| s@)
}

/// A parsed message as the contracts see it: the type of the target, the
/// message descriptor, the argument values and the objects created.
pub struct ParsedV {
    pub t: WlObjectType,
    pub d: WlMsg,
    pub vs: Seq<ArgV>,
    pub cs: Seq<(u32, WlObjectType)>,
}

/// What parsing `raw` as a message of direction `dir` gives.
pub open spec fn parse_spec<F>(
    e: Endian,
    proto: &WlProtocol,
    objects: &WlObjects,
    raw: &WlRawMsg<F>,
    dir: WlMsgType,
) -> WaylandProtocolParsingOutcome<ParsedV> {
    match objects.lookup_spec(raw.obj_id) {
        None => WaylandProtocolParsingOutcome::Unknown,
        Some(t) => match proto.msg_spec(t, dir, raw.opcode) {
            None => WaylandProtocolParsingOutcome::Unknown,
            Some(d) => match parse_args(
                e,
                types_of(d.args@),
                raw.frame().payload,
                0,
                raw.fds@.len() as int,
            ) {
                None => WaylandProtocolParsingOutcome::MalformedMessage,
                Some((vs, _)) => match created_spec(proto, d.args@, vs) {
                    None => WaylandProtocolParsingOutcome::Unknown,
                    Some(cs) => WaylandProtocolParsingOutcome::Parsed(ParsedV { t, d, vs, cs }),
                },
            },
        },
    }
}

/// `m` is the message `p` parsed from `raw` in direction `dir`.
pub open spec fn message_is<F>(
    m: AnyWlParsedMessage,
    p: ParsedV,
    proto: &WlProtocol,
    raw: &WlRawMsg<F>,
    dir: WlMsgType,
) -> bool {
    &&& m.obj_id == raw.obj_id
    &&& m.object_type == p.t
    &&& m.msg_type == dir
    &&& m.opcode == raw.opcode
    &&& m.interface@ == proto.interfaces@[p.t.index as int].name_snake@
    &&& m.msg_name@ == p.d.name_snake@
    &&& m.is_destructor == p.d.is_destructor
    &&& m.num_consumed_fds == p.d.fd_args()
    &&& names_view(m.arg_names@) == arg_names_of(p.d.args@)
    &&& args_view(m.args@) == p.vs
    &&& if has_typed_new_id(p.d.args@) {
        m.known_objects_created matches Some(v) && v@ == p.cs
    } else {
        m.known_objects_created is None
    }
}

/// `r` is what parsing `raw` as a message of direction `dir` gives.
pub open spec fn decoded_as<F>(
    e: Endian,
    proto: &WlProtocol,
    objects: &WlObjects,
    raw: &WlRawMsg<F>,
    dir: WlMsgType,
    r: WaylandProtocolParsingOutcome<AnyWlParsedMessage>,
) -> bool {
    match parse_spec(e, proto, objects, raw, dir) {
        WaylandProtocolParsingOutcome::Parsed(p) => r matches WaylandProtocolParsingOutcome::Parsed(m)
            && message_is(m, p, proto, raw, dir),
        WaylandProtocolParsingOutcome::MalformedMessage => r is MalformedMessage,
        _ => r is Unknown,
    }
}

proof fn lemma_created_step(
    proto: &WlProtocol,
    ts: Seq<(String, WlArgType)>,
    vs: Seq<ArgV>,
    i: int,
)
    requires
        0 <= i < ts.len(),
        i < vs.len(),
    ensures
        ({
            let rest = created_spec(
                proto,
                ts.subrange(i + 1, ts.len() as int),
                vs.subrange(i + 1, vs.len() as int),
            );
            created_spec(proto, ts.subrange(i, ts.len() as int), vs.subrange(i, vs.len() as int))
                == match ts[i].1 {
                WlArgType::NewId(Some(n)) => match (proto.type_named(n@), vs[i], rest) {
                    (Some(t), ArgV::NewId(id), Some(r)) => Some(seq![(id, t)] + r),
                    _ => None,
                },
                _ => rest,
            }
        }),
{
    reveal(created_spec);
    let tsub = ts.subrange(i, ts.len() as int);
    let vsub = vs.subrange(i, vs.len() as int);
    assert(tsub.drop_first() =~= ts.subrange(i + 1, ts.len() as int));
    assert(vsub.drop_first() =~= vs.subrange(i + 1, vs.len() as int));
}

/// The objects created by the values `vs` of the declared arguments `ts`.
fn created_objects(proto: &WlProtocol, ts: &Vec<(String, WlArgType)>, vs: &Vec<WlArg>) -> (r: Option<
    Vec<(u32, WlObjectType)>,
>)
    requires
        proto.wf(),
    ensures
        match created_spec(proto, ts@, args_view(vs@)) {
            None => r is None,
            Some(cs) => r matches Some(v) && v@ == cs,
        },
{
    let ghost avs = args_view(vs@);
    let n = if ts.len() < vs.len() {
        ts.len()
    } else {
        vs.len()
    };
    let mut out: Vec<(u32, WlObjectType)> = Vec::new();
    let mut i: usize = 0;
    assert(ts@.subrange(0, ts@.len() as int) =~= ts@);
    assert(avs.subrange(0, avs.len() as int) =~= avs);
    assert(Seq::<(u32, WlObjectType)>::empty() + Seq::<(u32, WlObjectType)>::empty() =~= Seq::<(u32, WlObjectType)>::empty());
    while i < n
        invariant
            i <= n,
            n <= ts@.len(),
            n <= vs@.len(),
            n == ts@.len() || n == vs@.len(),
            proto.wf(),
            avs == args_view(vs@),
            created_spec(proto, ts@, avs) == glue(
                out@,
                created_spec(
                    proto,
                    ts@.subrange(i as int, ts@.len() as int),
                    avs.subrange(i as int, avs.len() as int),
                ),
            ),
        decreases n - i,
    {
        proof {
            lemma_created_step(proto, ts@, avs, i as int);
        }
        if let WlArgType::NewId(Some(name)) = &ts[i].1 {
            let t = match lookup_known_object_type(proto, name.as_str()) {
                Some(t) => t,
                None => {
                    return None;
                },
            };
            let id = match &vs[i] {
                WlArg::NewId(id) => *id,
                _ => {
                    return None;
                },
            };
            let ghost before = out@;
            out.push((id, t));
            proof {
                match created_spec(
                    proto,
                    ts@.subrange(i + 1, ts@.len() as int),
                    avs.subrange(i + 1, avs.len() as int),
                ) {
                    Some(rest) => {
                        assert(before + (seq![(id, t)] + rest) =~= out@ + rest);
                    },
                    None => {},
                }
            }
        }
        i = i + 1;
    }
    proof {
        reveal(created_spec);
        assert(created_spec(proto, ts@.subrange(i as int, ts@.len() as int), avs.subrange(i as int, avs.len() as int))
            == Some(Seq::<(u32, WlObjectType)>::empty()));
        assert(out@ + Seq::<(u32, WlObjectType)>::empty() =~= out@);
    }
    Some(out)
}

/// `r` with `pre` put in front of the objects it holds.
pub open spec fn glue(pre: Seq<(u32, WlObjectType)>, r: Option<Seq<(u32, WlObjectType)>>) -> Option<
    Seq<(u32, WlObjectType)>,
> {
    match r {
        None => None,
        Some(x) => Some(pre + x),
    }
}

/// Whether some declared argument is a `new_id` of fixed interface.
fn declares_typed_new_id(ts: &Vec<(String, WlArgType)>) -> (r: bool)
    ensures
        r == has_typed_new_id(ts@),
{
    let mut i: usize = 0;
    while i < ts.len()
        invariant
            i <= ts@.len(),
            forall|j: int| 0 <= j < i ==> !((#[trigger] ts@[j]).1 matches WlArgType::NewId(Some(_))),
        decreases ts@.len() - i,
    {
        if let WlArgType::NewId(Some(_)) = &ts[i].1 {
            return true;
        }
        i = i + 1;
    }
    false
}

/// Copies of the declared argument names.
fn names_of(ts: &Vec<(String, WlArgType)>) -> (r: Vec<String>)
    ensures
        names_view(r@) == arg_names_of(ts@),
{
    let mut out: Vec<String> = Vec::new();
    let mut i: usize = 0;
    while i < ts.len()
        invariant
            i <= ts@.len(),
            names_view(out@) == arg_names_of(ts@).subrange(0, i as int),
        decreases ts@.len() - i,
    {
        let ghost before = out@;
        let c = ts[i].0.clone();
        out.push(c);
        assert(names_view(out@) =~= names_view(before).push(ts@[i as int].0@));
        assert(arg_names_of(ts@).subrange(0, i + 1) =~= arg_names_of(ts@).subrange(0, i as int).push(ts@[i as int].0@));
        i = i + 1;
    }
    assert(arg_names_of(ts@).subrange(0, i as int) =~= arg_names_of(ts@));
    out
}

/// Parses `raw` as a message of direction `dir` on an object the registry knows.
fn decode_message<F>(
    e: Endian,
    proto: &WlProtocol,
    objects: &WlObjects,
    raw: &WlRawMsg<F>,
    dir: WlMsgType,
) -> (r: WaylandProtocolParsingOutcome<AnyWlParsedMessage>)
    requires
        proto.wf(),
        raw.bytes().len() >= 8,
    ensures
        decoded_as(e, proto, objects, raw, dir, r),
{
    let t = match objects.lookup_object(raw.obj_id) {
        Some(t) => t,
        None => {
            return WaylandProtocolParsingOutcome::Unknown;
        },
    };
    let d: &WlMsg = match proto.find_msg(t, dir, raw.opcode) {
        Some(d) => d,
        None => {
            return WaylandProtocolParsingOutcome::Unknown;
        },
    };
    let args = match parse_payload(e, &d.args, raw.payload(), raw.fds.len()) {
        Some(a) => a,
        None => {
            return WaylandProtocolParsingOutcome::MalformedMessage;
        },
    };
    let created = match created_objects(proto, &d.args, &args) {
        Some(c) => c,
        None => {
            return WaylandProtocolParsingOutcome::Unknown;
        },
    };
    let known_objects_created = if declares_typed_new_id(&d.args) {
        Some(created)
    } else {
        None
    };
    WaylandProtocolParsingOutcome::Parsed(
        AnyWlParsedMessage {
            obj_id: raw.obj_id,
            object_type: t,
            msg_type: dir,
            opcode: raw.opcode,
            interface: t.interface(proto).clone(),
            msg_name: d.name_snake.clone(),
            is_destructor: d.is_destructor,
            num_consumed_fds: d.num_consumed_fds(),
            arg_names: names_of(&d.args),
            args,
            known_objects_created,
        },
    )
}

/// Parses a server-to-client frame.
pub fn decode_event<F>(e: Endian, proto: &WlProtocol, objects: &WlObjects, raw: &WlRawMsg<F>) -> (r:
    WaylandProtocolParsingOutcome<AnyWlParsedMessage>)
    requires
        proto.wf(),
        raw.bytes().len() >= 8,
    ensures
        decoded_as(e, proto, objects, raw, WlMsgType::Event, r),
{
    decode_message(e, proto, objects, raw, WlMsgType::Event)
}

/// Parses a client-to-server frame.
pub fn decode_request<F>(e: Endian, proto: &WlProtocol, objects: &WlObjects, raw: &WlRawMsg<F>) -> (r:
    WaylandProtocolParsingOutcome<AnyWlParsedMessage>)
    requires
        proto.wf(),
        raw.bytes().len() >= 8,
    ensures
        decoded_as(e, proto, objects, raw, WlMsgType::Request, r),
{
    decode_message(e, proto, objects, raw, WlMsgType::Request)
}

/// Builds the frame of a message on `obj_id` with `opcode` and the argument
/// values `args`, carrying `fds`; `None` when the payload is too long for
/// the 16-bit length field.
pub fn build_message<F>(e: Endian, obj_id: u32, opcode: u16, args: &Vec<WlArg>, fds: Vec<F>) -> (r:
    Option<WlRawMsg<F>>)
    requires
        forall|i: int| 0 <= i < args@.len() ==> arg_size_ok(#[trigger] args@[i]@),
    ensures
        (r is Some) == (encode_args(e, args_view(args@)).len() + 8 <= MAX_FRAME_LEN),
        r matches Some(m) ==> {
            &&& m.wf(e)
            &&& m.frame() == (FrameV {
                obj_id,
                opcode,
                payload: encode_args(e, args_view(args@)),
            })
            &&& m.fds == fds
        },
{
    let mut payload: Vec<u8> = Vec::new();
    encode_payload(e, args, &mut payload);
    proof {
        lemma_encode_aligned(e, args_view(args@));
        assert(payload@ =~= encode_args(e, args_view(args@)));
    }
    if payload.len() > MAX_FRAME_LEN - 8 {
        return None;
    }
    Some(WlRawMsg::build(e, obj_id, opcode, payload.as_slice(), fds))
}

/// Opcode of the `error` event of `wl_display`.
pub const WL_DISPLAY_ERROR_OPCODE: u16 = 0;

/// The arguments of a `wl_display.error` event about `object`.
pub open spec fn display_error_args(object: u32, code: u32, message: Seq<char>) -> Seq<ArgV> {
    seq![ArgV::Object(object), ArgV::Uint(code), ArgV::Str(message)]
}

/// The frame of a `wl_display.error` event about `object`, sent on the
/// display object.
pub open spec fn display_error_frame(object: u32, code: u32, message: Seq<char>, e: Endian) -> FrameV {
    FrameV {
        obj_id: crate::objects::WL_DISPLAY_OBJECT_ID,
        opcode: WL_DISPLAY_ERROR_OPCODE,
        payload: encode_args(e, display_error_args(object, code, message)),
    }
}

/// Builds a `wl_display.error` event telling the client that a request on
/// `object` failed with `code`; `None` when the message is too long for a frame.
pub fn display_error_event<F>(e: Endian, object: u32, code: u32, message: &str) -> (r: Option<
    WlRawMsg<F>,
>)
    ensures
        (r is Some) == (encode_args(e, display_error_args(object, code, message@)).len() + 8
            <= MAX_FRAME_LEN),
        r matches Some(m) ==> m.wf(e) && m.frame() == display_error_frame(object, code, message@, e)
            && m.fds@.len() == 0,
{
    let text = message.to_owned();
    let big = text.as_str().as_bytes().len() >= MAX_FRAME_LEN;
    if big {
        proof {
            let vs = display_error_args(object, code, message@);
            reveal_with_fuel(encode_args, 4);
            assert(vs.drop_first().drop_first().drop_first() =~= Seq::<ArgV>::empty());
            assert(encode_args(e, vs).len() >= encode_arg(e, vs[2]).len());
        }
        return None;
    }
    let mut args: Vec<WlArg> = Vec::new();
    args.push(WlArg::Object(object));
    args.push(WlArg::Uint(code));
    args.push(WlArg::Str(text));
    assert(args_view(args@) =~= display_error_args(object, code, message@));
    build_message(e, crate::objects::WL_DISPLAY_OBJECT_ID, WL_DISPLAY_ERROR_OPCODE, &args, Vec::new())
}

/// The position of the first of the first `n` names that equals `name`.
pub open spec fn first_named(names: Seq<Seq<char>>, n: int, name: Seq<char>) -> Option<int> {
    if exists|i: int|
        0 <= i < n && i < names.len() && names[i] == name && forall|j: int|
            0 <= j < i ==> names[j] != name {
        Some(
            choose|i: int|
                0 <= i < n && i < names.len() && names[i] == name && forall|j: int|
                    0 <= j < i ==> names[j] != name,
        )
    } else {
        None
    }
}

/// The value of the first argument named `name`.
pub open spec fn arg_named(names: Seq<Seq<char>>, vs: Seq<ArgV>, name: Seq<char>) -> Option<ArgV> {
    match first_named(names, vs.len() as int, name) {
        Some(i) => Some(vs[i]),
        None => None,
    }
}

/// The 32-bit value of an unsigned, object, new-id or enum argument.
pub open spec fn u32_of(a: Option<ArgV>) -> Option<u32> {
    match a {
        Some(ArgV::Uint(v)) => Some(v),
        Some(ArgV::Object(v)) => Some(v),
        Some(ArgV::NewId(v)) => Some(v),
        Some(ArgV::Enum(v)) => Some(v),
        _ => None,
    }
}

/// The text of a string argument.
pub open spec fn str_of(a: Option<ArgV>) -> Option<Seq<char>> {
    match a {
        Some(ArgV::Str(s)) => Some(s),
        _ => None,
    }
}

impl AnyWlParsedMessage {
    /// The value of the first argument named `name`.
    pub open spec fn arg_spec(&self, name: Seq<char>) -> Option<ArgV> {
        arg_named(names_view(self.arg_names@), args_view(self.args@), name)
    }

    fn arg_index(&self, name: &str) -> (r: Option<usize>)
        ensures
            match r {
                Some(i) => first_named(names_view(self.arg_names@), self.args@.len() as int, name@)
                    == Some(i as int),
                None => first_named(names_view(self.arg_names@), self.args@.len() as int, name@) is None,
            },
            r matches Some(i) ==> i < self.args@.len() && i < self.arg_names@.len(),
    {
        let target = name.to_owned();
        let ghost ns = names_view(self.arg_names@);
        let mut i: usize = 0;
        while i < self.arg_names.len() && i < self.args.len()
            invariant
                i <= self.arg_names@.len(),
                ns == names_view(self.arg_names@),
                target@ == name@,
                forall|j: int| 0 <= j < i ==> ns[j] != name@,
            decreases self.arg_names@.len() - i,
        {
            if self.arg_names[i] == target {
                proof {
                    let k = first_named(ns, self.args@.len() as int, name@)->0;
                    assert(ns[i as int] == name@);
                    assert(!(k < i));
                    assert(!(k > i));
                }
                return Some(i);
            }
            i = i + 1;
        }
        None
    }

    /// The 32-bit value of the first argument named `name`.
    pub fn arg_u32(&self, name: &str) -> (r: Option<u32>)
        ensures
            r == u32_of(self.arg_spec(name@)),
    {
        let ix = self.arg_index(name);
        proof {
            let ns = names_view(self.arg_names@);
            let vs = args_view(self.args@);
            assert(vs.len() == self.args@.len());
            assert(first_named(ns, vs.len() as int, name@) == first_named(ns, self.args@.len() as int, name@));
            if let Some(i) = ix {
                assert(vs[i as int] == self.args@[i as int]@);
                assert(self.arg_spec(name@) == Some(vs[i as int]));
            } else {
                assert(self.arg_spec(name@) is None);
            }
        }
        match ix {
            None => None,
            Some(i) => match &self.args[i] {
                WlArg::Uint(v) => Some(*v),
                WlArg::Object(v) => Some(*v),
                WlArg::NewId(v) => Some(*v),
                WlArg::Enum(v) => Some(*v),
                _ => None,
            },
        }
    }

    /// The string value of the first argument named `name`.
    pub open spec fn arg_string(&self, name: Seq<char>) -> Option<String> {
        match first_named(names_view(self.arg_names@), self.args@.len() as int, name) {
            Some(i) => match self.args@[i] {
                WlArg::Str(s) => Some(s),
                _ => None,
            },
            None => None,
        }
    }

    /// The text of the first argument named `name`.
    pub fn arg_str(&self, name: &str) -> (r: Option<&String>)
        ensures
            match str_of(self.arg_spec(name@)) {
                Some(t) => r matches Some(s) && s@ == t,
                None => r is None,
            },
            match self.arg_string(name@) {
                Some(t) => r == Some(&t),
                None => r is None,
            },
    {
        let ix = self.arg_index(name);
        proof {
            let ns = names_view(self.arg_names@);
            let vs = args_view(self.args@);
            assert(vs.len() == self.args@.len());
            assert(first_named(ns, vs.len() as int, name@) == first_named(ns, self.args@.len() as int, name@));
            if let Some(i) = ix {
                assert(vs[i as int] == self.args@[i as int]@);
                assert(self.arg_spec(name@) == Some(vs[i as int]));
            } else {
                assert(self.arg_spec(name@) is None);
            }
        }
        match ix {
            None => None,
            Some(i) => match &self.args[i] {
                WlArg::Str(s) => Some(s),
                _ => None,
            },
        }
    }

    /// Whether this is message `name` of interface `interface`.
    pub open spec fn is_spec(&self, interface: Seq<char>, name: Seq<char>) -> bool {
        self.interface@ == interface && self.msg_name@ == name
    }

    /// Whether this is message `name` of interface `interface`.
    pub fn is(&self, interface: &str, name: &str) -> (r: bool)
        ensures
            r == self.is_spec(interface@, name@),
    {
        self.interface == interface.to_owned() && self.msg_name == name.to_owned()
    }
}

/// Every type that `created_spec` hands out is one of the protocol's.
pub proof fn lemma_created_valid(proto: &WlProtocol, ts: Seq<(String, WlArgType)>, vs: Seq<ArgV>)
    requires
        created_spec(proto, ts, vs) is Some,
    ensures
        forall|i: int|
            0 <= i < created_spec(proto, ts, vs)->0.len() ==> proto.has_type(
                (#[trigger] created_spec(proto, ts, vs)->0[i]).1,
            ),
    decreases ts.len(),
{
    reveal(created_spec);
    if ts.len() > 0 && vs.len() > 0 {
        lemma_created_valid(proto, ts.drop_first(), vs.drop_first());
        let cs = created_spec(proto, ts, vs)->0;
        let rest = created_spec(proto, ts.drop_first(), vs.drop_first());
        if let WlArgType::NewId(Some(n)) = ts[0].1 {
            let k = crate::protocol::interface_named(proto.interfaces@, n@)->0;
            assert forall|i: int| 0 <= i < cs.len() implies proto.has_type((#[trigger] cs[i]).1) by {
                if i > 0 {
                    assert(cs[i] == rest->0[i - 1]);
                }
            }
        }
    }
}

/// A message whose arguments fit their declared types, framed and sent,
/// comes out of the stream decoder as the same frame, and its payload reads
/// back as the same arguments, using one descriptor per descriptor argument.
pub proof fn lemma_message_roundtrip(
    e: Endian,
    obj_id: u32,
    opcode: u16,
    ts: Seq<WlArgType>,
    vs: Seq<ArgV>,
    nfds: int,
)
    requires
        args_fit(ts, vs, 0),
        fd_count(ts) <= nfds,
        encode_args(e, vs).len() + 8 <= MAX_FRAME_LEN,
    ensures
        ({
            let f = FrameV { obj_id, opcode, payload: encode_args(e, vs) };
            &&& split_frames(e, frame_bytes(e, f)) == (seq![f], Seq::<u8>::empty())
            &&& parse_args(e, ts, f.payload, 0, nfds) == Some((vs, fd_count(ts)))
        }),
{
    let f = FrameV { obj_id, opcode, payload: encode_args(e, vs) };
    lemma_encode_aligned(e, vs);
    assert(frame_ok(f));
    assert(no_frame(e, Seq::<u8>::empty()));
    lemma_frames_roundtrip(e, seq![f], Seq::empty());
    reveal_with_fuel(crate::codec::frames_bytes, 2);
    assert(seq![f].drop_first() =~= Seq::<FrameV>::empty());
    assert(crate::codec::frames_bytes(e, seq![f]) + Seq::<u8>::empty() =~= frame_bytes(e, f));
    lemma_args_roundtrip(e, ts, vs, 0, nfds, Seq::empty());
    assert(encode_args(e, vs) + Seq::<u8>::empty() =~= encode_args(e, vs));
}

/// A frame whose payload encodes argument values that fit the declared
/// arguments of a known message parses back as that message with those
/// values, whatever descriptors beyond its own arrived with it.
pub proof fn lemma_decode_built<F>(
    e: Endian,
    proto: &WlProtocol,
    objects: &WlObjects,
    raw: &WlRawMsg<F>,
    dir: WlMsgType,
    t: WlObjectType,
    d: WlMsg,
    vs: Seq<ArgV>,
)
    requires
        objects.lookup_spec(raw.obj_id) == Some(t),
        proto.msg_spec(t, dir, raw.opcode) == Some(d),
        args_fit(types_of(d.args@), vs, 0),
        raw.frame().payload == encode_args(e, vs),
        fd_count(types_of(d.args@)) <= raw.fds@.len(),
        created_spec(proto, d.args@, vs) is Some,
    ensures
        parse_spec(e, proto, objects, raw, dir) == WaylandProtocolParsingOutcome::Parsed(
            ParsedV { t, d, vs, cs: created_spec(proto, d.args@, vs)->0 },
        ),
{
    lemma_args_roundtrip(e, types_of(d.args@), vs, 0, raw.fds@.len() as int, Seq::empty());
    assert(encode_args(e, vs) + Seq::<u8>::empty() =~= encode_args(e, vs));
}

} // verus!
