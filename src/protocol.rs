//! Protocol descriptors: the interfaces, requests and events that a set of
//! protocol files declares, and lookups over them.
use vstd::prelude::*;
use crate::args::{fd_count, is_fd, types_of, WlArgType};

verus! {

/// Direction of a message.
#[derive(Clone, Copy, Debug, PartialEq, Eq, Structural)]
pub enum WlMsgType {
    /// Client to server.
    Request,
    /// Server to client.
    Event,
}

impl WlMsgType {
    /// The direction's name.
    pub fn as_str(&self) -> (r: &'static str)
        ensures
            *self == WlMsgType::Request ==> r@ == "Request"@,
            *self == WlMsgType::Event ==> r@ == "Event"@,
    {
        match self {
            WlMsgType::Request => "Request",
            WlMsgType::Event => "Event",
        }
    }
}

/// One request or event of an interface.
#[derive(Debug)]
pub struct WlMsg {
    pub interface_name_snake: String,
    pub name_snake: String,
    pub msg_type: WlMsgType,
    /// Position among the interface's messages of the same direction.
    pub opcode: u16,
    /// Whether the message destroys the object it is sent to.
    pub is_destructor: bool,
    /// Declared arguments in order, an unfixed `new_id` already expanded to
    /// interface name, version and id.
    pub args: Vec<(String, WlArgType)>,
}

/// An interface: its name and its messages in declaration order.
#[derive(Debug)]
pub struct WlInterface {
    pub name_snake: String,
    pub msgs: Vec<WlMsg>,
}

/// The type of an object: which of the known interfaces it implements.
#[derive(Clone, Copy, Debug, PartialEq, Eq, Structural, Hash)]
pub struct WlObjectType {
    /// Position of the interface in the protocol's table.
    pub index: u32,
}

/// Every interface known to the proxy.
#[derive(Debug)]
pub struct WlProtocol {
    pub interfaces: Vec<WlInterface>,
}

impl WlObjectType {
    /// The type of the interface at position `index`.
    pub fn new(index: u32) -> (r: WlObjectType)
        ensures
            r.index == index,
    {
        WlObjectType { index }
    }

    /// The textual name of the interface.
    pub fn interface<'a>(&self, proto: &'a WlProtocol) -> (r: &'a String)
        requires
            self.index < proto.interfaces@.len(),
        ensures
            r@ == proto.interfaces@[self.index as int].name_snake@,
    {
        &proto.interfaces[self.index as usize].name_snake
    }
}

impl WlMsg {
    /// The number of descriptors the message carries.
    pub open spec fn fd_args(&self) -> int {
        fd_count(types_of(self.args@))
    }

    /// How many descriptors parsing the message consumes: one per `fd`
    /// argument.
    pub fn num_consumed_fds(&self) -> (r: usize)
        ensures
            r == self.fd_args(),
    {
        let mut n: usize = 0;
        let len = self.args.len();
        let mut i: usize = len;
        let ghost ts = types_of(self.args@);
        assert(ts.subrange(ts.len() as int, ts.len() as int) =~= Seq::<WlArgType>::empty());
        while i > 0
            invariant
                i <= self.args@.len(),
                ts == types_of(self.args@),
                ts.len() == self.args@.len(),
                len == self.args@.len(),
                n == fd_count(ts.subrange(i as int, ts.len() as int)),
                n <= ts.len() - i,
            decreases i,
        {
            i = i - 1;
            let ghost sub = ts.subrange(i as int, ts.len() as int);
            assert(sub.drop_first() =~= ts.subrange(i + 1, ts.len() as int));
            if let WlArgType::Fd = self.args[i].1 {
                n = n + 1;
            }
        }
        assert(ts.subrange(0, ts.len() as int) =~= ts);
        n
    }
}

/// The position of the first interface named `name`.
pub open spec fn interface_named(ifaces: Seq<WlInterface>, name: Seq<char>) -> Option<int> {
    if exists|i: int|
        0 <= i < ifaces.len() && ifaces[i].name_snake@ == name && forall|j: int|
            0 <= j < i ==> ifaces[j].name_snake@ != name {
        Some(
            choose|i: int|
                0 <= i < ifaces.len() && ifaces[i].name_snake@ == name && forall|j: int|
                    0 <= j < i ==> ifaces[j].name_snake@ != name,
        )
    } else {
        None
    }
}

/// The position of the first message of `msgs` with direction `dir` and
/// opcode `opcode`.
pub open spec fn msg_at(msgs: Seq<WlMsg>, dir: WlMsgType, opcode: u16) -> Option<int> {
    if exists|i: int|
        0 <= i < msgs.len() && msgs[i].msg_type == dir && msgs[i].opcode == opcode && forall|j: int|
            0 <= j < i ==> !(msgs[j].msg_type == dir && msgs[j].opcode == opcode) {
        Some(
            choose|i: int|
                0 <= i < msgs.len() && msgs[i].msg_type == dir && msgs[i].opcode == opcode
                    && forall|j: int|
                    0 <= j < i ==> !(msgs[j].msg_type == dir && msgs[j].opcode == opcode),
        )
    } else {
        None
    }
}

impl WlProtocol {
    /// The table is small enough to index with 32 bits.
    pub open spec fn wf(&self) -> bool {
        self.interfaces@.len() < 0x1_0000_0000
    }

    /// Whether `t` names an interface of the table.
    pub open spec fn has_type(&self, t: WlObjectType) -> bool {
        t.index < self.interfaces@.len()
    }

    /// The known interface named `name`.
    pub open spec fn type_named(&self, name: Seq<char>) -> Option<WlObjectType> {
        match interface_named(self.interfaces@, name) {
            Some(i) => Some(WlObjectType { index: i as u32 }),
            None => None,
        }
    }

    /// The descriptor of the message of direction `dir` and opcode `opcode`
    /// on objects of type `t`.
    pub open spec fn msg_spec(&self, t: WlObjectType, dir: WlMsgType, opcode: u16) -> Option<WlMsg> {
        if self.has_type(t) {
            let msgs = self.interfaces@[t.index as int].msgs@;
            match msg_at(msgs, dir, opcode) {
                Some(i) => Some(msgs[i]),
                None => None,
            }
        } else {
            None
        }
    }

    /// Finds the message of direction `dir` and opcode `opcode` on objects of
    /// type `t`.
    pub fn find_msg(&self, t: WlObjectType, dir: WlMsgType, opcode: u16) -> (r: Option<&WlMsg>)
        ensures
            match self.msg_spec(t, dir, opcode) {
                Some(m) => r == Some(&m),
                None => r is None,
            },
    {
        if t.index as usize >= self.interfaces.len() {
            return None;
        }
        let msgs = &self.interfaces[t.index as usize].msgs;
        let mut i: usize = 0;
        while i < msgs.len()
            invariant
                i <= msgs@.len(),
                t.index < self.interfaces@.len(),
                *msgs == self.interfaces@[t.index as int].msgs,
                forall|j: int|
                    0 <= j < i ==> !(msgs@[j].msg_type == dir && msgs@[j].opcode == opcode),
            decreases msgs@.len() - i,
        {
            if msgs[i].msg_type == dir && msgs[i].opcode == opcode {
                proof {
                    let found = msg_at(msgs@, dir, opcode);
                    let k = found->0;
                    assert(0 <= k < msgs@.len() && msgs@[k].msg_type == dir && msgs@[k].opcode == opcode);
                    assert(!(k < i));
                    assert(!(k > i));
                    assert(self.has_type(t));
                    assert(msgs@ == self.interfaces@[t.index as int].msgs@);
                    assert(msg_at(msgs@, dir, opcode) == Some(i as int));
                    assert(self.msg_spec(t, dir, opcode) == Some(msgs@[i as int]));
                }
                return Some(&msgs[i]);
            }
            i = i + 1;
        }
        None
    }
}

/// Looks up a known object type by its interface name.
pub fn lookup_known_object_type(proto: &WlProtocol, name: &str) -> (r: Option<WlObjectType>)
    requires
        proto.wf(),
    ensures
        r == proto.type_named(name@),
{
    let mut i: usize = 0;
    let target = name.to_owned();
    while i < proto.interfaces.len()
        invariant
            i <= proto.interfaces@.len(),
            proto.wf(),
            target@ == name@,
            forall|j: int| 0 <= j < i ==> proto.interfaces@[j].name_snake@ != name@,
        decreases proto.interfaces@.len() - i,
    {
        if proto.interfaces[i].name_snake == target {
            proof {
                let k = interface_named(proto.interfaces@, name@)->0;
                assert(proto.interfaces@[i as int].name_snake@ == name@);
                assert(0 <= k < proto.interfaces@.len() && proto.interfaces@[k].name_snake@ == name@);
                assert(!(k < i));
                assert(!(k > i));
            }
            return Some(WlObjectType { index: i as u32 });
        }
        i = i + 1;
    }
    None
}

} // verus!
