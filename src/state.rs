//! The per-connection filter state machine: it reads every parsed message,
//! keeps the object registry up to date, and decides what becomes of the
//! message.
use vstd::prelude::*;
use std::sync::Arc;
use crate::args::{args_view, ArgV};
use crate::codec::WlRawMsg;
use crate::config::{
    first_rule, names_contain, Config, WlFilterRequest, WlFilterRequestAction,
    WlFilterRequestBlockType,
};
use crate::objects::{
    is_client_id, ToplevelSurfaceInfo, WlExtensionKind, WlObjectExtension, WlObjects,
};
use crate::proto::{
    arg_named, arg_names_of, names_view, decode_event, decode_request, has_typed_new_id, parse_spec, str_of,
    u32_of, AnyWlParsedMessage, ParsedV, WaylandProtocolParsingOutcome,
};
use crate::protocol::{lookup_known_object_type, WlMsgType, WlObjectType, WlProtocol};
use crate::wire::Endian;

verus! {

/// What becomes of a message.
#[derive(Clone, Copy, Debug, PartialEq, Eq, Structural)]
pub enum WlMitmVerdict {
    /// Pass it on to the other side.
    Allowed,
    /// Drop it silently.
    Filtered,
    /// Drop it and answer the sender with this protocol error code.
    Rejected(u32),
    /// Something is off: end the whole connection.
    Terminate,
}

impl WlMitmVerdict {
    /// Whether the message passes.
    pub fn is_allowed(&self) -> (r: bool)
        ensures
            r == (*self is Allowed),
    {
        match self {
            WlMitmVerdict::Allowed => true,
            _ => false,
        }
    }
}

impl Default for WlMitmVerdict {
    fn default() -> (r: Self)
        ensures
            r == WlMitmVerdict::Terminate,
    {
        WlMitmVerdict::Terminate
    }
}

/// The result of handling a message: how many of its descriptors parsing
/// used, and the verdict. Unused descriptors go back to the decoder.
#[derive(Debug)]
pub struct WlMitmOutcome(pub usize, pub WlMitmVerdict);

impl Default for WlMitmOutcome {
    fn default() -> (r: Self)
        ensures
            r.0 == 0,
            r.1 == WlMitmVerdict::Terminate,
    {
        WlMitmOutcome(0, WlMitmVerdict::Terminate)
    }
}

impl WlMitmOutcome {
    fn set_consumed_fds(&mut self, consumed_fds: usize)
        ensures
            final(self).0 == consumed_fds,
            final(self).1 == old(self).1,
    {
        self.0 = consumed_fds;
    }

    fn allowed(self) -> (r: Self)
        ensures
            r.0 == self.0,
            r.1 == WlMitmVerdict::Allowed,
    {
        WlMitmOutcome(self.0, WlMitmVerdict::Allowed)
    }

    fn filtered(self) -> (r: Self)
        ensures
            r.0 == self.0,
            r.1 == WlMitmVerdict::Filtered,
    {
        WlMitmOutcome(self.0, WlMitmVerdict::Filtered)
    }

    fn terminate(self) -> (r: Self)
        ensures
            r.0 == self.0,
            r.1 == WlMitmVerdict::Terminate,
    {
        WlMitmOutcome(self.0, WlMitmVerdict::Terminate)
    }

    fn rejected(self, error_code: u32) -> (r: Self)
        ensures
            r.0 == self.0,
            r.1 == WlMitmVerdict::Rejected(error_code),
    {
        WlMitmOutcome(self.0, WlMitmVerdict::Rejected(error_code))
    }
}

/// The objects `cs` create, as a map; a later entry wins.
pub open spec fn map_of(cs: Seq<(u32, WlObjectType)>) -> Map<u32, WlObjectType>
    decreases cs.len(),
{
    if cs.len() == 0 {
        Map::empty()
    } else {
        map_of(cs.drop_last()).insert(cs.last().0, cs.last().1)
    }
}

/// The objects `cs` can be created: their ids are distinct and unknown.
pub open spec fn creatable(objs: WlObjects, cs: Seq<(u32, WlObjectType)>) -> bool {
    &&& forall|i: int| 0 <= i < cs.len() ==> objs.lookup_spec(#[trigger] cs[i].0) is None
    &&& forall|i: int, j: int| 0 <= i < j < cs.len() ==> cs[i].0 != cs[j].0
}

/// Every type the registry holds is one of the protocol's.
pub open spec fn types_valid(proto: WlProtocol, objs: WlObjects) -> bool {
    &&& forall|id: u32| #[trigger] objs.live().contains_key(id) ==> proto.has_type(objs.live()[id])
    &&& forall|id: u32| #[trigger] objs.half().contains_key(id) ==> proto.has_type(objs.half()[id])
    &&& forall|n: u32| #[trigger] objs.globals().contains_key(n) ==> proto.has_type(objs.globals()[n])
}

proof fn lemma_map_of(cs: Seq<(u32, WlObjectType)>, id: u32)
    ensures
        map_of(cs).contains_key(id) <==> exists|k: int| 0 <= k < cs.len() && (#[trigger] cs[k]).0 == id,
        map_of(cs).contains_key(id) ==> exists|k: int| 0 <= k < cs.len() && (#[trigger] cs[k]) == (id, map_of(cs)[id]),
    decreases cs.len(),
{
    if cs.len() > 0 {
        let init = cs.drop_last();
        lemma_map_of(init, id);
        if exists|k: int| 0 <= k < init.len() && (#[trigger] init[k]).0 == id {
            let k = choose|k: int| 0 <= k < init.len() && (#[trigger] init[k]).0 == id;
            assert(cs[k] == init[k]);
        }
        if map_of(init).contains_key(id) && cs.last().0 != id {
            let k = choose|k: int| 0 <= k < init.len() && (#[trigger] init[k]) == (id, map_of(init)[id]);
            assert(cs[k] == init[k]);
        }
        if cs.last().0 == id {
            assert(cs[cs.len() - 1] == (id, map_of(cs)[id]));
        }
        if exists|k: int| 0 <= k < cs.len() && (#[trigger] cs[k]).0 == id {
            let k = choose|k: int| 0 <= k < cs.len() && (#[trigger] cs[k]).0 == id;
            if k < cs.len() - 1 {
                assert(init[k] == cs[k]);
            }
        }
    }
}

/// A request a helper command is run for, with what the command is told.
#[derive(Debug)]
pub struct WlMitmCommand {
    /// The command to run.
    pub program: String,
    /// Interface of the request.
    pub interface: String,
    /// Name of the request.
    pub method: String,
    /// The rule's description, or empty.
    pub desc: String,
    /// The request itself.
    pub msg: AnyWlParsedMessage,
    /// Title of the toplevel that was last active, when known.
    pub last_toplevel_title: Option<String>,
    /// Application id of the toplevel that was last active, when known.
    pub last_toplevel_app_id: Option<String>,
}

/// What handling a request leads to.
#[derive(Debug)]
pub enum WlMitmRequestStep {
    /// The outcome is known. A notify command may be to run; what it does
    /// changes nothing.
    Decided(WlMitmOutcome, Option<WlMitmCommand>),
    /// The ask command decides: success lets the request through, anything
    /// else (a failing status, or no run at all) gives the outcome held here.
    Ask(WlMitmOutcome, WlMitmCommand),
}

/// The outcome of a request whose ask command ran: the request passes when
/// the command succeeded, and `denied` stands otherwise.
pub fn ask_outcome(denied: WlMitmOutcome, success: bool) -> (r: WlMitmOutcome)
    ensures
        r.0 == denied.0,
        r.1 == (if success {
            WlMitmVerdict::Allowed
        } else {
            denied.1
        }),
{
    if success {
        denied.allowed()
    } else {
        denied
    }
}

/// The state of one connection.
pub struct WlMitmState {
    config: Arc<Config>,
    protocol: Arc<WlProtocol>,
    endian: Endian,
    objects: WlObjects,
    /// The toplevel (not its surface) that was last active. Helper commands
    /// are told about it; it can only be a hint of what caused a request.
    last_toplevel: Option<u32>,
}

impl WlMitmState {
    pub closed spec fn cfg(&self) -> Config {
        *self.config
    }

    pub closed spec fn proto(&self) -> WlProtocol {
        *self.protocol
    }

    pub closed spec fn endian(&self) -> Endian {
        self.endian
    }

    pub closed spec fn objs(&self) -> WlObjects {
        self.objects
    }

    pub closed spec fn last_toplevel(&self) -> Option<u32> {
        self.last_toplevel
    }

    /// The registry is consistent and names only the protocol's types.
    pub open spec fn wf(&self) -> bool {
        &&& self.proto().wf()
        &&& self.objs().wf()
        &&& types_valid(self.proto(), self.objs())
    }

    /// A new connection's state; `None` when the protocol has no `wl_display`.
    pub fn new(config: Arc<Config>, protocol: Arc<WlProtocol>, endian: Endian) -> (r: Option<
        WlMitmState,
    >)
        requires
            protocol.wf(),
        ensures
            match protocol.type_named("wl_display"@) {
                None => r is None,
                Some(t) => r matches Some(st) && {
                    &&& st.wf()
                    &&& st.cfg() == *config
                    &&& st.proto() == *protocol
                    &&& st.endian() == endian
                    &&& st.objs().live() == map![crate::objects::WL_DISPLAY_OBJECT_ID => t]
                    &&& st.objs().half() == Map::<u32, WlObjectType>::empty()
                    &&& st.objs().globals() == Map::<u32, WlObjectType>::empty()
                    &&& st.last_toplevel() is None
                },
            },
    {
        let display = match lookup_known_object_type(&protocol, "wl_display") {
            Some(t) => t,
            None => {
                return None;
            },
        };
        let objects = WlObjects::new(display);
        let st = WlMitmState { config, protocol, endian, objects, last_toplevel: None };
        proof {
            let k = interface_index(st.proto(), "wl_display"@);
        }
        Some(st)
    }
}

/// The position of the interface named `name`, which is in the table.
proof fn interface_index(proto: WlProtocol, name: Seq<char>) -> (k: int)
    requires
        proto.type_named(name) is Some,
    ensures
        k == crate::protocol::interface_named(proto.interfaces@, name)->0,
        0 <= k < proto.interfaces@.len(),
        proto.has_type(proto.type_named(name)->0),
{
    let k = crate::protocol::interface_named(proto.interfaces@, name)->0;
    k
}

/// The toplevel reached from `surface` through its annotations.
pub open spec fn toplevel_of_surface(objs: WlObjects, surface: u32) -> Option<u32> {
    if objs.ext(WlExtensionKind::SurfaceXdg).contains_key(surface) {
        match objs.ext(WlExtensionKind::SurfaceXdg)[surface] {
            WlObjectExtension::SurfaceXdg(x) => if objs.ext(WlExtensionKind::XdgToplevel).contains_key(x) {
                match objs.ext(WlExtensionKind::XdgToplevel)[x] {
                    WlObjectExtension::XdgToplevel(t) => Some(t),
                    _ => None,
                }
            } else {
                None
            },
            _ => None,
        }
    } else {
        None
    }
}

impl WlMitmState {
    /// Registers the objects a message creates, or handles its destruction
    /// of its target; `false` means the connection must end.
    fn handle_created_or_destroyed_objects(&mut self, msg: &AnyWlParsedMessage, from_client: bool) -> (r:
        bool)
        requires
            old(self).wf(),
            msg.known_objects_created matches Some(cs) ==> forall|i: int|
                0 <= i < cs@.len() ==> old(self).proto().has_type((#[trigger] cs@[i]).1),
        ensures
            final(self).wf(),
            final(self).cfg() == old(self).cfg(),
            final(self).proto() == old(self).proto(),
            final(self).endian() == old(self).endian(),
            match msg.known_objects_created {
                Some(cs) => {
                    &&& r == (old(self).objs().lookup_spec(msg.obj_id) is Some && creatable(
                        old(self).objs(),
                        cs@,
                    ))
                    &&& r ==> {
                        &&& final(self).objs().live() == old(self).objs().live().union_prefer_right(
                            map_of(cs@),
                        )
                        &&& final(self).objs().half() == old(self).objs().half()
                        &&& final(self).objs().globals() == old(self).objs().globals()
                        &&& final(self).last_toplevel() == old(self).last_toplevel()
                        &&& forall|k: WlExtensionKind| #[trigger] final(self).objs().ext(k)
                            == old(self).objs().ext(k).remove_keys(map_of(cs@).dom())
                    }
                },
                None => if msg.is_destructor {
                    &&& r == old(self).objs().lookup_spec(msg.obj_id) is Some
                    &&& r ==> old(self).objs().removed_to(&final(self).objs(), msg.obj_id, from_client)
                    &&& r ==> final(self).last_toplevel() == if old(self).last_toplevel() == Some(
                        msg.obj_id,
                    ) {
                        None
                    } else {
                        old(self).last_toplevel()
                    }
                } else {
                    &&& r
                    &&& final(self).objs() == old(self).objs()
                    &&& final(self).last_toplevel() == old(self).last_toplevel()
                },
            },
    {
        match &msg.known_objects_created {
            Some(created) => {
                if self.objects.lookup_object(msg.obj_id).is_none() {
                    return false;
                }
                let ghost cs = created@;
                let ghost o = self.objects;
                let mut i: usize = 0;
                assert(o.live().union_prefer_right(map_of(cs.subrange(0, 0))) =~= o.live());
                assert forall|k: WlExtensionKind| #[trigger] o.ext(k) == o.ext(k).remove_keys(
                    map_of(cs.subrange(0, 0)).dom(),
                ) by {
                    assert(o.ext(k) =~= o.ext(k).remove_keys(map_of(cs.subrange(0, 0)).dom()));
                }
                while i < created.len()
                    invariant
                        i <= cs.len(),
                        cs == created@,
                        self.config == old(self).config,
                        self.protocol == old(self).protocol,
                        self.endian == old(self).endian,
                        self.last_toplevel == old(self).last_toplevel,
                        o == old(self).objects,
                        msg.known_objects_created == Some(*created),
                        old(self).proto().wf(),
                        o.lookup_spec(msg.obj_id) is Some,
                        forall|k: int| 0 <= k < cs.len() ==> old(self).proto().has_type((#[trigger] cs[k]).1),
                        self.objects.wf(),
                        types_valid(*self.protocol, self.objects),
                        self.objects.live() == o.live().union_prefer_right(map_of(cs.subrange(0, i as int))),
                        self.objects.half() == o.half(),
                        self.objects.globals() == o.globals(),
                        forall|k: WlExtensionKind| #[trigger] self.objects.ext(k) == o.ext(k).remove_keys(
                            map_of(cs.subrange(0, i as int)).dom(),
                        ),
                        forall|k: int| 0 <= k < i ==> o.lookup_spec(#[trigger] cs[k].0) is None,
                        forall|k: int, l: int| 0 <= k < l < i ==> cs[k].0 != cs[l].0,
                    decreases cs.len() - i,
                {
                    let (id, t) = created[i];
                    let ghost pre = cs.subrange(0, i as int);
                    assert(cs[i as int].0 == id && cs[i as int].1 == t);
                    if self.objects.lookup_object(id).is_some() {
                        proof {
                            if o.lookup_spec(cs[i as int].0) is Some {
                                assert(!creatable(o, cs));
                            } else {
                                lemma_map_of(pre, id);
                                let k = choose|k: int| 0 <= k < pre.len() && (#[trigger] pre[k]).0 == id;
                                assert(cs[k].0 == cs[i as int].0);
                                assert(!creatable(o, cs));
                            }
                            assert(!creatable(o, cs));
                            assert(old(self).objs() == o);
                            assert(msg.known_objects_created == Some(*created));
                        }
                        return false;
                    }
                    proof {
                        lemma_map_of(pre, id);
                        assert(!map_of(pre).contains_key(id));
                        assert forall|k: int| 0 <= k < i implies #[trigger] cs[k].0 != cs[i as int].0 by {
                            assert(pre[k] == cs[k]);
                        }
                    }
                    let ghost mid = self.objects;
                    self.objects.record_object(t, id);
                    proof {
                        assert(cs.subrange(0, i + 1).drop_last() =~= pre);
                        assert forall|k: WlExtensionKind| #[trigger] self.objects.ext(k) == o.ext(k).remove_keys(
                            map_of(cs.subrange(0, i + 1)).dom(),
                        ) by {
                            assert(self.objects.ext(k) == mid.ext(k).remove(id));
                            assert(map_of(cs.subrange(0, i + 1)).dom() =~= map_of(pre).dom().insert(id));
                            assert(self.objects.ext(k) =~= o.ext(k).remove_keys(
                                map_of(cs.subrange(0, i + 1)).dom(),
                            ));
                        }
                        assert(self.objects.half() =~= o.half());
                        assert(self.objects.live() =~= o.live().union_prefer_right(map_of(cs.subrange(0, i + 1))));
                        assert forall|x: u32| #[trigger] self.objects.live().contains_key(x) implies old(self).proto().has_type(self.objects.live()[x]) by {
                            if x != id {
                                if o.live().contains_key(x) && !map_of(pre).contains_key(x) {
                                } else {
                                    lemma_map_of(pre, x);
                                }
                            }
                        }
                    }
                    i = i + 1;
                }
                assert(cs.subrange(0, i as int) =~= cs);
                true
            },
            None => {
                if msg.is_destructor {
                    if self.objects.lookup_object(msg.obj_id).is_none() {
                        return false;
                    }
                    let ghost o = self.objects;
                    self.objects.remove_object(msg.obj_id, from_client);
                    proof {
                        assert forall|x: u32| #[trigger] self.objects.half().contains_key(x) implies self.proto().has_type(self.objects.half()[x]) by {
                            if x != msg.obj_id {
                                assert(o.half().contains_key(x));
                            }
                        }
                        assert forall|x: u32| #[trigger] self.objects.live().contains_key(x) implies self.proto().has_type(self.objects.live()[x]) by {
                            assert(o.live().contains_key(x));
                        }
                    }
                    if let Some(t) = self.last_toplevel {
                        if t == msg.obj_id {
                            self.last_toplevel = None;
                        }
                    }
                }
                true
            },
        }
    }

    /// Notes the toplevel of `surface`, when known, as the last active one.
    fn update_last_active_surface(&mut self, surface: u32)
        ensures
            final(self).objs() == old(self).objs(),
            final(self).cfg() == old(self).cfg(),
            final(self).proto() == old(self).proto(),
            final(self).endian() == old(self).endian(),
            final(self).last_toplevel() == match toplevel_of_surface(old(self).objs(), surface) {
                Some(t) => Some(t),
                None => old(self).last_toplevel(),
            },
    {
        if let Some(WlObjectExtension::SurfaceXdg(xdg_surface)) = self.objects.get_object_extension(
            surface,
            WlExtensionKind::SurfaceXdg,
        ) {
            if let Some(WlObjectExtension::XdgToplevel(xdg_toplevel)) = self.objects.get_object_extension(
                *xdg_surface,
                WlExtensionKind::XdgToplevel,
            ) {
                self.last_toplevel = Some(*xdg_toplevel);
            }
        }
    }
}

/// The name of the interface of the target of `p`.
pub open spec fn iface_of(proto: WlProtocol, p: ParsedV) -> Seq<char> {
    proto.interfaces@[p.t.index as int].name_snake@
}

/// Whether `p` is message `name` of interface `iface`.
pub open spec fn is_msg(proto: WlProtocol, p: ParsedV, iface: Seq<char>, name: Seq<char>) -> bool {
    iface_of(proto, p) == iface && p.d.name_snake@ == name
}

/// The value of the argument of `p` named `name`.
pub open spec fn arg_of(p: ParsedV, name: Seq<char>) -> Option<ArgV> {
    arg_named(arg_names_of(p.d.args@), p.vs, name)
}

/// The objects `p` creates, if any, can be created.
pub open spec fn creation_ok(objs: WlObjects, p: ParsedV) -> bool {
    has_typed_new_id(p.d.args@) ==> creatable(objs, p.cs)
}

/// The verdict on the event `p`, received with registry `objs`.
pub open spec fn event_verdict(cfg: Config, proto: WlProtocol, objs: WlObjects, p: ParsedV) -> WlMitmVerdict {
    if !creation_ok(objs, p) {
        WlMitmVerdict::Terminate
    } else if is_msg(proto, p, "wl_registry"@, "global"@) {
        match (u32_of(arg_of(p, "name"@)), str_of(arg_of(p, "interface"@))) {
            (Some(_), Some(i)) => if proto.type_named(i) is None || !names_contain(
                cfg.filter.allowed_globals@,
                i,
            ) {
                WlMitmVerdict::Filtered
            } else {
                WlMitmVerdict::Allowed
            },
            _ => WlMitmVerdict::Terminate,
        }
    } else {
        WlMitmVerdict::Allowed
    }
}

/// Whether `p` is an input event that focuses a surface.
pub open spec fn is_focus_event(proto: WlProtocol, p: ParsedV) -> bool {
    ||| is_msg(proto, p, "wl_pointer"@, "enter"@)
    ||| is_msg(proto, p, "wl_keyboard"@, "enter"@)
    ||| is_msg(proto, p, "wl_touch"@, "down"@)
}

/// How the event `p`, which creates and destroys nothing, changes the
/// registry from `o` to `n` and the last active toplevel from `last` to
/// `last2`, once it is let through.
pub open spec fn event_effect(
    proto: WlProtocol,
    p: ParsedV,
    o: WlObjects,
    n: WlObjects,
    last: Option<u32>,
    last2: Option<u32>,
) -> bool {
    if is_msg(proto, p, "wl_registry"@, "global"@) {
        &&& n.live() == o.live()
        &&& n.half() == o.half()
        &&& n.globals() == o.globals().insert(
            u32_of(arg_of(p, "name"@))->0,
            proto.type_named(str_of(arg_of(p, "interface"@))->0)->0,
        )
        &&& last2 == last
    } else if is_msg(proto, p, "wl_registry"@, "global_remove"@) {
        &&& n.live() == o.live()
        &&& n.half() == o.half()
        &&& n.globals() == match u32_of(arg_of(p, "name"@)) {
            Some(name) => o.globals().remove(name),
            None => o.globals(),
        }
        &&& last2 == last
    } else if is_msg(proto, p, "wl_display"@, "delete_id"@) {
        &&& match u32_of(arg_of(p, "id"@)) {
            Some(id) => o.removed_to(&n, id, false),
            None => n.same_as(&o),
        }
        &&& last2 == last
    } else if is_focus_event(proto, p) {
        &&& n == o
        &&& last2 == match u32_of(arg_of(p, "surface"@)) {
            Some(surface) => match toplevel_of_surface(o, surface) {
                Some(t) => Some(t),
                None => last,
            },
            None => last,
        }
    } else {
        &&& n == o
        &&& last2 == last
    }
}

/// `n` holds the same annotations as `o`.
pub open spec fn ext_same(o: WlObjects, n: WlObjects) -> bool {
    forall|k: WlExtensionKind| #[trigger] n.ext(k) == o.ext(k)
}

/// `n` is `o` with annotation `x` put on `id`, when `id` is known.
pub open spec fn ext_put(o: WlObjects, n: WlObjects, id: u32, x: WlObjectExtension) -> bool {
    forall|k: WlExtensionKind| #[trigger]
        n.ext(k) == if o.lookup_spec(id) is Some && k == x.kind_spec() {
            o.ext(k).insert(id, x)
        } else {
            o.ext(k)
        }
}

/// `info` with its title (when `title`) or application id set to `text`.
pub open spec fn with_text(info: ToplevelSurfaceInfo, title: bool, text: String) -> ToplevelSurfaceInfo {
    if title {
        ToplevelSurfaceInfo { title: Some(text), app_id: info.app_id }
    } else {
        ToplevelSurfaceInfo { title: info.title, app_id: Some(text) }
    }
}

/// How the request `m` changes the xdg-shell annotations, from `o` to `n`:
/// a new xdg_surface is noted on its surface, a new toplevel on its
/// xdg_surface (and starts with no title or application id), and a title or
/// application id is kept on the toplevel.
pub open spec fn xdg_effect(m: AnyWlParsedMessage, o: WlObjects, n: WlObjects) -> bool {
    if m.is_spec("xdg_wm_base"@, "get_xdg_surface"@) {
        match (u32_of(m.arg_spec("id"@)), u32_of(m.arg_spec("surface"@))) {
            (Some(id), Some(surface)) => ext_put(o, n, surface, WlObjectExtension::SurfaceXdg(id)),
            _ => ext_same(o, n),
        }
    } else if m.is_spec("xdg_surface"@, "get_toplevel"@) {
        match u32_of(m.arg_spec("id"@)) {
            Some(id) => forall|k: WlExtensionKind| #[trigger]
                n.ext(k) == if k == WlExtensionKind::XdgToplevel && o.lookup_spec(m.obj_id) is Some {
                    o.ext(k).insert(m.obj_id, WlObjectExtension::XdgToplevel(id))
                } else if k == WlExtensionKind::ToplevelInfo && o.lookup_spec(id) is Some {
                    o.ext(k).insert(
                        id,
                        WlObjectExtension::ToplevelInfo(ToplevelSurfaceInfo { title: None, app_id: None }),
                    )
                } else {
                    o.ext(k)
                },
            None => ext_same(o, n),
        }
    } else if m.is_spec("xdg_toplevel"@, "set_app_id"@) || m.is_spec("xdg_toplevel"@, "set_title"@) {
        let title = m.is_spec("xdg_toplevel"@, "set_title"@);
        let text = m.arg_string(if title {
            "title"@
        } else {
            "app_id"@
        });
        let infos = o.ext(WlExtensionKind::ToplevelInfo);
        match (text, infos.contains_key(m.obj_id)) {
            (Some(t), true) => match infos[m.obj_id] {
                WlObjectExtension::ToplevelInfo(info) => forall|k: WlExtensionKind| #[trigger]
                    n.ext(k) == if k == WlExtensionKind::ToplevelInfo {
                        if o.lookup_spec(m.obj_id) is Some {
                            infos.insert(m.obj_id, WlObjectExtension::ToplevelInfo(with_text(info, title, t)))
                        } else {
                            infos.remove(m.obj_id)
                        }
                    } else {
                        o.ext(k)
                    },
                _ => false,
            },
            _ => ext_same(o, n),
        }
    } else {
        ext_same(o, n)
    }
}

/// Whether `id` is known to a registry with live objects `live` and
/// half-destroyed ones `half`.
pub open spec fn known_in(live: Map<u32, WlObjectType>, half: Map<u32, WlObjectType>, id: u32) -> bool {
    live.contains_key(id) || half.contains_key(id)
}

/// [`xdg_effect`] stated over argument values: request `name` of `iface` on
/// `obj_id` with the given `id`, `surface`, `title` and `app_id` arguments,
/// applied to the annotations of `o` without those on `drop`, in a registry
/// with live objects `live` and half-destroyed ones `half`, gives `n`.
pub open spec fn xdg_effect_v(
    iface: Seq<char>,
    name: Seq<char>,
    obj_id: u32,
    id: Option<u32>,
    surface: Option<u32>,
    title: Option<Seq<char>>,
    app_id: Option<Seq<char>>,
    live: Map<u32, WlObjectType>,
    half: Map<u32, WlObjectType>,
    o: WlObjects,
    drop: Set<u32>,
    n: WlObjects,
) -> bool {
    if iface == "xdg_wm_base"@ && name == "get_xdg_surface"@ {
        match (id, surface) {
            (Some(i), Some(sf)) => forall|k: WlExtensionKind| #[trigger]
                n.ext(k) == if known_in(live, half, sf) && k == WlExtensionKind::SurfaceXdg {
                    o.ext(k).remove_keys(drop).insert(sf, WlObjectExtension::SurfaceXdg(i))
                } else {
                    o.ext(k).remove_keys(drop)
                },
            _ => forall|k: WlExtensionKind| #[trigger] n.ext(k) == o.ext(k).remove_keys(drop),
        }
    } else if iface == "xdg_surface"@ && name == "get_toplevel"@ {
        match id {
            Some(i) => forall|k: WlExtensionKind| #[trigger]
                n.ext(k) == if k == WlExtensionKind::XdgToplevel && known_in(live, half, obj_id) {
                    o.ext(k).remove_keys(drop).insert(obj_id, WlObjectExtension::XdgToplevel(i))
                } else if k == WlExtensionKind::ToplevelInfo && known_in(live, half, i) {
                    o.ext(k).remove_keys(drop).insert(
                        i,
                        WlObjectExtension::ToplevelInfo(ToplevelSurfaceInfo { title: None, app_id: None }),
                    )
                } else {
                    o.ext(k).remove_keys(drop)
                },
            None => forall|k: WlExtensionKind| #[trigger] n.ext(k) == o.ext(k).remove_keys(drop),
        }
    } else if iface == "xdg_toplevel"@ && (name == "set_app_id"@ || name == "set_title"@) {
        let is_title = name == "set_title"@;
        let text = if is_title {
            title
        } else {
            app_id
        };
        let infos = o.ext(WlExtensionKind::ToplevelInfo).remove_keys(drop);
        match (text, infos.contains_key(obj_id)) {
            (Some(t), true) => match infos[obj_id] {
                WlObjectExtension::ToplevelInfo(info) => {
                    &&& forall|k: WlExtensionKind|
                        k != WlExtensionKind::ToplevelInfo ==> #[trigger] n.ext(k) == o.ext(k).remove_keys(drop)
                    &&& if known_in(live, half, obj_id) {
                        exists|s: String|
                            s@ == t && n.ext(WlExtensionKind::ToplevelInfo) == infos.insert(
                                obj_id,
                                WlObjectExtension::ToplevelInfo(with_text(info, is_title, s)),
                            )
                    } else {
                        n.ext(WlExtensionKind::ToplevelInfo) == infos.remove(obj_id)
                    }
                },
                _ => false,
            },
            _ => forall|k: WlExtensionKind| #[trigger] n.ext(k) == o.ext(k).remove_keys(drop),
        }
    } else {
        forall|k: WlExtensionKind| #[trigger] n.ext(k) == o.ext(k).remove_keys(drop)
    }
}

/// The string argument `name` of `m`, by value and by view, agree.
proof fn lemma_arg_string_view(m: AnyWlParsedMessage, name: Seq<char>)
    ensures
        str_of(m.arg_spec(name)) == match m.arg_string(name) {
            Some(s) => Some(s@),
            None => None,
        },
{
    let ns = names_view(m.arg_names@);
    let vs = args_view(m.args@);
    assert(vs.len() == m.args@.len());
    if let Some(i) = crate::proto::first_named(ns, m.args@.len() as int, name) {
        assert(vs[i] == m.args@[i]@);
    }
}

/// The message-level effect gives the one over argument values.
proof fn lemma_xdg_view(m: AnyWlParsedMessage, o: WlObjects, n: WlObjects)
    requires
        xdg_effect(m, o, n),
    ensures
        xdg_effect_v(
            m.interface@,
            m.msg_name@,
            m.obj_id,
            u32_of(m.arg_spec("id"@)),
            u32_of(m.arg_spec("surface"@)),
            str_of(m.arg_spec("title"@)),
            str_of(m.arg_spec("app_id"@)),
            o.live(),
            o.half(),
            o,
            Set::empty(),
            n,
        ),
{
    reveal_strlit("xdg_wm_base");
    reveal_strlit("xdg_surface");
    reveal_strlit("xdg_toplevel");
    reveal_strlit("get_xdg_surface");
    reveal_strlit("get_toplevel");
    reveal_strlit("set_title");
    reveal_strlit("set_app_id");
    lemma_arg_string_view(m, "title"@);
    lemma_arg_string_view(m, "app_id"@);
    assert forall|k: WlExtensionKind| #[trigger] o.ext(k).remove_keys(Set::<u32>::empty()) == o.ext(k) by {
        assert(o.ext(k).remove_keys(Set::<u32>::empty()) =~= o.ext(k));
    }
    if m.is_spec("xdg_toplevel"@, "set_app_id"@) || m.is_spec("xdg_toplevel"@, "set_title"@) {
        let title = m.is_spec("xdg_toplevel"@, "set_title"@);
        let text = m.arg_string(if title {
            "title"@
        } else {
            "app_id"@
        });
        let infos = o.ext(WlExtensionKind::ToplevelInfo);
        assert("xdg_toplevel"@.len() == 12);
        assert("xdg_wm_base"@.len() == 11);
        assert("xdg_surface"@.len() == 11);
        assert(!m.is_spec("xdg_wm_base"@, "get_xdg_surface"@));
        assert(!m.is_spec("xdg_surface"@, "get_toplevel"@));
        if let (Some(t), true) = (text, infos.contains_key(m.obj_id)) {
            if let WlObjectExtension::ToplevelInfo(info) = infos[m.obj_id] {
                if o.lookup_spec(m.obj_id) is Some {
                    let kk = WlExtensionKind::ToplevelInfo;
                    assert(n.ext(kk) == if kk == WlExtensionKind::ToplevelInfo {
                        if o.lookup_spec(m.obj_id) is Some {
                            infos.insert(m.obj_id, WlObjectExtension::ToplevelInfo(with_text(info, title, t)))
                        } else {
                            infos.remove(m.obj_id)
                        }
                    } else {
                        o.ext(kk)
                    });
                    assert(t@ == t@ && n.ext(WlExtensionKind::ToplevelInfo) == infos.insert(
                        m.obj_id,
                        WlObjectExtension::ToplevelInfo(with_text(info, title, t)),
                    ));
                }
            }
        }
    }
}

/// The annotations that handling request `p` on `obj_id` drops before its
/// xdg-shell effect: those of the objects it creates, destroys or binds.
/// `None` for a request that would both create and bind or destroy.
pub open spec fn request_drops(proto: WlProtocol, p: ParsedV, obj_id: u32) -> Option<Set<u32>> {
    if is_msg(proto, p, "wl_registry"@, "bind"@) {
        if !has_typed_new_id(p.d.args@) && !p.d.is_destructor {
            match u32_of(arg_of(p, "id"@)) {
                Some(i) => Some(set![i]),
                None => None,
            }
        } else {
            None
        }
    } else if has_typed_new_id(p.d.args@) {
        Some(map_of(p.cs).dom())
    } else if p.d.is_destructor {
        Some(set![obj_id])
    } else {
        Some(Set::empty())
    }
}

proof fn lemma_xdg_v_rebase(
    iface: Seq<char>,
    name: Seq<char>,
    obj_id: u32,
    id: Option<u32>,
    surface: Option<u32>,
    title: Option<Seq<char>>,
    app_id: Option<Seq<char>>,
    live: Map<u32, WlObjectType>,
    half: Map<u32, WlObjectType>,
    o1: WlObjects,
    d1: Set<u32>,
    o2: WlObjects,
    d2: Set<u32>,
    n: WlObjects,
)
    requires
        forall|k: WlExtensionKind| #[trigger] o1.ext(k).remove_keys(d1) == o2.ext(k).remove_keys(d2),
        xdg_effect_v(iface, name, obj_id, id, surface, title, app_id, live, half, o1, d1, n),
    ensures
        xdg_effect_v(iface, name, obj_id, id, surface, title, app_id, live, half, o2, d2, n),
{
    assert(o1.ext(WlExtensionKind::SurfaceXdg).remove_keys(d1) == o2.ext(WlExtensionKind::SurfaceXdg).remove_keys(d2));
    assert(o1.ext(WlExtensionKind::XdgToplevel).remove_keys(d1) == o2.ext(WlExtensionKind::XdgToplevel).remove_keys(d2));
    assert(o1.ext(WlExtensionKind::ToplevelInfo).remove_keys(d1) == o2.ext(WlExtensionKind::ToplevelInfo).remove_keys(d2));
}

impl WlMitmState {
    proof fn lemma_message_args(&self, m: AnyWlParsedMessage, p: ParsedV, name: Seq<char>)
        requires
            names_view(m.arg_names@) == arg_names_of(p.d.args@),
            args_view(m.args@) == p.vs,
        ensures
            m.arg_spec(name) == arg_of(p, name),
    {
    }

    /// Handles an event from the server: keeps the registry up to date and
    /// decides whether the client sees it.
    pub fn on_s2c_event<F>(&mut self, raw: &WlRawMsg<F>) -> (r: WlMitmOutcome)
        requires
            old(self).wf(),
            raw.bytes().len() >= 8,
        ensures
            final(self).wf(),
            final(self).cfg() == old(self).cfg(),
            final(self).proto() == old(self).proto(),
            final(self).endian() == old(self).endian(),
            match parse_spec(
                old(self).endian(),
                &old(self).proto(),
                &old(self).objs(),
                raw,
                WlMsgType::Event,
            ) {
                WaylandProtocolParsingOutcome::Parsed(p) => {
                    &&& r.0 == p.d.fd_args()
                    &&& r.1 == event_verdict(old(self).cfg(), old(self).proto(), old(self).objs(), p)
                    &&& (r.1 != WlMitmVerdict::Terminate && has_typed_new_id(p.d.args@) && !is_msg(
                        old(self).proto(),
                        p,
                        "wl_display"@,
                        "delete_id"@,
                    )) ==> {
                        &&& final(self).objs().live() == old(self).objs().live().union_prefer_right(
                            map_of(p.cs),
                        )
                        &&& final(self).objs().half() == old(self).objs().half()
                    }
                    &&& (r.1 != WlMitmVerdict::Terminate && !has_typed_new_id(p.d.args@)
                        && p.d.is_destructor && !is_msg(
                        old(self).proto(),
                        p,
                        "wl_display"@,
                        "delete_id"@,
                    )) ==> {
                        &&& final(self).objs().live() == old(self).objs().live().remove(raw.obj_id)
                        &&& final(self).objs().half() == old(self).objs().half().remove(raw.obj_id)
                    }
                    &&& (r.1 == WlMitmVerdict::Allowed && !has_typed_new_id(p.d.args@)
                        && !p.d.is_destructor) ==> event_effect(
                        old(self).proto(),
                        p,
                        old(self).objs(),
                        final(self).objs(),
                        old(self).last_toplevel(),
                        final(self).last_toplevel(),
                    )
                },
                _ => r.0 == 0 && r.1 == WlMitmVerdict::Terminate,
            },
    {
        let mut outcome = WlMitmOutcome::default();
        let ghost ps = parse_spec(self.endian, &*self.protocol, &self.objects, raw, WlMsgType::Event);
        let msg = match decode_event(self.endian, &self.protocol, &self.objects, raw) {
            WaylandProtocolParsingOutcome::Parsed(m) => m,
            _ => {
                return outcome.terminate();
            },
        };
        let ghost p = ps->Parsed_0;
        let ghost o = self.objects;
        outcome.set_consumed_fds(msg.num_consumed_fds);
        proof {
            crate::proto::lemma_created_valid(&*self.protocol, p.d.args@, p.vs);
            self.lemma_message_args(msg, p, "name"@);
            self.lemma_message_args(msg, p, "interface"@);
            self.lemma_message_args(msg, p, "id"@);
            self.lemma_message_args(msg, p, "surface"@);
        }
        if !self.handle_created_or_destroyed_objects(&msg, false) {
            return outcome.terminate();
        }
        if msg.is("wl_registry", "global") {
            let name = match msg.arg_u32("name") {
                Some(n) => n,
                None => {
                    return outcome.terminate();
                },
            };
            let interface = match msg.arg_str("interface") {
                Some(s) => s,
                None => {
                    return outcome.terminate();
                },
            };
            let t = match lookup_known_object_type(&self.protocol, interface.as_str()) {
                Some(t) => t,
                None => {
                    return outcome.filtered();
                },
            };
            if !self.config.filter.is_global_allowed(interface) {
                return outcome.filtered();
            }
            proof {
                interface_index(self.proto(), interface@);
            }
            self.objects.record_global(name, t);
        } else if msg.is("wl_registry", "global_remove") {
            if let Some(name) = msg.arg_u32("name") {
                self.objects.remove_global(name);
            }
        } else if msg.is("wl_display", "delete_id") {
            if let Some(id) = msg.arg_u32("id") {
                let ghost before = self.objects;
                self.objects.remove_object(id, false);
                proof {
                    assert forall|x: u32| #[trigger] self.objects.live().contains_key(x) implies self.proto().has_type(self.objects.live()[x]) by {
                        assert(before.live().contains_key(x));
                    }
                    assert forall|x: u32| #[trigger] self.objects.half().contains_key(x) implies self.proto().has_type(self.objects.half()[x]) by {
                        assert(before.half().contains_key(x));
                    }
                }
            }
        } else if msg.is("wl_pointer", "enter") || msg.is("wl_keyboard", "enter") || msg.is(
            "wl_touch",
            "down",
        ) {
            if let Some(surface) = msg.arg_u32("surface") {
                self.update_last_active_surface(surface);
            }
        }
        outcome.allowed()
    }
}

/// Whether the bind request `p` names a recorded global by the interface
/// that global has.
pub open spec fn bind_ok(proto: WlProtocol, objs: WlObjects, p: ParsedV) -> bool {
    match (
        u32_of(arg_of(p, "name"@)),
        str_of(arg_of(p, "id_interface_name"@)),
        u32_of(arg_of(p, "id"@)),
    ) {
        (Some(n), Some(s), Some(_)) => objs.globals().contains_key(n) && proto.interfaces@[objs.globals()[n].index as int].name_snake@
            == s,
        _ => false,
    }
}

/// Whether the request `p` on `obj_id` ends the connection: its target is
/// half-destroyed, an object it creates is already known, or it binds a
/// global that was not advertised under that interface.
pub open spec fn request_fatal(proto: WlProtocol, objs: WlObjects, p: ParsedV, obj_id: u32) -> bool {
    ||| objs.half().contains_key(obj_id)
    ||| !creation_ok(objs, p)
    ||| (is_msg(proto, p, "wl_registry"@, "bind"@) && !bind_ok(proto, objs, p))
}

/// What the policy says of a request.
pub enum PolicyV {
    /// Let it through.
    Allow,
    /// Let it through and run the notify command.
    Notify,
    /// Block it with this verdict.
    Block(WlMitmVerdict),
    /// Run the ask command; this verdict stands unless it succeeds.
    Ask(WlMitmVerdict),
}

/// The verdict a blocking rule gives.
pub open spec fn blocked_verdict(rule: WlFilterRequest) -> WlMitmVerdict {
    match rule.block_type {
        WlFilterRequestBlockType::Ignore => WlMitmVerdict::Filtered,
        WlFilterRequestBlockType::Reject => WlMitmVerdict::Rejected(rule.error_code),
    }
}

/// What the configured rules say of request `name` of `iface`.
pub open spec fn policy(cfg: Config, iface: Seq<char>, name: Seq<char>) -> PolicyV {
    match first_rule(cfg.filter.requests@, iface, name) {
        None => PolicyV::Allow,
        Some(i) => {
            let rule = cfg.filter.requests@[i];
            match rule.action {
                WlFilterRequestAction::Block => PolicyV::Block(blocked_verdict(rule)),
                WlFilterRequestAction::Ask => if cfg.helpers.ask_cmd is Some {
                    PolicyV::Ask(blocked_verdict(rule))
                } else {
                    PolicyV::Block(blocked_verdict(rule))
                },
                WlFilterRequestAction::Notify => if cfg.helpers.notify_cmd is Some {
                    PolicyV::Notify
                } else {
                    PolicyV::Allow
                },
            }
        },
    }
}

/// The description of the rule for request `name` of `iface`, or empty.
pub open spec fn rule_desc(cfg: Config, iface: Seq<char>, name: Seq<char>) -> Seq<char> {
    match first_rule(cfg.filter.requests@, iface, name) {
        Some(i) => match cfg.filter.requests@[i].desc {
            Some(d) => d@,
            None => Seq::empty(),
        },
        None => Seq::empty(),
    }
}

/// `c` runs `program` about the request `p`.
pub open spec fn command_for(
    c: WlMitmCommand,
    program: Seq<char>,
    proto: WlProtocol,
    cfg: Config,
    p: ParsedV,
    objs: WlObjects,
    last: Option<u32>,
) -> bool {
    &&& c.program@ == program
    &&& c.interface@ == iface_of(proto, p)
    &&& c.method@ == p.d.name_snake@
    &&& c.desc@ == rule_desc(cfg, iface_of(proto, p), p.d.name_snake@)
    &&& window_told(c, objs, last)
}

/// What is known of the toplevel `last`: its title and application id.
pub open spec fn toplevel_info_of(objs: WlObjects, last: Option<u32>) -> Option<ToplevelSurfaceInfo> {
    match last {
        Some(t) => if objs.ext(WlExtensionKind::ToplevelInfo).contains_key(t) {
            match objs.ext(WlExtensionKind::ToplevelInfo)[t] {
                WlObjectExtension::ToplevelInfo(i) => Some(i),
                _ => None,
            }
        } else {
            None
        },
        None => None,
    }
}

/// `c` carries the title and application id of the last active toplevel
/// `last`, as far as they are known.
pub open spec fn window_told(c: WlMitmCommand, objs: WlObjects, last: Option<u32>) -> bool {
    match toplevel_info_of(objs, last) {
        Some(i) => c.last_toplevel_title == i.title && c.last_toplevel_app_id == i.app_id,
        None => c.last_toplevel_title is None && c.last_toplevel_app_id is None,
    }
}

/// The outcome `o` holds `n` used descriptors and verdict `v`.
pub open spec fn outcome_is(o: WlMitmOutcome, n: int, v: WlMitmVerdict) -> bool {
    o.0 == n && o.1 == v
}

impl WlMitmState {
    /// The command that runs `program` about `msg`, with what is known of the
    /// last active toplevel.
    fn prepare_command(&self, msg: AnyWlParsedMessage, program: &String, desc: &String) -> (r:
        WlMitmCommand)
        ensures
            r.program@ == program@,
            r.interface@ == msg.interface@,
            r.method@ == msg.msg_name@,
            r.desc@ == desc@,
            r.msg == msg,
            window_told(r, self.objs(), self.last_toplevel()),
    {
        let mut title: Option<String> = None;
        let mut app_id: Option<String> = None;
        if let Some(t) = self.last_toplevel {
            if let Some(WlObjectExtension::ToplevelInfo(info)) = self.objects.get_object_extension(
                t,
                WlExtensionKind::ToplevelInfo,
            ) {
                if let Some(s) = &info.title {
                    title = Some(s.clone());
                }
                if let Some(s) = &info.app_id {
                    app_id = Some(s.clone());
                }
            }
        }
        WlMitmCommand {
            program: program.clone(),
            interface: msg.interface.clone(),
            method: msg.msg_name.clone(),
            desc: desc.clone(),
            msg,
            last_toplevel_title: title,
            last_toplevel_app_id: app_id,
        }
    }

    /// Applies what the request `msg` means for the xdg-shell annotations.
    fn track_xdg_request(&mut self, msg: &AnyWlParsedMessage)
        requires
            old(self).wf(),
        ensures
            final(self).wf(),
            final(self).cfg() == old(self).cfg(),
            final(self).proto() == old(self).proto(),
            final(self).endian() == old(self).endian(),
            final(self).objs().live() == old(self).objs().live(),
            final(self).objs().half() == old(self).objs().half(),
            final(self).objs().globals() == old(self).objs().globals(),
            final(self).last_toplevel() == old(self).last_toplevel(),
            xdg_effect(*msg, old(self).objs(), final(self).objs()),
    {
        if msg.is("xdg_wm_base", "get_xdg_surface") {
            if let (Some(id), Some(surface)) = (msg.arg_u32("id"), msg.arg_u32("surface")) {
                self.objects.put_object_extension(surface, WlObjectExtension::SurfaceXdg(id));
            }
        } else if msg.is("xdg_surface", "get_toplevel") {
            if let Some(id) = msg.arg_u32("id") {
                self.objects.put_object_extension(msg.obj_id, WlObjectExtension::XdgToplevel(id));
                self.objects.put_object_extension(
                    id,
                    WlObjectExtension::ToplevelInfo(ToplevelSurfaceInfo { title: None, app_id: None }),
                );
            }
        } else if msg.is("xdg_toplevel", "set_app_id") || msg.is("xdg_toplevel", "set_title") {
            let is_title = msg.is("xdg_toplevel", "set_title");
            let text = if is_title {
                msg.arg_str("title")
            } else {
                msg.arg_str("app_id")
            };
            if let Some(text) = text {
                let ghost o = self.objects;
                proof {
                    if o.ext(WlExtensionKind::ToplevelInfo).contains_key(msg.obj_id) {
                        o.lemma_ext_kind(WlExtensionKind::ToplevelInfo, msg.obj_id);
                    }
                }
                let taken = self.objects.take_object_extension(msg.obj_id, WlExtensionKind::ToplevelInfo);
                proof {
                    assert(self.objects.ext(WlExtensionKind::ToplevelInfo) =~= o.ext(
                        WlExtensionKind::ToplevelInfo,
                    ).remove(msg.obj_id));
                    if taken is None {
                        assert(self.objects.ext(WlExtensionKind::ToplevelInfo) =~= o.ext(
                            WlExtensionKind::ToplevelInfo,
                        ));
                    }
                }
                if let Some(WlObjectExtension::ToplevelInfo(info)) = taken {
                    let updated = if is_title {
                        ToplevelSurfaceInfo { title: Some(text.clone()), app_id: info.app_id }
                    } else {
                        ToplevelSurfaceInfo { title: info.title, app_id: Some(text.clone()) }
                    };
                    let ghost x = WlObjectExtension::ToplevelInfo(updated);
                    self.objects.put_object_extension(
                        msg.obj_id,
                        WlObjectExtension::ToplevelInfo(updated),
                    );
                    proof {
                        if o.lookup_spec(msg.obj_id) is Some {
                            assert(self.objects.ext(WlExtensionKind::ToplevelInfo) =~= o.ext(
                                WlExtensionKind::ToplevelInfo,
                            ).insert(msg.obj_id, x));
                        }
                    }
                }
            }
        }
    }

    /// Handles a request from the client: keeps the registry up to date and
    /// applies the policy. Where the policy asks a helper command, the step
    /// says so and [`ask_outcome`] gives the outcome once it has run.
    pub fn on_c2s_request<F>(&mut self, raw: &WlRawMsg<F>) -> (r: WlMitmRequestStep)
        requires
            old(self).wf(),
            raw.bytes().len() >= 8,
        ensures
            final(self).wf(),
            final(self).cfg() == old(self).cfg(),
            final(self).proto() == old(self).proto(),
            final(self).endian() == old(self).endian(),
            old(self).objs().half().contains_key(raw.obj_id) ==> {
                &&& final(self).objs() == old(self).objs()
                &&& final(self).last_toplevel() == old(self).last_toplevel()
                &&& r matches WlMitmRequestStep::Decided(o, None) && o.1 == WlMitmVerdict::Terminate
            },
            match parse_spec(
                old(self).endian(),
                &old(self).proto(),
                &old(self).objs(),
                raw,
                WlMsgType::Request,
            ) {
                WaylandProtocolParsingOutcome::Parsed(p) => if request_fatal(
                    old(self).proto(),
                    old(self).objs(),
                    p,
                    raw.obj_id,
                ) {
                    r matches WlMitmRequestStep::Decided(o, None) && outcome_is(
                        o,
                        p.d.fd_args(),
                        WlMitmVerdict::Terminate,
                    )
                } else {
                    &&& match policy(old(self).cfg(), iface_of(old(self).proto(), p), p.d.name_snake@) {
                        PolicyV::Allow => r matches WlMitmRequestStep::Decided(o, None) && outcome_is(
                            o,
                            p.d.fd_args(),
                            WlMitmVerdict::Allowed,
                        ),
                        PolicyV::Notify => r matches WlMitmRequestStep::Decided(o, Some(c))
                            && outcome_is(o, p.d.fd_args(), WlMitmVerdict::Allowed) && command_for(
                            c,
                            old(self).cfg().helpers.notify_cmd->0@,
                            old(self).proto(),
                            old(self).cfg(),
                            p,
                            final(self).objs(),
                            final(self).last_toplevel(),
                        ),
                        PolicyV::Block(v) => r matches WlMitmRequestStep::Decided(o, None)
                            && outcome_is(o, p.d.fd_args(), v),
                        PolicyV::Ask(v) => r matches WlMitmRequestStep::Ask(o, c) && outcome_is(
                            o,
                            p.d.fd_args(),
                            v,
                        ) && command_for(
                            c,
                            old(self).cfg().helpers.ask_cmd->0@,
                            old(self).proto(),
                            old(self).cfg(),
                            p,
                            final(self).objs(),
                            final(self).last_toplevel(),
                        ),
                    }
                    &&& (has_typed_new_id(p.d.args@) && !is_msg(
                        old(self).proto(),
                        p,
                        "wl_registry"@,
                        "bind"@,
                    )) ==> final(self).objs().live()
                        == old(self).objs().live().union_prefer_right(map_of(p.cs))
                    &&& (!has_typed_new_id(p.d.args@) && p.d.is_destructor && !is_msg(
                        old(self).proto(),
                        p,
                        "wl_registry"@,
                        "bind"@,
                    )) ==> {
                        &&& if is_client_id(raw.obj_id) {
                            &&& final(self).objs().live() == old(self).objs().live().remove(raw.obj_id)
                            &&& final(self).objs().half() == old(self).objs().half().insert(
                                raw.obj_id,
                                old(self).objs().live()[raw.obj_id],
                            )
                        } else {
                            &&& final(self).objs().live() == old(self).objs().live().remove(raw.obj_id)
                            &&& final(self).objs().half() == old(self).objs().half().remove(raw.obj_id)
                        }
                        &&& final(self).last_toplevel() == if old(self).last_toplevel() == Some(
                            raw.obj_id,
                        ) {
                            None
                        } else {
                            old(self).last_toplevel()
                        }
                    }
                    &&& (is_msg(old(self).proto(), p, "wl_registry"@, "bind"@) && !has_typed_new_id(
                        p.d.args@,
                    ) && !p.d.is_destructor) ==> final(self).objs().live() == old(self).objs().live().insert(
                        u32_of(arg_of(p, "id"@))->0,
                        old(self).objs().globals()[u32_of(arg_of(p, "name"@))->0],
                    )
                    &&& request_drops(old(self).proto(), p, raw.obj_id) matches Some(d) ==> xdg_effect_v(
                        iface_of(old(self).proto(), p),
                        p.d.name_snake@,
                        raw.obj_id,
                        u32_of(arg_of(p, "id"@)),
                        u32_of(arg_of(p, "surface"@)),
                        str_of(arg_of(p, "title"@)),
                        str_of(arg_of(p, "app_id"@)),
                        final(self).objs().live(),
                        final(self).objs().half(),
                        old(self).objs(),
                        d,
                        final(self).objs(),
                    )
                },
                _ => {
                    &&& r matches WlMitmRequestStep::Decided(o, None) && outcome_is(
                        o,
                        0,
                        WlMitmVerdict::Terminate,
                    )
                    &&& final(self).objs() == old(self).objs()
                    &&& final(self).last_toplevel() == old(self).last_toplevel()
                },
            },
    {
        let mut outcome = WlMitmOutcome::default();
        let ghost ps = parse_spec(self.endian, &*self.protocol, &self.objects, raw, WlMsgType::Request);
        let msg = match decode_request(self.endian, &self.protocol, &self.objects, raw) {
            WaylandProtocolParsingOutcome::Parsed(m) => m,
            _ => {
                return WlMitmRequestStep::Decided(outcome.terminate(), None);
            },
        };
        let ghost p = ps->Parsed_0;
        let ghost o = self.objects;
        outcome.set_consumed_fds(msg.num_consumed_fds);
        proof {
            crate::proto::lemma_created_valid(&*self.protocol, p.d.args@, p.vs);
            self.lemma_message_args(msg, p, "name"@);
            self.lemma_message_args(msg, p, "id_interface_name"@);
            self.lemma_message_args(msg, p, "id"@);
        }
        if self.objects.is_half_destroyed(msg.obj_id) {
            return WlMitmRequestStep::Decided(outcome.terminate(), None);
        }
        assert(o.live().contains_key(raw.obj_id));
        if !self.handle_created_or_destroyed_objects(&msg, true) {
            return WlMitmRequestStep::Decided(outcome.terminate(), None);
        }
        if msg.is("wl_registry", "bind") {
            let ghost mid = self.objects;
            let name = msg.arg_u32("name");
            let iface = msg.arg_str("id_interface_name");
            let id = msg.arg_u32("id");
            match (name, iface, id) {
                (Some(name), Some(iface), Some(id)) => {
                    let t = match self.objects.lookup_global(name) {
                        Some(t) => t,
                        None => {
                            return WlMitmRequestStep::Decided(outcome.terminate(), None);
                        },
                    };
                    if *t.interface(&self.protocol) != *iface {
                        return WlMitmRequestStep::Decided(outcome.terminate(), None);
                    }
                    self.objects.record_object(t, id);
                    proof {
                        assert(self.objects.half() =~= mid.half().remove(id));
                        assert forall|x: u32| #[trigger] self.objects.half().contains_key(x) implies self.proto().has_type(self.objects.half()[x]) by {
                            assert(mid.half().contains_key(x));
                        }
                    }
                },
                _ => {
                    return WlMitmRequestStep::Decided(outcome.terminate(), None);
                },
            }
        }
        let ghost mid = self.objects;
        proof {
            self.lemma_message_args(msg, p, "surface"@);
            self.lemma_message_args(msg, p, "title"@);
            self.lemma_message_args(msg, p, "app_id"@);
        }
        self.track_xdg_request(&msg);
        proof {
            lemma_xdg_view(msg, mid, self.objects);
            if let Some(d) = request_drops(self.proto(), p, raw.obj_id) {
                assert forall|k: WlExtensionKind| #[trigger] mid.ext(k).remove_keys(Set::<u32>::empty())
                    == o.ext(k).remove_keys(d) by {
                    assert(mid.ext(k).remove_keys(Set::<u32>::empty()) =~= o.ext(k).remove_keys(d));
                }
                lemma_xdg_v_rebase(
                    msg.interface@,
                    msg.msg_name@,
                    msg.obj_id,
                    u32_of(msg.arg_spec("id"@)),
                    u32_of(msg.arg_spec("surface"@)),
                    str_of(msg.arg_spec("title"@)),
                    str_of(msg.arg_spec("app_id"@)),
                    mid.live(),
                    mid.half(),
                    mid,
                    Set::empty(),
                    o,
                    d,
                    self.objects,
                );
            }
        }
        if let Some(rule) = self.config.filter.find_rule(&msg.interface, &msg.msg_name) {
            let empty = String::new();
            let desc: &String = match &rule.desc {
                Some(d) => d,
                None => &empty,
            };
            let denied = match rule.block_type {
                WlFilterRequestBlockType::Ignore => outcome.filtered(),
                WlFilterRequestBlockType::Reject => outcome.rejected(rule.error_code),
            };
            match rule.action {
                WlFilterRequestAction::Block => {
                    return WlMitmRequestStep::Decided(denied, None);
                },
                WlFilterRequestAction::Ask => {
                    match &self.config.helpers.ask_cmd {
                        Some(cmd) => {
                            let c = self.prepare_command(msg, cmd, desc);
                            return WlMitmRequestStep::Ask(denied, c);
                        },
                        None => {
                            return WlMitmRequestStep::Decided(denied, None);
                        },
                    }
                },
                WlFilterRequestAction::Notify => {
                    let allowed = WlMitmOutcome(denied.0, WlMitmVerdict::Allowed);
                    match &self.config.helpers.notify_cmd {
                        Some(cmd) => {
                            let c = self.prepare_command(msg, cmd, desc);
                            return WlMitmRequestStep::Decided(allowed, Some(c));
                        },
                        None => {
                            return WlMitmRequestStep::Decided(allowed, None);
                        },
                    }
                },
            }
        }
        WlMitmRequestStep::Decided(outcome.allowed(), None)
    }
}

} // verus!
