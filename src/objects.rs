//! The per-connection object registry: live objects, objects the client has
//! destroyed and the server has not yet released, advertised globals, and
//! side annotations on objects.
use vstd::prelude::*;
use std::collections::HashMap;
use crate::protocol::WlObjectType;

verus! {

broadcast use vstd::std_specs::hash::group_hash_axioms;

/// The id of the display object, which every connection starts with.
pub const WL_DISPLAY_OBJECT_ID: u32 = 1;

/// Largest id that a client allocates; ids above belong to the server.
pub const MAX_CLIENT_OBJECT_ID: u32 = 0xfeff_ffff;

/// What the proxy knows about a toplevel window.
#[derive(Debug)]
pub struct ToplevelSurfaceInfo {
    pub title: Option<String>,
    pub app_id: Option<String>,
}

/// The kinds of annotation an object can carry.
#[derive(Clone, Copy, Debug, PartialEq, Eq, Structural)]
pub enum WlExtensionKind {
    /// On a surface: the xdg_surface made for it.
    SurfaceXdg,
    /// On an xdg_surface: the toplevel made from it.
    XdgToplevel,
    /// On a toplevel: its title and application id.
    ToplevelInfo,
}

/// An annotation on an object.
#[derive(Debug)]
pub enum WlObjectExtension {
    SurfaceXdg(u32),
    XdgToplevel(u32),
    ToplevelInfo(ToplevelSurfaceInfo),
}

impl WlObjectExtension {
    pub open spec fn kind_spec(&self) -> WlExtensionKind {
        match self {
            WlObjectExtension::SurfaceXdg(_) => WlExtensionKind::SurfaceXdg,
            WlObjectExtension::XdgToplevel(_) => WlExtensionKind::XdgToplevel,
            WlObjectExtension::ToplevelInfo(_) => WlExtensionKind::ToplevelInfo,
        }
    }

    /// The kind of the annotation.
    pub fn kind(&self) -> (r: WlExtensionKind)
        ensures
            r == self.kind_spec(),
    {
        match self {
            WlObjectExtension::SurfaceXdg(_) => WlExtensionKind::SurfaceXdg,
            WlObjectExtension::XdgToplevel(_) => WlExtensionKind::XdgToplevel,
            WlObjectExtension::ToplevelInfo(_) => WlExtensionKind::ToplevelInfo,
        }
    }
}

/// The object registry of one connection.
pub struct WlObjects {
    objects: HashMap<u32, WlObjectType>,
    objects_half_destroyed: HashMap<u32, WlObjectType>,
    surface_xdg: HashMap<u32, WlObjectExtension>,
    xdg_toplevel: HashMap<u32, WlObjectExtension>,
    toplevel_info: HashMap<u32, WlObjectExtension>,
    global_names: HashMap<u32, WlObjectType>,
}

/// Whether `id` is one a client allocates.
pub open spec fn is_client_id(id: u32) -> bool {
    id <= MAX_CLIENT_OBJECT_ID
}

/// No id is a key of both maps.
pub open spec fn disjoint_ids(a: Map<u32, WlObjectType>, b: Map<u32, WlObjectType>) -> bool {
    forall|id: u32| !(#[trigger] a.contains_key(id) && b.contains_key(id))
}

impl WlObjects {
    /// Live objects by id.
    pub closed spec fn live(&self) -> Map<u32, WlObjectType> {
        self.objects@
    }

    /// Objects the client destroyed that the server has not yet released.
    pub closed spec fn half(&self) -> Map<u32, WlObjectType> {
        self.objects_half_destroyed@
    }

    /// Advertised globals that passed the filter, by global name.
    pub closed spec fn globals(&self) -> Map<u32, WlObjectType> {
        self.global_names@
    }

    /// Annotations of one kind, by object id.
    pub closed spec fn ext(&self, kind: WlExtensionKind) -> Map<u32, WlObjectExtension> {
        match kind {
            WlExtensionKind::SurfaceXdg => self.surface_xdg@,
            WlExtensionKind::XdgToplevel => self.xdg_toplevel@,
            WlExtensionKind::ToplevelInfo => self.toplevel_info@,
        }
    }

    /// Annotations are stored under their own kind.
    pub closed spec fn ext_kinds_ok(&self) -> bool {
        &&& forall|id: u32| #[trigger]
            self.surface_xdg@.contains_key(id) ==> self.surface_xdg@[id] is SurfaceXdg
        &&& forall|id: u32| #[trigger]
            self.xdg_toplevel@.contains_key(id) ==> self.xdg_toplevel@[id] is XdgToplevel
        &&& forall|id: u32| #[trigger]
            self.toplevel_info@.contains_key(id) ==> self.toplevel_info@[id] is ToplevelInfo
    }

    /// An annotation stored under kind `k` is of that kind.
    pub proof fn lemma_ext_kind(&self, k: WlExtensionKind, id: u32)
        requires
            self.wf(),
            self.ext(k).contains_key(id),
        ensures
            self.ext(k)[id].kind_spec() == k,
    {
    }

    /// No id is both live and half-destroyed, and annotations sit under
    /// their kind.
    pub open spec fn wf(&self) -> bool {
        &&& disjoint_ids(self.live(), self.half())
        &&& self.ext_kinds_ok()
    }

    /// The type recorded for `id`, live or half-destroyed.
    pub open spec fn lookup_spec(&self, id: u32) -> Option<WlObjectType> {
        if self.live().contains_key(id) {
            Some(self.live()[id])
        } else if self.half().contains_key(id) {
            Some(self.half()[id])
        } else {
            None
        }
    }

    /// `self` and `o` hold the same annotations except on `id`, which has none in `o`.
    pub open spec fn ext_dropped(&self, o: &WlObjects, id: u32) -> bool {
        forall|k: WlExtensionKind| #[trigger] o.ext(k) == self.ext(k).remove(id)
    }

    /// `self` and `o` hold the same objects, globals and annotations.
    pub open spec fn same_as(&self, o: &WlObjects) -> bool {
        &&& self.live() == o.live()
        &&& self.half() == o.half()
        &&& self.globals() == o.globals()
        &&& forall|k: WlExtensionKind| #[trigger] self.ext(k) == o.ext(k)
    }

    /// A registry holding only the display object, of type `display`.
    pub fn new(display: WlObjectType) -> (r: WlObjects)
        ensures
            r.wf(),
            r.live() == map![WL_DISPLAY_OBJECT_ID => display],
            r.half() == Map::<u32, WlObjectType>::empty(),
            r.globals() == Map::<u32, WlObjectType>::empty(),
            forall|k: WlExtensionKind| #[trigger] r.ext(k) == Map::<u32, WlObjectExtension>::empty(),
    {
        let mut objects = HashMap::new();
        objects.insert(WL_DISPLAY_OBJECT_ID, display);
        let r = WlObjects {
            objects,
            objects_half_destroyed: HashMap::new(),
            surface_xdg: HashMap::new(),
            xdg_toplevel: HashMap::new(),
            toplevel_info: HashMap::new(),
            global_names: HashMap::new(),
        };
        assert(r.live() =~= map![WL_DISPLAY_OBJECT_ID => display]);
        r
    }

    fn drop_extensions(&mut self, id: u32)
        requires
            old(self).ext_kinds_ok(),
        ensures
            old(self).ext_dropped(final(self), id),
            final(self).ext_kinds_ok(),
            final(self).live() == old(self).live(),
            final(self).half() == old(self).half(),
            final(self).globals() == old(self).globals(),
    {
        self.surface_xdg.remove(&id);
        self.xdg_toplevel.remove(&id);
        self.toplevel_info.remove(&id);
        assert forall|k: WlExtensionKind| #[trigger] final(self).ext(k) == old(self).ext(k).remove(id) by {
            match k {
                WlExtensionKind::SurfaceXdg => assert(final(self).ext(k) =~= old(self).ext(k).remove(id)),
                WlExtensionKind::XdgToplevel => assert(final(self).ext(k) =~= old(self).ext(k).remove(id)),
                WlExtensionKind::ToplevelInfo => assert(final(self).ext(k) =~= old(self).ext(k).remove(id)),
            }
        }
    }

    /// Records a live object `id` of type `obj_type`. Any annotation on the
    /// id is dropped, and the id is no longer half-destroyed.
    pub fn record_object(&mut self, obj_type: WlObjectType, id: u32)
        requires
            old(self).wf(),
        ensures
            final(self).wf(),
            final(self).live() == old(self).live().insert(id, obj_type),
            final(self).half() == old(self).half().remove(id),
            final(self).globals() == old(self).globals(),
            old(self).ext_dropped(final(self), id),
    {
        self.objects.insert(id, obj_type);
        self.objects_half_destroyed.remove(&id);
        self.drop_extensions(id);
        assert forall|x: u32| !(#[trigger] final(self).live().contains_key(x)
            && final(self).half().contains_key(x)) by {
            if x != id {
                assert(!(old(self).live().contains_key(x) && old(self).half().contains_key(x)));
            }
        }
    }

    /// The type of `id`, whether live or half-destroyed.
    pub fn lookup_object(&self, id: u32) -> (r: Option<WlObjectType>)
        ensures
            r == self.lookup_spec(id),
    {
        match self.objects.get(&id) {
            Some(t) => Some(*t),
            None => match self.objects_half_destroyed.get(&id) {
                Some(t) => Some(*t),
                None => None,
            },
        }
    }

    /// Whether the client destroyed `id` and the server has not released it.
    pub fn is_half_destroyed(&self, id: u32) -> (r: bool)
        ensures
            r == self.half().contains_key(id),
    {
        self.objects_half_destroyed.contains_key(&id)
    }

    /// `new` is `self` after removing `id`, as [`Self::remove_object`] does.
    pub open spec fn removed_to(&self, new: &WlObjects, id: u32, from_client: bool) -> bool {
        &&& new.globals() == self.globals()
        &&& if from_client && is_client_id(id) {
            if self.live().contains_key(id) {
                &&& new.live() == self.live().remove(id)
                &&& new.half() == self.half().insert(id, self.live()[id])
                &&& self.ext_dropped(new, id)
            } else {
                new.same_as(self)
            }
        } else {
            &&& new.live() == self.live().remove(id)
            &&& new.half() == self.half().remove(id)
            &&& self.ext_dropped(new, id)
        }
    }

    /// Removes `id`. A client destroying an object it allocated only moves it
    /// to the half-destroyed set, since the server may still send events on
    /// it until it acknowledges; otherwise the id is forgotten.
    pub fn remove_object(&mut self, id: u32, from_client: bool)
        requires
            old(self).wf(),
        ensures
            final(self).wf(),
            old(self).removed_to(final(self), id, from_client),
    {
        if from_client && id <= MAX_CLIENT_OBJECT_ID {
            match self.objects.remove(&id) {
                None => {
                    assert(self.objects@ =~= old(self).objects@);
                    assert(self.live() == old(self).live());
                    return;
                },
                Some(old_entry) => {
                    self.objects_half_destroyed.insert(id, old_entry);
                    self.drop_extensions(id);
                },
            }
        } else {
            self.objects.remove(&id);
            self.objects_half_destroyed.remove(&id);
            self.drop_extensions(id);
        }
        assert forall|x: u32| !(#[trigger] final(self).live().contains_key(x)
            && final(self).half().contains_key(x)) by {
            if x != id {
                assert(!(old(self).live().contains_key(x) && old(self).half().contains_key(x)));
            }
        }
    }

    /// Annotates `id`, replacing an annotation of the same kind; an id that
    /// is not known gets nothing.
    pub fn put_object_extension(&mut self, id: u32, extension: WlObjectExtension)
        requires
            old(self).wf(),
        ensures
            final(self).wf(),
            final(self).live() == old(self).live(),
            final(self).half() == old(self).half(),
            final(self).globals() == old(self).globals(),
            old(self).lookup_spec(id) is None ==> *final(self) == *old(self),
            old(self).lookup_spec(id) is Some ==> forall|k: WlExtensionKind| #[trigger]
                final(self).ext(k) == if k == extension.kind_spec() {
                    old(self).ext(k).insert(id, extension)
                } else {
                    old(self).ext(k)
                },
    {
        if self.lookup_object(id).is_none() {
            return;
        }
        let ghost e = extension;
        match extension.kind() {
            WlExtensionKind::SurfaceXdg => {
                self.surface_xdg.insert(id, extension);
            },
            WlExtensionKind::XdgToplevel => {
                self.xdg_toplevel.insert(id, extension);
            },
            WlExtensionKind::ToplevelInfo => {
                self.toplevel_info.insert(id, extension);
            },
        }
        assert forall|k: WlExtensionKind| #[trigger] final(self).ext(k) == if k == e.kind_spec() {
            old(self).ext(k).insert(id, e)
        } else {
            old(self).ext(k)
        } by {}
    }

    /// The annotation of kind `kind` on `id`.
    pub fn get_object_extension(&self, id: u32, kind: WlExtensionKind) -> (r: Option<
        &WlObjectExtension,
    >)
        ensures
            match r {
                Some(x) => self.ext(kind).contains_key(id) && *x == self.ext(kind)[id],
                None => !self.ext(kind).contains_key(id),
            },
    {
        match kind {
            WlExtensionKind::SurfaceXdg => self.surface_xdg.get(&id),
            WlExtensionKind::XdgToplevel => self.xdg_toplevel.get(&id),
            WlExtensionKind::ToplevelInfo => self.toplevel_info.get(&id),
        }
    }

    /// Takes the annotation of kind `kind` off `id`.
    pub fn take_object_extension(&mut self, id: u32, kind: WlExtensionKind) -> (r: Option<
        WlObjectExtension,
    >)
        requires
            old(self).wf(),
        ensures
            final(self).wf(),
            final(self).live() == old(self).live(),
            final(self).half() == old(self).half(),
            final(self).globals() == old(self).globals(),
            match r {
                Some(x) => old(self).ext(kind).contains_key(id) && x == old(self).ext(kind)[id],
                None => !old(self).ext(kind).contains_key(id),
            },
            forall|k: WlExtensionKind| #[trigger]
                final(self).ext(k) == if k == kind {
                    old(self).ext(k).remove(id)
                } else {
                    old(self).ext(k)
                },
    {
        let r = match kind {
            WlExtensionKind::SurfaceXdg => self.surface_xdg.remove(&id),
            WlExtensionKind::XdgToplevel => self.xdg_toplevel.remove(&id),
            WlExtensionKind::ToplevelInfo => self.toplevel_info.remove(&id),
        };
        assert forall|k: WlExtensionKind| #[trigger] final(self).ext(k) == if k == kind {
            old(self).ext(k).remove(id)
        } else {
            old(self).ext(k)
        } by {
            if k == kind {
                assert(final(self).ext(k) =~= old(self).ext(k).remove(id));
            }
        }
        r
    }

    /// Records the global `name` as an object of type `interface`.
    pub fn record_global(&mut self, name: u32, interface: WlObjectType)
        requires
            old(self).wf(),
        ensures
            final(self).wf(),
            final(self).globals() == old(self).globals().insert(name, interface),
            final(self).live() == old(self).live(),
            final(self).half() == old(self).half(),
            forall|k: WlExtensionKind| #[trigger] final(self).ext(k) == old(self).ext(k),
    {
        self.global_names.insert(name, interface);
    }

    /// The type of the global `name`, if it was recorded.
    pub fn lookup_global(&self, name: u32) -> (r: Option<WlObjectType>)
        ensures
            r == (if self.globals().contains_key(name) {
                Some(self.globals()[name])
            } else {
                None
            }),
    {
        match self.global_names.get(&name) {
            Some(t) => Some(*t),
            None => None,
        }
    }

    /// Forgets the global `name`.
    pub fn remove_global(&mut self, name: u32)
        requires
            old(self).wf(),
        ensures
            final(self).wf(),
            final(self).globals() == old(self).globals().remove(name),
            final(self).live() == old(self).live(),
            final(self).half() == old(self).half(),
            forall|k: WlExtensionKind| #[trigger] final(self).ext(k) == old(self).ext(k),
    {
        self.global_names.remove(&name);
    }
}

} // verus!
