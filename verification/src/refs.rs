//! The external-reference strategies: building the descriptor written in
//! place of an inline payload, and resolving such a descriptor back to a
//! record at load time.
//!
//! Resolution tries the UID first and falls back to the path only when
//! the UID is unregistered or its canonical path no longer loads: UIDs
//! survive file moves, paths do not.  A descriptor that resolves by
//! neither means is a hard load error, never a silent absence; and inside
//! a collection a slot carrying no descriptor aborts the whole decode.

use vstd::prelude::*;

use crate::errors::GdError;
use crate::gdprop::ResourceRecord;
use crate::gdprop_io::{
    spec_container_header, spec_load_value, _int_get_uid, _int_load_file,
};
use crate::host::ResourceHost;
use crate::uid::{id_to_text, spec_id_to_text, spec_text_to_id};

verus! {

/// The external-reference descriptor: the referenced resource's class
/// identity, its UID in textual form, and its path at serialization time.
pub struct GdMetaExt {
    pub gd_class: String,
    pub uid: String,
    pub path: String,
}

/// The wire shape of one external-reference slot: a descriptor, or the
/// distinguished empty tag that stands for an absent optional reference.
pub enum GdExtResource {
    ExtResource(GdMetaExt),
    Empty,
}

/// What serialization reads off a live resource pointer: its class
/// identity and its resource path.
pub struct ResHandle {
    pub gd_class: String,
    pub path: String,
}

/// The UID that the loader reports for the container at `path`: the one
/// recorded in its header, or `-1` when the file cannot be opened or
/// parsed.
pub open spec fn spec_resource_uid(host: ResourceHost, path: Seq<char>) -> int {
    match spec_container_header(host, path) {
        Some((class, uid, p)) => spec_text_to_id(uid),
        None => -1,
    }
}

/// The path a descriptor resolves against: the registered UID's canonical
/// path when the UID is registered and that path loads a resource of the
/// descriptor's class; the descriptor's own path otherwise.
pub open spec fn spec_resolve_target(
    host: ResourceHost,
    uid_text: Seq<char>,
    gd_class: Seq<char>,
    path: Seq<char>,
) -> Seq<char> {
    let id = spec_text_to_id(uid_text);
    if host.registry.spec_has_id(id) && spec_load_value(
        host,
        host.registry.spec_id_path(id),
        gd_class,
    ) is Some {
        host.registry.spec_id_path(id)
    } else {
        path
    }
}

/// A record handed out by resolution is a genuine record of the slot's
/// class, loaded from some container of the (unchanged) filesystem.
pub open spec fn spec_slot_resolved(
    host: ResourceHost,
    slot: GdExtResource,
    rec: ResourceRecord,
) -> bool {
    match slot {
        GdExtResource::ExtResource(m) => exists|t: Seq<char>|
            Some((rec.class_identity@, rec.payload@)) == #[trigger] spec_load_value(
                host,
                t,
                m.gd_class@,
            ),
        GdExtResource::Empty => false,
    }
}

/// What a load yields depends only on the filesystem and the lock set,
/// never on the registry.
pub proof fn lemma_load_value_depends(
    a: ResourceHost,
    b: ResourceHost,
    path: Seq<char>,
    expected_class: Seq<char>,
)
    requires
        a.files == b.files,
        a.locked == b.locked,
    ensures
        spec_load_value(a, path, expected_class) == spec_load_value(b, path, expected_class),
{
    assert(a.spec_locked(path) == b.spec_locked(path)) by {
        if a.spec_locked(path) {
            let i = choose|i: int| 0 <= i < a.locked.len() && #[trigger] a.locked[i]@ == path;
            assert(b.locked[i]@ == path);
        }
        if b.spec_locked(path) {
            let i = choose|i: int| 0 <= i < b.locked.len() && #[trigger] b.locked[i]@ == path;
            assert(a.locked[i]@ == path);
        }
    }
    assert(spec_container_header(a, path) == spec_container_header(b, path));
}

impl GdMetaExt {
    /// Resolves through the registered UID: when the descriptor's UID is
    /// registered, loads the registry's canonical path for it, ignoring
    /// the descriptor's own path entirely.
    pub fn try_load_from_uid(&self, host: &mut ResourceHost) -> (r: Option<ResourceRecord>)
        requires
            old(host).wf(),
        ensures
            final(host).wf(),
            final(host).files == old(host).files,
            final(host).locked == old(host).locked,
            !old(host).registry.spec_has_id(spec_text_to_id(self.uid@)) ==> r is None
                && *final(host) == *old(host),
            old(host).registry.spec_has_id(spec_text_to_id(self.uid@)) ==> ({
                let target = old(host).registry.spec_id_path(
                    spec_text_to_id(self.uid@),
                );
                &&& (r is Some <==> spec_load_value(*old(host), target, self.gd_class@)
                    is Some)
                &&& (r matches Some(rec) ==> Some((rec.class_identity@, rec.payload@))
                    == spec_load_value(*old(host), target, self.gd_class@))
                &&& (r is None ==> *final(host) == *old(host))
            }),
    {
        let id = crate::uid::text_to_id(self.uid.as_str());
        if !host.registry.has_id(id) {
            return None;
        }
        let target = host.registry.get_id_path(id);
        match _int_load_file(&target, &self.gd_class, host) {
            Ok(rec) => Some(rec),
            Err(_) => None,
        }
    }

    /// Resolves through the descriptor's own path.
    pub fn try_load_from_path(&self, host: &mut ResourceHost) -> (r: Option<ResourceRecord>)
        requires
            old(host).wf(),
        ensures
            final(host).wf(),
            final(host).files == old(host).files,
            final(host).locked == old(host).locked,
            r is Some <==> spec_load_value(*old(host), self.path@, self.gd_class@)
                is Some,
            r matches Some(rec) ==> Some((rec.class_identity@, rec.payload@))
                == spec_load_value(*old(host), self.path@, self.gd_class@),
            r is None ==> *final(host) == *old(host),
    {
        match _int_load_file(&self.path, &self.gd_class, host) {
            Ok(rec) => Some(rec),
            Err(_) => None,
        }
    }

    /// Resolves the descriptor: by UID first, then by path.  A registered
    /// UID whose canonical path loads wins even when the descriptor's
    /// path is stale; the path is consulted only otherwise.
    pub fn try_load(&self, host: &mut ResourceHost) -> (r: Option<ResourceRecord>)
        requires
            old(host).wf(),
        ensures
            final(host).wf(),
            final(host).files == old(host).files,
            final(host).locked == old(host).locked,
            ({
                let id = spec_text_to_id(self.uid@);
                let uid_wins = old(host).registry.spec_has_id(id) && spec_load_value(
                    *old(host),
                    old(host).registry.spec_id_path(id),
                    self.gd_class@,
                ) is Some;
                let target = if uid_wins {
                    old(host).registry.spec_id_path(id)
                } else {
                    self.path@
                };
                &&& (r is Some <==> spec_load_value(*old(host), target, self.gd_class@)
                    is Some)
                &&& (r matches Some(rec) ==> Some((rec.class_identity@, rec.payload@))
                    == spec_load_value(*old(host), target, self.gd_class@))
                &&& (r is None ==> *final(host) == *old(host))
                &&& (spec_load_value(*old(host), self.path@, self.gd_class@) is Some
                    ==> r is Some)
                &&& target == spec_resolve_target(
                    *old(host),
                    self.uid@,
                    self.gd_class@,
                    self.path@,
                )
            }),
    {
        if let Some(rec) = self.try_load_from_uid(host) {
            return Some(rec);
        }
        self.try_load_from_path(host)
    }
}

/// Builds the descriptor written for one external reference: the
/// resource's class identity, the UID its container currently records (as
/// text), and its path.
pub fn ext_serialize(handle: &ResHandle, host: &ResourceHost) -> (r: GdExtResource)
    requires
        host.wf(),
    ensures
        r matches GdExtResource::ExtResource(m) && m.gd_class@ == handle.gd_class@
            && m.path@ == handle.path@ && m.uid@ == spec_id_to_text(
            spec_resource_uid(*host, handle.path@),
        ),
{
    let uid = match _int_get_uid(&handle.path, host) {
        Ok(id) => id,
        Err(_) => -1,
    };
    GdExtResource::ExtResource(GdMetaExt {
        gd_class: handle.gd_class.clone(),
        uid: id_to_text(uid),
        path: handle.path.clone(),
    })
}

/// Builds the slot written for one optional external reference: the
/// distinguished empty tag for an absent reference, so that absence
/// round-trips through the same wire shape as presence.
pub fn ext_option_serialize(handle: &Option<ResHandle>, host: &ResourceHost) -> (r:
    GdExtResource)
    requires
        host.wf(),
    ensures
        match handle {
            Some(h) => r matches GdExtResource::ExtResource(m) && m.gd_class@
                == h.gd_class@ && m.path@ == h.path@ && m.uid@ == spec_id_to_text(
                spec_resource_uid(*host, h.path@),
            ),
            None => r is Empty,
        },
{
    match handle {
        Some(h) => ext_serialize(h, host),
        None => GdExtResource::Empty,
    }
}

/// Resolves one mandatory external-reference slot.  An empty slot is an
/// error here: a scalar reference must carry a descriptor.
pub fn ext_deserialize(slot: &GdExtResource, host: &mut ResourceHost) -> (r: Result<
    ResourceRecord,
    GdError,
>)
    requires
        old(host).wf(),
    ensures
        final(host).wf(),
        final(host).files == old(host).files,
        final(host).locked == old(host).locked,
        match slot {
            GdExtResource::ExtResource(m) => {
                let id = spec_text_to_id(m.uid@);
                let uid_wins = old(host).registry.spec_has_id(id) && spec_load_value(
                    *old(host),
                    old(host).registry.spec_id_path(id),
                    m.gd_class@,
                ) is Some;
                let target = if uid_wins {
                    old(host).registry.spec_id_path(id)
                } else {
                    m.path@
                };
                &&& (r is Ok <==> spec_load_value(*old(host), target, m.gd_class@)
                    is Some)
                &&& (r matches Ok(rec) ==> Some((rec.class_identity@, rec.payload@))
                    == spec_load_value(*old(host), target, m.gd_class@))
                &&& (r is Err ==> r == Result::<ResourceRecord, GdError>::Err(
                    GdError::CantResolve,
                ) && *final(host) == *old(host))
                &&& (spec_load_value(*old(host), m.path@, m.gd_class@) is Some ==> r
                    is Ok)
            },
            GdExtResource::Empty => r == Result::<ResourceRecord, GdError>::Err(
                GdError::NoMeta,
            ) && *final(host) == *old(host),
        },
{
    match slot {
        GdExtResource::ExtResource(meta) => match meta.try_load(host) {
            Some(rec) => Ok(rec),
            None => Err(GdError::CantResolve),
        },
        GdExtResource::Empty => Err(GdError::NoMeta),
    }
}

/// Resolves one optional external-reference slot.  The empty tag is a
/// well-formed absent reference; a descriptor that resolves by neither
/// UID nor path is still a hard error.
pub fn ext_option_deserialize(slot: &GdExtResource, host: &mut ResourceHost) -> (r: Result<
    Option<ResourceRecord>,
    GdError,
>)
    requires
        old(host).wf(),
    ensures
        final(host).wf(),
        final(host).files == old(host).files,
        final(host).locked == old(host).locked,
        match slot {
            GdExtResource::ExtResource(m) => {
                let id = spec_text_to_id(m.uid@);
                let uid_wins = old(host).registry.spec_has_id(id) && spec_load_value(
                    *old(host),
                    old(host).registry.spec_id_path(id),
                    m.gd_class@,
                ) is Some;
                let target = if uid_wins {
                    old(host).registry.spec_id_path(id)
                } else {
                    m.path@
                };
                &&& (r matches Ok(o) ==> o matches Some(rec) && Some(
                    (rec.class_identity@, rec.payload@),
                ) == spec_load_value(*old(host), target, m.gd_class@))
                &&& (r is Ok <==> spec_load_value(*old(host), target, m.gd_class@)
                    is Some)
                &&& (r is Err ==> r == Result::<Option<ResourceRecord>, GdError>::Err(
                    GdError::CantResolve,
                ) && *final(host) == *old(host))
                &&& (spec_load_value(*old(host), m.path@, m.gd_class@) is Some ==> r
                    is Ok)
            },
            GdExtResource::Empty => r matches Ok(o) && o is None && *final(host) == *old(
                host,
            ),
        },
{
    match slot {
        GdExtResource::ExtResource(meta) => match meta.try_load(host) {
            Some(rec) => Ok(Some(rec)),
            None => Err(GdError::CantResolve),
        },
        GdExtResource::Empty => Ok(None),
    }
}

/// Serializes an ordered collection of external references element-wise,
/// preserving order.
pub fn ext_array_serialize(handles: &Vec<ResHandle>, host: &ResourceHost) -> (r: Vec<
    GdExtResource,
>)
    requires
        host.wf(),
    ensures
        r@.len() == handles@.len(),
        forall|i: int|
            0 <= i < r@.len() ==> (#[trigger] r@[i] matches GdExtResource::ExtResource(m)
                && m.gd_class@ == handles@[i].gd_class@ && m.path@ == handles@[i].path@
                && m.uid@ == spec_id_to_text(
                spec_resource_uid(*host, handles@[i].path@),
            )),
{
    let mut out: Vec<GdExtResource> = Vec::new();
    let mut i: usize = 0;
    while i < handles.len()
        invariant
            host.wf(),
            i <= handles.len(),
            out@.len() == i,
            forall|j: int|
                0 <= j < i ==> (#[trigger] out@[j] matches GdExtResource::ExtResource(m)
                    && m.gd_class@ == handles@[j].gd_class@ && m.path@
                    == handles@[j].path@ && m.uid@ == spec_id_to_text(
                    spec_resource_uid(*host, handles@[j].path@),
                )),
        decreases handles.len() - i,
    {
        let slot = ext_serialize(&handles[i], host);
        out.push(slot);
        i += 1;
    }
    out
}

/// Resolves an ordered collection of external references element-wise,
/// preserving order.  A slot carrying no descriptor, or one that resolves
/// by neither UID nor path, aborts the whole decode: referenced data is
/// never silently truncated.
pub fn ext_array_deserialize(slots: &Vec<GdExtResource>, host: &mut ResourceHost) -> (r:
    Result<Vec<ResourceRecord>, GdError>)
    requires
        old(host).wf(),
    ensures
        final(host).wf(),
        final(host).files == old(host).files,
        final(host).locked == old(host).locked,
        r matches Ok(v) ==> v@.len() == slots@.len() && forall|i: int|
            0 <= i < slots@.len() ==> spec_slot_resolved(
                *old(host),
                slots@[i],
                #[trigger] v@[i],
            ) && v@[i].class_identity@ == slots@[i]->ExtResource_0.gd_class@,
        (exists|i: int| 0 <= i < slots@.len() && #[trigger] slots@[i] is Empty) ==> r
            is Err,
        (forall|i: int|
            0 <= i < slots@.len() ==> (#[trigger] slots@[i] matches
                GdExtResource::ExtResource(m) && spec_load_value(
                *old(host),
                m.path@,
                m.gd_class@,
            ) is Some)) ==> r is Ok,
{
    let ghost pre = *old(host);
    let mut out: Vec<ResourceRecord> = Vec::new();
    let mut i: usize = 0;
    while i < slots.len()
        invariant
            pre == *old(host),
            host.wf(),
            host.files == pre.files,
            host.locked == pre.locked,
            i <= slots.len(),
            out@.len() == i,
            forall|j: int|
                0 <= j < i ==> spec_slot_resolved(pre, slots@[j], #[trigger] out@[j])
                    && out@[j].class_identity@ == slots@[j]->ExtResource_0.gd_class@,
            forall|j: int| 0 <= j < i ==> !(#[trigger] slots@[j] is Empty),
        decreases slots.len() - i,
    {
        let ghost h0 = *host;
        let rec = match ext_deserialize(&slots[i], host) {
            Ok(rec) => rec,
            Err(e) => {
                return Err(e);
            },
        };
        proof {
            match slots@[i as int] {
                GdExtResource::ExtResource(m) => {
                    let id = spec_text_to_id(m.uid@);
                    let uid_wins = h0.registry.spec_has_id(id) && spec_load_value(
                        h0,
                        h0.registry.spec_id_path(id),
                        m.gd_class@,
                    ) is Some;
                    let target = if uid_wins {
                        h0.registry.spec_id_path(id)
                    } else {
                        m.path@
                    };
                    lemma_load_value_depends(h0, pre, target, m.gd_class@);
                    assert(Some((rec.class_identity@, rec.payload@)) == spec_load_value(
                        pre,
                        target,
                        m.gd_class@,
                    ));
                },
                GdExtResource::Empty => {
                    assert(false);
                },
            }
        }
        out.push(rec);
        i += 1;
    }
    Ok(out)
}

/// Serializes a keyed collection of external references element-wise,
/// keeping every key with its descriptor.
pub fn ext_hashmap_serialize(entries: &Vec<(String, ResHandle)>, host: &ResourceHost) -> (r:
    Vec<(String, GdExtResource)>)
    requires
        host.wf(),
    ensures
        r@.len() == entries@.len(),
        forall|i: int|
            0 <= i < r@.len() ==> (#[trigger] r@[i].0@ == entries@[i].0@ && (r@[i].1 matches
                GdExtResource::ExtResource(m) && m.gd_class@ == entries@[i].1.gd_class@
                && m.path@ == entries@[i].1.path@ && m.uid@ == spec_id_to_text(
                spec_resource_uid(*host, entries@[i].1.path@),
            ))),
{
    let mut out: Vec<(String, GdExtResource)> = Vec::new();
    let mut i: usize = 0;
    while i < entries.len()
        invariant
            host.wf(),
            i <= entries.len(),
            out@.len() == i,
            forall|j: int|
                0 <= j < i ==> (#[trigger] out@[j].0@ == entries@[j].0@ && (out@[j].1 matches
                    GdExtResource::ExtResource(m) && m.gd_class@
                    == entries@[j].1.gd_class@ && m.path@ == entries@[j].1.path@
                    && m.uid@ == spec_id_to_text(
                    spec_resource_uid(*host, entries@[j].1.path@),
                ))),
        decreases entries.len() - i,
    {
        let (key, handle) = &entries[i];
        let slot = ext_serialize(handle, host);
        out.push((key.clone(), slot));
        i += 1;
    }
    out
}

/// Resolves a keyed collection of external references element-wise,
/// keeping every key with the record its descriptor resolves to.  Any
/// slot without a descriptor, or that resolves by neither means, aborts
/// the whole decode.
pub fn ext_hashmap_deserialize(entries: &Vec<(String, GdExtResource)>, host: &mut ResourceHost) -> (r: Result<Vec<(String, ResourceRecord)>, GdError>)
    requires
        old(host).wf(),
    ensures
        final(host).wf(),
        final(host).files == old(host).files,
        final(host).locked == old(host).locked,
        r matches Ok(v) ==> v@.len() == entries@.len() && forall|i: int|
            0 <= i < entries@.len() ==> #[trigger] v@[i].0@ == entries@[i].0@
                && spec_slot_resolved(*old(host), entries@[i].1, v@[i].1)
                && v@[i].1.class_identity@ == entries@[i].1->ExtResource_0.gd_class@,
        (exists|i: int| 0 <= i < entries@.len() && #[trigger] entries@[i].1 is Empty)
            ==> r is Err,
        (forall|i: int|
            0 <= i < entries@.len() ==> (#[trigger] entries@[i].1 matches
                GdExtResource::ExtResource(m) && spec_load_value(
                *old(host),
                m.path@,
                m.gd_class@,
            ) is Some)) ==> r is Ok,
{
    let ghost pre = *old(host);
    let mut out: Vec<(String, ResourceRecord)> = Vec::new();
    let mut i: usize = 0;
    while i < entries.len()
        invariant
            pre == *old(host),
            host.wf(),
            host.files == pre.files,
            host.locked == pre.locked,
            i <= entries.len(),
            out@.len() == i,
            forall|j: int|
                0 <= j < i ==> #[trigger] out@[j].0@ == entries@[j].0@
                    && spec_slot_resolved(pre, entries@[j].1, out@[j].1)
                    && out@[j].1.class_identity@
                    == entries@[j].1->ExtResource_0.gd_class@,
            forall|j: int| 0 <= j < i ==> !(#[trigger] entries@[j].1 is Empty),
        decreases entries.len() - i,
    {
        let (key, slot) = &entries[i];
        let ghost h0 = *host;
        let rec = match ext_deserialize(slot, host) {
            Ok(rec) => rec,
            Err(e) => {
                return Err(e);
            },
        };
        proof {
            match entries@[i as int].1 {
                GdExtResource::ExtResource(m) => {
                    let id = spec_text_to_id(m.uid@);
                    let uid_wins = h0.registry.spec_has_id(id) && spec_load_value(
                        h0,
                        h0.registry.spec_id_path(id),
                        m.gd_class@,
                    ) is Some;
                    let target = if uid_wins {
                        h0.registry.spec_id_path(id)
                    } else {
                        m.path@
                    };
                    lemma_load_value_depends(h0, pre, target, m.gd_class@);
                    assert(Some((rec.class_identity@, rec.payload@)) == spec_load_value(
                        pre,
                        target,
                        m.gd_class@,
                    ));
                },
                GdExtResource::Empty => {
                    assert(false);
                },
            }
        }
        out.push((key.clone(), rec));
        i += 1;
    }
    Ok(out)
}

} // verus!
