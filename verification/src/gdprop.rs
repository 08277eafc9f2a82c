//! The whole-container save and load operations, in both formats.
//!
//! A save runs the UID registry transaction: it reads any UID already
//! recorded at the destination, allocates a fresh UID when none resolves
//! or the resolved one is canonically bound to a different path (a UID
//! bound elsewhere is never silently reused), writes the container, and
//! only after the write has succeeded commits the registry binding.  A
//! load reads the header, checks the class identity, hands back the
//! payload bytes, and rebinds the UID read from the file to the path it
//! was read from, which makes loading self-healing for a registry rebuilt
//! from scratch.

use vstd::prelude::*;
use vstd::utf8::encode_utf8;

use crate::cursor::FaWrapper;
use crate::errors::GdError;
use crate::gd_meta::{
    gdbin_header_bytes, gdron_line, header_field_ok, lemma_uid_text_field_ok,
    spec_parse_gdbin_header, spec_parse_gdron_file, GdMetaHeader,
};
use crate::host::ResourceHost;
use crate::uid::{id_to_text, spec_id_to_text, spec_text_to_id, text_to_id};

verus! {

/// The unit of persistence: a stable class identity and the resource's
/// serialized field set, carried as opaque bytes.
#[derive(Debug, PartialEq, Eq)]
pub struct ResourceRecord {
    pub class_identity: String,
    pub payload: Vec<u8>,
}

/// The UID recorded in a binary container already present at `path`, or
/// `-1` when the destination cannot be opened or holds no parseable
/// binary header.
pub open spec fn spec_existing_bin_uid(host: ResourceHost, path: Seq<char>) -> int {
    if !host.spec_locked(path) && host.files.spec_has_file(path) {
        match spec_parse_gdbin_header(host.files.spec_file_data(path), 0) {
            Some((class, uid, p)) => spec_text_to_id(uid),
            None => -1,
        }
    } else {
        -1
    }
}

/// The UID recorded in a text container already present at `path`, or
/// `-1` when the destination cannot be opened or holds no parseable
/// text header.
pub open spec fn spec_existing_ron_uid(host: ResourceHost, path: Seq<char>) -> int {
    if !host.spec_locked(path) && host.files.spec_has_file(path) {
        match spec_parse_gdron_file(host.files.spec_file_data(path)) {
            Some((class, uid, p)) => spec_text_to_id(uid),
            None => -1,
        }
    } else {
        -1
    }
}

/// True when a save to `path` must allocate a fresh UID: no usable UID was
/// recovered from the destination, or the recovered one is canonically
/// bound to a different path.
pub open spec fn spec_needs_new_uid(host: ResourceHost, u0: int, path: Seq<char>) -> bool {
    ||| u0 == -1
    ||| u0 == i64::MAX
    ||| (host.registry.spec_has_id(u0) && host.registry.spec_id_path(u0) != path)
}

/// The UID a save to `path` writes and commits: the recovered one when it
/// is usable, otherwise the registry's next fresh id.
pub open spec fn spec_save_uid(host: ResourceHost, u0: int, path: Seq<char>) -> int {
    if spec_needs_new_uid(host, u0, path) {
        host.registry.next_id as int
    } else {
        u0
    }
}

/// What a successful save leaves behind: the container `contents` stored
/// at `path`, `uid` canonically bound to `path`, and nothing else touched.
pub open spec fn spec_save_committed(
    pre: ResourceHost,
    post: ResourceHost,
    path: Seq<char>,
    uid: int,
    contents: Seq<u8>,
) -> bool {
    &&& post.files.spec_has_file(path)
    &&& post.files.spec_file_data(path) == contents
    &&& forall|p: Seq<char>|
        p != path ==> post.files.spec_has_file(p) == pre.files.spec_has_file(p)
    &&& forall|p: Seq<char>|
        p != path && pre.files.spec_has_file(p) ==> post.files.spec_file_data(p)
            == pre.files.spec_file_data(p)
    &&& post.registry.spec_has_id(uid)
    &&& post.registry.spec_id_path(uid) == path
    &&& forall|u: int| u != uid ==> post.registry.spec_has_id(u) == pre.registry.spec_has_id(u)
    &&& forall|u: int|
        u != uid && pre.registry.spec_has_id(u) ==> post.registry.spec_id_path(u)
            == pre.registry.spec_id_path(u)
    &&& post.locked == pre.locked
}

/// Copies the bytes of `v` from `from` to the end.
pub fn vec_skip(v: &Vec<u8>, from: usize) -> (r: Vec<u8>)
    requires
        from <= v.len(),
    ensures
        r@ == v@.skip(from as int),
{
    let mut out: Vec<u8> = Vec::new();
    let mut i: usize = from;
    while i < v.len()
        invariant
            from <= i <= v.len(),
            out@ =~= v@.subrange(from as int, i as int),
        decreases v.len() - i,
    {
        out.push(v[i]);
        proof {
            assert(out@ =~= v@.subrange(from as int, i + 1));
        }
        i += 1;
    }
    proof {
        assert(out@ =~= v@.skip(from as int));
    }
    out
}

/// Saves `record` at `path` in the binary container format, running the
/// UID registry transaction around the write.
pub fn save_bin(record: &ResourceRecord, path: &String, host: &mut ResourceHost) -> (r:
    Result<(), GdError>)
    requires
        old(host).wf(),
        old(host).registry.has_capacity(),
        encode_utf8(record.class_identity@).len() < 0x100000000,
        encode_utf8(record.class_identity@).len() + record.payload@.len() + 40
            <= usize::MAX,
    ensures
        final(host).wf(),
        r is Err <==> old(host).spec_locked(path@),
        r is Err ==> r == Result::<(), GdError>::Err(GdError::FileCantWrite) && final(host).files == old(host).files && final(host).registry.entries == old(host).registry.entries && final(host).locked == old(host).locked,
        r is Ok ==> spec_save_committed(
            *old(host),
            *final(host),
            path@,
            spec_save_uid(
                *old(host),
                spec_existing_bin_uid(*old(host), path@),
                path@,
            ),
            gdbin_header_bytes(
                record.class_identity@,
                spec_id_to_text(
                    spec_save_uid(
                        *old(host),
                        spec_existing_bin_uid(*old(host), path@),
                        path@,
                    ),
                ),
            ) + record.payload@,
        ),
{
    let ghost pre = *old(host);
    let mut uid: i64 = -1;
    if !host.is_locked(path) {
        if let Some(bytes) = host.files.get_file(path) {
            if let Ok((meta, _)) = GdMetaHeader::read_from_gdbin_header(&bytes) {
                uid = text_to_id(meta.uid.as_str());
            }
        }
    }
    proof {
        assert(uid as int == spec_existing_bin_uid(pre, path@));
    }
    if uid == -1 || uid == i64::MAX || (host.registry.has_id(uid) && !host.registry
        .get_id_path(uid)
        .eq(path)) {
        uid = host.registry.create_id();
    }
    proof {
        assert(uid as int == spec_save_uid(pre, spec_existing_bin_uid(pre, path@), path@));
    }
    let meta = GdMetaHeader {
        gd_class: record.class_identity.clone(),
        uid: id_to_text(uid),
    };
    if host.is_locked(path) {
        return Err(GdError::FileCantWrite);
    }
    proof {
        lemma_uid_text_field_ok(uid as int);
    }
    let mut fa = FaWrapper::new_empty();
    meta.write_to_gdbin_fa(&mut fa);
    fa.write(&record.payload);
    let FaWrapper { data, pos: _ } = fa;
    host.files.set_file(path, data);
    if host.registry.has_id(uid) {
        host.registry.set_id(uid, path.clone());
    } else {
        host.registry.add_id(uid, path.clone());
    }
    Ok(())
}

/// Saves `record` at `path` in the text container format, running the
/// same UID registry transaction.  Fails, without committing anything,
/// when the destination refuses to open or the class identity holds a
/// character the header line grammar cannot carry.
pub fn save_ron(record: &ResourceRecord, path: &String, host: &mut ResourceHost) -> (r:
    Result<(), GdError>)
    requires
        old(host).wf(),
        old(host).registry.has_capacity(),
        record.class_identity@.len() + record.payload@.len() + 64 <= usize::MAX,
    ensures
        final(host).wf(),
        r is Err <==> old(host).spec_locked(path@) || !header_field_ok(
            record.class_identity@,
        ),
        r is Err ==> r == Result::<(), GdError>::Err(GdError::FileCantWrite) && final(host).files == old(host).files && final(host).registry.entries == old(host).registry.entries && final(host).locked == old(host).locked,
        r is Ok ==> spec_save_committed(
            *old(host),
            *final(host),
            path@,
            spec_save_uid(
                *old(host),
                spec_existing_ron_uid(*old(host), path@),
                path@,
            ),
            encode_utf8(
                gdron_line(
                    record.class_identity@,
                    spec_id_to_text(
                        spec_save_uid(
                            *old(host),
                            spec_existing_ron_uid(*old(host), path@),
                            path@,
                        ),
                    ),
                ),
            ) + seq![10u8] + record.payload@,
        ),
{
    let ghost pre = *old(host);
    let mut uid: i64 = -1;
    if !host.is_locked(path) {
        if let Some(bytes) = host.files.get_file(path) {
            if let Ok((meta, _)) = GdMetaHeader::from_gfile_ron(&bytes) {
                uid = text_to_id(meta.uid.as_str());
            }
        }
    }
    proof {
        assert(uid as int == spec_existing_ron_uid(pre, path@));
    }
    if uid == -1 || uid == i64::MAX || (host.registry.has_id(uid) && !host.registry
        .get_id_path(uid)
        .eq(path)) {
        uid = host.registry.create_id();
    }
    proof {
        assert(uid as int == spec_save_uid(pre, spec_existing_ron_uid(pre, path@), path@));
    }
    let meta = GdMetaHeader {
        gd_class: record.class_identity.clone(),
        uid: id_to_text(uid),
    };
    if host.is_locked(path) {
        return Err(GdError::FileCantWrite);
    }
    proof {
        lemma_uid_text_field_ok(uid as int);
    }
    let header = match meta.to_gfile_ron() {
        Ok(v) => v,
        Err(_) => {
            return Err(GdError::FileCantWrite);
        },
    };
    proof {
        reveal_strlit("(gd_class:\"");
        reveal_strlit("\",uid:\"");
        reveal_strlit("\")");
        crate::gd_meta::lemma_gdron_line_clean(
            record.class_identity@,
            spec_id_to_text(uid as int),
        );
        vstd::utf8::is_ascii_chars_encode_utf8(gdron_line(
            record.class_identity@,
            spec_id_to_text(uid as int),
        ));
        assert(gdron_line(record.class_identity@, spec_id_to_text(uid as int)).len()
            == 20 + record.class_identity@.len() + spec_id_to_text(uid as int).len());
    }
    let mut fa = FaWrapper::new_empty();
    fa.write(&header);
    fa.write(&record.payload);
    let FaWrapper { data, pos: _ } = fa;
    host.files.set_file(path, data);
    if host.registry.has_id(uid) {
        host.registry.set_id(uid, path.clone());
    } else {
        host.registry.add_id(uid, path.clone());
    }
    proof {
        assert(final(host).files.spec_file_data(path@) =~= encode_utf8(
            gdron_line(record.class_identity@, spec_id_to_text(uid as int)),
        ) + seq![10u8] + record.payload@);
    }
    Ok(())
}

/// What loading yields, before the registry self-heal: the record and the
/// parsed uid text, or the error the container earns.
pub open spec fn spec_load_outcome(
    data: Seq<u8>,
    header: Option<(Seq<char>, Seq<char>, int)>,
    expected_class: Seq<char>,
    r: Result<ResourceRecord, GdError>,
) -> bool {
    match header {
        None => r == Result::<ResourceRecord, GdError>::Err(GdError::FileCorrupt),
        Some((class, uid, p)) => if class != expected_class {
            r == Result::<ResourceRecord, GdError>::Err(GdError::WrongType)
        } else {
            r matches Ok(rec) && rec.class_identity@ == class && rec.payload@
                == data.skip(p)
        },
    }
}

/// The registry after a load's self-heal: the uid read from the file, when
/// usable, is rebound to the path the container was read from; an
/// unusable uid leaves the registry alone.
pub open spec fn spec_self_healed(
    pre: ResourceHost,
    post: ResourceHost,
    path: Seq<char>,
    uid: int,
) -> bool {
    if 0 <= uid < i64::MAX {
        &&& post.registry.spec_has_id(uid)
        &&& post.registry.spec_id_path(uid) == path
        &&& pre.registry.next_id <= post.registry.next_id
        &&& post.registry.next_id <= if uid + 1 > pre.registry.next_id {
            uid + 1 as int
        } else {
            pre.registry.next_id as int
        }
        &&& forall|u: int|
            u != uid ==> post.registry.spec_has_id(u) == pre.registry.spec_has_id(u)
        &&& forall|u: int|
            u != uid && pre.registry.spec_has_id(u) ==> post.registry.spec_id_path(u)
                == pre.registry.spec_id_path(u)
    } else {
        post.registry == pre.registry
    }
}

/// The full contract of a load against `header`, the parse of the
/// container at `path` in the format the caller reads: the error earned
/// when the file refuses to open, the outcome of header and class checks,
/// and the registry self-heal on success.
pub open spec fn spec_load_post(
    pre: ResourceHost,
    post: ResourceHost,
    path: Seq<char>,
    expected_class: Seq<char>,
    header: Option<(Seq<char>, Seq<char>, int)>,
    r: Result<ResourceRecord, GdError>,
) -> bool {
    &&& post.files == pre.files
    &&& post.locked == pre.locked
    &&& ((pre.spec_locked(path) || !pre.files.spec_has_file(path)) ==> r
        == Result::<ResourceRecord, GdError>::Err(GdError::FileCantOpen) && post == pre)
    &&& (!(pre.spec_locked(path) || !pre.files.spec_has_file(path)) ==> ({
        let data = pre.files.spec_file_data(path);
        &&& spec_load_outcome(data, header, expected_class, r)
        &&& match header {
            Some((class, uid, p)) => r is Ok ==> spec_self_healed(
                pre,
                post,
                path,
                spec_text_to_id(uid),
            ),
            None => true,
        }
        &&& (r is Err ==> post == pre)
    }))
}

/// Loads the binary container at `path`, checking that it stores a
/// resource of `expected_class`.
pub fn load_bin(path: &String, expected_class: &String, host: &mut ResourceHost) -> (r:
    Result<ResourceRecord, GdError>)
    requires
        old(host).wf(),
    ensures
        final(host).wf(),
        spec_load_post(
            *old(host),
            *final(host),
            path@,
            expected_class@,
            spec_parse_gdbin_header(old(host).files.spec_file_data(path@), 0),
            r,
        ),
{
    if host.is_locked(path) {
        return Err(GdError::FileCantOpen);
    }
    let bytes = match host.files.get_file(path) {
        Some(v) => v,
        None => {
            return Err(GdError::FileCantOpen);
        },
    };
    let (meta, payload_start) = match GdMetaHeader::read_from_gdbin_header(&bytes) {
        Ok(v) => v,
        Err(_) => {
            return Err(GdError::FileCorrupt);
        },
    };
    if !meta.gd_class.eq(expected_class) {
        return Err(GdError::WrongType);
    }
    let payload = vec_skip(&bytes, payload_start);
    let uid = text_to_id(meta.uid.as_str());
    if uid >= 0 && uid < i64::MAX {
        if host.registry.has_id(uid) {
            host.registry.set_id(uid, path.clone());
        } else {
            host.registry.add_id(uid, path.clone());
        }
    }
    Ok(ResourceRecord { class_identity: meta.gd_class, payload })
}

/// Loads the text container at `path`, checking that it stores a resource
/// of `expected_class`.
pub fn load_ron(path: &String, expected_class: &String, host: &mut ResourceHost) -> (r:
    Result<ResourceRecord, GdError>)
    requires
        old(host).wf(),
    ensures
        final(host).wf(),
        spec_load_post(
            *old(host),
            *final(host),
            path@,
            expected_class@,
            spec_parse_gdron_file(old(host).files.spec_file_data(path@)),
            r,
        ),
{
    if host.is_locked(path) {
        return Err(GdError::FileCantOpen);
    }
    let bytes = match host.files.get_file(path) {
        Some(v) => v,
        None => {
            return Err(GdError::FileCantOpen);
        },
    };
    let (meta, payload_start) = match GdMetaHeader::from_gfile_ron(&bytes) {
        Ok(v) => v,
        Err(_) => {
            return Err(GdError::FileCorrupt);
        },
    };
    if !meta.gd_class.eq(expected_class) {
        return Err(GdError::WrongType);
    }
    let payload = vec_skip(&bytes, payload_start);
    let uid = text_to_id(meta.uid.as_str());
    if uid >= 0 && uid < i64::MAX {
        if host.registry.has_id(uid) {
            host.registry.set_id(uid, path.clone());
        } else {
            host.registry.add_id(uid, path.clone());
        }
    }
    Ok(ResourceRecord { class_identity: meta.gd_class, payload })
}

/// Rewrites the text container at `path` as a binary container carrying
/// the same class identity, uid text and payload bytes, and returns the
/// binary artifact's bytes without touching the host.
pub fn translate_ron_to_bin(path: &String, host: &ResourceHost) -> (r: Vec<u8>)
    requires
        host.wf(),
        !host.spec_locked(path@),
        host.files.spec_has_file(path@),
        match spec_parse_gdron_file(host.files.spec_file_data(path@)) {
            Some((class, uid, p)) => encode_utf8(class).len() < 0x100000000
                && encode_utf8(uid).len() < 0x100000000 && encode_utf8(class).len()
                + encode_utf8(uid).len() + host.files.spec_file_data(path@).len() + 8
                <= usize::MAX,
            None => false,
        },
    ensures
        match spec_parse_gdron_file(host.files.spec_file_data(path@)) {
            Some((class, uid, p)) => r@ == gdbin_header_bytes(class, uid)
                + host.files.spec_file_data(path@).skip(p),
            None => true,
        },
{
    let bytes = match host.files.get_file(path) {
        Some(v) => v,
        None => {
            proof {
                assert(false);
            }
            Vec::new()
        },
    };
    let (meta, payload_start) = match GdMetaHeader::from_gfile_ron(&bytes) {
        Ok(v) => v,
        Err(_) => {
            proof {
                assert(false);
            }
            (GdMetaHeader { gd_class: String::new(), uid: String::new() }, 0)
        },
    };
    let payload = vec_skip(&bytes, payload_start);
    let mut fa = FaWrapper::new_empty();
    meta.write_to_gdbin_fa(&mut fa);
    fa.write(&payload);
    let FaWrapper { data, pos: _ } = fa;
    data
}

} // verus!
