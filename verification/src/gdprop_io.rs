//! Loader- and saver-side operations dispatched on the recognized
//! container format: reading a file's UID or class identity without a
//! full decode, loading and saving through the format dispatch, and the
//! UID rebinding transaction that refuses to bind a UID already
//! canonically bound to a different path.

use vstd::prelude::*;
use vstd::utf8::{decode_utf8_encode_utf8, encode_utf8};
use vstd::utf8::decode_utf8;

use crate::cursor::FaWrapper;
use crate::errors::{GdError, GdPropError};
use crate::format::{spec_recognize_prop_format, GdPropFormat};
use crate::gd_meta::{
    gdbin_header_bytes, gdron_line, header_field_ok, lemma_uid_text_field_ok,
    spec_parse_gdbin_header, spec_parse_gdron_file, GdMetaHeader,
};
use crate::gdprop::{
    load_bin, load_ron, save_bin, save_ron, spec_existing_bin_uid, spec_existing_ron_uid,
    spec_load_post, spec_save_committed, spec_save_uid, vec_skip, ResourceRecord,
};
use crate::host::ResourceHost;
use crate::uid::{id_to_text, spec_id_to_text, spec_text_to_id, text_to_id};

verus! {

/// The header of the container at `path`, parsed in the format its
/// extension names: nothing when the extension is unrecognized, the file
/// refuses to open, is absent, or the header does not parse.
pub open spec fn spec_container_header(host: ResourceHost, path: Seq<char>) -> Option<
    (Seq<char>, Seq<char>, int),
> {
    if host.spec_locked(path) || !host.files.spec_has_file(path) {
        None
    } else {
        match spec_recognize_prop_format(path) {
            GdPropFormat::GdRon => spec_parse_gdron_file(host.files.spec_file_data(path)),
            GdPropFormat::GdBin => spec_parse_gdbin_header(
                host.files.spec_file_data(path),
                0,
            ),
            GdPropFormat::Unrecognized => None,
        }
    }
}

/// The value a load of `path` yields when it succeeds: the class identity
/// and payload of the container at `path`, provided the container opens,
/// parses, and stores a resource of `expected_class`.  Nothing otherwise.
pub open spec fn spec_load_value(
    host: ResourceHost,
    path: Seq<char>,
    expected_class: Seq<char>,
) -> Option<(Seq<char>, Seq<u8>)> {
    match spec_container_header(host, path) {
        Some((class, uid, p)) => if class == expected_class {
            Some((class, host.files.spec_file_data(path).skip(p)))
        } else {
            None
        },
        None => None,
    }
}

/// Reads the UID recorded in the container at `path`, without decoding the
/// payload.
pub fn _int_get_uid(path: &String, host: &ResourceHost) -> (r: Result<i64, GdPropError>)
    requires
        host.wf(),
    ensures
        match spec_recognize_prop_format(path@) {
            GdPropFormat::Unrecognized => r == Result::<i64, GdPropError>::Err(
                GdPropError::OpenFileRead,
            ),
            _ => if host.spec_locked(path@) || !host.files.spec_has_file(path@) {
                r == Result::<i64, GdPropError>::Err(GdPropError::OpenFileRead)
            } else {
                match spec_container_header(*host, path@) {
                    Some((class, uid, p)) => r matches Ok(id) && id as int
                        == spec_text_to_id(uid) && id >= -1,
                    None => r == Result::<i64, GdPropError>::Err(
                        GdPropError::HeaderDeserialize,
                    ),
                }
            },
        },
{
    let format = GdPropFormat::recognize_format(path.as_str());
    if let GdPropFormat::Unrecognized = format {
        return Err(GdPropError::OpenFileRead);
    }
    if host.is_locked(path) {
        return Err(GdPropError::OpenFileRead);
    }
    let bytes = match host.files.get_file(path) {
        Some(v) => v,
        None => {
            return Err(GdPropError::OpenFileRead);
        },
    };
    let meta = match format {
        GdPropFormat::GdRon => {
            let (meta, _) = GdMetaHeader::from_gfile_ron(&bytes)?;
            meta
        },
        _ => {
            let (meta, _) = GdMetaHeader::read_from_gdbin_header(&bytes)?;
            meta
        },
    };
    Ok(text_to_id(meta.uid.as_str()))
}

/// Reads the class identity recorded in the container at `path`, without
/// decoding the payload.
pub fn _int_get_type(path: &String, host: &ResourceHost) -> (r: Result<String, GdPropError>)
    requires
        host.wf(),
    ensures
        match spec_recognize_prop_format(path@) {
            GdPropFormat::Unrecognized => r == Result::<String, GdPropError>::Err(
                GdPropError::OpenFileRead,
            ),
            _ => if host.spec_locked(path@) || !host.files.spec_has_file(path@) {
                r == Result::<String, GdPropError>::Err(GdPropError::OpenFileRead)
            } else {
                match spec_container_header(*host, path@) {
                    Some((class, uid, p)) => r matches Ok(c) && c@ == class,
                    None => r == Result::<String, GdPropError>::Err(
                        GdPropError::HeaderDeserialize,
                    ),
                }
            },
        },
{
    let format = GdPropFormat::recognize_format(path.as_str());
    if let GdPropFormat::Unrecognized = format {
        return Err(GdPropError::OpenFileRead);
    }
    if host.is_locked(path) {
        return Err(GdPropError::OpenFileRead);
    }
    let bytes = match host.files.get_file(path) {
        Some(v) => v,
        None => {
            return Err(GdPropError::OpenFileRead);
        },
    };
    let meta = match format {
        GdPropFormat::GdRon => {
            let (meta, _) = GdMetaHeader::from_gfile_ron(&bytes)?;
            meta
        },
        _ => {
            let (meta, _) = GdMetaHeader::read_from_gdbin_header(&bytes)?;
            meta
        },
    };
    Ok(meta.gd_class)
}

/// Loads the container at `path` in the format its extension names.
pub fn _int_load_file(path: &String, expected_class: &String, host: &mut ResourceHost) -> (r:
    Result<ResourceRecord, GdError>)
    requires
        old(host).wf(),
    ensures
        final(host).wf(),
        match spec_recognize_prop_format(path@) {
            GdPropFormat::Unrecognized => r == Result::<ResourceRecord, GdError>::Err(
                GdError::FileUnrecognized,
            ) && *final(host) == *old(host),
            GdPropFormat::GdRon => spec_load_post(
                *old(host),
                *final(host),
                path@,
                expected_class@,
                spec_parse_gdron_file(old(host).files.spec_file_data(path@)),
                r,
            ),
            GdPropFormat::GdBin => spec_load_post(
                *old(host),
                *final(host),
                path@,
                expected_class@,
                spec_parse_gdbin_header(old(host).files.spec_file_data(path@), 0),
                r,
            ),
        },
        r is Ok <==> spec_load_value(*old(host), path@, expected_class@) is Some,
        r matches Ok(rec) ==> Some((rec.class_identity@, rec.payload@)) == spec_load_value(
            *old(host),
            path@,
            expected_class@,
        ),
        r is Err ==> *final(host) == *old(host),
        final(host).files == old(host).files,
        final(host).locked == old(host).locked,
{
    match GdPropFormat::recognize_format(path.as_str()) {
        GdPropFormat::GdRon => load_ron(path, expected_class, host),
        GdPropFormat::GdBin => load_bin(path, expected_class, host),
        GdPropFormat::Unrecognized => Err(GdError::FileUnrecognized),
    }
}

/// Saves `record` at `path` in the format its extension names.
pub fn _int_save_to_file(record: &ResourceRecord, path: &String, host: &mut ResourceHost) -> (r:
    Result<(), GdError>)
    requires
        old(host).wf(),
        old(host).registry.has_capacity(),
        encode_utf8(record.class_identity@).len() < 0x100000000,
        encode_utf8(record.class_identity@).len() + record.class_identity@.len()
            + record.payload@.len() + 64 <= usize::MAX,
    ensures
        final(host).wf(),
        match spec_recognize_prop_format(path@) {
            GdPropFormat::Unrecognized => r == Result::<(), GdError>::Err(
                GdError::Unconfigured,
            ) && *final(host) == *old(host),
            GdPropFormat::GdRon => {
                &&& (r is Err <==> old(host).spec_locked(path@) || !header_field_ok(
                    record.class_identity@,
                ))
                &&& (r is Err ==> r == Result::<(), GdError>::Err(GdError::FileCantWrite)
                    && final(host).files == old(host).files && final(host).registry.entries == old(host).registry.entries && final(host).locked
                    == old(host).locked)
                &&& (r is Ok ==> spec_save_committed(
                    *old(host),
                    *final(host),
                    path@,
                    spec_save_uid(
                        *old(host),
                        spec_existing_ron_uid(*old(host), path@),
                        path@,
                    ),
                    encode_utf8(
                        gdron_line(
                            record.class_identity@,
                            spec_id_to_text(
                                spec_save_uid(
                                    *old(host),
                                    spec_existing_ron_uid(*old(host), path@),
                                    path@,
                                ),
                            ),
                        ),
                    ) + seq![10u8] + record.payload@,
                ))
            },
            GdPropFormat::GdBin => {
                &&& (r is Err <==> old(host).spec_locked(path@))
                &&& (r is Err ==> r == Result::<(), GdError>::Err(GdError::FileCantWrite)
                    && final(host).files == old(host).files && final(host).registry.entries == old(host).registry.entries && final(host).locked
                    == old(host).locked)
                &&& (r is Ok ==> spec_save_committed(
                    *old(host),
                    *final(host),
                    path@,
                    spec_save_uid(
                        *old(host),
                        spec_existing_bin_uid(*old(host), path@),
                        path@,
                    ),
                    gdbin_header_bytes(
                        record.class_identity@,
                        spec_id_to_text(
                            spec_save_uid(
                                *old(host),
                                spec_existing_bin_uid(*old(host), path@),
                                path@,
                            ),
                        ),
                    ) + record.payload@,
                ))
            },
        },
{
    match GdPropFormat::recognize_format(path.as_str()) {
        GdPropFormat::GdRon => save_ron(record, path, host),
        GdPropFormat::GdBin => save_bin(record, path, host),
        GdPropFormat::Unrecognized => Err(GdError::Unconfigured),
    }
}

/// The extensions the loader and saver announce.
pub fn _int_get_recognized_extensions() -> (r: Vec<String>)
    ensures
        r@.len() == 2,
        r@[0]@ == "gdbin"@,
        r@[1]@ == "gdron"@,
{
    GdPropFormat::get_supported_extensions()
}

/// What a successful UID rebind leaves behind: the container at `path`
/// rewritten with `uid` in its header over the unchanged payload, `uid`
/// canonically bound to `path`, the UID previously recorded in the file
/// unregistered, and nothing else touched.
pub open spec fn spec_uid_rebound(
    pre: ResourceHost,
    post: ResourceHost,
    path: Seq<char>,
    uid: int,
    old_uid: int,
    contents: Seq<u8>,
) -> bool {
    &&& post.files.spec_has_file(path)
    &&& post.files.spec_file_data(path) == contents
    &&& forall|p: Seq<char>|
        p != path ==> post.files.spec_has_file(p) == pre.files.spec_has_file(p)
    &&& forall|p: Seq<char>|
        p != path && pre.files.spec_has_file(p) ==> post.files.spec_file_data(p)
            == pre.files.spec_file_data(p)
    &&& post.registry.spec_has_id(uid)
    &&& post.registry.spec_id_path(uid) == path
    &&& (old_uid != uid ==> !post.registry.spec_has_id(old_uid))
    &&& forall|u: int|
        u != uid && u != old_uid ==> post.registry.spec_has_id(u)
            == pre.registry.spec_has_id(u)
    &&& forall|u: int|
        u != uid && u != old_uid && pre.registry.spec_has_id(u)
            ==> post.registry.spec_id_path(u) == pre.registry.spec_id_path(u)
    &&& post.locked == pre.locked
}

/// Rewrites the UID recorded in the container at `path` to `uid` and
/// commits the registry accordingly.  A `uid` already canonically bound to
/// a different path is refused with `AlreadyExists`; the UID previously
/// recorded in the file loses its registration.
pub fn _int_set_uid(path: &String, uid: i64, host: &mut ResourceHost) -> (r: Result<
    (),
    GdError,
>)
    requires
        old(host).wf(),
        0 <= uid < i64::MAX,
        old(host).files.spec_has_file(path@) ==> old(host).files.spec_file_data(
            path@,
        ).len() + 64 <= usize::MAX,
    ensures
        final(host).wf(),
        match spec_recognize_prop_format(path@) {
            GdPropFormat::Unrecognized => r == Result::<(), GdError>::Err(
                GdError::FileUnrecognized,
            ) && *final(host) == *old(host),
            _ => match spec_container_header(*old(host), path@) {
                None => r == Result::<(), GdError>::Err(GdError::FileCantRead) && *final(host) == *old(host),
                Some((class, old_uid_text, p)) => {
                    if old(host).registry.spec_has_id(uid as int) && old(host).registry.spec_id_path(uid as int) != path@ {
                        r == Result::<(), GdError>::Err(GdError::AlreadyExists) && *final(host) == *old(host)
                    } else if spec_recognize_prop_format(path@) is GdRon
                        && !header_field_ok(class) {
                        r == Result::<(), GdError>::Err(GdError::FileCantWrite) && *final(host) == *old(host)
                    } else {
                        r is Ok && spec_uid_rebound(
                            *old(host),
                            *final(host),
                            path@,
                            uid as int,
                            spec_text_to_id(old_uid_text),
                            (if spec_recognize_prop_format(path@) is GdRon {
                                encode_utf8(gdron_line(class, spec_id_to_text(uid as int)))
                                    + seq![10u8]
                            } else {
                                gdbin_header_bytes(class, spec_id_to_text(uid as int))
                            }) + old(host).files.spec_file_data(path@).skip(p),
                        )
                    }
                },
            },
        },
{
    let format = GdPropFormat::recognize_format(path.as_str());
    if let GdPropFormat::Unrecognized = format {
        return Err(GdError::FileUnrecognized);
    }
    if host.is_locked(path) {
        return Err(GdError::FileCantRead);
    }
    let bytes = match host.files.get_file(path) {
        Some(v) => v,
        None => {
            return Err(GdError::FileCantRead);
        },
    };
    let is_ron = matches!(format, GdPropFormat::GdRon);
    let parsed = if is_ron {
        GdMetaHeader::from_gfile_ron(&bytes)
    } else {
        GdMetaHeader::read_from_gdbin_header(&bytes)
    };
    let (meta, payload_start) = match parsed {
        Ok(v) => v,
        Err(_) => {
            return Err(GdError::FileCantRead);
        },
    };
    let old_uid = text_to_id(meta.uid.as_str());
    if host.registry.has_id(uid) && !host.registry.get_id_path(uid).eq(path) {
        return Err(GdError::AlreadyExists);
    }
    let new_meta = GdMetaHeader { gd_class: meta.gd_class, uid: id_to_text(uid) };
    proof {
        lemma_uid_text_field_ok(uid as int);
    }
    let payload = vec_skip(&bytes, payload_start);
    let mut fa = FaWrapper::new_empty();
    if is_ron {
        let header = match new_meta.to_gfile_ron() {
            Ok(v) => v,
            Err(_) => {
                return Err(GdError::FileCantWrite);
            },
        };
        fa.write(&header);
    } else {
        proof {
            let data = old(host).files.spec_file_data(path@);
            match spec_parse_gdbin_header(data, 0) {
                Some((class, u, p)) => {
                    let n = crate::gd_meta::le_bytes_to_u32(data.subrange(0, 4));
                    decode_utf8_encode_utf8(data.subrange(4, 4 + n));
                    assert(encode_utf8(class).len() == n);
                },
                None => {
                    assert(false);
                },
            }
        }
        new_meta.write_to_gdbin_fa(&mut fa);
    }
    proof {
        reveal_strlit("(gd_class:\"");
        reveal_strlit("\",uid:\"");
        reveal_strlit("\")");
        lemma_uid_text_field_ok(uid as int);
        let data = old(host).files.spec_file_data(path@);
        let new_uid_text = spec_id_to_text(uid as int);
        if is_ron {
            match spec_parse_gdron_file(data) {
                Some((class, u0, p)) => {
                    let nl = crate::gd_meta::first_byte_at(data, 10, 0);
                    let end: int = if nl >= 0 {
                        nl
                    } else {
                        data.len() as int
                    };
                    let line = decode_utf8(data.subrange(0, end));
                    decode_utf8_encode_utf8(data.subrange(0, end));
                    crate::gd_meta::lemma_encode_utf8_len_ge(line);
                    assert(line.len() <= end);
                    match crate::gd_meta::spec_parse_gdron_line(line) {
                        Some((c2, u2)) => {
                            assert(c2 == class);
                            let q1 = crate::gd_meta::first_char_at(line, '"', 11);
                            crate::gd_meta::lemma_first_char_at_bounds(line, '"', 11);
                            assert(11 <= q1);
                            assert(q1 + 7 <= line.len());
                            assert(class == line.subrange(11, q1));
                        },
                        None => {
                            assert(false);
                        },
                    }
                    assert(class.len() <= line.len());
                    assert(end <= p);
                    crate::gd_meta::lemma_gdron_line_clean(class, new_uid_text);
                    vstd::utf8::is_ascii_chars_encode_utf8(gdron_line(
                        class,
                        new_uid_text,
                    ));
                    assert(gdron_line(class, new_uid_text).len() == 20 + class.len()
                        + new_uid_text.len());
                    assert(fa.data@.len() == 21 + class.len() + new_uid_text.len());
                    assert(payload@.len() == data.len() - p);
                    assert(fa.data@.len() + payload@.len() <= data.len() + 64);
                },
                None => {
                    assert(false);
                },
            }
        } else {
            match spec_parse_gdbin_header(data, 0) {
                Some((class, u0, p)) => {
                    let n = crate::gd_meta::le_bytes_to_u32(data.subrange(0, 4));
                    assert(n <= p);
                    assert(fa.data@.len() == 8 + encode_utf8(class).len()
                        + encode_utf8(new_uid_text).len());
                    assert(encode_utf8(class).len() == n);
                    assert(payload@.len() == data.len() - p);
                    assert(fa.data@.len() + payload@.len() <= data.len() + 64);
                },
                None => {
                    assert(false);
                },
            }
        }
    }
    fa.write(&payload);
    let FaWrapper { data, pos: _ } = fa;
    host.files.set_file(path, data);
    if host.registry.has_id(old_uid) {
        host.registry.remove_id(old_uid);
    }
    if host.registry.has_id(uid) {
        host.registry.set_id(uid, path.clone());
    } else {
        host.registry.add_id(uid, path.clone());
    }
    Ok(())
}

} // verus!
