//! The core's stated laws, proved over the same specification functions
//! that the executable contracts use: the header boundary in both
//! encodings, the save/load round trip, the stability of a path's UID
//! across re-saves, the UID-first resolution order, and the export
//! remapper's rollback.

use vstd::prelude::*;
use vstd::utf8::encode_utf8;

use crate::export::{
    spec_export_reverted, spec_remaps_independent, RemapData,
};
use crate::format::{spec_recognize_prop_format, GdPropFormat};
use crate::gd_meta::{
    gdbin_header_bytes, gdron_line, header_field_ok, lemma_gdbin_header_roundtrip,
    lemma_gdron_file_roundtrip, lemma_uid_text_field_ok, spec_parse_gdbin_header,
    spec_parse_gdron_file,
};
use crate::gdprop::{spec_existing_bin_uid, spec_save_committed, spec_save_uid, ResourceRecord};
use crate::gdprop_io::spec_load_value;
use crate::host::ResourceHost;
use crate::refs::spec_resolve_target;
use crate::uid::{lemma_uid_text_roundtrip, spec_id_to_text, spec_text_to_id};

verus! {

/// Header boundary, binary encoding: parsing a binary header placed in
/// front of any payload yields the same fields back and consumes exactly
/// the bytes the writer emits, so the cursor lands on the first payload
/// byte.
pub proof fn lemma_header_boundary_bin(class: Seq<char>, uid: Seq<char>, payload: Seq<u8>)
    requires
        encode_utf8(class).len() < 0x100000000,
        encode_utf8(uid).len() < 0x100000000,
    ensures
        spec_parse_gdbin_header(gdbin_header_bytes(class, uid) + payload, 0) == Some(
            (class, uid, gdbin_header_bytes(class, uid).len() as int),
        ),
{
    lemma_gdbin_header_roundtrip(class, uid, payload);
}

/// Header boundary, text encoding: parsing the header line written for
/// grammar-clean fields, with any payload behind its newline, yields the
/// same fields back, and the payload offset is exactly the line's byte
/// length plus the newline.
pub proof fn lemma_header_boundary_ron(class: Seq<char>, uid: Seq<char>, payload: Seq<u8>)
    requires
        header_field_ok(class),
        header_field_ok(uid),
    ensures
        spec_parse_gdron_file(
            encode_utf8(gdron_line(class, uid)) + seq![10u8] + payload,
        ) == Some((class, uid, encode_utf8(gdron_line(class, uid)).len() + 1 as int)),
{
    lemma_gdron_file_roundtrip(class, uid, payload);
}

/// Round trip, binary format: in any host where a binary save of `record`
/// has just committed under `uid` at `path`, the loader's value at `path`
/// is the saved record — the same class identity and byte-identical
/// payload.
pub proof fn lemma_round_trip_bin(
    pre: ResourceHost,
    post: ResourceHost,
    record: ResourceRecord,
    path: Seq<char>,
    uid: int,
)
    requires
        spec_recognize_prop_format(path) is GdBin,
        !post.spec_locked(path),
        0 <= uid <= i64::MAX,
        encode_utf8(record.class_identity@).len() < 0x100000000,
        spec_save_committed(
            pre,
            post,
            path,
            uid,
            gdbin_header_bytes(record.class_identity@, spec_id_to_text(uid))
                + record.payload@,
        ),
    ensures
        spec_load_value(post, path, record.class_identity@) == Some(
            (record.class_identity@, record.payload@),
        ),
{
    lemma_uid_text_field_ok(uid);
    vstd::utf8::is_ascii_chars_encode_utf8(spec_id_to_text(uid));
    lemma_gdbin_header_roundtrip(
        record.class_identity@,
        spec_id_to_text(uid),
        record.payload@,
    );
    let header = gdbin_header_bytes(record.class_identity@, spec_id_to_text(uid));
    assert((header + record.payload@).skip(header.len() as int) =~= record.payload@);
}

/// Round trip, text format: in any host where a text save of `record`
/// (with a grammar-clean class identity) has just committed under `uid`
/// at `path`, the loader's value at `path` is the saved record.
pub proof fn lemma_round_trip_ron(
    pre: ResourceHost,
    post: ResourceHost,
    record: ResourceRecord,
    path: Seq<char>,
    uid: int,
)
    requires
        spec_recognize_prop_format(path) is GdRon,
        !post.spec_locked(path),
        0 <= uid <= i64::MAX,
        header_field_ok(record.class_identity@),
        spec_save_committed(
            pre,
            post,
            path,
            uid,
            encode_utf8(gdron_line(record.class_identity@, spec_id_to_text(uid)))
                + seq![10u8] + record.payload@,
        ),
    ensures
        spec_load_value(post, path, record.class_identity@) == Some(
            (record.class_identity@, record.payload@),
        ),
{
    lemma_uid_text_field_ok(uid);
    lemma_gdron_file_roundtrip(
        record.class_identity@,
        spec_id_to_text(uid),
        record.payload@,
    );
    let header = encode_utf8(gdron_line(record.class_identity@, spec_id_to_text(uid)))
        + seq![10u8];
    assert((header + record.payload@).skip(header.len() as int) =~= record.payload@);
}

/// UID stability: over a host where a binary save has just committed
/// under `uid` at `path`, a further save to the same path — of any
/// resource, with any payload — settles on the very same UID.
pub proof fn lemma_uid_stability_bin(
    pre: ResourceHost,
    post: ResourceHost,
    record: ResourceRecord,
    path: Seq<char>,
    uid: int,
)
    requires
        spec_recognize_prop_format(path) is GdBin,
        !post.spec_locked(path),
        0 <= uid < i64::MAX,
        encode_utf8(record.class_identity@).len() < 0x100000000,
        spec_save_committed(
            pre,
            post,
            path,
            uid,
            gdbin_header_bytes(record.class_identity@, spec_id_to_text(uid))
                + record.payload@,
        ),
    ensures
        spec_existing_bin_uid(post, path) == uid,
        spec_save_uid(post, spec_existing_bin_uid(post, path), path) == uid,
{
    lemma_uid_text_field_ok(uid);
    lemma_gdbin_header_roundtrip(
        record.class_identity@,
        spec_id_to_text(uid),
        record.payload@,
    );
    lemma_uid_text_roundtrip(uid);
}

/// UID stability, text format: over a host where a text save has just
/// committed under `uid` at `path`, a further save to the same path
/// settles on the very same UID.
pub proof fn lemma_uid_stability_ron(
    pre: ResourceHost,
    post: ResourceHost,
    record: ResourceRecord,
    path: Seq<char>,
    uid: int,
)
    requires
        spec_recognize_prop_format(path) is GdRon,
        !post.spec_locked(path),
        0 <= uid < i64::MAX,
        header_field_ok(record.class_identity@),
        spec_save_committed(
            pre,
            post,
            path,
            uid,
            encode_utf8(gdron_line(record.class_identity@, spec_id_to_text(uid)))
                + seq![10u8] + record.payload@,
        ),
    ensures
        crate::gdprop::spec_existing_ron_uid(post, path) == uid,
        spec_save_uid(post, crate::gdprop::spec_existing_ron_uid(post, path), path)
            == uid,
{
    lemma_uid_text_field_ok(uid);
    lemma_gdron_file_roundtrip(
        record.class_identity@,
        spec_id_to_text(uid),
        record.payload@,
    );
    lemma_uid_text_roundtrip(uid);
}

/// Resolution order, first half: a descriptor whose UID is registered,
/// with the canonical path loading a resource of the descriptor's class,
/// resolves against that canonical path — whatever stale path the
/// descriptor itself carries.
pub proof fn lemma_resolution_prefers_uid(
    host: ResourceHost,
    uid_text: Seq<char>,
    gd_class: Seq<char>,
    p1: Seq<char>,
    p2: Seq<char>,
)
    requires
        host.registry.spec_has_id(spec_text_to_id(uid_text)),
        spec_load_value(
            host,
            host.registry.spec_id_path(spec_text_to_id(uid_text)),
            gd_class,
        ) is Some,
    ensures
        spec_resolve_target(host, uid_text, gd_class, p1) == host.registry.spec_id_path(
            spec_text_to_id(uid_text),
        ),
        spec_resolve_target(host, uid_text, gd_class, p1) == spec_resolve_target(
            host,
            uid_text,
            gd_class,
            p2,
        ),
{
}

/// Resolution order, second half: a descriptor whose UID is unregistered
/// falls back to its own path.
pub proof fn lemma_resolution_falls_back(
    host: ResourceHost,
    uid_text: Seq<char>,
    gd_class: Seq<char>,
    path: Seq<char>,
)
    requires
        !host.registry.spec_has_id(spec_text_to_id(uid_text)),
    ensures
        spec_resolve_target(host, uid_text, gd_class, path) == path,
{
}

/// A single remap whose artifact path differs from its source path is an
/// independent log.
pub proof fn lemma_singleton_remap_independent(entry: RemapData)
    requires
        entry.bin_path@ != entry.ron_path@,
    ensures
        spec_remaps_independent(seq![entry]),
{
    let rs = seq![entry];
    assert forall|i: int, j: int|
        0 <= i < rs.len() && 0 <= j < rs.len() implies #[trigger] rs[i].bin_path@
        != #[trigger] rs[j].ron_path@ by {
        assert(rs[i] == entry);
        assert(rs[j] == entry);
    }
}

/// Export rollback: once the session that remapped one text source has
/// ended, the source's UID maps to the source path again — not to the
/// derived artifact — and the artifact no longer exists on disk.
pub proof fn lemma_export_rollback(
    pre: ResourceHost,
    post: ResourceHost,
    entry: RemapData,
    failed: Seq<String>,
)
    requires
        spec_export_reverted(pre, post, seq![entry], failed),
        0 <= entry.uid < i64::MAX,
        !pre.spec_locked(entry.bin_path@),
    ensures
        post.registry.spec_has_id(entry.uid as int),
        post.registry.spec_id_path(entry.uid as int) == entry.ron_path@,
        !post.files.spec_has_file(entry.bin_path@),
{
    let rs = seq![entry];
    assert(rs[0] == entry);
}

} // verus!
