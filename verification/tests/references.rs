use gd_props::cursor::{FaWrapper, SeekPos};
use gd_props::errors::GdError;
use gd_props::export::{ExporterState, _int_is_gdbin, _int_is_gdron, _int_ron_to_bin_change_path};
use gd_props::gd_meta::GdMetaHeader;
use gd_props::gdprop::{save_bin, save_ron, ResourceRecord};
use gd_props::gdprop_io::_int_get_uid;
use gd_props::host::ResourceHost;
use gd_props::refs::{
    ext_array_deserialize, ext_array_serialize, ext_deserialize, ext_hashmap_deserialize,
    ext_hashmap_serialize, ext_option_deserialize, ext_option_serialize, ext_serialize,
    GdExtResource, GdMetaExt, ResHandle,
};
use gd_props::types::GdResVec;
use gd_props::uid::id_to_text;

fn record(class: &str, payload: &[u8]) -> ResourceRecord {
    ResourceRecord {
        class_identity: class.to_string(),
        payload: payload.to_vec(),
    }
}

fn handle(class: &str, path: &str) -> ResHandle {
    ResHandle {
        gd_class: class.to_string(),
        path: path.to_string(),
    }
}

#[test]
fn resolution_prefers_registered_uid_over_stale_path() {
    let mut host = ResourceHost::new();
    let real = "res://real.gdbin".to_string();
    save_bin(&record("Thing", &[42]), &real, &mut host).unwrap();
    let uid = _int_get_uid(&real, &host).unwrap();
    let desc = GdMetaExt {
        gd_class: "Thing".to_string(),
        uid: id_to_text(uid),
        path: "res://stale-and-wrong.gdbin".to_string(),
    };
    let loaded = desc.try_load(&mut host).unwrap();
    assert_eq!(loaded.class_identity, "Thing");
    assert_eq!(loaded.payload, vec![42]);
}

#[test]
fn resolution_falls_back_to_path_when_uid_unregistered() {
    let mut host = ResourceHost::new();
    let real = "res://fallback.gdbin".to_string();
    save_bin(&record("Thing", &[7, 7]), &real, &mut host).unwrap();
    let uid = _int_get_uid(&real, &host).unwrap();
    host.registry.remove_id(uid);
    let desc = GdMetaExt {
        gd_class: "Thing".to_string(),
        uid: "uid://<invalid>".to_string(),
        path: real.clone(),
    };
    let loaded = desc.try_load(&mut host).unwrap();
    assert_eq!(loaded.payload, vec![7, 7]);
    // With neither the UID registered nor the path present, resolution is
    // a hard error, not a silent absence.
    let dangling = GdMetaExt {
        gd_class: "Thing".to_string(),
        uid: "uid://<invalid>".to_string(),
        path: "res://gone.gdbin".to_string(),
    };
    assert!(dangling.try_load(&mut host).is_none());
    assert_eq!(
        ext_deserialize(&GdExtResource::ExtResource(dangling), &mut host),
        Err(GdError::CantResolve)
    );
}

#[test]
fn ext_serialize_records_class_uid_and_path() {
    let mut host = ResourceHost::new();
    let path = "res://ser.gdbin".to_string();
    save_bin(&record("Thing", &[1]), &path, &mut host).unwrap();
    let uid = _int_get_uid(&path, &host).unwrap();
    let slot = ext_serialize(&handle("Thing", "res://ser.gdbin"), &host);
    match slot {
        GdExtResource::ExtResource(m) => {
            assert_eq!(m.gd_class, "Thing");
            assert_eq!(m.uid, id_to_text(uid));
            assert_eq!(m.path, "res://ser.gdbin");
        }
        GdExtResource::Empty => panic!("expected a descriptor"),
    }
    // A path whose container cannot be read serializes the invalid uid.
    let slot = ext_serialize(&handle("Thing", "res://absent.gdbin"), &host);
    match slot {
        GdExtResource::ExtResource(m) => assert_eq!(m.uid, "uid://<invalid>"),
        GdExtResource::Empty => panic!("expected a descriptor"),
    }
}

#[test]
fn optional_reference_round_trips_absence() {
    let mut host = ResourceHost::new();
    let slot = ext_option_serialize(&None, &host);
    assert!(matches!(slot, GdExtResource::Empty));
    assert_eq!(ext_option_deserialize(&slot, &mut host), Ok(None));
    // A mandatory slot rejects the empty tag outright.
    assert_eq!(
        ext_deserialize(&GdExtResource::Empty, &mut host),
        Err(GdError::NoMeta)
    );
}

#[test]
fn external_vector_of_three_keeps_order_and_values() {
    let mut host = ResourceHost::new();
    let paths = ["res://e1.gdbin", "res://e2.gdbin", "res://e3.gdbin"];
    let payloads: [&[u8]; 3] = [&[1], &[2, 2], &[3, 3, 3]];
    for (p, pay) in paths.iter().zip(payloads.iter()) {
        save_bin(&record("Item", pay), &p.to_string(), &mut host).unwrap();
    }
    let handles: Vec<ResHandle> = paths.iter().map(|p| handle("Item", p)).collect();
    let slots = ext_array_serialize(&handles, &host);
    assert_eq!(slots.len(), 3);
    let loaded = ext_array_deserialize(&slots, &mut host).unwrap();
    assert_eq!(loaded.len(), 3);
    for (i, rec) in loaded.iter().enumerate() {
        assert_eq!(rec.class_identity, "Item");
        assert_eq!(rec.payload, payloads[i].to_vec());
    }
}

#[test]
fn external_map_of_three_keeps_keys_and_values() {
    let mut host = ResourceHost::new();
    let entries_in = [("alpha", "res://m1.gdbin", 11u8), ("beta", "res://m2.gdbin", 22), ("gamma", "res://m3.gdbin", 33)];
    for (_, p, b) in entries_in.iter() {
        save_bin(&record("Item", &[*b]), &p.to_string(), &mut host).unwrap();
    }
    let keyed: Vec<(String, ResHandle)> = entries_in
        .iter()
        .map(|(k, p, _)| (k.to_string(), handle("Item", p)))
        .collect();
    let slots = ext_hashmap_serialize(&keyed, &host);
    let loaded = ext_hashmap_deserialize(&slots, &mut host).unwrap();
    assert_eq!(loaded.len(), 3);
    for (i, (key, rec)) in loaded.iter().enumerate() {
        assert_eq!(key, entries_in[i].0);
        assert_eq!(rec.payload, vec![entries_in[i].2]);
    }
}

#[test]
fn empty_slot_aborts_a_collection_decode() {
    let mut host = ResourceHost::new();
    let path = "res://only.gdbin".to_string();
    save_bin(&record("Item", &[9]), &path, &mut host).unwrap();
    let uid = _int_get_uid(&path, &host).unwrap();
    let good = GdMetaExt {
        gd_class: "Item".to_string(),
        uid: id_to_text(uid),
        path: path.clone(),
    };
    let slots = vec![GdExtResource::ExtResource(good), GdExtResource::Empty];
    assert!(ext_array_deserialize(&slots, &mut host).is_err());
}

#[test]
fn export_session_rolls_back_uid_and_artifact() {
    let mut host = ResourceHost::new();
    let ron = "res://level.gdron".to_string();
    save_ron(&record("Level", b"(rooms:3)"), &ron, &mut host).unwrap();
    let uid = _int_get_uid(&ron, &host).unwrap();
    let bin = _int_ron_to_bin_change_path(&ron);
    assert_eq!(bin, "res://level_from_ron.gdbin");

    let mut exporter = ExporterState::new();
    exporter._int_export_begin(false);
    let bytes = exporter._int_process_ron_file(&ron, &bin, &mut host);

    // During the session the artifact exists and the UID points at it.
    assert!(host.files.has_file(&bin));
    assert_eq!(host.registry.get_id_path(uid), bin);
    let (meta, offset) = GdMetaHeader::read_from_gdbin_header(&bytes).unwrap();
    assert_eq!(meta.gd_class, "Level");
    assert_eq!(&bytes[offset..], b"(rooms:3)");

    let failed = exporter._int_export_end(&mut host);
    assert!(failed.is_empty());
    assert_eq!(exporter.remaps.len(), 0);
    // Rolled back: the UID maps to the source again, the artifact is gone.
    assert_eq!(host.registry.get_id_path(uid), ron);
    assert!(!host.files.has_file(&bin));
    // The source file itself never moved.
    assert!(host.files.has_file(&ron));
}

#[test]
fn export_end_reports_failed_deletions_but_finishes() {
    let mut host = ResourceHost::new();
    let ron = "res://stuck.gdron".to_string();
    save_ron(&record("Level", b"x"), &ron, &mut host).unwrap();
    let uid = _int_get_uid(&ron, &host).unwrap();
    let bin = _int_ron_to_bin_change_path(&ron);
    let mut exporter = ExporterState::new();
    exporter._int_export_begin(true);
    let _ = exporter._int_process_ron_file(&ron, &bin, &mut host);
    host.lock_path(bin.clone());
    let failed = exporter._int_export_end(&mut host);
    assert_eq!(failed, vec![bin.clone()]);
    assert_eq!(exporter.remaps.len(), 0);
    assert_eq!(host.registry.get_id_path(uid), ron);
}

#[test]
fn export_path_predicates_match_extensions() {
    assert!(_int_is_gdron("res://a.gdron"));
    assert!(!_int_is_gdron("res://a.gdbin"));
    assert!(_int_is_gdbin("res://a.gdbin"));
    assert!(!_int_is_gdbin("res://a.gdron"));
    assert_eq!(_int_ron_to_bin_change_path("res://a.gdron"), "res://a_from_ron.gdbin");
}

#[test]
fn cursor_reads_clamp_and_seeks_stay_inside() {
    let mut fa = FaWrapper::new(vec![10, 20, 30, 40, 50]);
    let first = fa.read(2);
    assert_eq!(first, vec![10, 20]);
    let rest = fa.read(99);
    assert_eq!(rest, vec![30, 40, 50]);
    assert!(fa.is_eof());
    assert_eq!(fa.seek(SeekPos::FromStart(1)), Ok(1));
    assert_eq!(fa.read(1), vec![20]);
    assert_eq!(fa.seek(SeekPos::FromEnd(-2)), Ok(3));
    assert_eq!(fa.read(5), vec![40, 50]);
    assert!(fa.seek(SeekPos::FromStart(6)).is_err());
    assert!(fa.seek(SeekPos::FromCurrent(-99)).is_err());
    assert_eq!(fa.seek(SeekPos::FromCurrent(-1)), Ok(4));
}

#[test]
fn cursor_fill_buf_peeks_without_consuming() {
    let mut fa = FaWrapper::new(vec![1, 2, 3]);
    assert_eq!(fa.fill_buf(2), vec![1, 2]);
    assert_eq!(fa.fill_buf(9), vec![1, 2, 3]);
    assert_eq!(fa.position(), 0);
    fa.consume(2);
    assert_eq!(fa.fill_buf(9), vec![3]);
    fa.consume(9);
    assert!(fa.is_eof());
}

#[test]
fn bundled_vector_payload_survives_both_containers() {
    // Three bundled records serialized inline into one payload as
    // length-prefixed blobs, the way nested resources ride inside their
    // owner's field data.
    let blobs: [&[u8]; 3] = [b"first", b"second one", b"third"];
    let mut payload: Vec<u8> = Vec::new();
    for blob in blobs.iter() {
        payload.push(blob.len() as u8);
        payload.extend_from_slice(blob);
    }
    let mut host = ResourceHost::new();
    for path in ["res://owner.gdbin".to_string(), "res://owner.gdron".to_string()] {
        let rec = ResourceRecord {
            class_identity: "Owner".to_string(),
            payload: payload.clone(),
        };
        if path.ends_with("gdbin") {
            save_bin(&rec, &path, &mut host).unwrap();
        } else {
            save_ron(&rec, &path, &mut host).unwrap();
        }
        let loaded = gd_props::gdprop_io::_int_load_file(&path, &"Owner".to_string(), &mut host).unwrap();
        // Split the payload back apart: same three blobs, same order.
        let mut cursor = FaWrapper::new(loaded.payload);
        for blob in blobs.iter() {
            let len = cursor.read(1)[0] as usize;
            assert_eq!(cursor.read(len), blob.to_vec());
        }
        assert!(cursor.is_eof());
    }
}

#[test]
fn resvec_round_trips_through_variant_array() {
    let vec = GdResVec::from_vec(vec![record("A", &[1]), record("B", &[2])]);
    assert_eq!(vec.len(), 2);
    let arr = vec.as_variant_array();
    assert_eq!(arr.len(), 2);
    let back = GdResVec::from_variant_array(&arr);
    assert_eq!(back.len(), 2);
    assert!(!back.empty_last);
    assert_eq!(back.vec[0].class_identity, "A");
    assert_eq!(back.vec[1].payload, vec![2]);
    // An empty trailing slot is remembered, not stored as a record.
    let mut with_hole = arr;
    with_hole.push(None);
    let holed = GdResVec::from_variant_array(&with_hole);
    assert_eq!(holed.len(), 2);
    assert!(holed.empty_last);
    let round = holed.as_variant_array();
    assert_eq!(round.len(), 3);
    assert!(round[2].is_none());
}
