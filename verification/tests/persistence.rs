use gd_props::errors::{GdError, GdPropError};
use gd_props::format::{GdPropFormat, GdResFormat};
use gd_props::gd_meta::GdMetaHeader;
use gd_props::gdprop::{load_bin, load_ron, save_bin, save_ron, translate_ron_to_bin, ResourceRecord};
use gd_props::gdprop_io::{_int_get_type, _int_get_uid, _int_load_file, _int_save_to_file, _int_set_uid};
use gd_props::host::ResourceHost;
use gd_props::uid::{id_to_text, text_to_id, INVALID_UID};
use gd_props::GdSerdeResource;

fn record(class: &str, payload: &[u8]) -> ResourceRecord {
    ResourceRecord {
        class_identity: class.to_string(),
        payload: payload.to_vec(),
    }
}

struct TestStruct {}

impl GdSerdeResource for TestStruct {
    fn get_ident(&self) -> String {
        "TestStruct".to_string()
    }
}

#[test]
fn serde_resource_trait_can_be_implemented() {
    let value = TestStruct {};
    assert_eq!(value.get_ident(), "TestStruct");
}

#[test]
fn recognize_format_classifies_by_suffix() {
    assert_eq!(GdPropFormat::recognize_format("res://a.gdbin"), GdPropFormat::GdBin);
    assert_eq!(GdPropFormat::recognize_format("res://a.gdron"), GdPropFormat::GdRon);
    assert_eq!(GdPropFormat::recognize_format("res://a.tres"), GdPropFormat::Unrecognized);
    assert_eq!(GdPropFormat::recognize_format(""), GdPropFormat::Unrecognized);
    assert_eq!(GdPropFormat::recognize_format("a.GDBIN"), GdPropFormat::Unrecognized);
    assert_eq!(GdResFormat::recognize_format("x.gdbin"), GdResFormat::GdBin);
    assert_eq!(GdResFormat::recognize_format("x.gdron"), GdResFormat::GdRon);
    assert_eq!(GdResFormat::recognize_format("x.dat"), GdResFormat::Unrecognized);
}

#[test]
fn supported_extensions_list_both_formats() {
    let exts = GdPropFormat::get_supported_extensions();
    assert_eq!(exts.len(), 2);
    assert_eq!(exts[0], "gdbin");
    assert_eq!(exts[1], "gdron");
    let exts = GdResFormat::get_supported_extensions();
    assert_eq!(exts.len(), 2);
    assert_eq!(exts[0], "gdbin");
    assert_eq!(exts[1], "gdron");
}

#[test]
fn uid_text_round_trips() {
    assert_eq!(id_to_text(0), "uid://0");
    assert_eq!(id_to_text(42), "uid://42");
    assert_eq!(id_to_text(9007199254740993), "uid://9007199254740993");
    assert_eq!(id_to_text(-1), "uid://<invalid>");
    assert_eq!(text_to_id("uid://0"), 0);
    assert_eq!(text_to_id("uid://42"), 42);
    assert_eq!(text_to_id("uid://9007199254740993"), 9007199254740993);
    assert_eq!(text_to_id("uid://<invalid>"), INVALID_UID);
    assert_eq!(text_to_id("uid://"), -1);
    assert_eq!(text_to_id("uid://12x"), -1);
    assert_eq!(text_to_id("res://a.gdron"), -1);
    assert_eq!(text_to_id(""), -1);
    assert_eq!(text_to_id("uid://99999999999999999999999999"), -1);
}

#[test]
fn gdbin_header_boundary_is_exact() {
    let meta = GdMetaHeader {
        gd_class: "MyResource".to_string(),
        uid: "uid://77".to_string(),
    };
    let mut bytes = meta.write_to_gdbin_header();
    let header_len = bytes.len();
    bytes.extend_from_slice(&[9u8, 8, 7, 6]);
    let (parsed, offset) = GdMetaHeader::read_from_gdbin_header(&bytes).unwrap();
    assert_eq!(parsed.gd_class, "MyResource");
    assert_eq!(parsed.uid, "uid://77");
    assert_eq!(offset, header_len);
    assert_eq!(&bytes[offset..], &[9u8, 8, 7, 6]);
}

#[test]
fn gdbin_header_carries_any_unicode() {
    let meta = GdMetaHeader {
        gd_class: "Caf\u{e9}Resource".to_string(),
        uid: "uid://1".to_string(),
    };
    let bytes = meta.write_to_gdbin_header();
    let (parsed, _) = GdMetaHeader::read_from_gdbin_header(&bytes).unwrap();
    assert_eq!(parsed.gd_class, "Caf\u{e9}Resource");
}

#[test]
fn gdbin_header_rejects_truncation_and_bad_utf8() {
    assert_eq!(
        GdMetaHeader::read_from_gdbin_header(&vec![4u8, 0, 0]),
        Err(GdPropError::HeaderDeserialize)
    );
    // A length prefix of 2 followed by an invalid UTF-8 sequence.
    let bad = vec![2u8, 0, 0, 0, 0xff, 0xfe, 1, 0, 0, 0, b'u'];
    assert_eq!(
        GdMetaHeader::read_from_gdbin_header(&bad),
        Err(GdPropError::HeaderDeserialize)
    );
}

#[test]
fn gdron_header_line_has_expected_shape() {
    let meta = GdMetaHeader {
        gd_class: "MyResource".to_string(),
        uid: "uid://7".to_string(),
    };
    let line = meta.write_to_gdron_header().unwrap();
    assert_eq!(line, "(gd_class:\"MyResource\",uid:\"uid://7\")");
    let parsed = GdMetaHeader::read_from_gdron_header(&line).unwrap();
    assert_eq!(parsed.gd_class, "MyResource");
    assert_eq!(parsed.uid, "uid://7");
}

#[test]
fn gdron_header_rejects_unwritable_fields() {
    let quoted = GdMetaHeader {
        gd_class: "My\"Resource".to_string(),
        uid: "uid://7".to_string(),
    };
    assert_eq!(quoted.write_to_gdron_header(), Err(GdPropError::HeaderSerialize));
    let accented = GdMetaHeader {
        gd_class: "Caf\u{e9}".to_string(),
        uid: "uid://7".to_string(),
    };
    assert_eq!(accented.write_to_gdron_header(), Err(GdPropError::HeaderSerialize));
}

#[test]
fn gdron_header_rejects_malformed_lines() {
    for line in [
        "",
        "(gd_class:\"A\",uid:\"uid://1\"",
        "gd_class:\"A\",uid:\"uid://1\")",
        "(gd_class:\"A\")",
        "(gd_class:\"A\",uid:\"uid://1\")x",
    ] {
        assert_eq!(
            GdMetaHeader::read_from_gdron_header(line),
            Err(GdPropError::HeaderDeserialize)
        );
    }
}

#[test]
fn gdron_file_boundary_is_exact() {
    let meta = GdMetaHeader {
        gd_class: "A".to_string(),
        uid: "uid://3".to_string(),
    };
    let mut bytes = meta.to_gfile_ron().unwrap();
    let header_len = bytes.len();
    bytes.extend_from_slice(b"(value:1)\n");
    let (parsed, offset) = GdMetaHeader::from_gfile_ron(&bytes).unwrap();
    assert_eq!(parsed.gd_class, "A");
    assert_eq!(parsed.uid, "uid://3");
    assert_eq!(offset, header_len);
    assert_eq!(&bytes[offset..], b"(value:1)\n");
}

#[test]
fn save_load_round_trip_bin() {
    let mut host = ResourceHost::new();
    let path = "res://thing.gdbin".to_string();
    let rec = record("Thing", &[1, 2, 3, 250]);
    save_bin(&rec, &path, &mut host).unwrap();
    let loaded = load_bin(&path, &"Thing".to_string(), &mut host).unwrap();
    assert_eq!(loaded.class_identity, "Thing");
    assert_eq!(loaded.payload, vec![1, 2, 3, 250]);
}

#[test]
fn save_load_round_trip_ron() {
    let mut host = ResourceHost::new();
    let path = "res://thing.gdron".to_string();
    let rec = record("Thing", b"(hp:7,name:\"grog\")");
    save_ron(&rec, &path, &mut host).unwrap();
    let loaded = load_ron(&path, &"Thing".to_string(), &mut host).unwrap();
    assert_eq!(loaded.class_identity, "Thing");
    assert_eq!(loaded.payload, b"(hp:7,name:\"grog\")".to_vec());
}

#[test]
fn save_to_file_dispatches_on_extension() {
    let mut host = ResourceHost::new();
    let rec = record("Thing", &[5]);
    _int_save_to_file(&rec, &"res://a.gdbin".to_string(), &mut host).unwrap();
    _int_save_to_file(&rec, &"res://a.gdron".to_string(), &mut host).unwrap();
    assert_eq!(
        _int_save_to_file(&rec, &"res://a.tres".to_string(), &mut host),
        Err(GdError::Unconfigured)
    );
    let bin = _int_load_file(&"res://a.gdbin".to_string(), &"Thing".to_string(), &mut host).unwrap();
    let ron = _int_load_file(&"res://a.gdron".to_string(), &"Thing".to_string(), &mut host).unwrap();
    assert_eq!(bin.payload, vec![5]);
    assert_eq!(ron.payload, vec![5]);
    assert_eq!(
        _int_load_file(&"res://a.tres".to_string(), &"Thing".to_string(), &mut host),
        Err(GdError::FileUnrecognized)
    );
}

#[test]
fn uid_is_stable_across_resaves() {
    let mut host = ResourceHost::new();
    let path = "res://x.gdbin".to_string();
    save_bin(&record("Thing", &[1]), &path, &mut host).unwrap();
    let u1 = _int_get_uid(&path, &host).unwrap();
    assert!(u1 >= 0);
    save_bin(&record("Thing", &[9, 9, 9, 9]), &path, &mut host).unwrap();
    let u2 = _int_get_uid(&path, &host).unwrap();
    assert_eq!(u1, u2);
    // The same stability holds for the text container.
    let tpath = "res://x.gdron".to_string();
    save_ron(&record("Thing", b"alpha"), &tpath, &mut host).unwrap();
    let t1 = _int_get_uid(&tpath, &host).unwrap();
    save_ron(&record("Thing", b"a rather longer beta"), &tpath, &mut host).unwrap();
    let t2 = _int_get_uid(&tpath, &host).unwrap();
    assert_eq!(t1, t2);
}

#[test]
fn uid_collision_is_rejected_until_removed() {
    let mut host = ResourceHost::new();
    let p1 = "res://p1.gdbin".to_string();
    let p2 = "res://p2.gdbin".to_string();
    save_bin(&record("A", &[1]), &p1, &mut host).unwrap();
    save_bin(&record("B", &[2]), &p2, &mut host).unwrap();
    let u1 = _int_get_uid(&p1, &host).unwrap();
    assert_eq!(
        _int_set_uid(&p2, u1, &mut host),
        Err(GdError::AlreadyExists)
    );
    host.registry.remove_id(u1);
    _int_set_uid(&p2, u1, &mut host).unwrap();
    assert_eq!(_int_get_uid(&p2, &host).unwrap(), u1);
    assert_eq!(host.registry.get_id_path(u1), p2);
}

#[test]
fn set_uid_keeps_payload_and_class() {
    let mut host = ResourceHost::new();
    let path = "res://keep.gdron".to_string();
    save_ron(&record("Keep", b"payload stays"), &path, &mut host).unwrap();
    host.registry.create_id();
    let fresh = host.registry.create_id();
    _int_set_uid(&path, fresh, &mut host).unwrap();
    assert_eq!(_int_get_uid(&path, &host).unwrap(), fresh);
    assert_eq!(_int_get_type(&path, &host).unwrap(), "Keep");
    let loaded = load_ron(&path, &"Keep".to_string(), &mut host).unwrap();
    assert_eq!(loaded.payload, b"payload stays".to_vec());
}

#[test]
fn load_self_heals_a_wiped_registry() {
    let mut host = ResourceHost::new();
    let path = "res://heal.gdbin".to_string();
    save_bin(&record("Thing", &[3]), &path, &mut host).unwrap();
    let uid = _int_get_uid(&path, &host).unwrap();
    host.registry.remove_id(uid);
    assert!(!host.registry.has_id(uid));
    load_bin(&path, &"Thing".to_string(), &mut host).unwrap();
    assert!(host.registry.has_id(uid));
    assert_eq!(host.registry.get_id_path(uid), path);
}

#[test]
fn load_errors_name_the_failure() {
    let mut host = ResourceHost::new();
    let missing = "res://missing.gdbin".to_string();
    assert_eq!(
        load_bin(&missing, &"Thing".to_string(), &mut host),
        Err(GdError::FileCantOpen)
    );
    let garbled = "res://garbled.gdbin".to_string();
    host.files.set_file(&garbled, vec![255, 255, 255]);
    assert_eq!(
        load_bin(&garbled, &"Thing".to_string(), &mut host),
        Err(GdError::FileCorrupt)
    );
    let path = "res://typed.gdbin".to_string();
    save_bin(&record("Right", &[1]), &path, &mut host).unwrap();
    assert_eq!(
        load_bin(&path, &"Wrong".to_string(), &mut host),
        Err(GdError::WrongType)
    );
}

#[test]
fn locked_destination_fails_without_commit() {
    let mut host = ResourceHost::new();
    let path = "res://locked.gdbin".to_string();
    host.lock_path(path.clone());
    let before = host.registry.entries.len();
    assert_eq!(
        save_bin(&record("Thing", &[1]), &path, &mut host),
        Err(GdError::FileCantWrite)
    );
    assert_eq!(host.registry.entries.len(), before);
    assert!(!host.files.has_file(&path));
    assert_eq!(
        load_bin(&path, &"Thing".to_string(), &mut host),
        Err(GdError::FileCantOpen)
    );
}

#[test]
fn get_uid_and_type_read_only_the_header() {
    let mut host = ResourceHost::new();
    let path = "res://peek.gdron".to_string();
    save_ron(&record("Peeked", b"data"), &path, &mut host).unwrap();
    assert_eq!(_int_get_type(&path, &host).unwrap(), "Peeked");
    assert!(_int_get_uid(&path, &host).unwrap() >= 0);
    assert_eq!(
        _int_get_uid(&"res://nope.tres".to_string(), &host),
        Err(GdPropError::OpenFileRead)
    );
    assert_eq!(
        _int_get_type(&"res://gone.gdron".to_string(), &host),
        Err(GdPropError::OpenFileRead)
    );
}

#[test]
fn translate_keeps_class_uid_and_payload() {
    let mut host = ResourceHost::new();
    let ron = "res://t.gdron".to_string();
    save_ron(&record("Moved", b"the payload"), &ron, &mut host).unwrap();
    let uid_text = {
        let uid = _int_get_uid(&ron, &host).unwrap();
        id_to_text(uid)
    };
    let bytes = translate_ron_to_bin(&ron, &host);
    let (meta, offset) = GdMetaHeader::read_from_gdbin_header(&bytes).unwrap();
    assert_eq!(meta.gd_class, "Moved");
    assert_eq!(meta.uid, uid_text);
    assert_eq!(&bytes[offset..], b"the payload");
}

#[test]
fn error_messages_are_stable() {
    assert_eq!(GdError::CantResolve.message(), "cannot load resource");
    assert_eq!(GdError::NoMeta.message(), "no meta found");
    assert_eq!(GdPropError::OpenFileRead.message(), "can't open file for reading");
    assert_eq!(GdPropError::HeaderSerialize.message(), "can't serialize header");
}
