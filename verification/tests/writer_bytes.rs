//! The archive writer: exact wire bytes, offset monotonicity, reference
//! errors, and the empty-archive layout.
use diar::errors::{ensure, error, Error, ErrorContents};
use diar::object_io::DiarIo;
use diar::objects::{
    DiarObject, DirectoryEntry, Metadata, MetadataTag, ObjArchive, ObjBlobPlain, ObjDirectory,
    ObjFilterZstd, ObjMetadata, ObjRoot, ObjectId, ObjectType,
};

fn filter_obj(dict_sources: Vec<ObjectId>) -> DiarObject {
    DiarObject::FilterZstd(ObjFilterZstd { dict_sources })
}

#[test]
fn empty_filter_is_tag_and_terminator() {
    let mut w = DiarIo::create();
    let id = w.write_object(&filter_obj(Vec::new())).expect("writes");
    assert_eq!(id.id, 1);
    assert_eq!(w.into_archive(), b"DiarArc1\x20\x00".to_vec());
}

#[test]
fn blob_payload_precedes_its_header() {
    let mut w = DiarIo::create();
    let filter = w.write_object(&filter_obj(Vec::new())).expect("writes");
    let blob = w
        .write_object_with_data(
            &DiarObject::BlobPlain(ObjBlobPlain { filters: vec![filter] }),
            b"PAYLOAD",
        )
        .expect("writes");
    assert_eq!(blob.id, 2);
    // Filter at offset 0, payload, then the blob header: tag 0, the
    // filter's offset 0, terminator.
    let mut want = b"DiarArc1".to_vec();
    want.extend_from_slice(b"\x20\x00");
    want.extend_from_slice(b"PAYLOAD");
    want.extend_from_slice(b"\x00\x00\x00");
    assert_eq!(w.into_archive(), want);
}

#[test]
fn directory_lists_entries_with_names() {
    let mut w = DiarIo::create();
    let filter = w.write_object(&filter_obj(Vec::new())).expect("writes");
    let blob = w
        .write_object_with_data(&DiarObject::BlobPlain(ObjBlobPlain { filters: vec![filter] }), b"x")
        .expect("writes");
    let dir = w
        .write_object(
            &DiarObject::Directory(ObjDirectory {
                entries: vec![DirectoryEntry {
                    name: "a.txt".to_string(),
                    data: blob,
                    metadata: ObjectId::none(),
                }],
            }),
        )
        .expect("writes");
    assert_eq!(dir.id, 3);
    let bytes = w.into_archive();
    // After the magic: filter [0x20 0x00], payload "x", blob header
    // [0x00 0x00 0x00] at offset 3, then the directory: tag 1, data ref 3,
    // metadata ref 0, name, terminator 0.
    let mut want = b"DiarArc1\x20\x00x\x00\x00\x00".to_vec();
    want.extend_from_slice(&[0x01, 0x03, 0x00, 0x05]);
    want.extend_from_slice(b"a.txt");
    want.push(0x00);
    assert_eq!(bytes, want);
}

#[test]
fn metadata_table_is_tagged_and_ends_with_end_tag() {
    let mut w = DiarIo::create();
    w.write_object(
        &DiarObject::Metadata(ObjMetadata {
            metadata: vec![
                (MetadataTag::ZstdPreloadList, Metadata::VarUInt(5)),
                (MetadataTag::EntryArchive, Metadata::VarInt(-1)),
            ],
        }),
    )
    .expect("writes");
    // Tag 2; key 0x40, value kind 1 (VarUInt), 5; key 0x41, value kind 0
    // (VarInt), zig-zag of -1 = 1; end tag 0x7F.
    assert_eq!(w.into_archive(), b"DiarArc1\x02\x40\x01\x05\x41\x00\x01\x7F".to_vec());
}

#[test]
fn offsets_strictly_increase_across_writes() {
    let mut w = DiarIo::create();
    let a = w.write_object(&filter_obj(Vec::new())).expect("writes");
    let b = w.write_object(&filter_obj(vec![a])).expect("writes");
    let c = w
        .write_object_with_data(&DiarObject::BlobPlain(ObjBlobPlain { filters: vec![b] }), b"abc")
        .expect("writes");
    let d = w.write_object(&DiarObject::Archive(ObjArchive { root: c, metadata: Vec::new() }))
        .expect("writes");
    let offs: Vec<u64> = [a, b, c, d]
        .iter()
        .map(|id| w.get_object_offset(*id).expect("issued"))
        .collect();
    assert!(offs[0] < offs[1] && offs[1] < offs[2] && offs[2] < offs[3]);
}

#[test]
fn unissued_reference_is_refused_and_nothing_is_written() {
    let mut w = DiarIo::create();
    let bogus = ObjectId { id: 7 };
    let r = w.write_object(&filter_obj(vec![bogus]));
    match r {
        Err(Error(ErrorContents::ObjectIdError(id))) => assert_eq!(id.id, 7),
        _ => panic!("expected an object id error"),
    }
    assert_eq!(w.into_archive(), b"DiarArc1".to_vec());
}

#[test]
fn payload_on_a_non_blob_object_is_an_internal_error() {
    let mut w = DiarIo::create();
    let r = w.write_object_with_data(&filter_obj(Vec::new()), b"data");
    match r {
        Err(Error(ErrorContents::InternalError(_))) => {},
        _ => panic!("expected an internal error"),
    }
}

#[test]
fn early_end_tag_is_an_internal_error() {
    let mut w = DiarIo::create();
    let r = w.write_object(
        &DiarObject::Metadata(ObjMetadata {
            metadata: vec![(MetadataTag::EndTag, Metadata::VarUInt(1))],
        }),
    );
    match r {
        Err(Error(ErrorContents::InternalError(_))) => {},
        _ => panic!("expected an internal error"),
    }
}

#[test]
fn preload_list_carries_its_own_tag() {
    let mut w = DiarIo::create();
    let a = w.write_object(&filter_obj(Vec::new())).expect("writes");
    w.write_object(&DiarObject::ZstdPreloadList(diar::objects::ObjZstdPreloadList {
        list: vec![a],
    }))
    .expect("writes");
    // Preload lists are tagged 0x40, distinct from the filter tag 0x20.
    let mut want = b"DiarArc1".to_vec();
    want.extend_from_slice(&[0x20, 0x00, 0x40, 0x00, 0x00]);
    assert_eq!(w.into_archive(), want);
}

#[test]
fn metadata_values_carry_reference_and_string_kinds() {
    let mut w = DiarIo::create();
    let a = w.write_object(&filter_obj(Vec::new())).expect("writes");
    w.write_object(
        &DiarObject::Metadata(ObjMetadata {
            metadata: vec![
                (MetadataTag::ZstdPreloadList, Metadata::ObjectRef(a)),
                (MetadataTag::EntryArchive, Metadata::String("hi".to_string())),
            ],
        }),
    )
    .expect("writes");
    // Key 0x40, value kind 2 (reference) to offset 0; key 0x41, value kind
    // 3 (string), length 2, bytes; end tag.
    let mut want = b"DiarArc1".to_vec();
    want.extend_from_slice(&[0x20, 0x00, 0x02, 0x40, 0x02, 0x00, 0x41, 0x03, 0x02]);
    want.extend_from_slice(b"hi");
    want.push(0x7F);
    assert_eq!(w.into_archive(), want);
}

#[test]
fn finish_writes_the_trailer() {
    let mut w = DiarIo::create();
    let root = w
        .write_object(
            &DiarObject::Root(ObjRoot {
                main: ObjectId::none(),
                alt: Vec::new(),
                metadata: Vec::new(),
            }),
        )
        .expect("writes");
    w.finish(root).expect("finishes");
    let mut want = b"DiarArc1\x04\x00\x00\x7F".to_vec();
    want.extend_from_slice(b"DiarEnd1");
    want.extend_from_slice(&4u64.to_le_bytes());
    want.extend_from_slice(&0u64.to_le_bytes());
    assert_eq!(w.into_archive(), want);
}

#[test]
fn ensure_and_error_report_internal_failures() {
    assert!(ensure(true, "fine").is_ok());
    match ensure(false, "broken") {
        Err(Error(ErrorContents::InternalError(msg))) => assert_eq!(msg, "broken"),
        _ => panic!("expected an internal error"),
    }
    match error::<()>("nope") {
        Err(Error(ErrorContents::InternalError(msg))) => assert_eq!(msg, "nope"),
        _ => panic!("expected an internal error"),
    }
}

#[test]
fn object_type_tags_match_the_wire_format() {
    assert_eq!(ObjectType::BlobPlain.tag(), 0);
    assert_eq!(ObjectType::Directory.tag(), 1);
    assert_eq!(ObjectType::Metadata.tag(), 2);
    assert_eq!(ObjectType::Archive.tag(), 3);
    assert_eq!(ObjectType::Root.tag(), 4);
    assert_eq!(ObjectType::FilterZstd.tag(), 0x20);
    assert_eq!(ObjectType::ZstdPreloadList.tag(), 0x40);
    assert_eq!(MetadataTag::EndTag.tag(), 0x7F);
}
