//! The compress driver: mines a dictionary over the whole tree, writes it
//! as a compressed blob behind a plain zstd filter, then writes every file
//! as a blob compressed against that dictionary, the directories over them,
//! and finally the archive, root and trailer.
use crate::dir_tree::{DirNode, DirNodeData};
use crate::errors::{Error, ErrorContents, ErrorKind};
use crate::miner::{all_in_memory, entries_in_memory, BuildSamples, BuildSamplesConfiguration};
use crate::object_io::{
    arc_magic, enc_alts, enc_entries, enc_meta_table, enc_ref, enc_ref_list, end_magic, id_valid,
    DiarIo,
};
use crate::varint::varuint_bytes;
use crate::objects::{
    DiarObject, DirectoryEntry, ObjArchive, ObjBlobPlain, ObjDirectory, ObjFilterZstd, ObjRoot,
    ObjectId,
};
use vstd::bytes::spec_u64_to_le_bytes;
use vstd::prelude::*;

verus! {

/// The compression level for file data.
pub const LEVEL: i32 = 6;

/// The compression level for the dictionary blob itself.
pub const DICT_LEVEL: i32 = 15;

/// The zstd frame that compressing `data` against `dict` at `level`, with
/// the driver's fixed parameters, produces: a function of those alone.
pub uninterp spec fn zstd_frame(data: Seq<u8>, dict: Seq<u8>, level: i32) -> Seq<u8>;

/// Relies on zstd::bulk::Compressor: single-frame compression with a
/// preloaded dictionary, a window log of 30, dedicated dictionary search
/// and content checksums on. The hash-table size is left at the level's
/// default: pinning its log at the window's would demand a table beyond
/// this target's memory. The frame is a function of the input, the
/// dictionary and the level; failures are carried as messages.
#[verifier::external_body]
fn zstd_compress(data: &[u8], dict: &[u8], level: i32) -> (r: Result<Vec<u8>, Error>)
    ensures
        r matches Ok(c) ==> c@ == zstd_frame(data@, dict@, level),
        r matches Err(e) ==> e.0 is Kind,
{
    let run = || -> std::io::Result<Vec<u8>> {
        let mut c = zstd::bulk::Compressor::with_dictionary(level, dict)?;
        c.set_parameter(zstd::zstd_safe::CParameter::WindowLog(30))?;
        c.set_parameter(zstd::zstd_safe::CParameter::EnableDedicatedDictSearch(true))?;
        c.set_parameter(zstd::zstd_safe::CParameter::ChecksumFlag(true))?;
        c.compress(data)
    };
    run().map_err(|e| Error(ErrorContents::Kind(ErrorKind::IoError(e.to_string()))))
}

/// The bytes a source holds in memory; a path-backed source holds none
/// here, and the writer refuses it before this matters.
pub open spec fn source_bytes(contents: crate::dir_tree::DataSource) -> Seq<u8> {
    match contents {
        crate::dir_tree::DataSource::Data { data, .. } => data@,
        crate::dir_tree::DataSource::Path { .. } => Seq::empty(),
    }
}

/// The writer state `(bytes, offsets)` after the subtree under `node` is
/// written: a file appends its compressed frame and blob header, a
/// directory appends its children and then its entry list. The subtree's
/// root object is the last one written.
pub open spec fn write_tree_spec(
    node: DirNode,
    b: Seq<u8>,
    offs: Seq<u64>,
    filter: ObjectId,
    dict: Seq<u8>,
) -> (Seq<u8>, Seq<u64>)
    decreases node,
{
    match node.data {
        DirNodeData::FileNode { contents } => {
            let frame = zstd_frame(source_bytes(contents), dict, LEVEL);
            (
                b + frame + varuint_bytes(0) + enc_ref_list(offs, seq![filter]),
                offs.push((b.len() + frame.len()) as u64),
            )
        },
        DirNodeData::DirNode { contents } => {
            let (b2, o2, es) = write_children_spec(contents@, b, offs, filter, dict);
            (
                b2 + varuint_bytes(1) + enc_entries(o2, es) + varuint_bytes(0),
                o2.push(b2.len() as u64),
            )
        },
    }
}

/// The writer state and directory entries after every child is written, in
/// entry order: each child's subtree first, then an entry naming it with
/// its root object and no metadata.
pub open spec fn write_children_spec(
    entries: Seq<(String, DirNode)>,
    b: Seq<u8>,
    offs: Seq<u64>,
    filter: ObjectId,
    dict: Seq<u8>,
) -> (Seq<u8>, Seq<u64>, Seq<DirectoryEntry>)
    decreases entries,
{
    if entries.len() == 0 {
        (b, offs, Seq::empty())
    } else {
        let (b1, o1, es1) = write_children_spec(entries.drop_last(), b, offs, filter, dict);
        let (b2, o2) = write_tree_spec(entries.last().1, b1, o1, filter, dict);
        (
            b2,
            o2,
            es1.push(
                DirectoryEntry {
                    name: entries.last().0,
                    data: ObjectId { id: o2.len() as u64 },
                    metadata: ObjectId { id: 0 },
                },
            ),
        )
    }
}

/// The whole object region of an archive over a tree with files, and the
/// offset of its root object: the plain zstd filter, the dictionary's
/// compressed blob behind it, the dictionary-using filter, the tree, the
/// archive object and the root object, in that order. The plain filter
/// sits at offset 0, so on the wire a reference to it reads the same as
/// the "no object" sentinel; readers driven by the object graph never
/// follow a blob's filter list as a plain offset, so the ambiguity is
/// harmless, but it is part of the format as it stands.
pub open spec fn spec_archive_parts(tree: DirNode, dict: Seq<u8>) -> (Seq<u8>, nat) {
    let b1 = varuint_bytes(0x20) + enc_ref_list(Seq::empty(), Seq::empty());
    let o1 = Seq::<u64>::empty().push(0);
    let frame = zstd_frame(dict, Seq::empty(), DICT_LEVEL);
    let b2 = b1 + frame + varuint_bytes(0) + enc_ref_list(o1, seq![ObjectId { id: 1 }]);
    let o2 = o1.push((b1.len() + frame.len()) as u64);
    let b3 = b2 + varuint_bytes(0x20) + enc_ref_list(o2, seq![ObjectId { id: 2 }]);
    let o3 = o2.push(b2.len() as u64);
    let (b4, o4) = write_tree_spec(tree, b3, o3, ObjectId { id: 3 }, dict);
    let b5 = b4 + varuint_bytes(3) + enc_ref(o4, ObjectId { id: o4.len() as u64 })
        + enc_meta_table(o4, Seq::empty());
    let o5 = o4.push(b4.len() as u64);
    let b6 = b5 + varuint_bytes(4) + enc_ref(o5, ObjectId { id: o5.len() as u64 }) + enc_alts(
        o5,
        Seq::empty(),
    ) + varuint_bytes(0) + enc_meta_table(o5, Seq::empty());
    (b6, b5.len())
}

/// True when the tree holds at least one file.
pub open spec fn has_files(node: DirNode) -> bool
    decreases node,
{
    match node.data {
        DirNodeData::FileNode { .. } => true,
        DirNodeData::DirNode { contents } => entries_have_files(contents@),
    }
}

/// True when some entry's subtree holds a file.
pub open spec fn entries_have_files(entries: Seq<(String, DirNode)>) -> bool
    decreases entries,
{
    exists|i: int| 0 <= i < entries.len() && has_files((#[trigger] entries[i]).1)
}

/// Reports whether the tree holds at least one file.
pub fn tree_has_files(node: &DirNode) -> (r: bool)
    ensures
        r == has_files(*node),
    decreases *node,
{
    match &node.data {
        DirNodeData::FileNode { .. } => true,
        DirNodeData::DirNode { contents } => {
            let mut i: usize = 0;
            while i < contents.len()
                invariant
                    i <= contents@.len(),
                    node.data == (DirNodeData::DirNode { contents: *contents }),
                    forall|k: int| 0 <= k < i ==> !has_files((#[trigger] contents@[k]).1),
                decreases contents@.len() - i,
            {
                proof {
                    assert(node.data == (DirNodeData::DirNode { contents: *contents }));
                    assert(decreases_to!(*node => node.data));
                    assert(decreases_to!(node.data => node.data->DirNode_contents));
                    assert(node.data->DirNode_contents == *contents);
                    assert(decreases_to!(*contents => contents@));
                    assert(decreases_to!(contents@ => contents@[i as int]));
                    assert(decreases_to!(contents@[i as int] => contents@[i as int].1));
                }
                if tree_has_files(&contents[i].1) {
                    proof {
                        assert(entries_have_files(contents@));
                    }
                    return true;
                }
                i = i + 1;
            }
            proof {
                assert(!entries_have_files(contents@));
            }
            false
        },
    }
}

/// Writes one compressed blob: the zstd frame of `data` against `dict` as
/// the raw payload, then the blob header carrying the filter reference.
fn write_compressed_blob(
    target: &mut DiarIo,
    data: &[u8],
    dict: &[u8],
    level: i32,
    filter: ObjectId,
) -> (r: Result<ObjectId, Error>)
    requires
        old(target).wf(),
        id_valid(old(target).offsets().len(), filter),
    ensures
        final(target).wf(),
        final(target).offsets().len() >= old(target).offsets().len(),
        match r {
            Ok(id) => {
                &&& id.id == old(target).offsets().len() + 1
                &&& final(target).offsets().len() == old(target).offsets().len() + 1
                &&& id_valid(final(target).offsets().len(), id)
                &&& final(target).bytes() == old(target).bytes() + zstd_frame(
                    data@,
                    dict@,
                    level,
                ) + varuint_bytes(0) + enc_ref_list(old(target).offsets(), seq![filter])
                &&& final(target).offsets() == old(target).offsets().push(
                    (old(target).bytes().len() + zstd_frame(data@, dict@, level).len()) as u64,
                )
            },
            Err(e) => e.0 is Kind && *final(target) == *old(target),
        },
{
    let frame: Vec<u8> = match zstd_compress(data, dict, level) {
        Ok(f) => f,
        Err(e) => {
            return Err(e);
        },
    };
    let mut filters: Vec<ObjectId> = Vec::new();
    filters.push(filter);
    proof {
        assert(filters@ =~= seq![filter]);
    }
    let obj = DiarObject::BlobPlain(ObjBlobPlain { filters });
    match target.write_object_with_data(&obj, frame.as_slice()) {
        Ok(id) => {
            proof {
                assert(target.bytes() =~= old(target).bytes() + zstd_frame(data@, dict@, level)
                    + varuint_bytes(0) + enc_ref_list(old(target).offsets(), seq![filter]));
            }
            Ok(id)
        },
        Err(_) => {
            proof {
                assert(false);
            }
            Err(Error(ErrorContents::InternalError("blob refused")))
        },
    }
}

/// Writes the subtree under `node`: every file as a blob compressed against
/// the dictionary and filtered by `filter`, every directory as the list of
/// its children. Succeeds exactly when every file is in memory and the
/// codec accepts every file; the returned reference is the subtree's root
/// object.
fn write_dir(
    target: &mut DiarIo,
    node: &DirNode,
    filter: ObjectId,
    dict: &[u8],
) -> (r: Result<ObjectId, Error>)
    requires
        old(target).wf(),
        id_valid(old(target).offsets().len(), filter),
    ensures
        final(target).wf(),
        final(target).offsets().len() >= old(target).offsets().len(),
        match r {
            Ok(id) => {
                &&& id.id >= 1 && id_valid(final(target).offsets().len(), id)
                &&& id.id == final(target).offsets().len()
                &&& (final(target).bytes(), final(target).offsets()) == write_tree_spec(
                    *node,
                    old(target).bytes(),
                    old(target).offsets(),
                    filter,
                    dict@,
                )
            },
            Err(e) => e.0 is Kind,
        },
    decreases *node,
{
    match &node.data {
        DirNodeData::FileNode { contents } => {
            let mut data: Vec<u8> = Vec::new();
            match contents.push_to_vec(&mut data) {
                Ok(()) => {},
                Err(e) => {
                    return Err(e);
                },
            }
            proof {
                assert(data@ == source_bytes(*contents));
            }
            let blob = write_compressed_blob(target, data.as_slice(), dict, LEVEL, filter);
            match blob {
                Ok(id) => {
                    proof {
                        assert(target.bytes() =~= write_tree_spec(
                            *node,
                            old(target).bytes(),
                            old(target).offsets(),
                            filter,
                            dict@,
                        ).0);
                        assert(target.offsets() =~= write_tree_spec(
                            *node,
                            old(target).bytes(),
                            old(target).offsets(),
                            filter,
                            dict@,
                        ).1);
                    }
                    Ok(id)
                },
                Err(e) => Err(e),
            }
        },
        DirNodeData::DirNode { contents } => {
            let ghost b0 = old(target).bytes();
            let ghost o0 = old(target).offsets();
            let mut entries: Vec<DirectoryEntry> = Vec::new();
            let mut i: usize = 0;
            while i < contents.len()
                invariant
                    i <= contents@.len(),
                    node.data == (DirNodeData::DirNode { contents: *contents }),
                    b0 == old(target).bytes(),
                    o0 == old(target).offsets(),
                    target.wf(),
                    id_valid(target.offsets().len(), filter),
                    target.offsets().len() >= old(target).offsets().len(),
                    target.bytes() == write_children_spec(
                        contents@.take(i as int),
                        b0,
                        o0,
                        filter,
                        dict@,
                    ).0,
                    target.offsets() == write_children_spec(
                        contents@.take(i as int),
                        b0,
                        o0,
                        filter,
                        dict@,
                    ).1,
                    entries@ == write_children_spec(
                        contents@.take(i as int),
                        b0,
                        o0,
                        filter,
                        dict@,
                    ).2,
                    forall|k: int|
                        0 <= k < entries@.len() ==> id_valid(
                            target.offsets().len(),
                            (#[trigger] entries@[k]).data,
                        ) && id_valid(target.offsets().len(), entries@[k].metadata),
                decreases contents@.len() - i,
            {
                proof {
                    assert(decreases_to!(*node => node.data));
                    assert(decreases_to!(node.data => node.data->DirNode_contents));
                    assert(node.data->DirNode_contents == *contents);
                    assert(decreases_to!(*contents => contents@));
                    assert(decreases_to!(contents@ => contents@[i as int]));
                    assert(decreases_to!(contents@[i as int] => contents@[i as int].1));
                }
                let ghost pre_b = target.bytes();
                let ghost pre_o = target.offsets();
                let ghost pre_es = entries@;
                let id: ObjectId = match write_dir(target, &contents[i].1, filter, dict) {
                    Ok(id) => id,
                    Err(e) => {
                        return Err(e);
                    },
                };
                let name: String = contents[i].0.clone();
                proof {
                    assert(name == contents@[i as int].0);
                }
                entries.push(DirectoryEntry { name, data: id, metadata: ObjectId::none() });
                proof {
                    let step = write_children_spec(
                        contents@.take(i + 1),
                        b0,
                        o0,
                        filter,
                        dict@,
                    );
                    assert(contents@.take(i + 1).drop_last() =~= contents@.take(i as int));
                    assert(contents@.take(i + 1).last() == contents@[i as int]);
                    assert(target.bytes() =~= step.0);
                    assert(target.offsets() =~= step.1);
                    assert(entries@ =~= step.2);
                }
                i = i + 1;
            }
            proof {
                assert(contents@.take(contents@.len() as int) =~= contents@);
            }
            let obj = DiarObject::Directory(ObjDirectory { entries });
            match target.write_object(&obj) {
                Ok(id) => {
                    proof {
                        assert(node.data == (DirNodeData::DirNode { contents: *contents }));
                        let spec_result = write_tree_spec(*node, b0, o0, filter, dict@);
                        assert(target.bytes() =~= spec_result.0);
                        assert(target.offsets() =~= spec_result.1);
                    }
                    Ok(id)
                },
                Err(_) => {
                    proof {
                        assert(false);
                    }
                    Err(Error(ErrorContents::InternalError("directory refused")))
                },
            }
        },
    }
}

/// The whole archive is framed: the opening magic, the object region, the
/// trailer magic, the region's byte length, and a root offset strictly
/// inside the region, the two numbers as little-endian eight-byte words.
pub open spec fn well_framed(b: Seq<u8>) -> bool {
    &&& b.len() >= 32
    &&& b.take(8) == arc_magic()
    &&& b.subrange(b.len() - 24, b.len() - 16) == end_magic()
    &&& b.subrange(b.len() - 16, b.len() - 8) == spec_u64_to_le_bytes((b.len() - 32) as u64)
    &&& exists|off: u64|
        b.subrange(b.len() - 8, b.len() as int) == spec_u64_to_le_bytes(off) && off < b.len() - 32
}

/// Packs the directory tree into one archive and hands back its bytes.
///
/// A tree without files becomes the magic, a root object whose main
/// reference is the sentinel, and the trailer, exactly, whatever empty
/// directories it holds. Any other tree has
/// its dictionary mined, written as a blob behind a plain zstd filter, and
/// every file written as a blob compressed against it; success is owed
/// whenever every file's bytes are in memory and the codec and trainer
/// accept them, and every failure is theirs, or the I/O refusal of a
/// path-backed file.
pub fn compress(nodes: &DirNode, cfg: &BuildSamplesConfiguration) -> (r: Result<Vec<u8>, Error>)
    requires
        cfg.wf(),
    ensures
        r matches Ok(b) ==> well_framed(b@),
        r matches Ok(b) ==> all_in_memory(*nodes),
        !all_in_memory(*nodes) ==> r is Err,
        r matches Err(e) ==> e.0 is Kind,
        !has_files(*nodes) ==> (r matches Ok(b) && b@ == arc_magic() + empty_root_enc()
            + end_magic() + spec_u64_to_le_bytes(empty_root_enc().len() as u64)
            + spec_u64_to_le_bytes(0)),
        has_files(*nodes) && r is Ok ==> exists|dict: Seq<u8>|
            {
                &&& dict.len() <= cfg.dictionary_size
                &&& r->Ok_0@ == arc_magic() + (#[trigger] spec_archive_parts(*nodes, dict)).0
                    + end_magic() + spec_u64_to_le_bytes(
                    spec_archive_parts(*nodes, dict).0.len() as u64,
                ) + spec_u64_to_le_bytes(spec_archive_parts(*nodes, dict).1 as u64)
            },
{
    let writer = DiarIo::create();
    if !tree_has_files(nodes) {
        proof {
            lemma_no_files_in_memory(*nodes);
        }
        return finish_empty(writer);
    }
    let mut writer = writer;
    let ghost mut b1: Seq<u8> = Seq::empty();
    let ghost mut o1: Seq<u64> = Seq::empty();
    let ghost mut b2: Seq<u8> = Seq::empty();
    let ghost mut o2: Seq<u64> = Seq::empty();
    let ghost mut b3: Seq<u8> = Seq::empty();
    let ghost mut o3: Seq<u64> = Seq::empty();
    let mut samples = BuildSamples::new(cfg);
    match samples.add_nodes(nodes) {
        Ok(()) => {},
        Err(e) => {
            return Err(e);
        },
    }
    let dict: Vec<u8> = match samples.build_dictionary() {
        Ok(d) => d,
        Err(e) => {
            return Err(e);
        },
    };
    let plain_filter: ObjectId = match writer.write_object(
        &DiarObject::FilterZstd(ObjFilterZstd { dict_sources: Vec::new() }),
    ) {
        Ok(id) => id,
        Err(_) => {
            proof {
                assert(false);
            }
            return Err(Error(ErrorContents::InternalError("filter refused")));
        },
    };
    proof {
        b1 = varuint_bytes(0x20) + enc_ref_list(Seq::empty(), Seq::empty());
        o1 = Seq::<u64>::empty().push(0);
        assert(plain_filter == (ObjectId { id: 1 }));
        assert(writer.bytes() =~= b1);
        assert(writer.offsets() =~= o1);
    }
    let empty_dict: Vec<u8> = Vec::new();
    let dict_blob: ObjectId = match write_compressed_blob(
        &mut writer,
        dict.as_slice(),
        empty_dict.as_slice(),
        DICT_LEVEL,
        plain_filter,
    ) {
        Ok(id) => id,
        Err(e) => {
            return Err(e);
        },
    };
    proof {
        b2 = b1 + zstd_frame(dict@, Seq::empty(), DICT_LEVEL) + varuint_bytes(0) + enc_ref_list(
            o1,
            seq![ObjectId { id: 1 }],
        );
        o2 = o1.push((b1.len() + zstd_frame(dict@, Seq::empty(), DICT_LEVEL).len()) as u64);
        assert(dict_blob == (ObjectId { id: 2 }));
        assert(writer.bytes() =~= b2);
        assert(writer.offsets() =~= o2);
    }
    let mut dict_sources: Vec<ObjectId> = Vec::new();
    dict_sources.push(dict_blob);
    let dict_filter: ObjectId = match writer.write_object(
        &DiarObject::FilterZstd(ObjFilterZstd { dict_sources }),
    ) {
        Ok(id) => id,
        Err(_) => {
            proof {
                assert(false);
            }
            return Err(Error(ErrorContents::InternalError("filter refused")));
        },
    };
    proof {
        b3 = b2 + varuint_bytes(0x20) + enc_ref_list(o2, seq![ObjectId { id: 2 }]);
        o3 = o2.push(b2.len() as u64);
        assert(dict_filter == (ObjectId { id: 3 }));
        assert(writer.bytes() =~= b3);
        assert(writer.offsets() =~= o3);
    }
    let root_obj: ObjectId = match write_dir(&mut writer, nodes, dict_filter, dict.as_slice()) {
        Ok(id) => id,
        Err(e) => {
            return Err(e);
        },
    };
    let ghost b4 = write_tree_spec(*nodes, b3, o3, ObjectId { id: 3 }, dict@).0;
    let ghost o4 = write_tree_spec(*nodes, b3, o3, ObjectId { id: 3 }, dict@).1;
    proof {
        assert(writer.bytes() == b4);
        assert(writer.offsets() == o4);
        assert(root_obj == (ObjectId { id: o4.len() as u64 }));
    }
    let archive_obj: ObjectId = match writer.write_object(
        &DiarObject::Archive(ObjArchive { root: root_obj, metadata: Vec::new() }),
    ) {
        Ok(id) => id,
        Err(_) => {
            proof {
                assert(false);
            }
            return Err(Error(ErrorContents::InternalError("archive refused")));
        },
    };
    let root_id: ObjectId = match writer.write_object(
        &DiarObject::Root(ObjRoot { main: archive_obj, alt: Vec::new(), metadata: Vec::new() }),
    ) {
        Ok(id) => id,
        Err(_) => {
            proof {
                assert(false);
            }
            return Err(Error(ErrorContents::InternalError("root refused")));
        },
    };
    let ghost b5 = b4 + varuint_bytes(3) + enc_ref(o4, ObjectId { id: o4.len() as u64 })
        + enc_meta_table(o4, Seq::empty());
    let ghost o5 = o4.push(b4.len() as u64);
    let ghost b6 = b5 + varuint_bytes(4) + enc_ref(o5, ObjectId { id: o5.len() as u64 })
        + enc_alts(o5, Seq::empty()) + varuint_bytes(0) + enc_meta_table(o5, Seq::empty());
    proof {
        assert(archive_obj == (ObjectId { id: o5.len() as u64 }));
        assert(writer.bytes() =~= b6);
        assert(writer.offsets() =~= o5.push(b5.len() as u64));
        assert(spec_archive_parts(*nodes, dict@).0 =~= b6);
        assert(spec_archive_parts(*nodes, dict@).1 == b5.len());
        assert(crate::object_io::resolve(writer.offsets(), root_id) == ((b5.len() as u64) as nat));
    }
    let ghost body = writer.bytes();
    let ghost off_val = crate::object_io::resolve(writer.offsets(), root_id);
    proof {
        assert(off_val < body.len());
    }
    match writer.finish(root_id) {
        Ok(()) => {},
        Err(_) => {
            proof {
                assert(false);
            }
            return Err(Error(ErrorContents::InternalError("finish refused")));
        },
    }
    let archive: Vec<u8> = writer.into_archive();
    proof {
        assert(archive@ =~= arc_magic() + body + end_magic() + spec_u64_to_le_bytes(
            body.len() as u64,
        ) + spec_u64_to_le_bytes(off_val as u64));
        lemma_frame(archive@, body, off_val as u64);
        assert(off_val as u64 == spec_archive_parts(*nodes, dict@).1 as u64);
        assert(archive@ == arc_magic() + spec_archive_parts(*nodes, dict@).0 + end_magic()
            + spec_u64_to_le_bytes(spec_archive_parts(*nodes, dict@).0.len() as u64)
            + spec_u64_to_le_bytes(spec_archive_parts(*nodes, dict@).1 as u64));
        assert(dict@.len() <= cfg.dictionary_size);
    }
    Ok(archive)
}

/// The wire form of the root object of an archive with no files: the root
/// tag, the sentinel main reference, an empty alternate list, and an empty
/// metadata table.
pub open spec fn empty_root_enc() -> Seq<u8> {
    varuint_bytes(4) + varuint_bytes(0) + varuint_bytes(0) + varuint_bytes(0x7f)
}
/// Writes the empty archive: one root object whose main reference is the
/// sentinel, then the trailer.
fn finish_empty(writer_in: DiarIo) -> (r: Result<Vec<u8>, Error>)
    requires
        writer_in.wf(),
        writer_in.bytes() == Seq::<u8>::empty(),
        writer_in.offsets() == Seq::<u64>::empty(),
    ensures
        r is Ok,
        r matches Ok(b) ==> b@ == arc_magic() + empty_root_enc() + end_magic()
            + spec_u64_to_le_bytes(empty_root_enc().len() as u64) + spec_u64_to_le_bytes(0)
            && well_framed(b@),
{
    let mut writer = writer_in;
    let obj = DiarObject::Root(
        ObjRoot { main: ObjectId::none(), alt: Vec::new(), metadata: Vec::new() },
    );
    let root_id: ObjectId = match writer.write_object(&obj) {
        Ok(id) => id,
        Err(_) => {
            proof {
                assert(false);
            }
            return Err(Error(ErrorContents::InternalError("root refused")));
        },
    };
    let ghost body = writer.bytes();
    let ghost off_val = crate::object_io::resolve(writer.offsets(), root_id);
    match writer.finish(root_id) {
        Ok(()) => {},
        Err(_) => {
            proof {
                assert(false);
            }
            return Err(Error(ErrorContents::InternalError("finish refused")));
        },
    }
    let archive: Vec<u8> = writer.into_archive();
    proof {
        assert(archive@ =~= arc_magic() + empty_root_enc() + end_magic() + spec_u64_to_le_bytes(
            empty_root_enc().len() as u64,
        ) + spec_u64_to_le_bytes(0));
        lemma_frame(
            archive@,
            empty_root_enc(),
            0,
        );
    }
    Ok(archive)
}

/// A tree without files holds every file in memory, vacuously.
proof fn lemma_no_files_in_memory(node: DirNode)
    requires
        !has_files(node),
    ensures
        all_in_memory(node),
    decreases node,
{
    match node.data {
        DirNodeData::FileNode { .. } => {
            assert(false);
        },
        DirNodeData::DirNode { contents } => {
            assert(node.data == (DirNodeData::DirNode { contents }));
            assert(decreases_to!(node => node.data));
            assert(decreases_to!(node.data => node.data->DirNode_contents));
            assert(node.data->DirNode_contents == contents);
            assert(decreases_to!(contents => contents@));
            assert(!entries_have_files(contents@));
            assert forall|i: int| 0 <= i < contents@.len() implies all_in_memory(
                (#[trigger] contents@[i]).1,
            ) by {
                assert(decreases_to!(contents@ => contents@[i]));
                assert(decreases_to!(contents@[i] => contents@[i].1));
                assert(!has_files(contents@[i].1));
                lemma_no_files_in_memory(contents@[i].1);
            }
            assert(entries_in_memory(contents@));
        },
    }
}

/// An archive assembled as magic, body, trailer is well framed.
#[verifier::rlimit(100)]
proof fn lemma_frame(b: Seq<u8>, body: Seq<u8>, off: u64)
    requires
        b == arc_magic() + body + end_magic() + spec_u64_to_le_bytes(body.len() as u64)
            + spec_u64_to_le_bytes(off),
        off < body.len(),
    ensures
        well_framed(b),
{
    vstd::bytes::lemma_auto_spec_u64_to_from_le_bytes();
    assert(b.len() == body.len() + 32);
    assert(b.take(8) =~= arc_magic());
    assert(b.subrange(b.len() - 24, b.len() - 16) =~= end_magic());
    assert(b.subrange(b.len() - 16, b.len() - 8) =~= spec_u64_to_le_bytes(body.len() as u64));
    assert(b.subrange(b.len() - 8, b.len() as int) =~= spec_u64_to_le_bytes(off));
}

} // verus!
