//! The read-side anchor of an archive: the trailer. A reader seeks to the
//! last 24 bytes, checks the trailer magic, and recovers the length of the
//! object region and the offset of the root object; the object graph is
//! then walked from there.
use crate::diar_builder::well_framed;
use crate::object_io::{enc_object, end_magic, resolve};
use crate::objects::{DiarObject, DirectoryEntry, ObjArchive, ObjRoot, ObjectType};
use crate::varint::{lemma_varuint_round_trip, varuint_bytes, varuint_parse};
use vstd::bytes::{spec_u64_from_le_bytes, spec_u64_to_le_bytes, u64_from_le_bytes};
use vstd::prelude::*;

verus! {

/// True when the last 24 bytes of the archive are a trailer carrying these
/// two numbers: the trailer magic, then the object region's byte length,
/// then the root object's offset, as little-endian eight-byte words.
pub open spec fn trailer_is(b: Seq<u8>, length: u64, root_offset: u64) -> bool {
    &&& b.len() >= 32
    &&& b.subrange(b.len() - 24, b.len() - 16) == end_magic()
    &&& b.subrange(b.len() - 16, b.len() - 8) == spec_u64_to_le_bytes(length)
    &&& b.subrange(b.len() - 8, b.len() as int) == spec_u64_to_le_bytes(root_offset)
}

/// Parses the trailer: the object region's byte length and the root
/// object's offset. Returns them exactly when the archive ends in a
/// trailer, and nothing otherwise.
pub fn read_trailer(archive: &[u8]) -> (r: Option<(u64, u64)>)
    ensures
        match r {
            Some((length, root_offset)) => trailer_is(archive@, length, root_offset),
            None => forall|length: u64, root_offset: u64|
                !trailer_is(archive@, length, root_offset),
        },
{
    let n: usize = archive.len();
    if n < 32 {
        return None;
    }
    let magic: &[u8] = vstd::slice::slice_subrange(archive, n - 24, n - 16);
    let mut expect: Vec<u8> = Vec::new();
    expect.push(0x44);
    expect.push(0x69);
    expect.push(0x61);
    expect.push(0x72);
    expect.push(0x45);
    expect.push(0x6e);
    expect.push(0x64);
    expect.push(0x31);
    if !crate::dir_tree::bytes_eq(magic, expect.as_slice()) {
        proof {
            assert(expect@ =~= end_magic());
        }
        return None;
    }
    let length: u64 = u64_from_le_bytes(vstd::slice::slice_subrange(archive, n - 16, n - 8));
    let root_offset: u64 = u64_from_le_bytes(vstd::slice::slice_subrange(archive, n - 8, n));
    proof {
        assert(expect@ =~= end_magic());
        vstd::bytes::lemma_auto_spec_u64_to_from_le_bytes();
        assert(archive@.subrange(n - 16, n - 8) == spec_u64_to_le_bytes(length));
        assert(archive@.subrange(n - 8, n as int) == spec_u64_to_le_bytes(root_offset));
    }
    Some((length, root_offset))
}

/// Round trip of the framing: on any archive the driver emits, parsing the
/// trailer recovers exactly the object region's length and a root offset
/// that points strictly inside the region.
pub proof fn lemma_trailer_round_trip(b: Seq<u8>, length: u64, root_offset: u64)
    requires
        well_framed(b),
        b.len() <= u64::MAX,
        trailer_is(b, length, root_offset),
    ensures
        length == b.len() - 32,
        root_offset < length,
{
    vstd::bytes::lemma_auto_spec_u64_to_from_le_bytes();
    let off: u64 = choose|off: u64|
        b.subrange(b.len() - 8, b.len() as int) == spec_u64_to_le_bytes(off) && off < b.len() - 32;
    assert(spec_u64_from_le_bytes(spec_u64_to_le_bytes(off)) == off);
    assert(spec_u64_from_le_bytes(spec_u64_to_le_bytes(root_offset)) == root_offset);
    assert(spec_u64_from_le_bytes(spec_u64_to_le_bytes(length)) == length);
    assert(spec_u64_from_le_bytes(spec_u64_to_le_bytes((b.len() - 32) as u64)) == (b.len()
        - 32) as u64);
}

/// Round trip of a root object's header: parsing its encoding yields the
/// root tag, and parsing on from there yields the offset its main
/// reference was resolved to, so a reader that lands on the root can step
/// to the main archive.
pub proof fn lemma_root_header_round_trip(o: ObjRoot, offs: Seq<u64>, rest: Seq<u8>)
    ensures
        ({
            let b = enc_object(DiarObject::Root(o), offs) + rest;
            &&& varuint_parse(b) == Some((ObjectType::Root.spec_tag() as nat, 1nat))
            &&& (varuint_parse(b.skip(1)) matches Some((main, _)) && main == resolve(
                offs,
                o.main,
            ))
        }),
{
    let b = enc_object(DiarObject::Root(o), offs) + rest;
    let tail = varuint_bytes(resolve(offs, o.main)) + (crate::object_io::enc_alts(offs, o.alt@)
        + varuint_bytes(0) + crate::object_io::enc_meta_table(offs, o.metadata@) + rest);
    assert(b =~= varuint_bytes(ObjectType::Root.spec_tag() as nat) + tail);
    lemma_varuint_round_trip(ObjectType::Root.spec_tag() as nat, tail);
    assert(varuint_bytes(ObjectType::Root.spec_tag() as nat) =~= seq![4u8]);
    assert(b.skip(1) =~= tail);
    lemma_varuint_round_trip(
        resolve(offs, o.main),
        crate::object_io::enc_alts(offs, o.alt@) + varuint_bytes(0)
            + crate::object_io::enc_meta_table(offs, o.metadata@) + rest,
    );
    assert(tail =~= varuint_bytes(resolve(offs, o.main)) + (crate::object_io::enc_alts(
        offs,
        o.alt@,
    ) + varuint_bytes(0) + crate::object_io::enc_meta_table(offs, o.metadata@) + rest));
}

/// Round trip of an archive object's header: parsing its encoding yields
/// the archive tag, and parsing on from there yields the offset of its root
/// data object.
pub proof fn lemma_archive_header_round_trip(o: ObjArchive, offs: Seq<u64>, rest: Seq<u8>)
    ensures
        ({
            let b = enc_object(DiarObject::Archive(o), offs) + rest;
            &&& varuint_parse(b) == Some((ObjectType::Archive.spec_tag() as nat, 1nat))
            &&& (varuint_parse(b.skip(1)) matches Some((root, _)) && root == resolve(
                offs,
                o.root,
            ))
        }),
{
    let b = enc_object(DiarObject::Archive(o), offs) + rest;
    let tail = varuint_bytes(resolve(offs, o.root)) + (crate::object_io::enc_meta_table(
        offs,
        o.metadata@,
    ) + rest);
    assert(b =~= varuint_bytes(ObjectType::Archive.spec_tag() as nat) + tail);
    lemma_varuint_round_trip(ObjectType::Archive.spec_tag() as nat, tail);
    assert(b.skip(1) =~= tail);
    lemma_varuint_round_trip(
        resolve(offs, o.root),
        crate::object_io::enc_meta_table(offs, o.metadata@) + rest,
    );
}

/// Round trip of one directory entry: parsing its encoding yields the
/// offset of its data object, then the offset of its metadata object, then
/// the name's byte length, the name's bytes, and exactly the trailing
/// sequence. A reader walks a directory by repeating this until it meets
/// the sentinel data reference.
#[verifier::rlimit(100)]
pub proof fn lemma_entry_round_trip(e: DirectoryEntry, offs: Seq<u64>, rest: Seq<u8>)
    ensures
        ({
            let b = crate::object_io::enc_entry(offs, e) + rest;
            let name = vstd::utf8::encode_utf8(e.name@);
            let d1 = varuint_bytes(resolve(offs, e.data)).len();
            let d2 = varuint_bytes(resolve(offs, e.metadata)).len();
            let d3 = varuint_bytes(name.len()).len();
            &&& varuint_parse(b) == Some((resolve(offs, e.data), d1))
            &&& varuint_parse(b.skip(d1 as int)) == Some((resolve(offs, e.metadata), d2))
            &&& varuint_parse(b.skip(d1 + d2 as int)) == Some((name.len(), d3))
            &&& b.skip(d1 + d2 + d3 as int) == name + rest
        }),
{
    let name = vstd::utf8::encode_utf8(e.name@);
    let b = crate::object_io::enc_entry(offs, e) + rest;
    let after_data = varuint_bytes(resolve(offs, e.metadata)) + (varuint_bytes(name.len())
        + name + rest);
    assert(b =~= varuint_bytes(resolve(offs, e.data)) + after_data);
    lemma_varuint_round_trip(resolve(offs, e.data), after_data);
    let d1 = varuint_bytes(resolve(offs, e.data)).len();
    assert(b.skip(d1 as int) =~= after_data);
    let after_meta = varuint_bytes(name.len()) + name + rest;
    lemma_varuint_round_trip(resolve(offs, e.metadata), after_meta);
    let d2 = varuint_bytes(resolve(offs, e.metadata)).len();
    assert(after_data.skip(d2 as int) =~= after_meta);
    assert(b.skip(d1 + d2 as int) =~= after_meta);
    assert(after_data =~= varuint_bytes(resolve(offs, e.metadata)) + after_meta);
    lemma_varuint_round_trip(name.len(), name + rest);
    assert(after_meta =~= varuint_bytes(name.len()) + (name + rest));
    let d3 = varuint_bytes(name.len()).len();
    assert(after_meta.skip(d3 as int) =~= name + rest);
    assert(b.skip(d1 + d2 + d3 as int) =~= name + rest);
}

} // verus!
