//! The archive writer: an append-only emitter of the object graph.
//!
//! Objects are written leaves first; writing an object records the byte
//! offset of its header, relative to the first post-header byte of the
//! archive, under a freshly issued [`ObjectId`]. References inside later
//! objects are written as the LEB128 offset of the referenced object, the
//! "no object" sentinel as 0. The trailer carries a fixed magic, the length
//! of the object region, and the offset of the root object.
use crate::errors::{Error, ErrorContents};
use crate::objects::{
    DiarObject, DirectoryEntry, Metadata, MetadataTag, ObjectId, ObjectType, META_TAG_OBJECTREF,
    META_TAG_STRING, META_TAG_VARINT, META_TAG_VARUINT,
};
use crate::varint::{encode_varint, encode_varuint, varint_bytes, varuint_bytes};
use vstd::bytes::{spec_u64_to_le_bytes, u64_to_le_bytes};
use vstd::prelude::*;
use vstd::utf8::encode_utf8;

verus! {

/// The eight magic bytes that open an archive: `DiarArc1`.
pub open spec fn arc_magic() -> Seq<u8> {
    seq![0x44u8, 0x69u8, 0x61u8, 0x72u8, 0x41u8, 0x72u8, 0x63u8, 0x31u8]
}

/// The eight magic bytes that open the trailer: `DiarEnd1`.
pub open spec fn end_magic() -> Seq<u8> {
    seq![0x44u8, 0x69u8, 0x61u8, 0x72u8, 0x45u8, 0x6eu8, 0x64u8, 0x31u8]
}

/// True when `id` was issued against an offset table of length `n` (the
/// sentinel is always valid).
pub open spec fn id_valid(n: nat, id: ObjectId) -> bool {
    id.id <= n
}

/// The offset that a valid reference resolves to; the sentinel resolves
/// to 0.
pub open spec fn resolve(offs: Seq<u64>, id: ObjectId) -> nat {
    if id.id == 0 {
        0
    } else {
        offs[id.id - 1] as nat
    }
}

/// The wire form of one object reference.
pub open spec fn enc_ref(offs: Seq<u64>, id: ObjectId) -> Seq<u8> {
    varuint_bytes(resolve(offs, id))
}

/// The wire form of a length-prefixed string: the byte length as LEB128,
/// then the raw UTF-8 bytes.
pub open spec fn enc_str(chars: Seq<char>) -> Seq<u8> {
    varuint_bytes(encode_utf8(chars).len()) + encode_utf8(chars)
}

/// The wire form of a reference list, in order, without its terminator.
pub open spec fn enc_refs(offs: Seq<u64>, ids: Seq<ObjectId>) -> Seq<u8>
    decreases ids.len(),
{
    if ids.len() == 0 {
        Seq::empty()
    } else {
        enc_refs(offs, ids.drop_last()) + enc_ref(offs, ids.last())
    }
}

/// The wire form of a terminated reference list: the references in order,
/// then the sentinel.
pub open spec fn enc_ref_list(offs: Seq<u64>, ids: Seq<ObjectId>) -> Seq<u8> {
    enc_refs(offs, ids) + varuint_bytes(0)
}

/// The wire form of one directory entry: data reference, metadata
/// reference, name.
pub open spec fn enc_entry(offs: Seq<u64>, e: DirectoryEntry) -> Seq<u8> {
    enc_ref(offs, e.data) + enc_ref(offs, e.metadata) + enc_str(e.name@)
}

/// The wire form of a directory's entries, in order.
pub open spec fn enc_entries(offs: Seq<u64>, es: Seq<DirectoryEntry>) -> Seq<u8>
    decreases es.len(),
{
    if es.len() == 0 {
        Seq::empty()
    } else {
        enc_entries(offs, es.drop_last()) + enc_entry(offs, es.last())
    }
}

/// The wire form of one typed metadata value.
pub open spec fn enc_meta_value(offs: Seq<u64>, m: Metadata) -> Seq<u8> {
    match m {
        Metadata::VarInt(v) => varuint_bytes(META_TAG_VARINT as nat) + varint_bytes(v as int),
        Metadata::VarUInt(v) => varuint_bytes(META_TAG_VARUINT as nat) + varuint_bytes(v as nat),
        Metadata::ObjectRef(id) => varuint_bytes(META_TAG_OBJECTREF as nat) + enc_ref(offs, id),
        Metadata::String(s) => varuint_bytes(META_TAG_STRING as nat) + enc_str(s@),
    }
}

/// The wire form of the metadata entries, in order, without the end tag.
pub open spec fn enc_meta_entries(offs: Seq<u64>, ms: Seq<(MetadataTag, Metadata)>) -> Seq<u8>
    decreases ms.len(),
{
    if ms.len() == 0 {
        Seq::empty()
    } else {
        enc_meta_entries(offs, ms.drop_last()) + varuint_bytes(ms.last().0.spec_tag() as nat)
            + enc_meta_value(offs, ms.last().1)
    }
}

/// The wire form of a whole metadata table: the entries, then the end tag.
pub open spec fn enc_meta_table(offs: Seq<u64>, ms: Seq<(MetadataTag, Metadata)>) -> Seq<u8> {
    enc_meta_entries(offs, ms) + varuint_bytes(MetadataTag::EndTag.spec_tag() as nat)
}

/// The wire form of the root's alternate-name entries, in order.
pub open spec fn enc_alts(offs: Seq<u64>, alts: Seq<(String, ObjectId)>) -> Seq<u8>
    decreases alts.len(),
{
    if alts.len() == 0 {
        Seq::empty()
    } else {
        enc_alts(offs, alts.drop_last()) + enc_ref(offs, alts.last().1) + enc_str(
            alts.last().0@,
        )
    }
}

/// The wire form of an object header and body: the type tag, then the
/// type-specific body. Meaningful only for valid objects.
pub open spec fn enc_object(obj: DiarObject, offs: Seq<u64>) -> Seq<u8> {
    match obj {
        DiarObject::BlobPlain(o) => varuint_bytes(ObjectType::BlobPlain.spec_tag() as nat)
            + enc_ref_list(offs, o.filters@),
        DiarObject::Directory(o) => varuint_bytes(ObjectType::Directory.spec_tag() as nat)
            + enc_entries(offs, o.entries@) + varuint_bytes(0),
        DiarObject::Metadata(o) => varuint_bytes(ObjectType::Metadata.spec_tag() as nat)
            + enc_meta_table(offs, o.metadata@),
        DiarObject::Archive(o) => varuint_bytes(ObjectType::Archive.spec_tag() as nat) + enc_ref(
            offs,
            o.root,
        ) + enc_meta_table(offs, o.metadata@),
        DiarObject::Root(o) => varuint_bytes(ObjectType::Root.spec_tag() as nat) + enc_ref(
            offs,
            o.main,
        ) + enc_alts(offs, o.alt@) + varuint_bytes(0) + enc_meta_table(offs, o.metadata@),
        DiarObject::FilterZstd(o) => varuint_bytes(ObjectType::FilterZstd.spec_tag() as nat)
            + enc_ref_list(offs, o.dict_sources@),
        DiarObject::ZstdPreloadList(o) => varuint_bytes(
            ObjectType::ZstdPreloadList.spec_tag() as nat,
        ) + enc_ref_list(offs, o.list@),
    }
}

/// True when every reference in the list was issued by this writer.
pub open spec fn refs_valid(n: nat, ids: Seq<ObjectId>) -> bool {
    forall|i: int| 0 <= i < ids.len() ==> id_valid(n, #[trigger] ids[i])
}

/// True when no metadata key is an early end tag.
pub open spec fn meta_tags_ok(ms: Seq<(MetadataTag, Metadata)>) -> bool {
    forall|i: int| 0 <= i < ms.len() ==> (#[trigger] ms[i]).0 != MetadataTag::EndTag
}

/// True when every object reference among the metadata values was issued by
/// this writer.
pub open spec fn meta_refs_ok(n: nat, ms: Seq<(MetadataTag, Metadata)>) -> bool {
    forall|i: int|
        0 <= i < ms.len() ==> ((#[trigger] ms[i]).1 matches Metadata::ObjectRef(id) ==> id_valid(
            n,
            id,
        ))
}

/// True when a metadata table can be written: no early end tag, and every
/// object reference issued by this writer.
pub open spec fn meta_valid(n: nat, ms: Seq<(MetadataTag, Metadata)>) -> bool {
    meta_tags_ok(ms) && meta_refs_ok(n, ms)
}

/// True when no metadata table of the object carries an early end tag.
pub open spec fn obj_tags_ok(obj: DiarObject) -> bool {
    match obj {
        DiarObject::Metadata(o) => meta_tags_ok(o.metadata@),
        DiarObject::Archive(o) => meta_tags_ok(o.metadata@),
        DiarObject::Root(o) => meta_tags_ok(o.metadata@),
        _ => true,
    }
}

/// True when every reference inside the object was issued by this writer.
pub open spec fn obj_refs_ok(obj: DiarObject, n: nat) -> bool {
    match obj {
        DiarObject::BlobPlain(o) => refs_valid(n, o.filters@),
        DiarObject::Directory(o) => entries_valid(n, o.entries@),
        DiarObject::Metadata(o) => meta_refs_ok(n, o.metadata@),
        DiarObject::Archive(o) => id_valid(n, o.root) && meta_refs_ok(n, o.metadata@),
        DiarObject::Root(o) => id_valid(n, o.main) && meta_refs_ok(n, o.metadata@) && alts_valid(
            n,
            o.alt@,
        ),
        DiarObject::FilterZstd(o) => refs_valid(n, o.dict_sources@),
        DiarObject::ZstdPreloadList(o) => refs_valid(n, o.list@),
    }
}

/// True when every reference of every directory entry was issued by this
/// writer.
pub open spec fn entries_valid(n: nat, es: Seq<DirectoryEntry>) -> bool {
    forall|i: int|
        0 <= i < es.len() ==> id_valid(n, (#[trigger] es[i]).data) && id_valid(n, es[i].metadata)
}

/// True when every alternate-name reference was issued by this writer.
pub open spec fn alts_valid(n: nat, alts: Seq<(String, ObjectId)>) -> bool {
    forall|i: int| 0 <= i < alts.len() ==> id_valid(n, (#[trigger] alts[i]).1)
}

/// True when every reference inside the object was issued by this writer
/// and its metadata tables carry no early end tag.
pub open spec fn obj_valid(obj: DiarObject, n: nat) -> bool {
    obj_refs_ok(obj, n) && obj_tags_ok(obj)
}

/// True when the object may carry a preceding raw payload of this length:
/// only a plain blob may be preceded by payload bytes.
pub open spec fn length_ok(obj: DiarObject, payload_len: nat) -> bool {
    payload_len == 0 || obj is BlobPlain
}

/// The archive writer. `out` holds every byte after the opening magic;
/// `offsets` holds, for the object with identity `i + 1`, the offset of its
/// header within `out`.
pub struct DiarIo {
    out: Vec<u8>,
    offsets: Vec<u64>,
}

impl DiarIo {
    /// The writer's well-formedness: offsets were recorded in strictly
    /// increasing order and each points strictly inside the written bytes.
    pub closed spec fn wf(self) -> bool {
        &&& forall|i: int, j: int|
            0 <= i < j < self.offsets@.len() ==> #[trigger] self.offsets@[i]
                < #[trigger] self.offsets@[j]
        &&& forall|i: int|
            0 <= i < self.offsets@.len() ==> #[trigger] self.offsets@[i] < self.out@.len()
        &&& self.offsets@.len() <= self.out@.len()
    }

    /// The bytes written so far, after the opening magic.
    pub closed spec fn bytes(self) -> Seq<u8> {
        self.out@
    }

    /// The offsets recorded so far; the object with identity `i + 1` sits
    /// at `offsets()[i]`.
    pub closed spec fn offsets(self) -> Seq<u64> {
        self.offsets@
    }

    /// Opens a fresh archive: nothing written, no identity issued.
    pub fn create() -> (r: DiarIo)
        ensures
            r.wf(),
            r.bytes() == Seq::<u8>::empty(),
            r.offsets() == Seq::<u64>::empty(),
    {
        DiarIo { out: Vec::new(), offsets: Vec::new() }
    }

    /// Appends the LEB128 form of `v`.
    fn push_varuint(&mut self, v: u64)
        ensures
            final(self).out@ == old(self).out@ + varuint_bytes(v as nat),
            final(self).offsets@ == old(self).offsets@,
    {
        encode_varuint(&mut self.out, v);
    }

    /// Appends the zig-zag LEB128 form of `v`.
    fn push_varint(&mut self, v: i64)
        ensures
            final(self).out@ == old(self).out@ + varint_bytes(v as int),
            final(self).offsets@ == old(self).offsets@,
    {
        encode_varint(&mut self.out, v);
    }

    /// Resolves an issued reference to its offset; the sentinel resolves to
    /// 0 and an unissued reference is refused.
    pub fn get_object_offset(&self, id: ObjectId) -> (r: Result<u64, Error>)
        ensures
            match r {
                Ok(off) => id_valid(self.offsets().len(), id) && off as nat == resolve(
                    self.offsets(),
                    id,
                ),
                Err(e) => !id_valid(self.offsets().len(), id) && e == Error(
                    ErrorContents::ObjectIdError(id),
                ),
            },
    {
        if id.id == 0 {
            Ok(0)
        } else if id.id <= self.offsets.len() as u64 {
            Ok(self.offsets[(id.id - 1) as usize])
        } else {
            ErrorContents::ObjectIdError(id).emit()
        }
    }

    /// Appends the wire form of one issued reference.
    fn push_ref(&mut self, id: ObjectId)
        requires
            id_valid(old(self).offsets().len(), id),
        ensures
            final(self).out@ == old(self).out@ + enc_ref(old(self).offsets@, id),
            final(self).offsets@ == old(self).offsets@,
    {
        let count: usize = self.offsets.len();
        let off: u64 = if id.id == 0 {
            0
        } else {
            proof {
                assert(id.id <= count as u64);
            }
            self.offsets[(id.id - 1) as usize]
        };
        proof {
            assert(off as nat == resolve(self.offsets@, id));
        }
        self.push_varuint(off);
    }

    /// Appends a length-prefixed string: byte length, then raw UTF-8.
    fn push_str(&mut self, value: &str)
        ensures
            final(self).out@ == old(self).out@ + enc_str(value@),
            final(self).offsets@ == old(self).offsets@,
    {
        let bytes: &[u8] = value.as_bytes();
        self.push_varuint(bytes.len() as u64);
        let mut i: usize = 0;
        while i < bytes.len()
            invariant
                i <= bytes@.len(),
                bytes@ == encode_utf8(value@),
                self.out@ == old(self).out@ + varuint_bytes(encode_utf8(value@).len())
                    + bytes@.take(i as int),
                self.offsets@ == old(self).offsets@,
            decreases bytes@.len() - i,
        {
            let b: u8 = bytes[i];
            self.out.push(b);
            proof {
                assert(bytes@.take(i + 1) =~= bytes@.take(i as int) + seq![b]);
                assert(self.out@ == old(self).out@ + varuint_bytes(encode_utf8(value@).len())
                    + bytes@.take(i + 1));
            }
            i = i + 1;
        }
        proof {
            assert(bytes@.take(bytes@.len() as int) =~= bytes@);
            assert(self.out@ =~= old(self).out@ + enc_str(value@));
        }
    }

    /// Appends a terminated reference list: each issued reference in order,
    /// then the sentinel.
    fn push_ref_list(&mut self, ids: &Vec<ObjectId>)
        requires
            refs_valid(old(self).offsets().len(), ids@),
        ensures
            final(self).out@ == old(self).out@ + enc_ref_list(old(self).offsets@, ids@),
            final(self).offsets@ == old(self).offsets@,
    {
        let mut i: usize = 0;
        while i < ids.len()
            invariant
                i <= ids@.len(),
                refs_valid(self.offsets().len(), ids@),
                self.out@ == old(self).out@ + enc_refs(self.offsets@, ids@.take(i as int)),
                self.offsets@ == old(self).offsets@,
            decreases ids@.len() - i,
        {
            let ghost pre = ids@.take(i as int);
            self.push_ref(ids[i]);
            proof {
                assert(ids@.take(i + 1).drop_last() =~= pre);
                assert(ids@.take(i + 1).last() == ids@[i as int]);
            }
            i = i + 1;
        }
        proof {
            assert(ids@.take(ids@.len() as int) =~= ids@);
        }
        self.push_varuint(0);
        proof {
            assert(self.out@ =~= old(self).out@ + enc_ref_list(self.offsets@, ids@));
        }
    }

    /// Appends one typed metadata value.
    fn push_meta_value(&mut self, m: &Metadata)
        requires
            *m matches Metadata::ObjectRef(id) ==> id_valid(old(self).offsets().len(), id),
        ensures
            final(self).out@ == old(self).out@ + enc_meta_value(old(self).offsets@, *m),
            final(self).offsets@ == old(self).offsets@,
    {
        match m {
            Metadata::VarInt(v) => {
                self.push_varuint(META_TAG_VARINT);
                self.push_varint(*v);
            },
            Metadata::VarUInt(v) => {
                self.push_varuint(META_TAG_VARUINT);
                self.push_varuint(*v);
            },
            Metadata::ObjectRef(id) => {
                self.push_varuint(META_TAG_OBJECTREF);
                self.push_ref(*id);
            },
            Metadata::String(s) => {
                self.push_varuint(META_TAG_STRING);
                self.push_str(s.as_str());
            },
        }
        proof {
            assert(self.out@ =~= old(self).out@ + enc_meta_value(old(self).offsets@, *m));
        }
    }

    /// Appends a whole metadata table: the entries in order, then the end
    /// tag.
    fn push_meta_table(&mut self, ms: &Vec<(MetadataTag, Metadata)>)
        requires
            meta_valid(old(self).offsets().len(), ms@),
        ensures
            final(self).out@ == old(self).out@ + enc_meta_table(old(self).offsets@, ms@),
            final(self).offsets@ == old(self).offsets@,
    {
        let mut i: usize = 0;
        while i < ms.len()
            invariant
                i <= ms@.len(),
                meta_valid(self.offsets().len(), ms@),
                self.out@ == old(self).out@ + enc_meta_entries(self.offsets@, ms@.take(i as int)),
                self.offsets@ == old(self).offsets@,
            decreases ms@.len() - i,
        {
            let ghost pre = ms@.take(i as int);
            let entry = &ms[i];
            self.push_varuint(entry.0.tag());
            self.push_meta_value(&entry.1);
            proof {
                assert(ms@.take(i + 1).drop_last() =~= pre);
                assert(ms@.take(i + 1).last() == ms@[i as int]);
                assert(self.out@ =~= old(self).out@ + enc_meta_entries(
                    self.offsets@,
                    ms@.take(i + 1),
                ));
            }
            i = i + 1;
        }
        proof {
            assert(ms@.take(ms@.len() as int) =~= ms@);
        }
        self.push_varuint(MetadataTag::EndTag.tag());
        proof {
            assert(self.out@ =~= old(self).out@ + enc_meta_table(self.offsets@, ms@));
        }
    }

    /// Checks that the object only references identities this writer issued
    /// and that its metadata tables carry no early end tag; refuses it with
    /// the offending reference or an internal error otherwise.
    fn check_object(&self, obj: &DiarObject) -> (r: Result<(), Error>)
        ensures
            match r {
                Ok(()) => obj_valid(*obj, self.offsets().len()),
                Err(e) => {
                    &&& !obj_valid(*obj, self.offsets().len())
                    &&& (e.is_object_id_error() || e.is_internal_error())
                    &&& (obj_tags_ok(*obj) ==> e.is_object_id_error())
                    &&& (obj_refs_ok(*obj, self.offsets().len()) ==> e.is_internal_error())
                },
            },
    {
        match obj {
            DiarObject::BlobPlain(o) => self.check_refs(&o.filters),
            DiarObject::Directory(o) => self.check_entries(&o.entries),
            DiarObject::Metadata(o) => self.check_meta(&o.metadata),
            DiarObject::Archive(o) => {
                if let Err(e) = self.get_object_offset(o.root) {
                    return Err(e);
                }
                self.check_meta(&o.metadata)
            },
            DiarObject::Root(o) => {
                if let Err(e) = self.get_object_offset(o.main) {
                    return Err(e);
                }
                if let Err(e) = self.check_alts(&o.alt) {
                    return Err(e);
                }
                self.check_meta(&o.metadata)
            },
            DiarObject::FilterZstd(o) => self.check_refs(&o.dict_sources),
            DiarObject::ZstdPreloadList(o) => self.check_refs(&o.list),
        }
    }

    /// Checks that every reference in the list was issued by this writer.
    fn check_refs(&self, ids: &Vec<ObjectId>) -> (r: Result<(), Error>)
        ensures
            match r {
                Ok(()) => refs_valid(self.offsets().len(), ids@),
                Err(e) => !refs_valid(self.offsets().len(), ids@) && e.is_object_id_error(),
            },
    {
        let mut i: usize = 0;
        while i < ids.len()
            invariant
                i <= ids@.len(),
                forall|k: int| 0 <= k < i ==> id_valid(self.offsets().len(), #[trigger] ids@[k]),
            decreases ids@.len() - i,
        {
            if let Err(e) = self.get_object_offset(ids[i]) {
                proof {
                    assert(!refs_valid(self.offsets().len(), ids@)) by {
                        if refs_valid(self.offsets().len(), ids@) {
                            assert(id_valid(self.offsets().len(), ids@[i as int]));
                        }
                    }
                }
                return Err(e);
            }
            i = i + 1;
        }
        Ok(())
    }

    /// Checks that every reference of every directory entry was issued by
    /// this writer.
    fn check_entries(&self, es: &Vec<DirectoryEntry>) -> (r: Result<(), Error>)
        ensures
            match r {
                Ok(()) => entries_valid(self.offsets().len(), es@),
                Err(e) => !entries_valid(self.offsets().len(), es@) && e.is_object_id_error(),
            },
    {
        let mut i: usize = 0;
        while i < es.len()
            invariant
                i <= es@.len(),
                forall|k: int|
                    0 <= k < i ==> id_valid(self.offsets().len(), (#[trigger] es@[k]).data)
                        && id_valid(self.offsets().len(), es@[k].metadata),
            decreases es@.len() - i,
        {
            if let Err(e) = self.get_object_offset(es[i].data) {
                proof {
                    assert(!entries_valid(self.offsets().len(), es@)) by {
                        if entries_valid(self.offsets().len(), es@) {
                            assert(id_valid(self.offsets().len(), es@[i as int].data));
                        }
                    }
                }
                return Err(e);
            }
            if let Err(e) = self.get_object_offset(es[i].metadata) {
                proof {
                    assert(!entries_valid(self.offsets().len(), es@)) by {
                        if entries_valid(self.offsets().len(), es@) {
                            assert(id_valid(self.offsets().len(), es@[i as int].metadata));
                        }
                    }
                }
                return Err(e);
            }
            i = i + 1;
        }
        Ok(())
    }

    /// Checks that every alternate-name reference was issued by this writer.
    fn check_alts(&self, alts: &Vec<(String, ObjectId)>) -> (r: Result<(), Error>)
        ensures
            match r {
                Ok(()) => alts_valid(self.offsets().len(), alts@),
                Err(e) => !alts_valid(self.offsets().len(), alts@) && e.is_object_id_error(),
            },
    {
        let mut i: usize = 0;
        while i < alts.len()
            invariant
                i <= alts@.len(),
                forall|k: int| 0 <= k < i ==> id_valid(self.offsets().len(), (#[trigger] alts@[k]).1),
            decreases alts@.len() - i,
        {
            if let Err(e) = self.get_object_offset(alts[i].1) {
                proof {
                    assert(!alts_valid(self.offsets().len(), alts@)) by {
                        if alts_valid(self.offsets().len(), alts@) {
                            assert(id_valid(self.offsets().len(), alts@[i as int].1));
                        }
                    }
                }
                return Err(e);
            }
            i = i + 1;
        }
        Ok(())
    }

    /// Checks that a metadata table can be written.
    fn check_meta(&self, ms: &Vec<(MetadataTag, Metadata)>) -> (r: Result<(), Error>)
        ensures
            match r {
                Ok(()) => meta_valid(self.offsets().len(), ms@),
                Err(e) => {
                    &&& !meta_valid(self.offsets().len(), ms@)
                    &&& (e.is_object_id_error() || e.is_internal_error())
                    &&& (meta_tags_ok(ms@) ==> e.is_object_id_error())
                    &&& (meta_refs_ok(self.offsets().len(), ms@) ==> e.is_internal_error())
                },
            },
    {
        let mut i: usize = 0;
        while i < ms.len()
            invariant
                i <= ms@.len(),
                forall|k: int|
                    0 <= k < i ==> (#[trigger] ms@[k]).0 != MetadataTag::EndTag && (ms@[k].1 matches Metadata::ObjectRef(id) ==> id_valid(self.offsets().len(), id)),
            decreases ms@.len() - i,
        {
            let n = Ghost(self.offsets().len());
            let entry = &ms[i];
            if let Err(e) = crate::errors::ensure(
                !matches!(entry.0, MetadataTag::EndTag),
                "early EndTag encountered!",
            ) {
                proof {
                    assert(!meta_tags_ok(ms@)) by {
                        if meta_tags_ok(ms@) {
                            assert(ms@[i as int].0 != MetadataTag::EndTag);
                        }
                    }
                }
                return Err(e);
            }
            if let Metadata::ObjectRef(id) = entry.1 {
                if let Err(e) = self.get_object_offset(id) {
                    proof {
                        assert(!meta_refs_ok(n@, ms@)) by {
                            if meta_refs_ok(n@, ms@) {
                                assert(ms@[i as int] == ms@[i as int]);
                            }
                        }
                    }
                    return Err(e);
                }
            }
            i = i + 1;
        }
        Ok(())
    }

    /// Writes an object with no preceding payload. On success the returned
    /// identity is fresh and resolves to the offset of the object's header.
    pub fn write_object(&mut self, obj: &DiarObject) -> (r: Result<ObjectId, Error>)
        requires
            old(self).wf(),
        ensures
            final(self).wf(),
            match r {
                Ok(id) => {
                    &&& obj_valid(*obj, old(self).offsets().len())
                    &&& id.id == old(self).offsets().len() + 1
                    &&& final(self).bytes() == old(self).bytes() + enc_object(
                        *obj,
                        old(self).offsets(),
                    )
                    &&& final(self).offsets() == old(self).offsets().push(
                        old(self).bytes().len() as u64,
                    )
                },
                Err(e) => {
                    &&& !obj_valid(*obj, old(self).offsets().len())
                    &&& *final(self) == *old(self)
                    &&& (e.is_object_id_error() || e.is_internal_error())
                    &&& (obj_tags_ok(*obj) ==> e.is_object_id_error())
                    &&& (obj_refs_ok(*obj, old(self).offsets().len()) ==> e.is_internal_error())
                },
            },
    {
        self.write_object_with_data(obj, &[])
    }

    /// Writes the raw payload bytes, then the object's header and body.
    /// Only a plain blob may carry a payload. On success the returned
    /// identity is fresh and resolves to the offset of the object's header,
    /// which sits immediately after the payload; on failure nothing is
    /// written.
    #[verifier::rlimit(100)]
    pub fn write_object_with_data(&mut self, obj: &DiarObject, payload: &[u8]) -> (r: Result<
        ObjectId,
        Error,
    >)
        requires
            old(self).wf(),
        ensures
            final(self).wf(),
            match r {
                Ok(id) => {
                    &&& obj_valid(*obj, old(self).offsets().len())
                    &&& length_ok(*obj, payload@.len())
                    &&& id.id == old(self).offsets().len() + 1
                    &&& final(self).bytes() == old(self).bytes() + payload@ + enc_object(
                        *obj,
                        old(self).offsets(),
                    )
                    &&& final(self).offsets() == old(self).offsets().push(
                        (old(self).bytes().len() + payload@.len()) as u64,
                    )
                },
                Err(e) => {
                    &&& !(obj_valid(*obj, old(self).offsets().len()) && length_ok(
                        *obj,
                        payload@.len(),
                    ))
                    &&& *final(self) == *old(self)
                    &&& (!length_ok(*obj, payload@.len()) ==> e.is_internal_error())
                    &&& (e.is_object_id_error() || e.is_internal_error())
                    &&& (length_ok(*obj, payload@.len()) && obj_tags_ok(*obj)
                        ==> e.is_object_id_error())
                    &&& (length_ok(*obj, payload@.len()) && obj_refs_ok(
                        *obj,
                        old(self).offsets().len(),
                    ) ==> e.is_internal_error())
                },
            },
    {
        let length_allowed: bool = match obj {
            DiarObject::BlobPlain(_) => true,
            _ => payload.len() == 0,
        };
        if let Err(e) = crate::errors::ensure(length_allowed, "length not allowed for this type") {
            return Err(e);
        }
        if let Err(e) = self.check_object(obj) {
            return Err(e);
        }
        let ghost start = self.out@;
        let mut i: usize = 0;
        while i < payload.len()
            invariant
                i <= payload@.len(),
                self.out@ == start + payload@.take(i as int),
                self.offsets@ == old(self).offsets@,
            decreases payload@.len() - i,
        {
            let b: u8 = payload[i];
            self.out.push(b);
            proof {
                assert(payload@.take(i + 1) =~= payload@.take(i as int) + seq![b]);
            }
            i = i + 1;
        }
        proof {
            assert(payload@.take(payload@.len() as int) =~= payload@);
        }
        let header_off: u64 = self.out.len() as u64;
        match obj {
            DiarObject::BlobPlain(o) => {
                self.push_varuint(ObjectType::BlobPlain.tag());
                self.push_ref_list(&o.filters);
            },
            DiarObject::Directory(o) => {
                self.push_varuint(ObjectType::Directory.tag());
                let mut k: usize = 0;
                while k < o.entries.len()
                    invariant
                        k <= o.entries@.len(),
                        forall|t: int|
                            0 <= t < o.entries@.len() ==> id_valid(
                                self.offsets().len(),
                                (#[trigger] o.entries@[t]).data,
                            ) && id_valid(self.offsets().len(), o.entries@[t].metadata),
                        self.out@ == start + payload@ + varuint_bytes(
                            ObjectType::Directory.spec_tag() as nat,
                        ) + enc_entries(self.offsets@, o.entries@.take(k as int)),
                        self.offsets@ == old(self).offsets@,
                    decreases o.entries@.len() - k,
                {
                    let ghost pre = o.entries@.take(k as int);
                    let e = &o.entries[k];
                    self.push_ref(e.data);
                    self.push_ref(e.metadata);
                    self.push_str(e.name.as_str());
                    proof {
                        assert(o.entries@.take(k + 1).drop_last() =~= pre);
                        assert(o.entries@.take(k + 1).last() == o.entries@[k as int]);
                        assert(self.out@ =~= start + payload@ + varuint_bytes(
                            ObjectType::Directory.spec_tag() as nat,
                        ) + enc_entries(self.offsets@, o.entries@.take(k + 1)));
                    }
                    k = k + 1;
                }
                proof {
                    assert(o.entries@.take(o.entries@.len() as int) =~= o.entries@);
                }
                self.push_varuint(0);
            },
            DiarObject::Metadata(o) => {
                self.push_varuint(ObjectType::Metadata.tag());
                self.push_meta_table(&o.metadata);
            },
            DiarObject::Archive(o) => {
                self.push_varuint(ObjectType::Archive.tag());
                self.push_ref(o.root);
                self.push_meta_table(&o.metadata);
            },
            DiarObject::Root(o) => {
                self.push_varuint(ObjectType::Root.tag());
                self.push_ref(o.main);
                let mut k: usize = 0;
                while k < o.alt.len()
                    invariant
                        k <= o.alt@.len(),
                        forall|t: int|
                            0 <= t < o.alt@.len() ==> id_valid(
                                self.offsets().len(),
                                (#[trigger] o.alt@[t]).1,
                            ),
                        self.out@ == start + payload@ + varuint_bytes(
                            ObjectType::Root.spec_tag() as nat,
                        ) + enc_ref(self.offsets@, o.main) + enc_alts(
                            self.offsets@,
                            o.alt@.take(k as int),
                        ),
                        self.offsets@ == old(self).offsets@,
                    decreases o.alt@.len() - k,
                {
                    let ghost pre = o.alt@.take(k as int);
                    let e = &o.alt[k];
                    self.push_ref(e.1);
                    self.push_str(e.0.as_str());
                    proof {
                        assert(o.alt@.take(k + 1).drop_last() =~= pre);
                        assert(o.alt@.take(k + 1).last() == o.alt@[k as int]);
                        assert(self.out@ =~= start + payload@ + varuint_bytes(
                            ObjectType::Root.spec_tag() as nat,
                        ) + enc_ref(self.offsets@, o.main) + enc_alts(
                            self.offsets@,
                            o.alt@.take(k + 1),
                        ));
                    }
                    k = k + 1;
                }
                proof {
                    assert(o.alt@.take(o.alt@.len() as int) =~= o.alt@);
                }
                self.push_varuint(0);
                self.push_meta_table(&o.metadata);
            },
            DiarObject::FilterZstd(o) => {
                self.push_varuint(ObjectType::FilterZstd.tag());
                self.push_ref_list(&o.dict_sources);
            },
            DiarObject::ZstdPreloadList(o) => {
                self.push_varuint(ObjectType::ZstdPreloadList.tag());
                self.push_ref_list(&o.list);
            },
        }
        proof {
            assert(self.out@ =~= old(self).out@ + payload@ + enc_object(*obj, old(self).offsets@));
            crate::varint::lemma_varuint_len_min(ObjectType::BlobPlain.spec_tag() as nat);
            crate::varint::lemma_varuint_len_min(ObjectType::Directory.spec_tag() as nat);
            crate::varint::lemma_varuint_len_min(ObjectType::Metadata.spec_tag() as nat);
            crate::varint::lemma_varuint_len_min(ObjectType::Archive.spec_tag() as nat);
            crate::varint::lemma_varuint_len_min(ObjectType::Root.spec_tag() as nat);
            crate::varint::lemma_varuint_len_min(ObjectType::FilterZstd.spec_tag() as nat);
            crate::varint::lemma_varuint_len_min(ObjectType::ZstdPreloadList.spec_tag() as nat);
            assert(self.out@.len() > header_off as nat);
            assert(self.offsets@.len() < self.out@.len());
        }
        let outlen: usize = self.out.len();
        let count: usize = self.offsets.len();
        proof {
            assert(count < outlen);
        }
        let id = ObjectId { id: count as u64 + 1 };
        self.offsets.push(header_off);
        Ok(id)
    }

    /// Writes the trailer: the end magic, then the byte length of the
    /// object region, then the offset that the root reference resolves to,
    /// both as little-endian eight-byte words. Fails, writing nothing, only
    /// on a reference this writer never issued.
    pub fn finish(&mut self, root_id: ObjectId) -> (r: Result<(), Error>)
        requires
            old(self).wf(),
        ensures
            final(self).wf(),
            final(self).offsets() == old(self).offsets(),
            match r {
                Ok(()) => id_valid(old(self).offsets().len(), root_id) && final(self).bytes()
                    == old(self).bytes() + end_magic() + spec_u64_to_le_bytes(
                    old(self).bytes().len() as u64,
                ) + spec_u64_to_le_bytes(resolve(old(self).offsets(), root_id) as u64),
                Err(e) => !id_valid(old(self).offsets().len(), root_id) && *final(self) == *old(
                    self,
                ) && e.is_object_id_error(),
            },
    {
        let length: u64 = self.out.len() as u64;
        let obj_offset: u64 = match self.get_object_offset(root_id) {
            Ok(off) => off,
            Err(e) => {
                return Err(e);
            },
        };
        let ghost start = self.out@;
        self.push_end_magic();
        self.push_le64(length);
        self.push_le64(obj_offset);
        proof {
            assert(self.out@ =~= start + end_magic() + spec_u64_to_le_bytes(length)
                + spec_u64_to_le_bytes(obj_offset));
        }
        Ok(())
    }

    /// Appends the trailer magic.
    fn push_end_magic(&mut self)
        ensures
            final(self).out@ == old(self).out@ + end_magic(),
            final(self).offsets@ == old(self).offsets@,
    {
        self.out.push(0x44);
        self.out.push(0x69);
        self.out.push(0x61);
        self.out.push(0x72);
        self.out.push(0x45);
        self.out.push(0x6e);
        self.out.push(0x64);
        self.out.push(0x31);
        proof {
            assert(self.out@ =~= old(self).out@ + end_magic());
        }
    }

    /// Appends a little-endian eight-byte word.
    fn push_le64(&mut self, v: u64)
        ensures
            final(self).out@ == old(self).out@ + spec_u64_to_le_bytes(v),
            final(self).offsets@ == old(self).offsets@,
    {
        let bytes = u64_to_le_bytes(v);
        proof {
            vstd::bytes::lemma_auto_spec_u64_to_from_le_bytes();
        }
        let mut i: usize = 0;
        while i < bytes.len()
            invariant
                i <= bytes@.len(),
                bytes@ == spec_u64_to_le_bytes(v),
                self.out@ == old(self).out@ + bytes@.take(i as int),
                self.offsets@ == old(self).offsets@,
            decreases bytes@.len() - i,
        {
            let b: u8 = bytes[i];
            self.out.push(b);
            proof {
                assert(bytes@.take(i + 1) =~= bytes@.take(i as int) + seq![b]);
            }
            i = i + 1;
        }
        proof {
            assert(bytes@.take(bytes@.len() as int) =~= bytes@);
        }
    }

    /// Hands back the whole archive: the opening magic, then every byte
    /// written.
    pub fn into_archive(self) -> (r: Vec<u8>)
        ensures
            r@ == arc_magic() + self.bytes(),
    {
        let mut full: Vec<u8> = Vec::new();
        full.push(0x44);
        full.push(0x69);
        full.push(0x61);
        full.push(0x72);
        full.push(0x41);
        full.push(0x72);
        full.push(0x63);
        full.push(0x31);
        proof {
            assert(full@ =~= arc_magic());
        }
        let ghost pre = full@;
        let mut i: usize = 0;
        let out = self.out;
        while i < out.len()
            invariant
                i <= out@.len(),
                full@ == pre + out@.take(i as int),
            decreases out@.len() - i,
        {
            let b: u8 = out[i];
            full.push(b);
            proof {
                assert(out@.take(i + 1) =~= out@.take(i as int) + seq![b]);
            }
            i = i + 1;
        }
        proof {
            assert(out@.take(out@.len() as int) =~= out@);
            assert(full@ =~= arc_magic() + out@);
        }
        full
    }
}

/// Offsets only grow: of any two issued objects, the later-written one sits
/// at the strictly larger offset.
pub proof fn lemma_offsets_strictly_increase(w: DiarIo, i: int, j: int)
    requires
        w.wf(),
        0 <= i < j < w.offsets().len(),
    ensures
        w.offsets()[i] < w.offsets()[j],
{
}

} // verus!
