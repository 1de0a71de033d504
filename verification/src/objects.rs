//! The archive object graph: typed records written to the archive and
//! navigated from a trailer-anchored root. Object identities are a
//! write-time book-keeping device; on emission each is resolved to a byte
//! offset from the archive's first post-header byte.
use vstd::prelude::*;

verus! {

/// Opaque identity of an object in the archive under construction.
/// Identity 0 is the distinguished sentinel meaning "no object".
#[derive(Clone, Copy, PartialEq, Eq, Structural, Debug, Hash)]
pub struct ObjectId {
    pub id: u64,
}

impl ObjectId {
    /// The distinguished "no object" sentinel.
    pub fn none() -> (r: ObjectId)
        ensures
            r.id == 0,
    {
        ObjectId { id: 0 }
    }

    /// True of the "no object" sentinel.
    pub open spec fn spec_is_none(self) -> bool {
        self.id == 0
    }

    /// True of the "no object" sentinel.
    pub fn is_none(&self) -> (r: bool)
        ensures
            r == self.spec_is_none(),
    {
        self.id == 0
    }
}

/// The type tag at the start of each object's header.
#[derive(Clone, Copy, PartialEq, Eq, Structural, Debug, Hash)]
pub enum ObjectType {
    BlobPlain,
    Directory,
    Metadata,
    Archive,
    Root,
    FilterZstd,
    ZstdPreloadList,
}

impl ObjectType {
    /// The small integer written as this type's tag.
    pub open spec fn spec_tag(self) -> u64 {
        match self {
            ObjectType::BlobPlain => 0,
            ObjectType::Directory => 1,
            ObjectType::Metadata => 2,
            ObjectType::Archive => 3,
            ObjectType::Root => 4,
            ObjectType::FilterZstd => 0x20,
            ObjectType::ZstdPreloadList => 0x40,
        }
    }

    /// The small integer written as this type's tag.
    pub fn tag(self) -> (t: u64)
        ensures
            t == self.spec_tag(),
    {
        match self {
            ObjectType::BlobPlain => 0,
            ObjectType::Directory => 1,
            ObjectType::Metadata => 2,
            ObjectType::Archive => 3,
            ObjectType::Root => 4,
            ObjectType::FilterZstd => 0x20,
            ObjectType::ZstdPreloadList => 0x40,
        }
    }
}

/// The tag of a metadata-table key.
#[derive(Clone, Copy, PartialEq, Eq, Structural, Debug, Hash)]
pub enum MetadataTag {
    ZstdPreloadList,
    EntryArchive,
    EndTag,
}

impl MetadataTag {
    /// The small integer written as this key's tag.
    pub open spec fn spec_tag(self) -> u64 {
        match self {
            MetadataTag::ZstdPreloadList => 0x40,
            MetadataTag::EntryArchive => 0x41,
            MetadataTag::EndTag => 0x7F,
        }
    }

    /// The small integer written as this key's tag.
    pub fn tag(self) -> (t: u64)
        ensures
            t == self.spec_tag(),
    {
        match self {
            MetadataTag::ZstdPreloadList => 0x40,
            MetadataTag::EntryArchive => 0x41,
            MetadataTag::EndTag => 0x7F,
        }
    }
}

/// The tag written before a VarInt metadata value.
pub const META_TAG_VARINT: u64 = 0;

/// The tag written before a VarUInt metadata value.
pub const META_TAG_VARUINT: u64 = 1;

/// The tag written before an object-reference metadata value.
pub const META_TAG_OBJECTREF: u64 = 2;

/// The tag written before a string metadata value.
pub const META_TAG_STRING: u64 = 3;

/// A typed metadata value.
pub enum Metadata {
    VarInt(i64),
    VarUInt(u64),
    ObjectRef(ObjectId),
    String(String),
}

/// A metadata table: tagged keys with typed values, written in order and
/// ended on the wire by the end tag.
pub type MetadataMap = Vec<(MetadataTag, Metadata)>;

/// A byte range in the stream, preceded by its raw payload, carrying the
/// filters applied to the payload on write (reversed on read).
pub struct ObjBlobPlain {
    pub filters: Vec<ObjectId>,
}

/// An ordered list of named directory entries.
pub struct ObjDirectory {
    pub entries: Vec<DirectoryEntry>,
}

/// One entry of a directory: a name with data and metadata references.
pub struct DirectoryEntry {
    pub name: String,
    pub data: ObjectId,
    pub metadata: ObjectId,
}

/// A free-standing metadata table.
pub struct ObjMetadata {
    pub metadata: MetadataMap,
}

/// An archive: a root data reference plus a metadata table.
pub struct ObjArchive {
    pub root: ObjectId,
    pub metadata: MetadataMap,
}

/// The root object: the main archive, alternate named archives, and a
/// metadata table.
pub struct ObjRoot {
    pub main: ObjectId,
    pub alt: Vec<(String, ObjectId)>,
    pub metadata: MetadataMap,
}

/// A zstd filter: the ordered dictionary sources it resolves at read time.
pub struct ObjFilterZstd {
    pub dict_sources: Vec<ObjectId>,
}

/// A list of objects prefetched before decoding a family of blobs.
pub struct ObjZstdPreloadList {
    pub list: Vec<ObjectId>,
}

/// Any object that can be written to the archive.
pub enum DiarObject {
    BlobPlain(ObjBlobPlain),
    Directory(ObjDirectory),
    Metadata(ObjMetadata),
    Archive(ObjArchive),
    Root(ObjRoot),
    FilterZstd(ObjFilterZstd),
    ZstdPreloadList(ObjZstdPreloadList),
}

} // verus!
