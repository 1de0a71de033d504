//! The in-memory directory tree the archiver consumes: files and
//! directories, each directory an ordered mapping from unique names to
//! children. The tree is built once, in traversal order, and read-only
//! thereafter.
use crate::errors::{Error, ErrorContents, ErrorKind};
use vstd::prelude::*;
use vstd::utf8::encode_utf8;

verus! {

/// Where a file's bytes live: on disk behind a path with a length hint, or
/// in an owned buffer. The core itself reads only owned buffers; resolving
/// a path is I/O and happens outside.
pub enum DataSource {
    Path { path: String, len_hint: u64 },
    Data { path_hint: String, data: Vec<u8> },
}

impl DataSource {
    /// A path-backed source with the length its metadata reported.
    pub fn from_path(path: String, len_hint: u64) -> (r: DataSource)
        ensures
            r == (DataSource::Path { path, len_hint }),
    {
        DataSource::Path { path, len_hint }
    }

    /// The source's length: the hint for a path, the exact byte count for
    /// a buffer.
    pub open spec fn spec_len_hint(self) -> u64 {
        match self {
            DataSource::Path { len_hint, .. } => len_hint,
            DataSource::Data { data, .. } => data@.len() as u64,
        }
    }

    /// The source's length: the hint for a path, the exact byte count for
    /// a buffer.
    pub fn len_hint(&self) -> (r: u64)
        ensures
            r == self.spec_len_hint(),
    {
        match self {
            DataSource::Path { len_hint, .. } => *len_hint,
            DataSource::Data { data, .. } => data.len() as u64,
        }
    }

    /// Appends the source's bytes to `vec`. Succeeds exactly on an owned
    /// buffer; a path-backed source needs I/O, which the core cannot
    /// perform, and is refused.
    pub fn push_to_vec(&self, vec: &mut Vec<u8>) -> (r: Result<(), Error>)
        ensures
            match r {
                Ok(()) => self is Data && final(vec)@ == old(vec)@ + self.arrow_Data_data()@,
                Err(e) => self is Path && final(vec)@ == old(vec)@ && e.0 is Kind,
            },
    {
        match self {
            DataSource::Path { .. } => {
                Err(
                    Error(
                        ErrorContents::Kind(
                            ErrorKind::IoError(
                                "a path-backed source must be resolved to a buffer first".to_string(),
                            ),
                        ),
                    ),
                )
            },
            DataSource::Data { data, .. } => {
                let mut i: usize = 0;
                while i < data.len()
                    invariant
                        i <= data@.len(),
                        vec@ == old(vec)@ + data@.take(i as int),
                    decreases data@.len() - i,
                {
                    let b: u8 = data[i];
                    vec.push(b);
                    proof {
                        assert(data@.take(i + 1) =~= data@.take(i as int) + seq![b]);
                    }
                    i = i + 1;
                }
                proof {
                    assert(data@.take(data@.len() as int) =~= data@);
                }
                Ok(())
            },
        }
    }
}

/// A file or a directory.
pub struct DirNode {
    /// What the node is.
    pub data: DirNodeData,
}

/// A file node carries its data source; a directory carries an ordered
/// mapping from child name to child node.
pub enum DirNodeData {
    FileNode { contents: DataSource },
    DirNode { contents: Vec<(String, DirNode)> },
}

/// A name's UTF-8 bytes.
pub open spec fn name_bytes(s: Seq<char>) -> Seq<u8> {
    encode_utf8(s)
}

/// True when no two entries share a name, comparing UTF-8 bytes.
pub open spec fn names_unique(entries: Seq<(String, DirNode)>) -> bool {
    forall|i: int, j: int|
        0 <= i < j < entries.len() ==> name_bytes((#[trigger] entries[i]).0@) != name_bytes(
            (#[trigger] entries[j]).0@,
        )
}

impl DirNode {
    /// True of a directory node.
    pub open spec fn is_dir(self) -> bool {
        self.data is DirNode
    }

    /// A directory's entries, in insertion order.
    pub open spec fn entries(self) -> Seq<(String, DirNode)>
        recommends
            self.is_dir(),
    {
        self.data.arrow_DirNode_contents()@
    }

    /// A new empty directory.
    pub fn empty_dir() -> (r: DirNode)
        ensures
            r.is_dir(),
            r.entries() =~= Seq::<(String, DirNode)>::empty(),
    {
        DirNode { data: DirNodeData::DirNode { contents: Vec::new() } }
    }

    /// Adds a child under `name`, replacing the child of the same name if
    /// one exists, else appending. Only a directory accepts children.
    pub fn add_node(&mut self, name: &str, node: DirNode)
        requires
            old(self).is_dir(),
            names_unique(old(self).entries()),
        ensures
            final(self).is_dir(),
            names_unique(final(self).entries()),
            ({
                let before = old(self).entries();
                let after = final(self).entries();
                ||| (exists|k: int|
                    0 <= k < before.len() && name_bytes((#[trigger] before[k]).0@) == name_bytes(
                        name@,
                    ) && after.len() == before.len() && after[k].0@ == name@ && after[k].1 == node
                        && (forall|t: int|
                        0 <= t < before.len() && t != k ==> #[trigger] after[t] == before[t]))
                ||| ((forall|k: int|
                    0 <= k < before.len() ==> name_bytes((#[trigger] before[k]).0@) != name_bytes(
                        name@,
                    )) && after.len() == before.len() + 1 && after.last().0@ == name@
                    && after.last().1 == node && (forall|t: int|
                    0 <= t < before.len() ==> #[trigger] after[t] == before[t]))
            }),
    {
        let mut taken = DirNodeData::DirNode { contents: Vec::new() };
        core::mem::swap(&mut self.data, &mut taken);
        match taken {
            DirNodeData::DirNode { mut contents } => {
                let n: usize = contents.len();
                let mut i: usize = 0;
                while i < n
                    invariant
                        n == contents@.len(),
                        i <= n,
                        contents@ == old(self).entries(),
                        names_unique(contents@),
                        forall|k: int|
                            0 <= k < i ==> name_bytes((#[trigger] contents@[k]).0@) != name_bytes(
                                name@,
                            ),
                    decreases n - i,
                {
                    if bytes_eq(contents[i].0.as_str().as_bytes(), name.as_bytes()) {
                        let ghost pre = contents@;
                        let owned: String = name.to_string();
                        proof {
                            assert(owned@ == name@);
                        }
                        contents.set(i, (owned, node));
                        proof {
                            lemma_unique_after_update(pre, i as int, contents@[i as int].0, node);
                        }
                        self.data = DirNodeData::DirNode { contents };
                        return;
                    }
                    i = i + 1;
                }
                let ghost pre = contents@;
                let owned: String = name.to_string();
                proof {
                    assert(owned@ == name@);
                }
                contents.push((owned, node));
                proof {
                    assert(contents@.drop_last() =~= pre);
                    assert(names_unique(contents@));
                }
                self.data = DirNodeData::DirNode { contents };
            },
            DirNodeData::FileNode { .. } => {
                proof {
                    assert(false);
                }
            },
        }
    }
}

/// Replacing an entry with one of the same name keeps the names unique.
proof fn lemma_unique_after_update(
    entries: Seq<(String, DirNode)>,
    k: int,
    name: String,
    node: DirNode,
)
    requires
        names_unique(entries),
        0 <= k < entries.len(),
        name_bytes(name@) == name_bytes(entries[k].0@),
    ensures
        names_unique(entries.update(k, (name, node))),
{
    let updated = entries.update(k, (name, node));
    assert forall|i: int, j: int|
        0 <= i < j < updated.len() implies name_bytes((#[trigger] updated[i]).0@) != name_bytes(
        (#[trigger] updated[j]).0@,
    ) by {
        assert(entries[i] == entries[i]);
        assert(entries[j] == entries[j]);
    }
}

/// Compares two byte strings for equality.
pub fn bytes_eq(a: &[u8], b: &[u8]) -> (r: bool)
    ensures
        r == (a@ == b@),
{
    if a.len() != b.len() {
        proof {
            assert(a@.len() != b@.len());
        }
        return false;
    }
    let mut i: usize = 0;
    while i < a.len()
        invariant
            i <= a@.len() == b@.len(),
            forall|k: int| 0 <= k < i ==> a@[k] == b@[k],
        decreases a@.len() - i,
    {
        if a[i] != b[i] {
            return false;
        }
        i = i + 1;
    }
    proof {
        assert(a@ =~= b@);
    }
    true
}

} // verus!
