//! Whole-archive scenarios: deterministic output, the empty archive's exact
//! layout, and recovery of every file by walking the object graph from the
//! trailer.
use diar::chunker::ChunkConfig;
use diar::diar_builder::compress;
use diar::dir_tree::{DataSource, DirNode, DirNodeData};
use diar::miner::{BuildSamples, BuildSamplesConfiguration};
use diar::reader::read_trailer;
use diar::varint::decode_varuint;

fn small_config(dictionary_size: usize) -> BuildSamplesConfiguration {
    BuildSamplesConfiguration {
        dictionary_size,
        excess_samples_factor: 2,
        hash_table_size: 4096,
        chunker: ChunkConfig::new(0x8835, 16, 256),
        basic_dict_samples_count: 128,
        basic_dict_samples_max_size: 32 * 1024,
    }
}

fn file_node(data: Vec<u8>) -> DirNode {
    DirNode {
        data: DirNodeData::FileNode {
            contents: DataSource::Data { path_hint: String::new(), data },
        },
    }
}

/// Reads one LEB128 number and advances the cursor.
fn vu(b: &[u8], pos: &mut usize) -> u64 {
    let (v, used) = decode_varuint(b, *pos).expect("varuint");
    *pos += used;
    v
}

/// One recovered file: its path and its decompressed bytes.
type RecoveredFile = (String, Vec<u8>);

/// The extents of parsed object headers, for locating blob payloads.
struct Walk<'a> {
    body: &'a [u8],
    extents: Vec<(usize, usize)>,
    files: Vec<(String, usize)>,
}

impl<'a> Walk<'a> {
    /// Parses the directory at `off`, recursing into subdirectories and
    /// collecting `(path, blob_offset)` pairs.
    fn walk_dir(&mut self, off: usize, prefix: &str) {
        let mut pos = off;
        let tag = vu(self.body, &mut pos);
        assert_eq!(tag, 1, "expected a directory at {}", off);
        loop {
            let data = vu(self.body, &mut pos);
            if data == 0 {
                break;
            }
            let _metadata = vu(self.body, &mut pos);
            let name_len = vu(self.body, &mut pos) as usize;
            let name =
                String::from_utf8(self.body[pos..pos + name_len].to_vec()).expect("utf-8 name");
            pos += name_len;
            let path = if prefix.is_empty() {
                name
            } else {
                format!("{}/{}", prefix, name)
            };
            let child_off = data as usize;
            let mut probe = child_off;
            let child_tag = vu(self.body, &mut probe);
            if child_tag == 1 {
                self.walk_dir(child_off, &path);
            } else {
                assert_eq!(child_tag, 0, "expected a blob at {}", child_off);
                let filter = vu(self.body, &mut probe);
                assert!(filter > 0, "a file blob references the dictionary filter");
                let term = vu(self.body, &mut probe);
                assert_eq!(term, 0);
                self.extents.push((child_off, probe));
                self.files.push((path, child_off));
            }
        }
        self.extents.push((off, pos));
    }

    /// The payload of the blob whose header starts at `off`: the bytes from
    /// the end of the nearest earlier object to the header.
    fn payload_of(&self, off: usize) -> &'a [u8] {
        let start = self
            .extents
            .iter()
            .map(|&(_, end)| end)
            .filter(|&end| end <= off)
            .max()
            .expect("an object precedes every payload");
        &self.body[start..off]
    }
}

/// Walks an archive from its trailer and recovers every `(path, bytes)`
/// pair, decompressing each blob against the mined dictionary.
fn recover_files(archive: &[u8]) -> Vec<RecoveredFile> {
    let (length, root_off) = read_trailer(archive).expect("trailer");
    assert_eq!(length as usize, archive.len() - 32);
    let body = &archive[8..8 + length as usize];
    assert_eq!(&archive[..8], b"DiarArc1");

    // Root: tag 4, main reference, alternate list terminator, end tag.
    let mut pos = root_off as usize;
    assert_eq!(vu(body, &mut pos), 4);
    let main_off = vu(body, &mut pos) as usize;
    assert_eq!(vu(body, &mut pos), 0);
    assert_eq!(vu(body, &mut pos), 0x7F);
    let root_extent = (root_off as usize, pos);

    // Archive: tag 3, root directory reference, end tag.
    let mut pos = main_off;
    assert_eq!(vu(body, &mut pos), 3);
    let top_dir = vu(body, &mut pos) as usize;
    assert_eq!(vu(body, &mut pos), 0x7F);
    let archive_extent = (main_off, pos);

    let mut walk = Walk { body, extents: Vec::new(), files: Vec::new() };
    walk.extents.push(root_extent);
    walk.extents.push(archive_extent);
    // The plain zstd filter is the first object, at offset 0.
    assert_eq!(&body[0..2], &[0x20, 0x00]);
    walk.extents.push((0, 2));
    walk.walk_dir(top_dir, "");

    // Find the dictionary filter through any file blob, then the dictionary
    // blob behind it.
    let mut dictionary: Vec<u8> = Vec::new();
    if let Some(&(_, first_blob)) = walk.files.first() {
        let mut pos = first_blob;
        assert_eq!(vu(body, &mut pos), 0);
        let dict_filter = vu(body, &mut pos) as usize;
        let mut pos = dict_filter;
        assert_eq!(vu(body, &mut pos), 0x20);
        let dict_blob = vu(body, &mut pos) as usize;
        assert!(dict_blob > 0);
        assert_eq!(vu(body, &mut pos), 0);
        walk.extents.push((dict_filter, pos));
        // The dictionary blob: tag 0, a reference to the plain filter at
        // offset 0, terminator.
        let mut pos = dict_blob;
        assert_eq!(vu(body, &mut pos), 0);
        assert_eq!(vu(body, &mut pos), 0);
        assert_eq!(vu(body, &mut pos), 0);
        walk.extents.push((dict_blob, pos));
        let dict_frame = &body[2..dict_blob];
        dictionary = decompress(dict_frame, &[]);
    }

    let files = walk.files.clone();
    files
        .into_iter()
        .map(|(path, off)| {
            let frame = walk.payload_of(off);
            (path, decompress(frame, &dictionary))
        })
        .collect()
}

fn decompress(frame: &[u8], dictionary: &[u8]) -> Vec<u8> {
    let mut d = zstd::bulk::Decompressor::with_dictionary(dictionary).expect("decompressor");
    d.set_parameter(zstd::zstd_safe::DParameter::WindowLogMax(31)).expect("window");
    d.decompress(frame, 1 << 22).expect("decompress")
}

#[test]
fn empty_tree_is_magic_root_and_trailer() {
    let cfg = small_config(1024);
    let tree = DirNode::empty_dir();
    let archive = compress(&tree, &cfg).expect("compresses");
    let mut want = b"DiarArc1\x04\x00\x00\x7F".to_vec();
    want.extend_from_slice(b"DiarEnd1");
    want.extend_from_slice(&4u64.to_le_bytes());
    want.extend_from_slice(&0u64.to_le_bytes());
    assert_eq!(archive, want);
    let (length, root_off) = read_trailer(&archive).expect("trailer");
    assert_eq!(length, 4);
    assert_eq!(root_off, 0);
}

#[test]
fn two_runs_produce_identical_archives() {
    let cfg = small_config(2048);
    let mut tree = DirNode::empty_dir();
    tree.add_node("a.txt", file_node(b"HELLO".repeat(800)));
    tree.add_node("b.txt", file_node(b"WORLD, HELLO AGAIN. ".repeat(210)));
    let first = compress(&tree, &cfg).expect("compresses");
    let second = compress(&tree, &cfg).expect("compresses");
    assert_eq!(first, second);
}

#[test]
fn similar_files_compress_well_and_the_dictionary_learns_the_literal() {
    let cfg = small_config(2048);
    let mut tree = DirNode::empty_dir();
    tree.add_node("a", file_node(b"HELLO".repeat(800)));
    tree.add_node("b", file_node(b"HELLO".repeat(800)));
    let archive = compress(&tree, &cfg).expect("compresses");
    assert!(archive.len() <= 8000 / 4, "archive is {} bytes", archive.len());

    let mut miner = BuildSamples::new(&cfg);
    miner.push_file(&b"HELLO".repeat(800));
    miner.push_file(&b"HELLO".repeat(800));
    let dict = miner.build_dictionary().expect("trains");
    assert!(dict.windows(5).any(|w| w == b"HELLO"));
}

#[test]
fn round_trip_recovers_every_file() {
    let cfg = small_config(2048);
    let mut tree = DirNode::empty_dir();
    let mut sub = DirNode::empty_dir();
    sub.add_node("inner.txt", file_node(b"the inner text, repeated. ".repeat(40)));
    tree.add_node("outer.bin", file_node((0u8..=255).cycle().take(3000).collect()));
    tree.add_node("sub", sub);
    tree.add_node("empty.txt", file_node(Vec::new()));
    let archive = compress(&tree, &cfg).expect("compresses");

    let mut recovered = recover_files(&archive);
    recovered.sort();
    assert_eq!(recovered.len(), 3);
    assert_eq!(recovered[0].0, "empty.txt");
    assert_eq!(recovered[0].1, Vec::<u8>::new());
    assert_eq!(recovered[1].0, "outer.bin");
    assert_eq!(recovered[1].1, (0u8..=255).cycle().take(3000).collect::<Vec<u8>>());
    assert_eq!(recovered[2].0, "sub/inner.txt");
    assert_eq!(recovered[2].1, b"the inner text, repeated. ".repeat(40));
}

#[test]
fn identical_files_share_the_dictionary_and_deduplicate_payload() {
    let cfg = small_config(2048);
    let block: Vec<u8> = b"ABCDEFGHIJKLMNOPQRSTUVWXYZ012345".to_vec();
    assert_eq!(block.len(), 32);
    let mut tree = DirNode::empty_dir();
    for i in 0..10 {
        tree.add_node(&format!("copy{}", i), file_node(block.clone()));
    }
    let archive = compress(&tree, &cfg).expect("compresses");

    let (length, _) = read_trailer(&archive).expect("trailer");
    let body = &archive[8..8 + length as usize];
    let mut walk = Walk { body, extents: vec![(0, 2)], files: Vec::new() };
    // Find the top directory through the root and archive objects.
    let (_, root_off) = read_trailer(&archive).expect("trailer");
    let mut pos = root_off as usize;
    assert_eq!(vu(body, &mut pos), 4);
    let main_off = vu(body, &mut pos) as usize;
    let mut pos = main_off;
    assert_eq!(vu(body, &mut pos), 3);
    let top_dir = vu(body, &mut pos) as usize;
    walk.walk_dir(top_dir, "");
    assert_eq!(walk.files.len(), 10);

    // Record the dictionary filter and blob extents so payload spans start
    // in the right place.
    let first_blob = walk.files[0].1;
    let mut pos = first_blob;
    assert_eq!(vu(body, &mut pos), 0);
    let dict_filter = vu(body, &mut pos) as usize;
    let mut pos = dict_filter;
    assert_eq!(vu(body, &mut pos), 0x20);
    let dict_blob = vu(body, &mut pos) as usize;
    assert_eq!(vu(body, &mut pos), 0);
    walk.extents.push((dict_filter, pos));
    let mut pos = dict_blob;
    assert_eq!(vu(body, &mut pos), 0);
    assert_eq!(vu(body, &mut pos), 0);
    assert_eq!(vu(body, &mut pos), 0);
    walk.extents.push((dict_blob, pos));

    // Every blob names the same dictionary filter.
    let mut filters = Vec::new();
    for &(_, off) in &walk.files {
        let mut pos = off;
        assert_eq!(vu(body, &mut pos), 0);
        filters.push(vu(body, &mut pos));
    }
    filters.dedup();
    assert_eq!(filters.len(), 1);

    // The compressed payloads together undercut ten raw copies.
    let total: usize = walk.files.iter().map(|&(_, off)| walk.payload_of(off).len()).sum();
    assert!(total < 10 * 32, "total payload is {} bytes", total);
}

#[test]
fn trailer_parsing_refuses_short_or_garbled_input() {
    assert_eq!(read_trailer(b"DiarArc1"), None);
    let cfg = small_config(1024);
    let archive = compress(&DirNode::empty_dir(), &cfg).expect("compresses");
    let mut garbled = archive.clone();
    let magic_start = garbled.len() - 24;
    garbled[magic_start] ^= 0xFF;
    assert_eq!(read_trailer(&garbled), None);
}
