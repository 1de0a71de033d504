//! The dictionary miner over small corpora: the size bound, the recurring
//! literal scenarios, and the refusal of path-backed files.
use diar::chunker::ChunkConfig;
use diar::dir_tree::{DataSource, DirNode, DirNodeData};
use diar::errors::{Error, ErrorContents};
use diar::miner::{BuildSamples, BuildSamplesConfiguration};

fn small_config(dictionary_size: usize) -> BuildSamplesConfiguration {
    BuildSamplesConfiguration {
        dictionary_size,
        excess_samples_factor: 2,
        hash_table_size: 4096,
        chunker: ChunkConfig::new(0x8835, 16, 256),
        basic_dict_samples_count: 128,
        basic_dict_samples_max_size: 32 * 1024,
    }
}

fn file_node(data: Vec<u8>) -> DirNode {
    DirNode {
        data: DirNodeData::FileNode {
            contents: DataSource::Data { path_hint: String::new(), data },
        },
    }
}

struct Lcg(u64);

impl Lcg {
    fn next(&mut self) -> u64 {
        self.0 = self.0.wrapping_mul(6364136223846793005).wrapping_add(1442695040888963407);
        self.0
    }
}

fn contains(haystack: &[u8], needle: &[u8]) -> bool {
    haystack.windows(needle.len()).any(|w| w == needle)
}

#[test]
fn dictionary_never_exceeds_the_configured_size() {
    for size in [64usize, 512, 4096] {
        let cfg = small_config(size);
        let mut miner = BuildSamples::new(&cfg);
        let mut rng = Lcg(5);
        for i in 0..200u32 {
            let mut data = format!("shared prefix of every file {}", i % 7).into_bytes();
            for _ in 0..64 {
                data.extend_from_slice(&rng.next().to_le_bytes());
            }
            miner.push_file(&data);
        }
        let dict = miner.build_dictionary().expect("trains");
        assert!(dict.len() <= size, "{} > {}", dict.len(), size);
    }
}

#[test]
fn recurring_prefix_reaches_the_dictionary() {
    // A thousand files, each a fixed marker followed by 16 random bytes:
    // the marker must appear early in the dictionary.
    let cfg = small_config(4096);
    let mut miner = BuildSamples::new(&cfg);
    let mut rng = Lcg(42);
    for _ in 0..1000 {
        let mut data = b"prefix=".to_vec();
        data.extend_from_slice(&rng.next().to_le_bytes());
        data.extend_from_slice(&rng.next().to_le_bytes());
        miner.push_file(&data);
    }
    let dict = miner.build_dictionary().expect("trains");
    assert!(
        contains(&dict, b"prefix="),
        "marker missing from {} dictionary bytes",
        dict.len()
    );
}

#[test]
fn add_nodes_walks_a_tree_and_mines_every_file() {
    let cfg = small_config(1024);
    let mut miner = BuildSamples::new(&cfg);
    let mut root = DirNode::empty_dir();
    let mut sub = DirNode::empty_dir();
    sub.add_node("inner.txt", file_node(b"the shared body of text ".repeat(64)));
    root.add_node("outer.txt", file_node(b"the shared body of text ".repeat(64)));
    root.add_node("sub", sub);
    miner.add_nodes(&root).expect("walks");
    let dict = miner.build_dictionary().expect("trains");
    assert!(dict.len() <= 1024);
    assert!(!dict.is_empty());
}

#[test]
fn a_path_backed_file_is_refused() {
    let cfg = small_config(1024);
    let mut miner = BuildSamples::new(&cfg);
    let node = DirNode {
        data: DirNodeData::FileNode {
            contents: DataSource::from_path("somewhere/on/disk".to_string(), 10),
        },
    };
    match miner.add_nodes(&node) {
        Err(Error(ErrorContents::Kind(_))) => {},
        _ => panic!("expected an I/O kind error"),
    }
}

#[test]
fn len_hint_reports_buffer_length_and_path_hint() {
    let d = DataSource::Data { path_hint: String::new(), data: vec![1, 2, 3] };
    assert_eq!(d.len_hint(), 3);
    let p = DataSource::from_path("x".to_string(), 99);
    assert_eq!(p.len_hint(), 99);
}

#[test]
fn add_node_replaces_an_existing_name() {
    let mut dir = DirNode::empty_dir();
    dir.add_node("a", file_node(vec![1]));
    dir.add_node("b", file_node(vec![2]));
    dir.add_node("a", file_node(vec![3]));
    match &dir.data {
        DirNodeData::DirNode { contents } => {
            assert_eq!(contents.len(), 2);
            assert_eq!(contents[0].0, "a");
            match &contents[0].1.data {
                DirNodeData::FileNode { contents: DataSource::Data { data, .. } } => {
                    assert_eq!(data, &vec![3]);
                },
                _ => panic!("expected the replacement file"),
            }
        },
        _ => panic!("expected a directory"),
    }
}
