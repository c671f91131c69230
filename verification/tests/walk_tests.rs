use ci_transfer::walk::{walk, FsNode};

fn sample_tree() -> FsNode {
    FsNode::Dir {
        name: "src".to_string(),
        entries: vec![
            FsNode::File { name: "a.txt".to_string(), size: 3 },
            FsNode::Dir {
                name: "sub".to_string(),
                entries: vec![FsNode::File { name: "b.txt".to_string(), size: 5 }],
            },
        ],
    }
}

#[test]
fn walk_yields_relative_paths() {
    let entries = walk(&sample_tree());
    assert_eq!(entries.len(), 2);
    assert_eq!(entries[0].rel_path, "a.txt");
    assert_eq!(entries[0].size, 3);
    assert_eq!(entries[1].rel_path, "sub/b.txt");
    assert_eq!(entries[1].size, 5);
}

#[test]
fn walk_counts_files_across_depth() {
    let tree = FsNode::Dir {
        name: "root".to_string(),
        entries: vec![
            FsNode::File { name: "one".to_string(), size: 1 },
            FsNode::Dir {
                name: "d1".to_string(),
                entries: vec![
                    FsNode::File { name: "two".to_string(), size: 2 },
                    FsNode::Dir {
                        name: "d2".to_string(),
                        entries: vec![
                            FsNode::File { name: "three".to_string(), size: 3 },
                            FsNode::File { name: "four".to_string(), size: 4 },
                        ],
                    },
                ],
            },
            FsNode::Dir { name: "empty".to_string(), entries: vec![] },
        ],
    };
    let entries = walk(&tree);
    assert_eq!(entries.len(), 4);
    for i in 0..entries.len() {
        for j in 0..i {
            assert_ne!(entries[i].rel_path, entries[j].rel_path);
        }
    }
}

#[test]
fn walk_again_yields_same_entries() {
    let tree = sample_tree();
    let first = walk(&tree);
    let second = walk(&tree);
    assert_eq!(first, second);
}

#[test]
fn walk_of_file_root() {
    let entries = walk(&FsNode::File { name: "f".to_string(), size: 7 });
    assert_eq!(entries.len(), 1);
    assert_eq!(entries[0].rel_path, "f");
    assert_eq!(entries[0].size, 7);
}
