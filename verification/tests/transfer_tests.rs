use ci_transfer::error::TransferError;
use ci_transfer::transfer::{build_transfer_plan, PlanStep, SourceKind, SourceSpec};
use ci_transfer::walk::FsNode;

fn dir_source() -> SourceSpec {
    SourceSpec {
        path: "src".to_string(),
        kind: SourceKind::Directory {
            tree: FsNode::Dir {
                name: "src".to_string(),
                entries: vec![
                    FsNode::File { name: "a.txt".to_string(), size: 3 },
                    FsNode::Dir {
                        name: "sub".to_string(),
                        entries: vec![FsNode::File { name: "b.txt".to_string(), size: 5 }],
                    },
                ],
            },
        },
    }
}

#[test]
fn directory_to_directory_destination() {
    let sources = vec![dir_source()];
    let plan = build_transfer_plan(&sources, "/remote/out/").unwrap();
    let expected = vec![
        PlanStep::MakeDir { remote_path: "/remote/out/src".to_string() },
        PlanStep::CopyFile {
            local_path: "src/a.txt".to_string(),
            remote_path: "/remote/out/src/a.txt".to_string(),
            size: 3,
        },
        PlanStep::MakeDir { remote_path: "/remote/out/src/sub".to_string() },
        PlanStep::CopyFile {
            local_path: "src/sub/b.txt".to_string(),
            remote_path: "/remote/out/src/sub/b.txt".to_string(),
            size: 5,
        },
    ];
    assert_eq!(plan, expected);
}

#[test]
fn empty_sources_is_empty_plan() {
    let sources: Vec<SourceSpec> = vec![];
    let plan = build_transfer_plan(&sources, "/remote/out/").unwrap();
    assert!(plan.is_empty());
}

#[test]
fn missing_source_fails_whole_plan() {
    let sources = vec![
        SourceSpec { path: "a.txt".to_string(), kind: SourceKind::RegularFile { size: 1 } },
        SourceSpec { path: "gone.bin".to_string(), kind: SourceKind::Missing },
    ];
    let err = build_transfer_plan(&sources, "/remote/out/").unwrap_err();
    match err {
        TransferError::SourceNotFound(p) => assert_eq!(p, "gone.bin"),
        _ => panic!("wrong error kind"),
    }
}

#[test]
fn single_file_to_bare_destination_is_rename() {
    let sources = vec![
        SourceSpec { path: "local/a.txt".to_string(), kind: SourceKind::RegularFile { size: 9 } },
    ];
    let plan = build_transfer_plan(&sources, "/srv/renamed.txt").unwrap();
    let expected = vec![
        PlanStep::CopyFile {
            local_path: "local/a.txt".to_string(),
            remote_path: "/srv/renamed.txt".to_string(),
            size: 9,
        },
    ];
    assert_eq!(plan, expected);
}

#[test]
fn multiple_files_to_bare_destination() {
    let sources = vec![
        SourceSpec { path: "a.txt".to_string(), kind: SourceKind::RegularFile { size: 1 } },
        SourceSpec { path: "b.txt".to_string(), kind: SourceKind::RegularFile { size: 2 } },
    ];
    let plan = build_transfer_plan(&sources, "d").unwrap();
    let expected = vec![
        PlanStep::CopyFile {
            local_path: "a.txt".to_string(),
            remote_path: "d/a.txt".to_string(),
            size: 1,
        },
        PlanStep::CopyFile {
            local_path: "b.txt".to_string(),
            remote_path: "d/b.txt".to_string(),
            size: 2,
        },
    ];
    assert_eq!(plan, expected);
}
