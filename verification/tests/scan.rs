use scanner::{
    analyze, CleanupReason, DirEntry, DirListing, EntryKind, PathInfo, ScanError, ScanNode,
};
use std::path::Path;

fn path_info(path: &str) -> PathInfo {
    let p = Path::new(path);
    PathInfo {
        display: p.display().to_string(),
        file_name: p.file_name().and_then(|n| n.to_str()).map(|n| n.to_string()),
        extension: p.extension().and_then(|e| e.to_str()).map(|e| e.to_string()),
        components: p.components().map(|c| c.as_os_str().to_str().map(|s| s.to_string())).collect(),
    }
}

fn file(path: &str, size: u64) -> DirEntry {
    DirEntry::Scanned(ScanNode { path: path_info(path), hidden_attribute: false, kind: EntryKind::File(size) })
}

fn dir_node(path: &str, entries: Vec<DirEntry>) -> ScanNode {
    ScanNode {
        path: path_info(path),
        hidden_attribute: false,
        kind: EntryKind::Directory(DirListing::Entries(entries)),
    }
}

fn fixture(root: &str) -> ScanNode {
    dir_node(
        root,
        vec![
            file(&format!("{root}/large.bin"), 10),
            DirEntry::Scanned(dir_node(
                &format!("{root}/nested"),
                vec![
                    file(&format!("{root}/nested/note.tmp"), 5),
                    DirEntry::Scanned(dir_node(
                        &format!("{root}/nested/cache"),
                        vec![file(&format!("{root}/nested/cache/debug.log"), 7)],
                    )),
                ],
            )),
        ],
    )
}

fn check_fixture(root: &str) {
    let report = analyze(&fixture(root));

    assert_eq!(report.total_size, 22);
    assert_eq!(report.files_scanned, 3);
    assert!(report.dirs_scanned >= 3);
    assert_eq!(report.files.first().expect("largest file").size, 10);
    assert!(report.candidates.iter().any(|candidate| candidate.path.ends_with("note.tmp")));
    assert!(report.candidates.iter().any(|candidate| candidate.path.ends_with("cache")));
}

#[test]
fn lib_aggregates_sizes_and_candidates() {
    check_fixture("/tmp/storage-cleanup-helper-scan-1");
}

#[test]
fn main_aggregates_sizes_and_candidates() {
    check_fixture("/home/user/storage-cleanup-helper-scan-2");
}

#[test]
fn analyze_lists_largest_first_and_reasons() {
    let report = analyze(&fixture("/home/user/scan"));
    let files: Vec<(String, u64)> = report.files.iter().map(|f| (f.path.clone(), f.size)).collect();
    assert_eq!(
        files,
        vec![
            ("/home/user/scan/large.bin".to_string(), 10),
            ("/home/user/scan/nested/cache/debug.log".to_string(), 7),
            ("/home/user/scan/nested/note.tmp".to_string(), 5),
        ]
    );
    let dirs: Vec<(String, u64)> = report.dirs.iter().map(|d| (d.path.clone(), d.size)).collect();
    assert_eq!(
        dirs,
        vec![
            ("/home/user/scan".to_string(), 22),
            ("/home/user/scan/nested".to_string(), 12),
            ("/home/user/scan/nested/cache".to_string(), 7),
        ]
    );
    let candidates: Vec<(String, u64, CleanupReason)> =
        report.candidates.iter().map(|c| (c.path.clone(), c.size, c.reason)).collect();
    assert_eq!(
        candidates,
        vec![
            ("/home/user/scan/nested/cache/debug.log".to_string(), 7, CleanupReason::TempLogBackupExtension),
            ("/home/user/scan/nested/cache".to_string(), 7, CleanupReason::TempOrCacheDirectory),
            ("/home/user/scan/nested/note.tmp".to_string(), 5, CleanupReason::TempLogBackupExtension),
        ]
    );
    assert_eq!(report.root, "/home/user/scan");
    assert_eq!(report.dirs_scanned, 3);
    assert_eq!(report.hidden_entries, 0);
    assert!(report.errors.is_empty());
}

#[test]
fn analyze_keeps_found_order_for_equal_sizes() {
    let root = dir_node(
        "/d",
        vec![file("/d/b", 4), file("/d/a", 4), file("/d/c", 9), file("/d/e", 4)],
    );
    let report = analyze(&root);
    let names: Vec<&str> = report.files.iter().map(|f| f.path.as_str()).collect();
    assert_eq!(names, vec!["/d/c", "/d/b", "/d/a", "/d/e"]);
}

#[test]
fn analyze_counts_links_hidden_other_and_errors() {
    let root = ScanNode {
        path: path_info("/r"),
        hidden_attribute: false,
        kind: EntryKind::Directory(DirListing::Entries(vec![
            DirEntry::Scanned(ScanNode {
                path: path_info("/r/link"),
                hidden_attribute: false,
                kind: EntryKind::Symlink,
            }),
            DirEntry::Scanned(ScanNode {
                path: path_info("/r/.profile"),
                hidden_attribute: false,
                kind: EntryKind::File(3),
            }),
            DirEntry::Scanned(ScanNode {
                path: path_info("/r/.hidden-link"),
                hidden_attribute: false,
                kind: EntryKind::Symlink,
            }),
            DirEntry::Scanned(ScanNode {
                path: path_info("/r/fifo"),
                hidden_attribute: true,
                kind: EntryKind::Other,
            }),
            DirEntry::MetadataFailed(ScanError {
                path: "/r/gone".to_string(),
                message: "not found".to_string(),
            }),
            DirEntry::Unlisted("read failed".to_string()),
            DirEntry::Scanned(ScanNode {
                path: path_info("/r/locked"),
                hidden_attribute: false,
                kind: EntryKind::Directory(DirListing::Unreadable("permission denied".to_string())),
            }),
        ])),
    };
    let report = analyze(&root);
    assert_eq!(report.symlinks_skipped, 2);
    assert_eq!(report.hidden_entries, 2);
    assert_eq!(report.other_entries, 1);
    assert_eq!(report.files_scanned, 1);
    assert_eq!(report.dirs_scanned, 2);
    assert_eq!(report.total_size, 3);
    let errors: Vec<(&str, &str)> =
        report.errors.iter().map(|e| (e.path.as_str(), e.message.as_str())).collect();
    assert_eq!(
        errors,
        vec![("/r/gone", "not found"), ("/r", "read failed"), ("/r/locked", "permission denied")]
    );
    assert_eq!(report.dirs.iter().map(|d| d.size).collect::<Vec<_>>(), vec![3, 0]);
}

#[test]
fn analyze_of_a_single_file_or_link() {
    let report = analyze(&ScanNode {
        path: path_info("/var/log/app.LOG"),
        hidden_attribute: false,
        kind: EntryKind::File(42),
    });
    assert_eq!(report.total_size, 42);
    assert_eq!(report.files_scanned, 1);
    assert_eq!(report.dirs_scanned, 0);
    assert_eq!(report.candidates.len(), 1);
    assert_eq!(report.candidates[0].reason, CleanupReason::TempLogBackupExtension);

    let report = analyze(&ScanNode {
        path: path_info("/x/link"),
        hidden_attribute: false,
        kind: EntryKind::Symlink,
    });
    assert_eq!(report.symlinks_skipped, 1);
    assert_eq!(report.total_size, 0);
    assert!(report.files.is_empty() && report.dirs.is_empty());
}

#[test]
fn directory_sizes_are_totals_of_files_under_them() {
    let report = analyze(&fixture("/home/user/tree"));
    for d in &report.dirs {
        let total: u64 = report
            .files
            .iter()
            .filter(|f| f.path == d.path || f.path.starts_with(&format!("{}/", d.path)))
            .map(|f| f.size)
            .sum();
        assert_eq!(d.size, total, "{}", d.path);
        assert!(d.path.starts_with("/home/user/tree"));
    }
    assert!(report.files.iter().all(|f| f.path.starts_with("/home/user/tree/")));
}
