use scanner::render::render_report;
use scanner::{CleanupCandidate, CleanupReason, ScanError, ScanReport, SizedEntry};

fn entry(path: &str, size: u64) -> SizedEntry {
    SizedEntry { path: path.to_string(), size }
}

#[test]
fn renders_the_text_report() {
    let report = ScanReport {
        root: "/data".to_string(),
        total_size: 1536,
        files_scanned: 2,
        dirs_scanned: 1,
        hidden_entries: 0,
        symlinks_skipped: 1,
        other_entries: 0,
        errors: vec![
            ScanError { path: "/data/a".to_string(), message: "denied".to_string() },
            ScanError { path: "/data/b".to_string(), message: "gone".to_string() },
        ],
        files: vec![entry("/data/big", 1024), entry("/data/x.tmp", 512)],
        dirs: vec![entry("/data", 1536)],
        candidates: vec![CleanupCandidate {
            path: "/data/x.tmp".to_string(),
            size: 512,
            reason: CleanupReason::TempLogBackupExtension,
        }],
    };
    let expected = [
        "Scan root: /data\n",
        "Total file size: 1.5 KB\n",
        "Scanned: 2 files, 1 directories, 0 hidden entries\n",
        "Skipped: 1 symlinks, 0 other entries, 2 access errors\n",
        "\nLargest directories\n",
        "      1.5 KB  /data\n",
        "\nLargest files\n",
        "      1.0 KB  /data/big\n",
        "\nLikely cleanup candidates\n",
        "       512 B  /data/x.tmp  (temporary/log/backup-like file extension)\n",
        "\nAccess errors\n",
        "  /data/a  denied\n",
        "  ... 1 more\n",
    ]
    .concat();
    assert_eq!(render_report(&report, 1), expected);
}

#[test]
fn renders_empty_sections() {
    let report = ScanReport {
        root: "/e".to_string(),
        total_size: 0,
        files_scanned: 0,
        dirs_scanned: 1,
        hidden_entries: 0,
        symlinks_skipped: 0,
        other_entries: 0,
        errors: vec![],
        files: vec![],
        dirs: vec![entry("/e", 0)],
        candidates: vec![],
    };
    let text = render_report(&report, 15);
    let expected = [
        "Scan root: /e\n",
        "Total file size: 0 B\n",
        "Scanned: 0 files, 1 directories, 0 hidden entries\n",
        "Skipped: 0 symlinks, 0 other entries, 0 access errors\n",
        "\nLargest directories\n",
        "         0 B  /e\n",
        "\nLargest files\n",
        "  none\n",
        "\nLikely cleanup candidates\n",
        "  none\n",
    ]
    .concat();
    assert_eq!(text, expected);
}
