use scanner::cleanup::{
    cleanup_reason, has_dot_prefix, is_temp_or_cache_name, path_components_contain_temp_or_cache,
};
use scanner::{CleanupReason, PathInfo};
use std::path::Path;

fn path_info(path: &str) -> PathInfo {
    let p = Path::new(path);
    PathInfo {
        display: p.display().to_string(),
        file_name: p.file_name().and_then(|n| n.to_str()).map(|n| n.to_string()),
        extension: p.extension().and_then(|e| e.to_str()).map(|e| e.to_string()),
        components: p.components().map(|c| c.as_os_str().to_str().map(|s| s.to_string())).collect(),
    }
}

#[test]
fn temp_or_cache_names() {
    for name in ["temp", "tmp", "cache", "caches", ".cache", "logs", "log", "dumps", "crashdumps", "$recycle.bin"] {
        assert!(is_temp_or_cache_name(name), "{name}");
    }
    for name in ["Temp", "TMP", "cached", "", "log.txt", "recycle.bin"] {
        assert!(!is_temp_or_cache_name(name), "{name}");
    }
}

#[test]
fn dot_prefix() {
    assert!(has_dot_prefix(&path_info("/home/u/.bashrc")));
    assert!(has_dot_prefix(&path_info(".git")));
    assert!(!has_dot_prefix(&path_info("/home/u/bashrc")));
    assert!(!has_dot_prefix(&path_info("/home/u/..")));
    assert!(!has_dot_prefix(&path_info("/")));
    assert!(!has_dot_prefix(&path_info("a/b.c")));
}

#[test]
fn components_with_temp_names() {
    assert!(path_components_contain_temp_or_cache(&path_info("/var/TMP/x")));
    assert!(path_components_contain_temp_or_cache(&path_info("C:/Users/u/AppData/Local/Temp")));
    assert!(!path_components_contain_temp_or_cache(&path_info("/home/u/docs/notes.txt")));
    let mut odd = path_info("/a/b");
    odd.components.push(None);
    assert!(!path_components_contain_temp_or_cache(&odd));
}

#[test]
fn reasons_in_order_of_the_rules() {
    assert_eq!(cleanup_reason(&path_info("/home/u/Cache"), true), Some(CleanupReason::TempOrCacheDirectory));
    assert_eq!(cleanup_reason(&path_info("/home/u/Cache"), false), Some(CleanupReason::InsideTempOrCacheLocation));
    assert_eq!(cleanup_reason(&path_info("/home/u/app.BAK"), false), Some(CleanupReason::TempLogBackupExtension));
    assert_eq!(cleanup_reason(&path_info("/home/u/app.bak"), true), None);
    assert_eq!(cleanup_reason(&path_info("/home/u/Thumbs.db"), false), Some(CleanupReason::WindowsMetadataFile));
    assert_eq!(cleanup_reason(&path_info("/home/u/desktop.INI"), false), Some(CleanupReason::WindowsMetadataFile));
    assert_eq!(cleanup_reason(&path_info("/home/u/Thumbs.db"), true), None);
    assert_eq!(cleanup_reason(&path_info("/tmp/data/report.pdf"), false), Some(CleanupReason::InsideTempOrCacheLocation));
    assert_eq!(cleanup_reason(&path_info("/tmp/logs"), true), Some(CleanupReason::TempOrCacheDirectory));
    assert_eq!(cleanup_reason(&path_info("/tmp/x.log"), false), Some(CleanupReason::TempLogBackupExtension));
    assert_eq!(cleanup_reason(&path_info("/home/u/.tmp"), false), None);
    assert_eq!(cleanup_reason(&path_info("/home/u/report.pdf"), false), None);
}

#[test]
fn reason_texts() {
    assert_eq!(CleanupReason::TempOrCacheDirectory.text(), "temporary/cache-like directory");
    assert_eq!(CleanupReason::TempLogBackupExtension.text(), "temporary/log/backup-like file extension");
    assert_eq!(CleanupReason::WindowsMetadataFile.text(), "windows metadata file");
    assert_eq!(CleanupReason::InsideTempOrCacheLocation.text(), "inside temporary/cache-like location");
}
