//! Which files and directories look like cleanup candidates, and why.
//!
//! Paths are read through `PathInfo`: the parts of a path that the rules
//! look at, each as text (`None` where the operating system's name is not
//! valid Unicode).
use vstd::prelude::*;
use crate::text::{ascii_lower, chars_equal_str, chars_of, lower_chars};

verus! {

/// The parts of a filesystem path that the cleanup rules read.
pub struct PathInfo {
    /// The whole path as it is shown to people.
    pub display: String,
    /// The last component, when it is a normal name.
    pub file_name: Option<String>,
    /// The extension of the last component (the text after its last dot),
    /// when it has one.
    pub extension: Option<String>,
    /// Every component of the path (root, prefix, `.`, `..` and names), in order.
    pub components: Vec<Option<String>>,
}

/// Why an entry was reported as a cleanup candidate.
#[derive(Clone, Copy, Debug, PartialEq, Eq, Structural)]
pub enum CleanupReason {
    /// A directory whose own name is a temp/cache/log/dump name.
    TempOrCacheDirectory,
    /// A file whose extension marks temporary, log, backup or dump data.
    TempLogBackupExtension,
    /// A file that Windows creates for folder metadata.
    WindowsMetadataFile,
    /// An entry somewhere below a temp/cache-like directory.
    InsideTempOrCacheLocation,
}

/// The text shown for each reason.
pub open spec fn reason_text(r: CleanupReason) -> Seq<char> {
    match r {
        CleanupReason::TempOrCacheDirectory => "temporary/cache-like directory"@,
        CleanupReason::TempLogBackupExtension => "temporary/log/backup-like file extension"@,
        CleanupReason::WindowsMetadataFile => "windows metadata file"@,
        CleanupReason::InsideTempOrCacheLocation => "inside temporary/cache-like location"@,
    }
}

impl CleanupReason {
    /// The text shown for this reason.
    pub fn text(&self) -> (r: &'static str)
        ensures
            r@ == reason_text(*self),
    {
        match self {
            CleanupReason::TempOrCacheDirectory => "temporary/cache-like directory",
            CleanupReason::TempLogBackupExtension => "temporary/log/backup-like file extension",
            CleanupReason::WindowsMetadataFile => "windows metadata file",
            CleanupReason::InsideTempOrCacheLocation => "inside temporary/cache-like location",
        }
    }
}

/// Names (already lower-case) of directories that hold temporary, cached,
/// logged or dumped data.
pub open spec fn temp_or_cache_name(name: Seq<char>) -> bool {
    ||| name == "temp"@
    ||| name == "tmp"@
    ||| name == "cache"@
    ||| name == "caches"@
    ||| name == ".cache"@
    ||| name == "logs"@
    ||| name == "log"@
    ||| name == "dumps"@
    ||| name == "crashdumps"@
    ||| name == "$recycle.bin"@
}

/// Extensions (already lower-case) of temporary, log, backup and dump files.
pub open spec fn temp_extension(ext: Seq<char>) -> bool {
    ||| ext == "tmp"@
    ||| ext == "temp"@
    ||| ext == "log"@
    ||| ext == "bak"@
    ||| ext == "old"@
    ||| ext == "dmp"@
    ||| ext == "etl"@
}

/// The text of an optional name, empty where there is none.
pub open spec fn text_or_empty(s: Option<String>) -> Seq<char> {
    match s {
        Some(t) => t@,
        None => Seq::empty(),
    }
}

/// The lower-case file name of a path (empty where it has none).
pub open spec fn lower_file_name(path: PathInfo) -> Seq<char> {
    ascii_lower(text_or_empty(path.file_name))
}

/// Whether the path's file name starts with a dot and is not `.` or `..`.
pub open spec fn dot_prefixed(path: PathInfo) -> bool {
    match path.file_name {
        Some(name) => name@.len() > 0 && name@[0] == '.' && name@ != "."@ && name@ != ".."@,
        None => false,
    }
}

/// Whether some component of the path, lower-cased, is a temp/cache name.
pub open spec fn in_temp_or_cache_location(path: PathInfo) -> bool {
    exists|i: int|
        0 <= i < path.components@.len() && #[trigger] path.components@[i] is Some
            && temp_or_cache_name(ascii_lower(path.components@[i]->0@))
}

/// Why an entry at `path` is a cleanup candidate, if it is one; the rules are
/// tried in this order and the first that applies gives the reason.
pub open spec fn cleanup_reason_of(path: PathInfo, is_dir: bool) -> Option<CleanupReason> {
    let name = lower_file_name(path);
    if is_dir && temp_or_cache_name(name) {
        Some(CleanupReason::TempOrCacheDirectory)
    } else if !is_dir && path.extension is Some && temp_extension(
        ascii_lower(path.extension->0@),
    ) {
        Some(CleanupReason::TempLogBackupExtension)
    } else if !is_dir && (name == "thumbs.db"@ || name == "desktop.ini"@) {
        Some(CleanupReason::WindowsMetadataFile)
    } else if in_temp_or_cache_location(path) {
        Some(CleanupReason::InsideTempOrCacheLocation)
    } else {
        None
    }
}

/// Whether a lower-case name is one of the temp/cache directory names.
fn temp_or_cache_chars(name: &[char]) -> (r: bool)
    ensures
        r == temp_or_cache_name(name@),
{
    chars_equal_str(name, "temp") || chars_equal_str(name, "tmp") || chars_equal_str(name, "cache")
        || chars_equal_str(name, "caches") || chars_equal_str(name, ".cache") || chars_equal_str(
        name,
        "logs",
    ) || chars_equal_str(name, "log") || chars_equal_str(name, "dumps") || chars_equal_str(
        name,
        "crashdumps",
    ) || chars_equal_str(name, "$recycle.bin")
}

/// Whether a lower-case extension is one of the temporary/log/backup ones.
fn temp_extension_chars(ext: &[char]) -> (r: bool)
    ensures
        r == temp_extension(ext@),
{
    chars_equal_str(ext, "tmp") || chars_equal_str(ext, "temp") || chars_equal_str(ext, "log")
        || chars_equal_str(ext, "bak") || chars_equal_str(ext, "old") || chars_equal_str(ext, "dmp")
        || chars_equal_str(ext, "etl")
}

/// Whether a (lower-case) name is one of the temp/cache directory names:
/// temp, tmp, cache, caches, .cache, logs, log, dumps, crashdumps, $recycle.bin.
pub fn is_temp_or_cache_name(name: &str) -> (r: bool)
    ensures
        r == temp_or_cache_name(name@),
{
    let chars = chars_of(name);
    temp_or_cache_chars(chars.as_slice())
}

/// Whether the file name of `path` starts with a dot (and is not `.` or `..`).
pub fn has_dot_prefix(path: &PathInfo) -> (r: bool)
    ensures
        r == dot_prefixed(*path),
{
    match &path.file_name {
        Some(name) => {
            let chars = chars_of(name.as_str());
            chars.len() > 0 && chars[0] == '.' && !chars_equal_str(chars.as_slice(), ".")
                && !chars_equal_str(chars.as_slice(), "..")
        },
        None => false,
    }
}

/// Whether some component of `path`, lower-cased, is a temp/cache name.
pub fn path_components_contain_temp_or_cache(path: &PathInfo) -> (r: bool)
    ensures
        r == in_temp_or_cache_location(*path),
{
    let n = path.components.len();
    for i in 0..n
        invariant
            n == path.components@.len(),
            forall|j: int|
                0 <= j < i ==> !(#[trigger] path.components@[j] is Some && temp_or_cache_name(
                    ascii_lower(path.components@[j]->0@),
                )),
    {
        match &path.components[i] {
            Some(component) => {
                let chars = chars_of(component.as_str());
                let lower = lower_chars(chars.as_slice());
                if temp_or_cache_chars(lower.as_slice()) {
                    assert(path.components@[i as int] is Some);
                    return true;
                }
            },
            None => {},
        }
    }
    false
}

/// Why the entry at `path` (a directory when `is_dir`) is a cleanup
/// candidate, or `None` when it is not one.
pub fn cleanup_reason(path: &PathInfo, is_dir: bool) -> (r: Option<CleanupReason>)
    ensures
        r == cleanup_reason_of(*path, is_dir),
{
    let name_chars = match &path.file_name {
        Some(name) => chars_of(name.as_str()),
        None => Vec::new(),
    };
    let name = lower_chars(name_chars.as_slice());
    assert(name@ == lower_file_name(*path));
    if is_dir && temp_or_cache_chars(name.as_slice()) {
        return Some(CleanupReason::TempOrCacheDirectory);
    }
    if !is_dir {
        if let Some(ext) = &path.extension {
            let ext_chars = chars_of(ext.as_str());
            let ext_lower = lower_chars(ext_chars.as_slice());
            if temp_extension_chars(ext_lower.as_slice()) {
                return Some(CleanupReason::TempLogBackupExtension);
            }
        }
        if chars_equal_str(name.as_slice(), "thumbs.db") || chars_equal_str(
            name.as_slice(),
            "desktop.ini",
        ) {
            return Some(CleanupReason::WindowsMetadataFile);
        }
    }
    if path_components_contain_temp_or_cache(path) {
        return Some(CleanupReason::InsideTempOrCacheLocation);
    }
    None
}

/// The lower-case names of temporary, cache, log and dump directories, one
/// by one.
pub open spec fn listed_directory_name(n: Seq<char>) -> bool {
    n == "temp"@ || n == "tmp"@ || n == "cache"@ || n == "caches"@ || n == ".cache"@ || n
        == "logs"@ || n == "log"@ || n == "dumps"@ || n == "crashdumps"@ || n == "$recycle.bin"@
}

/// The lower-case extensions of temporary, log, backup and dump files, one by one.
pub open spec fn listed_extension(e: Seq<char>) -> bool {
    e == "tmp"@ || e == "temp"@ || e == "log"@ || e == "bak"@ || e == "old"@ || e == "dmp"@ || e
        == "etl"@
}

/// A file whose extension, in any case, is tmp, temp, log, bak, old, dmp or
/// etl is a candidate for that extension; and a file is a candidate for its
/// extension only then.
pub proof fn lemma_file_extensions(path: PathInfo)
    ensures
        path.extension is Some && listed_extension(ascii_lower(path.extension->0@))
            ==> cleanup_reason_of(path, false) == Some(CleanupReason::TempLogBackupExtension),
        cleanup_reason_of(path, false) == Some(CleanupReason::TempLogBackupExtension)
            ==> path.extension is Some && listed_extension(ascii_lower(path.extension->0@)),
{
}

/// A directory whose own name, in any case, is temp, tmp, cache, caches,
/// .cache, logs, log, dumps, crashdumps or $recycle.bin is a candidate for
/// that name; and a directory is a candidate for its name only then.
pub proof fn lemma_directory_names(path: PathInfo)
    ensures
        listed_directory_name(lower_file_name(path)) ==> cleanup_reason_of(path, true) == Some(
            CleanupReason::TempOrCacheDirectory,
        ),
        cleanup_reason_of(path, true) == Some(CleanupReason::TempOrCacheDirectory)
            ==> listed_directory_name(lower_file_name(path)),
{
}

/// An entry with some component that, in any case, is one of the temporary,
/// cache, log or dump directory names is always a candidate, whatever it is
/// and whatever its name; and an entry is a candidate for its location only
/// when it has such a component.
pub proof fn lemma_location_makes_candidate(path: PathInfo, is_dir: bool, i: int)
    requires
        0 <= i < path.components@.len(),
        path.components@[i] is Some,
        listed_directory_name(ascii_lower(path.components@[i]->0@)),
    ensures
        cleanup_reason_of(path, is_dir) is Some,
{
    assert(in_temp_or_cache_location(path));
}

/// An entry is a candidate for its location only when some component, in
/// any case, is one of the temporary, cache, log or dump directory names.
pub proof fn lemma_location_needs_listed_component(path: PathInfo, is_dir: bool)
    ensures
        cleanup_reason_of(path, is_dir) == Some(CleanupReason::InsideTempOrCacheLocation)
            ==> exists|i: int|
            0 <= i < path.components@.len() && #[trigger] path.components@[i] is Some
                && listed_directory_name(ascii_lower(path.components@[i]->0@)),
{
}

/// The directory-name test accepts exactly the listed names.
pub proof fn lemma_temp_or_cache_names(name: Seq<char>)
    ensures
        temp_or_cache_name(name) == listed_directory_name(name),
{
}

} // verus!
