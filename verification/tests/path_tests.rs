use icon_cache::cache::IconCache;
use icon_cache::cache::get_cached_icon;
use icon_cache::extract::check_file_exists;
use icon_cache::extract::extract_directory_icon;
use icon_cache::extract::extract_file_icon;
use icon_cache::extract::extract_icons_batch;
use icon_cache::extract::path_extension;
use icon_cache::extract::validate_file_path;
use icon_cache::model::FileMeta;
use icon_cache::model::PathProbe;
use icon_cache::placeholder::IconCategory;
use icon_cache::placeholder::get_default_icon_for_extension;
use icon_cache::placeholder::glyph_for_category;
use icon_cache::placeholder::icon_category_for_extension;

fn file_probe(size: u64, modified: u64) -> PathProbe {
    PathProbe { exists: true, is_file: true, is_dir: false, meta: Some(FileMeta { size, modified }) }
}

fn dir_probe() -> PathProbe {
    PathProbe { exists: true, is_file: false, is_dir: true, meta: Some(FileMeta { size: 0, modified: 7 }) }
}

fn missing_probe() -> PathProbe {
    PathProbe { exists: false, is_file: false, is_dir: false, meta: None }
}

fn b64_decode(s: &str) -> Vec<u8> {
    base64::Engine::decode(&base64::engine::general_purpose::STANDARD, s).unwrap()
}

#[test]
fn extension_of_plain_windows_path() {
    assert_eq!(path_extension("C:\\apps\\tool.exe").as_deref(), Some("exe"));
}

#[test]
fn extension_takes_the_last_dot() {
    assert_eq!(path_extension("archive.tar.gz").as_deref(), Some("gz"));
}

#[test]
fn extension_edge_cases() {
    assert_eq!(path_extension("noext"), None);
    assert_eq!(path_extension(".bashrc"), None);
    assert_eq!(path_extension("dir/.hidden"), None);
    assert_eq!(path_extension("dir/file.").as_deref(), Some(""));
    assert_eq!(path_extension("a/b.c/d"), None);
    assert_eq!(path_extension(""), None);
    assert_eq!(path_extension("dir.d/"), None);
}

#[test]
fn categories_cover_the_extension_table() {
    assert_eq!(icon_category_for_extension("exe"), IconCategory::Executable);
    assert_eq!(icon_category_for_extension("msi"), IconCategory::Executable);
    assert_eq!(icon_category_for_extension("md"), IconCategory::Document);
    assert_eq!(icon_category_for_extension("pdf"), IconCategory::Pdf);
    assert_eq!(icon_category_for_extension("jpeg"), IconCategory::Image);
    assert_eq!(icon_category_for_extension("flac"), IconCategory::Audio);
    assert_eq!(icon_category_for_extension("mkv"), IconCategory::Video);
    assert_eq!(icon_category_for_extension("7z"), IconCategory::Archive);
    assert_eq!(icon_category_for_extension("html"), IconCategory::Web);
    assert_eq!(icon_category_for_extension("rs"), IconCategory::SourceCode);
    assert_eq!(icon_category_for_extension("xyz"), IconCategory::Folder);
    assert_eq!(icon_category_for_extension(""), IconCategory::Folder);
}

#[test]
fn placeholder_mapping_ignores_ascii_case() {
    assert_eq!(icon_category_for_extension("exe"), icon_category_for_extension("EXE"));
    assert_eq!(icon_category_for_extension("ExE"), IconCategory::Executable);
    assert_eq!(get_default_icon_for_extension("exe"), get_default_icon_for_extension("EXE"));
    assert_eq!(get_default_icon_for_extension("exe"), "\u{2699}\u{fe0f}");
}

#[test]
fn glyphs_are_fixed_per_category() {
    assert_eq!(glyph_for_category(IconCategory::Folder), "\u{1f4c1}");
    assert_eq!(glyph_for_category(IconCategory::Executable), "\u{2699}\u{fe0f}");
    assert_eq!(glyph_for_category(IconCategory::SourceCode), "\u{1f4bb}");
}

#[test]
fn extract_file_icon_encodes_the_glyph() {
    let res = extract_file_icon("C:\\apps\\tool.exe", true, &file_probe(10, 500)).unwrap();
    assert_eq!(res.icon_format, "text");
    assert!(!res.from_cache);
    assert!(res.file_hash.is_none());
    assert_eq!(b64_decode(&res.icon_data), "\u{2699}\u{fe0f}".as_bytes());
}

#[test]
fn extract_file_icon_same_extension_same_payload() {
    let a = extract_file_icon("C:\\one\\x.exe", false, &file_probe(1, 1)).unwrap();
    let b = extract_file_icon("D:\\two\\y.EXE", true, &file_probe(2, 2)).unwrap();
    assert_eq!(a.icon_data, b.icon_data);
}

#[test]
fn extract_file_icon_missing_file_fails() {
    let err = extract_file_icon("C:\\gone.exe", true, &missing_probe()).unwrap_err();
    assert_eq!(err, "File does not exist");
}

#[test]
fn extract_directory_icon_encodes_the_folder_glyph() {
    let res = extract_directory_icon("C:\\apps", true, &dir_probe()).unwrap();
    assert_eq!(res.icon_format, "text");
    assert_eq!(b64_decode(&res.icon_data), "\u{1f4c1}".as_bytes());
}

#[test]
fn extract_directory_icon_rejects_non_directories() {
    let err = extract_directory_icon("C:\\a.exe", true, &file_probe(1, 1)).unwrap_err();
    assert_eq!(err, "Directory does not exist");
    let err2 = extract_directory_icon("C:\\gone", true, &missing_probe()).unwrap_err();
    assert_eq!(err2, "Directory does not exist");
}

#[test]
fn batch_extraction_pairs_each_path_with_its_outcome() {
    let paths = vec!["C:\\a.exe".to_string(), "C:\\dir".to_string(), "C:\\gone.txt".to_string()];
    let probes = vec![file_probe(1, 1), dir_probe(), missing_probe()];
    let out = extract_icons_batch(paths, true, probes);
    assert_eq!(out.len(), 3);
    assert_eq!(out[0].0, "C:\\a.exe");
    assert_eq!(b64_decode(&out[0].1.as_ref().unwrap().icon_data), "\u{2699}\u{fe0f}".as_bytes());
    assert_eq!(out[1].0, "C:\\dir");
    assert_eq!(b64_decode(&out[1].1.as_ref().unwrap().icon_data), "\u{1f4c1}".as_bytes());
    assert_eq!(out[2].0, "C:\\gone.txt");
    assert_eq!(out[2].1.as_ref().unwrap_err(), "File does not exist");
}

#[test]
fn validate_rejects_empty_path() {
    let err = validate_file_path("", &file_probe(1, 1)).unwrap_err();
    assert_eq!(err, "File path is empty");
}

#[test]
fn validate_rejects_reserved_characters() {
    let err = validate_file_path("C:\\a<b.exe", &file_probe(1, 1)).unwrap_err();
    assert_eq!(err, "File path contains invalid character: <");
    let err = validate_file_path("C:\\a*b?.exe", &file_probe(1, 1)).unwrap_err();
    assert_eq!(err, "File path contains invalid character: ?");
}

#[test]
fn validate_rejects_bad_drive_letter() {
    let err = validate_file_path("1:\\tool.exe", &file_probe(1, 1)).unwrap_err();
    assert_eq!(err, "Invalid drive letter in path");
}

#[test]
fn validate_reports_missing_and_non_file_paths() {
    let err = validate_file_path("C:\\gone.exe", &missing_probe()).unwrap_err();
    assert_eq!(err, "File does not exist");
    let err = validate_file_path("C:\\apps", &dir_probe()).unwrap_err();
    assert_eq!(err, "Path is not a file");
}

#[test]
fn validate_accepts_a_plain_existing_file() {
    assert_eq!(validate_file_path("C:\\apps\\tool.exe", &file_probe(1, 1)).unwrap(), true);
}

#[test]
fn check_file_exists_reports_the_probe() {
    assert_eq!(check_file_exists("C:\\a", &file_probe(1, 1)).unwrap(), true);
    assert_eq!(check_file_exists("C:\\b", &missing_probe()).unwrap(), false);
}

#[test]
fn lookup_end_to_end_cache_round_trip() {
    let mut cache = IconCache::new(100, 3600);
    let probe = file_probe(10, 500);
    let first = get_cached_icon(&mut cache, "C:\\apps\\tool.exe", true, 1000, &probe).unwrap();
    assert!(!first.from_cache);
    assert!(!first.icon_data.is_empty());
    let second = get_cached_icon(&mut cache, "C:\\apps\\tool.exe", true, 1001, &probe).unwrap();
    assert!(second.from_cache);
    assert_eq!(second.icon_data, first.icon_data);
    // Touching the file's modification time forces re-extraction.
    let touched = file_probe(10, 501);
    let third = get_cached_icon(&mut cache, "C:\\apps\\tool.exe", true, 1002, &touched).unwrap();
    assert!(!third.from_cache);
    assert_eq!(third.icon_data, first.icon_data);
}

#[test]
fn lookup_of_missing_path_fails_and_caches_nothing() {
    let mut cache = IconCache::new(10, 3600);
    let err = get_cached_icon(&mut cache, "C:\\gone.exe", true, 0, &missing_probe()).unwrap_err();
    assert_eq!(err, "File does not exist");
    assert_eq!(cache.get_stats().unwrap().total_entries, 0);
}

#[test]
fn lookup_of_directory_uses_the_folder_glyph() {
    let mut cache = IconCache::new(10, 3600);
    let res = get_cached_icon(&mut cache, "C:\\apps", false, 0, &dir_probe()).unwrap();
    assert_eq!(b64_decode(&res.icon_data), "\u{1f4c1}".as_bytes());
    assert_eq!(cache.get_stats().unwrap().total_entries, 1);
}

#[test]
fn preload_populates_only_what_it_can() {
    let mut cache = IconCache::new(10, 3600);
    let paths = vec!["C:\\a.exe".to_string(), "C:\\gone.txt".to_string()];
    let probes = vec![file_probe(1, 1), missing_probe()];
    cache.preload_icons(paths, probes, 100).unwrap();
    assert_eq!(cache.get_stats().unwrap().total_entries, 1);
    assert!(cache.get("C:\\a.exe", 100, Some(FileMeta { size: 1, modified: 1 })).is_some());
    assert!(cache.get("C:\\gone.txt", 100, None).is_none());
}

#[test]
fn preload_skips_valid_entries() {
    let mut cache = IconCache::new(10, 3600);
    let probe = file_probe(1, 1);
    let first = get_cached_icon(&mut cache, "C:\\a.exe", true, 100, &probe).unwrap();
    cache.preload_icons(vec!["C:\\a.exe".to_string()], vec![probe], 150).unwrap();
    let got = cache.get("C:\\a.exe", 150, Some(FileMeta { size: 1, modified: 1 })).unwrap();
    assert_eq!(got.icon_data, first.icon_data);
    assert_eq!(cache.get_stats().unwrap().total_entries, 1);
}
