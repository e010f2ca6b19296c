use hash_cache::cache::CacheKey;
use hash_cache::path::{join_path, normalize_path, parent_of, strip_base_dir, trim_leading_slashes};
use hash_cache::record::{parse_u64, u64_to_decimal};
use hash_cache::{validate_hash, Algorithm, CacheError, HashCache, HashEntry};

const MD5_A: &str = "0123456789abcdef0123456789abcdef";
const MD5_B: &str = "fedcba9876543210fedcba9876543210";
const SHA1_A: &str = "0123456789abcdef0123456789abcdef01234567";

fn cache() -> HashCache {
    HashCache::new("/base/hashes.csv".to_string(), "/base".to_string())
}

fn entry(path: &str, size: u64, time: u64, algo: Algorithm, hash: &str) -> HashEntry {
    HashEntry { path: path.to_string(), size, time, algo, hash: hash.to_string() }
}

#[test]
fn new_cache_is_empty() {
    let c = cache();
    assert_eq!(c.len(), 0);
    assert!(c.is_empty());
    assert!(c.inner().is_empty());
    assert_eq!(c.csv_path(), "/base/hashes.csv");
    assert_eq!(c.base_path(), "/base");
}

#[test]
fn loaded_records_are_found() {
    let mut c = cache();
    let text = format!(
        "path;size;time;algo;hash\n/abs/a.bin;10;20;MD5;{}\nrel/b.bin;30;40;SHA1;{}\n",
        MD5_A, SHA1_A
    );
    assert_eq!(c.load_csv("/base/hashes.csv", text.as_bytes()), Ok(2));
    assert_eq!(c.get("/abs/a.bin", 10, 20, Algorithm::MD5).map(|s| s.as_str()), Some(MD5_A));
    assert_eq!(c.get("rel/b.bin", 30, 40, Algorithm::SHA1).map(|s| s.as_str()), Some(SHA1_A));
    assert!(c.contains("rel/b.bin", 30, 40, Algorithm::SHA1));
    assert_eq!(c.len(), 2);
    assert!(!c.is_empty());
}

#[test]
fn lookup_is_exact() {
    let mut c = cache();
    let text = format!("path;size;time;algo;hash\n/a;1;2;MD5;{}\n", MD5_A);
    assert_eq!(c.load_csv("/base/hashes.csv", text.as_bytes()), Ok(1));
    assert!(c.get("/a", 1, 3, Algorithm::MD5).is_none());
    assert!(c.get("/a", 2, 2, Algorithm::MD5).is_none());
    assert!(!c.contains("/a", 1, 2, Algorithm::SHA1));
    assert!(!c.contains("/b", 1, 2, Algorithm::MD5));
}

#[test]
fn invalid_hash_is_skipped() {
    let mut c = cache();
    let text = format!(
        "path;size;time;algo;hash\n/good;1;1;MD5;{}\n/bad;2;2;MD5;xyz\n/short;3;3;SHA1;{}\n",
        MD5_A, MD5_A
    );
    let n = c.load_csv("/base/hashes.csv", text.as_bytes()).unwrap();
    assert_eq!(n, 1);
    assert!(n < 3);
    assert!(c.get("/bad", 2, 2, Algorithm::MD5).is_none());
    assert!(!c.contains("/short", 3, 3, Algorithm::SHA1));
    assert!(c.contains("/good", 1, 1, Algorithm::MD5));
}

#[test]
fn later_load_wins() {
    let mut c = cache();
    let first = format!("path;size;time;algo;hash\n/f;5;6;MD5;{}\n/only;1;1;MD5;{}\n", MD5_A, MD5_A);
    let second = format!("path;size;time;algo;hash\n/f;5;6;MD5;{}\n", MD5_B);
    assert_eq!(c.load_csv("/base/one.csv", first.as_bytes()), Ok(2));
    assert_eq!(c.load_csv("/base/two.csv", second.as_bytes()), Ok(1));
    assert_eq!(c.get("/f", 5, 6, Algorithm::MD5).map(|s| s.as_str()), Some(MD5_B));
    assert_eq!(c.get("/only", 1, 1, Algorithm::MD5).map(|s| s.as_str()), Some(MD5_A));
    assert_eq!(c.len(), 2);
}

#[test]
fn later_row_wins_within_a_file() {
    let mut c = cache();
    let text = format!("path;size;time;algo;hash\n/f;5;6;MD5;{}\n/f;5;6;MD5;{}\n", MD5_A, MD5_B);
    assert_eq!(c.load_csv("/base/hashes.csv", text.as_bytes()), Ok(2));
    assert_eq!(c.len(), 1);
    assert_eq!(c.get("/f", 5, 6, Algorithm::MD5).map(|s| s.as_str()), Some(MD5_B));
}

#[test]
fn append_then_load_round_trip() {
    let c = cache();
    let e = entry("x.bin", 123, 456, Algorithm::MD5, MD5_A);
    let bytes = c.append(&e, 0).unwrap();
    let mut fresh = cache();
    assert_eq!(fresh.load_csv("/base/hashes.csv", &bytes), Ok(1));
    assert_eq!(fresh.get("x.bin", 123, 456, Algorithm::MD5).map(|s| s.as_str()), Some(MD5_A));
}

#[test]
fn append_does_not_touch_memory() {
    let c = cache();
    let e = entry("/x", 1, 2, Algorithm::MD5, MD5_A);
    assert!(c.append(&e, 0).is_ok());
    assert!(!c.contains("/x", 1, 2, Algorithm::MD5));
    assert_eq!(c.len(), 0);
}

#[test]
fn append_writes_header_once() {
    let c = cache();
    let first = c.append(&entry("/a", 1, 2, Algorithm::MD5, MD5_A), 0).unwrap();
    assert_eq!(String::from_utf8(first.clone()).unwrap(), format!("path;size;time;algo;hash\n/a;1;2;MD5;{}\n", MD5_A));
    let second = c.append(&entry("/b", 3, 4, Algorithm::SHA1, SHA1_A), first.len() as u64).unwrap();
    assert_eq!(String::from_utf8(second.clone()).unwrap(), format!("/b;3;4;SHA1;{}\n", SHA1_A));
    let mut file = first.clone();
    file.extend_from_slice(&second);
    let text = String::from_utf8(file.clone()).unwrap();
    let lines: Vec<&str> = text.lines().collect();
    assert_eq!(lines.len(), 3);
    assert_eq!(lines.iter().filter(|l| l.starts_with("path;")).count(), 1);
    let mut c2 = cache();
    assert_eq!(c2.load_csv("/base/hashes.csv", &file), Ok(2));
}

#[test]
fn append_quotes_delimiter_in_path() {
    let c = cache();
    let bytes = c.append(&entry("/a;b", 1, 2, Algorithm::MD5, MD5_A), 7).unwrap();
    assert_eq!(String::from_utf8(bytes.clone()).unwrap(), format!("\"/a;b\";1;2;MD5;{}\n", MD5_A));
    let mut text = b"path;size;time;algo;hash\n".to_vec();
    text.extend_from_slice(&bytes);
    let mut c2 = cache();
    assert_eq!(c2.load_csv("/base/hashes.csv", &text), Ok(1));
    assert!(c2.contains("/a;b", 1, 2, Algorithm::MD5));
}

#[test]
fn absolute_path_kept() {
    let mut c = HashCache::new("/base/h.csv".to_string(), "/base".to_string());
    let text = format!("path;size;time;algo;hash\n/data/file.bin;1;2;MD5;{}\n", MD5_A);
    assert_eq!(c.load_csv("/base/dir/hashes.csv", text.as_bytes()), Ok(1));
    assert!(c.contains("/data/file.bin", 1, 2, Algorithm::MD5));
    assert_eq!(normalize_path("/data/file.bin", "/base/dir/hashes.csv", "/base"), "/data/file.bin");
    assert_eq!(normalize_path("\\data\\file.bin", "/base/dir/hashes.csv", "/base"), "\\data\\file.bin");
}

#[test]
fn relative_path_rebased() {
    let mut c = HashCache::new("/base/h.csv".to_string(), "/base".to_string());
    let text = format!("path;size;time;algo;hash\nsub/file.bin;1;2;MD5;{}\n", MD5_A);
    assert_eq!(c.load_csv("/base/dir/hashes.csv", text.as_bytes()), Ok(1));
    assert!(c.contains("dir/sub/file.bin", 1, 2, Algorithm::MD5));
    assert!(!c.contains("sub/file.bin", 1, 2, Algorithm::MD5));
    assert_eq!(normalize_path("sub/file.bin", "/base/dir/hashes.csv", "/base"), "dir/sub/file.bin");
}

#[test]
fn relative_path_outside_base_kept() {
    assert_eq!(normalize_path("sub/file.bin", "/other/hashes.csv", "/base"), "sub/file.bin");
    assert_eq!(normalize_path("sub/file.bin", "hashes.csv", "/base"), "sub/file.bin");
    assert_eq!(normalize_path("f", "/base/hashes.csv", "/base/"), "f");
    assert_eq!(normalize_path("f", "/basement/h.csv", "/base"), "f");
}

#[test]
fn malformed_rows_are_skipped() {
    let mut c = cache();
    let text = format!(
        "path;size;time;algo;hash\n/a;1;2;MD5\n/b;x;2;MD5;{}\n/c;1;-2;MD5;{}\n/d;1;2;CRC;{}\n/e;7;8;MD5;{}\n",
        MD5_A, MD5_A, MD5_A, MD5_B
    );
    assert_eq!(c.load_csv("/base/hashes.csv", text.as_bytes()), Ok(1));
    assert_eq!(c.get("/e", 7, 8, Algorithm::MD5).map(|s| s.as_str()), Some(MD5_B));
    assert_eq!(c.len(), 1);
}

#[test]
fn header_columns_found_by_name() {
    let mut c = cache();
    let text = format!("hash;algo;time;size;path\n{};MD5;2;1;/a\n", MD5_A);
    assert_eq!(c.load_csv("/base/hashes.csv", text.as_bytes()), Ok(1));
    assert!(c.contains("/a", 1, 2, Algorithm::MD5));
}

#[test]
fn missing_column_loads_nothing() {
    let mut c = cache();
    let text = format!("path;size;time;hash\n/a;1;2;{}\n", MD5_A);
    assert_eq!(c.load_csv("/base/hashes.csv", text.as_bytes()), Ok(0));
    assert!(c.is_empty());
}

#[test]
fn empty_file_loads_nothing() {
    let mut c = cache();
    assert_eq!(c.load_csv("/base/hashes.csv", b""), Ok(0));
    assert_eq!(c.load_csv("/base/hashes.csv", b"path;size;time;algo;hash\n"), Ok(0));
    assert!(c.is_empty());
}

#[test]
fn unreadable_header_is_load_error() {
    let mut c = cache();
    let text = format!("path;size;time;algo;hash\n/a;1;2;MD5;{}\n", MD5_A);
    assert_eq!(c.load_csv("/base/hashes.csv", text.as_bytes()), Ok(1));
    let bad: &[u8] = b"pa\xffth;size;time;algo;hash\n/b;1;2;MD5;x\n";
    assert_eq!(c.load_csv("/base/hashes.csv", bad), Err(CacheError::Load));
    assert_eq!(c.len(), 1);
    assert!(c.contains("/a", 1, 2, Algorithm::MD5));
}

#[test]
fn inner_lists_entries() {
    let mut c = cache();
    let text = format!("path;size;time;algo;hash\n/a;1;2;MD5;{}\n", MD5_A);
    c.load_csv("/base/hashes.csv", text.as_bytes()).unwrap();
    let entries = c.inner();
    assert_eq!(entries.len(), 1);
    assert_eq!(entries[0].0.render(), "/a|1|2|MD5");
    assert_eq!(entries[0].1, MD5_A);
}

#[test]
fn hash_validation() {
    assert!(validate_hash(MD5_A, Algorithm::MD5));
    assert!(validate_hash("0123456789ABCDEF0123456789ABCDEF", Algorithm::MD5));
    assert!(!validate_hash(MD5_A, Algorithm::SHA1));
    assert!(validate_hash(SHA1_A, Algorithm::SHA1));
    assert!(!validate_hash("0123456789abcdef0123456789abcdeg", Algorithm::MD5));
    assert!(!validate_hash("", Algorithm::MD5));
    assert!(validate_hash(&"a".repeat(64), Algorithm::SHA256));
    assert!(validate_hash(&"0".repeat(128), Algorithm::SHA512));
    assert!(!validate_hash(&"0".repeat(127), Algorithm::SHA512));
}

#[test]
fn algorithm_names() {
    assert_eq!(Algorithm::SHA256.name(), "SHA256");
    assert_eq!(Algorithm::from_name("SHA512"), Some(Algorithm::SHA512));
    assert_eq!(Algorithm::from_name("MD5"), Some(Algorithm::MD5));
    assert_eq!(Algorithm::from_name("md5"), None);
    assert_eq!(Algorithm::SHA1.digest_hex_len(), 40);
}

#[test]
fn decimal_numbers() {
    assert_eq!(parse_u64("0"), Some(0));
    assert_eq!(parse_u64("+42"), Some(42));
    assert_eq!(parse_u64("18446744073709551615"), Some(u64::MAX));
    assert_eq!(parse_u64("18446744073709551616"), None);
    assert_eq!(parse_u64(""), None);
    assert_eq!(parse_u64("+"), None);
    assert_eq!(parse_u64("12a"), None);
    assert_eq!(parse_u64("-1"), None);
    assert_eq!(u64_to_decimal(0), "0");
    assert_eq!(u64_to_decimal(1234567890), "1234567890");
    assert_eq!(u64_to_decimal(u64::MAX), "18446744073709551615");
}

#[test]
fn key_rendering_and_equality() {
    let k = CacheKey::new("a/b", 1, 2, Algorithm::SHA1);
    assert_eq!(k.render(), "a/b|1|2|SHA1");
    assert!(k.same(&CacheKey::new("a/b", 1, 2, Algorithm::SHA1)));
    assert!(!k.same(&CacheKey::new("a/b", 1, 2, Algorithm::MD5)));
}

#[test]
fn path_pieces() {
    assert_eq!(parent_of("/base/dir/h.csv"), Some("/base/dir".to_string()));
    assert_eq!(parent_of("/h.csv"), Some("/".to_string()));
    assert_eq!(parent_of("h.csv"), Some(String::new()));
    assert_eq!(parent_of("/"), None);
    assert_eq!(parent_of(""), None);
    assert_eq!(join_path("/a", "b"), "/a/b");
    assert_eq!(join_path("/a/", "b"), "/a/b");
    assert_eq!(join_path("", "b"), "b");
    assert_eq!(strip_base_dir("/base/x/y", "/base"), Some("x/y".to_string()));
    assert_eq!(strip_base_dir("/base", "/base"), Some(String::new()));
    assert_eq!(strip_base_dir("/basex/y", "/base"), None);
    assert_eq!(strip_base_dir("/b/x", "/b/"), Some("x".to_string()));
}

#[test]
fn merge_rows_on_given_rows() {
    let mut c = cache();
    let header: Vec<String> = ["path", "size", "time", "algo", "hash"].iter().map(|s| s.to_string()).collect();
    let good: Vec<String> = ["sub/a", "1", "2", "MD5", MD5_A].iter().map(|s| s.to_string()).collect();
    let bad: Vec<String> = ["sub/b", "1", "2", "MD5", "zz"].iter().map(|s| s.to_string()).collect();
    let rows = vec![Some(good), None, Some(bad)];
    assert_eq!(c.merge_rows("/base/d/h.csv", &header, &rows), 1);
    assert!(c.contains("d/sub/a", 1, 2, Algorithm::MD5));
    assert!(!c.contains("d/sub/b", 1, 2, Algorithm::MD5));
    assert_eq!(c.len(), 1);
}

#[test]
fn append_keeps_invalid_digest() {
    let c = cache();
    let bytes = c.append(&entry("/z", 1, 2, Algorithm::SHA256, "nothex"), 0).unwrap();
    assert_eq!(String::from_utf8(bytes.clone()).unwrap(), "path;size;time;algo;hash\n/z;1;2;SHA256;nothex\n");
    let mut c2 = cache();
    assert_eq!(c2.load_csv("/base/hashes.csv", &bytes), Ok(0));
    assert!(c2.is_empty());
}

#[test]
fn repeated_separators_after_base_are_skipped() {
    assert_eq!(normalize_path("sub", "/base//dir/h.csv", "/base"), "dir/sub");
    assert_eq!(strip_base_dir("/base///x", "/base"), Some("x".to_string()));
    assert_eq!(strip_base_dir("/b//x", "/b/"), Some("x".to_string()));
    assert_eq!(trim_leading_slashes("//a/b"), "a/b");
    assert_eq!(trim_leading_slashes("a//"), "a//");
    assert_eq!(trim_leading_slashes("///"), "");
}
