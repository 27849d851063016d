use plainly::cache::Cache;
use plainly::model::{Level, Request};

fn request(query: &str, level: Level) -> Request {
    Request { query: query.to_string(), context: None, level }
}

#[test]
fn key_ignores_case_and_surrounding_space() {
    let a = Cache::key(&request("CAP theorem", Level::Fifteen), "m", "p");
    let b = Cache::key(&request("  cap Theorem ", Level::Fifteen), "m", "p");
    assert_eq!(a, b);
}

#[test]
fn key_changes_with_level_model_and_pipeline() {
    let base = Cache::key(&request("monads", Level::Fifteen), "m", "p");
    assert_ne!(base, Cache::key(&request("monads", Level::Five), "m", "p"));
    assert_ne!(base, Cache::key(&request("monads", Level::Fifteen), "other", "p"));
    assert_ne!(base, Cache::key(&request("monads", Level::Fifteen), "m", "no-critic"));
}

#[test]
fn key_is_the_hex_sha256_of_the_material() {
    let material = Cache::key_material("m", "p", Level::Five, "x", "ctx");
    assert_eq!(material, b"plainly/v1mp5xctx".to_vec());
    // sha256("plainly/v1") is fixed; the key is 64 lowercase hex digits
    let key = Cache::key(&request("x", Level::Five), "m", "p");
    assert_eq!(key.len(), 64);
    assert!(key.chars().all(|c| c.is_ascii_digit() || ('a'..='f').contains(&c)));
    let with_context = Request { query: "x".to_string(), context: Some("ctx".to_string()), level: Level::Five };
    assert_ne!(key, Cache::key(&with_context, "m", "p"));
}

#[test]
fn hex_digest_writes_two_digits_per_byte() {
    assert_eq!(Cache::hex_digest(&[0x0a, 0x14, 0x1e]), "0a141e");
    assert_eq!(Cache::hex_digest(&[0x00, 0xff, 0xab]), "00ffab");
    assert_eq!(Cache::hex_digest(&[]), "");
}

#[test]
fn known_digests() {
    // the key material of an empty request at level 5 is "plainly/v15"
    let key = Cache::key(&request("", Level::Five), "", "");
    assert_eq!(key, "1d89d870a1add6df98fb094546cab50584234f71204500194e86430b99148e10");
    // the query is trimmed and lowercased before it is hashed
    let key = Cache::key(&request("  CAP Theorem\n", Level::Fifteen), "m", "p");
    assert_eq!(key, "dd8468382e3541a9576c2a1420eaa76fe28cc8eda56cfb403571507fde7f558c");
}

#[test]
fn entries_live_under_the_directory() {
    let cache = Cache::new("/tmp/cache".to_string());
    assert_eq!(cache.dir(), "/tmp/cache");
    assert_eq!(cache.path_for("abc"), "/tmp/cache/abc.json");
    assert_eq!(Cache::new("/tmp/c/".to_string()).path_for("k"), "/tmp/c/k.json");
    assert_eq!(Cache::new(String::new()).path_for("k"), "k.json");
    assert_eq!(Cache::explanations_dir("/home/a/.cache/plainly"), "/home/a/.cache/plainly/explanations");
}

#[test]
fn only_json_files_are_entries() {
    assert!(Cache::is_entry_name("abc.json"));
    assert!(Cache::is_entry_name("a.b.json"));
    assert!(Cache::is_entry_name("..json"));
    assert!(!Cache::is_entry_name(".json"));
    assert!(!Cache::is_entry_name("json"));
    assert!(!Cache::is_entry_name("a.jsonx"));
    assert!(!Cache::is_entry_name("a.json.tmp"));
    assert!(!Cache::is_entry_name(".."));
}

#[test]
fn messages() {
    assert_eq!(Cache::cleared_message(3), "removed 3 cached explanation(s)");
    assert_eq!(Cache::cleared_message(0), "removed 0 cached explanation(s)");
    assert_eq!(Cache::no_dir_error().message(), "this system has no cache directory to use");
}

#[test]
fn a_key_is_64_lowercase_hex_digits() {
    for query in ["monads", "CAP theorem", "Ünïcödé"] {
        let key = Cache::key(&request(query, Level::Expert), "m", "p");
        assert_eq!(key.len(), 64);
        assert!(key.chars().all(|c| c.is_ascii_digit() || ('a'..='f').contains(&c)), "{key}");
    }
}

#[test]
fn the_default_directory_is_the_applications_explanations_directory() {
    assert_eq!(Cache::application_name(), "plainly");
    if let Some(dir) = Cache::default_dir() {
        assert!(dir.ends_with("/explanations"), "{dir}");
        assert!(dir.contains("plainly"), "{dir}");
    }
}
