use indexmap::IndexMap;
use vellcro::config::{AppConfig, CollectionConfig, ManifestConfig, ManifestKeyConfig, StorageConfig};
use vellcro::json::{get_opt, object_of, set_entry, str_opt, to_json_text, Json, JsonNumber};
use vellcro::text::{i64_to_decimal, parse_u32, split_char, trim, u64_to_decimal};

fn s(x: &str) -> Json {
    Json::Str(x.to_string())
}

fn key(level: &str, newline: bool) -> ManifestKeyConfig {
    ManifestKeyConfig { level: level.to_string(), newline }
}

#[test]
fn table_for_flag_picks_tables() {
    let mut m = IndexMap::new();
    m.insert("album".to_string(), key("album", false));
    let cfg = ManifestConfig { metadata: None, mbid: Some(m), url: None };
    assert!(cfg.table_for_flag("metadata").is_none());
    assert_eq!(cfg.table_for_flag("mbid").unwrap().len(), 1);
    assert!(cfg.table_for_flag("url").is_none());
    assert!(cfg.table_for_flag("other").is_none());
}

#[test]
fn cache_dir_defaults_under_home() {
    let cfg = AppConfig { storage: StorageConfig { cache: None }, collection: None, manifest: None };
    assert_eq!(cfg.cache_dir_with_home(Some("/home/u".to_string())), "/home/u/.cache/vellcro");
    let cfg2 = AppConfig {
        storage: StorageConfig { cache: Some("~/c".to_string()) },
        collection: Some(CollectionConfig { folder: "/x".to_string() }),
        manifest: None,
    };
    assert_eq!(cfg2.cache_dir_with_home(Some("/h".to_string())), "/h/c");
    assert_eq!(cfg2.get_cache_dir().is_empty(), false);
    assert_eq!(cfg2.get_collection_folder(), Some("/x".to_string()));
    assert_eq!(cfg.get_collection_folder(), None);
}

#[test]
fn json_get_finds_first_member() {
    let o = Json::Object(vec![
        ("a".to_string(), s("1")),
        ("b".to_string(), s("2")),
        ("a".to_string(), s("3")),
    ]);
    assert_eq!(str_opt(o.get("a")), Some("1"));
    assert_eq!(str_opt(o.get("c")), None);
    assert!(s("x").get("a").is_none());
    assert!(get_opt(None, "a").is_none());
}

#[test]
fn json_number_accessors() {
    let p = Json::Number(JsonNumber::PosInt(u64::MAX));
    assert_eq!(p.as_u64(), Some(u64::MAX));
    assert_eq!(p.as_i64(), None);
    let q = Json::Number(JsonNumber::NegInt(-2));
    assert_eq!(q.as_u64(), None);
    assert_eq!(q.as_i64(), Some(-2));
    assert_eq!(Json::Bool(true).as_bool(), Some(true));
}

#[test]
fn set_entry_replaces_or_appends() {
    let mut es = vec![("a".to_string(), s("1"))];
    set_entry(&mut es, "b", s("2"));
    set_entry(&mut es, "a", s("3"));
    assert_eq!(to_json_text(&object_of(es)), "{\"a\":\"3\",\"b\":\"2\"}");
}

#[test]
fn json_text_escapes() {
    let v = Json::Array(vec![
        s("q\"b\\n\nt\t\u{1}"),
        Json::Null,
        Json::Number(JsonNumber::Float("1.5".to_string())),
    ]);
    assert_eq!(to_json_text(&v), "[\"q\\\"b\\\\n\\nt\\t\\u0001\",null,1.5]");
}

#[test]
fn text_helpers() {
    assert_eq!(u64_to_decimal(0), "0");
    assert_eq!(u64_to_decimal(1234567890), "1234567890");
    assert_eq!(i64_to_decimal(i64::MIN), "-9223372036854775808");
    assert_eq!(parse_u32("+42"), Some(42));
    assert_eq!(parse_u32("4294967296"), None);
    assert_eq!(parse_u32("-1"), None);
    assert_eq!(split_char("a,,b", ','), vec!["a".to_string(), String::new(), "b".to_string()]);
    assert_eq!(trim("\u{3000} x y \n"), "x y");
}
