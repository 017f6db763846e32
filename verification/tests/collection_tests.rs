use vellcro::collection::{
    added_text, clean_artist, collection_entry, cover_hash, entry_artist, entry_cover_url,
    entry_file, entry_title, parse_discogs_url, AddAction, AddError, AddEvent, AddFlow,
};
use vellcro::config::{AppConfig, CollectionConfig, StorageConfig};
use vellcro::json::{to_json_text, Json};

fn s(x: &str) -> Json {
    Json::Str(x.to_string())
}

fn obj(members: Vec<(&str, Json)>) -> Json {
    Json::Object(members.into_iter().map(|(k, v)| (k.to_string(), v)).collect())
}

fn failure(a: AddAction) -> String {
    match a {
        AddAction::Finish(Err(e)) => e.message(),
        _ => panic!("expected a failure"),
    }
}

#[test]
fn parse_discogs_url_master() {
    let e = parse_discogs_url("https://www.discogs.com/master/12345-Artist-Title").ok().unwrap();
    assert!(e.is_master);
    assert_eq!(e.id, "12345");
}

#[test]
fn parse_discogs_url_release() {
    let e = parse_discogs_url("https://www.discogs.com/release/987").ok().unwrap();
    assert!(!e.is_master);
    assert_eq!(e.id, "987");
}

#[test]
fn parse_discogs_url_refusals() {
    assert_eq!(
        parse_discogs_url("https://example.com/x").err().unwrap().message(),
        "URL must be a discogs master or release URL"
    );
    assert_eq!(
        parse_discogs_url("https://www.discogs.com/release/").err().unwrap().message(),
        "Could not extract ID from URL"
    );
    assert_eq!(
        parse_discogs_url("https://www.discogs.com/release/-x").err().unwrap().message(),
        "Could not extract ID from URL"
    );
}

#[test]
fn add_error_messages() {
    assert_eq!(
        AddError::FolderNotConfigured.message(),
        "Collection folder not configured in ~/.config/vellcro/config.toml"
    );
    assert_eq!(AddError::TokenMissing.message(), "DISCOGS_API_TOKEN is missing");
    assert_eq!(AddError::Failed("boom".to_string()).message(), "boom");
}

#[test]
fn clean_artist_drops_disambiguation() {
    assert_eq!(clean_artist("Prince (2)"), "Prince");
    assert_eq!(clean_artist("  Air  "), "Air");
    assert_eq!(clean_artist("Blink-182"), "Blink-");
    assert_eq!(clean_artist("Area ٣"), "Area");
    assert_eq!(clean_artist("(1)"), "");
}

#[test]
fn entry_fields_from_discogs_answer() {
    let resp = obj(vec![
        ("title", s("Dummy")),
        ("artists", Json::Array(vec![obj(vec![("name", s("Portishead (2)"))])])),
        ("images", Json::Array(vec![obj(vec![("resource_url", s("https://i.discogs.com/a.jpg"))])])),
    ]);
    assert_eq!(entry_artist(&resp), "Portishead");
    assert_eq!(entry_title(&resp), "Dummy");
    assert_eq!(entry_cover_url(&resp), Some("https://i.discogs.com/a.jpg".to_string()));
}

#[test]
fn entry_fields_default() {
    let resp = obj(vec![]);
    assert_eq!(entry_artist(&resp), "Unknown Artist");
    assert_eq!(entry_title(&resp), "Unknown Album");
    assert_eq!(entry_cover_url(&resp), None);
}

#[test]
fn cover_hash_of_known_bytes() {
    assert_eq!(cover_hash(b"abc"), "RLws9a13CZk-");
    assert_eq!(cover_hash(b""), "70bbN1HY6Zk-");
}

#[test]
fn cover_hash_shape() {
    let h = cover_hash(&[7u8; 100]);
    assert_eq!(h.len(), 12);
    assert!(h.ends_with('-'));
}

#[test]
fn collection_entry_document() {
    let e = collection_entry("A", "T", true, "https://d/master/1", "c-", Some(-5), "May 01 2024");
    assert_eq!(
        to_json_text(&e),
        "{\"albumartist\":\"A\",\"album\":\"T\",\"type\":\"master\",\"url\":\"https://d/master/1\",\"cover\":\"c-\",\"date_added\":[-5,\"May 01 2024\"]}"
    );
    let e = collection_entry("A", "T", false, "u", "", None, "d");
    assert!(to_json_text(&e).contains("\"type\":\"release\""));
    assert!(to_json_text(&e).contains("\"date_added\":[0,\"d\"]"));
}

#[test]
fn entry_file_names() {
    assert_eq!(entry_file("/music", "Portishead", "Dummy!"), "/music/portishead-dummy.json");
    assert_eq!(entry_file("/m/", "", ""), "/m/-.json");
}

#[test]
fn added_text_message() {
    assert_eq!(added_text("A", "T", "/p.json"), "Added A - T to collection at /p.json");
}

#[test]
fn add_flow_without_folder() {
    let (_, a) = AddFlow::start_with("https://www.discogs.com/release/1", None, "/c".to_string());
    assert_eq!(
        failure(a),
        "Collection folder not configured in ~/.config/vellcro/config.toml"
    );
}

#[test]
fn add_flow_from_settings_without_collection() {
    let cfg = AppConfig {
        storage: StorageConfig { cache: Some("/cache".to_string()) },
        collection: None,
        manifest: None,
    };
    let (_, a) = AddFlow::start(&cfg, "https://www.discogs.com/release/1");
    assert!(matches!(a, AddAction::Finish(Err(AddError::FolderNotConfigured))));
}

#[test]
fn add_flow_from_settings_with_collection() {
    let cfg = AppConfig {
        storage: StorageConfig { cache: None },
        collection: Some(CollectionConfig { folder: "/data/collection".to_string() }),
        manifest: None,
    };
    let (_, a) = AddFlow::start(&cfg, "https://www.discogs.com/release/1");
    match a {
        AddAction::EnsureDir(d) => assert_eq!(d, "/data/collection"),
        _ => panic!("expected the folder"),
    }
}

#[test]
fn add_flow_without_token() {
    let (mut f, _) = AddFlow::start_with("https://www.discogs.com/release/1", Some("/m".to_string()), "/c".to_string());
    assert!(matches!(f.step(AddEvent::DirReady(Ok(()))), AddAction::LoadToken));
    assert_eq!(failure(f.step(AddEvent::TokenLoaded(String::new()))), "DISCOGS_API_TOKEN is missing");
}

#[test]
fn add_flow_refuses_other_urls_after_client() {
    let (mut f, _) = AddFlow::start_with("https://example.com/x", Some("/m".to_string()), "/c".to_string());
    f.step(AddEvent::DirReady(Ok(())));
    assert!(matches!(f.step(AddEvent::TokenLoaded("t".to_string())), AddAction::BuildClient));
    assert_eq!(
        failure(f.step(AddEvent::ClientReady(Ok(())))),
        "URL must be a discogs master or release URL"
    );
}

#[test]
fn add_flow_passes_outside_errors() {
    let (mut f, _) = AddFlow::start_with("https://www.discogs.com/release/1", Some("/m".to_string()), "/c".to_string());
    assert_eq!(failure(f.step(AddEvent::DirReady(Err("denied".to_string())))), "denied");
}

#[test]
fn add_flow_without_cover() {
    let (mut f, a) = AddFlow::start_with(
        "https://www.discogs.com/master/55-X",
        Some("/music".to_string()),
        "/cache".to_string(),
    );
    assert!(matches!(a, AddAction::EnsureDir(ref d) if d == "/music"));
    assert!(f.expects(&AddEvent::DirReady(Ok(()))));
    assert!(!f.expects(&AddEvent::CoverSaved));
    f.step(AddEvent::DirReady(Ok(())));
    f.step(AddEvent::TokenLoaded("tok".to_string()));
    match f.step(AddEvent::ClientReady(Ok(()))) {
        AddAction::GetJson(u, h) => {
            assert_eq!(u, "https://api.discogs.com/masters/55");
            assert_eq!(h, "Discogs token=tok");
        },
        _ => panic!("expected the Discogs request"),
    }
    let resp = obj(vec![
        ("title", s("Dummy")),
        ("artists", Json::Array(vec![obj(vec![("name", s("Portishead"))])])),
    ]);
    match f.step(AddEvent::Fetched(Ok(resp))) {
        AddAction::Write(p, doc) => {
            assert_eq!(p, "/music/portishead-dummy.json");
            let t = to_json_text(&doc);
            assert!(t.starts_with(
                "{\"albumartist\":\"Portishead\",\"album\":\"Dummy\",\"type\":\"master\",\"url\":\"https://www.discogs.com/master/55-X\",\"cover\":\"\",\"date_added\":["
            ));
        },
        _ => panic!("expected the entry"),
    }
    match f.step(AddEvent::Written(Ok(()))) {
        AddAction::Finish(Ok(m)) => {
            assert_eq!(m, "Added Portishead - Dummy to collection at /music/portishead-dummy.json")
        },
        _ => panic!("expected success"),
    }
}

#[test]
fn add_flow_with_cover() {
    let (mut f, _) =
        AddFlow::start_with("https://www.discogs.com/release/9", Some("/m".to_string()), "/c".to_string());
    f.step(AddEvent::DirReady(Ok(())));
    f.step(AddEvent::TokenLoaded("tok".to_string()));
    f.step(AddEvent::ClientReady(Ok(())));
    let resp = obj(vec![
        ("title", s("T")),
        ("images", Json::Array(vec![obj(vec![("resource_url", s("https://img/1.jpg"))])])),
    ]);
    match f.step(AddEvent::Fetched(Ok(resp))) {
        AddAction::GetBytes(u, h) => {
            assert_eq!(u, "https://img/1.jpg");
            assert_eq!(h, "Discogs token=tok");
        },
        _ => panic!("expected the cover request"),
    }
    match f.step(AddEvent::CoverFetched(Ok(b"abc".to_vec()))) {
        AddAction::SaveCover(bytes, dir, path) => {
            assert_eq!(bytes, b"abc".to_vec());
            assert_eq!(dir, "/c/covers");
            assert_eq!(path, "/c/covers/RLws9a13CZk-.png");
        },
        _ => panic!("expected the cover to be saved"),
    }
    match f.step(AddEvent::CoverSaved) {
        AddAction::Write(p, doc) => {
            assert_eq!(p, "/m/unknown-artist-t.json");
            assert!(to_json_text(&doc).contains("\"cover\":\"RLws9a13CZk-\""));
            assert!(to_json_text(&doc).contains("\"type\":\"release\""));
        },
        _ => panic!("expected the entry"),
    }
    assert_eq!(failure(f.step(AddEvent::Written(Err("disk full".to_string())))), "disk full");
}
