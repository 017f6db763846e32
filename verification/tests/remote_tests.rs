use vellcro::json::{to_json_text, Json, JsonNumber};
use vellcro::remote::{
    cache_file_path, discogs_env_file_with_home, discogs_target, find_discogs_relation,
    parse_metadata_url, DiscogsTarget, FetchAction, FetchEvent, HttpReply, MetadataFetch,
};

fn s(x: &str) -> Json {
    Json::Str(x.to_string())
}

fn n(x: u64) -> Json {
    Json::Number(JsonNumber::PosInt(x))
}

fn obj(members: Vec<(&str, Json)>) -> Json {
    Json::Object(members.into_iter().map(|(k, v)| (k.to_string(), v)).collect())
}

fn relation(url: &str) -> Json {
    obj(vec![("url", obj(vec![("resource", s(url))]))])
}

fn get_url(a: FetchAction) -> String {
    match a {
        FetchAction::Get(u) => u,
        _ => panic!("expected a GET"),
    }
}

fn authorized(a: FetchAction) -> (String, String) {
    match a {
        FetchAction::GetAuthorized(u, h) => (u, h),
        _ => panic!("expected an authorized GET"),
    }
}

fn finished(a: FetchAction) -> (Option<String>, Option<String>) {
    match a {
        FetchAction::Finish(d, w) => (d.map(|j| to_json_text(&j)), w),
        _ => panic!("expected the end"),
    }
}

fn is_load_token(a: &FetchAction) -> bool {
    matches!(a, FetchAction::LoadToken)
}

#[test]
fn parse_metadata_url_release_group() {
    let r = parse_metadata_url("https://musicbrainz.org/release-group/0a1b-2c").unwrap();
    assert!(r.is_rg);
    assert_eq!(r.entity_id, "0a1b-2c");
}

#[test]
fn parse_metadata_url_release() {
    let r = parse_metadata_url("https://musicbrainz.org/release/ff00?x=1").unwrap();
    assert!(!r.is_rg);
    assert_eq!(r.entity_id, "ff00");
}

#[test]
fn parse_metadata_url_other() {
    assert!(parse_metadata_url("https://example.com/artist/abc").is_none());
    assert!(parse_metadata_url("https://musicbrainz.org/release/XYZ").is_none());
}

#[test]
fn cache_file_path_by_kind() {
    let rg = parse_metadata_url("release-group/abc").unwrap();
    assert_eq!(cache_file_path("/cache", &rg), "/cache/rg-abc.json");
    let rel = parse_metadata_url("release/abc").unwrap();
    assert_eq!(cache_file_path("/cache/", &rel), "/cache/rel-abc.json");
}

#[test]
fn find_discogs_relation_takes_first_discogs_link() {
    let mb = obj(vec![(
        "relations",
        Json::Array(vec![
            relation("https://www.wikidata.org/wiki/Q1"),
            obj(vec![("type", s("other"))]),
            relation("https://www.discogs.com/master/12"),
            relation("https://www.discogs.com/release/34"),
        ]),
    )]);
    assert_eq!(find_discogs_relation(&mb), Some("https://www.discogs.com/master/12".to_string()));
    assert_eq!(find_discogs_relation(&obj(vec![])), None);
    assert_eq!(find_discogs_relation(&obj(vec![("relations", Json::Array(vec![relation("x")]))])), None);
}

#[test]
fn discogs_target_release_before_master() {
    match discogs_target("https://www.discogs.com/release/123-Foo") {
        DiscogsTarget::Release(id) => assert_eq!(id, "123"),
        _ => panic!("expected a release"),
    }
    match discogs_target("https://www.discogs.com/master/77") {
        DiscogsTarget::Master(id) => assert_eq!(id, "77"),
        _ => panic!("expected a master"),
    }
    assert!(matches!(discogs_target("https://www.discogs.com/release/abc"), DiscogsTarget::Neither));
}

#[test]
fn discogs_env_file_locations() {
    assert_eq!(discogs_env_file_with_home(Some("/home/u".to_string())), "/home/u/.secrets/discogs.env");
    assert_eq!(discogs_env_file_with_home(None), "./.secrets/discogs.env");
}

#[test]
fn fetch_release_group_without_token() {
    let (mut f, a) = MetadataFetch::start("https://musicbrainz.org/release-group/0a1b-2c", "/cache").unwrap();
    match a {
        FetchAction::ReadCache(p) => assert_eq!(p, "/cache/rg-0a1b-2c.json"),
        _ => panic!("expected a cache read"),
    }
    assert!(!f.expects(&FetchEvent::Paused));
    assert!(f.expects(&FetchEvent::CacheLoaded(None)));
    let a = f.step(FetchEvent::CacheLoaded(None));
    assert_eq!(
        get_url(a),
        "https://musicbrainz.org/ws/2/release-group/0a1b-2c?inc=tags+url-rels+artist-credits&fmt=json"
    );
    let a = f.step(FetchEvent::Reply(HttpReply::Body(obj(vec![("title", s("T"))]))));
    assert!(is_load_token(&a));
    let a = f.step(FetchEvent::TokenLoaded(String::new()));
    let (doc, write) = finished(a);
    assert_eq!(
        doc.unwrap(),
        "{\"_is_rg\":true,\"discogs\":{\"error\":\"Missing token\"},\"musicbrainz\":{\"release_group\":{\"title\":\"T\"}}}"
    );
    assert_eq!(write, Some("/cache/rg-0a1b-2c.json".to_string()));
    assert!(f.is_done());
}

#[test]
fn fetch_release_with_discogs_release_and_master() {
    let (mut f, _) = MetadataFetch::start("https://musicbrainz.org/release/abc", "/c").unwrap();
    let a = f.step(FetchEvent::CacheLoaded(None));
    assert_eq!(
        get_url(a),
        "https://musicbrainz.org/ws/2/release/abc?inc=labels+release-groups+url-rels+recordings+artist-credits+media&fmt=json"
    );
    let rel = obj(vec![
        ("release-group", obj(vec![("id", s("def"))])),
        ("relations", Json::Array(vec![relation("https://www.discogs.com/release/42-X")])),
    ]);
    let a = f.step(FetchEvent::Reply(HttpReply::Body(rel)));
    assert_eq!(
        get_url(a),
        "https://musicbrainz.org/ws/2/release-group/def?inc=tags+url-rels+artist-credits&fmt=json"
    );
    let a = f.step(FetchEvent::Reply(HttpReply::UnreadableBody));
    assert!(is_load_token(&a));
    let a = f.step(FetchEvent::TokenLoaded("tok".to_string()));
    assert_eq!(
        authorized(a),
        ("https://api.discogs.com/releases/42".to_string(), "Discogs token=tok".to_string())
    );
    let a = f.step(FetchEvent::Reply(HttpReply::Body(obj(vec![("master_id", n(7))]))));
    assert!(matches!(a, FetchAction::Pause(1)));
    let a = f.step(FetchEvent::Paused);
    assert_eq!(
        authorized(a),
        ("https://api.discogs.com/masters/7".to_string(), "Discogs token=tok".to_string())
    );
    let a = f.step(FetchEvent::Reply(HttpReply::Body(obj(vec![("id", n(7))]))));
    let (doc, write) = finished(a);
    let doc = doc.unwrap();
    assert!(doc.starts_with(
        "{\"_is_rg\":false,\"discogs\":{\"release\":{\"master_id\":7},\"master\":{\"id\":7}},\"musicbrainz\":{\"release\":{"
    ));
    assert!(doc.ends_with("\"release_group\":{}}}"));
    assert_eq!(write, Some("/c/rel-abc.json".to_string()));
}

#[test]
fn fetch_release_group_from_discogs_master() {
    let (mut f, _) = MetadataFetch::start("release-group/aa", "/c").unwrap();
    f.step(FetchEvent::CacheLoaded(None));
    let rg = obj(vec![("relations", Json::Array(vec![relation("https://www.discogs.com/master/9")]))]);
    f.step(FetchEvent::Reply(HttpReply::Body(rg)));
    let a = f.step(FetchEvent::TokenLoaded("t".to_string()));
    assert_eq!(authorized(a).0, "https://api.discogs.com/masters/9");
    let a = f.step(FetchEvent::Reply(HttpReply::SendFailed));
    let (doc, _) = finished(a);
    assert!(doc.unwrap().starts_with("{\"_is_rg\":true,\"discogs\":{},\"musicbrainz\":"));
}

#[test]
fn fetch_without_discogs_relation() {
    let (mut f, _) = MetadataFetch::start("release-group/aa", "/c").unwrap();
    f.step(FetchEvent::CacheLoaded(None));
    f.step(FetchEvent::Reply(HttpReply::Body(obj(vec![]))));
    let (doc, _) = finished(f.step(FetchEvent::TokenLoaded("t".to_string())));
    assert_eq!(
        doc.unwrap(),
        "{\"_is_rg\":true,\"discogs\":{\"error\":\"No relation\"},\"musicbrainz\":{\"release_group\":{}}}"
    );
}

#[test]
fn fetch_cached_document_is_marked() {
    let (mut f, _) = MetadataFetch::start("release-group/aa", "/c").unwrap();
    let (doc, write) = finished(f.step(FetchEvent::CacheLoaded(Some(obj(vec![("x", n(1))])))));
    assert_eq!(doc.unwrap(), "{\"x\":1,\"_is_rg\":true}");
    assert_eq!(write, None);
    let (mut g, _) = MetadataFetch::start("release/aa", "/c").unwrap();
    let (doc, _) = finished(g.step(FetchEvent::CacheLoaded(Some(Json::Null))));
    assert_eq!(doc.unwrap(), "{\"_is_rg\":false}");
}

#[test]
fn fetch_cached_document_replaces_kind() {
    let (mut f, _) = MetadataFetch::start("release/aa", "/c").unwrap();
    let cached = obj(vec![("_is_rg", Json::Bool(true)), ("y", n(2))]);
    let (doc, _) = finished(f.step(FetchEvent::CacheLoaded(Some(cached))));
    assert_eq!(doc.unwrap(), "{\"_is_rg\":false,\"y\":2}");
}

#[test]
fn fetch_cache_refuses_other_values() {
    let (f, _) = MetadataFetch::start("release/aa", "/c").unwrap();
    assert!(!f.expects(&FetchEvent::CacheLoaded(Some(n(3)))));
}

#[test]
fn fetch_fails_without_musicbrainz_answer() {
    let (mut f, _) = MetadataFetch::start("release/aa", "/c").unwrap();
    f.step(FetchEvent::CacheLoaded(None));
    let (doc, write) = finished(f.step(FetchEvent::Reply(HttpReply::SendFailed)));
    assert!(doc.is_none());
    assert!(write.is_none());
}

#[test]
fn fetch_fails_when_group_request_fails() {
    let (mut f, _) = MetadataFetch::start("release/aa", "/c").unwrap();
    f.step(FetchEvent::CacheLoaded(None));
    let rel = obj(vec![("release-group", obj(vec![("id", s("g"))]))]);
    f.step(FetchEvent::Reply(HttpReply::Body(rel)));
    let (doc, _) = finished(f.step(FetchEvent::Reply(HttpReply::SendFailed)));
    assert!(doc.is_none());
}

#[test]
fn fetch_release_without_group_id() {
    let (mut f, _) = MetadataFetch::start("release/aa", "/c").unwrap();
    f.step(FetchEvent::CacheLoaded(None));
    let a = f.step(FetchEvent::Reply(HttpReply::Body(obj(vec![("title", s("R"))]))));
    assert!(is_load_token(&a));
}

#[test]
fn fetch_of_non_musicbrainz_url() {
    assert!(MetadataFetch::start("https://example.com/", "/c").is_none());
}

#[test]
fn fetch_reads_back_what_it_stored() {
    let (mut f, _) = MetadataFetch::start("release-group/ab", "/c").unwrap();
    f.step(FetchEvent::CacheLoaded(None));
    f.step(FetchEvent::Reply(HttpReply::Body(obj(vec![("title", s("T"))]))));
    let stored = match f.step(FetchEvent::TokenLoaded(String::new())) {
        FetchAction::Finish(Some(d), Some(p)) => {
            assert_eq!(p, "/c/rg-ab.json");
            d
        },
        _ => panic!("expected a stored document"),
    };
    let stored_text = to_json_text(&stored);
    let (mut g, a) = MetadataFetch::start("https://musicbrainz.org/release-group/ab", "/c").unwrap();
    match a {
        FetchAction::ReadCache(p) => assert_eq!(p, "/c/rg-ab.json"),
        _ => panic!("expected a cache read"),
    }
    let (doc, write) = finished(g.step(FetchEvent::CacheLoaded(Some(stored))));
    assert_eq!(doc.unwrap(), stored_text);
    assert_eq!(write, None);
}
