use vellcro::json::{Json, JsonNumber};
use vellcro::utils::{
    expand_path, expand_path_with_home, fmt_yyyy_mm, get_sort_key, join_artists, join_path,
    relative_path, sanitize_filename,
};

fn s(x: &str) -> Json {
    Json::Str(x.to_string())
}

fn obj(members: Vec<(&str, Json)>) -> Json {
    Json::Object(members.into_iter().map(|(k, v)| (k.to_string(), v)).collect())
}

fn is_slug(x: &str) -> bool {
    let cs: Vec<char> = x.chars().collect();
    if cs.is_empty() {
        return true;
    }
    if cs[0] == '-' || cs[cs.len() - 1] == '-' {
        return false;
    }
    for i in 0..cs.len() {
        if !(cs[i].is_ascii_alphanumeric() || cs[i] == '-') {
            return false;
        }
        if i + 1 < cs.len() && cs[i] == '-' && cs[i + 1] == '-' {
            return false;
        }
    }
    true
}

#[test]
fn sanitize_filename_joins_word_runs() {
    assert_eq!(sanitize_filename("AC/DC: Back in Black!"), "ac-dc-back-in-black");
}

#[test]
fn sanitize_filename_lowercases() {
    assert_eq!(sanitize_filename("ABBA"), "abba");
}

#[test]
fn sanitize_filename_drops_non_ascii_letters() {
    assert_eq!(sanitize_filename("Björk"), "bj-rk");
}

#[test]
fn sanitize_filename_of_empty_and_punctuation() {
    assert_eq!(sanitize_filename(""), "");
    assert_eq!(sanitize_filename("--!!--"), "");
}

#[test]
fn sanitized_names_are_slugs() {
    for name in ["  Leading and trailing  ", "a--b", "Sigur Rós", "x/y\\z", "...", "2001: A Space"] {
        let r = sanitize_filename(name);
        assert!(is_slug(&r), "{} gave {}", name, r);
    }
}

#[test]
fn fmt_yyyy_mm_cuts_full_dates() {
    assert_eq!(fmt_yyyy_mm("2021-05-17"), "2021-05");
    assert_eq!(fmt_yyyy_mm("2021-05"), "2021-05");
}

#[test]
fn fmt_yyyy_mm_pads_bare_years() {
    assert_eq!(fmt_yyyy_mm("1999"), "1999-00");
}

#[test]
fn fmt_yyyy_mm_keeps_short_dates() {
    assert_eq!(fmt_yyyy_mm("99"), "99");
    assert_eq!(fmt_yyyy_mm(""), "");
    assert_eq!(fmt_yyyy_mm("12345"), "12345");
}

#[test]
fn fmt_yyyy_mm_counts_bytes() {
    assert_eq!(fmt_yyyy_mm("19é9-01"), "19é9-0");
    assert_eq!(fmt_yyyy_mm("1é9"), "1é9-00");
}

#[test]
fn fmt_yyyy_mm_twice_is_once() {
    for d in ["2021-05-17", "1999", "99", "2020-12"] {
        let once = fmt_yyyy_mm(d);
        assert_eq!(fmt_yyyy_mm(&once), once);
    }
}

#[test]
fn sort_key_from_track_number() {
    assert_eq!(get_sort_key(Some("3/12"), "x.flac"), (0, 3, String::new()));
    assert_eq!(get_sort_key(Some("07"), "x.flac"), (0, 7, String::new()));
}

#[test]
fn sort_key_falls_back_to_file_name() {
    assert_eq!(get_sort_key(Some("A1"), "a1.flac"), (1, 0, "a1.flac".to_string()));
    assert_eq!(get_sort_key(None, "b.flac"), (1, 0, "b.flac".to_string()));
    assert_eq!(get_sort_key(Some(""), "c.flac"), (1, 0, "c.flac".to_string()));
}

#[test]
fn expand_path_with_a_home() {
    let h = Some("/home/u".to_string());
    assert_eq!(expand_path_with_home("~/music", h.clone()), "/home/u/music");
    assert_eq!(expand_path_with_home("~", h.clone()), "/home/u");
    assert_eq!(expand_path_with_home("/abs/x", h.clone()), "/abs/x");
    assert_eq!(expand_path_with_home("~other", h), "~other");
}

#[test]
fn expand_path_without_a_home() {
    assert_eq!(expand_path_with_home("~/music", None), "~/music");
}

#[test]
fn expand_path_leaves_plain_paths() {
    assert_eq!(expand_path("/tmp/x"), "/tmp/x");
    assert_eq!(expand_path("rel/x"), "rel/x");
}

#[test]
fn join_path_like_path_join() {
    assert_eq!(join_path("/a", "b"), "/a/b");
    assert_eq!(join_path("/a/", "b"), "/a/b");
    assert_eq!(join_path("/a", "/b"), "/b");
    assert_eq!(join_path("", "b"), "b");
}

#[test]
fn relative_path_inside_and_outside() {
    assert_eq!(relative_path("/a/b/c", "/a/b"), "c");
    assert_eq!(relative_path("/a/b", "/a/b"), "");
    assert_eq!(relative_path("/a/bc", "/a/b"), "/a/bc");
    assert_eq!(relative_path("/x/y", "/"), "x/y");
    assert_eq!(relative_path("/z", "/a"), "/z");
}

#[test]
fn join_artists_uses_names_and_join_phrases() {
    let credits = Json::Array(vec![
        obj(vec![("name", s("Simon")), ("joinphrase", s(" & "))]),
        obj(vec![("artist", obj(vec![("name", s("Garfunkel"))]))]),
    ]);
    assert_eq!(join_artists(Some(&credits)), "Simon & Garfunkel");
}

#[test]
fn join_artists_without_credits() {
    assert_eq!(join_artists(None), "");
    assert_eq!(join_artists(Some(&Json::Number(JsonNumber::PosInt(3)))), "");
}

#[test]
fn sanitize_filename_twice_is_once() {
    for name in ["AC/DC: Back in Black!", "Björk", "  x  ", "Ünïcödé Title 2", ""] {
        let once = sanitize_filename(name);
        assert_eq!(sanitize_filename(&once), once);
    }
}

#[test]
fn sanitize_filename_of_ascii_names() {
    assert_eq!(sanitize_filename("Daft Punk"), "daft-punk");
    assert_eq!(sanitize_filename("AB"), "ab");
}
