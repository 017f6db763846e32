use indexmap::IndexMap;
use vellcro::config::{ManifestConfig, ManifestKeyConfig};
use vellcro::json::{to_json_text, Json, JsonNumber};
use vellcro::manifest::keys::{resolve_album_key, resolve_track_key, AlbumContext, TrackContext};
use vellcro::manifest::{
    album_documents, album_keys_resolvable, album_parts, album_title, build_globset, cover_hash_from,
    extract_remote_tracks, generate_nix_manifest, has_keys_for_level_and_flag,
    match_disk_files, match_torrent_files, nix_source_path, package_name, parse_active_flags,
    render_section, to_nix_value, torrent_hash_from, track_filter_patterns, ManifestParams,
    SourceType, TorrentListing, TrackData, FAKE_HASH,
};

fn s(x: &str) -> Json {
    Json::Str(x.to_string())
}

fn n(x: u64) -> Json {
    Json::Number(JsonNumber::PosInt(x))
}

fn obj(members: Vec<(&str, Json)>) -> Json {
    Json::Object(members.into_iter().map(|(k, v)| (k.to_string(), v)).collect())
}

fn key(level: &str, newline: bool) -> ManifestKeyConfig {
    ManifestKeyConfig { level: level.to_string(), newline }
}

fn track(num: u32, disc: u32, title: &str, artist: &str) -> TrackData {
    TrackData {
        tracknumber: num,
        discnumber: disc,
        title: title.to_string(),
        artist: artist.to_string(),
        musicbrainz_trackid: String::new(),
        musicbrainz_releasetrackid: String::new(),
        musicbrainz_artistid: String::new(),
    }
}

fn metadata_config() -> ManifestConfig {
    let mut m = IndexMap::new();
    m.insert("album".to_string(), key("album", false));
    m.insert("date".to_string(), key("albums", true));
    m.insert("title".to_string(), key("track", false));
    ManifestConfig { metadata: Some(m), mbid: None, url: None }
}

#[test]
fn to_nix_value_quotes_and_escapes_strings() {
    assert_eq!(to_nix_value(&s("say \"hi\" \\ bye")), "\"say \\\"hi\\\" \\\\ bye\"");
}

#[test]
fn to_nix_value_writes_numbers_booleans_and_lists() {
    assert_eq!(to_nix_value(&n(42)), "42");
    assert_eq!(to_nix_value(&Json::Number(JsonNumber::NegInt(-3))), "-3");
    assert_eq!(to_nix_value(&Json::Bool(true)), "true");
    assert_eq!(to_nix_value(&Json::Array(vec![s("Rock"), n(1)])), "[ \"Rock\" 1 ]");
    assert_eq!(to_nix_value(&Json::Array(vec![])), "[  ]");
}

#[test]
fn to_nix_value_writes_other_values_as_empty_string() {
    assert_eq!(to_nix_value(&Json::Null), "\"\"");
    assert_eq!(to_nix_value(&obj(vec![("a", n(1))])), "\"\"");
}

#[test]
fn extract_remote_tracks_from_release_media() {
    let rel = obj(vec![(
        "media",
        Json::Array(vec![
            obj(vec![
                ("position", n(1)),
                (
                    "tracks",
                    Json::Array(vec![obj(vec![
                        ("number", s("1")),
                        ("title", s("One")),
                        ("id", s("rt1")),
                        ("recording", obj(vec![("id", s("rec1"))])),
                        (
                            "artist-credit",
                            Json::Array(vec![obj(vec![
                                ("name", s("A")),
                                ("artist", obj(vec![("id", s("a1"))])),
                            ])]),
                        ),
                    ])]),
                ),
            ]),
            obj(vec![
                ("position", n(2)),
                (
                    "track",
                    Json::Array(vec![obj(vec![
                        ("number", s("B2")),
                        ("recording", obj(vec![("title", s("Two"))])),
                    ])]),
                ),
            ]),
        ]),
    )]);
    let dg = obj(vec![]);
    let tracks = extract_remote_tracks(Some(&rel), &dg, false);
    assert_eq!(tracks.len(), 2);
    assert_eq!(tracks[0].tracknumber, 1);
    assert_eq!(tracks[0].discnumber, 1);
    assert_eq!(tracks[0].title, "One");
    assert_eq!(tracks[0].artist, "A");
    assert_eq!(tracks[0].musicbrainz_trackid, "rec1");
    assert_eq!(tracks[0].musicbrainz_releasetrackid, "rt1");
    assert_eq!(tracks[0].musicbrainz_artistid, "a1");
    assert_eq!(tracks[1].tracknumber, 0);
    assert_eq!(tracks[1].discnumber, 2);
    assert_eq!(tracks[1].title, "Two");
    assert_eq!(tracks[1].artist, "");
}

#[test]
fn extract_remote_tracks_from_discogs_master() {
    let dg = obj(vec![(
        "master",
        obj(vec![(
            "tracklist",
            Json::Array(vec![
                obj(vec![("type_", s("track")), ("title", s("X"))]),
                obj(vec![("type_", s("heading")), ("title", s("Side B"))]),
                obj(vec![("type_", s("track"))]),
            ]),
        )]),
    )]);
    let tracks = extract_remote_tracks(None, &dg, true);
    assert_eq!(tracks.len(), 2);
    assert_eq!((tracks[0].tracknumber, tracks[0].discnumber), (1, 1));
    assert_eq!(tracks[0].title, "X");
    assert_eq!(tracks[1].tracknumber, 2);
    assert_eq!(tracks[1].title, "Untitled");
}

#[test]
fn extract_remote_tracks_without_data() {
    let dg = obj(vec![]);
    assert_eq!(extract_remote_tracks(None, &dg, false).len(), 0);
    assert_eq!(extract_remote_tracks(None, &dg, true).len(), 0);
}

#[test]
fn package_name_joins_artist_and_title() {
    assert_eq!(package_name("The Band", "Music From Big Pink"), "the-band-music-from-big-pink");
    assert_eq!(package_name("", "Solo Title"), "solo-title");
    assert_eq!(package_name("Sigur Rós", "( )"), "sigur-rós");
}

#[test]
fn parse_active_flags_defaults_to_metadata() {
    assert_eq!(parse_active_flags(None), vec!["metadata".to_string()]);
}

#[test]
fn parse_active_flags_trims_and_drops_empty() {
    assert_eq!(
        parse_active_flags(Some(" metadata, mbid ,,url ")),
        vec!["metadata".to_string(), "mbid".to_string(), "url".to_string()]
    );
    assert_eq!(parse_active_flags(Some("")), Vec::<String>::new());
}

#[test]
fn nix_source_path_forms() {
    assert_eq!(nix_source_path("/mnt/music/a", false), "\"/mnt/music/a\"");
    assert_eq!(nix_source_path("album", false), "./album");
    assert_eq!(nix_source_path("", true), "./.");
    assert_eq!(nix_source_path("", false), "./");
}

#[test]
fn track_filter_patterns_widen_extensions() {
    assert_eq!(
        track_filter_patterns("flac, .mp3 ,*.ogg,,disc1/*.wav"),
        vec![
            "**/*.flac".to_string(),
            "**/*.mp3".to_string(),
            "*.ogg".to_string(),
            "disc1/*.wav".to_string()
        ]
    );
}

#[test]
fn build_globset_rejects_bad_globs() {
    assert!(build_globset("flac").is_ok());
    assert!(build_globset("a[").is_err());
}

#[test]
fn match_disk_files_selects_and_sorts_naturally() {
    let cands = vec![
        "b/2.flac".to_string(),
        "a/10.flac".to_string(),
        "cover.jpg".to_string(),
        "a/9.flac".to_string(),
    ];
    let r = match_disk_files(&cands, "flac").unwrap();
    assert_eq!(r, vec!["a/9.flac".to_string(), "a/10.flac".to_string(), "b/2.flac".to_string()]);
}

#[test]
fn match_torrent_files_prefixes_torrent_name() {
    let t = TorrentListing {
        name: "Album".to_string(),
        files: Some(vec!["02.flac".to_string(), "01.flac".to_string(), "scan.jpg".to_string()]),
    };
    let r = match_torrent_files(&t, "flac").unwrap();
    assert_eq!(r, vec!["Album/01.flac".to_string(), "Album/02.flac".to_string()]);
}

#[test]
fn match_torrent_files_single_file() {
    let t = TorrentListing { name: "track.flac".to_string(), files: None };
    assert_eq!(match_torrent_files(&t, "flac").unwrap(), vec!["track.flac".to_string()]);
    assert_eq!(match_torrent_files(&t, "mp3").unwrap(), Vec::<String>::new());
}

#[test]
fn has_keys_for_level_and_flag_checks_levels() {
    let cfg = metadata_config();
    assert!(has_keys_for_level_and_flag(&cfg, "album", "metadata"));
    assert!(has_keys_for_level_and_flag(&cfg, "track", "metadata"));
    assert!(!has_keys_for_level_and_flag(&cfg, "disc", "metadata"));
    assert!(!has_keys_for_level_and_flag(&cfg, "album", "mbid"));
    assert!(!has_keys_for_level_and_flag(&cfg, "album", "other"));
}

#[test]
fn resolve_album_keys_from_documents() {
    let rg = obj(vec![
        ("title", s("Kid A")),
        ("id", s("rg1")),
        ("first-release-date", s("2000-10-02")),
    ]);
    let rel = obj(vec![
        ("id", s("r1")),
        ("country", s("GB")),
        ("date", s("2000")),
        (
            "label-info",
            Json::Array(vec![obj(vec![
                ("catalog-number", s("CDKIDA1")),
                ("label", obj(vec![("name", s("Parlophone"))])),
            ])]),
        ),
    ]);
    let dg = obj(vec![("release", obj(vec![("id", n(123))]))]);
    let ctx = AlbumContext {
        rg: &rg,
        rel: Some(&rel),
        dg: &dg,
        is_rg: false,
        ctdb: Some("abc-".to_string()),
        album_artist: "Radiohead",
    };
    let text = |k: &str| resolve_album_key(k, &ctx).map(|v| to_json_text(&v));
    assert_eq!(text("albumartist"), Some("\"Radiohead\"".to_string()));
    assert_eq!(text("album"), Some("\"Kid A\"".to_string()));
    assert_eq!(text("date"), Some("\"2000\"".to_string()));
    assert_eq!(text("original_yyyy_mm"), Some("\"2000-10\"".to_string()));
    assert_eq!(text("release_yyyy_mm"), Some("\"2000-00\"".to_string()));
    assert_eq!(text("country"), Some("\"GB\"".to_string()));
    assert_eq!(text("label"), Some("\"Parlophone\"".to_string()));
    assert_eq!(text("catalognumber"), Some("\"CDKIDA1\"".to_string()));
    assert_eq!(text("musicbrainz_albumid"), Some("\"r1\"".to_string()));
    assert_eq!(
        text("musicbrainz_release"),
        Some("\"https://musicbrainz.org/release/r1\"".to_string())
    );
    assert_eq!(
        text("musicbrainz_releasegroup"),
        Some("\"https://musicbrainz.org/release-group/rg1\"".to_string())
    );
    assert_eq!(text("discogs"), Some("\"https://discogs.com/release/123\"".to_string()));
    assert_eq!(text("ctdbtocid"), Some("\"http://db.cuetools.net/?tocid=abc-\"".to_string()));
    assert_eq!(text("genre"), None);
    assert_eq!(text("nonsense"), None);
}

#[test]
fn resolve_album_keys_of_release_group() {
    let rg = obj(vec![("title", s("T"))]);
    let dg = obj(vec![(
        "master",
        obj(vec![("id", n(77)), ("genres", Json::Array(vec![s("Jazz")]))]),
    )]);
    let ctx = AlbumContext { rg: &rg, rel: None, dg: &dg, is_rg: true, ctdb: None, album_artist: "" };
    let text = |k: &str| resolve_album_key(k, &ctx).map(|v| to_json_text(&v));
    assert_eq!(text("country"), None);
    assert_eq!(text("release_yyyy_mm"), None);
    assert_eq!(text("date"), Some("\"\"".to_string()));
    assert_eq!(text("original_yyyy_mm"), Some("\"\"".to_string()));
    assert_eq!(text("genre"), Some("[\"Jazz\"]".to_string()));
    assert_eq!(text("discogs"), Some("\"https://discogs.com/master/77\"".to_string()));
    assert_eq!(text("ctdbtocid"), None);
}

#[test]
fn resolve_track_keys() {
    let mut t = track(3, 2, "Song", "Guest");
    t.musicbrainz_trackid = "m1".to_string();
    let ctx = TrackContext { track: &t, has_multiple_discs: true, album_artist: "Main" };
    let text = |k: &str| resolve_track_key(k, &ctx).map(|v| to_json_text(&v));
    assert_eq!(text("tracknumber"), Some("3".to_string()));
    assert_eq!(text("discnumber"), Some("2".to_string()));
    assert_eq!(text("title"), Some("\"Song\"".to_string()));
    assert_eq!(text("artist"), Some("\"Guest\"".to_string()));
    assert_eq!(text("musicbrainz_trackid"), Some("\"m1\"".to_string()));
    assert_eq!(text("musicbrainz_artistid"), None);
    let same = track(1, 1, "S", "Main");
    let ctx2 = TrackContext { track: &same, has_multiple_discs: false, album_artist: "Main" };
    assert!(resolve_track_key("artist", &ctx2).is_none());
    assert!(resolve_track_key("discnumber", &ctx2).is_none());
}

#[test]
fn render_section_writes_configured_keys() {
    let cfg = metadata_config();
    let rg = obj(vec![("title", s("Kid A")), ("first-release-date", s("2000-10-02"))]);
    let dg = obj(vec![]);
    let ctx = AlbumContext { rg: &rg, rel: None, dg: &dg, is_rg: true, ctdb: None, album_artist: "R" };
    let mut out = String::from(">");
    render_section(cfg.metadata.as_ref(), "album", Some(&ctx), None, "  ", &mut out);
    assert_eq!(out, ">  album = \"Kid A\";\n\n  date = \"2000\";\n");
}

#[test]
fn generate_nix_manifest_for_disk_album() {
    let cfg = metadata_config();
    let rg = obj(vec![("title", s("Title")), ("first-release-date", s("1999"))]);
    let dg = obj(vec![]);
    let ctx = AlbumContext { rg: &rg, rel: None, dg: &dg, is_rg: true, ctdb: None, album_artist: "Artist" };
    let paths = vec!["01.flac".to_string(), "02.flac".to_string()];
    let tracks = vec![track(1, 1, "One", "")];
    let flags = vec!["metadata".to_string()];
    let params = ManifestParams {
        source_type: SourceType::Disk { nix_path: "./.".to_string() },
        cover_hash: "sha256-COVER=",
        valid_paths: &paths,
        remote_tracks: &tracks,
        album_ctx: &ctx,
        manifest_cfg: &cfg,
        active_flags: &flags,
        album_artist: "Artist",
        title: "Title",
    };
    assert!(album_keys_resolvable(&params));
    let out = generate_nix_manifest(&params);
    let expected = format!(
        "{{ vellum }}:\n\nvellum.mkAlbum {{\n\n  pname = \"artist-title\";\n\n  sourceDisk = {{\n    file = ./.;\n    hash = \"{}\";\n  }};\n\n  cover = {{\n    file = ./cover.png;\n    hash = \"sha256-COVER=\";\n  }};\n\n  album = {{\n    metadata = {{\n      album = \"Title\";\n\n      date = \"1999\";\n    }};\n  }};\n\n  tracks = [\n    {{\n      file = \"01.flac\";\n      metadata = {{\n        title = \"One\";\n      }};\n    }}\n    {{\n      file = \"02.flac\";\n      metadata = {{}};\n    }}\n  ];\n}}\n",
        FAKE_HASH
    );
    assert_eq!(out, expected);
}

#[test]
fn generate_nix_manifest_for_torrent_lists_more_tracks_than_files() {
    let cfg = ManifestConfig { metadata: None, mbid: None, url: None };
    let rg = obj(vec![]);
    let dg = obj(vec![]);
    let ctx = AlbumContext { rg: &rg, rel: None, dg: &dg, is_rg: true, ctdb: None, album_artist: "" };
    let paths: Vec<String> = vec![];
    let tracks = vec![track(1, 1, "One", ""), track(2, 1, "Two", "")];
    let flags = vec!["metadata".to_string()];
    let params = ManifestParams {
        source_type: SourceType::Torrent { nix_path: "./a.torrent".to_string(), hash: "sha256-T=".to_string() },
        cover_hash: FAKE_HASH,
        valid_paths: &paths,
        remote_tracks: &tracks,
        album_ctx: &ctx,
        manifest_cfg: &cfg,
        active_flags: &flags,
        album_artist: "",
        title: "X",
    };
    let out = generate_nix_manifest(&params);
    assert!(out.contains("  sourceTorrent = {\n    file = ./a.torrent;\n    hash = \"sha256-T=\";\n  };\n"));
    assert_eq!(out.matches("      file = \"\";\n").count(), 2);
    assert!(out.contains("  pname = \"x\";\n"));
}

#[test]
fn album_keys_resolvable_refuses_split_characters() {
    let cfg = metadata_config();
    let rg = obj(vec![("first-release-date", s("199é-01"))]);
    let dg = obj(vec![]);
    let ctx = AlbumContext { rg: &rg, rel: None, dg: &dg, is_rg: true, ctdb: None, album_artist: "" };
    let paths: Vec<String> = vec![];
    let tracks: Vec<TrackData> = vec![];
    let flags = vec!["metadata".to_string()];
    let params = ManifestParams {
        source_type: SourceType::Disk { nix_path: "./.".to_string() },
        cover_hash: FAKE_HASH,
        valid_paths: &paths,
        remote_tracks: &tracks,
        album_ctx: &ctx,
        manifest_cfg: &cfg,
        active_flags: &flags,
        album_artist: "",
        title: "",
    };
    assert!(!album_keys_resolvable(&params));
}

#[test]
fn album_documents_picks_parts() {
    let raw = obj(vec![
        ("_is_rg", Json::Bool(true)),
        ("discogs", obj(vec![])),
        ("musicbrainz", obj(vec![("release_group", obj(vec![("title", s("T"))]))])),
    ]);
    let d = album_documents(&raw).ok().unwrap();
    assert!(d.is_rg);
    assert!(d.rel.is_none());
    assert_eq!(to_json_text(&d.dg), "{}");
    assert_eq!(album_title(d.rg), "T");
}

#[test]
fn album_documents_default_discogs() {
    let raw = obj(vec![(
        "musicbrainz",
        obj(vec![("release_group", obj(vec![])), ("release", obj(vec![("id", s("r"))]))]),
    )]);
    let d = album_documents(&raw).ok().unwrap();
    assert!(!d.is_rg);
    assert!(d.rel.is_some());
    assert_eq!(to_json_text(&d.dg), "{}");
}

#[test]
fn album_parts_of_release() {
    let raw = obj(vec![
        ("_is_rg", Json::Bool(false)),
        (
            "musicbrainz",
            obj(vec![
                (
                    "release_group",
                    obj(vec![
                        ("title", s("OK Computer")),
                        ("artist-credit", Json::Array(vec![obj(vec![("name", s("Radiohead"))])])),
                    ]),
                ),
                (
                    "release",
                    obj(vec![(
                        "media",
                        Json::Array(vec![obj(vec![(
                            "tracks",
                            Json::Array(vec![obj(vec![("number", s("1")), ("title", s("Airbag"))])]),
                        )])]),
                    )]),
                ),
            ]),
        ),
    ]);
    let d = album_documents(&raw).ok().unwrap();
    let p = album_parts(&d);
    assert_eq!(p.album_artist, "Radiohead");
    assert_eq!(p.title, "OK Computer");
    assert_eq!(p.remote_tracks.len(), 1);
    assert_eq!(p.remote_tracks[0].title, "Airbag");
    assert!(p.wants_disc_id);
}

#[test]
fn album_documents_errors() {
    let no_mb = obj(vec![("_is_rg", Json::Bool(false))]);
    assert_eq!(album_documents(&no_mb).err().unwrap(), "Missing musicbrainz data");
    let no_rg = obj(vec![("musicbrainz", obj(vec![("release", obj(vec![]))]))]);
    assert_eq!(album_documents(&no_rg).err().unwrap(), "Missing release_group data");
}

#[test]
fn album_title_defaults() {
    assert_eq!(album_title(&obj(vec![])), "Unknown Title");
}

#[test]
fn nix_hashes_from_command_output() {
    assert_eq!(cover_hash_from(Some(" sha256-abc=\n")), "sha256-abc=");
    assert_eq!(cover_hash_from(None), FAKE_HASH);
    assert_eq!(torrent_hash_from(true, "sha256-t=\n").unwrap(), "sha256-t=");
    assert_eq!(torrent_hash_from(false, "x").err().unwrap(), "Failed to hash torrent file with nix");
}

#[test]
fn to_nix_value_strings_read_back() {
    for text in ["plain", "back\\slash", "say \"x\"", "\\\"", ""] {
        let lit = to_nix_value(&s(text));
        assert!(lit.starts_with('"') && lit.ends_with('"'));
        let inner: Vec<char> = lit[1..lit.len() - 1].chars().collect();
        let mut out = String::new();
        let mut i = 0;
        while i < inner.len() {
            if inner[i] == '\\' {
                assert!(i + 1 < inner.len() && (inner[i + 1] == '\\' || inner[i + 1] == '"'));
                out.push(inner[i + 1]);
                i += 2;
            } else {
                assert!(inner[i] != '"');
                out.push(inner[i]);
                i += 1;
            }
        }
        assert_eq!(out, text);
    }
}

#[test]
fn no_keys_at_level_render_nothing() {
    let cfg = metadata_config();
    assert!(!has_keys_for_level_and_flag(&cfg, "disc", "metadata"));
    let rg = obj(vec![("title", s("T"))]);
    let dg = obj(vec![]);
    let ctx = AlbumContext { rg: &rg, rel: None, dg: &dg, is_rg: true, ctdb: None, album_artist: "" };
    let mut out = String::from("kept");
    render_section(cfg.metadata.as_ref(), "disc", Some(&ctx), None, "  ", &mut out);
    assert_eq!(out, "kept");
    render_section(cfg.mbid.as_ref(), "album", Some(&ctx), None, "  ", &mut out);
    assert_eq!(out, "kept");
}
