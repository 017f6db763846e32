use vellcro::discid::{
    ctdb_base64, ctdb_from_samples, get_ctdb_id, is_flac_name, readable_samples,
    samples_computable, sort_disc_tracks, toc_string, tocid_lookup_url, DiscTrack,
};
use vellcro::natural_order::sort_paths;

fn numbered(path: &str, n: u32, samples: Option<u64>) -> DiscTrack {
    DiscTrack { path: path.to_string(), sort_key: (0, n, String::new()), total_samples: samples }
}

fn unnumbered(path: &str, samples: Option<u64>) -> DiscTrack {
    DiscTrack { path: path.to_string(), sort_key: (1, 0, path.to_string()), total_samples: samples }
}

#[test]
fn get_ctdb_id_of_no_tracks() {
    assert_eq!(get_ctdb_id(vec![]), None);
}

#[test]
fn get_ctdb_id_of_two_tracks() {
    let tracks = vec![numbered("b.flac", 2, Some(588 * 200)), numbered("a.flac", 1, Some(588 * 100))];
    assert_eq!(get_ctdb_id(tracks), Some("hb4Wyz0hmJjSNs4RoH3MEkWCQ24-".to_string()));
}

#[test]
fn get_ctdb_id_skips_unreadable_tracks() {
    let tracks = vec![unnumbered("x.flac", None), numbered("a.flac", 1, Some(588 * 10))];
    assert_eq!(get_ctdb_id(tracks), Some("TEvJRmIXNbBbWAdJrIDZcgO03TY-".to_string()));
}

#[test]
fn ctdb_ids_have_a_fixed_shape() {
    for n in [1u64, 588, 588 * 3000, 123456789] {
        let id = get_ctdb_id(vec![numbered("t.flac", 1, Some(n))]).unwrap();
        assert_eq!(id.chars().count(), 28);
        assert!(id.ends_with('-'));
        assert!(id[..27].chars().all(|c| c.is_ascii_alphanumeric() || c == '.' || c == '_'));
    }
}

#[test]
fn toc_string_is_padded_hex_offsets() {
    let t = toc_string(&vec![588 * 100, 588 * 200]);
    assert_eq!(t.len(), 800);
    assert!(t.starts_with("000000640000012C0"));
    assert!(t[16..].chars().all(|c| c == '0'));
}

#[test]
fn ctdb_from_samples_matches_get_ctdb_id() {
    assert_eq!(ctdb_from_samples(&vec![588 * 10]), "TEvJRmIXNbBbWAdJrIDZcgO03TY-");
}

#[test]
fn samples_computable_needs_a_track() {
    assert!(!samples_computable(&vec![]));
    assert!(samples_computable(&vec![588]));
    assert!(!samples_computable(&vec![u64::MAX; 600]));
}

#[test]
fn sort_disc_tracks_plays_numbered_first() {
    let tracks = vec![
        unnumbered("b.flac", Some(1)),
        numbered("z.flac", 2, Some(2)),
        unnumbered("a.flac", Some(3)),
        numbered("y.flac", 1, Some(4)),
    ];
    let sorted = sort_disc_tracks(tracks);
    let paths: Vec<&str> = sorted.iter().map(|t| t.path.as_str()).collect();
    assert_eq!(paths, vec!["y.flac", "z.flac", "a.flac", "b.flac"]);
}

#[test]
fn readable_samples_keeps_order() {
    let tracks = vec![numbered("a", 1, Some(5)), numbered("b", 2, None), numbered("c", 3, Some(7))];
    assert_eq!(readable_samples(&tracks), vec![5, 7]);
}

#[test]
fn is_flac_name_by_extension() {
    assert!(is_flac_name("01 Intro.flac"));
    assert!(is_flac_name("..flac"));
    assert!(!is_flac_name(".flac"));
    assert!(!is_flac_name("a.FLAC"));
    assert!(!is_flac_name("a.flac.txt"));
    assert!(!is_flac_name("flac"));
}

#[test]
fn tocid_lookup_url_links_cuetools() {
    assert_eq!(tocid_lookup_url("abc-"), "https://db.cuetools.net/?tocid=abc-");
}

#[test]
fn sort_paths_orders_naturally() {
    let v = vec!["track10.flac".to_string(), "track9.flac".to_string(), "track1.flac".to_string()];
    assert_eq!(
        sort_paths(v),
        vec!["track1.flac".to_string(), "track9.flac".to_string(), "track10.flac".to_string()]
    );
}

#[test]
fn ctdb_base64_substitutes_url_safe_characters() {
    assert_eq!(ctdb_base64(b"hi?>"), "aGk_Pg--");
    assert_eq!(ctdb_base64(b"\xfb\xff"), "._8-");
    assert_eq!(ctdb_base64(b""), "");
}

#[test]
fn sort_paths_keeps_sorted_paths() {
    let v = vec!["b/2.flac".to_string(), "a/10.flac".to_string(), "a/9.flac".to_string()];
    let once = sort_paths(v);
    assert_eq!(sort_paths(once.clone()), once);
}

#[test]
fn sort_disc_tracks_keeps_ties_in_order() {
    let tracks = vec![
        numbered("same.flac", 1, Some(10)),
        numbered("other.flac", 2, Some(20)),
        numbered("same.flac", 1, Some(30)),
    ];
    let sorted = sort_disc_tracks(tracks);
    let samples: Vec<Option<u64>> = sorted.iter().map(|t| t.total_samples).collect();
    assert_eq!(samples, vec![Some(10), Some(30), Some(20)]);
}

#[test]
fn ctdb_id_depends_on_whole_sectors() {
    let a = get_ctdb_id(vec![numbered("a.flac", 1, Some(588 * 100)), numbered("b.flac", 2, Some(588 * 200))]);
    let b = get_ctdb_id(vec![numbered("b.flac", 2, Some(588 * 200 + 587)), numbered("a.flac", 1, Some(588 * 100 + 1))]);
    assert_eq!(a, b);
}

#[test]
fn ctdb_id_independent_of_listing_order() {
    let a = get_ctdb_id(vec![
        numbered("a.flac", 1, Some(588 * 100)),
        unnumbered("z.flac", Some(588 * 7)),
        numbered("b.flac", 2, Some(588 * 200)),
    ]);
    let b = get_ctdb_id(vec![
        numbered("b.flac", 2, Some(588 * 200)),
        numbered("a.flac", 1, Some(588 * 100)),
        unnumbered("z.flac", Some(588 * 7)),
    ]);
    assert_eq!(a, b);
}
