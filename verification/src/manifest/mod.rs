//! Nix manifests for albums: track data from the metadata documents, the
//! files that belong to a release, and the rendered `vellum.mkAlbum` text.
use vstd::prelude::*;
use crate::json::{
    first_opt, get_opt, jget, json_views, oarr, ofirst, oget, opt_view, ostr, ou64, str_opt, Json,
    JsonV,
};
use crate::json::{number_text, number_to_text, NumV};
use crate::text::{
    chars_of, join, join_spec, owned, parse_u32, parse_u32_spec, push_char, push_str, str_eq,
    string_views,
};
use crate::utils::{alphanumeric, is_alphanumeric, join_artists, join_artists_spec, lowercase, to_lowercase};
use crate::text::{contains_char, keep_non_empty, non_empty, split_char, split_spec, trim, trim_spec};
use crate::glob::{globs_build, builder_add, builder_build, builder_patterns, glob_matches, glob_valid, new_builder, new_glob, set_is_match, set_patterns};
use crate::natural_order::{naturally_sorted, sort_paths};
use globset::GlobSet;
use crate::config::{key_table, key_table_entries, entry_triples, ManifestConfig, ManifestKeyConfig};
use indexmap::IndexMap;
use keys::{AlbumContext, TrackContext, resolve_album_key, resolve_track_key};

pub mod keys;

verus! {

/// One track as the metadata documents describe it.
pub struct TrackData {
    pub tracknumber: u32,
    pub discnumber: u32,
    pub title: String,
    pub artist: String,
    pub musicbrainz_trackid: String,
    pub musicbrainz_releasetrackid: String,
    pub musicbrainz_artistid: String,
}

/// Mathematical counterpart of [`TrackData`].
pub struct TrackV {
    pub tracknumber: u32,
    pub discnumber: u32,
    pub title: Seq<char>,
    pub artist: Seq<char>,
    pub trackid: Seq<char>,
    pub releasetrackid: Seq<char>,
    pub artistid: Seq<char>,
}

impl View for TrackData {
    type V = TrackV;

    open spec fn view(&self) -> TrackV {
        TrackV {
            tracknumber: self.tracknumber,
            discnumber: self.discnumber,
            title: self.title@,
            artist: self.artist@,
            trackid: self.musicbrainz_trackid@,
            releasetrackid: self.musicbrainz_releasetrackid@,
            artistid: self.musicbrainz_artistid@,
        }
    }
}

pub open spec fn track_views(v: Seq<TrackData>) -> Seq<TrackV> {
    v.map_values(|t: TrackData| t@)
}

/// Where the album's audio comes from.
pub enum SourceType {
    Torrent { nix_path: String, hash: String },
    Disk { nix_path: String },
}

// ---------------------------------------------------------------------------
// Remote tracks
// ---------------------------------------------------------------------------

pub open spec fn opt_or(a: Option<JsonV>, b: Option<JsonV>) -> Option<JsonV> {
    if a is Some {
        a
    } else {
        b
    }
}

pub open spec fn str_or(o: Option<Seq<char>>, d: Seq<char>) -> Seq<char> {
    match o {
        Some(s) => s,
        None => d,
    }
}

/// A number truncated to 32 bits (`as u32`).
pub open spec fn low32(n: int) -> u32 {
    (n % 0x1_0000_0000) as u32
}

/// Where a release track's artist credit is: on the track, else on its
/// recording.
pub open spec fn track_credit(t: JsonV) -> Option<JsonV> {
    opt_or(jget(t, "artist-credit"@), oget(jget(t, "recording"@), "artist-credit"@))
}

/// A track of a MusicBrainz release on disc `disc`.
pub open spec fn release_track(t: JsonV, disc: u32) -> TrackV {
    let recording = jget(t, "recording"@);
    TrackV {
        tracknumber: match ostr(jget(t, "number"@)) {
            Some(s) => match parse_u32_spec(s) {
                Some(n) => n,
                None => 0,
            },
            None => 0,
        },
        discnumber: disc,
        title: match ostr(jget(t, "title"@)) {
            Some(x) => x,
            None => str_or(ostr(oget(recording, "title"@)), "Untitled"@),
        },
        artist: join_artists_spec(track_credit(t)),
        trackid: str_or(ostr(oget(recording, "id"@)), Seq::empty()),
        releasetrackid: str_or(ostr(jget(t, "id"@)), Seq::empty()),
        artistid: str_or(ostr(oget(oget(ofirst(track_credit(t)), "artist"@), "id"@)), Seq::empty()),
    }
}

/// The disc number of a medium: its position truncated to 32 bits, 1 if
/// it has none.
pub open spec fn medium_disc(m: JsonV) -> u32 {
    match ou64(jget(m, "position"@)) {
        Some(p) => low32(p as int),
        None => 1,
    }
}

/// The track list of a medium (`tracks`, else `track`).
pub open spec fn medium_track_list(m: JsonV) -> Option<Seq<JsonV>> {
    oarr(opt_or(jget(m, "tracks"@), jget(m, "track"@)))
}

pub open spec fn tracks_of_medium(m: JsonV) -> Seq<TrackV> {
    match medium_track_list(m) {
        Some(ts) => ts.map_values(|t: JsonV| release_track(t, medium_disc(m))),
        None => Seq::empty(),
    }
}

pub open spec fn media_tracks(media: Seq<JsonV>) -> Seq<TrackV>
    decreases media.len(),
{
    if media.len() == 0 {
        Seq::empty()
    } else {
        media_tracks(media.drop_last()) + tracks_of_medium(media.last())
    }
}

/// The tracks of a Discogs master tracklist: the entries of type `track`,
/// numbered from 1 on disc 1.
pub open spec fn master_tracks(list: Seq<JsonV>) -> Seq<TrackV>
    decreases list.len(),
{
    if list.len() == 0 {
        Seq::empty()
    } else {
        let prev = master_tracks(list.drop_last());
        let t = list.last();
        if ostr(jget(t, "type_"@)) == Some("track"@) {
            prev.push(
                TrackV {
                    tracknumber: low32(prev.len() + 1int),
                    discnumber: 1,
                    title: str_or(ostr(jget(t, "title"@)), "Untitled"@),
                    artist: Seq::empty(),
                    trackid: Seq::empty(),
                    releasetrackid: Seq::empty(),
                    artistid: Seq::empty(),
                },
            )
        } else {
            prev
        }
    }
}

/// The tracks the metadata lists: the media of the release, or for a
/// release group the Discogs master's tracklist.
pub open spec fn remote_tracks_spec(rel: Option<JsonV>, dg: JsonV, is_rg: bool) -> Seq<TrackV> {
    if !is_rg {
        match oarr(oget(rel, "media"@)) {
            Some(media) => media_tracks(media),
            None => Seq::empty(),
        }
    } else {
        match oarr(oget(jget(dg, "master"@), "tracklist"@)) {
            Some(list) => master_tracks(list),
            None => Seq::empty(),
        }
    }
}

fn or_str<'a>(o: Option<&'a str>, d: &'a str) -> (r: &'a str)
    ensures
        r@ == match o {
            Some(s) => s@,
            None => d@,
        },
{
    match o {
        Some(s) => s,
        None => d,
    }
}

fn or_json<'a>(a: Option<&'a Json>, b: Option<&'a Json>) -> (r: Option<&'a Json>)
    ensures
        opt_view(r) == opt_or(opt_view(a), opt_view(b)),
{
    if a.is_some() {
        a
    } else {
        b
    }
}

fn release_track_data(t: &Json, disc: u32) -> (r: TrackData)
    ensures
        r@ == release_track(t@, disc),
{
    let recording = t.get("recording");
    let tracknumber = match str_opt(t.get("number")) {
        Some(s) => match parse_u32(s) {
            Some(n) => n,
            None => 0,
        },
        None => 0,
    };
    let title = match str_opt(t.get("title")) {
        Some(x) => owned(x),
        None => owned(or_str(str_opt(get_opt(recording, "title")), "Untitled")),
    };
    let credit = or_json(t.get("artist-credit"), get_opt(recording, "artist-credit"));
    let artist = join_artists(credit);
    let trackid = owned(or_str(str_opt(get_opt(recording, "id")), ""));
    let releasetrackid = owned(or_str(str_opt(t.get("id")), ""));
    let artistid = owned(or_str(str_opt(get_opt(get_opt(first_opt(credit), "artist"), "id")), ""));
    proof {
        reveal_strlit("");
        assert(""@ =~= Seq::<char>::empty());
    }
    TrackData {
        tracknumber,
        discnumber: disc,
        title,
        artist,
        musicbrainz_trackid: trackid,
        musicbrainz_releasetrackid: releasetrackid,
        musicbrainz_artistid: artistid,
    }
}

fn empty_string() -> (r: String)
    ensures
        r@ == Seq::<char>::empty(),
{
    String::new()
}

/// The tracks listed by the release (`rel`) or, for a release group, by
/// the Discogs master (`dg`).
pub fn extract_remote_tracks(rel: Option<&Json>, dg: &Json, is_rg: bool) -> (r: Vec<TrackData>)
    ensures
        track_views(r@) == remote_tracks_spec(opt_view(rel), dg@, is_rg),
{
    let mut remote_tracks: Vec<TrackData> = Vec::new();
    if !is_rg {
        let media = match get_opt(rel, "media") {
            Some(m) => m.as_array(),
            None => None,
        };
        if let Some(media) = media {
            let ghost mv = json_views(media@);
            let mut i: usize = 0;
            while i < media.len()
                invariant
                    i <= media.len(),
                    mv == json_views(media@),
                    track_views(remote_tracks@) == media_tracks(mv.take(i as int)),
                decreases media.len() - i,
            {
                let medium = &media[i];
                assert(mv[i as int] == medium@);
                assert(mv.take(i + 1).drop_last() =~= mv.take(i as int));
                let disc_num: u32 = match medium.get("position") {
                    Some(p) => match p.as_u64() {
                        Some(n) => (n % 0x1_0000_0000) as u32,
                        None => 1,
                    },
                    None => 1,
                };
                assert(disc_num == medium_disc(medium@));
                let list = match or_json(medium.get("tracks"), medium.get("track")) {
                    Some(l) => l.as_array(),
                    None => None,
                };
                let ghost before = track_views(remote_tracks@);
                if let Some(tracks) = list {
                    let ghost tv = json_views(tracks@);
                    let mut j: usize = 0;
                    while j < tracks.len()
                        invariant
                            j <= tracks.len(),
                            tv == json_views(tracks@),
                            track_views(remote_tracks@) == before + tv.take(j as int).map_values(
                                |t: JsonV| release_track(t, disc_num),
                            ),
                        decreases tracks.len() - j,
                    {
                        assert(tv[j as int] == tracks@[j as int]@);
                        let td = release_track_data(&tracks[j], disc_num);
                        let ghost pre = track_views(remote_tracks@);
                        let ghost tdv = td@;
                        remote_tracks.push(td);
                        assert(track_views(remote_tracks@) =~= pre.push(tdv));
                        assert(tv.take(j + 1).map_values(|t: JsonV| release_track(t, disc_num))
                            =~= tv.take(j as int).map_values(|t: JsonV| release_track(t, disc_num)).push(
                            release_track(tv[j as int], disc_num),
                        ));
                        j = j + 1;
                    }
                    assert(tv.take(tracks.len() as int) =~= tv);
                    assert(track_views(remote_tracks@) =~= before + tracks_of_medium(medium@));
                } else {
                    assert(tracks_of_medium(medium@) =~= Seq::<TrackV>::empty());
                    assert(track_views(remote_tracks@) =~= before + tracks_of_medium(medium@));
                }
                i = i + 1;
            }
            assert(mv.take(media.len() as int) =~= mv);
        }
    } else {
        let list = match get_opt(dg.get("master"), "tracklist") {
            Some(l) => l.as_array(),
            None => None,
        };
        if let Some(list) = list {
            let ghost lv = json_views(list@);
            let mut i: usize = 0;
            let mut number: u32 = 1;
            while i < list.len()
                invariant
                    i <= list.len(),
                    lv == json_views(list@),
                    track_views(remote_tracks@) == master_tracks(lv.take(i as int)),
                    number == low32(remote_tracks@.len() + 1int),
                decreases list.len() - i,
            {
                let t = &list[i];
                assert(lv[i as int] == t@);
                assert(lv.take(i + 1).drop_last() =~= lv.take(i as int));
                let is_track = match str_opt(t.get("type_")) {
                    Some(ty) => str_eq(ty, "track"),
                    None => false,
                };
                if is_track {
                    let title = owned(or_str(str_opt(t.get("title")), "Untitled"));
                    let ghost pre = track_views(remote_tracks@);
                    let td = TrackData {
                        tracknumber: number,
                        discnumber: 1,
                        title,
                        artist: empty_string(),
                        musicbrainz_trackid: empty_string(),
                        musicbrainz_releasetrackid: empty_string(),
                        musicbrainz_artistid: empty_string(),
                    };
                    let ghost tdv = td@;
                    remote_tracks.push(td);
                    assert(track_views(remote_tracks@) =~= pre.push(tdv));
                    number = if number == 0xffff_ffffu32 {
                        0
                    } else {
                        number + 1
                    };
                }
                i = i + 1;
            }
            assert(lv.take(list.len() as int) =~= lv);
        }
    }
    remote_tracks
}

// ---------------------------------------------------------------------------
// Nix values
// ---------------------------------------------------------------------------

/// A string with `\` and `"` escaped for a Nix string literal.
pub open spec fn nix_escape(s: Seq<char>) -> Seq<char>
    decreases s.len(),
{
    if s.len() == 0 {
        Seq::empty()
    } else {
        nix_escape(s.drop_last()) + nix_escape_char(s.last())
    }
}

/// How a JSON value is written in Nix: strings quoted and escaped,
/// numbers and booleans as they display, arrays as `[ a b ]`, anything
/// else as an empty string.
pub open spec fn nix_text(v: JsonV) -> Seq<char>
    decreases v, 1int,
{
    match v {
        JsonV::Str(s) => seq!['"'] + nix_escape(s) + seq!['"'],
        JsonV::Number(n) => number_text(n),
        JsonV::Bool(b) => if b {
            "true"@
        } else {
            "false"@
        },
        JsonV::Array(items) => "[ "@ + join_spec(nix_texts(items), seq![' ']) + " ]"@,
        _ => seq!['"', '"'],
    }
}

pub open spec fn nix_texts(items: Seq<JsonV>) -> Seq<Seq<char>>
    decreases items, 0int,
{
    Seq::new(
        items.len(),
        |i: int|
            if 0 <= i < items.len() {
                nix_text(items[i])
            } else {
                Seq::empty()
            },
    )
}

/// How one character is written inside a Nix string literal.
pub open spec fn nix_escape_char(c: char) -> Seq<char> {
    if c == '\\' {
        seq!['\\', '\\']
    } else if c == '"' {
        seq!['\\', '"']
    } else {
        seq![c]
    }
}

/// Reads the inside of a Nix string literal left to right: `\\` stands for
/// a backslash and `\"` for a quote; any other backslash, or a bare quote,
/// makes it no such text.
pub open spec fn nix_unescape(e: Seq<char>) -> Option<Seq<char>>
    decreases e.len(),
{
    if e.len() == 0 {
        Some(Seq::empty())
    } else if e[0] == '\\' {
        if e.len() >= 2 && (e[1] == '\\' || e[1] == '"') {
            match nix_unescape(e.skip(2)) {
                Some(r) => Some(seq![e[1]] + r),
                None => None,
            }
        } else {
            None
        }
    } else if e[0] == '"' {
        None
    } else {
        match nix_unescape(e.skip(1)) {
            Some(r) => Some(seq![e[0]] + r),
            None => None,
        }
    }
}

pub proof fn lemma_nix_escape_cons(c: char, t: Seq<char>)
    ensures
        nix_escape(seq![c] + t) == nix_escape_char(c) + nix_escape(t),
    decreases t.len(),
{
    if t.len() == 0 {
        assert(seq![c] + t =~= seq![c]);
        assert(seq![c].drop_last() =~= Seq::<char>::empty());
        assert(nix_escape(seq![c]) == nix_escape(Seq::<char>::empty()) + nix_escape_char(c));
        assert(nix_escape(Seq::<char>::empty()) =~= Seq::<char>::empty());
        assert(nix_escape_char(c) + nix_escape(t) =~= nix_escape_char(c));
        assert(Seq::<char>::empty() + nix_escape_char(c) =~= nix_escape_char(c));
    } else {
        let u = seq![c] + t;
        assert(u.drop_last() =~= seq![c] + t.drop_last());
        assert(u.last() == t.last());
        lemma_nix_escape_cons(c, t.drop_last());
        assert(nix_escape_char(c) + nix_escape(t.drop_last()) + nix_escape_char(t.last())
            =~= nix_escape_char(c) + (nix_escape(t.drop_last()) + nix_escape_char(t.last())));
    }
}

pub proof fn lemma_nix_unescape_escape(s: Seq<char>)
    ensures
        nix_unescape(nix_escape(s)) == Some(s),
    decreases s.len(),
{
    if s.len() > 0 {
        let c = s[0];
        let rest = s.skip(1);
        assert(s =~= seq![c] + rest);
        lemma_nix_escape_cons(c, rest);
        lemma_nix_unescape_escape(rest);
        let er = nix_escape(rest);
        let e = nix_escape_char(c) + er;
        assert(nix_escape(s) == e);
        if c == '\\' || c == '"' {
            assert(e[0] == '\\');
            assert(e[1] == c);
            assert(e.skip(2) =~= er);
        } else {
            assert(e[0] == c);
            assert(e.skip(1) =~= er);
        }
        assert(seq![c] + rest =~= s);
    } else {
        assert(nix_escape(s) =~= Seq::<char>::empty());
    }
}

/// A string is written in Nix as a quoted literal that reads back as the
/// string itself.
pub proof fn law_nix_string_round_trip(s: Seq<char>)
    ensures
        nix_text(JsonV::Str(s)) == seq!['"'] + nix_escape(s) + seq!['"'],
        nix_unescape(nix_escape(s)) == Some(s),
{
    lemma_nix_unescape_escape(s);
}

fn push_nix_escaped(out: &mut String, s: &str)
    ensures
        final(out)@ == old(out)@ + nix_escape(s@),
{
    let cs = chars_of(s);
    let ghost start = out@;
    let mut i: usize = 0;
    while i < cs.len()
        invariant
            i <= cs.len(),
            cs@ == s@,
            out@ == start + nix_escape(s@.take(i as int)),
        decreases cs.len() - i,
    {
        assert(s@.take(i + 1).drop_last() =~= s@.take(i as int));
        let c = cs[i];
        if c == '\\' {
            push_char(out, '\\');
            push_char(out, '\\');
        } else if c == '"' {
            push_char(out, '\\');
            push_char(out, '"');
        } else {
            push_char(out, c);
        }
        assert(out@ =~= start + nix_escape(s@.take(i + 1)));
        i = i + 1;
    }
    assert(s@.take(cs.len() as int) =~= s@);
}

/// The Nix text of a JSON value.
pub fn to_nix_value(val: &Json) -> (r: String)
    ensures
        r@ == nix_text(val@),
    decreases val,
{
    match val {
        Json::Str(s) => {
            let mut r = String::new();
            push_char(&mut r, '"');
            push_nix_escaped(&mut r, s.as_str());
            push_char(&mut r, '"');
            assert(r@ =~= nix_text(val@));
            r
        },
        Json::Number(n) => number_to_text(n),
        Json::Bool(b) => {
            proof {
                reveal_strlit("true");
                reveal_strlit("false");
            }
            if *b {
                owned("true")
            } else {
                owned("false")
            }
        },
        Json::Array(arr) => {
            let mut items: Vec<String> = Vec::new();
            let ghost av = json_views(arr@);
            let mut i: usize = 0;
            while i < arr.len()
                invariant
                    i <= arr.len(),
                    *val == Json::Array(*arr),
                    av == json_views(arr@),
                    string_views(items@) == nix_texts(av).take(i as int),
                decreases arr.len() - i,
            {
                proof {
                    broadcast use vstd::std_specs::vec::axiom_vec_index_decreases;
                    let me = *val;
                    let vv = *arr;
                    assert(decreases_to!(me => me->Array_0));
                    assert(decreases_to!(vv => vv[i as int]));
                }
                let t = to_nix_value(&arr[i]);
                let ghost pre = string_views(items@);
                let ghost tv = t@;
                items.push(t);
                assert(string_views(items@) =~= pre.push(tv));
                assert(nix_texts(av)[i as int] == nix_text(arr@[i as int]@));
                assert(string_views(items@) =~= nix_texts(av).take(i + 1));
                i = i + 1;
            }
            assert(nix_texts(av).take(arr.len() as int) =~= nix_texts(av));
            let mut r = owned("[ ");
            let joined = join(&items, " ");
            push_str(&mut r, joined.as_str());
            push_str(&mut r, " ]");
            proof {
                reveal_strlit(" ");
                assert(" "@ =~= seq![' ']);
            }
            r
        },
        _ => {
            proof {
                reveal_strlit("\"\"");
            }
            let r = owned("\"\"");
            assert(r@ =~= seq!['"', '"']);
            r
        },
    }
}

// ---------------------------------------------------------------------------
// Key sections
// ---------------------------------------------------------------------------

/// Whether a configured level names `target` (`"album"` or `"albums"`).
pub open spec fn level_matches(level: Seq<char>, target: Seq<char>) -> bool {
    level == target || level == target + seq!['s']
}

fn level_match(level: &str, target: &str) -> (r: bool)
    ensures
        r == level_matches(level@, target@),
{
    if str_eq(level, target) {
        return true;
    }
    let mut plural = owned(target);
    push_char(&mut plural, 's');
    assert(plural@ =~= target@ + seq!['s']);
    str_eq(level, plural.as_str())
}

/// Whether the flag's key table has a key at `level`.
pub open spec fn has_level_keys(cfg: ManifestConfig, level: Seq<char>, flag: Seq<char>) -> bool {
    match cfg.table_spec(flag) {
        Some(m) => exists|i: int|
            0 <= i < key_table(m).len() && level_matches(#[trigger] key_table(m)[i].1, level),
        None => false,
    }
}

/// Whether the manifest configuration lists, for `target_flag`, a key at
/// `target_level`.
pub fn has_keys_for_level_and_flag(cfg: &ManifestConfig, target_level: &str, target_flag: &str) -> (r: bool)
    ensures
        r == has_level_keys(*cfg, target_level@, target_flag@),
{
    let table = match cfg.table_for_flag(target_flag) {
        Some(t) => t,
        None => return false,
    };
    let entries = key_table_entries(table);
    let mut i: usize = 0;
    while i < entries.len()
        invariant
            i <= entries.len(),
            entry_triples(entries@) == key_table(*table),
            cfg.table_spec(target_flag@) == Some(*table),
            forall|j: int| 0 <= j < i ==> !level_matches(#[trigger] key_table(*table)[j].1, target_level@),
        decreases entries.len() - i,
    {
        assert(key_table(*table)[i as int].1 == entries@[i as int].1.level@);
        if level_match(entries[i].1.level.as_str(), target_level) {
            assert(level_matches(key_table(*table)[i as int].1, target_level@));
            assert(key_table(*table).len() == entries@.len());
            let ghost ts = cfg.table_spec(target_flag@);
            assert(ts->0 == *table);
            assert(key_table(ts->0) == key_table(*table));
            return true;
        }
        i = i + 1;
    }
    false
}

/// Where the values of a section's keys come from.
pub open spec fn key_value(key: Seq<char>, album: Option<&AlbumContext>, track: Option<&TrackContext>) -> Option<JsonV> {
    match album {
        Some(ctx) => ctx.album_key_spec(key),
        None => match track {
            Some(t) => t.track_key_spec(key),
            None => None,
        },
    }
}

/// The line an entry renders: `key = value;` after the indent, preceded
/// by a blank line when configured; nothing at another level or without a
/// value.
pub open spec fn entry_line(e: (Seq<char>, Seq<char>, bool), level: Seq<char>, value: Option<JsonV>, indent: Seq<char>) -> Seq<char> {
    if level_matches(e.1, level) {
        match value {
            Some(v) => (if e.2 { seq!['\n'] } else { Seq::empty() }) + indent + e.0 + " = "@ + nix_text(v) + ";\n"@,
            None => Seq::empty(),
        }
    } else {
        Seq::empty()
    }
}

/// The lines a key table renders at `level`.
pub open spec fn section_text(
    entries: Seq<(Seq<char>, Seq<char>, bool)>,
    level: Seq<char>,
    album: Option<&AlbumContext>,
    track: Option<&TrackContext>,
    indent: Seq<char>,
) -> Seq<char>
    decreases entries.len(),
{
    if entries.len() == 0 {
        Seq::empty()
    } else {
        let e = entries.last();
        section_text(entries.drop_last(), level, album, track, indent) + entry_line(
            e,
            level,
            key_value(e.0, album, track),
            indent,
        )
    }
}

pub proof fn lemma_section_empty(
    entries: Seq<(Seq<char>, Seq<char>, bool)>,
    level: Seq<char>,
    album: Option<&AlbumContext>,
    track: Option<&TrackContext>,
    indent: Seq<char>,
)
    requires
        forall|i: int| 0 <= i < entries.len() ==> !level_matches(#[trigger] entries[i].1, level),
    ensures
        section_text(entries, level, album, track, indent) == Seq::<char>::empty(),
    decreases entries.len(),
{
    if entries.len() > 0 {
        let d = entries.drop_last();
        assert forall|i: int| 0 <= i < d.len() implies !level_matches(#[trigger] d[i].1, level) by {
            assert(d[i] == entries[i]);
        }
        lemma_section_empty(d, level, album, track, indent);
        assert(!level_matches(entries[entries.len() - 1].1, level));
        assert(Seq::<char>::empty() + Seq::<char>::empty() =~= Seq::<char>::empty());
    }
}

/// When the configuration lists no key of a flag at a level, the flag's
/// section at that level renders nothing: the output is left as it was.
pub proof fn law_no_keys_no_lines(
    cfg: ManifestConfig,
    level: Seq<char>,
    flag: Seq<char>,
    album: Option<&AlbumContext>,
    track: Option<&TrackContext>,
    indent: Seq<char>,
)
    requires
        !has_level_keys(cfg, level, flag),
    ensures
        section_text(table_entries(cfg.table_spec(flag)), level, album, track, indent) == Seq::<char>::empty(),
{
    let entries = table_entries(cfg.table_spec(flag));
    assert forall|i: int| 0 <= i < entries.len() implies !level_matches(#[trigger] entries[i].1, level) by {
        match cfg.table_spec(flag) {
            Some(m) => {
                assert(entries == key_table(m));
            },
            None => {},
        }
    }
    lemma_section_empty(entries, level, album, track, indent);
}

/// Whether every album key of a table at `level` resolves without
/// slicing a date inside a character.
pub open spec fn album_section_resolvable(
    entries: Seq<(Seq<char>, Seq<char>, bool)>,
    level: Seq<char>,
    album: Option<&AlbumContext>,
) -> bool {
    album matches Some(ctx) ==> forall|i: int|
        0 <= i < entries.len() && level_matches(#[trigger] entries[i].1, level) ==> ctx.key_resolvable(entries[i].0)
}

pub open spec fn opt_table_entries(table: Option<&IndexMap<String, ManifestKeyConfig>>) -> Seq<(Seq<char>, Seq<char>, bool)> {
    match table {
        Some(m) => key_table(*m),
        None => Seq::empty(),
    }
}

/// Appends the lines that the key table renders at `target_level`, with
/// values from the album context if one is given, else from the track
/// context.
pub fn render_section(
    table: Option<&IndexMap<String, ManifestKeyConfig>>,
    target_level: &str,
    album_ctx: Option<&AlbumContext>,
    track_ctx: Option<&TrackContext>,
    indent: &str,
    out: &mut String,
)
    requires
        album_section_resolvable(opt_table_entries(table), target_level@, album_ctx),
    ensures
        final(out)@ == old(out)@ + section_text(opt_table_entries(table), target_level@, album_ctx, track_ctx, indent@),
{
    let table = match table {
        Some(t) => t,
        None => return,
    };
    let entries = key_table_entries(table);
    let ghost ev = key_table(*table);
    let ghost start = out@;
    let mut i: usize = 0;
    while i < entries.len()
        invariant
            i <= entries.len(),
            entry_triples(entries@) == ev,
            album_section_resolvable(ev, target_level@, album_ctx),
            out@ == start + section_text(ev.take(i as int), target_level@, album_ctx, track_ctx, indent@),
        decreases entries.len() - i,
    {
        assert(ev.take(i + 1).drop_last() =~= ev.take(i as int));
        let key = entries[i].0.as_str();
        let cfg = &entries[i].1;
        assert(ev[i as int] == (key@, cfg.level@, cfg.newline));
        if level_match(cfg.level.as_str(), target_level) {
            assert(level_matches(ev[i as int].1, target_level@));
            let val = match album_ctx {
                Some(ctx) => resolve_album_key(key, ctx),
                None => match track_ctx {
                    Some(ctx) => resolve_track_key(key, ctx),
                    None => None,
                },
            };
            if let Some(v) = val {
                if cfg.newline {
                    push_char(out, '\n');
                }
                push_str(out, indent);
                push_str(out, key);
                push_str(out, " = ");
                let t = to_nix_value(&v);
                push_str(out, t.as_str());
                push_str(out, ";\n");
            }
        }
        assert(out@ =~= start + section_text(ev.take(i + 1), target_level@, album_ctx, track_ctx, indent@));
        i = i + 1;
    }
    assert(ev.take(entries.len() as int) =~= ev);
}

// ---------------------------------------------------------------------------
// The manifest
// ---------------------------------------------------------------------------

/// The placeholder hash Nix reports the real one against.
pub const FAKE_HASH: &'static str = "sha256-AAAAAAAAAAAAAAAAAAAAAAAAAAAAAAAAAAAAAAAAAAA=";

/// What a manifest is rendered from.
pub struct ManifestParams<'a> {
    pub source_type: SourceType,
    pub cover_hash: &'a str,
    pub valid_paths: &'a [String],
    pub remote_tracks: &'a [TrackData],
    pub album_ctx: &'a AlbumContext<'a>,
    pub manifest_cfg: &'a ManifestConfig,
    pub active_flags: &'a [String],
    pub album_artist: &'a str,
    pub title: &'a str,
}

/// Keeps Unicode letters and digits and turns every other character into
/// `-`.
pub open spec fn dash_non_alphanumeric(s: Seq<char>) -> Seq<char> {
    s.map_values(|c: char| if alphanumeric(c) { c } else { '-' })
}

/// The package name: lower-cased `artist-title` (or the title alone when
/// there is no artist), its runs of letters and digits joined by dashes.
pub open spec fn pname_spec(artist: Seq<char>, title: Seq<char>) -> Seq<char> {
    let base = if artist.len() == 0 {
        lowercase(title)
    } else {
        lowercase(artist) + seq!['-'] + lowercase(title)
    };
    join_spec(non_empty(split_spec(dash_non_alphanumeric(base), '-')), seq!['-'])
}

pub open spec fn table_entries(t: Option<IndexMap<String, ManifestKeyConfig>>) -> Seq<(Seq<char>, Seq<char>, bool)> {
    match t {
        Some(m) => key_table(m),
        None => Seq::empty(),
    }
}

pub open spec fn source_text(src: SourceType) -> Seq<char> {
    match src {
        SourceType::Disk { nix_path } => "  sourceDisk = {\n"@ + "    file = "@ + nix_path@ + ";\n"@
            + "    hash = \""@ + FAKE_HASH@ + "\";\n"@ + "  };\n\n"@,
        SourceType::Torrent { nix_path, hash } => "  sourceDisk = {\n"@ + "    hash = \""@ + FAKE_HASH@
            + "\";\n"@ + "  };\n\n"@ + "  sourceTorrent = {\n"@ + "    file = "@ + nix_path@ + ";\n"@
            + "    hash = \""@ + hash@ + "\";\n"@ + "  };\n\n"@,
    }
}

pub open spec fn cover_text(hash: Seq<char>) -> Seq<char> {
    "  cover = {\n"@ + "    file = ./cover.png;\n"@ + "    hash = \""@ + hash + "\";\n"@ + "  };\n\n"@
}

/// The album-level sections of the active flags.
pub open spec fn album_flags_text(flags: Seq<Seq<char>>, cfg: ManifestConfig, ctx: &AlbumContext) -> Seq<char>
    decreases flags.len(),
{
    if flags.len() == 0 {
        Seq::empty()
    } else {
        let f = flags.last();
        album_flags_text(flags.drop_last(), cfg, ctx) + if has_level_keys(cfg, "album"@, f) {
            "    "@ + f + " = {\n"@ + section_text(table_entries(cfg.table_spec(f)), "album"@, Some(ctx), None, "      "@)
                + "    };\n"@
        } else {
            Seq::empty()
        }
    }
}

/// The track-level sections of the active flags for one track.
pub open spec fn track_flags_text(flags: Seq<Seq<char>>, cfg: ManifestConfig, ctx: &TrackContext) -> Seq<char>
    decreases flags.len(),
{
    if flags.len() == 0 {
        Seq::empty()
    } else {
        let f = flags.last();
        track_flags_text(flags.drop_last(), cfg, ctx) + if has_level_keys(cfg, "track"@, f) {
            "      "@ + f + " = {\n"@ + section_text(table_entries(cfg.table_spec(f)), "track"@, None, Some(ctx), "        "@)
                + "      };\n"@
        } else {
            Seq::empty()
        }
    }
}

/// Empty track-level sections, for a file without track data.
pub open spec fn empty_flags_text(flags: Seq<Seq<char>>, cfg: ManifestConfig) -> Seq<char>
    decreases flags.len(),
{
    if flags.len() == 0 {
        Seq::empty()
    } else {
        let f = flags.last();
        empty_flags_text(flags.drop_last(), cfg) + if has_level_keys(cfg, "track"@, f) {
            "      "@ + f + " = {};\n"@
        } else {
            Seq::empty()
        }
    }
}

impl<'a> ManifestParams<'a> {
    pub open spec fn flag_views(&self) -> Seq<Seq<char>> {
        string_views(self.active_flags@)
    }

    /// Whether some track is on a disc after the first.
    pub open spec fn multiple_discs(&self) -> bool {
        exists|i: int| 0 <= i < self.remote_tracks@.len() && (#[trigger] self.remote_tracks@[i]).discnumber > 1
    }

    /// The number of track entries: as many as files or tracks, whichever
    /// is more.
    pub open spec fn track_count(&self) -> nat {
        if self.valid_paths@.len() >= self.remote_tracks@.len() {
            self.valid_paths@.len()
        } else {
            self.remote_tracks@.len()
        }
    }

    /// The file of entry `i`, empty past the files.
    pub open spec fn entry_file(&self, i: int) -> Seq<char> {
        if i < self.valid_paths@.len() {
            self.valid_paths@[i]@
        } else {
            Seq::empty()
        }
    }

    /// Entry `i` of the track list.
    pub open spec fn track_entry(&self, i: int) -> Seq<char> {
        "    {\n"@ + "      file = \""@ + self.entry_file(i) + "\";\n"@ + (if i < self.remote_tracks@.len() {
            track_flags_text(
                self.flag_views(),
                *self.manifest_cfg,
                &TrackContext {
                    track: &self.remote_tracks@[i],
                    has_multiple_discs: self.multiple_discs(),
                    album_artist: self.album_artist,
                },
            )
        } else {
            empty_flags_text(self.flag_views(), *self.manifest_cfg)
        }) + "    }\n"@
    }

    /// The first `n` track entries.
    pub open spec fn track_entries(&self, n: nat) -> Seq<char>
        decreases n,
    {
        if n == 0 {
            Seq::empty()
        } else {
            self.track_entries((n - 1) as nat) + self.track_entry(n - 1)
        }
    }

    /// The whole manifest.
    pub open spec fn manifest_text(&self) -> Seq<char> {
        "{ vellum }:\n\n"@ + "vellum.mkAlbum {\n\n"@ + "  pname = \""@ + pname_spec(self.album_artist@, self.title@)
            + "\";\n\n"@ + source_text(self.source_type) + cover_text(self.cover_hash@) + "  album = {\n"@
            + album_flags_text(self.flag_views(), *self.manifest_cfg, self.album_ctx) + "  };\n\n"@
            + "  tracks = [\n"@ + self.track_entries(self.track_count()) + "  ];\n}\n"@
    }

    /// Whether every album key that the active flags render resolves
    /// without slicing a date inside a character.
    pub open spec fn album_keys_resolvable(&self) -> bool {
        forall|k: int|
            0 <= k < self.active_flags@.len() ==> album_section_resolvable(
                table_entries(self.manifest_cfg.table_spec(#[trigger] self.active_flags@[k]@)),
                "album"@,
                Some(self.album_ctx),
            )
    }
}

fn dash_non_alphanumeric_exec(s: &str) -> (r: String)
    ensures
        r@ == dash_non_alphanumeric(s@),
{
    let cs = chars_of(s);
    let mut r = String::new();
    let mut i: usize = 0;
    while i < cs.len()
        invariant
            i <= cs.len(),
            cs@ == s@,
            r@ == dash_non_alphanumeric(s@.take(i as int)),
        decreases cs.len() - i,
    {
        let c = cs[i];
        if is_alphanumeric(c) {
            push_char(&mut r, c);
        } else {
            push_char(&mut r, '-');
        }
        assert(dash_non_alphanumeric(s@.take(i + 1)) =~= dash_non_alphanumeric(s@.take(i as int)).push(
            if alphanumeric(c) {
                c
            } else {
                '-'
            },
        ));
        i = i + 1;
    }
    assert(s@.take(cs.len() as int) =~= s@);
    r
}

/// The package name of an album.
pub fn package_name(album_artist: &str, title: &str) -> (r: String)
    ensures
        r@ == pname_spec(album_artist@, title@),
{
    let base = if album_artist.is_empty() {
        to_lowercase(title)
    } else {
        let mut b = to_lowercase(album_artist);
        push_char(&mut b, '-');
        let t = to_lowercase(title);
        push_str(&mut b, t.as_str());
        assert(b@ =~= lowercase(album_artist@) + seq!['-'] + lowercase(title@));
        b
    };
    assert(base@ == if album_artist@.len() == 0 {
        lowercase(title@)
    } else {
        lowercase(album_artist@) + seq!['-'] + lowercase(title@)
    });
    let dashed = dash_non_alphanumeric_exec(base.as_str());
    let pieces = split_char(dashed.as_str(), '-');
    let kept = keep_non_empty(pieces);
    proof {
        reveal_strlit("-");
        assert("-"@ =~= seq!['-']);
    }
    join(&kept, "-")
}

fn table_of<'a>(cfg: &'a ManifestConfig, flag: &str) -> (r: Option<&'a IndexMap<String, ManifestKeyConfig>>)
    ensures
        opt_table_entries(r) == table_entries(cfg.table_spec(flag@)),
{
    cfg.table_for_flag(flag)
}

fn push_album_flags(out: &mut String, params: &ManifestParams)
    requires
        params.album_keys_resolvable(),
    ensures
        final(out)@ == old(out)@ + album_flags_text(params.flag_views(), *params.manifest_cfg, params.album_ctx),
{
    let flags = params.active_flags;
    let cfg = params.manifest_cfg;
    let ghost fv = params.flag_views();
    let ghost start = out@;
    let mut k: usize = 0;
    while k < flags.len()
        invariant
            k <= flags.len(),
            flags == params.active_flags,
            cfg == params.manifest_cfg,
            fv == params.flag_views(),
            params.album_keys_resolvable(),
            out@ == start + album_flags_text(fv.take(k as int), *cfg, params.album_ctx),
        decreases flags.len() - k,
    {
        assert(fv.take(k + 1).drop_last() =~= fv.take(k as int));
        let flag = flags[k].as_str();
        assert(fv[k as int] == flag@);
        if has_keys_for_level_and_flag(cfg, "album", flag) {
            push_str(out, "    ");
            push_str(out, flag);
            push_str(out, " = {\n");
            assert(album_section_resolvable(table_entries(cfg.table_spec(flags@[k as int]@)), "album"@, Some(params.album_ctx)));
            render_section(table_of(cfg, flag), "album", Some(params.album_ctx), None, "      ", out);
            push_str(out, "    };\n");
        }
        assert(out@ =~= start + album_flags_text(fv.take(k + 1), *cfg, params.album_ctx));
        k = k + 1;
    }
    assert(fv.take(flags.len() as int) =~= fv);
}

fn push_track_flags(out: &mut String, params: &ManifestParams, ctx: &TrackContext)
    ensures
        final(out)@ == old(out)@ + track_flags_text(params.flag_views(), *params.manifest_cfg, ctx),
{
    let flags = params.active_flags;
    let cfg = params.manifest_cfg;
    let ghost fv = params.flag_views();
    let ghost start = out@;
    let mut k: usize = 0;
    while k < flags.len()
        invariant
            k <= flags.len(),
            flags == params.active_flags,
            cfg == params.manifest_cfg,
            fv == params.flag_views(),
            out@ == start + track_flags_text(fv.take(k as int), *cfg, ctx),
        decreases flags.len() - k,
    {
        assert(fv.take(k + 1).drop_last() =~= fv.take(k as int));
        let flag = flags[k].as_str();
        assert(fv[k as int] == flag@);
        if has_keys_for_level_and_flag(cfg, "track", flag) {
            push_str(out, "      ");
            push_str(out, flag);
            push_str(out, " = {\n");
            render_section(table_of(cfg, flag), "track", None, Some(ctx), "        ", out);
            push_str(out, "      };\n");
        }
        assert(out@ =~= start + track_flags_text(fv.take(k + 1), *cfg, ctx));
        k = k + 1;
    }
    assert(fv.take(flags.len() as int) =~= fv);
}

fn push_empty_flags(out: &mut String, params: &ManifestParams)
    ensures
        final(out)@ == old(out)@ + empty_flags_text(params.flag_views(), *params.manifest_cfg),
{
    let flags = params.active_flags;
    let cfg = params.manifest_cfg;
    let ghost fv = params.flag_views();
    let ghost start = out@;
    let mut k: usize = 0;
    while k < flags.len()
        invariant
            k <= flags.len(),
            flags == params.active_flags,
            cfg == params.manifest_cfg,
            fv == params.flag_views(),
            out@ == start + empty_flags_text(fv.take(k as int), *cfg),
        decreases flags.len() - k,
    {
        assert(fv.take(k + 1).drop_last() =~= fv.take(k as int));
        let flag = flags[k].as_str();
        assert(fv[k as int] == flag@);
        if has_keys_for_level_and_flag(cfg, "track", flag) {
            push_str(out, "      ");
            push_str(out, flag);
            push_str(out, " = {};\n");
        }
        assert(out@ =~= start + empty_flags_text(fv.take(k + 1), *cfg));
        k = k + 1;
    }
    assert(fv.take(flags.len() as int) =~= fv);
}

/// Disc numbers are written when any track, wherever it stands in the
/// list, is on a disc after the first: then every track entry is rendered
/// with the multiple-discs flag set, and each track's `discnumber` key
/// takes that track's own disc number.
pub proof fn law_disc_numbers_from_any_track(params: ManifestParams, i: int, j: int)
    requires
        0 <= i < params.remote_tracks@.len(),
        0 <= j < params.remote_tracks@.len(),
        params.remote_tracks@[j].discnumber > 1,
    ensures
        params.multiple_discs(),
        params.track_entry(i) == "    {\n"@ + "      file = \""@ + params.entry_file(i) + "\";\n"@
            + track_flags_text(
            params.flag_views(),
            *params.manifest_cfg,
            &TrackContext {
                track: &params.remote_tracks@[i],
                has_multiple_discs: true,
                album_artist: params.album_artist,
            },
        ) + "    }\n"@,
        (TrackContext {
            track: &params.remote_tracks@[i],
            has_multiple_discs: params.multiple_discs(),
            album_artist: params.album_artist,
        }).track_key_spec("discnumber"@) == Some(
            JsonV::Number(NumV::PosInt(params.remote_tracks@[i].discnumber as u64)),
        ),
{
    assert(params.remote_tracks@[j].discnumber > 1);
    reveal_strlit("discnumber");
    reveal_strlit("tracknumber");
    assert("discnumber"@.len() != "tracknumber"@.len());
}

/// When every track is on the first disc, no disc numbers are written:
/// the multiple-discs flag is unset and no track's `discnumber` key has a
/// value.
pub proof fn law_single_disc_no_disc_numbers(params: ManifestParams, i: int)
    requires
        0 <= i < params.remote_tracks@.len(),
        forall|j: int| 0 <= j < params.remote_tracks@.len() ==> (#[trigger] params.remote_tracks@[j]).discnumber <= 1,
    ensures
        !params.multiple_discs(),
        (TrackContext {
            track: &params.remote_tracks@[i],
            has_multiple_discs: params.multiple_discs(),
            album_artist: params.album_artist,
        }).track_key_spec("discnumber"@) is None,
{
    reveal_strlit("discnumber");
    reveal_strlit("tracknumber");
    assert("discnumber"@.len() != "tracknumber"@.len());
}

fn any_multiple_discs(tracks: &[TrackData]) -> (r: bool)
    ensures
        r == exists|i: int| 0 <= i < tracks@.len() && (#[trigger] tracks@[i]).discnumber > 1,
{
    let mut i: usize = 0;
    while i < tracks.len()
        invariant
            i <= tracks.len(),
            forall|j: int| 0 <= j < i ==> (#[trigger] tracks@[j]).discnumber <= 1,
        decreases tracks.len() - i,
    {
        if tracks[i].discnumber > 1 {
            assert(tracks@[i as int].discnumber > 1);
            return true;
        }
        i = i + 1;
    }
    false
}

fn push_source(out: &mut String, src: &SourceType)
    ensures
        final(out)@ == old(out)@ + source_text(*src),
{
    let ghost start = out@;
    match src {
        SourceType::Disk { nix_path } => {
            push_str(out, "  sourceDisk = {\n");
            push_str(out, "    file = ");
            push_str(out, nix_path.as_str());
            push_str(out, ";\n");
            push_str(out, "    hash = \"");
            push_str(out, FAKE_HASH);
            push_str(out, "\";\n");
            push_str(out, "  };\n\n");
        },
        SourceType::Torrent { nix_path, hash } => {
            push_str(out, "  sourceDisk = {\n");
            push_str(out, "    hash = \"");
            push_str(out, FAKE_HASH);
            push_str(out, "\";\n");
            push_str(out, "  };\n\n");
            push_str(out, "  sourceTorrent = {\n");
            push_str(out, "    file = ");
            push_str(out, nix_path.as_str());
            push_str(out, ";\n");
            push_str(out, "    hash = \"");
            push_str(out, hash.as_str());
            push_str(out, "\";\n");
            push_str(out, "  };\n\n");
        },
    }
    assert(out@ =~= start + source_text(*src));
}

/// The Nix expression (`vellum.mkAlbum { ... }`) of an album: its package
/// name, source, cover, album-level keys and one entry per file or track.
#[verifier::spinoff_prover]
#[verifier::rlimit(40)]
pub fn generate_nix_manifest(params: &ManifestParams) -> (r: String)
    requires
        params.album_keys_resolvable(),
    ensures
        r@ == params.manifest_text(),
{
    let pname = package_name(params.album_artist, params.title);
    let mut out = String::new();
    push_str(&mut out, "{ vellum }:\n\n");
    push_str(&mut out, "vellum.mkAlbum {\n\n");
    push_str(&mut out, "  pname = \"");
    push_str(&mut out, pname.as_str());
    push_str(&mut out, "\";\n\n");
    push_source(&mut out, &params.source_type);
    push_str(&mut out, "  cover = {\n");
    push_str(&mut out, "    file = ./cover.png;\n");
    push_str(&mut out, "    hash = \"");
    push_str(&mut out, params.cover_hash);
    push_str(&mut out, "\";\n");
    push_str(&mut out, "  };\n\n");
    push_str(&mut out, "  album = {\n");
    push_album_flags(&mut out, params);
    push_str(&mut out, "  };\n\n");
    push_str(&mut out, "  tracks = [\n");
    let ghost head = out@;
    assert(head =~= "{ vellum }:\n\n"@ + "vellum.mkAlbum {\n\n"@ + "  pname = \""@ + pname_spec(params.album_artist@, params.title@)
            + "\";\n\n"@ + source_text(params.source_type) + cover_text(params.cover_hash@) + "  album = {\n"@
            + album_flags_text(params.flag_views(), *params.manifest_cfg, params.album_ctx) + "  };\n\n"@
            + "  tracks = [\n"@);
    let total = if params.valid_paths.len() >= params.remote_tracks.len() {
        params.valid_paths.len()
    } else {
        params.remote_tracks.len()
    };
    let has_multiple_discs = any_multiple_discs(params.remote_tracks);
    let mut i: usize = 0;
    while i < total
        invariant
            i <= total,
            total == params.track_count(),
            has_multiple_discs == params.multiple_discs(),
            out@ == head + params.track_entries(i as nat),
        decreases total - i,
    {
        let ghost before = out@;
        push_str(&mut out, "    {\n");
        push_str(&mut out, "      file = \"");
        if i < params.valid_paths.len() {
            push_str(&mut out, params.valid_paths[i].as_str());
        }
        push_str(&mut out, "\";\n");
        if i < params.remote_tracks.len() {
            let t_ctx = TrackContext {
                track: &params.remote_tracks[i],
                has_multiple_discs,
                album_artist: params.album_artist,
            };
            push_track_flags(&mut out, params, &t_ctx);
        } else {
            push_empty_flags(&mut out, params);
        }
        push_str(&mut out, "    }\n");
        assert(out@ =~= before + params.track_entry(i as int));
        i = i + 1;
    }
    push_str(&mut out, "  ];\n}\n");
    out
}

/// Whether the manifest's album keys all resolve (see
/// [`ManifestParams::album_keys_resolvable`]); callers test this before
/// rendering.
pub fn album_keys_resolvable(params: &ManifestParams) -> (r: bool)
    ensures
        r == params.album_keys_resolvable(),
{
    let flags = params.active_flags;
    let cfg = params.manifest_cfg;
    let ctx = params.album_ctx;
    let mut k: usize = 0;
    while k < flags.len()
        invariant
            k <= flags.len(),
            flags == params.active_flags,
            cfg == params.manifest_cfg,
            ctx == params.album_ctx,
            forall|j: int|
                0 <= j < k ==> album_section_resolvable(
                    table_entries(cfg.table_spec(#[trigger] flags@[j]@)),
                    "album"@,
                    Some(ctx),
                ),
        decreases flags.len() - k,
    {
        let table = table_of(cfg, flags[k].as_str());
        if let Some(t) = table {
            let entries = key_table_entries(t);
            let ghost ev = key_table(*t);
            assert(table_entries(cfg.table_spec(flags@[k as int]@)) == ev);
            let mut i: usize = 0;
            while i < entries.len()
                invariant
                    i <= entries.len(),
                    k < flags.len(),
                    flags == params.active_flags,
                    cfg == params.manifest_cfg,
                    ctx == params.album_ctx,
                    table_entries(cfg.table_spec(flags@[k as int]@)) == ev,
                    entry_triples(entries@) == ev,
                    forall|j: int|
                        0 <= j < i && level_matches(#[trigger] ev[j].1, "album"@) ==> ctx.key_resolvable(ev[j].0),
                decreases entries.len() - i,
            {
                assert(ev[i as int] == (entries@[i as int].0@, entries@[i as int].1.level@, entries@[i as int].1.newline));
                if level_match(entries[i].1.level.as_str(), "album") {
                    if !key_resolvable(ctx, entries[i].0.as_str()) {
                        assert(level_matches(ev[i as int].1, "album"@));
                        assert(!album_section_resolvable(ev, "album"@, Some(ctx)));
                        assert(!album_section_resolvable(
                            table_entries(cfg.table_spec(flags@[k as int]@)),
                            "album"@,
                            Some(ctx),
                        ));
                        return false;
                    }
                }
                i = i + 1;
            }
            assert(album_section_resolvable(ev, "album"@, Some(ctx)));
        }
        k = k + 1;
    }
    true
}

/// Whether an album key resolves in this context without slicing a date
/// inside a character (see [`AlbumContext::key_resolvable`]); callers of
/// [`resolve_album_key`] test this first.
pub fn key_resolvable(ctx: &AlbumContext, key: &str) -> (r: bool)
    ensures
        r == ctx.key_resolvable(key@),
{
    let frd = match str_opt(ctx.rg.get("first-release-date")) {
        Some(d) => d,
        None => "",
    };
    proof {
        reveal_strlit("");
        assert(""@ =~= Seq::<char>::empty());
    }
    if str_eq(key, "date") && !crate::utils::is_sliceable(frd, 4) {
        return false;
    }
    if str_eq(key, "original_yyyy_mm") && !crate::utils::is_sliceable(frd, 7) {
        return false;
    }
    if str_eq(key, "release_yyyy_mm") && !ctx.is_rg {
        let rd = match str_opt(get_opt(ctx.rel, "date")) {
            Some(d) => d,
            None => "",
        };
        if !crate::utils::is_sliceable(rd, 7) {
            return false;
        }
    }
    true
}

// ---------------------------------------------------------------------------
// Matching files
// ---------------------------------------------------------------------------

/// `s` without its leading dots (`trim_start_matches('.')`).
pub open spec fn strip_leading_dots(s: Seq<char>) -> Seq<char>
    decreases s.len(),
{
    if s.len() > 0 && s[0] == '.' {
        strip_leading_dots(s.drop_first())
    } else {
        s
    }
}

/// The glob of one entry of the track filter: a bare extension `ext` (or
/// `.ext`) stands for `**/*.ext`; anything with `/`, `*` or `?` is a glob
/// already.
pub open spec fn track_pattern(part: Seq<char>) -> Seq<char> {
    if !part.contains('/') && !part.contains('*') && !part.contains('?') {
        "**/*."@ + strip_leading_dots(part)
    } else {
        part
    }
}

/// Each piece trimmed.
pub open spec fn trim_all(v: Seq<Seq<char>>) -> Seq<Seq<char>>
    decreases v.len(),
{
    if v.len() == 0 {
        Seq::empty()
    } else {
        trim_all(v.drop_last()).push(trim_spec(v.last()))
    }
}

/// Each entry turned into its glob.
pub open spec fn patterns_of(v: Seq<Seq<char>>) -> Seq<Seq<char>>
    decreases v.len(),
{
    if v.len() == 0 {
        Seq::empty()
    } else {
        patterns_of(v.drop_last()).push(track_pattern(v.last()))
    }
}

/// The globs of a comma-separated track filter, empty entries skipped.
pub open spec fn filter_patterns(filter: Seq<char>) -> Seq<Seq<char>> {
    patterns_of(non_empty(trim_all(split_spec(filter, ','))))
}

fn trim_pieces(parts: &Vec<String>) -> (r: Vec<String>)
    ensures
        string_views(r@) == trim_all(string_views(parts@)),
{
    let ghost pv = string_views(parts@);
    let mut trimmed: Vec<String> = Vec::new();
    let mut i: usize = 0;
    while i < parts.len()
        invariant
            i <= parts.len(),
            pv == string_views(parts@),
            string_views(trimmed@) == trim_all(pv.take(i as int)),
        decreases parts.len() - i,
    {
        assert(pv.take(i + 1).drop_last() =~= pv.take(i as int));
        assert(pv[i as int] == parts@[i as int]@);
        let t = trim(parts[i].as_str());
        let ghost pre = string_views(trimmed@);
        let ghost tv = t@;
        trimmed.push(t);
        assert(string_views(trimmed@) =~= pre.push(tv));
        i = i + 1;
    }
    assert(pv.take(parts.len() as int) =~= pv);
    trimmed
}

fn strip_leading_dots_exec(s: &str) -> (r: String)
    ensures
        r@ == strip_leading_dots(s@),
{
    let cs = chars_of(s);
    let mut i: usize = 0;
    assert(s@.skip(0) =~= s@);
    while i < cs.len() && cs[i] == '.'
        invariant
            i <= cs.len(),
            cs@ == s@,
            strip_leading_dots(s@) == strip_leading_dots(s@.skip(i as int)),
        decreases cs.len() - i,
    {
        assert(s@.skip(i as int).drop_first() =~= s@.skip(i + 1));
        i = i + 1;
    }
    assert(s@.skip(i as int) =~= cs@.subrange(i as int, cs.len() as int));
    crate::text::string_from_range(&cs, i, cs.len())
}

fn track_pattern_exec(part: &str) -> (r: String)
    ensures
        r@ == track_pattern(part@),
{
    if !contains_char(part, '/') && !contains_char(part, '*') && !contains_char(part, '?') {
        let mut r = owned("**/*.");
        let ext = strip_leading_dots_exec(part);
        push_str(&mut r, ext.as_str());
        r
    } else {
        owned(part)
    }
}

/// The globs of a track filter (see [`filter_patterns`]).
pub fn track_filter_patterns(tracks_filter: &str) -> (r: Vec<String>)
    ensures
        string_views(r@) == filter_patterns(tracks_filter@),
{
    let parts = split_char(tracks_filter, ',');
    let trimmed = trim_pieces(&parts);
    let kept = keep_non_empty(trimmed);
    let ghost kv = string_views(kept@);
    let mut out: Vec<String> = Vec::new();
    let mut j: usize = 0;
    while j < kept.len()
        invariant
            j <= kept.len(),
            kv == string_views(kept@),
            string_views(out@) == patterns_of(kv.take(j as int)),
        decreases kept.len() - j,
    {
        assert(kv.take(j + 1).drop_last() =~= kv.take(j as int));
        assert(kv[j as int] == kept@[j as int]@);
        let p = track_pattern_exec(kept[j].as_str());
        let ghost pre = string_views(out@);
        let ghost pv = p@;
        out.push(p);
        assert(string_views(out@) =~= pre.push(pv));
        j = j + 1;
    }
    assert(kv.take(kept.len() as int) =~= kv);
    out
}

/// Whether a track filter gives a glob set: each of its globs is valid
/// and the set of them builds.
pub open spec fn filter_builds(filter: Seq<char>) -> bool {
    &&& forall|i: int| 0 <= i < filter_patterns(filter).len() ==> glob_valid(#[trigger] filter_patterns(filter)[i])
    &&& globs_build(filter_patterns(filter))
}

/// A glob set for a track filter. It fails with the glob error's message
/// when an entry is not a valid glob, or when the set cannot be built.
pub fn build_globset(tracks_filter: &str) -> (r: Result<GlobSet, String>)
    ensures
        r matches Ok(set) ==> set_patterns(set) == filter_patterns(tracks_filter@),
        r is Ok <==> filter_builds(tracks_filter@),
        (exists|i: int|
            0 <= i < filter_patterns(tracks_filter@).len() && !glob_valid(
                #[trigger] filter_patterns(tracks_filter@)[i],
            )) ==> r is Err,
{
    let patterns = track_filter_patterns(tracks_filter);
    let ghost pv = string_views(patterns@);
    let mut builder = new_builder();
    let mut i: usize = 0;
    while i < patterns.len()
        invariant
            i <= patterns.len(),
            pv == string_views(patterns@),
            pv == filter_patterns(tracks_filter@),
            builder_patterns(builder) == pv.take(i as int),
            forall|j: int| 0 <= j < i ==> glob_valid(#[trigger] pv[j]),
        decreases patterns.len() - i,
    {
        assert(pv[i as int] == patterns@[i as int]@);
        let g = match new_glob(patterns[i].as_str()) {
            Ok(g) => g,
            Err(e) => {
                assert(!glob_valid(filter_patterns(tracks_filter@)[i as int]));
                return Err(e);
            },
        };
        builder_add(&mut builder, g);
        assert(builder_patterns(builder) =~= pv.take(i + 1));
        i = i + 1;
    }
    assert(pv.take(patterns.len() as int) =~= pv);
    builder_build(&builder)
}

/// The files of a torrent as its metadata lists them: its name, and the
/// paths inside it when it holds several files.
pub struct TorrentListing {
    pub name: String,
    pub files: Option<Vec<String>>,
}

/// Whether a set of patterns matches a path.
pub open spec fn matched_by(patterns: Seq<Seq<char>>, path: Seq<char>) -> bool {
    exists|i: int| 0 <= i < patterns.len() && glob_matches(#[trigger] patterns[i], path)
}

/// The candidates that the patterns match, each as `prefix` + candidate.
pub open spec fn matching_paths(cands: Seq<Seq<char>>, patterns: Seq<Seq<char>>, prefix: Seq<char>) -> Seq<Seq<char>>
    decreases cands.len(),
{
    if cands.len() == 0 {
        Seq::empty()
    } else {
        let rest = matching_paths(cands.drop_last(), patterns, prefix);
        if matched_by(patterns, cands.last()) {
            rest.push(prefix + cands.last())
        } else {
            rest
        }
    }
}

/// The torrent paths a filter selects: `name/path` for each matching file
/// of a multi-file torrent, or the name of a single-file one.
pub open spec fn torrent_selection(t: TorrentListing, patterns: Seq<Seq<char>>) -> Seq<Seq<char>> {
    match t.files {
        Some(fs) => matching_paths(string_views(fs@), patterns, t.name@ + seq!['/']),
        None => matching_paths(seq![t.name@], patterns, Seq::empty()),
    }
}

fn select_matching(cands: &Vec<String>, set: &GlobSet, prefix: &str) -> (r: Vec<String>)
    ensures
        string_views(r@) == matching_paths(string_views(cands@), set_patterns(*set), prefix@),
{
    let ghost cv = string_views(cands@);
    let mut out: Vec<String> = Vec::new();
    let mut i: usize = 0;
    while i < cands.len()
        invariant
            i <= cands.len(),
            cv == string_views(cands@),
            string_views(out@) == matching_paths(cv.take(i as int), set_patterns(*set), prefix@),
        decreases cands.len() - i,
    {
        assert(cv.take(i + 1).drop_last() =~= cv.take(i as int));
        assert(cv[i as int] == cands@[i as int]@);
        if set_is_match(set, cands[i].as_str()) {
            let mut p = owned(prefix);
            push_str(&mut p, cands[i].as_str());
            let ghost pre = string_views(out@);
            let ghost pv = p@;
            out.push(p);
            assert(string_views(out@) =~= pre.push(pv));
        }
        i = i + 1;
    }
    assert(cv.take(cands.len() as int) =~= cv);
    out
}

/// The torrent's files that the track filter selects, in natural order.
pub fn match_torrent_files(torrent: &TorrentListing, tracks_filter: &str) -> (r: Result<Vec<String>, String>)
    ensures
        r matches Ok(v) ==> string_views(v@).to_multiset() == torrent_selection(*torrent, filter_patterns(tracks_filter@)).to_multiset()
            && naturally_sorted(string_views(v@)),
        r is Ok <==> filter_builds(tracks_filter@),
        (exists|i: int|
            0 <= i < filter_patterns(tracks_filter@).len() && !glob_valid(
                #[trigger] filter_patterns(tracks_filter@)[i],
            )) ==> r is Err,
{
    let set = match build_globset(tracks_filter) {
        Ok(s) => s,
        Err(e) => return Err(e),
    };
    let selected = match &torrent.files {
        Some(fs) => {
            let mut prefix = owned(torrent.name.as_str());
            push_char(&mut prefix, '/');
            assert(prefix@ =~= torrent.name@ + seq!['/']);
            select_matching(fs, &set, prefix.as_str())
        },
        None => {
            let mut single: Vec<String> = Vec::new();
            single.push(torrent.name.clone());
            assert(string_views(single@) =~= seq![torrent.name@]);
            proof {
                reveal_strlit("");
                assert(""@ =~= Seq::<char>::empty());
            }
            select_matching(&single, &set, "")
        },
    };
    assert(string_views(selected@) == torrent_selection(*torrent, filter_patterns(tracks_filter@)));
    Ok(sort_paths(selected))
}

/// The files on disk that the track filter selects, in natural order:
/// `candidates` are the paths below the source directory (or the name of
/// a source file).
pub fn match_disk_files(candidates: &Vec<String>, tracks_filter: &str) -> (r: Result<Vec<String>, String>)
    ensures
        r matches Ok(v) ==> string_views(v@).to_multiset() == matching_paths(
            string_views(candidates@),
            filter_patterns(tracks_filter@),
            Seq::empty(),
        ).to_multiset() && naturally_sorted(string_views(v@)),
        r is Ok <==> filter_builds(tracks_filter@),
        (exists|i: int|
            0 <= i < filter_patterns(tracks_filter@).len() && !glob_valid(
                #[trigger] filter_patterns(tracks_filter@)[i],
            )) ==> r is Err,
{
    let set = match build_globset(tracks_filter) {
        Ok(s) => s,
        Err(e) => return Err(e),
    };
    proof {
        reveal_strlit("");
        assert(""@ =~= Seq::<char>::empty());
    }
    let selected = select_matching(candidates, &set, "");
    Ok(sort_paths(selected))
}

// ---------------------------------------------------------------------------
// Putting a manifest together
// ---------------------------------------------------------------------------

/// The flags a manifest renders: `metadata` by default, else the trimmed
/// non-empty entries of a comma-separated list.
pub open spec fn active_flags_spec(flags: Option<Seq<char>>) -> Seq<Seq<char>> {
    match flags {
        Some(f) => non_empty(trim_all(split_spec(f, ','))),
        None => seq!["metadata"@],
    }
}

pub fn parse_active_flags(flags: Option<&str>) -> (r: Vec<String>)
    ensures
        string_views(r@) == active_flags_spec(crate::json::opt_str_view(flags)),
{
    match flags {
        Some(f) => {
            let parts = split_char(f, ',');
            let trimmed = trim_pieces(&parts);
            keep_non_empty(trimmed)
        },
        None => {
            let mut v: Vec<String> = Vec::new();
            v.push(owned("metadata"));
            assert(string_views(v@) =~= seq!["metadata"@]);
            v
        },
    }
}

/// How a source path is written in Nix: an absolute path quoted, a
/// relative one after `./` (`./.` for the current directory when
/// `dot_for_empty`).
pub open spec fn nix_path_spec(rel: Seq<char>, dot_for_empty: bool) -> Seq<char> {
    if rel.len() > 0 && rel[0] == '/' {
        seq!['"'] + rel + seq!['"']
    } else if dot_for_empty && rel.len() == 0 {
        "./."@
    } else {
        "./"@ + rel
    }
}

/// The Nix path of a source file or directory given relative to the
/// current directory (or absolute when outside it).
pub fn nix_source_path(rel: &str, dot_for_empty: bool) -> (r: String)
    ensures
        r@ == nix_path_spec(rel@, dot_for_empty),
{
    let cs = chars_of(rel);
    if cs.len() > 0 && cs[0] == '/' {
        let mut r = String::new();
        push_char(&mut r, '"');
        push_str(&mut r, rel);
        push_char(&mut r, '"');
        assert(r@ =~= seq!['"'] + rel@ + seq!['"']);
        r
    } else if dot_for_empty && cs.len() == 0 {
        owned("./.")
    } else {
        let mut r = owned("./");
        push_str(&mut r, rel);
        r
    }
}

/// The documents an album is resolved from.
pub struct AlbumDocuments<'a> {
    pub is_rg: bool,
    pub rg: &'a Json,
    pub rel: Option<&'a Json>,
    /// The Discogs data, or an empty object without any.
    pub dg: Json,
}

/// The Discogs data of fetched metadata, or an empty object.
pub open spec fn discogs_or_empty(raw: JsonV) -> JsonV {
    match jget(raw, "discogs"@) {
        Some(d) => d,
        None => JsonV::Object(Seq::empty()),
    }
}

/// Whether fetched metadata describes a release group (`_is_rg`, false
/// when absent).
pub open spec fn raw_is_rg(raw: JsonV) -> bool {
    match crate::json::obool(jget(raw, "_is_rg"@)) {
        Some(b) => b,
        None => false,
    }
}

/// Picks the documents out of fetched metadata: whether it describes a
/// release group, the MusicBrainz release group and release, and the
/// Discogs data. Fails when the MusicBrainz part or its release group is
/// missing.
pub fn album_documents(raw: &Json) -> (r: Result<AlbumDocuments, String>)
    ensures
        jget(raw@, "musicbrainz"@) is None ==> (r matches Err(e) && e@ == "Missing musicbrainz data"@),
        (jget(raw@, "musicbrainz"@) matches Some(mb) && jget(mb, "release_group"@) is None) ==> (r matches Err(e)
            && e@ == "Missing release_group data"@),
        (jget(raw@, "musicbrainz"@) matches Some(mb) && jget(mb, "release_group"@) is Some) ==> r is Ok,
        r matches Ok(d) ==> {
            &&& jget(raw@, "musicbrainz"@) matches Some(mb)
            &&& jget(mb, "release_group"@) == Some(d.rg@)
            &&& opt_view(d.rel) == jget(mb, "release"@)
            &&& d.dg@ == discogs_or_empty(raw@)
            &&& d.is_rg == raw_is_rg(raw@)
        },
{
    let is_rg = match raw.get("_is_rg") {
        Some(v) => match v.as_bool() {
            Some(b) => b,
            None => false,
        },
        None => false,
    };
    let mb = match raw.get("musicbrainz") {
        Some(m) => m,
        None => return Err(owned("Missing musicbrainz data")),
    };
    let rg = match mb.get("release_group") {
        Some(g) => g,
        None => return Err(owned("Missing release_group data")),
    };
    let dg = match raw.get("discogs") {
        Some(d) => d.duplicate(),
        None => {
            let e: Vec<(String, Json)> = Vec::new();
            assert(crate::json::entry_views(e@) =~= Seq::empty());
            crate::json::object_of(e)
        },
    };
    Ok(AlbumDocuments { is_rg, rg, rel: mb.get("release"), dg })
}

/// What an album's manifest is rendered from besides its files: the
/// credited artist and the title of the release group, the tracks, and
/// whether the disc's TOC id is wanted (for a release).
pub struct AlbumParts {
    pub album_artist: String,
    pub title: String,
    pub remote_tracks: Vec<TrackData>,
    pub wants_disc_id: bool,
}

/// The parts of an album's manifest that its documents give.
pub fn album_parts(docs: &AlbumDocuments) -> (r: AlbumParts)
    ensures
        r.album_artist@ == join_artists_spec(jget(docs.rg@, "artist-credit"@)),
        r.title@ == album_title_spec(docs.rg@),
        track_views(r.remote_tracks@) == remote_tracks_spec(opt_view(docs.rel), docs.dg@, docs.is_rg),
        r.wants_disc_id == !docs.is_rg,
{
    AlbumParts {
        album_artist: join_artists(docs.rg.get("artist-credit")),
        title: album_title(docs.rg),
        remote_tracks: extract_remote_tracks(docs.rel, &docs.dg, docs.is_rg),
        wants_disc_id: !docs.is_rg,
    }
}

/// The title of a release group, or `Unknown Title`.
pub open spec fn album_title_spec(rg: JsonV) -> Seq<char> {
    match ostr(jget(rg, "title"@)) {
        Some(t) => t,
        None => "Unknown Title"@,
    }
}

/// The title of a release group.
pub fn album_title(rg: &Json) -> (r: String)
    ensures
        r@ == album_title_spec(rg@),
{
    match str_opt(rg.get("title")) {
        Some(t) => owned(t),
        None => owned("Unknown Title"),
    }
}

// ---------------------------------------------------------------------------
// Hashes that `nix hash file` reports
// ---------------------------------------------------------------------------

/// The cover hash: what `nix hash file cover.png` printed, trimmed, when
/// the file exists and the command succeeded; the placeholder otherwise.
pub open spec fn cover_hash_spec(nix_output: Option<Seq<char>>) -> Seq<char> {
    match nix_output {
        Some(out) => trim_spec(out),
        None => FAKE_HASH@,
    }
}

/// The cover hash from the output of a successful `nix hash file`, if
/// the command ran and succeeded.
pub fn cover_hash_from(nix_output: Option<&str>) -> (r: String)
    ensures
        r@ == cover_hash_spec(crate::json::opt_str_view(nix_output)),
{
    match nix_output {
        Some(out) => trim(out),
        None => owned(FAKE_HASH),
    }
}

/// The torrent hash: what `nix hash file` printed, trimmed; an error when
/// the command failed.
pub open spec fn torrent_hash_spec(success: bool, out: Seq<char>) -> Result<Seq<char>, Seq<char>> {
    if success {
        Ok(trim_spec(out))
    } else {
        Err("Failed to hash torrent file with nix"@)
    }
}

pub fn torrent_hash_from(success: bool, out: &str) -> (r: Result<String, String>)
    ensures
        match r {
            Ok(h) => torrent_hash_spec(success, out@) == Ok::<Seq<char>, Seq<char>>(h@),
            Err(e) => torrent_hash_spec(success, out@) == Err::<Seq<char>, Seq<char>>(e@),
        },
{
    if success {
        Ok(trim(out))
    } else {
        Err(owned("Failed to hash torrent file with nix"))
    }
}

} // verus!
