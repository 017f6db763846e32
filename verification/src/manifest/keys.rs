//! The values that manifest keys take, resolved from the release group,
//! release and Discogs documents of an album, or from one of its tracks.
use vstd::prelude::*;
use crate::json::{
    first_opt, get_opt, jget, json_string, json_text, oget, ofirst, opt_view, ostr,
    str_opt, to_json_text, Json, JsonNumber, JsonV, NumV,
};
use crate::text::{owned, push_str, str_eq};
use crate::utils::{fmt_yyyy_mm, prefix_bytes, sliceable, utf8_len, utf8_prefix, year_month};
use super::TrackData;

verus! {

/// What album-level keys are resolved from.
pub struct AlbumContext<'a> {
    pub rg: &'a Json,
    pub rel: Option<&'a Json>,
    pub dg: &'a Json,
    pub is_rg: bool,
    pub ctdb: Option<String>,
    pub album_artist: &'a str,
}

/// What track-level keys are resolved from.
pub struct TrackContext<'a> {
    pub track: &'a TrackData,
    pub has_multiple_discs: bool,
    pub album_artist: &'a str,
}

pub open spec fn str_value(o: Option<Seq<char>>) -> Option<JsonV> {
    match o {
        Some(s) => Some(JsonV::Str(s)),
        None => None,
    }
}

pub open spec fn or_empty(o: Option<Seq<char>>) -> Seq<char> {
    match o {
        Some(s) => s,
        None => Seq::empty(),
    }
}

/// A link: `prefix` followed by the text.
pub open spec fn link_value(prefix: Seq<char>, o: Option<Seq<char>>) -> Option<JsonV> {
    match o {
        Some(s) => Some(JsonV::Str(prefix + s)),
        None => None,
    }
}

impl<'a> AlbumContext<'a> {
    /// The release group's first release date, or empty.
    pub open spec fn first_release_date(&self) -> Seq<char> {
        or_empty(ostr(jget(self.rg@, "first-release-date"@)))
    }

    /// The release's date, or empty.
    pub open spec fn release_date(&self) -> Seq<char> {
        or_empty(ostr(oget(opt_view(self.rel), "date"@)))
    }

    /// The release's first label-info entry.
    pub open spec fn first_label_info(&self) -> Option<JsonV> {
        ofirst(oget(opt_view(self.rel), "label-info"@))
    }

    /// Whether resolving `key` slices no date inside a character: the
    /// `date` key takes the first four bytes of the first release date,
    /// `original_yyyy_mm` its first seven, and `release_yyyy_mm` the first
    /// seven of the release date when the album is a release.
    pub open spec fn key_resolvable(&self, key: Seq<char>) -> bool {
        &&& key == "date"@ ==> sliceable(self.first_release_date(), 4)
        &&& key == "original_yyyy_mm"@ ==> sliceable(self.first_release_date(), 7)
        &&& (key == "release_yyyy_mm"@ && !self.is_rg) ==> sliceable(self.release_date(), 7)
    }

    /// The value of an album-level key; `None` for keys without a value.
    pub open spec fn album_key_spec(&self, key: Seq<char>) -> Option<JsonV> {
        let rg = self.rg@;
        let rel = opt_view(self.rel);
        let dg = self.dg@;
        if key == "albumartist"@ {
            Some(JsonV::Str(self.album_artist@))
        } else if key == "album"@ {
            str_value(ostr(jget(rg, "title"@)))
        } else if key == "date"@ {
            let d = self.first_release_date();
            Some(JsonV::Str(if utf8_len(d) >= 4 { utf8_prefix(d, 4) } else { Seq::empty() }))
        } else if key == "genre"@ {
            oget(jget(dg, "master"@), "genres"@)
        } else if key == "styles"@ {
            oget(jget(dg, "master"@), "styles"@)
        } else if key == "original_yyyy_mm"@ {
            Some(JsonV::Str(year_month(self.first_release_date())))
        } else if key == "country"@ {
            if !self.is_rg { str_value(ostr(oget(rel, "country"@))) } else { None }
        } else if key == "label"@ {
            if !self.is_rg {
                str_value(ostr(oget(oget(self.first_label_info(), "label"@), "name"@)))
            } else {
                None
            }
        } else if key == "catalognumber"@ {
            if !self.is_rg {
                str_value(ostr(oget(self.first_label_info(), "catalog-number"@)))
            } else {
                None
            }
        } else if key == "release_yyyy_mm"@ {
            if !self.is_rg { Some(JsonV::Str(year_month(self.release_date()))) } else { None }
        } else if key == "musicbrainz_albumid"@ {
            if !self.is_rg { str_value(ostr(oget(rel, "id"@))) } else { None }
        } else if key == "musicbrainz_releasegroupid"@ {
            str_value(ostr(jget(rg, "id"@)))
        } else if key == "musicbrainz_albumartistid"@ {
            str_value(ostr(oget(oget(ofirst(jget(rg, "artist-credit"@)), "artist"@), "id"@)))
        } else if key == "musicbrainz_release"@ {
            if !self.is_rg {
                link_value("https://musicbrainz.org/release/"@, ostr(oget(rel, "id"@)))
            } else {
                None
            }
        } else if key == "musicbrainz_releasegroup"@ {
            link_value("https://musicbrainz.org/release-group/"@, ostr(jget(rg, "id"@)))
        } else if key == "discogs"@ {
            if self.is_rg {
                match oget(jget(dg, "master"@), "id"@) {
                    Some(id) => Some(JsonV::Str("https://discogs.com/master/"@ + json_text(id))),
                    None => None,
                }
            } else {
                match oget(jget(dg, "release"@), "id"@) {
                    Some(id) => Some(JsonV::Str("https://discogs.com/release/"@ + json_text(id))),
                    None => None,
                }
            }
        } else if key == "ctdbtocid"@ {
            match self.ctdb {
                Some(c) => Some(JsonV::Str("http://db.cuetools.net/?tocid="@ + c@)),
                None => None,
            }
        } else {
            None
        }
    }
}

pub open spec fn opt_json_view(o: Option<Json>) -> Option<JsonV> {
    match o {
        Some(j) => Some(j@),
        None => None,
    }
}

fn str_json_opt(o: Option<&str>) -> (r: Option<Json>)
    ensures
        opt_json_view(r) == str_value(crate::json::opt_str_view(o)),
{
    match o {
        Some(s) => Some(json_string(s)),
        None => None,
    }
}

fn concat(a: &str, b: &str) -> (r: String)
    ensures
        r@ == a@ + b@,
{
    let mut r = owned(a);
    push_str(&mut r, b);
    r
}

fn link_json(prefix: &str, o: Option<&str>) -> (r: Option<Json>)
    ensures
        opt_json_view(r) == link_value(prefix@, crate::json::opt_str_view(o)),
{
    match o {
        Some(s) => {
            let t = concat(prefix, s);
            Some(Json::Str(t))
        },
        None => None,
    }
}

fn id_link(prefix: &str, id: Option<&Json>) -> (r: Option<Json>)
    ensures
        opt_json_view(r) == match opt_view(id) {
            Some(i) => Some(JsonV::Str(prefix@ + json_text(i))),
            None => None,
        },
{
    match id {
        Some(i) => {
            let t = to_json_text(i);
            let u = concat(prefix, t.as_str());
            Some(Json::Str(u))
        },
        None => None,
    }
}

fn copy_opt(o: Option<&Json>) -> (r: Option<Json>)
    ensures
        opt_json_view(r) == opt_view(o),
{
    match o {
        Some(v) => Some(v.duplicate()),
        None => None,
    }
}

/// The value of an album-level key.
pub fn resolve_album_key(key: &str, ctx: &AlbumContext) -> (r: Option<Json>)
    requires
        ctx.key_resolvable(key@),
    ensures
        opt_json_view(r) == ctx.album_key_spec(key@),
{
    let rg = ctx.rg;
    let rel = ctx.rel;
    let dg = ctx.dg;
    if str_eq(key, "albumartist") {
        Some(json_string(ctx.album_artist))
    } else if str_eq(key, "album") {
        str_json_opt(str_opt(rg.get("title")))
    } else if str_eq(key, "date") {
        let d = match str_opt(rg.get("first-release-date")) {
            Some(d) => d,
            None => "",
        };
        proof {
            reveal_strlit("");
            assert(""@ =~= Seq::<char>::empty());
        }
        match prefix_bytes(d, 4) {
            Some(p) => Some(Json::Str(p)),
            None => Some(json_string("")),
        }
    } else if str_eq(key, "genre") {
        copy_opt(get_opt(dg.get("master"), "genres"))
    } else if str_eq(key, "styles") {
        copy_opt(get_opt(dg.get("master"), "styles"))
    } else if str_eq(key, "original_yyyy_mm") {
        let d = match str_opt(rg.get("first-release-date")) {
            Some(d) => d,
            None => "",
        };
        proof {
            reveal_strlit("");
            assert(""@ =~= Seq::<char>::empty());
        }
        Some(Json::Str(fmt_yyyy_mm(d)))
    } else if str_eq(key, "country") {
        if !ctx.is_rg {
            str_json_opt(str_opt(get_opt(rel, "country")))
        } else {
            None
        }
    } else if str_eq(key, "label") {
        if !ctx.is_rg {
            let info = first_opt(get_opt(rel, "label-info"));
            str_json_opt(str_opt(get_opt(get_opt(info, "label"), "name")))
        } else {
            None
        }
    } else if str_eq(key, "catalognumber") {
        if !ctx.is_rg {
            let info = first_opt(get_opt(rel, "label-info"));
            str_json_opt(str_opt(get_opt(info, "catalog-number")))
        } else {
            None
        }
    } else if str_eq(key, "release_yyyy_mm") {
        if !ctx.is_rg {
            let d = match str_opt(get_opt(rel, "date")) {
                Some(d) => d,
                None => "",
            };
            proof {
                reveal_strlit("");
                assert(""@ =~= Seq::<char>::empty());
            }
            Some(Json::Str(fmt_yyyy_mm(d)))
        } else {
            None
        }
    } else if str_eq(key, "musicbrainz_albumid") {
        if !ctx.is_rg {
            str_json_opt(str_opt(get_opt(rel, "id")))
        } else {
            None
        }
    } else if str_eq(key, "musicbrainz_releasegroupid") {
        str_json_opt(str_opt(rg.get("id")))
    } else if str_eq(key, "musicbrainz_albumartistid") {
        let credit = first_opt(rg.get("artist-credit"));
        str_json_opt(str_opt(get_opt(get_opt(credit, "artist"), "id")))
    } else if str_eq(key, "musicbrainz_release") {
        if !ctx.is_rg {
            link_json("https://musicbrainz.org/release/", str_opt(get_opt(rel, "id")))
        } else {
            None
        }
    } else if str_eq(key, "musicbrainz_releasegroup") {
        link_json("https://musicbrainz.org/release-group/", str_opt(rg.get("id")))
    } else if str_eq(key, "discogs") {
        if ctx.is_rg {
            id_link("https://discogs.com/master/", get_opt(dg.get("master"), "id"))
        } else {
            id_link("https://discogs.com/release/", get_opt(dg.get("release"), "id"))
        }
    } else if str_eq(key, "ctdbtocid") {
        match &ctx.ctdb {
            Some(c) => Some(Json::Str(concat("http://db.cuetools.net/?tocid=", c.as_str()))),
            None => None,
        }
    } else {
        None
    }
}

/// The Discogs master's genres and styles: the value of `genre` is the
/// master's `genres` member and that of `styles` its `styles` member,
/// whatever the MusicBrainz documents hold.
pub proof fn law_master_genre_and_styles(ctx: AlbumContext)
    ensures
        ctx.album_key_spec("genre"@) == oget(jget(ctx.dg@, "master"@), "genres"@),
        ctx.album_key_spec("styles"@) == oget(jget(ctx.dg@, "master"@), "styles"@),
{
    reveal_strlit("genre");
    reveal_strlit("styles");
    reveal_strlit("albumartist");
    reveal_strlit("album");
    reveal_strlit("date");
    reveal_strlit("genres");
    assert("genre"@.len() != "albumartist"@.len() && "genre"@.len() != "date"@.len());
    assert("genre"@[0] != "album"@[0]);
    assert("styles"@.len() != "albumartist"@.len() && "styles"@.len() != "album"@.len());
    assert("styles"@.len() != "date"@.len() && "styles"@.len() != "genre"@.len());
}

/// The lengths of the album keys; keys that share a length differ in a
/// character.
pub proof fn lemma_album_keys_distinct()
    ensures
        "albumartist"@.len() == 11,
        "album"@.len() == 5,
        "date"@.len() == 4,
        "genre"@.len() == 5,
        "styles"@.len() == 6,
        "original_yyyy_mm"@.len() == 16,
        "country"@.len() == 7,
        "label"@.len() == 5,
        "catalognumber"@.len() == 13,
        "release_yyyy_mm"@.len() == 15,
        "musicbrainz_albumid"@.len() == 19,
        "musicbrainz_releasegroupid"@.len() == 26,
        "musicbrainz_albumartistid"@.len() == 25,
        "musicbrainz_release"@.len() == 19,
        "musicbrainz_releasegroup"@.len() == 24,
        "discogs"@.len() == 7,
        "ctdbtocid"@.len() == 9,
        "genre"@ != "album"@,
        "label"@ != "album"@,
        "label"@ != "genre"@,
        "musicbrainz_release"@ != "musicbrainz_albumid"@,
        "discogs"@ != "country"@,
{
    reveal_strlit("albumartist");
    reveal_strlit("album");
    reveal_strlit("date");
    reveal_strlit("genre");
    reveal_strlit("styles");
    reveal_strlit("original_yyyy_mm");
    reveal_strlit("country");
    reveal_strlit("label");
    reveal_strlit("catalognumber");
    reveal_strlit("release_yyyy_mm");
    reveal_strlit("musicbrainz_albumid");
    reveal_strlit("musicbrainz_releasegroupid");
    reveal_strlit("musicbrainz_albumartistid");
    reveal_strlit("musicbrainz_release");
    reveal_strlit("musicbrainz_releasegroup");
    reveal_strlit("discogs");
    reveal_strlit("ctdbtocid");
    assert("genre"@[0] != "album"@[0]);
    assert("label"@[0] != "album"@[0]);
    assert("label"@[0] != "genre"@[0]);
    assert("musicbrainz_release"@[12] != "musicbrainz_albumid"@[12]);
    assert("discogs"@[0] != "country"@[0]);
}

/// The keys that describe a particular release (its country, label,
/// catalog number, date, id and link) have no value when the album is a
/// release group.
pub proof fn law_release_keys_absent_for_group(ctx: AlbumContext)
    requires
        ctx.is_rg,
    ensures
        ctx.album_key_spec("country"@) is None,
        ctx.album_key_spec("label"@) is None,
        ctx.album_key_spec("catalognumber"@) is None,
        ctx.album_key_spec("release_yyyy_mm"@) is None,
        ctx.album_key_spec("musicbrainz_albumid"@) is None,
        ctx.album_key_spec("musicbrainz_release"@) is None,
{
    lemma_album_keys_distinct();
}

/// The MusicBrainz links are the ids made addresses: `musicbrainz_release`
/// is `https://musicbrainz.org/release/` followed by the value of
/// `musicbrainz_albumid`, and `musicbrainz_releasegroup` is
/// `https://musicbrainz.org/release-group/` followed by that of
/// `musicbrainz_releasegroupid`; each is there exactly when its id is.
pub proof fn law_links_follow_ids(ctx: AlbumContext)
    ensures
        ctx.album_key_spec("musicbrainz_release"@) == match ctx.album_key_spec("musicbrainz_albumid"@) {
            Some(JsonV::Str(id)) => Some(JsonV::Str("https://musicbrainz.org/release/"@ + id)),
            _ => None,
        },
        ctx.album_key_spec("musicbrainz_releasegroup"@) == match ctx.album_key_spec(
            "musicbrainz_releasegroupid"@,
        ) {
            Some(JsonV::Str(id)) => Some(JsonV::Str("https://musicbrainz.org/release-group/"@ + id)),
            _ => None,
        },
{
    lemma_album_keys_distinct();
}

impl<'a> TrackContext<'a> {
    /// The value of a track-level key; `None` for keys without a value.
    pub open spec fn track_key_spec(&self, key: Seq<char>) -> Option<JsonV> {
        let t = self.track;
        if key == "tracknumber"@ {
            Some(JsonV::Number(NumV::PosInt(t.tracknumber as u64)))
        } else if key == "discnumber"@ {
            if self.has_multiple_discs {
                Some(JsonV::Number(NumV::PosInt(t.discnumber as u64)))
            } else {
                None
            }
        } else if key == "title"@ {
            Some(JsonV::Str(t.title@))
        } else if key == "artist"@ {
            if t.artist@.len() > 0 && t.artist@ != self.album_artist@ {
                Some(JsonV::Str(t.artist@))
            } else {
                None
            }
        } else if key == "musicbrainz_trackid"@ {
            if t.musicbrainz_trackid@.len() > 0 { Some(JsonV::Str(t.musicbrainz_trackid@)) } else { None }
        } else if key == "musicbrainz_releasetrackid"@ {
            if t.musicbrainz_releasetrackid@.len() > 0 {
                Some(JsonV::Str(t.musicbrainz_releasetrackid@))
            } else {
                None
            }
        } else if key == "musicbrainz_artistid"@ {
            if t.musicbrainz_artistid@.len() > 0 { Some(JsonV::Str(t.musicbrainz_artistid@)) } else { None }
        } else {
            None
        }
    }
}

fn non_empty_str(s: &String) -> (r: Option<Json>)
    ensures
        opt_json_view(r) == if s@.len() > 0 { Some(JsonV::Str(s@)) } else { None },
{
    if !s.as_str().is_empty() {
        Some(json_string(s.as_str()))
    } else {
        None
    }
}

/// The value of a track-level key.
pub fn resolve_track_key(key: &str, ctx: &TrackContext) -> (r: Option<Json>)
    ensures
        opt_json_view(r) == ctx.track_key_spec(key@),
{
    let t = ctx.track;
    if str_eq(key, "tracknumber") {
        Some(Json::Number(JsonNumber::PosInt(t.tracknumber as u64)))
    } else if str_eq(key, "discnumber") {
        if ctx.has_multiple_discs {
            Some(Json::Number(JsonNumber::PosInt(t.discnumber as u64)))
        } else {
            None
        }
    } else if str_eq(key, "title") {
        Some(json_string(t.title.as_str()))
    } else if str_eq(key, "artist") {
        if !t.artist.as_str().is_empty() && !str_eq(t.artist.as_str(), ctx.album_artist) {
            Some(json_string(t.artist.as_str()))
        } else {
            None
        }
    } else if str_eq(key, "musicbrainz_trackid") {
        non_empty_str(&t.musicbrainz_trackid)
    } else if str_eq(key, "musicbrainz_releasetrackid") {
        non_empty_str(&t.musicbrainz_releasetrackid)
    } else if str_eq(key, "musicbrainz_artistid") {
        non_empty_str(&t.musicbrainz_artistid)
    } else {
        None
    }
}

} // verus!
