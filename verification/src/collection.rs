//! Adding a Discogs release or master to the collection: which entity a
//! URL names, how the entry is named and what it records, and the steps
//! (token, Discogs, cover, clock, file) that add it. The outside work is
//! done by the caller; [`AddFlow::step`] decides what comes next.
use vstd::prelude::*;
use crate::config::AppConfig;
use crate::digest::{base64_spec, xxh64, xxh64_spec};
use crate::discid::{ctdb_alphabet, ctdb_base64, url_safe_char};
use crate::json::{
    entry_views, get_opt, first_opt, jget, lemma_first_key_index, json_string, object_of, oget, ofirst, ostr, str_opt,
    Json, JsonNumber, JsonV, NumV,
};
use crate::text::{
    chars_of, contains_str, first_piece, has_infix, is_white_space, last_piece, owned, push_str,
    split_spec, string_from_range, trim, trim_spec, white_space,
};
use crate::utils::{
    is_numeric, join_path, numeric, opt_string_view, path_join, sanitize_filename, sanitize_spec,
};

verus! {

// ---------------------------------------------------------------------------
// The Discogs URL
// ---------------------------------------------------------------------------

/// Why an entry could not be added.
pub enum AddError {
    /// The settings name no collection folder.
    FolderNotConfigured,
    /// No Discogs token is set.
    TokenMissing,
    /// The URL is no Discogs master or release page.
    NotDiscogsUrl,
    /// The URL ends in no id.
    NoId,
    /// Outside work failed, with its message.
    Failed(String),
}

pub enum AddErrorV {
    FolderNotConfigured,
    TokenMissing,
    NotDiscogsUrl,
    NoId,
    Failed(Seq<char>),
}

impl View for AddError {
    type V = AddErrorV;

    open spec fn view(&self) -> AddErrorV {
        match self {
            AddError::FolderNotConfigured => AddErrorV::FolderNotConfigured,
            AddError::TokenMissing => AddErrorV::TokenMissing,
            AddError::NotDiscogsUrl => AddErrorV::NotDiscogsUrl,
            AddError::NoId => AddErrorV::NoId,
            AddError::Failed(m) => AddErrorV::Failed(m@),
        }
    }
}

/// What an error says.
pub open spec fn error_text(e: AddErrorV) -> Seq<char> {
    match e {
        AddErrorV::FolderNotConfigured => "Collection folder not configured in ~/.config/vellcro/config.toml"@,
        AddErrorV::TokenMissing => "DISCOGS_API_TOKEN is missing"@,
        AddErrorV::NotDiscogsUrl => "URL must be a discogs master or release URL"@,
        AddErrorV::NoId => "Could not extract ID from URL"@,
        AddErrorV::Failed(m) => m,
    }
}

impl AddError {
    /// The message shown for this error.
    pub fn message(&self) -> (r: String)
        ensures
            r@ == error_text(self@),
    {
        match self {
            AddError::FolderNotConfigured => owned(
                "Collection folder not configured in ~/.config/vellcro/config.toml",
            ),
            AddError::TokenMissing => owned("DISCOGS_API_TOKEN is missing"),
            AddError::NotDiscogsUrl => owned("URL must be a discogs master or release URL"),
            AddError::NoId => owned("Could not extract ID from URL"),
            AddError::Failed(m) => owned(m.as_str()),
        }
    }
}

/// A Discogs entity: a master or a release, by id.
pub struct DiscogsEntity {
    pub is_master: bool,
    pub id: String,
}

/// The id at the end of a Discogs URL: the last `/` piece up to its first
/// `-`.
pub open spec fn url_id(url: Seq<char>) -> Seq<char> {
    split_spec(split_spec(url, '/').last(), '-')[0]
}

/// The entity a Discogs URL names: a master if it has `/master/` in it,
/// else a release if it has `/release/`.
pub open spec fn entity_spec(url: Seq<char>) -> Result<(bool, Seq<char>), AddErrorV> {
    let is_master = has_infix(url, "/master/"@);
    let is_release = has_infix(url, "/release/"@);
    if !is_master && !is_release {
        Err(AddErrorV::NotDiscogsUrl)
    } else if url_id(url).len() == 0 {
        Err(AddErrorV::NoId)
    } else {
        Ok((is_master, url_id(url)))
    }
}

pub open spec fn entity_view(r: Result<DiscogsEntity, AddError>) -> Result<(bool, Seq<char>), AddErrorV> {
    match r {
        Ok(e) => Ok((e.is_master, e.id@)),
        Err(e) => Err(e@),
    }
}

/// The entity a Discogs URL names.
pub fn parse_discogs_url(url: &str) -> (r: Result<DiscogsEntity, AddError>)
    ensures
        entity_view(r) == entity_spec(url@),
{
    let is_master = contains_str(url, "/master/");
    let is_release = contains_str(url, "/release/");
    if !is_master && !is_release {
        return Err(AddError::NotDiscogsUrl);
    }
    let last = last_piece(url, '/');
    let id = first_piece(last.as_str(), '-');
    if id.as_str().is_empty() {
        return Err(AddError::NoId);
    }
    Ok(DiscogsEntity { is_master, id })
}

/// The Discogs API address of an entity.
pub open spec fn entity_api(is_master: bool, id: Seq<char>) -> Seq<char> {
    if is_master {
        "https://api.discogs.com/masters/"@ + id
    } else {
        "https://api.discogs.com/releases/"@ + id
    }
}

fn entity_api_exec(is_master: bool, id: &str) -> (r: String)
    ensures
        r@ == entity_api(is_master, id@),
{
    let mut r = if is_master {
        owned("https://api.discogs.com/masters/")
    } else {
        owned("https://api.discogs.com/releases/")
    };
    push_str(&mut r, id);
    r
}

// ---------------------------------------------------------------------------
// What the entry records
// ---------------------------------------------------------------------------

/// A character that trails an artist's name as a Discogs disambiguation:
/// a numeral, a parenthesis or white space.
pub open spec fn artist_tail_char(c: char) -> bool {
    numeric(c) || c == '(' || c == ')' || is_white_space(c)
}

/// `s` without its trailing disambiguation characters
/// (`trim_end_matches`).
pub open spec fn trim_artist_tail(s: Seq<char>) -> Seq<char>
    decreases s.len(),
{
    if s.len() > 0 && artist_tail_char(s.last()) {
        trim_artist_tail(s.drop_last())
    } else {
        s
    }
}

/// An artist name as the collection records it: without a trailing
/// disambiguation such as ` (2)`, and trimmed.
pub open spec fn clean_artist_spec(raw: Seq<char>) -> Seq<char> {
    trim_spec(trim_artist_tail(raw))
}

fn artist_tail(c: char) -> (r: bool)
    ensures
        r == artist_tail_char(c),
{
    is_numeric(c) || c == '(' || c == ')' || white_space(c)
}

/// The artist name without its trailing disambiguation, trimmed.
pub fn clean_artist(raw: &str) -> (r: String)
    ensures
        r@ == clean_artist_spec(raw@),
{
    let cs = chars_of(raw);
    let mut k: usize = cs.len();
    assert(raw@.take(k as int) =~= raw@);
    while k > 0 && artist_tail(cs[k - 1])
        invariant
            k <= cs.len(),
            cs@ == raw@,
            trim_artist_tail(raw@) == trim_artist_tail(raw@.take(k as int)),
        decreases k,
    {
        assert(raw@.take(k as int).drop_last() =~= raw@.take(k - 1));
        k = k - 1;
    }
    let kept = string_from_range(&cs, 0, k);
    assert(kept@ =~= raw@.take(k as int));
    trim(kept.as_str())
}

/// The artist a Discogs answer names first, or `Unknown Artist`.
pub open spec fn raw_artist(resp: JsonV) -> Seq<char> {
    match ostr(oget(ofirst(jget(resp, "artists"@)), "name"@)) {
        Some(n) => n,
        None => "Unknown Artist"@,
    }
}

/// The title of a Discogs answer, or `Unknown Album`.
pub open spec fn album_title(resp: JsonV) -> Seq<char> {
    match ostr(jget(resp, "title"@)) {
        Some(t) => t,
        None => "Unknown Album"@,
    }
}

/// The address of the first image of a Discogs answer, if any.
pub open spec fn cover_url(resp: JsonV) -> Option<Seq<char>> {
    ostr(oget(ofirst(jget(resp, "images"@)), "resource_url"@))
}

/// The artist a Discogs answer names, as the collection records it.
pub fn entry_artist(resp: &Json) -> (r: String)
    ensures
        r@ == clean_artist_spec(raw_artist(resp@)),
{
    match str_opt(get_opt(first_opt(resp.get("artists")), "name")) {
        Some(n) => clean_artist(n),
        None => clean_artist("Unknown Artist"),
    }
}

/// The title of a Discogs answer.
pub fn entry_title(resp: &Json) -> (r: String)
    ensures
        r@ == album_title(resp@),
{
    match str_opt(resp.get("title")) {
        Some(t) => owned(t),
        None => owned("Unknown Album"),
    }
}

/// The address of the first image of a Discogs answer.
pub fn entry_cover_url(resp: &Json) -> (r: Option<String>)
    ensures
        match r {
            Some(u) => cover_url(resp@) == Some(u@),
            None => cover_url(resp@) is None,
        },
{
    match str_opt(get_opt(first_opt(resp.get("images")), "resource_url")) {
        Some(u) => Some(owned(u)),
        None => None,
    }
}

/// The eight bytes of a 64-bit number, most significant first.
pub open spec fn be_bytes(h: u64) -> Seq<u8> {
    seq![
        (h >> 56u64) as u8,
        (h >> 48u64) as u8,
        (h >> 40u64) as u8,
        (h >> 32u64) as u8,
        (h >> 24u64) as u8,
        (h >> 16u64) as u8,
        (h >> 8u64) as u8,
        h as u8,
    ]
}

/// The name of a cover image: the xxHash (seed 0) of its bytes, as
/// URL-safe Base64 of its big-endian bytes.
pub open spec fn cover_hash_spec(image: Seq<u8>) -> Seq<char> {
    ctdb_alphabet(base64_spec(be_bytes(xxh64_spec(image, 0))))
}

/// The name of a cover image.
pub fn cover_hash(image: &[u8]) -> (r: String)
    ensures
        r@ == cover_hash_spec(image@),
        r@.len() == 12,
        forall|i: int| 0 <= i < 11 ==> url_safe_char(#[trigger] r@[i]),
        r@[11] == '-',
{
    let h = xxh64(image, 0);
    let bytes: Vec<u8> = vec![
        (h >> 56u64) as u8,
        (h >> 48u64) as u8,
        (h >> 40u64) as u8,
        (h >> 32u64) as u8,
        (h >> 24u64) as u8,
        (h >> 16u64) as u8,
        (h >> 8u64) as u8,
        h as u8,
    ];
    assert(bytes@ =~= be_bytes(h));
    let r = ctdb_base64(bytes.as_slice());
    assert(crate::digest::base64_padding(8) == 1);
    r
}

/// The directory of cover images in the cache.
pub open spec fn covers_dir_spec(cache_dir: Seq<char>) -> Seq<char> {
    path_join(cache_dir, "covers"@)
}

/// The file a cover image is saved to.
pub open spec fn cover_file_spec(cache_dir: Seq<char>, hash: Seq<char>) -> Seq<char> {
    path_join(covers_dir_spec(cache_dir), hash + ".png"@)
}

/// A JSON number as `serde_json` holds an `i64`.
pub open spec fn i64_number(n: i64) -> JsonV {
    if n >= 0 {
        JsonV::Number(NumV::PosInt(n as u64))
    } else {
        JsonV::Number(NumV::NegInt(n))
    }
}

fn json_i64(n: i64) -> (r: Json)
    ensures
        r@ == i64_number(n),
{
    if n >= 0 {
        Json::Number(JsonNumber::PosInt(n as u64))
    } else {
        Json::Number(JsonNumber::NegInt(n))
    }
}

/// The kind of entity an entry records.
pub open spec fn entity_kind(is_master: bool) -> Seq<char> {
    if is_master {
        "master"@
    } else {
        "release"@
    }
}

/// The nanoseconds an entry records: 0 when they did not fit.
pub open spec fn stamp_nanos(nanos: Option<i64>) -> i64 {
    match nanos {
        Some(n) => n,
        None => 0,
    }
}

/// The collection entry: artist, album, entity kind, URL, cover name and
/// when it was added (nanoseconds since the epoch, or 0 when they do not
/// fit, and the date as text).
pub open spec fn entry_spec(
    artist: Seq<char>,
    title: Seq<char>,
    is_master: bool,
    url: Seq<char>,
    cover: Seq<char>,
    nanos: Option<i64>,
    date: Seq<char>,
) -> JsonV {
    JsonV::Object(
        seq![
            ("albumartist"@, JsonV::Str(artist)),
            ("album"@, JsonV::Str(title)),
            ("type"@, JsonV::Str(entity_kind(is_master))),
            ("url"@, JsonV::Str(url)),
            ("cover"@, JsonV::Str(cover)),
            ("date_added"@, JsonV::Array(seq![i64_number(stamp_nanos(nanos)), JsonV::Str(date)])),
        ],
    )
}

fn member(key: &str, value: Json) -> (r: (String, Json))
    ensures
        r.0@ == key@,
        r.1 == value,
{
    (owned(key), value)
}

/// The collection entry for what was gathered.
pub fn collection_entry(
    artist: &str,
    title: &str,
    is_master: bool,
    url: &str,
    cover: &str,
    nanos: Option<i64>,
    date: &str,
) -> (r: Json)
    ensures
        r@ == entry_spec(artist@, title@, is_master, url@, cover@, nanos, date@),
{
    let n = match nanos {
        Some(n) => n,
        None => 0,
    };
    let kind = if is_master {
        json_string("master")
    } else {
        json_string("release")
    };
    let stamp_items = vec![json_i64(n), json_string(date)];
    let ghost sv = seq![i64_number(n), JsonV::Str(date@)];
    assert(crate::json::json_views(stamp_items@) =~= sv);
    proof {
        crate::json::lemma_array_view(stamp_items);
    }
    let stamp = Json::Array(stamp_items);
    assert(stamp@ == JsonV::Array(sv));
    let ghost kv = kind@;
    assert(kv == JsonV::Str(entity_kind(is_master)));
    let v = vec![
        member("albumartist", json_string(artist)),
        member("album", json_string(title)),
        member("type", kind),
        member("url", json_string(url)),
        member("cover", json_string(cover)),
        member("date_added", stamp),
    ];
    assert(entry_views(v@) =~= seq![
        ("albumartist"@, JsonV::Str(artist@)),
        ("album"@, JsonV::Str(title@)),
        ("type"@, kv),
        ("url"@, JsonV::Str(url@)),
        ("cover"@, JsonV::Str(cover@)),
        ("date_added"@, JsonV::Array(sv)),
    ]);
    object_of(v)
}

/// The file of an entry: `<artist>-<title>.json`, both made safe, in the
/// collection folder.
pub open spec fn entry_file_spec(folder: Seq<char>, artist: Seq<char>, title: Seq<char>) -> Seq<char> {
    path_join(folder, sanitize_spec(artist) + "-"@ + sanitize_spec(title) + ".json"@)
}

/// The file of an entry.
pub fn entry_file(folder: &str, artist: &str, title: &str) -> (r: String)
    ensures
        r@ == entry_file_spec(folder@, artist@, title@),
{
    let mut name = sanitize_filename(artist);
    push_str(&mut name, "-");
    let t = sanitize_filename(title);
    push_str(&mut name, t.as_str());
    push_str(&mut name, ".json");
    join_path(folder, name.as_str())
}

/// What is said once an entry was written.
pub open spec fn added_message(artist: Seq<char>, title: Seq<char>, path: Seq<char>) -> Seq<char> {
    "Added "@ + artist + " - "@ + title + " to collection at "@ + path
}

pub fn added_text(artist: &str, title: &str, path: &str) -> (r: String)
    ensures
        r@ == added_message(artist@, title@, path@),
{
    let mut m = owned("Added ");
    push_str(&mut m, artist);
    push_str(&mut m, " - ");
    push_str(&mut m, title);
    push_str(&mut m, " to collection at ");
    push_str(&mut m, path);
    m
}


// ---------------------------------------------------------------------------
// Adding an entry, step by step
// ---------------------------------------------------------------------------

/// `chrono::Utc::now`, read as nanoseconds since the epoch
/// (`timestamp_nanos_opt`: `None` when they do not fit in an `i64`) and as
/// date text in the given `strftime` format (`format`). Rendering panics
/// on a format chrono cannot read, so the call is made only with the
/// entry's format. The time differs from call to call, so nothing is
/// stated of it.
#[verifier::external_body]
fn clock_now(date_format: &str) -> (r: (Option<i64>, String))
    requires
        date_format@ == ENTRY_DATE_FORMAT@,
{
    let now = chrono::Utc::now();
    (now.timestamp_nanos_opt(), now.format(date_format).to_string())
}

/// How an entry records the day it was added: full month name, day of the
/// month and year, as in `May 01 2024`.
pub const ENTRY_DATE_FORMAT: &'static str = "%B %d %Y";

/// Where adding an entry stands: which answer it waits for.
#[derive(Clone, Copy)]
pub enum AddPhase {
    AwaitDir,
    AwaitToken,
    AwaitClient,
    AwaitRelease,
    AwaitCover,
    AwaitSave,
    AwaitWrite,
    Done,
}

/// What the caller hands back after performing an action.
pub enum AddEvent {
    /// The collection folder exists now, or the error that creating it gave.
    DirReady(Result<(), String>),
    /// The value of the Discogs token variable (empty when unset).
    TokenLoaded(String),
    /// The HTTP client is built, or the error that building it gave.
    ClientReady(Result<(), String>),
    /// The Discogs answer for the entity, or the error that getting it gave.
    Fetched(Result<Json, String>),
    /// The bytes of the cover image, or the error that getting them gave.
    CoverFetched(Result<Vec<u8>, String>),
    /// The cover image was saved, if it could be.
    CoverSaved,
    /// The entry was written, or the error that writing it gave.
    Written(Result<(), String>),
}

pub enum AddEventV {
    DirReady(Result<(), Seq<char>>),
    TokenLoaded(Seq<char>),
    ClientReady(Result<(), Seq<char>>),
    Fetched(Result<JsonV, Seq<char>>),
    CoverFetched(Result<Seq<u8>, Seq<char>>),
    CoverSaved,
    Written(Result<(), Seq<char>>),
}

/// What the caller is asked to do next.
pub enum AddAction {
    /// Create this folder unless it exists.
    EnsureDir(String),
    /// Load the Discogs token.
    LoadToken,
    /// Build the HTTP client.
    BuildClient,
    /// GET this address, with this `Authorization` header, as JSON.
    GetJson(String, String),
    /// GET this address, with this `Authorization` header, as bytes.
    GetBytes(String, String),
    /// Save these image bytes as PNG to the file (second) in the folder
    /// (first), if they decode as an image; nothing is reported back.
    SaveCover(Vec<u8>, String, String),
    /// Write this entry, pretty-printed, to this file.
    Write(String, Json),
    /// Adding is over: what to say, or why it failed.
    Finish(Result<String, AddError>),
}

pub enum AddActionV {
    EnsureDir(Seq<char>),
    LoadToken,
    BuildClient,
    GetJson(Seq<char>, Seq<char>),
    GetBytes(Seq<char>, Seq<char>),
    SaveCover(Seq<u8>, Seq<char>, Seq<char>),
    Write(Seq<char>, JsonV),
    Finish(Result<Seq<char>, AddErrorV>),
}

pub open spec fn unit_result(r: Result<(), String>) -> Result<(), Seq<char>> {
    match r {
        Ok(_) => Ok(()),
        Err(m) => Err(m@),
    }
}

impl View for AddEvent {
    type V = AddEventV;

    open spec fn view(&self) -> AddEventV {
        match self {
            AddEvent::DirReady(r) => AddEventV::DirReady(unit_result(*r)),
            AddEvent::TokenLoaded(t) => AddEventV::TokenLoaded(t@),
            AddEvent::ClientReady(r) => AddEventV::ClientReady(unit_result(*r)),
            AddEvent::Fetched(r) => AddEventV::Fetched(
                match r {
                    Ok(j) => Ok(j@),
                    Err(m) => Err(m@),
                },
            ),
            AddEvent::CoverFetched(r) => AddEventV::CoverFetched(
                match r {
                    Ok(b) => Ok(b@),
                    Err(m) => Err(m@),
                },
            ),
            AddEvent::CoverSaved => AddEventV::CoverSaved,
            AddEvent::Written(r) => AddEventV::Written(unit_result(*r)),
        }
    }
}

impl View for AddAction {
    type V = AddActionV;

    open spec fn view(&self) -> AddActionV {
        match self {
            AddAction::EnsureDir(d) => AddActionV::EnsureDir(d@),
            AddAction::LoadToken => AddActionV::LoadToken,
            AddAction::BuildClient => AddActionV::BuildClient,
            AddAction::GetJson(u, a) => AddActionV::GetJson(u@, a@),
            AddAction::GetBytes(u, a) => AddActionV::GetBytes(u@, a@),
            AddAction::SaveCover(b, d, p) => AddActionV::SaveCover(b@, d@, p@),
            AddAction::Write(p, j) => AddActionV::Write(p@, j@),
            AddAction::Finish(r) => AddActionV::Finish(
                match r {
                    Ok(m) => Ok(m@),
                    Err(e) => Err(e@),
                },
            ),
        }
    }
}

/// Adding an entry in progress.
pub struct AddFlow {
    phase: AddPhase,
    url: String,
    folder: String,
    cache_dir: String,
    auth: String,
    is_master: bool,
    artist: String,
    title: String,
    cover: String,
    entry_path: String,
}

/// Mathematical counterpart of [`AddFlow`].
pub struct AddV {
    pub phase: AddPhase,
    pub url: Seq<char>,
    /// The collection folder.
    pub folder: Seq<char>,
    /// The cache directory, where covers go.
    pub cache_dir: Seq<char>,
    /// The `Authorization` header for Discogs.
    pub auth: Seq<char>,
    pub is_master: bool,
    pub artist: Seq<char>,
    pub title: Seq<char>,
    /// The cover name, or empty without a cover.
    pub cover: Seq<char>,
    /// The entry's file.
    pub entry_path: Seq<char>,
}

impl View for AddFlow {
    type V = AddV;

    closed spec fn view(&self) -> AddV {
        AddV {
            phase: self.phase,
            url: self.url@,
            folder: self.folder@,
            cache_dir: self.cache_dir@,
            auth: self.auth@,
            is_master: self.is_master,
            artist: self.artist@,
            title: self.title@,
            cover: self.cover@,
            entry_path: self.entry_path@,
        }
    }
}

/// A fresh flow for a URL, a collection folder and a cache directory.
pub open spec fn add_initial(url: Seq<char>, folder: Seq<char>, cache_dir: Seq<char>) -> AddV {
    AddV {
        phase: AddPhase::AwaitDir,
        url: url,
        folder: folder,
        cache_dir: cache_dir,
        auth: Seq::empty(),
        is_master: false,
        artist: Seq::empty(),
        title: Seq::empty(),
        cover: Seq::empty(),
        entry_path: Seq::empty(),
    }
}

/// How adding starts: without a collection folder it fails at once;
/// otherwise the folder is made sure of first.
pub open spec fn add_start_spec(url: Seq<char>, folder: Option<Seq<char>>, cache_dir: Seq<char>) -> (AddV, AddActionV) {
    match folder {
        Some(f) => (add_initial(url, f, cache_dir), AddActionV::EnsureDir(f)),
        None => (
            AddV { phase: AddPhase::Done, ..add_initial(url, Seq::empty(), cache_dir) },
            AddActionV::Finish(Err(AddErrorV::FolderNotConfigured)),
        ),
    }
}

pub open spec fn add_failed(s: AddV, e: AddErrorV) -> (AddV, AddActionV) {
    (AddV { phase: AddPhase::Done, ..s }, AddActionV::Finish(Err(e)))
}

/// Writing the entry, stamped with the clock's reading.
pub open spec fn write_spec(s: AddV, clock: (Option<i64>, Seq<char>)) -> (AddV, AddActionV) {
    (
        AddV { phase: AddPhase::AwaitWrite, ..s },
        AddActionV::Write(
            s.entry_path,
            entry_spec(s.artist, s.title, s.is_master, s.url, s.cover, clock.0, clock.1),
        ),
    )
}

/// Whether an adding flow in this state takes this event.
pub open spec fn add_event_expected(s: AddV, e: AddEventV) -> bool {
    match (s.phase, e) {
        (AddPhase::AwaitDir, AddEventV::DirReady(_)) => true,
        (AddPhase::AwaitToken, AddEventV::TokenLoaded(_)) => true,
        (AddPhase::AwaitClient, AddEventV::ClientReady(_)) => true,
        (AddPhase::AwaitRelease, AddEventV::Fetched(_)) => true,
        (AddPhase::AwaitCover, AddEventV::CoverFetched(_)) => true,
        (AddPhase::AwaitSave, AddEventV::CoverSaved) => true,
        (AddPhase::AwaitWrite, AddEventV::Written(_)) => true,
        _ => false,
    }
}

/// After Discogs answered: the artist and title are taken from the answer
/// and the entry's file named after them; the cover image is fetched if
/// the answer has one, else the entry is written without a cover.
pub open spec fn fetched_spec(s: AddV, resp: JsonV, clock: (Option<i64>, Seq<char>)) -> (AddV, AddActionV) {
    let artist = clean_artist_spec(raw_artist(resp));
    let title = album_title(resp);
    let t = AddV {
        artist: artist,
        title: title,
        entry_path: entry_file_spec(s.folder, artist, title),
        ..s
    };
    match cover_url(resp) {
        Some(u) => (AddV { phase: AddPhase::AwaitCover, ..t }, AddActionV::GetBytes(u, s.auth)),
        None => write_spec(AddV { cover: Seq::empty(), ..t }, clock),
    }
}

/// One step of adding an entry, with the clock's reading for the step
/// that stamps the entry.
pub open spec fn add_step_spec(s: AddV, e: AddEventV, clock: (Option<i64>, Seq<char>)) -> (AddV, AddActionV) {
    match (s.phase, e) {
        (AddPhase::AwaitDir, AddEventV::DirReady(r)) => match r {
            Ok(_) => (AddV { phase: AddPhase::AwaitToken, ..s }, AddActionV::LoadToken),
            Err(m) => add_failed(s, AddErrorV::Failed(m)),
        },
        (AddPhase::AwaitToken, AddEventV::TokenLoaded(t)) => if t.len() == 0 {
            add_failed(s, AddErrorV::TokenMissing)
        } else {
            (
                AddV { phase: AddPhase::AwaitClient, auth: "Discogs token="@ + t, ..s },
                AddActionV::BuildClient,
            )
        },
        (AddPhase::AwaitClient, AddEventV::ClientReady(r)) => match r {
            Err(m) => add_failed(s, AddErrorV::Failed(m)),
            Ok(_) => match entity_spec(s.url) {
                Err(e) => add_failed(s, e),
                Ok((is_master, id)) => (
                    AddV { phase: AddPhase::AwaitRelease, is_master: is_master, ..s },
                    AddActionV::GetJson(entity_api(is_master, id), s.auth),
                ),
            },
        },
        (AddPhase::AwaitRelease, AddEventV::Fetched(r)) => match r {
            Err(m) => add_failed(s, AddErrorV::Failed(m)),
            Ok(resp) => fetched_spec(s, resp, clock),
        },
        (AddPhase::AwaitCover, AddEventV::CoverFetched(r)) => match r {
            Err(m) => add_failed(s, AddErrorV::Failed(m)),
            Ok(bytes) => {
                let cover = cover_hash_spec(bytes);
                (
                    AddV { phase: AddPhase::AwaitSave, cover: cover, ..s },
                    AddActionV::SaveCover(
                        bytes,
                        covers_dir_spec(s.cache_dir),
                        cover_file_spec(s.cache_dir, cover),
                    ),
                )
            },
        },
        (AddPhase::AwaitSave, AddEventV::CoverSaved) => write_spec(s, clock),
        (AddPhase::AwaitWrite, AddEventV::Written(r)) => match r {
            Ok(_) => (
                AddV { phase: AddPhase::Done, ..s },
                AddActionV::Finish(Ok(added_message(s.artist, s.title, s.entry_path))),
            ),
            Err(m) => add_failed(s, AddErrorV::Failed(m)),
        },
        _ => (s, AddActionV::Finish(Err(AddErrorV::Failed(Seq::empty())))),
    }
}

impl AddFlow {
    /// Starts adding the entity a URL names, given the collection folder
    /// (if configured) and the cache directory.
    pub fn start_with(url: &str, folder: Option<String>, cache_dir: String) -> (r: (AddFlow, AddAction))
        ensures
            (r.0@, r.1@) == add_start_spec(url@, opt_string_view(folder), cache_dir@),
    {
        let (phase, folder, action) = match folder {
            Some(f) => {
                let a = AddAction::EnsureDir(owned(f.as_str()));
                (AddPhase::AwaitDir, f, a)
            },
            None => (
                AddPhase::Done,
                String::new(),
                AddAction::Finish(Err(AddError::FolderNotConfigured)),
            ),
        };
        let flow = AddFlow {
            phase,
            url: owned(url),
            folder,
            cache_dir,
            auth: String::new(),
            is_master: false,
            artist: String::new(),
            title: String::new(),
            cover: String::new(),
            entry_path: String::new(),
        };
        (flow, action)
    }

    /// Starts adding the entity a URL names, with the folders the settings
    /// give.
    pub fn start(config: &AppConfig, url: &str) -> (r: (AddFlow, AddAction))
        ensures
            exists|folder: Option<Seq<char>>, cache_dir: Seq<char>|
                (r.0@, r.1@) == add_start_spec(url@, folder, cache_dir) && (folder is Some
                    <==> config.collection is Some) && (folder is Some ==> exists|h: Option<Seq<char>>|
                    config.collection_folder_spec(h) == folder) && exists|h: Option<Seq<char>>|
                    cache_dir == config.cache_dir_spec(h),
    {
        let folder = config.get_collection_folder();
        let cache_dir = config.get_cache_dir();
        let ghost fv = opt_string_view(folder);
        let ghost cv = cache_dir@;
        let r = AddFlow::start_with(url, folder, cache_dir);
        assert((r.0@, r.1@) == add_start_spec(url@, fv, cv));
        r
    }

    /// Whether this flow takes `event` now.
    pub fn expects(&self, event: &AddEvent) -> (r: bool)
        ensures
            r == add_event_expected(self@, event@),
    {
        match (self.phase, event) {
            (AddPhase::AwaitDir, AddEvent::DirReady(_)) => true,
            (AddPhase::AwaitToken, AddEvent::TokenLoaded(_)) => true,
            (AddPhase::AwaitClient, AddEvent::ClientReady(_)) => true,
            (AddPhase::AwaitRelease, AddEvent::Fetched(_)) => true,
            (AddPhase::AwaitCover, AddEvent::CoverFetched(_)) => true,
            (AddPhase::AwaitSave, AddEvent::CoverSaved) => true,
            (AddPhase::AwaitWrite, AddEvent::Written(_)) => true,
            _ => false,
        }
    }

    fn fail_with(&mut self, e: AddError) -> (a: AddAction)
        ensures
            (final(self)@, a@) == add_failed(old(self)@, e@),
    {
        self.phase = AddPhase::Done;
        AddAction::Finish(Err(e))
    }

    fn write_entry(&mut self) -> (a: AddAction)
        ensures
            exists|c: (Option<i64>, Seq<char>)| (final(self)@, a@) == write_spec(old(self)@, c),
    {
        let (nanos, date) = clock_now(ENTRY_DATE_FORMAT);
        let entry = collection_entry(
            self.artist.as_str(),
            self.title.as_str(),
            self.is_master,
            self.url.as_str(),
            self.cover.as_str(),
            nanos,
            date.as_str(),
        );
        self.phase = AddPhase::AwaitWrite;
        let a = AddAction::Write(owned(self.entry_path.as_str()), entry);
        assert((self@, a@) == write_spec(old(self)@, (nanos, date@)));
        a
    }

    fn on_fetched(&mut self, resp: Json) -> (a: AddAction)
        requires
            old(self)@.phase is AwaitRelease,
        ensures
            exists|c: (Option<i64>, Seq<char>)| (final(self)@, a@) == fetched_spec(old(self)@, resp@, c),
    {
        let artist = entry_artist(&resp);
        let title = entry_title(&resp);
        self.entry_path = entry_file(self.folder.as_str(), artist.as_str(), title.as_str());
        self.artist = artist;
        self.title = title;
        match entry_cover_url(&resp) {
            Some(u) => {
                self.phase = AddPhase::AwaitCover;
                let a = AddAction::GetBytes(u, owned(self.auth.as_str()));
                assert((self@, a@) == fetched_spec(old(self)@, resp@, (None, Seq::empty())));
                a
            },
            None => {
                self.cover = String::new();
                let ghost before = self@;
                let a = self.write_entry();
                proof {
                    let c = choose|c: (Option<i64>, Seq<char>)|
                        (self@, a@) == write_spec(before, c);
                    assert((self@, a@) == fetched_spec(old(self)@, resp@, c));
                }
                a
            },
        }
    }

    /// Takes what the last action brought and says what to do next. The
    /// step that writes the entry reads the clock; the contract holds for
    /// whatever it read.
    pub fn step(&mut self, event: AddEvent) -> (a: AddAction)
        requires
            add_event_expected(old(self)@, event@),
        ensures
            exists|c: (Option<i64>, Seq<char>)|
                (final(self)@, a@) == add_step_spec(old(self)@, event@, c),
    {
        let ghost c0: (Option<i64>, Seq<char>) = (None, Seq::empty());
        match event {
            AddEvent::DirReady(r) => match r {
                Ok(_) => {
                    self.phase = AddPhase::AwaitToken;
                    let a = AddAction::LoadToken;
                    assert((self@, a@) == add_step_spec(old(self)@, event@, c0));
                    a
                },
                Err(m) => {
                    let a = self.fail_with(AddError::Failed(m));
                    assert((self@, a@) == add_step_spec(old(self)@, event@, c0));
                    a
                },
            },
            AddEvent::TokenLoaded(t) => {
                if t.as_str().is_empty() {
                    let a = self.fail_with(AddError::TokenMissing);
                    assert((self@, a@) == add_step_spec(old(self)@, event@, c0));
                    a
                } else {
                    let mut auth = owned("Discogs token=");
                    push_str(&mut auth, t.as_str());
                    self.auth = auth;
                    self.phase = AddPhase::AwaitClient;
                    let a = AddAction::BuildClient;
                    assert((self@, a@) == add_step_spec(old(self)@, event@, c0));
                    a
                }
            },
            AddEvent::ClientReady(r) => match r {
                Err(m) => {
                    let a = self.fail_with(AddError::Failed(m));
                    assert((self@, a@) == add_step_spec(old(self)@, event@, c0));
                    a
                },
                Ok(_) => match parse_discogs_url(self.url.as_str()) {
                    Err(e) => {
                        let a = self.fail_with(e);
                        assert((self@, a@) == add_step_spec(old(self)@, event@, c0));
                        a
                    },
                    Ok(ent) => {
                        self.is_master = ent.is_master;
                        self.phase = AddPhase::AwaitRelease;
                        let a = AddAction::GetJson(
                            entity_api_exec(ent.is_master, ent.id.as_str()),
                            owned(self.auth.as_str()),
                        );
                        assert((self@, a@) == add_step_spec(old(self)@, event@, c0));
                        a
                    },
                },
            },
            AddEvent::Fetched(r) => match r {
                Err(m) => {
                    let a = self.fail_with(AddError::Failed(m));
                    assert((self@, a@) == add_step_spec(old(self)@, event@, c0));
                    a
                },
                Ok(resp) => {
                    let ghost rv = resp@;
                    let a = self.on_fetched(resp);
                    proof {
                        let c = choose|c: (Option<i64>, Seq<char>)|
                            (self@, a@) == fetched_spec(old(self)@, rv, c);
                        assert((self@, a@) == add_step_spec(old(self)@, event@, c));
                    }
                    a
                },
            },
            AddEvent::CoverFetched(r) => match r {
                Err(m) => {
                    let a = self.fail_with(AddError::Failed(m));
                    assert((self@, a@) == add_step_spec(old(self)@, event@, c0));
                    a
                },
                Ok(bytes) => {
                    let cover = cover_hash(bytes.as_slice());
                    let dir = join_path(self.cache_dir.as_str(), "covers");
                    let mut name = owned(cover.as_str());
                    push_str(&mut name, ".png");
                    let path = join_path(dir.as_str(), name.as_str());
                    self.cover = cover;
                    self.phase = AddPhase::AwaitSave;
                    let a = AddAction::SaveCover(bytes, dir, path);
                    assert((self@, a@) == add_step_spec(old(self)@, event@, c0));
                    a
                },
            },
            AddEvent::CoverSaved => {
                let a = self.write_entry();
                proof {
                    let c = choose|c: (Option<i64>, Seq<char>)|
                        (self@, a@) == write_spec(old(self)@, c);
                    assert((self@, a@) == add_step_spec(old(self)@, event@, c));
                }
                a
            },
            AddEvent::Written(r) => match r {
                Ok(_) => {
                    self.phase = AddPhase::Done;
                    let a = AddAction::Finish(
                        Ok(
                            added_text(
                                self.artist.as_str(),
                                self.title.as_str(),
                                self.entry_path.as_str(),
                            ),
                        ),
                    );
                    assert((self@, a@) == add_step_spec(old(self)@, event@, c0));
                    a
                },
                Err(m) => {
                    let a = self.fail_with(AddError::Failed(m));
                    assert((self@, a@) == add_step_spec(old(self)@, event@, c0));
                    a
                },
            },
        }
    }
}


// ---------------------------------------------------------------------------
// What holds of every adding flow
// ---------------------------------------------------------------------------

/// How many answers a flow in this phase may still wait for, at most.
pub open spec fn add_rank(p: AddPhase) -> nat {
    match p {
        AddPhase::AwaitDir => 7,
        AddPhase::AwaitToken => 6,
        AddPhase::AwaitClient => 5,
        AddPhase::AwaitRelease => 4,
        AddPhase::AwaitCover => 3,
        AddPhase::AwaitSave => 2,
        AddPhase::AwaitWrite => 1,
        AddPhase::Done => 0,
    }
}

/// Every step brings adding closer to its end, whatever the answers.
pub proof fn law_add_progresses(s: AddV, e: AddEventV, clock: (Option<i64>, Seq<char>))
    requires
        add_event_expected(s, e),
    ensures
        add_rank(add_step_spec(s, e, clock).0.phase) < add_rank(s.phase),
{
}

/// Once Discogs has answered, the entry's file is the one named after the
/// artist and title gathered.
pub open spec fn add_wf(s: AddV) -> bool {
    (s.phase is AwaitCover || s.phase is AwaitSave || s.phase is AwaitWrite) ==> s.entry_path
        == entry_file_spec(s.folder, s.artist, s.title)
}

/// A fresh flow is well formed.
pub proof fn law_add_start_wf(url: Seq<char>, folder: Option<Seq<char>>, cache_dir: Seq<char>)
    ensures
        add_wf(add_start_spec(url, folder, cache_dir).0),
{
}

/// Every step keeps a flow well formed.
pub proof fn law_add_step_wf(s: AddV, e: AddEventV, clock: (Option<i64>, Seq<char>))
    requires
        add_wf(s),
        add_event_expected(s, e),
    ensures
        add_wf(add_step_spec(s, e, clock).0),
{
}

/// The entry is written to the file named after the artist and album it
/// records, in the collection folder, and it records the URL it was added
/// from.
pub proof fn law_entry_named_by_content(s: AddV, e: AddEventV, clock: (Option<i64>, Seq<char>))
    requires
        add_wf(s),
        add_event_expected(s, e),
        add_step_spec(s, e, clock).1 is Write,
    ensures
        add_step_spec(s, e, clock).1 matches AddActionV::Write(path, doc) && {
            let t = add_step_spec(s, e, clock).0;
            &&& path == entry_file_spec(s.folder, t.artist, t.title)
            &&& doc == entry_spec(t.artist, t.title, t.is_master, s.url, t.cover, clock.0, clock.1)
        },
{
}

/// A successful add says where the entry went: the file it was written to.
pub proof fn law_added_message_names_file(s: AddV, e: AddEventV, clock: (Option<i64>, Seq<char>))
    requires
        add_wf(s),
        add_event_expected(s, e),
        add_step_spec(s, e, clock).1 matches AddActionV::Finish(Ok(_)),
    ensures
        add_step_spec(s, e, clock).1 == AddActionV::Finish(
            Ok(added_message(s.artist, s.title, entry_file_spec(s.folder, s.artist, s.title))),
        ),
{
}

/// Once the client is ready, Discogs is asked for the entity the URL
/// names, with the token: a URL with `/release/` and no `/master/` in it is
/// asked at `https://api.discogs.com/releases/` followed by its id and
/// recorded as a release; only a URL with `/master/` in it is asked at
/// `https://api.discogs.com/masters/` and recorded as a master.
pub proof fn law_entity_asked_by_kind(s: AddV, clock: (Option<i64>, Seq<char>))
    requires
        s.phase is AwaitClient,
        has_infix(s.url, "/master/"@) || has_infix(s.url, "/release/"@),
        url_id(s.url).len() > 0,
    ensures
        ({
            let (t, a) = add_step_spec(s, AddEventV::ClientReady(Ok(())), clock);
            &&& !has_infix(s.url, "/master/"@) ==> {
                &&& a == AddActionV::GetJson("https://api.discogs.com/releases/"@ + url_id(s.url), s.auth)
                &&& !t.is_master
            }
            &&& has_infix(s.url, "/master/"@) ==> {
                &&& a == AddActionV::GetJson("https://api.discogs.com/masters/"@ + url_id(s.url), s.auth)
                &&& t.is_master
            }
            &&& t.phase is AwaitRelease
        }),
{
}

/// An entry records what it says: `albumartist`, `album`, `url` and
/// `cover` are the artist, title, URL and cover name given, and `type` is
/// `master` for a master and `release` for a release.
pub proof fn law_entry_records(
    artist: Seq<char>,
    title: Seq<char>,
    is_master: bool,
    url: Seq<char>,
    cover: Seq<char>,
    nanos: Option<i64>,
    date: Seq<char>,
)
    ensures
        ({
            let d = entry_spec(artist, title, is_master, url, cover, nanos, date);
            &&& jget(d, "albumartist"@) == Some(JsonV::Str(artist))
            &&& jget(d, "album"@) == Some(JsonV::Str(title))
            &&& jget(d, "type"@) == Some(JsonV::Str(if is_master { "master"@ } else { "release"@ }))
            &&& jget(d, "url"@) == Some(JsonV::Str(url))
            &&& jget(d, "cover"@) == Some(JsonV::Str(cover))
        }),
{
    reveal_strlit("albumartist");
    reveal_strlit("album");
    reveal_strlit("type");
    reveal_strlit("url");
    reveal_strlit("cover");
    reveal_strlit("date_added");
    assert("albumartist"@.len() == 11 && "album"@.len() == 5 && "type"@.len() == 4);
    assert("url"@.len() == 3 && "cover"@.len() == 5 && "date_added"@.len() == 10);
    assert("album"@[0] != "cover"@[0]);
    let d = entry_spec(artist, title, is_master, url, cover, nanos, date);
    let es = seq![
        ("albumartist"@, JsonV::Str(artist)),
        ("album"@, JsonV::Str(title)),
        ("type"@, JsonV::Str(entity_kind(is_master))),
        ("url"@, JsonV::Str(url)),
        ("cover"@, JsonV::Str(cover)),
        ("date_added"@, JsonV::Array(seq![i64_number(stamp_nanos(nanos)), JsonV::Str(date)])),
    ];
    assert(d == JsonV::Object(es));
    lemma_first_key_index(es, "albumartist"@);
    lemma_first_key_index(es, "album"@);
    lemma_first_key_index(es, "type"@);
    lemma_first_key_index(es, "url"@);
    lemma_first_key_index(es, "cover"@);
    assert(es[0].0 == "albumartist"@ && es[1].0 == "album"@ && es[2].0 == "type"@);
    assert(es[3].0 == "url"@ && es[4].0 == "cover"@ && es[5].0 == "date_added"@);
}

} // verus!
