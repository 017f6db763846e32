//! Fetching an album's metadata: which MusicBrainz entity a URL names,
//! where its cached copy lives, and the sequence of requests (MusicBrainz,
//! then Discogs) that fills in a metadata document. The requests are
//! performed by the caller; [`MetadataFetch::step`] decides what to do next
//! from what came back.
use vstd::prelude::*;
use crate::json::{
    entry_views, first_key_index, get_opt, jget, json_string, json_views, lemma_first_key_index,
    lemma_object_view, oarr, object_of, oget, oi64, ostr, set_entry, set_member, str_opt, Json,
    JsonV,
};
use crate::pattern::{capture_groups, compile, regex_captures, regex_compiles};
use crate::text::{contains_str, has_infix, i64_to_decimal, owned, push_str, signed_decimal};
use crate::utils::{home_directory, join_path, opt_string_view, path_join};

verus! {

/// The pattern of a MusicBrainz release or release-group URL.
pub open spec fn entity_pattern() -> Seq<char> {
    "(release|release-group)/([a-f0-9\\-]+)"@
}

/// What a metadata URL asks for: a release group or a release, by id.
pub struct MetadataRequest {
    pub is_rg: bool,
    pub entity_id: String,
}

/// Group `i` of a capture, if it took part.
pub open spec fn group(g: Seq<Option<Seq<char>>>, i: int) -> Option<Seq<char>> {
    if 0 <= i < g.len() {
        g[i]
    } else {
        None
    }
}

/// The entity a URL names: the first match of [`entity_pattern`], its
/// first group telling a release group (`release-group`) from a release,
/// its second group being the id.
pub open spec fn request_spec(url: Seq<char>) -> Option<(bool, Seq<char>)> {
    if !regex_compiles(entity_pattern()) {
        None
    } else {
        match regex_captures(entity_pattern(), url) {
            Some(g) => match (group(g, 1), group(g, 2)) {
                (Some(mode), Some(id)) => Some((mode == "release-group"@, id)),
                _ => None,
            },
            None => None,
        }
    }
}

pub open spec fn request_view(r: Option<MetadataRequest>) -> Option<(bool, Seq<char>)> {
    match r {
        Some(q) => Some((q.is_rg, q.entity_id@)),
        None => None,
    }
}

fn group_of(groups: &Vec<Option<String>>, i: usize) -> (r: Option<String>)
    ensures
        match r {
            Some(s) => group(crate::pattern::group_views(groups@), i as int) == Some(s@),
            None => group(crate::pattern::group_views(groups@), i as int) is None,
        },
{
    if i < groups.len() {
        match &groups[i] {
            Some(s) => Some(s.clone()),
            None => None,
        }
    } else {
        None
    }
}

/// The entity a MusicBrainz URL names, if any.
pub fn parse_metadata_url(url: &str) -> (r: Option<MetadataRequest>)
    ensures
        request_view(r) == request_spec(url@),
{
    let re = match compile("(release|release-group)/([a-f0-9\\-]+)") {
        Some(re) => re,
        None => return None,
    };
    let groups = match capture_groups(&re, url) {
        Some(g) => g,
        None => return None,
    };
    let mode = match group_of(&groups, 1) {
        Some(m) => m,
        None => return None,
    };
    let id = match group_of(&groups, 2) {
        Some(i) => i,
        None => return None,
    };
    let is_rg = crate::text::str_eq(mode.as_str(), "release-group");
    Some(MetadataRequest { is_rg, entity_id: id })
}

/// The cache file of a request: `rg-<id>.json` or `rel-<id>.json` in the
/// cache directory.
pub open spec fn cache_file_spec(cache_dir: Seq<char>, is_rg: bool, id: Seq<char>) -> Seq<char> {
    path_join(cache_dir, (if is_rg { "rg"@ } else { "rel"@ }) + "-"@ + id + ".json"@)
}

pub fn cache_file_path(cache_dir: &str, req: &MetadataRequest) -> (r: String)
    ensures
        r@ == cache_file_spec(cache_dir@, req.is_rg, req.entity_id@),
{
    let mut name = if req.is_rg {
        owned("rg")
    } else {
        owned("rel")
    };
    push_str(&mut name, "-");
    push_str(&mut name, req.entity_id.as_str());
    push_str(&mut name, ".json");
    join_path(cache_dir, name.as_str())
}

/// The MusicBrainz API address of a release group.
pub open spec fn release_group_url(id: Seq<char>) -> Seq<char> {
    "https://musicbrainz.org/ws/2/release-group/"@ + id + "?inc=tags+url-rels+artist-credits&fmt=json"@
}

/// The MusicBrainz API address of a release.
pub open spec fn release_url(id: Seq<char>) -> Seq<char> {
    "https://musicbrainz.org/ws/2/release/"@ + id
        + "?inc=labels+release-groups+url-rels+recordings+artist-credits+media&fmt=json"@
}

fn release_group_url_exec(id: &str) -> (r: String)
    ensures
        r@ == release_group_url(id@),
{
    let mut r = owned("https://musicbrainz.org/ws/2/release-group/");
    push_str(&mut r, id);
    push_str(&mut r, "?inc=tags+url-rels+artist-credits&fmt=json");
    r
}

fn release_url_exec(id: &str) -> (r: String)
    ensures
        r@ == release_url(id@),
{
    let mut r = owned("https://musicbrainz.org/ws/2/release/");
    push_str(&mut r, id);
    push_str(&mut r, "?inc=labels+release-groups+url-rels+recordings+artist-credits+media&fmt=json");
    r
}

// ---------------------------------------------------------------------------
// Discogs
// ---------------------------------------------------------------------------

/// The Discogs link of a MusicBrainz relation, if it is one.
pub open spec fn discogs_link(rel: JsonV) -> Option<Seq<char>> {
    match ostr(oget(jget(rel, "url"@), "resource"@)) {
        Some(u) => if has_infix(u, "discogs.com/release/"@) || has_infix(u, "discogs.com/master/"@) {
            Some(u)
        } else {
            None
        },
        None => None,
    }
}

/// The first Discogs link among relations.
pub open spec fn first_discogs_link(rels: Seq<JsonV>) -> Option<Seq<char>>
    decreases rels.len(),
{
    if rels.len() == 0 {
        None
    } else {
        match first_discogs_link(rels.drop_last()) {
            Some(u) => Some(u),
            None => discogs_link(rels.last()),
        }
    }
}

/// The Discogs page a MusicBrainz entity links to.
pub open spec fn discogs_relation(obj: JsonV) -> Option<Seq<char>> {
    match oarr(jget(obj, "relations"@)) {
        Some(rels) => first_discogs_link(rels),
        None => None,
    }
}

pub fn find_discogs_relation(obj: &Json) -> (r: Option<String>)
    ensures
        match r {
            Some(u) => discogs_relation(obj@) == Some(u@),
            None => discogs_relation(obj@) is None,
        },
{
    let rels = match obj.get("relations") {
        Some(r) => r.as_array(),
        None => None,
    };
    let rels = match rels {
        Some(r) => r,
        None => return None,
    };
    let ghost rv = json_views(rels@);
    assert(discogs_relation(obj@) == first_discogs_link(rv));
    let mut i: usize = 0;
    while i < rels.len()
        invariant
            i <= rels.len(),
            rv == json_views(rels@),
            discogs_relation(obj@) == first_discogs_link(rv),
            first_discogs_link(rv.take(i as int)) is None,
        decreases rels.len() - i,
    {
        assert(rv.take(i + 1).drop_last() =~= rv.take(i as int));
        assert(rv[i as int] == rels@[i as int]@);
        if let Some(u) = str_opt(get_opt(rels[i].get("url"), "resource")) {
            if contains_str(u, "discogs.com/release/") || contains_str(u, "discogs.com/master/") {
                proof {
                    lemma_first_link_prefix(rv, i as int + 1);
                }
                return Some(owned(u));
            }
        }
        i = i + 1;
    }
    assert(rv.take(rels.len() as int) =~= rv);
    None
}

pub proof fn lemma_first_link_prefix(rels: Seq<JsonV>, k: int)
    requires
        0 <= k <= rels.len(),
        first_discogs_link(rels.take(k)) is Some,
    ensures
        first_discogs_link(rels) == first_discogs_link(rels.take(k)),
    decreases rels.len() - k,
{
    if k < rels.len() {
        assert(rels.take(k + 1).drop_last() =~= rels.take(k));
        lemma_first_link_prefix(rels, k + 1);
    } else {
        assert(rels.take(k) =~= rels);
    }
}

/// Which Discogs entity a Discogs page is.
pub enum DiscogsTarget {
    Release(String),
    Master(String),
    Neither,
}

pub enum DiscogsTargetV {
    Release(Seq<char>),
    Master(Seq<char>),
    Neither,
}

impl View for DiscogsTarget {
    type V = DiscogsTargetV;

    open spec fn view(&self) -> DiscogsTargetV {
        match self {
            DiscogsTarget::Release(s) => DiscogsTargetV::Release(s@),
            DiscogsTarget::Master(s) => DiscogsTargetV::Master(s@),
            DiscogsTarget::Neither => DiscogsTargetV::Neither,
        }
    }
}

/// The id a pattern's first group captures in `text`.
pub open spec fn captured_id(pattern: Seq<char>, text: Seq<char>) -> Option<Seq<char>> {
    if !regex_compiles(pattern) {
        None
    } else {
        match regex_captures(pattern, text) {
            Some(g) => group(g, 1),
            None => None,
        }
    }
}

/// A release page (`release/<digits>`) before a master page
/// (`master/<digits>`).
pub open spec fn discogs_target_spec(url: Seq<char>) -> DiscogsTargetV {
    match captured_id("release/(\\d+)"@, url) {
        Some(id) => DiscogsTargetV::Release(id),
        None => match captured_id("master/(\\d+)"@, url) {
            Some(id) => DiscogsTargetV::Master(id),
            None => DiscogsTargetV::Neither,
        },
    }
}

fn capture_id(pattern: &str, text: &str) -> (r: Option<String>)
    ensures
        match r {
            Some(s) => captured_id(pattern@, text@) == Some(s@),
            None => captured_id(pattern@, text@) is None,
        },
{
    let re = match compile(pattern) {
        Some(re) => re,
        None => return None,
    };
    match capture_groups(&re, text) {
        Some(g) => group_of(&g, 1),
        None => None,
    }
}

pub fn discogs_target(url: &str) -> (r: DiscogsTarget)
    ensures
        r@ == discogs_target_spec(url@),
{
    match capture_id("release/(\\d+)", url) {
        Some(id) => DiscogsTarget::Release(id),
        None => match capture_id("master/(\\d+)", url) {
            Some(id) => DiscogsTarget::Master(id),
            None => DiscogsTarget::Neither,
        },
    }
}

/// The Discogs API address of a release.
pub open spec fn discogs_release_api(id: Seq<char>) -> Seq<char> {
    "https://api.discogs.com/releases/"@ + id
}

/// The Discogs API address of a master.
pub open spec fn discogs_master_api(id: Seq<char>) -> Seq<char> {
    "https://api.discogs.com/masters/"@ + id
}

fn prefixed(prefix: &str, s: &str) -> (r: String)
    ensures
        r@ == prefix@ + s@,
{
    let mut r = owned(prefix);
    push_str(&mut r, s);
    r
}


// ---------------------------------------------------------------------------
// The fetch, step by step
// ---------------------------------------------------------------------------

/// Where a metadata fetch stands: which answer it waits for.
#[derive(Clone, Copy)]
pub enum FetchPhase {
    AwaitCache,
    AwaitPrimary,
    AwaitGroup,
    AwaitToken,
    AwaitDiscogsRelease,
    AwaitPause,
    AwaitDiscogsMaster,
    Done,
}

/// What an HTTP GET gave back: no answer, an answer that is no JSON, or a
/// JSON document.
pub enum HttpReply {
    SendFailed,
    UnreadableBody,
    Body(Json),
}

pub enum HttpReplyV {
    SendFailed,
    UnreadableBody,
    Body(JsonV),
}

/// What the caller hands back after performing an action.
pub enum FetchEvent {
    /// The cached document, if the cache file exists and holds JSON.
    CacheLoaded(Option<Json>),
    /// The answer to a `Get` or `GetAuthorized`.
    Reply(HttpReply),
    /// The value of the Discogs token variable (empty when unset).
    TokenLoaded(String),
    /// The requested pause is over.
    Paused,
}

pub enum FetchEventV {
    CacheLoaded(Option<JsonV>),
    Reply(HttpReplyV),
    TokenLoaded(Seq<char>),
    Paused,
}

/// What the caller is asked to do next.
pub enum FetchAction {
    /// Read and parse the cache file at this path.
    ReadCache(String),
    /// GET this address.
    Get(String),
    /// GET this address with this `Authorization` header.
    GetAuthorized(String, String),
    /// Load the Discogs token.
    LoadToken,
    /// Wait this many seconds.
    Pause(u64),
    /// The fetch is over: the document, if any, and the cache file to
    /// write it to, if it is to be written.
    Finish(Option<Json>, Option<String>),
}

pub enum FetchActionV {
    ReadCache(Seq<char>),
    Get(Seq<char>),
    GetAuthorized(Seq<char>, Seq<char>),
    LoadToken,
    Pause(u64),
    Finish(Option<JsonV>, Option<Seq<char>>),
}

pub open spec fn opt_json(o: Option<Json>) -> Option<JsonV> {
    match o {
        Some(j) => Some(j@),
        None => None,
    }
}

pub open spec fn opt_string(o: Option<String>) -> Option<Seq<char>> {
    match o {
        Some(s) => Some(s@),
        None => None,
    }
}

impl View for HttpReply {
    type V = HttpReplyV;

    open spec fn view(&self) -> HttpReplyV {
        match self {
            HttpReply::SendFailed => HttpReplyV::SendFailed,
            HttpReply::UnreadableBody => HttpReplyV::UnreadableBody,
            HttpReply::Body(j) => HttpReplyV::Body(j@),
        }
    }
}

impl View for FetchEvent {
    type V = FetchEventV;

    open spec fn view(&self) -> FetchEventV {
        match self {
            FetchEvent::CacheLoaded(o) => FetchEventV::CacheLoaded(opt_json(*o)),
            FetchEvent::Reply(r) => FetchEventV::Reply(r@),
            FetchEvent::TokenLoaded(t) => FetchEventV::TokenLoaded(t@),
            FetchEvent::Paused => FetchEventV::Paused,
        }
    }
}

impl View for FetchAction {
    type V = FetchActionV;

    open spec fn view(&self) -> FetchActionV {
        match self {
            FetchAction::ReadCache(p) => FetchActionV::ReadCache(p@),
            FetchAction::Get(u) => FetchActionV::Get(u@),
            FetchAction::GetAuthorized(u, a) => FetchActionV::GetAuthorized(u@, a@),
            FetchAction::LoadToken => FetchActionV::LoadToken,
            FetchAction::Pause(n) => FetchActionV::Pause(*n),
            FetchAction::Finish(d, c) => FetchActionV::Finish(opt_json(*d), opt_string(*c)),
        }
    }
}

/// A metadata fetch in progress: what it asked for and what it has
/// gathered so far.
pub struct MetadataFetch {
    phase: FetchPhase,
    is_rg: bool,
    entity_id: String,
    cache_path: String,
    primary: Json,
    group: Option<Json>,
    auth: String,
    discogs: Vec<(String, Json)>,
    master_id: i64,
}

/// Mathematical counterpart of [`MetadataFetch`].
pub struct FetchV {
    pub phase: FetchPhase,
    pub is_rg: bool,
    pub entity_id: Seq<char>,
    pub cache_path: Seq<char>,
    /// The release group (for a release-group URL) or the release.
    pub primary: JsonV,
    /// The release's release group, when one was fetched.
    pub group: Option<JsonV>,
    /// The `Authorization` header for Discogs.
    pub auth: Seq<char>,
    /// The Discogs members gathered so far.
    pub discogs: Seq<(Seq<char>, JsonV)>,
    pub master_id: i64,
}

impl View for MetadataFetch {
    type V = FetchV;

    closed spec fn view(&self) -> FetchV {
        FetchV {
            phase: self.phase,
            is_rg: self.is_rg,
            entity_id: self.entity_id@,
            cache_path: self.cache_path@,
            primary: self.primary@,
            group: opt_json(self.group),
            auth: self.auth@,
            discogs: entry_views(self.discogs@),
            master_id: self.master_id,
        }
    }
}

/// The MusicBrainz address of what a request names.
pub open spec fn primary_url(is_rg: bool, id: Seq<char>) -> Seq<char> {
    if is_rg {
        release_group_url(id)
    } else {
        release_url(id)
    }
}

/// A cached document can take the `_is_rg` member: an object or null.
pub open spec fn cached_ok(d: JsonV) -> bool {
    d is Object || d is Null
}

/// A document with its `_is_rg` member set (`data["_is_rg"] = is_rg`).
pub open spec fn with_kind(d: JsonV, is_rg: bool) -> JsonV {
    match d {
        JsonV::Object(es) => JsonV::Object(set_member(es, "_is_rg"@, JsonV::Bool(is_rg))),
        JsonV::Null => JsonV::Object(seq![("_is_rg"@, JsonV::Bool(is_rg))]),
        _ => d,
    }
}

/// The id of a release's release group, or empty.
pub open spec fn group_id(release: JsonV) -> Seq<char> {
    match ostr(oget(jget(release, "release-group"@), "id"@)) {
        Some(id) => id,
        None => Seq::empty(),
    }
}

/// The `musicbrainz` member of a fetched document.
pub open spec fn musicbrainz_part(s: FetchV) -> JsonV {
    if s.is_rg {
        JsonV::Object(seq![("release_group"@, s.primary)])
    } else {
        JsonV::Object(seq![("release"@, s.primary), ("release_group"@, group_or_empty(s.group))])
    }
}

/// A release's group, or an empty object when none was fetched.
pub open spec fn group_or_empty(g: Option<JsonV>) -> JsonV {
    match g {
        Some(g) => g,
        None => JsonV::Object(Seq::empty()),
    }
}

/// The document a fetch assembles from what it gathered.
pub open spec fn assembled(s: FetchV) -> JsonV {
    JsonV::Object(
        seq![
            ("_is_rg"@, JsonV::Bool(s.is_rg)),
            ("discogs"@, JsonV::Object(s.discogs)),
            ("musicbrainz"@, musicbrainz_part(s)),
        ],
    )
}

/// A finished fetch keeps its request and lets go of what it gathered.
pub open spec fn cleared(s: FetchV) -> FetchV {
    FetchV {
        phase: FetchPhase::Done,
        primary: JsonV::Null,
        group: None,
        discogs: Seq::empty(),
        ..s
    }
}

/// Finishing with the assembled document, to be written to the cache.
pub open spec fn finish_spec(s: FetchV) -> (FetchV, FetchActionV) {
    (cleared(s), FetchActionV::Finish(Some(assembled(s)), Some(s.cache_path)))
}

/// Finishing without a document.
pub open spec fn fail_spec(s: FetchV) -> (FetchV, FetchActionV) {
    (cleared(s), FetchActionV::Finish(None, None))
}

/// The Discogs member that tells why there is no Discogs data.
pub open spec fn discogs_error(msg: Seq<char>) -> Seq<(Seq<char>, JsonV)> {
    seq![("error"@, JsonV::Str(msg))]
}

/// Whether a fetch in this state takes this event.
pub open spec fn event_expected(s: FetchV, e: FetchEventV) -> bool {
    match (s.phase, e) {
        (FetchPhase::AwaitCache, FetchEventV::CacheLoaded(o)) => match o {
            Some(d) => cached_ok(d),
            None => true,
        },
        (FetchPhase::AwaitPrimary, FetchEventV::Reply(_)) => true,
        (FetchPhase::AwaitGroup, FetchEventV::Reply(_)) => true,
        (FetchPhase::AwaitToken, FetchEventV::TokenLoaded(_)) => true,
        (FetchPhase::AwaitDiscogsRelease, FetchEventV::Reply(_)) => true,
        (FetchPhase::AwaitPause, FetchEventV::Paused) => true,
        (FetchPhase::AwaitDiscogsMaster, FetchEventV::Reply(_)) => true,
        _ => false,
    }
}

/// After the cache was read: a cached document is the answer, marked with
/// its kind and not written back; without one, MusicBrainz is asked.
pub open spec fn cache_spec(s: FetchV, cached: Option<JsonV>) -> (FetchV, FetchActionV) {
    match cached {
        Some(d) => (cleared(s), FetchActionV::Finish(Some(with_kind(d, s.is_rg)), None)),
        None => (
            FetchV { phase: FetchPhase::AwaitPrimary, ..s },
            FetchActionV::Get(primary_url(s.is_rg, s.entity_id)),
        ),
    }
}

/// After MusicBrainz answered for the requested entity: no document ends
/// the fetch; a release asks next for its release group, if it names one.
pub open spec fn primary_spec(s: FetchV, r: HttpReplyV) -> (FetchV, FetchActionV) {
    match r {
        HttpReplyV::Body(p) => if s.is_rg {
            (FetchV { phase: FetchPhase::AwaitToken, primary: p, ..s }, FetchActionV::LoadToken)
        } else if group_id(p).len() > 0 {
            (
                FetchV { phase: FetchPhase::AwaitGroup, primary: p, ..s },
                FetchActionV::Get(release_group_url(group_id(p))),
            )
        } else {
            (
                FetchV { phase: FetchPhase::AwaitToken, primary: p, group: None, ..s },
                FetchActionV::LoadToken,
            )
        },
        _ => fail_spec(s),
    }
}

/// After MusicBrainz answered for a release's group: no answer ends the
/// fetch; an answer that is no JSON leaves the group out.
pub open spec fn group_spec(s: FetchV, r: HttpReplyV) -> (FetchV, FetchActionV) {
    match r {
        HttpReplyV::SendFailed => fail_spec(s),
        HttpReplyV::UnreadableBody => (
            FetchV { phase: FetchPhase::AwaitToken, group: None, ..s },
            FetchActionV::LoadToken,
        ),
        HttpReplyV::Body(g) => (
            FetchV { phase: FetchPhase::AwaitToken, group: Some(g), ..s },
            FetchActionV::LoadToken,
        ),
    }
}

/// After the token was loaded: Discogs is asked for the release or master
/// that the entity links to, with the token; without a token or a link
/// the Discogs member says why.
pub open spec fn token_spec(s: FetchV, token: Seq<char>) -> (FetchV, FetchActionV) {
    if token.len() == 0 {
        finish_spec(FetchV { discogs: discogs_error("Missing token"@), ..s })
    } else {
        match discogs_relation(s.primary) {
            None => finish_spec(FetchV { discogs: discogs_error("No relation"@), ..s }),
            Some(link) => {
                let auth = "Discogs token="@ + token;
                match discogs_target_spec(link) {
                    DiscogsTargetV::Release(id) => (
                        FetchV {
                            phase: FetchPhase::AwaitDiscogsRelease,
                            auth: auth,
                            discogs: Seq::empty(),
                            ..s
                        },
                        FetchActionV::GetAuthorized(discogs_release_api(id), auth),
                    ),
                    DiscogsTargetV::Master(id) => (
                        FetchV {
                            phase: FetchPhase::AwaitDiscogsMaster,
                            auth: auth,
                            discogs: Seq::empty(),
                            ..s
                        },
                        FetchActionV::GetAuthorized(discogs_master_api(id), auth),
                    ),
                    DiscogsTargetV::Neither => finish_spec(FetchV { discogs: Seq::empty(), ..s }),
                }
            },
        }
    }
}

/// After Discogs answered for the release: it is kept, and its master, if
/// it names one, is asked for after a pause of a second.
pub open spec fn discogs_release_spec(s: FetchV, r: HttpReplyV) -> (FetchV, FetchActionV) {
    match r {
        HttpReplyV::Body(rel) => {
            let t = FetchV { discogs: set_member(s.discogs, "release"@, rel), ..s };
            match oi64(jget(rel, "master_id"@)) {
                Some(m) => (
                    FetchV { phase: FetchPhase::AwaitPause, master_id: m, ..t },
                    FetchActionV::Pause(1),
                ),
                None => finish_spec(t),
            }
        },
        _ => finish_spec(s),
    }
}

/// After the pause: Discogs is asked for the master.
pub open spec fn pause_spec(s: FetchV) -> (FetchV, FetchActionV) {
    (
        FetchV { phase: FetchPhase::AwaitDiscogsMaster, ..s },
        FetchActionV::GetAuthorized(discogs_master_api(signed_decimal(s.master_id as int)), s.auth),
    )
}

/// After Discogs answered for the master: it is kept, and the fetch ends.
pub open spec fn discogs_master_spec(s: FetchV, r: HttpReplyV) -> (FetchV, FetchActionV) {
    match r {
        HttpReplyV::Body(m) => finish_spec(FetchV { discogs: set_member(s.discogs, "master"@, m), ..s }),
        _ => finish_spec(s),
    }
}

/// One step of a fetch: the next state and the next action.
pub open spec fn step_spec(s: FetchV, e: FetchEventV) -> (FetchV, FetchActionV) {
    match (s.phase, e) {
        (FetchPhase::AwaitCache, FetchEventV::CacheLoaded(o)) => cache_spec(s, o),
        (FetchPhase::AwaitPrimary, FetchEventV::Reply(r)) => primary_spec(s, r),
        (FetchPhase::AwaitGroup, FetchEventV::Reply(r)) => group_spec(s, r),
        (FetchPhase::AwaitToken, FetchEventV::TokenLoaded(t)) => token_spec(s, t),
        (FetchPhase::AwaitDiscogsRelease, FetchEventV::Reply(r)) => discogs_release_spec(s, r),
        (FetchPhase::AwaitPause, FetchEventV::Paused) => pause_spec(s),
        (FetchPhase::AwaitDiscogsMaster, FetchEventV::Reply(r)) => discogs_master_spec(s, r),
        _ => (s, FetchActionV::Finish(None, None)),
    }
}

/// The state of a fresh fetch.
pub open spec fn initial_spec(is_rg: bool, id: Seq<char>, cache_dir: Seq<char>) -> FetchV {
    FetchV {
        phase: FetchPhase::AwaitCache,
        is_rg: is_rg,
        entity_id: id,
        cache_path: cache_file_spec(cache_dir, is_rg, id),
        primary: JsonV::Null,
        group: None,
        auth: Seq::empty(),
        discogs: Seq::empty(),
        master_id: 0,
    }
}

fn take_slot<T>(slot: &mut T, empty: T) -> (r: T)
    ensures
        r == *old(slot),
        *final(slot) == empty,
{
    let mut out = empty;
    std::mem::swap(&mut out, slot);
    out
}

fn entry(key: &str, value: Json) -> (r: (String, Json))
    ensures
        r.0@ == key@,
        r.1 == value,
{
    (owned(key), value)
}

impl MetadataFetch {
    /// Starts fetching the metadata a MusicBrainz URL names, with its cache
    /// file in `cache_dir`; `None` when the URL names no release or release
    /// group. The first action reads the cache.
    pub fn start(url: &str, cache_dir: &str) -> (r: Option<(MetadataFetch, FetchAction)>)
        ensures
            match r {
                Some((f, a)) => request_spec(url@) matches Some((is_rg, id)) && f@ == initial_spec(
                    is_rg,
                    id,
                    cache_dir@,
                ) && a@ == FetchActionV::ReadCache(cache_file_spec(cache_dir@, is_rg, id)),
                None => request_spec(url@) is None,
            },
    {
        let req = match parse_metadata_url(url) {
            Some(q) => q,
            None => return None,
        };
        let path = cache_file_path(cache_dir, &req);
        let action = FetchAction::ReadCache(owned(path.as_str()));
        let f = MetadataFetch {
            phase: FetchPhase::AwaitCache,
            is_rg: req.is_rg,
            entity_id: req.entity_id,
            cache_path: path,
            primary: Json::Null,
            group: None,
            auth: String::new(),
            discogs: Vec::new(),
            master_id: 0,
        };
        assert(entry_views(f.discogs@) =~= Seq::empty());
        Some((f, action))
    }

    /// Whether this fetch takes `event` now.
    pub fn expects(&self, event: &FetchEvent) -> (r: bool)
        ensures
            r == event_expected(self@, event@),
    {
        match (self.phase, event) {
            (FetchPhase::AwaitCache, FetchEvent::CacheLoaded(o)) => match o {
                Some(Json::Object(_)) => true,
                Some(Json::Null) => true,
                Some(_) => false,
                None => true,
            },
            (FetchPhase::AwaitPrimary, FetchEvent::Reply(_)) => true,
            (FetchPhase::AwaitGroup, FetchEvent::Reply(_)) => true,
            (FetchPhase::AwaitToken, FetchEvent::TokenLoaded(_)) => true,
            (FetchPhase::AwaitDiscogsRelease, FetchEvent::Reply(_)) => true,
            (FetchPhase::AwaitPause, FetchEvent::Paused) => true,
            (FetchPhase::AwaitDiscogsMaster, FetchEvent::Reply(_)) => true,
            _ => false,
        }
    }

    /// Whether the fetch is over.
    pub fn is_done(&self) -> (r: bool)
        ensures
            r == (self@.phase is Done),
    {
        match self.phase {
            FetchPhase::Done => true,
            _ => false,
        }
    }

    fn finish(&mut self) -> (a: FetchAction)
        ensures
            (final(self)@, a@) == finish_spec(old(self)@),
    {
        let ghost s = self@;
        let primary = take_slot(&mut self.primary, Json::Null);
        let group = take_slot(&mut self.group, None);
        let discogs = take_slot(&mut self.discogs, Vec::new());
        self.phase = FetchPhase::Done;
        let mb = if self.is_rg {
            let v = vec![entry("release_group", primary)];
            assert(entry_views(v@) =~= seq![("release_group"@, s.primary)]);
            let o = object_of(v);
            assert(o@ == musicbrainz_part(s));
            o
        } else {
            let g = match group {
                Some(g) => g,
                None => {
                    let e: Vec<(String, Json)> = Vec::new();
                    assert(entry_views(e@) =~= Seq::empty());
                    object_of(e)
                },
            };
            let ghost gv = g@;
            assert(gv == group_or_empty(s.group));
            let v = vec![entry("release", primary), entry("release_group", g)];
            assert(entry_views(v@) =~= seq![("release"@, s.primary), ("release_group"@, gv)]);
            let o = object_of(v);
            assert(o@ == musicbrainz_part(s));
            o
        };
        assert(mb@ == musicbrainz_part(s));
        let ghost mv = mb@;
        let d = object_of(discogs);
        let ghost dv = d@;
        let v = vec![entry("_is_rg", Json::Bool(self.is_rg)), entry("discogs", d), entry("musicbrainz", mb)];
        assert(entry_views(v@) =~= seq![
            ("_is_rg"@, JsonV::Bool(s.is_rg)),
            ("discogs"@, dv),
            ("musicbrainz"@, mv),
        ]);
        let data = object_of(v);
        assert(entry_views(self.discogs@) =~= Seq::empty());
        FetchAction::Finish(Some(data), Some(owned(self.cache_path.as_str())))
    }

    fn fail(&mut self) -> (a: FetchAction)
        ensures
            (final(self)@, a@) == fail_spec(old(self)@),
    {
        self.primary = Json::Null;
        self.group = None;
        self.discogs = Vec::new();
        self.phase = FetchPhase::Done;
        assert(entry_views(self.discogs@) =~= Seq::empty());
        FetchAction::Finish(None, None)
    }

    fn on_cache(&mut self, cached: Option<Json>) -> (a: FetchAction)
        requires
            old(self)@.phase is AwaitCache,
            match opt_json(cached) {
                Some(d) => cached_ok(d),
                None => true,
            },
        ensures
            (final(self)@, a@) == cache_spec(old(self)@, opt_json(cached)),
    {
        match cached {
            Some(d) => {
                let is_rg = self.is_rg;
                let data = match d {
                    Json::Object(es) => {
                        let mut es = es;
                        proof {
                            lemma_object_view(es);
                        }
                        set_entry(&mut es, "_is_rg", Json::Bool(is_rg));
                        object_of(es)
                    },
                    _ => {
                        let v = vec![entry("_is_rg", Json::Bool(is_rg))];
                        assert(entry_views(v@) =~= seq![("_is_rg"@, JsonV::Bool(is_rg))]);
                        object_of(v)
                    },
                };
                self.fail();
                FetchAction::Finish(Some(data), None)
            },
            None => {
                self.phase = FetchPhase::AwaitPrimary;
                let url = if self.is_rg {
                    release_group_url_exec(self.entity_id.as_str())
                } else {
                    release_url_exec(self.entity_id.as_str())
                };
                FetchAction::Get(url)
            },
        }
    }

    fn on_primary(&mut self, reply: HttpReply) -> (a: FetchAction)
        requires
            old(self)@.phase is AwaitPrimary,
        ensures
            (final(self)@, a@) == primary_spec(old(self)@, reply@),
    {
        match reply {
            HttpReply::Body(p) => {
                let gid = match str_opt(get_opt(p.get("release-group"), "id")) {
                    Some(id) => owned(id),
                    None => String::new(),
                };
                assert(gid@ == group_id(p@));
                self.primary = p;
                if self.is_rg {
                    self.phase = FetchPhase::AwaitToken;
                    FetchAction::LoadToken
                } else if !gid.as_str().is_empty() {
                    self.phase = FetchPhase::AwaitGroup;
                    FetchAction::Get(release_group_url_exec(gid.as_str()))
                } else {
                    self.group = None;
                    self.phase = FetchPhase::AwaitToken;
                    FetchAction::LoadToken
                }
            },
            _ => self.fail(),
        }
    }

    fn on_group(&mut self, reply: HttpReply) -> (a: FetchAction)
        requires
            old(self)@.phase is AwaitGroup,
        ensures
            (final(self)@, a@) == group_spec(old(self)@, reply@),
    {
        match reply {
            HttpReply::SendFailed => self.fail(),
            HttpReply::UnreadableBody => {
                self.group = None;
                self.phase = FetchPhase::AwaitToken;
                FetchAction::LoadToken
            },
            HttpReply::Body(g) => {
                self.group = Some(g);
                self.phase = FetchPhase::AwaitToken;
                FetchAction::LoadToken
            },
        }
    }

    fn set_discogs_error(&mut self, msg: &str)
        ensures
            final(self)@ == (FetchV { discogs: discogs_error(msg@), ..old(self)@ }),
    {
        let v = vec![entry("error", json_string(msg))];
        self.discogs = v;
        assert(entry_views(self.discogs@) =~= discogs_error(msg@));
    }

    fn on_token(&mut self, token: String) -> (a: FetchAction)
        requires
            old(self)@.phase is AwaitToken,
        ensures
            (final(self)@, a@) == token_spec(old(self)@, token@),
    {
        if token.as_str().is_empty() {
            self.set_discogs_error("Missing token");
            return self.finish();
        }
        let link = match find_discogs_relation(&self.primary) {
            Some(l) => l,
            None => {
                self.set_discogs_error("No relation");
                return self.finish();
            },
        };
        self.discogs = Vec::new();
        assert(entry_views(self.discogs@) =~= Seq::empty());
        match discogs_target(link.as_str()) {
            DiscogsTarget::Release(id) => {
                self.auth = prefixed("Discogs token=", token.as_str());
                self.phase = FetchPhase::AwaitDiscogsRelease;
                FetchAction::GetAuthorized(
                    prefixed("https://api.discogs.com/releases/", id.as_str()),
                    owned(self.auth.as_str()),
                )
            },
            DiscogsTarget::Master(id) => {
                self.auth = prefixed("Discogs token=", token.as_str());
                self.phase = FetchPhase::AwaitDiscogsMaster;
                FetchAction::GetAuthorized(
                    prefixed("https://api.discogs.com/masters/", id.as_str()),
                    owned(self.auth.as_str()),
                )
            },
            DiscogsTarget::Neither => self.finish(),
        }
    }

    fn on_discogs_release(&mut self, reply: HttpReply) -> (a: FetchAction)
        requires
            old(self)@.phase is AwaitDiscogsRelease,
        ensures
            (final(self)@, a@) == discogs_release_spec(old(self)@, reply@),
    {
        match reply {
            HttpReply::Body(rel) => {
                let master = match rel.get("master_id") {
                    Some(m) => m.as_i64(),
                    None => None,
                };
                set_entry(&mut self.discogs, "release", rel);
                match master {
                    Some(m) => {
                        self.master_id = m;
                        self.phase = FetchPhase::AwaitPause;
                        FetchAction::Pause(1)
                    },
                    None => self.finish(),
                }
            },
            _ => self.finish(),
        }
    }

    fn on_pause_over(&mut self) -> (a: FetchAction)
        requires
            old(self)@.phase is AwaitPause,
        ensures
            (final(self)@, a@) == pause_spec(old(self)@),
    {
        self.phase = FetchPhase::AwaitDiscogsMaster;
        let id = i64_to_decimal(self.master_id);
        FetchAction::GetAuthorized(
            prefixed("https://api.discogs.com/masters/", id.as_str()),
            owned(self.auth.as_str()),
        )
    }

    fn on_discogs_master(&mut self, reply: HttpReply) -> (a: FetchAction)
        requires
            old(self)@.phase is AwaitDiscogsMaster,
        ensures
            (final(self)@, a@) == discogs_master_spec(old(self)@, reply@),
    {
        match reply {
            HttpReply::Body(m) => {
                set_entry(&mut self.discogs, "master", m);
                self.finish()
            },
            _ => self.finish(),
        }
    }

    /// Takes what the last action brought and says what to do next.
    pub fn step(&mut self, event: FetchEvent) -> (a: FetchAction)
        requires
            event_expected(old(self)@, event@),
        ensures
            (final(self)@, a@) == step_spec(old(self)@, event@),
    {
        match event {
            FetchEvent::CacheLoaded(cached) => self.on_cache(cached),
            FetchEvent::Reply(reply) => match self.phase {
                FetchPhase::AwaitPrimary => self.on_primary(reply),
                FetchPhase::AwaitGroup => self.on_group(reply),
                FetchPhase::AwaitDiscogsRelease => self.on_discogs_release(reply),
                _ => self.on_discogs_master(reply),
            },
            FetchEvent::TokenLoaded(token) => self.on_token(token),
            FetchEvent::Paused => self.on_pause_over(),
        }
    }
}


// ---------------------------------------------------------------------------
// What holds of every fetch
// ---------------------------------------------------------------------------

/// How many answers a fetch in this phase may still wait for, at most.
pub open spec fn phase_rank(p: FetchPhase) -> nat {
    match p {
        FetchPhase::AwaitCache => 7,
        FetchPhase::AwaitPrimary => 6,
        FetchPhase::AwaitGroup => 5,
        FetchPhase::AwaitToken => 4,
        FetchPhase::AwaitDiscogsRelease => 3,
        FetchPhase::AwaitPause => 2,
        FetchPhase::AwaitDiscogsMaster => 1,
        FetchPhase::Done => 0,
    }
}

/// Every step brings a fetch closer to its end: a fetch finishes after at
/// most seven answers, whatever they are.
pub proof fn law_fetch_progresses(s: FetchV, e: FetchEventV)
    requires
        event_expected(s, e),
    ensures
        phase_rank(step_spec(s, e).0.phase) < phase_rank(s.phase),
{
}

/// A step never changes what was asked for, nor where it is cached.
pub proof fn law_request_kept(s: FetchV, e: FetchEventV)
    requires
        event_expected(s, e),
    ensures
        step_spec(s, e).0.is_rg == s.is_rg,
        step_spec(s, e).0.entity_id == s.entity_id,
        step_spec(s, e).0.cache_path == s.cache_path,
{
}

/// The `_is_rg` member after it was set.
pub proof fn lemma_set_member_get(es: Seq<(Seq<char>, JsonV)>, key: Seq<char>, v: JsonV)
    ensures
        jget(JsonV::Object(set_member(es, key, v)), key) == Some(v),
{
    lemma_first_key_index(es, key);
    let t = set_member(es, key, v);
    lemma_first_key_index(t, key);
    match first_key_index(es, key) {
        Some(i) => {
            assert(t[i] == (key, v));
            if first_key_index(t, key) != Some(i) {
                let k = first_key_index(t, key)->0;
                if k < i {
                    assert(t[k] == es[k]);
                }
            }
        },
        None => {
            assert(t[es.len() as int] == (key, v));
            if first_key_index(t, key) != Some(es.len() as int) {
                let k = first_key_index(t, key)->0;
                assert(t[k] == es[k]);
            }
        },
    }
}

/// A cached document is the answer as it was read, marked with the kind
/// of entity asked for, and it is not written back.
pub proof fn law_cached_document_marked(s: FetchV, d: JsonV)
    requires
        s.phase is AwaitCache,
        cached_ok(d),
    ensures
        step_spec(s, FetchEventV::CacheLoaded(Some(d))).1 == FetchActionV::Finish(
            Some(with_kind(d, s.is_rg)),
            None,
        ),
        jget(with_kind(d, s.is_rg), "_is_rg"@) == Some(JsonV::Bool(s.is_rg)),
{
    match d {
        JsonV::Object(es) => lemma_set_member_get(es, "_is_rg"@, JsonV::Bool(s.is_rg)),
        _ => {
            reveal_with_fuel(first_key_index, 2);
        },
    }
}

/// A document gathered from the network is written to the request's cache
/// file, marked with the kind of entity asked for, and it carries what
/// MusicBrainz said of that entity.
pub proof fn law_fetched_document_cached(s: FetchV, e: FetchEventV)
    requires
        event_expected(s, e),
        !(s.phase is AwaitCache),
        step_spec(s, e).1 matches FetchActionV::Finish(Some(_), _),
    ensures
        step_spec(s, e).1 matches FetchActionV::Finish(Some(d), w) && w == Some(s.cache_path)
            && jget(d, "_is_rg"@) == Some(JsonV::Bool(s.is_rg)) && jget(d, "musicbrainz"@) is Some,
{
    reveal_with_fuel(first_key_index, 4);
}

/// Once MusicBrainz has answered, the fetch ends with a document: what
/// Discogs does or does not answer never loses it.
pub proof fn law_document_after_musicbrainz(s: FetchV, e: FetchEventV)
    requires
        event_expected(s, e),
        phase_rank(s.phase) <= 4,
        step_spec(s, e).1 is Finish,
    ensures
        step_spec(s, e).1 matches FetchActionV::Finish(Some(_), Some(_)),
{
}


/// An assembled document already carries its kind: marking it again
/// changes nothing.
pub proof fn lemma_assembled_marked(x: FetchV)
    ensures
        with_kind(assembled(x), x.is_rg) == assembled(x),
{
    reveal_strlit("_is_rg");
    reveal_strlit("discogs");
    reveal_strlit("musicbrainz");
    let es = seq![
        ("_is_rg"@, JsonV::Bool(x.is_rg)),
        ("discogs"@, JsonV::Object(x.discogs)),
        ("musicbrainz"@, musicbrainz_part(x)),
    ];
    assert(assembled(x) == JsonV::Object(es));
    assert("discogs"@ != "_is_rg"@) by {
        assert("discogs"@[0] != "_is_rg"@[0]);
    }
    assert("musicbrainz"@ != "_is_rg"@) by {
        assert("musicbrainz"@[0] != "_is_rg"@[0]);
    }
    assert(es.drop_last().drop_last().drop_last() =~= Seq::<(Seq<char>, JsonV)>::empty());
    reveal_with_fuel(first_key_index, 4);
    assert(first_key_index(es, "_is_rg"@) == Some(0int));
    assert(set_member(es, "_is_rg"@, JsonV::Bool(x.is_rg)) =~= es);
}

/// What a fetch stores in the cache file, a later fetch of the same
/// entity reads back as its answer unchanged (its kind is already
/// marked), and does not write again.
pub proof fn law_cache_gives_back_stored(s: FetchV, e: FetchEventV, later: FetchV)
    requires
        event_expected(s, e),
        !(s.phase is AwaitCache),
        step_spec(s, e).1 matches FetchActionV::Finish(Some(_), _),
        later.phase is AwaitCache,
        later.is_rg == s.is_rg,
        later.cache_path == s.cache_path,
    ensures
        step_spec(s, e).1 matches FetchActionV::Finish(Some(d), Some(p)) && p == later.cache_path
            && cached_ok(d) && step_spec(later, FetchEventV::CacheLoaded(Some(d))).1
            == FetchActionV::Finish(Some(d), None),
{
    match (s.phase, e) {
        (FetchPhase::AwaitToken, FetchEventV::TokenLoaded(tok)) => {
            if tok.len() == 0 {
                lemma_assembled_marked(FetchV { discogs: discogs_error("Missing token"@), ..s });
            } else {
                match discogs_relation(s.primary) {
                    None => lemma_assembled_marked(FetchV { discogs: discogs_error("No relation"@), ..s }),
                    Some(_) => lemma_assembled_marked(FetchV { discogs: Seq::empty(), ..s }),
                }
            }
        },
        (FetchPhase::AwaitDiscogsRelease, FetchEventV::Reply(r)) => {
            match r {
                HttpReplyV::Body(rel) => lemma_assembled_marked(
                    FetchV { discogs: set_member(s.discogs, "release"@, rel), ..s },
                ),
                _ => lemma_assembled_marked(s),
            }
        },
        (FetchPhase::AwaitDiscogsMaster, FetchEventV::Reply(r)) => {
            match r {
                HttpReplyV::Body(m) => lemma_assembled_marked(
                    FetchV { discogs: set_member(s.discogs, "master"@, m), ..s },
                ),
                _ => lemma_assembled_marked(s),
            }
        },
        _ => {},
    }
}

/// Where an assembled document keeps the release group: under
/// `musicbrainz`, as `release_group`.
pub proof fn lemma_assembled_group(x: FetchV)
    ensures
        jget(assembled(x), "musicbrainz"@) == Some(musicbrainz_part(x)),
        jget(musicbrainz_part(x), "release_group"@) == Some(
            if x.is_rg {
                x.primary
            } else {
                group_or_empty(x.group)
            },
        ),
{
    reveal_strlit("_is_rg");
    reveal_strlit("discogs");
    reveal_strlit("musicbrainz");
    reveal_strlit("release");
    reveal_strlit("release_group");
    let es = seq![
        ("_is_rg"@, JsonV::Bool(x.is_rg)),
        ("discogs"@, JsonV::Object(x.discogs)),
        ("musicbrainz"@, musicbrainz_part(x)),
    ];
    assert(assembled(x) == JsonV::Object(es));
    assert("musicbrainz"@ != "_is_rg"@) by {
        assert("musicbrainz"@[0] != "_is_rg"@[0]);
    }
    assert("musicbrainz"@ != "discogs"@) by {
        assert("musicbrainz"@[0] != "discogs"@[0]);
    }
    lemma_first_key_index(es, "musicbrainz"@);
    assert(es[2].0 == "musicbrainz"@);
    assert(es[0].0 != "musicbrainz"@);
    assert(es[1].0 != "musicbrainz"@);
    if x.is_rg {
        let ms = seq![("release_group"@, x.primary)];
        assert(musicbrainz_part(x) == JsonV::Object(ms));
        lemma_first_key_index(ms, "release_group"@);
        assert(ms[0].0 == "release_group"@);
    } else {
        let ms = seq![("release"@, x.primary), ("release_group"@, group_or_empty(x.group))];
        assert(musicbrainz_part(x) == JsonV::Object(ms));
        assert("release"@ != "release_group"@) by {
            assert("release"@.len() != "release_group"@.len());
        }
        lemma_first_key_index(ms, "release_group"@);
        assert(ms[1].0 == "release_group"@);
        assert(ms[0].0 != "release_group"@);
    }
}

/// When MusicBrainz answers the request for a release's group with a
/// document, that document is the group the fetch keeps; an answer that is
/// no JSON leaves no group, and no answer at all ends the fetch without a
/// document.
pub proof fn law_group_answer_kept(s: FetchV, g: JsonV)
    requires
        s.phase is AwaitGroup,
    ensures
        step_spec(s, FetchEventV::Reply(HttpReplyV::Body(g))).0.group == Some(g),
        step_spec(s, FetchEventV::Reply(HttpReplyV::Body(g))).0.phase is AwaitToken,
        step_spec(s, FetchEventV::Reply(HttpReplyV::Body(g))).0.is_rg == s.is_rg,
        step_spec(s, FetchEventV::Reply(HttpReplyV::UnreadableBody)).0.group is None,
        step_spec(s, FetchEventV::Reply(HttpReplyV::UnreadableBody)).0.phase is AwaitToken,
        step_spec(s, FetchEventV::Reply(HttpReplyV::SendFailed)).1 == FetchActionV::Finish(None, None),
{
}

/// For a release, the release group the fetch holds stays through the
/// Discogs steps, and the document the fetch finishes with holds it as
/// `musicbrainz.release_group`, whatever Discogs answers; a release whose
/// group was not fetched gets an empty object there.
pub proof fn law_group_in_document(s: FetchV, e: FetchEventV)
    requires
        !s.is_rg,
        s.phase is AwaitToken || s.phase is AwaitDiscogsRelease || s.phase is AwaitPause
            || s.phase is AwaitDiscogsMaster,
        event_expected(s, e),
    ensures
        step_spec(s, e).1 matches FetchActionV::Finish(Some(d), _) ==> oget(
            jget(d, "musicbrainz"@),
            "release_group"@,
        ) == Some(
            match s.group {
                Some(g) => g,
                None => JsonV::Object(Seq::empty()),
            },
        ),
        !(step_spec(s, e).1 is Finish) ==> step_spec(s, e).0.group == s.group && !step_spec(s, e).0.is_rg,
{
    match (s.phase, e) {
        (FetchPhase::AwaitToken, FetchEventV::TokenLoaded(tok)) => {
            lemma_assembled_group(FetchV { discogs: discogs_error("Missing token"@), ..s });
            lemma_assembled_group(FetchV { discogs: discogs_error("No relation"@), ..s });
            lemma_assembled_group(FetchV { discogs: Seq::empty(), ..s });
        },
        (FetchPhase::AwaitDiscogsRelease, FetchEventV::Reply(r)) => {
            match r {
                HttpReplyV::Body(rel) => lemma_assembled_group(
                    FetchV { discogs: set_member(s.discogs, "release"@, rel), ..s },
                ),
                _ => lemma_assembled_group(s),
            }
        },
        (FetchPhase::AwaitDiscogsMaster, FetchEventV::Reply(r)) => {
            match r {
                HttpReplyV::Body(m) => lemma_assembled_group(
                    FetchV { discogs: set_member(s.discogs, "master"@, m), ..s },
                ),
                _ => lemma_assembled_group(s),
            }
        },
        _ => {},
    }
}

/// For a release whose group MusicBrainz sent as a document, the token
/// step that follows either goes on to Discogs or finishes with that group
/// as `musicbrainz.release_group`; without a token it finishes so.
pub proof fn law_group_answer_in_document(s: FetchV, g: JsonV, tok: Seq<char>)
    requires
        s.phase is AwaitGroup,
        !s.is_rg,
    ensures
        ({
            let t = step_spec(s, FetchEventV::Reply(HttpReplyV::Body(g))).0;
            step_spec(t, FetchEventV::TokenLoaded(tok)).1 matches FetchActionV::Finish(Some(d), _) ==> oget(
                jget(d, "musicbrainz"@),
                "release_group"@,
            ) == Some(g)
        }),
        step_spec(
            step_spec(s, FetchEventV::Reply(HttpReplyV::Body(g))).0,
            FetchEventV::TokenLoaded(Seq::empty()),
        ).1 matches FetchActionV::Finish(Some(d), _) && oget(jget(d, "musicbrainz"@), "release_group"@)
            == Some(g),
{
    let t = step_spec(s, FetchEventV::Reply(HttpReplyV::Body(g))).0;
    law_group_in_document(t, FetchEventV::TokenLoaded(tok));
    law_group_in_document(t, FetchEventV::TokenLoaded(Seq::empty()));
}

/// MusicBrainz is asked, on a cache miss, for what the request names: a
/// release group at its `release-group` address, a release at its
/// `release` address, each with the id asked for.
pub proof fn law_musicbrainz_asked(s: FetchV)
    requires
        s.phase is AwaitCache,
    ensures
        step_spec(s, FetchEventV::CacheLoaded(None)).1 == FetchActionV::Get(
            if s.is_rg {
                "https://musicbrainz.org/ws/2/release-group/"@ + s.entity_id
                    + "?inc=tags+url-rels+artist-credits&fmt=json"@
            } else {
                "https://musicbrainz.org/ws/2/release/"@ + s.entity_id
                    + "?inc=labels+release-groups+url-rels+recordings+artist-credits+media&fmt=json"@
            },
        ),
{
}

/// With a token, Discogs is asked, with `Discogs token=` and the token,
/// for what the MusicBrainz document links to: a linked release at
/// `https://api.discogs.com/releases/` and its id, a linked master at
/// `https://api.discogs.com/masters/` and its id.
pub proof fn law_discogs_asked_by_link(s: FetchV, tok: Seq<char>, link: Seq<char>)
    requires
        s.phase is AwaitToken,
        tok.len() > 0,
        discogs_relation(s.primary) == Some(link),
    ensures
        discogs_target_spec(link) matches DiscogsTargetV::Release(id) ==> step_spec(
            s,
            FetchEventV::TokenLoaded(tok),
        ).1 == FetchActionV::GetAuthorized("https://api.discogs.com/releases/"@ + id, "Discogs token="@ + tok),
        discogs_target_spec(link) matches DiscogsTargetV::Master(id) ==> step_spec(
            s,
            FetchEventV::TokenLoaded(tok),
        ).1 == FetchActionV::GetAuthorized("https://api.discogs.com/masters/"@ + id, "Discogs token="@ + tok),
{
}

/// A Discogs release that names its master (`master_id`) is followed, after
/// a pause, by a request for that master at
/// `https://api.discogs.com/masters/` and the id in decimal, with the same
/// token.
pub proof fn law_master_asked_after_release(s: FetchV, rel: JsonV, m: i64)
    requires
        s.phase is AwaitDiscogsRelease,
        oi64(jget(rel, "master_id"@)) == Some(m),
    ensures
        step_spec(s, FetchEventV::Reply(HttpReplyV::Body(rel))).1 == FetchActionV::Pause(1),
        step_spec(step_spec(s, FetchEventV::Reply(HttpReplyV::Body(rel))).0, FetchEventV::Paused).1
            == FetchActionV::GetAuthorized("https://api.discogs.com/masters/"@ + signed_decimal(m as int), s.auth),
{
}

// ---------------------------------------------------------------------------
// The Discogs token file
// ---------------------------------------------------------------------------

/// The file that may hold the Discogs token: `.secrets/discogs.env` under
/// the home directory, or under the working directory without one.
pub open spec fn discogs_env_spec(home: Option<Seq<char>>) -> Seq<char> {
    path_join(
        match home {
            Some(h) => h,
            None => "."@,
        },
        ".secrets/discogs.env"@,
    )
}

/// The token file for a given home directory.
pub fn discogs_env_file_with_home(home: Option<String>) -> (r: String)
    ensures
        r@ == discogs_env_spec(opt_string_view(home)),
{
    match home {
        Some(h) => join_path(h.as_str(), ".secrets/discogs.env"),
        None => join_path(".", ".secrets/discogs.env"),
    }
}

/// The token file for the current user.
pub fn discogs_env_file() -> (r: String)
    ensures
        exists|home: Option<Seq<char>>| r@ == discogs_env_spec(home),
{
    let home = home_directory();
    let ghost hv = opt_string_view(home);
    let r = discogs_env_file_with_home(home);
    assert(r@ == discogs_env_spec(hv));
    r
}

} // verus!