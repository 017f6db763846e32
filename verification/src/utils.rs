//! Small helpers shared by the commands: home-relative paths, file names,
//! track sort keys, artist credits and year-month dates.
use vstd::prelude::*;
use crate::json::{jget, oarr, oget, ostr, opt_str_view, opt_view, str_opt, get_opt, Json, JsonV, json_views};
use crate::text::{
    ascii_alnum, chars_of, first_piece, has_prefix, is_ascii_alnum, is_ascii_digit, is_ascii_lower,
    is_ascii_upper, join, join_spec,
    keep_non_empty, non_empty, owned, parse_u32, parse_u32_spec, push_char, push_str,
    split_char, split_spec, starts_with, str_eq, string_from_range,
};

verus! {

// ---------------------------------------------------------------------------
// Trusted items from std and `dirs`
// ---------------------------------------------------------------------------

/// What `str::to_lowercase` returns for a string (full Unicode lower-casing).
pub uninterp spec fn lowercase(s: Seq<char>) -> Seq<char>;

/// A text of lower-case ASCII letters, ASCII digits and dashes.
pub open spec fn lower_ascii_slug_chars(s: Seq<char>) -> bool {
    forall|i: int|
        0 <= i < s.len() ==> is_ascii_lower(#[trigger] s[i]) || is_ascii_digit(s[i]) || s[i] == '-'
}

/// A character lower-cased the ASCII way: `A`-`Z` to `a`-`z`, any other
/// character kept.
pub open spec fn ascii_lower_char(c: char) -> char {
    if is_ascii_upper(c) {
        ((c as u32) + 32) as char
    } else {
        c
    }
}

/// `str::to_lowercase`: its result is the Unicode lower-case form of its
/// argument, named by [`lowercase`]. On ASCII text it is the ASCII
/// lower-casing: an ASCII letter's lower-case mapping is its lower-case
/// letter, and other ASCII characters have none, so `char::to_lowercase`
/// yields them unchanged. No ASCII upper-case letter is left in any
/// result, and a text of lower-case ASCII letters, digits and dashes comes
/// back unchanged. Nothing more is stated of it.
#[verifier::external_body]
pub(crate) fn to_lowercase(s: &str) -> (r: String)
    ensures
        r@ == lowercase(s@),
        forall|i: int| 0 <= i < r@.len() ==> !is_ascii_upper(#[trigger] r@[i]),
        lower_ascii_slug_chars(s@) ==> r@ == s@,
        ascii_text(s@) ==> r@ == s@.map_values(
            |c: char| ascii_lower_char(c),
        ),
{
    s.to_lowercase()
}

/// What `char::is_alphanumeric` says of a character (Unicode Alphabetic or
/// Numeric).
pub uninterp spec fn alphanumeric(c: char) -> bool;

/// `char::is_alphanumeric`, named by [`alphanumeric`]; nothing more is
/// stated of it.
#[verifier::external_body]
pub(crate) fn is_alphanumeric(c: char) -> (r: bool)
    ensures
        r == alphanumeric(c),
{
    c.is_alphanumeric()
}

/// What `char::is_numeric` says of a character (Unicode Nd, Nl or No).
pub uninterp spec fn numeric(c: char) -> bool;

/// `char::is_numeric`, named by [`numeric`]; nothing more is stated of it.
#[verifier::external_body]
pub(crate) fn is_numeric(c: char) -> (r: bool)
    ensures
        r == numeric(c),
{
    c.is_numeric()
}

/// `dirs::home_dir`: the user's home directory, read from the environment;
/// it may differ from call to call, so nothing is stated of it.
#[verifier::external_body]
pub(crate) fn home_directory() -> (r: Option<String>) {
    dirs::home_dir().map(|p| p.to_string_lossy().into_owned())
}

// ---------------------------------------------------------------------------
// Paths
// ---------------------------------------------------------------------------

/// `base` joined with `rel` as `Path::join` does on Unix: an absolute `rel`
/// replaces `base`; otherwise a `/` separates them unless `base` is empty
/// or already ends with one.
pub open spec fn path_join(base: Seq<char>, rel: Seq<char>) -> Seq<char> {
    if rel.len() > 0 && rel[0] == '/' {
        rel
    } else if base.len() == 0 {
        rel
    } else if base.last() == '/' {
        base + rel
    } else {
        base + seq!['/'] + rel
    }
}

pub fn join_path(base: &str, rel: &str) -> (r: String)
    ensures
        r@ == path_join(base@, rel@),
{
    let rc = chars_of(rel);
    if rc.len() > 0 && rc[0] == '/' {
        return owned(rel);
    }
    let bc = chars_of(base);
    if bc.len() == 0 {
        return owned(rel);
    }
    let mut r = owned(base);
    if bc[bc.len() - 1] != '/' {
        push_char(&mut r, '/');
    }
    push_str(&mut r, rel);
    r
}

/// A path with a leading `~` resolved against `home`: `~` alone is the home
/// directory, `~/rest` is `rest` inside it; other paths, and every path when
/// no home directory is known, stay as they are.
pub open spec fn expand_spec(path: Seq<char>, home: Option<Seq<char>>) -> Seq<char> {
    match home {
        Some(h) => if path == seq!['~'] {
            h
        } else if starts_with(path, seq!['~', '/']) {
            path_join(h, path.skip(2))
        } else {
            path
        },
        None => path,
    }
}

pub open spec fn opt_string_view(o: Option<String>) -> Option<Seq<char>> {
    match o {
        Some(s) => Some(s@),
        None => None,
    }
}

/// `path` relative to `base` when `base` is one of its leading
/// directories (`Path::strip_prefix` on normalized absolute paths), else
/// `path` itself.
pub open spec fn relative_spec(path: Seq<char>, base: Seq<char>) -> Seq<char> {
    if path == base {
        Seq::empty()
    } else if base == seq!['/'] && path.len() > 0 && path[0] == '/' {
        path.skip(1)
    } else if path.len() > base.len() && path.take(base.len() as int) == base && path[base.len() as int]
        == '/' {
        path.skip(base.len() as int + 1)
    } else {
        path
    }
}

/// `path` relative to `base` (both normalized and absolute), or `path`
/// when it lies outside `base`.
pub fn relative_path(path: &str, base: &str) -> (r: String)
    ensures
        r@ == relative_spec(path@, base@),
{
    let pc = chars_of(path);
    let bc = chars_of(base);
    if str_eq(path, base) {
        return String::new();
    }
    if bc.len() == 1 && bc[0] == '/' && pc.len() > 0 && pc[0] == '/' {
        assert(base@ =~= seq!['/']);
        let r = string_from_range(&pc, 1, pc.len());
        assert(r@ =~= path@.skip(1));
        return r;
    }
    if bc.len() == 1 && bc[0] == '/' {
        assert(base@ =~= seq!['/']);
    } else {
        assert(base@ != seq!['/']) by {
            if base@ == seq!['/'] {
                assert(bc@[0] == '/');
            }
        }
    }
    if pc.len() > bc.len() && has_prefix(path, base) && pc[bc.len()] == '/' {
        let r = string_from_range(&pc, bc.len() + 1, pc.len());
        assert(r@ =~= path@.skip(bc.len() + 1));
        return r;
    }
    owned(path)
}

/// Resolves a leading `~` against the given home directory.
pub fn expand_path_with_home(path_str: &str, home: Option<String>) -> (r: String)
    ensures
        r@ == expand_spec(path_str@, opt_string_view(home)),
{
    match home {
        Some(h) => {
            let cs = chars_of(path_str);
            if cs.len() == 1 && cs[0] == '~' {
                assert(path_str@ =~= seq!['~']);
                return h;
            }
            let tilde_slash = has_prefix(path_str, "~/");
            proof {
                reveal_strlit("~/");
                assert("~/"@ =~= seq!['~', '/']);
            }
            if tilde_slash {
                let rest = string_from_range(&cs, 2, cs.len());
                assert(rest@ =~= path_str@.skip(2));
                join_path(h.as_str(), rest.as_str())
            } else {
                owned(path_str)
            }
        },
        None => owned(path_str),
    }
}

/// Resolves a leading `~` against the current user's home directory.
pub fn expand_path(path_str: &str) -> (r: String)
    ensures
        exists|home: Option<Seq<char>>| r@ == expand_spec(path_str@, home),
        path_str@.len() == 0 || path_str@[0] != '~' ==> r@ == path_str@,
{
    let home = home_directory();
    let ghost hv = opt_string_view(home);
    let r = expand_path_with_home(path_str, home);
    assert(r@ == expand_spec(path_str@, hv));
    r
}

// ---------------------------------------------------------------------------
// File names
// ---------------------------------------------------------------------------

/// Keeps ASCII letters and digits and turns every other character into `-`.
pub open spec fn dash_non_alnum(s: Seq<char>) -> Seq<char> {
    s.map_values(|c: char| if is_ascii_alnum(c) { c } else { '-' })
}

/// The runs of ASCII letters and digits of a text, joined by single
/// dashes.
pub open spec fn slug_of(t: Seq<char>) -> Seq<char> {
    join_spec(non_empty(split_spec(dash_non_alnum(t), '-')), seq!['-'])
}

/// The runs of ASCII letters and digits of the lower-cased name, joined by
/// single dashes.
pub open spec fn sanitize_spec(name: Seq<char>) -> Seq<char> {
    slug_of(lowercase(name))
}

/// A text of ASCII characters only.
pub open spec fn ascii_text(s: Seq<char>) -> bool {
    forall|i: int| 0 <= i < s.len() ==> (#[trigger] s[i] as u32) < 128
}

fn dash_non_alnum_exec(s: &str) -> (r: String)
    ensures
        r@ == dash_non_alnum(s@),
{
    let cs = chars_of(s);
    let mut r = String::new();
    let mut i: usize = 0;
    while i < cs.len()
        invariant
            i <= cs.len(),
            cs@ == s@,
            r@ == dash_non_alnum(s@.take(i as int)),
        decreases cs.len() - i,
    {
        let c = cs[i];
        if ascii_alnum(c) {
            push_char(&mut r, c);
        } else {
            push_char(&mut r, '-');
        }
        assert(dash_non_alnum(s@.take(i + 1)) =~= dash_non_alnum(s@.take(i as int)).push(
            if is_ascii_alnum(c) {
                c
            } else {
                '-'
            },
        ));
        i = i + 1;
    }
    assert(s@.take(cs.len() as int) =~= s@);
    r
}

/// A file-name-safe slug of `name`: lower-case ASCII letters and digits
/// in runs joined by single dashes. Such a slug is its own sanitized name,
/// so sanitizing twice is sanitizing once.
pub fn sanitize_filename(name: &str) -> (r: String)
    ensures
        r@ == sanitize_spec(name@),
        is_slug(r@),
        lower_ascii_slug_chars(r@),
        is_slug(name@) && lower_ascii_slug_chars(name@) ==> r@ == name@,
        ascii_text(name@) ==> r@ == slug_of(name@.map_values(|c: char| ascii_lower_char(c))),
{
    let lower = to_lowercase(name);
    proof {
        let t = dash_non_alnum(lower@);
        assert(no_ascii_upper(t)) by {
            assert forall|i: int| 0 <= i < t.len() implies !is_ascii_upper(#[trigger] t[i]) by {
                assert(!is_ascii_upper(lower@[i]));
            }
        }
        lemma_slug_lower(t);
        law_sanitized_is_slug(name@);
    }
    proof {
        if is_slug(name@) && lower_ascii_slug_chars(name@) {
            lemma_slug_fixed(name@);
        }
    }
    let dashed = dash_non_alnum_exec(lower.as_str());
    let pieces = split_char(dashed.as_str(), '-');
    let kept = keep_non_empty(pieces);
    proof {
        reveal_strlit("-");
        assert("-"@ =~= seq!['-']);
    }
    join(&kept, "-")
}

// ---------------------------------------------------------------------------
// Track ordering
// ---------------------------------------------------------------------------

/// The sort key of a track: `(0, n, "")` when its track-number tag starts
/// with a number `n` (the part before any `/`), else `(1, 0, file name)`.
pub open spec fn sort_key_spec(track_number: Option<Seq<char>>, file_name: Seq<char>) -> (
    u8,
    u32,
    Seq<char>,
) {
    match track_number {
        Some(t) => match parse_u32_spec(split_spec(t, '/')[0]) {
            Some(n) => (0, n, Seq::empty()),
            None => (1, 0, file_name),
        },
        None => (1, 0, file_name),
    }
}

/// Sort key of a track from the first value of its `TRACKNUMBER` tag (if
/// the file has one) and its file name.
pub fn get_sort_key(track_number: Option<&str>, file_name: &str) -> (r: (u8, u32, String))
    ensures
        (r.0, r.1, r.2@) == sort_key_spec(opt_str_view(track_number), file_name@),
{
    if let Some(t) = track_number {
        let num_part = first_piece(t, '/');
        if let Some(n) = parse_u32(num_part.as_str()) {
            return (0, n, String::new());
        }
    }
    (1, 0, owned(file_name))
}

// ---------------------------------------------------------------------------
// Artist credits
// ---------------------------------------------------------------------------

/// The text one credit contributes: its `name` (or else its artist's
/// `name`), followed by its `joinphrase`.
pub open spec fn credit_text(credit: JsonV) -> Seq<char> {
    let name = match ostr(jget(credit, seq!['n', 'a', 'm', 'e'])) {
        Some(n) => n,
        None => match ostr(oget(jget(credit, seq!['a', 'r', 't', 'i', 's', 't']), seq!['n', 'a', 'm', 'e'])) {
            Some(n) => n,
            None => Seq::empty(),
        },
    };
    let join = match ostr(jget(credit, seq!['j', 'o', 'i', 'n', 'p', 'h', 'r', 'a', 's', 'e'])) {
        Some(j) => j,
        None => Seq::empty(),
    };
    name + join
}

pub open spec fn credits_text(credits: Seq<JsonV>) -> Seq<char>
    decreases credits.len(),
{
    if credits.len() == 0 {
        Seq::empty()
    } else {
        credits_text(credits.drop_last()) + credit_text(credits.last())
    }
}

/// The artist line of an artist-credit array; empty when there is none.
pub open spec fn join_artists_spec(artist_credit: Option<JsonV>) -> Seq<char> {
    match oarr(artist_credit) {
        Some(credits) => credits_text(credits),
        None => Seq::empty(),
    }
}

pub fn join_artists(artist_credit: Option<&Json>) -> (r: String)
    ensures
        r@ == join_artists_spec(opt_view(artist_credit)),
{
    let mut parts = String::new();
    let credits = match artist_credit {
        Some(c) => c.as_array(),
        None => None,
    };
    if let Some(credits) = credits {
        let ghost cv = json_views(credits@);
        let mut i: usize = 0;
        while i < credits.len()
            invariant
                i <= credits.len(),
                cv == json_views(credits@),
                parts@ == credits_text(cv.take(i as int)),
            decreases credits.len() - i,
        {
            let credit = &credits[i];
            assert(cv[i as int] == credit@);
            assert(cv.take(i + 1).drop_last() =~= cv.take(i as int));
            proof {
                reveal_strlit("name");
                reveal_strlit("artist");
                reveal_strlit("joinphrase");
                assert("name"@ =~= seq!['n', 'a', 'm', 'e']);
                assert("artist"@ =~= seq!['a', 'r', 't', 'i', 's', 't']);
                assert("joinphrase"@ =~= seq!['j', 'o', 'i', 'n', 'p', 'h', 'r', 'a', 's', 'e']);
            }
            let ghost before = parts@;
            if let Some(name) = str_opt(credit.get("name")) {
                push_str(&mut parts, name);
            } else if let Some(artist) = str_opt(get_opt(credit.get("artist"), "name")) {
                push_str(&mut parts, artist);
            }
            if let Some(j) = str_opt(credit.get("joinphrase")) {
                push_str(&mut parts, j);
            }
            assert(parts@ =~= before + credit_text(credit@));
            i = i + 1;
        }
        assert(cv.take(credits.len() as int) =~= cv);
    }
    parts
}

// ---------------------------------------------------------------------------
// Dates
// ---------------------------------------------------------------------------

/// The number of bytes a character takes in UTF-8.
pub open spec fn char_width(c: char) -> nat {
    if (c as u32) < 0x80 {
        1
    } else if (c as u32) < 0x800 {
        2
    } else if (c as u32) < 0x10000 {
        3
    } else {
        4
    }
}

/// The number of bytes a string takes in UTF-8 (`str::len`).
pub open spec fn utf8_len(s: Seq<char>) -> nat
    decreases s.len(),
{
    if s.len() == 0 {
        0
    } else {
        utf8_len(s.drop_last()) + char_width(s.last())
    }
}

/// Whether the first `n` bytes of `s` end on a character boundary.
pub open spec fn boundary_at(s: Seq<char>, n: nat) -> bool {
    exists|k: int| 0 <= k <= s.len() && #[trigger] utf8_len(s.take(k)) == n
}

/// The characters that make up the first `n` bytes of `s` (`&s[..n]`).
pub open spec fn utf8_prefix(s: Seq<char>, n: nat) -> Seq<char> {
    s.take(choose|k: int| 0 <= k <= s.len() && #[trigger] utf8_len(s.take(k)) == n)
}

/// Whether `&s[..n]` may be taken: `s` is shorter than `n` bytes, or byte
/// `n` starts a character.
pub open spec fn sliceable(s: Seq<char>, n: nat) -> bool {
    utf8_len(s) >= n ==> boundary_at(s, n)
}

/// Year and month of a date: the first seven bytes of a longer date, a
/// bare four-byte year with `-00` appended, anything else unchanged.
pub open spec fn year_month(s: Seq<char>) -> Seq<char> {
    if utf8_len(s) >= 7 {
        utf8_prefix(s, 7)
    } else if utf8_len(s) == 4 {
        s + seq!['-', '0', '0']
    } else {
        s
    }
}

pub proof fn lemma_utf8_len_prefix_mono(s: Seq<char>, a: int, b: int)
    requires
        0 <= a < b <= s.len(),
    ensures
        utf8_len(s.take(a)) < utf8_len(s.take(b)),
    decreases b - a,
{
    assert(s.take(b).drop_last() =~= s.take(b - 1));
    if a < b - 1 {
        lemma_utf8_len_prefix_mono(s, a, b - 1);
    }
}

pub proof fn lemma_utf8_len_append(a: Seq<char>, b: Seq<char>)
    ensures
        utf8_len(a + b) == utf8_len(a) + utf8_len(b),
    decreases b.len(),
{
    if b.len() > 0 {
        lemma_utf8_len_append(a, b.drop_last());
        assert((a + b).drop_last() =~= a + b.drop_last());
    } else {
        assert(a + b =~= a);
    }
}

fn char_width_exec(c: char) -> (w: usize)
    ensures
        w == char_width(c),
{
    let u = c as u32;
    if u < 0x80 {
        1
    } else if u < 0x800 {
        2
    } else if u < 0x10000 {
        3
    } else {
        4
    }
}

/// The first `n` bytes of `s` (`&s[..n]`), scanning characters; `None`
/// when `s` is shorter than `n` bytes.
pub(crate) fn prefix_bytes(s: &str, n: usize) -> (r: Option<String>)
    requires
        n <= 64,
        sliceable(s@, n as nat),
    ensures
        match r {
            Some(p) => utf8_len(s@) >= n && p@ == utf8_prefix(s@, n as nat),
            None => utf8_len(s@) < n,
        },
{
    let cs = chars_of(s);
    let mut total: usize = 0;
    let mut i: usize = 0;
    while i < cs.len() && total < n
        invariant
            cs@ == s@,
            i <= cs.len(),
            n <= 64,
            total == utf8_len(s@.take(i as int)),
            total <= n + 4,
            i > 0 ==> utf8_len(s@.take(i - 1)) < n,
        decreases cs.len() - i,
    {
        assert(s@.take(i + 1).drop_last() =~= s@.take(i as int));
        total = total + char_width_exec(cs[i]);
        i = i + 1;
    }
    let ghost sv = s@;
    if total >= n {
        proof {
            if i < sv.len() {
                lemma_utf8_len_prefix_mono(sv, i as int, sv.len() as int);
            }
            assert(sv.take(sv.len() as int) =~= sv);
            let k = choose|k: int| 0 <= k <= sv.len() && #[trigger] utf8_len(sv.take(k)) == n;
            if k < i && k < i - 1 {
                lemma_utf8_len_prefix_mono(sv, k, i - 1);
            }
            if k > i {
                lemma_utf8_len_prefix_mono(sv, i as int, k);
            }
            assert(k == i);
        }
        return Some(string_from_range(&cs, 0, i));
    }
    assert(sv.take(cs.len() as int) =~= sv);
    None
}

/// The UTF-8 length of `s`, or `cap` if that is smaller.
pub(crate) fn utf8_len_upto(s: &str, cap: usize) -> (r: usize)
    requires
        cap <= 64,
    ensures
        r == if utf8_len(s@) < cap { utf8_len(s@) } else { cap as nat },
{
    let cs = chars_of(s);
    let mut total: usize = 0;
    let mut i: usize = 0;
    while i < cs.len() && total < cap
        invariant
            cs@ == s@,
            i <= cs.len(),
            cap <= 64,
            total == utf8_len(s@.take(i as int)),
            total <= cap + 4,
        decreases cs.len() - i,
    {
        assert(s@.take(i + 1).drop_last() =~= s@.take(i as int));
        total = total + char_width_exec(cs[i]);
        i = i + 1;
    }
    proof {
        if i < s@.len() {
            lemma_utf8_len_prefix_mono(s@, i as int, s@.len() as int);
        }
        assert(s@.take(s@.len() as int) =~= s@);
    }
    if total < cap {
        total
    } else {
        cap
    }
}

/// Whether `&s[..n]` may be taken (see [`sliceable`]).
pub(crate) fn is_sliceable(s: &str, n: usize) -> (r: bool)
    requires
        n <= 64,
    ensures
        r == sliceable(s@, n as nat),
{
    let cs = chars_of(s);
    let mut total: usize = 0;
    let mut i: usize = 0;
    while i < cs.len() && total < n
        invariant
            cs@ == s@,
            i <= cs.len(),
            n <= 64,
            total == utf8_len(s@.take(i as int)),
            total <= n + 4,
            i > 0 ==> utf8_len(s@.take(i - 1)) < n,
        decreases cs.len() - i,
    {
        assert(s@.take(i + 1).drop_last() =~= s@.take(i as int));
        total = total + char_width_exec(cs[i]);
        i = i + 1;
    }
    let ghost sv = s@;
    proof {
        if i < sv.len() {
            lemma_utf8_len_prefix_mono(sv, i as int, sv.len() as int);
        }
        assert(sv.take(sv.len() as int) =~= sv);
    }
    if total < n {
        return true;
    }
    if total == n {
        assert(utf8_len(sv.take(i as int)) == n);
        return true;
    }
    proof {
        if boundary_at(sv, n as nat) {
            let k = choose|k: int| 0 <= k <= sv.len() && #[trigger] utf8_len(sv.take(k)) == n;
            if k < i && k < i - 1 {
                lemma_utf8_len_prefix_mono(sv, k, i - 1);
            }
            if k > i {
                lemma_utf8_len_prefix_mono(sv, i as int, k);
            }
        }
    }
    false
}

/// Shortens a date to `YYYY-MM` (see [`year_month`]). A date of seven bytes
/// or more must have a character boundary after its seventh byte.
pub fn fmt_yyyy_mm(date_str: &str) -> (r: String)
    requires
        sliceable(date_str@, 7),
    ensures
        r@ == year_month(date_str@),
{
    match prefix_bytes(date_str, 7) {
        Some(p) => p,
        None => {
            if utf8_len_upto(date_str, 8) == 4 {
                let mut r = owned(date_str);
                push_str(&mut r, "-00");
                proof {
                    reveal_strlit("-00");
                }
                assert(r@ =~= date_str@ + seq!['-', '0', '0']);
                r
            } else {
                owned(date_str)
            }
        },
    }
}


/// A string of exactly `n` bytes is its own `n`-byte prefix.
pub proof fn lemma_whole_prefix(t: Seq<char>, n: nat)
    requires
        utf8_len(t) == n,
    ensures
        boundary_at(t, n),
        utf8_prefix(t, n) == t,
{
    assert(t.take(t.len() as int) =~= t);
    assert(utf8_len(t.take(t.len() as int)) == n);
    let k = choose|k: int| 0 <= k <= t.len() && #[trigger] utf8_len(t.take(k)) == n;
    if k < t.len() {
        lemma_utf8_len_prefix_mono(t, k, t.len() as int);
    }
    assert(k == t.len());
}

/// Shortening a date to year and month twice shortens it once: a
/// `YYYY-MM` date is left as it is.
pub proof fn law_year_month_idempotent(s: Seq<char>)
    requires
        sliceable(s, 7),
    ensures
        sliceable(year_month(s), 7),
        year_month(year_month(s)) == year_month(s),
{
    if utf8_len(s) >= 7 {
        let k = choose|k: int| 0 <= k <= s.len() && #[trigger] utf8_len(s.take(k)) == 7;
        let t = s.take(k);
        assert(utf8_prefix(s, 7) == t);
        lemma_whole_prefix(t, 7);
    } else if utf8_len(s) == 4 {
        let t = s + seq!['-', '0', '0'];
        lemma_utf8_len_append(s, seq!['-', '0', '0']);
        reveal_with_fuel(utf8_len, 4);
        assert(seq!['-', '0', '0'].drop_last() =~= seq!['-', '0']);
        assert(seq!['-', '0'].drop_last() =~= seq!['-']);
        assert(seq!['-'].drop_last() =~= Seq::<char>::empty());
        assert(utf8_len(seq!['-', '0', '0']) == 3);
        lemma_whole_prefix(t, 7);
    }
}


/// A piece of letters and digits only.
pub open spec fn word_piece(p: Seq<char>) -> bool {
    forall|i: int| 0 <= i < p.len() ==> is_ascii_alnum(#[trigger] p[i])
}

/// Letters, digits and dashes only.
pub open spec fn dashed_word(t: Seq<char>) -> bool {
    forall|i: int| 0 <= i < t.len() ==> is_ascii_alnum(#[trigger] t[i]) || t[i] == '-'
}

/// A slug: ASCII letters and digits in runs joined by single dashes, with
/// no dash at either end.
pub open spec fn is_slug(s: Seq<char>) -> bool {
    &&& forall|i: int| 0 <= i < s.len() ==> is_ascii_alnum(#[trigger] s[i]) || s[i] == '-'
    &&& s.len() > 0 ==> s[0] != '-' && s.last() != '-'
    &&& forall|i: int| 0 <= i < s.len() - 1 && #[trigger] s[i] == '-' ==> s[i + 1] != '-'
}

pub proof fn lemma_split_words(t: Seq<char>)
    requires
        dashed_word(t),
    ensures
        forall|j: int| 0 <= j < split_spec(t, '-').len() ==> word_piece(#[trigger] split_spec(t, '-')[j]),
    decreases t.len(),
{
    if t.len() > 0 {
        let d = t.drop_last();
        assert(dashed_word(d)) by {
            assert forall|i: int| 0 <= i < d.len() implies is_ascii_alnum(#[trigger] d[i]) || d[i] == '-' by {
                assert(d[i] == t[i]);
            }
        }
        lemma_split_words(d);
        crate::text::lemma_split_nonempty(d, '-');
        let init = split_spec(d, '-');
        if t.last() != '-' {
            let last = init.last().push(t.last());
            assert(is_ascii_alnum(t[t.len() - 1]));
            assert(word_piece(init[init.len() - 1]));
            assert(word_piece(last)) by {
                assert forall|i: int| 0 <= i < last.len() implies is_ascii_alnum(#[trigger] last[i]) by {
                    if i < last.len() - 1 {
                        assert(last[i] == init.last()[i]);
                    }
                }
            }
            let up = init.update(init.len() - 1, last);
            assert(split_spec(t, '-') == up);
            assert forall|j: int| 0 <= j < up.len() implies word_piece(#[trigger] up[j]) by {
                if j < init.len() - 1 {
                    assert(up[j] == init[j]);
                }
            }
        } else {
            let pu = init.push(Seq::<char>::empty());
            assert(split_spec(t, '-') == pu);
            assert forall|j: int| 0 <= j < pu.len() implies word_piece(#[trigger] pu[j]) by {
                if j < init.len() {
                    assert(pu[j] == init[j]);
                }
            }
        }
    }
}

pub proof fn lemma_non_empty_words(v: Seq<Seq<char>>)
    requires
        forall|j: int| 0 <= j < v.len() ==> word_piece(#[trigger] v[j]),
    ensures
        forall|j: int|
            0 <= j < non_empty(v).len() ==> word_piece(#[trigger] non_empty(v)[j]) && non_empty(
                v,
            )[j].len() > 0,
    decreases v.len(),
{
    if v.len() > 0 {
        let d = v.drop_last();
        assert forall|j: int| 0 <= j < d.len() implies word_piece(#[trigger] d[j]) by {
            assert(d[j] == v[j]);
        }
        lemma_non_empty_words(d);
        if v.last().len() > 0 {
            let n = non_empty(d);
            let pn = n.push(v.last());
            assert(word_piece(v[v.len() - 1]));
            assert forall|j: int| 0 <= j < pn.len() implies word_piece(#[trigger] pn[j]) && pn[j].len()
                > 0 by {
                if j < n.len() {
                    assert(pn[j] == n[j]);
                }
            }
        }
    }
}

pub proof fn lemma_join_slug(v: Seq<Seq<char>>)
    requires
        forall|j: int| 0 <= j < v.len() ==> word_piece(#[trigger] v[j]) && v[j].len() > 0,
    ensures
        is_slug(join_spec(v, seq!['-'])),
        v.len() > 0 ==> join_spec(v, seq!['-']).len() > 0,
    decreases v.len(),
{
    if v.len() == 1 {
        assert(word_piece(v[0]));
        let p = v[0];
        assert forall|i: int| 0 <= i < p.len() implies !(#[trigger] p[i] == '-') by {
            assert(is_ascii_alnum(p[i]));
        }
        assert(is_ascii_alnum(p[0]));
        assert(is_ascii_alnum(p[p.len() - 1]));
    } else if v.len() > 1 {
        let d = v.drop_last();
        assert forall|j: int| 0 <= j < d.len() implies word_piece(#[trigger] d[j]) && d[j].len() > 0 by {
            assert(d[j] == v[j]);
        }
        lemma_join_slug(d);
        let a = join_spec(d, seq!['-']);
        let b = v.last();
        assert(word_piece(v[v.len() - 1]));
        let s = a + seq!['-'] + b;
        assert(join_spec(v, seq!['-']) == s);
        assert(forall|i: int| 0 <= i < b.len() ==> is_ascii_alnum(#[trigger] b[i]));
        assert forall|i: int| 0 <= i < s.len() implies is_ascii_alnum(#[trigger] s[i]) || s[i] == '-' by {
            if i < a.len() {
                assert(s[i] == a[i]);
            } else if i > a.len() {
                assert(s[i] == b[i - a.len() - 1]);
            }
        }
        assert(s[0] == a[0]);
        assert(s[s.len() - 1] == b[b.len() - 1]);
        assert(is_ascii_alnum(b[b.len() - 1]));
        assert forall|i: int| 0 <= i < s.len() - 1 && #[trigger] s[i] == '-' implies s[i + 1] != '-' by {
            if i < a.len() - 1 {
                assert(s[i] == a[i]);
                assert(s[i + 1] == a[i + 1]);
            } else if i == a.len() - 1 {
                assert(s[i] == a[a.len() - 1]);
            } else if i == a.len() {
                assert(s[i + 1] == b[0]);
                assert(is_ascii_alnum(b[0]));
            } else {
                assert(s[i] == b[i - a.len() - 1]);
                assert(is_ascii_alnum(b[i - a.len() - 1]));
            }
        }
    }
}

/// A sanitized file name is a slug: ASCII letters and digits in runs
/// joined by single dashes, with no dash at either end (and so no `/`,
/// no `.`, no space).
pub proof fn law_sanitized_is_slug(name: Seq<char>)
    ensures
        is_slug(sanitize_spec(name)),
{
    let t = dash_non_alnum(lowercase(name));
    assert(dashed_word(t));
    lemma_split_words(t);
    lemma_non_empty_words(split_spec(t, '-'));
    lemma_join_slug(non_empty(split_spec(t, '-')));
    assert(seq!['-'] == seq!['-']);
}


/// Without an ASCII upper-case letter.
pub open spec fn no_ascii_upper(s: Seq<char>) -> bool {
    forall|i: int| 0 <= i < s.len() ==> !is_ascii_upper(#[trigger] s[i])
}

/// Joining the pieces of a split with the separator gives back the text.
pub proof fn lemma_join_split(t: Seq<char>, c: char)
    ensures
        join_spec(split_spec(t, c), seq![c]) == t,
    decreases t.len(),
{
    if t.len() == 0 {
        assert(split_spec(t, c) =~= seq![Seq::<char>::empty()]);
        assert(t =~= Seq::<char>::empty());
    } else {
        let d = t.drop_last();
        lemma_join_split(d, c);
        crate::text::lemma_split_nonempty(d, c);
        let init = split_spec(d, c);
        if t.last() == c {
            let v = init.push(Seq::<char>::empty());
            assert(v.drop_last() =~= init);
            assert(join_spec(v, seq![c]) == join_spec(init, seq![c]) + seq![c] + Seq::<char>::empty());
            assert(d + seq![c] + Seq::<char>::empty() =~= t);
        } else {
            let ch = t.last();
            let v = init.update(init.len() - 1, init.last().push(ch));
            if init.len() == 1 {
                assert(join_spec(init, seq![c]) == init[0]);
                assert(join_spec(v, seq![c]) == v[0]);
                assert(v[0] =~= init[0].push(ch));
                assert(d.push(ch) =~= t);
            } else {
                assert(v.drop_last() =~= init.drop_last());
                assert(join_spec(v, seq![c]) == join_spec(init.drop_last(), seq![c]) + seq![c] + init.last().push(ch));
                assert(join_spec(init, seq![c]) == join_spec(init.drop_last(), seq![c]) + seq![c] + init.last());
                assert(join_spec(init.drop_last(), seq![c]) + seq![c] + init.last().push(ch)
                    =~= (join_spec(init.drop_last(), seq![c]) + seq![c] + init.last()).push(ch));
                assert(d.push(ch) =~= t);
            }
        }
    }
}

/// The pieces of a text without a leading or doubled dash are non-empty
/// but maybe the last, which is empty exactly when the text is empty or
/// ends with a dash.
pub proof fn lemma_split_shape(u: Seq<char>)
    requires
        u.len() > 0 ==> u[0] != '-',
        forall|i: int| 0 <= i < u.len() - 1 && #[trigger] u[i] == '-' ==> u[i + 1] != '-',
    ensures
        forall|j: int|
            0 <= j < split_spec(u, '-').len() - 1 ==> (#[trigger] split_spec(u, '-')[j]).len() > 0,
        split_spec(u, '-').len() >= 1,
        (split_spec(u, '-').last().len() == 0) == (u.len() == 0 || u.last() == '-'),
    decreases u.len(),
{
    crate::text::lemma_split_nonempty(u, '-');
    if u.len() > 0 {
        let d = u.drop_last();
        assert forall|i: int| 0 <= i < d.len() - 1 && #[trigger] d[i] == '-' implies d[i + 1] != '-' by {
            assert(d[i] == u[i] && d[i + 1] == u[i + 1]);
        }
        if d.len() > 0 {
            assert(d[0] == u[0]);
        }
        lemma_split_shape(d);
        let init = split_spec(d, '-');
        if u.last() == '-' {
            if d.len() > 0 {
                assert(d.last() == u[u.len() - 2]);
            }
            let v = init.push(Seq::<char>::empty());
            assert forall|j: int| 0 <= j < v.len() - 1 implies (#[trigger] v[j]).len() > 0 by {
                assert(v[j] == init[j]);
            }
        } else {
            let v = init.update(init.len() - 1, init.last().push(u.last()));
            assert forall|j: int| 0 <= j < v.len() - 1 implies (#[trigger] v[j]).len() > 0 by {
                assert(v[j] == init[j]);
            }
        }
    }
}

pub proof fn lemma_non_empty_all(v: Seq<Seq<char>>)
    requires
        forall|j: int| 0 <= j < v.len() ==> (#[trigger] v[j]).len() > 0,
    ensures
        non_empty(v) == v,
    decreases v.len(),
{
    if v.len() > 0 {
        let d = v.drop_last();
        assert forall|j: int| 0 <= j < d.len() implies (#[trigger] d[j]).len() > 0 by {
            assert(d[j] == v[j]);
        }
        lemma_non_empty_all(d);
        assert(v[v.len() - 1].len() > 0);
        assert(d.push(v.last()) =~= v);
    }
}

/// A slug is its own slug: splitting at its dashes, dropping empty
/// pieces and joining again gives it back.
pub proof fn lemma_slug_rejoins(t: Seq<char>)
    requires
        is_slug(t),
    ensures
        join_spec(non_empty(split_spec(t, '-')), seq!['-']) == t,
{
    lemma_split_shape(t);
    lemma_join_split(t, '-');
    if t.len() == 0 {
        assert(split_spec(t, '-') =~= seq![Seq::<char>::empty()]);
        let one = seq![Seq::<char>::empty()];
        assert(one.drop_last() =~= Seq::<Seq<char>>::empty());
        assert(one.last().len() == 0);
        assert(non_empty(one) == non_empty(one.drop_last()));
        assert(non_empty(one) =~= Seq::<Seq<char>>::empty());
        assert(t =~= Seq::<char>::empty());
    } else {
        let v = split_spec(t, '-');
        assert forall|j: int| 0 <= j < v.len() implies (#[trigger] v[j]).len() > 0 by {
            if j == v.len() - 1 {
                assert(v[j] == v.last());
            }
        }
        lemma_non_empty_all(v);
    }
}

/// Lower-case letters, digits and dashes stay so through splitting,
/// dropping empty pieces and joining with a dash.
pub proof fn lemma_slug_lower(t: Seq<char>)
    requires
        forall|i: int| 0 <= i < t.len() ==> is_ascii_alnum(#[trigger] t[i]) || t[i] == '-',
        no_ascii_upper(t),
    ensures
        lower_ascii_slug_chars(join_spec(non_empty(split_spec(t, '-')), seq!['-'])),
{
    lemma_chars_split_join(t);
    let r = join_spec(non_empty(split_spec(t, '-')), seq!['-']);
    assert forall|i: int| 0 <= i < r.len() implies is_ascii_lower(#[trigger] r[i]) || is_ascii_digit(r[i]) || r[i] == '-' by {
        if r[i] != '-' {
            let k = choose|k: int| 0 <= k < t.len() && t[k] == r[i];
            assert(is_ascii_alnum(t[k]));
            assert(!is_ascii_upper(t[k]));
        }
    }
}

/// Every character of the rejoined pieces is a character of the text or
/// the dash.
pub proof fn lemma_chars_split_join(t: Seq<char>)
    ensures
        forall|i: int|
            0 <= i < join_spec(non_empty(split_spec(t, '-')), seq!['-']).len() ==> {
                let ch = #[trigger] join_spec(non_empty(split_spec(t, '-')), seq!['-'])[i];
                ch == '-' || exists|k: int| 0 <= k < t.len() && t[k] == ch
            },
{
    lemma_pieces_chars(t);
    let v = non_empty(split_spec(t, '-'));
    lemma_non_empty_chars(split_spec(t, '-'), t);
    lemma_join_chars(v, t);
}

/// Characters of text `t`.
pub open spec fn in_text(ch: char, t: Seq<char>) -> bool {
    exists|k: int| 0 <= k < t.len() && t[k] == ch
}

/// Every piece's characters are characters of `t`.
pub open spec fn pieces_of(v: Seq<Seq<char>>, t: Seq<char>) -> bool {
    forall|j: int, i: int| 0 <= j < v.len() && 0 <= i < v[j].len() ==> in_text(#[trigger] v[j][i], t)
}

pub proof fn lemma_pieces_chars(t: Seq<char>)
    ensures
        pieces_of(split_spec(t, '-'), t),
    decreases t.len(),
{
    if t.len() > 0 {
        let d = t.drop_last();
        lemma_pieces_chars(d);
        crate::text::lemma_split_nonempty(d, '-');
        let init = split_spec(d, '-');
        assert forall|j: int, i: int| 0 <= j < init.len() && 0 <= i < init[j].len() implies in_text(#[trigger] init[j][i], t) by {
            assert(in_text(init[j][i], d));
            let k = choose|k: int| 0 <= k < d.len() && d[k] == init[j][i];
            assert(t[k] == d[k]);
        }
        if t.last() != '-' {
            let v = init.update(init.len() - 1, init.last().push(t.last()));
            assert forall|j: int, i: int| 0 <= j < v.len() && 0 <= i < v[j].len() implies in_text(#[trigger] v[j][i], t) by {
                if j == init.len() - 1 && i == init.last().len() {
                    assert(t[t.len() - 1] == v[j][i]);
                } else if j == init.len() - 1 {
                    assert(v[j][i] == init[j][i]);
                } else {
                    assert(v[j] == init[j]);
                }
            }
        } else {
            let v = init.push(Seq::<char>::empty());
            assert forall|j: int, i: int| 0 <= j < v.len() && 0 <= i < v[j].len() implies in_text(#[trigger] v[j][i], t) by {
                assert(v[j] == init[j]);
            }
        }
    }
}

pub proof fn lemma_non_empty_chars(v: Seq<Seq<char>>, t: Seq<char>)
    requires
        pieces_of(v, t),
    ensures
        pieces_of(non_empty(v), t),
    decreases v.len(),
{
    if v.len() > 0 {
        let d = v.drop_last();
        assert forall|j: int, i: int| 0 <= j < d.len() && 0 <= i < d[j].len() implies in_text(#[trigger] d[j][i], t) by {
            assert(d[j] == v[j]);
        }
        lemma_non_empty_chars(d, t);
        if v.last().len() > 0 {
            let n = non_empty(d);
            let pn = n.push(v.last());
            assert forall|j: int, i: int| 0 <= j < pn.len() && 0 <= i < pn[j].len() implies in_text(#[trigger] pn[j][i], t) by {
                if j < n.len() {
                    assert(pn[j] == n[j]);
                } else {
                    assert(pn[j] == v[v.len() - 1]);
                }
            }
        }
    }
}

pub proof fn lemma_join_chars(v: Seq<Seq<char>>, t: Seq<char>)
    requires
        pieces_of(v, t),
    ensures
        forall|i: int|
            0 <= i < join_spec(v, seq!['-']).len() ==> {
                let ch = #[trigger] join_spec(v, seq!['-'])[i];
                ch == '-' || exists|k: int| 0 <= k < t.len() && t[k] == ch
            },
    decreases v.len(),
{
    if v.len() == 1 {
        assert forall|i: int| 0 <= i < v[0].len() implies in_text(#[trigger] v[0][i], t) by {}
    } else if v.len() > 1 {
        let d = v.drop_last();
        assert forall|j: int, i: int| 0 <= j < d.len() && 0 <= i < d[j].len() implies in_text(#[trigger] d[j][i], t) by {
            assert(d[j] == v[j]);
        }
        lemma_join_chars(d, t);
        let a = join_spec(d, seq!['-']);
        let b = v.last();
        let s = a + seq!['-'] + b;
        assert(join_spec(v, seq!['-']) == s);
        assert forall|i: int| 0 <= i < s.len() implies (#[trigger] s[i] == '-' || in_text(s[i], t)) by {
            if i < a.len() {
                assert(s[i] == a[i]);
            } else if i > a.len() {
                assert(s[i] == b[i - a.len() - 1]);
                assert(in_text(v[v.len() - 1][i - a.len() - 1], t));
            }
        }
    }
}

/// A slug of lower-case letters, digits and dashes that lower-casing
/// leaves alone is its own sanitized name.
pub proof fn lemma_slug_fixed(s: Seq<char>)
    requires
        is_slug(s),
        lowercase(s) == s,
    ensures
        sanitize_spec(s) == s,
{
    assert(dash_non_alnum(s) =~= s) by {
        assert forall|i: int| 0 <= i < s.len() implies dash_non_alnum(s)[i] == s[i] by {
            assert(is_ascii_alnum(s[i]) || s[i] == '-');
        }
    }
    lemma_slug_rejoins(s);
}

} // verus!
