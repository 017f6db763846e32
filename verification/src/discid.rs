//! The CUETools database TOC id of a disc ripped to one FLAC file per
//! track: the tracks in play order, their start sectors, and a hash of
//! the table of contents.
use vstd::prelude::*;
use crate::digest::{base64_alphabet, base64_padding, base64_spec, base64_standard, sha1_digest, sha1_spec};
use crate::natural_order::{
    compare_paths, insertion_sort_by, lemma_insert_by_at, lemma_insertion_sort_independent,
    order_laws, path_order,
};
use crate::text::{hex8, law_hex8_digits, owned, push_char, push_hex8, push_str, replace_char, replace_char_spec};

verus! {

/// A FLAC file of the disc: its path, its sort key (see
/// [`crate::utils::get_sort_key`]) and its sample count when its stream
/// info could be read.
pub struct DiscTrack {
    pub path: String,
    pub sort_key: (u8, u32, String),
    pub total_samples: Option<u64>,
}

/// Mathematical counterpart of [`DiscTrack`].
pub struct DiscTrackV {
    pub path: Seq<char>,
    pub rank: u8,
    pub number: u32,
    pub name: Seq<char>,
    pub total_samples: Option<u64>,
}

impl View for DiscTrack {
    type V = DiscTrackV;

    open spec fn view(&self) -> DiscTrackV {
        DiscTrackV {
            path: self.path@,
            rank: self.sort_key.0,
            number: self.sort_key.1,
            name: self.sort_key.2@,
            total_samples: self.total_samples,
        }
    }
}

pub open spec fn disc_views(v: Seq<DiscTrack>) -> Seq<DiscTrackV> {
    v.map_values(|t: DiscTrack| t@)
}

/// Play order: by the first two parts of the sort key, then by the
/// natural order of the paths; -1, 0 or 1.
pub open spec fn play_order(a: DiscTrackV, b: DiscTrackV) -> i8 {
    if a.rank < b.rank {
        -1i8
    } else if a.rank > b.rank {
        1i8
    } else if a.number < b.number {
        -1i8
    } else if a.number > b.number {
        1i8
    } else {
        path_order(a.path, b.path)
    }
}

/// Adjacent tracks are in play order.
pub open spec fn in_play_order(s: Seq<DiscTrackV>) -> bool {
    forall|i: int| 0 <= i < s.len() - 1 ==> play_order(#[trigger] s[i], s[i + 1]) <= 0
}

/// Tracks in play order come numbered first (sort key rank 0, from a
/// track-number tag) and then the others, and among either kind by
/// increasing track number: for any two positions `i <= j`, the rank at
/// `i` is not above that at `j`, and with equal ranks neither is the
/// number.
pub proof fn law_play_order_by_number(s: Seq<DiscTrackV>, i: int, j: int)
    requires
        in_play_order(s),
        0 <= i <= j < s.len(),
    ensures
        s[i].rank <= s[j].rank,
        s[i].rank == s[j].rank ==> s[i].number <= s[j].number,
    decreases j - i,
{
    if i < j {
        law_play_order_by_number(s, i, j - 1);
        assert(play_order(s[j - 1], s[j]) <= 0);
    }
}

fn compare_tracks(a: &DiscTrack, b: &DiscTrack) -> (r: i8)
    ensures
        r == play_order(a@, b@),
        play_order(b@, a@) == -r,
{
    if a.sort_key.0 < b.sort_key.0 {
        -1
    } else if a.sort_key.0 > b.sort_key.0 {
        1
    } else if a.sort_key.1 < b.sort_key.1 {
        -1
    } else if a.sort_key.1 > b.sort_key.1 {
        1
    } else {
        compare_paths(a.path.as_str(), b.path.as_str())
    }
}

/// The number of tracks whose samples were read.
pub open spec fn read_count(s: Seq<DiscTrackV>) -> nat
    decreases s.len(),
{
    if s.len() == 0 {
        0
    } else {
        read_count(s.drop_last()) + if s.last().total_samples is Some { 1nat } else { 0nat }
    }
}

/// The sectors (588 samples each) of the tracks whose samples were read.
pub open spec fn track_sectors(s: Seq<DiscTrackV>) -> nat
    decreases s.len(),
{
    if s.len() == 0 {
        0
    } else {
        track_sectors(s.drop_last()) + match s.last().total_samples {
            Some(n) => (n / 588) as nat,
            None => 0nat,
        }
    }
}

pub proof fn lemma_sums_append(a: Seq<DiscTrackV>, b: Seq<DiscTrackV>)
    ensures
        read_count(a + b) == read_count(a) + read_count(b),
        track_sectors(a + b) == track_sectors(a) + track_sectors(b),
    decreases b.len(),
{
    if b.len() == 0 {
        assert(a + b =~= a);
    } else {
        lemma_sums_append(a, b.drop_last());
        assert((a + b).drop_last() =~= a + b.drop_last());
    }
}

pub proof fn lemma_sums_insert(s: Seq<DiscTrackV>, p: int, x: DiscTrackV)
    requires
        0 <= p <= s.len(),
    ensures
        read_count(s.insert(p, x)) == read_count(s) + read_count(seq![x]),
        track_sectors(s.insert(p, x)) == track_sectors(s) + track_sectors(seq![x]),
{
    let a = s.take(p);
    let b = s.skip(p);
    assert(s =~= a + b);
    assert(s.insert(p, x) =~= (a + seq![x]) + b);
    lemma_sums_append(a, b);
    lemma_sums_append(a + seq![x], b);
    lemma_sums_append(a, seq![x]);
}

/// Play order as a comparison.
pub open spec fn by_play_order() -> spec_fn(DiscTrackV, DiscTrackV) -> i8 {
    |a: DiscTrackV, b: DiscTrackV| play_order(a, b)
}

/// Tracks sorted into play order, stably: tracks that tie keep their
/// order.
pub open spec fn play_sort(v: Seq<DiscTrackV>) -> Seq<DiscTrackV> {
    insertion_sort_by(v, by_play_order())
}

/// The tracks in play order, found by insertion (see [`play_sort`]); the
/// readable tracks and their sectors are the same in number and sum.
#[verifier::rlimit(30)]
pub fn sort_disc_tracks(v: Vec<DiscTrack>) -> (r: Vec<DiscTrack>)
    ensures
        disc_views(r@) == play_sort(disc_views(v@)),
        disc_views(r@).to_multiset() == disc_views(v@).to_multiset(),
        in_play_order(disc_views(r@)),
        read_count(disc_views(r@)) == read_count(disc_views(v@)),
        track_sectors(disc_views(r@)) == track_sectors(disc_views(v@)),
{
    broadcast use vstd::seq_lib::group_to_multiset_ensures;

    let mut input = v;
    let ghost orig = disc_views(input@);
    let mut r: Vec<DiscTrack> = Vec::new();
    let mut consumed: usize = 0;
    while input.len() > 0
        invariant
            consumed + input.len() == orig.len(),
            orig.len() <= usize::MAX,
            disc_views(input@) == orig.skip(consumed as int),
            disc_views(r@).to_multiset() == orig.take(consumed as int).to_multiset(),
            in_play_order(disc_views(r@)),
            read_count(disc_views(r@)) == read_count(orig.take(consumed as int)),
            track_sectors(disc_views(r@)) == track_sectors(orig.take(consumed as int)),
            disc_views(r@) == play_sort(orig.take(consumed as int)),
        decreases input.len(),
    {
        let ghost old_in = input@;
        let x = input.remove(0);
        let ghost xv = x@;
        assert(input@ =~= old_in.remove(0));
        assert(xv == orig[consumed as int]) by {
            assert(disc_views(old_in)[0] == old_in[0]@);
            assert(orig.skip(consumed as int)[0] == orig[consumed as int]);
        }
        assert(disc_views(input@) =~= orig.skip(consumed + 1)) by {
            assert forall|j: int| 0 <= j < input@.len() implies disc_views(input@)[j] == orig.skip(
                consumed + 1,
            )[j] by {
                assert(input@[j] == old_in[j + 1]);
                assert(disc_views(old_in)[j + 1] == orig.skip(consumed as int)[j + 1]);
            }
        }
        let mut p = r.len();
        while p > 0 && compare_tracks(&r[p - 1], &x) > 0
            invariant
                p <= r.len(),
                xv == x@,
                forall|j: int|
                    p <= j < r.len() ==> play_order(#[trigger] r@[j]@, x@) > 0 && play_order(
                        x@,
                        r@[j]@,
                    ) < 0,
            decreases p,
        {
            p = p - 1;
        }
        let ghost before = disc_views(r@);
        proof {
            if p > 0 {
                assert(play_order(r@[p - 1]@, x@) <= 0);
            }
        }
        r.insert(p, x);
        assert(disc_views(r@) =~= before.insert(p as int, xv));
        proof {
            crate::natural_order::lemma_insert_multiset(before, p as int, xv);
            lemma_sums_insert(before, p as int, xv);
            assert(orig.take(consumed + 1) =~= orig.take(consumed as int).push(xv));
            assert(orig.take(consumed + 1).drop_last() =~= orig.take(consumed as int));
            assert(seq![xv].drop_last() =~= Seq::<DiscTrackV>::empty());
            assert(seq![xv].last() == xv);
            assert(orig.take(consumed + 1).last() == xv);
            assert(read_count(seq![xv]) == read_count(Seq::<DiscTrackV>::empty()) + if xv.total_samples is Some { 1nat } else { 0nat });
            assert(track_sectors(seq![xv]) == track_sectors(Seq::<DiscTrackV>::empty()) + match xv.total_samples {
                Some(n) => (n / 588) as nat,
                None => 0nat,
            });
            orig.take(consumed as int).to_multiset_ensures();
            assert forall|j: int| p <= j < before.len() implies (by_play_order())(#[trigger] before[j], xv) > 0 by {
                assert(before[j] == r@[j + 1]@);
            }
            if p > 0 {
                assert((by_play_order())(before[p - 1], xv) <= 0);
            }
            lemma_insert_by_at(before, p as int, xv, by_play_order());
            let s = disc_views(r@);
            assert forall|j: int| 0 <= j < s.len() - 1 implies play_order(#[trigger] s[j], s[j + 1])
                <= 0 by {
                if j < p - 1 {
                    assert(s[j] == before[j] && s[j + 1] == before[j + 1]);
                } else if j == p - 1 {
                } else if j == p {
                    assert(s[j] == xv && s[j + 1] == before[p as int]);
                } else {
                    assert(s[j] == before[j - 1] && s[j + 1] == before[j]);
                }
            }
        }
        consumed = consumed + 1;
    }
    assert(orig.take(consumed as int) =~= orig);
    r
}

/// The sample counts that could be read, in order.
pub open spec fn read_samples(tracks: Seq<DiscTrackV>) -> Seq<u64>
    decreases tracks.len(),
{
    if tracks.len() == 0 {
        Seq::empty()
    } else {
        let prev = read_samples(tracks.drop_last());
        match tracks.last().total_samples {
            Some(n) => prev.push(n),
            None => prev,
        }
    }
}

/// Only tracks whose samples were read count, in their order: a track
/// whose samples could not be read adds nothing, and one whose samples
/// were read adds its count after those of the tracks before it.
pub proof fn law_read_samples_in_order(tracks: Seq<DiscTrackV>, x: DiscTrackV)
    ensures
        read_samples(Seq::empty()) == Seq::<u64>::empty(),
        x.total_samples is None ==> read_samples(tracks.push(x)) == read_samples(tracks),
        x.total_samples matches Some(n) ==> read_samples(tracks.push(x)) == read_samples(tracks).push(n),
{
    assert(tracks.push(x).drop_last() =~= tracks);
}

/// The number of CD sectors (588 samples each) before track `k` of the
/// read tracks.
pub open spec fn sectors_before(samples: Seq<u64>, k: int) -> nat
    decreases k,
{
    if k <= 0 || samples.len() == 0 {
        0
    } else if k > samples.len() {
        sectors_before(samples, samples.len() as int)
    } else {
        sectors_before(samples, k - 1) + (samples[k - 1] / 588) as nat
    }
}

/// The table of contents: the start of every track after the first and
/// the lead-out, each relative to the first track, as eight upper-case
/// hexadecimal digits.
pub open spec fn toc_offsets(samples: Seq<u64>, k: int) -> Seq<char>
    decreases k,
{
    if k <= 1 {
        Seq::empty()
    } else {
        toc_offsets(samples, k - 1) + hex8(sectors_before(samples, k - 1))
    }
}

/// The table of contents padded with zeros to 800 characters.
pub open spec fn toc_text(samples: Seq<u64>) -> Seq<char> {
    let t = toc_offsets(samples, samples.len() as int) + hex8(sectors_before(samples, samples.len() as int));
    if t.len() < 800 {
        t + Seq::new((800 - t.len()) as nat, |i: int| '0')
    } else {
        t
    }
}

/// The bytes of an ASCII text.
pub open spec fn ascii_bytes(s: Seq<char>) -> Seq<u8> {
    s.map_values(|c: char| c as u8)
}

/// Base64 made safe for a URL the CUETools way: `+` to `.`, `/` to `_`,
/// `=` to `-`.
pub open spec fn ctdb_alphabet(s: Seq<char>) -> Seq<char> {
    replace_char_spec(replace_char_spec(replace_char_spec(s, '+', '.'), '/', '_'), '=', '-')
}

/// The TOC id of a disc whose readable tracks, in play order, have the
/// given sample counts.
pub open spec fn ctdb_spec(samples: Seq<u64>) -> Seq<char> {
    ctdb_alphabet(base64_spec(sha1_spec(ascii_bytes(toc_text(samples)))))
}

/// Whether the id can be computed: some track's samples were read, and
/// the lead-out sector stays within 64 bits.
pub open spec fn ctdb_computable(samples: Seq<u64>) -> bool {
    samples.len() > 0 && 150 + sectors_before(samples, samples.len() as int) <= u64::MAX
}

pub proof fn lemma_sectors_before_mono(samples: Seq<u64>, a: int, b: int)
    requires
        0 <= a <= b <= samples.len(),
    ensures
        sectors_before(samples, a) <= sectors_before(samples, b),
    decreases b - a,
{
    if a < b {
        lemma_sectors_before_mono(samples, a, b - 1);
    }
}

pub proof fn lemma_sectors_before_step(samples: Seq<u64>, i: int)
    requires
        0 <= i < samples.len(),
    ensures
        sectors_before(samples, i + 1) == sectors_before(samples, i) + (samples[i] / 588) as nat,
{
    if i == 0 {
        assert(sectors_before(samples, 0) == 0);
    }
}

pub proof fn lemma_toc_offsets_layout(samples: Seq<u64>, k: int)
    requires
        1 <= k <= samples.len(),
        sectors_before(samples, samples.len() as int) < 4294967296,
    ensures
        toc_offsets(samples, k).len() == 8 * (k - 1),
        forall|i: int|
            1 <= i < k ==> toc_offsets(samples, k).subrange(8 * (i - 1), 8 * i) == hex8(
                #[trigger] sectors_before(samples, i),
            ),
    decreases k,
{
    if k > 1 {
        lemma_toc_offsets_layout(samples, k - 1);
        let p = toc_offsets(samples, k - 1);
        let t = toc_offsets(samples, k);
        lemma_sectors_before_mono(samples, k - 1, samples.len() as int);
        law_hex8_digits(sectors_before(samples, k - 1));
        assert(t == p + hex8(sectors_before(samples, k - 1)));
        assert forall|i: int|
            1 <= i < k implies t.subrange(8 * (i - 1), 8 * i) == hex8(#[trigger] sectors_before(samples, i)) by {
            if i < k - 1 {
                assert(t.subrange(8 * (i - 1), 8 * i) =~= p.subrange(8 * (i - 1), 8 * i));
            } else {
                assert(t.subrange(8 * (i - 1), 8 * i) =~= hex8(sectors_before(samples, k - 1)));
            }
        }
    }
}

/// The layout of the TOC text: for `n` readable tracks, entry `i` (the
/// eight characters from `8 * (i - 1)`) for `1 <= i < n` is the start of
/// track `i` relative to the first track, the sum of the sectors of the
/// tracks before it, and entry `n` is the lead-out, the sum of all; the
/// entries never decrease, and the text is padded with `0` to 800
/// characters.
pub proof fn law_toc_entries(samples: Seq<u64>)
    requires
        samples.len() >= 1,
        sectors_before(samples, samples.len() as int) < 4294967296,
    ensures
        sectors_before(samples, 0) == 0,
        forall|i: int|
            0 <= i < samples.len() ==> sectors_before(samples, i + 1) == sectors_before(samples, i) + (
            #[trigger] samples[i] / 588) as nat,
        forall|i: int, j: int|
            0 <= i <= j <= samples.len() ==> sectors_before(samples, i) <= #[trigger] sectors_before(
                samples,
                j,
            ) && #[trigger] sectors_before(samples, i) <= sectors_before(samples, j),
        forall|i: int|
            1 <= i <= samples.len() ==> toc_text(samples).subrange(8 * (i - 1), 8 * i) == hex8(
                #[trigger] sectors_before(samples, i),
            ),
        8 * samples.len() <= 800 ==> toc_text(samples).len() == 800 && forall|j: int|
            8 * samples.len() <= j < 800 ==> #[trigger] toc_text(samples)[j] == '0',
        8 * samples.len() > 800 ==> toc_text(samples).len() == 8 * samples.len(),
{
    let n = samples.len() as int;
    assert forall|i: int| 0 <= i < n implies sectors_before(samples, i + 1) == sectors_before(samples, i) + (
        #[trigger] samples[i] / 588) as nat by {
        lemma_sectors_before_step(samples, i);
    }
    assert forall|i: int, j: int|
        0 <= i <= j <= n implies #[trigger] sectors_before(samples, i) <= #[trigger] sectors_before(samples, j) by {
        lemma_sectors_before_mono(samples, i, j);
    }
    lemma_toc_offsets_layout(samples, n);
    law_hex8_digits(sectors_before(samples, n));
    let t = toc_offsets(samples, n) + hex8(sectors_before(samples, n));
    let x = toc_text(samples);
    assert(t.len() == 8 * n);
    assert forall|i: int| 1 <= i <= n implies x.subrange(8 * (i - 1), 8 * i) == hex8(
        #[trigger] sectors_before(samples, i),
    ) by {
        if i < n {
            assert(x.subrange(8 * (i - 1), 8 * i) =~= toc_offsets(samples, n).subrange(8 * (i - 1), 8 * i));
        } else {
            assert(x.subrange(8 * (i - 1), 8 * i) =~= hex8(sectors_before(samples, n)));
        }
    }
}

/// The sample counts of the readable tracks, in order.
pub fn readable_samples(tracks: &Vec<DiscTrack>) -> (r: Vec<u64>)
    ensures
        r@ == read_samples(disc_views(tracks@)),
{
    let ghost tv = disc_views(tracks@);
    let mut r: Vec<u64> = Vec::new();
    let mut i: usize = 0;
    while i < tracks.len()
        invariant
            i <= tracks.len(),
            tv == disc_views(tracks@),
            r@ == read_samples(tv.take(i as int)),
        decreases tracks.len() - i,
    {
        assert(tv.take(i + 1).drop_last() =~= tv.take(i as int));
        assert(tv[i as int] == tracks@[i as int]@);
        if let Some(n) = tracks[i].total_samples {
            r.push(n);
        }
        i = i + 1;
    }
    assert(tv.take(tracks.len() as int) =~= tv);
    r
}

/// Whether the id of these sample counts can be computed (see
/// [`ctdb_computable`]).
pub fn samples_computable(samples: &Vec<u64>) -> (r: bool)
    ensures
        r == ctdb_computable(samples@),
{
    if samples.len() == 0 {
        return false;
    }
    let mut sum: u64 = 150;
    let mut i: usize = 0;
    while i < samples.len()
        invariant
            i <= samples.len(),
            sum == 150 + sectors_before(samples@, i as int),
        decreases samples.len() - i,
    {
        let s = samples[i] / 588;
        if sum > u64::MAX - s {
            proof {
                lemma_sectors_before_mono(samples@, i + 1, samples@.len() as int);
            }
            return false;
        }
        sum = sum + s;
        i = i + 1;
    }
    true
}

/// The TOC text of the readable tracks' sample counts.
pub fn toc_string(samples: &Vec<u64>) -> (r: String)
    requires
        ctdb_computable(samples@),
    ensures
        r@ == toc_text(samples@),
{
    let mut x = String::new();
    let mut offset: u64 = 0;
    let mut i: usize = 1;
    offset = samples[0] / 588;
    let ghost n = samples@.len() as int;
    assert(sectors_before(samples@, 1) == samples@[0] / 588) by {
        reveal_with_fuel(sectors_before, 2);
    }
    while i < samples.len()
        invariant
            1 <= i <= samples.len(),
            n == samples@.len(),
            ctdb_computable(samples@),
            offset == sectors_before(samples@, i as int),
            x@ == toc_offsets(samples@, i as int),
        decreases samples.len() - i,
    {
        push_hex8(&mut x, offset);
        proof {
            lemma_sectors_before_mono(samples@, i + 1, n);
        }
        offset = offset + samples[i] / 588;
        i = i + 1;
    }
    push_hex8(&mut x, offset);
    let ghost t = x@;
    let cs = crate::text::chars_of(x.as_str());
    let tl = cs.len();
    if tl < 800 {
        let mut k: usize = tl;
        while k < 800
            invariant
                tl <= k <= 800,
                tl == t.len(),
                x@ == t + Seq::new((k - tl) as nat, |j: int| '0'),
            decreases 800 - k,
        {
            push_char(&mut x, '0');
            assert(Seq::new((k + 1 - tl) as nat, |j: int| '0') =~= Seq::new((k - tl) as nat, |j: int| '0').push('0'));
            k = k + 1;
        }
    }
    assert(x@ =~= toc_text(samples@));
    x
}

fn ascii_bytes_of(s: &str) -> (r: Vec<u8>)
    ensures
        r@ == ascii_bytes(s@),
{
    let cs = crate::text::chars_of(s);
    let mut r: Vec<u8> = Vec::new();
    let mut i: usize = 0;
    while i < cs.len()
        invariant
            i <= cs.len(),
            cs@ == s@,
            r@ == ascii_bytes(s@.take(i as int)),
        decreases cs.len() - i,
    {
        r.push(cs[i] as u8);
        assert(ascii_bytes(s@.take(i + 1)) =~= ascii_bytes(s@.take(i as int)).push(cs@[i as int] as u8));
        i = i + 1;
    }
    assert(s@.take(cs.len() as int) =~= s@);
    r
}

/// The characters of URL-safe Base64 text: letters, digits, `.` and `_`.
pub open spec fn url_safe_char(c: char) -> bool {
    ('A' <= c && c <= 'Z') || ('a' <= c && c <= 'z') || ('0' <= c && c <= '9') || c == '.' || c
        == '_'
}

/// `STANDARD` Base64 with the CUETools substitutions (see
/// [`ctdb_alphabet`]): four characters per started group of three bytes,
/// URL-safe ones but for the closing padding, which is `-`.
pub fn ctdb_base64(data: &[u8]) -> (r: String)
    ensures
        r@ == ctdb_alphabet(base64_spec(data@)),
        r@.len() == 4 * ((data@.len() + 2) / 3),
        forall|i: int|
            0 <= i < r@.len() - base64_padding(data@.len()) ==> url_safe_char(#[trigger] r@[i]),
        forall|i: int| r@.len() - base64_padding(data@.len()) <= i < r@.len() ==> #[trigger] r@[i] == '-',
{
    let b = base64_standard(data);
    proof {
        crate::digest::lemma_base64_shape(data@);
    }
    let s1 = replace_char(b.as_str(), '+', '.');
    let s2 = replace_char(s1.as_str(), '/', '_');
    let r = replace_char(s2.as_str(), '=', '-');
    let ghost pad = base64_padding(data@.len());
    assert forall|i: int| 0 <= i < r@.len() implies r@[i] == {
        let c = b@[i];
        if c == '+' {
            '.'
        } else if c == '/' {
            '_'
        } else if c == '=' {
            '-'
        } else {
            c
        }
    } by {
        assert(s1@[i] == (if b@[i] == '+' { '.' } else { b@[i] }));
        assert(s2@[i] == (if s1@[i] == '/' { '_' } else { s1@[i] }));
    }
    assert forall|i: int| 0 <= i < r@.len() - pad implies url_safe_char(#[trigger] r@[i]) by {
        assert(base64_alphabet(b@[i]));
    }
    assert forall|i: int| r@.len() - pad <= i < r@.len() implies #[trigger] r@[i] == '-' by {
        assert(b@[i] == '=');
    }
    r
}

/// The shape of every TOC id: 27 URL-safe Base64 characters and the
/// padding `-` (the Base64 of a 20-byte SHA-1 digest).
pub open spec fn ctdb_shaped(id: Seq<char>) -> bool {
    &&& id.len() == 28
    &&& forall|i: int| 0 <= i < 27 ==> url_safe_char(#[trigger] id[i])
    &&& id[27] == '-'
}

/// The TOC id of the readable tracks' sample counts, in play order.
pub fn ctdb_from_samples(samples: &Vec<u64>) -> (r: String)
    requires
        ctdb_computable(samples@),
    ensures
        r@ == ctdb_spec(samples@),
        ctdb_shaped(r@),
{
    let toc = toc_string(samples);
    let bytes = ascii_bytes_of(toc.as_str());
    let digest = sha1_digest(bytes.as_slice());
    let r = ctdb_base64(digest.as_slice());
    assert(base64_padding(20) == 1);
    r
}


pub proof fn lemma_sectors_before_push(samples: Seq<u64>, n: u64, k: int)
    requires
        0 <= k <= samples.len(),
    ensures
        sectors_before(samples.push(n), k) == sectors_before(samples, k),
    decreases k,
{
    if k > 0 {
        lemma_sectors_before_push(samples, n, k - 1);
    }
}

pub proof fn lemma_read_samples_sums(s: Seq<DiscTrackV>)
    ensures
        read_samples(s).len() == read_count(s),
        sectors_before(read_samples(s), read_samples(s).len() as int) == track_sectors(s),
    decreases s.len(),
{
    if s.len() > 0 {
        lemma_read_samples_sums(s.drop_last());
        let prev = read_samples(s.drop_last());
        match s.last().total_samples {
            Some(n) => {
                lemma_sectors_before_push(prev, n, prev.len() as int);
                assert(prev.push(n)[prev.len() as int] == n);
            },
            None => {},
        }
    }
}

/// Whether the TOC id of these tracks can be computed: some track's
/// samples were read and the lead-out fits in 64 bits.
pub open spec fn tracks_computable(tracks: Seq<DiscTrackV>) -> bool {
    read_count(tracks) > 0 && 150 + track_sectors(tracks) <= u64::MAX
}

/// Whether the TOC id of these tracks can be computed (see
/// [`tracks_computable`]); callers test this before [`get_ctdb_id`].
pub fn tracks_ctdb_ready(tracks: &Vec<DiscTrack>) -> (r: bool)
    ensures
        r == tracks_computable(disc_views(tracks@)),
{
    let samples = readable_samples(tracks);
    proof {
        lemma_read_samples_sums(disc_views(tracks@));
    }
    samples_computable(&samples)
}

/// The CUETools TOC id of a disc: `None` when there is no FLAC file;
/// otherwise the id of the readable tracks' sample counts taken in play
/// order, tracks that tie keeping their order. Some track's samples must
/// have been read, and the lead-out must fit in 64 bits.
pub fn get_ctdb_id(tracks: Vec<DiscTrack>) -> (r: Option<String>)
    requires
        tracks@.len() > 0 ==> tracks_computable(disc_views(tracks@)),
    ensures
        tracks@.len() == 0 <==> r is None,
        r matches Some(id) ==> id@ == ctdb_spec(read_samples(play_sort(disc_views(tracks@)))),
        r matches Some(id) ==> ctdb_shaped(id@),
{
    if tracks.len() == 0 {
        return None;
    }
    let ghost tv = disc_views(tracks@);
    let sorted = sort_disc_tracks(tracks);
    let samples = readable_samples(&sorted);
    proof {
        lemma_read_samples_sums(disc_views(sorted@));
    }
    let id = ctdb_from_samples(&samples);
    Some(id)
}

/// The sector counts of the tracks (588 samples each, the remainder
/// dropped).
pub open spec fn sector_counts(samples: Seq<u64>) -> Seq<nat> {
    samples.map_values(|n: u64| (n / 588) as nat)
}

pub proof fn lemma_sectors_before_same(a: Seq<u64>, b: Seq<u64>, k: int)
    requires
        sector_counts(a) == sector_counts(b),
        0 <= k,
    ensures
        sectors_before(a, k) == sectors_before(b, k),
    decreases k,
{
    assert(a.len() == sector_counts(a).len());
    assert(b.len() == sector_counts(b).len());
    if k > 0 && a.len() > 0 {
        if k > a.len() {
            lemma_sectors_before_same(a, b, a.len() as int);
        } else {
            lemma_sectors_before_same(a, b, k - 1);
            assert(sector_counts(a)[k - 1] == sector_counts(b)[k - 1]);
            assert(sector_counts(a)[k - 1] == (a[k - 1] / 588) as nat);
            assert(sector_counts(b)[k - 1] == (b[k - 1] / 588) as nat);
            assert(sectors_before(a, k) == sectors_before(a, k - 1) + (a[k - 1] / 588) as nat);
            assert(sectors_before(b, k) == sectors_before(b, k - 1) + (b[k - 1] / 588) as nat);
        }
    }
}

pub proof fn lemma_toc_offsets_same(a: Seq<u64>, b: Seq<u64>, k: int)
    requires
        sector_counts(a) == sector_counts(b),
    ensures
        toc_offsets(a, k) == toc_offsets(b, k),
    decreases k,
{
    if k > 1 {
        lemma_toc_offsets_same(a, b, k - 1);
        lemma_sectors_before_same(a, b, k - 1);
    }
}

/// Two discs whose readable tracks, in play order, have the same numbers
/// of sectors have the same TOC id: the id depends on whole sectors only.
pub proof fn law_equal_sectors_equal_ids(a: Seq<u64>, b: Seq<u64>)
    requires
        sector_counts(a) == sector_counts(b),
    ensures
        ctdb_spec(a) == ctdb_spec(b),
{
    assert(a.len() == sector_counts(a).len());
    assert(b.len() == sector_counts(b).len());
    lemma_toc_offsets_same(a, b, a.len() as int);
    lemma_sectors_before_same(a, b, a.len() as int);
    assert(toc_text(a) == toc_text(b));
}

/// No two of the tracks share a sort key (rank and track number).
pub open spec fn keys_distinct(a: Seq<DiscTrackV>) -> bool {
    forall|i: int, j: int|
        0 <= i < a.len() && 0 <= j < a.len() && i != j ==> (#[trigger] a[i].rank, a[i].number) != (
            #[trigger] a[j].rank,
            a[j].number,
        )
}

/// When no two tracks share a sort key, their play order, and so the TOC
/// id, does not depend on the order the tracks were listed in (the
/// directory's order, say).
pub proof fn law_id_independent_of_listing(a: Seq<DiscTrackV>, b: Seq<DiscTrackV>)
    requires
        a.to_multiset() == b.to_multiset(),
        keys_distinct(a),
    ensures
        play_sort(a) == play_sort(b),
        ctdb_spec(read_samples(play_sort(a))) == ctdb_spec(read_samples(play_sort(b))),
{
    let ord = by_play_order();
    assert forall|x: DiscTrackV, y: DiscTrackV| #[trigger] a.contains(x) && #[trigger] a.contains(y) && x != y
        implies (x.rank, x.number) != (y.rank, y.number) by {
        let i = choose|i: int| 0 <= i < a.len() && a[i] == x;
        let j = choose|j: int| 0 <= j < a.len() && a[j] == y;
        assert(i != j);
    }
    assert(order_laws(ord, a));
    assert(a.no_duplicates()) by {
        assert forall|i: int, j: int| 0 <= i < a.len() && 0 <= j < a.len() && i != j implies a[i] != a[j] by {
            assert((a[i].rank, a[i].number) != (a[j].rank, a[j].number));
        }
    }
    lemma_insertion_sort_independent(a, b, ord);
}

/// The CUETools database page of a TOC id.
pub fn tocid_lookup_url(ctdb: &str) -> (r: String)
    ensures
        r@ == "https://db.cuetools.net/?tocid="@ + ctdb@,
{
    let mut r = owned("https://db.cuetools.net/?tocid=");
    push_str(&mut r, ctdb);
    r
}


// ---------------------------------------------------------------------------
// Which files are tracks
// ---------------------------------------------------------------------------

/// Whether a file name has the extension `flac` as `Path::extension`
/// finds it: after the last `.`, with something before that `.`.
pub open spec fn is_flac_name_spec(name: Seq<char>) -> bool {
    name.len() >= 6 && name.subrange(name.len() - 5, name.len() as int) == ".flac"@
}

/// Whether a directory entry is a track file of the disc.
pub fn is_flac_name(name: &str) -> (r: bool)
    ensures
        r == is_flac_name_spec(name@),
{
    let cs = crate::text::chars_of(name);
    let n = cs.len();
    proof {
        reveal_strlit(".flac");
        assert(".flac"@ =~= seq!['.', 'f', 'l', 'a', 'c']);
    }
    if n < 6 {
        return false;
    }
    let r = cs[n - 5] == '.' && cs[n - 4] == 'f' && cs[n - 3] == 'l' && cs[n - 2] == 'a' && cs[n - 1]
        == 'c';
    if r {
        assert(name@.subrange(n - 5, n as int) =~= seq!['.', 'f', 'l', 'a', 'c']);
    } else {
        assert(name@.subrange(n - 5, n as int) != seq!['.', 'f', 'l', 'a', 'c']) by {
            let t = name@.subrange(n - 5, n as int);
            if t == seq!['.', 'f', 'l', 'a', 'c'] {
                assert(t[0] == cs@[n - 5]);
                assert(t[1] == cs@[n - 4]);
                assert(t[2] == cs@[n - 3]);
                assert(t[3] == cs@[n - 2]);
                assert(t[4] == cs@[n - 1]);
            }
        }
    }
    r
}

} // verus!
