//! Host-and-path routing table with longest-prefix matching.
//!
//! A [`Router`] owns an immutable sequence of route entries, each keyed by a
//! host and a mount path. A mount path is normalized into its non-empty,
//! slash-free segments; a request path-and-query matches a mount when the
//! mount's segments appear in order, separated by runs of `/`, and the byte
//! following the matched prefix is absent, a `/`, or a query or fragment
//! marker. Among the entries of one host that match, the one with the most
//! segments wins.

use vstd::prelude::*;

verus! {

/// Path separator byte, `/`.
pub const SLASH: u8 = 47;
/// Query marker byte, `?`.
pub const QUERY_MARK: u8 = 63;
/// Fragment marker byte, `#`.
pub const FRAGMENT_MARK: u8 = 35;

/// Whether a byte is the path separator `/`.
pub open spec fn is_sep(b: u8) -> bool {
    b == SLASH
}

/// Whether a byte ends the path part of a request target (`?` or `#`).
pub open spec fn is_term(b: u8) -> bool {
    b == QUERY_MARK || b == FRAGMENT_MARK
}

/// First position at or after `i` holding a `/`, or `p.len()` if there is none.
pub open spec fn next_sep(p: Seq<u8>, i: int) -> int
    decreases p.len() - i,
{
    if i < 0 || i >= p.len() {
        i
    } else if is_sep(p[i]) {
        i
    } else {
        next_sep(p, i + 1)
    }
}

/// First position at or after `i` holding something other than `/`, or `p.len()`.
pub open spec fn next_non_sep(p: Seq<u8>, i: int) -> int
    decreases p.len() - i,
{
    if i < 0 || i >= p.len() {
        i
    } else if !is_sep(p[i]) {
        i
    } else {
        next_non_sep(p, i + 1)
    }
}

/// First position at or after `i` holding a `?` or `#`, or `p.len()`.
pub open spec fn next_term(p: Seq<u8>, i: int) -> int
    decreases p.len() - i,
{
    if i < 0 || i >= p.len() {
        i
    } else if is_term(p[i]) {
        i
    } else {
        next_term(p, i + 1)
    }
}

/// Length of the path part of a request target: everything before the first
/// `?` or `#`.
pub open spec fn term_len(r: Seq<u8>) -> int {
    next_term(r, 0)
}

pub proof fn lemma_next_sep(p: Seq<u8>, i: int)
    requires
        0 <= i <= p.len(),
    ensures
        i <= next_sep(p, i) <= p.len(),
        next_sep(p, i) == p.len() || is_sep(p[next_sep(p, i)]),
        forall|j: int| i <= j < next_sep(p, i) ==> !is_sep(#[trigger] p[j]),
    decreases p.len() - i,
{
    if i < p.len() && !is_sep(p[i]) {
        lemma_next_sep(p, i + 1);
    }
}

pub proof fn lemma_next_sep_is(p: Seq<u8>, i: int, j: int)
    requires
        0 <= i <= j <= p.len(),
        forall|k: int| i <= k < j ==> !is_sep(#[trigger] p[k]),
        j == p.len() || is_sep(p[j]),
    ensures
        next_sep(p, i) == j,
    decreases j - i,
{
    if i < j {
        lemma_next_sep_is(p, i + 1, j);
    }
}

pub proof fn lemma_next_non_sep(p: Seq<u8>, i: int)
    requires
        0 <= i <= p.len(),
    ensures
        i <= next_non_sep(p, i) <= p.len(),
        next_non_sep(p, i) == p.len() || !is_sep(p[next_non_sep(p, i)]),
        forall|j: int| i <= j < next_non_sep(p, i) ==> is_sep(#[trigger] p[j]),
    decreases p.len() - i,
{
    if i < p.len() && is_sep(p[i]) {
        lemma_next_non_sep(p, i + 1);
    }
}

pub proof fn lemma_next_term(p: Seq<u8>, i: int)
    requires
        0 <= i <= p.len(),
    ensures
        i <= next_term(p, i) <= p.len(),
        next_term(p, i) == p.len() || is_term(p[next_term(p, i)]),
        forall|j: int| i <= j < next_term(p, i) ==> !is_term(#[trigger] p[j]),
    decreases p.len() - i,
{
    if i < p.len() && !is_term(p[i]) {
        lemma_next_term(p, i + 1);
    }
}

pub proof fn lemma_next_term_is(p: Seq<u8>, i: int, j: int)
    requires
        0 <= i <= j <= p.len(),
        forall|k: int| i <= k < j ==> !is_term(#[trigger] p[k]),
        j == p.len() || is_term(p[j]),
    ensures
        next_term(p, i) == j,
    decreases j - i,
{
    if i < j {
        lemma_next_term_is(p, i + 1, j);
    }
}

/// The segments of a mount path, from position `i` on: the maximal non-empty
/// runs of bytes other than `/`.
pub open spec fn split_from(p: Seq<u8>, i: int) -> Seq<Seq<u8>>
    decreases p.len() - i,
    when 0 <= i <= p.len()
    via split_from_decreases
{
    let s = next_non_sep(p, i);
    if s >= p.len() {
        Seq::empty()
    } else {
        seq![p.subrange(s, next_sep(p, s))] + split_from(p, next_sep(p, s))
    }
}

#[via_fn]
proof fn split_from_decreases(p: Seq<u8>, i: int) {
    lemma_next_non_sep(p, i);
    let s = next_non_sep(p, i);
    if s < p.len() {
        lemma_next_sep(p, s);
    }
}

/// The segments of a whole mount path.
pub open spec fn split_segments(p: Seq<u8>) -> Seq<Seq<u8>> {
    split_from(p, 0)
}

/// A well-formed segment: non-empty and free of `/`.
pub open spec fn seg_wf(s: Seq<u8>) -> bool {
    s.len() > 0 && forall|j: int| 0 <= j < s.len() ==> !is_sep(#[trigger] s[j])
}

/// All segments of a mount are well-formed.
pub open spec fn segs_wf(ss: Seq<Seq<u8>>) -> bool {
    forall|k: int| 0 <= k < ss.len() ==> seg_wf(#[trigger] ss[k])
}

pub proof fn lemma_split_wf(p: Seq<u8>, i: int)
    requires
        0 <= i <= p.len(),
    ensures
        segs_wf(split_from(p, i)),
    decreases p.len() - i,
{
    lemma_next_non_sep(p, i);
    let s = next_non_sep(p, i);
    if s < p.len() {
        lemma_next_sep(p, s);
        let e = next_sep(p, s);
        lemma_split_wf(p, e);
        let seg = p.subrange(s, e);
        assert forall|j: int| 0 <= j < seg.len() implies !is_sep(seg[j]) by {
            assert(seg[j] == p[s + j]);
        }
        assert(seg_wf(seg));
        let rest = split_from(p, e);
        assert forall|k: int| 0 <= k < split_from(p, i).len() implies seg_wf(
            #[trigger] split_from(p, i)[k],
        ) by {
            if k == 0 {
            } else {
                assert(split_from(p, i)[k] == rest[k - 1]);
            }
        }
    }
}

/// Position just past the run of `/` bytes starting at `pos`, never beyond `t`.
pub open spec fn skip_seps(r: Seq<u8>, t: int, pos: int) -> int
    decreases t - pos,
{
    if pos < 0 || pos >= t {
        pos
    } else if is_sep(r[pos]) {
        skip_seps(r, t, pos + 1)
    } else {
        pos
    }
}

pub proof fn lemma_skip_seps(r: Seq<u8>, t: int, pos: int)
    requires
        0 <= pos <= t,
    ensures
        pos <= skip_seps(r, t, pos) <= t,
        skip_seps(r, t, pos) == t || !is_sep(r[skip_seps(r, t, pos)]),
        forall|j: int| pos <= j < skip_seps(r, t, pos) ==> is_sep(#[trigger] r[j]),
    decreases t - pos,
{
    if pos < t && is_sep(r[pos]) {
        lemma_skip_seps(r, t, pos + 1);
    }
}

/// Where a match of the segments `ss` against `r`, starting at `pos`, ends.
/// `t` is the length of the path part of `r`. Before each segment any run of
/// `/` is skipped; after each segment the next byte must be a `/` or the path
/// part must end there.
pub open spec fn match_from(r: Seq<u8>, t: int, ss: Seq<Seq<u8>>, pos: int) -> Option<int>
    decreases ss.len(),
{
    if ss.len() == 0 {
        Option::Some(pos)
    } else {
        let s = skip_seps(r, t, pos);
        let e = s + ss[0].len();
        if e <= t && r.subrange(s, e) == ss[0] && (e == t || is_sep(r[e])) {
            match_from(r, t, ss.drop_first(), e)
        } else {
            Option::None
        }
    }
}

/// Where a mount, given as its segments, matches the request target `r`:
/// the end position of the matched prefix, if the mount matches at all.
pub open spec fn path_match(r: Seq<u8>, ss: Seq<Seq<u8>>) -> Option<int> {
    match_from(r, term_len(r), ss, 0)
}

pub proof fn lemma_match_from_bounds(r: Seq<u8>, t: int, ss: Seq<Seq<u8>>, pos: int)
    requires
        0 <= pos <= t <= r.len(),
        match_from(r, t, ss, pos) is Some,
    ensures
        pos <= match_from(r, t, ss, pos)->0 <= t,
    decreases ss.len(),
{
    if ss.len() > 0 {
        lemma_skip_seps(r, t, pos);
        let s = skip_seps(r, t, pos);
        let e = s + ss[0].len();
        lemma_match_from_bounds(r, t, ss.drop_first(), e);
    }
}

/// Where a well-formed segment matched at `s` must end: at the next `/`, or
/// at the end of the path part, whichever comes first.
pub open spec fn seg_end(r: Seq<u8>, t: int, s: int) -> int {
    if next_sep(r, s) < t {
        next_sep(r, s)
    } else {
        t
    }
}

/// A well-formed segment that matches at position `s` is forced: it must run
/// exactly to the next `/` or to the end of the path part. Hence at any one
/// position at most one segment content can match.
pub proof fn lemma_forced_end(r: Seq<u8>, t: int, s: int, seg: Seq<u8>)
    requires
        0 <= s <= t <= r.len(),
        seg_wf(seg),
        s + seg.len() <= t,
        r.subrange(s, s + seg.len()) == seg,
        s + seg.len() == t || is_sep(r[s + seg.len()]),
    ensures
        s + seg.len() == seg_end(r, t, s),
{
    let e = s + seg.len();
    assert forall|k: int| s <= k < e implies !is_sep(r[k]) by {
        assert(r[k] == seg[k - s]);
    }
    if e < t {
        lemma_next_sep_is(r, s, e);
    } else {
        lemma_next_sep(r, s);
        if next_sep(r, s) < t {
            assert(is_sep(r[next_sep(r, s)]));
        }
    }
}

/// Matching is deterministic: two well-formed mounts that both match at the
/// same position agree segment for segment, so the shorter one is a prefix of
/// the longer one and ends no later.
pub proof fn lemma_match_prefix(r: Seq<u8>, t: int, ss1: Seq<Seq<u8>>, ss2: Seq<Seq<u8>>, pos: int)
    requires
        0 <= pos <= t <= r.len(),
        segs_wf(ss1),
        segs_wf(ss2),
        ss1.len() <= ss2.len(),
        match_from(r, t, ss1, pos) is Some,
        match_from(r, t, ss2, pos) is Some,
    ensures
        ss1 == ss2.subrange(0, ss1.len() as int),
        match_from(r, t, ss1, pos)->0 <= match_from(r, t, ss2, pos)->0,
        ss1.len() == ss2.len() ==> match_from(r, t, ss1, pos)->0 == match_from(r, t, ss2, pos)->0,
    decreases ss1.len(),
{
    if ss1.len() == 0 {
        lemma_match_from_bounds(r, t, ss2, pos);
        assert(ss1 =~= ss2.subrange(0, 0));
    } else {
        lemma_skip_seps(r, t, pos);
        let s = skip_seps(r, t, pos);
        assert(seg_wf(ss1[0]) && seg_wf(ss2[0]));
        lemma_forced_end(r, t, s, ss1[0]);
        lemma_forced_end(r, t, s, ss2[0]);
        let e = s + ss1[0].len();
        assert(ss1[0] =~= ss2[0]);
        assert(segs_wf(ss1.drop_first())) by {
            assert forall|k: int| 0 <= k < ss1.drop_first().len() implies seg_wf(
                #[trigger] ss1.drop_first()[k],
            ) by {
                assert(ss1.drop_first()[k] == ss1[k + 1]);
            }
        }
        assert(segs_wf(ss2.drop_first())) by {
            assert forall|k: int| 0 <= k < ss2.drop_first().len() implies seg_wf(
                #[trigger] ss2.drop_first()[k],
            ) by {
                assert(ss2.drop_first()[k] == ss2[k + 1]);
            }
        }
        lemma_match_prefix(r, t, ss1.drop_first(), ss2.drop_first(), e);
        assert(ss1 =~= ss2.subrange(0, ss1.len() as int)) by {
            assert forall|k: int| 0 <= k < ss1.len() implies ss1[k] == ss2.subrange(
                0,
                ss1.len() as int,
            )[k] by {
                if k == 0 {
                } else {
                    assert(ss1.drop_first()[k - 1] == ss2.drop_first().subrange(
                        0,
                        ss1.drop_first().len() as int,
                    )[k - 1]);
                    assert(ss1.drop_first()[k - 1] == ss1[k]);
                    assert(ss2.drop_first().subrange(0, ss1.drop_first().len() as int)[k - 1]
                        == ss2[k]);
                }
            }
        }
    }
}

/// A route entry as the specification sees it.
pub struct RouteEntryView<T> {
    /// Canonical host the entry is registered for.
    pub host: Seq<u8>,
    /// Normalized mount path: its non-empty, slash-free segments.
    pub segments: Seq<Seq<u8>>,
    /// Whether the matched prefix is stripped from the forwarded path.
    pub strip_prefix: bool,
    /// Caller-supplied payload.
    pub value: T,
}

/// Whether the entry is registered for `host` and its mount matches `r`.
pub open spec fn entry_matches<T>(e: RouteEntryView<T>, host: Seq<u8>, r: Seq<u8>) -> bool {
    e.host == host && path_match(r, e.segments) is Some
}

/// All entries carry well-formed segments.
pub open spec fn routes_wf<T>(entries: Seq<RouteEntryView<T>>) -> bool {
    forall|k: int| 0 <= k < entries.len() ==> segs_wf(#[trigger] entries[k].segments)
}

/// Whether some entry is registered for `host`.
pub open spec fn host_known<T>(entries: Seq<RouteEntryView<T>>, host: Seq<u8>) -> bool {
    exists|k: int| 0 <= k < entries.len() && (#[trigger] entries[k].host) == host
}

/// No two entries share one host and one normalized mount path.
pub open spec fn routes_unique<T>(entries: Seq<RouteEntryView<T>>) -> bool {
    forall|i: int, j: int|
        0 <= i < j < entries.len() ==> !(#[trigger] entries[i].host == #[trigger] entries[j].host
            && entries[i].segments == entries[j].segments)
}

/// The matching entry with the most segments among the first `n` entries,
/// earliest such entry first.
pub open spec fn best_match_in<T>(
    entries: Seq<RouteEntryView<T>>,
    host: Seq<u8>,
    r: Seq<u8>,
    n: int,
) -> Option<int>
    decreases n,
{
    if n <= 0 {
        Option::None
    } else {
        let prev = best_match_in(entries, host, r, n - 1);
        if entry_matches(entries[n - 1], host, r) {
            match prev {
                Option::Some(b) => if entries[n - 1].segments.len()
                    > entries[b].segments.len() {
                    Option::Some(n - 1)
                } else {
                    Option::Some(b)
                },
                Option::None => Option::Some(n - 1),
            }
        } else {
            prev
        }
    }
}

pub proof fn lemma_best_match_in<T>(entries: Seq<RouteEntryView<T>>, host: Seq<u8>, r: Seq<u8>, n: int)
    requires
        0 <= n <= entries.len(),
    ensures
        match best_match_in(entries, host, r, n) {
            Option::None => forall|k: int|
                0 <= k < n ==> !entry_matches(#[trigger] entries[k], host, r),
            Option::Some(b) => {
                &&& 0 <= b < n
                &&& entry_matches(entries[b], host, r)
                &&& forall|k: int|
                    0 <= k < n && entry_matches(#[trigger] entries[k], host, r)
                        ==> entries[k].segments.len() <= entries[b].segments.len()
                &&& forall|k: int|
                    0 <= k < b && entry_matches(#[trigger] entries[k], host, r)
                        ==> entries[k].segments.len() < entries[b].segments.len()
            },
        },
    decreases n,
{
    if n > 0 {
        lemma_best_match_in(entries, host, r, n - 1);
    }
}

/// What a lookup returns: the index of the best-matching entry for the host,
/// and, when that entry strips its prefix, the rest of the request target
/// after the matched prefix, byte for byte.
pub open spec fn lookup_spec<T>(
    entries: Seq<RouteEntryView<T>>,
    host: Seq<u8>,
    r: Seq<u8>,
) -> Option<(int, Option<Seq<u8>>)> {
    match best_match_in(entries, host, r, entries.len() as int) {
        Option::None => Option::None,
        Option::Some(b) => {
            let e = path_match(r, entries[b].segments)->0;
            Option::Some(
                (
                    b,
                    if entries[b].strip_prefix {
                        Option::Some(r.subrange(e, r.len() as int))
                    } else {
                        Option::None
                    },
                ),
            )
        },
    }
}

/// What is known of a lookup result: a hit names a matching entry whose
/// segment count no other matching entry of the host exceeds, and a miss
/// means no entry of the host matches.
pub proof fn lemma_lookup_spec<T>(entries: Seq<RouteEntryView<T>>, host: Seq<u8>, r: Seq<u8>)
    ensures
        match lookup_spec(entries, host, r) {
            Option::None => forall|k: int|
                0 <= k < entries.len() ==> !entry_matches(#[trigger] entries[k], host, r),
            Option::Some(m) => {
                &&& 0 <= m.0 < entries.len()
                &&& entry_matches(entries[m.0 as int], host, r)
                &&& forall|k: int|
                    0 <= k < entries.len() && entry_matches(#[trigger] entries[k], host, r)
                        ==> entries[k].segments.len() <= entries[m.0 as int].segments.len()
                &&& m.1 is Some <==> entries[m.0 as int].strip_prefix
            },
        },
{
    lemma_best_match_in(entries, host, r, entries.len() as int);
}

/// Unique winner: in a well-formed router — segments normalized, no two
/// entries sharing one host and one mount — two entries of one host that
/// both match a request with the same number of segments are the same entry.
/// Equal-length ties between distinct entries cannot happen; they are ruled
/// out at build time.
pub proof fn lemma_match_unique<T>(
    entries: Seq<RouteEntryView<T>>,
    host: Seq<u8>,
    r: Seq<u8>,
    i: int,
    j: int,
)
    requires
        routes_wf(entries),
        routes_unique(entries),
        0 <= i < entries.len(),
        0 <= j < entries.len(),
        entry_matches(entries[i], host, r),
        entry_matches(entries[j], host, r),
        entries[i].segments.len() == entries[j].segments.len(),
    ensures
        i == j,
{
    if i != j {
        lemma_next_term(r, 0);
        lemma_match_prefix(r, term_len(r), entries[i].segments, entries[j].segments, 0);
        assert(entries[j].segments.subrange(0, entries[j].segments.len() as int) =~= entries[
            j
        ].segments);
        assert(entries[i].segments == entries[j].segments);
        assert(entries[i].host == entries[j].host);
        assert(false);
    }
}

/// Longest prefix wins: when a request matches an entry `j`, the lookup never
/// answers with an entry holding fewer segments than `j` — in particular not
/// with a mount that is a strict prefix of `j`'s mount.
pub proof fn lemma_longest_prefix_wins<T>(
    entries: Seq<RouteEntryView<T>>,
    host: Seq<u8>,
    r: Seq<u8>,
    i: int,
    j: int,
)
    requires
        0 <= i < entries.len(),
        0 <= j < entries.len(),
        entries[i].segments.len() < entries[j].segments.len(),
        entry_matches(entries[j], host, r),
    ensures
        lookup_spec(entries, host, r) matches Option::Some(m) && m.0 != i
            && entries[m.0 as int].segments.len() >= entries[j].segments.len(),
{
    lemma_lookup_spec(entries, host, r);
}

/// The deep view of a byte vector is its plain view.
pub proof fn lemma_bytes_deep_view(v: Vec<u8>)
    ensures
        v.deep_view() == v@,
{
    assert(v.deep_view() =~= v@);
}

/// Byte-for-byte equality of two byte strings.
pub fn eq_bytes(a: &[u8], b: &[u8]) -> (r: bool)
    ensures
        r <==> a@ == b@,
{
    if a.len() != b.len() {
        return false;
    }
    let mut i: usize = 0;
    while i < a.len()
        invariant
            i <= a.len(),
            a.len() == b.len(),
            forall|j: int| 0 <= j < i ==> a@[j] == b@[j],
        decreases a.len() - i,
    {
        if a[i] != b[i] {
            return false;
        }
        i += 1;
    }
    proof {
        assert(a@ =~= b@);
    }
    true
}

/// Equality of two segment lists.
fn eq_segs(a: &Vec<Vec<u8>>, b: &Vec<Vec<u8>>) -> (r: bool)
    ensures
        r <==> a.deep_view() == b.deep_view(),
{
    if a.len() != b.len() {
        proof {
            assert(a.deep_view().len() == a@.len());
            assert(b.deep_view().len() == b@.len());
        }
        return false;
    }
    let mut i: usize = 0;
    while i < a.len()
        invariant
            i <= a.len(),
            a.len() == b.len(),
            a@.len() == b@.len(),
            forall|j: int| 0 <= j < i ==> a@[j]@ == b@[j]@,
        decreases a.len() - i,
    {
        if !eq_bytes(a[i].as_slice(), b[i].as_slice()) {
            proof {
                lemma_bytes_deep_view(a@[i as int]);
                lemma_bytes_deep_view(b@[i as int]);
                assert(a.deep_view()[i as int] != b.deep_view()[i as int]);
            }
            return false;
        }
        i += 1;
    }
    proof {
        assert forall|j: int| 0 <= j < a@.len() implies a.deep_view()[j] == b.deep_view()[j] by {
            lemma_bytes_deep_view(a@[j]);
            lemma_bytes_deep_view(b@[j]);
        }
        assert(a.deep_view() =~= b.deep_view());
    }
    true
}

/// Length of the path part of the request target `r`: the index of its first
/// `?` or `#`, or its length.
pub fn find_term(r: &[u8]) -> (t: usize)
    ensures
        t as int == term_len(r@),
        t <= r.len(),
{
    let mut i: usize = 0;
    while i < r.len()
        invariant
            i <= r.len(),
            forall|j: int| 0 <= j < i ==> !is_term(#[trigger] r@[j]),
        decreases r.len() - i,
    {
        if r[i] == QUERY_MARK || r[i] == FRAGMENT_MARK {
            proof {
                lemma_next_term_is(r@, 0, i as int);
            }
            return i;
        }
        i += 1;
    }
    proof {
        lemma_next_term_is(r@, 0, r@.len() as int);
    }
    r.len()
}

/// Splits a mount path into its segments: the maximal non-empty runs of
/// bytes other than `/`.
pub fn split_path(p: &[u8]) -> (segs: Vec<Vec<u8>>)
    ensures
        segs.deep_view() == split_segments(p@),
{
    let mut segs: Vec<Vec<u8>> = Vec::new();
    let mut i: usize = 0;
    proof {
        assert(segs.deep_view() =~= Seq::<Seq<u8>>::empty());
    }
    while i < p.len()
        invariant
            i <= p.len(),
            split_segments(p@) == segs.deep_view() + split_from(p@, i as int),
        decreases p.len() - i,
    {
        if p[i] == SLASH {
            proof {
                assert(next_non_sep(p@, i as int) == next_non_sep(p@, i + 1));
            }
            i += 1;
        } else {
            let start = i;
            while i < p.len() && p[i] != SLASH
                invariant
                    start <= i <= p.len(),
                    forall|j: int| start <= j < i ==> !is_sep(#[trigger] p@[j]),
                decreases p.len() - i,
            {
                i += 1;
            }
            proof {
                lemma_next_sep_is(p@, start as int, i as int);
                assert(next_non_sep(p@, start as int) == start as int);
            }
            let seg = vstd::slice::slice_to_vec(vstd::slice::slice_subrange(p, start, i));
            let ghost prev = segs.deep_view();
            segs.push(seg);
            proof {
                assert(segs.deep_view() =~~= prev + seq![p@.subrange(start as int, i as int)]);
            }
        }
    }
    proof {
        assert(split_from(p@, p@.len() as int) =~= Seq::<Seq<u8>>::empty());
        assert(segs.deep_view() =~= segs.deep_view() + split_from(p@, p@.len() as int));
    }
    segs
}

/// Matches the segments of one mount against the request target `r`, whose
/// path part has length `t`; returns where the matched prefix ends.
fn match_segments(r: &[u8], t: usize, segs: &Vec<Vec<u8>>) -> (res: Option<usize>)
    requires
        t as int == term_len(r@),
        t <= r.len(),
    ensures
        match res {
            Option::Some(e) => match_from(r@, t as int, segs.deep_view(), 0) == Option::Some(
                e as int,
            ),
            Option::None => match_from(r@, t as int, segs.deep_view(), 0) is None,
        },
{
    let ghost full = segs.deep_view();
    let mut k: usize = 0;
    let mut pos: usize = 0;
    proof {
        assert(full.skip(0) =~= full);
    }
    while k < segs.len()
        invariant
            k <= segs.len(),
            full == segs.deep_view(),
            full.len() == segs@.len(),
            t as int == term_len(r@),
            t <= r.len(),
            pos <= t,
            match_from(r@, t as int, full, 0) == match_from(
                r@,
                t as int,
                full.skip(k as int),
                pos as int,
            ),
        decreases segs.len() - k,
    {
        let ghost pos0: int = pos as int;
        while pos < t && r[pos] == SLASH
            invariant
                pos0 <= pos as int <= t,
                t <= r.len(),
                skip_seps(r@, t as int, pos0) == skip_seps(r@, t as int, pos as int),
            decreases t - pos,
        {
            pos += 1;
        }
        let ghost ss = full.skip(k as int);
        proof {
            assert(skip_seps(r@, t as int, pos as int) == pos as int);
            lemma_bytes_deep_view(segs@[k as int]);
            assert(ss[0] == segs@[k as int]@);
        }
        let seg = &segs[k];
        if seg.len() > t - pos {
            proof {
                assert(match_from(r@, t as int, ss, pos0) is None);
            }
            return None;
        }
        let e = pos + seg.len();
        if !eq_bytes(vstd::slice::slice_subrange(r, pos, e), seg.as_slice()) {
            proof {
                assert(match_from(r@, t as int, ss, pos0) is None);
            }
            return None;
        }
        if e < t && r[e] != SLASH {
            proof {
                assert(match_from(r@, t as int, ss, pos0) is None);
            }
            return None;
        }
        proof {
            assert(match_from(r@, t as int, ss, pos0) == match_from(
                r@,
                t as int,
                ss.drop_first(),
                e as int,
            ));
            assert(ss.drop_first() =~= full.skip(k + 1));
        }
        pos = e;
        k += 1;
    }
    proof {
        assert(full.skip(segs@.len() as int) =~= Seq::<Seq<u8>>::empty());
    }
    Some(pos)
}

/// A node of the router: a value registered for one host under one mount
/// path, with its stable index given by its position in the router.
#[derive(Debug)]
pub struct RouteEntry<T> {
    /// Canonical host the entry is registered for.
    pub host: Vec<u8>,
    /// Normalized mount path: its non-empty, slash-free segments.
    pub segments: Vec<Vec<u8>>,
    /// Whether the matched prefix is stripped from the forwarded path.
    pub strip_prefix: bool,
    /// Caller-supplied payload.
    pub value: T,
}

impl<T> View for RouteEntry<T> {
    type V = RouteEntryView<T>;

    open spec fn view(&self) -> RouteEntryView<T> {
        RouteEntryView {
            host: self.host@,
            segments: self.segments.deep_view(),
            strip_prefix: self.strip_prefix,
            value: self.value,
        }
    }
}

/// An error from building a router or a handler out of configuration.
#[derive(Debug)]
pub enum BuildError {
    /// Two route registrations for one host share one normalized mount path.
    DuplicateRoute {
        /// The host whose routes collide.
        host: Vec<u8>,
    },
    /// A handler could not be built from its configuration.
    Handler {
        /// What went wrong, as the handler reported it.
        message: String,
    },
}

/// Collects route registrations in insertion order; each entry's index is its
/// insertion rank.
#[derive(Debug)]
pub struct RouterBuilder<T> {
    entries: Vec<RouteEntry<T>>,
}

impl<T> View for RouterBuilder<T> {
    type V = Seq<RouteEntryView<T>>;

    closed spec fn view(&self) -> Seq<RouteEntryView<T>> {
        Seq::new(self.entries@.len() as nat, |i: int| self.entries@[i]@)
    }
}

impl<T> RouterBuilder<T> {
    /// All collected entries carry well-formed (split) segments.
    pub open spec fn wf(&self) -> bool {
        routes_wf(self@)
    }

    /// An empty builder.
    pub fn new() -> (r: Self)
        ensures
            r@ == Seq::<RouteEntryView<T>>::empty(),
            r.wf(),
    {
        let r = RouterBuilder { entries: Vec::new() };
        proof {
            assert(r@ =~= Seq::<RouteEntryView<T>>::empty());
        }
        r
    }

    /// Registers `value` for `host` under the mount `path`, which is split
    /// into its segments; the new entry's index is the previous length.
    pub fn push(&mut self, host: &[u8], path: &[u8], strip_prefix: bool, value: T)
        requires
            old(self).wf(),
        ensures
            final(self)@ == old(self)@.push(
                RouteEntryView {
                    host: host@,
                    segments: split_segments(path@),
                    strip_prefix,
                    value,
                },
            ),
            final(self).wf(),
    {
        let segments = split_path(path);
        let entry = RouteEntry {
            host: vstd::slice::slice_to_vec(host),
            segments,
            strip_prefix,
            value,
        };
        let ghost prev = self@;
        self.entries.push(entry);
        proof {
            assert(self@ =~= prev.push(
                RouteEntryView {
                    host: host@,
                    segments: split_segments(path@),
                    strip_prefix,
                    value,
                },
            ));
            lemma_split_wf(path@, 0);
            assert forall|k: int| 0 <= k < self@.len() implies segs_wf(
                #[trigger] self@[k].segments,
            ) by {
                if k < prev.len() {
                    assert(self@[k] == prev[k]);
                }
            }
        }
    }

    /// Finishes the router. Succeeds exactly when no two registrations share
    /// one host and one normalized mount path; otherwise reports the first
    /// colliding host.
    pub fn build(self) -> (r: Result<Router<T>, BuildError>)
        requires
            self.wf(),
        ensures
            routes_unique(self@) ==> (r matches Ok(router) && router@ == self@ && router.wf()),
            !routes_unique(self@) ==> (r matches Err(e) && e matches BuildError::DuplicateRoute {
                host,
            } && exists|i: int, j: int|
                0 <= i < j < self@.len() && self@[i].host == self@[j].host
                    && self@[i].segments == self@[j].segments && self@[i].host == host@),
    {
        let n = self.entries.len();
        let mut i: usize = 0;
        while i < n
            invariant
                i <= n,
                n == self.entries.len(),
                self.wf(),
                forall|a: int, b: int|
                    0 <= a < i && a < b < self@.len() ==> !(#[trigger] self@[a].host
                        == #[trigger] self@[b].host && self@[a].segments == self@[b].segments),
            decreases n - i,
        {
            let mut j: usize = i + 1;
            while j < n
                invariant
                    i < j <= n,
                    n == self.entries.len(),
                    self.wf(),
                    forall|b: int|
                        i < b < j ==> !(self@[i as int].host == #[trigger] self@[b].host
                            && self@[i as int].segments == self@[b].segments),
                decreases n - j,
            {
                if eq_bytes(self.entries[i].host.as_slice(), self.entries[j].host.as_slice())
                    && eq_segs(&self.entries[i].segments, &self.entries[j].segments) {
                    let host = vstd::slice::slice_to_vec(self.entries[i].host.as_slice());
                    proof {
                        assert(self@[i as int].host == self@[j as int].host && self@[
                            i as int
                        ].segments == self@[j as int].segments);
                        assert(!routes_unique(self@));
                    }
                    return Err(BuildError::DuplicateRoute { host });
                }
                j += 1;
            }
            i += 1;
        }
        proof {
            assert(routes_unique(self@));
        }
        let router = Router { entries: self.entries };
        proof {
            assert(router@ =~= self@);
        }
        Ok(router)
    }
}

/// An immutable routing table: resolve by content with [`Router::lookup`],
/// or by identity with [`Router::retrieve`] using the index a lookup gave.
#[derive(Debug)]
pub struct Router<T> {
    entries: Vec<RouteEntry<T>>,
}

impl<T> View for Router<T> {
    type V = Seq<RouteEntryView<T>>;

    closed spec fn view(&self) -> Seq<RouteEntryView<T>> {
        Seq::new(self.entries@.len() as nat, |i: int| self.entries@[i]@)
    }
}

/// An exec lookup result, seen as the specification's.
pub open spec fn match_result_view(r: Option<(usize, Option<Vec<u8>>)>) -> Option<
    (int, Option<Seq<u8>>),
> {
    match r {
        Option::None => Option::None,
        Option::Some((i, tail)) => Option::Some(
            (
                i as int,
                match tail {
                    Option::None => Option::None,
                    Option::Some(v) => Option::Some(v@),
                },
            ),
        ),
    }
}

impl<T> Router<T> {
    /// Entries carry well-formed segments, and no two entries share one host
    /// and one mount path.
    pub open spec fn wf(&self) -> bool {
        routes_wf(self@) && routes_unique(self@)
    }

    /// How many entries the router holds.
    pub fn len(&self) -> (n: usize)
        ensures
            n == self@.len(),
    {
        self.entries.len()
    }

    /// Resolves `(host, path)` to the best matching entry: among the entries
    /// registered for `host` whose mount matches `path`, the one with the
    /// most segments. Returns its index and, when it strips its prefix, the
    /// rest of the request target after the matched prefix.
    pub fn lookup(&self, host: &[u8], path: &[u8]) -> (r: Option<(usize, Option<Vec<u8>>)>)
        ensures
            match_result_view(r) == lookup_spec(self@, host@, path@),
    {
        let t = find_term(path);
        let mut best: Option<(usize, usize)> = None;
        let n = self.entries.len();
        let mut i: usize = 0;
        while i < n
            invariant
                i <= n,
                n == self.entries.len(),
                n == self@.len(),
                t as int == term_len(path@),
                t <= path.len(),
                match best {
                    Option::None => best_match_in(self@, host@, path@, i as int) is None,
                    Option::Some((b, e)) => {
                        &&& best_match_in(self@, host@, path@, i as int) == Option::Some(b as int)
                        &&& b < i
                        &&& path_match(path@, self@[b as int].segments) == Option::Some(e as int)
                        &&& e <= t
                    },
                },
            decreases n - i,
        {
            let entry = &self.entries[i];
            proof {
                assert(self@[i as int] == entry@);
            }
            if eq_bytes(entry.host.as_slice(), host) {
                match match_segments(path, t, &entry.segments) {
                    Some(e) => {
                        proof {
                            assert(entry_matches(self@[i as int], host@, path@));
                            if e as int > t as int {
                                lemma_match_from_bounds(
                                    path@,
                                    t as int,
                                    entry.segments.deep_view(),
                                    0,
                                );
                            }
                        }
                        match best {
                            None => {
                                best = Some((i, e));
                            },
                            Some((b, _eb)) => {
                                if entry.segments.len() > self.entries[b].segments.len() {
                                    proof {
                                        assert(entry.segments.deep_view().len()
                                            == entry.segments@.len());
                                        assert(self.entries[b as int].segments.deep_view().len()
                                            == self.entries[b as int].segments@.len());
                                    }
                                    best = Some((i, e));
                                }
                            },
                        }
                    },
                    None => {
                        proof {
                            assert(!entry_matches(self@[i as int], host@, path@));
                        }
                    },
                }
            } else {
                proof {
                    assert(!entry_matches(self@[i as int], host@, path@));
                }
            }
            i += 1;
        }
        match best {
            None => None,
            Some((b, e)) => {
                let entry = &self.entries[b];
                let tail = if entry.strip_prefix {
                    Some(vstd::slice::slice_to_vec(vstd::slice::slice_subrange(path, e, path.len())))
                } else {
                    None
                };
                proof {
                    assert(self@[b as int] == entry@);
                }
                Some((b, tail))
            },
        }
    }

    /// Whether any entry at all is registered for `host`: the host "exists"
    /// exactly when a lookup under it could succeed for some path.
    pub fn has_host(&self, host: &[u8]) -> (r: bool)
        ensures
            r == host_known(self@, host@),
    {
        let n = self.entries.len();
        let mut i: usize = 0;
        while i < n
            invariant
                i <= n,
                n == self@.len(),
                n == self.entries.len(),
                forall|k: int| 0 <= k < i ==> #[trigger] self@[k].host != host@,
            decreases n - i,
        {
            if eq_bytes(self.entries[i].host.as_slice(), host) {
                proof {
                    assert(self@[i as int].host == host@);
                }
                return true;
            }
            i += 1;
        }
        false
    }

    /// O(1) resolve-by-identity: the entry at `index`, as a lookup assigned
    /// it, or nothing when the index is out of range.
    pub fn retrieve(&self, index: usize) -> (r: Option<&RouteEntry<T>>)
        ensures
            match r {
                Option::Some(e) => index < self@.len() && e@ == self@[index as int],
                Option::None => index >= self@.len(),
            },
    {
        if index < self.entries.len() {
            Some(&self.entries[index])
        } else {
            None
        }
    }
}

} // verus!
