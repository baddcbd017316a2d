//! Ordering of tracks: lexicographic order on text fields, the comparator
//! selected by a sort preference, and a stable sort proved to permute,
//! order, and preserve the relative order of tied tracks.

use vstd::prelude::*;

use crate::track::{track_views, SortDirection, SortKey, Track, TrackData};
use vstd::multiset::Multiset;

verus! {

/// Lexicographic "less or equal" on character sequences, by code point.
pub open spec fn lex_le(a: Seq<char>, b: Seq<char>) -> bool
    decreases a.len(),
{
    if a.len() == 0 {
        true
    } else if b.len() == 0 {
        false
    } else if a[0] == b[0] {
        lex_le(a.drop_first(), b.drop_first())
    } else {
        (a[0] as u32) < (b[0] as u32)
    }
}

/// Any two character sequences are comparable.
pub proof fn lemma_lex_le_total(a: Seq<char>, b: Seq<char>)
    ensures
        lex_le(a, b) || lex_le(b, a),
    decreases a.len(),
{
    if a.len() == 0 || b.len() == 0 {
    } else if a[0] == b[0] {
        lemma_lex_le_total(a.drop_first(), b.drop_first());
    } else {
        vstd::utf8::char_u32_cast(a[0], a[0] as u32);
        vstd::utf8::char_u32_cast(b[0], b[0] as u32);
    }
}

/// Lexicographic order is transitive.
pub proof fn lemma_lex_le_trans(a: Seq<char>, b: Seq<char>, c: Seq<char>)
    requires
        lex_le(a, b),
        lex_le(b, c),
    ensures
        lex_le(a, c),
    decreases a.len(),
{
    if a.len() == 0 || b.len() == 0 || c.len() == 0 {
    } else if a[0] == b[0] && b[0] == c[0] {
        lemma_lex_le_trans(a.drop_first(), b.drop_first(), c.drop_first());
    }
}

/// Compares two strings lexicographically by code point.
pub fn str_le(a: &str, b: &str) -> (r: bool)
    ensures
        r == lex_le(a@, b@),
{
    let a_len = a.unicode_len();
    let b_len = b.unicode_len();
    let mut i: usize = 0;
    proof {
        assert(a@.skip(0) =~= a@);
        assert(b@.skip(0) =~= b@);
    }
    loop
        invariant
            i <= a_len,
            i <= b_len,
            a_len == a@.len(),
            b_len == b@.len(),
            lex_le(a@, b@) == lex_le(a@.skip(i as int), b@.skip(i as int)),
        decreases a_len - i,
    {
        if i >= a_len {
            return true;
        }
        if i >= b_len {
            return false;
        }
        let ca = a.get_char(i);
        let cb = b.get_char(i);
        proof {
            assert(a@.skip(i as int)[0] == a@[i as int]);
            assert(b@.skip(i as int)[0] == b@[i as int]);
            assert(a@.skip(i as int).drop_first() =~= a@.skip(i as int + 1));
            assert(b@.skip(i as int).drop_first() =~= b@.skip(i as int + 1));
        }
        if ca != cb {
            return (ca as u32) < (cb as u32);
        }
        i = i + 1;
    }
}

/// "Less or equal" on the field a sort key selects.
pub open spec fn field_le(k: SortKey, a: TrackData, b: TrackData) -> bool {
    match k {
        SortKey::Title => lex_le(a.title, b.title),
        SortKey::Artist => lex_le(a.artist, b.artist),
        SortKey::Album => lex_le(a.album, b.album),
        SortKey::Duration => a.duration <= b.duration,
    }
}

/// The comparator a sort preference denotes: the key's order, reversed when
/// the direction is descending.
pub open spec fn track_le(k: SortKey, d: SortDirection, a: TrackData, b: TrackData) -> bool {
    match d {
        SortDirection::Ascending => field_le(k, a, b),
        SortDirection::Descending => field_le(k, b, a),
    }
}

/// Two tracks tie on a key when neither precedes the other on that field.
/// Ties are what sort stability is about; the direction does not affect them.
pub open spec fn key_equiv(k: SortKey, a: TrackData, b: TrackData) -> bool {
    field_le(k, a, b) && field_le(k, b, a)
}

/// The comparator is total: any two tracks are comparable.
pub proof fn lemma_track_le_total(k: SortKey, d: SortDirection, a: TrackData, b: TrackData)
    ensures
        track_le(k, d, a, b) || track_le(k, d, b, a),
{
    match k {
        SortKey::Title => lemma_lex_le_total(a.title, b.title),
        SortKey::Artist => lemma_lex_le_total(a.artist, b.artist),
        SortKey::Album => lemma_lex_le_total(a.album, b.album),
        SortKey::Duration => (),
    }
}

/// The comparator is transitive.
pub proof fn lemma_track_le_trans(
    k: SortKey,
    d: SortDirection,
    a: TrackData,
    b: TrackData,
    c: TrackData,
)
    requires
        track_le(k, d, a, b),
        track_le(k, d, b, c),
    ensures
        track_le(k, d, a, c),
{
    match d {
        SortDirection::Ascending => match k {
            SortKey::Title => lemma_lex_le_trans(a.title, b.title, c.title),
            SortKey::Artist => lemma_lex_le_trans(a.artist, b.artist, c.artist),
            SortKey::Album => lemma_lex_le_trans(a.album, b.album, c.album),
            SortKey::Duration => (),
        },
        SortDirection::Descending => match k {
            SortKey::Title => lemma_lex_le_trans(c.title, b.title, a.title),
            SortKey::Artist => lemma_lex_le_trans(c.artist, b.artist, a.artist),
            SortKey::Album => lemma_lex_le_trans(c.album, b.album, a.album),
            SortKey::Duration => (),
        },
    }
}

/// Decides the comparator on two concrete tracks.
pub fn compare_tracks(k: SortKey, d: SortDirection, a: &Track, b: &Track) -> (r: bool)
    ensures
        r == track_le(k, d, a@, b@),
{
    let (lo, hi) = match d {
        SortDirection::Ascending => (a, b),
        SortDirection::Descending => (b, a),
    };
    match k {
        SortKey::Title => str_le(lo.title.as_str(), hi.title.as_str()),
        SortKey::Artist => str_le(lo.artist.as_str(), hi.artist.as_str()),
        SortKey::Album => str_le(lo.album.as_str(), hi.album.as_str()),
        SortKey::Duration => lo.duration <= hi.duration,
    }
}

/// Tracks in non-decreasing comparator order.
pub open spec fn sorted_by_key(k: SortKey, d: SortDirection, s: Seq<TrackData>) -> bool {
    forall|i: int, j: int| 0 <= i < j < s.len() ==> track_le(k, d, s[i], s[j])
}

/// Where a stable insertion puts `x` in `s`: after every element that is
/// less than or equal to it, before the first strictly greater one.
pub open spec fn insert_pos(k: SortKey, d: SortDirection, x: TrackData, s: Seq<TrackData>) -> int
    decreases s.len(),
{
    if s.len() == 0 {
        0
    } else if !track_le(k, d, s[0], x) {
        0
    } else {
        1 + insert_pos(k, d, x, s.drop_first())
    }
}

/// `s` with `x` inserted at its stable position.
pub open spec fn insert_sorted(
    k: SortKey,
    d: SortDirection,
    x: TrackData,
    s: Seq<TrackData>,
) -> Seq<TrackData> {
    let p = insert_pos(k, d, x, s);
    s.take(p) + seq![x] + s.skip(p)
}

/// The order a stable sort produces: each element, taken from first to last,
/// inserted at its stable position among the already sorted earlier ones.
pub open spec fn sort_spec(k: SortKey, d: SortDirection, s: Seq<TrackData>) -> Seq<TrackData>
    decreases s.len(),
{
    if s.len() == 0 {
        Seq::empty()
    } else {
        insert_sorted(k, d, s.last(), sort_spec(k, d, s.drop_last()))
    }
}

/// The closure that keeps exactly the tracks tying with `t` on key `k`;
/// filtering a sequence through it yields one tie class in display order.
pub open spec fn same_key_as(k: SortKey, t: TrackData) -> spec_fn(TrackData) -> bool {
    |y: TrackData| key_equiv(k, y, t)
}

proof fn lemma_insert_pos(k: SortKey, d: SortDirection, x: TrackData, s: Seq<TrackData>)
    ensures
        0 <= insert_pos(k, d, x, s) <= s.len(),
        forall|m: int| 0 <= m < insert_pos(k, d, x, s) ==> track_le(k, d, s[m], x),
        insert_pos(k, d, x, s) < s.len() ==> !track_le(k, d, s[insert_pos(k, d, x, s)], x),
    decreases s.len(),
{
    if s.len() == 0 {
    } else if !track_le(k, d, s[0], x) {
    } else {
        lemma_insert_pos(k, d, x, s.drop_first());
        let p = insert_pos(k, d, x, s);
        assert forall|m: int| 0 <= m < p implies track_le(k, d, s[m], x) by {
            if m > 0 {
                assert(s.drop_first()[m - 1] == s[m]);
            }
        }
        if p < s.len() {
            assert(s.drop_first()[p - 1] == s[p]);
        }
    }
}

proof fn lemma_insert_sorted_multiset(k: SortKey, d: SortDirection, x: TrackData, s: Seq<TrackData>)
    ensures
        insert_sorted(k, d, x, s).len() == s.len() + 1,
        insert_sorted(k, d, x, s).to_multiset() == s.to_multiset().insert(x),
{
    lemma_insert_pos(k, d, x, s);
    let p = insert_pos(k, d, x, s);
    vstd::seq_lib::lemma_multiset_commutative(s.take(p) + seq![x], s.skip(p));
    vstd::seq_lib::lemma_multiset_commutative(s.take(p), seq![x]);
    vstd::seq_lib::lemma_multiset_commutative(s.take(p), s.skip(p));
    assert(s.take(p) + s.skip(p) =~= s);
    seq![x].to_multiset_ensures();
    Seq::<TrackData>::empty().to_multiset_ensures();
    assert(seq![x] =~= Seq::<TrackData>::empty().push(x));
    assert(Seq::<TrackData>::empty().to_multiset() =~= Multiset::<TrackData>::empty());
    assert(seq![x].to_multiset() =~= Multiset::<TrackData>::empty().insert(x));
    assert((s.take(p).to_multiset().add(seq![x].to_multiset())).add(s.skip(p).to_multiset())
        =~= (s.take(p).to_multiset().add(s.skip(p).to_multiset())).insert(x));
}

proof fn lemma_insert_sorted_sorted(k: SortKey, d: SortDirection, x: TrackData, s: Seq<TrackData>)
    requires
        sorted_by_key(k, d, s),
    ensures
        sorted_by_key(k, d, insert_sorted(k, d, x, s)),
{
    lemma_insert_pos(k, d, x, s);
    let p = insert_pos(k, d, x, s);
    let r = insert_sorted(k, d, x, s);
    assert(r.len() == s.len() + 1);
    assert forall|i: int| 0 <= i < r.len() implies (if i < p {
        r[i] == s[i]
    } else if i == p {
        r[i] == x
    } else {
        r[i] == s[i - 1]
    }) by {}
    if p < s.len() {
        lemma_track_le_total(k, d, s[p], x);
    }
    assert forall|i: int, j: int| 0 <= i < j < r.len() implies track_le(k, d, r[i], r[j]) by {
        if i < p && j == p {
            // s[i] precedes x by choice of p
        } else if i == p && j > p {
            if j - 1 > p {
                lemma_track_le_trans(k, d, x, s[p], s[j - 1]);
            }
        }
    }
}

proof fn lemma_filter_all_false(s: Seq<TrackData>, pred: spec_fn(TrackData) -> bool)
    requires
        forall|i: int| 0 <= i < s.len() ==> !pred(s[i]),
    ensures
        s.filter(pred) == Seq::<TrackData>::empty(),
    decreases s.len(),
{
    reveal(Seq::filter);
    if s.len() > 0 {
        lemma_filter_all_false(s.drop_last(), pred);
    }
}

proof fn lemma_filter_singleton(x: TrackData, pred: spec_fn(TrackData) -> bool)
    ensures
        pred(x) ==> seq![x].filter(pred) == seq![x],
        !pred(x) ==> seq![x].filter(pred) == Seq::<TrackData>::empty(),
{
    reveal(Seq::filter);
    assert(seq![x].drop_last() =~= Seq::<TrackData>::empty());
    assert(Seq::<TrackData>::empty().filter(pred) == Seq::<TrackData>::empty());
    assert(Seq::<TrackData>::empty().push(x) =~= seq![x]);
}

proof fn lemma_insert_sorted_filter(
    k: SortKey,
    d: SortDirection,
    x: TrackData,
    s: Seq<TrackData>,
    t: TrackData,
)
    requires
        sorted_by_key(k, d, s),
    ensures
        key_equiv(k, x, t) ==> insert_sorted(k, d, x, s).filter(same_key_as(k, t)) == s.filter(
            same_key_as(k, t),
        ).push(x),
        !key_equiv(k, x, t) ==> insert_sorted(k, d, x, s).filter(same_key_as(k, t)) == s.filter(
            same_key_as(k, t),
        ),
{
    lemma_insert_pos(k, d, x, s);
    let p = insert_pos(k, d, x, s);
    let pred = same_key_as(k, t);
    Seq::filter_distributes_over_add(s.take(p) + seq![x], s.skip(p), pred);
    Seq::filter_distributes_over_add(s.take(p), seq![x], pred);
    Seq::filter_distributes_over_add(s.take(p), s.skip(p), pred);
    assert(s.take(p) + s.skip(p) =~= s);
    lemma_filter_singleton(x, pred);
    if key_equiv(k, x, t) {
        // No element at or beyond the insertion point ties with `t`:
        // each is strictly greater than `x`, which ties with `t`.
        assert forall|i: int| 0 <= i < s.skip(p).len() implies !pred(s.skip(p)[i]) by {
            let y = s.skip(p)[i];
            assert(y == s[p + i]);
            if pred(y) {
                // y ties with t and x ties with t, so y and x tie too
                lemma_track_le_trans(k, SortDirection::Ascending, y, t, x);
                lemma_track_le_trans(k, SortDirection::Ascending, x, t, y);
                assert(track_le(k, d, y, x) && track_le(k, d, x, y));
                if i > 0 {
                    assert(track_le(k, d, s[p], s[p + i]));
                    lemma_track_le_trans(k, d, s[p], y, x);
                } else {
                    assert(track_le(k, d, s[p], x));
                }
                assert(false);
            }
        }
        lemma_filter_all_false(s.skip(p), pred);
        assert(s.filter(pred) + seq![x] =~= s.filter(pred).push(x));
        assert(insert_sorted(k, d, x, s).filter(pred) =~= s.filter(pred).push(x));
    } else {
        assert(insert_sorted(k, d, x, s).filter(pred) =~= s.filter(pred));
    }
}

/// A sort is a pure permutation: nothing is added, removed, or changed;
/// in particular the sorted sequence has the same length and the same
/// multiset of tracks, and it is in comparator order.
pub proof fn lemma_sort_spec_basics(k: SortKey, d: SortDirection, s: Seq<TrackData>)
    ensures
        sort_spec(k, d, s).len() == s.len(),
        sort_spec(k, d, s).to_multiset() == s.to_multiset(),
        sorted_by_key(k, d, sort_spec(k, d, s)),
    decreases s.len(),
{
    if s.len() == 0 {
        s.to_multiset_ensures();
        sort_spec(k, d, s).to_multiset_ensures();
        assert(sort_spec(k, d, s).to_multiset() =~= s.to_multiset());
    } else {
        let rest = s.drop_last();
        let x = s.last();
        lemma_sort_spec_basics(k, d, rest);
        lemma_insert_sorted_multiset(k, d, x, sort_spec(k, d, rest));
        lemma_insert_sorted_sorted(k, d, x, sort_spec(k, d, rest));
        rest.to_multiset_ensures();
        assert(rest.push(x) =~= s);
    }
}

/// Stability: sorting does not reorder tracks that tie on the sort key.
/// For any track `t`, the subsequence of tracks tying with `t` is the same
/// before and after the sort.
pub proof fn lemma_sort_spec_stable(k: SortKey, d: SortDirection, s: Seq<TrackData>, t: TrackData)
    ensures
        sort_spec(k, d, s).filter(same_key_as(k, t)) == s.filter(same_key_as(k, t)),
    decreases s.len(),
{
    let pred = same_key_as(k, t);
    reveal(Seq::filter);
    if s.len() == 0 {
    } else {
        let rest = s.drop_last();
        let x = s.last();
        lemma_sort_spec_stable(k, d, rest, t);
        lemma_sort_spec_basics(k, d, rest);
        lemma_insert_sorted_filter(k, d, x, sort_spec(k, d, rest), t);
    }
}

/// A sequence already in comparator order is its own stable sort.
pub proof fn lemma_sort_spec_of_sorted(k: SortKey, d: SortDirection, s: Seq<TrackData>)
    requires
        sorted_by_key(k, d, s),
    ensures
        sort_spec(k, d, s) == s,
    decreases s.len(),
{
    if s.len() > 0 {
        let rest = s.drop_last();
        let x = s.last();
        assert forall|i: int, j: int| 0 <= i < j < rest.len() implies track_le(
            k,
            d,
            rest[i],
            rest[j],
        ) by {
            assert(rest[i] == s[i] && rest[j] == s[j]);
        }
        lemma_sort_spec_of_sorted(k, d, rest);
        lemma_insert_pos(k, d, x, rest);
        let p = insert_pos(k, d, x, rest);
        if p < rest.len() {
            assert(track_le(k, d, s[p], s[s.len() - 1]));
            assert(false);
        }
        assert(rest.take(p) =~= rest);
        assert(rest.skip(p) =~= Seq::<TrackData>::empty());
        assert(rest.take(p) + seq![x] + rest.skip(p) =~= s);
    }
}

/// Sorting is idempotent: sorting an already sorted playlist changes nothing.
pub proof fn lemma_sort_spec_idempotent(k: SortKey, d: SortDirection, s: Seq<TrackData>)
    ensures
        sort_spec(k, d, sort_spec(k, d, s)) == sort_spec(k, d, s),
{
    lemma_sort_spec_basics(k, d, s);
    lemma_sort_spec_of_sorted(k, d, sort_spec(k, d, s));
}

/// Stable insertion sort.  Returns the tracks of `v` in the order
/// [`sort_spec`] prescribes for the chosen key and direction.
pub fn sort_tracks(k: SortKey, d: SortDirection, v: &Vec<Track>) -> (r: Vec<Track>)
    ensures
        track_views(r@) == sort_spec(k, d, track_views(v@)),
{
    let mut r: Vec<Track> = Vec::new();
    let mut i: usize = 0;
    proof {
        assert(track_views(v@).take(0) =~= Seq::<TrackData>::empty());
        assert(track_views(r@) =~= Seq::<TrackData>::empty());
    }
    while i < v.len()
        invariant
            i <= v@.len(),
            track_views(r@) == sort_spec(k, d, track_views(v@).take(i as int)),
            r@.len() == i,
        decreases v@.len() - i,
    {
        let x = v[i].clone();
        proof {
            lemma_sort_spec_basics(k, d, track_views(v@).take(i as int));
        }
        let mut j: usize = 0;
        while j < r.len() && compare_tracks(k, d, &r[j], &x)
            invariant
                j <= r@.len(),
                forall|m: int| 0 <= m < j ==> track_le(k, d, track_views(r@)[m], x@),
            decreases r@.len() - j,
        {
            j = j + 1;
        }
        proof {
            let rv = track_views(r@);
            lemma_insert_pos(k, d, x@, rv);
            let p = insert_pos(k, d, x@, rv);
            if p < j {
                assert(track_le(k, d, rv[p], x@));
                assert(false);
            }
            if (j as int) < p {
                assert(track_le(k, d, rv[j as int], x@));
                assert(false);
            }
            assert(j as int == p);
        }
        let ghost old_r = r@;
        r.insert(j, x);
        i = i + 1;
        proof {
            let rv = track_views(old_r);
            let p = j as int;
            assert(track_views(r@) =~= rv.take(p) + seq![x@] + rv.skip(p));
            let tv = track_views(v@);
            assert(tv.take(i as int).drop_last() =~= tv.take(i as int - 1));
            assert(tv.take(i as int).last() == x@);
            assert(track_views(r@) == sort_spec(k, d, tv.take(i as int)));
        }
    }
    proof {
        assert(track_views(v@).take(v@.len() as int) =~= track_views(v@));
    }
    r
}

/// Every track of the input is still present, by identity, after sorting.
pub proof fn lemma_sort_spec_keeps_track(k: SortKey, d: SortDirection, s: Seq<TrackData>, i: int)
    requires
        0 <= i < s.len(),
    ensures
        exists|j: int|
            0 <= j < sort_spec(k, d, s).len() && sort_spec(k, d, s)[j] == s[i],
{
    lemma_sort_spec_basics(k, d, s);
    s.to_multiset_ensures();
    sort_spec(k, d, s).to_multiset_ensures();
    assert(s.contains(s[i]));
    assert(s.to_multiset().count(s[i]) > 0);
    assert(sort_spec(k, d, s).to_multiset().count(s[i]) > 0);
    assert(sort_spec(k, d, s).contains(s[i]));
}

} // verus!
