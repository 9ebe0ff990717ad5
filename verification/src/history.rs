//! The listening history: which downloads are already recorded, and the
//! prompt that tells the recommendation model what the user listens to.
//!
//! The history file holds one JSON record per line; reading and writing the
//! file and (de)serialising the records happen around these functions.
use vstd::prelude::*;
use crate::models::Metadata;
use crate::text::{decimal, decimal_string, join, join_strings, string_views};

verus! {

broadcast use vstd::string::group_string_axioms;

// ---------------------------------------------------------------------
// Recording a download once
// ---------------------------------------------------------------------

/// Two records name the same track of the same artist.
pub open spec fn same_track(a: Metadata, b: Metadata) -> bool {
    a.track_name@ == b.track_name@ && a.artist_name@ == b.artist_name@
}

/// Whether the history `entries` already holds the track of `m`.
pub open spec fn recorded(entries: Seq<Metadata>, m: Metadata) -> bool {
    exists|i: int| 0 <= i < entries.len() && same_track(#[trigger] entries[i], m)
}

/// Whether `meta` must be appended to a history holding `entries`: only
/// when no record of the same artist and track is there yet.
pub fn should_append(entries: &Vec<Metadata>, meta: &Metadata) -> (r: bool)
    ensures
        r == !recorded(entries@, *meta),
{
    let mut i: usize = 0;
    while i < entries.len()
        invariant
            i <= entries@.len(),
            forall|k: int| 0 <= k < i ==> !same_track(#[trigger] entries@[k], *meta),
        decreases entries@.len() - i,
    {
        if entries[i].track_name == meta.track_name && entries[i].artist_name == meta.artist_name {
            assert(same_track(entries@[i as int], *meta));
            return false;
        }
        i = i + 1;
    }
    true
}

/// A track that has been appended is never appended a second time.
pub proof fn lemma_append_once(entries: Seq<Metadata>, m: Metadata)
    ensures
        recorded(entries.push(m), m),
{
    assert(same_track(entries.push(m)[entries.len() as int], m));
}

// ---------------------------------------------------------------------
// Counting artists
// ---------------------------------------------------------------------

/// The first index `k >= from` at which `t` holds the artist `a`.
pub open spec fn name_index_from(t: Seq<(Seq<char>, nat)>, a: Seq<char>, from: int) -> Option<int>
    decreases t.len() - from,
{
    if from < 0 || from >= t.len() {
        None
    } else if t[from].0 == a {
        Some(from)
    } else {
        name_index_from(t, a, from + 1)
    }
}

/// The artists of `names` in the order in which they first appear, each
/// with the number of times it appears.
pub open spec fn tally(names: Seq<Seq<char>>) -> Seq<(Seq<char>, nat)>
    decreases names.len(),
{
    if names.len() == 0 {
        Seq::empty()
    } else {
        let t = tally(names.drop_last());
        let a = names.last();
        match name_index_from(t, a, 0) {
            Some(k) => t.update(k, (a, t[k].1 + 1)),
            None => t.push((a, 1)),
        }
    }
}

/// Inserts `x` after every entry of `r`, counted from the end, whose count
/// is below that of `x` has been passed: into a list sorted by decreasing
/// count, `x` goes after all entries that count at least as much.
pub open spec fn insert_ranked(r: Seq<(Seq<char>, nat)>, x: (Seq<char>, nat)) -> Seq<
    (Seq<char>, nat),
>
    decreases r.len(),
{
    if r.len() == 0 {
        seq![x]
    } else if r.last().1 >= x.1 {
        r.push(x)
    } else {
        insert_ranked(r.drop_last(), x).push(r.last())
    }
}

/// `t` sorted by decreasing count; entries with equal counts keep their
/// order (a stable sort).
pub open spec fn ranked(t: Seq<(Seq<char>, nat)>) -> Seq<(Seq<char>, nat)>
    decreases t.len(),
{
    if t.len() == 0 {
        Seq::empty()
    } else {
        insert_ranked(ranked(t.drop_last()), t.last())
    }
}

/// Whether `r` is sorted by decreasing count.
pub open spec fn sorted_by_count(r: Seq<(Seq<char>, nat)>) -> bool {
    forall|i: int, j: int| 0 <= i < j < r.len() ==> r[i].1 >= r[j].1
}

pub proof fn lemma_insert_ranked_at(r: Seq<(Seq<char>, nat)>, x: (Seq<char>, nat), p: int)
    requires
        0 <= p <= r.len(),
        forall|k: int| p <= k < r.len() ==> (#[trigger] r[k]).1 < x.1,
        p == 0 || r[p - 1].1 >= x.1,
    ensures
        insert_ranked(r, x) == r.insert(p, x),
    decreases r.len(),
{
    if r.len() == 0 {
        assert(r.insert(p, x) =~= seq![x]);
    } else if r.last().1 >= x.1 {
        assert(r.insert(p, x) =~= r.push(x));
    } else {
        lemma_insert_ranked_at(r.drop_last(), x, p);
        assert(r.drop_last().insert(p, x).push(r.last()) =~= r.insert(p, x));
    }
}

pub proof fn lemma_insert_ranked_sorted(r: Seq<(Seq<char>, nat)>, x: (Seq<char>, nat))
    requires
        sorted_by_count(r),
    ensures
        sorted_by_count(insert_ranked(r, x)),
        insert_ranked(r, x).to_multiset() == r.to_multiset().insert(x),
    decreases r.len(),
{
    broadcast use vstd::seq_lib::group_to_multiset_ensures;

    if r.len() == 0 {
        assert(seq![x] =~= r.push(x));
    } else if r.last().1 >= x.1 {
    } else {
        let d = r.drop_last();
        let l = r.last();
        assert(sorted_by_count(d));
        lemma_insert_ranked_sorted(d, x);
        let s = insert_ranked(d, x);
        assert forall|i: int| 0 <= i < s.len() implies (#[trigger] s[i]).1 >= l.1 by {
            assert(s.contains(s[i]));
            assert(s.to_multiset().count(s[i]) > 0);
            if s[i] != x {
                assert(d.to_multiset().count(s[i]) > 0);
                assert(d.contains(s[i]));
                let k = choose|k: int| 0 <= k < d.len() && d[k] == s[i];
                assert(r[k] == d[k]);
            }
        }
        assert(sorted_by_count(s.push(l)));
        assert(d.push(l) =~= r);
        assert(s.push(l).to_multiset() =~= s.to_multiset().insert(l));
        assert(r.to_multiset() =~= d.to_multiset().insert(l));
        assert(s.push(l).to_multiset() =~= r.to_multiset().insert(x));
    }
}

/// Ranking keeps every entry, and sorts by decreasing count.
pub proof fn lemma_ranked(t: Seq<(Seq<char>, nat)>)
    ensures
        sorted_by_count(ranked(t)),
        ranked(t).to_multiset() == t.to_multiset(),
    decreases t.len(),
{
    broadcast use vstd::seq_lib::group_to_multiset_ensures;

    if t.len() == 0 {
        assert(ranked(t) =~= t);
    } else {
        lemma_ranked(t.drop_last());
        lemma_insert_ranked_sorted(ranked(t.drop_last()), t.last());
        assert(t.drop_last().push(t.last()) =~= t);
    }
}

/// How many times `a` occurs in `names`.
pub open spec fn occurrences(names: Seq<Seq<char>>, a: Seq<char>) -> nat
    decreases names.len(),
{
    if names.len() == 0 {
        0
    } else {
        occurrences(names.drop_last(), a) + if names.last() == a {
            1nat
        } else {
            0nat
        }
    }
}

proof fn lemma_name_index_from(t: Seq<(Seq<char>, nat)>, a: Seq<char>, from: int)
    requires
        0 <= from,
    ensures
        name_index_from(t, a, from) matches Some(k) ==> from <= k < t.len() && t[k].0 == a,
        name_index_from(t, a, from) is None ==> forall|k: int| from <= k < t.len() ==> t[k].0 != a,
    decreases t.len() - from,
{
    if from < t.len() && t[from].0 != a {
        lemma_name_index_from(t, a, from + 1);
    }
}

/// Counting artists lists each artist that occurs exactly once, with the
/// number of records by that artist.
pub proof fn lemma_tally(names: Seq<Seq<char>>)
    ensures
        forall|k: int|
            0 <= k < tally(names).len() ==> (#[trigger] tally(names)[k]).1 == occurrences(
                names,
                tally(names)[k].0,
            ),
        forall|i: int, j: int|
            0 <= i < j < tally(names).len() ==> tally(names)[i].0 != tally(names)[j].0,
        forall|a: Seq<char>|
            occurrences(names, a) > 0 <==> exists|k: int|
                0 <= k < tally(names).len() && (#[trigger] tally(names)[k]).0 == a,
    decreases names.len(),
{
    let t = tally(names);
    if names.len() > 0 {
        let d = names.drop_last();
        let a = names.last();
        let td = tally(d);
        lemma_tally(d);
        lemma_name_index_from(td, a, 0);
        assert forall|k: int| 0 <= k < t.len() implies (#[trigger] t[k]).1 == occurrences(
            names,
            t[k].0,
        ) by {
            match name_index_from(td, a, 0) {
                Some(ki) => {
                    if k != ki {
                        assert(t[k] == td[k]);
                        assert(td[k].0 != td[ki].0);
                    }
                },
                None => {
                    if k < td.len() {
                        assert(t[k] == td[k]);
                    } else {
                        assert(t[k] == (a, 1nat));
                        if occurrences(d, a) > 0 {
                            let j = choose|j: int| 0 <= j < td.len() && (#[trigger] td[j]).0 == a;
                        }
                    }
                },
            }
        }
        assert forall|b: Seq<char>| occurrences(names, b) > 0 <==> exists|k: int|
            0 <= k < t.len() && (#[trigger] t[k]).0 == b by {
            if occurrences(names, b) > 0 {
                if b == a {
                    match name_index_from(td, a, 0) {
                        Some(k) => assert(t[k].0 == a),
                        None => assert(t[td.len() as int].0 == a),
                    }
                } else {
                    assert(occurrences(d, b) > 0);
                    let k = choose|k: int| 0 <= k < td.len() && (#[trigger] td[k]).0 == b;
                    assert(t[k].0 == b);
                }
            }
            if exists|k: int| 0 <= k < t.len() && (#[trigger] t[k]).0 == b {
                let k = choose|k: int| 0 <= k < t.len() && (#[trigger] t[k]).0 == b;
                if b != a {
                    assert(k < td.len() && td[k].0 == b);
                }
            }
        }
    }
}

// ---------------------------------------------------------------------
// The prompt
// ---------------------------------------------------------------------

/// `artist - track`, as the prompt lists a download.
pub open spec fn track_line(m: Metadata) -> Seq<char> {
    m.artist_name@ + " - "@ + m.track_name@
}

/// The smaller of two numbers.
pub open spec fn min(a: nat, b: nat) -> nat {
    if a <= b {
        a
    } else {
        b
    }
}

/// The prompt that describes a non-empty history file whose records are
/// `entries`: how many songs were downloaded, the (up to 15) artists
/// listened to most, and the (up to 10) last tracks, newest first.
pub open spec fn history_prompt(entries: Seq<Metadata>) -> Seq<char> {
    let t = ranked(tally(entries.map_values(|m: Metadata| m.artist_name@)));
    let na = t.len();
    let top = join(t.take(min(na, 15) as int).map_values(|p: (Seq<char>, nat)| p.0), ", "@);
    let tracks = entries.map_values(|m: Metadata| track_line(m));
    let nt = tracks.len();
    let last = join(tracks.reverse().take(min(nt, 10) as int), "\n"@);
    let artist_section = if na == 1 {
        "Their most listened to artist is: "@ + top + "."@
    } else {
        "Their top "@ + decimal(min(na, 15)) + " most listened to artists are: "@ + top + "."@
    };
    let track_section = if nt == 1 {
        "Here is the last track they downloaded:\n"@ + last
    } else {
        "Here are the last "@ + decimal(min(nt, 10)) + " tracks they downloaded:\n"@ + last
    };
    "You are a helpful music recommendation engine. The user has downloaded "@ + decimal(nt)
        + " song(s) total. "@ + artist_section + " "@ + track_section
        + " Based on their taste, suggest 3 new songs they might like."@
}

/// The prompt used when there is no history file yet.
pub fn no_history_prompt() -> (r: String)
    ensures
        r@
            == "You are a helpful music recommendation engine. The user has no listening history yet. Suggest three songs that recently became popular and are currently trending."@,
{
    String::from_str(
        "You are a helpful music recommendation engine. The user has no listening history yet. Suggest three songs that recently became popular and are currently trending.",
    )
}

/// The artist/count pairs held by two parallel vectors.
pub open spec fn pairs(names: Seq<String>, counts: Seq<usize>) -> Seq<(Seq<char>, nat)> {
    Seq::new(names.len(), |i: int| (names[i]@, counts[i] as nat))
}

/// Counts the artists of `entries` (see `tally`).
fn count_artists(entries: &Vec<Metadata>) -> (r: (Vec<String>, Vec<usize>))
    ensures
        r.0@.len() == r.1@.len(),
        pairs(r.0@, r.1@) == tally(entries@.map_values(|m: Metadata| m.artist_name@)),
{
    let ghost all = entries@.map_values(|m: Metadata| m.artist_name@);
    let mut names: Vec<String> = Vec::new();
    let mut counts: Vec<usize> = Vec::new();
    let mut i: usize = 0;
    assert(pairs(names@, counts@) =~= tally(all.take(0)));
    while i < entries.len()
        invariant
            i <= entries@.len(),
            all == entries@.map_values(|m: Metadata| m.artist_name@),
            names@.len() == counts@.len(),
            pairs(names@, counts@) == tally(all.take(i as int)),
            forall|k: int| 0 <= k < counts@.len() ==> counts@[k] <= i,
        decreases entries@.len() - i,
    {
        let a = &entries[i].artist_name;
        let ghost t = pairs(names@, counts@);
        assert(all.take(i + 1).drop_last() =~= all.take(i as int));
        assert(all.take(i + 1).last() == a@);
        let mut k: usize = 0;
        while k < names.len() && names[k] != *a
            invariant
                k <= names@.len(),
                names@.len() == counts@.len(),
                t == pairs(names@, counts@),
                name_index_from(t, a@, 0) == name_index_from(t, a@, k as int),
            decreases names@.len() - k,
        {
            k = k + 1;
        }
        if k < names.len() {
            assert(t[k as int].0 == a@);
            let c = counts[k];
            counts.set(k, c + 1);
            assert(pairs(names@, counts@) =~= t.update(k as int, (a@, t[k as int].1 + 1)));
        } else {
            let ghost old_names = names@;
            names.push(a.clone());
            counts.push(1);
            assert(pairs(names@, counts@) =~= t.push((a@, 1)));
        }
        i = i + 1;
    }
    assert(all.take(entries@.len() as int) =~= all);
    (names, counts)
}

/// Sorts the counted artists by decreasing count (see `ranked`).
fn rank_artists(names: &Vec<String>, counts: &Vec<usize>) -> (r: (Vec<String>, Vec<usize>))
    requires
        names@.len() == counts@.len(),
    ensures
        r.0@.len() == r.1@.len(),
        pairs(r.0@, r.1@) == ranked(pairs(names@, counts@)),
{
    let ghost t = pairs(names@, counts@);
    let mut rn: Vec<String> = Vec::new();
    let mut rc: Vec<usize> = Vec::new();
    let mut i: usize = 0;
    assert(pairs(rn@, rc@) =~= ranked(t.take(0)));
    while i < names.len()
        invariant
            i <= names@.len(),
            names@.len() == counts@.len(),
            t == pairs(names@, counts@),
            rn@.len() == rc@.len(),
            pairs(rn@, rc@) == ranked(t.take(i as int)),
        decreases names@.len() - i,
    {
        let ghost r = pairs(rn@, rc@);
        let ghost x = t[i as int];
        let c = counts[i];
        let mut p = rn.len();
        while p > 0 && rc[p - 1] < c
            invariant
                p <= rn@.len(),
                rn@.len() == rc@.len(),
                r == pairs(rn@, rc@),
                x.1 == c,
                forall|k: int| p <= k < r.len() ==> (#[trigger] r[k]).1 < x.1,
            decreases p,
        {
            p = p - 1;
        }
        proof {
            lemma_insert_ranked_at(r, x, p as int);
        }
        rn.insert(p, names[i].clone());
        rc.insert(p, c);
        assert(pairs(rn@, rc@) =~= r.insert(p as int, x));
        assert(t.take(i + 1).drop_last() =~= t.take(i as int));
        i = i + 1;
    }
    assert(t.take(names@.len() as int) =~= t);
    (rn, rc)
}

/// The prompt that describes a history whose records are `entries`.
pub fn history_prompt_of(entries: &Vec<Metadata>) -> (r: String)
    ensures
        r@ == history_prompt(entries@),
{
    let (names, counts) = count_artists(entries);
    let (rn, rc) = rank_artists(&names, &counts);
    let ghost t = ranked(tally(entries@.map_values(|m: Metadata| m.artist_name@)));
    let na = rn.len();
    let take_a = if na < 15 {
        na
    } else {
        15
    };
    let mut top_names: Vec<String> = Vec::new();
    let mut k: usize = 0;
    while k < take_a
        invariant
            take_a <= rn@.len(),
            rn@.len() == rc@.len(),
            t == pairs(rn@, rc@),
            k <= take_a,
            string_views(top_names@) == t.take(k as int).map_values(|p: (Seq<char>, nat)| p.0),
        decreases take_a - k,
    {
        let ghost old_top = string_views(top_names@);
        top_names.push(rn[k].clone());
        assert(string_views(top_names@) =~= old_top.push(t[k as int].0));
        assert(t.take(k + 1).map_values(|p: (Seq<char>, nat)| p.0) =~= t.take(k as int).map_values(
            |p: (Seq<char>, nat)| p.0,
        ).push(t[k as int].0));
        k = k + 1;
    }
    let top = join_strings(&top_names, ", ");
    let ghost tracks = entries@.map_values(|m: Metadata| track_line(m));
    let nt = entries.len();
    let take_t = if nt < 10 {
        nt
    } else {
        10
    };
    let mut last_tracks: Vec<String> = Vec::new();
    let mut j: usize = 0;
    while j < take_t
        invariant
            take_t <= entries@.len(),
            nt == entries@.len(),
            tracks == entries@.map_values(|m: Metadata| track_line(m)),
            j <= take_t,
            string_views(last_tracks@) == tracks.reverse().take(j as int),
        decreases take_t - j,
    {
        let m = &entries[nt - 1 - j];
        let mut line = m.artist_name.clone();
        line.append(" - ");
        line.append(m.track_name.as_str());
        assert(line@ == tracks[nt - 1 - j]);
        let ghost old_last = string_views(last_tracks@);
        last_tracks.push(line);
        assert(string_views(last_tracks@) =~= old_last.push(tracks[nt - 1 - j]));
        assert(tracks.reverse().take(j + 1) =~= tracks.reverse().take(j as int).push(
            tracks[nt - 1 - j],
        ));
        j = j + 1;
    }
    let last = join_strings(&last_tracks, "\n");
    let mut artist_section: String;
    if na == 1 {
        artist_section = String::from_str("Their most listened to artist is: ");
        artist_section.append(top.as_str());
        artist_section.append(".");
    } else {
        artist_section = String::from_str("Their top ");
        let count = decimal_string(take_a as u64);
        artist_section.append(count.as_str());
        artist_section.append(" most listened to artists are: ");
        artist_section.append(top.as_str());
        artist_section.append(".");
    }
    let mut track_section: String;
    if nt == 1 {
        track_section = String::from_str("Here is the last track they downloaded:\n");
        track_section.append(last.as_str());
    } else {
        track_section = String::from_str("Here are the last ");
        let count = decimal_string(take_t as u64);
        track_section.append(count.as_str());
        track_section.append(" tracks they downloaded:\n");
        track_section.append(last.as_str());
    }
    let mut prompt = String::from_str(
        "You are a helpful music recommendation engine. The user has downloaded ",
    );
    let total = decimal_string(nt as u64);
    prompt.append(total.as_str());
    prompt.append(" song(s) total. ");
    prompt.append(artist_section.as_str());
    prompt.append(" ");
    prompt.append(track_section.as_str());
    prompt.append(" Based on their taste, suggest 3 new songs they might like.");
    prompt
}

/// A download is a duplicate exactly when the history holds a record with
/// both its track name and its artist name: records of the same artist with
/// another track, or of another artist with the same track, never stop it
/// from being appended.
pub proof fn lemma_duplicate_means_same_track_and_artist(entries: Seq<Metadata>, m: Metadata)
    ensures
        recorded(entries, m) <==> exists|i: int|
            0 <= i < entries.len() && (#[trigger] entries[i]).track_name@ == m.track_name@
                && entries[i].artist_name@ == m.artist_name@,
        (forall|i: int| 0 <= i < entries.len() ==> (#[trigger] entries[i]).track_name@ != m.track_name@)
            ==> !recorded(entries, m),
        (forall|i: int| 0 <= i < entries.len() ==> (#[trigger] entries[i]).artist_name@ != m.artist_name@)
            ==> !recorded(entries, m),
{
}

} // verus!
