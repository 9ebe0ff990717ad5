//! Finding the metadata of a download: search for "channel title", and
//! while nothing is found, drop the last word and search again.
use vstd::prelude::*;
use crate::models::{AudioDownload, Metadata};
use crate::text::{chars_of, string_of_range, trim, trim_bounds};

verus! {

broadcast use vstd::string::group_string_axioms;

/// Why a search failed.
#[derive(Clone, Debug)]
pub struct ProviderError {
    pub message: String,
}

/// The most searches made for one download.
pub open spec fn max_attempts() -> nat {
    7
}

/// The first search for a download: `channel title`.
pub open spec fn first_query(music: AudioDownload) -> Seq<char> {
    music.channel@ + " "@ + music.title@
}

/// The index of the last space of `q`.
pub open spec fn last_space(q: Seq<char>) -> Option<int>
    decreases q.len(),
{
    if q.len() == 0 {
        None
    } else if q.last() == ' ' {
        Some(q.len() - 1)
    } else {
        last_space(q.drop_last())
    }
}

/// The next, shorter query: everything before the last space, trimmed;
/// `None` when no space is left.
pub open spec fn shorter_query(q: Seq<char>) -> Option<Seq<char>> {
    match last_space(q) {
        Some(k) => Some(trim(q.subrange(0, k))),
        None => None,
    }
}

pub proof fn lemma_last_space(q: Seq<char>)
    ensures
        last_space(q) matches Some(k) ==> 0 <= k < q.len() && q[k] == ' ',
    decreases q.len(),
{
    if q.len() > 0 && q.last() != ' ' {
        lemma_last_space(q.drop_last());
    }
}

/// The shorter query is shorter.
pub proof fn lemma_shorter_query_shrinks(q: Seq<char>)
    ensures
        shorter_query(q) matches Some(s) ==> s.len() < q.len(),
{
    lemma_last_space(q);
    if let Some(k) = last_space(q) {
        crate::text::lemma_trim_len(q.subrange(0, k));
    }
}

/// The shorter query (see `shorter_query`).
pub fn shorten_query(q: &str) -> (r: Option<String>)
    ensures
        match shorter_query(q@) {
            Some(s) => r matches Some(t) && t@ == s,
            None => r is None,
        },
{
    let v = chars_of(q);
    let mut i = v.len();
    assert(v@.subrange(0, i as int) =~= v@);
    while i > 0 && v[i - 1] != ' '
        invariant
            i <= v@.len(),
            v@ == q@,
            last_space(q@) == last_space(v@.subrange(0, i as int)),
        decreases i,
    {
        assert(v@.subrange(0, i as int).drop_last() =~= v@.subrange(0, i - 1));
        i = i - 1;
    }
    if i == 0 {
        assert(v@.subrange(0, 0).len() == 0);
        return None;
    }
    assert(v@.subrange(0, i as int).last() == ' ');
    let prefix = crate::text::sub_vec(&v, 0, i - 1);
    assert(v@.subrange(0, i as int).subrange(0, i - 1) =~= prefix@);
    let (a, b) = trim_bounds(&prefix);
    Some(string_of_range(&prefix, a, b))
}

/// Where a search for the metadata of a download stands.
#[derive(Debug)]
pub struct QuerySearch {
    query: String,
    attempts: usize,
    done: bool,
}

impl QuerySearch {
    /// The query to send next, if the search goes on.
    pub closed spec fn query_view(&self) -> Seq<char> {
        self.query@
    }

    /// How many searches returned nothing so far.
    pub closed spec fn attempts_view(&self) -> nat {
        self.attempts as nat
    }

    /// Whether the search has stopped.
    pub closed spec fn done_view(&self) -> bool {
        self.done
    }

    /// The search for a download starts with `channel title`.
    pub fn new(music: &AudioDownload) -> (r: QuerySearch)
        ensures
            r.query_view() == first_query(*music),
            r.attempts_view() == 0,
            !r.done_view(),
    {
        let mut q = music.channel.clone();
        q.append(" ");
        q.append(music.title.as_str());
        QuerySearch { query: q, attempts: 0, done: false }
    }

    /// The query to send next: none once results were found, no space was
    /// left to shorten the query, or seven searches returned nothing.
    pub fn next_query(&self) -> (r: Option<String>)
        ensures
            r is Some <==> !self.done_view() && self.attempts_view() < max_attempts(),
            r matches Some(q) ==> q@ == self.query_view(),
    {
        if self.done || self.attempts >= 7 {
            None
        } else {
            Some(self.query.clone())
        }
    }

    /// Takes the results of the search for the current query: when there
    /// are some, they are the answer and the search stops; otherwise the
    /// query is shortened by its last word, or the search stops when it has
    /// no space left.
    pub fn on_results(&mut self, results: Vec<Metadata>) -> (r: Option<Vec<Metadata>>)
        requires
            !old(self).done_view(),
            old(self).attempts_view() < max_attempts(),
        ensures
            results@.len() > 0 ==> r == Some(results) && final(self).done_view(),
            results@.len() == 0 ==> r is None && final(self).attempts_view() == old(
                self,
            ).attempts_view() + 1 && match shorter_query(old(self).query_view()) {
                Some(q) => final(self).query_view() == q && !final(self).done_view(),
                None => final(self).done_view(),
            },
    {
        if results.len() > 0 {
            self.done = true;
            return Some(results);
        }
        self.attempts = self.attempts + 1;
        match shorten_query(self.query.as_str()) {
            Some(q) => {
                self.query = q;
            },
            None => {
                self.done = true;
            },
        }
        None
    }
}

/// What a search for the metadata of a download can end with, where
/// `answers(q, r)` says that a search for `q` can give `r`, going on from
/// the query `q` (`None` once no shorter query was left) after `attempts`
/// searches that found nothing: nothing found when no query is left or
/// seven searches found nothing; otherwise either an answer to `q` that is
/// an error or finds something, or, after an answer to `q` that found
/// nothing, what the search with the shorter query ends with.
pub open spec fn search_ends_with(
    answers: spec_fn(Seq<char>, Result<Vec<Metadata>, ProviderError>) -> bool,
    q: Option<Seq<char>>,
    attempts: nat,
    r: Result<Vec<Metadata>, ProviderError>,
) -> bool
    decreases max_attempts() - attempts,
{
    match q {
        None => r matches Ok(v) && v@.len() == 0,
        Some(q) => if attempts >= max_attempts() {
            r matches Ok(v) && v@.len() == 0
        } else {
            ||| answers(q, r) && !(r matches Ok(v) && v@.len() == 0)
            ||| exists|e: Vec<Metadata>|
                #![trigger answers(q, Ok(e))]
                answers(q, Ok(e)) && e@.len() == 0 && search_ends_with(
                    answers,
                    shorter_query(q),
                    attempts + 1,
                    r,
                )
        },
    }
}

impl QuerySearch {
    /// The query the search sends next, unless no shorter query was left.
    pub open spec fn pending(&self) -> Option<Seq<char>> {
        if self.done_view() {
            None
        } else {
            Some(self.query_view())
        }
    }
}

/// A source of track metadata.
pub trait MetadataProvider {
    /// Whether `r` is a result that this provider can give for a search
    /// for `query`.  A provider that says nothing of its searches can give
    /// any result.
    closed spec fn answers(&self, query: Seq<char>, r: Result<Vec<Metadata>, ProviderError>) -> bool {
        true
    }

    /// The tracks that match `query`.
    fn search(&self, query: &str) -> (r: Result<Vec<Metadata>, ProviderError>)
        ensures
            self.answers(query@, r),
    ;

    /// The metadata candidates for a download: the results of the first
    /// query of `QuerySearch` that finds any, an empty list when none
    /// does, or the first search error.  At most seven searches are made
    /// (see `search_ends_with`).
    fn find_metadata(&self, music: &AudioDownload) -> (r: Result<Vec<Metadata>, ProviderError>)
        ensures
            search_ends_with(
                |q: Seq<char>, r: Result<Vec<Metadata>, ProviderError>| self.answers(q, r),
                Some(first_query(*music)),
                0,
                r,
            ),
    {
        let mut search = QuerySearch::new(music);
        let ghost ans = |q: Seq<char>, r: Result<Vec<Metadata>, ProviderError>|
            self.answers(q, r);
        loop
            invariant
                search.attempts_view() <= max_attempts(),
                ans == (|q: Seq<char>, r: Result<Vec<Metadata>, ProviderError>| self.answers(q, r)),
                forall|r: Result<Vec<Metadata>, ProviderError>|
                    #[trigger] search_ends_with(ans, search.pending(), search.attempts_view(), r)
                        ==> search_ends_with(ans, Some(first_query(*music)), 0, r),
            decreases max_attempts() - search.attempts_view() + (if search.done_view() {
                0int
            } else {
                1int
            }),
        {
            match search.next_query() {
                Some(q) => {
                    let ghost q0 = search.query_view();
                    let ghost a0 = search.attempts_view();
                    match self.search(q.as_str()) {
                        Ok(results) => {
                            let ghost got = results;
                            assert(ans(q0, Ok::<Vec<Metadata>, ProviderError>(got)));
                            if let Some(found) = search.on_results(results) {
                                assert(search_ends_with(
                                    ans,
                                    Some(q0),
                                    a0,
                                    Ok::<Vec<Metadata>, ProviderError>(found),
                                ));
                                return Ok(found);
                            }
                            assert forall|r: Result<Vec<Metadata>, ProviderError>|
                                #[trigger] search_ends_with(
                                    ans,
                                    search.pending(),
                                    search.attempts_view(),
                                    r,
                                ) implies search_ends_with(
                                    ans,
                                    Some(first_query(*music)),
                                    0,
                                    r,
                                ) by {
                                assert(search.pending() == shorter_query(q0));
                                assert(search_ends_with(ans, Some(q0), a0, r));
                            }
                        },
                        Err(e) => {
                            assert(ans(q0, Err::<Vec<Metadata>, ProviderError>(e)));
                            assert(search_ends_with(
                                ans,
                                Some(q0),
                                a0,
                                Err::<Vec<Metadata>, ProviderError>(e),
                            ));
                            return Err(e);
                        },
                    }
                },
                None => {
                    let empty: Vec<Metadata> = Vec::new();
                    assert(search_ends_with(
                        ans,
                        search.pending(),
                        search.attempts_view(),
                        Ok::<Vec<Metadata>, ProviderError>(empty),
                    ));
                    return Ok(empty);
                },
            }
        }
    }
}

} // verus!
