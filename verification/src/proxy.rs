//! Proxy lists: which entries of a downloaded list to test, and the list
//! of those that work.
use vstd::prelude::*;
use crate::text::{join, join_strings, lines, lines_of, string_views, trim, trimmed};

verus! {

broadcast use vstd::string::group_string_axioms;

/// The proxies of a list: its lines, trimmed, without the blank ones.
pub open spec fn candidates_in(content: Seq<char>) -> Seq<Seq<char>> {
    lines(content).map_values(|l: Seq<char>| trim(l)).filter(|l: Seq<char>| l.len() > 0)
}

/// The proxies of a list (see `candidates_in`).
pub fn proxy_candidates(content: &str) -> (r: Vec<String>)
    ensures
        string_views(r@) == candidates_in(content@),
{
    let ls = lines_of(content);
    let ghost all = string_views(ls@).map_values(|l: Seq<char>| trim(l));
    let mut r: Vec<String> = Vec::new();
    let mut i: usize = 0;
    while i < ls.len()
        invariant
            i <= ls@.len(),
            string_views(ls@) == lines(content@),
            all == string_views(ls@).map_values(|l: Seq<char>| trim(l)),
            string_views(r@) == all.take(i as int).filter(|l: Seq<char>| l.len() > 0),
        decreases ls@.len() - i,
    {
        let t = trimmed(ls[i].as_str());
        assert(all[i as int] == t@);
        assert(all.take(i + 1).drop_last() =~= all.take(i as int));
        reveal_with_fuel(Seq::filter, 1);
        if t.as_str().unicode_len() > 0 {
            let ghost before = string_views(r@);
            r.push(t);
            assert(string_views(r@) =~= before.push(all[i as int]));
        }
        i = i + 1;
    }
    assert(all.take(ls@.len() as int) =~= all);
    r
}

/// `http://<proxy>`, the address through which a proxy is tried.
pub fn proxy_url(proxy: &str) -> (r: String)
    ensures
        r@ == "http://"@ + proxy@,
{
    let mut r = String::from_str("http://");
    r.append(proxy);
    r
}

/// The file of working proxies: one per line.
pub fn working_proxies_text(proxies: &Vec<String>) -> (r: String)
    ensures
        r@ == join(string_views(proxies@), "\n"@),
{
    join_strings(proxies, "\n")
}

} // verus!
