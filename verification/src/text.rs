//! Character-level text utilities shared by the parsers and formatters.
//!
//! Strings are modelled by their views, `Seq<char>`.  The spec functions
//! here state what the corresponding operations of `str` do (trimming,
//! splitting, replacing, line splitting, joining, decimal formatting), and
//! the executable functions compute them on `Vec<char>`.
use vstd::prelude::*;

verus! {

broadcast use vstd::string::group_string_axioms;

// ---------------------------------------------------------------------
// Whitespace and trimming
// ---------------------------------------------------------------------

/// The Unicode `White_Space` property, which `char::is_whitespace`,
/// `str::trim` and the `\s` class of regular expressions use.
pub open spec fn is_ws(c: char) -> bool {
    let u = c as u32;
    ||| 9 <= u <= 13
    ||| u == 32
    ||| u == 0x85
    ||| u == 0xA0
    ||| u == 0x1680
    ||| 0x2000 <= u <= 0x200A
    ||| u == 0x2028
    ||| u == 0x2029
    ||| u == 0x202F
    ||| u == 0x205F
    ||| u == 0x3000
}

/// `str::trim_start`: drops leading whitespace.
pub open spec fn trim_start(s: Seq<char>) -> Seq<char>
    decreases s.len(),
{
    if s.len() > 0 && is_ws(s[0]) {
        trim_start(s.drop_first())
    } else {
        s
    }
}

/// `str::trim_end`: drops trailing whitespace.
pub open spec fn trim_end(s: Seq<char>) -> Seq<char>
    decreases s.len(),
{
    if s.len() > 0 && is_ws(s.last()) {
        trim_end(s.drop_last())
    } else {
        s
    }
}

/// `str::trim`: drops leading and trailing whitespace.
pub open spec fn trim(s: Seq<char>) -> Seq<char> {
    trim_end(trim_start(s))
}

/// Whether every character of `s` is whitespace.
pub open spec fn all_ws(s: Seq<char>) -> bool {
    forall|k: int| 0 <= k < s.len() ==> is_ws(#[trigger] s[k])
}

pub proof fn lemma_trim_start_at(s: Seq<char>, i: int)
    requires
        0 <= i <= s.len(),
        forall|k: int| 0 <= k < i ==> is_ws(#[trigger] s[k]),
        i == s.len() || !is_ws(s[i]),
    ensures
        trim_start(s) == s.subrange(i, s.len() as int),
    decreases i,
{
    if i > 0 {
        assert forall|k: int| 0 <= k < i - 1 implies is_ws(#[trigger] s.drop_first()[k]) by {
            assert(s.drop_first()[k] == s[k + 1]);
        }
        lemma_trim_start_at(s.drop_first(), i - 1);
        assert(s.drop_first().subrange(i - 1, s.len() - 1) =~= s.subrange(i, s.len() as int));
    } else {
        assert(s.subrange(0, s.len() as int) =~= s);
    }
}

pub proof fn lemma_trim_end_at(s: Seq<char>, j: int)
    requires
        0 <= j <= s.len(),
        forall|k: int| j <= k < s.len() ==> is_ws(#[trigger] s[k]),
        j == 0 || !is_ws(s[j - 1]),
    ensures
        trim_end(s) == s.subrange(0, j),
    decreases s.len() - j,
{
    if j < s.len() {
        assert forall|k: int| j <= k < s.len() - 1 implies is_ws(#[trigger] s.drop_last()[k]) by {
            assert(s.drop_last()[k] == s[k]);
        }
        lemma_trim_end_at(s.drop_last(), j);
        assert(s.drop_last().subrange(0, j) =~= s.subrange(0, j));
    } else {
        assert(s.subrange(0, s.len() as int) =~= s);
    }
}

/// Whether `c` is whitespace.
pub fn is_ws_char(c: char) -> (b: bool)
    ensures
        b == is_ws(c),
{
    let u = c as u32;
    (9 <= u && u <= 13) || u == 32 || u == 0x85 || u == 0xA0 || u == 0x1680 || (0x2000 <= u && u
        <= 0x200A) || u == 0x2028 || u == 0x2029 || u == 0x202F || u == 0x205F || u == 0x3000
}

/// The bounds `(a, b)` of `trim(v)` inside `v`.
pub fn trim_bounds(v: &Vec<char>) -> (r: (usize, usize))
    ensures
        r.0 <= r.1 <= v@.len(),
        trim(v@) == v@.subrange(r.0 as int, r.1 as int),
        trim_start(v@) == v@.subrange(r.0 as int, v@.len() as int),
{
    let mut i: usize = 0;
    while i < v.len() && is_ws_char(v[i])
        invariant
            i <= v@.len(),
            forall|k: int| 0 <= k < i ==> is_ws(#[trigger] v@[k]),
        decreases v@.len() - i,
    {
        i = i + 1;
    }
    proof {
        lemma_trim_start_at(v@, i as int);
    }
    let mut j: usize = v.len();
    while j > i && is_ws_char(v[j - 1])
        invariant
            i <= j <= v@.len(),
            forall|k: int| j <= k < v@.len() ==> is_ws(#[trigger] v@[k]),
        decreases j,
    {
        j = j - 1;
    }
    proof {
        let t = v@.subrange(i as int, v@.len() as int);
        assert forall|k: int| j - i <= k < t.len() implies is_ws(#[trigger] t[k]) by {
            assert(t[k] == v@[k + i]);
        }
        lemma_trim_end_at(t, j - i);
        assert(t.subrange(0, j - i) =~= v@.subrange(i as int, j as int));
    }
    (i, j)
}

// ---------------------------------------------------------------------
// Building strings
// ---------------------------------------------------------------------

/// Appends one character to a string (`String::push`).
///
/// Trusted: the contract says that the string afterwards is the old one
/// followed by `c`, as the standard library documents for `String::push`.
#[verifier::external_body]
pub fn push_char(s: &mut String, c: char)
    ensures
        final(s)@ == old(s)@.push(c),
{
    s.push(c);
}

/// The characters of `s`, in order.
pub fn chars_of(s: &str) -> (v: Vec<char>)
    ensures
        v@ == s@,
{
    let mut v: Vec<char> = Vec::new();
    for c in it: s.chars()
        invariant
            v@ == it.seq().take(it.index() as int),
            it.seq() == s@,
    {
        v.push(c);
    }
    v
}

/// The string made of the characters `v[a..b]`.
pub fn string_of_range(v: &Vec<char>, a: usize, b: usize) -> (s: String)
    requires
        a <= b <= v@.len(),
    ensures
        s@ == v@.subrange(a as int, b as int),
{
    let mut s = String::new();
    let mut i = a;
    while i < b
        invariant
            a <= i <= b <= v@.len(),
            s@ == v@.subrange(a as int, i as int),
        decreases b - i,
    {
        push_char(&mut s, v[i]);
        assert(v@.subrange(a as int, i + 1) =~= v@.subrange(a as int, i as int).push(v@[i as int]));
        i = i + 1;
    }
    s
}

/// The string made of the characters of `v`.
pub fn string_of(v: &Vec<char>) -> (s: String)
    ensures
        s@ == v@,
{
    let s = string_of_range(v, 0, v.len());
    assert(v@.subrange(0, v@.len() as int) =~= v@);
    s
}

/// `s.trim()` as an owned string.
pub fn trimmed(s: &str) -> (r: String)
    ensures
        r@ == trim(s@),
{
    let v = chars_of(s);
    let (a, b) = trim_bounds(&v);
    string_of_range(&v, a, b)
}

/// Whether two strings hold the same characters.
pub fn same_text(a: &str, b: &str) -> (r: bool)
    ensures
        r == (a@ == b@),
{
    let va = chars_of(a);
    let vb = chars_of(b);
    if va.len() != vb.len() {
        return false;
    }
    let mut i: usize = 0;
    while i < va.len()
        invariant
            va@ == a@,
            vb@ == b@,
            va@.len() == vb@.len(),
            i <= va@.len(),
            forall|k: int| 0 <= k < i ==> va@[k] == vb@[k],
        decreases va@.len() - i,
    {
        if va[i] != vb[i] {
            return false;
        }
        i = i + 1;
    }
    assert(va@ =~= vb@);
    true
}

// ---------------------------------------------------------------------
// Searching and splitting
// ---------------------------------------------------------------------

/// Whether `p` occurs in `s` at index `i`.
pub open spec fn occurs_at(s: Seq<char>, p: Seq<char>, i: int) -> bool {
    &&& 0 <= i
    &&& i + p.len() <= s.len()
    &&& s.subrange(i, i + p.len()) == p
}

/// The first index `k >= i` at which `p` occurs in `s`.
pub open spec fn find_from(s: Seq<char>, p: Seq<char>, i: int) -> Option<int>
    decreases s.len() - i,
{
    if i < 0 || i + p.len() > s.len() {
        None
    } else if occurs_at(s, p, i) {
        Some(i)
    } else if i >= s.len() {
        None
    } else {
        find_from(s, p, i + 1)
    }
}

/// Whether `p` occurs anywhere in `s`.
pub open spec fn contains(s: Seq<char>, p: Seq<char>) -> bool {
    exists|i: int| occurs_at(s, p, i)
}

pub proof fn lemma_find_from(s: Seq<char>, p: Seq<char>, i: int)
    requires
        0 <= i,
    ensures
        find_from(s, p, i) matches Some(k) ==> i <= k && occurs_at(s, p, k) && forall|j: int|
            i <= j < k ==> !occurs_at(s, p, j),
        find_from(s, p, i) is None ==> forall|j: int| i <= j ==> !occurs_at(s, p, j),
    decreases s.len() - i,
{
    if i + p.len() > s.len() {
    } else if occurs_at(s, p, i) {
    } else if i >= s.len() {
        assert(s.subrange(i, i + p.len()) =~= p);
    } else {
        lemma_find_from(s, p, i + 1);
    }
}

/// `find_from` gives the occurrence `k` when `p` occurs at `k` and nowhere
/// in `[i, k)`.
pub proof fn lemma_find_from_is(s: Seq<char>, p: Seq<char>, i: int, k: int)
    requires
        0 <= i <= k,
        occurs_at(s, p, k),
        forall|j: int| i <= j < k ==> !occurs_at(s, p, j),
    ensures
        find_from(s, p, i) == Some(k),
{
    lemma_find_from(s, p, i);
    match find_from(s, p, i) {
        Some(k2) => {
            if k2 < k {
            } else if k2 > k {
            }
        },
        None => {},
    }
}

/// `find_from` gives nothing when `p` occurs nowhere at or after `i`.
pub proof fn lemma_find_from_none(s: Seq<char>, p: Seq<char>, i: int)
    requires
        0 <= i,
        forall|j: int| i <= j ==> !occurs_at(s, p, j),
    ensures
        find_from(s, p, i) is None,
{
    lemma_find_from(s, p, i);
}

/// A one-character pattern occurs exactly where that character is.
pub proof fn lemma_occurs_char(s: Seq<char>, c: char, j: int)
    ensures
        occurs_at(s, seq![c], j) <==> (0 <= j < s.len() && s[j] == c),
{
    if 0 <= j < s.len() {
        assert(s.subrange(j, j + 1)[0] == s[j]);
        if s[j] == c {
            assert(s.subrange(j, j + 1) =~= seq![c]);
        }
    }
}

/// Whether `p` occurs in `v` at index `i`.
pub fn matches_at(v: &Vec<char>, p: &Vec<char>, i: usize) -> (r: bool)
    ensures
        r == occurs_at(v@, p@, i as int),
{
    if i > v.len() || p.len() > v.len() - i {
        return false;
    }
    let mut j: usize = 0;
    while j < p.len()
        invariant
            i + p@.len() <= v@.len(),
            i + p.len() <= v.len(),
            j <= p@.len(),
            forall|k: int| 0 <= k < j ==> v@[i + k] == p@[k],
        decreases p@.len() - j,
    {
        if v[i + j] != p[j] {
            assert(v@.subrange(i as int, i + p@.len())[j as int] != p@[j as int]);
            return false;
        }
        j = j + 1;
    }
    assert(v@.subrange(i as int, i + p@.len()) =~= p@);
    true
}

/// The first occurrence of `p` in `v` at or after `start`.
pub fn find_in(v: &Vec<char>, p: &Vec<char>, start: usize) -> (r: Option<usize>)
    ensures
        match r {
            Some(k) => find_from(v@, p@, start as int) == Some(k as int),
            None => find_from(v@, p@, start as int) is None,
        },
{
    let mut i = start;
    loop
        invariant
            start <= i,
            find_from(v@, p@, start as int) == find_from(v@, p@, i as int),
        decreases v@.len() + 1 - i,
    {
        if i > v.len() || p.len() > v.len() - i {
            return None;
        }
        if matches_at(v, p, i) {
            return Some(i);
        }
        if i >= v.len() {
            return None;
        }
        i = i + 1;
    }
}

/// The pieces of `s` between the occurrences of `p` at or after `pos`
/// (`str::split` with a string pattern, from `pos` on).
pub open spec fn split_from(s: Seq<char>, p: Seq<char>, pos: int) -> Seq<Seq<char>>
    decreases s.len() - pos,
{
    if pos < 0 || pos > s.len() || p.len() == 0 {
        seq![s.subrange(pos, s.len() as int)]
    } else {
        match find_from(s, p, pos) {
            Some(k) => if pos <= k && k + p.len() <= s.len() {
                seq![s.subrange(pos, k)] + split_from(s, p, k + p.len())
            } else {
                seq![s.subrange(pos, s.len() as int)]
            },
            None => seq![s.subrange(pos, s.len() as int)],
        }
    }
}

/// `s.split(p)` for a non-empty pattern `p`.
pub open spec fn split(s: Seq<char>, p: Seq<char>) -> Seq<Seq<char>> {
    split_from(s, p, 0)
}

/// The views of a sequence of character vectors.
pub open spec fn views(v: Seq<Vec<char>>) -> Seq<Seq<char>> {
    v.map_values(|x: Vec<char>| x@)
}

/// `s.split(p)` (for a non-empty pattern `p`), as character vectors.
pub fn split_chars(v: &Vec<char>, p: &Vec<char>) -> (parts: Vec<Vec<char>>)
    requires
        p@.len() > 0,
    ensures
        views(parts@) == split(v@, p@),
{
    let mut parts: Vec<Vec<char>> = Vec::new();
    let mut pos: usize = 0;
    loop
        invariant
            p@.len() > 0,
            pos <= v@.len(),
            views(parts@) + split_from(v@, p@, pos as int) == split(v@, p@),
        decreases v@.len() - pos,
    {
        let found = find_in(v, p, pos);
        proof {
            lemma_find_from(v@, p@, pos as int);
        }
        match found {
            Some(k) => {
                assert(occurs_at(v@, p@, k as int));
                let piece = sub_vec(v, pos, k);
                let ghost old_parts = views(parts@);
                parts.push(piece);
                assert(views(parts@) =~= old_parts.push(v@.subrange(pos as int, k as int)));
                assert(split_from(v@, p@, pos as int) =~= seq![v@.subrange(pos as int, k as int)]
                    + split_from(v@, p@, (k + p@.len()) as int));
                assert(views(parts@) + split_from(v@, p@, (k + p@.len()) as int) =~= old_parts
                    + split_from(v@, p@, pos as int));
                let n = v.len();
                assert(k + p.len() <= n);
                pos = k + p.len();
            },
            None => {
                let piece = sub_vec(v, pos, v.len());
                let ghost old_parts = views(parts@);
                parts.push(piece);
                assert(views(parts@) =~= old_parts + split_from(v@, p@, pos as int));
                return parts;
            },
        }
    }
}

/// The characters `v[a..b]`.
pub fn sub_vec(v: &Vec<char>, a: usize, b: usize) -> (r: Vec<char>)
    requires
        a <= b <= v@.len(),
    ensures
        r@ == v@.subrange(a as int, b as int),
{
    let mut r: Vec<char> = Vec::new();
    let mut i = a;
    while i < b
        invariant
            a <= i <= b <= v@.len(),
            r@ == v@.subrange(a as int, i as int),
        decreases b - i,
    {
        r.push(v[i]);
        assert(v@.subrange(a as int, i + 1) =~= v@.subrange(a as int, i as int).push(v@[i as int]));
        i = i + 1;
    }
    r
}


/// The views of a sequence of strings.
pub open spec fn string_views(v: Seq<String>) -> Seq<Seq<char>> {
    v.map_values(|x: String| x@)
}

/// Turns character vectors into strings.
pub fn strings_of(parts: &Vec<Vec<char>>) -> (r: Vec<String>)
    ensures
        string_views(r@) == views(parts@),
{
    let mut r: Vec<String> = Vec::new();
    let mut i: usize = 0;
    while i < parts.len()
        invariant
            i <= parts@.len(),
            string_views(r@) == views(parts@).take(i as int),
        decreases parts@.len() - i,
    {
        let s = string_of(&parts[i]);
        let ghost old_r = string_views(r@);
        r.push(s);
        assert(string_views(r@) =~= old_r.push(parts@[i as int]@));
        assert(views(parts@).take(i + 1) =~= views(parts@).take(i as int).push(parts@[i as int]@));
        i = i + 1;
    }
    assert(views(parts@).take(parts@.len() as int) =~= views(parts@));
    r
}

// ---------------------------------------------------------------------
// Lines
// ---------------------------------------------------------------------

/// Drops one trailing carriage return.
pub open spec fn strip_cr(l: Seq<char>) -> Seq<char> {
    if l.len() > 0 && l.last() == '\r' {
        l.drop_last()
    } else {
        l
    }
}

/// The lines of `s` from index `pos` on (`str::lines`): pieces ended by
/// `\n` or `\r\n`; the last line needs no ending.
pub open spec fn lines_from(s: Seq<char>, pos: int) -> Seq<Seq<char>>
    decreases s.len() - pos,
{
    if pos < 0 || pos >= s.len() {
        seq![]
    } else {
        match find_from(s, seq!['\n'], pos) {
            Some(k) => if pos <= k < s.len() {
                seq![strip_cr(s.subrange(pos, k))] + lines_from(s, k + 1)
            } else {
                seq![]
            },
            None => seq![s.subrange(pos, s.len() as int)],
        }
    }
}

/// `s.lines()`.
pub open spec fn lines(s: Seq<char>) -> Seq<Seq<char>> {
    lines_from(s, 0)
}

/// The lines of `s`, as `str::lines` gives them.
pub fn lines_of(s: &str) -> (r: Vec<String>)
    ensures
        string_views(r@) == lines(s@),
{
    let v = chars_of(s);
    let mut nl: Vec<char> = Vec::new();
    nl.push('\n');
    assert(nl@ =~= seq!['\n']);
    let mut parts: Vec<Vec<char>> = Vec::new();
    let mut pos: usize = 0;
    while pos < v.len()
        invariant
            v@ == s@,
            nl@ == seq!['\n'],
            pos <= v@.len(),
            views(parts@) + lines_from(v@, pos as int) == lines(v@),
        decreases v@.len() - pos,
    {
        let found = find_in(&v, &nl, pos);
        proof {
            lemma_find_from(v@, nl@, pos as int);
        }
        let ghost old_parts = views(parts@);
        match found {
            Some(k) => {
                assert(occurs_at(v@, nl@, k as int));
                let mut end = k;
                if end > pos && v[end - 1] == '\r' {
                    end = end - 1;
                }
                let piece = sub_vec(&v, pos, end);
                assert(piece@ == strip_cr(v@.subrange(pos as int, k as int)));
                parts.push(piece);
                assert(views(parts@) =~= old_parts.push(strip_cr(v@.subrange(pos as int, k as int))));
                assert(lines_from(v@, pos as int) =~= seq![strip_cr(v@.subrange(pos as int, k as int))]
                    + lines_from(v@, k + 1));
                pos = k + 1;
            },
            None => {
                let piece = sub_vec(&v, pos, v.len());
                parts.push(piece);
                assert(views(parts@) =~= old_parts + lines_from(v@, pos as int));
                pos = v.len();
                assert(lines_from(v@, pos as int) =~= seq![]);
                assert(views(parts@) =~= views(parts@) + lines_from(v@, pos as int));
            },
        }
    }
    assert(lines_from(v@, pos as int) =~= seq![]);
    assert(views(parts@) =~= views(parts@) + lines_from(v@, pos as int));
    strings_of(&parts)
}

// ---------------------------------------------------------------------
// Replacing
// ---------------------------------------------------------------------

/// `s.replace(from, to)` on the part of `s` from index `pos` on: the
/// leftmost non-overlapping occurrences of `from` become `to`; an empty
/// `from` matches at every character boundary.
pub open spec fn replace_from(s: Seq<char>, from: Seq<char>, to: Seq<char>, pos: int) -> Seq<char>
    decreases s.len() - pos,
{
    if pos < 0 || pos > s.len() {
        seq![]
    } else if from.len() == 0 {
        if pos == s.len() {
            to
        } else {
            to + seq![s[pos]] + replace_from(s, from, to, pos + 1)
        }
    } else {
        match find_from(s, from, pos) {
            Some(k) => if pos <= k && k + from.len() <= s.len() {
                s.subrange(pos, k) + to + replace_from(s, from, to, k + from.len())
            } else {
                s.subrange(pos, s.len() as int)
            },
            None => s.subrange(pos, s.len() as int),
        }
    }
}

/// `s.replace(from, to)`.
pub open spec fn replace(s: Seq<char>, from: Seq<char>, to: Seq<char>) -> Seq<char> {
    replace_from(s, from, to, 0)
}

/// Appends the characters `v[a..b]` to `out`.
pub fn push_range(out: &mut String, v: &Vec<char>, a: usize, b: usize)
    requires
        a <= b <= v@.len(),
    ensures
        final(out)@ == old(out)@ + v@.subrange(a as int, b as int),
{
    let mut i = a;
    while i < b
        invariant
            a <= i <= b <= v@.len(),
            out@ == old(out)@ + v@.subrange(a as int, i as int),
        decreases b - i,
    {
        push_char(out, v[i]);
        assert(v@.subrange(a as int, i + 1) =~= v@.subrange(a as int, i as int).push(v@[i as int]));
        assert(out@ =~= old(out)@ + v@.subrange(a as int, i + 1));
        i = i + 1;
    }
}

/// `s.replace(from, to)`.
pub fn replace_all(s: &str, from: &str, to: &str) -> (r: String)
    ensures
        r@ == replace(s@, from@, to@),
{
    let v = chars_of(s);
    let f = chars_of(from);
    let mut out = String::new();
    let mut pos: usize = 0;
    if f.len() == 0 {
        while pos < v.len()
            invariant
                v@ == s@,
                f@ == from@,
                f@.len() == 0,
                pos <= v@.len(),
                out@ + replace_from(v@, f@, to@, pos as int) == replace(v@, f@, to@),
            decreases v@.len() - pos,
        {
            let ghost old_out = out@;
            out.append(to);
            push_char(&mut out, v[pos]);
            assert(replace_from(v@, f@, to@, pos as int) == to@ + seq![v@[pos as int]]
                + replace_from(v@, f@, to@, pos + 1));
            assert(out@ + replace_from(v@, f@, to@, pos + 1) =~= old_out + replace_from(
                v@,
                f@,
                to@,
                pos as int,
            ));
            pos = pos + 1;
        }
        out.append(to);
        assert(out@ =~= replace(v@, f@, to@));
        return out;
    }
    loop
        invariant
            v@ == s@,
            f@ == from@,
            f@.len() > 0,
            pos <= v@.len(),
            out@ + replace_from(v@, f@, to@, pos as int) == replace(v@, f@, to@),
        decreases v@.len() - pos,
    {
        let found = find_in(&v, &f, pos);
        proof {
            lemma_find_from(v@, f@, pos as int);
        }
        let ghost old_out = out@;
        match found {
            Some(k) => {
                assert(occurs_at(v@, f@, k as int));
                push_range(&mut out, &v, pos, k);
                out.append(to);
                assert(replace_from(v@, f@, to@, pos as int) == v@.subrange(pos as int, k as int)
                    + to@ + replace_from(v@, f@, to@, k + f@.len()));
                assert(out@ + replace_from(v@, f@, to@, k + f@.len()) =~= old_out + replace_from(
                    v@,
                    f@,
                    to@,
                    pos as int,
                ));
                let n = v.len();
                assert(k + f.len() <= n);
                pos = k + f.len();
            },
            None => {
                push_range(&mut out, &v, pos, v.len());
                assert(out@ =~= old_out + replace_from(v@, f@, to@, pos as int));
                return out;
            },
        }
    }
}

// ---------------------------------------------------------------------
// Prefixes, suffixes and character sets
// ---------------------------------------------------------------------

/// `str::trim_start_matches` with a set of characters.
pub open spec fn trim_start_set(s: Seq<char>, set: Seq<char>) -> Seq<char>
    decreases s.len(),
{
    if s.len() > 0 && set.contains(s[0]) {
        trim_start_set(s.drop_first(), set)
    } else {
        s
    }
}

/// Whether `s` ends with `suf`.
pub open spec fn ends_with(s: Seq<char>, suf: Seq<char>) -> bool {
    suf.len() <= s.len() && s.subrange(s.len() - suf.len(), s.len() as int) == suf
}

/// Whether `s` starts with `pre`.
pub open spec fn starts_with(s: Seq<char>, pre: Seq<char>) -> bool {
    pre.len() <= s.len() && s.subrange(0, pre.len() as int) == pre
}

/// `str::trim_end_matches` with a string pattern: drops `suf` from the end
/// as long as `s` ends with it.
pub open spec fn trim_end_str(s: Seq<char>, suf: Seq<char>) -> Seq<char>
    decreases s.len(),
{
    if suf.len() > 0 && ends_with(s, suf) {
        trim_end_str(s.subrange(0, s.len() - suf.len()), suf)
    } else {
        s
    }
}

/// Whether `v[a..]` ends with `suf`.
pub fn ends_with_chars(v: &Vec<char>, end: usize, suf: &Vec<char>) -> (r: bool)
    requires
        end <= v@.len(),
    ensures
        r == ends_with(v@.subrange(0, end as int), suf@),
{
    if suf.len() > end {
        return false;
    }
    let start = end - suf.len();
    let m = matches_at(v, suf, start);
    assert(v@.subrange(0, end as int).subrange(start as int, end as int) =~= v@.subrange(
        start as int,
        start + suf@.len(),
    ));
    m
}

// ---------------------------------------------------------------------
// Joining and decimal numbers
// ---------------------------------------------------------------------

/// `parts.join(sep)`.
pub open spec fn join(parts: Seq<Seq<char>>, sep: Seq<char>) -> Seq<char>
    decreases parts.len(),
{
    if parts.len() == 0 {
        seq![]
    } else if parts.len() == 1 {
        parts[0]
    } else {
        join(parts.drop_last(), sep) + sep + parts.last()
    }
}

/// `parts.join(sep)` on strings.
pub fn join_strings(parts: &Vec<String>, sep: &str) -> (r: String)
    ensures
        r@ == join(string_views(parts@), sep@),
{
    let mut r = String::new();
    let mut i: usize = 0;
    while i < parts.len()
        invariant
            i <= parts@.len(),
            r@ == join(string_views(parts@).take(i as int), sep@),
        decreases parts@.len() - i,
    {
        let ghost t = string_views(parts@).take(i + 1);
        assert(t.drop_last() =~= string_views(parts@).take(i as int));
        if i > 0 {
            r.append(sep);
        }
        r.append(parts[i].as_str());
        if i == 0 {
            assert(r@ =~= join(t, sep@));
        }
        i = i + 1;
    }
    assert(string_views(parts@).take(parts@.len() as int) =~= string_views(parts@));
    r
}

/// The digit character for `d < 10`.
pub open spec fn digit_char(d: nat) -> char {
    ((48 + d) as u8) as char
}

/// The decimal representation of `n` (`n.to_string()`).
pub open spec fn decimal(n: nat) -> Seq<char>
    decreases n,
{
    if n < 10 {
        seq![digit_char(n)]
    } else {
        decimal(n / 10).push(digit_char(n % 10))
    }
}

/// The decimal representation of `n`.
pub fn decimal_string(n: u64) -> (r: String)
    ensures
        r@ == decimal(n as nat),
    decreases n,
{
    if n < 10 {
        let mut r = String::new();
        push_char(&mut r, ((48 + n) as u8) as char);
        assert(r@ =~= decimal(n as nat));
        r
    } else {
        let mut r = decimal_string(n / 10);
        push_char(&mut r, ((48 + n % 10) as u8) as char);
        r
    }
}


/// `s.split(p)` as owned strings.
pub fn split_str(s: &str, p: &str) -> (r: Vec<String>)
    requires
        p@.len() > 0,
    ensures
        string_views(r@) == split(s@, p@),
{
    let v = chars_of(s);
    let pv = chars_of(p);
    let parts = split_chars(&v, &pv);
    strings_of(&parts)
}

/// No occurrence of `p` in `a + p + b` starts inside `a`, when `a` has no
/// occurrence of `p` and the last character of `p` occurs nowhere else in
/// `p`.
pub proof fn lemma_no_straddle(a: Seq<char>, p: Seq<char>, b: Seq<char>)
    requires
        p.len() > 0,
        forall|k: int| 0 <= k < p.len() - 1 ==> p[k] != p.last(),
        !contains(a, p),
    ensures
        forall|i: int| 0 <= i < a.len() ==> !occurs_at(a + p + b, p, i),
{
    let s = a + p + b;
    assert forall|i: int| 0 <= i < a.len() implies !occurs_at(s, p, i) by {
        if occurs_at(s, p, i) {
            if i + p.len() <= a.len() {
                assert(a.subrange(i, i + p.len()) =~= s.subrange(i, i + p.len()));
                assert(occurs_at(a, p, i));
            } else {
                let q = i + p.len() - 1;
                assert(s.subrange(i, i + p.len())[p.len() - 1] == s[q]);
                assert(s[q] == p[q - a.len()]);
            }
        }
    }
}

/// No occurrence of `p` in `a + p + b` starts inside `a`, when the first
/// character of `p` occurs nowhere in `a`.
pub proof fn lemma_no_start_in(a: Seq<char>, p: Seq<char>, b: Seq<char>)
    requires
        p.len() > 0,
        forall|k: int| 0 <= k < a.len() ==> a[k] != p[0],
    ensures
        forall|i: int| 0 <= i < a.len() ==> !occurs_at(a + p + b, p, i),
{
    let s = a + p + b;
    assert forall|i: int| 0 <= i < a.len() implies !occurs_at(s, p, i) by {
        if occurs_at(s, p, i) {
            assert(s.subrange(i, i + p.len())[0] == s[i]);
        }
    }
}

/// Splitting `a + p + b` on `p` gives `a` and `b`, when the only occurrence
/// of `p` is the one between them.
pub proof fn lemma_split_between(a: Seq<char>, p: Seq<char>, b: Seq<char>)
    requires
        p.len() > 0,
        forall|i: int| 0 <= i < a.len() ==> !occurs_at(a + p + b, p, i),
        !contains(b, p),
    ensures
        split(a + p + b, p) == seq![a, b],
{
    let s = a + p + b;
    let off = (a.len() + p.len()) as int;
    assert(s.subrange(a.len() as int, off) =~= p);
    lemma_find_from_is(s, p, 0, a.len() as int);
    assert forall|j: int| off <= j implies !occurs_at(s, p, j) by {
        if occurs_at(s, p, j) {
            assert(s.subrange(j, j + p.len()) =~= b.subrange(j - off, j - off + p.len()));
            assert(occurs_at(b, p, j - off));
        }
    }
    lemma_find_from_none(s, p, off);
    assert(s.subrange(0, a.len() as int) =~= a);
    assert(s.subrange(off, s.len() as int) =~= b);
    assert(split_from(s, p, off) == seq![b]);
    assert(split_from(s, p, 0) =~= seq![a] + seq![b]);
}

/// Splitting a string with no occurrence of `p` gives the string itself.
pub proof fn lemma_split_none(s: Seq<char>, p: Seq<char>)
    requires
        p.len() > 0,
        !contains(s, p),
    ensures
        split(s, p) == seq![s],
{
    lemma_find_from_none(s, p, 0);
    assert(s.subrange(0, s.len() as int) =~= s);
}


/// Trimming never lengthens a string.
pub proof fn lemma_trim_len(s: Seq<char>)
    ensures
        trim(s).len() <= s.len(),
{
    lemma_trim_start_len(s);
    lemma_trim_end_len(trim_start(s));
}

pub proof fn lemma_trim_start_len(s: Seq<char>)
    ensures
        trim_start(s).len() <= s.len(),
    decreases s.len(),
{
    if s.len() > 0 && is_ws(s[0]) {
        lemma_trim_start_len(s.drop_first());
    }
}

pub proof fn lemma_trim_end_len(s: Seq<char>)
    ensures
        trim_end(s).len() <= s.len(),
    decreases s.len(),
{
    if s.len() > 0 && is_ws(s.last()) {
        lemma_trim_end_len(s.drop_last());
    }
}

/// Splitting always gives at least one piece.
pub proof fn lemma_split_nonempty(s: Seq<char>, p: Seq<char>)
    ensures
        split(s, p).len() >= 1,
{
    match find_from(s, p, 0) {
        Some(k) => {
            if 0 <= k && k + p.len() <= s.len() && p.len() > 0 {
                assert(split_from(s, p, k + p.len()).len() >= 1);
            }
        },
        None => {},
    }
}

} // verus!
