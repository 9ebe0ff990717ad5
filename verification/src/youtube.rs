//! The yt-dlp side of a download: the command line handed to yt-dlp, the
//! reading of its progress lines, and the clean-up of what it prints at
//! the end.
use vstd::prelude::*;
use crate::numbers::{is_digit, is_digit_char, parse_u64_in, parse_u64_or_zero};
use crate::text::{chars_of, ends_with, find_from, lemma_split_nonempty, occurs_at, replace, replace_all, split, split_chars, string_of, string_of_range, string_views, sub_vec, trim, trim_bounds, trim_end_str, trim_start, trim_start_set, views};

verus! {

broadcast use vstd::string::group_string_axioms;

// ---------------------------------------------------------------------
// Sizes such as "3.45MiB"
// ---------------------------------------------------------------------

/// Characters that may make up the number of a size.
pub open spec fn is_num_char(c: char) -> bool {
    is_digit(c) || c == '.'
}

/// The length of the longest prefix of `t` made of digits and dots.
pub open spec fn num_prefix_len(t: Seq<char>) -> nat
    decreases t.len(),
{
    if t.len() > 0 && is_num_char(t[0]) {
        1 + num_prefix_len(t.drop_first())
    } else {
        0
    }
}

/// The multiplier of a size unit.
pub open spec fn unit_multiplier(u: Seq<char>) -> nat {
    if u == seq!['K', 'i', 'B'] {
        1024
    } else if u == seq!['M', 'i', 'B'] {
        1048576
    } else if u == seq!['G', 'i', 'B'] {
        1073741824
    } else {
        1
    }
}

/// The number of UTF-8 bytes of a character.
pub open spec fn utf8_char_len(c: char) -> nat {
    let u = c as u32;
    if u < 0x80 {
        1
    } else if u < 0x800 {
        2
    } else if u < 0x10000 {
        3
    } else {
        4
    }
}

/// The number of UTF-8 bytes of a string.
pub open spec fn utf8_len(s: Seq<char>) -> nat
    decreases s.len(),
{
    if s.len() == 0 {
        0
    } else {
        utf8_len(s.drop_last()) + utf8_char_len(s.last())
    }
}

/// Whether byte offset `b` of the UTF-8 encoding of `s` falls between two
/// characters.
pub open spec fn is_char_boundary(s: Seq<char>, b: nat) -> bool {
    exists|j: int| 0 <= j <= s.len() && utf8_len(#[trigger] s.take(j)) == b
}

/// The inputs on which reading a size does not panic: the byte offset at
/// which the number ends, counted in the trimmed text but used to slice the
/// untrimmed one, must fall between two characters.
pub open spec fn size_input_ok(s: Seq<char>) -> bool {
    let t = trim(s);
    ||| trim_start(s) == s
    ||| num_prefix_len(t) == t.len()
    ||| is_char_boundary(s, num_prefix_len(t))
}

/// The text of the number of a size `s` (such as `3.45` in `3.45MiB`): the
/// digits and dots that begin it, or the whole of `s` when its trimmed text
/// is nothing but digits and dots.  When `s` starts with whitespace, the
/// number would start with that whitespace too, which no number parse
/// accepts; it is then given as the empty text.
pub open spec fn size_number(s: Seq<char>) -> Seq<char> {
    if trim_start(s) != s {
        Seq::<char>::empty()
    } else {
        let t = trim(s);
        let k = num_prefix_len(t);
        if k < t.len() {
            s.subrange(0, k as int)
        } else {
            s
        }
    }
}

/// The multiplier of the unit of a size `s`: that of the text after the
/// number, trimmed (see `unit_multiplier`); 1 when no unit follows, or when
/// `s` starts with whitespace.
pub open spec fn size_multiplier(s: Seq<char>) -> nat {
    let t = trim(s);
    let k = num_prefix_len(t);
    if trim_start(s) == s && k < t.len() {
        unit_multiplier(trim(s.subrange(k as int, s.len() as int)))
    } else {
        1
    }
}

/// A size as yt-dlp prints it, read into the text of its number and the
/// multiplier of its unit.  The number of bytes is the number, parsed as a
/// float (0 when it is none), times the multiplier, cut to an integer.
#[derive(Debug)]
pub struct SizeText {
    pub number: String,
    pub multiplier: u64,
}

/// The view of a size: its number text and its multiplier.
pub open spec fn size_view(z: SizeText) -> (Seq<char>, nat) {
    (z.number@, z.multiplier as nat)
}

/// What `parse_size` gives for `s`.
pub open spec fn size_of(s: Seq<char>) -> (Seq<char>, nat) {
    (size_number(s), size_multiplier(s))
}

pub proof fn lemma_num_prefix_len(t: Seq<char>, k: int)
    requires
        0 <= k <= t.len(),
        forall|j: int| 0 <= j < k ==> is_num_char(#[trigger] t[j]),
        k == t.len() || !is_num_char(t[k]),
    ensures
        num_prefix_len(t) == k,
    decreases k,
{
    if k > 0 {
        assert forall|j: int| 0 <= j < k - 1 implies is_num_char(#[trigger] t.drop_first()[j]) by {
            assert(t.drop_first()[j] == t[j + 1]);
        }
        lemma_num_prefix_len(t.drop_first(), k - 1);
    }
}

/// The multiplier of the unit `v[a..b]`.
fn unit_multiplier_in(v: &Vec<char>, a: usize, b: usize) -> (m: u64)
    requires
        a <= b <= v@.len(),
    ensures
        m == unit_multiplier(v@.subrange(a as int, b as int)),
{
    let ghost u = v@.subrange(a as int, b as int);
    let ghost kib = seq!['K', 'i', 'B'];
    let ghost mib = seq!['M', 'i', 'B'];
    let ghost gib = seq!['G', 'i', 'B'];
    assert(kib.len() == 3 && mib.len() == 3 && gib.len() == 3);
    assert(kib[1] == 'i' && mib[1] == 'i' && gib[1] == 'i');
    assert(kib[2] == 'B' && mib[2] == 'B' && gib[2] == 'B');
    if b - a != 3 {
        assert(u != kib && u != mib && u != gib);
        return 1;
    }
    let (c0, c1, c2) = (v[a], v[a + 1], v[a + 2]);
    assert(u[0] == c0 && u[1] == c1 && u[2] == c2);
    if c1 != 'i' || c2 != 'B' {
        assert(u != kib && u != mib && u != gib);
        return 1;
    }
    if c0 == 'K' {
        assert(u =~= seq!['K', 'i', 'B']);
        1024
    } else if c0 == 'M' {
        assert(u =~= seq!['M', 'i', 'B']);
        1048576
    } else if c0 == 'G' {
        assert(u =~= seq!['G', 'i', 'B']);
        1073741824
    } else {
        assert(u[0] != seq!['K', 'i', 'B'][0]);
        assert(u[0] != seq!['M', 'i', 'B'][0]);
        assert(u[0] != seq!['G', 'i', 'B'][0]);
        1
    }
}

/// `parse_size` on the characters of `v`.
fn size_of_chars(v: &Vec<char>) -> (r: SizeText)
    ensures
        size_view(r) == size_of(v@),
{
    let (a, b) = trim_bounds(v);
    if a > 0 {
        assert(trim_start(v@).len() < v@.len());
        return SizeText { number: String::new(), multiplier: 1 };
    }
    assert(trim_start(v@) =~= v@);
    let ghost t = trim(v@);
    assert(t =~= v@.subrange(0, b as int));
    let mut k: usize = 0;
    while k < b && (is_digit_char(v[k]) || v[k] == '.')
        invariant
            k <= b <= v@.len(),
            t == v@.subrange(0, b as int),
            forall|j: int| 0 <= j < k ==> is_num_char(#[trigger] t[j]),
        decreases b - k,
    {
        assert(t[k as int] == v@[k as int]);
        k = k + 1;
    }
    proof {
        if k < b {
            assert(t[k as int] == v@[k as int]);
        }
        lemma_num_prefix_len(t, k as int);
    }
    if k < b {
        let unit = sub_vec(v, k, v.len());
        let (ua, ub) = trim_bounds(&unit);
        let m = unit_multiplier_in(&unit, ua, ub);
        assert(unit@.subrange(ua as int, ub as int) == trim(unit@));
        SizeText { number: string_of_range(v, 0, k), multiplier: m }
    } else {
        SizeText { number: string_of(v), multiplier: 1 }
    }
}

/// Reads a size printed by yt-dlp, such as `3.45MiB`, into the text of its
/// number and the multiplier of its unit (`KiB`, `MiB` or `GiB`; anything
/// else counts as bytes).
pub fn parse_size(s: &str) -> (r: SizeText)
    requires
        size_input_ok(s@),
    ensures
        size_view(r) == size_of(s@),
{
    let v = chars_of(s);
    size_of_chars(&v)
}

/// What `parse_speed` returns: the size before the trailing `/s` marks.
pub open spec fn speed_of(s: Seq<char>) -> (Seq<char>, nat) {
    size_of(trim_end_str(s, seq!['/', 's']))
}

/// Reads a speed printed by yt-dlp, such as `58.90KiB/s`, into the text
/// of its number and the multiplier of its unit, per second.
pub fn parse_speed(s: &str) -> (r: SizeText)
    requires
        size_input_ok(trim_end_str(s@, seq!['/', 's'])),
    ensures
        size_view(r) == speed_of(s@),
{
    let v = chars_of(s);
    let ghost suf = seq!['/', 's'];
    assert(suf.len() == 2 && suf[0] == '/' && suf[1] == 's');
    let mut end = v.len();
    assert(v@.subrange(0, end as int) =~= v@);
    loop
        invariant
            end <= v@.len(),
            v@ == s@,
            suf == seq!['/', 's'],
            suf.len() == 2 && suf[0] == '/' && suf[1] == 's',
            trim_end_str(v@, suf) == trim_end_str(v@.subrange(0, end as int), suf),
        ensures
            end <= v@.len(),
            v@ == s@,
            trim_end_str(s@, suf) == v@.subrange(0, end as int),
        decreases end,
    {
        let ghost x = v@.subrange(0, end as int);
        if end >= 2 && v[end - 2] == '/' && v[end - 1] == 's' {
            assert(x[end - 2] == '/' && x[end - 1] == 's');
            assert(x.subrange(end - 2, end as int) =~= suf);
            assert(ends_with(x, suf));
            assert(x.subrange(0, end - 2) =~= v@.subrange(0, end - 2));
            end = end - 2;
        } else {
            proof {
                if end >= 2 {
                    assert(x.subrange(end - 2, end as int)[0] == v@[end - 2]);
                    assert(x.subrange(end - 2, end as int)[1] == v@[end - 1]);
                    assert(x.subrange(end - 2, end as int) != suf);
                }
            }
            assert(!ends_with(x, suf));
            assert(trim_end_str(x, suf) == x);
            break;
        }
    }
    let w = sub_vec(&v, 0, end);
    size_of_chars(&w)
}

/// The number of seconds in an ETA such as `01:20` or `1:02:03`: the
/// `:`-separated fields read as `u64` (0 when a field is no number), as
/// minutes and seconds or as hours, minutes and seconds; 0 for any other
/// number of fields.
pub open spec fn eta_of(s: Seq<char>) -> nat {
    let parts = split(s, seq![':']);
    if parts.len() == 2 {
        parse_u64_or_zero(parts[0]) * 60 + parse_u64_or_zero(parts[1])
    } else if parts.len() == 3 {
        parse_u64_or_zero(parts[0]) * 3600 + parse_u64_or_zero(parts[1]) * 60
            + parse_u64_or_zero(parts[2])
    } else {
        0
    }
}

/// `s.parse::<u64>().unwrap_or(0)` on a character vector.
fn u64_or_zero(v: &Vec<char>) -> (r: u64)
    ensures
        r == parse_u64_or_zero(v@),
{
    assert(v@.subrange(0, v@.len() as int) =~= v@);
    match parse_u64_in(v, 0, v.len()) {
        Some(n) => n,
        None => 0,
    }
}

/// Reads an ETA printed by yt-dlp, such as `01:20`, as a number of seconds.
pub fn parse_eta(s: &str) -> (r: u64)
    requires
        eta_of(s@) <= u64::MAX,
    ensures
        r == eta_of(s@),
{
    let v = chars_of(s);
    let mut colon: Vec<char> = Vec::new();
    colon.push(':');
    assert(colon@ =~= seq![':']);
    let parts = split_chars(&v, &colon);
    assert(parts@.len() == split(s@, seq![':']).len());
    if parts.len() == 2 {
        assert(parts@[0]@ == split(s@, seq![':'])[0]);
        assert(parts@[1]@ == split(s@, seq![':'])[1]);
        let mins = u64_or_zero(&parts[0]);
        let secs = u64_or_zero(&parts[1]);
        assert(mins * 60 <= mins * 60 + secs);
        mins * 60 + secs
    } else if parts.len() == 3 {
        assert(parts@[0]@ == split(s@, seq![':'])[0]);
        assert(parts@[1]@ == split(s@, seq![':'])[1]);
        assert(parts@[2]@ == split(s@, seq![':'])[2]);
        let hours = u64_or_zero(&parts[0]);
        let mins = u64_or_zero(&parts[1]);
        let secs = u64_or_zero(&parts[2]);
        assert(hours * 3600 + mins * 60 <= hours * 3600 + mins * 60 + secs);
        hours * 3600 + mins * 60 + secs
    } else {
        0
    }
}


// ---------------------------------------------------------------------
// The command line of yt-dlp
// ---------------------------------------------------------------------

/// The arguments every download passes to yt-dlp: extract the audio as the
/// best MP3, name the file after the title, print progress on lines of
/// their own, fail fast, and print the channel, the title and the final
/// path of the file.
pub open spec fn base_args() -> Seq<Seq<char>> {
    seq![
        "-x"@,
        "--audio-format"@,
        "mp3"@,
        "--audio-quality"@,
        "0"@,
        "-o"@,
        "%(title)s.%(ext)s"@,
        "-q"@,
        "--progress"@,
        "--newline"@,
        "--force-ipv4"@,
        "--retries"@,
        "1"@,
        "--socket-timeout"@,
        "3"@,
        "--print"@,
        "%(channel)s"@,
        "--print"@,
        "%(title)s"@,
        "--print"@,
        "after_move:filepath"@,
    ]
}

/// The arguments of yt-dlp for one download: the common ones, the cookies
/// file and the proxy when there are any, and the URL last.
pub open spec fn ytdlp_args_for(
    url: Seq<char>,
    cookies: Option<Seq<char>>,
    proxy: Option<Seq<char>>,
) -> Seq<Seq<char>> {
    let with_cookies = match cookies {
        Some(c) => base_args() + seq!["--cookies"@, c],
        None => base_args(),
    };
    let with_proxy = match proxy {
        Some(p) => with_cookies + seq!["--proxy"@, p],
        None => with_cookies,
    };
    with_proxy.push(url)
}

fn push_arg(v: &mut Vec<String>, a: &str)
    ensures
        string_views(final(v)@) == string_views(old(v)@).push(a@),
{
    let ghost before = string_views(v@);
    v.push(String::from_str(a));
    assert(string_views(v@) =~= before.push(a@));
}

/// The arguments of yt-dlp for one download (see `ytdlp_args_for`).
pub fn ytdlp_args(url: &str, cookies: Option<&str>, proxy: Option<&str>) -> (r: Vec<String>)
    ensures
        string_views(r@) == ytdlp_args_for(
            url@,
            match cookies {
                Some(c) => Some(c@),
                None => None,
            },
            match proxy {
                Some(p) => Some(p@),
                None => None,
            },
        ),
{
    let mut v: Vec<String> = Vec::new();
    push_arg(&mut v, "-x");
    push_arg(&mut v, "--audio-format");
    push_arg(&mut v, "mp3");
    push_arg(&mut v, "--audio-quality");
    push_arg(&mut v, "0");
    push_arg(&mut v, "-o");
    push_arg(&mut v, "%(title)s.%(ext)s");
    push_arg(&mut v, "-q");
    push_arg(&mut v, "--progress");
    push_arg(&mut v, "--newline");
    push_arg(&mut v, "--force-ipv4");
    push_arg(&mut v, "--retries");
    push_arg(&mut v, "1");
    push_arg(&mut v, "--socket-timeout");
    push_arg(&mut v, "3");
    push_arg(&mut v, "--print");
    push_arg(&mut v, "%(channel)s");
    push_arg(&mut v, "--print");
    push_arg(&mut v, "%(title)s");
    push_arg(&mut v, "--print");
    push_arg(&mut v, "after_move:filepath");
    assert(string_views(v@) =~= base_args());
    let ghost base = string_views(v@);
    if let Some(c) = cookies {
        push_arg(&mut v, "--cookies");
        push_arg(&mut v, c);
        assert(string_views(v@) =~= base + seq!["--cookies"@, c@]);
    }
    let ghost wc = string_views(v@);
    if let Some(p) = proxy {
        push_arg(&mut v, "--proxy");
        push_arg(&mut v, p);
        assert(string_views(v@) =~= wc + seq!["--proxy"@, p@]);
    }
    push_arg(&mut v, url);
    v
}

// ---------------------------------------------------------------------
// What yt-dlp prints
// ---------------------------------------------------------------------

/// A name for the capture groups that the `regex` crate finds in
/// `haystack` for the regular expression `pattern` (leftmost-first match;
/// group 0 is the whole match, `None` a group that took no part); `None`
/// when there is no match or the pattern does not compile.
pub uninterp spec fn regex_captures(pattern: Seq<char>, haystack: Seq<char>) -> Option<
    Seq<Option<Seq<char>>>,
>;

/// The views of optional strings.
pub open spec fn opt_string_views(v: Seq<Option<String>>) -> Seq<Option<Seq<char>>> {
    v.map_values(
        |o: Option<String>|
            match o {
                Some(s) => Some(s@),
                None => None,
            },
    )
}

/// Calls `regex::Regex::new(pattern)` and then `Regex::captures` on
/// `haystack`, and hands back the text of each capture group.
///
/// Trusted: the contract claims only that the result is the one named by
/// `regex_captures` for these two arguments, which holds because the
/// `regex` crate's matching depends on nothing but the pattern and the
/// text; what that result is for given values is not stated.
#[verifier::external_body]
fn captures_of(pattern: &str, haystack: &str) -> (r: Option<Vec<Option<String>>>)
    ensures
        match r {
            Some(v) => regex_captures(pattern@, haystack@) == Some(opt_string_views(v@)),
            None => regex_captures(pattern@, haystack@) is None,
        },
{
    let re = regex::Regex::new(pattern).ok()?;
    re.captures(haystack).map(|c| c.iter().map(|m| m.map(|m| m.as_str().to_string())).collect())
}

/// The regular expression of a yt-dlp progress line, such as
/// `[download]  42.0% of ~3.45MiB at 58.90KiB/s ETA 01:20`: the percentage,
/// the total size, the speed and the remaining time.
pub open spec fn progress_pattern() -> Seq<char> {
    "\\[download\\]\\s+([\\d.]+)%\\s+of\\s+~?([\\d.]+\\w+)\\s+at\\s+([\\d.]+\\w+/s)\\s+ETA\\s+(\\d{2}:\\d{2})"@
}

/// A progress line read: the percentage as printed, the total size and the
/// speed (per second) as read by `parse_size` and `parse_speed`, and the
/// remaining seconds.
#[derive(Debug)]
pub struct ProgressReading {
    pub percent: String,
    pub total: SizeText,
    pub speed: SizeText,
    pub eta_seconds: u64,
}

/// `s` does not start with whitespace.
pub open spec fn no_lead_ws(s: Seq<char>) -> bool {
    s.len() == 0 || !crate::text::is_ws(s[0])
}

/// What the capture groups `caps` of a progress line give: `None` unless
/// groups 1 to 4 are there, the size and speed do not start with
/// whitespace and the ETA fits in a `u64` (which the pattern guarantees).
pub open spec fn reading_of(caps: Seq<Option<Seq<char>>>) -> Option<
    (Seq<char>, (Seq<char>, nat), (Seq<char>, nat), nat),
> {
    if caps.len() >= 5 && caps[1] is Some && caps[2] is Some && caps[3] is Some && caps[4] is Some
        && no_lead_ws(caps[2]->0) && no_lead_ws(caps[3]->0) && eta_of(caps[4]->0) <= u64::MAX {
        Some(
            (
                caps[1]->0,
                size_of(caps[2]->0),
                speed_of(caps[3]->0),
                eta_of(caps[4]->0),
            ),
        )
    } else {
        None
    }
}

/// The view of a reading.
pub open spec fn reading_view(r: ProgressReading) -> (
    Seq<char>,
    (Seq<char>, nat),
    (Seq<char>, nat),
    nat,
) {
    (r.percent@, size_view(r.total), size_view(r.speed), r.eta_seconds as nat)
}

pub proof fn lemma_no_lead_ws(s: Seq<char>)
    requires
        no_lead_ws(s),
    ensures
        trim_start(s) == s,
        forall|k: int| 0 <= k <= s.len() ==> trim_start(#[trigger] s.subrange(0, k)) == s.subrange(
            0,
            k,
        ),
{
    assert forall|k: int| 0 <= k <= s.len() implies trim_start(#[trigger] s.subrange(0, k))
        == s.subrange(0, k) by {
        if k > 0 {
            assert(s.subrange(0, k)[0] == s[0]);
        }
    }
}

pub proof fn lemma_trim_end_str_prefix(s: Seq<char>, suf: Seq<char>)
    ensures
        exists|k: int| 0 <= k <= s.len() && trim_end_str(s, suf) == s.subrange(0, k),
    decreases s.len(),
{
    if suf.len() > 0 && ends_with(s, suf) {
        let d = s.subrange(0, s.len() - suf.len());
        lemma_trim_end_str_prefix(d, suf);
        let k = choose|k: int| 0 <= k <= d.len() && trim_end_str(d, suf) == d.subrange(0, k);
        assert(d.subrange(0, k) =~= s.subrange(0, k));
    } else {
        assert(s.subrange(0, s.len() as int) =~= s);
    }
}

/// `parse_eta` that says `None` where the number of seconds overflows.
pub fn parse_eta_checked(s: &str) -> (r: Option<u64>)
    ensures
        match r {
            Some(n) => n == eta_of(s@),
            None => eta_of(s@) > u64::MAX,
        },
{
    let v = chars_of(s);
    let mut colon: Vec<char> = Vec::new();
    colon.push(':');
    assert(colon@ =~= seq![':']);
    let parts = split_chars(&v, &colon);
    assert(parts@.len() == split(s@, seq![':']).len());
    if parts.len() == 2 {
        assert(parts@[0]@ == split(s@, seq![':'])[0]);
        assert(parts@[1]@ == split(s@, seq![':'])[1]);
        let mins = u64_or_zero(&parts[0]);
        let secs = u64_or_zero(&parts[1]);
        match mins.checked_mul(60) {
            Some(m) => m.checked_add(secs),
            None => None,
        }
    } else if parts.len() == 3 {
        assert(parts@[0]@ == split(s@, seq![':'])[0]);
        assert(parts@[1]@ == split(s@, seq![':'])[1]);
        assert(parts@[2]@ == split(s@, seq![':'])[2]);
        let hours = u64_or_zero(&parts[0]);
        let mins = u64_or_zero(&parts[1]);
        let secs = u64_or_zero(&parts[2]);
        match hours.checked_mul(3600) {
            Some(h) => match mins.checked_mul(60) {
                Some(m) => match h.checked_add(m) {
                    Some(hm) => hm.checked_add(secs),
                    None => None,
                },
                None => None,
            },
            None => None,
        }
    } else {
        Some(0)
    }
}

/// Whether `s` starts with whitespace.
fn starts_with_ws(s: &str) -> (r: bool)
    ensures
        r == !no_lead_ws(s@),
{
    let v = chars_of(s);
    v.len() > 0 && crate::text::is_ws_char(v[0])
}

/// Reads the capture groups of a progress line (see `reading_of`).
pub fn progress_from_captures(caps: &Vec<Option<String>>) -> (r: Option<ProgressReading>)
    ensures
        match reading_of(opt_string_views(caps@)) {
            Some(x) => r matches Some(p) && reading_view(p) == x,
            None => r is None,
        },
{
    let ghost c = opt_string_views(caps@);
    if caps.len() < 5 {
        return None;
    }
    assert(c[1] == match caps@[1] { Some(s) => Some(s@), None => None::<Seq<char>> });
    assert(c[2] == match caps@[2] { Some(s) => Some(s@), None => None::<Seq<char>> });
    assert(c[3] == match caps@[3] { Some(s) => Some(s@), None => None::<Seq<char>> });
    assert(c[4] == match caps@[4] { Some(s) => Some(s@), None => None::<Seq<char>> });
    match (&caps[1], &caps[2], &caps[3], &caps[4]) {
        (Some(pct), Some(total), Some(speed), Some(eta)) => {
            if starts_with_ws(total.as_str()) || starts_with_ws(speed.as_str()) {
                return None;
            }
            let eta_s = match parse_eta_checked(eta.as_str()) {
                Some(n) => n,
                None => {
                    return None;
                },
            };
            proof {
                lemma_no_lead_ws(total@);
                lemma_no_lead_ws(speed@);
                lemma_trim_end_str_prefix(speed@, seq!['/', 's']);
            }
            let total_z = parse_size(total.as_str());
            let speed_z = parse_speed(speed.as_str());
            Some(ProgressReading { percent: pct.clone(), total: total_z, speed: speed_z, eta_seconds: eta_s })
        },
        _ => None,
    }
}

/// Reads a line that yt-dlp printed as a progress line, if it is one.
pub fn progress_of_line(line: &str) -> (r: Option<ProgressReading>)
    ensures
        match regex_captures(progress_pattern(), line@) {
            Some(caps) => match reading_of(caps) {
                Some(x) => r matches Some(p) && reading_view(p) == x,
                None => r is None,
            },
            None => r is None,
        },
{
    let caps = captures_of(
        "\\[download\\]\\s+([\\d.]+)%\\s+of\\s+~?([\\d.]+\\w+)\\s+at\\s+([\\d.]+\\w+/s)\\s+ETA\\s+(\\d{2}:\\d{2})",
        line,
    );
    match caps {
        Some(c) => progress_from_captures(&c),
        None => None,
    }
}

/// The lines other than progress lines that yt-dlp printed: the first is
/// the channel, the second the title, the last the path of the file.
#[derive(Debug)]
pub struct YtdlpOutput {
    pub channel: String,
    pub title: String,
    pub file_path: String,
}

impl YtdlpOutput {
    /// Nothing printed yet.
    pub fn new() -> (r: YtdlpOutput)
        ensures
            r.channel@.len() == 0,
            r.title@.len() == 0,
            r.file_path@.len() == 0,
    {
        YtdlpOutput { channel: String::new(), title: String::new(), file_path: String::new() }
    }

    /// Takes a line that is no progress line: it fills the channel while
    /// that is empty, then the title while that is empty, and otherwise
    /// replaces the file path.
    pub fn record_line(&mut self, line: String)
        ensures
            old(self).channel@.len() == 0 ==> final(self).channel@ == line@ && final(self).title@
                == old(self).title@ && final(self).file_path@ == old(self).file_path@,
            old(self).channel@.len() > 0 && old(self).title@.len() == 0 ==> final(self).channel@
                == old(self).channel@ && final(self).title@ == line@ && final(self).file_path@ == old(
                self,
            ).file_path@,
            old(self).channel@.len() > 0 && old(self).title@.len() > 0 ==> final(self).channel@
                == old(self).channel@ && final(self).title@ == old(self).title@
                && final(self).file_path@ == line@,
    {
        if self.channel.as_str().unicode_len() == 0 {
            self.channel = line;
        } else if self.title.as_str().unicode_len() == 0 {
            self.title = line;
        } else {
            self.file_path = line;
        }
    }
}

/// Why a download failed.
#[derive(Debug)]
pub enum DownloadError {
    /// yt-dlp exited with a failure: its exit code (-1 when it has none) and
    /// what it wrote to standard error.
    ToolFailed { code: i32, stderr: String },
    /// yt-dlp succeeded but printed no file path.
    MissingFilePath,
}

/// The separators left at the start of a title once the channel name is
/// taken out of it.
pub open spec fn title_leftovers() -> Seq<char> {
    seq!['-', ':', '|', ' ']
}

/// The channel name: what precedes the first comma, trimmed.
pub open spec fn clean_channel(channel: Seq<char>) -> Seq<char> {
    trim(split(channel, seq![','])[0])
}

/// The title without the channel name in it, and without the separators
/// and whitespace around what is left.
pub open spec fn clean_title(title: Seq<char>, channel: Seq<char>) -> Seq<char> {
    trim(trim_start_set(replace(title, channel, Seq::empty()), title_leftovers()))
}

/// `s.trim_start_matches(set)` on characters.
fn trim_start_set_chars(v: &Vec<char>, set: &Vec<char>) -> (r: usize)
    ensures
        r <= v@.len(),
        trim_start_set(v@, set@) == v@.subrange(r as int, v@.len() as int),
{
    let mut i: usize = 0;
    assert(v@.subrange(0, v@.len() as int) =~= v@);
    loop
        invariant
            i <= v@.len(),
            trim_start_set(v@, set@) == trim_start_set(v@.subrange(i as int, v@.len() as int), set@),
        decreases v@.len() - i,
    {
        let ghost rest = v@.subrange(i as int, v@.len() as int);
        if i >= v.len() {
            return i;
        }
        let c = v[i];
        assert(rest[0] == c);
        let mut k: usize = 0;
        let mut found = false;
        while k < set.len()
            invariant
                k <= set@.len(),
                found == (exists|x: int| 0 <= x < k && set@[x] == c),
            decreases set@.len() - k,
        {
            if set[k] == c {
                found = true;
            }
            k = k + 1;
        }
        if !found {
            assert(!set@.contains(c));
            return i;
        }
        assert(rest.drop_first() =~= v@.subrange(i + 1, v@.len() as int));
        i = i + 1;
    }
}

/// The result of a finished yt-dlp run.
pub open spec fn finish_of(
    success: bool,
    code: Option<i32>,
    stderr: Seq<char>,
    channel: Seq<char>,
    title: Seq<char>,
    file_path: Seq<char>,
) -> Result<(Seq<char>, Seq<char>, Seq<char>), (Option<(i32, Seq<char>)>)> {
    if !success {
        Err(
            Some(
                (
                    match code {
                        Some(c) => c,
                        None => -1i32,
                    },
                    stderr,
                ),
            ),
        )
    } else if file_path.len() == 0 {
        Err(None)
    } else {
        let ch = clean_channel(channel);
        Ok((ch, clean_title(title, ch), file_path))
    }
}

/// Turns what a finished yt-dlp run printed into the download it made: the
/// run must have succeeded and printed a file path; the channel and the
/// title are cleaned (see `clean_channel` and `clean_title`).
pub fn finish_download(success: bool, code: Option<i32>, stderr: String, out: YtdlpOutput) -> (r:
    Result<crate::models::AudioDownload, DownloadError>)
    ensures
        match finish_of(success, code, stderr@, out.channel@, out.title@, out.file_path@) {
            Ok((ch, t, f)) => r matches Ok(d) && d.channel@ == ch && d.title@ == t && d.file_path@
                == f,
            Err(Some((c, e))) => r matches Err(DownloadError::ToolFailed { code: c2, stderr: e2 })
                && c2 == c && e2@ == e,
            Err(None) => r matches Err(DownloadError::MissingFilePath),
        },
{
    if !success {
        let c = match code {
            Some(c) => c,
            None => -1,
        };
        return Err(DownloadError::ToolFailed { code: c, stderr });
    }
    if out.file_path.as_str().unicode_len() == 0 {
        return Err(DownloadError::MissingFilePath);
    }
    let cv = chars_of(out.channel.as_str());
    let mut comma: Vec<char> = Vec::new();
    comma.push(',');
    assert(comma@ =~= seq![',']);
    let pieces = split_chars(&cv, &comma);
    assert(pieces@.len() >= 1) by {
        assert(views(pieces@).len() == pieces@.len());
        lemma_split_nonempty(cv@, seq![',']);
    }
    assert(pieces@[0]@ == split(out.channel@, seq![','])[0]);
    let first = &pieces[0];
    let (a, b) = trim_bounds(first);
    let channel = string_of_range(first, a, b);
    let replaced = replace_all(out.title.as_str(), channel.as_str(), "");
    let rv = chars_of(replaced.as_str());
    let mut set: Vec<char> = Vec::new();
    set.push('-');
    set.push(':');
    set.push('|');
    set.push(' ');
    assert(set@ =~= title_leftovers());
    let start = trim_start_set_chars(&rv, &set);
    let rest = sub_vec(&rv, start, rv.len());
    let (ta, tb) = trim_bounds(&rest);
    let title = string_of_range(&rest, ta, tb);
    proof {
        reveal_strlit("");
        assert(""@ =~= Seq::<char>::empty());
    }
    Ok(crate::models::AudioDownload { channel, title, file_path: out.file_path })
}

// ---------------------------------------------------------------------
// The video id of a URL
// ---------------------------------------------------------------------

/// Characters that end a video id in a URL.
pub open spec fn is_id_stop(c: char) -> bool {
    c == '?' || c == '&' || c == '#' || c == '/'
}

/// Where an id that starts at `i` ends: at the first of `?`, `&`, `#`, `/`
/// from `i` on, or at the end of `s`.
pub open spec fn id_end(s: Seq<char>, i: int) -> int
    decreases s.len() - i,
{
    if i < 0 || i >= s.len() {
        s.len() as int
    } else if is_id_stop(s[i]) {
        i
    } else {
        id_end(s, i + 1)
    }
}

/// Where the id of `url` starts: after the first `?v=` or `&v=`, or else
/// after the first `youtu.be/`.
pub open spec fn id_start(url: Seq<char>) -> Option<int> {
    let q = find_from(url, seq!['?', 'v', '='], 0);
    let a = find_from(url, seq!['&', 'v', '='], 0);
    match (q, a) {
        (Some(x), Some(y)) => Some(if x < y { x + 3 } else { y + 3 }),
        (Some(x), None) => Some(x + 3),
        (None, Some(y)) => Some(y + 3),
        (None, None) => match find_from(url, seq!['y', 'o', 'u', 't', 'u', '.', 'b', 'e', '/'], 0) {
            Some(k) => Some(k + 9),
            None => None,
        },
    }
}

/// The video id of a YouTube URL: the value of its `v` parameter
/// (`watch?v=<id>`), or else the path after `youtu.be/`, up to the next
/// `?`, `&`, `#` or `/`; `None` when there is neither, or the id is empty.
pub open spec fn video_id_of(url: Seq<char>) -> Option<Seq<char>> {
    match id_start(url) {
        Some(k) => {
            let id = url.subrange(k, id_end(url, k));
            if id.len() > 0 {
                Some(id)
            } else {
                None
            }
        },
        None => None,
    }
}

/// The position just after the first occurrence of `p` in `v`, if any.
fn after_first(v: &Vec<char>, p: &Vec<char>) -> (r: Option<usize>)
    ensures
        match find_from(v@, p@, 0) {
            Some(k) => r matches Some(e) && e == k + p@.len() && k + p@.len() <= v@.len(),
            None => r is None,
        },
{
    proof {
        crate::text::lemma_find_from(v@, p@, 0);
    }
    match crate::text::find_in(v, p, 0) {
        Some(k) => {
            let n = v.len();
            let m = p.len();
            assert(occurs_at(v@, p@, k as int));
            assert(k + m <= n);
            Some(k + m)
        },
        None => None,
    }
}

/// Reads the video id of a YouTube URL (see `video_id_of`).
pub fn extract_video_id(url: &str) -> (r: Option<String>)
    ensures
        match video_id_of(url@) {
            Some(id) => r matches Some(s) && s@ == id,
            None => r is None,
        },
{
    let v = chars_of(url);
    let q = vec!['?', 'v', '='];
    let a = vec!['&', 'v', '='];
    let yb = vec!['y', 'o', 'u', 't', 'u', '.', 'b', 'e', '/'];
    assert(q@ =~= seq!['?', 'v', '=']);
    assert(a@ =~= seq!['&', 'v', '=']);
    assert(yb@ =~= seq!['y', 'o', 'u', 't', 'u', '.', 'b', 'e', '/']);
    let sq = after_first(&v, &q);
    let sa = after_first(&v, &a);
    let start: Option<usize> = match sq {
        Some(x) => match sa {
            Some(y) => {
                assert(id_start(v@) == Some(if x < y { x as int } else { y as int }));
                Some(if x < y { x } else { y })
            },
            None => {
                assert(id_start(v@) == Some(x as int));
                Some(x)
            },
        },
        None => match sa {
            Some(y) => {
                assert(id_start(v@) == Some(y as int));
                Some(y)
            },
            None => {
                let sy = after_first(&v, &yb);
                assert(id_start(v@) == match sy { Some(k) => Some(k as int), None => None::<int> });
                sy
            },
        },
    };
    match start {
        None => {
            assert(id_start(v@) is None);
            None
        },
        Some(k) => {
            assert(id_start(v@) == Some(k as int));
            assert(k <= v@.len());
            let mut e = k;
            while e < v.len() && !(v[e] == '?' || v[e] == '&' || v[e] == '#' || v[e] == '/')
                invariant
                    k <= e <= v@.len(),
                    id_end(v@, k as int) == id_end(v@, e as int),
                decreases v@.len() - e,
            {
                e = e + 1;
            }
            if e == k {
                None
            } else {
                Some(string_of_range(&v, k, e))
            }
        },
    }
}

/// A speed is the size printed before `/s`: `parse_speed(s + "/s")`
/// reads the same number and unit as `parse_size(s)` when `s` does not
/// itself end with `/s`.
pub proof fn lemma_speed_is_size_per_second(s: Seq<char>)
    requires
        !ends_with(s, seq!['/', 's']),
    ensures
        speed_of(s + seq!['/', 's']) == size_of(s),
{
    let suf = seq!['/', 's'];
    let t = s + suf;
    assert(t.subrange(t.len() - 2, t.len() as int) =~= suf);
    assert(t.subrange(0, t.len() - 2) =~= s);
    assert(trim_end_str(t, suf) == trim_end_str(s, suf));
}

/// yt-dlp is asked to print the channel before the title, the order in
/// which `YtdlpOutput::record_line` stores its lines: the first `--print`
/// of the arguments is followed by `%(channel)s`, the second by
/// `%(title)s`, whatever the URL, cookies and proxy.
pub proof fn lemma_channel_printed_before_title(
    url: Seq<char>,
    cookies: Option<Seq<char>>,
    proxy: Option<Seq<char>>,
)
    ensures
        ({
            let a = ytdlp_args_for(url, cookies, proxy);
            &&& forall|k: int| 0 <= k < 15 ==> a[k] != "--print"@
            &&& a[15] == "--print"@
            &&& a[16] == "%(channel)s"@
            &&& a[17] == "--print"@
            &&& a[18] == "%(title)s"@
        }),
{
    reveal_strlit("-x");
    reveal_strlit("--audio-format");
    reveal_strlit("mp3");
    reveal_strlit("--audio-quality");
    reveal_strlit("0");
    reveal_strlit("-o");
    reveal_strlit("%(title)s.%(ext)s");
    reveal_strlit("-q");
    reveal_strlit("--progress");
    reveal_strlit("--newline");
    reveal_strlit("--force-ipv4");
    reveal_strlit("--retries");
    reveal_strlit("1");
    reveal_strlit("--socket-timeout");
    reveal_strlit("3");
    reveal_strlit("--print");
    let a = ytdlp_args_for(url, cookies, proxy);
    let b = base_args();
    assert(b.len() == 21);
    let wc = match cookies {
        Some(c) => b + seq!["--cookies"@, c],
        None => b,
    };
    let wp = match proxy {
        Some(p) => wc + seq!["--proxy"@, p],
        None => wc,
    };
    assert(a == wp.push(url));
    assert forall|k: int| 0 <= k < 21 implies a[k] == b[k] by {
        assert(wc[k] == b[k]);
        assert(wp[k] == wc[k]);
    }
    assert forall|k: int| 0 <= k < 15 implies a[k] != "--print"@ by {
        assert(a[k].len() != "--print"@.len());
    }
}

} // verus!
