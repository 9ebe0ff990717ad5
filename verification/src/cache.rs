//! The shared download cache: the addresses the client calls, how it reads
//! the server's answers, and the choices the server makes.
use vstd::prelude::*;
use crate::text::{
    chars_of, contains, ends_with, lemma_no_start_in, lemma_split_between, split, split_str,
    string_of_range, string_views,
};

verus! {

broadcast use vstd::string::group_string_axioms;

/// `http://<ip>:3000`, the address of the cache server.
pub fn server_url(ip: &str) -> (r: String)
    ensures
        r@ == "http://"@ + ip@ + ":3000"@,
{
    let mut r = String::from_str("http://");
    r.append(ip);
    r.append(":3000");
    r
}

/// `<server>/cache/<id>`, where a cached file is fetched.
pub fn cache_url(server: &str, video_id: &str) -> (r: String)
    ensures
        r@ == server@ + "/cache/"@ + video_id@,
{
    let mut r = String::from_str(server);
    r.append("/cache/");
    r.append(video_id);
    r
}

/// `<server>/cache/<id>/<action>`: `claim`, `upload` or `metadata`.
pub fn cache_action_url(server: &str, video_id: &str, action: &str) -> (r: String)
    ensures
        r@ == server@ + "/cache/"@ + video_id@ + "/"@ + action@,
{
    let mut r = cache_url(server, video_id);
    r.append("/");
    r.append(action);
    r
}

/// Whether an HTTP status is a success (`200..=299`).
pub open spec fn success(status: u16) -> bool {
    200 <= status <= 299
}

/// Whether an HTTP status is a success.
pub fn is_success(status: u16) -> (r: bool)
    ensures
        r == success(status),
{
    200 <= status && status <= 299
}

/// What the cache server said about a file or its metadata.
#[derive(Clone, Copy, Debug, PartialEq, Eq, Structural)]
pub enum CacheLookup {
    /// The server has nothing for this video (404).
    Missing,
    /// The server sends it.
    Found,
    /// Any other status, an error.
    Failed(u16),
}

/// Reads the status of a cache lookup: 404 means not cached, a success
/// means the body follows, anything else is an error.
pub fn classify_lookup(status: u16) -> (r: CacheLookup)
    ensures
        status == 404 ==> r == CacheLookup::Missing,
        status != 404 && success(status) ==> r == CacheLookup::Found,
        status != 404 && !success(status) ==> r == CacheLookup::Failed(status),
{
    if status == 404 {
        CacheLookup::Missing
    } else if is_success(status) {
        CacheLookup::Found
    } else {
        CacheLookup::Failed(status)
    }
}

/// What precedes the file name in a `Content-Disposition` header.
pub open spec fn filename_marker() -> Seq<char> {
    "filename=\""@
}

/// The name a cached file is saved under: the text between the first and
/// the second `filename="` of the `Content-Disposition` header, without a
/// closing `"`; `cached_song.mp3` when there is no such header, no such
/// text, or it does not end with `"`.
pub open spec fn filename_in(header: Option<Seq<char>>) -> Seq<char> {
    match header {
        Some(h) => {
            let parts = split(h, filename_marker());
            if parts.len() >= 2 && parts[1].len() > 0 && parts[1].last() == '"' {
                parts[1].drop_last()
            } else {
                "cached_song.mp3"@
            }
        },
        None => "cached_song.mp3"@,
    }
}

/// The name a cached file is saved under (see `filename_in`); `header` is
/// the `Content-Disposition` header, when it is present and readable.
pub fn filename_from_disposition(header: Option<&str>) -> (r: String)
    ensures
        r@ == filename_in(
            match header {
                Some(h) => Some(h@),
                None => None,
            },
        ),
{
    proof {
        reveal_strlit("filename=\"");
    }
    match header {
        Some(h) => {
            let parts = split_str(h, "filename=\"");
            if parts.len() >= 2 {
                assert(parts@[1]@ == string_views(parts@)[1]);
                let v = chars_of(parts[1].as_str());
                let n = v.len();
                if n > 0 && v[n - 1] == '"' {
                    return string_of_range(&v, 0, n - 1);
                }
            }
            String::from_str("cached_song.mp3")
        },
        None => String::from_str("cached_song.mp3"),
    }
}

/// `attachment; filename="<name>"`, the header the server sends with a file.
pub open spec fn disposition_for(name: Seq<char>) -> Seq<char> {
    "attachment; "@ + filename_marker() + name + "\""@
}

/// The `Content-Disposition` header for a cached file.
pub fn content_disposition(filename: &str) -> (r: String)
    ensures
        r@ == disposition_for(filename@),
{
    let mut r = String::from_str("attachment; filename=\"");
    r.append(filename);
    r.append("\"");
    proof {
        reveal_strlit("attachment; filename=\"");
        reveal_strlit("attachment; ");
        reveal_strlit("filename=\"");
        assert("attachment; filename=\""@ =~= "attachment; "@ + filename_marker());
    }
    r
}

/// The client saves a cached file under the name the server sent it with,
/// when the name (followed by `"`) holds no `filename="`.
pub proof fn lemma_disposition_roundtrip(name: Seq<char>)
    requires
        !contains(name + "\""@, filename_marker()),
    ensures
        filename_in(Some(disposition_for(name))) == name,
{
    reveal_strlit("attachment; ");
    reveal_strlit("filename=\"");
    reveal_strlit("\"");
    let a = "attachment; "@;
    let p = filename_marker();
    let b = name + "\""@;
    assert forall|k: int| 0 <= k < a.len() implies a[k] != p[0] by {}
    lemma_no_start_in(a, p, b);
    lemma_split_between(a, p, b);
    assert(a + p + b =~= disposition_for(name));
    assert(b.drop_last() =~= name);
}

// ---------------------------------------------------------------------
// The server's side
// ---------------------------------------------------------------------

/// Whether a file name ends with `.mp3`.
pub open spec fn is_mp3_name(name: Seq<char>) -> bool {
    ends_with(name, ".mp3"@)
}

/// The first entry of a cache directory whose name ends with `.mp3`;
/// `None` stands for an entry whose name is no valid UTF-8.
pub open spec fn first_mp3(names: Seq<Option<Seq<char>>>) -> Option<Seq<char>>
    decreases names.len(),
{
    if names.len() == 0 {
        None
    } else {
        match names[0] {
            Some(n) => if is_mp3_name(n) {
                Some(n)
            } else {
                first_mp3(names.drop_first())
            },
            None => first_mp3(names.drop_first()),
        }
    }
}

/// The views of optional strings.
pub open spec fn opt_views(v: Seq<Option<String>>) -> Seq<Option<Seq<char>>> {
    v.map_values(
        |o: Option<String>|
            match o {
                Some(s) => Some(s@),
                None => None,
            },
    )
}

/// Picks the file a cache directory serves (see `first_mp3`).
pub fn pick_mp3(names: &Vec<Option<String>>) -> (r: Option<String>)
    ensures
        match first_mp3(opt_views(names@)) {
            Some(n) => r matches Some(s) && s@ == n,
            None => r is None,
        },
{
    proof {
        reveal_strlit(".mp3");
    }
    let ext = chars_of(".mp3");
    let mut i: usize = 0;
    assert(opt_views(names@).skip(0) =~= opt_views(names@));
    while i < names.len()
        invariant
            i <= names@.len(),
            ext@ == ".mp3"@,
            first_mp3(opt_views(names@)) == first_mp3(opt_views(names@).skip(i as int)),
        decreases names@.len() - i,
    {
        let ghost rest = opt_views(names@).skip(i as int);
        assert(rest.drop_first() =~= opt_views(names@).skip(i + 1));
        match &names[i] {
            Some(n) => {
                let v = chars_of(n.as_str());
                let e = crate::text::ends_with_chars(&v, v.len(), &ext);
                assert(v@.subrange(0, v@.len() as int) =~= v@);
                assert(rest[0] == Some(n@));
                if e {
                    return Some(n.clone());
                }
            },
            None => {},
        }
        i = i + 1;
    }
    None
}

/// The status the server answers a claim with: 200 when the claim was
/// recorded, 409 when the video is claimed already.
pub fn claim_status(inserted: bool) -> (r: u16)
    ensures
        r == (if inserted {
            200u16
        } else {
            409u16
        }),
{
    if inserted {
        200
    } else {
        409
    }
}

/// The status the server answers an upload with: 200 when a claim was
/// marked ready, 404 when there was no claim for the video.
pub fn upload_status(rows_affected: u64) -> (r: u16)
    ensures
        r == (if rows_affected > 0 {
            200u16
        } else {
            404u16
        }),
{
    if rows_affected > 0 {
        200
    } else {
        404
    }
}

// ---------------------------------------------------------------------
// Waiting for a video that someone else is downloading
// ---------------------------------------------------------------------

/// How many times the client looks for a video that someone else claimed.
pub open spec fn max_polls() -> nat {
    12
}

/// The seconds the client waits before each look.
pub fn poll_interval_secs() -> (r: u64)
    ensures
        r == 5,
{
    5
}

/// What one look at the cache found.
#[derive(Clone, Copy, Debug, PartialEq, Eq, Structural)]
pub enum PollOutcome {
    /// The file is there and was fetched.
    Ready,
    /// The file is not there yet.
    NotReady,
    /// The cache server failed.
    Failed,
}

/// What the client does after a look.
#[derive(Clone, Copy, Debug, PartialEq, Eq, Structural)]
pub enum WaitAction {
    /// Use the fetched file; nothing is downloaded.
    UseCache,
    /// Stop waiting and download the video from YouTube.
    Download,
    /// Not there yet: `remind` says whether to tell the user that the
    /// client is still waiting, `look_again` whether another look follows
    /// (otherwise the video is downloaded from YouTube).
    Pending { remind: bool, look_again: bool },
}

/// The action after look number `n` (from 1) found `outcome`: a fetched
/// file is used, a failure falls back to YouTube, and a file that is not
/// there yet is waited for, with a reminder every fourth look, until the
/// twelfth look.
pub open spec fn wait_action(n: nat, outcome: PollOutcome) -> WaitAction {
    match outcome {
        PollOutcome::Ready => WaitAction::UseCache,
        PollOutcome::Failed => WaitAction::Download,
        PollOutcome::NotReady => WaitAction::Pending {
            remind: n % 4 == 0,
            look_again: n < max_polls(),
        },
    }
}

/// Decides what follows look number `n` (see `wait_action`).
pub fn after_poll(n: u32, outcome: PollOutcome) -> (r: WaitAction)
    requires
        1 <= n <= max_polls(),
    ensures
        r == wait_action(n as nat, outcome),
{
    match outcome {
        PollOutcome::Ready => WaitAction::UseCache,
        PollOutcome::Failed => WaitAction::Download,
        PollOutcome::NotReady => WaitAction::Pending { remind: n % 4 == 0, look_again: n < 12 },
    }
}

/// Waiting never takes more than twelve looks: after the twelfth, the
/// client uses the file or downloads the video itself.
pub proof fn lemma_wait_ends(outcome: PollOutcome)
    ensures
        !(wait_action(max_polls(), outcome) matches WaitAction::Pending { look_again: true, .. }),
{
}

} // verus!
