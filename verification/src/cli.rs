//! The command line of `echotag`:
//!
//! ```text
//! echotag download [-c|--cookies <COOKIES>] [-s|--skip-metadata-verification] <URLS>...
//! echotag update <PATHS>...
//! echotag config [--setup-model] [--setup-cache-server]
//! echotag chat
//! ```
//!
//! `--cookies` and at least one URL are required for `download`, and at
//! least one path for `update`.  Options follow the usual conventions: a
//! value may follow its option as the next argument, after `=`, or (for a
//! short option) attached to it; short flags may be grouped (`-sc FILE`);
//! after `--` every argument is positional; `-h`, `--help` and `help` ask
//! for the help text.
use vstd::prelude::*;
use crate::text::{
    chars_of, find_from, find_in, lemma_find_from, occurs_at, string_of_range, string_views,
    views,
};

verus! {

broadcast use vstd::string::group_string_axioms;

/// Why a command line was refused.
#[derive(Clone, Copy, Debug, PartialEq, Eq, Structural)]
pub enum CliError {
    /// No subcommand was given.
    MissingSubcommand,
    /// The first argument names no subcommand.
    InvalidSubcommand,
    /// An option that the subcommand does not know, or an argument that it
    /// does not take.
    UnknownArgument,
    /// An option that needs a value was given none.
    MissingValue,
    /// An empty value where a path is needed.
    InvalidValue,
    /// An option was given twice.
    ArgumentRepeated,
    /// A required option or argument is missing.
    MissingRequired,
    /// The help text was asked for.
    DisplayHelp,
}

/// A subcommand with its arguments.
#[derive(Debug)]
pub enum Command {
    /// Download and tag audio from YouTube.
    Download { urls: Vec<String>, cookies: String, skip_metadata_verification: bool },
    /// Update tags for existing audio files.
    Update { paths: Vec<String> },
    /// Configure the AI provider and the cache server.
    Config { setup_model: bool, setup_cache_server: bool },
    /// Chat with the AI to get music recommendations.
    Chat,
}

/// A parsed command line.
#[derive(Debug)]
pub struct Cli {
    pub command: Command,
}

/// The mathematical value of a `Command`.
pub enum CommandSpec {
    Download { urls: Seq<Seq<char>>, cookies: Seq<char>, skip_metadata_verification: bool },
    Update { paths: Seq<Seq<char>> },
    Config { setup_model: bool, setup_cache_server: bool },
    Chat,
}

impl View for Command {
    type V = CommandSpec;

    open spec fn view(&self) -> CommandSpec {
        match self {
            Command::Download { urls, cookies, skip_metadata_verification } => CommandSpec::Download {
                urls: string_views(urls@),
                cookies: cookies@,
                skip_metadata_verification: *skip_metadata_verification,
            },
            Command::Update { paths } => CommandSpec::Update { paths: string_views(paths@) },
            Command::Config { setup_model, setup_cache_server } => CommandSpec::Config {
                setup_model: *setup_model,
                setup_cache_server: *setup_cache_server,
            },
            Command::Chat => CommandSpec::Chat,
        }
    }
}

// ---------------------------------------------------------------------
// The grammar
// ---------------------------------------------------------------------

/// The views of the arguments.
pub open spec fn arg_views(args: Seq<&str>) -> Seq<Seq<char>> {
    args.map_values(|a: &str| a@)
}

/// An argument that reads as an option (a dash and something more).
pub open spec fn flag_like(t: Seq<char>) -> bool {
    t.len() > 1 && t[0] == '-'
}

/// The argument `--`.
pub open spec fn double_dash(t: Seq<char>) -> bool {
    t.len() == 2 && t[0] == '-' && t[1] == '-'
}

/// A long option, `--name` or `--name=value`.
pub open spec fn long_opt(t: Seq<char>) -> bool {
    t.len() > 2 && t[0] == '-' && t[1] == '-'
}

/// The index of the `=` of a long option, if it has one.
pub open spec fn long_eq(t: Seq<char>) -> Option<int> {
    find_from(t, seq!['='], 2)
}

/// The name of a long option.
pub open spec fn long_name(t: Seq<char>) -> Seq<char> {
    match long_eq(t) {
        Some(k) => t.subrange(2, k),
        None => t.subrange(2, t.len() as int),
    }
}

/// The value given to a long option after `=`.
pub open spec fn long_value(t: Seq<char>) -> Option<Seq<char>> {
    match long_eq(t) {
        Some(k) => Some(t.subrange(k + 1, t.len() as int)),
        None => None,
    }
}

/// An option that asks for help: `--help`, or a group of short flags
/// that starts with `h`.
pub open spec fn help_flag(t: Seq<char>) -> bool {
    &&& flag_like(t)
    &&& !double_dash(t)
    &&& if long_opt(t) {
        long_name(t) == "help"@
    } else {
        t[1] == 'h'
    }
}

/// What has been read of a `download` command line so far.
pub struct DownloadArgs {
    pub urls: Seq<Seq<char>>,
    pub cookies: Option<Seq<char>>,
    pub skip: bool,
    /// Whether `--` has been seen.
    pub raw: bool,
}

/// Takes the value of `--cookies`.
pub open spec fn set_cookies(st: DownloadArgs, v: Seq<char>) -> Result<DownloadArgs, CliError> {
    if st.cookies is Some {
        Err(CliError::ArgumentRepeated)
    } else if v.len() == 0 {
        Err(CliError::InvalidValue)
    } else {
        Ok(DownloadArgs { urls: st.urls, cookies: Some(v), skip: st.skip, raw: st.raw })
    }
}

/// Takes the flag `--skip-metadata-verification`.
pub open spec fn set_skip(st: DownloadArgs) -> Result<DownloadArgs, CliError> {
    if st.skip {
        Err(CliError::ArgumentRepeated)
    } else {
        Ok(DownloadArgs { urls: st.urls, cookies: st.cookies, skip: true, raw: st.raw })
    }
}

/// Reads the group of short options `args[i]` from its `j`-th character
/// on; gives the new state and the index of the next argument to read.
pub open spec fn download_short(args: Seq<Seq<char>>, i: int, j: int, st: DownloadArgs) -> Result<
    (DownloadArgs, int),
    CliError,
>
    decreases args[i].len() - j,
{
    let t = args[i];
    if j < 1 || j >= t.len() {
        Ok((st, i + 1))
    } else if t[j] == 'h' {
        Err(CliError::DisplayHelp)
    } else if t[j] == 's' {
        match set_skip(st) {
            Ok(s2) => download_short(args, i, j + 1, s2),
            Err(e) => Err(e),
        }
    } else if t[j] == 'c' {
        if j + 1 < t.len() {
            let rest = t.subrange(j + 1, t.len() as int);
            let v = if rest[0] == '=' {
                rest.drop_first()
            } else {
                rest
            };
            match set_cookies(st, v) {
                Ok(s2) => Ok((s2, i + 1)),
                Err(e) => Err(e),
            }
        } else if i + 1 < args.len() && !flag_like(args[i + 1]) {
            match set_cookies(st, args[i + 1]) {
                Ok(s2) => Ok((s2, i + 2)),
                Err(e) => Err(e),
            }
        } else {
            Err(CliError::MissingValue)
        }
    } else {
        Err(CliError::UnknownArgument)
    }
}

/// The end of a `download` command line.
pub open spec fn download_finish(st: DownloadArgs) -> Result<CommandSpec, CliError> {
    if st.cookies is None || st.urls.len() == 0 {
        Err(CliError::MissingRequired)
    } else {
        Ok(
            CommandSpec::Download {
                urls: st.urls,
                cookies: st.cookies->0,
                skip_metadata_verification: st.skip,
            },
        )
    }
}

/// Reads the arguments of `download` from index `i` on.
pub open spec fn download_from(args: Seq<Seq<char>>, i: int, st: DownloadArgs) -> Result<
    CommandSpec,
    CliError,
>
    decreases args.len() - i,
{
    if i < 0 || i >= args.len() {
        download_finish(st)
    } else {
        let t = args[i];
        if st.raw || !flag_like(t) {
            download_from(
                args,
                i + 1,
                DownloadArgs { urls: st.urls.push(t), cookies: st.cookies, skip: st.skip, raw: st.raw },
            )
        } else if double_dash(t) {
            download_from(
                args,
                i + 1,
                DownloadArgs { urls: st.urls, cookies: st.cookies, skip: st.skip, raw: true },
            )
        } else if long_opt(t) {
            let name = long_name(t);
            if name == "help"@ {
                Err(CliError::DisplayHelp)
            } else if name == "cookies"@ {
                match long_value(t) {
                    Some(v) => match set_cookies(st, v) {
                        Ok(s2) => download_from(args, i + 1, s2),
                        Err(e) => Err(e),
                    },
                    None => if i + 1 < args.len() && !flag_like(args[i + 1]) {
                        match set_cookies(st, args[i + 1]) {
                            Ok(s2) => download_from(args, i + 2, s2),
                            Err(e) => Err(e),
                        }
                    } else {
                        Err(CliError::MissingValue)
                    },
                }
            } else if name == "skip-metadata-verification"@ && long_value(t) is None {
                match set_skip(st) {
                    Ok(s2) => download_from(args, i + 1, s2),
                    Err(e) => Err(e),
                }
            } else {
                Err(CliError::UnknownArgument)
            }
        } else {
            match download_short(args, i, 1, st) {
                Ok((s2, n)) => if i < n <= args.len() {
                    download_from(args, n, s2)
                } else {
                    Err(CliError::UnknownArgument)
                },
                Err(e) => Err(e),
            }
        }
    }
}

/// Reads the arguments of `update` from index `i` on.
pub open spec fn update_from(args: Seq<Seq<char>>, i: int, paths: Seq<Seq<char>>, raw: bool) -> Result<
    CommandSpec,
    CliError,
>
    decreases args.len() - i,
{
    if i < 0 || i >= args.len() {
        if paths.len() == 0 {
            Err(CliError::MissingRequired)
        } else {
            Ok(CommandSpec::Update { paths })
        }
    } else {
        let t = args[i];
        if raw || !flag_like(t) {
            if t.len() == 0 {
                Err(CliError::InvalidValue)
            } else {
                update_from(args, i + 1, paths.push(t), raw)
            }
        } else if double_dash(t) {
            update_from(args, i + 1, paths, true)
        } else if help_flag(t) {
            Err(CliError::DisplayHelp)
        } else {
            Err(CliError::UnknownArgument)
        }
    }
}

/// Reads the arguments of `config` from index `i` on.
pub open spec fn config_from(args: Seq<Seq<char>>, i: int, model: bool, cache: bool) -> Result<
    CommandSpec,
    CliError,
>
    decreases args.len() - i,
{
    if i < 0 || i >= args.len() {
        Ok(CommandSpec::Config { setup_model: model, setup_cache_server: cache })
    } else {
        let t = args[i];
        if double_dash(t) {
            if i + 1 < args.len() {
                Err(CliError::UnknownArgument)
            } else {
                Ok(CommandSpec::Config { setup_model: model, setup_cache_server: cache })
            }
        } else if !flag_like(t) {
            Err(CliError::UnknownArgument)
        } else if help_flag(t) {
            Err(CliError::DisplayHelp)
        } else if long_opt(t) && long_value(t) is None && long_name(t) == "setup-model"@ {
            if model {
                Err(CliError::ArgumentRepeated)
            } else {
                config_from(args, i + 1, true, cache)
            }
        } else if long_opt(t) && long_value(t) is None && long_name(t) == "setup-cache-server"@ {
            if cache {
                Err(CliError::ArgumentRepeated)
            } else {
                config_from(args, i + 1, model, true)
            }
        } else {
            Err(CliError::UnknownArgument)
        }
    }
}

/// Reads the arguments of `chat` from index `i` on.
pub open spec fn chat_from(args: Seq<Seq<char>>, i: int) -> Result<CommandSpec, CliError> {
    if i < 0 || i >= args.len() {
        Ok(CommandSpec::Chat)
    } else {
        let t = args[i];
        if double_dash(t) && i + 1 >= args.len() {
            Ok(CommandSpec::Chat)
        } else if help_flag(t) {
            Err(CliError::DisplayHelp)
        } else {
            Err(CliError::UnknownArgument)
        }
    }
}

/// What a command line means; `args[0]` is the program's name.
pub open spec fn parse_args(args: Seq<Seq<char>>) -> Result<CommandSpec, CliError> {
    if args.len() < 2 {
        Err(CliError::MissingSubcommand)
    } else {
        let t = args[1];
        if t == "download"@ {
            download_from(
                args,
                2,
                DownloadArgs { urls: Seq::empty(), cookies: None, skip: false, raw: false },
            )
        } else if t == "update"@ {
            update_from(args, 2, Seq::empty(), false)
        } else if t == "config"@ {
            config_from(args, 2, false, false)
        } else if t == "chat"@ {
            chat_from(args, 2)
        } else if t == "help"@ || help_flag(t) {
            Err(CliError::DisplayHelp)
        } else if flag_like(t) {
            Err(CliError::UnknownArgument)
        } else {
            Err(CliError::InvalidSubcommand)
        }
    }
}

// ---------------------------------------------------------------------
// Reading a command line
// ---------------------------------------------------------------------

/// Whether `v[a..b]` spells `lit`.
fn range_is(v: &Vec<char>, a: usize, b: usize, lit: &str) -> (r: bool)
    requires
        a <= b <= v@.len(),
    ensures
        r == (v@.subrange(a as int, b as int) == lit@),
{
    let l = chars_of(lit);
    if l.len() != b - a {
        return false;
    }
    let mut k: usize = 0;
    while k < l.len()
        invariant
            a <= b <= v@.len(),
            l@ == lit@,
            l@.len() == b - a,
            k <= l@.len(),
            forall|x: int| 0 <= x < k ==> v@[a + x] == l@[x],
        decreases l@.len() - k,
    {
        if v[a + k] != l[k] {
            assert(v@.subrange(a as int, b as int)[k as int] != l@[k as int]);
            return false;
        }
        k = k + 1;
    }
    assert(v@.subrange(a as int, b as int) =~= l@);
    true
}

fn is_flag_like(t: &Vec<char>) -> (r: bool)
    ensures
        r == flag_like(t@),
{
    t.len() > 1 && t[0] == '-'
}

fn is_double_dash(t: &Vec<char>) -> (r: bool)
    ensures
        r == double_dash(t@),
{
    t.len() == 2 && t[0] == '-' && t[1] == '-'
}

fn is_long_opt(t: &Vec<char>) -> (r: bool)
    ensures
        r == long_opt(t@),
{
    t.len() > 2 && t[0] == '-' && t[1] == '-'
}

/// The end of the name of a long option and the start of its value.
fn long_parts(t: &Vec<char>) -> (r: (usize, Option<usize>))
    requires
        long_opt(t@),
    ensures
        2 <= r.0 <= t@.len(),
        long_name(t@) == t@.subrange(2, r.0 as int),
        match r.1 {
            Some(k) => k <= t@.len() && long_value(t@) == Some(t@.subrange(k as int, t@.len() as int)),
            None => long_value(t@) is None,
        },
{
    let mut eq: Vec<char> = Vec::new();
    eq.push('=');
    assert(eq@ =~= seq!['=']);
    let found = find_in(t, &eq, 2);
    proof {
        lemma_find_from(t@, seq!['='], 2);
    }
    match found {
        Some(k) => {
            assert(occurs_at(t@, seq!['='], k as int));
            let n = t.len();
            assert(k < n);
            (k, Some(k + 1))
        },
        None => (t.len(), None),
    }
}

fn is_help_flag(t: &Vec<char>) -> (r: bool)
    ensures
        r == help_flag(t@),
{
    if !is_flag_like(t) || is_double_dash(t) {
        return false;
    }
    if is_long_opt(t) {
        let (ne, _) = long_parts(t);
        range_is(t, 2, ne, "help")
    } else {
        t[1] == 'h'
    }
}

/// The arguments as character vectors.
fn arg_chars(args: &Vec<&str>) -> (r: Vec<Vec<char>>)
    ensures
        views(r@) == arg_views(args@),
{
    let mut r: Vec<Vec<char>> = Vec::new();
    let mut i: usize = 0;
    while i < args.len()
        invariant
            i <= args@.len(),
            views(r@) == arg_views(args@).take(i as int),
        decreases args@.len() - i,
    {
        let c = chars_of(args[i]);
        let ghost old_r = views(r@);
        r.push(c);
        assert(views(r@) =~= old_r.push(args@[i as int]@));
        assert(arg_views(args@).take(i + 1) =~= arg_views(args@).take(i as int).push(
            args@[i as int]@,
        ));
        i = i + 1;
    }
    assert(arg_views(args@).take(args@.len() as int) =~= arg_views(args@));
    r
}

/// What has been read of a `download` command line.
struct DownloadState {
    urls: Vec<String>,
    cookies: Option<String>,
    skip: bool,
    raw: bool,
}

impl DownloadState {
    spec fn spec(&self) -> DownloadArgs {
        DownloadArgs {
            urls: string_views(self.urls@),
            cookies: match self.cookies {
                Some(c) => Some(c@),
                None => None,
            },
            skip: self.skip,
            raw: self.raw,
        }
    }

    fn take_cookies(self, v: String) -> (r: Result<DownloadState, CliError>)
        ensures
            match r {
                Ok(s2) => set_cookies(self.spec(), v@) == Ok::<DownloadArgs, CliError>(s2.spec()),
                Err(e) => set_cookies(self.spec(), v@) == Err::<DownloadArgs, CliError>(e),
            },
    {
        if self.cookies.is_some() {
            return Err(CliError::ArgumentRepeated);
        }
        if v.as_str().unicode_len() == 0 {
            return Err(CliError::InvalidValue);
        }
        Ok(DownloadState { urls: self.urls, cookies: Some(v), skip: self.skip, raw: self.raw })
    }

    fn take_skip(self) -> (r: Result<DownloadState, CliError>)
        ensures
            match r {
                Ok(s2) => set_skip(self.spec()) == Ok::<DownloadArgs, CliError>(s2.spec()),
                Err(e) => set_skip(self.spec()) == Err::<DownloadArgs, CliError>(e),
            },
    {
        if self.skip {
            return Err(CliError::ArgumentRepeated);
        }
        Ok(DownloadState { urls: self.urls, cookies: self.cookies, skip: true, raw: self.raw })
    }
}

/// Reads the group of short options `args[i]`.
fn read_download_short(
    toks: &Vec<Vec<char>>,
    args: &Vec<&str>,
    i: usize,
    st_in: DownloadState,
) -> (r: Result<(DownloadState, usize), CliError>)
    requires
        i < toks@.len(),
        views(toks@) == arg_views(args@),
    ensures
        r is Ok <==> download_short(views(toks@), i as int, 1, st_in.spec()) is Ok,
        r matches Ok((s2, n)) ==> download_short(views(toks@), i as int, 1, st_in.spec())->Ok_0 == (
            s2.spec(),
            n as int,
        ) && i < n <= toks@.len(),
        r matches Err(e) ==> download_short(views(toks@), i as int, 1, st_in.spec())->Err_0 == e,
{
    let ghost a = views(toks@);
    let ghost st0 = st_in.spec();
    let tl = toks.len();
    let t = &toks[i];
    assert(t@ == a[i as int]);
    let mut st = st_in;
    let mut j: usize = 1;
    loop
        invariant
            i < toks@.len(),
            tl == toks@.len(),
            a == views(toks@),
            a == arg_views(args@),
            t@ == a[i as int],
            st0 == st_in.spec(),
            j >= 1,
            download_short(a, i as int, 1, st0) == download_short(a, i as int, j as int, st.spec()),
        decreases t@.len() - j,
    {
        if j >= t.len() {
            return Ok((st, i + 1));
        }
        let c = t[j];
        assert(a[i as int][j as int] == c);
        if c == 'h' {
            assert(download_short(a, i as int, j as int, st.spec()) == Err::<(DownloadArgs, int), CliError>(CliError::DisplayHelp));
            return Err(CliError::DisplayHelp);
        } else if c == 's' {
            match st.take_skip() {
                Ok(s2) => {
                    st = s2;
                },
                Err(e) => {
                    return Err(e);
                },
            }
        } else if c == 'c' {
            if j + 1 < t.len() {
                let start = if t[j + 1] == '=' {
                    j + 2
                } else {
                    j + 1
                };
                let v = string_of_range(t, start, t.len());
                proof {
                    let rest = t@.subrange(j + 1, t@.len() as int);
                    if rest[0] == '=' {
                        assert(rest.drop_first() =~= t@.subrange(start as int, t@.len() as int));
                    } else {
                        assert(rest =~= t@.subrange(start as int, t@.len() as int));
                    }
                }
                return match st.take_cookies(v) {
                    Ok(s2) => Ok((s2, i + 1)),
                    Err(e) => Err(e),
                };
            } else if i + 1 < toks.len() && !is_flag_like(&toks[i + 1]) {
                assert(toks@[i + 1]@ == a[i + 1]);
                assert(args@[i + 1]@ == a[i + 1]);
                let v = String::from_str(args[i + 1]);
                return match st.take_cookies(v) {
                    Ok(s2) => Ok((s2, i + 2)),
                    Err(e) => Err(e),
                };
            } else {
                proof {
                    if i + 1 < toks@.len() {
                        assert(toks@[i + 1]@ == a[i + 1]);
                    }
                }
                return Err(CliError::MissingValue);
            }
        } else {
            return Err(CliError::UnknownArgument);
        }
        j = j + 1;
    }
}

fn read_download(toks: &Vec<Vec<char>>, args: &Vec<&str>) -> (r: Result<Command, CliError>)
    requires
        toks@.len() >= 2,
        views(toks@) == arg_views(args@),
    ensures
        match r {
            Ok(c) => download_from(
                views(toks@),
                2,
                DownloadArgs { urls: Seq::empty(), cookies: None, skip: false, raw: false },
            ) == Ok::<CommandSpec, CliError>(c@),
            Err(e) => download_from(
                views(toks@),
                2,
                DownloadArgs { urls: Seq::empty(), cookies: None, skip: false, raw: false },
            ) == Err::<CommandSpec, CliError>(e),
        },
{
    let ghost a = views(toks@);
    let ghost init = DownloadArgs { urls: Seq::empty(), cookies: None, skip: false, raw: false };
    let mut st = DownloadState { urls: Vec::new(), cookies: None, skip: false, raw: false };
    assert(string_views(st.urls@) =~= Seq::<Seq<char>>::empty());
    assert(st.spec() == init);
    let mut i: usize = 2;
    while i < toks.len()
        invariant
            2 <= i <= toks@.len(),
            a == views(toks@),
            a == arg_views(args@),
            init == (DownloadArgs { urls: Seq::empty(), cookies: None, skip: false, raw: false }),
            download_from(a, 2, init) == download_from(a, i as int, st.spec()),
        decreases toks@.len() - i,
    {
        let t = &toks[i];
        assert(t@ == a[i as int]);
        assert(args@[i as int]@ == a[i as int]);
        if st.raw || !is_flag_like(t) {
            let u = String::from_str(args[i]);
            let ghost old_urls = string_views(st.urls@);
            st.urls.push(u);
            assert(string_views(st.urls@) =~= old_urls.push(a[i as int]));
            i = i + 1;
        } else if is_double_dash(t) {
            st.raw = true;
            i = i + 1;
        } else if is_long_opt(t) {
            let (ne, vs) = long_parts(t);
            if range_is(t, 2, ne, "help") {
                return Err(CliError::DisplayHelp);
            } else if range_is(t, 2, ne, "cookies") {
                match vs {
                    Some(k) => {
                        let v = string_of_range(t, k, t.len());
                        match st.take_cookies(v) {
                            Ok(s2) => {
                                st = s2;
                            },
                            Err(e) => {
                                return Err(e);
                            },
                        }
                        i = i + 1;
                    },
                    None => {
                        if i + 1 < toks.len() && !is_flag_like(&toks[i + 1]) {
                            assert(toks@[i + 1]@ == a[i + 1]);
                            assert(args@[i + 1]@ == a[i + 1]);
                            let v = String::from_str(args[i + 1]);
                            match st.take_cookies(v) {
                                Ok(s2) => {
                                    st = s2;
                                },
                                Err(e) => {
                                    return Err(e);
                                },
                            }
                            i = i + 2;
                        } else {
                            proof {
                                if i + 1 < toks@.len() {
                                    assert(toks@[i + 1]@ == a[i + 1]);
                                }
                            }
                            return Err(CliError::MissingValue);
                        }
                    },
                }
            } else if range_is(t, 2, ne, "skip-metadata-verification") && vs.is_none() {
                match st.take_skip() {
                    Ok(s2) => {
                        st = s2;
                    },
                    Err(e) => {
                        return Err(e);
                    },
                }
                i = i + 1;
            } else {
                return Err(CliError::UnknownArgument);
            }
        } else {
            match read_download_short(toks, args, i, st) {
                Ok((s2, n)) => {
                    st = s2;
                    i = n;
                },
                Err(e) => {
                    return Err(e);
                },
            }
        }
    }
    match st.cookies {
        Some(c) => {
            if st.urls.len() == 0 {
                return Err(CliError::MissingRequired);
            }
            let cmd = Command::Download {
                urls: st.urls,
                cookies: c,
                skip_metadata_verification: st.skip,
            };
            Ok(cmd)
        },
        None => Err(CliError::MissingRequired),
    }
}

fn read_update(toks: &Vec<Vec<char>>, args: &Vec<&str>) -> (r: Result<Command, CliError>)
    requires
        toks@.len() >= 2,
        views(toks@) == arg_views(args@),
    ensures
        match r {
            Ok(c) => update_from(views(toks@), 2, Seq::empty(), false) == Ok::<CommandSpec, CliError>(
                c@,
            ),
            Err(e) => update_from(views(toks@), 2, Seq::empty(), false) == Err::<
                CommandSpec,
                CliError,
            >(e),
        },
{
    let ghost a = views(toks@);
    let mut paths: Vec<String> = Vec::new();
    let mut raw = false;
    let mut i: usize = 2;
    assert(string_views(paths@) =~= Seq::<Seq<char>>::empty());
    while i < toks.len()
        invariant
            2 <= i <= toks@.len(),
            a == views(toks@),
            a == arg_views(args@),
            update_from(a, 2, Seq::<Seq<char>>::empty(), false) == update_from(
                a,
                i as int,
                string_views(paths@),
                raw,
            ),
        decreases toks@.len() - i,
    {
        let t = &toks[i];
        assert(t@ == a[i as int]);
        assert(args@[i as int]@ == a[i as int]);
        if raw || !is_flag_like(t) {
            if t.len() == 0 {
                return Err(CliError::InvalidValue);
            }
            let ghost old_paths = string_views(paths@);
            paths.push(String::from_str(args[i]));
            assert(string_views(paths@) =~= old_paths.push(a[i as int]));
        } else if is_double_dash(t) {
            raw = true;
        } else if is_help_flag(t) {
            return Err(CliError::DisplayHelp);
        } else {
            return Err(CliError::UnknownArgument);
        }
        i = i + 1;
    }
    if paths.len() == 0 {
        return Err(CliError::MissingRequired);
    }
    Ok(Command::Update { paths })
}

fn read_config(toks: &Vec<Vec<char>>) -> (r: Result<Command, CliError>)
    requires
        toks@.len() >= 2,
    ensures
        match r {
            Ok(c) => config_from(views(toks@), 2, false, false) == Ok::<CommandSpec, CliError>(c@),
            Err(e) => config_from(views(toks@), 2, false, false) == Err::<CommandSpec, CliError>(e),
        },
{
    let ghost a = views(toks@);
    let mut model = false;
    let mut cache = false;
    let mut i: usize = 2;
    while i < toks.len()
        invariant
            2 <= i <= toks@.len(),
            a == views(toks@),
            config_from(a, 2, false, false) == config_from(a, i as int, model, cache),
        decreases toks@.len() - i,
    {
        let t = &toks[i];
        assert(t@ == a[i as int]);
        if is_double_dash(t) {
            if i + 1 < toks.len() {
                return Err(CliError::UnknownArgument);
            }
            return Ok(Command::Config { setup_model: model, setup_cache_server: cache });
        } else if !is_flag_like(t) {
            return Err(CliError::UnknownArgument);
        } else if is_help_flag(t) {
            return Err(CliError::DisplayHelp);
        }
        let mut is_model = false;
        let mut is_cache = false;
        if is_long_opt(t) {
            let (ne, vs) = long_parts(t);
            if vs.is_none() {
                is_model = range_is(t, 2, ne, "setup-model");
                is_cache = range_is(t, 2, ne, "setup-cache-server");
            }
        }
        if is_model {
            if model {
                return Err(CliError::ArgumentRepeated);
            }
            model = true;
        } else if is_cache {
            if cache {
                return Err(CliError::ArgumentRepeated);
            }
            cache = true;
        } else {
            return Err(CliError::UnknownArgument);
        }
        i = i + 1;
    }
    Ok(Command::Config { setup_model: model, setup_cache_server: cache })
}

fn read_chat(toks: &Vec<Vec<char>>) -> (r: Result<Command, CliError>)
    requires
        toks@.len() >= 2,
    ensures
        match r {
            Ok(c) => chat_from(views(toks@), 2) == Ok::<CommandSpec, CliError>(c@),
            Err(e) => chat_from(views(toks@), 2) == Err::<CommandSpec, CliError>(e),
        },
{
    let ghost a = views(toks@);
    if toks.len() <= 2 {
        return Ok(Command::Chat);
    }
    let t = &toks[2];
    assert(t@ == a[2]);
    if is_double_dash(t) && toks.len() <= 3 {
        Ok(Command::Chat)
    } else if is_help_flag(t) {
        Err(CliError::DisplayHelp)
    } else {
        Err(CliError::UnknownArgument)
    }
}

impl Cli {
    /// Reads a command line; `args[0]` is the program's name.  Gives the
    /// subcommand with its arguments, or why the command line was refused.
    pub fn try_parse_from(args: Vec<&str>) -> (r: Result<Cli, CliError>)
        ensures
            match r {
                Ok(c) => parse_args(arg_views(args@)) == Ok::<CommandSpec, CliError>(c.command@),
                Err(e) => parse_args(arg_views(args@)) == Err::<CommandSpec, CliError>(e),
            },
    {
        let toks = arg_chars(&args);
        let ghost a = views(toks@);
        if toks.len() < 2 {
            return Err(CliError::MissingSubcommand);
        }
        let t = &toks[1];
        assert(t@ == a[1]);
        let n = t.len();
        let r = if range_is(t, 0, n, "download") {
            read_download(&toks, &args)
        } else if range_is(t, 0, n, "update") {
            read_update(&toks, &args)
        } else if range_is(t, 0, n, "config") {
            read_config(&toks)
        } else if range_is(t, 0, n, "chat") {
            read_chat(&toks)
        } else if range_is(t, 0, n, "help") || is_help_flag(t) {
            Err(CliError::DisplayHelp)
        } else if is_flag_like(t) {
            Err(CliError::UnknownArgument)
        } else {
            Err(CliError::InvalidSubcommand)
        };
        proof {
            assert(t@.subrange(0, n as int) =~= t@);
        }
        match r {
            Ok(c) => Ok(Cli { command: c }),
            Err(e) => Err(e),
        }
    }
}


// ---------------------------------------------------------------------
// What a parsed command line guarantees
// ---------------------------------------------------------------------

/// A `download` command always has at least one URL and a cookies file.
pub open spec fn download_complete(r: Result<CommandSpec, CliError>) -> bool {
    r matches Ok(CommandSpec::Download { urls, cookies, .. }) ==> urls.len() >= 1 && cookies.len()
        > 0
}

/// The cookies file read so far, if any, is not empty.
pub open spec fn cookies_ok(st: DownloadArgs) -> bool {
    st.cookies matches Some(c) ==> c.len() > 0
}

proof fn lemma_download_short_keeps(args: Seq<Seq<char>>, i: int, j: int, st: DownloadArgs)
    requires
        cookies_ok(st),
    ensures
        download_short(args, i, j, st) matches Ok((s2, n)) ==> cookies_ok(s2),
    decreases args[i].len() - j,
{
    let t = args[i];
    if j < 1 || j >= t.len() {
    } else if t[j] == 's' {
        if let Ok(s2) = set_skip(st) {
            lemma_download_short_keeps(args, i, j + 1, s2);
        }
    }
}

proof fn lemma_download_from_complete(args: Seq<Seq<char>>, i: int, st: DownloadArgs)
    requires
        cookies_ok(st),
    ensures
        download_complete(download_from(args, i, st)),
    decreases args.len() - i,
{
    if i < 0 || i >= args.len() {
    } else {
        let t = args[i];
        if st.raw || !flag_like(t) {
            lemma_download_from_complete(
                args,
                i + 1,
                DownloadArgs { urls: st.urls.push(t), cookies: st.cookies, skip: st.skip, raw: st.raw },
            );
        } else if double_dash(t) {
            lemma_download_from_complete(
                args,
                i + 1,
                DownloadArgs { urls: st.urls, cookies: st.cookies, skip: st.skip, raw: true },
            );
        } else if long_opt(t) {
            let name = long_name(t);
            if name == "help"@ {
            } else if name == "cookies"@ {
                match long_value(t) {
                    Some(v) => if let Ok(s2) = set_cookies(st, v) {
                        lemma_download_from_complete(args, i + 1, s2);
                    },
                    None => if i + 1 < args.len() && !flag_like(args[i + 1]) {
                        if let Ok(s2) = set_cookies(st, args[i + 1]) {
                            lemma_download_from_complete(args, i + 2, s2);
                        }
                    },
                }
            } else if name == "skip-metadata-verification"@ && long_value(t) is None {
                if let Ok(s2) = set_skip(st) {
                    lemma_download_from_complete(args, i + 1, s2);
                }
            }
        } else {
            lemma_download_short_keeps(args, i, 1, st);
            if let Ok((s2, n)) = download_short(args, i, 1, st) {
                if i < n <= args.len() {
                    lemma_download_from_complete(args, n, s2);
                }
            }
        }
    }
}

proof fn lemma_update_is_update(args: Seq<Seq<char>>, i: int, paths: Seq<Seq<char>>, raw: bool)
    ensures
        update_from(args, i, paths, raw) matches Ok(c) ==> c is Update,
    decreases args.len() - i,
{
    if 0 <= i < args.len() {
        let t = args[i];
        if raw || !flag_like(t) {
            if t.len() > 0 {
                lemma_update_is_update(args, i + 1, paths.push(t), raw);
            }
        } else if double_dash(t) {
            lemma_update_is_update(args, i + 1, paths, true);
        }
    }
}

proof fn lemma_config_is_config(args: Seq<Seq<char>>, i: int, model: bool, cache: bool)
    ensures
        config_from(args, i, model, cache) matches Ok(c) ==> c is Config,
    decreases args.len() - i,
{
    if 0 <= i < args.len() {
        lemma_config_is_config(args, i + 1, true, cache);
        lemma_config_is_config(args, i + 1, model, true);
    }
}

/// Whatever the command line, a parsed `download` command has at least one
/// URL and a non-empty cookies file, as both are required.
pub proof fn lemma_download_requires_urls_and_cookies(args: Seq<Seq<char>>)
    ensures
        download_complete(parse_args(args)),
{
    if args.len() >= 2 {
        lemma_download_from_complete(
            args,
            2,
            DownloadArgs { urls: Seq::empty(), cookies: None, skip: false, raw: false },
        );
        lemma_update_is_update(args, 2, Seq::empty(), false);
        lemma_config_is_config(args, 2, false, false);
    }
}

/// An argument takes the branch of the long flag `name` (no `=value`)
/// exactly when it is `--name`.
proof fn lemma_long_flag_is(t: Seq<char>, name: Seq<char>)
    requires
        name.len() > 0,
        forall|k: int| 0 <= k < name.len() ==> name[k] != '=',
    ensures
        (long_opt(t) && long_value(t) is None && long_name(t) == name) <==> t == "--"@ + name,
{
    reveal_strlit("--");
    let f = "--"@ + name;
    crate::text::lemma_find_from(f, seq!['='], 2);
    if let Some(k) = find_from(f, seq!['='], 2) {
        assert(f.subrange(k, k + 1) == seq!['=']);
        assert(f[k] == f.subrange(k, k + 1)[0]);
        assert(f[k] == name[k - 2]);
    }
    assert(f.subrange(2, f.len() as int) =~= name);
    if long_opt(t) && long_value(t) is None && long_name(t) == name {
        assert(t =~= f) by {
            assert forall|k: int| 0 <= k < t.len() implies t[k] == f[k] by {
                if k >= 2 {
                    assert(t[k] == t.subrange(2, t.len() as int)[k - 2]);
                }
            }
        }
    }
}

/// What `config` reads from index `i` on, having read the flags `model`
/// and `cache` so far: each flag ends up set exactly when it was set before
/// or its option comes later.
proof fn lemma_config_flags_from(args: Seq<Seq<char>>, i: int, model: bool, cache: bool)
    requires
        0 <= i,
    ensures
        config_from(args, i, model, cache) matches Ok(
            CommandSpec::Config { setup_model, setup_cache_server },
        ) ==> setup_model == (model || exists|j: int|
            i <= j < args.len() && args[j] == "--setup-model"@) && setup_cache_server == (cache
            || exists|j: int| i <= j < args.len() && args[j] == "--setup-cache-server"@),
    decreases args.len() - i,
{
    reveal_strlit("--setup-model");
    reveal_strlit("--setup-cache-server");
    reveal_strlit("setup-model");
    reveal_strlit("setup-cache-server");
    reveal_strlit("--");
    let sm = "--setup-model"@;
    let sc = "--setup-cache-server"@;
    assert(sm =~= "--"@ + "setup-model"@);
    assert(sc =~= "--"@ + "setup-cache-server"@);
    if i < args.len() {
        let t = args[i];
        lemma_long_flag_is(t, "setup-model"@);
        lemma_long_flag_is(t, "setup-cache-server"@);
        lemma_config_flags_from(args, i + 1, true, cache);
        lemma_config_flags_from(args, i + 1, model, true);
        assert(sm != sc) by {
            assert(sm.len() != sc.len());
        }
        if double_dash(t) {
            assert(t != sm && t != sc) by {
                assert(t.len() != sm.len() && t.len() != sc.len());
            }
            if i + 1 >= args.len() {
                assert forall|j: int| i <= j < args.len() implies args[j] != sm && args[j]
                    != sc by {
                    assert(j == i);
                }
            }
        }
    }
}

/// `echotag config` sets each of its flags exactly when its option is
/// among the arguments (`--setup-model`, `--setup-cache-server`), and
/// accepts any arguments that are these options, each given once.
pub proof fn lemma_config_flags_are_its_options(args: Seq<Seq<char>>)
    requires
        args.len() >= 2,
        args[1] == "config"@,
    ensures
        parse_args(args) matches Ok(CommandSpec::Config { setup_model, setup_cache_server })
            ==> setup_model == (exists|j: int| 2 <= j < args.len() && args[j] == "--setup-model"@)
            && setup_cache_server == (exists|j: int|
            2 <= j < args.len() && args[j] == "--setup-cache-server"@),
        (forall|j: int|
            2 <= j < args.len() ==> args[j] == "--setup-model"@ || args[j]
                == "--setup-cache-server"@) && (forall|j: int, k: int|
            2 <= j < k < args.len() ==> args[j] != args[k]) ==> parse_args(args) is Ok,
{
    reveal_strlit("config");
    reveal_strlit("download");
    reveal_strlit("update");
    assert(args[1] != "download"@) by {
        assert(args[1].len() != "download"@.len());
    }
    assert(args[1] != "update"@) by {
        assert(args[1][0] != "update"@[0]);
    }
    lemma_config_flags_from(args, 2, false, false);
    if (forall|j: int|
        2 <= j < args.len() ==> args[j] == "--setup-model"@ || args[j] == "--setup-cache-server"@)
        && (forall|j: int, k: int| 2 <= j < k < args.len() ==> args[j] != args[k]) {
        lemma_config_accepts_options(args, 2, false, false);
    }
}

/// Reading `config` from `i` on succeeds when every later argument is one
/// of its two options, each given once and not given before.
proof fn lemma_config_accepts_options(args: Seq<Seq<char>>, i: int, model: bool, cache: bool)
    requires
        0 <= i,
        forall|j: int|
            i <= j < args.len() ==> args[j] == "--setup-model"@ || args[j]
                == "--setup-cache-server"@,
        forall|j: int, k: int| i <= j < k < args.len() ==> args[j] != args[k],
        model ==> forall|j: int| i <= j < args.len() ==> args[j] != "--setup-model"@,
        cache ==> forall|j: int| i <= j < args.len() ==> args[j] != "--setup-cache-server"@,
    ensures
        config_from(args, i, model, cache) is Ok,
    decreases args.len() - i,
{
    reveal_strlit("--setup-model");
    reveal_strlit("--setup-cache-server");
    reveal_strlit("setup-model");
    reveal_strlit("setup-cache-server");
    reveal_strlit("--");
    reveal_strlit("help");
    let sm = "--setup-model"@;
    let sc = "--setup-cache-server"@;
    assert(sm =~= "--"@ + "setup-model"@);
    assert(sc =~= "--"@ + "setup-cache-server"@);
    if i < args.len() {
        let t = args[i];
        lemma_long_flag_is(t, "setup-model"@);
        lemma_long_flag_is(t, "setup-cache-server"@);
        assert(!double_dash(t));
        assert(flag_like(t));
        assert(long_opt(t));
        assert(long_name(t) != "help"@) by {
            if t == sm {
                assert(long_name(t) == "setup-model"@);
                assert("setup-model"@.len() != "help"@.len());
            } else {
                assert(long_name(t) == "setup-cache-server"@);
                assert("setup-cache-server"@.len() != "help"@.len());
            }
        }
        assert(!help_flag(t));
        if t == sm {
            lemma_config_accepts_options(args, i + 1, true, cache);
        } else {
            lemma_config_accepts_options(args, i + 1, model, true);
        }
    }
}

} // verus!
