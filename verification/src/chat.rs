//! The recommendation chat: which model to talk to, what to do with each
//! line the user types, and the two tools the model may call.
use vstd::prelude::*;
use crate::config::Provider;
use crate::text::{chars_of, same_text, string_of_range, string_views, trim, trim_bounds};

verus! {

broadcast use vstd::string::group_string_axioms;

/// Why the chat could not start.
#[derive(Clone, Debug)]
pub enum ChatError {
    /// `AI_PROVIDER` names no supported provider.
    UnsupportedProvider(String),
}

/// The provider that `AI_PROVIDER` names, spelled exactly.
pub open spec fn chat_provider_for(name: Seq<char>) -> Option<Provider> {
    if name == "openai"@ {
        Some(Provider::OpenAi)
    } else if name == "gemini"@ {
        Some(Provider::Gemini)
    } else if name == "anthropic"@ {
        Some(Provider::Anthropic)
    } else if name == "ollama"@ {
        Some(Provider::Ollama)
    } else {
        None
    }
}

/// Reads `AI_PROVIDER`; any other value than the four names is refused.
pub fn select_chat_provider(name: &str) -> (r: Result<Provider, ChatError>)
    ensures
        match chat_provider_for(name@) {
            Some(p) => r matches Ok(q) && q == p,
            None => r matches Err(ChatError::UnsupportedProvider(s)) && s@ == name@,
        },
{
    if same_text(name, "openai") {
        Ok(Provider::OpenAi)
    } else if same_text(name, "gemini") {
        Ok(Provider::Gemini)
    } else if same_text(name, "anthropic") {
        Ok(Provider::Anthropic)
    } else if same_text(name, "ollama") {
        Ok(Provider::Ollama)
    } else {
        Err(ChatError::UnsupportedProvider(String::from_str(name)))
    }
}

/// The first request sent to the model.
pub fn opening_request() -> (r: &'static str)
    ensures
        r@
            == "Please introduce yourself briefly and give me my 3 song recommendations based on my history. Tell the user they can ask you to search for and download any of them."@,
{
    "Please introduce yourself briefly and give me my 3 song recommendations based on my history. Tell the user they can ask you to search for and download any of them."
}

/// What to do with a line the user typed.
#[derive(Clone, Debug)]
pub enum ChatAction {
    /// Standard input is closed.
    Stop,
    /// The user said `exit` or `quit`.
    Exit,
    /// Nothing but whitespace was typed.
    Skip,
    /// Ask the model this (trimmed) text.
    Ask(String),
}

/// `c.to_ascii_lowercase()`.
pub open spec fn lower(c: char) -> char {
    crate::config::ascii_lower(c)
}

/// `a.eq_ignore_ascii_case(b)`.
pub open spec fn eq_ignore_ascii_case(a: Seq<char>, b: Seq<char>) -> bool {
    a.len() == b.len() && forall|k: int| 0 <= k < a.len() ==> lower(a[k]) == lower(b[k])
}

fn lower_char(c: char) -> (r: char)
    ensures
        r == lower(c),
{
    if 'A' <= c && c <= 'Z' {
        ((c as u32 + 32) as u8) as char
    } else {
        c
    }
}

/// Whether `v[a..b]` equals `word` ignoring ASCII case.
fn range_eq_ignore_case(v: &Vec<char>, a: usize, b: usize, word: &str) -> (r: bool)
    requires
        a <= b <= v@.len(),
    ensures
        r == eq_ignore_ascii_case(v@.subrange(a as int, b as int), word@),
{
    let w = chars_of(word);
    if b - a != w.len() {
        return false;
    }
    let mut k: usize = 0;
    while k < w.len()
        invariant
            a <= b <= v@.len(),
            w@ == word@,
            b - a == w@.len(),
            k <= w@.len(),
            forall|x: int| 0 <= x < k ==> lower(v@[a + x]) == lower(w@[x]),
        decreases w@.len() - k,
    {
        if lower_char(v[a + k]) != lower_char(w[k]) {
            assert(v@.subrange(a as int, b as int)[k as int] == v@[a + k]);
            return false;
        }
        k = k + 1;
    }
    assert forall|x: int| 0 <= x < b - a implies lower(v@.subrange(a as int, b as int)[x]) == lower(
        word@[x],
    ) by {
        assert(v@.subrange(a as int, b as int)[x] == v@[a + x]);
    }
    true
}

/// What a line read from the user means: an empty read is the end of
/// input; `exit` or `quit` (trimmed, in any ASCII case) ends the chat; a
/// blank line is skipped; anything else, trimmed, is asked.
pub open spec fn chat_action_for(input: Seq<char>) -> (u8, Seq<char>) {
    let t = trim(input);
    if input.len() == 0 {
        (0, Seq::empty())
    } else if eq_ignore_ascii_case(t, "exit"@) || eq_ignore_ascii_case(t, "quit"@) {
        (1, Seq::empty())
    } else if t.len() == 0 {
        (2, Seq::empty())
    } else {
        (3, t)
    }
}

/// The kind and text of an action, as `chat_action_for` gives them.
pub open spec fn action_view(a: ChatAction) -> (u8, Seq<char>) {
    match a {
        ChatAction::Stop => (0, Seq::empty()),
        ChatAction::Exit => (1, Seq::empty()),
        ChatAction::Skip => (2, Seq::empty()),
        ChatAction::Ask(s) => (3, s@),
    }
}

/// Decides what to do with a line the user typed (see `chat_action_for`).
pub fn chat_action(input: &str) -> (r: ChatAction)
    ensures
        action_view(r) == chat_action_for(input@),
{
    let v = chars_of(input);
    if v.len() == 0 {
        return ChatAction::Stop;
    }
    let (a, b) = trim_bounds(&v);
    if range_eq_ignore_case(&v, a, b, "exit") || range_eq_ignore_case(&v, a, b, "quit") {
        return ChatAction::Exit;
    }
    if a == b {
        return ChatAction::Skip;
    }
    ChatAction::Ask(string_of_range(&v, a, b))
}

/// The YouTube search the model asks for: `artist - track`.
pub fn youtube_search_query(artist_name: &str, track_name: &str) -> (r: String)
    ensures
        r@ == artist_name@ + " - "@ + track_name@,
{
    let mut r = String::from_str(artist_name);
    r.append(" - ");
    r.append(track_name);
    r
}

/// The arguments with which the download tool runs `echotag` again:
/// `download -c cookies.txt <url>`.
pub fn download_tool_args(url: &str) -> (r: Vec<String>)
    ensures
        string_views(r@) == seq!["download"@, "-c"@, "cookies.txt"@, url@],
{
    let mut r: Vec<String> = Vec::new();
    r.push(String::from_str("download"));
    r.push(String::from_str("-c"));
    r.push(String::from_str("cookies.txt"));
    r.push(String::from_str(url));
    assert(string_views(r@) =~= seq!["download"@, "-c"@, "cookies.txt"@, url@]);
    r
}

/// What the download tool tells the model once the download process ended.
pub fn download_tool_result(url: &str, succeeded: bool) -> (r: Result<String, String>)
    ensures
        succeeded ==> (r matches Ok(s) && s@ == "Successfully finished downloading "@ + url@ + "."@),
        !succeeded ==> (r matches Err(s) && s@ == "The download process failed."@),
{
    if succeeded {
        let mut s = String::from_str("Successfully finished downloading ");
        s.append(url);
        s.append(".");
        Ok(s)
    } else {
        Err(String::from_str("The download process failed."))
    }
}

/// The chat talks to the provider that `AI_PROVIDER` names: each
/// provider's own name selects that provider, and a name that selects a
/// provider is that provider's name.
pub proof fn lemma_chat_provider_is_named(p: Provider, name: Seq<char>)
    ensures
        chat_provider_for(crate::config::provider_name(p)) == Some(p),
        chat_provider_for(name) == Some(p) ==> name == crate::config::provider_name(p),
{
    reveal_strlit("openai");
    reveal_strlit("gemini");
    reveal_strlit("anthropic");
    reveal_strlit("ollama");
    assert("gemini"@[0] != "openai"@[0]);
    assert("ollama"@[1] != "openai"@[1]);
    assert("ollama"@[0] != "gemini"@[0]);
    assert("anthropic"@.len() != "openai"@.len());
    assert("anthropic"@.len() != "gemini"@.len());
    assert("anthropic"@.len() != "ollama"@.len());
}

} // verus!
