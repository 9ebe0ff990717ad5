//! The settings kept in `.env`: the AI provider with its key or model, and
//! the address of the cache server.
use vstd::prelude::*;
use crate::text::{
    chars_of, contains, lemma_no_straddle, lemma_split_between, lemma_split_none, same_text,
    split, split_str, string_of, string_views, trim, trim_bounds, trimmed,
};

verus! {

broadcast use vstd::string::group_string_axioms;

/// An AI provider that `echotag` can talk to.
#[derive(Clone, Copy, Debug, PartialEq, Eq, Structural)]
pub enum Provider {
    Gemini,
    OpenAi,
    Anthropic,
    Ollama,
}

/// Why a setting was refused.
#[derive(Clone, Copy, Debug, PartialEq, Eq, Structural)]
pub enum ConfigError {
    /// The provider is none of gemini, openai, anthropic, ollama.
    InvalidProvider,
    /// No Ollama model name was given.
    EmptyModelName,
    /// No cache server address was given.
    EmptyCacheServerIp,
}

/// The name of a provider, as `.env` and the prompts spell it.
pub open spec fn provider_name(p: Provider) -> Seq<char> {
    match p {
        Provider::Gemini => "gemini"@,
        Provider::OpenAi => "openai"@,
        Provider::Anthropic => "anthropic"@,
        Provider::Ollama => "ollama"@,
    }
}

/// The name of a provider.
pub fn name_of(p: Provider) -> (r: &'static str)
    ensures
        r@ == provider_name(p),
{
    match p {
        Provider::Gemini => "gemini",
        Provider::OpenAi => "openai",
        Provider::Anthropic => "anthropic",
        Provider::Ollama => "ollama",
    }
}

/// `c.to_ascii_lowercase()`.
pub open spec fn ascii_lower(c: char) -> char {
    if 'A' <= c <= 'Z' {
        ((c as u32 + 32) as u8) as char
    } else {
        c
    }
}

/// Lower-cases the ASCII letters of `s`.
pub open spec fn ascii_lower_seq(s: Seq<char>) -> Seq<char> {
    s.map_values(|c: char| ascii_lower(c))
}

/// The provider that an answer names: the answer trimmed and lower-cased
/// must be one of the four names.  (Lower-casing only ASCII letters decides
/// the same answers as full Unicode lower-casing here: the only other
/// character that lower-cases to an ASCII letter is the Kelvin sign, to
/// `k`, which no provider name holds.)
pub open spec fn provider_for(input: Seq<char>) -> Option<Provider> {
    let w = ascii_lower_seq(trim(input));
    if w == "gemini"@ {
        Some(Provider::Gemini)
    } else if w == "openai"@ {
        Some(Provider::OpenAi)
    } else if w == "anthropic"@ {
        Some(Provider::Anthropic)
    } else if w == "ollama"@ {
        Some(Provider::Ollama)
    } else {
        None
    }
}

/// Reads the provider that the user typed.
pub fn parse_provider(input: &str) -> (r: Result<Provider, ConfigError>)
    ensures
        match provider_for(input@) {
            Some(p) => r == Ok::<Provider, ConfigError>(p),
            None => r == Err::<Provider, ConfigError>(ConfigError::InvalidProvider),
        },
{
    let v = chars_of(input);
    let (a, b) = trim_bounds(&v);
    let mut low: Vec<char> = Vec::new();
    let mut i = a;
    while i < b
        invariant
            a <= i <= b <= v@.len(),
            low@ == ascii_lower_seq(v@.subrange(a as int, i as int)),
        decreases b - i,
    {
        let c = v[i];
        let l = if 'A' <= c && c <= 'Z' {
            ((c as u32 + 32) as u8) as char
        } else {
            c
        };
        low.push(l);
        assert(ascii_lower_seq(v@.subrange(a as int, i + 1)) =~= ascii_lower_seq(
            v@.subrange(a as int, i as int),
        ).push(ascii_lower(c)));
        i = i + 1;
    }
    let w = string_of(&low);
    if same_text(w.as_str(), "gemini") {
        Ok(Provider::Gemini)
    } else if same_text(w.as_str(), "openai") {
        Ok(Provider::OpenAi)
    } else if same_text(w.as_str(), "anthropic") {
        Ok(Provider::Anthropic)
    } else if same_text(w.as_str(), "ollama") {
        Ok(Provider::Ollama)
    } else {
        Err(ConfigError::InvalidProvider)
    }
}

/// `AI_PROVIDER=<name>`.
pub fn provider_line(p: Provider) -> (r: String)
    ensures
        r@ == "AI_PROVIDER="@ + provider_name(p),
{
    let mut r = String::from_str("AI_PROVIDER=");
    r.append(name_of(p));
    r
}

/// The prefix of the key line of a provider.
pub open spec fn key_prefix(p: Provider) -> Seq<char> {
    match p {
        Provider::Gemini => "GEMINI_API_KEY="@,
        Provider::OpenAi => "OPENAI_API_KEY="@,
        Provider::Anthropic => "ANTHROPIC_API_KEY="@,
        Provider::Ollama => "OLLAMA_MODEL="@,
    }
}

/// The second line of `.env`: the API key that the user pasted, or for
/// Ollama the model name, which must not be empty; both trimmed.
pub open spec fn key_line_for(p: Provider, answer: Seq<char>) -> Result<Seq<char>, ConfigError> {
    if p == Provider::Ollama && trim(answer).len() == 0 {
        Err(ConfigError::EmptyModelName)
    } else {
        Ok(key_prefix(p) + trim(answer))
    }
}

/// Builds the key (or model) line from the user's answer.
pub fn key_line(p: Provider, answer: &str) -> (r: Result<String, ConfigError>)
    ensures
        match key_line_for(p, answer@) {
            Ok(l) => r matches Ok(s) && s@ == l,
            Err(e) => r == Err::<String, ConfigError>(e),
        },
{
    let value = trimmed(answer);
    let mut r = match p {
        Provider::Gemini => String::from_str("GEMINI_API_KEY="),
        Provider::OpenAi => String::from_str("OPENAI_API_KEY="),
        Provider::Anthropic => String::from_str("ANTHROPIC_API_KEY="),
        Provider::Ollama => {
            if value.as_str().unicode_len() == 0 {
                return Err(ConfigError::EmptyModelName);
            }
            String::from_str("OLLAMA_MODEL=")
        },
    };
    r.append(value.as_str());
    Ok(r)
}

/// The key under which `.env` keeps the cache server's address.
pub open spec fn cache_key() -> Seq<char> {
    "CACHE_SERVER_IP="@
}

/// The cache server address kept in `.env`: what follows its key when the
/// key occurs exactly once, and nothing otherwise.
pub open spec fn cache_ip_in(env: Seq<char>) -> Seq<char> {
    let parts = split(env, cache_key());
    if parts.len() == 2 {
        parts[1]
    } else {
        Seq::empty()
    }
}

/// The cache server address kept in `.env` (see `cache_ip_in`).
pub fn existing_cache_ip(env: &str) -> (r: String)
    ensures
        r@ == cache_ip_in(env@),
{
    proof {
        reveal_strlit("CACHE_SERVER_IP=");
    }
    let parts = split_str(env, "CACHE_SERVER_IP=");
    if parts.len() == 2 {
        assert(parts@[1]@ == string_views(parts@)[1]);
        parts[1].clone()
    } else {
        String::new()
    }
}

/// The cache server address to show as the current one, if `.env` has one.
pub fn current_cache_ip(env: &str) -> (r: Option<String>)
    ensures
        split(env@, cache_key()).len() == 2 <==> r is Some,
        r matches Some(ip) ==> ip@ == cache_ip_in(env@),
{
    proof {
        reveal_strlit("CACHE_SERVER_IP=");
    }
    let parts = split_str(env, "CACHE_SERVER_IP=");
    if parts.len() == 2 {
        assert(parts@[1]@ == string_views(parts@)[1]);
        Some(parts[1].clone())
    } else {
        None
    }
}

/// The new `.env` written when the provider is set up: the provider line,
/// the key line, and the cache server address if there was one.
pub open spec fn provider_env(pl: Seq<char>, kl: Seq<char>, ip: Seq<char>) -> Seq<char> {
    if ip.len() == 0 {
        pl + "\n"@ + kl
    } else {
        pl + "\n"@ + kl + "\n"@ + cache_key() + ip
    }
}

/// Builds the `.env` written when the provider is set up.
pub fn provider_env_content(provider_line: &str, key_line: &str, cache_ip: &str) -> (r: String)
    ensures
        r@ == provider_env(provider_line@, key_line@, cache_ip@),
{
    let mut r = String::from_str(provider_line);
    r.append("\n");
    r.append(key_line);
    if cache_ip.unicode_len() > 0 {
        r.append("\n");
        r.append("CACHE_SERVER_IP=");
        r.append(cache_ip);
    }
    r
}

/// The new `.env` written when the cache server address is set: when the
/// key occurs once, what came before it, the key and the new address;
/// otherwise the old text without any occurrence of the key, then the key
/// and the new address.  The address typed is trimmed and must not be
/// empty.
pub open spec fn env_with_cache_ip(env: Seq<char>, input: Seq<char>) -> Result<
    Seq<char>,
    ConfigError,
> {
    let ip = trim(input);
    let parts = split(env, cache_key());
    if ip.len() == 0 {
        Err(ConfigError::EmptyCacheServerIp)
    } else if parts.len() == 2 {
        Ok(parts[0] + cache_key() + ip)
    } else {
        Ok(crate::text::join(parts, ""@) + cache_key() + ip)
    }
}

/// Sets the cache server address in the text of `.env`.
pub fn set_cache_server_ip(env: &str, input: &str) -> (r: Result<String, ConfigError>)
    ensures
        match env_with_cache_ip(env@, input@) {
            Ok(t) => r matches Ok(s) && s@ == t,
            Err(e) => r == Err::<String, ConfigError>(e),
        },
{
    proof {
        reveal_strlit("CACHE_SERVER_IP=");
    }
    let ip = trimmed(input);
    if ip.as_str().unicode_len() == 0 {
        return Err(ConfigError::EmptyCacheServerIp);
    }
    let parts = split_str(env, "CACHE_SERVER_IP=");
    let mut r = if parts.len() == 2 {
        assert(parts@[0]@ == string_views(parts@)[0]);
        parts[0].clone()
    } else {
        crate::text::join_strings(&parts, "")
    };
    r.append("CACHE_SERVER_IP=");
    r.append(ip.as_str());
    Ok(r)
}

/// The last character of the key occurs nowhere else in it.
proof fn lemma_cache_key_unbordered()
    ensures
        cache_key().len() > 0,
        forall|k: int| 0 <= k < cache_key().len() - 1 ==> cache_key()[k] != cache_key().last(),
{
    reveal_strlit("CACHE_SERVER_IP=");
    assert(cache_key().last() == '=');
}

/// Setting the cache server address and reading it back gives the address
/// typed (trimmed), when the old `.env` holds the key at most once and the
/// address does not hold the key itself.
pub proof fn lemma_cache_ip_roundtrip(env: Seq<char>, input: Seq<char>)
    requires
        split(env, cache_key()).len() <= 2,
        trim(input).len() > 0,
        !contains(trim(input), cache_key()),
    ensures
        env_with_cache_ip(env, input) matches Ok(t) && cache_ip_in(t) == trim(input),
{
    lemma_cache_key_unbordered();
    let p = cache_key();
    let ip = trim(input);
    let parts = split(env, p);
    let a = if parts.len() == 2 {
        parts[0]
    } else {
        crate::text::join(parts, ""@)
    };
    lemma_split_parts_free(env, p);
    if parts.len() != 2 {
        // no occurrence at all: the text is kept as it is
        lemma_split_single(env, p);
        assert(parts.len() == 1);
        assert(a == parts[0]);
    }
    assert(!contains(a, p));
    lemma_no_straddle(a, p, ip);
    lemma_split_between(a, p, ip);
}

/// The pieces of a split hold no occurrence of the pattern, and the first
/// piece is a prefix of the text.
proof fn lemma_split_parts_free(s: Seq<char>, p: Seq<char>)
    requires
        p.len() > 0,
    ensures
        !contains(split(s, p)[0], p),
        split(s, p).len() >= 1,
{
    crate::text::lemma_find_from(s, p, 0);
    match crate::text::find_from(s, p, 0) {
        Some(k) => {
            let first = s.subrange(0, k);
            assert(split(s, p)[0] == first);
            assert forall|i: int| !crate::text::occurs_at(first, p, i) by {
                if crate::text::occurs_at(first, p, i) {
                    assert(first.subrange(i, i + p.len()) =~= s.subrange(i, i + p.len()));
                    assert(crate::text::occurs_at(s, p, i));
                }
            }
        },
        None => {
            assert(s.subrange(0, s.len() as int) =~= s);
        },
    }
}

/// A split into fewer than two pieces is the text itself.
proof fn lemma_split_single(s: Seq<char>, p: Seq<char>)
    requires
        p.len() > 0,
        split(s, p).len() < 2,
    ensures
        split(s, p) == seq![s],
        crate::text::join(split(s, p), ""@) == s,
{
    crate::text::lemma_find_from(s, p, 0);
    match crate::text::find_from(s, p, 0) {
        Some(k) => {
            assert(crate::text::split_from(s, p, k + p.len()).len() >= 1);
            assert(split(s, p).len() >= 2);
        },
        None => {
            assert(s.subrange(0, s.len() as int) =~= s);
        },
    }
}

/// Writing the provider settings keeps the cache server address: reading
/// it back from the new `.env` gives the address that was there.
pub proof fn lemma_provider_env_keeps_ip(pl: Seq<char>, kl: Seq<char>, ip: Seq<char>)
    requires
        !contains(pl + "\n"@ + kl + "\n"@, cache_key()),
        !contains(pl + "\n"@ + kl, cache_key()),
        !contains(ip, cache_key()),
    ensures
        cache_ip_in(provider_env(pl, kl, ip)) == ip,
{
    lemma_cache_key_unbordered();
    let p = cache_key();
    if ip.len() == 0 {
        lemma_split_none(pl + "\n"@ + kl, p);
    } else {
        let a = pl + "\n"@ + kl + "\n"@;
        lemma_no_straddle(a, p, ip);
        lemma_split_between(a, p, ip);
        assert(a + p + ip =~= pl + "\n"@ + kl + "\n"@ + cache_key() + ip);
    }
}

/// `c.to_ascii_uppercase()`.
pub open spec fn ascii_upper(c: char) -> char {
    if 'a' <= c <= 'z' {
        ((c as u32 - 32) as u8) as char
    } else {
        c
    }
}

/// Upper-cases the ASCII letters of `s`.
pub open spec fn ascii_upper_seq(s: Seq<char>) -> Seq<char> {
    s.map_values(|c: char| ascii_upper(c))
}

/// The key line of a provider other than Ollama is its name in capitals,
/// `_API_KEY=` and the pasted key, trimmed; for Ollama it is
/// `OLLAMA_MODEL=` and the model name, trimmed, which must not be empty.
pub proof fn lemma_key_line_names_the_provider(p: Provider, answer: Seq<char>)
    ensures
        p != Provider::Ollama ==> key_line_for(p, answer) == Ok::<Seq<char>, ConfigError>(
            ascii_upper_seq(provider_name(p)) + "_API_KEY="@ + trim(answer),
        ),
        p == Provider::Ollama ==> key_line_for(p, answer) == (if trim(answer).len() == 0 {
            Err::<Seq<char>, ConfigError>(ConfigError::EmptyModelName)
        } else {
            Ok(ascii_upper_seq(provider_name(p)) + "_MODEL="@ + trim(answer))
        }),
{
    reveal_strlit("gemini");
    reveal_strlit("openai");
    reveal_strlit("anthropic");
    reveal_strlit("ollama");
    reveal_strlit("_API_KEY=");
    reveal_strlit("_MODEL=");
    reveal_strlit("GEMINI_API_KEY=");
    reveal_strlit("OPENAI_API_KEY=");
    reveal_strlit("ANTHROPIC_API_KEY=");
    reveal_strlit("OLLAMA_MODEL=");
    let n = provider_name(p);
    let up = ascii_upper_seq(n);
    match p {
        Provider::Gemini => {
            assert(up + "_API_KEY="@ =~= "GEMINI_API_KEY="@);
        },
        Provider::OpenAi => {
            assert(up + "_API_KEY="@ =~= "OPENAI_API_KEY="@);
        },
        Provider::Anthropic => {
            assert(up + "_API_KEY="@ =~= "ANTHROPIC_API_KEY="@);
        },
        Provider::Ollama => {
            assert(up + "_MODEL="@ =~= "OLLAMA_MODEL="@);
        },
    }
}

} // verus!
