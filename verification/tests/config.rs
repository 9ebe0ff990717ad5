use echotag::config::{
    current_cache_ip, existing_cache_ip, key_line, parse_provider, provider_env_content,
    provider_line, set_cache_server_ip, ConfigError, Provider,
};

#[test]
fn providers_are_read_trimmed_in_any_case() {
    assert_eq!(parse_provider(" Gemini \n"), Ok(Provider::Gemini));
    assert_eq!(parse_provider("OPENAI"), Ok(Provider::OpenAi));
    assert_eq!(parse_provider("anthropic"), Ok(Provider::Anthropic));
    assert_eq!(parse_provider("oLLama\r\n"), Ok(Provider::Ollama));
    assert_eq!(parse_provider("grok"), Err(ConfigError::InvalidProvider));
    assert_eq!(parse_provider(""), Err(ConfigError::InvalidProvider));
}

#[test]
fn provider_and_key_lines() {
    assert_eq!(provider_line(Provider::Gemini), "AI_PROVIDER=gemini");
    assert_eq!(key_line(Provider::OpenAi, " sk-123 \n").unwrap(), "OPENAI_API_KEY=sk-123");
    assert_eq!(key_line(Provider::Anthropic, "\n").unwrap(), "ANTHROPIC_API_KEY=");
    assert_eq!(key_line(Provider::Ollama, "llama3\n").unwrap(), "OLLAMA_MODEL=llama3");
    assert_eq!(key_line(Provider::Ollama, "  \n"), Err(ConfigError::EmptyModelName));
}

#[test]
fn cache_ip_is_kept_when_the_provider_changes() {
    let env = "AI_PROVIDER=gemini\nGEMINI_API_KEY=x\nCACHE_SERVER_IP=10.0.0.2";
    let ip = existing_cache_ip(env);
    assert_eq!(ip, "10.0.0.2");
    let content = provider_env_content("AI_PROVIDER=openai", "OPENAI_API_KEY=y", &ip);
    assert_eq!(content, "AI_PROVIDER=openai\nOPENAI_API_KEY=y\nCACHE_SERVER_IP=10.0.0.2");
    assert_eq!(existing_cache_ip(&content), "10.0.0.2");
    let no_ip = provider_env_content("AI_PROVIDER=openai", "OPENAI_API_KEY=y", "");
    assert_eq!(no_ip, "AI_PROVIDER=openai\nOPENAI_API_KEY=y");
    assert_eq!(existing_cache_ip(&no_ip), "");
}

#[test]
fn cache_ip_is_set_and_read_back() {
    assert_eq!(current_cache_ip("AI_PROVIDER=x"), None);
    let first = set_cache_server_ip("AI_PROVIDER=x\n", " 192.168.1.5 \n").unwrap();
    assert_eq!(first, "AI_PROVIDER=x\nCACHE_SERVER_IP=192.168.1.5");
    assert_eq!(current_cache_ip(&first), Some("192.168.1.5".to_string()));
    let second = set_cache_server_ip(&first, "10.0.0.1").unwrap();
    assert_eq!(second, "AI_PROVIDER=x\nCACHE_SERVER_IP=10.0.0.1");
    assert_eq!(existing_cache_ip(&second), "10.0.0.1");
    assert_eq!(set_cache_server_ip(&first, "  "), Err(ConfigError::EmptyCacheServerIp));
    let twice = set_cache_server_ip("CACHE_SERVER_IP=a CACHE_SERVER_IP=b", "c").unwrap();
    assert_eq!(twice, "a bCACHE_SERVER_IP=c");
    assert_eq!(existing_cache_ip("CACHE_SERVER_IP=a CACHE_SERVER_IP=b"), "");
}
