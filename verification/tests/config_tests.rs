use grammy::config::{default_debounce, ApiProvider, Config};

#[test]
fn providers_know_their_endpoints_and_defaults() {
    assert_eq!(ApiProvider::OpenAI.base_url(), "https://api.openai.com/v1/chat/completions");
    assert_eq!(ApiProvider::OpenRouter.base_url(), "https://openrouter.ai/api/v1/chat/completions");
    assert_eq!(
        ApiProvider::Gemini.base_url(),
        "https://generativelanguage.googleapis.com/v1beta/models/"
    );
    assert_eq!(ApiProvider::OpenAI.name(), "OpenAI");
    assert_eq!(ApiProvider::OpenRouter.name(), "OpenRouter");
    assert_eq!(ApiProvider::Gemini.name(), "Gemini");
    assert_eq!(ApiProvider::OpenAI.default_model(), "gpt-4o-mini");
    assert_eq!(ApiProvider::OpenRouter.default_model(), "google/gemini-3-flash-preview");
    assert_eq!(ApiProvider::Gemini.default_model(), "gemini-2.0-flash-exp");
}

#[test]
fn the_default_configuration_uses_openrouter() {
    let c = Config::default();
    assert_eq!(c.provider, ApiProvider::OpenRouter);
    assert_eq!(c.model, "google/gemini-3-flash-preview");
    assert_eq!(c.debounce_ms, 3000);
    assert_eq!(default_debounce(), 3000);
    assert!(c.openai_api_key.is_empty());
    assert!(c.legacy_api_key.is_none());
}

#[test]
fn each_provider_reads_its_own_key() {
    let mut c = Config::default();
    c.openai_api_key = "ka".to_string();
    c.openrouter_api_key = "kb".to_string();
    c.gemini_api_key = "kc".to_string();
    assert_eq!(c.api_key_for_provider(&ApiProvider::OpenAI), "ka");
    assert_eq!(c.api_key_for_provider(&ApiProvider::OpenRouter), "kb");
    assert_eq!(c.api_key_for_provider(&ApiProvider::Gemini), "kc");
}

#[test]
fn a_legacy_key_is_migrated_when_no_openai_key_is_set() {
    let mut c = Config::default();
    c.openai_api_key = "   ".to_string();
    c.legacy_api_key = Some("legacy-key".to_string());
    c.migrate_legacy_key();
    assert_eq!(c.openai_api_key, "legacy-key");
}

#[test]
fn a_present_openai_key_is_never_overwritten() {
    let mut c = Config::default();
    c.openai_api_key = "real-key".to_string();
    c.legacy_api_key = Some("legacy-key".to_string());
    c.migrate_legacy_key();
    assert_eq!(c.openai_api_key, "real-key");
}

#[test]
fn a_blank_legacy_key_is_ignored() {
    let mut c = Config::default();
    c.legacy_api_key = Some("  ".to_string());
    c.migrate_legacy_key();
    assert!(c.openai_api_key.is_empty());
}
