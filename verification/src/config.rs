//! The session configuration: provider choice, per-provider API keys, model
//! name, and debounce interval. Reading and writing the configuration file
//! is the caller's business; the rules about defaults and the legacy
//! single-key migration live here.

use vstd::prelude::*;

use crate::text::{is_blank, is_blank_str, str_bytes};

verus! {

/// The model provider a check is sent to.
#[derive(Debug, Clone, Copy, PartialEq, Eq, Structural)]
pub enum ApiProvider {
    /// api.openai.com
    OpenAI,
    /// openrouter.ai
    OpenRouter,
    /// generativelanguage.googleapis.com
    Gemini,
}

impl Default for ApiProvider {
    fn default() -> (p: Self)
        ensures
            p == ApiProvider::OpenRouter,
    {
        ApiProvider::OpenRouter
    }
}

impl ApiProvider {
    /// The chat-completions endpoint of the provider (for Gemini, the base
    /// that the model name and key are appended to).
    pub fn base_url(&self) -> (r: &'static str)
        ensures
            *self is OpenAI ==> r@ == "https://api.openai.com/v1/chat/completions"@,
            *self is OpenRouter ==> r@ == "https://openrouter.ai/api/v1/chat/completions"@,
            *self is Gemini ==> r@ == "https://generativelanguage.googleapis.com/v1beta/models/"@,
    {
        match self {
            ApiProvider::OpenAI => "https://api.openai.com/v1/chat/completions",
            ApiProvider::OpenRouter => "https://openrouter.ai/api/v1/chat/completions",
            ApiProvider::Gemini => "https://generativelanguage.googleapis.com/v1beta/models/",
        }
    }

    /// The provider's display name.
    pub fn name(&self) -> (r: &'static str)
        ensures
            *self is OpenAI ==> r@ == "OpenAI"@,
            *self is OpenRouter ==> r@ == "OpenRouter"@,
            *self is Gemini ==> r@ == "Gemini"@,
    {
        match self {
            ApiProvider::OpenAI => "OpenAI",
            ApiProvider::OpenRouter => "OpenRouter",
            ApiProvider::Gemini => "Gemini",
        }
    }

    /// The model used when the configuration names none.
    pub fn default_model(&self) -> (r: &'static str)
        ensures
            *self is OpenAI ==> r@ == "gpt-4o-mini"@,
            *self is OpenRouter ==> r@ == "google/gemini-3-flash-preview"@,
            *self is Gemini ==> r@ == "gemini-2.0-flash-exp"@,
    {
        match self {
            ApiProvider::OpenAI => "gpt-4o-mini",
            ApiProvider::OpenRouter => "google/gemini-3-flash-preview",
            ApiProvider::Gemini => "gemini-2.0-flash-exp",
        }
    }
}

/// The debounce interval used when the configuration names none.
pub fn default_debounce() -> (r: u64)
    ensures
        r == 3000,
{
    3000
}

/// The persisted settings, one API key per provider. `legacy_api_key` holds
/// what an older release stored under a single `api_key` field.
#[derive(Debug)]
pub struct Config {
    /// Key for api.openai.com.
    pub openai_api_key: String,
    /// Key for openrouter.ai.
    pub openrouter_api_key: String,
    /// Key for generativelanguage.googleapis.com.
    pub gemini_api_key: String,
    /// A single key stored by an older release, migrated on load.
    pub legacy_api_key: Option<String>,
    /// The model checks are sent to.
    pub model: String,
    /// The provider checks are sent to.
    pub provider: ApiProvider,
    /// Quiet period before an edit triggers a check, in milliseconds.
    pub debounce_ms: u64,
}

impl Default for Config {
    fn default() -> (c: Self)
        ensures
            c.openai_api_key@.len() == 0,
            c.openrouter_api_key@.len() == 0,
            c.gemini_api_key@.len() == 0,
            c.legacy_api_key is None,
            c.model@ == "google/gemini-3-flash-preview"@,
            c.provider == ApiProvider::OpenRouter,
            c.debounce_ms == 3000,
    {
        Config {
            openai_api_key: String::new(),
            openrouter_api_key: String::new(),
            gemini_api_key: String::new(),
            legacy_api_key: None,
            model: "google/gemini-3-flash-preview".to_owned(),
            provider: ApiProvider::OpenRouter,
            debounce_ms: 3000,
        }
    }
}

impl Config {
    /// The key for the given provider.
    pub fn api_key_for_provider(&self, provider: &ApiProvider) -> (key: String)
        ensures
            *provider is OpenAI ==> key == self.openai_api_key,
            *provider is OpenRouter ==> key == self.openrouter_api_key,
            *provider is Gemini ==> key == self.gemini_api_key,
    {
        match provider {
            ApiProvider::OpenAI => self.openai_api_key.clone(),
            ApiProvider::OpenRouter => self.openrouter_api_key.clone(),
            ApiProvider::Gemini => self.gemini_api_key.clone(),
        }
    }

    /// Migration for configurations written by older releases, applied once
    /// after loading: when no OpenAI key is set but a legacy single key is,
    /// the legacy key becomes the OpenAI key. Blank means nothing but ASCII
    /// whitespace.
    pub fn migrate_legacy_key(&mut self)
        ensures
            ({
                let take = is_blank(str_bytes(old(self).openai_api_key@)) && match old(
                    self,
                ).legacy_api_key {
                    Some(k) => !is_blank(str_bytes(k@)),
                    None => false,
                };
                if take {
                    *final(self) == (Config {
                        openai_api_key: final(self).openai_api_key,
                        ..*old(self)
                    }) && Some(final(self).openai_api_key) == old(self).legacy_api_key
                } else {
                    *final(self) == *old(self)
                }
            }),
    {
        if is_blank_str(&self.openai_api_key) {
            let legacy = match &self.legacy_api_key {
                Some(k) => {
                    if !is_blank_str(k) {
                        Some(k.clone())
                    } else {
                        None
                    }
                },
                None => None,
            };
            if let Some(k) = legacy {
                self.openai_api_key = k;
            }
        }
    }
}

} // verus!
