//! The rules that the settings of the tool have to meet, and the reading of
//! the answers that its set-up dialogue gets.

use crate::text::{from_chars, to_chars, trim, trim_chars};
use vstd::prelude::*;

verus! {

/// Number of records handed to the caller when the configuration asks for none.
pub open spec fn spec_default_history_count() -> usize {
    5
}

/// The history length used when the configuration does not give one.
pub fn default_history_count() -> (n: usize)
    ensures
        n == spec_default_history_count(),
{
    5
}

/// The history length to go by: the configured one, or the default where the
/// configured one is 0.
pub fn effective_history_count(configured: usize) -> (n: usize)
    ensures
        n == if configured == 0 {
            spec_default_history_count()
        } else {
            configured
        },
{
    if configured == 0 {
        default_history_count()
    } else {
        configured
    }
}

/// Why a set of settings is refused.
#[derive(Clone, Copy, Debug, PartialEq, Eq)]
pub enum ConfigError {
    /// The key, the endpoint or the model is missing or empty.
    Incomplete,
    /// The history length is not between 1 and 100.
    HistoryCount,
}

impl ConfigError {
    /// The message for the user.
    pub open spec fn spec_message(self) -> Seq<char> {
        match self {
            ConfigError::Incomplete => "Incomplete configuration. Please run 'wtf --config' to set up."@,
            ConfigError::HistoryCount => "history_count must be between 1 and 100"@,
        }
    }

    /// The message for the user.
    pub fn message(&self) -> (m: String)
        ensures
            m@ == self.spec_message(),
    {
        match self {
            ConfigError::Incomplete => String::from_str(
                "Incomplete configuration. Please run 'wtf --config' to set up.",
            ),
            ConfigError::HistoryCount => String::from_str("history_count must be between 1 and 100"),
        }
    }
}

/// The settings of the tool that the rules speak of.
#[derive(Clone, Debug)]
pub struct Config {
    /// The key for the language model's service.
    pub api_key: Option<String>,
    /// The address of the service.
    pub api_endpoint: Option<String>,
    /// The name of the model.
    pub model: Option<String>,
    /// How many records of the history go into the prompt.
    pub history_count: usize,
}

/// Whether a setting is there and not empty.
pub open spec fn is_given(setting: Option<String>) -> bool {
    setting is Some && setting->0@.len() > 0
}

impl Config {
    /// What is wrong with the settings, if anything: first whether the key,
    /// the endpoint and the model are all given, then whether the history
    /// length is between 1 and 100.
    pub open spec fn error(self) -> Option<ConfigError> {
        if !is_given(self.api_key) || !is_given(self.api_endpoint) || !is_given(self.model) {
            Some(ConfigError::Incomplete)
        } else if self.history_count == 0 || self.history_count > 100 {
            Some(ConfigError::HistoryCount)
        } else {
            None
        }
    }

    /// Checks the settings against the rules.
    pub fn validate(&self) -> (r: Result<(), ConfigError>)
        ensures
            match r {
                Ok(_) => self.error() is None,
                Err(e) => self.error() == Some(e),
            },
    {
        if !given(&self.api_key) || !given(&self.api_endpoint) || !given(&self.model) {
            Err(ConfigError::Incomplete)
        } else if self.history_count == 0 || self.history_count > 100 {
            Err(ConfigError::HistoryCount)
        } else {
            Ok(())
        }
    }
}

fn given(setting: &Option<String>) -> (b: bool)
    ensures
        b == is_given(*setting),
{
    match setting {
        None => false,
        Some(s) => !s.as_str().is_empty(),
    }
}

/// The history length that the set-up dialogue stores: the number that the
/// user gave where it is between 1 and 100, else 3.
pub fn history_count_from_answer(answer: Option<usize>) -> (n: usize)
    ensures
        n == match answer {
            Some(v) if 0 < v <= 100 => v,
            _ => 3,
        },
{
    match answer {
        Some(v) if 0 < v && v <= 100 => v,
        _ => 3,
    }
}

/// What the set-up dialogue makes of a line that the user typed: the trimmed
/// line where it is not empty; else the current value where there is one;
/// else the empty text where the setting may stay empty; else nothing, and
/// the question is asked again.
pub open spec fn answer_of(current: Seq<char>, required: bool, line: Seq<char>) -> Option<
    Seq<char>,
> {
    if trim(line).len() > 0 {
        Some(trim(line))
    } else if current.len() > 0 {
        Some(current)
    } else if required {
        None
    } else {
        Some(Seq::empty())
    }
}

/// Reads a line that the user typed in answer to a question of the set-up
/// dialogue. `None` asks for the question to be put again.
pub fn answer(current: &str, required: bool, line: &str) -> (r: Option<String>)
    ensures
        r.deep_view() == answer_of(current@, required, line@),
{
    let v = trim_chars(&to_chars(line));
    if v.len() > 0 {
        Some(from_chars(&v))
    } else if !current.is_empty() {
        Some(String::from_str(current))
    } else if required {
        None
    } else {
        Some(String::new())
    }
}

} // verus!
