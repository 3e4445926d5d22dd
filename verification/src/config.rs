//! Start-up settings and the defaults that stand in for missing ones.

use vstd::prelude::*;
use vstd::string::*;
use crate::text::{digits_value, is_digit};

verus! {

/// Smallest difficulty that may be configured or requested.
pub const MIN_DIFFICULTY: usize = 1;

/// Largest difficulty that may be configured or requested.
pub const MAX_DIFFICULTY: usize = 10;

/// Difficulty used when none is configured, or one that is out of range.
pub const DEFAULT_DIFFICULTY: usize = 2;

/// Whether `difficulty` may be configured or requested.
pub open spec fn difficulty_in_range(difficulty: usize) -> bool {
    MIN_DIFFICULTY <= difficulty <= MAX_DIFFICULTY
}

/// The number that a text denotes in decimal: an optional `+`, then one or
/// more of the digits `0` to `9` and nothing else, with a value that fits
/// `usize`. Any other text denotes none.
pub open spec fn decimal_number(text: Seq<char>) -> Option<usize> {
    let digits = if text.len() > 0 && text[0] == '+' {
        text.drop_first()
    } else {
        text
    };
    if digits.len() > 0 && (forall|i: int| 0 <= i < digits.len() ==> is_digit(digits[i]))
        && digits_value(digits) <= usize::MAX {
        Some(digits_value(digits) as usize)
    } else {
        None
    }
}

/// Calls `str::parse::<usize>` and keeps the number of an `Ok`. std documents
/// that the text is expected to be an optional `+` sign followed by only
/// digits, that any other character, white space included, is an error, and
/// that so is an empty text or a number too large for the type.
#[verifier::external_body]
fn parse_usize(text: &str) -> (parsed: Option<usize>)
    ensures
        parsed == decimal_number(text@),
{
    text.parse::<usize>().ok()
}

/// The difficulty to run with, given what the configured text parsed to: the
/// number if it is in range, the default otherwise.
pub open spec fn effective_difficulty(parsed: Option<usize>) -> usize {
    match parsed {
        Some(number) => if difficulty_in_range(number) {
            number
        } else {
            DEFAULT_DIFFICULTY
        },
        None => DEFAULT_DIFFICULTY,
    }
}

/// The difficulty to run with, given the configured text: the default where
/// none is configured.
pub open spec fn configured_difficulty(setting: Option<String>) -> usize {
    match setting {
        Some(text) => effective_difficulty(decimal_number(text@)),
        None => DEFAULT_DIFFICULTY,
    }
}

/// Whether the configured text is a number that is not in the accepted range,
/// so that the default runs in its place.
pub open spec fn configured_out_of_range(setting: Option<String>) -> bool {
    match setting {
        Some(text) => match decimal_number(text@) {
            Some(number) => !difficulty_in_range(number),
            None => false,
        },
        None => false,
    }
}

/// A setting, or its default where it is missing.
pub open spec fn setting_or(setting: Option<String>, default: Seq<char>) -> Seq<char> {
    match setting {
        Some(value) => value@,
        None => default,
    }
}

/// The port to listen on where none is set.
pub open spec fn default_port() -> Seq<char> {
    "8080"@
}

/// The host to listen on where none is set.
pub open spec fn default_host() -> Seq<char> {
    "0.0.0.0"@
}

/// The file that holds the ledger where none is set.
pub open spec fn default_blockchain_file() -> Seq<char> {
    "blockchain.json"@
}

/// The settings that the service starts with.
#[derive(Debug)]
pub struct Config {
    pub port: String,
    pub host: String,
    pub difficulty: usize,
    pub blockchain_file: String,
}

/// Tells whether `difficulty` may be configured or requested.
pub fn is_difficulty_in_range(difficulty: usize) -> (ok: bool)
    ensures
        ok == difficulty_in_range(difficulty),
{
    MIN_DIFFICULTY <= difficulty && difficulty <= MAX_DIFFICULTY
}

/// Chooses the difficulty to run with from what the configured text parsed to.
pub fn resolve_difficulty(parsed: Option<usize>) -> (difficulty: usize)
    ensures
        difficulty == effective_difficulty(parsed),
        difficulty_in_range(difficulty),
{
    match parsed {
        Some(number) => if is_difficulty_in_range(number) {
            number
        } else {
            DEFAULT_DIFFICULTY
        },
        None => DEFAULT_DIFFICULTY,
    }
}

/// Tells whether the configured difficulty is a number out of the accepted
/// range, which `Config::from_values` replaces by the default.
pub fn difficulty_out_of_range(setting: &Option<String>) -> (replaced: bool)
    ensures
        replaced == configured_out_of_range(*setting),
{
    match setting {
        Some(text) => match parse_usize(text.as_str()) {
            Some(number) => !is_difficulty_in_range(number),
            None => false,
        },
        None => false,
    }
}

/// Takes a setting, or makes its default where it is missing.
fn setting_or_default(setting: Option<String>, default: &str) -> (value: String)
    ensures
        value@ == setting_or(setting, default@),
{
    match setting {
        Some(value) => value,
        None => String::from_str(default),
    }
}

impl Config {
    /// Builds the settings from the four values that the environment may
    /// hold. A missing port, host or file name gets its default. The
    /// difficulty is read from its text; the default takes its place where the
    /// text is missing, is no number, or is a number out of range.
    pub fn from_values(
        port: Option<String>,
        host: Option<String>,
        difficulty: Option<String>,
        blockchain_file: Option<String>,
    ) -> (config: Self)
        ensures
            config.port@ == setting_or(port, default_port()),
            config.host@ == setting_or(host, default_host()),
            config.blockchain_file@ == setting_or(blockchain_file, default_blockchain_file()),
            config.difficulty == configured_difficulty(difficulty),
            difficulty is None ==> config.difficulty == DEFAULT_DIFFICULTY,
            difficulty_in_range(config.difficulty),
    {
        let port = setting_or_default(port, "8080");
        let host = setting_or_default(host, "0.0.0.0");
        let difficulty = match difficulty {
            Some(text) => resolve_difficulty(parse_usize(text.as_str())),
            None => DEFAULT_DIFFICULTY,
        };
        let blockchain_file = setting_or_default(blockchain_file, "blockchain.json");
        Self { port, host, difficulty, blockchain_file }
    }

    /// The address to listen on: the host, a colon and the port.
    pub fn address(&self) -> (address: String)
        ensures
            address@ == self.host@ + seq![':'] + self.port@,
    {
        let mut address = self.host.clone();
        address.append(":");
        address.append(self.port.as_str());
        proof {
            reveal_strlit(":");
        }
        address
    }
}

} // verus!
