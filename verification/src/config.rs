//! Application configuration and the checks a configuration must pass
//! before the broker starts.

use vstd::prelude::*;
use vstd::string::StrSliceExecFns;
use vstd::string::StringExecFns;
use crate::strutil::{starts_with, str_starts_with};

verus! {

/// The broker configuration, as read from the configuration file.
#[derive(Debug)]
pub struct Config {
    pub enabled: bool,
    pub system_name: String,
    pub client_id: String,
    pub secret: String,
    pub hub_endpoint: String,
    pub listen_port: u16,
}

/// Mathematical view of a configuration.
#[verifier::ext_equal]
pub ghost struct ConfigV {
    pub enabled: bool,
    pub system_name: Seq<char>,
    pub client_id: Seq<char>,
    pub secret: Seq<char>,
    pub hub_endpoint: Seq<char>,
    pub listen_port: u16,
}

impl View for Config {
    type V = ConfigV;

    open spec fn view(&self) -> ConfigV {
        ConfigV {
            enabled: self.enabled,
            system_name: self.system_name@,
            client_id: self.client_id@,
            secret: self.secret@,
            hub_endpoint: self.hub_endpoint@,
            listen_port: self.listen_port,
        }
    }
}

impl Clone for Config {
    fn clone(&self) -> (r: Self)
        ensures
            r@ == self@,
    {
        let r = Config {
            enabled: self.enabled,
            system_name: self.system_name.clone(),
            client_id: self.client_id.clone(),
            secret: self.secret.clone(),
            hub_endpoint: self.hub_endpoint.clone(),
            listen_port: self.listen_port,
        };
        proof {
            assert(r@ =~= self@);
        }
        r
    }
}

/// A configuration rejected by validation, with the reason.
#[derive(Debug)]
pub enum ConfigError {
    Validation(String),
}

/// The Unicode whitespace characters, as trimmed from names and ids.
pub open spec fn is_space(c: char) -> bool {
    ||| c == ' '
    ||| 0x09 <= c as u32 && c as u32 <= 0x0d
    ||| c as u32 == 0x85
    ||| c as u32 == 0xa0
    ||| c as u32 == 0x1680
    ||| 0x2000 <= c as u32 && c as u32 <= 0x200a
    ||| c as u32 == 0x2028
    ||| c as u32 == 0x2029
    ||| c as u32 == 0x202f
    ||| c as u32 == 0x205f
    ||| c as u32 == 0x3000
}

/// A string is blank when every character is whitespace; trimming leaves
/// nothing.
pub open spec fn all_space(s: Seq<char>) -> bool {
    forall|i: int| 0 <= i < s.len() ==> is_space(s[i])
}

pub open spec fn is_upper(c: char) -> bool {
    65 <= c as u32 && c as u32 <= 90
}

pub open spec fn is_digit(c: char) -> bool {
    48 <= c as u32 && c as u32 <= 57
}

/// ASCII punctuation: `!..=/`, `:..=@`, `[..=`` ` ``, `{..=~`.
pub open spec fn is_punct(c: char) -> bool {
    ||| 33 <= c as u32 && c as u32 <= 47
    ||| 58 <= c as u32 && c as u32 <= 64
    ||| 91 <= c as u32 && c as u32 <= 96
    ||| 123 <= c as u32 && c as u32 <= 126
}

pub open spec fn has_upper(s: Seq<char>) -> bool {
    exists|i: int| 0 <= i < s.len() && is_upper(s[i])
}

pub open spec fn has_digit(s: Seq<char>) -> bool {
    exists|i: int| 0 <= i < s.len() && is_digit(s[i])
}

pub open spec fn has_punct(s: Seq<char>) -> bool {
    exists|i: int| 0 <= i < s.len() && is_punct(s[i])
}

/// A secret passes when it has at least eight characters, an uppercase
/// letter, a digit and a punctuation character.
pub open spec fn valid_secret(s: Seq<char>) -> bool {
    &&& s.len() >= 8
    &&& has_upper(s)
    &&& has_digit(s)
    &&& has_punct(s)
}

/// The hub endpoint must use the http or https protocol.
pub open spec fn valid_endpoint(s: Seq<char>) -> bool {
    starts_with(s, "http://"@) || starts_with(s, "https://"@)
}

/// A configuration passes validation when every field check passes.
pub open spec fn valid_config(c: ConfigV) -> bool {
    &&& !all_space(c.system_name)
    &&& !all_space(c.client_id)
    &&& valid_secret(c.secret)
    &&& valid_endpoint(c.hub_endpoint)
}

/// The reason an invalid secret is rejected, in the order the checks run.
pub open spec fn secret_message(s: Seq<char>) -> Seq<char>
    recommends
        !valid_secret(s),
{
    if s.len() < 8 {
        "Secret must be at least 8 characters long"@
    } else if !has_upper(s) {
        "Secret must contain at least one uppercase letter"@
    } else if !has_digit(s) {
        "Secret must contain at least one digit"@
    } else {
        "Secret must contain at least one special character"@
    }
}

/// The reason an invalid configuration is rejected, in the order the
/// checks run.
pub open spec fn validation_message(c: ConfigV) -> Seq<char>
    recommends
        !valid_config(c),
{
    if all_space(c.system_name) {
        "System name cannot be empty"@
    } else if all_space(c.client_id) {
        "Client ID cannot be empty"@
    } else if !valid_secret(c.secret) {
        secret_message(c.secret)
    } else {
        "Hub endpoint must use http:// or https:// protocol"@
    }
}

fn is_space_char(c: char) -> (r: bool)
    ensures
        r == is_space(c),
{
    let u = c as u32;
    u == 0x20 || (0x09 <= u && u <= 0x0d) || u == 0x85 || u == 0xa0 || u == 0x1680 || (0x2000
        <= u && u <= 0x200a) || u == 0x2028 || u == 0x2029 || u == 0x202f || u == 0x205f || u
        == 0x3000
}

/// Decides whether the string is blank, i.e. trims to nothing.
fn is_blank(value: &str) -> (r: bool)
    ensures
        r == all_space(value@),
{
    let n = value.unicode_len();
    let mut i: usize = 0;
    while i < n
        invariant
            n == value@.len(),
            i <= n,
            forall|j: int| 0 <= j < i ==> is_space(value@[j]),
        decreases n - i,
    {
        if !is_space_char(value.get_char(i)) {
            return false;
        }
        i = i + 1;
    }
    true
}

/// Rejects a blank system name.
pub fn validate_system_name(value: &str) -> (r: Result<(), ConfigError>)
    ensures
        r is Ok <==> !all_space(value@),
        r matches Err(ConfigError::Validation(m)) ==> m@ == "System name cannot be empty"@,
{
    if is_blank(value) {
        Err(ConfigError::Validation(String::from_str("System name cannot be empty")))
    } else {
        Ok(())
    }
}

/// Rejects a blank client id.
pub fn validate_client_id(value: &str) -> (r: Result<(), ConfigError>)
    ensures
        r is Ok <==> !all_space(value@),
        r matches Err(ConfigError::Validation(m)) ==> m@ == "Client ID cannot be empty"@,
{
    if is_blank(value) {
        Err(ConfigError::Validation(String::from_str("Client ID cannot be empty")))
    } else {
        Ok(())
    }
}

fn contains_upper(value: &str) -> (r: bool)
    ensures
        r == has_upper(value@),
{
    let n = value.unicode_len();
    let mut i: usize = 0;
    while i < n
        invariant
            n == value@.len(),
            i <= n,
            forall|j: int| 0 <= j < i ==> !is_upper(value@[j]),
        decreases n - i,
    {
        if {
            let u = value.get_char(i) as u32;
            65 <= u && u <= 90
        } {
            return true;
        }
        i = i + 1;
    }
    false
}

fn contains_digit(value: &str) -> (r: bool)
    ensures
        r == has_digit(value@),
{
    let n = value.unicode_len();
    let mut i: usize = 0;
    while i < n
        invariant
            n == value@.len(),
            i <= n,
            forall|j: int| 0 <= j < i ==> !is_digit(value@[j]),
        decreases n - i,
    {
        if {
            let u = value.get_char(i) as u32;
            48 <= u && u <= 57
        } {
            return true;
        }
        i = i + 1;
    }
    false
}

fn contains_punct(value: &str) -> (r: bool)
    ensures
        r == has_punct(value@),
{
    let n = value.unicode_len();
    let mut i: usize = 0;
    while i < n
        invariant
            n == value@.len(),
            i <= n,
            forall|j: int| 0 <= j < i ==> !is_punct(value@[j]),
        decreases n - i,
    {
        if {
            let u = value.get_char(i) as u32;
            (33 <= u && u <= 47) || (58 <= u && u <= 64) || (91 <= u && u <= 96) || (123 <= u
                && u <= 126)
        } {
            return true;
        }
        i = i + 1;
    }
    false
}

/// Rejects a secret that is too short or misses an uppercase letter, a
/// digit or a punctuation character, in that order.
pub fn validate_secret(value: &str) -> (r: Result<(), ConfigError>)
    ensures
        r is Ok <==> valid_secret(value@),
        r matches Err(ConfigError::Validation(m)) ==> m@ == secret_message(value@),
{
    if value.unicode_len() < 8 {
        return Err(
            ConfigError::Validation(String::from_str("Secret must be at least 8 characters long")),
        );
    }
    if !contains_upper(value) {
        return Err(
            ConfigError::Validation(
                String::from_str("Secret must contain at least one uppercase letter"),
            ),
        );
    }
    if !contains_digit(value) {
        return Err(
            ConfigError::Validation(String::from_str("Secret must contain at least one digit")),
        );
    }
    if !contains_punct(value) {
        return Err(
            ConfigError::Validation(
                String::from_str("Secret must contain at least one special character"),
            ),
        );
    }
    Ok(())
}

/// Rejects an endpoint that does not use the http or https protocol.
pub fn validate_endpoint(value: &str) -> (r: Result<(), ConfigError>)
    ensures
        r is Ok <==> valid_endpoint(value@),
        r matches Err(ConfigError::Validation(m)) ==> m@ == "Hub endpoint must use http:// or https:// protocol"@,
{
    if str_starts_with(value, "http://") || str_starts_with(value, "https://") {
        Ok(())
    } else {
        Err(
            ConfigError::Validation(
                String::from_str("Hub endpoint must use http:// or https:// protocol"),
            ),
        )
    }
}

/// Checks a configuration field by field, failing fast with the first
/// reason found.
pub fn validate(config: &Config) -> (r: Result<(), ConfigError>)
    ensures
        r is Ok <==> valid_config(config@),
        r matches Err(ConfigError::Validation(m)) ==> m@ == validation_message(config@),
{
    match validate_system_name(config.system_name.as_str()) {
        Err(e) => {
            return Err(e);
        },
        Ok(_) => {},
    }
    match validate_client_id(config.client_id.as_str()) {
        Err(e) => {
            return Err(e);
        },
        Ok(_) => {},
    }
    match validate_secret(config.secret.as_str()) {
        Err(e) => {
            return Err(e);
        },
        Ok(_) => {},
    }
    match validate_endpoint(config.hub_endpoint.as_str()) {
        Err(e) => {
            return Err(e);
        },
        Ok(_) => {},
    }
    Ok(())
}

} // verus!
