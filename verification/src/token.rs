//! The hub-credential lifecycle: a single credential slot whose token and
//! expiry are only ever replaced together, the scheduling rule that renews
//! the credential ahead of expiry, and the request body sent to the token
//! endpoint. Time is a monotonic clock reading in seconds.

use vstd::prelude::*;
use vstd::string::StrSliceExecFns;
use vstd::string::StringExecFns;
use crate::config::{Config, ConfigV};
use crate::strutil::push_char;

verus! {

/// A failed credential refresh, with the remote error's text.
#[derive(Debug)]
pub enum AuthError {
    RefreshFailed(String),
}

/// The credential slot and the configuration used to refresh it. Exactly
/// one logical instance exists per process; token and expiry are replaced
/// together, never field by field.
#[derive(Debug)]
pub struct TokenManager {
    pub token: Option<String>,
    pub expires_at: Option<u64>,
    pub config: Config,
}

/// Mathematical view of the credential manager.
#[verifier::ext_equal]
pub ghost struct TokenManagerV {
    pub token: Option<Seq<char>>,
    pub expires_at: Option<u64>,
    pub config: ConfigV,
}

impl View for TokenManager {
    type V = TokenManagerV;

    open spec fn view(&self) -> TokenManagerV {
        TokenManagerV {
            token: match self.token {
                Some(t) => Some(t@),
                None => None,
            },
            expires_at: self.expires_at,
            config: self.config@,
        }
    }
}

impl TokenManagerV {
    /// The slot is never half filled: a token is held exactly when its
    /// expiry is.
    pub open spec fn wf(self) -> bool {
        self.token is Some <==> self.expires_at is Some
    }
}

/// The delay in seconds until the next refresh attempt: five minutes
/// before the known expiry, floored at one second once that window is
/// imminent or passed, and thirty seconds when no expiry is known yet.
pub open spec fn sleep_seconds(m: TokenManagerV, now: u64) -> u64 {
    match m.expires_at {
        None => 30,
        Some(expiry) => if expiry > now + 300 {
            (expiry - now - 300) as u64
        } else {
            1
        },
    }
}

impl TokenManager {
    /// A manager with an empty credential slot.
    pub fn new(config: Config) -> (r: TokenManager)
        ensures
            r@.token is None,
            r@.expires_at is None,
            r@.config == config@,
            r@.wf(),
    {
        TokenManager { token: None, expires_at: None, config }
    }

    /// Non-blocking read of the current token; none has been obtained
    /// yet exactly when the slot is empty.
    pub fn get_token(&self) -> (r: Option<String>)
        ensures
            r is Some <==> self@.token is Some,
            r matches Some(t) ==> self@.token == Some(t@),
    {
        match &self.token {
            Some(t) => Some(t.clone()),
            None => None,
        }
    }

    /// Applies the outcome of one refresh attempt at time `now`. On
    /// success the slot is replaced wholesale: the new token together
    /// with its expiry, `now` plus the server-declared lifetime. On
    /// failure the previous credential is left untouched and the error
    /// is returned.
    pub fn apply_refresh(&mut self, now: u64, outcome: Result<(String, u64), String>) -> (r:
        Result<(), AuthError>)
        requires
            outcome matches Ok(p) ==> now + p.1 <= u64::MAX,
        ensures
            final(self)@.config == old(self)@.config,
            r is Ok <==> outcome is Ok,
            outcome matches Ok(p) ==> final(self)@.token == Some(p.0@)
                && final(self)@.expires_at == Some((now + p.1) as u64),
            outcome matches Err(d) ==> (r matches Err(AuthError::RefreshFailed(m)) && m@ == d@)
                && final(self)@.token == old(self)@.token
                && final(self)@.expires_at == old(self)@.expires_at,
            outcome is Ok ==> final(self)@.wf(),
            old(self)@.wf() ==> final(self)@.wf(),
    {
        match outcome {
            Ok((token, expires_in)) => {
                self.token = Some(token);
                self.expires_at = Some(now + expires_in);
                Ok(())
            },
            Err(detail) => Err(AuthError::RefreshFailed(detail)),
        }
    }

    /// The delay until the next refresh attempt, from the slot as it
    /// stands at time `now`.
    pub fn calculate_sleep_duration(&self, now: u64) -> (r: u64)
        ensures
            r == sleep_seconds(self@, now),
    {
        match &self.expires_at {
            Some(expiry) => {
                let expiry = *expiry;
                if expiry > now && expiry - now > 300 {
                    expiry - now - 300
                } else {
                    1
                }
            },
            None => 30,
        }
    }
}

/// After a refresh that succeeded at time `now` with a declared lifetime
/// of 3600 seconds, the next attempt is scheduled exactly 3300 seconds
/// later: five minutes ahead of the expiry, so within the hour. After a
/// failed refresh the slot is unchanged; when no expiry is known the next
/// attempt comes in 30 seconds, and when the known expiry is within the
/// five-minute margin it comes in 1 second — in both cases within 1 to 30
/// seconds.
pub proof fn lemma_refresh_schedule(
    before: TokenManagerV,
    after: TokenManagerV,
    now: u64,
    token: Seq<char>,
)
    requires
        now + 3600 <= u64::MAX,
        after.token == Some(token),
        after.expires_at == Some((now + 3600) as u64),
        before.expires_at is None || (before.expires_at matches Some(e) && e <= now + 300),
    ensures
        sleep_seconds(after, now) == 3300,
        3000 <= sleep_seconds(after, now) <= 3600,
        1 <= sleep_seconds(before, now) <= 30,
{
}

/// A hexadecimal digit, lower case.
pub open spec fn hex_digit(n: int) -> char
    recommends
        0 <= n < 16,
{
    if n == 0 {
        '0'
    } else if n == 1 {
        '1'
    } else if n == 2 {
        '2'
    } else if n == 3 {
        '3'
    } else if n == 4 {
        '4'
    } else if n == 5 {
        '5'
    } else if n == 6 {
        '6'
    } else if n == 7 {
        '7'
    } else if n == 8 {
        '8'
    } else if n == 9 {
        '9'
    } else if n == 10 {
        'a'
    } else if n == 11 {
        'b'
    } else if n == 12 {
        'c'
    } else if n == 13 {
        'd'
    } else if n == 14 {
        'e'
    } else {
        'f'
    }
}

/// How one character is written inside a JSON string literal: quote and
/// backslash are escaped, control characters take the `\u00XX` form, and
/// every other character stands for itself.
pub open spec fn json_escape_char(c: char) -> Seq<char> {
    if c == '"' {
        seq!['\\', '"']
    } else if c == '\\' {
        seq!['\\', '\\']
    } else if (c as u32) < 32 {
        seq!['\\', 'u', '0', '0', hex_digit((c as u32) as int / 16), hex_digit((c as u32) as int % 16)]
    } else {
        seq![c]
    }
}

/// A string escaped for use inside a JSON string literal.
pub open spec fn json_escaped(s: Seq<char>) -> Seq<char>
    decreases s.len(),
{
    if s.len() == 0 {
        Seq::empty()
    } else {
        json_escaped(s.drop_last()) + json_escape_char(s.last())
    }
}

/// The JSON body posted to the token endpoint: the client id and the
/// secret, each escaped.
pub open spec fn token_request_json(client_id: Seq<char>, secret: Seq<char>) -> Seq<char> {
    "{\"client_id\":\""@ + json_escaped(client_id) + "\",\"secret\":\""@ + json_escaped(secret)
        + "\"}"@
}

fn hex_digit_char(n: u32) -> (r: char)
    requires
        n < 16,
    ensures
        r == hex_digit(n as int),
{
    match n {
        0 => '0',
        1 => '1',
        2 => '2',
        3 => '3',
        4 => '4',
        5 => '5',
        6 => '6',
        7 => '7',
        8 => '8',
        9 => '9',
        10 => 'a',
        11 => 'b',
        12 => 'c',
        13 => 'd',
        14 => 'e',
        _ => 'f',
    }
}

/// Appends the string to the buffer, escaped for JSON.
fn append_escaped(buf: &mut String, s: &str)
    ensures
        final(buf)@ == old(buf)@ + json_escaped(s@),
{
    let n = s.unicode_len();
    let mut i: usize = 0;
    proof {
        assert(s@.subrange(0, 0) =~= Seq::<char>::empty());
        assert(old(buf)@ + json_escaped(s@.subrange(0, 0)) =~= old(buf)@);
    }
    while i < n
        invariant
            n == s@.len(),
            i <= n,
            buf@ == old(buf)@ + json_escaped(s@.subrange(0, i as int)),
        decreases n - i,
    {
        proof {
            let cur = s@.subrange(0, i as int + 1);
            assert(cur.drop_last() =~= s@.subrange(0, i as int));
            assert(cur.last() == s@[i as int]);
        }
        let ghost pref = buf@;
        let c = s.get_char(i);
        if c == '"' {
            push_char(buf, '\\');
            push_char(buf, '"');
            proof {
                assert(buf@ =~= pref + json_escape_char(c));
            }
        } else if c == '\\' {
            push_char(buf, '\\');
            push_char(buf, '\\');
            proof {
                assert(buf@ =~= pref + json_escape_char(c));
            }
        } else if (c as u32) < 32 {
            let u = c as u32;
            push_char(buf, '\\');
            push_char(buf, 'u');
            push_char(buf, '0');
            push_char(buf, '0');
            push_char(buf, hex_digit_char(u / 16));
            push_char(buf, hex_digit_char(u % 16));
            proof {
                assert(buf@ =~= pref + json_escape_char(c));
            }
        } else {
            push_char(buf, c);
            proof {
                assert(buf@ =~= pref + json_escape_char(c));
            }
        }
        i = i + 1;
        proof {
            assert(buf@ =~= old(buf)@ + json_escaped(s@.subrange(0, i as int)));
        }
    }
    proof {
        assert(s@.subrange(0, n as int) =~= s@);
    }
}

/// Builds the JSON body for one token request from the client id and the
/// secret.
pub fn token_request_body(client_id: &str, secret: &str) -> (r: String)
    ensures
        r@ == token_request_json(client_id@, secret@),
{
    let mut r = String::new();
    r.append("{\"client_id\":\"");
    append_escaped(&mut r, client_id);
    r.append("\",\"secret\":\"");
    append_escaped(&mut r, secret);
    r.append("\"}");
    proof {
        assert(r@ =~= token_request_json(client_id@, secret@));
    }
    r
}

} // verus!
