//! Authentication settings and the decisions made on a token's outcome.
//! The token's signature and claims are checked outside this library; what
//! is decided here is which identity a connection gets.

use vstd::prelude::*;
use vstd::string::{StrSliceExecFns, StringExecFns};
use vstd::utf8::encode_utf8;

verus! {

/// The identity claims a token carries.
pub struct Claims {
    pub sub: String,
    pub name: String,
    pub aud: String,
    pub iss: String,
    pub exp: usize,
    pub iat: usize,
}

pub struct JwtConfig {
    pub secret: String,
    pub audience: String,
    pub issuer: String,
    pub enabled: bool,
}

/// What is wrong with a configured secret, for the operator to hear.
pub struct SecretWarnings {
    pub too_short: bool,
    pub low_entropy: bool,
}

/// Shortest secret, in bytes, taken as strong enough.
pub const MIN_SECRET_BYTES: usize = 32;

/// Fewest distinct characters a secret should hold.
pub const MIN_SECRET_DISTINCT_CHARS: usize = 10;

pub open spec fn default_audience() -> Seq<char> {
    seq!['O', 'p', 'e', 'n', 'W', 'a', 't', 'c', 'h', 'P', 'a', 'r', 't', 'y']
}

pub open spec fn default_issuer() -> Seq<char> {
    seq!['J', 'e', 'l', 'l', 'y', 'f', 'i', 'n']
}

pub open spec fn invalid_token_prefix() -> Seq<char> {
    seq!['I', 'n', 'v', 'a', 'l', 'i', 'd', ' ', 't', 'o', 'k', 'e', 'n', ':', ' ']
}

/// The identity given to every connection while authentication is off.
pub open spec fn is_anonymous(c: Claims, cfg: JwtConfig) -> bool {
    &&& c.sub@ == seq!['a', 'n', 'o', 'n', 'y', 'm', 'o', 'u', 's']
    &&& c.name@ == seq!['A', 'n', 'o', 'n', 'y', 'm', 'o', 'u', 's']
    &&& c.aud@ == cfg.audience@
    &&& c.iss@ == cfg.issuer@
    &&& c.exp == 0
    &&& c.iat == 0
}

/// The number of distinct characters of `s`.
fn distinct_chars(s: &str) -> (r: usize)
    ensures
        r == s@.to_set().len(),
{
    let n = s.unicode_len();
    let mut seen: Vec<char> = Vec::new();
    let mut i: usize = 0;
    while i < n
        invariant
            n == s@.len(),
            i <= n,
            seen@.no_duplicates(),
            seen@.to_set() == s@.take(i as int).to_set(),
            seen@.len() <= i,
        decreases n - i,
    {
        let c = s.get_char(i);
        let mut j: usize = 0;
        let mut found = false;
        while j < seen.len()
            invariant
                j <= seen@.len(),
                found == exists|k: int| 0 <= k < j && seen@[k] == c,
            decreases seen@.len() - j,
        {
            if seen[j] == c {
                found = true;
            }
            j = j + 1;
        }
        let ghost before = seen@;
        if !found {
            seen.push(c);
            proof {
                assert forall|a: int, b: int| 0 <= a < b < seen@.len() implies seen@[a] != seen@[b] by {
                    if b == before.len() {
                        assert(seen@[a] == before[a]);
                    }
                }
            }
        }
        proof {
            assert(s@.take(i + 1) =~= s@.take(i as int).push(c));
            s@.take(i as int).lemma_push_to_set_commute(c);
            if found {
                let k = choose|k: int| 0 <= k < j && seen@[k] == c;
                assert(seen@.to_set().contains(c));
                assert(seen@.to_set() =~= seen@.to_set().insert(c));
            } else {
                assert(seen@ == before.push(c));
                before.lemma_push_to_set_commute(c);
            }
        }
        i = i + 1;
    }
    proof {
        assert(s@.take(n as int) =~= s@);
        seen@.unique_seq_to_set();
    }
    seen.len()
}

impl JwtConfig {
    /// Settings from a secret and optional audience and issuer; absent ones
    /// take the defaults "OpenWatchParty" and "Jellyfin". Authentication is
    /// on exactly when the secret is not empty.
    pub fn from_settings(secret: String, audience: Option<String>, issuer: Option<String>) -> (r: JwtConfig)
        ensures
            r.secret == secret,
            r.enabled == (secret@.len() > 0),
            audience matches Some(a) ==> r.audience == a,
            audience is None ==> r.audience@ == default_audience(),
            issuer matches Some(s) ==> r.issuer == s,
            issuer is None ==> r.issuer@ == default_issuer(),
    {
        let enabled = !secret.as_str().is_empty();
        let audience = match audience {
            Some(a) => a,
            None => {
                let d = String::from_str("OpenWatchParty");
                proof {
                    reveal_strlit("OpenWatchParty");
                }
                assert(d@ =~= default_audience());
                d
            },
        };
        let issuer = match issuer {
            Some(s) => s,
            None => {
                let d = String::from_str("Jellyfin");
                proof {
                    reveal_strlit("Jellyfin");
                }
                assert(d@ =~= default_issuer());
                d
            },
        };
        JwtConfig { secret, audience, issuer, enabled }
    }

    /// Where authentication is on, whether the secret is shorter than
    /// `MIN_SECRET_BYTES` bytes and whether it has fewer than
    /// `MIN_SECRET_DISTINCT_CHARS` distinct characters.
    pub fn secret_warnings(&self) -> (r: SecretWarnings)
        ensures
            r.too_short == (self.enabled && (encode_utf8(self.secret@).len() as usize) < MIN_SECRET_BYTES),
            r.low_entropy == (self.enabled && self.secret@.to_set().len() < MIN_SECRET_DISTINCT_CHARS),
    {
        if !self.enabled {
            return SecretWarnings { too_short: false, low_entropy: false };
        }
        let s = self.secret.as_str();
        let too_short = s.len() < MIN_SECRET_BYTES;
        let low_entropy = distinct_chars(s) < MIN_SECRET_DISTINCT_CHARS;
        SecretWarnings { too_short, low_entropy }
    }

    /// The identity of every connection while authentication is off.
    pub fn anonymous_claims(&self) -> (r: Claims)
        ensures
            is_anonymous(r, *self),
    {
        let sub = String::from_str("anonymous");
        let name = String::from_str("Anonymous");
        proof {
            reveal_strlit("anonymous");
            reveal_strlit("Anonymous");
        }
        assert(sub@ =~= seq!['a', 'n', 'o', 'n', 'y', 'm', 'o', 'u', 's']);
        assert(name@ =~= seq!['A', 'n', 'o', 'n', 'y', 'm', 'o', 'u', 's']);
        Claims {
            sub,
            name,
            aud: self.audience.clone(),
            iss: self.issuer.clone(),
            exp: 0,
            iat: 0,
        }
    }

    /// The identity a connection gets, given what checking its token gave
    /// (`decoded`, its claims or the checker's message). While
    /// authentication is off every connection is anonymous; otherwise the
    /// token's claims are taken, and a failure is reported as
    /// "Invalid token: " and the checker's message.
    pub fn validate_token(&self, decoded: Result<Claims, String>) -> (r: Result<Claims, String>)
        ensures
            !self.enabled ==> r is Ok && is_anonymous(r->Ok_0, *self),
            self.enabled && decoded is Ok ==> r == decoded,
            self.enabled && decoded is Err ==> r is Err && r->Err_0@ == invalid_token_prefix() + decoded->Err_0@,
    {
        if !self.enabled {
            return Ok(self.anonymous_claims());
        }
        match decoded {
            Ok(c) => Ok(c),
            Err(e) => {
                let p = String::from_str("Invalid token: ");
                proof {
                    reveal_strlit("Invalid token: ");
                }
                assert(p@ =~= invalid_token_prefix());
                Err(p.concat(e.as_str()))
            },
        }
    }
}

} // verus!
