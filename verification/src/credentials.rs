//! The credential resolver: the fixed keychain probe order, the rule that
//! turns a keychain entry into credentials, the classification of the
//! remote validation probe, and the layered resolution that falls back
//! from the keychain to the locally cached record.

use vstd::prelude::*;
use crate::credjson::parse_credentials_json;
use crate::credjson::parse_credentials_json_str;
use crate::store::Store;
use crate::store::StoreV;
use crate::types::ClaudeCredentials;
use crate::types::ClaudeCredentialsV;
use crate::types::CredentialRecord;
use crate::types::CredentialV;
use crate::types::StoreError;
use crate::types::clone_opt_string;
use crate::types::opt_view;

verus! {

/// Where resolved credentials came from.
#[derive(Debug, Clone, Copy, PartialEq, Eq, Structural)]
pub enum AuthSource {
    Keychain,
    Database,
    NoCredentials,
}

/// The unified authentication status the resolver reports.
#[derive(Debug)]
pub struct AuthStatus {
    pub authenticated: bool,
    pub source: AuthSource,
    pub email: Option<String>,
}

#[verifier::ext_equal]
pub ghost struct AuthStatusV {
    pub authenticated: bool,
    pub source: AuthSource,
    pub email: Option<Seq<char>>,
}

impl View for AuthStatus {
    type V = AuthStatusV;

    open spec fn view(&self) -> AuthStatusV {
        AuthStatusV {
            authenticated: self.authenticated,
            source: self.source,
            email: opt_view(self.email),
        }
    }
}

/// What the remote validation probe said of a key.
#[derive(Debug, Clone, Copy, PartialEq, Eq, Structural)]
pub enum ValidationOutcome {
    Valid,
    Invalid,
    Failed,
}

/// Why a manually submitted key was rejected.
#[derive(Debug, Clone, Copy, PartialEq, Eq, Structural)]
pub enum AuthError {
    InvalidKey,
    ValidationFailed,
}

/// A success answer means the key is valid, 401 means it is invalid, and
/// any other status is an error distinct from "invalid".
pub fn classify_validation_status(code: u16) -> (r: ValidationOutcome)
    ensures
        (200 <= code < 300) ==> r == ValidationOutcome::Valid,
        code == 401 ==> r == ValidationOutcome::Invalid,
        (!(200 <= code < 300) && code != 401) ==> r == ValidationOutcome::Failed,
{
    if code >= 200 && code < 300 {
        ValidationOutcome::Valid
    } else if code == 401 {
        ValidationOutcome::Invalid
    } else {
        ValidationOutcome::Failed
    }
}

/// The key-format prefix that a raw keychain entry must carry.
pub open spec fn sk_ant_prefix(s: Seq<char>) -> bool {
    s.len() >= 7 && s.subrange(0, 7) == "sk-ant-"@
}

/// The credentials a keychain entry stands for: a structured record when
/// it parses as one, else the whole entry as a raw key when it starts
/// with the key-format prefix.
pub open spec fn keychain_creds_of(s: Seq<char>) -> Option<ClaudeCredentialsV> {
    if parse_credentials_json(s) is Some {
        parse_credentials_json(s)
    } else if sk_ant_prefix(s) {
        Some(ClaudeCredentialsV { api_key: s, email: None, subscription_tier: None })
    } else {
        None
    }
}

/// Turns one keychain entry into credentials, if it holds any.
pub fn parse_keychain_value(s: &str) -> (r: Option<ClaudeCredentials>)
    ensures
        match r {
            Some(c) => keychain_creds_of(s@) == Some(c@),
            None => (keychain_creds_of(s@) is None),
        },
{
    match parse_credentials_json_str(s) {
        Some(c) => Some(c),
        None => {
            let n = s.unicode_len();
            proof {
                reveal_strlit("sk-ant-");
            }
            if n >= 7 && s.get_char(0) == 's' && s.get_char(1) == 'k' && s.get_char(2) == '-'
                && s.get_char(3) == 'a' && s.get_char(4) == 'n' && s.get_char(5) == 't'
                && s.get_char(6) == '-' {
                proof {
                    assert(s@.subrange(0, 7) =~= "sk-ant-"@);
                }
                Some(ClaudeCredentials {
                    api_key: s.to_owned(),
                    email: None,
                    subscription_tier: None,
                })
            } else {
                proof {
                    if s@.len() >= 7 && s@.subrange(0, 7) == "sk-ant-"@ {
                        assert(s@[0] == "sk-ant-"@[0]);
                        assert(s@[1] == "sk-ant-"@[1]);
                        assert(s@[2] == "sk-ant-"@[2]);
                        assert(s@[3] == "sk-ant-"@[3]);
                        assert(s@[4] == "sk-ant-"@[4]);
                        assert(s@[5] == "sk-ant-"@[5]);
                        assert(s@[6] == "sk-ant-"@[6]);
                    }
                }
                None
            }
        }
    }
}

/// What one probed entry yields: nothing for an absent entry, else what
/// the entry's text stands for.
pub open spec fn entry_creds(e: Option<Seq<char>>) -> Option<ClaudeCredentialsV> {
    match e {
        Some(s) => keychain_creds_of(s),
        None => None,
    }
}

/// The views of probed entries.
pub open spec fn entry_views(v: Seq<Option<String>>) -> Seq<Option<Seq<char>>> {
    v.map_values(|o: Option<String>| opt_view(o))
}

/// The (service, account) pairs probed, in order: each supplied service
/// with each of the three fixed accounts, services outermost. Which
/// service names the installed credential writers use is deployment
/// configuration that the caller supplies; what this function fixes is
/// the account set and the probe order.
pub fn keychain_probe_pairs(services: &Vec<String>) -> (r: Vec<(String, String)>)
    ensures
        r@.len() == 3 * services@.len(),
        forall|i: int, j: int| 0 <= i < services@.len() && 0 <= j < 3
            ==> (#[trigger] r@[3 * i + j]).0@ == services@[i]@
                && (#[trigger] r@[3 * i + j]).1@ == keychain_account(j),
{
    let mut out: Vec<(String, String)> = Vec::new();
    let accounts = ["default", "api_key", "credentials"];
    let n = services.len();
    let mut i: usize = 0;
    while i < n
        invariant
            n == services@.len(),
            i <= n,
            out@.len() == 3 * i,
            accounts@.len() == 3,
            forall|b: int| 0 <= b < 3 ==> (#[trigger] accounts@[b])@ == keychain_account(b),
            forall|a: int, b: int| 0 <= a < n && 0 <= b < 3 && 3 * a + b < out@.len()
                ==> (#[trigger] out@[3 * a + b]).0@ == services@[a]@
                    && (#[trigger] out@[3 * a + b]).1@ == keychain_account(b),
        decreases n - i,
    {
        let mut j: usize = 0;
        while j < 3
            invariant
                n == services@.len(),
                i < n,
                j <= 3,
                out@.len() == 3 * i + j,
                accounts@.len() == 3,
                forall|b: int| 0 <= b < 3 ==> (#[trigger] accounts@[b])@ == keychain_account(b),
                forall|a: int, b: int| 0 <= a < n && 0 <= b < 3 && 3 * a + b < out@.len()
                    ==> (#[trigger] out@[3 * a + b]).0@ == services@[a]@
                        && (#[trigger] out@[3 * a + b]).1@ == keychain_account(b),
            decreases 3 - j,
        {
            let pair = (services[i].clone(), String::from_str(accounts[j]));
            out.push(pair);
            j = j + 1;
        }
        i = i + 1;
    }
    out
}

/// The fixed account names probed under each service, in order.
pub open spec fn keychain_account(j: int) -> Seq<char> {
    seq!["default"@, "api_key"@, "credentials"@][j]
}

/// Resolves the probed entries in order: the first entry holding
/// credentials wins, and later entries are not considered.
pub fn resolve_keychain_entries(entries: &Vec<Option<String>>) -> (r: Option<ClaudeCredentials>)
    ensures
        match r {
            Some(c) => exists|i: int|
                0 <= i < entries@.len()
                    && #[trigger] entry_creds(entry_views(entries@)[i]) == Some(c@)
                    && forall|j: int| 0 <= j < i
                        ==> (#[trigger] entry_creds(entry_views(entries@)[j]) is None),
            None => forall|i: int| 0 <= i < entries@.len()
                ==> (#[trigger] entry_creds(entry_views(entries@)[i]) is None),
        },
{
    let n = entries.len();
    let mut k: usize = 0;
    while k < n
        invariant
            n == entries@.len(),
            k <= n,
            forall|j: int| 0 <= j < k
                ==> (#[trigger] entry_creds(entry_views(entries@)[j]) is None),
        decreases n - k,
    {
        match &entries[k] {
            Some(s) => {
                match parse_keychain_value(s.as_str()) {
                    Some(c) => {
                        proof {
                            assert(entry_views(entries@)[k as int] == Some(s@));
                            assert(entry_creds(entry_views(entries@)[k as int]) == Some(c@));
                        }
                        return Some(c);
                    }
                    None => {
                        proof {
                            assert(entry_views(entries@)[k as int] == Some(s@));
                        }
                    }
                }
            }
            None => {
                proof {
                    assert(entry_views(entries@)[k as int] == Option::<Seq<char>>::None);
                }
            }
        }
        k = k + 1;
    }
    None
}

impl Store {
    /// Upserts the singleton credential record.
    pub fn store_credentials(
        &mut self,
        api_key: String,
        email: Option<String>,
        subscription_tier: Option<String>,
        now: u64,
    ) -> (r: Result<(), StoreError>)
        requires
            old(self)@.wf(),
        ensures
            final(self)@.wf(),
            r is Ok,
            final(self)@ == (StoreV {
                credential: Some(CredentialV {
                    api_key: api_key@,
                    email: opt_view(email),
                    subscription_tier: opt_view(subscription_tier),
                    last_validated: now,
                }),
                ..old(self)@
            }),
    {
        self.credential = Some(CredentialRecord {
            api_key,
            email,
            subscription_tier,
            last_validated: now,
        });
        proof {
            assert(self@ =~= (StoreV {
                credential: self@.credential,
                ..old(self)@
            }));
        }
        Ok(())
    }

    /// The stored credentials; `NotFound` when no record exists.
    pub fn get_credentials(&self) -> (r: Result<ClaudeCredentials, StoreError>)
        ensures
            match self@.credential {
                Some(c) => (r matches Ok(v) && v@ == (ClaudeCredentialsV {
                    api_key: c.api_key,
                    email: c.email,
                    subscription_tier: c.subscription_tier,
                })),
                None => (r matches Err(StoreError::NotFound)),
            },
    {
        match &self.credential {
            Some(c) => Ok(ClaudeCredentials {
                api_key: c.api_key.clone(),
                email: clone_opt_string(&c.email),
                subscription_tier: clone_opt_string(&c.subscription_tier),
            }),
            None => Err(StoreError::NotFound),
        }
    }

    /// The layered resolution: keychain credentials that validated are
    /// cached and reported as `Keychain`; otherwise previously cached
    /// credentials are reported as `Database` without re-validation; with
    /// neither, the status is unauthenticated with source `NoCredentials`.
    pub fn check_auth_status(
        &mut self,
        keychain: Option<ClaudeCredentials>,
        validation: Option<ValidationOutcome>,
        now: u64,
    ) -> (st: AuthStatus)
        requires
            old(self)@.wf(),
            keychain is Some <==> validation is Some,
        ensures
            final(self)@.wf(),
            keychain matches Some(c) ==> validation == Some(ValidationOutcome::Valid) ==> {
                &&& st@ == (AuthStatusV {
                    authenticated: true,
                    source: AuthSource::Keychain,
                    email: opt_view(c.email),
                })
                &&& final(self)@ == (StoreV {
                    credential: Some(CredentialV {
                        api_key: c.api_key@,
                        email: opt_view(c.email),
                        subscription_tier: opt_view(c.subscription_tier),
                        last_validated: now,
                    }),
                    ..old(self)@
                })
            },
            !(keychain is Some && validation == Some(ValidationOutcome::Valid)) ==> {
                &&& final(self)@ == old(self)@
                &&& match old(self)@.credential {
                    Some(d) => st@ == (AuthStatusV {
                        authenticated: true,
                        source: AuthSource::Database,
                        email: d.email,
                    }),
                    None => st@ == (AuthStatusV {
                        authenticated: false,
                        source: AuthSource::NoCredentials,
                        email: None,
                    }),
                }
            },
    {
        let valid = match &validation {
            Some(ValidationOutcome::Valid) => true,
            _ => false,
        };
        match keychain {
            Some(c) => {
                if valid {
                    let email = clone_opt_string(&c.email);
                    let _ = self.store_credentials(c.api_key, c.email, c.subscription_tier, now);
                    AuthStatus {
                        authenticated: true,
                        source: AuthSource::Keychain,
                        email,
                    }
                } else {
                    self.fallback_status()
                }
            }
            None => self.fallback_status(),
        }
    }

    /// The status reported when the keychain path did not yield a
    /// validated key: cached credentials, or none.
    fn fallback_status(&self) -> (st: AuthStatus)
        ensures
            match self@.credential {
                Some(d) => st@ == (AuthStatusV {
                    authenticated: true,
                    source: AuthSource::Database,
                    email: d.email,
                }),
                None => st@ == (AuthStatusV {
                    authenticated: false,
                    source: AuthSource::NoCredentials,
                    email: None,
                }),
            },
    {
        match &self.credential {
            Some(d) => AuthStatus {
                authenticated: true,
                source: AuthSource::Database,
                email: clone_opt_string(&d.email),
            },
            None => AuthStatus {
                authenticated: false,
                source: AuthSource::NoCredentials,
                email: None,
            },
        }
    }

    /// Manual key entry: the key is stored only when the validation probe
    /// said it is valid; an invalid key and a failed probe are rejected
    /// with distinct errors and change nothing.
    pub fn save_api_key(
        &mut self,
        api_key: String,
        email: Option<String>,
        outcome: ValidationOutcome,
        now: u64,
    ) -> (r: Result<(), AuthError>)
        requires
            old(self)@.wf(),
        ensures
            final(self)@.wf(),
            outcome == ValidationOutcome::Valid ==> {
                &&& r is Ok
                &&& final(self)@ == (StoreV {
                    credential: Some(CredentialV {
                        api_key: api_key@,
                        email: opt_view(email),
                        subscription_tier: None,
                        last_validated: now,
                    }),
                    ..old(self)@
                })
            },
            outcome == ValidationOutcome::Invalid ==> {
                &&& r matches Err(AuthError::InvalidKey)
                &&& final(self)@ == old(self)@
            },
            outcome == ValidationOutcome::Failed ==> {
                &&& r matches Err(AuthError::ValidationFailed)
                &&& final(self)@ == old(self)@
            },
    {
        match outcome {
            ValidationOutcome::Valid => {
                let _ = self.store_credentials(api_key, email, None, now);
                Ok(())
            }
            ValidationOutcome::Invalid => Err(AuthError::InvalidKey),
            ValidationOutcome::Failed => Err(AuthError::ValidationFailed),
        }
    }
}

impl AuthStatus {
    /// The textual source label: `"keychain"`, `"database"` or `"none"`.
    pub fn source_label(&self) -> (r: &'static str)
        ensures
            self.source == AuthSource::Keychain ==> r@ == "keychain"@,
            self.source == AuthSource::Database ==> r@ == "database"@,
            self.source == AuthSource::NoCredentials ==> r@ == "none"@,
    {
        match self.source {
            AuthSource::Keychain => "keychain",
            AuthSource::Database => "database",
            AuthSource::NoCredentials => "none",
        }
    }
}

impl AuthError {
    /// A short human-readable description of the rejection.
    pub fn message(&self) -> (r: &'static str)
        ensures
            *self == AuthError::InvalidKey ==> r@ == "invalid key"@,
            *self == AuthError::ValidationFailed ==> r@ == "validation failed"@,
    {
        match self {
            AuthError::InvalidKey => "invalid key",
            AuthError::ValidationFailed => "validation failed",
        }
    }
}

} // verus!
