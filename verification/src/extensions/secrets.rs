//! Secrets and where they come from.
//!
//! A secret never shows its value but where it is asked to expose it: its
//! debugging text holds only the length.

use vstd::prelude::*;
use vstd::string::*;

use crate::extensions::ExtensionsError;
use crate::text;
use crate::text::{cat3, decimal};
use crate::text_map::TextMap;

verus! {

/// A resolved secret value.
#[derive(Clone)]
pub struct Secret(String);

impl View for Secret {
    type V = Seq<char>;

    closed spec fn view(&self) -> Seq<char> {
        self.0@
    }
}

/// What may be shown of a secret of a length in bytes.
pub open spec fn redacted_text(len: nat) -> Seq<char> {
    "Secret(["@ + text::dec(len) + " bytes redacted])"@
}

impl Secret {
    /// A secret of a value.
    pub fn new(value: &str) -> (s: Self)
        ensures
            s@ == value@,
    {
        Secret(value.to_owned())
    }

    /// Expose the raw value. Callers must not log or persist it.
    pub fn expose(&self) -> (s: &str)
        ensures
            s@ == self@,
    {
        self.0.as_str()
    }

    /// What may be shown of the secret: the length of its value in bytes.
    pub fn redacted(&self) -> (s: String)
        ensures
            s@ == redacted_text(vstd::utf8::encode_utf8(self@).len()),
    {
        let n: usize = self.0.as_str().as_bytes().len();
        cat3("Secret([", decimal(n as u64).as_str(), " bytes redacted])")
    }

    /// A copy of the secret.
    pub fn copy(&self) -> (s: Self)
        ensures
            s@ == self@,
    {
        Secret(self.0.clone())
    }
}

/// An optional secret.
pub open spec fn opt_secret(o: Option<Secret>) -> Option<Seq<char>> {
    match o {
        Some(s) => Some(s@),
        None => None,
    }
}

/// What a lookup of an environment variable gives.
#[derive(Clone, PartialEq, Eq)]
pub enum EnvLookup {
    Found(String),
    Unset,
    NotUnicode,
}

/// Environment-variable secret source.
#[derive(Debug, Clone, Copy)]
pub struct EnvSecretSource;

impl EnvSecretSource {
    /// The secret of a variable that was looked up. An unset variable is a
    /// miss; one that is set but not valid Unicode is an error, never a
    /// silent miss.
    pub fn resolve(&self, name: &str, lookup: EnvLookup) -> (r: Result<
        Option<Secret>,
        ExtensionsError,
    >)
        ensures
            match (lookup, r) {
                (EnvLookup::Found(v), Ok(Some(s))) => s@ == v@,
                (EnvLookup::Unset, Ok(None)) => true,
                (EnvLookup::NotUnicode, Err(ExtensionsError::Invalid(m))) => m@
                    == "environment variable "@ + name@ + " is set but not valid Unicode"@,
                _ => false,
            },
    {
        match lookup {
            EnvLookup::Found(v) => Ok(Some(Secret::new(v.as_str()))),
            EnvLookup::Unset => Ok(None),
            EnvLookup::NotUnicode => Err(
                ExtensionsError::Invalid(
                    cat3("environment variable ", name, " is set but not valid Unicode"),
                ),
            ),
        }
    }
}

/// Static in-process map of secrets.
#[derive(Clone)]
pub struct StaticSecretSource {
    secrets: TextMap<String>,
}

impl View for StaticSecretSource {
    type V = Map<Seq<char>, Seq<char>>;

    closed spec fn view(&self) -> Map<Seq<char>, Seq<char>> {
        self.secrets@.map_values(|s: String| s@)
    }
}

impl StaticSecretSource {
    /// A source without secrets.
    pub fn new() -> (s: Self)
        ensures
            s@ == Map::<Seq<char>, Seq<char>>::empty(),
    {
        let s = StaticSecretSource { secrets: TextMap::new() };
        assert(s@ =~= Map::<Seq<char>, Seq<char>>::empty());
        s
    }

    /// The source with the value of a name inserted or replaced.
    pub fn with(self, name: &str, value: &str) -> (s: Self)
        ensures
            s@ == self@.insert(name@, value@),
    {
        let ghost before = self.secrets@;
        let mut secrets = self.secrets;
        let v = value.to_owned();
        secrets.insert(name.to_owned(), v);
        let s = StaticSecretSource { secrets };
        assert(s@ =~= before.map_values(|s: String| s@).insert(name@, value@));
        s
    }

    /// The secret of a name; none where the source has no such secret.
    pub fn resolve(&self, name: &str) -> (r: Option<Secret>)
        ensures
            opt_secret(r) == if self@.dom().contains(name@) {
                Some(self@[name@])
            } else {
                None
            },
    {
        match self.secrets.get(name) {
            Some(v) => Some(Secret::new(v.as_str())),
            None => None,
        }
    }
}

/// What is shown of a secret does not depend on its value beyond the length.
pub proof fn law_redaction_hides_the_value(a: Secret, b: Secret)
    requires
        vstd::utf8::encode_utf8(a@).len() == vstd::utf8::encode_utf8(b@).len(),
    ensures
        redacted_text(vstd::utf8::encode_utf8(a@).len()) == redacted_text(
            vstd::utf8::encode_utf8(b@).len(),
        ),
{
}

/// A value that was put under a name is the one that is found under it, and
/// other names are left alone.
pub proof fn law_last_value_wins(
    m: Map<Seq<char>, Seq<char>>,
    name: Seq<char>,
    value: Seq<char>,
    other: Seq<char>,
)
    ensures
        m.insert(name, value)[name] == value,
        other != name ==> m.insert(name, value).dom().contains(other) == m.dom().contains(other)
            && (m.dom().contains(other) ==> m.insert(name, value)[other] == m[other]),
{
}

} // verus!
