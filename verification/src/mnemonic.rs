//! Mnemonic phrases: reading one typed by the user, and making a new one.
use vstd::prelude::*;
use crate::results::{ResultModel, opt_text};
use std::str::FromStr;

verus! {

/// What reading `text` as an English mnemonic gives: the phrase, words
/// joined by single spaces, or the text of the error met.
pub uninterp spec fn mnemonic_parse(text: Seq<char>) -> Result<Seq<char>, Seq<char>>;

/// Reads `text` with `bip39::Mnemonic::from_str` and writes the result back
/// with its `Display`, or the error with its `Display`. Claims only that
/// the outcome is `mnemonic_parse` of the text.
#[verifier::external_body]
pub(crate) fn parse_mnemonic(text: &str) -> (r: Result<String, String>)
    ensures
        match r {
            Ok(p) => mnemonic_parse(text@) == Ok::<Seq<char>, Seq<char>>(p@),
            Err(e) => mnemonic_parse(text@) == Err::<Seq<char>, Seq<char>>(e@),
        },
{
    match bip39::Mnemonic::from_str(text) {
        Ok(m) => Ok(m.to_string()),
        Err(e) => Err(e.to_string()),
    }
}

/// Makes a random twelve-word English mnemonic with
/// `bip39::Mnemonic::generate` and writes it with its `Display`. Claims
/// that the phrase reads back as itself; which phrase comes out is left
/// to chance.
#[verifier::external_body]
pub(crate) fn random_mnemonic() -> (r: String)
    ensures
        mnemonic_parse(r@) == Ok::<Seq<char>, Seq<char>>(r@),
{
    match bip39::Mnemonic::generate(12) {
        Ok(m) => m.to_string(),
        Err(e) => e.to_string(),
    }
}

/// The seed of a mnemonic phrase with an empty passphrase.
pub uninterp spec fn mnemonic_seed(phrase: Seq<char>) -> Seq<u8>;

/// Reads `phrase` with `bip39::Mnemonic::from_str` and makes its seed with
/// `Mnemonic::to_seed` and an empty passphrase. Claims that the seed is the
/// named seed of the phrase.
#[verifier::external_body]
pub(crate) fn seed_of(phrase: &str) -> (r: Vec<u8>)
    requires
        mnemonic_parse(phrase@) is Ok,
    ensures
        r@ == mnemonic_seed(phrase@),
{
    bip39::Mnemonic::from_str(phrase).map(|m| m.to_seed("").to_vec()).unwrap_or_default()
}

/// A mnemonic phrase, or the error met while reading one.
#[derive(Debug)]
pub struct Mnemonic {
    value: Option<String>,
    error: Option<String>,
}

impl Mnemonic {
    /// The phrase and the error.
    pub closed spec fn model(&self) -> ResultModel<Seq<char>> {
        ResultModel { value: opt_text(self.value), error: opt_text(self.error) }
    }

    /// Neither a phrase nor an error.
    pub fn new() -> (r: Mnemonic)
        ensures
            r.model() == (ResultModel::<Seq<char>> { value: None, error: None }),
    {
        Mnemonic { value: None, error: None }
    }

    /// The phrase `value`, no error.
    pub fn ok(value: String) -> (r: Mnemonic)
        ensures
            r.model() == (ResultModel::<Seq<char>> { value: Some(value@), error: None }),
    {
        Mnemonic { value: Some(value), error: None }
    }

    /// The error `error`, no phrase.
    pub fn err(error: &str) -> (r: Mnemonic)
        ensures
            r.model() == (ResultModel::<Seq<char>> { value: None, error: Some(error@) }),
    {
        Mnemonic { value: None, error: Some(error.to_string()) }
    }

    /// A phrase and no error.
    pub fn is_ok(&self) -> (r: bool)
        ensures
            r == (self.model().value is Some && self.model().error is None),
    {
        self.value.is_some() && self.error.is_none()
    }

    /// An error and no phrase.
    pub fn is_err(&self) -> (r: bool)
        ensures
            r == (self.model().value is None && self.model().error is Some),
    {
        self.value.is_none() && self.error.is_some()
    }

    /// A copy of the phrase.
    pub fn value(&self) -> (r: String)
        requires
            self.model().value is Some,
        ensures
            Some(r@) == self.model().value,
    {
        match &self.value {
            Some(v) => v.clone(),
            None => String::new(),
        }
    }

    /// A copy of the error.
    pub fn error(&self) -> (r: String)
        requires
            self.model().error is Some,
        ensures
            Some(r@) == self.model().error,
    {
        match &self.error {
            Some(e) => e.clone(),
            None => String::new(),
        }
    }

    /// A boxed copy.
    pub fn boxed(&self) -> (r: Box<Mnemonic>)
        ensures
            r.model() == self.model(),
    {
        let value = match &self.value {
            Some(v) => Some(v.clone()),
            None => None,
        };
        let error = match &self.error {
            Some(e) => Some(e.clone()),
            None => None,
        };
        Box::new(Mnemonic { value, error })
    }
}

/// The mnemonic that `value` reads as, or the error met.
pub fn mnemonic_from_string(value: String) -> (r: Box<Mnemonic>)
    ensures
        r.model() == (match mnemonic_parse(value@) {
            Ok(p) => ResultModel::<Seq<char>> { value: Some(p), error: None },
            Err(e) => ResultModel::<Seq<char>> { value: None, error: Some(e) },
        }),
{
    let m = match parse_mnemonic(value.as_str()) {
        Ok(p) => Mnemonic::ok(p),
        Err(e) => Mnemonic { value: None, error: Some(e) },
    };
    Box::new(m)
}

/// A new random twelve-word mnemonic, which reads back as itself.
pub fn generate_mnemonic() -> (r: String)
    ensures
        mnemonic_parse(r@) == Ok::<Seq<char>, Seq<char>>(r@),
{
    random_mnemonic()
}

} // verus!
