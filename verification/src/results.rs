//! Results handed over to the user interface: a value or an error message.
use vstd::prelude::*;
use crate::address_store::{AddressEntry, AddressEntryModel};
use crate::types::{RustPool, RustPoolModel, duplicate_pools};

verus! {

/// The abstract value of a result: its value and its error, each maybe
/// missing.
pub struct ResultModel<T> {
    pub value: Option<T>,
    pub error: Option<Seq<char>>,
}

/// The abstract value of an optional string.
pub open spec fn opt_text(s: Option<String>) -> Option<Seq<char>> {
    match s {
        Some(t) => Some(t@),
        None => None,
    }
}

/// Copies an optional string.
fn copy_text(s: &Option<String>) -> (r: Option<String>)
    ensures
        opt_text(r) == opt_text(*s),
{
    match s {
        Some(t) => Some(t.clone()),
        None => None,
    }
}

/// The abstract value of a list of pools.
pub open spec fn pool_models(v: Seq<RustPool>) -> Seq<RustPoolModel> {
    v.map_values(|p: RustPool| p@)
}

/// The pools a relay lists, or the error met while listing them.
#[derive(Debug)]
pub struct PoolsResult {
    relay: String,
    value: Option<Vec<RustPool>>,
    error: Option<String>,
}

impl PoolsResult {
    /// The value and error.
    pub closed spec fn model(&self) -> ResultModel<Seq<RustPoolModel>> {
        ResultModel {
            value: match self.value {
                Some(v) => Some(pool_models(v@)),
                None => None,
            },
            error: opt_text(self.error),
        }
    }

    /// The relay the pools come from.
    pub closed spec fn relay_spec(&self) -> Seq<char> {
        self.relay@
    }

    /// Neither a value nor an error, and no relay.
    pub fn new() -> (r: PoolsResult)
        ensures
            r.model() == (ResultModel::<Seq<RustPoolModel>> { value: None, error: None }),
            r.relay_spec() == Seq::<char>::empty(),
    {
        PoolsResult { relay: String::new(), value: None, error: None }
    }

    /// The pools `value`, no error, no relay.
    pub fn ok(value: Vec<RustPool>) -> (r: PoolsResult)
        ensures
            r.model() == (ResultModel::<Seq<RustPoolModel>> { value: Some(pool_models(value@)), error: None }),
            r.relay_spec() == Seq::<char>::empty(),
    {
        PoolsResult { relay: String::new(), value: Some(value), error: None }
    }

    /// The error `error`, no value, no relay.
    pub fn err(error: &str) -> (r: PoolsResult)
        ensures
            r.model() == (ResultModel::<Seq<RustPoolModel>> { value: None, error: Some(error@) }),
            r.relay_spec() == Seq::<char>::empty(),
    {
        PoolsResult { relay: String::new(), value: None, error: Some(error.to_string()) }
    }

    /// A value and no error.
    pub fn is_ok(&self) -> (r: bool)
        ensures
            r == (self.model().value is Some && self.model().error is None),
    {
        self.value.is_some() && self.error.is_none()
    }

    /// An error and no value.
    pub fn is_err(&self) -> (r: bool)
        ensures
            r == (self.model().value is None && self.model().error is Some),
    {
        self.value.is_none() && self.error.is_some()
    }

    /// A copy of the pools.
    pub fn value(&self) -> (r: Vec<RustPool>)
        requires
            self.model().value is Some,
        ensures
            Some(pool_models(r@)) == self.model().value,
    {
        match &self.value {
            Some(v) => duplicate_pools(v),
            None => Vec::new(),
        }
    }

    /// A copy of the error.
    pub fn error(&self) -> (r: String)
        requires
            self.model().error is Some,
        ensures
            Some(r@) == self.model().error,
    {
        match &self.error {
            Some(e) => e.clone(),
            None => String::new(),
        }
    }

    /// A boxed copy.
    pub fn boxed(&self) -> (r: Box<PoolsResult>)
        ensures
            r.model() == self.model(),
            r.relay_spec() == self.relay_spec(),
    {
        let value = match &self.value {
            Some(v) => Some(duplicate_pools(v)),
            None => None,
        };
        Box::new(PoolsResult { relay: self.relay.clone(), value, error: copy_text(&self.error) })
    }

    /// The same result, from the relay `relay`.
    pub fn with_relay(self, relay: String) -> (r: PoolsResult)
        ensures
            r.model() == self.model(),
            r.relay_spec() == relay@,
    {
        PoolsResult { relay, value: self.value, error: self.error }
    }

    /// A copy of the relay.
    pub fn relay(&self) -> (r: String)
        ensures
            r@ == self.relay_spec(),
    {
        self.relay.clone()
    }
}

/// A text result: a signed transaction, or the error met while making it.
#[derive(Debug)]
pub struct PsbtResult {
    value: Option<String>,
    error: Option<String>,
}

impl PsbtResult {
    /// The value and error.
    pub closed spec fn model(&self) -> ResultModel<Seq<char>> {
        ResultModel { value: opt_text(self.value), error: opt_text(self.error) }
    }

    /// Neither a value nor an error.
    pub fn new() -> (r: PsbtResult)
        ensures
            r.model() == (ResultModel::<Seq<char>> { value: None, error: None }),
    {
        PsbtResult { value: None, error: None }
    }

    /// The value `value`, no error.
    pub fn ok(value: String) -> (r: PsbtResult)
        ensures
            r.model() == (ResultModel::<Seq<char>> { value: Some(value@), error: None }),
    {
        PsbtResult { value: Some(value), error: None }
    }

    /// The error `error`, no value.
    pub fn err(error: &str) -> (r: PsbtResult)
        ensures
            r.model() == (ResultModel::<Seq<char>> { value: None, error: Some(error@) }),
    {
        PsbtResult { value: None, error: Some(error.to_string()) }
    }

    /// A value and no error.
    pub fn is_ok(&self) -> (r: bool)
        ensures
            r == (self.model().value is Some && self.model().error is None),
    {
        self.value.is_some() && self.error.is_none()
    }

    /// An error and no value.
    pub fn is_err(&self) -> (r: bool)
        ensures
            r == (self.model().value is None && self.model().error is Some),
    {
        self.value.is_none() && self.error.is_some()
    }

    /// A copy of the value.
    pub fn value(&self) -> (r: String)
        requires
            self.model().value is Some,
        ensures
            Some(r@) == self.model().value,
    {
        match &self.value {
            Some(v) => v.clone(),
            None => String::new(),
        }
    }

    /// A copy of the error.
    pub fn error(&self) -> (r: String)
        requires
            self.model().error is Some,
        ensures
            Some(r@) == self.model().error,
    {
        match &self.error {
            Some(e) => e.clone(),
            None => String::new(),
        }
    }

    /// A boxed copy.
    pub fn boxed(&self) -> (r: Box<PsbtResult>)
        ensures
            r.model() == self.model(),
    {
        Box::new(PsbtResult { value: copy_text(&self.value), error: copy_text(&self.error) })
    }
}

/// The id of a broadcast transaction, as text, or the error met.
#[derive(Debug)]
pub struct Txid {
    value: Option<String>,
    error: Option<String>,
}

impl Txid {
    /// The value and error.
    pub closed spec fn model(&self) -> ResultModel<Seq<char>> {
        ResultModel { value: opt_text(self.value), error: opt_text(self.error) }
    }

    /// Neither a value nor an error.
    pub fn new() -> (r: Txid)
        ensures
            r.model() == (ResultModel::<Seq<char>> { value: None, error: None }),
    {
        Txid { value: None, error: None }
    }

    /// The value `value`, no error.
    pub fn ok(value: String) -> (r: Txid)
        ensures
            r.model() == (ResultModel::<Seq<char>> { value: Some(value@), error: None }),
    {
        Txid { value: Some(value), error: None }
    }

    /// The error `error`, no value.
    pub fn err(error: &str) -> (r: Txid)
        ensures
            r.model() == (ResultModel::<Seq<char>> { value: None, error: Some(error@) }),
    {
        Txid { value: None, error: Some(error.to_string()) }
    }

    /// A value and no error.
    pub fn is_ok(&self) -> (r: bool)
        ensures
            r == (self.model().value is Some && self.model().error is None),
    {
        self.value.is_some() && self.error.is_none()
    }

    /// An error and no value.
    pub fn is_err(&self) -> (r: bool)
        ensures
            r == (self.model().value is None && self.model().error is Some),
    {
        self.value.is_none() && self.error.is_some()
    }

    /// A copy of the value.
    pub fn value(&self) -> (r: String)
        requires
            self.model().value is Some,
        ensures
            Some(r@) == self.model().value,
    {
        match &self.value {
            Some(v) => v.clone(),
            None => String::new(),
        }
    }

    /// A copy of the error.
    pub fn error(&self) -> (r: String)
        requires
            self.model().error is Some,
        ensures
            Some(r@) == self.model().error,
    {
        match &self.error {
            Some(e) => e.clone(),
            None => String::new(),
        }
    }

    /// A boxed copy.
    pub fn boxed(&self) -> (r: Box<Txid>)
        ensures
            r.model() == self.model(),
    {
        Box::new(Txid { value: copy_text(&self.value), error: copy_text(&self.error) })
    }
}

/// The abstract value of a list of address entries.
pub open spec fn entry_models(v: Seq<AddressEntry>) -> Seq<AddressEntryModel> {
    v.map_values(|e: AddressEntry| e@)
}

/// Copies a list of address entries.
fn duplicate_entries(v: &Vec<AddressEntry>) -> (r: Vec<AddressEntry>)
    ensures
        entry_models(r@) == entry_models(v@),
{
    let mut r: Vec<AddressEntry> = Vec::new();
    let n = v.len();
    for i in 0..n
        invariant
            n == v@.len(),
            r@.len() == i,
            forall|j: int| 0 <= j < i ==> (#[trigger] r@[j])@ == v@[j]@,
    {
        r.push(v[i].duplicate());
    }
    assert(entry_models(r@) =~= entry_models(v@));
    r
}

/// A list of addresses, or the error met while listing them.
#[derive(Debug)]
pub struct AddressesResult {
    value: Option<Vec<AddressEntry>>,
    error: Option<String>,
}

impl AddressesResult {
    /// The value and error.
    pub closed spec fn model(&self) -> ResultModel<Seq<AddressEntryModel>> {
        ResultModel {
            value: match self.value {
                Some(v) => Some(entry_models(v@)),
                None => None,
            },
            error: opt_text(self.error),
        }
    }

    /// Neither a value nor an error.
    pub fn new() -> (r: AddressesResult)
        ensures
            r.model() == (ResultModel::<Seq<AddressEntryModel>> { value: None, error: None }),
    {
        AddressesResult { value: None, error: None }
    }

    /// The addresses `value`, no error.
    pub fn ok(value: Vec<AddressEntry>) -> (r: AddressesResult)
        ensures
            r.model() == (ResultModel::<Seq<AddressEntryModel>> { value: Some(entry_models(value@)), error: None }),
    {
        AddressesResult { value: Some(value), error: None }
    }

    /// The error `error`, no value.
    pub fn err(error: &str) -> (r: AddressesResult)
        ensures
            r.model() == (ResultModel::<Seq<AddressEntryModel>> { value: None, error: Some(error@) }),
    {
        AddressesResult { value: None, error: Some(error.to_string()) }
    }

    /// A value and no error.
    pub fn is_ok(&self) -> (r: bool)
        ensures
            r == (self.model().value is Some && self.model().error is None),
    {
        self.value.is_some() && self.error.is_none()
    }

    /// An error and no value.
    pub fn is_err(&self) -> (r: bool)
        ensures
            r == (self.model().value is None && self.model().error is Some),
    {
        self.value.is_none() && self.error.is_some()
    }

    /// A copy of the addresses.
    pub fn value(&self) -> (r: Vec<AddressEntry>)
        requires
            self.model().value is Some,
        ensures
            Some(entry_models(r@)) == self.model().value,
    {
        match &self.value {
            Some(v) => duplicate_entries(v),
            None => Vec::new(),
        }
    }

    /// A copy of the error.
    pub fn error(&self) -> (r: String)
        requires
            self.model().error is Some,
        ensures
            Some(r@) == self.model().error,
    {
        match &self.error {
            Some(e) => e.clone(),
            None => String::new(),
        }
    }

    /// A boxed copy.
    pub fn boxed(&self) -> (r: Box<AddressesResult>)
        ensures
            r.model() == self.model(),
    {
        let value = match &self.value {
            Some(v) => Some(duplicate_entries(v)),
            None => None,
        };
        Box::new(AddressesResult { value, error: copy_text(&self.error) })
    }
}

} // verus!
