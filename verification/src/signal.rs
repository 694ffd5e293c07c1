//! What the account reports to the user interface: the signals, the
//! notifications they come from, and the errors they carry.
use vstd::prelude::*;
use crate::results::{ResultModel, opt_text};
use crate::types::SignalFlag;

verus! {

/// The abstract value of a signal: its flag and its error message, each
/// maybe missing.
pub struct SignalModel {
    pub inner: Option<SignalFlag>,
    pub error: Option<Seq<char>>,
}

/// A signal: a flag, or an error message, as the user interface reads it.
#[derive(Debug)]
pub struct Signal {
    inner: Option<SignalFlag>,
    error: Option<String>,
}

/// A flag that reports an error.
pub open spec fn error_flag(f: SignalFlag) -> bool {
    f == SignalFlag::TxListenerError || f == SignalFlag::PoolListenerError || f == SignalFlag::AccountError
}

impl View for Signal {
    type V = SignalModel;

    closed spec fn view(&self) -> SignalModel {
        SignalModel { inner: self.inner, error: opt_text(self.error) }
    }
}

impl Signal {
    /// Neither a flag nor an error.
    pub fn new() -> (r: Signal)
        ensures
            r@ == (SignalModel { inner: None, error: None }),
    {
        Signal { inner: None, error: None }
    }

    /// Sets the flag and clears the error.
    pub fn set(&mut self, value: SignalFlag)
        ensures
            final(self)@ == (SignalModel { inner: Some(value), error: None }),
    {
        self.inner = Some(value);
        self.error = None;
    }

    /// Sets the error and clears the flag.
    pub fn set_error(&mut self, error: String)
        ensures
            final(self)@ == (SignalModel { inner: None, error: Some(error@) }),
    {
        self.error = Some(error);
        self.inner = None;
    }

    /// The flag.
    pub fn unwrap(&self) -> (r: SignalFlag)
        requires
            self@.inner is Some,
        ensures
            Some(r) == self@.inner,
    {
        match self.inner {
            Some(f) => f,
            None => SignalFlag::Error,
        }
    }

    /// The flag, boxed.
    pub fn boxed(&self) -> (r: Box<SignalFlag>)
        requires
            self@.inner is Some,
        ensures
            Some(*r) == self@.inner,
    {
        Box::new(self.unwrap())
    }

    /// The error message, empty when there is none.
    pub fn error(&self) -> (r: String)
        ensures
            r@ == (match self@.error {
                Some(e) => e,
                None => Seq::<char>::empty(),
            }),
    {
        match &self.error {
            Some(e) => e.clone(),
            None => String::new(),
        }
    }

    /// A flag and no error.
    pub fn is_ok(&self) -> (r: bool)
        ensures
            r == (self@.inner is Some && self@.error is None),
    {
        self.inner.is_some() && self.error.is_none()
    }

    /// An error, with no flag or with a flag that reports an error.
    pub fn is_err(&self) -> (r: bool)
        ensures
            r == ((match self@.inner {
                Some(f) => error_flag(f),
                None => true,
            }) && self@.error is Some),
    {
        let err = match self.inner {
            Some(SignalFlag::TxListenerError) | Some(SignalFlag::PoolListenerError)
            | Some(SignalFlag::AccountError) | None => true,
            _ => false,
        };
        err && self.error.is_some()
    }

    /// A copy with the same flag and error.
    pub fn duplicate(&self) -> (r: Signal)
        ensures
            r@ == self@,
    {
        Signal { inner: self.inner, error: match &self.error {
            Some(e) => Some(e.clone()),
            None => None,
        } }
    }
}

/// The signal polled from an account, or the error met while polling.
#[derive(Debug)]
pub struct Poll {
    value: Option<Signal>,
    error: Option<String>,
}

impl Poll {
    /// The value and error.
    pub closed spec fn model(&self) -> ResultModel<SignalModel> {
        ResultModel {
            value: match self.value {
                Some(s) => Some(s@),
                None => None,
            },
            error: opt_text(self.error),
        }
    }

    /// Neither a value nor an error.
    pub fn new() -> (r: Poll)
        ensures
            r.model() == (ResultModel::<SignalModel> { value: None, error: None }),
    {
        Poll { value: None, error: None }
    }

    /// The signal `value`, no error.
    pub fn ok(value: Signal) -> (r: Poll)
        ensures
            r.model() == (ResultModel::<SignalModel> { value: Some(value@), error: None }),
    {
        Poll { value: Some(value), error: None }
    }

    /// The error `error`, no value.
    pub fn err(error: &str) -> (r: Poll)
        ensures
            r.model() == (ResultModel::<SignalModel> { value: None, error: Some(error@) }),
    {
        Poll { value: None, error: Some(error.to_string()) }
    }

    /// A value and no error.
    pub fn is_ok(&self) -> (r: bool)
        ensures
            r == (self.model().value is Some && self.model().error is None),
    {
        self.value.is_some() && self.error.is_none()
    }

    /// An error and no value.
    pub fn is_err(&self) -> (r: bool)
        ensures
            r == (self.model().value is None && self.model().error is Some),
    {
        self.value.is_none() && self.error.is_some()
    }

    /// A copy of the signal.
    pub fn value(&self) -> (r: Signal)
        requires
            self.model().value is Some,
        ensures
            Some(r@) == self.model().value,
    {
        match &self.value {
            Some(s) => s.duplicate(),
            None => Signal::new(),
        }
    }

    /// A copy of the error.
    pub fn error(&self) -> (r: String)
        requires
            self.model().error is Some,
        ensures
            Some(r@) == self.model().error,
    {
        match &self.error {
            Some(e) => e.clone(),
            None => String::new(),
        }
    }

    /// A boxed copy.
    pub fn boxed(&self) -> (r: Box<Poll>)
        ensures
            r.model() == self.model(),
    {
        let value = match &self.value {
            Some(s) => Some(s.duplicate()),
            None => None,
        };
        let error = match &self.error {
            Some(e) => Some(e.clone()),
            None => None,
        };
        Box::new(Poll { value, error })
    }

    /// The signal, boxed.
    pub fn signal(&self) -> (r: Box<Signal>)
        requires
            self.model().value is Some,
        ensures
            Some(r@) == self.model().value,
    {
        Box::new(self.value())
    }
}

/// An error of the account. The errors of the relay client, the coinjoin
/// protocol and the signer are held as their debug text.
#[derive(Debug)]
pub enum Error {
    Nostr(String),
    Joinstr(String),
    Signer(String),
    CreatePool,
    JoinPool,
    InvalidOutPoint,
    CoinMissing,
    InvalidDenomination,
    RelayMissing,
    WrongElectrumConfig,
    PoolMissing,
    WrongKeyType,
    Satisfaction,
}

/// The debug text of an error.
pub open spec fn error_text(e: Error) -> Seq<char> {
    match e {
        Error::Nostr(t) => "Nostr("@ + t@ + ")"@,
        Error::Joinstr(t) => "Joinstr("@ + t@ + ")"@,
        Error::Signer(t) => "Signer("@ + t@ + ")"@,
        Error::CreatePool => "CreatePool"@,
        Error::JoinPool => "JoinPool"@,
        Error::InvalidOutPoint => "InvalidOutPoint"@,
        Error::CoinMissing => "CoinMissing"@,
        Error::InvalidDenomination => "InvalidDenomination"@,
        Error::RelayMissing => "RelayMissing"@,
        Error::WrongElectrumConfig => "WrongElectrumConfig"@,
        Error::PoolMissing => "PoolMissing"@,
        Error::WrongKeyType => "WrongKeyType"@,
        Error::Satisfaction => "Satisfaction"@,
    }
}

/// `name(inner)`.
fn wrapped(name: &str, inner: &String) -> (r: String)
    ensures
        r@ == name@ + "("@ + inner@ + ")"@,
{
    let mut s = name.to_string();
    s.append("(");
    s.append(inner.as_str());
    s.append(")");
    s
}

impl Error {
    /// The debug text.
    pub fn text(&self) -> (r: String)
        ensures
            r@ == error_text(*self),
    {
        match self {
            Error::Nostr(t) => {
                let r = wrapped("Nostr", t);
                proof {
                    reveal_strlit("Nostr");
                    reveal_strlit("Nostr(");
                    reveal_strlit("(");
                    assert("Nostr"@ + "("@ =~= "Nostr("@);
                }
                r
            },
            Error::Joinstr(t) => {
                let r = wrapped("Joinstr", t);
                proof {
                    reveal_strlit("Joinstr");
                    reveal_strlit("Joinstr(");
                    reveal_strlit("(");
                    assert("Joinstr"@ + "("@ =~= "Joinstr("@);
                }
                r
            },
            Error::Signer(t) => {
                let r = wrapped("Signer", t);
                proof {
                    reveal_strlit("Signer");
                    reveal_strlit("Signer(");
                    reveal_strlit("(");
                    assert("Signer"@ + "("@ =~= "Signer("@);
                }
                r
            },
            Error::CreatePool => "CreatePool".to_string(),
            Error::JoinPool => "JoinPool".to_string(),
            Error::InvalidOutPoint => "InvalidOutPoint".to_string(),
            Error::CoinMissing => "CoinMissing".to_string(),
            Error::InvalidDenomination => "InvalidDenomination".to_string(),
            Error::RelayMissing => "RelayMissing".to_string(),
            Error::WrongElectrumConfig => "WrongElectrumConfig".to_string(),
            Error::PoolMissing => "PoolMissing".to_string(),
            Error::WrongKeyType => "WrongKeyType".to_string(),
            Error::Satisfaction => "Satisfaction".to_string(),
        }
    }
}

/// What the transaction listener reports.
#[derive(Debug)]
pub enum TxListenerNotif {
    Started,
    Error(String),
    Stopped,
}

/// What the pool listener reports, or is told.
#[derive(Debug)]
pub enum JoinstrNotif {
    Started,
    PoolUpdate,
    Stopped,
    Stop,
    Error(Error),
}

/// What the account hears from its listeners and stores.
#[derive(Debug)]
pub enum Notification {
    Electrum(TxListenerNotif),
    Joinstr(JoinstrNotif),
    AddressTipChanged,
    CoinUpdate,
    InvalidElectrumConfig,
    InvalidNostrConfig,
    InvalidLookAhead,
    Stopped,
    Error(Error),
}

/// A signal with a flag only.
pub open spec fn flag_signal(f: SignalFlag) -> SignalModel {
    SignalModel { inner: Some(f), error: None }
}

/// A signal with an error only.
pub open spec fn error_signal(e: Seq<char>) -> SignalModel {
    SignalModel { inner: None, error: Some(e) }
}

/// The signal a notification gives the user interface. Setting an error
/// clears the flag, so the error notifications give an error alone.
pub open spec fn notification_signal(n: Notification) -> SignalModel {
    match n {
        Notification::Electrum(TxListenerNotif::Started) => flag_signal(SignalFlag::TxListenerStarted),
        Notification::Electrum(TxListenerNotif::Error(e)) => error_signal(e@),
        Notification::Electrum(TxListenerNotif::Stopped) => flag_signal(SignalFlag::TxListenerStopped),
        Notification::Joinstr(JoinstrNotif::Started) => flag_signal(SignalFlag::PoolListenerStarted),
        Notification::Joinstr(JoinstrNotif::PoolUpdate) => flag_signal(SignalFlag::PoolUpdate),
        Notification::Joinstr(JoinstrNotif::Stopped) => flag_signal(SignalFlag::PoolListenerStopped),
        Notification::Joinstr(JoinstrNotif::Stop) => SignalModel { inner: None, error: None },
        Notification::Joinstr(JoinstrNotif::Error(e)) => error_signal(error_text(e)),
        Notification::AddressTipChanged => flag_signal(SignalFlag::AddressTipChanged),
        Notification::CoinUpdate => flag_signal(SignalFlag::CoinUpdate),
        Notification::Stopped => flag_signal(SignalFlag::Stopped),
        Notification::InvalidElectrumConfig => error_signal("Invalid electrum config"@),
        Notification::InvalidNostrConfig => error_signal("Invalid nostr config"@),
        Notification::InvalidLookAhead => error_signal("Invalid look_ahead value"@),
        Notification::Error(e) => error_signal(error_text(e)),
    }
}

impl Notification {
    /// The signal this notification gives. A pool listener is told to
    /// stop, never reports it, so `Stop` is not a notification to convert.
    pub fn to_signal(self) -> (r: Signal)
        requires
            !(self matches Notification::Joinstr(JoinstrNotif::Stop)),
        ensures
            r@ == notification_signal(self),
    {
        let ghost n = self;
        let mut signal = Signal::new();
        match self {
            Notification::Electrum(notif) => match notif {
                TxListenerNotif::Started => signal.set(SignalFlag::TxListenerStarted),
                TxListenerNotif::Error(e) => {
                    signal.set(SignalFlag::TxListenerError);
                    signal.set_error(e);
                },
                TxListenerNotif::Stopped => signal.set(SignalFlag::TxListenerStopped),
            },
            Notification::Joinstr(notif) => match notif {
                JoinstrNotif::Started => signal.set(SignalFlag::PoolListenerStarted),
                JoinstrNotif::PoolUpdate => signal.set(SignalFlag::PoolUpdate),
                JoinstrNotif::Stopped => signal.set(SignalFlag::PoolListenerStopped),
                JoinstrNotif::Error(e) => {
                    signal.set(SignalFlag::PoolListenerError);
                    signal.set_error(e.text());
                },
                JoinstrNotif::Stop => {},
            },
            Notification::AddressTipChanged => signal.set(SignalFlag::AddressTipChanged),
            Notification::CoinUpdate => signal.set(SignalFlag::CoinUpdate),
            Notification::Stopped => signal.set(SignalFlag::Stopped),
            Notification::InvalidElectrumConfig => {
                signal.set(SignalFlag::AccountError);
                signal.set_error("Invalid electrum config".to_string());
            },
            Notification::InvalidNostrConfig => {
                signal.set(SignalFlag::AccountError);
                signal.set_error("Invalid nostr config".to_string());
            },
            Notification::InvalidLookAhead => {
                signal.set(SignalFlag::AccountError);
                signal.set_error("Invalid look_ahead value".to_string());
            },
            Notification::Error(e) => {
                signal.set(SignalFlag::Error);
                signal.set_error(e.text());
            },
        }
        signal
    }
}

/// A signal reads as ok: a flag and no error.
pub open spec fn signal_ok(s: SignalModel) -> bool {
    s.inner is Some && s.error is None
}

/// A signal reads as an error: an error, with no flag or a flag that
/// reports an error.
pub open spec fn signal_err(s: SignalModel) -> bool {
    (match s.inner {
        Some(f) => error_flag(f),
        None => true,
    }) && s.error is Some
}

/// Every notification gives a signal that reads either as ok or as an
/// error, never both: the error notifications as errors, the others as ok.
pub proof fn law_signal_ok_or_err(n: Notification)
    requires
        !(n matches Notification::Joinstr(JoinstrNotif::Stop)),
    ensures
        signal_ok(notification_signal(n)) != signal_err(notification_signal(n)),
        signal_err(notification_signal(n)) <==> (match n {
            Notification::Electrum(TxListenerNotif::Error(_)) => true,
            Notification::Joinstr(JoinstrNotif::Error(_)) => true,
            Notification::InvalidElectrumConfig => true,
            Notification::InvalidNostrConfig => true,
            Notification::InvalidLookAhead => true,
            Notification::Error(_) => true,
            _ => false,
        }),
{
}

} // verus!
