//! The settings of an account, and the decimal texts they are read from and
//! shown as.
use vstd::prelude::*;
use crate::types::Network;
use crate::derivator::{descriptor_parses, parse_descriptor};

verus! {

/// The character of the decimal digit `d`.
pub open spec fn digit_char(d: nat) -> char {
    if d == 0 { '0' } else if d == 1 { '1' } else if d == 2 { '2' } else if d == 3 { '3' } else if d == 4 {
        '4'
    } else if d == 5 { '5' } else if d == 6 { '6' } else if d == 7 { '7' } else if d == 8 { '8' } else { '9' }
}

/// The decimal text of `n`, without leading zeros.
pub open spec fn dec_text(n: nat) -> Seq<char>
    decreases n,
{
    if n < 10 {
        seq![digit_char(n)]
    } else {
        dec_text(n / 10).push(digit_char(n % 10))
    }
}

/// The one-character text of the digit `d`.
pub(crate) fn digit_str(d: u64) -> (r: &'static str)
    requires
        d < 10,
    ensures
        r@ == seq![digit_char(d as nat)],
{
    if d == 0 {
        proof { reveal_strlit("0"); }
        "0"
    } else if d == 1 {
        proof { reveal_strlit("1"); }
        "1"
    } else if d == 2 {
        proof { reveal_strlit("2"); }
        "2"
    } else if d == 3 {
        proof { reveal_strlit("3"); }
        "3"
    } else if d == 4 {
        proof { reveal_strlit("4"); }
        "4"
    } else if d == 5 {
        proof { reveal_strlit("5"); }
        "5"
    } else if d == 6 {
        proof { reveal_strlit("6"); }
        "6"
    } else if d == 7 {
        proof { reveal_strlit("7"); }
        "7"
    } else if d == 8 {
        proof { reveal_strlit("8"); }
        "8"
    } else {
        proof { reveal_strlit("9"); }
        "9"
    }
}

/// The decimal text of `n`.
pub fn decimal_text(n: u64) -> (r: String)
    ensures
        r@ == dec_text(n as nat),
    decreases n,
{
    if n < 10 {
        String::from_str(digit_str(n))
    } else {
        let mut s = decimal_text(n / 10);
        let d = digit_str(n % 10);
        s.append(d);
        assert(s@ =~= dec_text(n as nat));
        s
    }
}

/// Every character of `d` is an ASCII digit.
pub open spec fn all_digits(d: Seq<char>) -> bool {
    forall|i: int| 0 <= i < d.len() ==> '0' <= #[trigger] d[i] <= '9'
}

/// The value of a text of decimal digits.
pub open spec fn digits_value(d: Seq<char>) -> nat
    decreases d.len(),
{
    if d.len() == 0 {
        0
    } else {
        digits_value(d.drop_last()) * 10 + ((d.last() as int) - ('0' as int)) as nat
    }
}

/// The value of an unsigned decimal text: an optional `+`, then at least
/// one ASCII digit, leading zeros allowed; `None` for any other text.
pub open spec fn unsigned_value(s: Seq<char>) -> Option<nat> {
    let d = if s.len() > 0 && s[0] == '+' { s.drop_first() } else { s };
    if d.len() > 0 && all_digits(d) { Some(digits_value(d)) } else { None }
}

/// The value of `s` read as an unsigned integer of at most `max`.
pub open spec fn parse_unsigned(s: Seq<char>, max: nat) -> Option<nat> {
    match unsigned_value(s) {
        Some(v) => if v <= max { Some(v) } else { None },
        None => None,
    }
}

/// Reads `s` as an unsigned decimal integer of at most `max`.
pub fn parse_decimal(s: &str, max: u64) -> (r: Option<u64>)
    ensures
        match r {
            Some(v) => parse_unsigned(s@, max as nat) == Some(v as nat),
            None => parse_unsigned(s@, max as nat) is None,
        },
{
    let n = s.unicode_len();
    if n == 0 {
        return None;
    }
    let first = s.get_char(0);
    let start: usize = if first == '+' { 1 } else { 0 };
    let ghost d = if s@.len() > 0 && s@[0] == '+' { s@.drop_first() } else { s@ };
    assert(d =~= s@.skip(start as int));
    if start == n {
        return None;
    }
    let mut acc: u64 = 0;
    let mut over = false;
    let mut i: usize = start;
    while i < n
        invariant
            n == s@.len(),
            start <= i <= n,
            start < n,
            d == s@.skip(start as int),
            d == (if s@.len() > 0 && s@[0] == '+' { s@.drop_first() } else { s@ }),
            all_digits(s@.subrange(start as int, i as int)),
            !over ==> acc as nat == digits_value(s@.subrange(start as int, i as int)),
            !over ==> acc <= max,
            over ==> digits_value(s@.subrange(start as int, i as int)) > max,
        decreases n - i,
    {
        let c = s.get_char(i);
        if c < '0' || c > '9' {
            assert(d[i - start] == c);
            assert(!all_digits(d));
            assert(unsigned_value(s@) is None);
            assert(parse_unsigned(s@, max as nat) is None);
            return None;
        }
        let ghost prefix = s@.subrange(start as int, i as int);
        let ghost next = s@.subrange(start as int, i + 1);
        assert(next.drop_last() =~= prefix);
        assert(next.last() == c);
        let digit = (c as u32 - '0' as u32) as u64;
        assert(digit as int == (c as int) - ('0' as int));
        if !over {
            let m = acc.checked_mul(10);
            match m {
                Some(m) => {
                    let a = m.checked_add(digit);
                    match a {
                        Some(a) => {
                            if a <= max {
                                acc = a;
                            } else {
                                over = true;
                            }
                        },
                        None => {
                            over = true;
                        },
                    }
                },
                None => {
                    over = true;
                },
            }
        }
        assert(all_digits(next)) by {
            assert forall|k: int| 0 <= k < next.len() implies '0' <= #[trigger] next[k] <= '9' by {
                if k < prefix.len() {
                    assert(next[k] == prefix[k]);
                }
            }
        }
        i = i + 1;
    }
    assert(s@.subrange(start as int, n as int) =~= d);
    if over {
        None
    } else {
        Some(acc)
    }
}

/// The settings of an account.
#[derive(Debug)]
pub struct Config {
    pub account: String,
    pub electrum_url: Option<String>,
    pub electrum_port: Option<u16>,
    pub nostr_relay: Option<String>,
    pub nostr_back: Option<u64>,
    pub network: Network,
    pub look_ahead: u32,
    pub mnemonic: String,
    pub descriptor: String,
}

/// The text of an optional string, empty when there is none.
pub open spec fn text_or_empty(s: Option<String>) -> Seq<char> {
    match s {
        Some(t) => t@,
        None => Seq::empty(),
    }
}

/// Copies an optional string.
fn copy_opt(s: &Option<String>) -> (r: Option<String>)
    ensures
        r == *s,
{
    match s {
        Some(t) => Some(t.clone()),
        None => None,
    }
}

impl Config {
    /// A copy with the same settings.
    pub fn duplicate(&self) -> (r: Config)
        ensures
            r == *self,
    {
        Config {
            account: self.account.clone(),
            electrum_url: copy_opt(&self.electrum_url),
            electrum_port: self.electrum_port,
            nostr_relay: copy_opt(&self.nostr_relay),
            nostr_back: self.nostr_back,
            network: self.network,
            look_ahead: self.look_ahead,
            mnemonic: self.mnemonic.clone(),
            descriptor: self.descriptor.clone(),
        }
    }

    /// A boxed copy.
    pub fn boxed(&self) -> (r: Box<Config>)
        ensures
            *r == *self,
    {
        Box::new(self.duplicate())
    }

    /// The electrum server address, empty when unset.
    pub fn electrum_url(&self) -> (r: String)
        ensures
            r@ == text_or_empty(self.electrum_url),
    {
        match &self.electrum_url {
            Some(u) => u.clone(),
            None => String::new(),
        }
    }

    /// The electrum port in decimal, empty when unset.
    pub fn electrum_port(&self) -> (r: String)
        ensures
            r@ == (match self.electrum_port {
                Some(p) => dec_text(p as nat),
                None => Seq::<char>::empty(),
            }),
    {
        match self.electrum_port {
            Some(p) => decimal_text(p as u64),
            None => String::new(),
        }
    }

    /// The relay address, empty when unset.
    pub fn nostr_url(&self) -> (r: String)
        ensures
            r@ == text_or_empty(self.nostr_relay),
    {
        match &self.nostr_relay {
            Some(u) => u.clone(),
            None => String::new(),
        }
    }

    /// How far back, in seconds, pools are asked for, in decimal; empty
    /// when unset.
    pub fn nostr_back(&self) -> (r: String)
        ensures
            r@ == (match self.nostr_back {
                Some(b) => dec_text(b as nat),
                None => Seq::<char>::empty(),
            }),
    {
        match self.nostr_back {
            Some(b) => decimal_text(b),
            None => String::new(),
        }
    }

    /// The look ahead in decimal.
    pub fn look_ahead(&self) -> (r: String)
        ensures
            r@ == dec_text(self.look_ahead as nat),
    {
        decimal_text(self.look_ahead as u64)
    }

    /// The network.
    pub fn network(&self) -> (r: Network)
        ensures
            r == self.network,
    {
        self.network
    }

    /// Sets the electrum server address.
    pub fn set_electrum_url(&mut self, url: String)
        ensures
            *final(self) == (Config { electrum_url: Some(url), ..*old(self) }),
    {
        self.electrum_url = Some(url);
    }

    /// Sets the electrum port from its decimal text; a text that is not a
    /// port unsets it.
    pub fn set_electrum_port(&mut self, port: String)
        ensures
            *final(self) == (Config {
                electrum_port: match parse_unsigned(port@, 0xFFFF) {
                    Some(v) => Some(v as u16),
                    None => None,
                },
                ..*old(self)
            }),
    {
        self.electrum_port = match parse_decimal(port.as_str(), 0xFFFF) {
            Some(v) => Some(v as u16),
            None => None,
        };
    }

    /// Sets the relay address.
    pub fn set_nostr_relay(&mut self, relay: String)
        ensures
            *final(self) == (Config { nostr_relay: Some(relay), ..*old(self) }),
    {
        self.nostr_relay = Some(relay);
    }

    /// Sets how far back pools are asked for from its decimal text; a text
    /// that is not a 64-bit number unsets it.
    pub fn set_nostr_back(&mut self, back: String)
        ensures
            *final(self) == (Config {
                nostr_back: match parse_unsigned(back@, 0xFFFF_FFFF_FFFF_FFFF) {
                    Some(v) => Some(v as u64),
                    None => None,
                },
                ..*old(self)
            }),
    {
        self.nostr_back = parse_decimal(back.as_str(), 0xFFFF_FFFF_FFFF_FFFF);
    }

    /// Sets the look ahead from its decimal text; a text that is not a
    /// 32-bit number leaves it as it is.
    pub fn set_look_ahead(&mut self, look_ahead: String)
        ensures
            *final(self) == (match parse_unsigned(look_ahead@, 0xFFFF_FFFF) {
                Some(v) => Config { look_ahead: v as u32, ..*old(self) },
                None => *old(self),
            }),
    {
        match parse_decimal(look_ahead.as_str(), 0xFFFF_FFFF) {
            Some(v) => {
                self.look_ahead = v as u32;
            },
            None => {},
        }
    }

    /// Sets the network.
    pub fn set_network(&mut self, network: Network)
        ensures
            *final(self) == (Config { network, ..*old(self) }),
    {
        self.network = network;
    }

    /// Sets the mnemonic.
    pub fn set_mnemonic(&mut self, mnemonic: String)
        ensures
            *final(self) == (Config { mnemonic, ..*old(self) }),
    {
        self.mnemonic = mnemonic;
    }

    /// Sets the account name.
    pub fn set_account(&mut self, name: String)
        ensures
            *final(self) == (Config { account: name, ..*old(self) }),
    {
        self.account = name;
    }
}

/// A new configuration for the descriptor `descriptor`, which must parse:
/// no account, no server or relay, the main network, a look ahead of 20 and
/// no mnemonic.
pub fn new_config(descriptor: String) -> (r: Box<Config>)
    requires
        descriptor_parses(descriptor@),
    ensures
        r.account@ == Seq::<char>::empty(),
        r.electrum_url is None,
        r.electrum_port is None,
        r.nostr_relay is None,
        r.nostr_back is None,
        r.network == Network::Bitcoin,
        r.look_ahead == 20,
        r.mnemonic@ == Seq::<char>::empty(),
        r.descriptor@ == descriptor@,
{
    Box::new(Config {
        account: String::new(),
        electrum_url: None,
        electrum_port: None,
        nostr_relay: None,
        nostr_back: None,
        network: Network::Bitcoin,
        look_ahead: 20,
        mnemonic: String::new(),
        descriptor,
    })
}

/// A new configuration for `descriptor` when it parses, as `new_config`
/// makes it; `None` when it does not parse.
pub fn try_new_config(descriptor: String) -> (r: Option<Box<Config>>)
    ensures
        r is Some <==> descriptor_parses(descriptor@),
        r matches Some(c) ==> c.descriptor@ == descriptor@ && c.network == Network::Bitcoin && c.look_ahead == 20
            && c.account@ == Seq::<char>::empty() && c.mnemonic@ == Seq::<char>::empty()
            && c.electrum_url is None && c.electrum_port is None && c.nostr_relay is None && c.nostr_back is None,
{
    if parse_descriptor(descriptor.as_str()) {
        Some(new_config(descriptor))
    } else {
        None
    }
}

/// The decimal text of `n` is a text of digits, not starting with a sign,
/// whose value is `n`.
proof fn lemma_dec_text(n: nat)
    ensures
        dec_text(n).len() > 0,
        dec_text(n)[0] != '+',
        all_digits(dec_text(n)),
        digits_value(dec_text(n)) == n,
    decreases n,
{
    let t = dec_text(n);
    if n < 10 {
        assert(t.drop_last() =~= Seq::<char>::empty());
        assert(digits_value(t.drop_last()) == 0);
    } else {
        lemma_dec_text(n / 10);
        let p = dec_text(n / 10);
        assert(t == p.push(digit_char(n % 10)));
        assert(t.drop_last() =~= p);
        assert(t[0] == p[0]);
        assert forall|i: int| 0 <= i < t.len() implies '0' <= #[trigger] t[i] <= '9' by {
            if i < p.len() {
                assert(t[i] == p[i]);
            }
        }
        assert(n == (n / 10) * 10 + n % 10);
    }
}

/// Reading back the decimal text of a number gives the number, so a
/// setting written and read back is unchanged.
pub proof fn law_decimal_round_trip(n: nat, max: nat)
    requires
        n <= max,
    ensures
        parse_unsigned(dec_text(n), max) == Some(n),
{
    lemma_dec_text(n);
}

} // verus!
