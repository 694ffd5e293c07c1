//! Plain models of the on-chain objects the wallet reasons about: transaction
//! ids, outpoints, output scripts, outputs and transactions.
use vstd::prelude::*;
use std::str::FromStr;
use miniscript::bitcoin;

verus! {

/// A transaction id: the 32 bytes of the hash, in their internal order,
/// packed big-endian into four 64-bit words. Comparing the words in order
/// compares the bytes lexicographically.
#[derive(Clone, Copy, Debug, PartialEq, Eq, Structural, Hash)]
pub struct Txid {
    pub w0: u64,
    pub w1: u64,
    pub w2: u64,
    pub w3: u64,
}

/// Strict lexicographic order on transaction ids.
pub open spec fn txid_lt(a: Txid, b: Txid) -> bool {
    ||| a.w0 < b.w0
    ||| (a.w0 == b.w0 && a.w1 < b.w1)
    ||| (a.w0 == b.w0 && a.w1 == b.w1 && a.w2 < b.w2)
    ||| (a.w0 == b.w0 && a.w1 == b.w1 && a.w2 == b.w2 && a.w3 < b.w3)
}

/// The eight bytes of a word, most significant first.
pub open spec fn word_bytes(w: u64) -> Seq<u8> {
    seq![
        (w >> 56u64) as u8, (w >> 48u64) as u8, (w >> 40u64) as u8, (w >> 32u64) as u8,
        (w >> 24u64) as u8, (w >> 16u64) as u8, (w >> 8u64) as u8, w as u8,
    ]
}

/// The 32 bytes of an id: its words, most significant byte first.
pub open spec fn txid_bytes(t: Txid) -> Seq<u8> {
    word_bytes(t.w0) + word_bytes(t.w1) + word_bytes(t.w2) + word_bytes(t.w3)
}

/// Appends the bytes of `w`, most significant first.
fn push_word(v: &mut Vec<u8>, w: u64)
    ensures
        final(v)@ == old(v)@ + word_bytes(w),
{
    v.push((w >> 56u64) as u8);
    v.push((w >> 48u64) as u8);
    v.push((w >> 40u64) as u8);
    v.push((w >> 32u64) as u8);
    v.push((w >> 24u64) as u8);
    v.push((w >> 16u64) as u8);
    v.push((w >> 8u64) as u8);
    v.push(w as u8);
    assert(v@ =~= old(v)@ + word_bytes(w));
}

/// The word of eight bytes, the first the most significant.
pub open spec fn bytes_word(b: Seq<u8>) -> u64 {
    ((b[0] as u64) << 56u64) | ((b[1] as u64) << 48u64) | ((b[2] as u64) << 40u64) | ((b[3] as u64) << 32u64)
        | ((b[4] as u64) << 24u64) | ((b[5] as u64) << 16u64) | ((b[6] as u64) << 8u64) | (b[7] as u64)
}

/// Reading eight bytes as a word and writing the word back gives the bytes.
proof fn lemma_word_round_trip(b: Seq<u8>)
    requires
        b.len() == 8,
    ensures
        word_bytes(bytes_word(b)) == b,
{
    let (b0, b1, b2, b3, b4, b5, b6, b7) = (b[0], b[1], b[2], b[3], b[4], b[5], b[6], b[7]);
    let w = bytes_word(b);
    assert(w == ((b0 as u64) << 56u64) | ((b1 as u64) << 48u64) | ((b2 as u64) << 40u64) | ((b3 as u64) << 32u64)
        | ((b4 as u64) << 24u64) | ((b5 as u64) << 16u64) | ((b6 as u64) << 8u64) | (b7 as u64));
    assert({
        &&& (w >> 56u64) as u8 == b0
        &&& (w >> 48u64) as u8 == b1
        &&& (w >> 40u64) as u8 == b2
        &&& (w >> 32u64) as u8 == b3
        &&& (w >> 24u64) as u8 == b4
        &&& (w >> 16u64) as u8 == b5
        &&& (w >> 8u64) as u8 == b6
        &&& w as u8 == b7
    }) by (bit_vector)
        requires
            w == ((b0 as u64) << 56u64) | ((b1 as u64) << 48u64) | ((b2 as u64) << 40u64) | ((b3 as u64) << 32u64)
                | ((b4 as u64) << 24u64) | ((b5 as u64) << 16u64) | ((b6 as u64) << 8u64) | (b7 as u64);
    assert(word_bytes(w) =~= b);
}

/// The word of the eight bytes of `b` from `start`.
fn read_word(b: &Vec<u8>, start: usize) -> (w: u64)
    requires
        start + 8 <= b@.len(),
    ensures
        w == bytes_word(b@.subrange(start as int, start + 8)),
{
    let n = b.len();
    assert(start + 8 <= n);
    ((b[start] as u64) << 56u64) | ((b[start + 1] as u64) << 48u64) | ((b[start + 2] as u64) << 40u64)
        | ((b[start + 3] as u64) << 32u64) | ((b[start + 4] as u64) << 24u64) | ((b[start + 5] as u64) << 16u64)
        | ((b[start + 6] as u64) << 8u64) | (b[start + 7] as u64)
}

impl Txid {
    /// The id whose 32 bytes, in internal order, are `bytes`; `None` for
    /// another number of bytes.
    pub fn from_bytes(bytes: &Vec<u8>) -> (r: Option<Txid>)
        ensures
            match r {
                Some(t) => bytes@.len() == 32 && txid_bytes(t) == bytes@,
                None => bytes@.len() != 32,
            },
    {
        if bytes.len() != 32 {
            return None;
        }
        let t = Txid { w0: read_word(bytes, 0), w1: read_word(bytes, 8), w2: read_word(bytes, 16), w3: read_word(bytes, 24) };
        proof {
            let b = bytes@;
            lemma_word_round_trip(b.subrange(0, 8));
            lemma_word_round_trip(b.subrange(8, 16));
            lemma_word_round_trip(b.subrange(16, 24));
            lemma_word_round_trip(b.subrange(24, 32));
            assert(txid_bytes(t) =~= b);
        }
        Some(t)
    }

    /// Builds an id from its four words.
    pub fn new(w0: u64, w1: u64, w2: u64, w3: u64) -> (r: Txid)
        ensures
            r == (Txid { w0, w1, w2, w3 }),
    {
        Txid { w0, w1, w2, w3 }
    }

    /// Whether `self` comes strictly before `other`.
    pub fn less_than(&self, other: &Txid) -> (r: bool)
        ensures
            r == txid_lt(*self, *other),
    {
        if self.w0 != other.w0 {
            self.w0 < other.w0
        } else if self.w1 != other.w1 {
            self.w1 < other.w1
        } else if self.w2 != other.w2 {
            self.w2 < other.w2
        } else {
            self.w3 < other.w3
        }
    }

    /// The 32 bytes of the id, in their internal order.
    pub fn to_bytes(&self) -> (r: Vec<u8>)
        ensures
            r@ == txid_bytes(*self),
    {
        let mut r: Vec<u8> = Vec::new();
        push_word(&mut r, self.w0);
        push_word(&mut r, self.w1);
        push_word(&mut r, self.w2);
        push_word(&mut r, self.w3);
        assert(r@ =~= txid_bytes(*self));
        r
    }

    /// Whether both ids are the same.
    pub fn same(&self, other: &Txid) -> (r: bool)
        ensures
            r == (*self == *other),
    {
        self.w0 == other.w0 && self.w1 == other.w1 && self.w2 == other.w2 && self.w3 == other.w3
    }
}

/// The id bytes and output index of the outpoint that `text` reads as
/// (`txid:vout`, the id in its displayed hex), or `None` when it does not
/// read as one.
pub uninterp spec fn outpoint_parse(text: Seq<char>) -> Option<(Seq<u8>, u32)>;

/// Reads `text` as an outpoint (`bitcoin::OutPoint::from_str`), handing back
/// the bytes of its id in internal order (`Hash::to_byte_array`) and its
/// output index. Claims that the result is the named reading of the text,
/// and that an id has 32 bytes.
#[verifier::external_body]
fn read_outpoint(text: &str) -> (r: Option<(Vec<u8>, u32)>)
    ensures
        match r {
            Some((b, v)) => outpoint_parse(text@) == Some((b@, v)) && b@.len() == 32,
            None => outpoint_parse(text@) is None,
        },
{
    bitcoin::OutPoint::from_str(text).ok().map(|op| (<bitcoin::Txid as bitcoin::hashes::Hash>::to_byte_array(op.txid).to_vec(), op.vout))
}

/// The text of the outpoint of id bytes `txid` and output index `vout`:
/// `txid:vout`, the id in its displayed hex.
pub uninterp spec fn outpoint_display(txid: Seq<u8>, vout: u32) -> Seq<char>;

/// Writes the outpoint (`bitcoin::OutPoint`'s `Display`, the id made from its
/// bytes with `Hash::from_slice`). Claims that the text is the named text,
/// and that `OutPoint::from_str` reads it back: the id in hex and the index
/// in decimal without leading zero, as its parser asks.
#[verifier::external_body]
fn display_outpoint(op: &OutPoint) -> (r: String)
    ensures
        r@ == outpoint_display(txid_bytes(op.txid), op.vout),
        outpoint_parse(r@) == Some((txid_bytes(op.txid), op.vout)),
{
    let txid = <bitcoin::Txid as bitcoin::hashes::Hash>::from_slice(&op.txid.to_bytes()).unwrap();
    bitcoin::OutPoint { txid, vout: op.vout }.to_string()
}

/// Writing a word as bytes and reading them back gives the word.
proof fn lemma_bytes_word_round_trip(w: u64)
    ensures
        bytes_word(word_bytes(w)) == w,
{
    let b = word_bytes(w);
    assert(b[0] == (w >> 56u64) as u8 && b[1] == (w >> 48u64) as u8 && b[2] == (w >> 40u64) as u8
        && b[3] == (w >> 32u64) as u8 && b[4] == (w >> 24u64) as u8 && b[5] == (w >> 16u64) as u8
        && b[6] == (w >> 8u64) as u8 && b[7] == w as u8);
    assert(((((w >> 56u64) as u8) as u64) << 56u64) | ((((w >> 48u64) as u8) as u64) << 48u64)
        | ((((w >> 40u64) as u8) as u64) << 40u64) | ((((w >> 32u64) as u8) as u64) << 32u64)
        | ((((w >> 24u64) as u8) as u64) << 24u64) | ((((w >> 16u64) as u8) as u64) << 16u64)
        | ((((w >> 8u64) as u8) as u64) << 8u64) | ((w as u8) as u64) == w) by (bit_vector);
}

/// Two ids with the same bytes are the same.
proof fn lemma_txid_bytes_injective(a: Txid, b: Txid)
    requires
        txid_bytes(a) == txid_bytes(b),
    ensures
        a == b,
{
    let (x, y) = (txid_bytes(a), txid_bytes(b));
    assert(x.subrange(0, 8) =~= word_bytes(a.w0) && y.subrange(0, 8) =~= word_bytes(b.w0));
    assert(x.subrange(8, 16) =~= word_bytes(a.w1) && y.subrange(8, 16) =~= word_bytes(b.w1));
    assert(x.subrange(16, 24) =~= word_bytes(a.w2) && y.subrange(16, 24) =~= word_bytes(b.w2));
    assert(x.subrange(24, 32) =~= word_bytes(a.w3) && y.subrange(24, 32) =~= word_bytes(b.w3));
    lemma_bytes_word_round_trip(a.w0);
    lemma_bytes_word_round_trip(b.w0);
    lemma_bytes_word_round_trip(a.w1);
    lemma_bytes_word_round_trip(b.w1);
    lemma_bytes_word_round_trip(a.w2);
    lemma_bytes_word_round_trip(b.w2);
    lemma_bytes_word_round_trip(a.w3);
    lemma_bytes_word_round_trip(b.w3);
}

/// Reading the bytes of an id gives the id back: what `Txid::from_bytes`
/// reads from the bytes of `t` is `t`.
pub proof fn law_txid_bytes_round_trip(t: Txid, read: Txid)
    requires
        txid_bytes(read) == txid_bytes(t),
    ensures
        read == t,
{
    lemma_txid_bytes_injective(read, t);
}

/// Reading the text of an outpoint gives the outpoint back: when `text` is
/// read as `op` (what `OutPoint::text` ensures) and `parse_outpoint` read it
/// as `read`, then `read` is `op`.
pub proof fn law_outpoint_text_read_back(op: OutPoint, text: Seq<char>, read: OutPoint)
    requires
        outpoint_parse(text) == Some((txid_bytes(op.txid), op.vout)),
        outpoint_parse(text) == Some((txid_bytes(read.txid), read.vout)),
    ensures
        read == op,
{
    lemma_txid_bytes_injective(read.txid, op.txid);
}

/// Reads an outpoint from its text, `txid:vout`.
pub fn parse_outpoint(text: &str) -> (r: Option<OutPoint>)
    ensures
        match r {
            Some(op) => outpoint_parse(text@) == Some((txid_bytes(op.txid), op.vout)),
            None => outpoint_parse(text@) is None,
        },
{
    match read_outpoint(text) {
        Some((bytes, vout)) => match Txid::from_bytes(&bytes) {
            Some(txid) => Some(OutPoint { txid, vout }),
            None => None,
        },
        None => None,
    }
}

/// A reference to the output `vout` of the transaction `txid`.
#[derive(Clone, Copy, Debug, PartialEq, Eq, Structural, Hash)]
pub struct OutPoint {
    pub txid: Txid,
    pub vout: u32,
}

/// Strict order on outpoints: by transaction id, then by output index.
pub open spec fn outpoint_lt(a: OutPoint, b: OutPoint) -> bool {
    txid_lt(a.txid, b.txid) || (a.txid == b.txid && a.vout < b.vout)
}

impl OutPoint {
    /// The text of the outpoint, `txid:vout`, which reads back as it.
    pub fn text(&self) -> (r: String)
        ensures
            r@ == outpoint_display(txid_bytes(self.txid), self.vout),
            outpoint_parse(r@) == Some((txid_bytes(self.txid), self.vout)),
    {
        display_outpoint(self)
    }

    /// Whether both outpoints are the same.
    pub fn same(&self, other: &OutPoint) -> (r: bool)
        ensures
            r == (*self == *other),
    {
        self.txid.same(&other.txid) && self.vout == other.vout
    }

    /// Whether `self` comes strictly before `other`.
    pub fn less_than(&self, other: &OutPoint) -> (r: bool)
        ensures
            r == outpoint_lt(*self, *other),
    {
        if self.txid.same(&other.txid) {
            self.vout < other.vout
        } else {
            self.txid.less_than(&other.txid)
        }
    }
}

/// An output script, as raw bytes.
#[derive(Debug)]
pub struct Script {
    pub bytes: Vec<u8>,
}

impl View for Script {
    type V = Seq<u8>;

    open spec fn view(&self) -> Seq<u8> {
        self.bytes@
    }
}

impl Script {
    /// Wraps raw script bytes.
    pub fn from_bytes(bytes: Vec<u8>) -> (r: Script)
        ensures
            r@ == bytes@,
    {
        Script { bytes }
    }

    /// A copy holding the same bytes.
    pub fn duplicate(&self) -> (r: Script)
        ensures
            r@ == self@,
    {
        let bytes = self.bytes.clone();
        assert(bytes@ =~= self.bytes@);
        Script { bytes }
    }

    /// Whether both scripts hold the same bytes.
    pub fn same(&self, other: &Script) -> (r: bool)
        ensures
            r == (self@ == other@),
    {
        let n = self.bytes.len();
        if n != other.bytes.len() {
            return false;
        }
        let mut i: usize = 0;
        while i < n
            invariant
                n == self.bytes@.len(),
                n == other.bytes@.len(),
                i <= n,
                forall|j: int| 0 <= j < i ==> self.bytes@[j] == other.bytes@[j],
            decreases n - i,
        {
            if self.bytes[i] != other.bytes[i] {
                return false;
            }
            i = i + 1;
        }
        assert(self.bytes@ =~= other.bytes@);
        true
    }
}

/// A transaction output: an amount in satoshis locked to a script.
#[derive(Debug)]
pub struct TxOutput {
    pub value: u64,
    pub script: Script,
}

impl View for TxOutput {
    type V = (u64, Seq<u8>);

    open spec fn view(&self) -> (u64, Seq<u8>) {
        (self.value, self.script@)
    }
}

impl TxOutput {
    /// A copy with the same amount and script.
    pub fn duplicate(&self) -> (r: TxOutput)
        ensures
            r@ == self@,
    {
        TxOutput { value: self.value, script: self.script.duplicate() }
    }
}

/// The abstract value of a transaction: its id, the outpoints it spends and
/// its outputs.
pub struct TxModel {
    pub txid: Txid,
    pub inputs: Seq<OutPoint>,
    pub outputs: Seq<(u64, Seq<u8>)>,
}

/// A transaction, reduced to what the wallet reads of it.
#[derive(Debug)]
pub struct Transaction {
    pub txid: Txid,
    pub inputs: Vec<OutPoint>,
    pub outputs: Vec<TxOutput>,
}

impl View for Transaction {
    type V = TxModel;

    open spec fn view(&self) -> TxModel {
        TxModel {
            txid: self.txid,
            inputs: self.inputs@,
            outputs: self.outputs@.map_values(|o: TxOutput| o@),
        }
    }
}

impl Transaction {
    /// A copy with the same id, inputs and outputs.
    pub fn duplicate(&self) -> (r: Transaction)
        ensures
            r@ == self@,
    {
        let inputs = self.inputs.clone();
        assert(inputs@ =~= self.inputs@);
        let mut outputs: Vec<TxOutput> = Vec::new();
        let n = self.outputs.len();
        for i in 0..n
            invariant
                n == self.outputs@.len(),
                outputs@.len() == i,
                forall|j: int| 0 <= j < i ==> (#[trigger] outputs@[j])@ == self.outputs@[j]@,
        {
            outputs.push(self.outputs[i].duplicate());
        }
        let r = Transaction { txid: self.txid, inputs, outputs };
        assert(r@.outputs =~= self@.outputs);
        r
    }
}

} // verus!
