//! Outpoints, outputs, transactions and block bodies, with their canonical
//! bytes.

use crate::authorization::Authorization;
use crate::types::bytes::{bytes_equal, bytes_less, lex_less, push_bytes, push_u32, push_u64};
use crate::types::hashes::{self, hash_equal, Canonical, M6id, MerkleRoot, Txid};
use vstd::bytes::{
    lemma_auto_spec_u32_to_from_le_bytes, lemma_auto_spec_u64_to_from_le_bytes,
    spec_u32_from_le_bytes, spec_u32_to_le_bytes, spec_u64_from_le_bytes, spec_u64_to_le_bytes,
    u32_from_le_bytes, u32_to_le_bytes,
};
use vstd::prelude::*;
use vstd::std_specs::cmp::PartialEqSpecImpl;
use vstd::std_specs::convert::FromSpecImpl;

verus! {

/// An amount of coins, in satoshis.
pub type Amount = u64;

/// Something that carries an amount.
pub trait GetValue {
    /// The amount carried.
    spec fn value(&self) -> Amount;

    fn get_value(&self) -> (v: Amount)
        ensures
            v == self.value(),
    ;
}

/// A reference to an output of a mainchain transaction.
#[derive(Clone, Copy, Debug, Eq, Hash)]
pub struct BitcoinOutPoint {
    pub txid: hashes::Hash,
    pub vout: u32,
}

impl PartialEq for BitcoinOutPoint {
    fn eq(&self, other: &Self) -> (r: bool) {
        hash_equal(&self.txid, &other.txid) && self.vout == other.vout
    }
}

impl PartialEqSpecImpl for BitcoinOutPoint {
    open spec fn obeys_eq_spec() -> bool {
        true
    }

    open spec fn eq_spec(&self, other: &Self) -> bool {
        *self == *other
    }
}

/// A reference to an output, by where it was created.
#[derive(Clone, Copy, Debug, Eq, Hash)]
pub enum OutPoint {
    /// Created by a transaction.
    Regular { txid: Txid, vout: u32 },
    /// Created by the coinbase of a block body.
    Coinbase { merkle_root: MerkleRoot, vout: u32 },
    /// Created by a mainchain deposit.
    Deposit(BitcoinOutPoint),
}

impl PartialEq for OutPoint {
    fn eq(&self, other: &Self) -> (r: bool) {
        match (self, other) {
            (OutPoint::Regular { txid: a, vout: x }, OutPoint::Regular { txid: b, vout: y }) => {
                hash_equal(&a.0, &b.0) && *x == *y
            },
            (
                OutPoint::Coinbase { merkle_root: a, vout: x },
                OutPoint::Coinbase { merkle_root: b, vout: y },
            ) => hash_equal(&a.0, &b.0) && *x == *y,
            (OutPoint::Deposit(a), OutPoint::Deposit(b)) => hash_equal(&a.txid, &b.txid) && a.vout
                == b.vout,
            _ => false,
        }
    }
}

impl PartialEqSpecImpl for OutPoint {
    open spec fn obeys_eq_spec() -> bool {
        true
    }

    open spec fn eq_spec(&self, other: &Self) -> bool {
        *self == *other
    }
}

pub const OUTPOINT_KEY_SIZE: usize = 37;

impl OutPoint {
    /// The byte that tells the three kinds apart.
    pub open spec fn tag(&self) -> u8 {
        match self {
            OutPoint::Regular { .. } => 0,
            OutPoint::Coinbase { .. } => 1,
            OutPoint::Deposit(_) => 2,
        }
    }

    /// The hash that the outpoint names.
    pub open spec fn hash(&self) -> hashes::Hash {
        match self {
            OutPoint::Regular { txid, .. } => txid.0,
            OutPoint::Coinbase { merkle_root, .. } => merkle_root.0,
            OutPoint::Deposit(outpoint) => outpoint.txid,
        }
    }

    /// The index of the output under that hash.
    pub open spec fn vout(&self) -> u32 {
        match self {
            OutPoint::Regular { vout, .. } => *vout,
            OutPoint::Coinbase { vout, .. } => *vout,
            OutPoint::Deposit(outpoint) => outpoint.vout,
        }
    }

    /// The 37 canonical bytes: the tag, the hash, the index in little endian.
    pub open spec fn key_bytes(&self) -> Seq<u8> {
        seq![self.tag()] + self.hash()@ + spec_u32_to_le_bytes(self.vout())
    }

    /// The canonical bytes are 37 in number and start with a tag below three.
    pub proof fn lemma_key_bytes_shape(&self)
        ensures
            self.key_bytes().len() == 37,
            self.key_bytes()[0] == self.tag(),
            self.key_bytes()[0] <= 2,
            self.key_bytes().subrange(1, 33) == self.hash()@,
            self.key_bytes().subrange(33, 37) == spec_u32_to_le_bytes(self.vout()),
    {
        lemma_auto_spec_u32_to_from_le_bytes();
        assert(self.key_bytes().subrange(1, 33) =~= self.hash()@);
        assert(self.key_bytes().subrange(33, 37) =~= spec_u32_to_le_bytes(self.vout()));
    }

    /// Two outpoints with the same canonical bytes are the same outpoint.
    pub proof fn lemma_key_bytes_injective(a: OutPoint, b: OutPoint)
        requires
            a.key_bytes() == b.key_bytes(),
        ensures
            a == b,
    {
        a.lemma_key_bytes_shape();
        b.lemma_key_bytes_shape();
        lemma_auto_spec_u32_to_from_le_bytes();
        assert(a.hash() =~= b.hash());
        assert(spec_u32_from_le_bytes(spec_u32_to_le_bytes(a.vout())) == a.vout());
        assert(spec_u32_from_le_bytes(spec_u32_to_le_bytes(b.vout())) == b.vout());
    }
}

impl Canonical for OutPoint {
    open spec fn encodable(&self) -> bool {
        true
    }

    open spec fn canonical(&self) -> Seq<u8> {
        self.key_bytes()
    }

    fn encode(&self, out: &mut Vec<u8>) {
        assert(self.encodable());
        let ghost before = out@;
        match self {
            OutPoint::Regular { txid, vout } => {
                out.push(0u8);
                push_bytes(out, txid.0.as_slice());
                push_u32(out, *vout);
            },
            OutPoint::Coinbase { merkle_root, vout } => {
                out.push(1u8);
                push_bytes(out, merkle_root.0.as_slice());
                push_u32(out, *vout);
            },
            OutPoint::Deposit(outpoint) => {
                out.push(2u8);
                push_bytes(out, outpoint.txid.as_slice());
                push_u32(out, outpoint.vout);
            },
        }
        assert(out@ =~= before + self.key_bytes());
        assert(self.canonical() == self.key_bytes());
    }
}

/// The fixed-width key of an outpoint: its 37 canonical bytes. Keys sort as
/// their bytes do.
#[derive(Clone, Copy, Debug, Eq, Hash, PartialOrd, Ord)]
pub struct OutPointKey([u8; 37]);

impl View for OutPointKey {
    type V = Seq<u8>;

    closed spec fn view(&self) -> Seq<u8> {
        self.0@
    }
}

impl PartialEq for OutPointKey {
    fn eq(&self, other: &Self) -> (r: bool) {
        let r = bytes_equal(self.0.as_slice(), other.0.as_slice());
        proof {
            if r {
                assert(self.0 =~= other.0);
            }
        }
        r
    }
}

impl PartialEqSpecImpl for OutPointKey {
    open spec fn obeys_eq_spec() -> bool {
        true
    }

    open spec fn eq_spec(&self, other: &Self) -> bool {
        *self == *other
    }
}

/// Whether `bytes` are the canonical bytes of some outpoint, as far as their
/// shape goes: 37 bytes, the first a tag below three.
pub open spec fn is_key_bytes(bytes: Seq<u8>) -> bool {
    bytes.len() == 37 && bytes[0] <= 2
}

impl OutPointKey {
    #[verifier::type_invariant]
    spec fn well_formed(&self) -> bool {
        self.0@[0] <= 2
    }

    /// Two keys with the same bytes are the same key.
    pub proof fn lemma_view_injective(a: OutPointKey, b: OutPointKey)
        requires
            a@ == b@,
        ensures
            a == b,
    {
        assert(a.0 =~= b.0);
    }

    /// The raw key bytes.
    pub fn as_bytes(&self) -> (bytes: &[u8; 37])
        ensures
            bytes@ == self@,
            is_key_bytes(self@),
    {
        proof {
            use_type_invariant(self);
        }
        &self.0
    }

    /// Whether this key sorts before `other`.
    pub fn sorts_before(&self, other: &OutPointKey) -> (r: bool)
        ensures
            r == lex_less(self@, other@),
    {
        bytes_less(self.0.as_slice(), other.0.as_slice())
    }

    /// The key of `outpoint`.
    pub fn from_outpoint(outpoint: &OutPoint) -> (key: OutPointKey)
        ensures
            key@ == outpoint.key_bytes(),
    {
        let (tag, hash, vout): (u8, &hashes::Hash, u32) = match outpoint {
            OutPoint::Regular { txid, vout } => (0u8, &txid.0, *vout),
            OutPoint::Coinbase { merkle_root, vout } => (1u8, &merkle_root.0, *vout),
            OutPoint::Deposit(outpoint) => (2u8, &outpoint.txid, outpoint.vout),
        };
        let index = u32_to_le_bytes(vout);
        let mut bytes = [0u8; 37];
        bytes[0] = tag;
        let mut i: usize = 0;
        while i < 32
            invariant
                i <= 32,
                bytes@[0] == tag,
                forall|j: int| 0 <= j < i ==> bytes@[1 + j] == hash@[j],
            decreases 32 - i,
        {
            bytes[1 + i] = hash[i];
            i += 1;
        }
        let mut i: usize = 0;
        while i < 4
            invariant
                i <= 4,
                index@.len() == 4,
                bytes@[0] == tag,
                forall|j: int| 0 <= j < 32 ==> bytes@[1 + j] == hash@[j],
                forall|j: int| 0 <= j < i ==> bytes@[33 + j] == index@[j],
            decreases 4 - i,
        {
            bytes[33 + i] = index[i];
            i += 1;
        }
        proof {
            outpoint.lemma_key_bytes_shape();
            assert(bytes@ =~= outpoint.key_bytes());
        }
        OutPointKey(bytes)
    }

    /// The outpoint that the key stands for.
    pub fn to_outpoint(&self) -> (outpoint: OutPoint)
        ensures
            outpoint.key_bytes() == self@,
    {
        proof {
            use_type_invariant(self);
        }
        let mut hash = [0u8; 32];
        let mut i: usize = 0;
        while i < 32
            invariant
                i <= 32,
                forall|j: int| 0 <= j < i ==> hash@[j] == self.0@[1 + j],
            decreases 32 - i,
        {
            hash[i] = self.0[1 + i];
            i += 1;
        }
        let mut index: Vec<u8> = Vec::new();
        index.push(self.0[33]);
        index.push(self.0[34]);
        index.push(self.0[35]);
        index.push(self.0[36]);
        let vout = u32_from_le_bytes(index.as_slice());
        let tag = self.0[0];
        let outpoint = if tag == 0 {
            OutPoint::Regular { txid: Txid(hash), vout }
        } else if tag == 1 {
            OutPoint::Coinbase { merkle_root: MerkleRoot(hash), vout }
        } else {
            OutPoint::Deposit(BitcoinOutPoint { txid: hash, vout })
        };
        proof {
            lemma_auto_spec_u32_to_from_le_bytes();
            assert(spec_u32_to_le_bytes(vout) == index@);
            assert(outpoint.key_bytes() =~= self.0@);
        }
        outpoint
    }

    /// Reads a key from raw bytes: they must be 37 and start with a tag below
    /// three.
    pub fn decode(bytes: &[u8]) -> (key: Option<OutPointKey>)
        ensures
            key is Some == is_key_bytes(bytes@),
            key matches Some(k) ==> k@ == bytes@,
    {
        if bytes.len() != 37 || bytes[0] > 2 {
            return None;
        }
        let mut raw = [0u8; 37];
        let mut i: usize = 0;
        while i < 37
            invariant
                i <= 37,
                bytes@.len() == 37,
                forall|j: int| 0 <= j < i ==> raw@[j] == bytes@[j],
            decreases 37 - i,
        {
            raw[i] = bytes[i];
            i += 1;
        }
        assert(raw@ =~= bytes@);
        Some(OutPointKey(raw))
    }
}

/// An array of 32 bytes that agrees with `bytes` on its first `n` places.
proof fn array_upto(bytes: Seq<u8>, n: int) -> (array: [u8; 32])
    requires
        bytes.len() == 32,
        0 <= n <= 32,
    ensures
        forall|i: int| 0 <= i < n ==> array@[i] == bytes[i],
    decreases n,
{
    if n == 0 {
        arbitrary()
    } else {
        let shorter = array_upto(bytes, n - 1);
        let array = vstd::array::spec_array_update(shorter, n - 1, bytes[n - 1]);
        vstd::array::axiom_spec_array_update(shorter, n - 1, bytes[n - 1]);
        array
    }
}

/// Every byte string of the shape of a key is the key of an outpoint, and
/// of one only: outpoints and keys correspond one to one.
pub proof fn lemma_outpoint_key_bijection(bytes: Seq<u8>)
    requires
        is_key_bytes(bytes),
    ensures
        exists|outpoint: OutPoint| #[trigger] outpoint.key_bytes() == bytes,
        forall|a: OutPoint, b: OutPoint|
            #[trigger] a.key_bytes() == bytes && #[trigger] b.key_bytes() == bytes ==> a == b,
{
    let hash = array_upto(bytes.subrange(1, 33), 32);
    assert(hash@ =~= bytes.subrange(1, 33));
    let vout = spec_u32_from_le_bytes(bytes.subrange(33, 37));
    lemma_auto_spec_u32_to_from_le_bytes();
    assert(spec_u32_to_le_bytes(vout) == bytes.subrange(33, 37));
    let outpoint = if bytes[0] == 0 {
        OutPoint::Regular { txid: Txid(hash), vout }
    } else if bytes[0] == 1 {
        OutPoint::Coinbase { merkle_root: MerkleRoot(hash), vout }
    } else {
        OutPoint::Deposit(BitcoinOutPoint { txid: hash, vout })
    };
    assert(outpoint.key_bytes() =~= bytes);
    assert forall|a: OutPoint, b: OutPoint|
        #[trigger] a.key_bytes() == bytes && #[trigger] b.key_bytes() == bytes implies a == b by {
        OutPoint::lemma_key_bytes_injective(a, b);
    }
}

impl From<OutPoint> for OutPointKey {
    fn from(outpoint: OutPoint) -> (key: Self)
        ensures
            key@ == outpoint.key_bytes(),
    {
        let key = OutPointKey::from_outpoint(&outpoint);
        proof {
            OutPointKey::lemma_view_injective(key, outpoint_key(outpoint));
        }
        key
    }
}

/// The key whose bytes are the canonical bytes of `outpoint`.
pub closed spec fn outpoint_key(outpoint: OutPoint) -> OutPointKey {
    choose|key: OutPointKey| key@ == outpoint.key_bytes()
}

/// The outpoint whose canonical bytes are the bytes of `key`, for a key of
/// the right shape.
pub closed spec fn key_outpoint(key: OutPointKey) -> OutPoint {
    choose|outpoint: OutPoint| outpoint.key_bytes() == key@
}

impl FromSpecImpl<OutPoint> for OutPointKey {
    open spec fn obeys_from_spec() -> bool {
        true
    }

    open spec fn from_spec(outpoint: OutPoint) -> Self {
        outpoint_key(outpoint)
    }
}

impl From<OutPointKey> for OutPoint {
    fn from(key: OutPointKey) -> (outpoint: Self)
        ensures
            outpoint.key_bytes() == key@,
    {
        let outpoint = key.to_outpoint();
        proof {
            OutPoint::lemma_key_bytes_injective(outpoint, key_outpoint(key));
        }
        outpoint
    }
}

impl FromSpecImpl<OutPointKey> for OutPoint {
    open spec fn obeys_from_spec() -> bool {
        true
    }

    open spec fn from_spec(key: OutPointKey) -> Self {
        key_outpoint(key)
    }
}


/// The 20-byte hash of a verifying key that an output is locked to.
#[derive(Clone, Copy, Debug, PartialEq, Eq, Hash)]
pub struct TransparentAddress(pub [u8; 20]);

impl TransparentAddress {
    /// Whether two addresses hold the same bytes.
    pub fn same(&self, other: &TransparentAddress) -> (r: bool)
        ensures
            r == (*self == *other),
    {
        let r = bytes_equal(self.0.as_slice(), other.0.as_slice());
        proof {
            if r {
                assert(self.0 =~= other.0);
            }
        }
        r
    }
}

pub const MAIN_ADDRESS_MAX_SCRIPT: usize = 42;

/// Whether `bitcoin::Address::from_script` finds that `script` pays to an
/// address of the Bitcoin network.
pub uninterp spec fn is_address_script(script: Seq<u8>) -> bool;

/// Calls `bitcoin::Address::from_script` for the Bitcoin network, which
/// knows the scripts that pay to a key hash, to a script hash, or to a
/// witness program.
#[verifier::external_body]
fn pays_to_address(script: &[u8]) -> (r: bool)
    ensures
        r == is_address_script(script@),
{
    bitcoin::Address::from_script(bitcoin::Script::from_bytes(script), bitcoin::Network::Bitcoin)
        .is_ok()
}

/// A mainchain address, held as the script that pays to it. No address has a
/// script of more than 42 bytes.
#[derive(Clone, Copy, Debug, PartialEq, Eq, Hash)]
pub struct MainAddress {
    len: u8,
    script: [u8; 42],
}

impl MainAddress {
    #[verifier::type_invariant]
    spec fn padded(&self) -> bool {
        &&& self.len <= 42
        &&& forall|i: int| self.len <= i < 42 ==> self.script@[i] == 0
    }

    /// The bytes of the script.
    pub closed spec fn script_bytes(&self) -> Seq<u8> {
        self.script@.take(self.len as int)
    }

    /// The address that `script` pays to, if it pays to one.
    pub fn from_script(script: &[u8]) -> (r: Option<MainAddress>)
        ensures
            r is Some == (script@.len() <= 42 && is_address_script(script@)),
            r matches Some(a) ==> a.script_bytes() == script@,
    {
        if script.len() > 42 || !pays_to_address(script) {
            return None;
        }
        let mut padded = [0u8; 42];
        let mut i: usize = 0;
        while i < script.len()
            invariant
                i <= script@.len() <= 42,
                forall|j: int| 0 <= j < i ==> padded@[j] == script@[j],
                forall|j: int| i <= j < 42 ==> padded@[j] == 0,
            decreases script@.len() - i,
        {
            padded[i] = script[i];
            i += 1;
        }
        let address = MainAddress { len: script.len() as u8, script: padded };
        assert(address.script_bytes() =~= script@);
        Some(address)
    }

    /// The script.
    pub fn script(&self) -> (r: Vec<u8>)
        ensures
            r@ == self.script_bytes(),
            r@.len() <= 42,
    {
        proof {
            use_type_invariant(self);
        }
        let mut out: Vec<u8> = Vec::new();
        let mut i: usize = 0;
        while i < self.len as usize
            invariant
                i <= self.len <= 42,
                out@ == self.script@.take(i as int),
            decreases self.len - i,
        {
            out.push(self.script[i]);
            i += 1;
            assert(out@ =~= self.script@.take(i as int));
        }
        out
    }
}

/// What an output holds.
#[derive(Clone, Copy, Debug, PartialEq, Eq, Hash)]
pub enum Content {
    /// Coins that stay on the sidechain.
    Value(Amount),
    /// Coins on their way to a mainchain address.
    Withdrawal { value: Amount, main_fee: Amount, main_address: MainAddress },
}

impl Content {
    pub fn is_value(&self) -> (r: bool)
        ensures
            r == (*self is Value),
    {
        match self {
            Content::Value(_) => true,
            Content::Withdrawal { .. } => false,
        }
    }

    pub fn is_withdrawal(&self) -> (r: bool)
        ensures
            r == (*self is Withdrawal),
    {
        match self {
            Content::Value(_) => false,
            Content::Withdrawal { .. } => true,
        }
    }
}

impl GetValue for Content {
    open spec fn value(&self) -> Amount {
        match self {
            Content::Value(value) => *value,
            Content::Withdrawal { value, .. } => *value,
        }
    }

    fn get_value(&self) -> (v: Amount) {
        match self {
            Content::Value(value) => *value,
            Content::Withdrawal { value, .. } => *value,
        }
    }
}

impl Canonical for Content {
    open spec fn encodable(&self) -> bool {
        true
    }

    open spec fn canonical(&self) -> Seq<u8> {
        match self {
            Content::Value(value) => seq![0u8] + spec_u64_to_le_bytes(*value),
            Content::Withdrawal { value, main_fee, main_address } => seq![1u8]
                + spec_u64_to_le_bytes(*value) + spec_u64_to_le_bytes(*main_fee)
                + spec_u32_to_le_bytes(main_address.script_bytes().len() as u32)
                + main_address.script_bytes(),
        }
    }

    fn encode(&self, out: &mut Vec<u8>) {
        assert(self.encodable());
        let ghost before = out@;
        match self {
            Content::Value(value) => {
                out.push(0u8);
                push_u64(out, *value);
            },
            Content::Withdrawal { value, main_fee, main_address } => {
                out.push(1u8);
                push_u64(out, *value);
                push_u64(out, *main_fee);
                let script = main_address.script();
                push_u32(out, script.len() as u32);
                push_bytes(out, script.as_slice());
            },
        }
        assert(out@ =~= before + self.canonical());
    }
}

/// Coins, or a withdrawal, locked to an address.
#[derive(Clone, Copy, Debug, PartialEq, Eq, Hash)]
pub struct Output {
    pub address: TransparentAddress,
    pub content: Content,
}

impl View for Output {
    type V = Output;

    open spec fn view(&self) -> Output {
        *self
    }
}

impl GetValue for Output {
    open spec fn value(&self) -> Amount {
        self.content.value()
    }

    fn get_value(&self) -> (v: Amount) {
        self.content.get_value()
    }
}

impl Canonical for Output {
    open spec fn encodable(&self) -> bool {
        true
    }

    open spec fn canonical(&self) -> Seq<u8> {
        self.address.0@ + self.content.canonical()
    }

    fn encode(&self, out: &mut Vec<u8>) {
        assert(self.encodable());
        let ghost before = out@;
        push_bytes(out, self.address.0.as_slice());
        self.content.encode(out);
        assert(out@ =~= before + self.canonical());
    }
}

/// An output together with the outpoint that names it. Its hash is the leaf
/// that the accumulator holds for the output.
#[derive(Clone, Copy, Debug, PartialEq, Eq)]
pub struct PointedOutput {
    pub outpoint: OutPoint,
    pub output: Output,
}

impl Canonical for PointedOutput {
    open spec fn encodable(&self) -> bool {
        true
    }

    open spec fn canonical(&self) -> Seq<u8> {
        self.outpoint.key_bytes() + self.output.canonical()
    }

    fn encode(&self, out: &mut Vec<u8>) {
        assert(self.encodable());
        let ghost before = out@;
        self.outpoint.encode(out);
        self.output.encode(out);
        assert(out@ =~= before + self.canonical());
    }
}

/// The accumulator leaf of the output `output` at `outpoint`.
pub open spec fn leaf_hash(outpoint: OutPoint, output: Output) -> hashes::Hash {
    hashes::blake3_digest(PointedOutput { outpoint, output }.canonical())
}

impl PointedOutput {
    /// The accumulator leaf of this output.
    pub fn node_hash(&self) -> (leaf: hashes::Hash)
        ensures
            leaf == leaf_hash(self.outpoint, self.output),
    {
        hashes::hash(self)
    }
}

/// What spent an output.
#[derive(Clone, Copy, Debug, PartialEq, Eq, Hash)]
pub enum InPoint {
    /// Input number `vin` of the transaction `txid`.
    Regular { txid: Txid, vin: u32 },
    /// The withdrawal bundle `m6id`, paid out on the mainchain.
    Withdrawal { m6id: M6id },
}

/// An output that was spent, kept with what spent it so that the spend can
/// be undone.
#[derive(Clone, Copy, Debug, PartialEq, Eq)]
pub struct SpentOutput {
    pub output: Output,
    pub inpoint: InPoint,
}

impl View for SpentOutput {
    type V = SpentOutput;

    open spec fn view(&self) -> SpentOutput {
        *self
    }
}

/// A sum of amounts went over what 64 bits hold.
#[derive(Clone, Copy, Debug, PartialEq, Eq)]
pub struct AmountOverflowError;

/// A difference of amounts went below zero.
#[derive(Clone, Copy, Debug, PartialEq, Eq)]
pub struct AmountUnderflowError;

/// The sum of the amounts that `outputs` carry.
pub open spec fn total_value(outputs: Seq<Output>) -> int
    decreases outputs.len(),
{
    if outputs.len() == 0 {
        0
    } else {
        total_value(outputs.drop_last()) + outputs.last().value()
    }
}

/// A sum of amounts grows with the list.
pub proof fn lemma_total_value_monotonic(outputs: Seq<Output>, n: int)
    requires
        0 <= n <= outputs.len(),
    ensures
        0 <= total_value(outputs.take(n)) <= total_value(outputs),
    decreases outputs.len(),
{
    if n == outputs.len() {
        assert(outputs.take(n) =~= outputs);
        if n > 0 {
            lemma_total_value_monotonic(outputs.drop_last(), n - 1);
            assert(outputs.drop_last().take(n - 1) =~= outputs.drop_last());
        }
    } else {
        lemma_total_value_monotonic(outputs.drop_last(), n);
        assert(outputs.drop_last().take(n) =~= outputs.take(n));
    }
}

/// The sum of the amounts of `outputs`, unless it goes over 64 bits.
pub fn sum_values(outputs: &Vec<Output>) -> (r: Result<Amount, AmountOverflowError>)
    ensures
        r is Ok == (total_value(outputs@) <= u64::MAX),
        r matches Ok(sum) ==> sum == total_value(outputs@),
{
    let mut sum: u64 = 0;
    let mut i: usize = 0;
    while i < outputs.len()
        invariant
            i <= outputs@.len(),
            sum == total_value(outputs@.take(i as int)),
        decreases outputs@.len() - i,
    {
        let value = outputs[i].get_value();
        proof {
            assert(outputs@.take(i + 1).drop_last() =~= outputs@.take(i as int));
            assert(outputs@.take(i + 1).last() == outputs@[i as int]);
            lemma_total_value_monotonic(outputs@, i + 1);
        }
        if value > u64::MAX - sum {
            return Err(AmountOverflowError);
        }
        sum = sum + value;
        i += 1;
    }
    assert(outputs@.take(i as int) =~= outputs@);
    Ok(sum)
}


/// A copy of a list of plain values.
pub fn clone_vec<T: Copy>(items: &Vec<T>) -> (r: Vec<T>)
    ensures
        r@ == items@,
{
    let mut out: Vec<T> = Vec::new();
    let mut i: usize = 0;
    while i < items.len()
        invariant
            i <= items@.len(),
            out@ == items@.take(i as int),
        decreases items@.len() - i,
    {
        out.push(items[i]);
        i += 1;
        assert(out@ =~= items@.take(i as int));
    }
    assert(items@.take(i as int) =~= items@);
    out
}

impl Canonical for (OutPoint, [u8; 32]) {
    open spec fn encodable(&self) -> bool {
        true
    }

    open spec fn canonical(&self) -> Seq<u8> {
        self.0.key_bytes() + self.1@
    }

    fn encode(&self, out: &mut Vec<u8>) {
        assert(self.encodable());
        let ghost before = out@;
        self.0.encode(out);
        push_bytes(out, self.1.as_slice());
        assert(out@ =~= before + self.canonical());
    }
}

/// An inclusion proof of the accumulator: the positions of the leaves that
/// it proves, and the hashes that lead from them to the roots.
#[derive(Debug, PartialEq, Eq)]
pub struct Proof {
    pub targets: Vec<u64>,
    pub hashes: Vec<hashes::Hash>,
}

pub struct ProofView {
    pub targets: Seq<u64>,
    pub hashes: Seq<hashes::Hash>,
}

impl View for Proof {
    type V = ProofView;

    open spec fn view(&self) -> ProofView {
        ProofView { targets: self.targets@, hashes: self.hashes@ }
    }
}

impl Clone for Proof {
    fn clone(&self) -> (r: Self)
        ensures
            r@ == self@,
    {
        Proof { targets: clone_vec(&self.targets), hashes: clone_vec(&self.hashes) }
    }
}

impl Default for Proof {
    fn default() -> (r: Self)
        ensures
            r@.targets.len() == 0,
            r@.hashes.len() == 0,
    {
        Proof { targets: Vec::new(), hashes: Vec::new() }
    }
}

impl Canonical for Proof {
    open spec fn encodable(&self) -> bool {
        self.targets@.len() <= u32::MAX && self.hashes@.len() <= u32::MAX
    }

    open spec fn canonical(&self) -> Seq<u8> {
        hashes::list_canonical(self.targets@) + hashes::list_canonical(self.hashes@)
    }

    fn encode(&self, out: &mut Vec<u8>) {
        assert(self.encodable());
        let ghost before = out@;
        proof {
            assert forall|i: int| 0 <= i < self.targets@.len() implies (
            #[trigger] self.targets@[i]).encodable() by {}
            assert forall|i: int| 0 <= i < self.hashes@.len() implies (
            #[trigger] self.hashes@[i]).encodable() by {}
            hashes::lemma_list_encodable(self.targets@);
            hashes::lemma_list_encodable(self.hashes@);
        }
        hashes::encode_list(&self.targets, out);
        hashes::encode_list(&self.hashes, out);
        assert(out@ =~= before + self.canonical());
    }
}

/// The shielded part of a transaction: the fields that the ledger reads,
/// and the rest as bytes that it carries along. The transaction id and the
/// signatures cover the fields and the bytes alike.
#[derive(Debug, PartialEq, Eq)]
pub struct OrchardBundle {
    /// One nullifier for each shielded note that the bundle spends.
    pub nullifiers: Vec<hashes::Hash>,
    /// One commitment for each shielded note that the bundle creates.
    pub note_commitments: Vec<hashes::Hash>,
    /// What leaves the shielded pool (positive) or enters it (negative).
    pub value_balance: i64,
    /// The root of the note commitment tree that the spends refer to.
    pub anchor: hashes::Hash,
    /// Whether the bundle may spend notes.
    pub spends_enabled: bool,
    /// What else the bundle says without its proof and signatures: the
    /// keys, encrypted notes and value commitments of its actions.
    pub effects: Vec<u8>,
    /// The canonical bytes of the proof and the signatures.
    pub authorization: Vec<u8>,
}

/// The number that stands for a balance in canonical bytes: the balance
/// moved up by two to the power of 63, so that none is negative.
pub open spec fn balance_code(value_balance: i64) -> u64 {
    (value_balance + 0x8000_0000_0000_0000) as u64
}

/// The number that stands for `value_balance` in canonical bytes.
pub fn code_of_balance(value_balance: i64) -> (code: u64)
    ensures
        code == balance_code(value_balance),
{
    if value_balance >= 0 {
        let magnitude: u64 = value_balance as u64;
        magnitude + 0x8000_0000_0000_0000u64
    } else {
        let moved: i64 = value_balance + i64::MAX + 1;
        moved as u64
    }
}

pub struct OrchardBundleView {
    pub nullifiers: Seq<hashes::Hash>,
    pub note_commitments: Seq<hashes::Hash>,
    pub value_balance: i64,
    pub anchor: hashes::Hash,
    pub spends_enabled: bool,
    pub effects: Seq<u8>,
    pub authorization: Seq<u8>,
}

impl OrchardBundleView {
    /// Whether the lists of the bundle are short enough for their length
    /// prefixes.
    pub open spec fn hashable(self) -> bool {
        &&& self.nullifiers.len() <= u32::MAX
        &&& self.note_commitments.len() <= u32::MAX
    }

    /// The bytes that stand for the bundle in a transaction id: whether it
    /// may spend, its balance, its anchor, its nullifiers, its note
    /// commitments, and then the rest. Proof and signatures are left out.
    pub open spec fn committed(self) -> Seq<u8> {
        seq![if self.spends_enabled { 1u8 } else { 0u8 }] + spec_u64_to_le_bytes(
            balance_code(self.value_balance),
        ) + self.anchor@ + hashes::list_canonical(self.nullifiers) + hashes::list_canonical(
            self.note_commitments,
        ) + self.effects
    }
}

/// The canonical bytes of hashes, one after the other, are 32 bytes for
/// each hash.
pub proof fn lemma_concat_hashes(items: Seq<hashes::Hash>)
    ensures
        hashes::concat_canonical(items).len() == 32 * items.len(),
        forall|i: int|
            0 <= i < items.len() ==> hashes::concat_canonical(items).subrange(32 * i, 32 * i + 32)
                == (#[trigger] items[i])@,
    decreases items.len(),
{
    if items.len() > 0 {
        let front = items.drop_last();
        lemma_concat_hashes(front);
        let all = hashes::concat_canonical(items);
        assert(all == hashes::concat_canonical(front) + items.last()@);
        assert forall|i: int| 0 <= i < items.len() implies all.subrange(32 * i, 32 * i + 32)
            == (#[trigger] items[i])@ by {
            if i < front.len() {
                assert(front[i] == items[i]);
                assert(all.subrange(32 * i, 32 * i + 32) =~= hashes::concat_canonical(
                    front,
                ).subrange(32 * i, 32 * i + 32));
            } else {
                assert(all.subrange(32 * i, 32 * i + 32) =~= items.last()@);
            }
        }
    }
}

/// Two lists of hashes whose canonical bytes, each followed by more bytes,
/// are the same bytes: the lists are the same, and so is what follows them.
pub proof fn lemma_hash_list_first(
    a: Seq<hashes::Hash>,
    b: Seq<hashes::Hash>,
    after_a: Seq<u8>,
    after_b: Seq<u8>,
)
    requires
        a.len() <= u32::MAX,
        b.len() <= u32::MAX,
        hashes::list_canonical(a) + after_a == hashes::list_canonical(b) + after_b,
    ensures
        a == b,
        after_a == after_b,
{
    let x = hashes::list_canonical(a) + after_a;
    let y = hashes::list_canonical(b) + after_b;
    lemma_concat_hashes(a);
    lemma_concat_hashes(b);
    lemma_auto_spec_u32_to_from_le_bytes();
    assert(x.subrange(0, 4) =~= spec_u32_to_le_bytes(a.len() as u32));
    assert(y.subrange(0, 4) =~= spec_u32_to_le_bytes(b.len() as u32));
    assert(spec_u32_from_le_bytes(spec_u32_to_le_bytes(a.len() as u32)) == a.len() as u32);
    assert(spec_u32_from_le_bytes(spec_u32_to_le_bytes(b.len() as u32)) == b.len() as u32);
    assert(a.len() == b.len());
    assert forall|i: int| 0 <= i < a.len() implies a[i] == b[i] by {
        assert(x.subrange(4 + 32 * i, 36 + 32 * i) =~= hashes::concat_canonical(a).subrange(
            32 * i,
            32 * i + 32,
        ));
        assert(y.subrange(4 + 32 * i, 36 + 32 * i) =~= hashes::concat_canonical(b).subrange(
            32 * i,
            32 * i + 32,
        ));
        assert(a[i]@ == b[i]@);
        assert(a[i] =~= b[i]);
    }
    assert(a =~= b);
    assert(after_a =~= x.skip(4 + 32 * (a.len() as int)));
    assert(after_b =~= y.skip(4 + 32 * (b.len() as int)));
}

/// The bytes that stand for a bundle in a transaction id hold every field
/// that the ledger reads: two bundles with the same bytes have the same
/// nullifiers, note commitments, balance, anchor and leave to spend, and the
/// same rest.
pub proof fn lemma_committed_binds(a: OrchardBundleView, b: OrchardBundleView)
    requires
        a.hashable(),
        b.hashable(),
        a.committed() == b.committed(),
    ensures
        a.spends_enabled == b.spends_enabled,
        a.value_balance == b.value_balance,
        a.anchor == b.anchor,
        a.nullifiers == b.nullifiers,
        a.note_commitments == b.note_commitments,
        a.effects == b.effects,
{
    let x = a.committed();
    let y = b.committed();
    let tail_a = hashes::list_canonical(a.note_commitments) + a.effects;
    let tail_b = hashes::list_canonical(b.note_commitments) + b.effects;
    let rest_a = hashes::list_canonical(a.nullifiers) + tail_a;
    let rest_b = hashes::list_canonical(b.nullifiers) + tail_b;
    lemma_auto_spec_u64_to_from_le_bytes();
    assert(x[0] == (if a.spends_enabled { 1u8 } else { 0u8 }));
    assert(y[0] == (if b.spends_enabled { 1u8 } else { 0u8 }));
    assert(x.subrange(1, 9) =~= spec_u64_to_le_bytes(balance_code(a.value_balance)));
    assert(y.subrange(1, 9) =~= spec_u64_to_le_bytes(balance_code(b.value_balance)));
    assert(spec_u64_from_le_bytes(spec_u64_to_le_bytes(balance_code(a.value_balance)))
        == balance_code(a.value_balance));
    assert(spec_u64_from_le_bytes(spec_u64_to_le_bytes(balance_code(b.value_balance)))
        == balance_code(b.value_balance));
    assert(a.value_balance == b.value_balance);
    assert(x.subrange(9, 41) =~= a.anchor@);
    assert(y.subrange(9, 41) =~= b.anchor@);
    assert(a.anchor =~= b.anchor);
    assert(x.skip(41) =~= rest_a);
    assert(y.skip(41) =~= rest_b);
    lemma_hash_list_first(a.nullifiers, b.nullifiers, tail_a, tail_b);
    lemma_hash_list_first(a.note_commitments, b.note_commitments, a.effects, b.effects);
}

impl View for OrchardBundle {
    type V = OrchardBundleView;

    open spec fn view(&self) -> OrchardBundleView {
        OrchardBundleView {
            nullifiers: self.nullifiers@,
            note_commitments: self.note_commitments@,
            value_balance: self.value_balance,
            anchor: self.anchor,
            spends_enabled: self.spends_enabled,
            effects: self.effects@,
            authorization: self.authorization@,
        }
    }
}

impl Clone for OrchardBundle {
    fn clone(&self) -> (r: Self)
        ensures
            r@ == self@,
    {
        OrchardBundle {
            nullifiers: clone_vec(&self.nullifiers),
            note_commitments: clone_vec(&self.note_commitments),
            value_balance: self.value_balance,
            anchor: self.anchor,
            spends_enabled: self.spends_enabled,
            effects: clone_vec(&self.effects),
            authorization: clone_vec(&self.authorization),
        }
    }
}

impl OrchardBundle {
    /// Whether the lists of the bundle are short enough for their length
    /// prefixes.
    pub fn is_hashable(&self) -> (r: bool)
        ensures
            r == self@.hashable(),
    {
        self.nullifiers.len() <= u32::MAX as usize && self.note_commitments.len()
            <= u32::MAX as usize
    }

    /// Appends to `out` the bytes that stand for the bundle in a transaction
    /// id.
    pub fn encode_committed(&self, out: &mut Vec<u8>)
        requires
            self@.hashable(),
        ensures
            final(out)@ == old(out)@ + self@.committed(),
    {
        let ghost before = out@;
        out.push(if self.spends_enabled { 1u8 } else { 0u8 });
        push_u64(out, code_of_balance(self.value_balance));
        push_bytes(out, self.anchor.as_slice());
        proof {
            hashes::lemma_list_encodable(self.nullifiers@);
            hashes::lemma_list_encodable(self.note_commitments@);
        }
        hashes::encode_list(&self.nullifiers, out);
        hashes::encode_list(&self.note_commitments, out);
        push_bytes(out, self.effects.as_slice());
        assert(out@ =~= before + self@.committed());
    }
}

/// A transfer of outputs: the outputs it spends, the proof that they are in
/// the accumulator, the outputs it creates, and a shielded part if it has
/// one.
#[derive(Debug, PartialEq, Eq)]
pub struct Transaction {
    /// The outpoints spent, each with the accumulator leaf of its output.
    pub inputs: Vec<(OutPoint, hashes::Hash)>,
    /// The inclusion proof for the leaves of the inputs.
    pub proof: Proof,
    pub outputs: Vec<Output>,
    pub orchard_bundle: Option<OrchardBundle>,
}

pub struct TransactionView {
    pub inputs: Seq<(OutPoint, hashes::Hash)>,
    pub proof: ProofView,
    pub outputs: Seq<Output>,
    pub orchard_bundle: Option<OrchardBundleView>,
}

impl TransactionView {
    /// The bytes that the transaction id is the hash of: inputs, outputs, and
    /// the shielded part without proof and signatures. The inclusion proof is
    /// left out, so that the id outlives a new proof.
    pub open spec fn txid_preimage(self) -> Seq<u8> {
        hashes::list_canonical(self.inputs) + hashes::list_canonical(self.outputs) + (
        match self.orchard_bundle {
            Some(bundle) => bundle.committed(),
            None => Seq::empty(),
        })
    }

    /// The transaction id.
    pub open spec fn txid(self) -> Txid {
        Txid(hashes::blake3_digest(self.txid_preimage()))
    }

    /// The canonical bytes, which signatures are made over: every field, the
    /// inclusion proof among them.
    pub open spec fn canonical(self) -> Seq<u8> {
        hashes::list_canonical(self.inputs) + (hashes::list_canonical(self.proof.targets)
            + hashes::list_canonical(self.proof.hashes)) + hashes::list_canonical(self.outputs) + (
        match self.orchard_bundle {
            Some(bundle) => seq![1u8] + bundle.committed() + bundle.authorization,
            None => seq![0u8],
        })
    }

    /// Whether the transaction id can be computed: the lists of inputs and
    /// of outputs, and those of the shielded part, are short enough for
    /// their length prefixes.
    pub open spec fn hashable(self) -> bool {
        &&& self.inputs.len() <= u32::MAX
        &&& self.outputs.len() <= u32::MAX
        &&& self.orchard_bundle matches Some(bundle) ==> bundle.hashable()
    }

    /// Whether every list is short enough for its length prefix.
    pub open spec fn encodable(self) -> bool {
        &&& self.hashable()
        &&& self.proof.targets.len() <= u32::MAX
        &&& self.proof.hashes.len() <= u32::MAX
    }
}

impl View for Transaction {
    type V = TransactionView;

    open spec fn view(&self) -> TransactionView {
        TransactionView {
            inputs: self.inputs@,
            proof: self.proof@,
            outputs: self.outputs@,
            orchard_bundle: match self.orchard_bundle {
                Some(bundle) => Some(bundle@),
                None => None,
            },
        }
    }
}

impl Clone for Transaction {
    fn clone(&self) -> (r: Self)
        ensures
            r@ == self@,
    {
        Transaction {
            inputs: clone_vec(&self.inputs),
            proof: self.proof.clone(),
            outputs: clone_vec(&self.outputs),
            orchard_bundle: match &self.orchard_bundle {
                Some(bundle) => Some(bundle.clone()),
                None => None,
            },
        }
    }
}

impl Default for Transaction {
    fn default() -> (r: Self)
        ensures
            r@.inputs.len() == 0,
            r@.outputs.len() == 0,
            r@.proof.targets.len() == 0,
            r@.proof.hashes.len() == 0,
            r@.orchard_bundle is None,
    {
        Transaction {
            inputs: Vec::new(),
            proof: Proof::default(),
            outputs: Vec::new(),
            orchard_bundle: None,
        }
    }
}

impl Canonical for Transaction {
    open spec fn encodable(&self) -> bool {
        self@.encodable()
    }

    open spec fn canonical(&self) -> Seq<u8> {
        self@.canonical()
    }

    fn encode(&self, out: &mut Vec<u8>) {
        assert(self.encodable());
        let ghost before = out@;
        hashes::encode_list(&self.inputs, out);
        self.proof.encode(out);
        hashes::encode_list(&self.outputs, out);
        match &self.orchard_bundle {
            Some(bundle) => {
                out.push(1u8);
                bundle.encode_committed(out);
                push_bytes(out, bundle.authorization.as_slice());
            },
            None => {
                out.push(0u8);
            },
        }
        assert(out@ =~= before + self.canonical());
    }
}

impl Transaction {
    /// Whether the transaction id can be computed.
    pub fn is_hashable(&self) -> (r: bool)
        ensures
            r == self@.hashable(),
    {
        self.inputs.len() <= u32::MAX as usize && self.outputs.len() <= u32::MAX as usize && (
        match &self.orchard_bundle {
            Some(bundle) => bundle.is_hashable(),
            None => true,
        })
    }

    /// Whether every list is short enough for its length prefix.
    pub fn is_encodable(&self) -> (r: bool)
        ensures
            r == self@.encodable(),
    {
        self.is_hashable() && self.proof.targets.len() <= u32::MAX as usize
            && self.proof.hashes.len() <= u32::MAX as usize
    }

    /// The transaction id: the hash of inputs, outputs and the shielded part
    /// without its proof and signatures.
    pub fn txid(&self) -> (id: Txid)
        requires
            self@.hashable(),
        ensures
            id == self@.txid(),
    {
        let mut buf: Vec<u8> = Vec::new();
        hashes::encode_list(&self.inputs, &mut buf);
        hashes::encode_list(&self.outputs, &mut buf);
        match &self.orchard_bundle {
            Some(bundle) => {
                bundle.encode_committed(&mut buf);
            },
            None => {},
        }
        assert(buf@ =~= self@.txid_preimage());
        Txid(hashes::blake3_hash(buf.as_slice()))
    }
}


/// A transaction together with the outputs that it spends, in the order of
/// its inputs.
#[derive(Debug, PartialEq, Eq)]
pub struct FilledTransaction {
    pub transaction: Transaction,
    pub spent_utxos: Vec<Output>,
}

pub struct FilledTransactionView {
    pub transaction: TransactionView,
    pub spent_utxos: Seq<Output>,
}

impl View for FilledTransaction {
    type V = FilledTransactionView;

    open spec fn view(&self) -> FilledTransactionView {
        FilledTransactionView { transaction: self.transaction@, spent_utxos: self.spent_utxos@ }
    }
}

impl Clone for FilledTransaction {
    fn clone(&self) -> (r: Self)
        ensures
            r@ == self@,
    {
        FilledTransaction {
            transaction: self.transaction.clone(),
            spent_utxos: clone_vec(&self.spent_utxos),
        }
    }
}

impl FilledTransaction {
    /// The sum of what the spent outputs carry.
    pub fn get_value_in(&self) -> (r: Result<Amount, AmountOverflowError>)
        ensures
            r is Ok == (total_value(self.spent_utxos@) <= u64::MAX),
            r matches Ok(sum) ==> sum == total_value(self.spent_utxos@),
    {
        sum_values(&self.spent_utxos)
    }

    /// The sum of what the created outputs carry.
    pub fn get_value_out(&self) -> (r: Result<Amount, AmountOverflowError>)
        ensures
            r is Ok == (total_value(self.transaction.outputs@) <= u64::MAX),
            r matches Ok(sum) ==> sum == total_value(self.transaction.outputs@),
    {
        sum_values(&self.transaction.outputs)
    }

    /// What is spent beyond what is created, or `None` where more is created
    /// than spent. The shielded part is left out of account.
    pub fn get_fee(&self) -> (r: Result<Option<Amount>, AmountOverflowError>)
        ensures
            r is Ok == (total_value(self.spent_utxos@) <= u64::MAX && total_value(
                self.transaction.outputs@,
            ) <= u64::MAX),
            r matches Ok(fee) ==> fee == (if total_value(self.spent_utxos@) < total_value(
                self.transaction.outputs@,
            ) {
                None
            } else {
                Some(
                    (total_value(self.spent_utxos@) - total_value(
                        self.transaction.outputs@,
                    )) as u64,
                )
            }),
    {
        let value_in = match self.get_value_in() {
            Ok(value) => value,
            Err(error) => {
                return Err(error);
            },
        };
        let value_out = match self.get_value_out() {
            Ok(value) => value,
            Err(error) => {
                return Err(error);
            },
        };
        if value_in < value_out {
            Ok(None)
        } else {
            Ok(Some(value_in - value_out))
        }
    }
}

/// A transaction together with one authorization for each of its inputs, in
/// the order of the inputs.
#[derive(Debug, PartialEq, Eq)]
pub struct AuthorizedTransaction {
    pub transaction: Transaction,
    pub authorizations: Vec<Authorization>,
}

pub struct AuthorizedTransactionView {
    pub transaction: TransactionView,
    pub authorizations: Seq<Authorization>,
}

impl View for AuthorizedTransaction {
    type V = AuthorizedTransactionView;

    open spec fn view(&self) -> AuthorizedTransactionView {
        AuthorizedTransactionView {
            transaction: self.transaction@,
            authorizations: self.authorizations@,
        }
    }
}

impl Clone for AuthorizedTransaction {
    fn clone(&self) -> (r: Self)
        ensures
            r@ == self@,
    {
        AuthorizedTransaction {
            transaction: self.transaction.clone(),
            authorizations: clone_vec(&self.authorizations),
        }
    }
}

/// The inputs of the first `n` transactions, one after the other.
pub open spec fn flat_inputs(transactions: Seq<Transaction>, n: int) -> Seq<(OutPoint, hashes::Hash)>
    decreases n,
{
    if n <= 0 {
        Seq::empty()
    } else {
        flat_inputs(transactions, n - 1) + transactions[n - 1].inputs@
    }
}

/// The number of inputs of all the transactions together.
pub open spec fn total_inputs(transactions: Seq<Transaction>) -> nat {
    flat_inputs(transactions, transactions.len() as int).len()
}

/// The body of a block: the outputs that the block itself creates, its
/// transactions, and the authorizations of all the inputs, in the order of
/// the transactions and their inputs.
#[derive(Debug, PartialEq, Eq)]
pub struct Body {
    pub coinbase: Vec<Output>,
    pub transactions: Vec<Transaction>,
    pub authorizations: Vec<Authorization>,
}

impl Canonical for Body {
    open spec fn encodable(&self) -> bool {
        &&& hashes::list_encodable(self.coinbase@)
        &&& hashes::list_encodable(self.transactions@)
        &&& hashes::list_encodable(self.authorizations@)
    }

    open spec fn canonical(&self) -> Seq<u8> {
        hashes::list_canonical(self.coinbase@) + hashes::list_canonical(self.transactions@)
            + hashes::list_canonical(self.authorizations@)
    }

    fn encode(&self, out: &mut Vec<u8>) {
        assert(self.encodable());
        let ghost before = out@;
        hashes::encode_list(&self.coinbase, out);
        hashes::encode_list(&self.transactions, out);
        hashes::encode_list(&self.authorizations, out);
        assert(out@ =~= before + self.canonical());
    }
}

impl Body {
    /// The bytes that the merkle root is the hash of: the coinbase and the
    /// transactions.
    pub open spec fn merkle_preimage(&self) -> Seq<u8> {
        hashes::list_canonical(self.coinbase@) + hashes::list_canonical(self.transactions@)
    }

    /// The merkle root of the body.
    pub open spec fn spec_merkle_root(&self) -> MerkleRoot {
        MerkleRoot(hashes::blake3_digest(self.merkle_preimage()))
    }

    /// Whether every list of the body is short enough for its length prefix.
    pub fn is_encodable(&self) -> (r: bool)
        ensures
            r == self.encodable(),
    {
        if self.coinbase.len() > u32::MAX as usize || self.transactions.len() > u32::MAX as usize
            || self.authorizations.len() > u32::MAX as usize {
            return false;
        }
        let mut i: usize = 0;
        while i < self.transactions.len()
            invariant
                i <= self.transactions@.len(),
                forall|j: int| 0 <= j < i ==> (#[trigger] self.transactions@[j]).encodable(),
            decreases self.transactions@.len() - i,
        {
            if !self.transactions[i].is_encodable() {
                return false;
            }
            i += 1;
        }
        true
    }

    /// The merkle root of the body: the hash of the coinbase and the
    /// transactions. It stands in the header for the body.
    pub fn compute_merkle_root(&self) -> (root: MerkleRoot)
        requires
            self.encodable(),
        ensures
            root == self.spec_merkle_root(),
    {
        let mut buf: Vec<u8> = Vec::new();
        hashes::encode_list(&self.coinbase, &mut buf);
        hashes::encode_list(&self.transactions, &mut buf);
        assert(buf@ =~= self.merkle_preimage());
        MerkleRoot(hashes::blake3_hash(buf.as_slice()))
    }

    /// The sum of what the coinbase outputs carry.
    pub fn get_coinbase_value(&self) -> (r: Result<Amount, AmountOverflowError>)
        ensures
            r is Ok == (total_value(self.coinbase@) <= u64::MAX),
            r matches Ok(sum) ==> sum == total_value(self.coinbase@),
    {
        sum_values(&self.coinbase)
    }
}

} // verus!
