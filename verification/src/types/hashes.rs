//! Content hashes and the identifiers built from them.

use crate::types::bytes::{push_bytes, push_u32, push_u64};
use vstd::bytes::{spec_u32_to_le_bytes, spec_u64_to_le_bytes};
use vstd::prelude::*;
use vstd::std_specs::cmp::PartialEqSpecImpl;
use vstd::std_specs::convert::FromSpecImpl;

verus! {

pub const BLAKE3_LENGTH: usize = 32;

/// A 32-byte Blake3 digest.
pub type Hash = [u8; 32];

/// The digest that `blake3::hash` gives for `data`.
pub uninterp spec fn blake3_digest(data: Seq<u8>) -> [u8; 32];

/// Calls `blake3::hash`. The digest is a function of the input bytes alone;
/// nothing more is claimed of it than that it is the crate's digest.
#[verifier::external_body]
pub(crate) fn blake3_hash(data: &[u8]) -> (digest: Hash)
    ensures
        digest == blake3_digest(data@),
{
    blake3::hash(data).into()
}

/// A value with one canonical byte encoding, the one that is hashed and signed.
pub trait Canonical {
    /// Whether every length in the value fits the four-byte length prefix
    /// that the encoding gives to a list.
    spec fn encodable(&self) -> bool;

    /// The canonical bytes of the value.
    spec fn canonical(&self) -> Seq<u8>;

    /// Appends the canonical bytes to `out`.
    fn encode(&self, out: &mut Vec<u8>)
        requires
            self.encodable(),
        ensures
            final(out)@ == old(out)@ + self.canonical(),
    ;
}

/// Hashes the canonical bytes of `data`.
pub fn hash<T: Canonical>(data: &T) -> (digest: Hash)
    requires
        data.encodable(),
    ensures
        digest == blake3_digest(data.canonical()),
{
    let mut buf: Vec<u8> = Vec::new();
    data.encode(&mut buf);
    assert(buf@ == data.canonical());
    blake3_hash(buf.as_slice())
}

/// Hashes the canonical bytes of `data`, writing them into `scratch` instead
/// of a fresh buffer. Whatever `scratch` held before is discarded.
pub fn hash_with_scratch_buffer<T: Canonical>(data: &T, scratch: &mut Vec<u8>) -> (digest: Hash)
    requires
        data.encodable(),
    ensures
        digest == blake3_digest(data.canonical()),
        final(scratch)@ == data.canonical(),
{
    scratch.clear();
    data.encode(scratch);
    assert(scratch@ == data.canonical());
    blake3_hash(scratch.as_slice())
}

/// The canonical bytes of the items of a list, one after the other.
pub open spec fn concat_canonical<T: Canonical>(items: Seq<T>) -> Seq<u8>
    decreases items.len(),
{
    if items.len() == 0 {
        Seq::empty()
    } else {
        concat_canonical(items.drop_last()) + items.last().canonical()
    }
}

/// The canonical bytes of a list: the number of items in four little-endian
/// bytes, then the items.
pub open spec fn list_canonical<T: Canonical>(items: Seq<T>) -> Seq<u8> {
    spec_u32_to_le_bytes(items.len() as u32) + concat_canonical(items)
}

/// Whether a list can be encoded: its length fits four bytes and each item
/// can be encoded.
pub open spec fn list_encodable<T: Canonical>(items: Seq<T>) -> bool {
    &&& items.len() <= u32::MAX
    &&& forall|i: int| 0 <= i < items.len() ==> (#[trigger] items[i]).encodable()
}

/// Appends the canonical bytes of a list to `out`: the number of items in
/// four little-endian bytes, then the items.
pub fn encode_list<T: Canonical>(items: &Vec<T>, out: &mut Vec<u8>)
    requires
        list_encodable(items@),
    ensures
        final(out)@ == old(out)@ + list_canonical(items@),
{
    let ghost before = out@;
    push_u32(out, items.len() as u32);
    let ghost prefixed = out@;
    let mut i: usize = 0;
    while i < items.len()
        invariant
            i <= items@.len(),
            list_encodable(items@),
            out@ == prefixed + concat_canonical(items@.take(i as int)),
        decreases items@.len() - i,
    {
        items[i].encode(out);
        proof {
            assert(items@.take(i + 1).drop_last() =~= items@.take(i as int));
            assert(items@.take(i + 1).last() == items@[i as int]);
            assert(out@ =~= prefixed + concat_canonical(items@.take(i + 1)));
        }
        i += 1;
    }
    assert(items@.take(i as int) =~= items@);
    assert(out@ =~= before + list_canonical(items@));
}

/// A list of items that can each be encoded can be encoded where its length
/// fits four bytes.
pub proof fn lemma_list_encodable<T: Canonical>(items: Seq<T>)
    requires
        items.len() <= u32::MAX,
        forall|i: int| 0 <= i < items.len() ==> (#[trigger] items[i]).encodable(),
    ensures
        list_encodable(items),
{
}

impl Canonical for u64 {
    open spec fn encodable(&self) -> bool {
        true
    }

    open spec fn canonical(&self) -> Seq<u8> {
        spec_u64_to_le_bytes(*self)
    }

    fn encode(&self, out: &mut Vec<u8>) {
        assert(self.encodable());
        push_u64(out, *self);
    }
}

impl Canonical for [u8; 32] {
    open spec fn encodable(&self) -> bool {
        true
    }

    open spec fn canonical(&self) -> Seq<u8> {
        self@
    }

    fn encode(&self, out: &mut Vec<u8>) {
        assert(self.encodable());
        push_bytes(out, self.as_slice());
    }
}

} // verus!

verus! {

/// The lower-case hex digit for a value below sixteen.
pub open spec fn hex_digit(n: u8) -> char {
    if n < 10 {
        (48 + n) as u8 as char
    } else {
        (87 + n) as u8 as char
    }
}

/// The lower-case hex rendering of `bytes`, two digits for each byte, the
/// high four bits first.
pub open spec fn hex_string(bytes: Seq<u8>) -> Seq<char> {
    Seq::new(
        2 * bytes.len(),
        |i: int|
            hex_digit(
                if i % 2 == 0 {
                    bytes[i / 2] / 16
                } else {
                    bytes[i / 2] % 16
                },
            ),
    )
}

/// Calls `hex::encode`, which writes each byte as two lower-case hex digits,
/// the high four bits first.
#[verifier::external_body]
pub(crate) fn hex_encode(bytes: &[u8]) -> (s: String)
    ensures
        s@ == hex_string(bytes@),
{
    hex::encode(bytes)
}

/// Whether `c` is a hex digit, of either case.
pub open spec fn is_hex_digit(c: char) -> bool {
    let n = c as u32;
    48 <= n <= 57 || 97 <= n <= 102 || 65 <= n <= 70
}

/// The value of a hex digit.
pub open spec fn hex_value(c: char) -> int {
    let n = c as u32;
    if n <= 57 {
        n - 48
    } else if n >= 97 {
        n - 87
    } else {
        n - 55
    }
}

/// The bytes that hex digits stand for, two digits for each byte, the
/// high four bits first.
pub open spec fn parsed_hex(digits: Seq<char>) -> Seq<u8> {
    Seq::new(
        digits.len() / 2,
        |i: int| (16 * hex_value(digits[2 * i]) + hex_value(digits[2 * i + 1])) as u8,
    )
}

/// Calls `hex::FromHex::from_hex` for 32 bytes, which reads 64 hex digits
/// of either case and refuses everything else.
#[verifier::external_body]
pub(crate) fn hex_decode(text: &str) -> (r: Option<Hash>)
    ensures
        r is Some == (text@.len() == 64 && forall|i: int|
            0 <= i < 64 ==> is_hex_digit(#[trigger] text@[i])),
        r matches Some(bytes) ==> bytes@ == parsed_hex(text@),
{
    <[u8; 32] as hex::FromHex>::from_hex(text).ok()
}

/// The text is not 64 hex digits.
#[derive(Clone, Copy, Debug, PartialEq, Eq)]
pub struct HexError;

/// The hash that 64 hex digits stand for.
pub fn parse_hash(text: &str) -> (r: Result<Hash, HexError>)
    ensures
        r is Ok == (text@.len() == 64 && forall|i: int|
            0 <= i < 64 ==> is_hex_digit(#[trigger] text@[i])),
        r matches Ok(bytes) ==> bytes@ == parsed_hex(text@),
{
    match hex_decode(text) {
        Some(bytes) => Ok(bytes),
        None => Err(HexError),
    }
}

/// The all-zero digest.
pub open spec fn zero_hash() -> Seq<u8> {
    Seq::new(32, |i: int| 0u8)
}

/// Whether two digests hold the same bytes.
pub fn hash_equal(a: &Hash, b: &Hash) -> (r: bool)
    ensures
        r == (a@ == b@),
        r == (*a == *b),
{
    let r = crate::types::bytes::bytes_equal(a.as_slice(), b.as_slice());
    proof {
        if r {
            assert(*a =~= *b);
        }
    }
    r
}

/// The hash that identifies a sidechain block.
#[derive(Clone, Copy, Debug, Eq, Hash, PartialOrd, Ord)]
pub struct BlockHash(pub Hash);

impl PartialEq for BlockHash {
    fn eq(&self, other: &Self) -> (r: bool) {
        hash_equal(&self.0, &other.0)
    }
}

impl PartialEqSpecImpl for BlockHash {
    open spec fn obeys_eq_spec() -> bool {
        true
    }

    open spec fn eq_spec(&self, other: &Self) -> bool {
        *self == *other
    }
}

impl View for BlockHash {
    type V = BlockHash;

    open spec fn view(&self) -> BlockHash {
        *self
    }
}

impl From<Hash> for BlockHash {
    fn from(other: Hash) -> (r: Self) {
        BlockHash(other)
    }
}

impl FromSpecImpl<Hash> for BlockHash {
    open spec fn obeys_from_spec() -> bool {
        true
    }

    open spec fn from_spec(other: Hash) -> Self {
        BlockHash(other)
    }
}

impl core::str::FromStr for BlockHash {
    type Err = HexError;

    fn from_str(text: &str) -> (r: Result<Self, HexError>)
        ensures
            r is Ok == (text@.len() == 64 && forall|i: int|
                0 <= i < 64 ==> is_hex_digit(#[trigger] text@[i])),
            r matches Ok(hash) ==> hash.0@ == parsed_hex(text@),
    {
        BlockHash::from_hex(text)
    }
}

impl BlockHash {
    /// The hash that 64 hex digits stand for.
    pub fn from_hex(text: &str) -> (r: Result<Self, HexError>)
        ensures
            r is Ok == (text@.len() == 64 && forall|i: int|
                0 <= i < 64 ==> is_hex_digit(#[trigger] text@[i])),
            r matches Ok(hash) ==> hash.0@ == parsed_hex(text@),
    {
        match parse_hash(text) {
            Ok(bytes) => Ok(BlockHash(bytes)),
            Err(error) => Err(error),
        }
    }

    /// The hash in lower-case hex.
    pub fn to_string(&self) -> (s: String)
        ensures
            s@ == hex_string(self.0@),
    {
        hex_encode(self.0.as_slice())
    }
}

/// The commitment of a block body to its coinbase and transactions.
#[derive(Clone, Copy, Debug, Eq, Hash, PartialOrd, Ord)]
pub struct MerkleRoot(pub Hash);

impl PartialEq for MerkleRoot {
    fn eq(&self, other: &Self) -> (r: bool) {
        hash_equal(&self.0, &other.0)
    }
}

impl PartialEqSpecImpl for MerkleRoot {
    open spec fn obeys_eq_spec() -> bool {
        true
    }

    open spec fn eq_spec(&self, other: &Self) -> bool {
        *self == *other
    }
}

impl Default for MerkleRoot {
    fn default() -> (r: Self)
        ensures
            r.0@ == zero_hash(),
    {
        let r = MerkleRoot([0u8; 32]);
        assert(r.0@ =~= zero_hash());
        r
    }
}

impl From<Hash> for MerkleRoot {
    fn from(other: Hash) -> (r: Self) {
        MerkleRoot(other)
    }
}

impl FromSpecImpl<Hash> for MerkleRoot {
    open spec fn obeys_from_spec() -> bool {
        true
    }

    open spec fn from_spec(other: Hash) -> Self {
        MerkleRoot(other)
    }
}

impl MerkleRoot {
    /// The root in lower-case hex.
    pub fn to_string(&self) -> (s: String)
        ensures
            s@ == hex_string(self.0@),
    {
        hex_encode(self.0.as_slice())
    }
}

/// The hash that identifies a transaction.
#[derive(Clone, Copy, Debug, Eq, Hash, PartialOrd, Ord)]
pub struct Txid(pub Hash);

impl PartialEq for Txid {
    fn eq(&self, other: &Self) -> (r: bool) {
        hash_equal(&self.0, &other.0)
    }
}

impl PartialEqSpecImpl for Txid {
    open spec fn obeys_eq_spec() -> bool {
        true
    }

    open spec fn eq_spec(&self, other: &Self) -> bool {
        *self == *other
    }
}

impl Default for Txid {
    fn default() -> (r: Self)
        ensures
            r.0@ == zero_hash(),
    {
        let r = Txid([0u8; 32]);
        assert(r.0@ =~= zero_hash());
        r
    }
}

impl View for Txid {
    type V = Txid;

    open spec fn view(&self) -> Txid {
        *self
    }
}

impl From<Hash> for Txid {
    fn from(other: Hash) -> (r: Self) {
        Txid(other)
    }
}

impl FromSpecImpl<Hash> for Txid {
    open spec fn obeys_from_spec() -> bool {
        true
    }

    open spec fn from_spec(other: Hash) -> Self {
        Txid(other)
    }
}

impl core::str::FromStr for Txid {
    type Err = HexError;

    fn from_str(text: &str) -> (r: Result<Self, HexError>)
        ensures
            r is Ok == (text@.len() == 64 && forall|i: int|
                0 <= i < 64 ==> is_hex_digit(#[trigger] text@[i])),
            r matches Ok(hash) ==> hash.0@ == parsed_hex(text@),
    {
        Txid::from_hex(text)
    }
}

impl Txid {
    /// The hash that 64 hex digits stand for.
    pub fn from_hex(text: &str) -> (r: Result<Self, HexError>)
        ensures
            r is Ok == (text@.len() == 64 && forall|i: int|
                0 <= i < 64 ==> is_hex_digit(#[trigger] text@[i])),
            r matches Ok(hash) ==> hash.0@ == parsed_hex(text@),
    {
        match parse_hash(text) {
            Ok(bytes) => Ok(Txid(bytes)),
            Err(error) => Err(error),
        }
    }

    /// The bytes of the hash.
    pub fn as_slice(&self) -> (s: &[u8])
        ensures
            s@ == self.0@,
    {
        self.0.as_slice()
    }

    /// The hash in lower-case hex.
    pub fn to_string(&self) -> (s: String)
        ensures
            s@ == hex_string(self.0@),
    {
        hex_encode(self.0.as_slice())
    }
}

/// The identifier of a withdrawal bundle: the id of the mainchain
/// transaction that pays it out.
#[derive(Clone, Copy, Debug, Eq, Hash)]
pub struct M6id(pub Hash);

impl PartialEq for M6id {
    fn eq(&self, other: &Self) -> (r: bool) {
        hash_equal(&self.0, &other.0)
    }
}

impl PartialEqSpecImpl for M6id {
    open spec fn obeys_eq_spec() -> bool {
        true
    }

    open spec fn eq_spec(&self, other: &Self) -> bool {
        *self == *other
    }
}

} // verus!
