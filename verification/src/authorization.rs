//! Authorizations: who may spend an output, and the checks of the
//! signatures that say so.

use crate::types::bytes::push_bytes;
use crate::types::hashes::{blake3_digest, blake3_hash, Canonical};
use crate::types::transaction::{
    flat_inputs, total_inputs, AuthorizedTransaction, AuthorizedTransactionView, Body, Transaction,
    TransactionView, TransparentAddress,
};
use ed25519_dalek::Signer;
use vstd::prelude::*;

verus! {

/// The say-so for one input: an Ed25519 verifying key and a signature made
/// with its signing key over the canonical bytes of the transaction.
#[derive(Clone, Copy, Debug, PartialEq, Eq)]
pub struct Authorization {
    pub verifying_key: [u8; 32],
    pub signature: [u8; 64],
}

impl Canonical for Authorization {
    open spec fn encodable(&self) -> bool {
        true
    }

    open spec fn canonical(&self) -> Seq<u8> {
        self.verifying_key@ + self.signature@
    }

    fn encode(&self, out: &mut Vec<u8>) {
        assert(self.encodable());
        let ghost before = out@;
        push_bytes(out, self.verifying_key.as_slice());
        push_bytes(out, self.signature.as_slice());
        assert(out@ =~= before + self.canonical());
    }
}


/// An Ed25519 verifying key, as its 32 bytes.
pub type VerifyingKey = [u8; 32];

/// An Ed25519 signature, as its 64 bytes.
pub type Signature = [u8; 64];

/// An Ed25519 signing key, as the 32 bytes of its seed.
#[derive(Clone, Copy, Debug)]
pub struct SigningKey(pub [u8; 32]);

/// The message of each authorization from `start` up to `end`: number `i`
/// signs the message numbered `owners[i]`.
pub open spec fn batch_messages(messages: Seq<Vec<u8>>, owners: Seq<usize>, start: int, end: int) -> Seq<
    Seq<u8>,
> {
    Seq::new((end - start) as nat, |i: int| messages[owners[start + i] as int]@)
}

/// Whether `VerifyingKey::from_bytes` reads a key from `verifying_key`.
pub uninterp spec fn ed25519_key_readable(verifying_key: Seq<u8>) -> bool;

/// Whether `ed25519_dalek::verify_batch` accepts the signatures
/// `signatures` by the keys read from `verifying_keys`, one for each message
/// of `messages`.
pub uninterp spec fn ed25519_batch_valid(
    messages: Seq<Seq<u8>>,
    signatures: Seq<Signature>,
    verifying_keys: Seq<VerifyingKey>,
) -> bool;

/// Whether every one of `verifying_keys` is a key and the signatures
/// `signatures` by these keys verify in one batch, one for each message of
/// `messages`.
pub open spec fn signatures_valid(
    messages: Seq<Seq<u8>>,
    signatures: Seq<Signature>,
    verifying_keys: Seq<VerifyingKey>,
) -> bool {
    &&& forall|i: int|
        0 <= i < verifying_keys.len() ==> ed25519_key_readable((#[trigger] verifying_keys[i])@)
    &&& ed25519_batch_valid(messages, signatures, verifying_keys)
}

/// The signature that `SigningKey::sign` makes over `message` with the key
/// of seed `signing_key`.
pub uninterp spec fn ed25519_signature(signing_key: Seq<u8>, message: Seq<u8>) -> [u8; 64];

/// The verifying key that `SigningKey::verifying_key` gives for the key of
/// seed `signing_key`.
pub uninterp spec fn ed25519_verifying_key(signing_key: Seq<u8>) -> [u8; 32];

/// Calls `ed25519_dalek::verify_batch` on the authorizations from `start` up
/// to `end`, each with the message that `owners` gives it. A verifying key
/// that `VerifyingKey::from_bytes` refuses fails the batch. The verdict is a
/// function of the messages, signatures and keys: the crate draws the
/// batch's random scalars from a transcript of just these.
#[verifier::external_body]
fn verify_batch(
    messages: &Vec<Vec<u8>>,
    owners: &Vec<usize>,
    authorizations: &Vec<Authorization>,
    start: usize,
    end: usize,
) -> (valid: bool)
    requires
        start <= end <= authorizations@.len(),
        owners@.len() == authorizations@.len(),
        forall|i: int| 0 <= i < owners@.len() ==> owners@[i] < messages@.len(),
    ensures
        valid == ({
            let keys = Seq::new(
                (end - start) as nat,
                |i: int| authorizations@[start + i].verifying_key,
            );
            (forall|i: int| 0 <= i < keys.len() ==> ed25519_key_readable((#[trigger] keys[i])@))
                && ed25519_batch_valid(
                batch_messages(messages@, owners@, start as int, end as int),
                Seq::new((end - start) as nat, |i: int| authorizations@[start + i].signature),
                keys,
            )
        }),
{
    let batch = &authorizations[start..end];
    let keys: Result<Vec<_>, _> =
        batch.iter().map(|a| ed25519_dalek::VerifyingKey::from_bytes(&a.verifying_key)).collect();
    let Ok(keys) = keys else { return false };
    let signatures: Vec<_> =
        batch.iter().map(|a| ed25519_dalek::Signature::from_bytes(&a.signature)).collect();
    let messages: Vec<&[u8]> = owners[start..end].iter().map(|k| messages[*k].as_slice()).collect();
    ed25519_dalek::verify_batch(&messages, &signatures, &keys).is_ok()
}

/// Calls `SigningKey::sign` with the key of seed `signing_key`.
#[verifier::external_body]
fn sign_message(signing_key: &SigningKey, message: &[u8]) -> (signature: Signature)
    ensures
        signature == ed25519_signature(signing_key.0@, message@),
{
    ed25519_dalek::SigningKey::from_bytes(&signing_key.0).sign(message).to_bytes()
}

/// Calls `SigningKey::verifying_key` on the key of seed `signing_key`.
#[verifier::external_body]
fn derive_verifying_key(signing_key: &SigningKey) -> (verifying_key: VerifyingKey)
    ensures
        verifying_key == ed25519_verifying_key(signing_key.0@),
{
    ed25519_dalek::SigningKey::from_bytes(&signing_key.0).verifying_key().to_bytes()
}

impl SigningKey {
    /// The verifying key that belongs to this signing key.
    pub fn verifying_key(&self) -> (verifying_key: VerifyingKey)
        ensures
            verifying_key == ed25519_verifying_key(self.0@),
    {
        derive_verifying_key(self)
    }
}

/// The address of a verifying key: the first 20 bytes of its Blake3 hash.
pub open spec fn address_of(verifying_key: Seq<u8>) -> Seq<u8> {
    blake3_digest(verifying_key)@.take(20)
}

/// The address of `verifying_key`.
pub fn get_address(verifying_key: &VerifyingKey) -> (address: TransparentAddress)
    ensures
        address.0@ == address_of(verifying_key@),
{
    let digest = blake3_hash(verifying_key.as_slice());
    let mut address = [0u8; 20];
    let mut i: usize = 0;
    while i < 20
        invariant
            i <= 20,
            forall|j: int| 0 <= j < i ==> address@[j] == digest@[j],
        decreases 20 - i,
    {
        address[i] = digest[i];
        i += 1;
    }
    assert(address@ =~= address_of(verifying_key@));
    TransparentAddress(address)
}

impl Authorization {
    /// The address that this authorization speaks for.
    pub fn get_address(&self) -> (address: TransparentAddress)
        ensures
            address.0@ == address_of(self.verifying_key@),
    {
        get_address(&self.verifying_key)
    }
}


/// Why an authorization, or the making of one, is refused.
#[derive(Clone, Copy, Debug, PartialEq, Eq)]
pub enum Error {
    /// A transaction has a list too long to be encoded.
    BorshSerialize,
    /// A signature does not verify under its key.
    DalekError,
    NotEnoughAuthorizations,
    TooManyAuthorizations,
    /// The zero-knowledge proof of a shielded part does not verify.
    OrchardProof,
    /// The binding signature of a shielded part does not verify.
    OrchardSignature,
    /// The signing key does not belong to the address.
    WrongKeyForAddress { address: TransparentAddress, hash_verifying_key: TransparentAddress },
}

/// What the checks of the shielded part of one transaction came to: the
/// binding signature over the transaction id first, then the proof.
#[derive(Clone, Copy, Debug, PartialEq, Eq)]
pub enum OrchardVerdict {
    Valid,
    InvalidSignature,
    InvalidProof,
}

/// The verdict on transaction number `k`; a transaction that has none counts
/// as one whose proof does not verify.
pub open spec fn verdict_at(verdicts: Seq<OrchardVerdict>, k: int) -> OrchardVerdict {
    if 0 <= k < verdicts.len() {
        verdicts[k]
    } else {
        OrchardVerdict::InvalidProof
    }
}

/// What the shielded part of `transaction` comes to under `verdict`: a
/// transaction without shielded part passes whatever the verdict.
pub open spec fn spec_verify_orchard(transaction: TransactionView, verdict: OrchardVerdict) -> Result<
    (),
    Error,
> {
    if transaction.orchard_bundle is None {
        Ok(())
    } else {
        match verdict {
            OrchardVerdict::Valid => Ok(()),
            OrchardVerdict::InvalidSignature => Err(Error::OrchardSignature),
            OrchardVerdict::InvalidProof => Err(Error::OrchardProof),
        }
    }
}

/// Checks the shielded part of `transaction`, of which `verdict` says how
/// its signature and proof fared.
pub fn verify_orchard(transaction: &Transaction, verdict: OrchardVerdict) -> (r: Result<(), Error>)
    ensures
        r == spec_verify_orchard(transaction@, verdict),
{
    match &transaction.orchard_bundle {
        None => Ok(()),
        Some(_) => match verdict {
            OrchardVerdict::Valid => Ok(()),
            OrchardVerdict::InvalidSignature => Err(Error::OrchardSignature),
            OrchardVerdict::InvalidProof => Err(Error::OrchardProof),
        },
    }
}

/// What checking an authorized transaction comes to: first the shielded
/// part, then whether the transaction can be encoded, then all the
/// signatures in one batch, each over the canonical bytes of the
/// transaction.
pub open spec fn spec_verify_authorized_transaction(
    transaction: AuthorizedTransactionView,
    verdict: OrchardVerdict,
) -> Result<(), Error> {
    let n = transaction.authorizations.len();
    if spec_verify_orchard(transaction.transaction, verdict) is Err {
        spec_verify_orchard(transaction.transaction, verdict)
    } else if !transaction.transaction.encodable() {
        Err(Error::BorshSerialize)
    } else if !signatures_valid(
        Seq::new(n, |i: int| transaction.transaction.canonical()),
        Seq::new(n, |i: int| transaction.authorizations[i].signature),
        Seq::new(n, |i: int| transaction.authorizations[i].verifying_key),
    ) {
        Err(Error::DalekError)
    } else {
        Ok(())
    }
}

/// Checks the shielded part and the signatures of an authorized
/// transaction.
pub fn verify_authorized_transaction(
    transaction: &AuthorizedTransaction,
    verdict: OrchardVerdict,
) -> (r: Result<(), Error>)
    ensures
        r == spec_verify_authorized_transaction(transaction@, verdict),
{
    match verify_orchard(&transaction.transaction, verdict) {
        Ok(()) => {},
        Err(error) => {
            return Err(error);
        },
    }
    if !transaction.transaction.is_encodable() {
        return Err(Error::BorshSerialize);
    }
    let mut bytes: Vec<u8> = Vec::new();
    transaction.transaction.encode(&mut bytes);
    assert(bytes@ =~= transaction@.transaction.canonical());
    let mut messages: Vec<Vec<u8>> = Vec::new();
    messages.push(bytes);
    let n = transaction.authorizations.len();
    let mut owners: Vec<usize> = Vec::new();
    while owners.len() < n
        invariant
            owners@.len() <= n,
            forall|i: int| 0 <= i < owners@.len() ==> owners@[i] == 0,
        decreases n - owners@.len(),
    {
        owners.push(0);
    }
    let valid = verify_batch(&messages, &owners, &transaction.authorizations, 0, n);
    proof {
        assert(batch_messages(messages@, owners@, 0, n as int) =~= Seq::new(
            n as nat,
            |i: int| transaction@.transaction.canonical(),
        ));
        assert(Seq::new((n - 0) as nat, |i: int| transaction.authorizations@[0 + i].signature)
            =~= Seq::new(n as nat, |i: int| transaction@.authorizations[i].signature));
        assert(Seq::new((n - 0) as nat, |i: int| transaction.authorizations@[0 + i].verifying_key)
            =~= Seq::new(n as nat, |i: int| transaction@.authorizations[i].verifying_key));
    }
    if valid {
        Ok(())
    } else {
        Err(Error::DalekError)
    }
}

/// The number of signatures that are verified in one batch.
pub const CHUNK_SIZE: usize = 16384;

/// For each input of the first `n` transactions, in order, the number of
/// the transaction that it belongs to.
pub open spec fn flat_owners(transactions: Seq<Transaction>, n: int) -> Seq<usize>
    decreases n,
{
    if n <= 0 {
        Seq::empty()
    } else {
        flat_owners(transactions, n - 1) + Seq::new(
            transactions[n - 1].inputs@.len(),
            |i: int| (n - 1) as usize,
        )
    }
}

/// There is one owner for each input, and each is one of the transactions.
pub proof fn lemma_flat_owners(transactions: Seq<Transaction>, n: int)
    requires
        0 <= n <= transactions.len(),
        transactions.len() <= usize::MAX,
    ensures
        flat_owners(transactions, n).len() == flat_inputs(transactions, n).len(),
        forall|i: int|
            0 <= i < flat_owners(transactions, n).len() ==> 0 <= #[trigger] flat_owners(
                transactions,
                n,
            )[i] < n,
    decreases n,
{
    if n > 0 {
        lemma_flat_owners(transactions, n - 1);
    }
}

/// The first failure among the shielded parts of the first `n`
/// transactions, if there is one.
pub open spec fn first_orchard_failure(
    transactions: Seq<Transaction>,
    verdicts: Seq<OrchardVerdict>,
    n: int,
) -> Option<Error>
    decreases n,
{
    if n <= 0 {
        None
    } else if first_orchard_failure(transactions, verdicts, n - 1) is Some {
        first_orchard_failure(transactions, verdicts, n - 1)
    } else {
        match spec_verify_orchard(transactions[n - 1]@, verdict_at(verdicts, n - 1)) {
            Ok(()) => None,
            Err(error) => Some(error),
        }
    }
}

/// Whether the authorizations from `start` up to `end` verify in one batch,
/// each over the canonical bytes of the transaction that owns its input.
pub open spec fn batch_valid(body: Body, start: int, end: int) -> bool {
    let owners = flat_owners(body.transactions@, body.transactions@.len() as int);
    signatures_valid(
        Seq::new((end - start) as nat, |i: int| body.transactions@[owners[start + i] as int]@.canonical()),
        Seq::new((end - start) as nat, |i: int| body.authorizations@[start + i].signature),
        Seq::new((end - start) as nat, |i: int| body.authorizations@[start + i].verifying_key),
    )
}

/// Whether the authorizations from `start` on verify, taken in batches of
/// 16384.
pub open spec fn batches_valid(body: Body, start: int) -> bool
    decreases body.authorizations@.len() - start,
{
    let n = body.authorizations@.len() as int;
    if start < 0 || start >= n {
        true
    } else {
        let end = if start + 16384 < n {
            start + 16384
        } else {
            n
        };
        batch_valid(body, start, end) && batches_valid(body, end)
    }
}

/// What checking the authorizations of a body comes to. First the shielded
/// parts, transaction by transaction. Then there must be as many
/// authorizations as inputs. Then, unless there are none, every
/// transaction must be one that can be encoded, and the signatures must
/// verify, each over the canonical bytes of the transaction that owns its
/// input.
pub open spec fn spec_verify_authorizations(body: Body, verdicts: Seq<OrchardVerdict>) -> Result<
    (),
    Error,
> {
    let transactions = body.transactions@;
    let n = transactions.len() as int;
    match first_orchard_failure(transactions, verdicts, n) {
        Some(error) => Err(error),
        None => if body.authorizations@.len() < total_inputs(transactions) {
            Err(Error::NotEnoughAuthorizations)
        } else if body.authorizations@.len() > total_inputs(transactions) {
            Err(Error::TooManyAuthorizations)
        } else if total_inputs(transactions) == 0 {
            Ok(())
        } else if exists|k: int| 0 <= k < n && !(#[trigger] transactions[k]).encodable() {
            Err(Error::BorshSerialize)
        } else if !batches_valid(body, 0) {
            Err(Error::DalekError)
        } else {
            Ok(())
        },
    }
}

/// Checks the shielded parts and the signatures of a body. `verdicts` holds
/// for each transaction how the signature and proof of its shielded part
/// fared.
#[verifier::loop_isolation(false)]
pub fn verify_authorizations(body: &Body, verdicts: &Vec<OrchardVerdict>) -> (r: Result<
    (),
    Error,
>)
    ensures
        r == spec_verify_authorizations(*body, verdicts@),
{
    let count = body.transactions.len();
    let mut k: usize = 0;
    while k < count
        invariant
            k <= count == body.transactions@.len(),
            first_orchard_failure(body.transactions@, verdicts@, k as int) is None,
        decreases count - k,
    {
        let verdict = if k < verdicts.len() {
            verdicts[k]
        } else {
            OrchardVerdict::InvalidProof
        };
        match verify_orchard(&body.transactions[k], verdict) {
            Ok(()) => {},
            Err(error) => {
                proof {
                    lemma_orchard_failure_stays(body.transactions@, verdicts@, k + 1, count as int);
                }
                return Err(error);
            },
        }
        k += 1;
    }
    let mut owners: Vec<usize> = Vec::new();
    let mut k: usize = 0;
    while k < count
        invariant
            k <= count == body.transactions@.len(),
            owners@ == flat_owners(body.transactions@, k as int),
        decreases count - k,
    {
        let inputs = body.transactions[k].inputs.len();
        let ghost before = owners@;
        let mut j: usize = 0;
        while j < inputs
            invariant
                j <= inputs,
                owners@ == before + Seq::new(j as nat, |i: int| k),
            decreases inputs - j,
        {
            owners.push(k);
            j += 1;
            assert(owners@ =~= before + Seq::new(j as nat, |i: int| k));
        }
        k += 1;
    }
    proof {
        lemma_flat_owners(body.transactions@, count as int);
    }
    let required = owners.len();
    if body.authorizations.len() < required {
        return Err(Error::NotEnoughAuthorizations);
    }
    if body.authorizations.len() > required {
        return Err(Error::TooManyAuthorizations);
    }
    if required == 0 {
        return Ok(());
    }
    let mut messages: Vec<Vec<u8>> = Vec::new();
    let mut k: usize = 0;
    while k < count
        invariant
            k <= count == body.transactions@.len(),
            messages@.len() == k,
            forall|j: int| 0 <= j < k ==> (#[trigger] body.transactions@[j]).encodable(),
            forall|j: int|
                0 <= j < k ==> (#[trigger] messages@[j])@ == body.transactions@[j]@.canonical(),
        decreases count - k,
    {
        if !body.transactions[k].is_encodable() {
            return Err(Error::BorshSerialize);
        }
        let mut bytes: Vec<u8> = Vec::new();
        body.transactions[k].encode(&mut bytes);
        assert(bytes@ =~= body.transactions@[k as int]@.canonical());
        messages.push(bytes);
        k += 1;
    }
    let n = body.authorizations.len();
    let mut start: usize = 0;
    while start < n
        invariant
            start <= n == body.authorizations@.len(),
            n == owners@.len(),
            owners@ == flat_owners(body.transactions@, body.transactions@.len() as int),
            messages@.len() == body.transactions@.len(),
            forall|i: int| 0 <= i < owners@.len() ==> 0 <= #[trigger] owners@[i] < messages@.len(),
            forall|j: int|
                0 <= j < messages@.len() ==> (#[trigger] messages@[j])@
                    == body.transactions@[j]@.canonical(),
            batches_valid(*body, 0) == batches_valid(*body, start as int),
        decreases n - start,
    {
        let end = if n - start > CHUNK_SIZE {
            start + CHUNK_SIZE
        } else {
            n
        };
        let valid = verify_batch(&messages, &owners, &body.authorizations, start, end);
        proof {
            assert(batch_messages(messages@, owners@, start as int, end as int) =~= Seq::new(
                (end - start) as nat,
                |i: int| body.transactions@[owners@[start + i] as int]@.canonical(),
            ));
            assert(valid == batch_valid(*body, start as int, end as int));
        }
        if !valid {
            return Err(Error::DalekError);
        }
        start = end;
    }
    Ok(())
}

/// Once a shielded part has failed, looking at more transactions does not
/// change which failure comes first.
pub proof fn lemma_orchard_failure_stays(
    transactions: Seq<Transaction>,
    verdicts: Seq<OrchardVerdict>,
    n: int,
    m: int,
)
    requires
        0 <= n <= m,
        first_orchard_failure(transactions, verdicts, n) is Some,
    ensures
        first_orchard_failure(transactions, verdicts, m) == first_orchard_failure(
            transactions,
            verdicts,
            n,
        ),
    decreases m - n,
{
    if n < m {
        lemma_orchard_failure_stays(transactions, verdicts, n, m - 1);
    }
}

impl Authorization {
    /// Checks the shielded part and the signatures of an authorized
    /// transaction.
    pub fn verify_transaction(transaction: &AuthorizedTransaction, verdict: OrchardVerdict) -> (r:
        Result<(), Error>)
        ensures
            r == spec_verify_authorized_transaction(transaction@, verdict),
    {
        verify_authorized_transaction(transaction, verdict)
    }

    /// Checks the shielded parts and the signatures of a body.
    pub fn verify_body(body: &Body, verdicts: &Vec<OrchardVerdict>) -> (r: Result<(), Error>)
        ensures
            r == spec_verify_authorizations(*body, verdicts@),
    {
        verify_authorizations(body, verdicts)
    }
}

/// Signs the canonical bytes of `transaction`.
pub fn sign(signing_key: &SigningKey, transaction: &Transaction) -> (r: Result<Signature, Error>)
    ensures
        r == (if transaction@.encodable() {
            Ok(ed25519_signature(signing_key.0@, transaction@.canonical()))
        } else {
            Err(Error::BorshSerialize)
        }),
{
    if !transaction.is_encodable() {
        return Err(Error::BorshSerialize);
    }
    let mut bytes: Vec<u8> = Vec::new();
    transaction.encode(&mut bytes);
    assert(bytes@ =~= transaction@.canonical());
    Ok(sign_message(signing_key, bytes.as_slice()))
}

/// Whether the signing key of each of the first `n` pairs belongs to the
/// address of the pair.
pub open spec fn keys_match(pairs: Seq<(TransparentAddress, SigningKey)>, n: int) -> bool {
    forall|i: int|
        0 <= i < n ==> (#[trigger] pairs[i]).0.0@ == address_of(
            ed25519_verifying_key(pairs[i].1.0@)@,
        )
}

/// Makes the authorizations of `transaction`: one by each signing key, over
/// the canonical bytes of the transaction. Each key must belong to the
/// address that comes with it; the first that does not is reported, whatever
/// else holds. Where all belong and there is something to sign, a
/// transaction that cannot be encoded is refused.
#[verifier::loop_isolation(false)]
pub fn authorize(
    addresses_signing_keys: &Vec<(TransparentAddress, SigningKey)>,
    transaction: Transaction,
) -> (r: Result<AuthorizedTransaction, Error>)
    ensures
        r is Ok <==> keys_match(addresses_signing_keys@, addresses_signing_keys@.len() as int) && (
        transaction@.encodable() || addresses_signing_keys@.len() == 0),
        r matches Ok(authorized) ==> {
            &&& authorized.transaction == transaction
            &&& authorized.authorizations@.len() == addresses_signing_keys@.len()
            &&& forall|i: int|
                0 <= i < addresses_signing_keys@.len() ==> #[trigger] authorized.authorizations@[i]
                    == (Authorization {
                    verifying_key: ed25519_verifying_key(addresses_signing_keys@[i].1.0@),
                    signature: ed25519_signature(
                        addresses_signing_keys@[i].1.0@,
                        transaction@.canonical(),
                    ),
                })
        },
        r matches Err(Error::WrongKeyForAddress { .. }) <==> !keys_match(
            addresses_signing_keys@,
            addresses_signing_keys@.len() as int,
        ),
        r matches Err(Error::WrongKeyForAddress { address, hash_verifying_key }) ==> exists|i: int|
            {
                &&& 0 <= i < addresses_signing_keys@.len()
                &&& keys_match(addresses_signing_keys@, i)
                &&& address == (#[trigger] addresses_signing_keys@[i]).0
                &&& hash_verifying_key.0@ == address_of(
                    ed25519_verifying_key(addresses_signing_keys@[i].1.0@)@,
                )
                &&& address != hash_verifying_key
            },
        r matches Err(Error::BorshSerialize) ==> !transaction@.encodable(),
        r is Err ==> r matches Err(Error::BorshSerialize) || r matches Err(
            Error::WrongKeyForAddress { .. },
        ),
{
    let count = addresses_signing_keys.len();
    let mut verifying_keys: Vec<VerifyingKey> = Vec::new();
    let mut i: usize = 0;
    while i < count
        invariant
            i <= count,
            count == addresses_signing_keys@.len(),
            keys_match(addresses_signing_keys@, i as int),
            verifying_keys@.len() == i,
            forall|j: int|
                0 <= j < i ==> #[trigger] verifying_keys@[j] == ed25519_verifying_key(
                    addresses_signing_keys@[j].1.0@,
                ),
        decreases count - i,
    {
        let address = addresses_signing_keys[i].0;
        let verifying_key = addresses_signing_keys[i].1.verifying_key();
        let hash_verifying_key = get_address(&verifying_key);
        if !address.same(&hash_verifying_key) {
            proof {
                assert(address.0@ != hash_verifying_key.0@) by {
                    if address.0@ == hash_verifying_key.0@ {
                        assert(address.0 =~= hash_verifying_key.0);
                    }
                }
                assert(!keys_match(addresses_signing_keys@, count as int)) by {
                    assert(addresses_signing_keys@[i as int].0.0@ != address_of(
                        ed25519_verifying_key(addresses_signing_keys@[i as int].1.0@)@,
                    ));
                }
            }
            return Err(Error::WrongKeyForAddress { address, hash_verifying_key });
        }
        verifying_keys.push(verifying_key);
        i += 1;
    }
    let mut authorizations: Vec<Authorization> = Vec::new();
    if count == 0 {
        return Ok(AuthorizedTransaction { transaction, authorizations });
    }
    if !transaction.is_encodable() {
        return Err(Error::BorshSerialize);
    }
    let mut bytes: Vec<u8> = Vec::new();
    transaction.encode(&mut bytes);
    assert(bytes@ =~= transaction@.canonical());
    let mut k: usize = 0;
    while k < count
        invariant
            k <= count,
            authorizations@.len() == k,
            forall|j: int|
                0 <= j < k ==> #[trigger] authorizations@[j] == (Authorization {
                    verifying_key: ed25519_verifying_key(addresses_signing_keys@[j].1.0@),
                    signature: ed25519_signature(
                        addresses_signing_keys@[j].1.0@,
                        transaction@.canonical(),
                    ),
                }),
        decreases count - k,
    {
        let signature = sign_message(&addresses_signing_keys[k].1, bytes.as_slice());
        authorizations.push(Authorization { verifying_key: verifying_keys[k], signature });
        k += 1;
    }
    Ok(AuthorizedTransaction { transaction, authorizations })
}

} // verus!
