//! Transactions that others build and the wallet signs.
use crate::error::{joined, BotError, ErrorKind, ErrorView};
use crate::pubkey::same_bytes;
use crate::wallet::WalletManager;
use solana_sdk::message::VersionedMessage;
use solana_sdk::signature::Signature;
use solana_sdk::transaction::VersionedTransaction;
use vstd::prelude::*;

verus! {

/// What a transaction holds: the keys of its accounts, the bytes of its message, and its
/// signatures.
#[derive(Debug)]
pub struct TransactionParts {
    pub keys: Vec<[u8; 32]>,
    pub message: Vec<u8>,
    pub signatures: Vec<[u8; 64]>,
}

pub open spec fn array_views<const N: usize>(arrays: Seq<[u8; N]>) -> Seq<Seq<u8>> {
    arrays.map_values(|a: [u8; N]| a@)
}

/// What `bincode::deserialize` makes of bytes as a `solana_sdk` `VersionedTransaction`: its
/// static account keys, its serialized message and its signatures; or the text of the error.
pub uninterp spec fn parts_of_transaction(bytes: Seq<u8>) -> Result<
    (Seq<Seq<u8>>, Seq<u8>, Seq<Seq<u8>>),
    Seq<char>,
>;

/// What `bincode::serialize` makes of a `solana_sdk` `VersionedTransaction` with these
/// signatures and the message of these bytes; or the text of the error.
pub uninterp spec fn bytes_of_transaction(signatures: Seq<Seq<u8>>, message: Seq<u8>) -> Result<
    Seq<u8>,
    Seq<char>,
>;

/// `bincode::deserialize` to a `VersionedTransaction`, taken apart: the parts, or the text of
/// the error, depend on the bytes alone.
#[verifier::external_body]
fn decode_transaction(bytes: &Vec<u8>) -> (r: Result<TransactionParts, String>)
    ensures
        match r {
            Ok(parts) => parts_of_transaction(bytes@) == Ok::<
                (Seq<Seq<u8>>, Seq<u8>, Seq<Seq<u8>>),
                Seq<char>,
            >((array_views(parts.keys@), parts.message@, array_views(parts.signatures@))),
            Err(e) => parts_of_transaction(bytes@) == Err::<
                (Seq<Seq<u8>>, Seq<u8>, Seq<Seq<u8>>),
                Seq<char>,
            >(e@),
        },
{
    match bincode::deserialize::<VersionedTransaction>(bytes) {
        Ok(tx) => Ok(
            TransactionParts {
                keys: tx.message.static_account_keys().iter().map(|k| k.to_bytes()).collect(),
                message: tx.message.serialize(),
                signatures: tx.signatures.iter().map(|s| <[u8; 64]>::from(*s)).collect(),
            },
        ),
        Err(e) => Err(e.to_string()),
    }
}

/// Whether bytes hold the transaction that they were made of, if its message was that of a
/// transaction with as many signatures.
pub open spec fn reads_back(
    message: Seq<u8>,
    signatures: Seq<Seq<u8>>,
    made: Result<Vec<u8>, String>,
) -> bool {
    forall|read: Seq<u8>|
        match #[trigger] parts_of_transaction(read) {
            Ok((keys, of_read, before)) => of_read == message && before.len() == signatures.len()
                ==> made is Ok && parts_of_transaction(made->Ok_0@) == Ok::<
                (Seq<Seq<u8>>, Seq<u8>, Seq<Seq<u8>>),
                Seq<char>,
            >((keys, message, signatures)),
            Err(_) => true,
        }
}

/// `bincode::serialize` of a `VersionedTransaction` put together from signatures and the bytes
/// of a message: the bytes, or the text of the error, depend on these alone. Where the message is
/// that of a transaction that was read, and there are as many signatures as it had, there is no
/// error, and `bincode::deserialize` reads from the bytes the same accounts, the same message and
/// the signatures given.
#[verifier::external_body]
fn encode_transaction(signatures: &Vec<[u8; 64]>, message: &Vec<u8>) -> (r: Result<
    Vec<u8>,
    String,
>)
    ensures
        match r {
            Ok(bytes) => bytes_of_transaction(array_views(signatures@), message@) == Ok::<
                Seq<u8>,
                Seq<char>,
            >(bytes@),
            Err(e) => bytes_of_transaction(array_views(signatures@), message@) == Err::<
                Seq<u8>,
                Seq<char>,
            >(e@),
        },
        reads_back(message@, array_views(signatures@), r),
{
    match bincode::deserialize::<VersionedMessage>(message) {
        Ok(message) => {
            let signatures = signatures.iter().map(|s| Signature::from(*s)).collect();
            let tx = VersionedTransaction { signatures, message };
            bincode::serialize(&tx).map_err(|e| e.to_string())
        },
        Err(e) => Err(e.to_string()),
    }
}

/// The first place from `from` on that holds `key`.
pub open spec fn key_place(keys: Seq<Seq<u8>>, key: Seq<u8>, from: int) -> Option<int>
    decreases keys.len() - from,
{
    if from < 0 || from >= keys.len() {
        None
    } else if keys[from] == key {
        Some(from)
    } else {
        key_place(keys, key, from + 1)
    }
}

/// The first place that holds the wallet's address.
pub open spec fn signer_place(keys: Seq<Seq<u8>>, keypair: Seq<u8>) -> Option<int> {
    key_place(keys, crate::wallet::keypair_address(keypair), 0)
}

fn find_signer(keys: &Vec<[u8; 32]>, wallet: &WalletManager) -> (r: Option<usize>)
    ensures
        match r {
            Some(i) => signer_place(array_views(keys@), wallet@) == Some(i as int),
            None => signer_place(array_views(keys@), wallet@) == None::<int>,
        },
{
    let address = wallet.get_address();
    let ghost all = array_views(keys@);
    let mut i: usize = 0;
    while i < keys.len()
        invariant
            i <= keys@.len(),
            all == array_views(keys@),
            address@ == crate::wallet::keypair_address(wallet@),
            signer_place(all, wallet@) == key_place(all, address@, i as int),
        decreases keys@.len() - i,
    {
        assert(all[i as int] == keys@[i as int]@);
        if same_bytes(&keys[i], &address.bytes) {
            return Some(i);
        }
        i = i + 1;
    }
    None
}

pub open spec fn trading_error(detail: Seq<char>) -> ErrorView {
    ErrorView { kind: ErrorKind::Trading, detail }
}

/// The signatures with the wallet's own in its place; none where the wallet is not among the
/// accounts.
pub open spec fn signed(
    keypair: Seq<u8>,
    keys: Seq<Seq<u8>>,
    message: Seq<u8>,
    signatures: Seq<Seq<u8>>,
) -> Option<Seq<Seq<u8>>> {
    match signer_place(keys, keypair) {
        Some(i) => Some(
            signatures.update(i, crate::wallet::message_signature(keypair, message)),
        ),
        None => None,
    }
}

/// Signs a transaction that has been taken apart, in the wallet's place among its signatures.
pub fn sign_parts(wallet: &WalletManager, parts: TransactionParts) -> (r: Result<
    TransactionParts,
    BotError,
>)
    requires
        signer_place(array_views(parts.keys@), wallet@) matches Some(i) ==> i
            < parts.signatures@.len(),
    ensures
        match signed(
            wallet@,
            array_views(parts.keys@),
            parts.message@,
            array_views(parts.signatures@),
        ) {
            Some(signatures) => r is Ok && r->Ok_0.keys == parts.keys && r->Ok_0.message
                == parts.message && array_views(r->Ok_0.signatures@) == signatures,
            None => r is Err && r->Err_0@ == trading_error(
                "Wallet pubkey not found in transaction account keys"@,
            ),
        },
{
    match find_signer(&parts.keys, wallet) {
        None => Err(
            BotError::Trading("Wallet pubkey not found in transaction account keys".to_owned()),
        ),
        Some(i) => {
            let signature: [u8; 64] = wallet.sign(&parts.message);
            let ghost before = array_views(parts.signatures@);
            let mut parts = parts;
            parts.signatures.set(i, signature);
            assert(array_views(parts.signatures@) =~= before.update(i as int, signature@));
            Ok(parts)
        },
    }
}

/// The signed transaction that bytes of an unsigned one give.
pub open spec fn signed_transaction(keypair: Seq<u8>, bytes: Seq<u8>) -> Result<
    Seq<u8>,
    Seq<char>,
> {
    match parts_of_transaction(bytes) {
        Err(e) => Err("Failed to deserialize transaction: "@ + e),
        Ok((keys, message, signatures)) => match signer_place(keys, keypair) {
            None => Err("Wallet pubkey not found in transaction account keys"@),
            Some(i) => if i >= signatures.len() {
                Err("Wallet is not among the signers of the transaction"@)
            } else {
                match bytes_of_transaction(
                    signatures.update(i, crate::wallet::message_signature(keypair, message)),
                    message,
                ) {
                    Ok(bytes) => Ok(bytes),
                    Err(e) => Err("Failed to serialize transaction: "@ + e),
                }
            },
        },
    }
}

/// Whether a transaction is the signed form of another: it has the same accounts and the same
/// message, and its signatures differ in the wallet's own alone.
pub open spec fn is_signed_form(keypair: Seq<u8>, unsigned: Seq<u8>, tx: Seq<u8>) -> bool {
    parts_of_transaction(unsigned) matches Ok((keys, message, signatures))
        && parts_of_transaction(tx) == Ok::<(Seq<Seq<u8>>, Seq<u8>, Seq<Seq<u8>>), Seq<char>>(
        (keys, message, signed(keypair, keys, message, signatures)->0),
    )
}

/// Whether the wallet can sign the transaction that the bytes hold.
pub open spec fn can_sign(keypair: Seq<u8>, bytes: Seq<u8>) -> bool {
    parts_of_transaction(bytes) matches Ok((keys, message, signatures)) && signer_place(
        keys,
        keypair,
    ) matches Some(i) && i < signatures.len()
}

/// Signs a transaction.
pub fn sign_transaction(wallet: &WalletManager, bytes: &Vec<u8>) -> (r: Result<Vec<u8>, BotError>)
    ensures
        match signed_transaction(wallet@, bytes@) {
            Ok(tx) => r is Ok && r->Ok_0@ == tx,
            Err(detail) => r is Err && r->Err_0@ == trading_error(detail),
        },
        r is Ok == can_sign(wallet@, bytes@),
        r is Ok ==> is_signed_form(wallet@, bytes@, r->Ok_0@),
{
    let parts: TransactionParts = match decode_transaction(bytes) {
        Ok(parts) => parts,
        Err(e) => {
            return Err(
                BotError::Trading(joined("Failed to deserialize transaction: ", e.as_str())),
            );
        },
    };
    if let Some(i) = find_signer(&parts.keys, wallet) {
        if i >= parts.signatures.len() {
            return Err(
                BotError::Trading("Wallet is not among the signers of the transaction".to_owned()),
            );
        }
    }
    match sign_parts(wallet, parts) {
        Err(e) => Err(e),
        Ok(parts) => match encode_transaction(&parts.signatures, &parts.message) {
            Ok(tx) => Ok(tx),
            Err(e) => Err(
                BotError::Trading(joined("Failed to serialize transaction: ", e.as_str())),
            ),
        },
    }
}

proof fn lemma_key_place(keys: Seq<Seq<u8>>, key: Seq<u8>, from: int)
    requires
        0 <= from,
    ensures
        match key_place(keys, key, from) {
            Some(i) => from <= i < keys.len() && keys[i] == key && forall|j: int|
                from <= j < i ==> keys[j] != key,
            None => forall|j: int| from <= j < keys.len() ==> keys[j] != key,
        },
    decreases keys.len() - from,
{
    if from < keys.len() && keys[from] != key {
        lemma_key_place(keys, key, from + 1);
    }
}

/// Signing puts the wallet's signature of the message where the wallet's address first stands,
/// and leaves every other signature as it was.
pub proof fn law_signing_touches_one_signature(
    keypair: Seq<u8>,
    keys: Seq<Seq<u8>>,
    message: Seq<u8>,
    signatures: Seq<Seq<u8>>,
)
    requires
        signer_place(keys, keypair) matches Some(i) ==> i < signatures.len(),
    ensures
        match signed(keypair, keys, message, signatures) {
            Some(after) => {
                let i = signer_place(keys, keypair)->0;
                &&& 0 <= i < keys.len()
                &&& keys[i] == crate::wallet::keypair_address(keypair)
                &&& after.len() == signatures.len()
                &&& after[i] == crate::wallet::message_signature(keypair, message)
                &&& forall|j: int|
                    0 <= j < signatures.len() && j != i ==> after[j] == signatures[j]
            },
            None => !keys.contains(crate::wallet::keypair_address(keypair)),
        },
{
    lemma_key_place(keys, crate::wallet::keypair_address(keypair), 0);
}

/// What a request for an unsigned transaction brought.
#[derive(Debug)]
pub enum TradeReply {
    Built(Vec<u8>),
    Refused { status: String, body: String },
    Unreachable(String),
}

/// The signed transaction that a reply leads to.
pub open spec fn signed_reply(keypair: Seq<u8>, reply: TradeReply) -> Result<Seq<u8>, ErrorView> {
    match reply {
        TradeReply::Built(bytes) => match signed_transaction(keypair, bytes@) {
            Ok(tx) => Ok(tx),
            Err(detail) => Err(trading_error(detail)),
        },
        TradeReply::Refused { status, body } => Err(
            trading_error("PumpPortal API error: "@ + status@ + " - "@ + body@),
        ),
        TradeReply::Unreachable(e) => Err(ErrorView { kind: ErrorKind::Http, detail: e@ }),
    }
}

/// Signs the transaction that a reply holds.
pub fn sign_reply(wallet: &WalletManager, reply: &TradeReply) -> (r: Result<Vec<u8>, BotError>)
    ensures
        match signed_reply(wallet@, *reply) {
            Ok(tx) => r is Ok && r->Ok_0@ == tx,
            Err(e) => r is Err && r->Err_0@ == e,
        },
        r is Ok == (reply is Built && can_sign(wallet@, reply->Built_0@)),
        r is Ok ==> is_signed_form(wallet@, reply->Built_0@, r->Ok_0@),
{
    match reply {
        TradeReply::Built(bytes) => sign_transaction(wallet, bytes),
        TradeReply::Refused { status, body } => {
            let mut detail: String = joined("PumpPortal API error: ", status.as_str());
            detail.append(" - ");
            detail.append(body.as_str());
            Err(BotError::Trading(detail))
        },
        TradeReply::Unreachable(e) => Err(BotError::Http(e.clone())),
    }
}

/// The signature of a transaction that was confirmed, or why it was not.
pub fn confirmed(outcome: Result<String, String>) -> (r: Result<String, BotError>)
    ensures
        match outcome {
            Ok(signature) => r is Ok && r->Ok_0 == signature,
            Err(e) => r is Err && r->Err_0@ == (ErrorView {
                kind: ErrorKind::TransactionFailed,
                detail: "Transaction failed: "@ + e@,
            }),
        },
{
    match outcome {
        Ok(signature) => Ok(signature),
        Err(e) => Err(BotError::TransactionFailed(joined("Transaction failed: ", e.as_str()))),
    }
}

/// A transaction can be signed exactly where it can be read and names the wallet among those that
/// have to sign; what then comes out is the same transaction with the signature of the wallet in
/// its place.
pub proof fn law_wallets_sign_where_they_are_named(
    keypair: Seq<u8>,
    unsigned: Seq<u8>,
    tx: Seq<u8>,
    keys: Seq<Seq<u8>>,
    message: Seq<u8>,
    signatures: Seq<Seq<u8>>,
    i: int,
)
    requires
        parts_of_transaction(unsigned) == Ok::<
            (Seq<Seq<u8>>, Seq<u8>, Seq<Seq<u8>>),
            Seq<char>,
        >((keys, message, signatures)),
        0 <= i < keys.len(),
        keys[i] == crate::wallet::keypair_address(keypair),
        forall|j: int| 0 <= j < i ==> #[trigger] keys[j] != keys[i],
    ensures
        can_sign(keypair, unsigned) <==> i < signatures.len(),
        can_sign(keypair, unsigned) && is_signed_form(keypair, unsigned, tx)
            ==> parts_of_transaction(tx) == Ok::<
            (Seq<Seq<u8>>, Seq<u8>, Seq<Seq<u8>>),
            Seq<char>,
        >(
            (
                keys,
                message,
                signatures.update(i, crate::wallet::message_signature(keypair, message)),
            ),
        ),
{
    lemma_key_place(keys, crate::wallet::keypair_address(keypair), 0);
}

/// A transaction that names the wallet nowhere is not signed.
pub proof fn law_strange_transactions_are_not_signed(
    keypair: Seq<u8>,
    bytes: Seq<u8>,
    keys: Seq<Seq<u8>>,
    message: Seq<u8>,
    signatures: Seq<Seq<u8>>,
)
    requires
        parts_of_transaction(bytes) == Ok::<(Seq<Seq<u8>>, Seq<u8>, Seq<Seq<u8>>), Seq<char>>(
            (keys, message, signatures),
        ),
        !keys.contains(crate::wallet::keypair_address(keypair)),
    ensures
        !can_sign(keypair, bytes),
        signed_transaction(keypair, bytes) == Err::<Seq<u8>, Seq<char>>(
            "Wallet pubkey not found in transaction account keys"@,
        ),
{
    lemma_key_place(keys, crate::wallet::keypair_address(keypair), 0);
}

/// A reply without a transaction is an error: of the trade where it was refused, with what was
/// answered, and of the connection where nobody was reached.
pub proof fn law_refusals_are_errors(keypair: Seq<u8>, status: String, body: String, e: String)
    ensures
        signed_reply(keypair, TradeReply::Refused { status, body }) == Err::<Seq<u8>, ErrorView>(
            ErrorView {
                kind: ErrorKind::Trading,
                detail: "PumpPortal API error: "@ + status@ + " - "@ + body@,
            },
        ),
        signed_reply(keypair, TradeReply::Unreachable(e)) == Err::<Seq<u8>, ErrorView>(
            ErrorView { kind: ErrorKind::Http, detail: e@ },
        ),
{
}

} // verus!
