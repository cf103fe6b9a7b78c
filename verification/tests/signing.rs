use hades_kat_bot::copying::parse_signature;
use hades_kat_bot::transaction::{
    confirmed, sign_parts, sign_reply, sign_transaction, TradeReply, TransactionParts,
};
use hades_kat_bot::wallet::{BalanceStep, WalletManager};
use solana_sdk::message::{Message, VersionedMessage};
use solana_sdk::pubkey::Pubkey;
use solana_sdk::signature::{Keypair, Signature};
use solana_sdk::signer::Signer;
use solana_sdk::system_instruction;
use solana_sdk::transaction::VersionedTransaction;

fn transfer(from: &Pubkey, payer: &Pubkey) -> VersionedTransaction {
    let instruction = system_instruction::transfer(from, &Pubkey::new_from_array([9; 32]), 5);
    let message = Message::new_with_blockhash(&[instruction], Some(payer), &solana_sdk::hash::Hash::default());
    let count = message.header.num_required_signatures as usize;
    VersionedTransaction {
        signatures: vec![Signature::default(); count],
        message: VersionedMessage::Legacy(message),
    }
}

#[test]
fn wallet_address_is_its_public_key() {
    let keypair = Keypair::new();
    let wallet = WalletManager::new(keypair.to_bytes()).unwrap();
    assert_eq!(wallet.get_address().bytes, keypair.pubkey().to_bytes());
    assert_eq!(wallet.get_keypair(), &keypair.to_bytes());
    assert!(WalletManager::new([7u8; 64]).is_none());
    let message = b"hello".to_vec();
    let expected: [u8; 64] = keypair.sign_message(&message).into();
    assert_eq!(wallet.sign(&message), expected);
    assert_eq!(wallet.duplicate().sign(&message), expected);
}

#[test]
fn transaction_is_signed_in_the_wallets_place() {
    let payer = Keypair::new();
    let ours = Keypair::new();
    let wallet = WalletManager::new(ours.to_bytes()).unwrap();
    let tx = transfer(&ours.pubkey(), &payer.pubkey());
    assert_eq!(tx.signatures.len(), 2);
    let bytes = bincode::serialize(&tx).unwrap();
    let signed = sign_transaction(&wallet, &bytes).unwrap();
    let back: VersionedTransaction = bincode::deserialize(&signed).unwrap();
    assert_eq!(back.message, tx.message);
    assert_eq!(back.signatures[0], Signature::default());
    assert!(back.signatures[1]
        .verify(&ours.pubkey().to_bytes(), &tx.message.serialize()));
    let reply = sign_reply(&wallet, &TradeReply::Built(bytes)).unwrap();
    assert_eq!(reply, signed);
}

#[test]
fn foreign_and_broken_transactions_are_refused() {
    let payer = Keypair::new();
    let wallet = WalletManager::new(Keypair::new().to_bytes()).unwrap();
    let tx = transfer(&payer.pubkey(), &payer.pubkey());
    let bytes = bincode::serialize(&tx).unwrap();
    assert_eq!(
        sign_transaction(&wallet, &bytes).unwrap_err().message(),
        "Trading error: Wallet pubkey not found in transaction account keys"
    );
    let broken = sign_transaction(&wallet, &vec![1, 2, 3]).unwrap_err().message();
    assert!(broken.starts_with("Trading error: Failed to deserialize transaction: "));

    // The wallet is an account of the transaction, but not one of its signers.
    let ours = Keypair::new();
    let wallet = WalletManager::new(ours.to_bytes()).unwrap();
    let instruction = system_instruction::transfer(&payer.pubkey(), &ours.pubkey(), 5);
    let message =
        Message::new_with_blockhash(&[instruction], Some(&payer.pubkey()), &solana_sdk::hash::Hash::default());
    let tx = VersionedTransaction {
        signatures: vec![Signature::default()],
        message: VersionedMessage::Legacy(message),
    };
    let bytes = bincode::serialize(&tx).unwrap();
    assert_eq!(
        sign_transaction(&wallet, &bytes).unwrap_err().message(),
        "Trading error: Wallet is not among the signers of the transaction"
    );
}

#[test]
fn parts_are_signed_where_the_key_stands() {
    let ours = Keypair::new();
    let wallet = WalletManager::new(ours.to_bytes()).unwrap();
    let parts = TransactionParts {
        keys: vec![[1; 32], ours.pubkey().to_bytes(), [2; 32]],
        message: vec![1, 2, 3],
        signatures: vec![[5; 64], [6; 64], [7; 64]],
    };
    let signed = sign_parts(&wallet, parts).unwrap();
    assert_eq!(signed.signatures[0], [5; 64]);
    assert_eq!(signed.signatures[1], wallet.sign(&vec![1, 2, 3]));
    assert_eq!(signed.signatures[2], [7; 64]);
}

#[test]
fn replies_and_outcomes_become_errors() {
    let wallet = WalletManager::new(Keypair::new().to_bytes()).unwrap();
    let refused = TradeReply::Refused {
        status: "400 Bad Request".to_string(),
        body: "no".to_string(),
    };
    assert_eq!(
        sign_reply(&wallet, &refused).unwrap_err().message(),
        "Trading error: PumpPortal API error: 400 Bad Request - no"
    );
    assert_eq!(
        sign_reply(&wallet, &TradeReply::Unreachable("down".to_string())).unwrap_err().message(),
        "HTTP request error: down"
    );
    assert_eq!(confirmed(Ok("sig".to_string())).unwrap(), "sig");
    assert_eq!(
        confirmed(Err("lost".to_string())).unwrap_err().message(),
        "Transaction failed: Transaction failed: lost"
    );
}

#[test]
fn token_balance_comes_from_the_first_account() {
    assert!(matches!(WalletManager::token_account(&vec![]), Ok(BalanceStep::Empty)));
    let text = Pubkey::new_from_array([3; 32]).to_string();
    match WalletManager::token_account(&vec![text]) {
        Ok(BalanceStep::Ask(key)) => assert_eq!(key.bytes, [3; 32]),
        other => panic!("unexpected {:?}", other),
    }
    assert_eq!(
        WalletManager::token_account(&vec!["bad".to_string()]).unwrap_err().message(),
        "Wallet error: Invalid token account pubkey: String is the wrong size"
    );
    assert_eq!(WalletManager::get_token_balance("123").unwrap(), 123);
    let err = |t: &str| WalletManager::get_token_balance(t).unwrap_err().message();
    for bad in ["", "x", "99999999999999999999"] {
        let cause = bad.parse::<u64>().unwrap_err().to_string();
        assert_eq!(err(bad), format!("Wallet error: Failed to parse token balance: {}", cause));
    }
}

#[test]
fn signatures_are_read_as_base58() {
    let signature = Keypair::new().sign_message(b"x");
    let expected: [u8; 64] = signature.into();
    assert_eq!(parse_signature(&signature.to_string()).unwrap(), expected);
    assert_eq!(
        parse_signature("0").unwrap_err().message(),
        "Trading error: Bad signature: failed to decode string to signature"
    );
    assert_eq!(
        parse_signature("abc").unwrap_err().message(),
        "Trading error: Bad signature: string decoded to wrong size for signature"
    );
}
