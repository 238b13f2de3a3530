use bitcoincash_addr::{Address, HashType, Network, Scheme};
use blockchain_rust_demo::block::Block;
use blockchain_rust_demo::errors::LedgerError;
use blockchain_rust_demo::transaction::{
    clone_inputs, clone_outputs, clone_transactions, locking_hash_for, position_of, Transaction,
    SUBSIDY,
};
use blockchain_rust_demo::tx::{copy_bytes, TXInput, TXOutput};
use blockchain_rust_demo::wallet::Wallet;

fn address_of(wallet: &Wallet) -> String {
    Address::new(wallet.locking_hash(), Scheme::Base58, HashType::Key, Network::Main)
        .encode()
        .unwrap()
}

fn funding(wallet: &Wallet, data: &str) -> Transaction {
    Transaction::new_coinbase(address_of(wallet), String::from(data)).unwrap()
}

fn spending(ancestor: &Transaction, sender: &Wallet, recipient: &Wallet, amount: i32) -> Transaction {
    let mut tx = Transaction {
        id: String::new(),
        vin: vec![TXInput {
            txid: ancestor.id.clone(),
            vout: 0,
            signature: Vec::new(),
            pub_key: sender.public_key.clone(),
        }],
        vout: vec![
            TXOutput { value: amount, pub_key_hash: recipient.locking_hash() },
            TXOutput { value: SUBSIDY - amount, pub_key_hash: sender.locking_hash() },
        ],
    };
    tx.id = tx.hash().unwrap();
    tx
}

#[test]
fn coinbase_pays_the_reward_to_the_address() {
    let wallet = Wallet::from_seed(&[1u8; 32]).unwrap();
    let tx = funding(&wallet, "hello");
    assert!(tx.is_coinbase());
    assert_eq!(SUBSIDY, 10);
    assert_eq!(tx.vin.len(), 1);
    assert_eq!(tx.vin[0].txid, "");
    assert_eq!(tx.vin[0].vout, -1);
    assert_eq!(tx.vin[0].signature, b"hello".to_vec());
    assert!(tx.vin[0].pub_key.is_empty());
    assert_eq!(tx.vout, vec![TXOutput { value: 10, pub_key_hash: wallet.locking_hash() }]);
    assert_eq!(tx.id.len(), 64);
    assert_eq!(tx.hash(), Ok(tx.id.clone()));
}

#[test]
fn coinbase_for_no_address_is_an_encoding_error() {
    assert_eq!(
        Transaction::new_coinbase(String::from("x"), String::from("data")),
        Err(LedgerError::EncodingError)
    );
}

#[test]
fn coinbase_data_tells_identifiers_apart() {
    let wallet = Wallet::from_seed(&[1u8; 32]).unwrap();
    assert_ne!(funding(&wallet, "one").id, funding(&wallet, "two").id);
    assert_eq!(funding(&wallet, "one").id, funding(&wallet, "one").id);
}

#[test]
fn only_one_input_without_ancestor_makes_a_coinbase() {
    let wallet = Wallet::from_seed(&[1u8; 32]).unwrap();
    let base = funding(&wallet, "data");
    let mut two = base.clone();
    two.vin.push(base.vin[0].clone());
    assert!(!two.is_coinbase());
    let mut named = base.clone();
    named.vin[0].txid = String::from("ab");
    assert!(!named.is_coinbase());
    let mut indexed = base.clone();
    indexed.vin[0].vout = 0;
    assert!(!indexed.is_coinbase());
    let mut none = base.clone();
    none.vin.clear();
    assert!(!none.is_coinbase());
}

#[test]
fn identifier_does_not_depend_on_signatures_of_a_transfer() {
    let alice = Wallet::from_seed(&[1u8; 32]).unwrap();
    let bob = Wallet::from_seed(&[2u8; 32]).unwrap();
    let ancestor = funding(&alice, "ancestor");
    let mut tx = spending(&ancestor, &alice, &bob, 4);
    let id = tx.id.clone();
    tx.sign(&alice.secret_key, &vec![ancestor.clone()]).unwrap();
    assert_eq!(tx.id, id);
    assert_eq!(tx.hash(), Ok(id));
}

#[test]
fn trimmed_copy_blanks_signatures_and_keys() {
    let alice = Wallet::from_seed(&[1u8; 32]).unwrap();
    let bob = Wallet::from_seed(&[2u8; 32]).unwrap();
    let ancestor = funding(&alice, "ancestor");
    let mut tx = spending(&ancestor, &alice, &bob, 4);
    tx.sign(&alice.secret_key, &vec![ancestor.clone()]).unwrap();
    let copy = tx.trim_copy();
    assert_eq!(copy.id, tx.id);
    assert_eq!(copy.vout, tx.vout);
    assert_eq!(copy.vin.len(), 1);
    assert_eq!(copy.vin[0].txid, ancestor.id);
    assert_eq!(copy.vin[0].vout, 0);
    assert!(copy.vin[0].signature.is_empty());
    assert!(copy.vin[0].pub_key.is_empty());
    assert_eq!(tx.vin[0].signature.len(), 64);
}

#[test]
fn signed_transaction_verifies() {
    let alice = Wallet::from_seed(&[1u8; 32]).unwrap();
    let bob = Wallet::from_seed(&[2u8; 32]).unwrap();
    let ancestor = funding(&alice, "ancestor");
    let prev = vec![ancestor.clone()];
    let mut tx = spending(&ancestor, &alice, &bob, 4);
    assert_eq!(tx.verify(&prev), Ok(false));
    assert_eq!(tx.sign(&alice.secret_key, &prev), Ok(()));
    assert_eq!(tx.vin[0].pub_key, alice.public_key);
    assert_eq!(tx.vin[0].signature.len(), 64);
    assert_eq!(tx.verify(&prev), Ok(true));
}

#[test]
fn signing_is_deterministic() {
    let alice = Wallet::from_seed(&[1u8; 32]).unwrap();
    let bob = Wallet::from_seed(&[2u8; 32]).unwrap();
    let ancestor = funding(&alice, "ancestor");
    let prev = vec![ancestor.clone()];
    let mut first = spending(&ancestor, &alice, &bob, 4);
    let mut second = spending(&ancestor, &alice, &bob, 4);
    first.sign(&alice.secret_key, &prev).unwrap();
    second.sign(&alice.secret_key, &prev).unwrap();
    assert_eq!(first, second);
}

#[test]
fn changed_output_does_not_verify() {
    let alice = Wallet::from_seed(&[1u8; 32]).unwrap();
    let bob = Wallet::from_seed(&[2u8; 32]).unwrap();
    let ancestor = funding(&alice, "ancestor");
    let prev = vec![ancestor.clone()];
    let mut tx = spending(&ancestor, &alice, &bob, 4);
    tx.sign(&alice.secret_key, &prev).unwrap();
    let mut more = tx.clone();
    more.vout[0].value = 5;
    assert_eq!(more.verify(&prev), Ok(false));
    for position in 0..20 {
        let mut other = tx.clone();
        other.vout[0].pub_key_hash[position] ^= 1;
        assert_eq!(other.verify(&prev), Ok(false));
    }
    let mut dropped = tx.clone();
    dropped.vout.pop();
    assert_eq!(dropped.verify(&prev), Ok(false));
}

#[test]
fn changed_signature_or_key_does_not_verify() {
    let alice = Wallet::from_seed(&[1u8; 32]).unwrap();
    let bob = Wallet::from_seed(&[2u8; 32]).unwrap();
    let ancestor = funding(&alice, "ancestor");
    let prev = vec![ancestor.clone()];
    let mut tx = spending(&ancestor, &alice, &bob, 4);
    tx.sign(&alice.secret_key, &prev).unwrap();
    let mut forged = tx.clone();
    forged.vin[0].signature[10] ^= 0x40;
    assert_eq!(forged.verify(&prev), Ok(false));
    let mut other_key = tx.clone();
    other_key.vin[0].pub_key = bob.public_key.clone();
    assert_eq!(other_key.verify(&prev), Ok(false));
    let mut short_key = tx.clone();
    short_key.vin[0].pub_key.pop();
    assert_eq!(short_key.verify(&prev), Ok(false));
    let mut short_signature = tx.clone();
    short_signature.vin[0].signature.truncate(10);
    assert_eq!(short_signature.verify(&prev), Ok(false));
}

#[test]
fn missing_ancestor_is_reported() {
    let alice = Wallet::from_seed(&[1u8; 32]).unwrap();
    let bob = Wallet::from_seed(&[2u8; 32]).unwrap();
    let ancestor = funding(&alice, "ancestor");
    let other = funding(&alice, "other");
    let mut tx = spending(&ancestor, &alice, &bob, 4);
    let before = tx.clone();
    assert_eq!(tx.sign(&alice.secret_key, &vec![other.clone()]), Err(LedgerError::MissingAncestor));
    assert_eq!(tx, before);
    assert_eq!(tx.verify(&vec![other]), Err(LedgerError::MissingAncestor));
    assert_eq!(tx.verify(&Vec::new()), Err(LedgerError::MissingAncestor));
}

#[test]
fn output_out_of_range_is_refused() {
    let alice = Wallet::from_seed(&[1u8; 32]).unwrap();
    let bob = Wallet::from_seed(&[2u8; 32]).unwrap();
    let ancestor = funding(&alice, "ancestor");
    let prev = vec![ancestor.clone()];
    let mut tx = spending(&ancestor, &alice, &bob, 4);
    tx.vin[0].vout = 1;
    let before = tx.clone();
    assert_eq!(tx.sign(&alice.secret_key, &prev), Err(LedgerError::InvalidTransaction));
    assert_eq!(tx, before);
    assert_eq!(tx.verify(&prev), Ok(false));
    tx.vin[0].vout = -2;
    assert_eq!(tx.sign(&alice.secret_key, &prev), Err(LedgerError::InvalidTransaction));
    assert_eq!(tx.verify(&prev), Ok(false));
}

#[test]
fn key_of_wrong_length_does_not_sign() {
    let alice = Wallet::from_seed(&[1u8; 32]).unwrap();
    let bob = Wallet::from_seed(&[2u8; 32]).unwrap();
    let ancestor = funding(&alice, "ancestor");
    let prev = vec![ancestor.clone()];
    let mut tx = spending(&ancestor, &alice, &bob, 4);
    let before = tx.clone();
    assert_eq!(tx.sign(&alice.secret_key[..63], &prev), Err(LedgerError::EncodingError));
    assert_eq!(tx.sign(&[], &prev), Err(LedgerError::EncodingError));
    assert_eq!(tx, before);
}

#[test]
fn coinbase_signs_and_verifies_as_it_is() {
    let alice = Wallet::from_seed(&[1u8; 32]).unwrap();
    let mut tx = funding(&alice, "coinbase");
    let before = tx.clone();
    assert_eq!(tx.sign(&alice.secret_key, &Vec::new()), Ok(()));
    assert_eq!(tx, before);
    assert_eq!(tx.verify(&Vec::new()), Ok(true));
}

#[test]
fn two_inputs_are_signed_each_over_its_own_message() {
    let alice = Wallet::from_seed(&[1u8; 32]).unwrap();
    let bob = Wallet::from_seed(&[2u8; 32]).unwrap();
    let first = funding(&alice, "first");
    let second = funding(&alice, "second");
    let prev = vec![first.clone(), second.clone()];
    let mut tx = spending(&first, &alice, &bob, 4);
    tx.vin.push(TXInput {
        txid: second.id.clone(),
        vout: 0,
        signature: Vec::new(),
        pub_key: alice.public_key.clone(),
    });
    tx.id = tx.hash().unwrap();
    tx.sign(&alice.secret_key, &prev).unwrap();
    assert_ne!(tx.vin[0].signature, tx.vin[1].signature);
    assert_eq!(tx.verify(&prev), Ok(true));
    let mut swapped = tx.clone();
    swapped.vin.swap(0, 1);
    assert_eq!(swapped.verify(&prev), Ok(false));
}

#[test]
fn lookup_finds_the_first_transaction_with_the_identifier() {
    let alice = Wallet::from_seed(&[1u8; 32]).unwrap();
    let first = funding(&alice, "first");
    let second = funding(&alice, "second");
    let list = vec![first.clone(), second.clone(), first.clone()];
    assert_eq!(position_of(&list, &first.id), Some(0));
    assert_eq!(position_of(&list, &second.id), Some(1));
    assert_eq!(position_of(&list, &String::from("none")), None);
    let input = TXInput { txid: second.id.clone(), vout: 0, signature: vec![], pub_key: vec![] };
    assert_eq!(locking_hash_for(&list, &input), Ok(alice.locking_hash()));
    let beyond = TXInput { txid: second.id.clone(), vout: 1, signature: vec![], pub_key: vec![] };
    assert_eq!(locking_hash_for(&list, &beyond), Err(LedgerError::InvalidTransaction));
    let absent = TXInput { txid: String::from("none"), vout: 0, signature: vec![], pub_key: vec![] };
    assert_eq!(locking_hash_for(&list, &absent), Err(LedgerError::MissingAncestor));
}

#[test]
fn copies_are_equal_to_what_they_copy() {
    let alice = Wallet::from_seed(&[1u8; 32]).unwrap();
    let tx = funding(&alice, "copy");
    assert_eq!(tx.clone(), tx);
    assert_eq!(clone_inputs(&tx.vin), tx.vin);
    assert_eq!(clone_outputs(&tx.vout), tx.vout);
    assert_eq!(clone_transactions(&vec![tx.clone(), tx.clone()]), vec![tx.clone(), tx.clone()]);
    assert_eq!(copy_bytes(&vec![1, 2, 3]), vec![1, 2, 3]);
}

#[test]
fn sealed_block_meets_the_target_and_validates() {
    let alice = Wallet::from_seed(&[1u8; 32]).unwrap();
    let tx = funding(&alice, "block");
    let block = Block::seal(vec![tx.clone()], String::from("prev"), 3, 1_700_000_000_000).unwrap();
    assert_eq!(block.get_hash().len(), 64);
    assert!(block.get_hash().starts_with("0000"));
    assert_eq!(block.get_prev_hash(), "prev");
    assert_eq!(block.get_height(), 3);
    assert_eq!(block.get_timestamp(), 1_700_000_000_000);
    assert_eq!(block.get_transaction(), &vec![tx]);
    assert!(block.get_nonce() >= 0);
    assert_eq!(block.validate(), Ok(true));
    assert_eq!(block.clone(), block);
}

#[test]
fn sealing_is_a_function_of_the_content() {
    let alice = Wallet::from_seed(&[1u8; 32]).unwrap();
    let tx = funding(&alice, "block");
    let one = Block::seal(vec![tx.clone()], String::new(), 0, 5).unwrap();
    let same = Block::seal(vec![tx.clone()], String::new(), 0, 5).unwrap();
    let later = Block::seal(vec![tx.clone()], String::new(), 0, 6).unwrap();
    assert_eq!(one, same);
    assert_ne!(one.get_hash(), later.get_hash());
}

#[test]
fn block_without_transactions_is_refused() {
    assert_eq!(
        Block::seal(Vec::new(), String::new(), 0, 5),
        Err(LedgerError::InvalidTransaction)
    );
    assert_eq!(
        Block::new_block(Vec::new(), String::new(), 0),
        Err(LedgerError::InvalidTransaction)
    );
}

#[test]
fn first_block_has_height_zero_and_no_predecessor() {
    let alice = Wallet::from_seed(&[1u8; 32]).unwrap();
    let tx = funding(&alice, "genesis");
    let block = Block::new_genesis_block(tx.clone()).unwrap();
    assert_eq!(block.get_height(), 0);
    assert_eq!(block.get_prev_hash(), "");
    assert_eq!(block.get_transaction(), &vec![tx]);
    assert!(block.get_hash().starts_with("0000"));
    assert_eq!(block.validate(), Ok(true));
}
