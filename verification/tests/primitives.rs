use bitcoincash_addr::{Address, HashType, Network, Scheme};
use blockchain_rust_demo::address::address_to_hash;
use blockchain_rust_demo::cli::Cli;
use blockchain_rust_demo::encoding::{transaction_from_parts, unspent_from_parts};
use blockchain_rust_demo::errors::LedgerError;
use blockchain_rust_demo::hashing::{bytes_equal, hash_pub_key};
use blockchain_rust_demo::transaction::Transaction;
use blockchain_rust_demo::tx::{TXInput, TXOutput};
use blockchain_rust_demo::utxo_index::Unspent;
use blockchain_rust_demo::wallet::Wallet;

fn hex(bytes: &[u8]) -> String {
    let mut text = String::new();
    for byte in bytes {
        text.push_str(&format!("{:02x}", byte));
    }
    text
}

fn unhex(text: &str) -> Vec<u8> {
    let digits: Vec<u8> = text.bytes().map(|d| if d <= b'9' { d - b'0' } else { d - b'a' + 10 }).collect();
    digits.chunks(2).map(|pair| pair[0] * 16 + pair[1]).collect()
}

#[test]
fn hash_of_empty_public_key() {
    assert_eq!(hex(&hash_pub_key(&[])), "b472a266d0bd89c13706a4132ccfb16f7c3b9fcb");
}

#[test]
fn hash_of_public_key_has_twenty_bytes_and_differs_from_key() {
    let key = vec![3u8; 20];
    let hash = hash_pub_key(&key);
    assert_eq!(hash.len(), 20);
    assert_ne!(hash, key);
}

#[test]
fn bytes_equal_compares_content() {
    assert!(bytes_equal(&[1, 2, 3], &[1, 2, 3]));
    assert!(!bytes_equal(&[1, 2, 3], &[1, 2, 4]));
    assert!(!bytes_equal(&[1, 2, 3], &[1, 2]));
    assert!(bytes_equal(&[], &[]));
}

#[test]
fn legacy_address_decodes_to_its_hash() {
    let hash = address_to_hash("1NM2HFXin4cEQRBLjkNZAS98qLX9JKzjKn").unwrap();
    assert_eq!(hex(&hash), "ea2407829a5055466b27784cde8cf463167946bf");
}

#[test]
fn prefixed_address_decodes_to_the_same_hash_as_it_was_made_from() {
    let body = vec![9u8; 20];
    let address = Address::new(body.clone(), Scheme::CashAddr, HashType::Key, Network::Main)
        .encode()
        .unwrap();
    assert_eq!(address_to_hash(&address), Some(body));
}

#[test]
fn short_or_broken_address_is_refused() {
    assert_eq!(address_to_hash(""), None);
    assert_eq!(address_to_hash("bchreg:q"), None);
    assert_eq!(address_to_hash("1NM2HFXin4cEQRBLjkNZAS98qLX9JKzjKm"), None);
    assert_eq!(address_to_hash("not an address at all, however long"), None);
}

#[test]
fn output_is_locked_to_the_hash_of_its_address() {
    let output = TXOutput::new(7, String::from("1NM2HFXin4cEQRBLjkNZAS98qLX9JKzjKn")).unwrap();
    assert_eq!(output.value, 7);
    assert_eq!(hex(&output.pub_key_hash), "ea2407829a5055466b27784cde8cf463167946bf");
    assert!(output.can_be_unlock_with(&unhex("ea2407829a5055466b27784cde8cf463167946bf")));
    assert!(!output.can_be_unlock_with(&[0u8; 20]));
}

#[test]
fn output_for_no_address_is_an_encoding_error() {
    assert_eq!(TXOutput::new(7, String::from("nobody")), Err(LedgerError::EncodingError));
}

#[test]
fn input_unlocks_what_is_locked_to_the_hash_of_its_key() {
    let input = TXInput {
        txid: String::from("aa"),
        vout: 0,
        signature: Vec::new(),
        pub_key: Vec::new(),
    };
    assert!(input.can_unlock_output_with(&unhex("b472a266d0bd89c13706a4132ccfb16f7c3b9fcb")));
    assert!(!input.can_unlock_output_with(&[]));
}

#[test]
fn key_pair_of_a_known_seed() {
    let seed = unhex("9d61b19deffd5a60ba844af492ec2cc44449c5697b326919703bac031cae7f60");
    let wallet = Wallet::from_seed(&seed).unwrap();
    assert_eq!(
        hex(&wallet.public_key),
        "d75a980182b10ab7d54bfed3c964073a0ee172f3daa62325af021a68f707511a"
    );
    assert_eq!(wallet.secret_key.len(), 64);
    assert_eq!(&wallet.secret_key[..32], &seed[..]);
    assert_eq!(&wallet.secret_key[32..], &wallet.public_key[..]);
    assert_eq!(wallet.locking_hash(), hash_pub_key(&wallet.public_key));
}

#[test]
fn seed_of_another_length_gives_no_wallet() {
    assert_eq!(Wallet::from_seed(&[1u8; 31]), None);
    assert_eq!(Wallet::from_seed(&[1u8; 33]), None);
    assert_eq!(Wallet::from_seed(&[]), None);
}

#[test]
fn command_line_is_made() {
    assert_eq!(Cli::new(), Ok(Cli {}));
}

#[test]
fn every_error_has_a_description() {
    let all = [
        LedgerError::NotInitialized,
        LedgerError::AlreadyExists,
        LedgerError::NotFound,
        LedgerError::InsufficientFunds,
        LedgerError::InvalidTransaction,
        LedgerError::MissingAncestor,
        LedgerError::EncodingError,
        LedgerError::StorageFailure,
        LedgerError::SealFailure,
        LedgerError::EndlessChain,
    ];
    for (i, e) in all.iter().enumerate() {
        assert!(!e.describe().is_empty());
        for other in &all[i + 1..] {
            assert_ne!(e.describe(), other.describe());
        }
    }
}

#[test]
fn written_fields_give_the_transaction_and_the_output_they_stand_for() {
    let parts = (
        String::from("id"),
        vec![(String::from("prev"), 2, vec![1u8, 2], vec![3u8])],
        vec![(5, vec![4u8; 20]), (6, vec![5u8; 20])],
    );
    assert_eq!(
        transaction_from_parts(&parts),
        Transaction {
            id: String::from("id"),
            vin: vec![TXInput {
                txid: String::from("prev"),
                vout: 2,
                signature: vec![1, 2],
                pub_key: vec![3],
            }],
            vout: vec![
                TXOutput { value: 5, pub_key_hash: vec![4u8; 20] },
                TXOutput { value: 6, pub_key_hash: vec![5u8; 20] },
            ],
        }
    );
    assert_eq!(
        unspent_from_parts(&(3, 9, vec![7u8; 20])),
        Unspent { vout: 3, output: TXOutput { value: 9, pub_key_hash: vec![7u8; 20] } }
    );
}
