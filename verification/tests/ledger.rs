use bitcoincash_addr::{Address, HashType, Network, Scheme};
use blockchain_rust_demo::block::Block;
use blockchain_rust_demo::blockchain::{find_in_blocks, Blockchain, GENESIS_COINBASE_DATA, TIP_KEY};
use blockchain_rust_demo::errors::LedgerError;
use blockchain_rust_demo::transaction::{Transaction, SUBSIDY};
use blockchain_rust_demo::tx::{TXInput, TXOutput};
use blockchain_rust_demo::wallet::Wallet;

fn fresh_store() -> sled::Db {
    sled::Config::new().temporary(true).open().unwrap()
}

fn owner(n: u8) -> Wallet {
    Wallet::from_seed(&[n; 32]).unwrap()
}

fn address_for(wallet: &Wallet) -> String {
    Address::new(wallet.locking_hash(), Scheme::Base58, HashType::Key, Network::Main)
        .encode()
        .unwrap()
}

fn reward(wallet: &Wallet, data: &str) -> Transaction {
    Transaction::new_coinbase(address_for(wallet), String::from(data)).unwrap()
}

fn walk_all(bc: &Blockchain) -> Vec<Block> {
    let mut walker = bc.iter();
    let mut blocks = Vec::new();
    while let Some(block) = walker.next().unwrap() {
        blocks.push(block);
    }
    blocks
}

#[test]
fn store_without_chain_cannot_be_opened() {
    assert_eq!(Blockchain::new(fresh_store()).err(), Some(LedgerError::NotInitialized));
}

#[test]
fn created_chain_holds_the_first_block() {
    let alice = owner(1);
    let store = fresh_store();
    let bc = Blockchain::create_blockchain(store.clone(), address_for(&alice)).unwrap();
    assert_eq!(bc.get_best_height(), Ok(0));
    let blocks = bc.blocks().unwrap();
    assert_eq!(blocks.len(), 1);
    let genesis = &blocks[0];
    assert_eq!(genesis.get_height(), 0);
    assert_eq!(genesis.get_prev_hash(), "");
    assert!(genesis.get_hash().starts_with("0000"));
    assert_eq!(genesis.validate(), Ok(true));
    let txs = genesis.get_transaction();
    assert_eq!(txs.len(), 1);
    assert!(txs[0].is_coinbase());
    assert_eq!(txs[0].vin[0].signature, GENESIS_COINBASE_DATA.as_bytes().to_vec());
    assert_eq!(
        txs[0].vout,
        vec![TXOutput { value: SUBSIDY, pub_key_hash: alice.locking_hash() }]
    );
    assert_eq!(
        store.get(TIP_KEY).unwrap().unwrap().to_vec(),
        genesis.get_hash().into_bytes()
    );
    assert!(store.get(genesis.get_hash()).unwrap().is_some());
    assert_eq!(store.len(), 2);
}

#[test]
fn chain_cannot_be_created_twice() {
    let alice = owner(1);
    let store = fresh_store();
    let bc = Blockchain::create_blockchain(store.clone(), address_for(&alice)).unwrap();
    let tip = bc.get_block_hashs().unwrap();
    assert_eq!(
        Blockchain::create_blockchain(store.clone(), address_for(&alice)).err(),
        Some(LedgerError::AlreadyExists)
    );
    assert_eq!(store.len(), 2);
    assert_eq!(Blockchain::new(store).unwrap().get_block_hashs().unwrap(), tip);
}

#[test]
fn chain_for_no_address_is_not_created() {
    let store = fresh_store();
    assert_eq!(
        Blockchain::create_blockchain(store.clone(), String::from("nobody")).err(),
        Some(LedgerError::EncodingError)
    );
    assert_eq!(store.len(), 0);
}

#[test]
fn opened_chain_is_the_created_one() {
    let alice = owner(1);
    let store = fresh_store();
    let made = Blockchain::create_blockchain(store.clone(), address_for(&alice)).unwrap();
    let opened = Blockchain::new(store).unwrap();
    assert_eq!(opened.get_block_hashs(), made.get_block_hashs());
    assert_eq!(opened.get_best_height(), Ok(0));
}

#[test]
fn tip_pointer_that_is_no_text_is_an_encoding_error() {
    let store = fresh_store();
    store.insert(TIP_KEY, vec![0xffu8, 0xfe]).unwrap();
    assert_eq!(Blockchain::new(store).err(), Some(LedgerError::EncodingError));
}

#[test]
fn mined_chain_is_walked_from_tip_to_first_block() {
    let alice = owner(1);
    let mut bc = Blockchain::create_blockchain(fresh_store(), address_for(&alice)).unwrap();
    let first = bc.mine_block(vec![reward(&alice, "one")]).unwrap();
    let second = bc.mine_block(vec![reward(&alice, "two")]).unwrap();
    assert_eq!(first.get_height(), 1);
    assert_eq!(second.get_height(), 2);
    assert_eq!(second.get_prev_hash(), first.get_hash());
    assert_eq!(bc.get_best_height(), Ok(2));
    let blocks = walk_all(&bc);
    assert_eq!(blocks.len(), 3);
    assert_eq!(blocks, bc.blocks().unwrap());
    assert_eq!(blocks[0], second);
    assert_eq!(blocks[1], first);
    assert_eq!(blocks[1].get_prev_hash(), blocks[2].get_hash());
    assert_eq!(blocks[2].get_prev_hash(), "");
    for (i, block) in blocks.iter().enumerate() {
        assert_eq!(block.get_height(), 2 - i as i32);
        assert!(block.get_hash().starts_with("0000"));
        assert_eq!(block.validate(), Ok(true));
    }
    let hashes: Vec<String> = blocks.iter().map(|b| b.get_hash()).collect();
    assert_eq!(bc.get_block_hashs(), Ok(hashes));
}

#[test]
fn walk_can_be_started_again() {
    let alice = owner(1);
    let mut bc = Blockchain::create_blockchain(fresh_store(), address_for(&alice)).unwrap();
    bc.mine_block(vec![reward(&alice, "one")]).unwrap();
    let mut walker = bc.iter();
    assert!(walker.next().unwrap().is_some());
    assert!(walker.next().unwrap().is_some());
    assert_eq!(walker.next(), Ok(None));
    assert_eq!(walker.next(), Ok(None));
    assert_eq!(walk_all(&bc).len(), 2);
    assert_eq!(walk_all(&bc).len(), 2);
}

#[test]
fn stored_block_is_read_back_as_it_was_mined() {
    let alice = owner(1);
    let mut bc = Blockchain::create_blockchain(fresh_store(), address_for(&alice)).unwrap();
    let mined = bc.mine_block(vec![reward(&alice, "one"), reward(&alice, "two")]).unwrap();
    assert_eq!(bc.get_block(&mined.get_hash()), Ok(mined));
}

#[test]
fn unknown_block_is_not_found() {
    let alice = owner(1);
    let bc = Blockchain::create_blockchain(fresh_store(), address_for(&alice)).unwrap();
    assert_eq!(bc.get_block("no such hash"), Err(LedgerError::NotFound));
}

#[test]
fn bytes_that_are_no_block_are_an_encoding_error() {
    let alice = owner(1);
    let store = fresh_store();
    let bc = Blockchain::create_blockchain(store.clone(), address_for(&alice)).unwrap();
    store.insert("broken", vec![1u8, 2, 3]).unwrap();
    assert_eq!(bc.get_block("broken"), Err(LedgerError::EncodingError));
    store.insert(TIP_KEY, "broken").unwrap();
    assert_eq!(bc.get_best_height(), Err(LedgerError::EncodingError));
    store.insert(TIP_KEY, "absent").unwrap();
    assert_eq!(bc.get_best_height(), Err(LedgerError::NotFound));
    store.remove(TIP_KEY).unwrap();
    assert_eq!(bc.get_best_height(), Ok(-1));
}

#[test]
fn mining_nothing_is_refused_and_changes_nothing() {
    let alice = owner(1);
    let store = fresh_store();
    let mut bc = Blockchain::create_blockchain(store.clone(), address_for(&alice)).unwrap();
    let before = bc.get_block_hashs().unwrap();
    assert_eq!(bc.mine_block(Vec::new()), Err(LedgerError::InvalidTransaction));
    assert_eq!(bc.get_block_hashs().unwrap(), before);
    assert_eq!(store.len(), 2);
}

#[test]
fn transaction_that_does_not_verify_is_not_mined() {
    let alice = owner(1);
    let bob = owner(2);
    let store = fresh_store();
    let mut bc = Blockchain::create_blockchain(store.clone(), address_for(&alice)).unwrap();
    let genesis = bc.blocks().unwrap().pop().unwrap();
    let funding = genesis.get_transaction()[0].clone();
    let mut tx = Transaction {
        id: String::new(),
        vin: vec![TXInput {
            txid: funding.id.clone(),
            vout: 0,
            signature: Vec::new(),
            pub_key: alice.public_key.clone(),
        }],
        vout: vec![TXOutput { value: SUBSIDY, pub_key_hash: bob.locking_hash() }],
    };
    tx.id = tx.hash().unwrap();
    assert_eq!(bc.verify_transaction(&tx), Ok(false));
    assert_eq!(bc.mine_block(vec![tx.clone()]), Err(LedgerError::InvalidTransaction));
    assert_eq!(bc.get_best_height(), Ok(0));
    assert_eq!(store.len(), 2);
    assert_eq!(bc.sign_transaction(&mut tx, &alice.secret_key), Ok(()));
    assert_eq!(bc.verify_transaction(&tx), Ok(true));
    let mut forged = tx.clone();
    forged.vout[0].value = 1;
    assert_eq!(bc.mine_block(vec![reward(&bob, "fee"), forged]), Err(LedgerError::InvalidTransaction));
    assert_eq!(bc.get_best_height(), Ok(0));
    let mined = bc.mine_block(vec![tx.clone()]).unwrap();
    assert_eq!(mined.get_transaction(), &vec![tx]);
    assert_eq!(bc.get_best_height(), Ok(1));
}

#[test]
fn transaction_with_unknown_ancestor_is_not_found() {
    let alice = owner(1);
    let store = fresh_store();
    let mut bc = Blockchain::create_blockchain(store.clone(), address_for(&alice)).unwrap();
    let mut tx = Transaction {
        id: String::new(),
        vin: vec![TXInput {
            txid: String::from("unknown"),
            vout: 0,
            signature: Vec::new(),
            pub_key: alice.public_key.clone(),
        }],
        vout: vec![TXOutput { value: 1, pub_key_hash: alice.locking_hash() }],
    };
    tx.id = tx.hash().unwrap();
    let before = tx.clone();
    assert_eq!(bc.verify_transaction(&tx), Err(LedgerError::NotFound));
    assert_eq!(bc.sign_transaction(&mut tx, &alice.secret_key), Err(LedgerError::NotFound));
    assert_eq!(tx, before);
    assert_eq!(bc.mine_block(vec![tx]), Err(LedgerError::NotFound));
    assert_eq!(store.len(), 2);
}

#[test]
fn transaction_is_found_by_its_identifier() {
    let alice = owner(1);
    let mut bc = Blockchain::create_blockchain(fresh_store(), address_for(&alice)).unwrap();
    let one = reward(&alice, "one");
    let two = reward(&alice, "two");
    bc.mine_block(vec![one.clone(), two.clone()]).unwrap();
    assert_eq!(bc.find_transaction(&one.id), Ok(one.clone()));
    assert_eq!(bc.find_transaction(&two.id), Ok(two.clone()));
    assert_eq!(bc.find_transaction("none"), Err(LedgerError::NotFound));
    let blocks = bc.blocks().unwrap();
    assert_eq!(find_in_blocks(&blocks, &two.id), Some(two));
    assert_eq!(find_in_blocks(&blocks, &String::from("none")), None);
}

#[test]
fn block_from_elsewhere_is_accepted_once() {
    let alice = owner(1);
    let store = fresh_store();
    let mut bc = Blockchain::create_blockchain(store.clone(), address_for(&alice)).unwrap();
    let genesis_hash = bc.get_block_hashs().unwrap()[0].clone();
    let foreign = Block::seal(vec![reward(&alice, "far")], genesis_hash, 1, 77).unwrap();
    assert_eq!(bc.add_block(foreign.clone()), Ok(()));
    let tip_after_first = store.get(TIP_KEY).unwrap();
    let hashes_after_first = bc.get_block_hashs().unwrap();
    assert_eq!(store.len(), 3);
    assert_eq!(bc.add_block(foreign.clone()), Ok(()));
    assert_eq!(store.len(), 3);
    assert_eq!(store.get(TIP_KEY).unwrap(), tip_after_first);
    assert_eq!(bc.get_block_hashs().unwrap(), hashes_after_first);
    assert_eq!(bc.get_block(&foreign.get_hash()), Ok(foreign));
}

#[test]
fn only_a_higher_block_becomes_the_tip() {
    let alice = owner(1);
    let store = fresh_store();
    let mut bc = Blockchain::create_blockchain(store.clone(), address_for(&alice)).unwrap();
    let mined = bc.mine_block(vec![reward(&alice, "one")]).unwrap();
    let genesis_hash = mined.get_prev_hash();
    let level = Block::seal(vec![reward(&alice, "level")], genesis_hash.clone(), 1, 5).unwrap();
    let lower = Block::seal(vec![reward(&alice, "lower")], String::new(), 0, 5).unwrap();
    assert_eq!(bc.add_block(level.clone()), Ok(()));
    assert_eq!(bc.add_block(lower.clone()), Ok(()));
    assert_eq!(bc.get_best_height(), Ok(1));
    assert_eq!(bc.get_block_hashs().unwrap()[0], mined.get_hash());
    assert_eq!(store.get(TIP_KEY).unwrap().unwrap().to_vec(), mined.get_hash().into_bytes());
    assert_eq!(bc.get_block(&level.get_hash()), Ok(level));
    assert_eq!(bc.get_block(&lower.get_hash()), Ok(lower));
    let higher = Block::seal(vec![reward(&alice, "higher")], mined.get_hash(), 2, 5).unwrap();
    assert_eq!(bc.add_block(higher.clone()), Ok(()));
    assert_eq!(bc.get_best_height(), Ok(2));
    assert_eq!(store.get(TIP_KEY).unwrap().unwrap().to_vec(), higher.get_hash().into_bytes());
    assert_eq!(
        bc.get_block_hashs().unwrap(),
        vec![higher.get_hash(), mined.get_hash(), genesis_hash]
    );
}

#[test]
fn accepted_block_is_not_checked() {
    let alice = owner(1);
    let mut bc = Blockchain::create_blockchain(fresh_store(), address_for(&alice)).unwrap();
    let far = Block::seal(vec![reward(&alice, "far")], String::from("unknown"), 9, 5).unwrap();
    assert_eq!(bc.add_block(far.clone()), Ok(()));
    assert_eq!(bc.get_best_height(), Ok(9));
    assert_eq!(bc.blocks().unwrap(), vec![far]);
}

#[test]
fn walk_follows_the_hashes_whatever_the_heights() {
    let alice = owner(1);
    let mut bc = Blockchain::create_blockchain(fresh_store(), address_for(&alice)).unwrap();
    let genesis = bc.blocks().unwrap().pop().unwrap();
    let above = Block::seal(vec![reward(&alice, "above")], genesis.get_hash(), 0, 5).unwrap();
    let tip = Block::seal(vec![reward(&alice, "tip")], above.get_hash(), 1, 5).unwrap();
    bc.add_block(above.clone()).unwrap();
    bc.add_block(tip.clone()).unwrap();
    assert_eq!(bc.blocks().unwrap(), vec![tip.clone(), above.clone(), genesis.clone()]);
    assert_eq!(
        bc.get_block_hashs().unwrap(),
        vec![tip.get_hash(), above.get_hash(), genesis.get_hash()]
    );
    let first = genesis.get_transaction()[0].clone();
    assert_eq!(bc.find_transaction(&first.id), Ok(first.clone()));
    let index = bc.find_utxo().unwrap();
    assert_eq!(index.count_transactions(), 3);
    assert_eq!(index.balance(&alice.locking_hash()), 30);
    assert!(index.position(&first.id).is_some());
}

#[test]
fn walk_stops_with_an_error_at_bytes_that_are_no_block() {
    let alice = owner(1);
    let store = fresh_store();
    let mut bc = Blockchain::create_blockchain(store.clone(), address_for(&alice)).unwrap();
    let genesis_hash = bc.get_block_hashs().unwrap()[0].clone();
    bc.mine_block(vec![reward(&alice, "one")]).unwrap();
    store.insert(genesis_hash.as_bytes(), vec![1u8, 2, 3]).unwrap();
    let mut walker = bc.iter();
    assert!(walker.next().unwrap().is_some());
    assert_eq!(walker.next(), Err(LedgerError::EncodingError));
    assert_eq!(walker.next(), Err(LedgerError::EncodingError));
    assert_eq!(bc.blocks(), Err(LedgerError::EncodingError));
    assert_eq!(bc.find_transaction("any"), Err(LedgerError::EncodingError));
    assert_eq!(bc.find_utxo().err(), Some(LedgerError::EncodingError));
    store.remove(genesis_hash.as_bytes()).unwrap();
    assert_eq!(bc.blocks().unwrap().len(), 1);
}

#[test]
fn mining_goes_on_from_an_accepted_tip() {
    let alice = owner(1);
    let mut bc = Blockchain::create_blockchain(fresh_store(), address_for(&alice)).unwrap();
    let genesis_hash = bc.get_block_hashs().unwrap()[0].clone();
    let foreign = Block::seal(vec![reward(&alice, "far")], genesis_hash, 1, 77).unwrap();
    bc.add_block(foreign.clone()).unwrap();
    let mined = bc.mine_block(vec![reward(&alice, "next")]).unwrap();
    assert_eq!(mined.get_height(), 2);
    assert_eq!(mined.get_prev_hash(), foreign.get_hash());
    assert_eq!(bc.blocks().unwrap().len(), 3);
}

#[test]
fn nothing_is_mined_above_the_greatest_height() {
    let alice = owner(1);
    let store = fresh_store();
    let mut bc = Blockchain::create_blockchain(store.clone(), address_for(&alice)).unwrap();
    let genesis_hash = bc.get_block_hashs().unwrap()[0].clone();
    let top = Block::seal(vec![reward(&alice, "top")], genesis_hash, i32::MAX, 5).unwrap();
    bc.add_block(top.clone()).unwrap();
    assert_eq!(bc.get_best_height(), Ok(i32::MAX));
    assert_eq!(bc.mine_block(vec![reward(&alice, "more")]), Err(LedgerError::SealFailure));
    assert_eq!(store.len(), 3);
    assert_eq!(bc.get_block_hashs().unwrap()[0], top.get_hash());
}

#[test]
fn coinbase_is_signed_and_verified_without_the_chain() {
    let alice = owner(1);
    let bc = Blockchain::create_blockchain(fresh_store(), address_for(&alice)).unwrap();
    let mut tx = reward(&alice, "free");
    let before = tx.clone();
    assert_eq!(bc.sign_transaction(&mut tx, &alice.secret_key), Ok(()));
    assert_eq!(tx, before);
    assert_eq!(bc.verify_transaction(&tx), Ok(true));
}

#[test]
fn nothing_is_mined_without_a_tip_pointer() {
    let alice = owner(1);
    let store = fresh_store();
    let mut bc = Blockchain::create_blockchain(store.clone(), address_for(&alice)).unwrap();
    store.remove(TIP_KEY).unwrap();
    assert_eq!(bc.mine_block(vec![reward(&alice, "one")]), Err(LedgerError::NotInitialized));
    assert_eq!(bc.mine_block(Vec::new()), Err(LedgerError::NotInitialized));
    assert_eq!(store.len(), 1);
}

#[test]
fn first_transaction_that_fails_decides_the_error() {
    let alice = owner(1);
    let store = fresh_store();
    let mut bc = Blockchain::create_blockchain(store.clone(), address_for(&alice)).unwrap();
    let funding = bc.blocks().unwrap()[0].get_transaction()[0].clone();
    let unsigned = Transaction {
        id: String::from("unsigned"),
        vin: vec![TXInput {
            txid: funding.id.clone(),
            vout: 0,
            signature: Vec::new(),
            pub_key: alice.public_key.clone(),
        }],
        vout: vec![TXOutput { value: 1, pub_key_hash: alice.locking_hash() }],
    };
    let orphan = Transaction {
        id: String::from("orphan"),
        vin: vec![TXInput {
            txid: String::from("unknown"),
            vout: 0,
            signature: Vec::new(),
            pub_key: alice.public_key.clone(),
        }],
        vout: vec![TXOutput { value: 1, pub_key_hash: alice.locking_hash() }],
    };
    assert_eq!(
        bc.mine_block(vec![reward(&alice, "ok"), unsigned.clone(), orphan.clone()]),
        Err(LedgerError::InvalidTransaction)
    );
    assert_eq!(
        bc.mine_block(vec![reward(&alice, "ok"), orphan, unsigned]),
        Err(LedgerError::NotFound)
    );
    assert_eq!(store.len(), 2);
    assert_eq!(bc.get_best_height(), Ok(0));
}

#[test]
fn block_is_made_at_a_time_in_seconds() {
    let alice = owner(1);
    let block = Block::new_block(vec![reward(&alice, "now")], String::new(), 0).unwrap();
    assert!(block.get_timestamp() > 1_600_000_000);
    assert!(block.get_timestamp() < 100_000_000_000);
}
