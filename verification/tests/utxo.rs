use bitcoincash_addr::{Address, HashType, Network, Scheme};
use blockchain_rust_demo::block::Block;
use blockchain_rust_demo::blockchain::Blockchain;
use blockchain_rust_demo::errors::LedgerError;
use blockchain_rust_demo::transaction::{Transaction, SUBSIDY};
use blockchain_rust_demo::tx::{TXInput, TXOutput};
use blockchain_rust_demo::spendable::SpendableOutput;
use blockchain_rust_demo::utxo_index::{
    created_outputs, outputs_without, Unspent, UtxoEntry, UtxoIndex,
};
use blockchain_rust_demo::utxoset::UTXOSet;
use blockchain_rust_demo::wallet::Wallet;

fn temporary() -> sled::Db {
    sled::Config::new().temporary(true).open().unwrap()
}

fn holder(n: u8) -> Wallet {
    Wallet::from_seed(&[n; 32]).unwrap()
}

fn address(wallet: &Wallet) -> String {
    Address::new(wallet.locking_hash(), Scheme::Base58, HashType::Key, Network::Main)
        .encode()
        .unwrap()
}

fn coinbase(wallet: &Wallet, data: &str) -> Transaction {
    Transaction::new_coinbase(address(wallet), String::from(data)).unwrap()
}

fn paying(id: &str, spends: &[(&str, i32)], pays: &[(i32, u8)]) -> Transaction {
    Transaction {
        id: String::from(id),
        vin: spends
            .iter()
            .map(|(txid, vout)| TXInput {
                txid: String::from(*txid),
                vout: *vout,
                signature: Vec::new(),
                pub_key: Vec::new(),
            })
            .collect(),
        vout: pays
            .iter()
            .map(|(value, owner)| TXOutput { value: *value, pub_key_hash: vec![*owner; 20] })
            .collect(),
    }
}

fn unspent(vout: i32, value: i32, owner: u8) -> Unspent {
    Unspent { vout, output: TXOutput { value, pub_key_hash: vec![owner; 20] } }
}

fn entry(txid: &str, outputs: Vec<Unspent>) -> UtxoEntry {
    UtxoEntry { txid: String::from(txid), outputs }
}

fn sorted(mut index: UtxoIndex) -> Vec<UtxoEntry> {
    index.entries.sort_by(|a, b| a.txid.cmp(&b.txid));
    index.entries
}

fn set_for(owner: &Wallet) -> UTXOSet {
    let bc = Blockchain::create_blockchain(temporary(), address(owner)).unwrap();
    UTXOSet::new(bc, temporary())
}

#[test]
fn outputs_enter_the_index_with_their_positions() {
    let mut index = UtxoIndex::new();
    assert_eq!(index.count_transactions(), 0);
    index.add_outputs(&paying("a", &[], &[(5, 1), (6, 2), (7, 1)]));
    assert_eq!(
        index.entries,
        vec![entry("a", vec![unspent(0, 5, 1), unspent(1, 6, 2), unspent(2, 7, 1)])]
    );
    assert_eq!(index.count_transactions(), 1);
    assert_eq!(index.position(&String::from("a")), Some(0));
    assert_eq!(index.position(&String::from("b")), None);
}

#[test]
fn output_of_negative_value_never_enters_the_index() {
    let tx = paying("a", &[], &[(5, 1), (-1, 1), (0, 1)]);
    assert_eq!(created_outputs(&tx), vec![unspent(0, 5, 1), unspent(2, 0, 1)]);
    let mut index = UtxoIndex::new();
    index.add_outputs(&paying("b", &[], &[(-3, 1)]));
    assert_eq!(index.entries, Vec::new());
}

#[test]
fn spent_output_leaves_by_its_position() {
    let mut index = UtxoIndex::new();
    index.add_outputs(&paying("a", &[], &[(5, 1), (6, 2), (7, 1)]));
    index.spend(&String::from("a"), 0);
    assert_eq!(index.entries, vec![entry("a", vec![unspent(1, 6, 2), unspent(2, 7, 1)])]);
    index.spend(&String::from("a"), 2);
    assert_eq!(index.entries, vec![entry("a", vec![unspent(1, 6, 2)])]);
    index.spend(&String::from("a"), 0);
    index.spend(&String::from("a"), 7);
    index.spend(&String::from("b"), 1);
    assert_eq!(index.entries, vec![entry("a", vec![unspent(1, 6, 2)])]);
    index.spend(&String::from("a"), 1);
    assert_eq!(index.entries, Vec::new());
    assert_eq!(
        outputs_without(&vec![unspent(0, 5, 1), unspent(1, 6, 2)], 1),
        vec![unspent(0, 5, 1)]
    );
}

#[test]
fn later_transaction_takes_the_place_of_one_with_the_same_identifier() {
    let mut index = UtxoIndex::new();
    index.apply(&paying("a", &[("", -1)], &[(5, 1)]));
    index.apply(&paying("b", &[("", -1)], &[(6, 1)]));
    index.apply(&paying("a", &[("", -1)], &[(7, 2), (8, 2)]));
    assert_eq!(
        sorted(index),
        vec![entry("a", vec![unspent(0, 7, 2), unspent(1, 8, 2)]), entry("b", vec![unspent(0, 6, 1)])]
    );
}

#[test]
fn transfer_spends_its_inputs_and_adds_its_outputs() {
    let mut index = UtxoIndex::new();
    index.apply_all(&vec![
        paying("a", &[("", -1)], &[(10, 1)]),
        paying("b", &[("a", 0)], &[(4, 2), (6, 1)]),
        paying("c", &[("b", 1), ("b", 5)], &[(6, 3)]),
    ]);
    assert_eq!(
        sorted(index),
        vec![entry("b", vec![unspent(0, 4, 2)]), entry("c", vec![unspent(0, 6, 3)])]
    );
}

#[test]
fn coinbase_spends_nothing() {
    let mut index = UtxoIndex::new();
    index.add_outputs(&paying("", &[], &[(1, 1)]));
    index.apply(&paying("cb", &[("", -1)], &[(10, 1)]));
    assert_eq!(index.count_transactions(), 2);
}

#[test]
fn gathering_stops_once_the_amount_is_covered() {
    let mut index = UtxoIndex::new();
    index.add_outputs(&paying("a", &[], &[(5, 1), (6, 2), (7, 1)]));
    index.add_outputs(&paying("b", &[], &[(2, 1), (9, 1)]));
    let pick = |txid: &str, vout: i32, value: i32| SpendableOutput { txid: String::from(txid), vout, value };
    assert_eq!(index.find_spendable_outputs(&[1u8; 20], 5), (5, vec![pick("a", 0, 5)]));
    assert_eq!(
        index.find_spendable_outputs(&[1u8; 20], 6),
        (12, vec![pick("a", 0, 5), pick("a", 2, 7)])
    );
    assert_eq!(
        index.find_spendable_outputs(&[1u8; 20], 13),
        (14, vec![pick("a", 0, 5), pick("a", 2, 7), pick("b", 0, 2)])
    );
    assert_eq!(
        index.find_spendable_outputs(&[1u8; 20], 23),
        (23, vec![pick("a", 0, 5), pick("a", 2, 7), pick("b", 0, 2), pick("b", 1, 9)])
    );
    assert_eq!(
        index.find_spendable_outputs(&[1u8; 20], 24),
        (23, vec![pick("a", 0, 5), pick("a", 2, 7), pick("b", 0, 2), pick("b", 1, 9)])
    );
    assert_eq!(index.find_spendable_outputs(&[1u8; 20], 0), (0, Vec::new()));
    assert_eq!(index.find_spendable_outputs(&[1u8; 20], -4), (0, Vec::new()));
    assert_eq!(index.find_spendable_outputs(&[3u8; 20], 1), (0, Vec::new()));
    assert_eq!(index.find_spendable_outputs(&[2u8; 20], 100), (6, vec![pick("a", 1, 6)]));
}

#[test]
fn balance_adds_up_what_an_owner_has() {
    let mut index = UtxoIndex::new();
    index.add_outputs(&paying("a", &[], &[(5, 1), (6, 2), (7, 1)]));
    index.add_outputs(&paying("b", &[], &[(2, 1), (9, 1)]));
    assert_eq!(index.balance(&[1u8; 20]), 23);
    assert_eq!(index.balance(&[2u8; 20]), 6);
    assert_eq!(index.balance(&[3u8; 20]), 0);
    assert_eq!(index.find_utxo(&[2u8; 20]), vec![SpendableOutput { txid: String::from("a"), vout: 1, value: 6 }]);
    assert_eq!(index.find_utxo(&[1u8; 20]).len(), 4);
    let mut rich = UtxoIndex::new();
    rich.add_outputs(&paying("r", &[], &[(i32::MAX, 1), (i32::MAX, 1), (1, 1)]));
    assert_eq!(rich.balance(&[1u8; 20]), 2 * (i32::MAX as i64) + 1);
}

#[test]
fn rebuild_goes_from_the_first_block_to_the_tip() {
    let first = Block::seal(vec![paying("a", &[("", -1)], &[(10, 1)])], String::new(), 0, 1).unwrap();
    let second = Block::seal(
        vec![paying("b", &[("a", 0)], &[(3, 2), (7, 1)])],
        first.get_hash(),
        1,
        2,
    )
    .unwrap();
    let index = UtxoIndex::rebuild(&vec![second.clone(), first.clone()]);
    assert_eq!(index.entries, vec![entry("b", vec![unspent(0, 3, 2), unspent(1, 7, 1)])]);
    let mut stepwise = UtxoIndex::rebuild(&vec![first]);
    assert_eq!(stepwise.entries, vec![entry("a", vec![unspent(0, 10, 1)])]);
    stepwise.apply_all(second.get_transaction());
    assert_eq!(stepwise, index);
}

#[test]
fn reindex_finds_the_reward_of_the_first_block() {
    let alice = holder(1);
    let mut set = set_for(&alice);
    assert_eq!(set.count_transactions(), Ok(0));
    assert_eq!(set.balance(&alice.locking_hash()), Ok(0));
    assert_eq!(set.reindex(), Ok(()));
    assert_eq!(set.count_transactions(), Ok(1));
    assert_eq!(set.balance(&alice.locking_hash()), Ok(SUBSIDY as i64));
    let outputs = set.find_utxo(&alice.locking_hash()).unwrap();
    assert_eq!(outputs.len(), 1);
    assert_eq!(outputs[0].vout, 0);
    assert_eq!(outputs[0].value, SUBSIDY);
    assert_eq!(set.find_utxo(&holder(2).locking_hash()), Ok(Vec::new()));
}

#[test]
fn transfer_of_half_the_reward() {
    let alice = holder(1);
    let bob = holder(2);
    let mut set = set_for(&alice);
    set.reindex().unwrap();
    let tx = Transaction::new_utxo(&alice, &address(&bob), SUBSIDY / 2, &set).unwrap();
    assert_eq!(tx.vin.len(), 1);
    assert_eq!(tx.vin[0].vout, 0);
    assert_eq!(tx.vin[0].pub_key, alice.public_key);
    assert_eq!(
        tx.vout,
        vec![
            TXOutput { value: 5, pub_key_hash: bob.locking_hash() },
            TXOutput { value: 5, pub_key_hash: alice.locking_hash() },
        ]
    );
    assert_eq!(tx.hash(), Ok(tx.id.clone()));
    assert_eq!(set.blockchain.verify_transaction(&tx), Ok(true));
    let block = set.blockchain.mine_block(vec![tx.clone()]).unwrap();
    assert_eq!(block.get_height(), 1);
    assert_eq!(set.balance(&alice.locking_hash()), Ok(10));
    assert_eq!(set.update(&block), Ok(()));
    assert_eq!(set.balance(&alice.locking_hash()), Ok(5));
    assert_eq!(set.balance(&bob.locking_hash()), Ok(5));
    assert_eq!(set.count_transactions(), Ok(1));
}

#[test]
fn transfer_of_the_whole_reward_leaves_no_change() {
    let alice = holder(1);
    let bob = holder(2);
    let mut set = set_for(&alice);
    set.reindex().unwrap();
    let tx = Transaction::new_utxo(&alice, &address(&bob), SUBSIDY, &set).unwrap();
    assert_eq!(tx.vout, vec![TXOutput { value: 10, pub_key_hash: bob.locking_hash() }]);
    let block = set.blockchain.mine_block(vec![coinbase(&alice, "fee"), tx]).unwrap();
    set.update(&block).unwrap();
    assert_eq!(set.balance(&alice.locking_hash()), Ok(10));
    assert_eq!(set.balance(&bob.locking_hash()), Ok(10));
    assert_eq!(set.count_transactions(), Ok(2));
}

#[test]
fn transfer_beyond_the_funds_is_refused() {
    let alice = holder(1);
    let bob = holder(2);
    let mut set = set_for(&alice);
    set.reindex().unwrap();
    assert_eq!(
        Transaction::new_utxo(&alice, &address(&bob), SUBSIDY + 1, &set),
        Err(LedgerError::InsufficientFunds)
    );
    assert_eq!(
        Transaction::new_utxo(&bob, &address(&alice), 1, &set),
        Err(LedgerError::InsufficientFunds)
    );
    assert_eq!(
        Transaction::new_utxo(&alice, &address(&bob), -1, &set),
        Err(LedgerError::InvalidTransaction)
    );
    assert_eq!(
        Transaction::new_utxo(&alice, "nowhere", 1, &set),
        Err(LedgerError::EncodingError)
    );
    assert_eq!(
        set.find_spendable_outputs(&alice.locking_hash(), 11).map(|found| found.0),
        Ok(10)
    );
    assert_eq!(
        set.find_spendable_outputs(&alice.locking_hash(), 3).map(|found| found.0),
        Ok(10)
    );
}

#[test]
fn index_brought_forward_is_the_index_rebuilt() {
    let alice = holder(1);
    let bob = holder(2);
    let mut stepwise = set_for(&alice);
    stepwise.reindex().unwrap();
    let mut blocks = Vec::new();
    for round in 0..3 {
        let tx = Transaction::new_utxo(&alice, &address(&bob), 3, &stepwise).unwrap();
        let fee = coinbase(&bob, &format!("round {}", round));
        let block = stepwise.blockchain.mine_block(vec![fee, tx]).unwrap();
        stepwise.update(&block).unwrap();
        blocks.push(block);
    }
    let by_steps = sorted(stepwise.blockchain.find_utxo().unwrap());
    let mut kept: Vec<(Vec<u8>, Vec<u8>)> = stepwise
        .store
        .iter()
        .map(|item| item.map(|(k, v)| (k.to_vec(), v.to_vec())).unwrap())
        .collect();
    assert_eq!(stepwise.reindex(), Ok(()));
    let mut rebuilt: Vec<(Vec<u8>, Vec<u8>)> = stepwise
        .store
        .iter()
        .map(|item| item.map(|(k, v)| (k.to_vec(), v.to_vec())).unwrap())
        .collect();
    kept.sort();
    rebuilt.sort();
    assert_eq!(kept, rebuilt);
    assert_eq!(kept.len(), by_steps.len());
    assert_eq!(stepwise.balance(&alice.locking_hash()), Ok(1));
    assert_eq!(stepwise.balance(&bob.locking_hash()), Ok(39));
    assert_eq!(stepwise.count_transactions(), Ok(6));
}

#[test]
fn record_that_cannot_be_read_is_an_encoding_error() {
    let alice = holder(1);
    let mut set = set_for(&alice);
    set.reindex().unwrap();
    set.store.insert("broken", vec![9u8]).unwrap();
    assert_eq!(set.balance(&alice.locking_hash()), Err(LedgerError::EncodingError));
    assert_eq!(set.count_transactions(), Err(LedgerError::EncodingError));
    let block = set.blockchain.mine_block(vec![coinbase(&alice, "next")]).unwrap();
    assert_eq!(set.update(&block), Err(LedgerError::EncodingError));
    assert_eq!(set.store.len(), 2);
    assert_eq!(set.reindex(), Ok(()));
    assert_eq!(set.balance(&alice.locking_hash()), Ok(20));
}

#[test]
fn stored_index_is_listed_in_the_order_of_its_keys() {
    let alice = holder(1);
    let mut set = set_for(&alice);
    let block = set
        .blockchain
        .mine_block(vec![coinbase(&alice, "b"), coinbase(&alice, "a"), coinbase(&alice, "c")])
        .unwrap();
    assert_eq!(block.get_transaction().len(), 3);
    set.reindex().unwrap();
    let outputs = set.find_utxo(&alice.locking_hash()).unwrap();
    assert_eq!(outputs.len(), 4);
    for pair in outputs.windows(2) {
        assert!(pair[0].txid < pair[1].txid);
    }
    let (total, gathered) = set.find_spendable_outputs(&alice.locking_hash(), 11).unwrap();
    assert_eq!(total, 20);
    assert_eq!(gathered, vec![
        SpendableOutput { txid: outputs[0].txid.clone(), vout: 0, value: 10 },
        SpendableOutput { txid: outputs[1].txid.clone(), vout: 0, value: 10 },
    ]);
}
