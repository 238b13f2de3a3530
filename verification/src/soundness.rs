use crate::block::{meets_target, sealed, BlockView, HASH_LEN};
use crate::blockchain::{
    best_height_of, block_under, key_of, tip_key, walk, Entries, MAX_STEPS, TIP_KEY,
};
use crate::encoding::block_decoding;
use crate::errors::LedgerError;
use crate::text::lemma_encoding_tells_texts_apart;
use vstd::prelude::*;

verus! {

/// The block with the hash `hash` lies at `height`, is sealed and kept
/// under its own hash, and so is every block before it, down to the first
/// block, which lies at height 0 and names no block before it.
pub open spec fn linked(entries: Entries, hash: Seq<char>, height: int) -> bool
    decreases height,
{
    &&& height >= 0
    &&& hash.len() == HASH_LEN
    &&& block_under(entries, key_of(hash)) matches Ok(block)
    &&& block.hash == hash
    &&& block.height == height
    &&& sealed(block)
    &&& if height == 0 {
        block.prev_block_hash.len() == 0
    } else {
        linked(entries, block.prev_block_hash, height - 1)
    }
}

/// The store holds a sound chain that ends in `tip`: the tip pointer names
/// `tip`, and the blocks from there to the first one are linked.
pub open spec fn sound_chain(entries: Entries, tip: Seq<char>) -> bool {
    &&& entries.contains_key(tip_key())
    &&& entries[tip_key()] == key_of(tip)
    &&& block_under(entries, key_of(tip)) matches Ok(block)
    &&& linked(entries, tip, block.height as int)
}

/// `after` keeps every block of `before` that lies under a block hash.
pub open spec fn keeps_blocks(before: Entries, after: Entries) -> bool {
    forall|hash: Seq<char>|
        hash.len() == HASH_LEN && before.contains_key(#[trigger] key_of(hash))
            ==> after.contains_key(key_of(hash)) && after[key_of(hash)] == before[key_of(hash)]
}

/// The key of a block hash is not the key of the tip pointer.
pub proof fn lemma_block_key_is_no_tip_key(hash: Seq<char>)
    requires
        hash.len() == HASH_LEN,
    ensures
        key_of(hash) != tip_key(),
{
    reveal_strlit("LAST");
    if key_of(hash) == tip_key() {
        lemma_encoding_tells_texts_apart(hash, TIP_KEY@);
    }
}

/// Putting something under a key that the store lacks, or under the key of
/// the tip pointer, keeps every block.
pub proof fn lemma_insert_keeps_blocks(entries: Entries, key: Seq<u8>, value: Seq<u8>)
    requires
        !entries.contains_key(key) || key == tip_key(),
    ensures
        keeps_blocks(entries, entries.insert(key, value)),
{
    assert forall|hash: Seq<char>|
        hash.len() == HASH_LEN && entries.contains_key(#[trigger] key_of(hash)) implies entries.insert(
        key,
        value,
    ).contains_key(key_of(hash)) && entries.insert(key, value)[key_of(hash)] == entries[key_of(
        hash,
    )] by {
        lemma_block_key_is_no_tip_key(hash);
    }
}

/// A linked chain stays linked, and is walked as before, in a store that
/// keeps every block.
pub proof fn lemma_linked_is_kept(
    before: Entries,
    after: Entries,
    hash: Seq<char>,
    height: int,
    steps: nat,
    steps_after: nat,
)
    requires
        linked(before, hash, height),
        keeps_blocks(before, after),
        height < steps,
        height < steps_after,
    ensures
        linked(after, hash, height),
        walk(after, hash, steps_after) == walk(before, hash, steps),
    decreases height,
{
    assert(before.contains_key(key_of(hash)));
    assert(after[key_of(hash)] == before[key_of(hash)]);
    let block = block_under(before, key_of(hash))->Ok_0;
    assert(block_decoding(before[key_of(hash)]) == Some(block));
    if height > 0 {
        lemma_linked_is_kept(
            before,
            after,
            block.prev_block_hash,
            height - 1,
            (steps - 1) as nat,
            (steps_after - 1) as nat,
        );
    }
}

/// A walk along a linked chain visits one block for each height from
/// `height` down to 0, each of them sealed, and ends at a block that names
/// no block before it.
pub proof fn lemma_linked_walk(entries: Entries, hash: Seq<char>, height: int, steps: nat)
    requires
        linked(entries, hash, height),
        height < steps,
    ensures
        walk(entries, hash, steps) matches Ok(chain) && {
            &&& chain.len() == height + 1
            &&& chain.first().hash == hash
            &&& chain.last().prev_block_hash.len() == 0
            &&& forall|i: int|
                0 <= i < chain.len() ==> sealed(#[trigger] chain[i]) && chain[i].height == height
                    - i
        },
    decreases height,
{
    let block = block_under(entries, key_of(hash))->Ok_0;
    assert(block_decoding(entries[key_of(hash)]) == Some(block));
    if height > 0 {
        lemma_linked_walk(entries, block.prev_block_hash, height - 1, (steps - 1) as nat);
        let rest = walk(entries, block.prev_block_hash, (steps - 1) as nat)->Ok_0;
        let chain = seq![block] + rest;
        assert(walk(entries, hash, steps) == Ok::<Seq<BlockView>, LedgerError>(chain));
        assert(chain.last() == rest.last());
        assert forall|i: int| 0 <= i < chain.len() implies sealed(#[trigger] chain[i])
            && chain[i].height == height - i by {
            if i > 0 {
                assert(chain[i] == rest[i - 1]);
            }
        }
    } else {
        let chain = seq![block] + Seq::<BlockView>::empty();
        assert(walk(entries, block.prev_block_hash, (steps - 1) as nat) == Ok::<
            Seq<BlockView>,
            LedgerError,
        >(Seq::empty()));
        assert(walk(entries, hash, steps) == Ok::<Seq<BlockView>, LedgerError>(chain));
        assert(chain =~= seq![block]);
    }
}

/// Of every sound chain: the walk from the tip visits as many blocks as the
/// best height plus one, ends at a block that names no block before it, and
/// the hash of every block it visits meets the target.
pub proof fn sound_chain_is_walked(entries: Entries, tip: Seq<char>)
    requires
        sound_chain(entries, tip),
    ensures
        walk(entries, tip, MAX_STEPS as nat) matches Ok(chain) && best_height_of(entries) matches Ok(
            best,
        ) && {
            &&& chain.len() == best + 1
            &&& chain.last().prev_block_hash.len() == 0
            &&& forall|i: int|
                0 <= i < chain.len() ==> meets_target((#[trigger] chain[i]).hash) && sealed(
                    chain[i],
                )
        },
{
    let block = block_under(entries, key_of(tip))->Ok_0;
    lemma_linked_walk(entries, tip, block.height as int, MAX_STEPS as nat);
}

/// A sound chain is sound again, one block longer, once a sealed block
/// that follows its tip is put into the store under a hash that the store
/// lacked, and the tip pointer is set to it. The walk then visits the new
/// block and after it the blocks it visited before.
pub proof fn lemma_sound_chain_grows(
    entries: Entries,
    tip: Seq<char>,
    block: BlockView,
    value: Seq<u8>,
)
    requires
        sound_chain(entries, tip),
        block.prev_block_hash == tip,
        best_height_of(entries) matches Ok(best) && block.height == best + 1,
        sealed(block),
        block.hash.len() == HASH_LEN,
        !entries.contains_key(key_of(block.hash)),
        block_decoding(value) == Some(block),
    ensures
        sound_chain(
            entries.insert(key_of(block.hash), value).insert(tip_key(), key_of(block.hash)),
            block.hash,
        ),
        walk(
            entries.insert(key_of(block.hash), value).insert(tip_key(), key_of(block.hash)),
            block.hash,
            MAX_STEPS as nat,
        ) == Ok::<Seq<BlockView>, LedgerError>(
            seq![block] + walk(entries, tip, MAX_STEPS as nat)->Ok_0,
        ),
{
    let key = key_of(block.hash);
    let stored = entries.insert(key, value);
    let after = stored.insert(tip_key(), key);
    let height = block.height - 1;
    lemma_block_key_is_no_tip_key(block.hash);
    lemma_insert_keeps_blocks(entries, key, value);
    lemma_insert_keeps_blocks(stored, tip_key(), key);
    lemma_linked_is_kept(entries, stored, tip, height, MAX_STEPS as nat, MAX_STEPS as nat);
    lemma_linked_is_kept(
        stored,
        after,
        tip,
        height,
        MAX_STEPS as nat,
        (MAX_STEPS - 1) as nat,
    );
    lemma_linked_walk(entries, tip, height, MAX_STEPS as nat);
    assert(after[key] == value);
    assert(block_under(after, key) == Ok::<BlockView, LedgerError>(block));
    assert(linked(after, block.hash, block.height as int));
}

/// The walk from `hash` goes through within `steps` steps and looks
/// neither under `key` nor under the key of the tip pointer: it comes to
/// its end at an empty hash or at a hash that the store lacks.
pub open spec fn walk_avoids(entries: Entries, hash: Seq<char>, steps: nat, key: Seq<u8>) -> bool
    decreases steps,
{
    hash.len() == 0 || {
        &&& key_of(hash) != key
        &&& key_of(hash) != tip_key()
        &&& !entries.contains_key(key_of(hash)) || {
            &&& steps > 0
            &&& block_decoding(entries[key_of(hash)]) matches Some(block)
            &&& walk_avoids(entries, block.prev_block_hash, (steps - 1) as nat, key)
        }
    }
}

/// `after` holds what `before` holds, but for what is under `key` and
/// under the key of the tip pointer.
pub open spec fn same_elsewhere(before: Entries, after: Entries, key: Seq<u8>) -> bool {
    forall|other: Seq<u8>|
        other != key && other != tip_key() ==> (before.contains_key(other)
            <==> #[trigger] after.contains_key(other)) && (before.contains_key(other)
            ==> after[other] == before[other])
}

/// A walk that avoids a key is the same walk in every store that differs
/// only under that key and under the key of the tip pointer, whatever
/// steps it has to spare.
pub proof fn lemma_avoiding_walk_is_kept(
    before: Entries,
    after: Entries,
    hash: Seq<char>,
    steps: nat,
    more: nat,
    key: Seq<u8>,
)
    requires
        walk_avoids(before, hash, steps, key),
        same_elsewhere(before, after, key),
        steps <= more,
    ensures
        walk(before, hash, steps) is Ok,
        walk(after, hash, more) == walk(before, hash, steps),
    decreases steps,
{
    if hash.len() != 0 {
        assert(after.contains_key(key_of(hash)) == before.contains_key(key_of(hash)));
        if before.contains_key(key_of(hash)) {
            assert(after[key_of(hash)] == before[key_of(hash)]);
            let block = block_decoding(before[key_of(hash)])->Some_0;
            lemma_avoiding_walk_is_kept(
                before,
                after,
                block.prev_block_hash,
                (steps - 1) as nat,
                (more - 1) as nat,
                key,
            );
        }
    }
}

/// A linked chain is walked without a look under a key that the store
/// lacks, or under the key of the tip pointer.
pub proof fn lemma_linked_walk_avoids(
    entries: Entries,
    hash: Seq<char>,
    height: int,
    steps: nat,
    key: Seq<u8>,
)
    requires
        linked(entries, hash, height),
        height < steps,
        !entries.contains_key(key),
    ensures
        walk_avoids(entries, hash, steps, key),
    decreases height,
{
    lemma_block_key_is_no_tip_key(hash);
    let block = block_under(entries, key_of(hash))->Ok_0;
    assert(block_decoding(entries[key_of(hash)]) == Some(block));
    if height > 0 {
        lemma_linked_walk_avoids(
            entries,
            block.prev_block_hash,
            height - 1,
            (steps - 1) as nat,
            key,
        );
    } else {
        assert(walk_avoids(entries, block.prev_block_hash, (steps - 1) as nat, key));
    }
    assert(entries.contains_key(key_of(hash)));
}

/// Once a block that names `prev` as the block before it is put into the
/// store under a hash that the store lacked, and the tip pointer is set to
/// it, the walk from the new block visits it and then the blocks that the
/// walk from `prev` visited before: provided that walk avoided the hash of
/// the new block and the key of the tip pointer.
pub proof fn lemma_chain_grows(entries: Entries, prev: Seq<char>, block: BlockView, value: Seq<u8>)
    requires
        walk_avoids(entries, prev, (MAX_STEPS - 1) as nat, key_of(block.hash)),
        block.prev_block_hash == prev,
        block.hash.len() == HASH_LEN,
        block_decoding(value) == Some(block),
    ensures
        walk(entries, prev, MAX_STEPS as nat) is Ok,
        walk(
            entries.insert(key_of(block.hash), value).insert(tip_key(), key_of(block.hash)),
            block.hash,
            MAX_STEPS as nat,
        ) == Ok::<Seq<BlockView>, LedgerError>(
            seq![block] + walk(entries, prev, MAX_STEPS as nat)->Ok_0,
        ),
{
    let key = key_of(block.hash);
    let after = entries.insert(key, value).insert(tip_key(), key);
    lemma_block_key_is_no_tip_key(block.hash);
    assert(same_elsewhere(entries, after, key));
    assert(same_elsewhere(entries, entries, key));
    lemma_avoiding_walk_is_kept(
        entries,
        after,
        prev,
        (MAX_STEPS - 1) as nat,
        (MAX_STEPS - 1) as nat,
        key,
    );
    lemma_avoiding_walk_is_kept(
        entries,
        entries,
        prev,
        (MAX_STEPS - 1) as nat,
        MAX_STEPS as nat,
        key,
    );
    assert(after[key] == value);
}

} // verus!
