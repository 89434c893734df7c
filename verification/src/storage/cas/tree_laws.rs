//! Laws of the Merkle tree: what a lookup finds after an update.

use super::tree::{
    blobs_kept, grown, node_of, pow128, slot, slot_index, walk, with_slot, zero_node,
};
use crate::blob::{blake3_digest, hashed, with_blob, zero_hash};
use vstd::prelude::*;

verus! {

/// The subtree under `cur` at `level` is whole: every node that a walk can
/// reach is in the store and is a pointer block of 4096 bytes.
pub open spec fn whole(blobs: Map<Seq<u8>, Seq<u8>>, cur: Seq<u8>, level: nat, depth: nat) -> bool
    decreases depth - level,
{
    level >= depth || cur == zero_hash() || {
        &&& blobs.contains_key(cur)
        &&& blobs[cur].len() == 4096
        &&& forall|i: int|
            0 <= i < 128 ==> whole(blobs, #[trigger] slot(blobs[cur], i), level + 1, depth)
    }
}

/// No new node of the update collides: the hash of each node that the
/// update of `lba` creates under `cur` is 32 bytes, is not the zero hash,
/// and the store holds under it nothing, or that very node.
pub open spec fn collision_free(
    blobs: Map<Seq<u8>, Seq<u8>>,
    cur: Seq<u8>,
    lba: u64,
    level: nat,
    depth: nat,
    data_hash: Seq<u8>,
) -> bool
    decreases depth - level,
{
    level >= depth || {
        let node = node_of(blobs, cur);
        let index = slot_index(lba, level, depth);
        &&& collision_free(blobs, slot(node, index), lba, level + 1, depth, data_hash)
        &&& match grown(blobs, slot(node, index), lba, level + 1, depth, data_hash) {
            None => true,
            Some((below, child)) => {
                let new_node = with_slot(node, index, child);
                let h = blake3_digest(new_node);
                &&& h.len() == 32
                &&& h != zero_hash()
                &&& (below.contains_key(h) ==> below[h] == new_node)
            },
        }
    }
}

/// The paths of two addresses take the same slot at every level from
/// `level` on.
pub open spec fn same_path(a: u64, b: u64, level: nat, depth: nat) -> bool {
    forall|k: nat| level <= k < depth ==> slot_index(a, k, depth) == slot_index(b, k, depth)
}

/// A slot index lies below 128.
pub proof fn lemma_slot_index_range(lba: u64, level: nat, depth: nat)
    ensures
        0 <= slot_index(lba, level, depth) < 128,
{
    super::tree::lemma_pow128_grows(0, (depth - 1 - level) as nat);
}

/// Reading back the slot that was set gives the hash that was put there,
/// every other slot is as before and the node keeps its size.
pub proof fn lemma_slots(node: Seq<u8>, i: int, j: int, h: Seq<u8>)
    requires
        node.len() == 4096,
        0 <= i < 128,
        0 <= j < 128,
        h.len() == 32,
    ensures
        with_slot(node, i, h).len() == 4096,
        slot(with_slot(node, i, h), i) == h,
        i != j ==> slot(with_slot(node, i, h), j) == slot(node, j),
{
    let n = with_slot(node, i, h);
    assert(n.len() == 4096);
    assert(slot(n, i) =~= h);
    if i != j {
        assert(slot(n, j) =~= slot(node, j));
    }
}

/// Every slot of the zero node is the zero hash.
pub proof fn lemma_zero_node(j: int)
    requires
        0 <= j < 128,
    ensures
        zero_node().len() == 4096,
        slot(zero_node(), j) == zero_hash(),
{
    assert(slot(zero_node(), j) =~= zero_hash());
}

/// A walk that finds its way in a store finds the same in every store that
/// keeps the blobs of the first.
pub proof fn lemma_walk_kept(
    small: Map<Seq<u8>, Seq<u8>>,
    large: Map<Seq<u8>, Seq<u8>>,
    cur: Seq<u8>,
    lba: u64,
    level: nat,
    depth: nat,
)
    requires
        blobs_kept(small, large),
        walk(small, cur, lba, level, depth) is Some,
    ensures
        walk(large, cur, lba, level, depth) == walk(small, cur, lba, level, depth),
    decreases depth - level,
{
    if level < depth && cur != zero_hash() {
        assert(small.contains_key(cur));
        lemma_walk_kept(
            small,
            large,
            slot(small[cur], slot_index(lba, level, depth)),
            lba,
            level + 1,
            depth,
        );
    }
}

/// A whole subtree is whole in every store that keeps the blobs of the
/// first.
pub proof fn lemma_whole_kept(
    small: Map<Seq<u8>, Seq<u8>>,
    large: Map<Seq<u8>, Seq<u8>>,
    cur: Seq<u8>,
    level: nat,
    depth: nat,
)
    requires
        blobs_kept(small, large),
        whole(small, cur, level, depth),
    ensures
        whole(large, cur, level, depth),
    decreases depth - level,
{
    if level < depth && cur != zero_hash() {
        assert(small.contains_key(cur));
        assert forall|i: int| 0 <= i < 128 implies whole(
            large,
            #[trigger] slot(large[cur], i),
            level + 1,
            depth,
        ) by {
            assert(whole(small, slot(small[cur], i), level + 1, depth));
            lemma_whole_kept(small, large, slot(small[cur], i), level + 1, depth);
        }
    }
}

/// A walk in a whole subtree finds a hash.
pub proof fn lemma_whole_walk(
    blobs: Map<Seq<u8>, Seq<u8>>,
    cur: Seq<u8>,
    lba: u64,
    level: nat,
    depth: nat,
)
    requires
        whole(blobs, cur, level, depth),
    ensures
        walk(blobs, cur, lba, level, depth) is Some,
    decreases depth - level,
{
    if level < depth && cur != zero_hash() {
        let i = slot_index(lba, level, depth);
        lemma_slot_index_range(lba, level, depth);
        assert(whole(blobs, slot(blobs[cur], i), level + 1, depth));
        lemma_whole_walk(blobs, slot(blobs[cur], i), lba, level + 1, depth);
    }
}

/// An update of a whole subtree goes through, and it keeps every blob of
/// the store.
pub proof fn lemma_grown_keeps(
    blobs: Map<Seq<u8>, Seq<u8>>,
    cur: Seq<u8>,
    lba: u64,
    level: nat,
    depth: nat,
    data_hash: Seq<u8>,
)
    ensures
        grown(blobs, cur, lba, level, depth, data_hash) matches Some((after, _)) ==> blobs_kept(
            blobs,
            after,
        ),
        whole(blobs, cur, level, depth) ==> grown(blobs, cur, lba, level, depth, data_hash) is Some,
    decreases depth - level,
{
    if level < depth {
        let node = node_of(blobs, cur);
        let index = slot_index(lba, level, depth);
        lemma_grown_keeps(blobs, slot(node, index), lba, level + 1, depth, data_hash);
        if whole(blobs, cur, level, depth) {
            lemma_slot_index_range(lba, level, depth);
            if cur == zero_hash() {
                lemma_zero_node(index);
                assert(whole(blobs, zero_hash(), level + 1, depth));
            } else {
                assert(whole(blobs, slot(blobs[cur], index), level + 1, depth));
            }
        }
    }
}

/// An update keeps the store hashed: every new node is put under its own
/// hash.
pub proof fn lemma_grown_hashed(
    blobs: Map<Seq<u8>, Seq<u8>>,
    cur: Seq<u8>,
    lba: u64,
    level: nat,
    depth: nat,
    data_hash: Seq<u8>,
)
    requires
        hashed(blobs),
    ensures
        grown(blobs, cur, lba, level, depth, data_hash) matches Some((after, _)) ==> hashed(after),
    decreases depth - level,
{
    if level < depth {
        let node = node_of(blobs, cur);
        let index = slot_index(lba, level, depth);
        lemma_grown_hashed(blobs, slot(node, index), lba, level + 1, depth, data_hash);
    }
}

/// After an update without collisions of a whole subtree, a lookup of the
/// updated address finds the new data hash, and the new subtree is whole.
pub proof fn lemma_lookup_after_update(
    blobs: Map<Seq<u8>, Seq<u8>>,
    cur: Seq<u8>,
    lba: u64,
    level: nat,
    depth: nat,
    data_hash: Seq<u8>,
)
    requires
        data_hash.len() == 32,
        whole(blobs, cur, level, depth),
        collision_free(blobs, cur, lba, level, depth, data_hash),
    ensures
        grown(blobs, cur, lba, level, depth, data_hash) matches Some((after, top)) && walk(
            after,
            top,
            lba,
            level,
            depth,
        ) == Some(data_hash) && whole(after, top, level, depth) && top.len() == 32,
    decreases depth - level,
{
    lemma_grown_keeps(blobs, cur, lba, level, depth, data_hash);
    if level < depth {
        let node = node_of(blobs, cur);
        let index = slot_index(lba, level, depth);
        lemma_slot_index_range(lba, level, depth);
        if cur == zero_hash() {
            lemma_zero_node(index);
            assert(whole(blobs, zero_hash(), level + 1, depth));
        } else {
            assert(whole(blobs, slot(blobs[cur], index), level + 1, depth));
        }
        lemma_lookup_after_update(blobs, slot(node, index), lba, level + 1, depth, data_hash);
        let (below, child) = grown(blobs, slot(node, index), lba, level + 1, depth, data_hash)->Some_0;
        let new_node = with_slot(node, index, child);
        let top = blake3_digest(new_node);
        let after = with_blob(below, top, new_node);
        lemma_grown_keeps(blobs, slot(node, index), lba, level + 1, depth, data_hash);
        assert(blobs_kept(below, after));
        assert(after[top] == new_node);
        lemma_slots(node, index, index, child);
        lemma_walk_kept(below, after, child, lba, level + 1, depth);
        assert forall|i: int| 0 <= i < 128 implies whole(
            after,
            #[trigger] slot(after[top], i),
            level + 1,
            depth,
        ) by {
            lemma_slots(node, index, i, child);
            if i == index {
                lemma_whole_kept(below, after, child, level + 1, depth);
            } else {
                if cur == zero_hash() {
                    lemma_zero_node(i);
                    assert(whole(after, zero_hash(), level + 1, depth));
                } else {
                    assert(whole(blobs, slot(blobs[cur], i), level + 1, depth));
                    lemma_whole_kept(blobs, below, slot(blobs[cur], i), level + 1, depth);
                    lemma_whole_kept(below, after, slot(blobs[cur], i), level + 1, depth);
                }
            }
        }
    }
}

/// After an update without collisions of a whole subtree, a lookup of an
/// address whose path differs from that of the updated one finds what it
/// found before.
pub proof fn lemma_lookup_elsewhere(
    blobs: Map<Seq<u8>, Seq<u8>>,
    cur: Seq<u8>,
    lba: u64,
    other: u64,
    level: nat,
    depth: nat,
    data_hash: Seq<u8>,
)
    requires
        data_hash.len() == 32,
        whole(blobs, cur, level, depth),
        collision_free(blobs, cur, lba, level, depth, data_hash),
        !same_path(lba, other, level, depth),
    ensures
        grown(blobs, cur, lba, level, depth, data_hash) matches Some((after, top)) && walk(
            after,
            top,
            other,
            level,
            depth,
        ) == walk(blobs, cur, other, level, depth),
    decreases depth - level,
{
    lemma_lookup_after_update(blobs, cur, lba, level, depth, data_hash);
    lemma_grown_keeps(blobs, cur, lba, level, depth, data_hash);
    lemma_whole_walk(blobs, cur, other, level, depth);
    if level < depth {
        let node = node_of(blobs, cur);
        let index = slot_index(lba, level, depth);
        let index2 = slot_index(other, level, depth);
        lemma_slot_index_range(lba, level, depth);
        lemma_slot_index_range(other, level, depth);
        if cur == zero_hash() {
            lemma_zero_node(index);
            lemma_zero_node(index2);
            assert(whole(blobs, zero_hash(), level + 1, depth));
        } else {
            assert(whole(blobs, slot(blobs[cur], index), level + 1, depth));
            assert(whole(blobs, slot(blobs[cur], index2), level + 1, depth));
        }
        lemma_lookup_after_update(blobs, slot(node, index), lba, level + 1, depth, data_hash);
        lemma_grown_keeps(blobs, slot(node, index), lba, level + 1, depth, data_hash);
        let (below, child) = grown(blobs, slot(node, index), lba, level + 1, depth, data_hash)->Some_0;
        let new_node = with_slot(node, index, child);
        let top = blake3_digest(new_node);
        let after = with_blob(below, top, new_node);
        assert(blobs_kept(below, after));
        assert(after[top] == new_node);
        lemma_slots(node, index, index2, child);
        if index2 == index {
            assert(!same_path(lba, other, level + 1, depth)) by {
                if same_path(lba, other, level + 1, depth) {
                    assert forall|k: nat| level <= k < depth implies slot_index(lba, k, depth)
                        == slot_index(other, k, depth) by {
                        if k > level {
                            assert(level + 1 <= k);
                        }
                    }
                }
            }
            lemma_lookup_elsewhere(
                blobs,
                slot(node, index),
                lba,
                other,
                level + 1,
                depth,
                data_hash,
            );
            lemma_whole_walk(below, child, other, level + 1, depth);
            lemma_walk_kept(below, after, child, other, level + 1, depth);
            if cur == zero_hash() {
                lemma_zero_walk(blobs, other, level + 1, depth);
            }
        } else {
            let next = slot(node, index2);
            lemma_whole_walk(blobs, next, other, level + 1, depth);
            lemma_walk_kept(blobs, below, next, other, level + 1, depth);
            lemma_walk_kept(below, after, next, other, level + 1, depth);
            if cur == zero_hash() {
                lemma_zero_walk(blobs, other, level + 1, depth);
                lemma_zero_walk(after, other, level + 1, depth);
            }
        }
    }
}

/// A walk from the zero hash finds the zero hash.
pub proof fn lemma_zero_walk(blobs: Map<Seq<u8>, Seq<u8>>, lba: u64, level: nat, depth: nat)
    ensures
        walk(blobs, zero_hash(), lba, level, depth) == Some(zero_hash()),
{
}

/// Dividing by a power of 128 and then by 128 divides by the next power.
proof fn lemma_digit_shift(l: int, k: nat)
    requires
        0 <= l,
    ensures
        (l / 128) / (pow128(k) as int) == l / (pow128(k + 1) as int),
{
    super::tree::lemma_pow128_grows(0, k);
    vstd::arithmetic::div_mod::lemma_div_denominator(l, 128, pow128(k) as int);
    assert(pow128(k + 1) == 128 * pow128(k));
    assert(128 * (pow128(k) as int) == pow128(k + 1) as int);
}

/// Two numbers below `128^d` whose `d` lowest digits in base 128 agree are
/// equal.
proof fn lemma_digits_decide(a: int, b: int, d: nat)
    requires
        0 <= a < pow128(d),
        0 <= b < pow128(d),
        forall|k: nat| k < d ==> (a / (pow128(k) as int)) % 128 == (b / (pow128(k) as int)) % 128,
    ensures
        a == b,
    decreases d,
{
    if d > 0 {
        let a1 = a / 128;
        let b1 = b / 128;
        assert(pow128(d) == 128 * pow128((d - 1) as nat));
        assert(a1 < pow128((d - 1) as nat) && b1 < pow128((d - 1) as nat));
        assert forall|k: nat| k < d - 1 implies (a1 / (pow128(k) as int)) % 128 == (b1 / (pow128(
            k,
        ) as int)) % 128 by {
            lemma_digit_shift(a, k);
            lemma_digit_shift(b, k);
            assert(k + 1 < d);
            assert((a / (pow128(k + 1) as int)) % 128 == (b / (pow128(k + 1) as int)) % 128);
        }
        lemma_digits_decide(a1, b1, (d - 1) as nat);
        assert(pow128(0) == 1);
        assert((a / (pow128(0) as int)) % 128 == (b / (pow128(0) as int)) % 128);
        assert(a == 128 * a1 + a % 128);
        assert(b == 128 * b1 + b % 128);
    }
}

/// Two different addresses of a device take different paths through its
/// tree.
pub proof fn lemma_paths_differ(a: u64, b: u64, depth: nat)
    requires
        a != b,
        a < pow128(depth),
        b < pow128(depth),
    ensures
        !same_path(a, b, 0, depth),
{
    if same_path(a, b, 0, depth) {
        assert forall|k: nat| k < depth implies (a as int / (pow128(k) as int)) % 128 == (b as int
            / (pow128(k) as int)) % 128 by {
            let level = (depth - 1 - k) as nat;
            assert(0 <= level < depth);
            assert(slot_index(a, level, depth) == slot_index(b, level, depth));
            assert((depth - 1 - level) as nat == k);
        }
        lemma_digits_decide(a as int, b as int, depth);
    }
}

} // verus!
