//! Merkle tree over the blob store: a tree of 4 KiB pointer blocks with 128
//! hash slots each that maps a sector address to the hash of its data block.

use crate::blob::{blake3_digest, with_blob, zero_hash, BlobError, BlobStore};
use vstd::prelude::*;

verus! {

/// Number of hash slots in a pointer block.
pub const FANOUT: usize = 128;

/// Size of a pointer block in bytes.
pub const BLOCK_SIZE: usize = 4096;

/// Size of a hash in bytes.
pub const HASH_SIZE: usize = 32;

/// 128 to the power `d`.
pub open spec fn pow128(d: nat) -> nat
    decreases d,
{
    if d == 0 {
        1
    } else {
        128 * pow128((d - 1) as nat)
    }
}

/// `d` is the depth of a tree for `total` sectors: the least `d` of at
/// least 1 with `128^d >= total`.
pub open spec fn is_depth(total: u64, d: nat) -> bool {
    &&& d >= 1
    &&& pow128(d) >= total
    &&& (d == 1 || pow128((d - 1) as nat) < total)
}

/// The depth of the tree for `total` sectors.
pub open spec fn depth_of(total: u64) -> nat {
    choose|d: nat| is_depth(total, d)
}

/// The powers of 128 up to the tenth.
pub proof fn lemma_pow128_values()
    ensures
        pow128(0) == 1,
        pow128(1) == 0x80,
        pow128(2) == 0x4000,
        pow128(3) == 0x20_0000,
        pow128(4) == 0x1000_0000,
        pow128(5) == 0x8_0000_0000,
        pow128(6) == 0x400_0000_0000,
        pow128(7) == 0x2_0000_0000_0000,
        pow128(8) == 0x100_0000_0000_0000,
        pow128(9) == 0x8000_0000_0000_0000,
        pow128(10) == 0x40_0000_0000_0000_0000,
{
    reveal_with_fuel(pow128, 11);
}

/// The powers of 128 grow with the exponent.
pub proof fn lemma_pow128_grows(a: nat, b: nat)
    requires
        a <= b,
    ensures
        1 <= pow128(a) <= pow128(b),
    decreases b,
{
    if a < b {
        lemma_pow128_grows(a, (b - 1) as nat);
    } else if a > 0 {
        lemma_pow128_grows((a - 1) as nat, (a - 1) as nat);
    }
}

/// A sector count has one depth only.
pub proof fn lemma_depth_unique(total: u64, a: nat, b: nat)
    requires
        is_depth(total, a),
        is_depth(total, b),
    ensures
        a == b,
{
    if a < b {
        lemma_pow128_grows(a, (b - 1) as nat);
    } else if b < a {
        lemma_pow128_grows(b, (a - 1) as nat);
    }
}

/// A number that meets `is_depth` is the depth.
pub proof fn lemma_depth_of(total: u64, d: nat)
    requires
        is_depth(total, d),
    ensures
        depth_of(total) == d,
{
    lemma_depth_unique(total, d, depth_of(total));
}

/// Every sector count has a depth, and it is at most 10.
pub proof fn lemma_depth_exists(total: u64)
    ensures
        is_depth(total, depth_of(total)),
        1 <= depth_of(total) <= 10,
        total <= pow128(depth_of(total)),
{
    lemma_pow128_values();
    let d: nat = if total <= pow128(1) {
        1
    } else if total <= pow128(2) {
        2
    } else if total <= pow128(3) {
        3
    } else if total <= pow128(4) {
        4
    } else if total <= pow128(5) {
        5
    } else if total <= pow128(6) {
        6
    } else if total <= pow128(7) {
        7
    } else if total <= pow128(8) {
        8
    } else if total <= pow128(9) {
        9
    } else {
        10
    };
    assert(is_depth(total, d));
    lemma_depth_of(total, d);
}

/// The depth of the tree for `total_sectors` sectors; at most 10.
pub fn calculate_depth(total_sectors: u64) -> (depth: u8)
    ensures
        is_depth(total_sectors, depth as nat),
        depth == depth_of(total_sectors),
        1 <= depth <= 10,
{
    let depth = depth_for(total_sectors);
    proof {
        lemma_depth_of(total_sectors, depth as nat);
    }
    depth
}

/// Counts the levels that `total_sectors` sectors need.
fn depth_for(total_sectors: u64) -> (depth: u8)
    ensures
        is_depth(total_sectors, depth as nat),
        1 <= depth <= 10,
{
    proof {
        lemma_pow128_values();
    }
    if total_sectors == 0 {
        return 1;
    }
    let mut depth: u8 = 1;
    let mut capacity: u64 = 128;
    while capacity < total_sectors
        invariant
            1 <= depth <= 9,
            capacity == pow128(depth as nat),
            depth == 1 || pow128((depth - 1) as nat) < total_sectors,
        decreases 10 - depth,
    {
        proof {
            lemma_pow128_values();
        }
        if depth == 9 {
            return 10;
        }
        depth += 1;
        proof {
            lemma_pow128_grows(depth as nat, 9);
        }
        capacity = capacity * 128;
    }
    depth
}

/// The slot that address `lba` takes at `level` of a tree of `depth`
/// levels. Level 0 is the root and reads the most significant digit of the
/// address in base 128; the last level reads the least significant one.
pub open spec fn slot_index(lba: u64, level: nat, depth: nat) -> int {
    (lba as int / pow128((depth - 1 - level) as nat) as int) % 128
}

/// Shifting right by a multiple of seven divides by a power of 128, and
/// masking with `0x7F` is the remainder modulo 128.
proof fn lemma_shift_divides(l: u64)
    by (bit_vector)
    ensures
        l >> 0u64 == l,
        l >> 7u64 == l / 0x80,
        l >> 14u64 == l / 0x4000,
        l >> 21u64 == l / 0x20_0000,
        l >> 28u64 == l / 0x1000_0000,
        l >> 35u64 == l / 0x8_0000_0000,
        l >> 42u64 == l / 0x400_0000_0000,
        l >> 49u64 == l / 0x2_0000_0000_0000,
        l >> 56u64 == l / 0x100_0000_0000_0000,
        l >> 63u64 == l / 0x8000_0000_0000_0000,
{
}

/// The low seven bits are the remainder modulo 128.
proof fn lemma_mask_is_mod(v: u64)
    by (bit_vector)
    ensures
        v & 0x7F == v % 128,
{
}

/// The slot index at a level reads seven bits of the address: two addresses
/// that agree on bits `shift` to `shift + 6` have the same index there.
pub proof fn lemma_index_reads_seven_bits(a: u64, b: u64, shift: u64)
    by (bit_vector)
    requires
        shift <= 63,
        (a ^ b) & (0x7Fu64 << shift) == 0,
    ensures
        (a >> shift) & 0x7F == (b >> shift) & 0x7F,
{
}

/// The slot of `lba` at `level` in a tree of `depth` levels: seven bits of
/// the address, taken `(depth - 1 - level) * 7` bits up.
pub fn extract_index(lba: u64, level: u8, depth: u8) -> (index: usize)
    requires
        level < depth <= 10,
    ensures
        index == slot_index(lba, level as nat, depth as nat),
        index == (lba >> (((depth - 1 - level) * 7) as u64)) & 0x7F,
        index < 128,
{
    let shift: u64 = (depth - 1 - level) as u64 * 7;
    proof {
        lemma_pow128_values();
        lemma_shift_divides(lba);
        lemma_mask_is_mod(lba >> shift);
        let k = (depth - 1 - level) as nat;
        if k == 0 {
            assert(lba >> shift == lba >> 0u64);
            assert(lba >> shift == lba as int / pow128(k) as int);
        } else if k == 1 {
            assert(lba >> shift == lba >> 7u64);
            assert(lba >> shift == lba as int / pow128(k) as int);
        } else if k == 2 {
            assert(lba >> shift == lba >> 14u64);
            assert(lba >> shift == lba as int / pow128(k) as int);
        } else if k == 3 {
            assert(lba >> shift == lba >> 21u64);
            assert(lba >> shift == lba as int / pow128(k) as int);
        } else if k == 4 {
            assert(lba >> shift == lba >> 28u64);
            assert(lba >> shift == lba as int / pow128(k) as int);
        } else if k == 5 {
            assert(lba >> shift == lba >> 35u64);
            assert(lba >> shift == lba as int / pow128(k) as int);
        } else if k == 6 {
            assert(lba >> shift == lba >> 42u64);
            assert(lba >> shift == lba as int / pow128(k) as int);
        } else if k == 7 {
            assert(lba >> shift == lba >> 49u64);
            assert(lba >> shift == lba as int / pow128(k) as int);
        } else if k == 8 {
            assert(lba >> shift == lba >> 56u64);
            assert(lba >> shift == lba as int / pow128(k) as int);
        } else {
            assert(lba >> shift == lba >> 63u64);
            assert(lba >> shift == lba as int / pow128(k) as int);
        }
        assert(lba >> shift == lba as int / pow128(k) as int);
    }
    ((lba >> shift) & 0x7F) as usize
}

/// Slot `index` of a node: its 32 bytes, or the zero hash where the node is
/// too short to hold the slot.
pub open spec fn slot(node: Seq<u8>, index: int) -> Seq<u8> {
    if 0 <= index && (index + 1) * 32 <= node.len() {
        node.subrange(index * 32, index * 32 + 32)
    } else {
        zero_hash()
    }
}

/// A node with slot `index` set to `hash`; a node too short to hold the
/// slot stays as it is.
pub open spec fn with_slot(node: Seq<u8>, index: int, hash: Seq<u8>) -> Seq<u8> {
    if 0 <= index && (index + 1) * 32 <= node.len() {
        node.subrange(0, index * 32) + hash + node.subrange(index * 32 + 32, node.len() as int)
    } else {
        node
    }
}

/// A pointer block whose slots are all zero.
pub open spec fn zero_node() -> Seq<u8> {
    Seq::new(4096, |i: int| 0u8)
}

/// Reads slot `index` of a node.
pub fn extract_hash(node: &[u8], index: usize) -> (h: crate::blob::Hash)
    ensures
        h@ == slot(node@, index as int),
{
    if index >= node.len() / HASH_SIZE {
        return crate::blob::Hash::zero();
    }
    let start: usize = index * HASH_SIZE;
    let mut bytes = [0u8; 32];
    let mut i: usize = 0;
    while i < 32
        invariant
            i <= 32,
            start == index * 32,
            start + 32 <= node@.len(),
            forall|j: int| 0 <= j < i ==> bytes@[j] == node@[start + j],
        decreases 32 - i,
    {
        bytes[i] = node[start + i];
        i += 1;
    }
    assert(bytes@ =~= node@.subrange(index * 32, index * 32 + 32));
    crate::blob::Hash::from_bytes(bytes)
}

/// Writes `hash` into slot `index` of a node.
pub fn set_hash(node: &mut [u8], index: usize, hash: &crate::blob::Hash)
    ensures
        final(node)@ == with_slot(old(node)@, index as int, hash@),
{
    if index >= node.len() / HASH_SIZE {
        return ;
    }
    let start: usize = index * HASH_SIZE;
    let bytes = hash.as_bytes();
    let mut i: usize = 0;
    while i < 32
        invariant
            i <= 32,
            start == index * 32,
            start + 32 <= node@.len(),
            node@.len() == old(node)@.len(),
            bytes@ == hash@,
            forall|j: int| 0 <= j < start ==> node@[j] == old(node)@[j],
            forall|j: int| start <= j < start + i ==> node@[j] == hash@[j - start],
            forall|j: int| start + i <= j < node@.len() ==> node@[j] == old(node)@[j],
        decreases 32 - i,
    {
        node[start + i] = bytes[i];
        i += 1;
    }
    assert(node@ =~= with_slot(old(node)@, index as int, hash@));
}

/// The data hash that a walk from the node with hash `cur` at `level` finds
/// for `lba`, or `None` where a node on the way is not in the store. A zero
/// hash on the way stands for a subtree without data and ends the walk.
pub open spec fn walk(
    blobs: Map<Seq<u8>, Seq<u8>>,
    cur: Seq<u8>,
    lba: u64,
    level: nat,
    depth: nat,
) -> Option<Seq<u8>>
    decreases depth - level,
{
    if level >= depth {
        Some(cur)
    } else if cur == zero_hash() {
        Some(zero_hash())
    } else if !blobs.contains_key(cur) {
        None
    } else {
        walk(blobs, slot(blobs[cur], slot_index(lba, level, depth)), lba, level + 1, depth)
    }
}

/// The blobs of `small` are all in `large`, unchanged.
pub open spec fn blobs_kept(small: Map<Seq<u8>, Seq<u8>>, large: Map<Seq<u8>, Seq<u8>>) -> bool {
    forall|h: Seq<u8>| #[trigger] small.contains_key(h) ==> large.contains_key(h) && large[h] == small[h]
}

/// The node that the hash `cur` stands for: a block of zeros for the zero
/// hash, otherwise the blob under `cur`.
pub open spec fn node_of(blobs: Map<Seq<u8>, Seq<u8>>, cur: Seq<u8>) -> Seq<u8> {
    if cur == zero_hash() {
        zero_node()
    } else {
        blobs[cur]
    }
}

/// What setting the data hash of `lba` to `data_hash` makes of the subtree
/// under `cur` at `level`: the store with the new nodes of the path put
/// into it, and the hash of the new subtree. No node is changed in place:
/// each node on the path is copied with one slot replaced and stored under
/// its own hash. The result is `None` where a node on the path is not in
/// the store.
pub open spec fn grown(
    blobs: Map<Seq<u8>, Seq<u8>>,
    cur: Seq<u8>,
    lba: u64,
    level: nat,
    depth: nat,
    data_hash: Seq<u8>,
) -> Option<(Map<Seq<u8>, Seq<u8>>, Seq<u8>)>
    decreases depth - level,
{
    if level >= depth {
        Some((blobs, data_hash))
    } else if cur != zero_hash() && !blobs.contains_key(cur) {
        None
    } else {
        let node = node_of(blobs, cur);
        let index = slot_index(lba, level, depth);
        match grown(blobs, slot(node, index), lba, level + 1, depth, data_hash) {
            None => None,
            Some((below, child)) => {
                let new_node = with_slot(node, index, child);
                Some((with_blob(below, blake3_digest(new_node), new_node), blake3_digest(new_node)))
            },
        }
    }
}

/// The hash of the node that the path of `lba` visits at `level`, walking
/// from `root`.
pub open spec fn cursor(
    blobs: Map<Seq<u8>, Seq<u8>>,
    root: Seq<u8>,
    lba: u64,
    level: nat,
    depth: nat,
) -> Seq<u8>
    decreases level,
{
    if level == 0 {
        root
    } else {
        slot(
            node_of(blobs, cursor(blobs, root, lba, (level - 1) as nat, depth)),
            slot_index(lba, (level - 1) as nat, depth),
        )
    }
}

/// Entry `k` of `path` holds the node that the path of `lba` visits at level
/// `k` and the slot that it takes there, and the store has that node.
pub open spec fn on_path(
    blobs: Map<Seq<u8>, Seq<u8>>,
    root: Seq<u8>,
    lba: u64,
    depth: nat,
    path: Seq<(Vec<u8>, usize)>,
    k: int,
) -> bool {
    let c = cursor(blobs, root, lba, k as nat, depth);
    &&& 0 <= k < path.len()
    &&& (c == zero_hash() || blobs.contains_key(c))
    &&& path[k].0@ == node_of(blobs, c)
    &&& path[k].1 == slot_index(lba, k as nat, depth)
}

/// Looks up the data hash of sector `lba` in the tree under `root`.
///
/// An address past the end is refused with `Backend`. Otherwise a
/// successful lookup returns what `walk` finds from the root, and a lookup
/// under the zero root succeeds. A node that the store does not have is
/// reported as `Corrupted`, never as `NotFound`.
pub fn lookup_in<S: BlobStore>(
    store: &S,
    root: crate::blob::Hash,
    total_sectors: u64,
    depth: u8,
    lba: u64,
) -> (r: Result<crate::blob::Hash, BlobError>)
    requires
        store.inv(),
        1 <= depth <= 10,
    ensures
        lba >= total_sectors ==> r is Err && r->Err_0 is Backend,
        lba < total_sectors ==> (r matches Ok(h) ==> walk(
            store.blobs(),
            root@,
            lba,
            0,
            depth as nat,
        ) == Some(h@)),
        lba < total_sectors && root@ == zero_hash() ==> r is Ok,
        lba < total_sectors && r is Err ==> !(r->Err_0 is NotFound),
{
    if lba >= total_sectors {
        return Err(BlobError::Backend("LBA out of range".to_owned()));
    }
    let mut current = root;
    let mut level: u8 = 0;
    while level < depth
        invariant
            store.inv(),
            level <= depth <= 10,
            lba < total_sectors,
            root@ == zero_hash() ==> current@ == zero_hash(),
            walk(store.blobs(), root@, lba, 0, depth as nat) == walk(
                store.blobs(),
                current@,
                lba,
                level as nat,
                depth as nat,
            ),
        decreases depth - level,
    {
        if current.is_zero() {
            return Ok(crate::blob::Hash::zero());
        }
        let node = match store.get(&current) {
            Ok(node) => node,
            Err(BlobError::NotFound(what)) => {
                return Err(BlobError::Corrupted(what));
            },
            Err(e) => {
                return Err(e);
            },
        };
        let index = extract_index(lba, level, depth);
        current = extract_hash(node.as_slice(), index);
        level += 1;
    }
    Ok(current)
}

/// Sets the data hash of sector `lba` in the tree under `root` and returns
/// the new root.
///
/// An address past the end is refused with `Backend` and nothing changes.
/// Otherwise success means that the store and the new root are what `grown`
/// gives from the old store and root. After a failure the store holds what
/// it held before and perhaps more. A node that the store does not have is
/// reported as `Corrupted`, never as `NotFound`.
pub fn update_in<S: BlobStore>(
    store: &mut S,
    root: crate::blob::Hash,
    total_sectors: u64,
    depth: u8,
    lba: u64,
    data_hash: crate::blob::Hash,
) -> (r: Result<crate::blob::Hash, BlobError>)
    requires
        old(store).inv(),
        1 <= depth <= 10,
    ensures
        final(store).inv(),
        blobs_kept(old(store).blobs(), final(store).blobs()),
        lba >= total_sectors ==> r is Err && r->Err_0 is Backend && final(store).blobs() == old(store).blobs(),
        lba < total_sectors ==> (r matches Ok(new_root) ==> grown(
            old(store).blobs(),
            root@,
            lba,
            0,
            depth as nat,
            data_hash@,
        ) == Some((final(store).blobs(), new_root@))),
        lba < total_sectors && r is Err ==> !(r->Err_0 is NotFound),
{
    if lba >= total_sectors {
        return Err(BlobError::Backend("LBA out of range".to_owned()));
    }
    let ghost blobs0 = store.blobs();
    let mut path: Vec<(Vec<u8>, usize)> = Vec::new();
    let mut current = root;
    let mut level: u8 = 0;
    while level < depth
        invariant
            store.inv(),
            store.blobs() == blobs0,
            blobs0 == old(store).blobs(),
            lba < total_sectors,
            level <= depth <= 10,
            path@.len() == level,
            current@ == cursor(blobs0, root@, lba, level as nat, depth as nat),
            forall|k: int|
                0 <= k < level ==> #[trigger] on_path(blobs0, root@, lba, depth as nat, path@, k),
        decreases depth - level,
    {
        let index = extract_index(lba, level, depth);
        let node: Vec<u8> = if current.is_zero() {
            let fresh: Vec<u8> = vec![0u8; BLOCK_SIZE];
            assert(fresh@ =~= zero_node());
            fresh
        } else {
            match store.get(&current) {
                Ok(node) => node,
                Err(BlobError::NotFound(what)) => {
                    return Err(BlobError::Corrupted(what));
                },
                Err(e) => {
                    return Err(e);
                },
            }
        };
        let next = extract_hash(node.as_slice(), index);
        let ghost upper = path@;
        path.push((node, index));
        proof {
            assert forall|k: int| 0 <= k < level + 1 implies #[trigger] on_path(
                blobs0,
                root@,
                lba,
                depth as nat,
                path@,
                k,
            ) by {
                if k < level {
                    assert(on_path(blobs0, root@, lba, depth as nat, upper, k));
                    assert(path@[k] == upper[k]);
                }
            }
        }
        current = next;
        level += 1;
    }
    let mut child_hash = data_hash;
    while level > 0
        invariant
            store.inv(),
            blobs0 == old(store).blobs(),
            lba < total_sectors,
            level <= depth <= 10,
            path@.len() == level,
            blobs_kept(blobs0, store.blobs()),
            forall|k: int|
                0 <= k < level ==> #[trigger] on_path(blobs0, root@, lba, depth as nat, path@, k),
            grown(
                blobs0,
                cursor(blobs0, root@, lba, level as nat, depth as nat),
                lba,
                level as nat,
                depth as nat,
                data_hash@,
            ) == Some((store.blobs(), child_hash@)),
        decreases level,
    {
        let ghost upper = path@;
        let ghost c = cursor(blobs0, root@, lba, (level - 1) as nat, depth as nat);
        let ghost below = store.blobs();
        let (mut node, index) = match path.pop() {
            Some(entry) => entry,
            None => {
                return Err(BlobError::Backend("tree path is empty".to_owned()));
            },
        };
        proof {
            assert(on_path(blobs0, root@, lba, depth as nat, upper, level - 1));
            assert(upper[level - 1].0@ == node_of(blobs0, c));
            assert(cursor(blobs0, root@, lba, level as nat, depth as nat) == slot(
                node_of(blobs0, c),
                slot_index(lba, (level - 1) as nat, depth as nat),
            ));
        }
        set_hash(node.as_mut_slice(), index, &child_hash);
        let new_hash = crate::blob::Hash::from_data(node.as_slice());
        match store.put(&new_hash, node.as_slice()) {
            Ok(()) => {},
            Err(BlobError::NotFound(what)) => {
                return Err(BlobError::Corrupted(what));
            },
            Err(e) => {
                return Err(e);
            },
        }
        proof {
            assert(store.blobs() == with_blob(below, new_hash@, node@));
            assert(blobs_kept(blobs0, store.blobs()));
            assert forall|k: int| 0 <= k < level - 1 implies #[trigger] on_path(
                blobs0,
                root@,
                lba,
                depth as nat,
                path@,
                k,
            ) by {
                assert(on_path(blobs0, root@, lba, depth as nat, upper, k));
                assert(path@[k] == upper[k]);
            }
        }
        child_hash = new_hash;
        level -= 1;
    }
    Ok(child_hash)
}

/// Read-only view of the tree under one root.
pub struct MerkleTree<'a, S: BlobStore> {
    pub blob_store: &'a S,
    pub root_hash: crate::blob::Hash,
    pub depth: u8,
    pub total_sectors: u64,
}

impl<'a, S: BlobStore> MerkleTree<'a, S> {
    /// The store is in order and the depth is the one for the sector count.
    pub open spec fn wf(&self) -> bool {
        &&& self.blob_store.inv()
        &&& is_depth(self.total_sectors, self.depth as nat)
        &&& self.depth <= 10
    }

    /// The tree under `root_hash` for a device of `total_sectors` sectors.
    pub fn new(blob_store: &'a S, root_hash: crate::blob::Hash, total_sectors: u64) -> (t:
        MerkleTree<'a, S>)
        requires
            blob_store.inv(),
        ensures
            t.wf(),
            t.blob_store == blob_store,
            t.root_hash == root_hash,
            t.total_sectors == total_sectors,
    {
        let depth = calculate_depth(total_sectors);
        MerkleTree { blob_store, root_hash, depth, total_sectors }
    }

    /// The root hash.
    pub fn root_hash(&self) -> (h: crate::blob::Hash)
        ensures
            h == self.root_hash,
    {
        self.root_hash
    }

    /// Looks up the data hash of sector `lba`, as `lookup_in` does.
    pub fn lookup(&self, lba: u64) -> (r: Result<crate::blob::Hash, BlobError>)
        requires
            self.wf(),
        ensures
            lba >= self.total_sectors ==> r is Err && r->Err_0 is Backend,
            lba < self.total_sectors ==> (r matches Ok(h) ==> walk(
                self.blob_store.blobs(),
                self.root_hash@,
                lba,
                0,
                self.depth as nat,
            ) == Some(h@)),
            lba < self.total_sectors && self.root_hash@ == zero_hash() ==> r is Ok,
            lba < self.total_sectors && r is Err ==> !(r->Err_0 is NotFound),
    {
        lookup_in(self.blob_store, self.root_hash, self.total_sectors, self.depth, lba)
    }
}

/// The tree under one root, with the right to put new nodes into the store.
pub struct MerkleTreeMut<'a, S: BlobStore> {
    pub blob_store: &'a mut S,
    pub root_hash: crate::blob::Hash,
    pub depth: u8,
    pub total_sectors: u64,
}

impl<'a, S: BlobStore> MerkleTreeMut<'a, S> {
    /// The blobs of the store.
    pub open spec fn blobs(&self) -> Map<Seq<u8>, Seq<u8>> {
        self.blob_store.blobs()
    }

    /// The store is in order and the depth is the one for the sector count.
    pub open spec fn wf(&self) -> bool {
        &&& self.blob_store.inv()
        &&& is_depth(self.total_sectors, self.depth as nat)
        &&& self.depth <= 10
    }

    /// The tree under `root_hash` for a device of `total_sectors` sectors.
    pub fn new(blob_store: &'a mut S, root_hash: crate::blob::Hash, total_sectors: u64) -> (t:
        MerkleTreeMut<'a, S>)
        requires
            old(blob_store).inv(),
        ensures
            t.wf(),
            *t.blob_store == *old(blob_store),
            *final(t.blob_store) == *final(blob_store),
            t.root_hash == root_hash,
            t.total_sectors == total_sectors,
    {
        let depth = calculate_depth(total_sectors);
        MerkleTreeMut { blob_store, root_hash, depth, total_sectors }
    }

    /// The empty tree: the zero root.
    pub fn empty(blob_store: &'a mut S, total_sectors: u64) -> (t: MerkleTreeMut<'a, S>)
        requires
            old(blob_store).inv(),
        ensures
            t.wf(),
            *t.blob_store == *old(blob_store),
            *final(t.blob_store) == *final(blob_store),
            t.root_hash@ == zero_hash(),
            t.total_sectors == total_sectors,
    {
        MerkleTreeMut::new(blob_store, crate::blob::Hash::zero(), total_sectors)
    }

    /// The root hash.
    pub fn root_hash(&self) -> (h: crate::blob::Hash)
        ensures
            h == self.root_hash,
    {
        self.root_hash
    }

    /// Sets the data hash of sector `lba`, as `update_in` does, and moves
    /// the root to the new tree. After a failure the root is as before.
    pub fn update(&mut self, lba: u64, data_hash: crate::blob::Hash) -> (r: Result<(), BlobError>)
        requires
            old(self).wf(),
        ensures
            final(self).wf(),
            final(self).depth == old(self).depth,
            final(self).total_sectors == old(self).total_sectors,
            blobs_kept(old(self).blobs(), final(self).blobs()),
            lba >= old(self).total_sectors ==> r is Err && r->Err_0 is Backend && final(self).blobs() == old(self).blobs(),
            r is Err ==> final(self).root_hash == old(self).root_hash,
            lba < old(self).total_sectors && r is Ok ==> grown(
                old(self).blobs(),
                old(self).root_hash@,
                lba,
                0,
                old(self).depth as nat,
                data_hash@,
            ) == Some((final(self).blobs(), final(self).root_hash@)),
            lba < old(self).total_sectors && r is Err ==> !(r->Err_0 is NotFound),
    {
        match update_in(
            self.blob_store,
            self.root_hash,
            self.total_sectors,
            self.depth,
            lba,
            data_hash,
        ) {
            Ok(new_root) => {
                self.root_hash = new_root;
                Ok(())
            },
            Err(e) => Err(e),
        }
    }

    /// Looks up the data hash of sector `lba`, as `lookup_in` does.
    pub fn lookup(&self, lba: u64) -> (r: Result<crate::blob::Hash, BlobError>)
        requires
            self.wf(),
        ensures
            lba >= self.total_sectors ==> r is Err && r->Err_0 is Backend,
            lba < self.total_sectors ==> (r matches Ok(h) ==> walk(
                self.blobs(),
                self.root_hash@,
                lba,
                0,
                self.depth as nat,
            ) == Some(h@)),
            lba < self.total_sectors && self.root_hash@ == zero_hash() ==> r is Ok,
            lba < self.total_sectors && r is Err ==> !(r->Err_0 is NotFound),
    {
        lookup_in(&*self.blob_store, self.root_hash, self.total_sectors, self.depth, lba)
    }
}

} // verus!
