//! The leaves of a Merkle-Patricia trie whose nodes are preimages of the
//! oracle.
//!
//! A node is a list of 17 items, a branch, or of two items, a leaf or an
//! extension, which the first nibble of the path tells apart. A child is
//! named by the hash of its encoding, or stands in its parent where its
//! encoding is short.

use crate::key::binds;
use crate::key::keccak_encoding;
use crate::key::PreimageKey;
use crate::key::PreimageKeyType;
use crate::l1_provider::extends;
use crate::oracle::CachingOracle;
use crate::oracle::OracleError;
use crate::oracle::PreimageOracleClient;
use crate::rlp::decode_item;
use crate::rlp::rlp_item;
use crate::rlp::RlpItem;
use crate::rlp::RlpView;
use vstd::prelude::*;

verus! {

/// How deep a walk goes at most: no path of a trie is longer.
pub const MAX_DEPTH: usize = 64;

/// Whether the path of a node with two items is that of a leaf; `None` where
/// the path has no first nibble or one that stands for neither kind.
pub open spec fn path_is_leaf(path: Seq<u8>) -> Option<bool> {
    if path.len() == 0 {
        None
    } else if path[0] / 16 == 0 || path[0] / 16 == 1 {
        Some(false)
    } else if path[0] / 16 == 2 || path[0] / 16 == 3 {
        Some(true)
    } else {
        None
    }
}

/// Whether `held` holds a node for `hash`: a value under the key of `hash`
/// that the key binds.
pub open spec fn holds_node(held: Map<Seq<u8>, Seq<u8>>, hash: Seq<u8>) -> bool {
    &&& held.contains_key(keccak_encoding(hash))
    &&& binds(PreimageKeyType::Keccak256, hash.skip(1), held[keccak_encoding(hash)])
}

/// The values of the leaves under the node with the encoding `raw`, from the
/// lowest path to the highest, as far as `depth` levels reach; `None` where a
/// node is malformed or missing in `held`.
pub open spec fn node_leaves(held: Map<Seq<u8>, Seq<u8>>, raw: Seq<u8>, depth: nat) -> Option<
    Seq<Seq<u8>>,
>
    decreases depth, 0nat,
{
    if depth == 0 {
        None
    } else {
        match rlp_item(raw) {
            Some(RlpView::String(payload)) => if payload.len() == 0 {
                Some(Seq::empty())
            } else {
                None
            },
            Some(RlpView::List(items)) => if items.len() == 17 {
                children_leaves(held, items, 17, (depth - 1) as nat)
            } else if items.len() == 2 {
                match rlp_item(items[0]) {
                    Some(RlpView::String(path)) => match path_is_leaf(path) {
                        Some(true) => match rlp_item(items[1]) {
                            Some(RlpView::String(value)) => Some(seq![value]),
                            _ => None,
                        },
                        Some(false) => child_leaves(held, items[1], (depth - 1) as nat),
                        None => None,
                    },
                    _ => None,
                }
            } else {
                None
            },
            None => None,
        }
    }
}

/// The values of the leaves under the child that the item with the encoding
/// `item` names: none for the empty string, those of the node in `held` for a
/// hash, and those of the item itself where it is a node.
pub open spec fn child_leaves(held: Map<Seq<u8>, Seq<u8>>, item: Seq<u8>, depth: nat) -> Option<
    Seq<Seq<u8>>,
>
    decreases depth, 1nat,
{
    match rlp_item(item) {
        Some(RlpView::String(hash)) => if hash.len() == 0 {
            Some(Seq::empty())
        } else if hash.len() == 32 && holds_node(held, hash) {
            node_leaves(held, held[keccak_encoding(hash)], depth)
        } else {
            None
        },
        Some(RlpView::List(_)) => node_leaves(held, item, depth),
        None => None,
    }
}

/// The values of the leaves under the first `count` children of a branch
/// with the items `items`.
pub open spec fn children_leaves(
    held: Map<Seq<u8>, Seq<u8>>,
    items: Seq<Seq<u8>>,
    count: nat,
    depth: nat,
) -> Option<Seq<Seq<u8>>>
    decreases depth, 2 + count,
{
    if count == 0 {
        Some(Seq::empty())
    } else {
        match (
            children_leaves(held, items, (count - 1) as nat, depth),
            child_leaves(held, items[count - 1], depth),
        ) {
            (Some(before), Some(last)) => Some(before + last),
            _ => None,
        }
    }
}

/// The values of the leaves of the trie with the root hash `root`.
pub open spec fn trie_leaves(held: Map<Seq<u8>, Seq<u8>>, root: Seq<u8>) -> Option<Seq<Seq<u8>>> {
    if holds_node(held, root) {
        node_leaves(held, held[keccak_encoding(root)], MAX_DEPTH as nat)
    } else {
        None
    }
}

/// The items of a list whose trie paths are the encodings of their indices,
/// in the order of the indices: the paths put the item with the index 0
/// behind those with the indices 1 to 127.
pub open spec fn in_index_order(leaves: Seq<Seq<u8>>) -> Seq<Seq<u8>> {
    if leaves.len() == 0 {
        leaves
    } else if leaves.len() <= 0x80 {
        seq![leaves.last()] + leaves.drop_last()
    } else {
        seq![leaves[0x7f]] + leaves.remove(0x7f)
    }
}

/// What a cache holds stays what it is when the cache grows: the leaves
/// under a node that is whole in the smaller cache are the same in the
/// larger one.
pub proof fn lemma_node_leaves_stable(
    before: Map<Seq<u8>, Seq<u8>>,
    after: Map<Seq<u8>, Seq<u8>>,
    raw: Seq<u8>,
    depth: nat,
)
    requires
        extends(before, after),
        node_leaves(before, raw, depth) is Some,
    ensures
        node_leaves(after, raw, depth) == node_leaves(before, raw, depth),
    decreases depth, 0nat,
{
    if depth > 0 {
        match rlp_item(raw) {
            Some(RlpView::List(items)) => {
                if items.len() == 17 {
                    lemma_children_leaves_stable(before, after, items, 17, (depth - 1) as nat);
                } else if items.len() == 2 {
                    match rlp_item(items[0]) {
                        Some(RlpView::String(path)) => {
                            if path_is_leaf(path) == Some(false) {
                                lemma_child_leaves_stable(
                                    before,
                                    after,
                                    items[1],
                                    (depth - 1) as nat,
                                );
                            }
                        },
                        _ => {},
                    }
                }
            },
            _ => {},
        }
    }
}

/// The leaves under a child that is whole in the smaller cache are the same
/// in the larger one.
pub proof fn lemma_child_leaves_stable(
    before: Map<Seq<u8>, Seq<u8>>,
    after: Map<Seq<u8>, Seq<u8>>,
    item: Seq<u8>,
    depth: nat,
)
    requires
        extends(before, after),
        child_leaves(before, item, depth) is Some,
    ensures
        child_leaves(after, item, depth) == child_leaves(before, item, depth),
    decreases depth, 1nat,
{
    match rlp_item(item) {
        Some(RlpView::String(hash)) => {
            if hash.len() == 32 {
                assert(before.contains_key(keccak_encoding(hash)));
                lemma_node_leaves_stable(before, after, before[keccak_encoding(hash)], depth);
            }
        },
        Some(RlpView::List(_)) => {
            lemma_node_leaves_stable(before, after, item, depth);
        },
        None => {},
    }
}

/// The leaves under the first children of a branch that are whole in the
/// smaller cache are the same in the larger one.
pub proof fn lemma_children_leaves_stable(
    before: Map<Seq<u8>, Seq<u8>>,
    after: Map<Seq<u8>, Seq<u8>>,
    items: Seq<Seq<u8>>,
    count: nat,
    depth: nat,
)
    requires
        extends(before, after),
        children_leaves(before, items, count, depth) is Some,
    ensures
        children_leaves(after, items, count, depth) == children_leaves(
            before,
            items,
            count,
            depth,
        ),
    decreases depth, 2 + count,
{
    if count > 0 {
        lemma_children_leaves_stable(before, after, items, (count - 1) as nat, depth);
        lemma_child_leaves_stable(before, after, items[count - 1], depth);
    }
}

/// The leaves of a trie that is whole in the smaller cache are the same in
/// the larger one.
pub proof fn lemma_trie_leaves_stable(
    before: Map<Seq<u8>, Seq<u8>>,
    after: Map<Seq<u8>, Seq<u8>>,
    root: Seq<u8>,
)
    requires
        extends(before, after),
        trie_leaves(before, root) is Some,
    ensures
        trie_leaves(after, root) == trie_leaves(before, root),
{
    assert(before.contains_key(keccak_encoding(root)));
    lemma_node_leaves_stable(before, after, before[keccak_encoding(root)], MAX_DEPTH as nat);
}

/// Where the first children of a branch are whole, so are fewer of them, and
/// so is each of them.
pub proof fn lemma_children_leaves_prefix(
    held: Map<Seq<u8>, Seq<u8>>,
    items: Seq<Seq<u8>>,
    count: nat,
    fewer: nat,
    depth: nat,
)
    requires
        fewer <= count,
        children_leaves(held, items, count, depth) is Some,
    ensures
        children_leaves(held, items, fewer, depth) is Some,
        fewer < count ==> child_leaves(held, items[fewer as int], depth) is Some,
    decreases count,
{
    if fewer < count {
        if fewer + 1 < count {
            lemma_children_leaves_prefix(held, items, (count - 1) as nat, fewer, depth);
        }
    }
}

/// A cache that has grown twice has grown.
pub proof fn lemma_extends_transitive(
    first: Map<Seq<u8>, Seq<u8>>,
    second: Map<Seq<u8>, Seq<u8>>,
    third: Map<Seq<u8>, Seq<u8>>,
)
    requires
        extends(first, second),
        extends(second, third),
    ensures
        extends(first, third),
{
    assert forall|key: Seq<u8>| #[trigger] first.contains_key(key) implies third.contains_key(key)
        && third[key] == first[key] by {
        assert(second.contains_key(key));
    }
}

/// Why a trie cannot be walked.
#[derive(Debug, Clone, Copy, PartialEq, Eq, Hash, Structural)]
pub enum TrieError {
    /// The oracle has no node for a hash.
    Oracle(OracleError),
    /// A node is not in the form of a trie node.
    Malformed,
    /// The trie is deeper than any path is long.
    TooDeep,
}

/// The bytes of each value of `leaves`.
pub open spec fn leaf_views(leaves: Seq<Vec<u8>>) -> Seq<Seq<u8>> {
    leaves.map_values(|leaf: Vec<u8>| leaf@)
}

/// The key of the node with the hash `hash`.
fn node_key(hash: &Vec<u8>) -> (key: PreimageKey)
    requires
        hash@.len() == 32,
    ensures
        key.wf(),
        key.encoding() == keccak_encoding(hash@),
        key.spec_key_type() == PreimageKeyType::Keccak256,
        key.data() == hash@.skip(1),
{
    let mut word = [0u8; 32];
    let mut i: usize = 0;
    while i < 32
        invariant
            i <= 32,
            hash@.len() == 32,
            forall|j: int| 0 <= j < i ==> word@[j] == hash@[j],
        decreases 32 - i,
    {
        word[i] = hash[i];
        i = i + 1;
    }
    assert(word@ =~= hash@);
    PreimageKey::new_keccak256(word)
}

/// The values of the leaves under the child that `item` names, from the
/// lowest path to the highest. Nodes that the cache does not hold are asked
/// of the reader.
fn fetch_child_leaves<R: PreimageOracleClient>(
    oracle: &mut CachingOracle<R>,
    item: &Vec<u8>,
    depth: usize,
) -> (r: Result<Vec<Vec<u8>>, TrieError>)
    ensures
        extends(old(oracle).held(), final(oracle).held()),
        match r {
            Ok(leaves) => child_leaves(final(oracle).held(), item@, depth as nat) == Some(
                leaf_views(leaves@),
            ),
            Err(_) => child_leaves(old(oracle).held(), item@, depth as nat) is None,
        },
    decreases depth, 1nat,
{
    match decode_item(item.as_slice()) {
        None => Err(TrieError::Malformed),
        Some(RlpItem::List(_)) => fetch_node_leaves(oracle, item, depth),
        Some(RlpItem::String(hash)) => {
            if hash.len() == 0 {
                let none: Vec<Vec<u8>> = Vec::new();
                assert(leaf_views(none@) =~= Seq::<Seq<u8>>::empty());
                return Ok(none);
            }
            if hash.len() != 32 {
                return Err(TrieError::Malformed);
            }
            let key = node_key(&hash);
            let value = match oracle.get(key) {
                Ok(value) => value,
                Err(e) => {
                    return Err(TrieError::Oracle(e));
                },
            };
            let ghost fetched = oracle.held();
            assert(holds_node(fetched, hash@) && fetched[keccak_encoding(hash@)] == value@);
            assert(extends(old(oracle).held(), fetched));
            match fetch_node_leaves(oracle, &value, depth) {
                Ok(leaves) => {
                    proof {
                        lemma_extends_transitive(old(oracle).held(), fetched, oracle.held());
                        assert(holds_node(oracle.held(), hash@));
                    }
                    Ok(leaves)
                },
                Err(e) => {
                    proof {
                        lemma_extends_transitive(old(oracle).held(), fetched, oracle.held());
                        if child_leaves(old(oracle).held(), item@, depth as nat) is Some {
                            lemma_node_leaves_stable(
                                old(oracle).held(),
                                fetched,
                                value@,
                                depth as nat,
                            );
                        }
                    }
                    Err(e)
                },
            }
        },
    }
}

/// The values of the leaves under the node with the encoding `raw`, from the
/// lowest path to the highest, as far as `depth` levels reach.
fn fetch_node_leaves<R: PreimageOracleClient>(
    oracle: &mut CachingOracle<R>,
    raw: &Vec<u8>,
    depth: usize,
) -> (r: Result<Vec<Vec<u8>>, TrieError>)
    ensures
        extends(old(oracle).held(), final(oracle).held()),
        match r {
            Ok(leaves) => node_leaves(final(oracle).held(), raw@, depth as nat) == Some(
                leaf_views(leaves@),
            ),
            Err(_) => node_leaves(old(oracle).held(), raw@, depth as nat) is None,
        },
    decreases depth, 0nat,
{
    if depth == 0 {
        return Err(TrieError::TooDeep);
    }
    let items = match decode_item(raw.as_slice()) {
        None => {
            return Err(TrieError::Malformed);
        },
        Some(RlpItem::String(payload)) => {
            if payload.len() == 0 {
                let none: Vec<Vec<u8>> = Vec::new();
                assert(leaf_views(none@) =~= Seq::<Seq<u8>>::empty());
                return Ok(none);
            }
            return Err(TrieError::Malformed);
        },
        Some(RlpItem::List(items)) => items,
    };
    let ghost views = leaf_views(items@);
    assert(rlp_item(raw@) == Some(RlpView::List(views)));
    if items.len() == 17 {
        let mut all: Vec<Vec<u8>> = Vec::new();
        let mut i: usize = 0;
        assert(leaf_views(all@) =~= Seq::<Seq<u8>>::empty());
        while i < 17
            invariant
                i <= 17,
                depth > 0,
                items@.len() == 17,
                views == leaf_views(items@),
                rlp_item(raw@) == Some(RlpView::List(views)),
                extends(old(oracle).held(), oracle.held()),
                children_leaves(oracle.held(), views, i as nat, (depth - 1) as nat) == Some(
                    leaf_views(all@),
                ),
            decreases 17 - i,
        {
            let ghost held = oracle.held();
            let ghost so_far = all@;
            assert(views[i as int] == items@[i as int]@);
            match fetch_child_leaves(oracle, &items[i], depth - 1) {
                Ok(leaves) => {
                    let mut leaves = leaves;
                    let ghost more = leaves@;
                    all.append(&mut leaves);
                    proof {
                        lemma_extends_transitive(old(oracle).held(), held, oracle.held());
                        lemma_children_leaves_stable(
                            held,
                            oracle.held(),
                            views,
                            i as nat,
                            (depth - 1) as nat,
                        );
                        assert(leaf_views(all@) =~= leaf_views(so_far) + leaf_views(more));
                    }
                },
                Err(e) => {
                    proof {
                        let start = old(oracle).held();
                        lemma_extends_transitive(start, held, oracle.held());
                        if children_leaves(start, views, 17, (depth - 1) as nat) is Some {
                            lemma_children_leaves_prefix(
                                start,
                                views,
                                17,
                                i as nat,
                                (depth - 1) as nat,
                            );
                            lemma_child_leaves_stable(
                                start,
                                held,
                                views[i as int],
                                (depth - 1) as nat,
                            );
                        }
                    }
                    return Err(e);
                },
            }
            i = i + 1;
        }
        return Ok(all);
    }
    if items.len() != 2 {
        return Err(TrieError::Malformed);
    }
    assert(views[0] == items@[0]@);
    assert(views[1] == items@[1]@);
    let path = match decode_item(items[0].as_slice()) {
        Some(RlpItem::String(path)) => path,
        _ => {
            return Err(TrieError::Malformed);
        },
    };
    if path.len() == 0 {
        return Err(TrieError::Malformed);
    }
    let kind = path[0] / 16;
    if kind == 0 || kind == 1 {
        fetch_child_leaves(oracle, &items[1], depth - 1)
    } else if kind == 2 || kind == 3 {
        match decode_item(items[1].as_slice()) {
            Some(RlpItem::String(value)) => {
                let mut leaves: Vec<Vec<u8>> = Vec::new();
                leaves.push(value);
                assert(leaf_views(leaves@) =~= seq![value@]);
                Ok(leaves)
            },
            _ => Err(TrieError::Malformed),
        }
    } else {
        Err(TrieError::Malformed)
    }
}

/// The values of `leaves`, which stand in the order of their paths, in the
/// order of their indices.
fn into_index_order(leaves: Vec<Vec<u8>>) -> (ordered: Vec<Vec<u8>>)
    ensures
        leaf_views(ordered@) == in_index_order(leaf_views(leaves@)),
{
    let mut ordered = leaves;
    let ghost given = ordered@;
    if ordered.len() == 0 {
        return ordered;
    }
    let first = if ordered.len() <= 0x80 {
        ordered.pop().unwrap()
    } else {
        ordered.remove(0x7f)
    };
    ordered.insert(0, first);
    proof {
        if given.len() <= 0x80 {
            assert(leaf_views(ordered@) =~= seq![leaf_views(given).last()] + leaf_views(
                given,
            ).drop_last());
        } else {
            assert(leaf_views(ordered@) =~= seq![leaf_views(given)[0x7f]] + leaf_views(
                given,
            ).remove(0x7f));
        }
    }
    ordered
}

/// The items of the list whose trie has the root hash `root`, in the order
/// of their indices. Every node is a preimage of the oracle under its hash;
/// nodes that the cache does not hold are asked of the reader. Where the
/// cache holds the whole trie, the items come back.
pub fn ordered_list<R: PreimageOracleClient>(oracle: &mut CachingOracle<R>, root: &[u8; 32]) -> (r:
    Result<Vec<Vec<u8>>, TrieError>)
    ensures
        extends(old(oracle).held(), final(oracle).held()),
        match r {
            Ok(items) => trie_leaves(final(oracle).held(), root@) matches Some(leaves)
                && leaf_views(items@) == in_index_order(leaves),
            Err(_) => trie_leaves(old(oracle).held(), root@) is None,
        },
{
    let key = PreimageKey::new_keccak256(*root);
    let node = match oracle.get(key) {
        Ok(node) => node,
        Err(e) => {
            return Err(TrieError::Oracle(e));
        },
    };
    let ghost fetched = oracle.held();
    assert(holds_node(fetched, root@) && fetched[keccak_encoding(root@)] == node@);
    assert(extends(old(oracle).held(), fetched));
    match fetch_node_leaves(oracle, &node, MAX_DEPTH) {
        Ok(leaves) => {
            proof {
                lemma_extends_transitive(old(oracle).held(), fetched, oracle.held());
                assert(holds_node(oracle.held(), root@));
            }
            Ok(into_index_order(leaves))
        },
        Err(e) => {
            proof {
                lemma_extends_transitive(old(oracle).held(), fetched, oracle.held());
                if trie_leaves(old(oracle).held(), root@) is Some {
                    lemma_node_leaves_stable(
                        old(oracle).held(),
                        fetched,
                        node@,
                        MAX_DEPTH as nat,
                    );
                }
            }
            Err(e)
        },
    }
}

} // verus!
