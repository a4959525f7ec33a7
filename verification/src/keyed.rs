//! Keyed columns: when the children of a column change, the state tree of
//! each child follows its key rather than its position.
use vstd::prelude::*;
use vstd::std_specs::cmp::PartialEqSpec;

verus! {

/// Whether `i` is the first position of `keys` holding a key equal to `key`.
pub open spec fn is_first_position<K: PartialEq>(keys: Seq<K>, key: K, i: int) -> bool {
    &&& 0 <= i < keys.len()
    &&& keys[i].eq_spec(&key)
    &&& forall|j: int| 0 <= j < i ==> !(#[trigger] keys[j]).eq_spec(&key)
}

/// The first position of `keys` holding a key equal to `key`, if any.
pub open spec fn first_position<K: PartialEq>(keys: Seq<K>, key: K) -> Option<int> {
    if exists|i: int| is_first_position(keys, key, i) {
        Some(choose|i: int| is_first_position(keys, key, i))
    } else {
        None
    }
}

/// For each of `keys`, the index of the previous state tree it inherits:
/// the first previous position holding an equal key, provided one of the
/// `trees` previous trees sits there and no earlier child took it.
pub open spec fn inherited<K: PartialEq>(previous: Seq<K>, trees: nat, keys: Seq<K>) -> Seq<Option<usize>>
    decreases keys.len(),
{
    if keys.len() == 0 {
        seq![]
    } else {
        let earlier = inherited(previous, trees, keys.drop_last());
        earlier.push(
            match first_position(previous, keys.last()) {
                Some(i) => if i < trees && !earlier.contains(Some(i as usize)) {
                    Some(i as usize)
                } else {
                    None
                },
                None => None,
            },
        )
    }
}

/// The first position of `keys` holding a key equal to `key`, if any.
fn position<K: PartialEq>(keys: &Vec<K>, key: &K) -> (found: Option<usize>)
    requires
        K::obeys_eq_spec(),
    ensures
        match found {
            Some(i) => first_position(keys@, *key) == Some(i as int),
            None => first_position(keys@, *key) is None,
        },
{
    let mut i: usize = 0;
    while i < keys.len()
        invariant
            K::obeys_eq_spec(),
            i <= keys@.len(),
            forall|j: int| 0 <= j < i ==> !(#[trigger] keys@[j]).eq_spec(key),
        decreases keys@.len() - i,
    {
        if keys[i] == *key {
            assert(is_first_position(keys@, *key, i as int));
            proof {
                lemma_first_position_unique(keys@, *key, i as int);
            }
            return Some(i);
        }
        i = i + 1;
    }
    assert(!exists|i: int| is_first_position(keys@, *key, i));
    None
}

/// There is only one first position.
proof fn lemma_first_position_unique<K: PartialEq>(keys: Seq<K>, key: K, i: int)
    requires
        is_first_position(keys, key, i),
    ensures
        first_position(keys, key) == Some(i),
{
    let c = choose|c: int| is_first_position(keys, key, c);
    if c < i {
        assert(!keys[c].eq_spec(&key));
    } else if c > i {
        assert(!keys[i].eq_spec(&key));
    }
}

/// For each of `keys`, the index of the state tree it inherits among the
/// `trees` trees left by the children keyed by `previous_keys`: trees
/// follow their keys, so a windowed list that shifts by one hands each
/// slot's state to the same key, not to a neighbour. A child without an
/// inherited tree (`None`) gets a fresh one.
pub fn inherited_trees<K: PartialEq>(previous_keys: &Vec<K>, trees: usize, keys: &Vec<K>) -> (v: Vec<
    Option<usize>,
>)
    requires
        K::obeys_eq_spec(),
    ensures
        v@ == inherited(previous_keys@, trees as nat, keys@),
{
    let mut taken: Vec<bool> = Vec::new();
    while taken.len() < trees
        invariant
            taken.len() <= trees,
            forall|i: int| 0 <= i < taken.len() ==> !(#[trigger] taken@[i]),
        decreases trees - taken.len(),
    {
        taken.push(false);
    }
    let mut v: Vec<Option<usize>> = Vec::new();
    let mut j: usize = 0;
    while j < keys.len()
        invariant
            K::obeys_eq_spec(),
            j <= keys@.len(),
            taken.len() == trees,
            v@ == inherited(previous_keys@, trees as nat, keys@.take(j as int)),
            forall|i: int| 0 <= i < trees ==> (#[trigger] taken@[i]) == v@.contains(Some(i as usize)),
        decreases keys@.len() - j,
    {
        assert(keys@.take(j + 1).drop_last() =~= keys@.take(j as int));
        assert(keys@.take(j + 1).last() == keys@[j as int]);
        let entry = match position(previous_keys, &keys[j]) {
            Some(i) => if i < trees && !taken[i] {
                taken.set(i, true);
                Some(i)
            } else {
                None
            },
            None => None,
        };
        let ghost before = v@;
        v.push(entry);
        assert forall|i: int| 0 <= i < trees implies (#[trigger] taken@[i]) == v@.contains(
            Some(i as usize),
        ) by {
            if v@.contains(Some(i as usize)) {
                let k = choose|k: int| 0 <= k < v@.len() && v@[k] == Some(i as usize);
                if k < before.len() {
                    assert(before.contains(Some(i as usize)));
                }
            }
            if before.contains(Some(i as usize)) {
                let k = choose|k: int| 0 <= k < before.len() && before[k] == Some(i as usize);
                assert(v@[k] == Some(i as usize));
            }
            if entry == Some(i as usize) {
                assert(v@[before.len() as int] == Some(i as usize));
            }
        }
        j = j + 1;
    }
    assert(keys@.take(keys@.len() as int) =~= keys@);
    v
}

/// No previous tree is inherited twice, and an inherited tree is one of the
/// previous ones and was left by a child with an equal key.
pub proof fn law_trees_follow_their_keys<K: PartialEq>(previous: Seq<K>, trees: nat, keys: Seq<K>)
    requires
        trees <= usize::MAX,
    ensures
        inherited(previous, trees, keys).len() == keys.len(),
        forall|j1: int, j2: int|
            0 <= j1 < j2 < keys.len() && (#[trigger] inherited(previous, trees, keys)[j1]) is Some
                ==> inherited(previous, trees, keys)[j1] != #[trigger] inherited(previous, trees, keys)[j2],
        forall|j: int|
            0 <= j < keys.len() && (#[trigger] inherited(previous, trees, keys)[j]) is Some ==> {
                let i = inherited(previous, trees, keys)[j]->0 as int;
                &&& i < trees
                &&& i < previous.len()
                &&& previous[i].eq_spec(&keys[j])
            },
    decreases keys.len(),
{
    if keys.len() > 0 {
        let rest = keys.drop_last();
        law_trees_follow_their_keys(previous, trees, rest);
        let earlier = inherited(previous, trees, rest);
        let all = inherited(previous, trees, keys);
        assert(all.drop_last() == earlier);
        assert forall|j1: int, j2: int|
            0 <= j1 < j2 < keys.len() && (#[trigger] all[j1]) is Some implies all[j1] != #[trigger] all[j2] by {
            if j2 == keys.len() - 1 {
                assert(earlier[j1] == all[j1]);
                if all[j2] == all[j1] {
                    assert(earlier.contains(all[j1]));
                }
            } else {
                assert(earlier[j1] == all[j1]);
                assert(earlier[j2] == all[j2]);
            }
        }
        assert forall|j: int| 0 <= j < keys.len() && (#[trigger] all[j]) is Some implies {
            let i = all[j]->0 as int;
            &&& i < trees
            &&& i < previous.len()
            &&& previous[i].eq_spec(&keys[j])
        } by {
            if j == keys.len() - 1 {
                assert(all[j] == all.last());
                let found = first_position(previous, keys.last());
                assert(found is Some);
                let i = choose|i: int| is_first_position(previous, keys.last(), i);
                assert(found == Some(i));
                assert(is_first_position(previous, keys.last(), i));
                assert(all[j] == Some(i as usize));
            } else {
                assert(earlier[j] == all[j]);
                assert(rest[j] == keys[j]);
            }
        }
    }
}

/// When no previous key equals two of the new keys (as with distinct keys
/// and a lawful `==`), every child whose key was there before inherits the
/// tree left at the first position of that key, whenever a tree sits
/// there, and every other child gets a fresh tree.
pub proof fn law_existing_keys_inherit_their_trees<K: PartialEq>(previous: Seq<K>, trees: nat, keys: Seq<K>)
    requires
        trees <= usize::MAX,
        forall|i: int, j1: int, j2: int|
            0 <= i < previous.len() && 0 <= j1 < j2 < keys.len() ==> !(#[trigger] previous[i].eq_spec(&keys[j1])
                && #[trigger] previous[i].eq_spec(&keys[j2])),
    ensures
        forall|j: int|
            0 <= j < keys.len() ==> #[trigger] inherited(previous, trees, keys)[j] == match first_position(
                previous,
                keys[j],
            ) {
                Some(i) => if i < trees {
                    Some(i as usize)
                } else {
                    None
                },
                None => None,
            },
    decreases keys.len(),
{
    if keys.len() > 0 {
        let rest = keys.drop_last();
        law_existing_keys_inherit_their_trees(previous, trees, rest);
        law_trees_follow_their_keys(previous, trees, rest);
        let earlier = inherited(previous, trees, rest);
        let all = inherited(previous, trees, keys);
        let last = keys.len() - 1;
        assert forall|j: int| 0 <= j < keys.len() implies #[trigger] all[j] == match first_position(
            previous,
            keys[j],
        ) {
            Some(i) => if i < trees {
                Some(i as usize)
            } else {
                None
            },
            None => None,
        } by {
            if j < last {
                assert(all[j] == earlier[j]);
                assert(rest[j] == keys[j]);
            } else {
                match first_position(previous, keys.last()) {
                    Some(i) => {
                        let c = choose|c: int| is_first_position(previous, keys.last(), c);
                        assert(is_first_position(previous, keys.last(), c));
                        if i < trees && earlier.contains(Some(i as usize)) {
                            let k = choose|k: int| 0 <= k < earlier.len() && earlier[k] == Some(i as usize);
                            assert(earlier[k] is Some);
                            assert(previous[i].eq_spec(&rest[k]));
                            assert(rest[k] == keys[k]);
                            assert(previous[i].eq_spec(&keys[last]));
                            assert(false);
                        }
                    },
                    None => {},
                }
            }
        }
    }
}

/// With distinct keys and an `==` that is symmetric and transitive, as a
/// lawful `PartialEq` is, every child whose key was there before inherits
/// the tree left at the first position of that key, whenever a tree sits
/// there, and every other child gets a fresh tree.
pub proof fn law_distinct_keys_inherit_their_trees<K: PartialEq>(previous: Seq<K>, trees: nat, keys: Seq<K>)
    requires
        trees <= usize::MAX,
        forall|a: K, b: K| #[trigger] a.eq_spec(&b) ==> b.eq_spec(&a),
        forall|a: K, b: K, c: K| #[trigger] a.eq_spec(&b) && #[trigger] b.eq_spec(&c) ==> a.eq_spec(&c),
        forall|j1: int, j2: int| 0 <= j1 < j2 < keys.len() ==> !#[trigger] keys[j1].eq_spec(&keys[j2]),
    ensures
        forall|j: int|
            0 <= j < keys.len() ==> #[trigger] inherited(previous, trees, keys)[j] == match first_position(
                previous,
                keys[j],
            ) {
                Some(i) => if i < trees {
                    Some(i as usize)
                } else {
                    None
                },
                None => None,
            },
{
    assert forall|i: int, j1: int, j2: int|
        0 <= i < previous.len() && 0 <= j1 < j2 < keys.len() implies !(#[trigger] previous[i].eq_spec(&keys[j1])
        && #[trigger] previous[i].eq_spec(&keys[j2])) by {
        if previous[i].eq_spec(&keys[j1]) && previous[i].eq_spec(&keys[j2]) {
            assert(keys[j1].eq_spec(&previous[i]));
            assert(keys[j1].eq_spec(&keys[j2]));
        }
    }
    law_existing_keys_inherit_their_trees(previous, trees, keys);
}

} // verus!
