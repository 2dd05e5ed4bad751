use vstd::prelude::*;

verus! {

/// Something stored under a key, such as a document under its address.
pub trait Keyed<K> {
    spec fn key(&self) -> K;
}

/// The item stored under `k` among `items`, if any.
pub open spec fn find_by_key<K, T: Keyed<K>>(items: Seq<T>, k: K) -> Option<T> {
    if exists|i: int| 0 <= i < items.len() && (#[trigger] items[i]).key() == k {
        Some(items[choose|i: int| 0 <= i < items.len() && (#[trigger] items[i]).key() == k])
    } else {
        None
    }
}

/// No two items share a key.
pub open spec fn unique_keys<K, T: Keyed<K>>(items: Seq<T>) -> bool {
    forall|i: int, j: int| 0 <= i < j < items.len() ==> (#[trigger] items[i]).key() != (#[trigger] items[j]).key()
}

pub proof fn lemma_find_at<K, T: Keyed<K>>(items: Seq<T>, k: int)
    requires
        unique_keys(items),
        0 <= k < items.len(),
    ensures
        find_by_key(items, items[k].key()) == Some(items[k]),
{
    let key = items[k].key();
    let i = choose|i: int| 0 <= i < items.len() && (#[trigger] items[i]).key() == key;
    if i != k {
        if i < k {
            assert(items[i].key() != items[k].key());
        } else {
            assert(items[k].key() != items[i].key());
        }
    }
}

/// Two lists without repeated keys that hold the same items under `u`
/// find the same item there.
proof fn lemma_find_same_elsewhere<K, T: Keyed<K>>(items: Seq<T>, items2: Seq<T>, u: K)
    requires
        unique_keys(items),
        unique_keys(items2),
        forall|j: int| 0 <= j < items.len() && (#[trigger] items[j]).key() == u ==> exists|k: int|
            0 <= k < items2.len() && #[trigger] items2[k] == items[j],
        forall|k: int| 0 <= k < items2.len() && (#[trigger] items2[k]).key() == u ==> exists|j: int|
            0 <= j < items.len() && #[trigger] items[j] == items2[k],
    ensures
        find_by_key(items2, u) == find_by_key(items, u),
{
    if exists|j: int| 0 <= j < items.len() && (#[trigger] items[j]).key() == u {
        let j = choose|j: int| 0 <= j < items.len() && (#[trigger] items[j]).key() == u;
        let k = choose|k: int| 0 <= k < items2.len() && #[trigger] items2[k] == items[j];
        lemma_find_at(items, j);
        lemma_find_at(items2, k);
    } else if exists|k: int| 0 <= k < items2.len() && (#[trigger] items2[k]).key() == u {
        let k = choose|k: int| 0 <= k < items2.len() && (#[trigger] items2[k]).key() == u;
        let j = choose|j: int| 0 <= j < items.len() && #[trigger] items[j] == items2[k];
        assert(items[j].key() == u);
    }
}

pub proof fn lemma_find_update<K, T: Keyed<K>>(items: Seq<T>, i: int, d: T)
    requires
        unique_keys(items),
        0 <= i < items.len(),
        items[i].key() == d.key(),
    ensures
        unique_keys(items.update(i, d)),
        find_by_key(items.update(i, d), d.key()) == Some(d),
        forall|u: K| u != d.key() ==> #[trigger] find_by_key(items.update(i, d), u) == find_by_key(items, u),
{
    let items2 = items.update(i, d);
    assert(unique_keys(items2)) by {
        assert forall|a: int, b: int| 0 <= a < b < items2.len() implies (#[trigger] items2[a]).key()
            != (#[trigger] items2[b]).key() by {
            assert(items[a].key() != items[b].key());
        }
    }
    lemma_find_at(items2, i);
    assert forall|u: K| u != d.key() implies #[trigger] find_by_key(items2, u) == find_by_key(items, u) by {
        assert forall|j: int| 0 <= j < items.len() && (#[trigger] items[j]).key() == u implies exists|k: int|
            0 <= k < items2.len() && #[trigger] items2[k] == items[j] by {
            assert(items2[j] == items[j]);
        }
        assert forall|k: int| 0 <= k < items2.len() && (#[trigger] items2[k]).key() == u implies exists|j: int|
            0 <= j < items.len() && #[trigger] items[j] == items2[k] by {
            assert(items[k] == items2[k]);
        }
        lemma_find_same_elsewhere(items, items2, u);
    }
}

pub proof fn lemma_find_push<K, T: Keyed<K>>(items: Seq<T>, d: T)
    requires
        unique_keys(items),
        forall|j: int| 0 <= j < items.len() ==> (#[trigger] items[j]).key() != d.key(),
    ensures
        unique_keys(items.push(d)),
        find_by_key(items.push(d), d.key()) == Some(d),
        forall|u: K| u != d.key() ==> #[trigger] find_by_key(items.push(d), u) == find_by_key(items, u),
{
    let items2 = items.push(d);
    assert(unique_keys(items2)) by {
        assert forall|a: int, b: int| 0 <= a < b < items2.len() implies (#[trigger] items2[a]).key()
            != (#[trigger] items2[b]).key() by {
            if b < items.len() {
                assert(items[a].key() != items[b].key());
            }
        }
    }
    lemma_find_at(items2, items.len() as int);
    assert forall|u: K| u != d.key() implies #[trigger] find_by_key(items2, u) == find_by_key(items, u) by {
        assert forall|j: int| 0 <= j < items.len() && (#[trigger] items[j]).key() == u implies exists|k: int|
            0 <= k < items2.len() && #[trigger] items2[k] == items[j] by {
            assert(items2[j] == items[j]);
        }
        assert forall|k: int| 0 <= k < items2.len() && (#[trigger] items2[k]).key() == u implies exists|j: int|
            0 <= j < items.len() && #[trigger] items[j] == items2[k] by {
            assert(items[k] == items2[k]);
        }
        lemma_find_same_elsewhere(items, items2, u);
    }
}

pub proof fn lemma_find_remove<K, T: Keyed<K>>(items: Seq<T>, i: int)
    requires
        unique_keys(items),
        0 <= i < items.len(),
    ensures
        unique_keys(items.remove(i)),
        find_by_key(items.remove(i), items[i].key()) is None,
        forall|u: K| u != items[i].key() ==> #[trigger] find_by_key(items.remove(i), u) == find_by_key(items, u),
{
    let items2 = items.remove(i);
    assert(unique_keys(items2)) by {
        assert forall|a: int, b: int| 0 <= a < b < items2.len() implies (#[trigger] items2[a]).key()
            != (#[trigger] items2[b]).key() by {
            let a0 = if a < i { a } else { a + 1 };
            let b0 = if b < i { b } else { b + 1 };
            assert(items2[a] == items[a0]);
            assert(items2[b] == items[b0]);
            assert(items[a0].key() != items[b0].key());
        }
    }
    assert forall|k: int| 0 <= k < items2.len() implies (#[trigger] items2[k]).key() != items[i].key() by {
        let k0 = if k < i { k } else { k + 1 };
        assert(items2[k] == items[k0]);
        if k0 < i {
            assert(items[k0].key() != items[i].key());
        } else {
            assert(items[i].key() != items[k0].key());
        }
    }
    assert forall|u: K| u != items[i].key() implies #[trigger] find_by_key(items2, u) == find_by_key(items, u) by {
        assert forall|j: int| 0 <= j < items.len() && (#[trigger] items[j]).key() == u implies exists|k: int|
            0 <= k < items2.len() && #[trigger] items2[k] == items[j] by {
            let k = if j < i { j } else { j - 1 };
            assert(items2[k] == items[j]);
        }
        assert forall|k: int| 0 <= k < items2.len() && (#[trigger] items2[k]).key() == u implies exists|j: int|
            0 <= j < items.len() && #[trigger] items[j] == items2[k] by {
            let j = if k < i { k } else { k + 1 };
            assert(items[j] == items2[k]);
        }
        lemma_find_same_elsewhere(items, items2, u);
    }
}

} // verus!
