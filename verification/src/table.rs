//! Rewards kept by key, in the order in which the keys came.

use vstd::prelude::*;
use crate::reward::{info_valid, relay_eq, RewardInfo, RewardInfoView};
use crate::types::{AccountId, RelayAccountId};

verus! {

/// A reward together with the key that it is kept under.
pub struct Entry<K> {
    /// The key.
    pub key: K,
    /// The reward.
    pub info: RewardInfo,
}

/// What a vector of entries stands for: each key with the view of its reward.
pub open spec fn entries_view<K>(entries: Seq<Entry<K>>) -> Seq<(K, RewardInfoView)> {
    Seq::new(entries.len(), |i: int| (entries[i].key, entries[i].info@))
}

/// Whether some entry is kept under `key`.
pub open spec fn has_key<K>(table: Seq<(K, RewardInfoView)>, key: K) -> bool {
    exists|i: int| 0 <= i < table.len() && (#[trigger] table[i]).0 == key
}

/// The place of an entry that is kept under `key`.
pub open spec fn key_index<K>(table: Seq<(K, RewardInfoView)>, key: K) -> int {
    choose|i: int| 0 <= i < table.len() && (#[trigger] table[i]).0 == key
}

/// The reward that is kept under `key`, if there is one.
pub open spec fn lookup<K>(table: Seq<(K, RewardInfoView)>, key: K) -> Option<RewardInfoView> {
    if has_key(table, key) {
        Some(table[key_index(table, key)].1)
    } else {
        None
    }
}

/// No key occurs twice.
pub open spec fn distinct_keys<K>(table: Seq<(K, RewardInfoView)>) -> bool {
    forall|i: int, j: int|
        0 <= i < j < table.len() ==> (#[trigger] table[i]).0 != (#[trigger] table[j]).0
}

/// Every reward of the table is sound.
pub open spec fn infos_valid<K>(table: Seq<(K, RewardInfoView)>) -> bool {
    forall|i: int| 0 <= i < table.len() ==> info_valid((#[trigger] table[i]).1)
}

/// The sum of the whole rewards of a table.
pub open spec fn total_rewards<K>(table: Seq<(K, RewardInfoView)>) -> nat
    decreases table.len(),
{
    if table.len() == 0 {
        0
    } else {
        total_rewards(table.drop_last()) + table.last().1.total_reward
    }
}

/// Where keys are distinct, a key is found at one place only.
pub proof fn lemma_key_index<K>(table: Seq<(K, RewardInfoView)>, key: K, i: int)
    requires
        distinct_keys(table),
        0 <= i < table.len(),
        table[i].0 == key,
    ensures
        has_key(table, key),
        key_index(table, key) == i,
        lookup(table, key) == Some(table[i].1),
{
    let j = key_index(table, key);
    assert(0 <= j < table.len() && table[j].0 == key);
    if i < j {
        assert(table[i].0 != table[j].0);
    } else if j < i {
        assert(table[j].0 != table[i].0);
    }
}

/// One more entry adds its whole reward to the sum.
pub proof fn lemma_total_push<K>(table: Seq<(K, RewardInfoView)>, entry: (K, RewardInfoView))
    ensures
        total_rewards(table.push(entry)) == total_rewards(table) + entry.1.total_reward,
{
    assert(table.push(entry).drop_last() =~= table);
}

/// Replacing an entry changes the sum by the difference of the two whole rewards.
pub proof fn lemma_total_update<K>(
    table: Seq<(K, RewardInfoView)>,
    i: int,
    entry: (K, RewardInfoView),
)
    requires
        0 <= i < table.len(),
    ensures
        total_rewards(table.update(i, entry)) + table[i].1.total_reward == total_rewards(table)
            + entry.1.total_reward,
    decreases table.len(),
{
    let updated = table.update(i, entry);
    if i == table.len() - 1 {
        assert(updated.drop_last() =~= table.drop_last());
    } else {
        assert(updated.drop_last() =~= table.drop_last().update(i, entry));
        lemma_total_update(table.drop_last(), i, entry);
    }
}

/// Taking an entry out takes its whole reward off the sum.
pub proof fn lemma_total_remove<K>(table: Seq<(K, RewardInfoView)>, i: int)
    requires
        0 <= i < table.len(),
    ensures
        total_rewards(table.remove(i)) + table[i].1.total_reward == total_rewards(table),
    decreases table.len(),
{
    let removed = table.remove(i);
    if i == table.len() - 1 {
        assert(removed =~= table.drop_last());
    } else {
        assert(removed.drop_last() =~= table.drop_last().remove(i));
        assert(removed.last() == table.last());
        lemma_total_remove(table.drop_last(), i);
    }
}

/// One entry owes no more than the whole table.
pub proof fn lemma_total_one<K>(table: Seq<(K, RewardInfoView)>, i: int)
    requires
        0 <= i < table.len(),
    ensures
        table[i].1.total_reward <= total_rewards(table),
{
    lemma_total_remove(table, i);
}

/// Replacing an entry by one with the same key keeps the keys as they are.
pub proof fn lemma_update_same_key<K>(
    table: Seq<(K, RewardInfoView)>,
    i: int,
    entry: (K, RewardInfoView),
)
    requires
        distinct_keys(table),
        0 <= i < table.len(),
        entry.0 == table[i].0,
    ensures
        distinct_keys(table.update(i, entry)),
        forall|k: K| has_key(table.update(i, entry), k) <==> has_key(table, k),
{
    let updated = table.update(i, entry);
    assert forall|a: int, b: int| 0 <= a < b < updated.len() implies (#[trigger] updated[a]).0 != (
    #[trigger] updated[b]).0 by {
        assert(table[a].0 != table[b].0);
    }
    assert forall|k: K| has_key(updated, k) <==> has_key(table, k) by {
        if has_key(updated, k) {
            let a = key_index(updated, k);
            assert(table[a].0 == k);
        }
        if has_key(table, k) {
            let a = key_index(table, k);
            assert(updated[a].0 == k);
        }
    }
}

/// Replacing the key of an entry by one that the table lacks keeps the keys distinct.
pub proof fn lemma_update_new_key<K>(
    table: Seq<(K, RewardInfoView)>,
    i: int,
    entry: (K, RewardInfoView),
)
    requires
        distinct_keys(table),
        0 <= i < table.len(),
        !has_key(table, entry.0),
    ensures
        distinct_keys(table.update(i, entry)),
        forall|k: K|
            has_key(table.update(i, entry), k) <==> (has_key(table, k) && k != table[i].0) || k
                == entry.0,
{
    let updated = table.update(i, entry);
    assert forall|a: int, b: int| 0 <= a < b < updated.len() implies (#[trigger] updated[a]).0 != (
    #[trigger] updated[b]).0 by {
        assert(table[a].0 != table[b].0);
        assert(table[a].0 != entry.0);
        assert(table[b].0 != entry.0);
    }
    assert forall|k: K|
        has_key(updated, k) <==> (has_key(table, k) && k != table[i].0) || k == entry.0 by {
        if has_key(updated, k) {
            let a = key_index(updated, k);
            if a != i {
                assert(table[a].0 == k);
                if a < i {
                    assert(table[a].0 != table[i].0);
                } else {
                    assert(table[i].0 != table[a].0);
                }
            }
        }
        if has_key(table, k) && k != table[i].0 {
            let a = key_index(table, k);
            assert(updated[a].0 == k);
        }
        if k == entry.0 {
            assert(updated[i].0 == k);
        }
    }
}

/// An entry with a key that the table lacks keeps the keys distinct.
pub proof fn lemma_push_new_key<K>(table: Seq<(K, RewardInfoView)>, entry: (K, RewardInfoView))
    requires
        distinct_keys(table),
        !has_key(table, entry.0),
    ensures
        distinct_keys(table.push(entry)),
        forall|k: K| has_key(table.push(entry), k) <==> has_key(table, k) || k == entry.0,
{
    let pushed = table.push(entry);
    assert forall|a: int, b: int| 0 <= a < b < pushed.len() implies (#[trigger] pushed[a]).0 != (
    #[trigger] pushed[b]).0 by {
        assert(table[a].0 != entry.0);
        if b < table.len() {
            assert(table[a].0 != table[b].0);
        }
    }
    assert forall|k: K| has_key(pushed, k) <==> has_key(table, k) || k == entry.0 by {
        if has_key(pushed, k) {
            let a = key_index(pushed, k);
            if a < table.len() {
                assert(table[a].0 == k);
            }
        }
        if has_key(table, k) {
            let a = key_index(table, k);
            assert(pushed[a].0 == k);
        }
        if k == entry.0 {
            assert(pushed[table.len() as int].0 == k);
        }
    }
}

/// Taking an entry out keeps the keys distinct, and its key is then gone.
pub proof fn lemma_remove_key<K>(table: Seq<(K, RewardInfoView)>, i: int)
    requires
        distinct_keys(table),
        0 <= i < table.len(),
    ensures
        distinct_keys(table.remove(i)),
        forall|k: K| has_key(table.remove(i), k) <==> has_key(table, k) && k != table[i].0,
{
    let removed = table.remove(i);
    assert forall|a: int| 0 <= a < removed.len() implies #[trigger] removed[a] == table[if a
        < i {
        a
    } else {
        a + 1
    }] by {}
    assert forall|a: int, b: int| 0 <= a < b < removed.len() implies (#[trigger] removed[a]).0 != (
    #[trigger] removed[b]).0 by {
        let a1 = if a < i { a } else { a + 1 };
        let b1 = if b < i { b } else { b + 1 };
        assert(table[a1].0 != table[b1].0);
    }
    assert forall|k: K| has_key(removed, k) <==> has_key(table, k) && k != table[i].0 by {
        if has_key(removed, k) {
            let a = key_index(removed, k);
            let a1 = if a < i { a } else { a + 1 };
            assert(table[a1].0 == k);
            if a1 < i {
                assert(table[a1].0 != table[i].0);
            } else {
                assert(table[i].0 != table[a1].0);
            }
        }
        if has_key(table, k) && k != table[i].0 {
            let a = key_index(table, k);
            if a < i {
                assert(removed[a].0 == k);
            } else {
                assert(removed[a - 1].0 == k);
            }
        }
    }
}

/// After an entry was replaced by one with the same key, that key leads to the new
/// reward and every other key to what it led to before.
pub proof fn lemma_lookup_update_same_key<K>(
    table: Seq<(K, RewardInfoView)>,
    i: int,
    entry: (K, RewardInfoView),
)
    requires
        distinct_keys(table),
        0 <= i < table.len(),
        entry.0 == table[i].0,
    ensures
        lookup(table.update(i, entry), entry.0) == Some(entry.1),
        forall|k: K| k != entry.0 ==> lookup(table.update(i, entry), k) == lookup(table, k),
{
    let updated = table.update(i, entry);
    lemma_update_same_key(table, i, entry);
    lemma_key_index(updated, entry.0, i);
    assert forall|k: K| k != entry.0 implies lookup(updated, k) == lookup(table, k) by {
        if has_key(table, k) {
            let a = key_index(table, k);
            assert(updated[a] == table[a]);
            lemma_key_index(updated, k, a);
        }
    }
}

/// After the key of an entry was replaced by one that the table lacked, the new key
/// leads to the reward, the old key to nothing, and every other key to what it led to
/// before.
pub proof fn lemma_lookup_update_new_key<K>(
    table: Seq<(K, RewardInfoView)>,
    i: int,
    entry: (K, RewardInfoView),
)
    requires
        distinct_keys(table),
        0 <= i < table.len(),
        !has_key(table, entry.0),
    ensures
        lookup(table.update(i, entry), entry.0) == Some(entry.1),
        lookup(table.update(i, entry), table[i].0) is None,
        forall|k: K|
            k != entry.0 && k != table[i].0 ==> lookup(table.update(i, entry), k) == lookup(
                table,
                k,
            ),
{
    let updated = table.update(i, entry);
    lemma_update_new_key(table, i, entry);
    lemma_key_index(updated, entry.0, i);
    assert(table[i].0 != entry.0);
    assert forall|k: K| k != entry.0 && k != table[i].0 implies lookup(updated, k) == lookup(
        table,
        k,
    ) by {
        if has_key(table, k) {
            let a = key_index(table, k);
            assert(updated[a] == table[a]);
            lemma_key_index(updated, k, a);
        }
    }
}

/// After an entry with a key that the table lacked was added, that key leads to its
/// reward and every other key to what it led to before.
pub proof fn lemma_lookup_push<K>(table: Seq<(K, RewardInfoView)>, entry: (K, RewardInfoView))
    requires
        distinct_keys(table),
        !has_key(table, entry.0),
    ensures
        lookup(table.push(entry), entry.0) == Some(entry.1),
        forall|k: K| k != entry.0 ==> lookup(table.push(entry), k) == lookup(table, k),
{
    let pushed = table.push(entry);
    lemma_push_new_key(table, entry);
    lemma_key_index(pushed, entry.0, table.len() as int);
    assert forall|k: K| k != entry.0 implies lookup(pushed, k) == lookup(table, k) by {
        if has_key(table, k) {
            let a = key_index(table, k);
            assert(pushed[a] == table[a]);
            lemma_key_index(pushed, k, a);
        }
    }
}

/// After an entry was taken out, its key leads to nothing and every other key to what
/// it led to before.
pub proof fn lemma_lookup_remove<K>(table: Seq<(K, RewardInfoView)>, i: int)
    requires
        distinct_keys(table),
        0 <= i < table.len(),
    ensures
        lookup(table.remove(i), table[i].0) is None,
        forall|k: K| k != table[i].0 ==> lookup(table.remove(i), k) == lookup(table, k),
{
    let removed = table.remove(i);
    lemma_remove_key(table, i);
    assert forall|k: K| k != table[i].0 implies lookup(removed, k) == lookup(table, k) by {
        if has_key(table, k) {
            let a = key_index(table, k);
            if a < i {
                assert(removed[a] == table[a]);
                lemma_key_index(removed, k, a);
            } else {
                assert(removed[a - 1] == table[a]);
                lemma_key_index(removed, k, a - 1);
            }
        }
    }
}

/// The place of the entry that is kept under `who`, if there is one.
pub fn find_account(entries: &Vec<Entry<AccountId>>, who: AccountId) -> (place: Option<usize>)
    ensures
        match place {
            Some(i) => i < entries.len() && entries@[i as int].key == who,
            None => !has_key(entries_view(entries@), who),
        },
{
    let mut i: usize = 0;
    while i < entries.len()
        invariant
            i <= entries.len(),
            forall|j: int| 0 <= j < i ==> entries@[j].key != who,
        decreases entries.len() - i,
    {
        if entries[i].key == who {
            return Some(i);
        }
        i = i + 1;
    }
    assert forall|j: int| 0 <= j < entries.len() implies (#[trigger] entries_view(
        entries@,
    )[j]).0 != who by {
        assert(entries@[j].key != who);
    }
    None
}

/// The place of the entry that is kept under `relay`, if there is one.
pub fn find_relay(entries: &Vec<Entry<RelayAccountId>>, relay: &RelayAccountId) -> (place: Option<
    usize,
>)
    ensures
        match place {
            Some(i) => i < entries.len() && entries@[i as int].key == *relay,
            None => !has_key(entries_view(entries@), *relay),
        },
{
    let mut i: usize = 0;
    while i < entries.len()
        invariant
            i <= entries.len(),
            forall|j: int| 0 <= j < i ==> entries@[j].key != *relay,
        decreases entries.len() - i,
    {
        if relay_eq(&entries[i].key, relay) {
            return Some(i);
        }
        i = i + 1;
    }
    assert forall|j: int| 0 <= j < entries.len() implies (#[trigger] entries_view(
        entries@,
    )[j]).0 != *relay by {
        assert(entries@[j].key != *relay);
    }
    None
}

} // verus!
