//! Ordered maps over sorted vectors, for keys that are compared by an integer rank.
use vstd::arithmetic::div_mod::lemma_fundamental_div_mod;
use vstd::prelude::*;

use crate::types::{AccountBlock, Word};

verus! {

/// A key whose order is the order of its integer rank.
pub trait OrdKey: Copy {
    /// The integer that stands for the key. Distinct keys have distinct ranks.
    spec fn rank(self) -> int;

    /// Equal ranks mean equal keys.
    proof fn rank_injective(a: Self, b: Self)
        requires
            a.rank() == b.rank(),
        ensures
            a == b,
    ;

    /// Returns true if the two keys are equal.
    fn same(&self, other: &Self) -> (equal: bool)
        ensures
            equal == (*self == *other),
    ;

    /// Returns true if this key comes strictly before the other.
    fn precedes(&self, other: &Self) -> (before: bool)
        ensures
            before == (self.rank() < other.rank()),
    ;
}

impl OrdKey for u16 {
    open spec fn rank(self) -> int {
        self as int
    }

    proof fn rank_injective(a: Self, b: Self) {
    }

    fn same(&self, other: &Self) -> (equal: bool) {
        *self == *other
    }

    fn precedes(&self, other: &Self) -> (before: bool) {
        *self < *other
    }
}

impl OrdKey for u32 {
    open spec fn rank(self) -> int {
        self as int
    }

    proof fn rank_injective(a: Self, b: Self) {
    }

    fn same(&self, other: &Self) -> (equal: bool) {
        *self == *other
    }

    fn precedes(&self, other: &Self) -> (before: bool) {
        *self < *other
    }
}

impl OrdKey for u64 {
    open spec fn rank(self) -> int {
        self as int
    }

    proof fn rank_injective(a: Self, b: Self) {
    }

    fn same(&self, other: &Self) -> (equal: bool) {
        *self == *other
    }

    fn precedes(&self, other: &Self) -> (before: bool) {
        *self < *other
    }
}

impl OrdKey for u128 {
    open spec fn rank(self) -> int {
        self as int
    }

    proof fn rank_injective(a: Self, b: Self) {
    }

    fn same(&self, other: &Self) -> (equal: bool) {
        *self == *other
    }

    fn precedes(&self, other: &Self) -> (before: bool) {
        *self < *other
    }
}

impl OrdKey for AccountBlock {
    /// Ordered by account, then by block.
    open spec fn rank(self) -> int {
        self.account_id * 0x1_0000_0000 + self.block_num
    }

    proof fn rank_injective(a: Self, b: Self) {
    }

    fn same(&self, other: &Self) -> (equal: bool) {
        *self == *other
    }

    fn precedes(&self, other: &Self) -> (before: bool) {
        if self.account_id == other.account_id {
            self.block_num < other.block_num
        } else {
            self.account_id < other.account_id
        }
    }
}

/// Two to the 64th power.
pub open spec fn radix() -> int {
    0x1_0000_0000_0000_0000
}

impl OrdKey for Word {
    /// Words are ordered by their last element first.
    open spec fn rank(self) -> int {
        ((self.e3 * radix() + self.e2) * radix() + self.e1) * radix() + self.e0
    }

    proof fn rank_injective(a: Self, b: Self) {
        let a2 = a.e3 * radix() + a.e2;
        let b2 = b.e3 * radix() + b.e2;
        let a1 = a2 * radix() + a.e1;
        let b1 = b2 * radix() + b.e1;
        assert(a1 == b1 && a.e0 == b.e0);
        assert(a2 == b2 && a.e1 == b.e1);
    }

    fn same(&self, other: &Self) -> (equal: bool) {
        *self == *other
    }

    fn precedes(&self, other: &Self) -> (before: bool) {
        proof {
            let a2 = self.e3 * radix() + self.e2;
            let b2 = other.e3 * radix() + other.e2;
            let a1 = a2 * radix() + self.e1;
            let b1 = b2 * radix() + other.e1;
            assert(self.e3 < other.e3 ==> a2 < b2);
            assert(self.e3 > other.e3 ==> a2 > b2);
            assert(a2 < b2 ==> a1 < b1);
            assert(a2 > b2 ==> a1 > b1);
            assert(a1 < b1 ==> self.rank() < other.rank());
            assert(a1 > b1 ==> self.rank() > other.rank());
        }
        if self.e3 != other.e3 {
            self.e3 < other.e3
        } else if self.e2 != other.e2 {
            self.e2 < other.e2
        } else if self.e1 != other.e1 {
            self.e1 < other.e1
        } else {
            self.e0 < other.e0
        }
    }
}

/// Returns true if `key` is among `keys`.
pub fn contains_key<K: OrdKey>(keys: &Vec<K>, key: &K) -> (found: bool)
    ensures
        found == keys@.contains(*key),
{
    let mut i: usize = 0;
    while i < keys.len()
        invariant
            i <= keys.len(),
            forall|j: int| 0 <= j < i ==> keys@[j] != *key,
        decreases keys.len() - i,
    {
        if keys[i].same(key) {
            assert(keys@[i as int] == *key);
            return true;
        }
        i += 1;
    }
    false
}

/// The first of the given options that holds something.
pub open spec fn first_some<T>(options: Seq<Option<T>>) -> Option<T>
    decreases options.len(),
{
    if options.len() == 0 {
        None
    } else {
        match first_some(options.drop_last()) {
            Some(value) => Some(value),
            None => options.last(),
        }
    }
}

/// If the first options hold nothing and the next one does, it is the first that does.
pub proof fn lemma_first_some_at<T>(options: Seq<Option<T>>, i: int)
    requires
        0 <= i < options.len(),
        first_some(options.take(i)) is None,
        options[i] is Some,
    ensures
        first_some(options) == options[i],
    decreases options.len() - i,
{
    assert(options.take(i + 1).drop_last() =~= options.take(i));
    lemma_first_some_kept(options, i + 1);
}

/// What the first part of the options holds is what all of them hold.
pub proof fn lemma_first_some_kept<T>(options: Seq<Option<T>>, n: int)
    requires
        0 <= n <= options.len(),
        first_some(options.take(n)) is Some,
    ensures
        first_some(options) == first_some(options.take(n)),
    decreases options.len() - n,
{
    if n < options.len() {
        assert(options.take(n + 1).drop_last() =~= options.take(n));
        lemma_first_some_kept(options, n + 1);
    } else {
        assert(options.take(n) =~= options);
    }
}

/// Taking one more option that holds nothing keeps the first part empty.
pub proof fn lemma_first_some_step<T>(options: Seq<Option<T>>, i: int)
    requires
        0 <= i < options.len(),
        first_some(options.take(i)) is None,
        options[i] is None,
    ensures
        first_some(options.take(i + 1)) is None,
{
    assert(options.take(i + 1).drop_last() =~= options.take(i));
}

/// All options hold nothing exactly if none is the first to hold something.
pub proof fn lemma_first_some_none<T>(options: Seq<Option<T>>)
    ensures
        first_some(options) is None <==> forall|i: int|
            0 <= i < options.len() ==> (#[trigger] options[i]) is None,
    decreases options.len(),
{
    if options.len() > 0 {
        let rest = options.drop_last();
        lemma_first_some_none(rest);
        if first_some(options) is None {
            assert forall|i: int| 0 <= i < options.len() implies (#[trigger] options[i]) is None by {
                if i < rest.len() {
                    assert(options[i] == rest[i]);
                }
            }
        }
        if forall|i: int| 0 <= i < options.len() ==> (#[trigger] options[i]) is None {
            assert forall|i: int| 0 <= i < rest.len() implies (#[trigger] rest[i]) is None by {
                assert(options[i] is None);
            }
            assert(options[options.len() - 1] is None);
        }
    }
}

/// What is first among the options is one of them.
pub proof fn lemma_first_some_is_one<T>(options: Seq<Option<T>>)
    ensures
        first_some(options) is Some ==> exists|i: int|
            0 <= i < options.len() && #[trigger] options[i] == first_some(options),
    decreases options.len(),
{
    if options.len() > 0 {
        let rest = options.drop_last();
        lemma_first_some_is_one(rest);
        if first_some(rest) is Some {
            let i = choose|i: int| 0 <= i < rest.len() && #[trigger] rest[i] == first_some(rest);
            assert(options[i] == rest[i]);
        } else {
            assert(options[options.len() - 1] == options.last());
        }
    }
}

/// The position of the first key that occurred before.
pub open spec fn is_first_repeat<K>(keys: Seq<K>, i: int) -> bool {
    &&& 0 <= i < keys.len()
    &&& keys.take(i).contains(keys[i])
    &&& keys.take(i).no_duplicates()
}

/// Returns the first key that occurred before, if there is one.
pub fn first_duplicate_key<K: OrdKey>(keys: &Vec<K>) -> (key: Option<K>)
    ensures
        match key {
            Some(k) => exists|i: int| #[trigger] is_first_repeat(keys@, i) && keys@[i] == k,
            None => keys@.no_duplicates(),
        },
{
    let mut i: usize = 0;
    while i < keys.len()
        invariant
            i <= keys.len(),
            keys@.take(i as int).no_duplicates(),
        decreases keys.len() - i,
    {
        let mut j: usize = 0;
        while j < i
            invariant
                j <= i < keys.len(),
                keys@.take(i as int).no_duplicates(),
                forall|k: int| 0 <= k < j ==> keys@[k] != keys@[i as int],
            decreases i - j,
        {
            if keys[j].same(&keys[i]) {
                assert(keys@.take(i as int)[j as int] == keys@[i as int]);
                assert(is_first_repeat(keys@, i as int));
                return Some(keys[i]);
            }
            j += 1;
        }
        proof {
            let longer = keys@.take(i + 1);
            assert forall|a: int, b: int| 0 <= a < b < longer.len() implies (#[trigger] longer[a])
                != (#[trigger] longer[b]) by {
                if b < i {
                    assert(keys@.take(i as int)[a] != keys@.take(i as int)[b]);
                }
            }
        }
        i += 1;
    }
    assert(keys@.take(keys.len() as int) =~= keys@);
    None
}

/// The values that are there, in order.
pub open spec fn present<T>(options: Seq<Option<T>>) -> Seq<T>
    decreases options.len(),
{
    if options.len() == 0 {
        Seq::empty()
    } else {
        match options.last() {
            Some(value) => present(options.drop_last()).push(value),
            None => present(options.drop_last()),
        }
    }
}

// SELECTIONS
// ================================================================================================
/// `at` are the wanted ones of the first `n` positions, in order, and `picked` are their values.
pub open spec fn picks_at<T>(
    picked: Seq<T>,
    at: Seq<int>,
    n: int,
    wanted: spec_fn(int) -> bool,
    value: spec_fn(int) -> T,
) -> bool {
    &&& at.len() == picked.len()
    &&& forall|k: int|
        0 <= k < at.len() ==> 0 <= (#[trigger] at[k]) < n && wanted(at[k]) && picked[k] == value(
            at[k],
        )
    &&& forall|j: int, k: int| 0 <= j < k < at.len() ==> (#[trigger] at[j]) < (#[trigger] at[k])
    &&& forall|i: int| 0 <= i < n && #[trigger] wanted(i) ==> at.contains(i)
}

/// `picked` are the values of the wanted ones of the first `n` positions: each of them once, in order,
/// and nothing else.
pub open spec fn picks<T>(
    picked: Seq<T>,
    n: int,
    wanted: spec_fn(int) -> bool,
    value: spec_fn(int) -> T,
) -> bool {
    exists|at: Seq<int>| #[trigger] picks_at(picked, at, n, wanted, value)
}

/// Of no positions, nothing is picked.
pub proof fn lemma_picks_none<T>(wanted: spec_fn(int) -> bool, value: spec_fn(int) -> T)
    ensures
        picks(Seq::<T>::empty(), 0, wanted, value),
{
    assert(picks_at(Seq::<T>::empty(), Seq::<int>::empty(), 0, wanted, value));
}

/// One more position adds its value, if it is wanted.
pub proof fn lemma_picks_next<T>(
    rest: Seq<T>,
    wanted_before: spec_fn(int) -> bool,
    value_before: spec_fn(int) -> T,
    picked: Seq<T>,
    n: int,
    wanted: spec_fn(int) -> bool,
    value: spec_fn(int) -> T,
)
    requires
        n > 0,
        picks(rest, n - 1, wanted_before, value_before),
        forall|i: int|
            0 <= i < n - 1 ==> #[trigger] wanted(i) == wanted_before(i) && (wanted(i) ==> value(i)
                == value_before(i)),
        picked == if wanted(n - 1) {
            rest.push(value(n - 1))
        } else {
            rest
        },
    ensures
        picks(picked, n, wanted, value),
{
    let before = choose|at: Seq<int>| #[trigger]
        picks_at(rest, at, n - 1, wanted_before, value_before);
    let at = if wanted(n - 1) {
        before.push(n - 1)
    } else {
        before
    };
    assert forall|k: int| 0 <= k < at.len() implies 0 <= (#[trigger] at[k]) < n && wanted(at[k])
        && picked[k] == value(at[k]) by {
        if k < before.len() {
            assert(at[k] == before[k]);
            assert(wanted(before[k]) == wanted_before(before[k]));
        }
    }
    assert forall|j: int, k: int| 0 <= j < k < at.len() implies (#[trigger] at[j]) < (
    #[trigger] at[k]) by {
        assert(at[j] == before[j]);
        if k < before.len() {
            assert(at[k] == before[k]);
        }
    }
    assert forall|i: int| 0 <= i < n && #[trigger] wanted(i) implies at.contains(i) by {
        if i < n - 1 {
            assert(wanted(i) == wanted_before(i));
            assert(before.contains(i));
            let k = choose|k: int| 0 <= k < before.len() && before[k] == i;
            assert(at[k] == i);
        } else {
            assert(at[at.len() - 1] == i);
        }
    }
    assert(picks_at(picked, at, n, wanted, value));
}

/// One more position before the others adds its value at the front, if it is wanted.
pub proof fn lemma_picks_first<T>(
    rest: Seq<T>,
    wanted_after: spec_fn(int) -> bool,
    value_after: spec_fn(int) -> T,
    picked: Seq<T>,
    n: int,
    wanted: spec_fn(int) -> bool,
    value: spec_fn(int) -> T,
)
    requires
        n > 0,
        picks(rest, n - 1, wanted_after, value_after),
        forall|i: int|
            0 <= i < n - 1 ==> #[trigger] wanted_after(i) == wanted(i + 1) && (wanted_after(i)
                ==> value_after(i) == value(i + 1)),
        picked == if wanted(0) {
            seq![value(0)] + rest
        } else {
            rest
        },
    ensures
        picks(picked, n, wanted, value),
{
    let after = choose|at: Seq<int>| #[trigger]
        picks_at(rest, at, n - 1, wanted_after, value_after);
    let moved = Seq::new(after.len(), |k: int| after[k] + 1);
    let shift: int = if wanted(0) {
        1
    } else {
        0
    };
    let at = if wanted(0) {
        seq![0int] + moved
    } else {
        moved
    };
    assert forall|k: int| 0 <= k < at.len() implies 0 <= (#[trigger] at[k]) < n && wanted(at[k])
        && picked[k] == value(at[k]) by {
        if k >= shift {
            assert(at[k] == after[k - shift] + 1);
            assert(wanted_after(after[k - shift]));
            assert(picked[k] == rest[k - shift]);
        }
    }
    assert forall|j: int, k: int| 0 <= j < k < at.len() implies (#[trigger] at[j]) < (
    #[trigger] at[k]) by {
        assert(at[k] == after[k - shift] + 1);
        if j >= shift {
            assert(at[j] == after[j - shift] + 1);
        }
    }
    assert forall|i: int| 0 <= i < n && #[trigger] wanted(i) implies at.contains(i) by {
        if i == 0 {
            assert(at[0] == 0);
        } else {
            assert(wanted_after(i - 1) == wanted(i - 1 + 1));
            assert(after.contains(i - 1));
            let k = choose|k: int| 0 <= k < after.len() && after[k] == i - 1;
            assert(at[k + shift] == i);
        }
    }
    assert(picks_at(picked, at, n, wanted, value));
}

/// What is picked depends on nothing but what is wanted, and on the values of that.
pub proof fn lemma_picks_same<T>(
    picked: Seq<T>,
    n: int,
    wanted_before: spec_fn(int) -> bool,
    value_before: spec_fn(int) -> T,
    wanted: spec_fn(int) -> bool,
    value: spec_fn(int) -> T,
)
    requires
        picks(picked, n, wanted_before, value_before),
        forall|i: int|
            0 <= i < n ==> #[trigger] wanted(i) == wanted_before(i) && (wanted(i) ==> value(i)
                == value_before(i)),
    ensures
        picks(picked, n, wanted, value),
{
    let at = choose|at: Seq<int>| #[trigger]
        picks_at(picked, at, n, wanted_before, value_before);
    assert forall|k: int| 0 <= k < at.len() implies 0 <= (#[trigger] at[k]) < n && wanted(at[k])
        && picked[k] == value(at[k]) by {
        assert(wanted(at[k]) == wanted_before(at[k]));
    }
    assert forall|i: int| 0 <= i < n && #[trigger] wanted(i) implies at.contains(i) by {
        assert(wanted(i) == wanted_before(i));
    }
    assert(picks_at(picked, at, n, wanted, value));
}

/// Filtering a list picks the items that pass.
pub proof fn lemma_picks_filter<T>(
    items: Seq<T>,
    pass: spec_fn(T) -> bool,
)
    ensures
        picks(
            items.filter(pass),
            items.len() as int,
            |i: int| pass(items[i]),
            |i: int| items[i],
        ),
    decreases items.len(),
{
    let wanted = |i: int| pass(items[i]);
    let value = |i: int| items[i];
    if items.len() == 0 {
        reveal(Seq::filter);
        assert(items.filter(pass) =~= Seq::empty());
        lemma_picks_none(wanted, value);
    } else {
        let items_before = items.drop_last();
        lemma_picks_filter(items_before, pass);
        reveal(Seq::filter);
        lemma_picks_next(
            items_before.filter(pass),
            |i: int| pass(items_before[i]),
            |i: int| items_before[i],
            items.filter(pass),
            items.len() as int,
            wanted,
            value,
        );
    }
}

/// The first value that is there, if any is, is found: nothing comes before it, and nothing is
/// missed.
pub proof fn law_first_some<T>(options: Seq<Option<T>>)
    ensures
        first_some(options) is None <==> forall|i: int|
            0 <= i < options.len() ==> #[trigger] options[i] is None,
        first_some(options) is Some ==> exists|i: int|
            0 <= i < options.len() && #[trigger] options[i] == first_some(options) && forall|
                j: int,
            |
                0 <= j < i ==> #[trigger] options[j] is None,
        forall|i: int|
            0 <= i < options.len() && #[trigger] options[i] is Some && (forall|j: int|
                0 <= j < i ==> #[trigger] options[j] is None) ==> first_some(options) == options[i],
    decreases options.len(),
{
    if options.len() > 0 {
        let before = options.drop_last();
        let last = options.len() - 1;
        law_first_some(before);
        assert forall|i: int| 0 <= i < last implies before[i] == options[i] by {}
        if first_some(before) is Some {
            let i = choose|i: int|
                0 <= i < before.len() && #[trigger] before[i] == first_some(before) && forall|
                    j: int,
                |
                    0 <= j < i ==> #[trigger] before[j] is None;
            assert(options[i] == first_some(options));
            assert forall|j: int| 0 <= j < i implies #[trigger] options[j] is None by {
                assert(before[j] is None);
            }
        } else {
            assert forall|j: int| 0 <= j < last implies #[trigger] options[j] is None by {
                assert(before[j] is None);
            }
            assert(options[last] == options.last());
        }
        assert forall|i: int|
            0 <= i < options.len() && #[trigger] options[i] is Some && (forall|j: int|
                0 <= j < i ==> #[trigger] options[j] is None) implies first_some(options)
            == options[i] by {
            if i < last {
                assert(before[i] is Some);
                assert forall|j: int| 0 <= j < i implies #[trigger] before[j] is None by {
                    assert(options[j] is None);
                }
            } else {
                assert forall|j: int| 0 <= j < before.len() implies #[trigger] before[j] is None by {
                    assert(options[j] is None);
                }
            }
        }
    }
}

/// Every value that is there is listed, in order, and nothing else is.
pub proof fn law_present<T>(
    options: Seq<Option<T>>,
)
    ensures
        picks(
            present(options),
            options.len() as int,
            |i: int| options[i] is Some,
            |i: int| options[i]->0,
        ),
    decreases options.len(),
{
    let wanted = |i: int| options[i] is Some;
    let value = |i: int| options[i]->0;
    if options.len() == 0 {
        lemma_picks_none(wanted, value);
    } else {
        let options_before = options.drop_last();
        law_present(options_before);
        lemma_picks_next(
            present(options_before),
            |i: int| options_before[i] is Some,
            |i: int| options_before[i]->0,
            present(options),
            options.len() as int,
            wanted,
            value,
        );
    }
}

/// The keys are in strictly ascending order.
pub open spec fn ascending<K: OrdKey>(keys: Seq<K>) -> bool {
    forall|i: int, j: int|
        0 <= i < j < keys.len() ==> (#[trigger] keys[i]).rank() < (#[trigger] keys[j]).rank()
}

/// `keys` lists exactly the keys in `set`, in ascending order.
pub open spec fn lists_set<K: OrdKey>(keys: Seq<K>, set: Set<K>) -> bool {
    &&& ascending(keys)
    &&& forall|key: K| #[trigger] keys.contains(key) <==> set.contains(key)
}

/// The keys of `entries` come in strictly increasing order.
pub open spec fn keys_ascending<K: OrdKey, V>(entries: Seq<(K, V)>) -> bool {
    forall|i: int, j: int|
        0 <= i < j < entries.len() ==> (#[trigger] entries[i]).0.rank() < (
        #[trigger] entries[j]).0.rank()
}

/// Some entry has this key.
pub open spec fn has_key<K, V>(entries: Seq<(K, V)>, key: K) -> bool {
    exists|i: int| 0 <= i < entries.len() && (#[trigger] entries[i]).0 == key
}

/// The value of the entry with this key.
pub open spec fn value_of<K, V>(entries: Seq<(K, V)>, key: K) -> V {
    entries[choose|i: int| 0 <= i < entries.len() && (#[trigger] entries[i]).0 == key].1
}

/// The map that a list of entries stands for.
pub open spec fn entries_map<K, V>(entries: Seq<(K, V)>) -> Map<K, V> {
    Map::new(|key: K| has_key(entries, key), |key: K| value_of(entries, key))
}

/// In a list with ascending keys, the entry at a position is the one its key maps to.
pub proof fn lemma_entry_of<K: OrdKey, V>(entries: Seq<(K, V)>, i: int)
    requires
        keys_ascending(entries),
        0 <= i < entries.len(),
    ensures
        entries_map(entries).contains_key(entries[i].0),
        entries_map(entries)[entries[i].0] == entries[i].1,
{
    let key = entries[i].0;
    assert(has_key(entries, key));
    let j = choose|j: int| 0 <= j < entries.len() && (#[trigger] entries[j]).0 == key;
    if j < i {
        assert(entries[j].0.rank() < entries[i].0.rank());
    }
    if i < j {
        assert(entries[i].0.rank() < entries[j].0.rank());
    }
}

/// Two lists with ascending keys that stand for the same map are the same list: what an ordered
/// map lists is determined by what it holds.
pub proof fn lemma_listing_unique<K: OrdKey, V>(a: Seq<(K, V)>, b: Seq<(K, V)>)
    requires
        keys_ascending(a),
        keys_ascending(b),
        entries_map(a) == entries_map(b),
    ensures
        a == b,
    decreases a.len(),
{
    if a.len() == 0 {
        if b.len() > 0 {
            lemma_entry_of(b, 0);
            assert(has_key(a, b[0].0));
        }
        assert(a =~= b);
    } else {
        let last = a[a.len() - 1];
        lemma_entry_of(a, a.len() - 1);
        assert(has_key(b, last.0));
        let n = b.len() - 1;
        let at = choose|j: int| 0 <= j < b.len() && (#[trigger] b[j]).0 == last.0;
        lemma_entry_of(b, n);
        assert(has_key(a, b[n].0));
        let back = choose|j: int| 0 <= j < a.len() && (#[trigger] a[j]).0 == b[n].0;
        if at != n {
            assert(b[at].0.rank() < b[n].0.rank());
            if back != a.len() - 1 {
                assert(a[back].0.rank() < a[a.len() - 1].0.rank());
            }
            assert(false);
        }
        assert(b[n] == last);
        let a1 = a.drop_last();
        let b1 = b.drop_last();
        assert forall|key: K| has_key(a1, key) == has_key(b1, key) by {
            if has_key(a1, key) {
                let i = choose|i: int| 0 <= i < a1.len() && (#[trigger] a1[i]).0 == key;
                assert(a[i].0 == key);
                assert(has_key(a, key));
                assert(has_key(b, key)) by {
                    assert(entries_map(a).contains_key(key));
                    assert(entries_map(b).contains_key(key));
                }
                let j = choose|j: int| 0 <= j < b.len() && (#[trigger] b[j]).0 == key;
                assert(a[i].0.rank() < a[a.len() - 1].0.rank());
                assert(j < n);
                assert(b1[j].0 == key);
            }
            if has_key(b1, key) {
                let j = choose|j: int| 0 <= j < b1.len() && (#[trigger] b1[j]).0 == key;
                assert(b[j].0 == key);
                assert(has_key(b, key));
                assert(has_key(a, key)) by {
                    assert(entries_map(b).contains_key(key));
                    assert(entries_map(a).contains_key(key));
                }
                let i = choose|i: int| 0 <= i < a.len() && (#[trigger] a[i]).0 == key;
                assert(b[j].0.rank() < b[n].0.rank());
                assert(i < a.len() - 1);
                assert(a1[i].0 == key);
            }
        }
        assert forall|key: K| has_key(a1, key) implies value_of(a1, key) == value_of(b1, key) by {
            let i = choose|i: int| 0 <= i < a1.len() && (#[trigger] a1[i]).0 == key;
            let j = choose|j: int| 0 <= j < b1.len() && (#[trigger] b1[j]).0 == key;
            assert(has_key(b1, key));
            lemma_entry_of(a1, i);
            lemma_entry_of(b1, j);
            lemma_entry_of(a, i);
            lemma_entry_of(b, j);
            assert(a[i] == a1[i] && b[j] == b1[j]);
        }
        assert(entries_map(a1) =~= entries_map(b1));
        lemma_listing_unique(a1, b1);
        assert(a =~= a1.push(last));
        assert(b =~= b1.push(last));
    }
}

/// A map that lists its entries in ascending order of their keys.
#[derive(Debug)]
pub struct OrdMap<K: OrdKey, V> {
    entries: Vec<(K, V)>,
}

impl<K: OrdKey, V> View for OrdMap<K, V> {
    type V = Map<K, V>;

    open spec fn view(&self) -> Map<K, V> {
        entries_map(self.listing())
    }
}

impl<K: OrdKey, V> OrdMap<K, V> {
    /// The entries, in order.
    pub closed spec fn listing(self) -> Seq<(K, V)> {
        self.entries@
    }

    /// The keys are in strictly ascending order, which holds of every map.
    #[verifier::type_invariant]
    pub open spec fn wf(self) -> bool {
        keys_ascending(self.listing())
    }

    /// Returns an empty map.
    pub fn new() -> (map: Self)
        ensures
            map.wf(),
            map.listing() == Seq::<(K, V)>::empty(),
            map@ == Map::<K, V>::empty(),
    {
        let map = OrdMap { entries: Vec::new() };
        assert(map@ =~= Map::<K, V>::empty());
        map
    }

    /// Returns the number of entries.
    pub fn len(&self) -> (count: usize)
        ensures
            count == self.listing().len(),
            self.wf(),
    {
        proof {
            use_type_invariant(self);
        }
        self.entries.len()
    }

    /// Returns the entries, in order.
    pub fn entries(&self) -> (entries: &Vec<(K, V)>)
        ensures
            entries@ == self.listing(),
            self.wf(),
    {
        proof {
            use_type_invariant(self);
        }
        &self.entries
    }

    /// Turns the map into its entries, in order.
    pub fn into_entries(self) -> (entries: Vec<(K, V)>)
        ensures
            entries@ == self.listing(),
            self.wf(),
    {
        proof {
            use_type_invariant(&self);
        }
        self.entries
    }

    /// Returns the number of entries that come before `key`, which is also the position of `key`
    /// if the map has it.
    pub fn position(&self, key: &K) -> (position: usize)
        ensures
            self.wf(),
            position <= self.listing().len(),
            forall|i: int|
                0 <= i < position ==> (#[trigger] self.listing()[i]).0.rank() < key.rank(),
            forall|i: int|
                position <= i < self.listing().len() ==> (#[trigger] self.listing()[i]).0.rank()
                    >= key.rank(),
            self@.contains_key(*key) <==> position < self.listing().len()
                && self.listing()[position as int].0 == *key,
    {
        proof {
            use_type_invariant(self);
        }
        let mut low: usize = 0;
        let mut high: usize = self.entries.len();
        while low < high
            invariant
                self.wf(),
                low <= high <= self.entries.len(),
                forall|i: int| 0 <= i < low ==> (#[trigger] self.entries@[i]).0.rank() < key.rank(),
                forall|i: int|
                    high <= i < self.entries.len() ==> (#[trigger] self.entries@[i]).0.rank()
                        >= key.rank(),
            decreases high - low,
        {
            let middle: usize = low + (high - low) / 2;
            if self.entries[middle].0.precedes(key) {
                low = middle + 1;
            } else {
                high = middle;
            }
        }
        proof {
            if has_key(self.entries@, *key) {
                let i = choose|i: int|
                    0 <= i < self.entries@.len() && (#[trigger] self.entries@[i]).0 == *key;
                assert(i >= low);
                if i > low {
                    assert(self.entries@[low as int].0.rank() < self.entries@[i].0.rank());
                }
            }
            if low < self.entries.len() && self.entries@[low as int].0 == *key {
                assert(has_key(self.entries@, *key));
            }
        }
        low
    }

    /// Returns the value stored under `key`.
    pub fn get(&self, key: &K) -> (value: Option<&V>)
        ensures
            match value {
                Some(v) => self@.contains_key(*key) && self@[*key] == *v,
                None => !self@.contains_key(*key),
            },
    {
        let position: usize = self.position(key);
        if position < self.entries.len() && self.entries[position].0.same(key) {
            proof {
                lemma_entry_of(self.entries@, position as int);
            }
            Some(&self.entries[position].1)
        } else {
            None
        }
    }

    /// Returns true if the map has an entry under `key`.
    pub fn contains(&self, key: &K) -> (found: bool)
        ensures
            found == self@.contains_key(*key),
    {
        self.get(key).is_some()
    }

    /// Adds the entries of another map, where there are none yet.
    pub fn insert_missing(&mut self, other: OrdMap<K, V>)
        ensures
            final(self).wf(),
            final(self)@ == other@.union_prefer_right(old(self)@),
    {
        let ghost all = other.listing();
        let ghost before = self@;
        proof {
            use_type_invariant(&*self);
        }
        let entries = other.into_entries();
        let ghost mut n: int = 0;
        assert(entries_map(all.take(0)) =~= Map::<K, V>::empty());
        for entry in iter: entries
            invariant
                iter.seq() == all,
                n == iter.index(),
                keys_ascending(all),
                self.wf(),
                self@ == entries_map(all.take(n)).union_prefer_right(before),
        {
            let (key, value) = entry;
            proof {
                lemma_take_next(all, n);
                assert(all[n] == entry);
            }
            if !self.contains(&key) {
                self.insert(key, value);
            }
            assert(self@ =~= entries_map(all.take(n + 1)).union_prefer_right(before));
            proof {
                n = n + 1;
            }
        }
        assert(all.take(n) =~= all);
    }

    /// Adds the entries of another map, replacing those that are there.
    pub fn insert_all(&mut self, other: OrdMap<K, V>)
        ensures
            final(self).wf(),
            final(self)@ == old(self)@.union_prefer_right(other@),
    {
        let ghost all = other.listing();
        let ghost before = self@;
        proof {
            use_type_invariant(&*self);
        }
        let entries = other.into_entries();
        let ghost mut n: int = 0;
        assert(entries_map(all.take(0)) =~= Map::<K, V>::empty());
        for entry in iter: entries
            invariant
                iter.seq() == all,
                n == iter.index(),
                keys_ascending(all),
                self.wf(),
                self@ == before.union_prefer_right(entries_map(all.take(n))),
        {
            let (key, value) = entry;
            proof {
                lemma_take_next(all, n);
                assert(all[n] == entry);
            }
            self.insert(key, value);
            assert(self@ =~= before.union_prefer_right(entries_map(all.take(n + 1))));
            proof {
                n = n + 1;
            }
        }
        assert(all.take(n) =~= all);
    }

    /// Returns a copy of the map.
    pub fn copy(&self) -> (map: Self) where V: Copy
        ensures
            map.wf(),
            map.listing() == self.listing(),
    {
        proof {
            use_type_invariant(self);
        }
        let mut entries: Vec<(K, V)> = Vec::new();
        let mut i: usize = 0;
        while i < self.entries.len()
            invariant
                i <= self.entries.len(),
                entries@ == self.entries@.take(i as int),
            decreases self.entries.len() - i,
        {
            entries.push((self.entries[i].0, self.entries[i].1));
            i += 1;
        }
        assert(self.entries@.take(i as int) =~= self.entries@);
        OrdMap { entries }
    }

    /// Returns the keys in ascending order.
    pub fn keys(&self) -> (keys: Vec<K>)
        ensures
            keys@ == self.listing().map_values(|entry: (K, V)| entry.0),
            lists_set(keys@, self@.dom()),
    {
        proof {
            use_type_invariant(self);
        }
        let mut keys: Vec<K> = Vec::new();
        let mut i: usize = 0;
        while i < self.entries.len()
            invariant
                i <= self.entries.len(),
                keys@.len() == i,
                forall|k: int| 0 <= k < i ==> #[trigger] keys@[k] == self.entries@[k].0,
            decreases self.entries.len() - i,
        {
            keys.push(self.entries[i].0);
            i += 1;
        }
        proof {
            assert forall|a: int, b: int| 0 <= a < b < keys@.len() implies (
            #[trigger] keys@[a]).rank() < (#[trigger] keys@[b]).rank() by {
                assert(self.entries@[a].0.rank() < self.entries@[b].0.rank());
            }
            assert forall|key: K| #[trigger] keys@.contains(key) <==> self@.dom().contains(key) by {
                if keys@.contains(key) {
                    let k = choose|k: int| 0 <= k < keys@.len() && keys@[k] == key;
                    assert(self.entries@[k].0 == key);
                }
                if self@.dom().contains(key) {
                    let k = choose|k: int|
                        0 <= k < self.entries@.len() && (#[trigger] self.entries@[k]).0 == key;
                    assert(keys@[k] == key);
                }
            }
        }
        keys
    }

    /// Stores `value` under `key`, replacing what was stored there.
    pub fn insert(&mut self, key: K, value: V)
        ensures
            final(self).wf(),
            final(self)@ == old(self)@.insert(key, value),
    {
        let position: usize = self.position(&key);
        let ghost before = self.entries@;
        let mut entries: Vec<(K, V)> = Vec::new();
        std::mem::swap(&mut entries, &mut self.entries);
        if position < entries.len() && entries[position].0.same(&key) {
            entries.set(position, (key, value));
            proof {
                lemma_replace(before, position as int, value);
            }
        } else {
            proof {
                if position < before.len() && before[position as int].0.rank() == key.rank() {
                    K::rank_injective(before[position as int].0, key);
                }
            }
            entries.insert(position, (key, value));
            proof {
                lemma_insert(before, position as int, key, value);
            }
        }
        self.entries = entries;
    }

    /// Removes the entry under `key` and returns its value.
    pub fn remove(&mut self, key: &K) -> (value: Option<V>)
        ensures
            final(self).wf(),
            final(self)@ == old(self)@.remove(*key),
            match value {
                Some(v) => old(self)@.contains_key(*key) && old(self)@[*key] == v,
                None => !old(self)@.contains_key(*key),
            },
    {
        let position: usize = self.position(key);
        if position < self.entries.len() && self.entries[position].0.same(key) {
            proof {
                lemma_entry_of(self.entries@, position as int);
            }
            let entry = self.remove_at(position);
            Some(entry.1)
        } else {
            assert(self@ =~= self@.remove(*key));
            None
        }
    }

    /// Removes the entry at a position and returns it.
    pub fn remove_at(&mut self, position: usize) -> (entry: (K, V))
        requires
            position < old(self).listing().len(),
        ensures
            final(self).wf(),
            entry == old(self).listing()[position as int],
            final(self).listing() == old(self).listing().remove(position as int),
            final(self)@ == old(self)@.remove(entry.0),
    {
        proof {
            use_type_invariant(&*self);
            lemma_remove(self.entries@, position as int);
        }
        let mut entries: Vec<(K, V)> = Vec::new();
        std::mem::swap(&mut entries, &mut self.entries);
        let entry = entries.remove(position);
        self.entries = entries;
        entry
    }

    /// Puts an entry at a position, which has to be its place in the order.
    pub fn insert_at(&mut self, position: usize, key: K, value: V)
        requires
            position <= old(self).listing().len(),
            forall|i: int|
                0 <= i < position ==> (#[trigger] old(self).listing()[i]).0.rank() < key.rank(),
            forall|i: int|
                position <= i < old(self).listing().len() ==> (#[trigger] old(
                    self,
                ).listing()[i]).0.rank() > key.rank(),
        ensures
            final(self).wf(),
            final(self).listing() == old(self).listing().insert(position as int, (key, value)),
            final(self)@ == old(self)@.insert(key, value),
    {
        proof {
            use_type_invariant(&*self);
            lemma_insert(self.entries@, position as int, key, value);
        }
        let mut entries: Vec<(K, V)> = Vec::new();
        std::mem::swap(&mut entries, &mut self.entries);
        entries.insert(position, (key, value));
        self.entries = entries;
    }
}

/// Replacing the value at a position updates the map at that position's key.
pub proof fn lemma_replace<K: OrdKey, V>(entries: Seq<(K, V)>, at: int, value: V)
    requires
        keys_ascending(entries),
        0 <= at < entries.len(),
    ensures
        keys_ascending(entries.update(at, (entries[at].0, value))),
        entries_map(entries.update(at, (entries[at].0, value))) == entries_map(entries).insert(
            entries[at].0,
            value,
        ),
{
    let key = entries[at].0;
    let after = entries.update(at, (key, value));
    assert forall|i: int, j: int| 0 <= i < j < after.len() implies (#[trigger] after[i]).0.rank()
        < (#[trigger] after[j]).0.rank() by {
        assert(entries[i].0.rank() < entries[j].0.rank());
    }
    assert forall|k: K| has_key(after, k) == (k == key || has_key(entries, k)) by {
        if has_key(after, k) {
            let i = choose|i: int| 0 <= i < after.len() && (#[trigger] after[i]).0 == k;
            assert(entries[i].0 == k);
        }
        if has_key(entries, k) {
            let i = choose|i: int| 0 <= i < entries.len() && (#[trigger] entries[i]).0 == k;
            assert(after[i].0 == k);
        }
        assert(after[at].0 == key);
    }
    assert forall|k: K| has_key(after, k) implies value_of(after, k) == (if k == key {
        value
    } else {
        value_of(entries, k)
    }) by {
        let i = choose|i: int| 0 <= i < after.len() && (#[trigger] after[i]).0 == k;
        lemma_entry_of(after, i);
        lemma_entry_of(entries, i);
        if k == key {
            lemma_entry_of(after, at);
        }
    }
    assert(entries_map(after) =~= entries_map(entries).insert(key, value));
}

/// Inserting an entry at its place in the order extends the map by it.
pub proof fn lemma_insert<K: OrdKey, V>(entries: Seq<(K, V)>, at: int, key: K, value: V)
    requires
        keys_ascending(entries),
        0 <= at <= entries.len(),
        forall|i: int| 0 <= i < at ==> (#[trigger] entries[i]).0.rank() < key.rank(),
        forall|i: int| at <= i < entries.len() ==> (#[trigger] entries[i]).0.rank() > key.rank(),
    ensures
        keys_ascending(entries.insert(at, (key, value))),
        entries_map(entries.insert(at, (key, value))) == entries_map(entries).insert(key, value),
{
    let after = entries.insert(at, (key, value));
    assert forall|i: int, j: int| 0 <= i < j < after.len() implies (#[trigger] after[i]).0.rank()
        < (#[trigger] after[j]).0.rank() by {
        let i0 = if i < at {
            i
        } else {
            i - 1
        };
        let j0 = if j < at {
            j
        } else {
            j - 1
        };
        if i != at {
            assert(after[i] == entries[i0]);
        }
        if j != at {
            assert(after[j] == entries[j0]);
        }
    }
    assert forall|k: K| has_key(after, k) == (k == key || has_key(entries, k)) by {
        if has_key(after, k) {
            let i = choose|i: int| 0 <= i < after.len() && (#[trigger] after[i]).0 == k;
            if i < at {
                assert(entries[i].0 == k);
            } else if i > at {
                assert(entries[i - 1].0 == k);
            }
        }
        if has_key(entries, k) {
            let i = choose|i: int| 0 <= i < entries.len() && (#[trigger] entries[i]).0 == k;
            if i < at {
                assert(after[i].0 == k);
            } else {
                assert(after[i + 1].0 == k);
            }
        }
        assert(after[at].0 == key);
    }
    assert forall|k: K| has_key(after, k) implies value_of(after, k) == (if k == key {
        value
    } else {
        value_of(entries, k)
    }) by {
        let i = choose|i: int| 0 <= i < after.len() && (#[trigger] after[i]).0 == k;
        lemma_entry_of(after, i);
        lemma_entry_of(after, at);
        if k != key {
            let i0 = if i < at {
                i
            } else {
                i - 1
            };
            assert(after[i] == entries[i0]);
            lemma_entry_of(entries, i0);
        }
    }
    assert(entries_map(after) =~= entries_map(entries).insert(key, value));
}

/// Removing the entry at a position removes its key from the map.
pub proof fn lemma_remove<K: OrdKey, V>(entries: Seq<(K, V)>, at: int)
    requires
        keys_ascending(entries),
        0 <= at < entries.len(),
    ensures
        keys_ascending(entries.remove(at)),
        entries_map(entries.remove(at)) == entries_map(entries).remove(entries[at].0),
{
    let key = entries[at].0;
    let after = entries.remove(at);
    assert forall|i: int, j: int| 0 <= i < j < after.len() implies (#[trigger] after[i]).0.rank()
        < (#[trigger] after[j]).0.rank() by {
        let i0 = if i < at {
            i
        } else {
            i + 1
        };
        let j0 = if j < at {
            j
        } else {
            j + 1
        };
        assert(entries[i0].0.rank() < entries[j0].0.rank());
    }
    assert forall|k: K| has_key(after, k) == (k != key && has_key(entries, k)) by {
        if has_key(after, k) {
            let i = choose|i: int| 0 <= i < after.len() && (#[trigger] after[i]).0 == k;
            let i0 = if i < at {
                i
            } else {
                i + 1
            };
            assert(entries[i0].0 == k);
            if i0 < at {
                assert(entries[i0].0.rank() < entries[at].0.rank());
            } else {
                assert(entries[at].0.rank() < entries[i0].0.rank());
            }
        }
        if k != key && has_key(entries, k) {
            let i = choose|i: int| 0 <= i < entries.len() && (#[trigger] entries[i]).0 == k;
            if i < at {
                assert(after[i].0 == k);
            } else {
                assert(after[i - 1].0 == k);
            }
        }
    }
    assert forall|k: K| has_key(after, k) implies value_of(after, k) == value_of(entries, k) by {
        let i = choose|i: int| 0 <= i < after.len() && (#[trigger] after[i]).0 == k;
        lemma_entry_of(after, i);
        let i0 = if i < at {
            i
        } else {
            i + 1
        };
        assert(after[i] == entries[i0]);
        lemma_entry_of(entries, i0);
    }
    assert(entries_map(after) =~= entries_map(entries).remove(key));
}

/// The entry behind the first `n` ones adds its key to their map, which does not have it.
pub proof fn lemma_take_next<K: OrdKey, V>(entries: Seq<(K, V)>, n: int)
    requires
        keys_ascending(entries),
        0 <= n < entries.len(),
    ensures
        entries_map(entries.take(n + 1)) == entries_map(entries.take(n)).insert(
            entries[n].0,
            entries[n].1,
        ),
        !entries_map(entries.take(n)).contains_key(entries[n].0),
{
    let shorter = entries.take(n);
    let (key, value) = entries[n];
    assert forall|k: int| 0 <= k < n implies (#[trigger] shorter[k]).0.rank() < key.rank() by {
        assert(entries[k].0.rank() < entries[n].0.rank());
    }
    assert forall|a: int, b: int| 0 <= a < b < n implies (#[trigger] shorter[a]).0.rank() < (
    #[trigger] shorter[b]).0.rank() by {
        assert(entries[a].0.rank() < entries[b].0.rank());
    }
    lemma_insert(shorter, n, key, value);
    assert(entries.take(n + 1) =~= shorter.insert(n, (key, value)));
}

/// The part of the items that is in chunk number `n`.
pub open spec fn chunk_of<T>(items: Seq<T>, limit: int, n: int) -> Seq<T> {
    let end = if (n + 1) * limit <= items.len() {
        (n + 1) * limit
    } else {
        items.len() as int
    };
    items.subrange(n * limit, end)
}

/// Splits items into chunks of `limit` items, of which the last one may have fewer.
pub fn chunks<T: Copy>(items: &Vec<T>, limit: usize) -> (parts: Vec<Vec<T>>)
    requires
        limit > 0,
    ensures
        parts@.len() == (items@.len() + limit - 1) / limit as int,
        forall|n: int|
            0 <= n < parts@.len() ==> (#[trigger] parts@[n])@ == chunk_of(items@, limit as int, n),
{
    let mut parts: Vec<Vec<T>> = Vec::new();
    let mut start: usize = 0;
    assert(0 * limit == 0);
    while start < items.len()
        invariant
            limit > 0,
            start <= items.len(),
            start == items.len() || start == parts@.len() * limit,
            start == items.len() && parts@.len() > 0 ==> (parts@.len() - 1) * limit < items.len()
                <= parts@.len() * limit,
            start == items.len() && parts@.len() == 0 ==> items.len() == 0,
            forall|n: int|
                0 <= n < parts@.len() ==> (#[trigger] parts@[n])@ == chunk_of(
                    items@,
                    limit as int,
                    n,
                ),
        decreases items.len() - start,
    {
        let end: usize = if limit < items.len() - start {
            start + limit
        } else {
            items.len()
        };
        let ghost count = parts@.len() as int;
        proof {
            assert((count + 1) * limit == count * limit + limit) by (nonlinear_arith);
        }
        let mut part: Vec<T> = Vec::new();
        let mut i: usize = start;
        while i < end
            invariant
                start <= i <= end <= items.len(),
                part@ == items@.subrange(start as int, i as int),
            decreases end - i,
        {
            part.push(items[i]);
            i += 1;
        }
        parts.push(part);
        start = end;
    }
    proof {
        let count = parts@.len() as int;
        let len = items@.len() as int;
        let size = limit as int;
        if count == 0 {
            assert(len == 0);
            assert((len + size - 1) / size == 0) by (nonlinear_arith)
                requires
                    len == 0,
                    size > 0,
            ;
        } else {
            assert((len + size - 1) / size == count) by (nonlinear_arith)
                requires
                    (count - 1) * size < len <= count * size,
                    size > 0,
            ;
        }
    }
    parts
}

/// Every item is in one of the chunks, at the place that its position gives.
pub proof fn law_chunks_cover<T>(items: Seq<T>, limit: int, i: int)
    requires
        limit > 0,
        0 <= i < items.len(),
    ensures
        0 <= i / limit < (items.len() + limit - 1) / limit,
        0 <= i % limit < chunk_of(items, limit, i / limit).len() <= limit,
        chunk_of(items, limit, i / limit)[i % limit] == items[i],
{
    let n = i / limit;
    let len = items.len() as int;
    lemma_fundamental_div_mod(i, limit);
    assert(n * limit == limit * n) by (nonlinear_arith);
    assert((n + 1) * limit == n * limit + limit) by (nonlinear_arith);
    assert(0 <= n) by (nonlinear_arith)
        requires
            n == i / limit,
            0 <= i,
            0 < limit,
    ;
    assert(n * limit >= 0) by (nonlinear_arith)
        requires
            n >= 0,
            limit > 0,
    ;
    assert(n < (len + limit - 1) / limit) by (nonlinear_arith)
        requires
            n * limit < len,
            limit > 0,
    ;
}

/// Returns the keys in ascending order, each of them once.
pub fn sorted_set<K: OrdKey>(keys: &Vec<K>) -> (sorted: Vec<K>)
    ensures
        lists_set(sorted@, keys@.to_set()),
{
    let mut set: OrdMap<K, ()> = OrdMap::new();
    let mut i: usize = 0;
    while i < keys.len()
        invariant
            i <= keys.len(),
            set.wf(),
            forall|key: K| #[trigger]
                set@.contains_key(key) <==> keys@.take(i as int).contains(key),
        decreases keys.len() - i,
    {
        let ghost before = set@;
        set.insert(keys[i], ());
        proof {
            let longer = keys@.take(i + 1);
            let shorter = keys@.take(i as int);
            assert(longer =~= shorter.push(keys@[i as int]));
            assert forall|key: K| #[trigger]
                set@.contains_key(key) <==> longer.contains(key) by {
                assert(before.contains_key(key) <==> shorter.contains(key));
                if shorter.contains(key) {
                    let k = choose|k: int| 0 <= k < i && shorter[k] == key;
                    assert(longer[k] == key);
                }
                assert(longer[i as int] == keys@[i as int]);
            }
        }
        i += 1;
    }
    assert(keys@.take(i as int) =~= keys@);
    set.keys()
}

// LAWS
// ================================================================================================
/// Words are ordered by their last element, and then by those before it. Keys of accounts and blocks
/// are ordered by account, and then by block. Numbers are ordered as numbers.
pub proof fn law_key_order(a: Word, b: Word, c: AccountBlock, d: AccountBlock)
    ensures
        a.rank() < b.rank() <==> a.e3 < b.e3 || (a.e3 == b.e3 && (a.e2 < b.e2 || (a.e2 == b.e2 && (
        a.e1 < b.e1 || (a.e1 == b.e1 && a.e0 < b.e0))))),
        c.rank() < d.rank() <==> c.account_id < d.account_id || (c.account_id == d.account_id
            && c.block_num < d.block_num),
        forall|x: u32, y: u32| #[trigger] x.rank() < #[trigger] y.rank() <==> x < y,
        forall|x: u64, y: u64| #[trigger] x.rank() < #[trigger] y.rank() <==> x < y,
        forall|x: u128, y: u128| #[trigger] x.rank() < #[trigger] y.rank() <==> x < y,
{
    let a2 = a.e3 * radix() + a.e2;
    let b2 = b.e3 * radix() + b.e2;
    let a1 = a2 * radix() + a.e1;
    let b1 = b2 * radix() + b.e1;
    assert(a.e3 < b.e3 ==> a2 < b2);
    assert(a.e3 > b.e3 ==> a2 > b2);
    assert(a2 < b2 ==> a1 < b1);
    assert(a2 > b2 ==> a1 > b1);
    assert(a1 < b1 ==> a.rank() < b.rank());
    assert(a1 > b1 ==> a.rank() > b.rank());
}

/// A key that is named as the first repeat stands before, and no key before it does twice.
pub proof fn law_first_repeat<K>(keys: Seq<K>, i: int)
    requires
        is_first_repeat(keys, i),
    ensures
        0 <= i < keys.len(),
        exists|j: int| 0 <= j < i && #[trigger] keys[j] == keys[i],
        forall|j: int, k: int| 0 <= j < k < i ==> #[trigger] keys[j] != #[trigger] keys[k],
{
    let earlier = keys.take(i);
    let j = choose|j: int| 0 <= j < earlier.len() && earlier[j] == keys[i];
    assert(keys[j] == keys[i]);
    assert forall|j: int, k: int| 0 <= j < k < i implies #[trigger] keys[j]
        != #[trigger] keys[k] by {
        assert(earlier[j] != earlier[k]);
    }
}

/// Ascending keys that list a set are the members of the set, each of them once.
pub proof fn law_lists_set<K: OrdKey>(keys: Seq<K>, set: Set<K>, key: K)
    requires
        lists_set(keys, set),
    ensures
        set.contains(key) <==> exists|i: int| 0 <= i < keys.len() && #[trigger] keys[i] == key,
        forall|i: int, j: int|
            0 <= i < j < keys.len() ==> (#[trigger] keys[i]).rank() < (#[trigger] keys[j]).rank(),
{
    if keys.contains(key) {
        let i = choose|i: int| 0 <= i < keys.len() && keys[i] == key;
        assert(keys[i] == key);
    }
}

/// Entries with ascending keys stand for the map that holds each of them.
pub proof fn law_entries_map<K: OrdKey, V>(entries: Seq<(K, V)>, key: K, i: int)
    requires
        keys_ascending(entries),
    ensures
        entries_map(entries).contains_key(key) <==> exists|k: int|
            0 <= k < entries.len() && (#[trigger] entries[k]).0 == key,
        0 <= i < entries.len() && entries[i].0 == key ==> entries_map(entries)[key] == entries[i].1,
{
    if 0 <= i < entries.len() && entries[i].0 == key {
        lemma_entry_of(entries, i);
    }
}

/// Parts have as many items as the limit, but for the last one, and follow each other.
pub proof fn law_chunk_bounds<T>(items: Seq<T>, limit: int, n: int, k: int)
    requires
        limit > 0,
        0 <= n,
        n * limit < items.len(),
        0 <= k < limit,
        n * limit + k < items.len(),
    ensures
        chunk_of(items, limit, n).len() == if (n + 1) * limit <= items.len() {
            limit
        } else {
            items.len() - n * limit
        },
        chunk_of(items, limit, n)[k] == items[n * limit + k],
{
    assert((n + 1) * limit == n * limit + limit) by (nonlinear_arith);
}

} // verus!
