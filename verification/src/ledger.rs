//! Lists of balances keyed by their owner, seen as maps from owner to amount.
use crate::state::Balance;
use vstd::prelude::*;

verus! {

/// No two entries of `s` have the same owner.
pub open spec fn owners_unique(s: Seq<Balance>) -> bool {
    forall|i: int, j: int|
        0 <= i < s.len() && 0 <= j < s.len() && i != j ==> #[trigger] s[i].owner@ != #[trigger] s[j].owner@
}

/// Some entry of `s` belongs to `owner`.
pub open spec fn holds(s: Seq<Balance>, owner: Seq<char>) -> bool {
    exists|i: int| 0 <= i < s.len() && #[trigger] s[i].owner@ == owner
}

/// The place of `owner`'s entry in `s`.
pub open spec fn position(s: Seq<Balance>, owner: Seq<char>) -> int {
    choose|i: int| 0 <= i < s.len() && #[trigger] s[i].owner@ == owner
}

/// The amount that each owner of an entry of `s` holds.
pub open spec fn balances_map(s: Seq<Balance>) -> Map<Seq<char>, nat> {
    Map::new(|k: Seq<char>| holds(s, k), |k: Seq<char>| s[position(s, k)].amount as nat)
}

/// The sum of the amounts of all entries of `s`.
pub open spec fn amounts_sum(s: Seq<Balance>) -> nat
    decreases s.len(),
{
    if s.len() == 0 {
        0
    } else {
        amounts_sum(s.drop_last()) + s.last().amount as nat
    }
}

/// What `m` holds for `key`, zero where it holds nothing.
pub open spec fn amount_or_zero(m: Map<Seq<char>, nat>, key: Seq<char>) -> nat {
    if m.contains_key(key) {
        m[key]
    } else {
        0
    }
}

pub proof fn lemma_map_at(s: Seq<Balance>, i: int)
    requires
        owners_unique(s),
        0 <= i < s.len(),
    ensures
        balances_map(s).contains_key(s[i].owner@),
        balances_map(s)[s[i].owner@] == s[i].amount as nat,
{
    let k = s[i].owner@;
    assert(holds(s, k));
    let p = position(s, k);
    assert(0 <= p < s.len() && s[p].owner@ == k);
}

pub proof fn lemma_map_update(s: Seq<Balance>, i: int, b: Balance)
    requires
        owners_unique(s),
        0 <= i < s.len(),
        b.owner@ == s[i].owner@,
    ensures
        owners_unique(s.update(i, b)),
        balances_map(s.update(i, b)) == balances_map(s).insert(b.owner@, b.amount as nat),
{
    let t = s.update(i, b);
    let k = b.owner@;
    assert forall|a: int, c: int|
        0 <= a < t.len() && 0 <= c < t.len() && a != c implies #[trigger] t[a].owner@ != #[trigger] t[c].owner@ by {
        assert(t[a].owner@ == s[a].owner@);
        assert(t[c].owner@ == s[c].owner@);
    }
    let target = balances_map(s).insert(k, b.amount as nat);
    assert forall|k2: Seq<char>| #[trigger] balances_map(t).contains_key(k2) <==> target.contains_key(k2) by {
        if holds(t, k2) {
            let j = choose|j: int| 0 <= j < t.len() && #[trigger] t[j].owner@ == k2;
            assert(s[j].owner@ == k2);
        }
        if holds(s, k2) {
            let j = choose|j: int| 0 <= j < s.len() && #[trigger] s[j].owner@ == k2;
            assert(t[j].owner@ == k2);
        }
        if k2 == k {
            assert(t[i].owner@ == k2);
        }
    }
    assert forall|k2: Seq<char>| #[trigger] balances_map(t).contains_key(k2) implies balances_map(t)[k2]
        == target[k2] by {
        let j = choose|j: int| 0 <= j < t.len() && #[trigger] t[j].owner@ == k2;
        lemma_map_at(t, j);
        if j != i {
            assert(t[j] == s[j]);
            lemma_map_at(s, j);
        }
    }
    assert(balances_map(t) =~= target);
}

pub proof fn lemma_map_push(s: Seq<Balance>, b: Balance)
    requires
        owners_unique(s),
        !holds(s, b.owner@),
    ensures
        owners_unique(s.push(b)),
        balances_map(s.push(b)) == balances_map(s).insert(b.owner@, b.amount as nat),
{
    let t = s.push(b);
    let k = b.owner@;
    let n = s.len() as int;
    assert forall|a: int, c: int|
        0 <= a < t.len() && 0 <= c < t.len() && a != c implies #[trigger] t[a].owner@ != #[trigger] t[c].owner@ by {
        if a < n && c < n {
            assert(t[a] == s[a] && t[c] == s[c]);
        } else if a < n {
            assert(t[a] == s[a]);
            assert(s[a].owner@ != k);
        } else {
            assert(t[c] == s[c]);
            assert(s[c].owner@ != k);
        }
    }
    let target = balances_map(s).insert(k, b.amount as nat);
    assert forall|k2: Seq<char>| #[trigger] balances_map(t).contains_key(k2) <==> target.contains_key(k2) by {
        if holds(t, k2) {
            let j = choose|j: int| 0 <= j < t.len() && #[trigger] t[j].owner@ == k2;
            if j < n {
                assert(s[j].owner@ == k2);
            }
        }
        if holds(s, k2) {
            let j = choose|j: int| 0 <= j < s.len() && #[trigger] s[j].owner@ == k2;
            assert(t[j].owner@ == k2);
        }
        if k2 == k {
            assert(t[n].owner@ == k2);
        }
    }
    assert forall|k2: Seq<char>| #[trigger] balances_map(t).contains_key(k2) implies balances_map(t)[k2]
        == target[k2] by {
        let j = choose|j: int| 0 <= j < t.len() && #[trigger] t[j].owner@ == k2;
        lemma_map_at(t, j);
        if j != n {
            assert(t[j] == s[j]);
            lemma_map_at(s, j);
        }
    }
    assert(balances_map(t) =~= target);
}

pub proof fn lemma_map_remove(s: Seq<Balance>, i: int)
    requires
        owners_unique(s),
        0 <= i < s.len(),
    ensures
        owners_unique(s.remove(i)),
        balances_map(s.remove(i)) == balances_map(s).remove(s[i].owner@),
{
    let t = s.remove(i);
    let k = s[i].owner@;
    assert forall|a: int, c: int|
        0 <= a < t.len() && 0 <= c < t.len() && a != c implies #[trigger] t[a].owner@ != #[trigger] t[c].owner@ by {
        let a2 = if a < i { a } else { a + 1 };
        let c2 = if c < i { c } else { c + 1 };
        assert(t[a] == s[a2] && t[c] == s[c2]);
    }
    let target = balances_map(s).remove(k);
    assert forall|k2: Seq<char>| #[trigger] balances_map(t).contains_key(k2) <==> target.contains_key(k2) by {
        if holds(t, k2) {
            let j = choose|j: int| 0 <= j < t.len() && #[trigger] t[j].owner@ == k2;
            let j2 = if j < i { j } else { j + 1 };
            assert(t[j] == s[j2]);
            assert(s[j2].owner@ == k2);
            assert(s[i].owner@ != s[j2].owner@);
        }
        if holds(s, k2) && k2 != k {
            let j = choose|j: int| 0 <= j < s.len() && #[trigger] s[j].owner@ == k2;
            assert(j != i);
            let j2 = if j < i { j } else { j - 1 };
            assert(t[j2] == s[j]);
            assert(t[j2].owner@ == k2);
        }
    }
    assert forall|k2: Seq<char>| #[trigger] balances_map(t).contains_key(k2) implies balances_map(t)[k2]
        == target[k2] by {
        let j = choose|j: int| 0 <= j < t.len() && #[trigger] t[j].owner@ == k2;
        lemma_map_at(t, j);
        let j2 = if j < i { j } else { j + 1 };
        assert(t[j] == s[j2]);
        lemma_map_at(s, j2);
    }
    assert(balances_map(t) =~= target);
}

pub proof fn lemma_sum_update(s: Seq<Balance>, i: int, b: Balance)
    requires
        0 <= i < s.len(),
    ensures
        amounts_sum(s.update(i, b)) + s[i].amount == amounts_sum(s) + b.amount,
    decreases s.len(),
{
    let t = s.update(i, b);
    if i == s.len() - 1 {
        assert(t.drop_last() =~= s.drop_last());
    } else {
        assert(t.drop_last() =~= s.drop_last().update(i, b));
        lemma_sum_update(s.drop_last(), i, b);
    }
}

pub proof fn lemma_sum_remove(s: Seq<Balance>, i: int)
    requires
        0 <= i < s.len(),
    ensures
        amounts_sum(s.remove(i)) + s[i].amount == amounts_sum(s),
    decreases s.len(),
{
    let t = s.remove(i);
    if i == s.len() - 1 {
        assert(t =~= s.drop_last());
    } else {
        assert(t.drop_last() =~= s.drop_last().remove(i));
        assert(t.last() == s.last());
        lemma_sum_remove(s.drop_last(), i);
    }
}

pub proof fn lemma_sum_push(s: Seq<Balance>, b: Balance)
    ensures
        amounts_sum(s.push(b)) == amounts_sum(s) + b.amount,
{
    assert(s.push(b).drop_last() =~= s);
}

pub proof fn lemma_entry_within_sum(s: Seq<Balance>, i: int)
    requires
        0 <= i < s.len(),
    ensures
        s[i].amount <= amounts_sum(s),
    decreases s.len(),
{
    if i < s.len() - 1 {
        lemma_entry_within_sum(s.drop_last(), i);
    }
}

/// The amount that `owner`'s entry holds, if there is one.
pub fn entries_lookup(entries: &Vec<Balance>, owner: &String) -> (found: Option<u128>)
    requires
        owners_unique(entries@),
    ensures
        found is Some <==> balances_map(entries@).contains_key(owner@),
        found matches Some(a) ==> balances_map(entries@)[owner@] == a,
{
    match entries_position(entries, owner) {
        Some(i) => {
            proof {
                lemma_map_at(entries@, i as int);
            }
            Some(entries[i].amount)
        },
        None => None,
    }
}

/// Where `owner`'s entry stands, if there is one.
pub fn entries_position(entries: &Vec<Balance>, owner: &String) -> (pos: Option<usize>)
    ensures
        pos matches Some(i) ==> i < entries.len() && entries@[i as int].owner@ == owner@,
        pos is None ==> !holds(entries@, owner@),
        pos is None <==> !balances_map(entries@).contains_key(owner@),
{
    let mut i: usize = 0;
    while i < entries.len()
        invariant
            i <= entries.len(),
            forall|j: int| 0 <= j < i ==> #[trigger] entries@[j].owner@ != owner@,
        decreases entries.len() - i,
    {
        if entries[i].owner == *owner {
            proof {
                assert(holds(entries@, owner@));
            }
            return Some(i);
        }
        i = i + 1;
    }
    None
}

/// Adds `amount` to `owner`'s entry, opening one if there is none.
pub fn entries_add(entries: &mut Vec<Balance>, owner: &String, amount: u128)
    requires
        owners_unique(old(entries)@),
        amount_or_zero(balances_map(old(entries)@), owner@) + amount <= u128::MAX,
    ensures
        owners_unique(final(entries)@),
        balances_map(final(entries)@) == balances_map(old(entries)@).insert(
            owner@,
            amount_or_zero(balances_map(old(entries)@), owner@) + amount as nat,
        ),
        amounts_sum(final(entries)@) == amounts_sum(old(entries)@) + amount,
{
    match entries_position(entries, owner) {
        Some(i) => {
            proof {
                lemma_map_at(entries@, i as int);
            }
            let updated = Balance { amount: entries[i].amount + amount, owner: owner.clone() };
            proof {
                lemma_map_update(entries@, i as int, updated);
                lemma_sum_update(entries@, i as int, updated);
            }
            entries.set(i, updated);
        },
        None => {
            let mut fresh = Balance::new(owner.clone());
            fresh.amount = amount;
            proof {
                lemma_map_push(entries@, fresh);
                lemma_sum_push(entries@, fresh);
            }
            entries.push(fresh);
        },
    }
}

/// Takes `amount` off `owner`'s entry, and drops the entry when it comes to zero.
pub fn entries_subtract(entries: &mut Vec<Balance>, owner: &String, amount: u128)
    requires
        owners_unique(old(entries)@),
        balances_map(old(entries)@).contains_key(owner@),
        amount <= balances_map(old(entries)@)[owner@],
    ensures
        owners_unique(final(entries)@),
        balances_map(old(entries)@)[owner@] == amount ==> balances_map(final(entries)@)
            == balances_map(old(entries)@).remove(owner@),
        balances_map(old(entries)@)[owner@] > amount ==> balances_map(final(entries)@)
            == balances_map(old(entries)@).insert(owner@, (balances_map(old(entries)@)[owner@] - amount) as nat),
        amounts_sum(final(entries)@) + amount == amounts_sum(old(entries)@),
{
    let i = entries_position(entries, owner).unwrap();
    proof {
        lemma_map_at(entries@, i as int);
    }
    let left = entries[i].amount - amount;
    if left == 0 {
        proof {
            lemma_map_remove(entries@, i as int);
            lemma_sum_remove(entries@, i as int);
        }
        entries.remove(i);
    } else {
        let updated = Balance { amount: left, owner: owner.clone() };
        proof {
            lemma_map_update(entries@, i as int, updated);
            lemma_sum_update(entries@, i as int, updated);
        }
        entries.set(i, updated);
    }
}

/// Drops `owner`'s entry, if there is one, and hands back what it held.
pub fn entries_take(entries: &mut Vec<Balance>, owner: &String) -> (taken: Option<u128>)
    requires
        owners_unique(old(entries)@),
    ensures
        owners_unique(final(entries)@),
        taken is Some <==> balances_map(old(entries)@).contains_key(owner@),
        taken matches Some(a) ==> balances_map(old(entries)@)[owner@] == a,
        balances_map(final(entries)@) == balances_map(old(entries)@).remove(owner@),
        amounts_sum(final(entries)@) + (match taken {
            Some(a) => a as nat,
            None => 0nat,
        }) == amounts_sum(old(entries)@),
{
    match entries_position(entries, owner) {
        Some(i) => {
            proof {
                lemma_map_at(entries@, i as int);
                lemma_map_remove(entries@, i as int);
                lemma_sum_remove(entries@, i as int);
            }
            let gone = entries.remove(i);
            Some(gone.amount)
        },
        None => {
            proof {
                assert(balances_map(entries@) =~= balances_map(entries@).remove(owner@));
            }
            None
        },
    }
}

proof fn lemma_sum_prefix_grows(s: Seq<Balance>, i: int, j: int)
    requires
        0 <= i <= j <= s.len(),
    ensures
        amounts_sum(s.take(i)) <= amounts_sum(s.take(j)),
    decreases j - i,
{
    if i < j {
        assert(s.take(j).drop_last() =~= s.take(j - 1));
        lemma_sum_prefix_grows(s, i, j - 1);
    }
}

/// Whether no two entries have the same owner.
pub fn owners_unique_check(entries: &Vec<Balance>) -> (unique: bool)
    ensures
        unique == owners_unique(entries@),
{
    let n = entries.len();
    let mut i: usize = 0;
    while i < n
        invariant
            n == entries.len(),
            i <= n,
            forall|a: int, c: int|
                0 <= a < i && 0 <= c < n && a != c ==> #[trigger] entries@[a].owner@
                    != #[trigger] entries@[c].owner@,
        decreases n - i,
    {
        let mut j: usize = 0;
        while j < n
            invariant
                n == entries.len(),
                i < n,
                j <= n,
                forall|a: int, c: int|
                    0 <= a < i && 0 <= c < n && a != c ==> #[trigger] entries@[a].owner@
                        != #[trigger] entries@[c].owner@,
                forall|c: int|
                    0 <= c < j && c != i ==> entries@[i as int].owner@ != #[trigger] entries@[c].owner@,
            decreases n - j,
        {
            if j != i && entries[i].owner == entries[j].owner {
                return false;
            }
            j = j + 1;
        }
        i = i + 1;
    }
    true
}

/// Whether the amounts of the entries add up to `total`.
pub fn amounts_sum_check(entries: &Vec<Balance>, total: u128) -> (matches: bool)
    ensures
        matches == (amounts_sum(entries@) == total),
{
    let n = entries.len();
    let mut acc: u128 = 0;
    let mut i: usize = 0;
    while i < n
        invariant
            n == entries.len(),
            i <= n,
            acc == amounts_sum(entries@.take(i as int)),
        decreases n - i,
    {
        proof {
            assert(entries@.take(i + 1).drop_last() =~= entries@.take(i as int));
        }
        if entries[i].amount > total || acc > total - entries[i].amount {
            proof {
                lemma_sum_prefix_grows(entries@, i + 1, n as int);
                assert(entries@.take(n as int) =~= entries@);
            }
            return false;
        }
        acc = acc + entries[i].amount;
        i = i + 1;
    }
    proof {
        assert(entries@.take(n as int) =~= entries@);
    }
    acc == total
}

} // verus!
