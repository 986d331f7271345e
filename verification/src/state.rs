//! The ledger's records.
use crate::ledger::{
    amount_or_zero, amounts_sum, amounts_sum_check, balances_map, entries_add, owners_unique_check, entries_lookup, entries_subtract,
    entries_take, holds, lemma_entry_within_sum, lemma_map_at, lemma_map_push, owners_unique,
};
use crate::utils::decimal::{compute_reward_share, reward_share};
use crate::utils::denom::{Denom, DenomView};
use vstd::prelude::*;

verus! {

/// The ledger's settings and the total amount staked.
#[derive(Debug)]
pub struct State {
    /// The incensitive denomination for this contract
    pub incensitive_denom: Denom,
    /// cw20 token that can be stacked on this contract
    pub stakable_denom: Denom,
    /// The total amount deposited in this contract
    pub total_stacked: u128,
}

/// A deposit record used to keep track of who owns what and how much was earned
#[derive(Debug)]
pub struct Balance {
    pub amount: u128,
    pub owner: String,
}

impl Balance {
    /// create a new deposit entry
    pub fn new(owner: String) -> (b: Balance)
        ensures
            b.amount == 0,
            b.owner == owner,
    {
        Balance { amount: 0, owner }
    }
}

impl Clone for Balance {
    fn clone(&self) -> (copy: Self)
        ensures
            copy.amount == self.amount,
            copy.owner == self.owner,
    {
        Balance { amount: self.amount, owner: self.owner.clone() }
    }
}


/// The earnings after a reward of `received` is shared among `deposits`, whose
/// amounts add up to `total`: each holder of a deposit gets
/// `reward_share(received, deposit, total)` more, and a holder without an
/// earnings record gets one.
pub open spec fn accrue(
    earnings: Map<Seq<char>, nat>,
    deposits: Map<Seq<char>, nat>,
    received: nat,
    total: nat,
) -> Map<Seq<char>, nat> {
    Map::new(
        |k: Seq<char>| earnings.contains_key(k) || deposits.contains_key(k),
        |k: Seq<char>|
            amount_or_zero(earnings, k) + (if deposits.contains_key(k) {
                reward_share(received, deposits[k], total)
            } else {
                0nat
            }),
    )
}

/// The sum of the parts of a reward of `received` that the deposits of `s`
/// earn, out of `total`.
pub open spec fn shares_sum(s: Seq<Balance>, received: nat, total: nat) -> nat
    decreases s.len(),
{
    if s.len() == 0 {
        0
    } else {
        shares_sum(s.drop_last(), received, total) + reward_share(received, s.last().amount as nat, total)
    }
}

proof fn lemma_accrue_insert(
    earnings: Map<Seq<char>, nat>,
    deposits: Map<Seq<char>, nat>,
    k: Seq<char>,
    a: nat,
    received: nat,
    total: nat,
)
    requires
        !deposits.contains_key(k),
    ensures
        accrue(earnings, deposits.insert(k, a), received, total) == accrue(
            earnings,
            deposits,
            received,
            total,
        ).insert(k, amount_or_zero(earnings, k) + reward_share(received, a, total)),
{
    assert(accrue(earnings, deposits.insert(k, a), received, total) =~= accrue(
        earnings,
        deposits,
        received,
        total,
    ).insert(k, amount_or_zero(earnings, k) + reward_share(received, a, total)));
}

proof fn lemma_prefix_unique(s: Seq<Balance>, i: int)
    requires
        owners_unique(s),
        0 <= i < s.len(),
    ensures
        owners_unique(s.take(i)),
        !holds(s.take(i), s[i].owner@),
        s.take(i + 1) == s.take(i).push(s[i]),
{
    let t = s.take(i);
    assert forall|a: int, c: int|
        0 <= a < t.len() && 0 <= c < t.len() && a != c implies #[trigger] t[a].owner@ != #[trigger] t[c].owner@ by {
        assert(t[a] == s[a] && t[c] == s[c]);
    }
    if holds(t, s[i].owner@) {
        let j = choose|j: int| 0 <= j < t.len() && #[trigger] t[j].owner@ == s[i].owner@;
        assert(t[j] == s[j]);
    }
    assert(s.take(i + 1) =~= s.take(i).push(s[i]));
}

/// The whole ledger: its settings, every holder's deposit and every holder's
/// unclaimed rewards.
#[derive(Debug)]
pub struct Staking {
    state: State,
    deposited: Vec<Balance>,
    earned: Vec<Balance>,
}

/// The ledger as a reader sees it: its two denominations, the total staked,
/// and, by holder, the amount deposited and the rewards earned.
pub struct StakingView {
    pub incensitive_denom: DenomView,
    pub stakable_denom: DenomView,
    pub total_stacked: nat,
    pub deposits: Map<Seq<char>, nat>,
    pub earnings: Map<Seq<char>, nat>,
}

impl Staking {
    /// The settings and total of the ledger.
    pub closed spec fn config(&self) -> State {
        self.state
    }

    /// The deposit records, one per holder.
    pub closed spec fn deposit_entries(&self) -> Seq<Balance> {
        self.deposited@
    }

    /// The earnings records, one per holder.
    pub closed spec fn earning_entries(&self) -> Seq<Balance> {
        self.earned@
    }

    /// Each holder has at most one record of each kind, and the total staked
    /// is the sum of all deposits.
    pub open spec fn wf(&self) -> bool {
        &&& owners_unique(self.deposit_entries())
        &&& owners_unique(self.earning_entries())
        &&& self.config().total_stacked == amounts_sum(self.deposit_entries())
    }

    /// The sum of all unclaimed rewards.
    pub open spec fn earned_sum(&self) -> nat {
        amounts_sum(self.earning_entries())
    }

    /// A ledger with the given denominations, no deposits and no earnings.
    pub fn new(incensitive_denom: Denom, stakable_denom: Denom) -> (staking: Staking)
        ensures
            staking.wf(),
            staking@.incensitive_denom == incensitive_denom@,
            staking@.stakable_denom == stakable_denom@,
            staking@.total_stacked == 0,
            staking@.deposits == Map::<Seq<char>, nat>::empty(),
            staking@.earnings == Map::<Seq<char>, nat>::empty(),
            staking.earned_sum() == 0,
    {
        let staking = Staking {
            state: State { incensitive_denom, stakable_denom, total_stacked: 0 },
            deposited: Vec::new(),
            earned: Vec::new(),
        };
        proof {
            assert(staking@.deposits =~= Map::<Seq<char>, nat>::empty());
            assert(staking@.earnings =~= Map::<Seq<char>, nat>::empty());
        }
        staking
    }

    /// A ledger made of records kept elsewhere, if they are consistent: no
    /// holder has two records of a kind, and the total is the sum of deposits.
    pub fn from_parts(state: State, deposited: Vec<Balance>, earned: Vec<Balance>) -> (staking: Option<
        Staking,
    >)
        ensures
            staking is Some <==> (owners_unique(deposited@) && owners_unique(earned@)
                && state.total_stacked == amounts_sum(deposited@)),
            staking matches Some(s) ==> s.config() == state && s.deposit_entries() == deposited@
                && s.earning_entries() == earned@,
    {
        if owners_unique_check(&deposited) && owners_unique_check(&earned) && amounts_sum_check(
            &deposited,
            state.total_stacked,
        ) {
            Some(Staking { state, deposited, earned })
        } else {
            None
        }
    }

    /// The settings and total of the ledger.
    pub fn state(&self) -> (state: &State)
        ensures
            *state == self.config(),
    {
        &self.state
    }

    /// The deposit records.
    pub fn deposited(&self) -> (entries: &Vec<Balance>)
        ensures
            entries@ == self.deposit_entries(),
    {
        &self.deposited
    }

    /// The earnings records.
    pub fn earned(&self) -> (entries: &Vec<Balance>)
        ensures
            entries@ == self.earning_entries(),
    {
        &self.earned
    }

    /// The amount `owner` has deposited, if it holds a deposit record.
    pub fn deposit_of(&self, owner: &String) -> (found: Option<u128>)
        requires
            self.wf(),
        ensures
            found is Some <==> self@.deposits.contains_key(owner@),
            found matches Some(a) ==> self@.deposits[owner@] == a,
    {
        entries_lookup(&self.deposited, owner)
    }

    /// The rewards `owner` has earned, if it holds an earnings record.
    pub fn earnings_of(&self, owner: &String) -> (found: Option<u128>)
        requires
            self.wf(),
        ensures
            found is Some <==> self@.earnings.contains_key(owner@),
            found matches Some(a) ==> self@.earnings[owner@] == a,
    {
        entries_lookup(&self.earned, owner)
    }

    /// Adds `amount` to `owner`'s deposit and to the total.
    pub(crate) fn credit_deposit(&mut self, owner: &String, amount: u128)
        requires
            old(self).wf(),
            old(self)@.total_stacked + amount <= u128::MAX,
        ensures
            final(self).wf(),
            final(self)@ == (StakingView {
                total_stacked: old(self)@.total_stacked + amount as nat,
                deposits: old(self)@.deposits.insert(
                    owner@,
                    amount_or_zero(old(self)@.deposits, owner@) + amount as nat,
                ),
                ..old(self)@
            }),
            final(self).earned_sum() == old(self).earned_sum(),
    {
        proof {
            if balances_map(self.deposited@).contains_key(owner@) {
                let i = choose|i: int|
                    0 <= i < self.deposited@.len() && #[trigger] self.deposited@[i].owner@ == owner@;
                lemma_map_at(self.deposited@, i);
                lemma_entry_within_sum(self.deposited@, i);
            }
        }
        entries_add(&mut self.deposited, owner, amount);
        self.state.total_stacked = self.state.total_stacked + amount;
    }

    /// Takes `amount` off `owner`'s deposit and off the total; a deposit that
    /// comes to zero is dropped, together with `owner`'s earnings record.
    pub(crate) fn debit_deposit(&mut self, owner: &String, amount: u128)
        requires
            old(self).wf(),
            old(self)@.deposits.contains_key(owner@),
            amount <= old(self)@.deposits[owner@],
        ensures
            final(self).wf(),
            final(self)@ == (if old(self)@.deposits[owner@] == amount {
                StakingView {
                    total_stacked: (old(self)@.total_stacked - amount) as nat,
                    deposits: old(self)@.deposits.remove(owner@),
                    earnings: old(self)@.earnings.remove(owner@),
                    ..old(self)@
                }
            } else {
                StakingView {
                    total_stacked: (old(self)@.total_stacked - amount) as nat,
                    deposits: old(self)@.deposits.insert(
                        owner@,
                        (old(self)@.deposits[owner@] - amount) as nat,
                    ),
                    ..old(self)@
                }
            }),
    {
        let before = entries_lookup(&self.deposited, owner).unwrap();
        entries_subtract(&mut self.deposited, owner, amount);
        self.state.total_stacked = self.state.total_stacked - amount;
        if before == amount {
            let _ = entries_take(&mut self.earned, owner);
        }
    }

    /// Drops `owner`'s earnings record, handing back what it held.
    pub(crate) fn take_earnings(&mut self, owner: &String) -> (taken: Option<u128>)
        requires
            old(self).wf(),
        ensures
            final(self).wf(),
            taken is Some <==> old(self)@.earnings.contains_key(owner@),
            taken matches Some(a) ==> old(self)@.earnings[owner@] == a,
            final(self)@ == (StakingView { earnings: old(self)@.earnings.remove(owner@), ..old(self)@ }),
    {
        entries_take(&mut self.earned, owner)
    }

    /// Shares a reward of `received` among the holders of deposits, in
    /// proportion to their deposits.
    pub(crate) fn accrue_rewards(&mut self, received: u128)
        requires
            old(self).wf(),
            old(self)@.total_stacked > 0 || old(self)@.deposits.dom() == Set::<Seq<char>>::empty(),
            forall|k: Seq<char>|
                #[trigger] old(self)@.deposits.contains_key(k) ==> amount_or_zero(old(self)@.earnings, k)
                    + reward_share(received as nat, old(self)@.deposits[k], old(self)@.total_stacked)
                    <= u128::MAX,
        ensures
            final(self).wf(),
            final(self)@ == (StakingView {
                earnings: accrue(
                    old(self)@.earnings,
                    old(self)@.deposits,
                    received as nat,
                    old(self)@.total_stacked,
                ),
                ..old(self)@
            }),
            final(self).deposit_entries() == old(self).deposit_entries(),
            final(self).earned_sum() == old(self).earned_sum() + shares_sum(
                old(self).deposit_entries(),
                received as nat,
                old(self)@.total_stacked,
            ),
    {
        let ghost e0 = balances_map(self.earned@);
        let ghost s0 = amounts_sum(self.earned@);
        let ghost d = self.deposited@;
        let ghost st0 = self.state;
        let ghost t = self.state.total_stacked as nat;
        let total = self.state.total_stacked;
        let n = self.deposited.len();
        proof {
            if n > 0 {
                lemma_map_at(d, 0);
                assert(balances_map(d).dom().contains(d[0].owner@));
            }
            assert(d.take(0) =~= Seq::<Balance>::empty());
            assert(balances_map(d.take(0)) =~= Map::<Seq<char>, nat>::empty());
            assert(accrue(e0, Map::<Seq<char>, nat>::empty(), received as nat, t) =~= e0);
        }
        let mut i: usize = 0;
        while i < n
            invariant
                i <= n,
                n == d.len(),
                self.deposited@ == d,
                owners_unique(d),
                owners_unique(self.earned@),
                total == t,
                self.state == st0,
                st0.total_stacked == total,
                t == amounts_sum(d),
                t > 0 || n == 0,
                forall|k: Seq<char>|
                    #[trigger] balances_map(d).contains_key(k) ==> amount_or_zero(e0, k)
                        + reward_share(received as nat, balances_map(d)[k], t) <= u128::MAX,
                balances_map(self.earned@) == accrue(e0, balances_map(d.take(i as int)), received as nat, t),
                amounts_sum(self.earned@) == s0 + shares_sum(d.take(i as int), received as nat, t),
            decreases n - i,
        {
            proof {
                lemma_entry_within_sum(d, i as int);
                lemma_map_at(d, i as int);
                lemma_prefix_unique(d, i as int);
                lemma_map_push(d.take(i as int), d[i as int]);
                lemma_accrue_insert(
                    e0,
                    balances_map(d.take(i as int)),
                    d[i as int].owner@,
                    d[i as int].amount as nat,
                    received as nat,
                    t,
                );
                assert(d.take(i + 1).drop_last() =~= d.take(i as int));
            }
            let share = compute_reward_share(received, self.deposited[i].amount, total);
            entries_add(&mut self.earned, &self.deposited[i].owner, share);
            i = i + 1;
        }
        proof {
            assert(d.take(n as int) =~= d);
        }
    }
}

impl View for Staking {
    type V = StakingView;

    open spec fn view(&self) -> StakingView {
        StakingView {
            incensitive_denom: self.config().incensitive_denom@,
            stakable_denom: self.config().stakable_denom@,
            total_stacked: self.config().total_stacked as nat,
            deposits: balances_map(self.deposit_entries()),
            earnings: balances_map(self.earning_entries()),
        }
    }
}

} // verus!
