use vstd::prelude::*;

use crate::identity::Identity;

verus! {

/// A pre-sale roster row.
#[derive(Clone, Copy, Debug)]
pub struct PreSaleAccount {
    pub address: Identity,
    pub token_amount: u64,
    pub token_price: u64,
    pub whitelist_account: bool,
}

/// A public-sale roster row.
#[derive(Clone, Copy, Debug)]
pub struct SaleAccount {
    pub address: Identity,
    pub token_amount: u64,
    pub token_price: u64,
}

impl PreSaleAccount {
    /// Flips the whitelist flag, leaving the other fields as they were.
    pub fn whitelist(&mut self)
        ensures
            *final(self) == (PreSaleAccount {
                whitelist_account: !old(self).whitelist_account,
                ..*old(self)
            }),
    {
        self.whitelist_account = !self.whitelist_account;
    }
}

/// The persisted ledger record.
#[derive(Debug)]
pub struct ICOAccount {
    pub total_supply: u64,
    pub admin: Identity,
    pub balance: Vec<(Identity, u64)>,
    pub pre_sale_price: u64,
    pub pre_sale_limit: u64,
    pub sale_price: u64,
    pub sale_limit: u64,
    pub sale_start_time: u64,
    pub sale_end_time: u64,
    pub total_price_earned: u64,
    pub pre_sale_account: Vec<PreSaleAccount>,
    pub sale_account: Vec<SaleAccount>,
}

/// The mathematical model of a ledger record.
pub struct IcoView {
    pub total_supply: u64,
    pub admin: Identity,
    pub balance: Seq<(Identity, u64)>,
    pub pre_sale_price: u64,
    pub pre_sale_limit: u64,
    pub sale_price: u64,
    pub sale_limit: u64,
    pub sale_start_time: u64,
    pub sale_end_time: u64,
    pub total_price_earned: u64,
    pub pre_sale_account: Seq<PreSaleAccount>,
    pub sale_account: Seq<SaleAccount>,
}

impl View for ICOAccount {
    type V = IcoView;

    open spec fn view(&self) -> IcoView {
        IcoView {
            total_supply: self.total_supply,
            admin: self.admin,
            balance: self.balance@,
            pre_sale_price: self.pre_sale_price,
            pre_sale_limit: self.pre_sale_limit,
            sale_price: self.sale_price,
            sale_limit: self.sale_limit,
            sale_start_time: self.sale_start_time,
            sale_end_time: self.sale_end_time,
            total_price_earned: self.total_price_earned,
            pre_sale_account: self.pre_sale_account@,
            sale_account: self.sale_account@,
        }
    }
}

/// Sum of all balance entries.
pub open spec fn sum_balances(s: Seq<(Identity, u64)>) -> int
    decreases s.len(),
{
    if s.len() == 0 {
        0
    } else {
        sum_balances(s.drop_last()) + s.last().1
    }
}

/// No identity holds two balance entries.
pub open spec fn keys_unique(s: Seq<(Identity, u64)>) -> bool {
    forall|i: int, j: int|
        0 <= i < s.len() && 0 <= j < s.len() && i != j ==> s[i].0 != s[j].0
}

/// Index of the first balance entry of `k`, or -1 when there is none.
pub open spec fn key_index(s: Seq<(Identity, u64)>, k: Identity) -> int
    decreases s.len(),
{
    if s.len() == 0 {
        -1
    } else if s[0].0 == k {
        0
    } else {
        let r = key_index(s.drop_first(), k);
        if r < 0 {
            -1
        } else {
            r + 1
        }
    }
}

/// Index of the first pre-sale roster row of `k`, or -1 when there is none.
pub open spec fn roster_index(s: Seq<PreSaleAccount>, k: Identity) -> int
    decreases s.len(),
{
    if s.len() == 0 {
        -1
    } else if s[0].address == k {
        0
    } else {
        let r = roster_index(s.drop_first(), k);
        if r < 0 {
            -1
        } else {
            r + 1
        }
    }
}

/// Supply is conserved: the balances add up to the total supply.
pub open spec fn conserved(v: IcoView) -> bool {
    sum_balances(v.balance) == v.total_supply
}

impl ICOAccount {
    /// Well-formedness: one balance entry per identity.
    pub open spec fn wf(&self) -> bool {
        keys_unique(self.balance@)
    }
}

pub proof fn lemma_key_index(s: Seq<(Identity, u64)>, k: Identity)
    ensures
        -1 <= key_index(s, k) < s.len(),
        key_index(s, k) >= 0 ==> s[key_index(s, k)].0 == k,
        forall|j: int| 0 <= j < s.len() && (key_index(s, k) < 0 || j < key_index(s, k)) ==> s[j].0 != k,
    decreases s.len(),
{
    if s.len() > 0 && s[0].0 != k {
        lemma_key_index(s.drop_first(), k);
        assert forall|j: int| 0 <= j < s.len() && (key_index(s, k) < 0 || j < key_index(s, k)) implies s[j].0 != k by {
            if j > 0 {
                assert(s[j] == s.drop_first()[j - 1]);
            }
        }
    }
}

pub proof fn lemma_roster_index(s: Seq<PreSaleAccount>, k: Identity)
    ensures
        -1 <= roster_index(s, k) < s.len(),
        roster_index(s, k) >= 0 ==> s[roster_index(s, k)].address == k,
        forall|j: int| 0 <= j < s.len() && (roster_index(s, k) < 0 || j < roster_index(s, k)) ==> s[j].address != k,
    decreases s.len(),
{
    if s.len() > 0 && s[0].address != k {
        lemma_roster_index(s.drop_first(), k);
        assert forall|j: int| 0 <= j < s.len() && (roster_index(s, k) < 0 || j < roster_index(s, k)) implies s[j].address != k by {
            if j > 0 {
                assert(s[j] == s.drop_first()[j - 1]);
            }
        }
    }
}

/// The index is determined by the properties proved in `lemma_key_index`.
pub proof fn lemma_key_index_unique(s: Seq<(Identity, u64)>, k: Identity, i: int)
    requires
        -1 <= i < s.len(),
        i >= 0 ==> s[i].0 == k,
        forall|j: int| 0 <= j < s.len() && (i < 0 || j < i) ==> s[j].0 != k,
    ensures
        key_index(s, k) == i,
{
    lemma_key_index(s, k);
    let r = key_index(s, k);
    if r >= 0 && i >= 0 {
        assert(!(r < i));
        assert(!(i < r));
    }
}

pub proof fn lemma_roster_index_unique(s: Seq<PreSaleAccount>, k: Identity, i: int)
    requires
        -1 <= i < s.len(),
        i >= 0 ==> s[i].address == k,
        forall|j: int| 0 <= j < s.len() && (i < 0 || j < i) ==> s[j].address != k,
    ensures
        roster_index(s, k) == i,
{
    lemma_roster_index(s, k);
    let r = roster_index(s, k);
    if r >= 0 && i >= 0 {
        assert(!(r < i));
        assert(!(i < r));
    }
}

/// Replacing one entry changes the sum by the difference of the amounts.
pub proof fn lemma_sum_update(s: Seq<(Identity, u64)>, i: int, e: (Identity, u64))
    requires
        0 <= i < s.len(),
    ensures
        sum_balances(s.update(i, e)) == sum_balances(s) - s[i].1 + e.1,
    decreases s.len(),
{
    let t = s.update(i, e);
    if i == s.len() - 1 {
        assert(t.drop_last() =~= s.drop_last());
    } else {
        lemma_sum_update(s.drop_last(), i, e);
        assert(t.drop_last() =~= s.drop_last().update(i, e));
    }
}

/// Finds the first balance entry of `k`.
pub fn find_balance(s: &Vec<(Identity, u64)>, k: &Identity) -> (r: Option<usize>)
    ensures
        match r {
            Some(i) => i < s@.len() && s@[i as int].0 == *k && i as int == key_index(s@, *k),
            None => key_index(s@, *k) == -1,
        },
{
    let mut i: usize = 0;
    while i < s.len()
        invariant
            0 <= i <= s.len(),
            forall|j: int| 0 <= j < i ==> s@[j].0 != *k,
        decreases s.len() - i,
    {
        if s[i].0.same(k) {
            proof {
                lemma_key_index_unique(s@, *k, i as int);
            }
            return Some(i);
        }
        i = i + 1;
    }
    proof {
        lemma_key_index_unique(s@, *k, -1);
    }
    None
}

/// Finds the first pre-sale roster row of `k`.
pub fn find_roster(s: &Vec<PreSaleAccount>, k: &Identity) -> (r: Option<usize>)
    ensures
        match r {
            Some(i) => i < s@.len() && s@[i as int].address == *k && i as int == roster_index(s@, *k),
            None => roster_index(s@, *k) == -1,
        },
{
    let mut i: usize = 0;
    while i < s.len()
        invariant
            0 <= i <= s.len(),
            forall|j: int| 0 <= j < i ==> s@[j].address != *k,
        decreases s.len() - i,
    {
        if s[i].address.same(k) {
            proof {
                lemma_roster_index_unique(s@, *k, i as int);
            }
            return Some(i);
        }
        i = i + 1;
    }
    proof {
        lemma_roster_index_unique(s@, *k, -1);
    }
    None
}

} // verus!
