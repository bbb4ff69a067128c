use vstd::prelude::*;

use crate::identity::Identity;
use crate::ledger::{
    initialize_result, mint_result, pre_sale_result, sale_result, toggle_result, transfer_result,
};
use crate::state::{
    conserved, key_index, keys_unique, lemma_key_index, lemma_key_index_unique,
    lemma_roster_index, lemma_roster_index_unique, lemma_sum_update, roster_index, sum_balances,
    IcoView,
};

verus! {

/// Moving tokens between two entries leaves the sum of balances unchanged
/// and keeps one entry per identity.
pub proof fn lemma_transfer(b: Seq<(Identity, u64)>, buyer: Identity, admin: Identity, amount: u64)
    ensures
        transfer_result(b, buyer, admin, amount) is Ok ==> {
            let nb = transfer_result(b, buyer, admin, amount)->Ok_0;
            &&& sum_balances(nb) == sum_balances(b)
            &&& nb.len() == b.len()
            &&& forall|i: int| 0 <= i < b.len() ==> #[trigger] nb[i].0 == b[i].0
            &&& keys_unique(b) ==> keys_unique(nb)
        },
{
    if transfer_result(b, buyer, admin, amount) is Ok {
        lemma_key_index(b, buyer);
        lemma_key_index(b, admin);
        let bi = key_index(b, buyer);
        let ai = key_index(b, admin);
        let b1 = b.update(bi, (buyer, (b[bi].1 + amount) as u64));
        lemma_sum_update(b, bi, (buyer, (b[bi].1 + amount) as u64));
        lemma_sum_update(b1, ai, (admin, (b1[ai].1 - amount) as u64));
        let nb = b1.update(ai, (admin, (b1[ai].1 - amount) as u64));
        assert forall|i: int| 0 <= i < b.len() implies #[trigger] nb[i].0 == b[i].0 by {}
    }
}

/// Every successful operation other than minting keeps the balances summing
/// to the total supply; initialization establishes it.
pub proof fn lemma_supply_conserved(
    s: IcoView,
    program_id: Identity,
    who: Identity,
    data: Seq<u8>,
    payment: u64,
    now: u64,
)
    ensures
        initialize_result(s, program_id, who) is Ok ==> conserved(
            initialize_result(s, program_id, who)->Ok_0,
        ),
        conserved(s) && pre_sale_result(s, who, data, payment, now) is Ok ==> conserved(
            pre_sale_result(s, who, data, payment, now)->Ok_0.0,
        ),
        conserved(s) && sale_result(s, who, data, payment, now) is Ok ==> conserved(
            sale_result(s, who, data, payment, now)->Ok_0.0,
        ),
        conserved(s) && toggle_result(s, who) is Ok ==> conserved(toggle_result(s, who)->Ok_0),
{
    if initialize_result(s, program_id, who) is Ok {
        let v = initialize_result(s, program_id, who)->Ok_0;
        assert(v.balance.drop_last() =~= Seq::<(Identity, u64)>::empty());
        assert(sum_balances(v.balance.drop_last()) == 0);
        assert(sum_balances(v.balance) == sum_balances(v.balance.drop_last()) + v.balance.last().1);
    }
    if data.len() >= 8 {
        let amount = crate::ledger::requested_amount(data);
        lemma_transfer(s.balance, who, s.admin, amount);
    }
}

/// No operation ever gives an identity a second balance entry; initialization
/// leaves exactly one.
pub proof fn lemma_keys_stay_unique(
    s: IcoView,
    program_id: Identity,
    who: Identity,
    data: Seq<u8>,
    payment: u64,
    amount: u64,
    now: u64,
)
    ensures
        initialize_result(s, program_id, who) is Ok ==> keys_unique(
            initialize_result(s, program_id, who)->Ok_0.balance,
        ),
        keys_unique(s.balance) && mint_result(s, who, amount) is Ok ==> keys_unique(
            mint_result(s, who, amount)->Ok_0.balance,
        ),
        keys_unique(s.balance) && pre_sale_result(s, who, data, payment, now) is Ok ==> keys_unique(
            pre_sale_result(s, who, data, payment, now)->Ok_0.0.balance,
        ),
        keys_unique(s.balance) && sale_result(s, who, data, payment, now) is Ok ==> keys_unique(
            sale_result(s, who, data, payment, now)->Ok_0.0.balance,
        ),
        keys_unique(s.balance) && toggle_result(s, who) is Ok ==> keys_unique(
            toggle_result(s, who)->Ok_0.balance,
        ),
{
    lemma_key_index(s.balance, who);
    if data.len() >= 8 {
        let amount = crate::ledger::requested_amount(data);
        lemma_transfer(s.balance, who, s.admin, amount);
    }
    if keys_unique(s.balance) && mint_result(s, who, amount) is Ok {
        let nb = mint_result(s, who, amount)->Ok_0.balance;
        let i = key_index(s.balance, who);
        assert forall|x: int, y: int|
            0 <= x < nb.len() && 0 <= y < nb.len() && x != y implies nb[x].0 != nb[y].0 by {
            if i >= 0 {
                assert(nb[x].0 == s.balance[x].0 && nb[y].0 == s.balance[y].0);
            } else if x < s.balance.len() && y < s.balance.len() {
                assert(nb[x] == s.balance[x] && nb[y] == s.balance[y]);
            }
        }
    }
}

/// Toggling the whitelist flag of the same address twice restores the ledger.
pub proof fn lemma_toggle_twice(s: IcoView, k: Identity)
    requires
        toggle_result(s, k) is Ok,
    ensures
        toggle_result(toggle_result(s, k)->Ok_0, k) == Ok::<IcoView, crate::ledger::IcoError>(s),
{
    let r = s.pre_sale_account;
    lemma_roster_index(r, k);
    let i = roster_index(r, k);
    let s1 = toggle_result(s, k)->Ok_0;
    let r1 = s1.pre_sale_account;
    assert forall|j: int| 0 <= j < r1.len() && j < i implies r1[j].address != k by {
        assert(r1[j] == r[j]);
    }
    lemma_roster_index_unique(r1, k, i);
    let s2 = toggle_result(s1, k)->Ok_0;
    assert(s2.pre_sale_account =~= r);
    assert(s2 == s);
}

} // verus!
