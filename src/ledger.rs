use vstd::prelude::*;

use crate::bytes::{le_u64, read_u64};
use crate::identity::Identity;
use crate::laws::{lemma_keys_stay_unique, lemma_supply_conserved};
use crate::state::{
    conserved,
    find_balance, find_roster, key_index, roster_index, IcoView, ICOAccount, PreSaleAccount,
    SaleAccount,
};

verus! {

pub const INITIAL_SUPPLY: u64 = 10000;
pub const PRE_SALE_PRICE: u64 = 100;
pub const PRE_SALE_LIMIT: u64 = 50;
pub const SALE_PRICE: u64 = 200;
pub const SALE_LIMIT: u64 = 100;
pub const SALE_START_TIME: u64 = 0;
pub const SALE_END_TIME: u64 = 100;

/// Why a call was rejected. A rejected call leaves the ledger unchanged.
#[derive(Clone, Copy, Debug, PartialEq, Eq, Structural)]
pub enum IcoError {
    /// The storage slot is not owned by this program.
    WrongOwner,
    /// The caller lacks the privilege the operation needs.
    Unauthorized,
    /// Unknown opcode or malformed payload.
    InvalidOperation,
    /// Pre-sale purchase by an address that is not whitelisted.
    NotWhitelisted,
    /// The attached payment differs from the cost.
    PaymentMismatch,
    /// The purchase falls outside its phase's time window.
    WindowClosed,
    /// A required balance entry or roster row is missing.
    NotFound,
    /// The ledger has already been initialized.
    AlreadyInitialized,
    /// A counter would exceed `u64::MAX`.
    ArithmeticOverflow,
    /// The admin's balance cannot cover the tokens sold.
    InsufficientFunds,
    /// The stored blob is not the encoding of a ledger record.
    InvalidState,
}

// ---------------------------------------------------------------------------
// Models of the operations
// ---------------------------------------------------------------------------

/// Outcome of initialization.
pub open spec fn initialize_result(s: IcoView, program_id: Identity, caller: Identity) -> Result<
    IcoView,
    IcoError,
> {
    if caller != program_id {
        Err(IcoError::Unauthorized)
    } else if s.total_supply != 0 || s.balance.len() != 0 {
        Err(IcoError::AlreadyInitialized)
    } else {
        Ok(
            IcoView {
                admin: caller,
                total_supply: INITIAL_SUPPLY,
                pre_sale_price: PRE_SALE_PRICE,
                pre_sale_limit: PRE_SALE_LIMIT,
                sale_price: SALE_PRICE,
                sale_limit: SALE_LIMIT,
                sale_start_time: SALE_START_TIME,
                sale_end_time: SALE_END_TIME,
                balance: seq![(caller, INITIAL_SUPPLY)],
                ..s
            },
        )
    }
}

/// Outcome of crediting `amount` to `k`: find-or-create its balance entry.
pub open spec fn mint_result(s: IcoView, k: Identity, amount: u64) -> Result<IcoView, IcoError> {
    let i = key_index(s.balance, k);
    if i < 0 {
        Ok(IcoView { balance: s.balance.push((k, amount)), ..s })
    } else if s.balance[i].1 + amount > u64::MAX {
        Err(IcoError::ArithmeticOverflow)
    } else {
        Ok(IcoView { balance: s.balance.update(i, (k, (s.balance[i].1 + amount) as u64)), ..s })
    }
}

/// Outcome of flipping the whitelist flag of the first roster row of `k`.
pub open spec fn toggle_result(s: IcoView, k: Identity) -> Result<IcoView, IcoError> {
    let i = roster_index(s.pre_sale_account, k);
    if i < 0 {
        Err(IcoError::NotFound)
    } else {
        let row = s.pre_sale_account[i];
        Ok(
            IcoView {
                pre_sale_account: s.pre_sale_account.update(
                    i,
                    PreSaleAccount { whitelist_account: !row.whitelist_account, ..row },
                ),
                ..s
            },
        )
    }
}

/// `k` holds a whitelisted pre-sale roster row.
pub open spec fn whitelisted(r: Seq<PreSaleAccount>, k: Identity) -> bool {
    exists|i: int| 0 <= i < r.len() && r[i].address == k && r[i].whitelist_account
}

/// Every pre-sale row of `k` can take `amount` more tokens.
pub open spec fn pre_rows_fit(r: Seq<PreSaleAccount>, k: Identity, amount: u64) -> bool {
    forall|i: int| 0 <= i < r.len() && r[i].address == k ==> r[i].token_amount + amount <= u64::MAX
}

/// Adds `amount` to every pre-sale row of `k`.
pub open spec fn credit_pre_rows(r: Seq<PreSaleAccount>, k: Identity, amount: u64) -> Seq<
    PreSaleAccount,
> {
    Seq::new(
        r.len(),
        |i: int|
            if r[i].address == k {
                PreSaleAccount { token_amount: (r[i].token_amount + amount) as u64, ..r[i] }
            } else {
                r[i]
            },
    )
}

/// `k` holds a public-sale roster row.
pub open spec fn has_sale_row(r: Seq<SaleAccount>, k: Identity) -> bool {
    exists|i: int| 0 <= i < r.len() && r[i].address == k
}

/// Every public-sale row of `k` can take `amount` more tokens.
pub open spec fn sale_rows_fit(r: Seq<SaleAccount>, k: Identity, amount: u64) -> bool {
    forall|i: int| 0 <= i < r.len() && r[i].address == k ==> r[i].token_amount + amount <= u64::MAX
}

/// Adds `amount` to every public-sale row of `k`, appending a row at
/// `price` when `k` has none.
pub open spec fn credit_sale_rows(r: Seq<SaleAccount>, k: Identity, amount: u64, price: u64) -> Seq<
    SaleAccount,
> {
    if has_sale_row(r, k) {
        Seq::new(
            r.len(),
            |i: int|
                if r[i].address == k {
                    SaleAccount { token_amount: (r[i].token_amount + amount) as u64, ..r[i] }
                } else {
                    r[i]
                },
        )
    } else {
        r.push(SaleAccount { address: k, token_amount: amount, token_price: price })
    }
}

/// Moves `amount` tokens from the admin's entry to the buyer's.
pub open spec fn transfer_result(
    b: Seq<(Identity, u64)>,
    buyer: Identity,
    admin: Identity,
    amount: u64,
) -> Result<Seq<(Identity, u64)>, IcoError> {
    let bi = key_index(b, buyer);
    let ai = key_index(b, admin);
    if bi < 0 || ai < 0 {
        Err(IcoError::NotFound)
    } else if b[bi].1 + amount > u64::MAX {
        Err(IcoError::ArithmeticOverflow)
    } else {
        let b1 = b.update(bi, (buyer, (b[bi].1 + amount) as u64));
        if b1[ai].1 < amount {
            Err(IcoError::InsufficientFunds)
        } else {
            Ok(b1.update(ai, (admin, (b1[ai].1 - amount) as u64)))
        }
    }
}

/// The amount a buyer asks for: the first eight bytes of its data buffer.
pub open spec fn requested_amount(data: Seq<u8>) -> u64 {
    le_u64(data.subrange(0, 8))
}

/// Outcome of a pre-sale purchase: the new ledger and the cost to debit.
pub open spec fn pre_sale_result(
    s: IcoView,
    buyer: Identity,
    data: Seq<u8>,
    payment: u64,
    now: u64,
) -> Result<(IcoView, u64), IcoError> {
    if now >= s.sale_start_time {
        Err(IcoError::WindowClosed)
    } else if !whitelisted(s.pre_sale_account, buyer) {
        Err(IcoError::NotWhitelisted)
    } else if data.len() < 8 {
        Err(IcoError::InvalidOperation)
    } else {
        let amount = requested_amount(data);
        if amount * s.pre_sale_price != payment {
            Err(IcoError::PaymentMismatch)
        } else {
            match transfer_result(s.balance, buyer, s.admin, amount) {
                Err(e) => Err(e),
                Ok(nb) => if !pre_rows_fit(s.pre_sale_account, buyer, amount)
                    || s.total_price_earned + payment > u64::MAX {
                    Err(IcoError::ArithmeticOverflow)
                } else {
                    Ok(
                        (
                            IcoView {
                                balance: nb,
                                pre_sale_account: credit_pre_rows(
                                    s.pre_sale_account,
                                    buyer,
                                    amount,
                                ),
                                total_price_earned: (s.total_price_earned + payment) as u64,
                                ..s
                            },
                            payment,
                        ),
                    )
                },
            }
        }
    }
}

/// Outcome of a public-sale purchase: the new ledger and the cost to debit.
pub open spec fn sale_result(
    s: IcoView,
    buyer: Identity,
    data: Seq<u8>,
    payment: u64,
    now: u64,
) -> Result<(IcoView, u64), IcoError> {
    if now < s.sale_start_time || s.sale_start_time >= s.sale_end_time {
        Err(IcoError::WindowClosed)
    } else if data.len() < 8 {
        Err(IcoError::InvalidOperation)
    } else {
        let amount = requested_amount(data);
        if amount * s.sale_price != payment {
            Err(IcoError::PaymentMismatch)
        } else {
            match transfer_result(s.balance, buyer, s.admin, amount) {
                Err(e) => Err(e),
                Ok(nb) => if !sale_rows_fit(s.sale_account, buyer, amount)
                    || s.total_price_earned + payment > u64::MAX {
                    Err(IcoError::ArithmeticOverflow)
                } else {
                    Ok(
                        (
                            IcoView {
                                balance: nb,
                                sale_account: credit_sale_rows(
                                    s.sale_account,
                                    buyer,
                                    amount,
                                    s.sale_price,
                                ),
                                total_price_earned: (s.total_price_earned + payment) as u64,
                                ..s
                            },
                            payment,
                        ),
                    )
                },
            }
        }
    }
}

// ---------------------------------------------------------------------------
// Helpers
// ---------------------------------------------------------------------------

fn check_transfer(b: &Vec<(Identity, u64)>, buyer: &Identity, admin: &Identity, amount: u64) -> (r:
    Result<(), IcoError>)
    ensures
        r == match transfer_result(b@, *buyer, *admin, amount) {
            Ok(_) => Ok::<(), IcoError>(()),
            Err(e) => Err(e),
        },
{
    let bi = match find_balance(b, buyer) {
        Some(i) => i,
        None => return Err(IcoError::NotFound),
    };
    let ai = match find_balance(b, admin) {
        Some(i) => i,
        None => return Err(IcoError::NotFound),
    };
    let credited = b[bi].1;
    if credited > u64::MAX - amount {
        return Err(IcoError::ArithmeticOverflow);
    }
    let admin_before = if ai == bi {
        credited + amount
    } else {
        b[ai].1
    };
    if admin_before < amount {
        return Err(IcoError::InsufficientFunds);
    }
    Ok(())
}

fn settle(b: &mut Vec<(Identity, u64)>, buyer: &Identity, admin: &Identity, amount: u64)
    requires
        transfer_result(old(b)@, *buyer, *admin, amount) is Ok,
    ensures
        transfer_result(old(b)@, *buyer, *admin, amount) == Ok::<Seq<(Identity, u64)>, IcoError>(
            final(b)@,
        ),
{
    let bi = match find_balance(b, buyer) {
        Some(i) => i,
        None => return ,
    };
    let credited = b[bi].1 + amount;
    b[bi] = (*buyer, credited);
    proof {
        crate::state::lemma_key_index(old(b)@, *admin);
        crate::state::lemma_key_index_unique(b@, *admin, key_index(old(b)@, *admin));
    }
    let ai = match find_balance(b, admin) {
        Some(i) => i,
        None => return ,
    };
    let debited = b[ai].1 - amount;
    b[ai] = (*admin, debited);
}

fn is_whitelisted(r: &Vec<PreSaleAccount>, k: &Identity) -> (w: bool)
    ensures
        w == whitelisted(r@, *k),
{
    let mut i: usize = 0;
    while i < r.len()
        invariant
            0 <= i <= r@.len(),
            forall|j: int| 0 <= j < i ==> !(r@[j].address == *k && r@[j].whitelist_account),
        decreases r.len() - i,
    {
        if r[i].whitelist_account && r[i].address.same(k) {
            return true;
        }
        i = i + 1;
    }
    false
}

fn pre_rows_can_take(r: &Vec<PreSaleAccount>, k: &Identity, amount: u64) -> (ok: bool)
    ensures
        ok == pre_rows_fit(r@, *k, amount),
{
    let mut i: usize = 0;
    while i < r.len()
        invariant
            0 <= i <= r@.len(),
            forall|j: int|
                0 <= j < i && r@[j].address == *k ==> r@[j].token_amount + amount <= u64::MAX,
        decreases r.len() - i,
    {
        if r[i].address.same(k) && r[i].token_amount > u64::MAX - amount {
            return false;
        }
        i = i + 1;
    }
    true
}

fn credit_pre(r: &mut Vec<PreSaleAccount>, k: &Identity, amount: u64)
    requires
        pre_rows_fit(old(r)@, *k, amount),
    ensures
        final(r)@ == credit_pre_rows(old(r)@, *k, amount),
{
    let ghost orig = r@;
    let mut i: usize = 0;
    while i < r.len()
        invariant
            r@.len() == orig.len(),
            0 <= i <= r@.len(),
            pre_rows_fit(orig, *k, amount),
            forall|j: int| 0 <= j < i ==> r@[j] == credit_pre_rows(orig, *k, amount)[j],
            forall|j: int| i <= j < r@.len() ==> r@[j] == orig[j],
        decreases r.len() - i,
    {
        if r[i].address.same(k) {
            assert(orig[i as int].address == *k);
            let mut row = r[i];
            row.token_amount = row.token_amount + amount;
            r[i] = row;
        }
        i = i + 1;
    }
    assert(r@ =~= credit_pre_rows(orig, *k, amount));
}

fn sale_row_exists(r: &Vec<SaleAccount>, k: &Identity) -> (e: bool)
    ensures
        e == has_sale_row(r@, *k),
{
    let mut i: usize = 0;
    while i < r.len()
        invariant
            0 <= i <= r@.len(),
            forall|j: int| 0 <= j < i ==> r@[j].address != *k,
        decreases r.len() - i,
    {
        if r[i].address.same(k) {
            return true;
        }
        i = i + 1;
    }
    false
}

fn sale_rows_can_take(r: &Vec<SaleAccount>, k: &Identity, amount: u64) -> (ok: bool)
    ensures
        ok == sale_rows_fit(r@, *k, amount),
{
    let mut i: usize = 0;
    while i < r.len()
        invariant
            0 <= i <= r@.len(),
            forall|j: int|
                0 <= j < i && r@[j].address == *k ==> r@[j].token_amount + amount <= u64::MAX,
        decreases r.len() - i,
    {
        if r[i].address.same(k) && r[i].token_amount > u64::MAX - amount {
            return false;
        }
        i = i + 1;
    }
    true
}

fn credit_sale(r: &mut Vec<SaleAccount>, k: &Identity, amount: u64, price: u64)
    requires
        sale_rows_fit(old(r)@, *k, amount),
    ensures
        final(r)@ == credit_sale_rows(old(r)@, *k, amount, price),
{
    if !sale_row_exists(r, k) {
        r.push(SaleAccount { address: *k, token_amount: amount, token_price: price });
        return ;
    }
    let ghost orig = r@;
    let mut i: usize = 0;
    while i < r.len()
        invariant
            r@.len() == orig.len(),
            0 <= i <= r@.len(),
            has_sale_row(orig, *k),
            sale_rows_fit(orig, *k, amount),
            forall|j: int| 0 <= j < i ==> r@[j] == credit_sale_rows(orig, *k, amount, price)[j],
            forall|j: int| i <= j < r@.len() ==> r@[j] == orig[j],
        decreases r.len() - i,
    {
        if r[i].address.same(k) {
            assert(orig[i as int].address == *k);
            let mut row = r[i];
            row.token_amount = row.token_amount + amount;
            r[i] = row;
        }
        i = i + 1;
    }
    assert(r@ =~= credit_sale_rows(orig, *k, amount, price));
}

// ---------------------------------------------------------------------------
// Operations
// ---------------------------------------------------------------------------

/// Sets up a fresh ledger: `admin` becomes the issuing authority and holds
/// the whole supply. Only the program's own identity may do this, and only once.
pub fn intialize_ico(program_id: &Identity, ico_state: &mut ICOAccount, admin: &Identity) -> (r:
    Result<(), IcoError>)
    ensures
        match initialize_result(old(ico_state)@, *program_id, *admin) {
            Ok(v) => r == Ok::<(), IcoError>(()) && final(ico_state)@ == v,
            Err(e) => r == Err::<(), IcoError>(e) && final(ico_state)@ == old(ico_state)@,
        },
        r is Ok ==> final(ico_state).wf() && conserved(final(ico_state)@),
{
    proof {
        lemma_keys_stay_unique(ico_state@, *program_id, *admin, Seq::empty(), 0, 0, 0);
        lemma_supply_conserved(ico_state@, *program_id, *admin, Seq::empty(), 0, 0);
    }
    if !admin.same(program_id) {
        return Err(IcoError::Unauthorized);
    }
    if ico_state.total_supply != 0 || ico_state.balance.len() != 0 {
        return Err(IcoError::AlreadyInitialized);
    }
    ico_state.admin = *admin;
    ico_state.total_supply = INITIAL_SUPPLY;
    ico_state.pre_sale_price = PRE_SALE_PRICE;
    ico_state.pre_sale_limit = PRE_SALE_LIMIT;
    ico_state.sale_price = SALE_PRICE;
    ico_state.sale_limit = SALE_LIMIT;
    ico_state.sale_start_time = SALE_START_TIME;
    ico_state.sale_end_time = SALE_END_TIME;
    ico_state.balance.push((*admin, INITIAL_SUPPLY));
    assert(ico_state.balance@ =~= seq![(*admin, INITIAL_SUPPLY)]);
    Ok(())
}

/// Credits `amount` tokens to `recipient`, creating its balance entry if it
/// has none. The total supply is left as it is.
pub fn mint_tokens(ico_state: &mut ICOAccount, recipient_accounts: &Identity, amount: u64) -> (r:
    Result<(), IcoError>)
    ensures
        match mint_result(old(ico_state)@, *recipient_accounts, amount) {
            Ok(v) => r == Ok::<(), IcoError>(()) && final(ico_state)@ == v,
            Err(e) => r == Err::<(), IcoError>(e) && final(ico_state)@ == old(ico_state)@,
        },
        old(ico_state).wf() ==> final(ico_state).wf(),
{
    proof {
        lemma_keys_stay_unique(ico_state@, *recipient_accounts, *recipient_accounts, Seq::empty(), 0, amount, 0);
    }
    match find_balance(&ico_state.balance, recipient_accounts) {
        None => {
            ico_state.balance.push((*recipient_accounts, amount));
            Ok(())
        },
        Some(i) => {
            let held = ico_state.balance[i].1;
            if held > u64::MAX - amount {
                return Err(IcoError::ArithmeticOverflow);
            }
            ico_state.balance[i] = (*recipient_accounts, held + amount);
            Ok(())
        },
    }
}

/// Flips the whitelist flag of the pre-sale roster row of `account_to_whitelist`.
pub fn whitelist_account(ico_state: &mut ICOAccount, account_to_whitelist: &Identity) -> (r:
    Result<(), IcoError>)
    ensures
        match toggle_result(old(ico_state)@, *account_to_whitelist) {
            Ok(v) => r == Ok::<(), IcoError>(()) && final(ico_state)@ == v,
            Err(e) => r == Err::<(), IcoError>(e) && final(ico_state)@ == old(ico_state)@,
        },
        old(ico_state).wf() ==> final(ico_state).wf(),
        conserved(old(ico_state)@) ==> conserved(final(ico_state)@),
{
    proof {
        lemma_keys_stay_unique(ico_state@, *account_to_whitelist, *account_to_whitelist, Seq::empty(), 0, 0, 0);
        lemma_supply_conserved(ico_state@, *account_to_whitelist, *account_to_whitelist, Seq::empty(), 0, 0);
    }
    match find_roster(&ico_state.pre_sale_account, account_to_whitelist) {
        None => Err(IcoError::NotFound),
        Some(i) => {
            let mut row = ico_state.pre_sale_account[i];
            row.whitelist();
            ico_state.pre_sale_account[i] = row;
            Ok(())
        },
    }
}

/// A whitelisted buyer purchases tokens before the public sale starts.
/// The amount is the first eight bytes (little-endian) of `buyer_data`;
/// `payment` must equal amount times the pre-sale price. On success the
/// tokens move from the admin to the buyer and the cost to debit from the
/// buyer is returned.
pub fn pre_sale(
    ico_state: &mut ICOAccount,
    buyer: &Identity,
    buyer_data: &[u8],
    payment: u64,
    current_time: u64,
) -> (r: Result<u64, IcoError>)
    ensures
        match pre_sale_result(old(ico_state)@, *buyer, buyer_data@, payment, current_time) {
            Ok((v, cost)) => r == Ok::<u64, IcoError>(cost) && final(ico_state)@ == v,
            Err(e) => r == Err::<u64, IcoError>(e) && final(ico_state)@ == old(ico_state)@,
        },
        old(ico_state).wf() ==> final(ico_state).wf(),
        conserved(old(ico_state)@) ==> conserved(final(ico_state)@),
{
    proof {
        lemma_keys_stay_unique(ico_state@, *buyer, *buyer, buyer_data@, payment, 0, current_time);
        lemma_supply_conserved(ico_state@, *buyer, *buyer, buyer_data@, payment, current_time);
    }
    if current_time >= ico_state.sale_start_time {
        return Err(IcoError::WindowClosed);
    }
    if !is_whitelisted(&ico_state.pre_sale_account, buyer) {
        return Err(IcoError::NotWhitelisted);
    }
    if buyer_data.len() < 8 {
        return Err(IcoError::InvalidOperation);
    }
    let amount = read_u64(buyer_data, 0);
    match amount.checked_mul(ico_state.pre_sale_price) {
        Some(cost) => {
            if cost != payment {
                return Err(IcoError::PaymentMismatch);
            }
        },
        None => return Err(IcoError::PaymentMismatch),
    }
    let admin = ico_state.admin;
    match check_transfer(&ico_state.balance, buyer, &admin, amount) {
        Err(e) => return Err(e),
        Ok(()) => {},
    }
    if !pre_rows_can_take(&ico_state.pre_sale_account, buyer, amount)
        || ico_state.total_price_earned > u64::MAX - payment {
        return Err(IcoError::ArithmeticOverflow);
    }
    settle(&mut ico_state.balance, buyer, &admin, amount);
    credit_pre(&mut ico_state.pre_sale_account, buyer, amount);
    ico_state.total_price_earned = ico_state.total_price_earned + payment;
    Ok(payment)
}

/// A buyer purchases tokens in the public sale, which is open from the
/// start time on provided the window itself is well formed. Otherwise as
/// `pre_sale`, at the public-sale price; a buyer's first purchase adds its
/// public-sale roster row.
pub fn sale(
    ico_state: &mut ICOAccount,
    buyer: &Identity,
    buyer_data: &[u8],
    payment: u64,
    current_time: u64,
) -> (r: Result<u64, IcoError>)
    ensures
        match sale_result(old(ico_state)@, *buyer, buyer_data@, payment, current_time) {
            Ok((v, cost)) => r == Ok::<u64, IcoError>(cost) && final(ico_state)@ == v,
            Err(e) => r == Err::<u64, IcoError>(e) && final(ico_state)@ == old(ico_state)@,
        },
        old(ico_state).wf() ==> final(ico_state).wf(),
        conserved(old(ico_state)@) ==> conserved(final(ico_state)@),
{
    proof {
        lemma_keys_stay_unique(ico_state@, *buyer, *buyer, buyer_data@, payment, 0, current_time);
        lemma_supply_conserved(ico_state@, *buyer, *buyer, buyer_data@, payment, current_time);
    }
    if current_time < ico_state.sale_start_time || ico_state.sale_start_time
        >= ico_state.sale_end_time {
        return Err(IcoError::WindowClosed);
    }
    if buyer_data.len() < 8 {
        return Err(IcoError::InvalidOperation);
    }
    let amount = read_u64(buyer_data, 0);
    match amount.checked_mul(ico_state.sale_price) {
        Some(cost) => {
            if cost != payment {
                return Err(IcoError::PaymentMismatch);
            }
        },
        None => return Err(IcoError::PaymentMismatch),
    }
    let admin = ico_state.admin;
    match check_transfer(&ico_state.balance, buyer, &admin, amount) {
        Err(e) => return Err(e),
        Ok(()) => {},
    }
    if !sale_rows_can_take(&ico_state.sale_account, buyer, amount)
        || ico_state.total_price_earned > u64::MAX - payment {
        return Err(IcoError::ArithmeticOverflow);
    }
    let price = ico_state.sale_price;
    settle(&mut ico_state.balance, buyer, &admin, amount);
    credit_sale(&mut ico_state.sale_account, buyer, amount, price);
    ico_state.total_price_earned = ico_state.total_price_earned + payment;
    Ok(payment)
}

} // verus!
