use ico_ledger::codec::encode;
use ico_ledger::identity::Identity;
use ico_ledger::ledger::{
    intialize_ico, mint_tokens, pre_sale, sale, whitelist_account, IcoError,
};
use ico_ledger::state::{ICOAccount, PreSaleAccount, SaleAccount};

fn id(n: u8) -> Identity {
    Identity::new([n; 32])
}

fn empty_state() -> ICOAccount {
    ICOAccount {
        total_supply: 0,
        admin: id(0),
        balance: Vec::new(),
        pre_sale_price: 0,
        pre_sale_limit: 0,
        sale_price: 0,
        sale_limit: 0,
        sale_start_time: 0,
        sale_end_time: 0,
        total_price_earned: 0,
        pre_sale_account: Vec::new(),
        sale_account: Vec::new(),
    }
}

fn snapshot(s: &ICOAccount) -> Vec<u8> {
    encode(s).unwrap()
}

fn balance_of(s: &ICOAccount, k: &Identity) -> Option<u64> {
    s.balance.iter().find(|e| e.0.bytes == k.bytes).map(|e| e.1)
}

fn sum(s: &ICOAccount) -> u128 {
    s.balance.iter().map(|e| e.1 as u128).sum()
}

/// Initialized by admin 1, with buyer 2 enrolled (not whitelisted) for the
/// pre-sale and holding an empty balance entry; the public sale starts at 50.
fn presale_state() -> ICOAccount {
    let mut s = empty_state();
    intialize_ico(&id(1), &mut s, &id(1)).unwrap();
    mint_tokens(&mut s, &id(2), 0).unwrap();
    s.sale_start_time = 50;
    s.sale_end_time = 150;
    s.pre_sale_account.push(PreSaleAccount {
        address: id(2),
        token_amount: 0,
        token_price: 100,
        whitelist_account: false,
    });
    s
}

fn amount_data(amount: u64) -> Vec<u8> {
    amount.to_le_bytes().to_vec()
}

#[test]
fn initialize_credits_whole_supply_to_admin() {
    let mut s = empty_state();
    assert_eq!(intialize_ico(&id(7), &mut s, &id(7)), Ok(()));
    assert_eq!(s.balance.len(), 1);
    assert_eq!(s.balance[0].0.bytes, [7u8; 32]);
    assert_eq!(s.balance[0].1, 10000);
    assert_eq!(s.total_supply, 10000);
    assert_eq!(s.admin.bytes, [7u8; 32]);
    assert_eq!(s.pre_sale_price, 100);
    assert_eq!(s.pre_sale_limit, 50);
    assert_eq!(s.sale_price, 200);
    assert_eq!(s.sale_limit, 100);
    assert_eq!(s.sale_start_time, 0);
    assert_eq!(s.sale_end_time, 100);
    assert_eq!(sum(&s), s.total_supply as u128);
}

#[test]
fn initialize_by_other_identity_is_unauthorized() {
    let mut s = empty_state();
    let before = snapshot(&s);
    assert_eq!(intialize_ico(&id(7), &mut s, &id(8)), Err(IcoError::Unauthorized));
    assert_eq!(snapshot(&s), before);
}

#[test]
fn initialize_twice_is_rejected() {
    let mut s = empty_state();
    intialize_ico(&id(7), &mut s, &id(7)).unwrap();
    let before = snapshot(&s);
    assert_eq!(intialize_ico(&id(7), &mut s, &id(7)), Err(IcoError::AlreadyInitialized));
    assert_eq!(snapshot(&s), before);
}

#[test]
fn mint_creates_entry_and_keeps_supply() {
    let mut s = empty_state();
    intialize_ico(&id(1), &mut s, &id(1)).unwrap();
    assert_eq!(mint_tokens(&mut s, &id(2), 500), Ok(()));
    assert_eq!(s.balance.len(), 2);
    assert_eq!(balance_of(&s, &id(2)), Some(500));
    assert_eq!(s.total_supply, 10000);
}

#[test]
fn mint_adds_to_existing_entry() {
    let mut s = empty_state();
    intialize_ico(&id(1), &mut s, &id(1)).unwrap();
    mint_tokens(&mut s, &id(2), 500).unwrap();
    assert_eq!(mint_tokens(&mut s, &id(2), 500), Ok(()));
    assert_eq!(s.balance.len(), 2);
    assert_eq!(balance_of(&s, &id(2)), Some(1000));
    assert_eq!(mint_tokens(&mut s, &id(1), 1), Ok(()));
    assert_eq!(balance_of(&s, &id(1)), Some(10001));
    assert_eq!(s.balance.len(), 2);
}

#[test]
fn mint_overflow_is_rejected() {
    let mut s = empty_state();
    mint_tokens(&mut s, &id(2), u64::MAX).unwrap();
    let before = snapshot(&s);
    assert_eq!(mint_tokens(&mut s, &id(2), 1), Err(IcoError::ArithmeticOverflow));
    assert_eq!(snapshot(&s), before);
}

#[test]
fn whitelist_toggle_flips_flag() {
    let mut s = presale_state();
    assert_eq!(whitelist_account(&mut s, &id(2)), Ok(()));
    assert!(s.pre_sale_account[0].whitelist_account);
    assert_eq!(s.pre_sale_account[0].token_price, 100);
}

#[test]
fn whitelist_toggle_twice_restores() {
    let mut s = presale_state();
    let before = snapshot(&s);
    whitelist_account(&mut s, &id(2)).unwrap();
    assert_ne!(snapshot(&s), before);
    whitelist_account(&mut s, &id(2)).unwrap();
    assert_eq!(snapshot(&s), before);
}

#[test]
fn whitelist_unknown_address_is_not_found() {
    let mut s = presale_state();
    let before = snapshot(&s);
    assert_eq!(whitelist_account(&mut s, &id(9)), Err(IcoError::NotFound));
    assert_eq!(snapshot(&s), before);
}

#[test]
fn presale_rejects_non_whitelisted_buyer() {
    let mut s = presale_state();
    let before = snapshot(&s);
    assert_eq!(pre_sale(&mut s, &id(2), &amount_data(3), 300, 10), Err(IcoError::NotWhitelisted));
    assert_eq!(snapshot(&s), before);
    assert_eq!(pre_sale(&mut s, &id(5), &amount_data(3), 300, 10), Err(IcoError::NotWhitelisted));
    assert_eq!(snapshot(&s), before);
}

#[test]
fn presale_by_whitelisted_buyer_moves_tokens() {
    let mut s = presale_state();
    whitelist_account(&mut s, &id(2)).unwrap();
    assert_eq!(pre_sale(&mut s, &id(2), &amount_data(3), 300, 10), Ok(300));
    assert_eq!(s.pre_sale_account[0].token_amount, 3);
    assert_eq!(balance_of(&s, &id(2)), Some(3));
    assert_eq!(balance_of(&s, &id(1)), Some(9997));
    assert_eq!(s.total_price_earned, 300);
    assert_eq!(sum(&s), s.total_supply as u128);
    assert_eq!(s.balance.len(), 2);
}

#[test]
fn presale_payment_mismatch_leaves_state() {
    let mut s = presale_state();
    whitelist_account(&mut s, &id(2)).unwrap();
    let before = snapshot(&s);
    assert_eq!(pre_sale(&mut s, &id(2), &amount_data(3), 250, 10), Err(IcoError::PaymentMismatch));
    assert_eq!(snapshot(&s), before);
    assert_eq!(pre_sale(&mut s, &id(2), &amount_data(3), 301, 10), Err(IcoError::PaymentMismatch));
    assert_eq!(snapshot(&s), before);
}

#[test]
fn presale_cost_overflow_is_payment_mismatch() {
    let mut s = presale_state();
    whitelist_account(&mut s, &id(2)).unwrap();
    assert_eq!(
        pre_sale(&mut s, &id(2), &amount_data(u64::MAX / 2), u64::MAX, 10),
        Err(IcoError::PaymentMismatch)
    );
}

#[test]
fn presale_at_or_after_start_is_window_closed() {
    let mut s = presale_state();
    whitelist_account(&mut s, &id(2)).unwrap();
    let before = snapshot(&s);
    assert_eq!(pre_sale(&mut s, &id(2), &amount_data(3), 300, 50), Err(IcoError::WindowClosed));
    assert_eq!(pre_sale(&mut s, &id(2), &amount_data(3), 300, 70), Err(IcoError::WindowClosed));
    assert_eq!(snapshot(&s), before);
}

#[test]
fn presale_short_data_is_invalid() {
    let mut s = presale_state();
    whitelist_account(&mut s, &id(2)).unwrap();
    assert_eq!(pre_sale(&mut s, &id(2), &[3, 0, 0], 300, 10), Err(IcoError::InvalidOperation));
}

#[test]
fn presale_buyer_without_balance_is_not_found() {
    let mut s = presale_state();
    s.pre_sale_account.push(PreSaleAccount {
        address: id(4),
        token_amount: 0,
        token_price: 100,
        whitelist_account: true,
    });
    let before = snapshot(&s);
    assert_eq!(pre_sale(&mut s, &id(4), &amount_data(1), 100, 10), Err(IcoError::NotFound));
    assert_eq!(snapshot(&s), before);
}

#[test]
fn sale_with_inverted_window_is_closed() {
    let mut s = presale_state();
    s.sale_start_time = 100;
    s.sale_end_time = 100;
    let before = snapshot(&s);
    for now in [0u64, 99, 100, 101, u64::MAX] {
        assert_eq!(sale(&mut s, &id(2), &amount_data(1), 200, now), Err(IcoError::WindowClosed));
    }
    s.sale_end_time = 50;
    assert_eq!(sale(&mut s, &id(2), &amount_data(1), 200, 120), Err(IcoError::WindowClosed));
    s.sale_end_time = 100;
    assert_eq!(snapshot(&s), before);
}

#[test]
fn sale_before_start_is_closed() {
    let mut s = presale_state();
    assert_eq!(sale(&mut s, &id(2), &amount_data(1), 200, 49), Err(IcoError::WindowClosed));
}

#[test]
fn sale_appends_then_updates_roster_row() {
    let mut s = presale_state();
    assert_eq!(sale(&mut s, &id(2), &amount_data(2), 400, 60), Ok(400));
    assert_eq!(s.sale_account.len(), 1);
    assert_eq!(s.sale_account[0].address.bytes, [2u8; 32]);
    assert_eq!(s.sale_account[0].token_amount, 2);
    assert_eq!(s.sale_account[0].token_price, 200);
    assert_eq!(sale(&mut s, &id(2), &amount_data(5), 1000, 60), Ok(1000));
    assert_eq!(s.sale_account.len(), 1);
    assert_eq!(s.sale_account[0].token_amount, 7);
    assert_eq!(balance_of(&s, &id(2)), Some(7));
    assert_eq!(balance_of(&s, &id(1)), Some(9993));
    assert_eq!(s.total_price_earned, 1400);
    assert_eq!(sum(&s), s.total_supply as u128);
}

#[test]
fn sale_beyond_admin_balance_is_insufficient() {
    let mut s = presale_state();
    let before = snapshot(&s);
    assert_eq!(
        sale(&mut s, &id(2), &amount_data(10001), 2000200, 60),
        Err(IcoError::InsufficientFunds)
    );
    assert_eq!(snapshot(&s), before);
}

#[test]
fn sale_by_admin_keeps_balance() {
    let mut s = presale_state();
    assert_eq!(sale(&mut s, &id(1), &amount_data(4), 800, 60), Ok(800));
    assert_eq!(balance_of(&s, &id(1)), Some(10000));
    assert_eq!(s.total_price_earned, 800);
}

#[test]
fn sale_earned_overflow_is_rejected() {
    let mut s = presale_state();
    s.total_price_earned = u64::MAX - 100;
    let before = snapshot(&s);
    assert_eq!(sale(&mut s, &id(2), &amount_data(1), 200, 60), Err(IcoError::ArithmeticOverflow));
    assert_eq!(snapshot(&s), before);
}

#[test]
fn sale_rows_of_other_buyers_untouched() {
    let mut s = presale_state();
    s.sale_account.push(SaleAccount { address: id(6), token_amount: 9, token_price: 200 });
    assert_eq!(sale(&mut s, &id(2), &amount_data(1), 200, 60), Ok(200));
    assert_eq!(s.sale_account.len(), 2);
    assert_eq!(s.sale_account[0].token_amount, 9);
    assert_eq!(s.sale_account[1].token_amount, 1);
}

#[test]
fn operations_keep_supply_and_unique_keys() {
    let mut s = presale_state();
    whitelist_account(&mut s, &id(2)).unwrap();
    pre_sale(&mut s, &id(2), &amount_data(5), 500, 10).unwrap();
    sale(&mut s, &id(2), &amount_data(3), 600, 60).unwrap();
    sale(&mut s, &id(1), &amount_data(3), 600, 60).unwrap();
    whitelist_account(&mut s, &id(2)).unwrap();
    assert_eq!(sum(&s), s.total_supply as u128);
    for i in 0..s.balance.len() {
        for j in 0..s.balance.len() {
            if i != j {
                assert_ne!(s.balance[i].0.bytes, s.balance[j].0.bytes);
            }
        }
    }
}

#[test]
fn identity_same_compares_bytes() {
    let mut b = [3u8; 32];
    assert!(Identity::new(b).same(&Identity::new(b)));
    b[31] = 4;
    assert!(!Identity::new(b).same(&Identity::new([3u8; 32])));
}
