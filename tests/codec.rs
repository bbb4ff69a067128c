use ico_ledger::codec::{decode, encode};
use ico_ledger::dispatch::{process_instruction, Invocation};
use ico_ledger::identity::Identity;
use ico_ledger::ledger::{intialize_ico, IcoError};
use ico_ledger::state::{ICOAccount, PreSaleAccount, SaleAccount};

fn id(n: u8) -> Identity {
    Identity::new([n; 32])
}

fn sample() -> ICOAccount {
    ICOAccount {
        total_supply: 10000,
        admin: id(1),
        balance: vec![(id(1), 9990), (id(2), 10)],
        pre_sale_price: 100,
        pre_sale_limit: 50,
        sale_price: 200,
        sale_limit: 100,
        sale_start_time: 1_700_000_000,
        sale_end_time: 1_800_000_000,
        total_price_earned: 1000,
        pre_sale_account: vec![PreSaleAccount {
            address: id(2),
            token_amount: 10,
            token_price: 100,
            whitelist_account: true,
        }],
        sale_account: vec![SaleAccount { address: id(3), token_amount: 0, token_price: 200 }],
    }
}

type BorshImage = (
    u64,
    [u8; 32],
    Vec<([u8; 32], u64)>,
    u64,
    u64,
    u64,
    u64,
    u64,
    u64,
    u64,
    Vec<([u8; 32], u64, u64, bool)>,
    Vec<([u8; 32], u64, u64)>,
);

fn borsh_image(s: &ICOAccount) -> BorshImage {
    (
        s.total_supply,
        s.admin.bytes,
        s.balance.iter().map(|e| (e.0.bytes, e.1)).collect(),
        s.pre_sale_price,
        s.pre_sale_limit,
        s.sale_price,
        s.sale_limit,
        s.sale_start_time,
        s.sale_end_time,
        s.total_price_earned,
        s.pre_sale_account
            .iter()
            .map(|r| (r.address.bytes, r.token_amount, r.token_price, r.whitelist_account))
            .collect(),
        s.sale_account.iter().map(|r| (r.address.bytes, r.token_amount, r.token_price)).collect(),
    )
}

fn empty_blob() -> Vec<u8> {
    let s = ICOAccount {
        total_supply: 0,
        admin: id(0),
        balance: Vec::new(),
        pre_sale_price: 0,
        pre_sale_limit: 0,
        sale_price: 0,
        sale_limit: 0,
        sale_start_time: 0,
        sale_end_time: 0,
        total_price_earned: 0,
        pre_sale_account: Vec::new(),
        sale_account: Vec::new(),
    };
    encode(&s).unwrap()
}

fn invocation(program: u8, owner: u8, caller: u8, data: Vec<u8>, lamports: u64, now: u64) -> Invocation {
    Invocation {
        program_id: id(program),
        owner: id(owner),
        caller: id(caller),
        caller_data: data,
        caller_lamports: lamports,
        current_time: now,
    }
}

#[test]
fn encoding_matches_borsh_layout() {
    let s = sample();
    let ours = encode(&s).unwrap();
    let theirs = borsh::to_vec(&borsh_image(&s)).unwrap();
    assert_eq!(ours, theirs);
    assert_eq!(ours.len(), 44 + 2 * 40 + 60 + 49 + 4 + 48);
}

#[test]
fn empty_ledger_encoding() {
    let b = empty_blob();
    assert_eq!(b.len(), 44 + 60 + 4);
    assert!(b.iter().all(|x| *x == 0));
}

#[test]
fn decode_reads_borsh_bytes() {
    let bytes = borsh::to_vec(&borsh_image(&sample())).unwrap();
    let s = decode(&bytes).unwrap();
    assert_eq!(s.total_supply, 10000);
    assert_eq!(s.admin.bytes, [1u8; 32]);
    assert_eq!(s.balance.len(), 2);
    assert_eq!(s.balance[1].0.bytes, [2u8; 32]);
    assert_eq!(s.balance[1].1, 10);
    assert_eq!(s.sale_start_time, 1_700_000_000);
    assert_eq!(s.total_price_earned, 1000);
    assert!(s.pre_sale_account[0].whitelist_account);
    assert_eq!(s.sale_account[0].address.bytes, [3u8; 32]);
}

#[test]
fn encode_decode_round_trip() {
    let blob = encode(&sample()).unwrap();
    let s = decode(&blob).unwrap();
    assert_eq!(encode(&s).unwrap(), blob);
}

#[test]
fn decode_rejects_trailing_bytes() {
    let mut blob = encode(&sample()).unwrap();
    blob.push(0);
    assert!(decode(&blob).is_none());
}

#[test]
fn decode_rejects_truncated_blob() {
    let blob = encode(&sample()).unwrap();
    assert!(decode(&blob[..blob.len() - 1]).is_none());
    assert!(decode(&blob[..43]).is_none());
    assert!(decode(&[]).is_none());
}

#[test]
fn decode_rejects_bad_flag_byte() {
    let mut blob = encode(&sample()).unwrap();
    let flag = 44 + 2 * 40 + 60 + 48;
    assert_eq!(blob[flag], 1);
    blob[flag] = 2;
    assert!(decode(&blob).is_none());
}

#[test]
fn process_checks_owner_first() {
    let inv = invocation(1, 9, 1, Vec::new(), 0, 0);
    assert_eq!(process_instruction(&inv, &[], &[0]), Err(IcoError::WrongOwner));
}

#[test]
fn process_rejects_corrupt_blob() {
    let inv = invocation(1, 1, 1, Vec::new(), 0, 0);
    assert_eq!(process_instruction(&inv, &[1, 2, 3], &[0]), Err(IcoError::InvalidState));
}

#[test]
fn process_rejects_unknown_opcode() {
    let inv = invocation(1, 1, 1, Vec::new(), 0, 0);
    let blob = empty_blob();
    assert_eq!(process_instruction(&inv, &blob, &[5]), Err(IcoError::InvalidOperation));
    assert_eq!(process_instruction(&inv, &blob, &[]), Err(IcoError::InvalidOperation));
    assert_eq!(process_instruction(&inv, &blob, &[1, 0, 0]), Err(IcoError::InvalidOperation));
}

#[test]
fn process_initialize_then_mint() {
    let blob = empty_blob();
    let (blob, cost) = process_instruction(&invocation(1, 1, 1, Vec::new(), 0, 0), &blob, &[0]).unwrap();
    assert_eq!(cost, 0);
    let s = decode(&blob).unwrap();
    assert_eq!(s.balance.len(), 1);
    assert_eq!(s.balance[0].1, 10000);
    let mut ix = vec![1u8];
    ix.extend_from_slice(&500u64.to_le_bytes());
    let (blob, _) = process_instruction(&invocation(1, 1, 2, Vec::new(), 0, 0), &blob, &ix).unwrap();
    let s = decode(&blob).unwrap();
    assert_eq!(s.balance.len(), 2);
    assert_eq!(s.balance[1].0.bytes, [2u8; 32]);
    assert_eq!(s.balance[1].1, 500);
    assert_eq!(s.total_supply, 10000);
}

#[test]
fn process_initialize_requires_program_identity() {
    let blob = empty_blob();
    let inv = invocation(1, 1, 2, Vec::new(), 0, 0);
    assert_eq!(process_instruction(&inv, &blob, &[0]), Err(IcoError::Unauthorized));
}

#[test]
fn process_sale_returns_cost() {
    let mut s = sample();
    s.sale_start_time = 10;
    s.sale_end_time = 20;
    let blob = encode(&s).unwrap();
    let inv = invocation(1, 1, 2, 2u64.to_le_bytes().to_vec(), 400, 15);
    let (out, cost) = process_instruction(&inv, &blob, &[3]).unwrap();
    assert_eq!(cost, 400);
    let t = decode(&out).unwrap();
    assert_eq!(t.balance[0].1, 9988);
    assert_eq!(t.balance[1].1, 12);
    assert_eq!(t.total_price_earned, 1400);
    assert_eq!(t.sale_account.len(), 2);
}

#[test]
fn process_presale_and_toggle() {
    let mut s = sample();
    s.sale_start_time = 100;
    let blob = encode(&s).unwrap();
    let inv = invocation(1, 1, 2, 3u64.to_le_bytes().to_vec(), 300, 5);
    let (out, cost) = process_instruction(&inv, &blob, &[2]).unwrap();
    assert_eq!(cost, 300);
    let t = decode(&out).unwrap();
    assert_eq!(t.pre_sale_account[0].token_amount, 13);
    let (out2, cost2) = process_instruction(&inv, &out, &[4]).unwrap();
    assert_eq!(cost2, 0);
    assert!(!decode(&out2).unwrap().pre_sale_account[0].whitelist_account);
    assert_eq!(process_instruction(&inv, &out2, &[2]), Err(IcoError::NotWhitelisted));
}

#[test]
fn initialize_via_library_matches_process() {
    let mut s = decode(&empty_blob()).unwrap();
    intialize_ico(&id(1), &mut s, &id(1)).unwrap();
    let (blob, _) = process_instruction(&invocation(1, 1, 1, Vec::new(), 0, 0), &empty_blob(), &[0]).unwrap();
    assert_eq!(encode(&s).unwrap(), blob);
}
