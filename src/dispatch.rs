use vstd::prelude::*;

use crate::bytes::{le_u64, read_u64};
use crate::codec::{decode, encodable, encode, encode_view, parse_view};
use crate::identity::Identity;
use crate::ledger::{
    initialize_result, intialize_ico, mint_result, mint_tokens, pre_sale, pre_sale_result, sale,
    sale_result, toggle_result, whitelist_account, IcoError,
};
use crate::laws::{lemma_keys_stay_unique, lemma_supply_conserved};
use crate::state::{conserved, keys_unique, IcoView};

verus! {

/// What the host supplies with one call.
pub struct Invocation {
    /// The executing program's identity.
    pub program_id: Identity,
    /// The declared owner of the storage slot that holds the ledger blob.
    pub owner: Identity,
    /// The account that follows the storage slot: the admin at
    /// initialization, the recipient of a mint, the buyer of a purchase,
    /// the address whose whitelist flag is toggled.
    pub caller: Identity,
    /// That account's data buffer (a purchase reads its amount there).
    pub caller_data: Vec<u8>,
    /// That account's payable balance, the payment attached to a purchase.
    pub caller_lamports: u64,
    /// The current Unix time in seconds.
    pub current_time: u64,
}

/// Outcome of the operation that `ix` selects: the new ledger and the
/// amount to debit from the caller.
pub open spec fn instruction_result(v: IcoView, inv: Invocation, ix: Seq<u8>) -> Result<
    (IcoView, u64),
    IcoError,
> {
    if ix.len() == 0 {
        Err(IcoError::InvalidOperation)
    } else if ix[0] == 0 {
        match initialize_result(v, inv.program_id, inv.caller) {
            Ok(w) => Ok((w, 0)),
            Err(e) => Err(e),
        }
    } else if ix[0] == 1 {
        if ix.len() < 9 {
            Err(IcoError::InvalidOperation)
        } else {
            match mint_result(v, inv.caller, le_u64(ix.subrange(1, 9))) {
                Ok(w) => Ok((w, 0)),
                Err(e) => Err(e),
            }
        }
    } else if ix[0] == 2 {
        pre_sale_result(v, inv.caller, inv.caller_data@, inv.caller_lamports, inv.current_time)
    } else if ix[0] == 3 {
        sale_result(v, inv.caller, inv.caller_data@, inv.caller_lamports, inv.current_time)
    } else if ix[0] == 4 {
        match toggle_result(v, inv.caller) {
            Ok(w) => Ok((w, 0)),
            Err(e) => Err(e),
        }
    } else {
        Err(IcoError::InvalidOperation)
    }
}

/// Every successful call keeps one balance entry per identity, and every
/// successful call other than a mint (opcode 1) keeps the balances summing
/// to the total supply.
pub proof fn lemma_instruction_invariants(v: IcoView, inv: Invocation, ix: Seq<u8>)
    ensures
        keys_unique(v.balance) && instruction_result(v, inv, ix) is Ok ==> keys_unique(
            instruction_result(v, inv, ix)->Ok_0.0.balance,
        ),
        conserved(v) && (ix.len() == 0 || ix[0] != 1) && instruction_result(v, inv, ix) is Ok
            ==> conserved(instruction_result(v, inv, ix)->Ok_0.0),
{
    let amount = if ix.len() >= 9 {
        le_u64(ix.subrange(1, 9))
    } else {
        0
    };
    lemma_keys_stay_unique(
        v,
        inv.program_id,
        inv.caller,
        inv.caller_data@,
        inv.caller_lamports,
        amount,
        inv.current_time,
    );
    lemma_supply_conserved(
        v,
        inv.program_id,
        inv.caller,
        inv.caller_data@,
        inv.caller_lamports,
        inv.current_time,
    );
}

/// Runs one call against the stored ledger blob: checks the slot's owner,
/// decodes the blob, applies the operation that the first byte of
/// `instruction_data` selects, and returns the new blob with the amount to
/// debit from the caller. Nothing is returned on failure, so a failed call
/// changes nothing.
pub fn process_instruction(inv: &Invocation, blob: &[u8], instruction_data: &[u8]) -> (r: Result<
    (Vec<u8>, u64),
    IcoError,
>)
    ensures
        inv.owner != inv.program_id ==> r == Err::<(Vec<u8>, u64), IcoError>(IcoError::WrongOwner),
        inv.owner == inv.program_id ==> match parse_view(blob@) {
            None => r == Err::<(Vec<u8>, u64), IcoError>(IcoError::InvalidState),
            Some(v) => match instruction_result(v, *inv, instruction_data@) {
                Err(e) => r == Err::<(Vec<u8>, u64), IcoError>(e),
                Ok((w, cost)) => if encodable(w) {
                    r is Ok && r->Ok_0.0@ == encode_view(w) && r->Ok_0.1 == cost
                } else {
                    r == Err::<(Vec<u8>, u64), IcoError>(IcoError::ArithmeticOverflow)
                },
            },
        },
{
    if !inv.owner.same(&inv.program_id) {
        return Err(IcoError::WrongOwner);
    }
    let mut state = match decode(blob) {
        Some(s) => s,
        None => return Err(IcoError::InvalidState),
    };
    if instruction_data.len() == 0 {
        return Err(IcoError::InvalidOperation);
    }
    let op = instruction_data[0];
    let cost: u64 = if op == 0 {
        match intialize_ico(&inv.program_id, &mut state, &inv.caller) {
            Ok(()) => 0,
            Err(e) => return Err(e),
        }
    } else if op == 1 {
        if instruction_data.len() < 9 {
            return Err(IcoError::InvalidOperation);
        }
        let amount = read_u64(instruction_data, 1);
        match mint_tokens(&mut state, &inv.caller, amount) {
            Ok(()) => 0,
            Err(e) => return Err(e),
        }
    } else if op == 2 {
        match pre_sale(
            &mut state,
            &inv.caller,
            inv.caller_data.as_slice(),
            inv.caller_lamports,
            inv.current_time,
        ) {
            Ok(c) => c,
            Err(e) => return Err(e),
        }
    } else if op == 3 {
        match sale(
            &mut state,
            &inv.caller,
            inv.caller_data.as_slice(),
            inv.caller_lamports,
            inv.current_time,
        ) {
            Ok(c) => c,
            Err(e) => return Err(e),
        }
    } else if op == 4 {
        match whitelist_account(&mut state, &inv.caller) {
            Ok(()) => 0,
            Err(e) => return Err(e),
        }
    } else {
        return Err(IcoError::InvalidOperation);
    };
    match encode(&state) {
        Some(out) => Ok((out, cost)),
        None => Err(IcoError::ArithmeticOverflow),
    }
}

} // verus!
