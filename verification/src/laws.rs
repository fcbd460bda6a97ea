//! Laws of the token operations, proved from the operations' contracts.
//!
//! Each law is stated over the outcome predicates that the operations'
//! `ensures` clauses establish, so it holds of every call of those
//! operations on a well-formed ledger.

use vstd::prelude::*;
use vstd::assert_seqs_equal;

use crate::state::{
    AccountRecord, Ledger, MintRecord, TokenError, account_at, account_index_of,
    has_account, has_mint, lemma_account_le_sum, lemma_sum_update, lemma_two_accounts_le_sum,
    mint_at, mint_index_of, sum_balances,
};
use crate::ops::{
    burn_records_valid, burn_token_outcome, mint_records_valid, mint_token_outcome,
    transfer_records_valid, transfer_token_outcome,
};

verus! {

/// Every token account's balance is nonnegative, in every ledger state:
/// balances are unsigned, so no operation can ever drive one below zero.
pub proof fn lemma_balance_nonneg(l: Ledger, i: int)
    requires
        0 <= i < l.accounts@.len(),
    ensures
        l.accounts@[i].balance >= 0,
{
}

/// On a well-formed ledger, an account's balance never exceeds the total
/// supply of its mint, and that mint exists.
pub proof fn lemma_balance_le_supply(l: Ledger, addr: u64)
    requires
        l.wf(),
        has_account(l.accounts@, addr),
    ensures
        has_mint(l.mints@, account_at(l.accounts@, addr).mint),
        account_at(l.accounts@, addr).balance <= mint_at(
            l.mints@,
            account_at(l.accounts@, addr).mint,
        ).total_supply,
{
    let ai = account_index_of(l.accounts@, addr);
    let a = l.accounts@[ai];
    assert(has_mint(l.mints@, a.mint));
    let mi = mint_index_of(l.mints@, a.mint);
    assert(l.mints@[mi].total_supply as int == sum_balances(l.accounts@, l.mints@[mi].addr));
    lemma_account_le_sum(l.accounts@, ai, a.mint);
}

/// Minting by a signer other than the mint's authority fails with
/// `AuthorizationError` and leaves every balance and every total supply
/// unchanged.
pub proof fn lemma_mint_by_non_authority_rejected(
    lo: Ledger,
    lf: Ledger,
    r: Result<(), TokenError>,
    mint_addr: u64,
    dest_addr: u64,
    signer: u64,
    amount: u64,
)
    requires
        lo.wf(),
        mint_token_outcome(lo, lf, r, mint_addr, dest_addr, signer, amount),
        mint_records_valid(lo, mint_addr, dest_addr),
        signer != mint_at(lo.mints@, mint_addr).authority,
    ensures
        r == Err::<(), TokenError>(TokenError::AuthorizationError),
        lf.mints@ == lo.mints@,
        lf.accounts@ == lo.accounts@,
{
}

/// Burning more than the source account holds fails with
/// `InsufficientBalanceError` and mutates nothing, whoever signs.
pub proof fn lemma_burn_above_balance_rejected(
    lo: Ledger,
    lf: Ledger,
    r: Result<(), TokenError>,
    mint_addr: u64,
    src_addr: u64,
    signer: u64,
    amount: u64,
)
    requires
        lo.wf(),
        burn_token_outcome(lo, lf, r, mint_addr, src_addr, signer, amount),
        burn_records_valid(lo, mint_addr, src_addr),
        signer == account_at(lo.accounts@, src_addr).owner,
        amount > account_at(lo.accounts@, src_addr).balance,
    ensures
        r == Err::<(), TokenError>(TokenError::InsufficientBalanceError),
        lf.mints@ == lo.mints@,
        lf.accounts@ == lo.accounts@,
{
}

/// Transferring between two accounts of different mints fails with
/// `InvalidRecordError` and mutates nothing.
pub proof fn lemma_cross_mint_transfer_rejected(
    lo: Ledger,
    lf: Ledger,
    r: Result<(), TokenError>,
    src_addr: u64,
    dest_addr: u64,
    signer: u64,
    amount: u64,
)
    requires
        lo.wf(),
        transfer_token_outcome(lo, lf, r, src_addr, dest_addr, signer, amount),
        has_account(lo.accounts@, src_addr),
        has_account(lo.accounts@, dest_addr),
        account_at(lo.accounts@, src_addr).mint != account_at(lo.accounts@, dest_addr).mint,
    ensures
        r == Err::<(), TokenError>(TokenError::InvalidRecordError),
        lf.mints@ == lo.mints@,
        lf.accounts@ == lo.accounts@,
{
}

/// A zero-amount mint by the rightful authority succeeds and leaves every
/// balance and every total supply exactly as they were.
pub proof fn lemma_mint_zero_is_noop(
    lo: Ledger,
    lf: Ledger,
    r: Result<(), TokenError>,
    mint_addr: u64,
    dest_addr: u64,
    signer: u64,
)
    requires
        lo.wf(),
        mint_token_outcome(lo, lf, r, mint_addr, dest_addr, signer, 0),
        mint_records_valid(lo, mint_addr, dest_addr),
        signer == mint_at(lo.mints@, mint_addr).authority,
    ensures
        r == Ok::<(), TokenError>(()),
        lf.mints@ == lo.mints@,
        lf.accounts@ == lo.accounts@,
{
    let mi = mint_index_of(lo.mints@, mint_addr);
    let ai = account_index_of(lo.accounts@, dest_addr);
    let m = lo.mints@[mi];
    let d = lo.accounts@[ai];
    assert(lf.mints@ == lo.mints@.update(
        mi,
        MintRecord {
            addr: m.addr,
            authority: m.authority,
            decimals: m.decimals,
            total_supply: (m.total_supply + 0) as u64,
        },
    ));
    assert_seqs_equal!(lo.mints@.update(mi, m) == lo.mints@);
    assert_seqs_equal!(lo.accounts@.update(ai, d) == lo.accounts@);
}

/// Minting moves `total_supply` and one balance only: every mint keeps
/// its address, authority and decimals, and every account keeps its
/// address, mint and owner, whatever the call's result.
pub proof fn lemma_mint_keeps_record_identity(
    lo: Ledger,
    lf: Ledger,
    r: Result<(), TokenError>,
    mint_addr: u64,
    dest_addr: u64,
    signer: u64,
    amount: u64,
)
    requires
        lo.wf(),
        mint_token_outcome(lo, lf, r, mint_addr, dest_addr, signer, amount),
    ensures
        lf.mints@.len() == lo.mints@.len(),
        lf.accounts@.len() == lo.accounts@.len(),
        forall|k: int|
            0 <= k < lo.mints@.len() ==> (#[trigger] lf.mints@[k]).addr == lo.mints@[k].addr
                && lf.mints@[k].authority == lo.mints@[k].authority && lf.mints@[k].decimals
                == lo.mints@[k].decimals,
        forall|k: int|
            0 <= k < lo.accounts@.len() ==> (#[trigger] lf.accounts@[k]).addr
                == lo.accounts@[k].addr && lf.accounts@[k].mint == lo.accounts@[k].mint
                && lf.accounts@[k].owner == lo.accounts@[k].owner,
{
}

/// Burning moves `total_supply` and one balance only: every mint keeps
/// its address, authority and decimals, and every account keeps its
/// address, mint and owner, whatever the call's result.
pub proof fn lemma_burn_keeps_record_identity(
    lo: Ledger,
    lf: Ledger,
    r: Result<(), TokenError>,
    mint_addr: u64,
    src_addr: u64,
    signer: u64,
    amount: u64,
)
    requires
        lo.wf(),
        burn_token_outcome(lo, lf, r, mint_addr, src_addr, signer, amount),
    ensures
        lf.mints@.len() == lo.mints@.len(),
        lf.accounts@.len() == lo.accounts@.len(),
        forall|k: int|
            0 <= k < lo.mints@.len() ==> (#[trigger] lf.mints@[k]).addr == lo.mints@[k].addr
                && lf.mints@[k].authority == lo.mints@[k].authority && lf.mints@[k].decimals
                == lo.mints@[k].decimals,
        forall|k: int|
            0 <= k < lo.accounts@.len() ==> (#[trigger] lf.accounts@[k]).addr
                == lo.accounts@[k].addr && lf.accounts@[k].mint == lo.accounts@[k].mint
                && lf.accounts@[k].owner == lo.accounts@[k].owner,
{
}

/// Transferring moves two balances only: no mint record changes at all,
/// and every account keeps its address, mint and owner, whatever the
/// call's result.
pub proof fn lemma_transfer_keeps_record_identity(
    lo: Ledger,
    lf: Ledger,
    r: Result<(), TokenError>,
    src_addr: u64,
    dest_addr: u64,
    signer: u64,
    amount: u64,
)
    requires
        lo.wf(),
        transfer_token_outcome(lo, lf, r, src_addr, dest_addr, signer, amount),
    ensures
        lf.mints@ == lo.mints@,
        lf.accounts@.len() == lo.accounts@.len(),
        forall|k: int|
            0 <= k < lo.accounts@.len() ==> (#[trigger] lf.accounts@[k]).addr
                == lo.accounts@[k].addr && lf.accounts@[k].mint == lo.accounts@[k].mint
                && lf.accounts@[k].owner == lo.accounts@[k].owner,
{
}

/// A committed transfer conserves every mint's balance sum and touches no
/// mint record: total supply is preserved by construction.
pub proof fn lemma_transfer_conserves_sums(
    lo: Ledger,
    lf: Ledger,
    src_addr: u64,
    dest_addr: u64,
    signer: u64,
    amount: u64,
    mint: u64,
)
    requires
        lo.wf(),
        transfer_token_outcome(
            lo,
            lf,
            Ok::<(), TokenError>(()),
            src_addr,
            dest_addr,
            signer,
            amount,
        ),
    ensures
        lf.mints@ == lo.mints@,
        sum_balances(lf.accounts@, mint) == sum_balances(lo.accounts@, mint),
{
    if src_addr != dest_addr {
        let si = account_index_of(lo.accounts@, src_addr);
        let di = account_index_of(lo.accounts@, dest_addr);
        let s = lo.accounts@[si];
        let d = lo.accounts@[di];
        let new_s = AccountRecord {
            addr: s.addr,
            mint: s.mint,
            owner: s.owner,
            balance: (s.balance - amount) as u64,
        };
        let new_d = AccountRecord {
            addr: d.addr,
            mint: d.mint,
            owner: d.owner,
            balance: (d.balance + amount) as u64,
        };
        // The two balances together stay within their mint's total
        // supply, so the destination increment does not overflow.
        assert(has_mint(lo.mints@, s.mint));
        let w = mint_index_of(lo.mints@, s.mint);
        assert(lo.mints@[w].total_supply as int == sum_balances(lo.accounts@, s.mint));
        lemma_two_accounts_le_sum(lo.accounts@, si, di, s.mint);
        let mid = lo.accounts@.update(si, new_s);
        lemma_sum_update(lo.accounts@, si, new_s, mint);
        lemma_sum_update(mid, di, new_d, mint);
    }
}

} // verus!
