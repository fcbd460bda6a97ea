//! The token operations: create a mint, provision an account, mint, burn,
//! and transfer.
//!
//! Each operation is an all-or-nothing transition of the ledger: it either
//! commits its full effect or reports a typed error and changes nothing.
//! Each one preserves the ledger's global invariant `Ledger::wf`, so after
//! every committed operation each mint's total supply still equals the sum
//! of its accounts' balances.

use vstd::prelude::*;

use crate::state::{
    AccountRecord, Ledger, MintRecord, TokenError, DEFAULT_DECIMALS, account_at,
    account_index_of, find_account, find_mint, has_account, has_mint,
    lemma_account_index_unique, lemma_account_le_sum, lemma_mint_index_unique, lemma_sum_absent,
    lemma_sum_push, lemma_sum_update, lemma_two_accounts_le_sum, mint_at, mint_index_of,
    sum_balances,
};

verus! {

/// What `create_token` does: if a mint record already sits at `mint_addr`
/// the call fails with `AllocationError` and the ledger is unchanged;
/// otherwise a fresh mint with the default decimals, the given authority,
/// and zero supply is appended.
pub open spec fn create_token_outcome(
    lo: Ledger,
    lf: Ledger,
    r: Result<(), TokenError>,
    mint_addr: u64,
    authority: u64,
) -> bool {
    if has_mint(lo.mints@, mint_addr) {
        &&& r == Err::<(), TokenError>(TokenError::AllocationError)
        &&& lf.mints@ == lo.mints@
        &&& lf.accounts@ == lo.accounts@
    } else {
        &&& r == Ok::<(), TokenError>(())
        &&& lf.mints@ == lo.mints@.push(
            MintRecord {
                addr: mint_addr,
                authority: authority,
                decimals: DEFAULT_DECIMALS,
                total_supply: 0,
            },
        )
        &&& lf.accounts@ == lo.accounts@
    }
}

/// Provision a new mint record at `mint_addr`, controlled by `authority`,
/// with `DEFAULT_DECIMALS` decimals and zero total supply.
///
/// The display metadata (`name`, `symbol`, `uri`) is accepted but not
/// persisted: this minimal design keeps no metadata record, and the mint
/// record itself stores none of it.
#[allow(unused_variables)]
pub fn create_token(
    ledger: &mut Ledger,
    mint_addr: u64,
    authority: u64,
    name: String,
    symbol: String,
    uri: String,
) -> (r: Result<(), TokenError>)
    requires
        old(ledger).wf(),
    ensures
        final(ledger).wf(),
        create_token_outcome(*old(ledger), *final(ledger), r, mint_addr, authority),
{
    match find_mint(&ledger.mints, mint_addr) {
        Some(_) => {
            proof {
                assert(has_mint(ledger.mints@, mint_addr));
            }
            Err(TokenError::AllocationError)
        },
        None => {
            let ghost lo = *ledger;
            let rec = MintRecord {
                addr: mint_addr,
                authority: authority,
                decimals: DEFAULT_DECIMALS,
                total_supply: 0,
            };
            ledger.mints.push(rec);
            proof {
                let mints = ledger.mints@;
                let accounts = ledger.accounts@;
                let n = lo.mints@.len() as int;
                assert forall|i: int, j: int|
                    0 <= i < j < mints.len() implies mints[i].addr != mints[j].addr by {
                    if j < n {
                        assert(lo.mints@[i].addr != lo.mints@[j].addr);
                    } else {
                        assert(!has_mint(lo.mints@, mint_addr));
                        assert(lo.mints@[i].addr != mint_addr);
                    }
                }
                assert forall|k: int|
                    0 <= k < accounts.len() implies has_mint(
                    mints,
                    #[trigger] accounts[k].mint,
                ) by {
                    assert(has_mint(lo.mints@, accounts[k].mint));
                    let w = choose|w: int|
                        0 <= w < lo.mints@.len() && lo.mints@[w].addr == accounts[k].mint;
                    assert(mints[w].addr == accounts[k].mint);
                }
                assert forall|k: int|
                    0 <= k < mints.len() implies mints[k].total_supply as int == sum_balances(
                    accounts,
                    #[trigger] mints[k].addr,
                ) by {
                    if k < n {
                        assert(lo.mints@[k].total_supply as int == sum_balances(
                            accounts,
                            lo.mints@[k].addr,
                        ));
                    } else {
                        assert forall|a: int|
                            0 <= a < accounts.len() implies accounts[a].mint != mint_addr by {
                            if accounts[a].mint == mint_addr {
                                assert(has_mint(lo.mints@, mint_addr));
                            }
                        }
                        lemma_sum_absent(accounts, mint_addr);
                    }
                }
            }
            Ok(())
        },
    }
}

/// What `create_account` does: if an account record already sits at
/// `account_addr` the call fails with `AllocationError`; if the referenced
/// mint does not exist it fails with `InvalidRecordError`; otherwise a
/// fresh account with zero balance is appended. Failures change nothing.
pub open spec fn create_account_outcome(
    lo: Ledger,
    lf: Ledger,
    r: Result<(), TokenError>,
    account_addr: u64,
    mint_addr: u64,
    owner: u64,
) -> bool {
    if has_account(lo.accounts@, account_addr) {
        &&& r == Err::<(), TokenError>(TokenError::AllocationError)
        &&& lf.mints@ == lo.mints@
        &&& lf.accounts@ == lo.accounts@
    } else if !has_mint(lo.mints@, mint_addr) {
        &&& r == Err::<(), TokenError>(TokenError::InvalidRecordError)
        &&& lf.mints@ == lo.mints@
        &&& lf.accounts@ == lo.accounts@
    } else {
        &&& r == Ok::<(), TokenError>(())
        &&& lf.mints@ == lo.mints@
        &&& lf.accounts@ == lo.accounts@.push(
            AccountRecord { addr: account_addr, mint: mint_addr, owner: owner, balance: 0 },
        )
    }
}

/// Provision a new, empty token-account record at `account_addr` for
/// `owner`, holding the token of the mint at `mint_addr`.
///
/// In the full system the external registry provisions such records
/// implicitly before first use; this models that step explicitly so that
/// every record the operations touch is part of the ledger.
pub fn create_account(ledger: &mut Ledger, account_addr: u64, mint_addr: u64, owner: u64) -> (r:
    Result<(), TokenError>)
    requires
        old(ledger).wf(),
    ensures
        final(ledger).wf(),
        create_account_outcome(*old(ledger), *final(ledger), r, account_addr, mint_addr, owner),
{
    match find_account(&ledger.accounts, account_addr) {
        Some(_) => {
            proof {
                assert(has_account(ledger.accounts@, account_addr));
            }
            Err(TokenError::AllocationError)
        },
        None => {
            match find_mint(&ledger.mints, mint_addr) {
                None => Err(TokenError::InvalidRecordError),
                Some(mi) => {
                    proof {
                        assert(has_mint(ledger.mints@, mint_addr));
                    }
                    let ghost lo = *ledger;
                    let rec = AccountRecord {
                        addr: account_addr,
                        mint: mint_addr,
                        owner: owner,
                        balance: 0,
                    };
                    ledger.accounts.push(rec);
                    proof {
                        let mints = ledger.mints@;
                        let accounts = ledger.accounts@;
                        let n = lo.accounts@.len() as int;
                        assert forall|i: int, j: int|
                            0 <= i < j < accounts.len() implies accounts[i].addr
                            != accounts[j].addr by {
                            if j < n {
                                assert(lo.accounts@[i].addr != lo.accounts@[j].addr);
                            } else {
                                assert(!has_account(lo.accounts@, account_addr));
                                assert(lo.accounts@[i].addr != account_addr);
                            }
                        }
                        assert forall|k: int|
                            0 <= k < accounts.len() implies has_mint(
                            mints,
                            #[trigger] accounts[k].mint,
                        ) by {
                            if k < n {
                                assert(has_mint(lo.mints@, lo.accounts@[k].mint));
                            } else {
                                assert(mints[mi as int].addr == mint_addr);
                            }
                        }
                        assert forall|k: int|
                            0 <= k < mints.len() implies mints[k].total_supply as int
                            == sum_balances(accounts, #[trigger] mints[k].addr) by {
                            lemma_sum_push(lo.accounts@, rec, mints[k].addr);
                        }
                    }
                    Ok(())
                },
            }
        },
    }
}

/// The records `mint_token` touches are in place: the mint exists, the
/// destination account exists, and the destination belongs to that mint.
pub open spec fn mint_records_valid(lo: Ledger, mint_addr: u64, dest_addr: u64) -> bool {
    &&& has_mint(lo.mints@, mint_addr)
    &&& has_account(lo.accounts@, dest_addr)
    &&& account_at(lo.accounts@, dest_addr).mint == mint_addr
}

/// What `mint_token` does: with the records in place, a signer equal to
/// the mint's authority, and no supply overflow, it adds `amount` to the
/// destination balance and to the total supply; otherwise it reports the
/// matching error and changes nothing.
pub open spec fn mint_token_outcome(
    lo: Ledger,
    lf: Ledger,
    r: Result<(), TokenError>,
    mint_addr: u64,
    dest_addr: u64,
    signer: u64,
    amount: u64,
) -> bool {
    let m = mint_at(lo.mints@, mint_addr);
    let d = account_at(lo.accounts@, dest_addr);
    if !mint_records_valid(lo, mint_addr, dest_addr) {
        &&& r == Err::<(), TokenError>(TokenError::InvalidRecordError)
        &&& lf.mints@ == lo.mints@
        &&& lf.accounts@ == lo.accounts@
    } else if signer != m.authority {
        &&& r == Err::<(), TokenError>(TokenError::AuthorizationError)
        &&& lf.mints@ == lo.mints@
        &&& lf.accounts@ == lo.accounts@
    } else if m.total_supply + amount > u64::MAX {
        &&& r == Err::<(), TokenError>(TokenError::ArithmeticOverflowError)
        &&& lf.mints@ == lo.mints@
        &&& lf.accounts@ == lo.accounts@
    } else {
        &&& r == Ok::<(), TokenError>(())
        &&& lf.mints@ == lo.mints@.update(
            mint_index_of(lo.mints@, mint_addr),
            MintRecord {
                addr: m.addr,
                authority: m.authority,
                decimals: m.decimals,
                total_supply: (m.total_supply + amount) as u64,
            },
        )
        &&& lf.accounts@ == lo.accounts@.update(
            account_index_of(lo.accounts@, dest_addr),
            AccountRecord {
                addr: d.addr,
                mint: d.mint,
                owner: d.owner,
                balance: (d.balance + amount) as u64,
            },
        )
    }
}

/// Mint `amount` new units of the mint at `mint_addr` into the account at
/// `dest_addr`. Only a signer equal to the mint's authority may do so.
/// A zero amount is a permitted no-op that still reports success.
pub fn mint_token(ledger: &mut Ledger, mint_addr: u64, dest_addr: u64, signer: u64, amount: u64)
    -> (r: Result<(), TokenError>)
    requires
        old(ledger).wf(),
    ensures
        final(ledger).wf(),
        mint_token_outcome(
            *old(ledger),
            *final(ledger),
            r,
            mint_addr,
            dest_addr,
            signer,
            amount,
        ),
{
    let mi = match find_mint(&ledger.mints, mint_addr) {
        Some(i) => i,
        None => {
            return Err(TokenError::InvalidRecordError);
        },
    };
    let ai = match find_account(&ledger.accounts, dest_addr) {
        Some(i) => i,
        None => {
            return Err(TokenError::InvalidRecordError);
        },
    };
    proof {
        lemma_mint_index_unique(ledger.mints@, mi as int, mint_addr);
        lemma_account_index_unique(ledger.accounts@, ai as int, dest_addr);
    }
    let m = ledger.mints[mi];
    let d = ledger.accounts[ai];
    if d.mint != mint_addr {
        return Err(TokenError::InvalidRecordError);
    }
    if signer != m.authority {
        return Err(TokenError::AuthorizationError);
    }
    if amount > u64::MAX - m.total_supply {
        return Err(TokenError::ArithmeticOverflowError);
    }
    proof {
        // The destination balance is at most the total supply, so it
        // cannot overflow once the supply is known not to.
        assert(m.total_supply as int == sum_balances(ledger.accounts@, mint_addr));
        lemma_account_le_sum(ledger.accounts@, ai as int, mint_addr);
    }
    let ghost lo = *ledger;
    let new_m = MintRecord {
        addr: m.addr,
        authority: m.authority,
        decimals: m.decimals,
        total_supply: m.total_supply + amount,
    };
    let new_d = AccountRecord {
        addr: d.addr,
        mint: d.mint,
        owner: d.owner,
        balance: d.balance + amount,
    };
    ledger.mints[mi] = new_m;
    ledger.accounts[ai] = new_d;
    proof {
        lemma_moved_balance_wf(lo, *ledger, mi as int, ai as int, new_m, new_d);
    }
    Ok(())
}

/// The two updated ledgers that `mint_token` and `burn_token` produce
/// stay well formed: record addresses, owners and mint references are
/// unchanged, and the one mint whose supply moved moved it by exactly the
/// balance shift of the one account that changed.
proof fn lemma_moved_balance_wf(
    lo: Ledger,
    lf: Ledger,
    mi: int,
    ai: int,
    new_m: MintRecord,
    new_d: AccountRecord,
)
    requires
        lo.wf(),
        0 <= mi < lo.mints@.len(),
        0 <= ai < lo.accounts@.len(),
        new_m.addr == lo.mints@[mi].addr,
        new_d.addr == lo.accounts@[ai].addr,
        new_d.mint == lo.accounts@[ai].mint,
        new_d.mint == new_m.addr,
        new_m.total_supply as int == lo.mints@[mi].total_supply + new_d.balance
            - lo.accounts@[ai].balance,
        lf.mints@ == lo.mints@.update(mi, new_m),
        lf.accounts@ == lo.accounts@.update(ai, new_d),
    ensures
        lf.wf(),
{
    let mints = lf.mints@;
    let accounts = lf.accounts@;
    assert forall|i: int, j: int|
        0 <= i < j < mints.len() implies mints[i].addr != mints[j].addr by {
        assert(lo.mints@[i].addr != lo.mints@[j].addr);
    }
    assert forall|i: int, j: int|
        0 <= i < j < accounts.len() implies accounts[i].addr != accounts[j].addr by {
        assert(lo.accounts@[i].addr != lo.accounts@[j].addr);
    }
    assert forall|k: int|
        0 <= k < accounts.len() implies has_mint(mints, #[trigger] accounts[k].mint) by {
        assert(has_mint(lo.mints@, lo.accounts@[k].mint));
        let w = choose|w: int|
            0 <= w < lo.mints@.len() && lo.mints@[w].addr == lo.accounts@[k].mint;
        assert(mints[w].addr == accounts[k].mint);
    }
    assert forall|k: int|
        0 <= k < mints.len() implies mints[k].total_supply as int == sum_balances(
        accounts,
        #[trigger] mints[k].addr,
    ) by {
        lemma_sum_update(lo.accounts@, ai, new_d, mints[k].addr);
        assert(lo.mints@[k].total_supply as int == sum_balances(lo.accounts@, lo.mints@[k].addr));
        if k != mi {
            if k < mi {
                assert(lo.mints@[k].addr != lo.mints@[mi].addr);
            } else {
                assert(lo.mints@[mi].addr != lo.mints@[k].addr);
            }
        }
    }
}

/// The records `burn_token` touches are in place: the mint exists, the
/// source account exists, and the source belongs to that mint.
pub open spec fn burn_records_valid(lo: Ledger, mint_addr: u64, src_addr: u64) -> bool {
    &&& has_mint(lo.mints@, mint_addr)
    &&& has_account(lo.accounts@, src_addr)
    &&& account_at(lo.accounts@, src_addr).mint == mint_addr
}

/// What `burn_token` does: with the records in place, a signer equal to
/// the account's owner, and a sufficient balance, it subtracts `amount`
/// from the source balance and from the total supply; otherwise it
/// reports the matching error and changes nothing.
pub open spec fn burn_token_outcome(
    lo: Ledger,
    lf: Ledger,
    r: Result<(), TokenError>,
    mint_addr: u64,
    src_addr: u64,
    signer: u64,
    amount: u64,
) -> bool {
    let m = mint_at(lo.mints@, mint_addr);
    let s = account_at(lo.accounts@, src_addr);
    if !burn_records_valid(lo, mint_addr, src_addr) {
        &&& r == Err::<(), TokenError>(TokenError::InvalidRecordError)
        &&& lf.mints@ == lo.mints@
        &&& lf.accounts@ == lo.accounts@
    } else if signer != s.owner {
        &&& r == Err::<(), TokenError>(TokenError::AuthorizationError)
        &&& lf.mints@ == lo.mints@
        &&& lf.accounts@ == lo.accounts@
    } else if s.balance < amount {
        &&& r == Err::<(), TokenError>(TokenError::InsufficientBalanceError)
        &&& lf.mints@ == lo.mints@
        &&& lf.accounts@ == lo.accounts@
    } else {
        &&& r == Ok::<(), TokenError>(())
        &&& lf.mints@ == lo.mints@.update(
            mint_index_of(lo.mints@, mint_addr),
            MintRecord {
                addr: m.addr,
                authority: m.authority,
                decimals: m.decimals,
                total_supply: (m.total_supply - amount) as u64,
            },
        )
        &&& lf.accounts@ == lo.accounts@.update(
            account_index_of(lo.accounts@, src_addr),
            AccountRecord {
                addr: s.addr,
                mint: s.mint,
                owner: s.owner,
                balance: (s.balance - amount) as u64,
            },
        )
    }
}

/// Burn `amount` units held by the account at `src_addr`, shrinking the
/// total supply of the mint at `mint_addr` by the same amount. Burning is
/// a holder right: the signer must equal the account's owner, not the
/// mint's authority.
pub fn burn_token(ledger: &mut Ledger, mint_addr: u64, src_addr: u64, signer: u64, amount: u64)
    -> (r: Result<(), TokenError>)
    requires
        old(ledger).wf(),
    ensures
        final(ledger).wf(),
        burn_token_outcome(*old(ledger), *final(ledger), r, mint_addr, src_addr, signer, amount),
{
    let mi = match find_mint(&ledger.mints, mint_addr) {
        Some(i) => i,
        None => {
            return Err(TokenError::InvalidRecordError);
        },
    };
    let ai = match find_account(&ledger.accounts, src_addr) {
        Some(i) => i,
        None => {
            return Err(TokenError::InvalidRecordError);
        },
    };
    proof {
        lemma_mint_index_unique(ledger.mints@, mi as int, mint_addr);
        lemma_account_index_unique(ledger.accounts@, ai as int, src_addr);
    }
    let m = ledger.mints[mi];
    let s = ledger.accounts[ai];
    if s.mint != mint_addr {
        return Err(TokenError::InvalidRecordError);
    }
    if signer != s.owner {
        return Err(TokenError::AuthorizationError);
    }
    if s.balance < amount {
        return Err(TokenError::InsufficientBalanceError);
    }
    proof {
        // The source balance is at most the total supply, so the supply
        // cannot underflow when a covered amount is burned.
        assert(m.total_supply as int == sum_balances(ledger.accounts@, mint_addr));
        lemma_account_le_sum(ledger.accounts@, ai as int, mint_addr);
    }
    let ghost lo = *ledger;
    let new_m = MintRecord {
        addr: m.addr,
        authority: m.authority,
        decimals: m.decimals,
        total_supply: m.total_supply - amount,
    };
    let new_s = AccountRecord {
        addr: s.addr,
        mint: s.mint,
        owner: s.owner,
        balance: s.balance - amount,
    };
    ledger.mints[mi] = new_m;
    ledger.accounts[ai] = new_s;
    proof {
        lemma_moved_balance_wf(lo, *ledger, mi as int, ai as int, new_m, new_s);
    }
    Ok(())
}

/// The records `transfer_token` touches are in place: both accounts exist
/// and belong to one and the same mint.
pub open spec fn transfer_records_valid(lo: Ledger, src_addr: u64, dest_addr: u64) -> bool {
    &&& has_account(lo.accounts@, src_addr)
    &&& has_account(lo.accounts@, dest_addr)
    &&& account_at(lo.accounts@, src_addr).mint == account_at(lo.accounts@, dest_addr).mint
}

/// What `transfer_token` does: with both accounts in place under one
/// mint, a signer equal to the source's owner, and a sufficient source
/// balance, it moves `amount` from source to destination and leaves every
/// mint's total supply untouched. A transfer from an account to itself is
/// a permitted balanced no-op. Otherwise it reports the matching error
/// and changes nothing.
pub open spec fn transfer_token_outcome(
    lo: Ledger,
    lf: Ledger,
    r: Result<(), TokenError>,
    src_addr: u64,
    dest_addr: u64,
    signer: u64,
    amount: u64,
) -> bool {
    let s = account_at(lo.accounts@, src_addr);
    let d = account_at(lo.accounts@, dest_addr);
    if !transfer_records_valid(lo, src_addr, dest_addr) {
        &&& r == Err::<(), TokenError>(TokenError::InvalidRecordError)
        &&& lf.mints@ == lo.mints@
        &&& lf.accounts@ == lo.accounts@
    } else if signer != s.owner {
        &&& r == Err::<(), TokenError>(TokenError::AuthorizationError)
        &&& lf.mints@ == lo.mints@
        &&& lf.accounts@ == lo.accounts@
    } else if s.balance < amount {
        &&& r == Err::<(), TokenError>(TokenError::InsufficientBalanceError)
        &&& lf.mints@ == lo.mints@
        &&& lf.accounts@ == lo.accounts@
    } else if src_addr == dest_addr {
        &&& r == Ok::<(), TokenError>(())
        &&& lf.mints@ == lo.mints@
        &&& lf.accounts@ == lo.accounts@
    } else {
        &&& r == Ok::<(), TokenError>(())
        &&& lf.mints@ == lo.mints@
        &&& lf.accounts@ == lo.accounts@.update(
            account_index_of(lo.accounts@, src_addr),
            AccountRecord {
                addr: s.addr,
                mint: s.mint,
                owner: s.owner,
                balance: (s.balance - amount) as u64,
            },
        ).update(
            account_index_of(lo.accounts@, dest_addr),
            AccountRecord {
                addr: d.addr,
                mint: d.mint,
                owner: d.owner,
                balance: (d.balance + amount) as u64,
            },
        )
    }
}

/// Move `amount` units from the account at `src_addr` to the account at
/// `dest_addr`, both of one mint. The signer must equal the source's
/// owner. No mint's total supply changes.
pub fn transfer_token(
    ledger: &mut Ledger,
    src_addr: u64,
    dest_addr: u64,
    signer: u64,
    amount: u64,
) -> (r: Result<(), TokenError>)
    requires
        old(ledger).wf(),
    ensures
        final(ledger).wf(),
        transfer_token_outcome(
            *old(ledger),
            *final(ledger),
            r,
            src_addr,
            dest_addr,
            signer,
            amount,
        ),
{
    let si = match find_account(&ledger.accounts, src_addr) {
        Some(i) => i,
        None => {
            return Err(TokenError::InvalidRecordError);
        },
    };
    let di = match find_account(&ledger.accounts, dest_addr) {
        Some(i) => i,
        None => {
            return Err(TokenError::InvalidRecordError);
        },
    };
    proof {
        lemma_account_index_unique(ledger.accounts@, si as int, src_addr);
        lemma_account_index_unique(ledger.accounts@, di as int, dest_addr);
    }
    let s = ledger.accounts[si];
    let d = ledger.accounts[di];
    if s.mint != d.mint {
        return Err(TokenError::InvalidRecordError);
    }
    if signer != s.owner {
        return Err(TokenError::AuthorizationError);
    }
    if s.balance < amount {
        return Err(TokenError::InsufficientBalanceError);
    }
    if src_addr == dest_addr {
        return Ok(());
    }
    proof {
        // Source and destination balances together stay within the total
        // supply of their shared mint, so the destination cannot overflow.
        assert(has_mint(ledger.mints@, s.mint));
        let w = choose|w: int|
            0 <= w < ledger.mints@.len() && ledger.mints@[w].addr == s.mint;
        assert(ledger.mints@[w].total_supply as int == sum_balances(ledger.accounts@, s.mint));
        lemma_two_accounts_le_sum(ledger.accounts@, si as int, di as int, s.mint);
    }
    let ghost lo = *ledger;
    let new_s = AccountRecord {
        addr: s.addr,
        mint: s.mint,
        owner: s.owner,
        balance: s.balance - amount,
    };
    let new_d = AccountRecord {
        addr: d.addr,
        mint: d.mint,
        owner: d.owner,
        balance: d.balance + amount,
    };
    ledger.accounts[si] = new_s;
    ledger.accounts[di] = new_d;
    proof {
        let mints = ledger.mints@;
        let accounts = ledger.accounts@;
        let mid = lo.accounts@.update(si as int, new_s);
        assert forall|i: int, j: int|
            0 <= i < j < accounts.len() implies accounts[i].addr != accounts[j].addr by {
            assert(lo.accounts@[i].addr != lo.accounts@[j].addr);
        }
        assert forall|k: int|
            0 <= k < accounts.len() implies has_mint(mints, #[trigger] accounts[k].mint) by {
            assert(has_mint(lo.mints@, lo.accounts@[k].mint));
        }
        assert forall|k: int|
            0 <= k < mints.len() implies mints[k].total_supply as int == sum_balances(
            accounts,
            #[trigger] mints[k].addr,
        ) by {
            lemma_sum_update(lo.accounts@, si as int, new_s, mints[k].addr);
            lemma_sum_update(mid, di as int, new_d, mints[k].addr);
            assert(lo.mints@[k].total_supply as int == sum_balances(
                lo.accounts@,
                lo.mints@[k].addr,
            ));
        }
    }
    Ok(())
}

} // verus!
