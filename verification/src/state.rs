//! Ledger records and the global well-formedness invariant.

use vstd::prelude::*;

verus! {

/// Fixed-point display scale given to every mint created by this module.
pub const DEFAULT_DECIMALS: u8 = 9;

/// A mint record: one token type, its controlling authority, its display
/// scale, and the total outstanding supply.
#[derive(Clone, Copy, PartialEq, Eq, Structural, Debug)]
pub struct MintRecord {
    /// Address under which the registry stores this record.
    pub addr: u64,
    /// Identity permitted to mint new supply.
    pub authority: u64,
    /// Fixed-point display scale.
    pub decimals: u8,
    /// Sum of all outstanding balances of this mint.
    pub total_supply: u64,
}

/// A token-account record: one holder's balance of one mint.
#[derive(Clone, Copy, PartialEq, Eq, Structural, Debug)]
pub struct AccountRecord {
    /// Address under which the registry stores this record.
    pub addr: u64,
    /// Address of the mint this balance belongs to (non-owning reference).
    pub mint: u64,
    /// Identity permitted to move or burn this balance.
    pub owner: u64,
    /// Unsigned balance; can never go negative.
    pub balance: u64,
}

/// The typed errors an operation can report. Every failure leaves the
/// ledger exactly as it was.
#[derive(Clone, Copy, PartialEq, Eq, Structural, Debug)]
pub enum TokenError {
    /// The signer does not match the required authority or owner.
    AuthorizationError,
    /// A referenced record does not exist, or two records that must share
    /// a mint do not.
    InvalidRecordError,
    /// A burn or transfer amount exceeds the available balance.
    InsufficientBalanceError,
    /// Supply or balance would exceed the representable range.
    ArithmeticOverflowError,
    /// Creation of a record whose address already exists.
    AllocationError,
}

/// The key-addressed record store: all mint and token-account records.
/// Each operation is a function from (ledger, inputs) to (ledger, result).
pub struct Ledger {
    /// All mint records, with pairwise-distinct addresses.
    pub mints: Vec<MintRecord>,
    /// All token-account records, with pairwise-distinct addresses.
    pub accounts: Vec<AccountRecord>,
}

/// Sum of the balances of all accounts in `accounts` that reference `mint`.
pub open spec fn sum_balances(accounts: Seq<AccountRecord>, mint: u64) -> int
    decreases accounts.len(),
{
    if accounts.len() == 0 {
        0
    } else {
        sum_balances(accounts.drop_last(), mint) + if accounts.last().mint == mint {
            accounts.last().balance as int
        } else {
            0
        }
    }
}

/// Some mint record is stored at `addr`.
pub open spec fn has_mint(mints: Seq<MintRecord>, addr: u64) -> bool {
    exists|i: int| 0 <= i < mints.len() && mints[i].addr == addr
}

/// Some account record is stored at `addr`.
pub open spec fn has_account(accounts: Seq<AccountRecord>, addr: u64) -> bool {
    exists|i: int| 0 <= i < accounts.len() && accounts[i].addr == addr
}

/// Index of the mint record stored at `addr`; meaningful when `has_mint`
/// holds and addresses are distinct.
pub open spec fn mint_index_of(mints: Seq<MintRecord>, addr: u64) -> int {
    choose|i: int| 0 <= i < mints.len() && mints[i].addr == addr
}

/// Index of the account record stored at `addr`; meaningful when
/// `has_account` holds and addresses are distinct.
pub open spec fn account_index_of(accounts: Seq<AccountRecord>, addr: u64) -> int {
    choose|i: int| 0 <= i < accounts.len() && accounts[i].addr == addr
}

/// The mint record stored at `addr`.
pub open spec fn mint_at(mints: Seq<MintRecord>, addr: u64) -> MintRecord {
    mints[mint_index_of(mints, addr)]
}

/// The account record stored at `addr`.
pub open spec fn account_at(accounts: Seq<AccountRecord>, addr: u64) -> AccountRecord {
    accounts[account_index_of(accounts, addr)]
}

/// No two mint records share an address.
pub open spec fn distinct_mint_addrs(mints: Seq<MintRecord>) -> bool {
    forall|i: int, j: int|
        0 <= i < j < mints.len() ==> mints[i].addr != mints[j].addr
}

/// No two account records share an address.
pub open spec fn distinct_account_addrs(accounts: Seq<AccountRecord>) -> bool {
    forall|i: int, j: int|
        0 <= i < j < accounts.len() ==> accounts[i].addr != accounts[j].addr
}

/// Every mint's recorded total supply equals the sum of the balances of
/// the accounts that reference it.
pub open spec fn supply_consistent(mints: Seq<MintRecord>, accounts: Seq<AccountRecord>) -> bool {
    forall|i: int|
        0 <= i < mints.len() ==> mints[i].total_supply as int == sum_balances(
            accounts,
            #[trigger] mints[i].addr,
        )
}

/// Every account references a mint record that exists.
pub open spec fn accounts_backed(mints: Seq<MintRecord>, accounts: Seq<AccountRecord>) -> bool {
    forall|i: int|
        0 <= i < accounts.len() ==> has_mint(mints, #[trigger] accounts[i].mint)
}

/// The sum of balances over any set of accounts is nonnegative.
pub proof fn lemma_sum_nonneg(accounts: Seq<AccountRecord>, mint: u64)
    ensures
        sum_balances(accounts, mint) >= 0,
    decreases accounts.len(),
{
    if accounts.len() > 0 {
        lemma_sum_nonneg(accounts.drop_last(), mint);
    }
}

/// A mint no account references has a balance sum of zero.
pub proof fn lemma_sum_absent(accounts: Seq<AccountRecord>, mint: u64)
    requires
        forall|i: int| 0 <= i < accounts.len() ==> accounts[i].mint != mint,
    ensures
        sum_balances(accounts, mint) == 0,
    decreases accounts.len(),
{
    if accounts.len() > 0 {
        lemma_sum_absent(accounts.drop_last(), mint);
    }
}

/// Appending an account adds its balance to the sum of its own mint and
/// leaves the sum of every other mint unchanged.
pub proof fn lemma_sum_push(accounts: Seq<AccountRecord>, a: AccountRecord, mint: u64)
    ensures
        sum_balances(accounts.push(a), mint) == sum_balances(accounts, mint) + (if a.mint == mint {
            a.balance as int
        } else {
            0
        }),
{
    assert(accounts.push(a).drop_last() =~= accounts);
}

/// Replacing the account at index `i` shifts each mint's balance sum by
/// exactly the new contribution minus the old one.
pub proof fn lemma_sum_update(accounts: Seq<AccountRecord>, i: int, a: AccountRecord, mint: u64)
    requires
        0 <= i < accounts.len(),
    ensures
        sum_balances(accounts.update(i, a), mint) == sum_balances(accounts, mint) + (if a.mint
            == mint {
            a.balance as int
        } else {
            0
        }) - (if accounts[i].mint == mint {
            accounts[i].balance as int
        } else {
            0
        }),
    decreases accounts.len(),
{
    let u = accounts.update(i, a);
    if i == accounts.len() - 1 {
        assert(u.drop_last() =~= accounts.drop_last());
        assert(u.last() == a);
    } else {
        assert(u.drop_last() =~= accounts.drop_last().update(i, a));
        assert(u.last() == accounts.last());
        lemma_sum_update(accounts.drop_last(), i, a, mint);
    }
}

/// One account's balance never exceeds the balance sum of its mint.
pub proof fn lemma_account_le_sum(accounts: Seq<AccountRecord>, i: int, mint: u64)
    requires
        0 <= i < accounts.len(),
        accounts[i].mint == mint,
    ensures
        accounts[i].balance as int <= sum_balances(accounts, mint),
    decreases accounts.len(),
{
    lemma_sum_nonneg(accounts.drop_last(), mint);
    if i < accounts.len() - 1 {
        lemma_account_le_sum(accounts.drop_last(), i, mint);
    }
}

/// Two distinct accounts of one mint together never exceed that mint's
/// balance sum.
pub proof fn lemma_two_accounts_le_sum(accounts: Seq<AccountRecord>, i: int, j: int, mint: u64)
    requires
        0 <= i < accounts.len(),
        0 <= j < accounts.len(),
        i != j,
        accounts[i].mint == mint,
        accounts[j].mint == mint,
    ensures
        accounts[i].balance as int + accounts[j].balance as int <= sum_balances(accounts, mint),
    decreases accounts.len(),
{
    if i == accounts.len() - 1 {
        lemma_account_le_sum(accounts.drop_last(), j, mint);
    } else if j == accounts.len() - 1 {
        lemma_account_le_sum(accounts.drop_last(), i, mint);
    } else {
        lemma_two_accounts_le_sum(accounts.drop_last(), i, j, mint);
    }
}

/// With distinct mint addresses, any index whose record carries `addr` is
/// the one `mint_index_of` denotes.
pub proof fn lemma_mint_index_unique(mints: Seq<MintRecord>, i: int, addr: u64)
    requires
        distinct_mint_addrs(mints),
        0 <= i < mints.len(),
        mints[i].addr == addr,
    ensures
        has_mint(mints, addr),
        mint_index_of(mints, addr) == i,
        mint_at(mints, addr) == mints[i],
{
    assert(has_mint(mints, addr));
    let k = mint_index_of(mints, addr);
    if k < i {
        assert(mints[k].addr != mints[i].addr);
    } else if i < k {
        assert(mints[i].addr != mints[k].addr);
    }
}

/// With distinct account addresses, any index whose record carries `addr`
/// is the one `account_index_of` denotes.
pub proof fn lemma_account_index_unique(accounts: Seq<AccountRecord>, i: int, addr: u64)
    requires
        distinct_account_addrs(accounts),
        0 <= i < accounts.len(),
        accounts[i].addr == addr,
    ensures
        has_account(accounts, addr),
        account_index_of(accounts, addr) == i,
        account_at(accounts, addr) == accounts[i],
{
    assert(has_account(accounts, addr));
    let k = account_index_of(accounts, addr);
    if k < i {
        assert(accounts[k].addr != accounts[i].addr);
    } else if i < k {
        assert(accounts[i].addr != accounts[k].addr);
    }
}

/// Position of the mint record stored at `addr`, if any.
pub(crate) fn find_mint(mints: &Vec<MintRecord>, addr: u64) -> (r: Option<usize>)
    ensures
        match r {
            Some(i) => i < mints@.len() && mints@[i as int].addr == addr,
            None => !has_mint(mints@, addr),
        },
{
    let mut i: usize = 0;
    while i < mints.len()
        invariant
            i <= mints@.len(),
            forall|j: int| 0 <= j < i ==> mints@[j].addr != addr,
        decreases mints@.len() - i,
    {
        if mints[i].addr == addr {
            return Some(i);
        }
        i = i + 1;
    }
    None
}

/// Position of the account record stored at `addr`, if any.
pub(crate) fn find_account(accounts: &Vec<AccountRecord>, addr: u64) -> (r: Option<usize>)
    ensures
        match r {
            Some(i) => i < accounts@.len() && accounts@[i as int].addr == addr,
            None => !has_account(accounts@, addr),
        },
{
    let mut i: usize = 0;
    while i < accounts.len()
        invariant
            i <= accounts@.len(),
            forall|j: int| 0 <= j < i ==> accounts@[j].addr != addr,
        decreases accounts@.len() - i,
    {
        if accounts[i].addr == addr {
            return Some(i);
        }
        i = i + 1;
    }
    None
}

impl Ledger {
    /// The global invariant: distinct record addresses, every account
    /// backed by an existing mint, and every mint's total supply equal to
    /// the sum of its accounts' balances.
    pub open spec fn wf(self) -> bool {
        &&& distinct_mint_addrs(self.mints@)
        &&& distinct_account_addrs(self.accounts@)
        &&& accounts_backed(self.mints@, self.accounts@)
        &&& supply_consistent(self.mints@, self.accounts@)
    }

    /// An empty ledger: no mints, no accounts.
    pub fn new() -> (l: Ledger)
        ensures
            l.wf(),
            l.mints@ == Seq::<MintRecord>::empty(),
            l.accounts@ == Seq::<AccountRecord>::empty(),
    {
        Ledger { mints: Vec::new(), accounts: Vec::new() }
    }

    /// The mint record stored at `addr`, if one exists.
    pub fn mint_record(&self, addr: u64) -> (r: Option<MintRecord>)
        requires
            self.wf(),
        ensures
            r == if has_mint(self.mints@, addr) {
                Some(mint_at(self.mints@, addr))
            } else {
                None::<MintRecord>
            },
    {
        match find_mint(&self.mints, addr) {
            Some(i) => {
                proof {
                    lemma_mint_index_unique(self.mints@, i as int, addr);
                }
                Some(self.mints[i])
            },
            None => None,
        }
    }

    /// The account record stored at `addr`, if one exists.
    pub fn account_record(&self, addr: u64) -> (r: Option<AccountRecord>)
        requires
            self.wf(),
        ensures
            r == if has_account(self.accounts@, addr) {
                Some(account_at(self.accounts@, addr))
            } else {
                None::<AccountRecord>
            },
    {
        match find_account(&self.accounts, addr) {
            Some(i) => {
                proof {
                    lemma_account_index_unique(self.accounts@, i as int, addr);
                }
                Some(self.accounts[i])
            },
            None => None,
        }
    }

    /// The balance of the account stored at `addr`, if one exists.
    pub fn balance_of(&self, addr: u64) -> (r: Option<u64>)
        requires
            self.wf(),
        ensures
            r == if has_account(self.accounts@, addr) {
                Some(account_at(self.accounts@, addr).balance)
            } else {
                None::<u64>
            },
    {
        match self.account_record(addr) {
            Some(a) => Some(a.balance),
            None => None,
        }
    }

    /// The total supply of the mint stored at `addr`, if one exists.
    pub fn supply_of(&self, addr: u64) -> (r: Option<u64>)
        requires
            self.wf(),
        ensures
            r == if has_mint(self.mints@, addr) {
                Some(mint_at(self.mints@, addr).total_supply)
            } else {
                None::<u64>
            },
    {
        match self.mint_record(addr) {
            Some(m) => Some(m.total_supply),
            None => None,
        }
    }
}

} // verus!
