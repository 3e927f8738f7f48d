//! What the chain asks of a ledger, and a ledger of plain accounts.

use vstd::prelude::*;

use crate::block::{Transaction, TxModel};
use crate::hash::hash_eq;
use crate::params::TaronError;

verus! {

/// A ledger that follows a chain. Each operation is a function of the ledger's
/// state and of what it is handed.
pub trait ChainLedger: Sized {
    /// The ledger's state, as mathematics.
    type Model;

    spec fn model(&self) -> Self::Model;

    /// The state once a miner has received a reward.
    spec fn credited(state: Self::Model, miner: [u8; 32], reward: u64) -> Self::Model;

    /// The state once a miner's reward has been taken back.
    spec fn uncredited(state: Self::Model, miner: [u8; 32], reward: u64) -> Self::Model;

    /// The state once an account has been marked as active.
    spec fn touched(state: Self::Model, account: [u8; 32], at: u64) -> Self::Model;

    /// The state after a transaction, and whether it was carried out.
    spec fn paid(state: Self::Model, tx: TxModel) -> (Self::Model, bool);

    /// Why a transaction is not carried out, if it is not.
    spec fn refusal(state: Self::Model, tx: TxModel) -> TaronError;

    /// As `paid`, whatever the sequence number of the transaction.
    spec fn paid_ibd(state: Self::Model, tx: TxModel) -> (Self::Model, bool);

    /// The state once a transaction has been undone.
    spec fn unpaid(state: Self::Model, tx: TxModel) -> Self::Model;

    /// Number of accounts.
    spec fn accounts(state: Self::Model) -> int;

    /// Sum of all rewards that were paid out and not taken back.
    spec fn supply(state: Self::Model) -> u64;

    fn apply_coinbase(&mut self, miner: &[u8; 32], reward: u64)
        ensures
            final(self).model() == Self::credited(old(self).model(), *miner, reward),
    ;

    fn revert_coinbase(&mut self, miner: &[u8; 32], reward: u64)
        ensures
            final(self).model() == Self::uncredited(old(self).model(), *miner, reward),
    ;

    fn touch_account(&mut self, account: &[u8; 32], at: u64)
        ensures
            final(self).model() == Self::touched(old(self).model(), *account, at),
    ;

    fn apply_tx(&mut self, tx: &Transaction) -> (outcome: Result<(), TaronError>)
        ensures
            (final(self).model(), outcome is Ok) == Self::paid(old(self).model(), tx@),
            outcome is Err ==> outcome == Err::<(), _>(Self::refusal(old(self).model(), tx@)),
    ;

    fn apply_tx_ibd(&mut self, tx: &Transaction) -> (outcome: Result<(), TaronError>)
        ensures
            (final(self).model(), outcome is Ok) == Self::paid_ibd(old(self).model(), tx@),
    ;

    fn revert_tx(&mut self, tx: &Transaction)
        ensures
            final(self).model() == Self::unpaid(old(self).model(), tx@),
    ;

    /// A ledger of its own in the same state.
    fn duplicate(&self) -> (copy: Self)
        ensures
            copy.model() == self.model(),
    ;

    fn account_count(&self) -> (count: usize)
        ensures
            count == Self::accounts(self.model()),
    ;

    fn total_supply(&self) -> (supply: u64)
        ensures
            supply == Self::supply(self.model()),
    ;
}

/// The state after the first `n` of a list of transactions, and whether all of
/// them were carried out. Nothing is carried out after one that was not.
pub open spec fn after_txs<L: ChainLedger>(
    state: L::Model,
    txs: Seq<TxModel>,
    n: int,
    ibd: bool,
) -> (L::Model, bool)
    decreases n,
{
    if n <= 0 {
        (state, true)
    } else {
        let (before, ok) = after_txs::<L>(state, txs, n - 1, ibd);
        if !ok {
            (before, false)
        } else if ibd {
            L::paid_ibd(before, txs[n - 1])
        } else {
            L::paid(before, txs[n - 1])
        }
    }
}

/// A transaction that was not carried out ends the list.
pub(crate) proof fn lemma_failed_tx_ends_list<L: ChainLedger>(
    state: L::Model,
    txs: Seq<TxModel>,
    k: int,
    n: int,
    ibd: bool,
)
    requires
        0 <= k <= n,
        !after_txs::<L>(state, txs, k, ibd).1,
    ensures
        after_txs::<L>(state, txs, n, ibd) == after_txs::<L>(state, txs, k, ibd),
    decreases n - k,
{
    if k < n {
        lemma_failed_tx_ends_list::<L>(state, txs, k, n - 1, ibd);
    }
}

/// The state once the first `n` of a list of transactions have been undone, the
/// last of them first.
pub open spec fn without_txs<L: ChainLedger>(
    state: L::Model,
    txs: Seq<TxModel>,
    n: int,
) -> L::Model
    decreases n,
{
    if n <= 0 {
        state
    } else {
        without_txs::<L>(L::unpaid(state, txs[n - 1]), txs, n - 1)
    }
}

/// One account of a [`Ledger`].
#[derive(Debug, Clone, Copy, PartialEq, Eq)]
pub struct Account {
    pub key: [u8; 32],
    pub balance: u64,
    pub sequence: u64,
    pub last_active: u64,
}

/// A ledger of plain accounts.
#[derive(Debug, PartialEq, Eq)]
pub struct Ledger {
    entries: Vec<Account>,
    supply: u64,
}

/// The mathematical content of a [`Ledger`].
#[verifier::ext_equal]
pub struct LedgerModel {
    pub entries: Seq<Account>,
    pub supply: u64,
}

impl LedgerModel {
    /// The first entry at `from` or later that belongs to an account; the number
    /// of entries where there is none.
    pub open spec fn slot(self, key: [u8; 32], from: int) -> int
        decreases self.entries.len() - from,
    {
        if from >= self.entries.len() || from < 0 {
            self.entries.len() as int
        } else if self.entries[from].key == key {
            from
        } else {
            self.slot(key, from + 1)
        }
    }

    /// An account; one without an entry is empty.
    pub open spec fn account(self, key: [u8; 32]) -> Account {
        let i = self.slot(key, 0);
        if i < self.entries.len() {
            self.entries[i]
        } else {
            Account { key, balance: 0, sequence: 0, last_active: 0 }
        }
    }

    /// The ledger with an account replaced or added.
    pub open spec fn with(self, account: Account) -> LedgerModel {
        let i = self.slot(account.key, 0);
        LedgerModel {
            entries: if i < self.entries.len() {
                self.entries.update(i, account)
            } else {
                self.entries.push(account)
            },
            supply: self.supply,
        }
    }

    /// The ledger after a transfer, and whether it took place: the sender must
    /// hold the amount and the recipient must be able to take it.
    pub open spec fn moved(self, tx: TxModel) -> (LedgerModel, bool) {
        let sender = self.account(tx.sender);
        let debited = self.with(
            Account {
                balance: (sender.balance - tx.amount) as u64,
                sequence: tx.sequence,
                ..sender
            },
        );
        let recipient = debited.account(tx.recipient);
        if sender.balance < tx.amount || recipient.balance + tx.amount > u64::MAX {
            (self, false)
        } else {
            (
                debited.with(
                    Account { balance: (recipient.balance + tx.amount) as u64, ..recipient },
                ),
                true,
            )
        }
    }
}

pub(crate) proof fn lemma_slot(ledger: LedgerModel, key: [u8; 32], from: int)
    requires
        0 <= from,
    ensures
        0 <= ledger.slot(key, from) <= ledger.entries.len(),
        ledger.slot(key, from) < ledger.entries.len() ==> from <= ledger.slot(key, from)
            && ledger.entries[ledger.slot(key, from)].key == key,
        forall|j: int|
            from <= j < ledger.slot(key, from) ==> (#[trigger] ledger.entries[j]).key != key,
    decreases ledger.entries.len() - from,
{
    if from < ledger.entries.len() && ledger.entries[from].key != key {
        lemma_slot(ledger, key, from + 1);
    }
}

proof fn lemma_slot_is(ledger: LedgerModel, key: [u8; 32], from: int, i: int)
    requires
        0 <= from <= i <= ledger.entries.len(),
        i < ledger.entries.len() ==> ledger.entries[i].key == key,
        forall|j: int| from <= j < i ==> (#[trigger] ledger.entries[j]).key != key,
    ensures
        ledger.slot(key, from) == i,
    decreases i - from,
{
    if from < i {
        assert(ledger.entries[from].key != key);
        lemma_slot_is(ledger, key, from + 1, i);
    }
}

/// Replacing an account changes that account and no other.
pub proof fn law_with_changes_one_account(ledger: LedgerModel, account: Account, key: [u8; 32])
    ensures
        ledger.with(account).account(key) == if key == account.key {
            account
        } else {
            ledger.account(key)
        },
        ledger.with(account).supply == ledger.supply,
{
    let after = ledger.with(account);
    let i = ledger.slot(account.key, 0);
    lemma_slot(ledger, account.key, 0);
    if key == account.key {
        lemma_slot_is(after, key, 0, i);
    } else {
        let k = ledger.slot(key, 0);
        lemma_slot(ledger, key, 0);
        if k < ledger.entries.len() {
            assert(k != i);
            lemma_slot_is(after, key, 0, k);
        } else {
            assert(forall|j: int|
                0 <= j < after.entries.len() ==> (#[trigger] after.entries[j]).key != key);
            lemma_slot_is(after, key, 0, after.entries.len() as int);
        }
    }
}

impl View for Ledger {
    type V = LedgerModel;

    closed spec fn view(&self) -> LedgerModel {
        LedgerModel { entries: self.entries@, supply: self.supply }
    }
}

impl Ledger {
    /// A ledger without accounts.
    pub fn new() -> (ledger: Self)
        ensures
            ledger@.entries == Seq::<Account>::empty(),
            ledger@.supply == 0,
    {
        Ledger { entries: Vec::new(), supply: 0 }
    }

    fn find(&self, key: &[u8; 32]) -> (slot: usize)
        ensures
            slot == self@.slot(*key, 0),
            slot <= self.entries.len(),
    {
        let mut i: usize = 0;
        while i < self.entries.len()
            invariant
                i <= self.entries.len(),
                self@.slot(*key, 0) == self@.slot(*key, i as int),
            decreases self.entries.len() - i,
        {
            if hash_eq(&self.entries[i].key, key) {
                return i;
            }
            i = i + 1;
        }
        i
    }

    /// An account as it stands.
    pub fn account(&self, key: &[u8; 32]) -> (account: Account)
        ensures
            account == self@.account(*key),
    {
        let i: usize = self.find(key);
        if i < self.entries.len() {
            self.entries[i]
        } else {
            Account { key: *key, balance: 0, sequence: 0, last_active: 0 }
        }
    }

    /// Balance of an account.
    pub fn balance(&self, key: &[u8; 32]) -> (balance: u64)
        ensures
            balance == self@.account(*key).balance,
    {
        self.account(key).balance
    }

    fn put(&mut self, account: Account)
        ensures
            final(self)@ == old(self)@.with(account),
    {
        let i: usize = self.find(&account.key);
        if i < self.entries.len() {
            self.entries.set(i, account);
        } else {
            self.entries.push(account);
        }
    }

    fn transfer(&mut self, tx: &Transaction) -> (moved: bool)
        ensures
            (final(self)@, moved) == old(self)@.moved(tx@),
    {
        let sender = self.account(&tx.sender);
        if sender.balance < tx.amount {
            return false;
        }
        let debited = Account {
            key: sender.key,
            balance: sender.balance - tx.amount,
            sequence: tx.sequence,
            last_active: sender.last_active,
        };
        proof {
            lemma_slot(self@, tx.sender, 0);
            law_with_changes_one_account(self@, debited, tx.recipient);
        }
        let recipient = if hash_eq(&tx.sender, &tx.recipient) {
            debited
        } else {
            self.account(&tx.recipient)
        };
        if recipient.balance > u64::MAX - tx.amount {
            return false;
        }
        self.put(debited);
        self.put(
            Account {
                key: recipient.key,
                balance: recipient.balance + tx.amount,
                sequence: recipient.sequence,
                last_active: recipient.last_active,
            },
        );
        true
    }
}

impl ChainLedger for Ledger {
    type Model = LedgerModel;

    open spec fn model(&self) -> LedgerModel {
        self@
    }

    /// Balance and supply stop at the largest number.
    open spec fn credited(state: LedgerModel, miner: [u8; 32], reward: u64) -> LedgerModel {
        let account = state.account(miner);
        LedgerModel {
            supply: crate::model::min_int(state.supply + reward, u64::MAX as int) as u64,
            ..state.with(
                Account {
                    balance: crate::model::min_int(
                        account.balance + reward,
                        u64::MAX as int,
                    ) as u64,
                    ..account
                },
            )
        }
    }

    /// Balance and supply stop at zero.
    open spec fn uncredited(state: LedgerModel, miner: [u8; 32], reward: u64) -> LedgerModel {
        let account = state.account(miner);
        LedgerModel {
            supply: crate::model::monus(state.supply as int, reward as int) as u64,
            ..state.with(
                Account {
                    balance: crate::model::monus(account.balance as int, reward as int) as u64,
                    ..account
                },
            )
        }
    }

    open spec fn touched(state: LedgerModel, account: [u8; 32], at: u64) -> LedgerModel {
        state.with(Account { last_active: at, ..state.account(account) })
    }

    /// The transaction must carry the sender's next sequence number.
    open spec fn paid(state: LedgerModel, tx: TxModel) -> (LedgerModel, bool) {
        if tx.sequence == state.account(tx.sender).sequence + 1 {
            state.moved(tx)
        } else {
            (state, false)
        }
    }

    open spec fn refusal(state: LedgerModel, tx: TxModel) -> TaronError {
        if tx.sequence == state.account(tx.sender).sequence + 1 {
            TaronError::InsufficientBalance
        } else {
            TaronError::InvalidSequence
        }
    }

    open spec fn paid_ibd(state: LedgerModel, tx: TxModel) -> (LedgerModel, bool) {
        state.moved(tx)
    }

    open spec fn unpaid(state: LedgerModel, tx: TxModel) -> LedgerModel {
        let recipient = state.account(tx.recipient);
        let returned = state.with(
            Account {
                balance: crate::model::monus(recipient.balance as int, tx.amount as int) as u64,
                ..recipient
            },
        );
        let sender = returned.account(tx.sender);
        returned.with(
            Account {
                balance: crate::model::min_int(sender.balance + tx.amount, u64::MAX as int) as u64,
                sequence: crate::model::monus(tx.sequence as int, 1) as u64,
                ..sender
            },
        )
    }

    open spec fn accounts(state: LedgerModel) -> int {
        state.entries.len() as int
    }

    open spec fn supply(state: LedgerModel) -> u64 {
        state.supply
    }

    fn apply_coinbase(&mut self, miner: &[u8; 32], reward: u64) {
        let account = self.account(miner);
        self.put(
            Account {
                key: account.key,
                balance: account.balance.saturating_add(reward),
                sequence: account.sequence,
                last_active: account.last_active,
            },
        );
        self.supply = self.supply.saturating_add(reward);
    }

    fn revert_coinbase(&mut self, miner: &[u8; 32], reward: u64) {
        let account = self.account(miner);
        self.put(
            Account {
                key: account.key,
                balance: account.balance.saturating_sub(reward),
                sequence: account.sequence,
                last_active: account.last_active,
            },
        );
        self.supply = self.supply.saturating_sub(reward);
    }

    fn touch_account(&mut self, account: &[u8; 32], at: u64) {
        let touched = self.account(account);
        self.put(
            Account {
                key: touched.key,
                balance: touched.balance,
                sequence: touched.sequence,
                last_active: at,
            },
        );
    }

    fn apply_tx(&mut self, tx: &Transaction) -> (outcome: Result<(), TaronError>) {
        let sequence: u64 = self.account(&tx.sender).sequence;
        if sequence == u64::MAX || tx.sequence != sequence + 1 {
            return Err(TaronError::InvalidSequence);
        }
        if self.transfer(tx) {
            Ok(())
        } else {
            Err(TaronError::InsufficientBalance)
        }
    }

    fn apply_tx_ibd(&mut self, tx: &Transaction) -> (outcome: Result<(), TaronError>)
        ensures
            outcome is Err ==> outcome == Err::<(), _>(TaronError::InsufficientBalance),
    {
        if self.transfer(tx) {
            Ok(())
        } else {
            Err(TaronError::InsufficientBalance)
        }
    }

    fn revert_tx(&mut self, tx: &Transaction) {
        let recipient = self.account(&tx.recipient);
        self.put(
            Account {
                key: recipient.key,
                balance: recipient.balance.saturating_sub(tx.amount),
                sequence: recipient.sequence,
                last_active: recipient.last_active,
            },
        );
        let sender = self.account(&tx.sender);
        self.put(
            Account {
                key: sender.key,
                balance: sender.balance.saturating_add(tx.amount),
                sequence: tx.sequence.saturating_sub(1),
                last_active: sender.last_active,
            },
        );
    }

    fn duplicate(&self) -> (copy: Self) {
        let mut entries: Vec<Account> = Vec::new();
        let mut i: usize = 0;
        while i < self.entries.len()
            invariant
                i <= self.entries.len(),
                entries@ == self.entries@.take(i as int),
            decreases self.entries.len() - i,
        {
            entries.push(self.entries[i]);
            assert(entries@ =~= self.entries@.take(i + 1));
            i = i + 1;
        }
        assert(entries@ =~= self.entries@);
        Ledger { entries, supply: self.supply }
    }

    fn account_count(&self) -> (count: usize) {
        self.entries.len()
    }

    fn total_supply(&self) -> (supply: u64) {
        self.supply
    }
}

} // verus!
