//! What the ledger of plain accounts promises when blocks are taken back.

use vstd::prelude::*;

use crate::block::{BlockModel, TxModel};
use crate::ledger::{Account, ChainLedger, Ledger, LedgerModel};

verus! {

/// Whether two ledgers agree on the supply and on every account's balance and
/// sequence number.
pub open spec fn same_holdings(a: LedgerModel, b: LedgerModel) -> bool {
    &&& a.supply == b.supply
    &&& forall|key: [u8; 32]|
        (#[trigger] a.account(key)).balance == b.account(key).balance && a.account(key).sequence
            == b.account(key).sequence
}

proof fn lemma_with(ledger: LedgerModel, account: Account)
    ensures
        forall|key: [u8; 32]|
            #[trigger] ledger.with(account).account(key) == if key == account.key {
                account
            } else {
                ledger.account(key)
            },
        ledger.with(account).supply == ledger.supply,
{
    assert forall|key: [u8; 32]| #[trigger] ledger.with(account).account(key) == if key
        == account.key {
        account
    } else {
        ledger.account(key)
    } by {
        crate::ledger::law_with_changes_one_account(ledger, account, key);
    }
    crate::ledger::law_with_changes_one_account(ledger, account, account.key);
}

proof fn lemma_account_key(ledger: LedgerModel)
    ensures
        forall|key: [u8; 32]| (#[trigger] ledger.account(key)).key == key,
{
    assert forall|key: [u8; 32]| (#[trigger] ledger.account(key)).key == key by {
        crate::ledger::lemma_slot(ledger, key, 0);
    }
}

proof fn lemma_unpaid(ledger: LedgerModel, tx: TxModel)
    ensures
        Ledger::unpaid(ledger, tx).supply == ledger.supply,
        forall|key: [u8; 32]|
            (#[trigger] Ledger::unpaid(ledger, tx).account(key)).balance == {
                let returned = if key == tx.recipient {
                    crate::model::monus(ledger.account(key).balance as int, tx.amount as int)
                } else {
                    ledger.account(key).balance as int
                };
                if key == tx.sender {
                    crate::model::min_int(returned + tx.amount, u64::MAX as int)
                } else {
                    returned
                }
            },
        forall|key: [u8; 32]|
            (#[trigger] Ledger::unpaid(ledger, tx).account(key)).sequence == if key == tx.sender {
                crate::model::monus(tx.sequence as int, 1) as u64
            } else {
                ledger.account(key).sequence
            },
{
    lemma_account_key(ledger);
    let recipient = ledger.account(tx.recipient);
    let back = Account {
        balance: crate::model::monus(recipient.balance as int, tx.amount as int) as u64,
        ..recipient
    };
    let returned = ledger.with(back);
    lemma_with(ledger, back);
    lemma_account_key(returned);
    let sender = returned.account(tx.sender);
    lemma_with(
        returned,
        Account {
            balance: crate::model::min_int(sender.balance + tx.amount, u64::MAX as int) as u64,
            sequence: crate::model::monus(tx.sequence as int, 1) as u64,
            ..sender
        },
    );
}

proof fn lemma_moved(ledger: LedgerModel, tx: TxModel)
    requires
        ledger.moved(tx).1,
    ensures
        ledger.account(tx.sender).balance >= tx.amount,
        ledger.moved(tx).0.supply == ledger.supply,
        forall|key: [u8; 32]|
            (#[trigger] ledger.moved(tx).0.account(key)).balance == {
                let debited = if key == tx.sender {
                    ledger.account(key).balance - tx.amount
                } else {
                    ledger.account(key).balance as int
                };
                if key == tx.recipient {
                    debited + tx.amount
                } else {
                    debited
                }
            },
        forall|key: [u8; 32]|
            (#[trigger] ledger.moved(tx).0.account(key)).sequence == if key == tx.sender {
                tx.sequence
            } else {
                ledger.account(key).sequence
            },
{
    lemma_account_key(ledger);
    let sender = ledger.account(tx.sender);
    let debit = Account {
        balance: (sender.balance - tx.amount) as u64,
        sequence: tx.sequence,
        ..sender
    };
    let debited = ledger.with(debit);
    lemma_with(ledger, debit);
    lemma_account_key(debited);
    let recipient = debited.account(tx.recipient);
    lemma_with(
        debited,
        Account { balance: (recipient.balance + tx.amount) as u64, ..recipient },
    );
}

/// Undoing a transaction that was carried out gives every account its balance
/// and its sequence number back.
pub proof fn law_undoing_a_transaction(ledger: LedgerModel, tx: TxModel)
    requires
        Ledger::paid(ledger, tx).1,
    ensures
        same_holdings(Ledger::unpaid(Ledger::paid(ledger, tx).0, tx), ledger),
{
    lemma_moved(ledger, tx);
    lemma_unpaid(ledger.moved(tx).0, tx);
    let after = Ledger::unpaid(ledger.moved(tx).0, tx);
    assert forall|key: [u8; 32]|
        (#[trigger] after.account(key)).balance == ledger.account(key).balance && after.account(
            key,
        ).sequence == ledger.account(key).sequence by {
        assert(ledger.moved(tx).0.account(key).balance >= 0);
    }
}

proof fn lemma_unpaid_agrees(a: LedgerModel, b: LedgerModel, tx: TxModel)
    requires
        same_holdings(a, b),
    ensures
        same_holdings(Ledger::unpaid(a, tx), Ledger::unpaid(b, tx)),
{
    lemma_unpaid(a, tx);
    lemma_unpaid(b, tx);
    let after_a = Ledger::unpaid(a, tx);
    let after_b = Ledger::unpaid(b, tx);
    assert forall|key: [u8; 32]|
        (#[trigger] after_a.account(key)).balance == after_b.account(key).balance
            && after_a.account(key).sequence == after_b.account(key).sequence by {
        assert(a.account(key).balance == b.account(key).balance);
        assert(a.account(key).sequence == b.account(key).sequence);
        assert(after_b.account(key).balance >= 0);
    }
}

proof fn lemma_without_agrees(a: LedgerModel, b: LedgerModel, txs: Seq<TxModel>, n: int)
    requires
        same_holdings(a, b),
    ensures
        same_holdings(
            crate::ledger::without_txs::<Ledger>(a, txs, n),
            crate::ledger::without_txs::<Ledger>(b, txs, n),
        ),
    decreases n,
{
    if n > 0 {
        lemma_unpaid_agrees(a, b, txs[n - 1]);
        lemma_without_agrees(
            Ledger::unpaid(a, txs[n - 1]),
            Ledger::unpaid(b, txs[n - 1]),
            txs,
            n - 1,
        );
    }
}

pub(crate) proof fn lemma_same_holdings_trans(a: LedgerModel, b: LedgerModel, c: LedgerModel)
    requires
        same_holdings(a, b),
        same_holdings(b, c),
    ensures
        same_holdings(a, c),
{
    assert forall|key: [u8; 32]|
        (#[trigger] a.account(key)).balance == c.account(key).balance && a.account(key).sequence
            == c.account(key).sequence by {
        assert(a.account(key).balance == b.account(key).balance);
        assert(b.account(key).balance == c.account(key).balance);
        assert(a.account(key).sequence == b.account(key).sequence);
        assert(b.account(key).sequence == c.account(key).sequence);
    }
}

/// Undoing transactions in reverse order, all of which were carried out, gives
/// every account its balance and its sequence number back.
pub proof fn law_undoing_transactions(ledger: LedgerModel, txs: Seq<TxModel>, n: int)
    requires
        crate::ledger::after_txs::<Ledger>(ledger, txs, n, false).1,
    ensures
        same_holdings(
            crate::ledger::without_txs::<Ledger>(
                crate::ledger::after_txs::<Ledger>(ledger, txs, n, false).0,
                txs,
                n,
            ),
            ledger,
        ),
    decreases n,
{
    if n > 0 {
        let before = crate::ledger::after_txs::<Ledger>(ledger, txs, n - 1, false).0;
        let tx = txs[n - 1];
        law_undoing_transactions(ledger, txs, n - 1);
        law_undoing_a_transaction(before, tx);
        let undone = Ledger::unpaid(Ledger::paid(before, tx).0, tx);
        lemma_without_agrees(undone, before, txs, n - 1);
        lemma_same_holdings_trans(
            crate::ledger::without_txs::<Ledger>(undone, txs, n - 1),
            crate::ledger::without_txs::<Ledger>(before, txs, n - 1),
            ledger,
        );
    }
}

proof fn lemma_uncredited(ledger: LedgerModel, miner: [u8; 32], reward: u64)
    ensures
        Ledger::uncredited(ledger, miner, reward).supply == crate::model::monus(
            ledger.supply as int,
            reward as int,
        ),
        forall|key: [u8; 32]|
            (#[trigger] Ledger::uncredited(ledger, miner, reward).account(key)).balance == if key
                == miner {
                crate::model::monus(ledger.account(key).balance as int, reward as int)
            } else {
                ledger.account(key).balance as int
            },
        forall|key: [u8; 32]|
            (#[trigger] Ledger::uncredited(ledger, miner, reward).account(key)).sequence
                == ledger.account(key).sequence,
{
    lemma_account_key(ledger);
    let account = ledger.account(miner);
    let debit = Account {
        balance: crate::model::monus(account.balance as int, reward as int) as u64,
        ..account
    };
    lemma_with(ledger, debit);
    let after = Ledger::uncredited(ledger, miner, reward);
    lemma_supply_apart(after, ledger.with(debit));
}

/// Accounts do not depend on the supply.
proof fn lemma_supply_apart(a: LedgerModel, b: LedgerModel)
    requires
        a.entries == b.entries,
    ensures
        forall|key: [u8; 32]| #[trigger] a.account(key) == b.account(key),
{
    assert forall|key: [u8; 32]| #[trigger] a.account(key) == b.account(key) by {
        lemma_slot_apart(a, b, key, 0);
    }
}

proof fn lemma_slot_apart(a: LedgerModel, b: LedgerModel, key: [u8; 32], from: int)
    requires
        a.entries == b.entries,
        0 <= from,
    ensures
        a.slot(key, from) == b.slot(key, from),
    decreases a.entries.len() - from,
{
    if from < a.entries.len() {
        lemma_slot_apart(a, b, key, from + 1);
    }
}

proof fn lemma_miner_paid(ledger: LedgerModel, block: BlockModel)
    requires
        ledger.account(block.miner).balance + block.reward <= u64::MAX,
        ledger.supply + block.reward <= u64::MAX,
    ensures
        crate::apply::miner_paid::<Ledger>(ledger, block).supply == ledger.supply + block.reward,
        forall|key: [u8; 32]|
            (#[trigger] crate::apply::miner_paid::<Ledger>(ledger, block).account(key)).balance
                == if key == block.miner {
                ledger.account(key).balance + block.reward
            } else {
                ledger.account(key).balance as int
            },
        forall|key: [u8; 32]|
            (#[trigger] crate::apply::miner_paid::<Ledger>(ledger, block).account(key)).sequence
                == ledger.account(key).sequence,
{
    lemma_account_key(ledger);
    let account = ledger.account(block.miner);
    let credit = Account { balance: (account.balance + block.reward) as u64, ..account };
    lemma_with(ledger, credit);
    let credited = Ledger::credited(ledger, block.miner, block.reward);
    lemma_supply_apart(credited, ledger.with(credit));
    lemma_account_key(credited);
    lemma_with(
        credited,
        Account { last_active: block.timestamp, ..credited.account(block.miner) },
    );
}

/// Taking a block back undoes its effects on the ledger, reward and transactions:
/// every account has its balance and its sequence number back, and the supply is
/// what it was. All transactions must have been carried out, and paying the reward
/// must not have reached the largest number.
pub proof fn law_undoing_a_block(ledger: LedgerModel, block: BlockModel)
    requires
        crate::apply::block_paid::<Ledger>(ledger, block).1,
        ledger.account(block.miner).balance + block.reward <= u64::MAX,
        ledger.supply + block.reward <= u64::MAX,
    ensures
        same_holdings(
            crate::apply::block_undone::<Ledger>(
                crate::apply::block_paid::<Ledger>(ledger, block).0,
                block,
            ),
            ledger,
        ),
{
    let n = block.transactions.len() as int;
    let started = crate::apply::miner_paid::<Ledger>(ledger, block);
    law_undoing_transactions(started, block.transactions, n);
    lemma_miner_paid(ledger, block);
    let back = crate::ledger::without_txs::<Ledger>(
        crate::apply::block_paid::<Ledger>(ledger, block).0,
        block.transactions,
        n,
    );
    lemma_uncredited(back, block.miner, block.reward);
    let after = Ledger::uncredited(back, block.miner, block.reward);
    assert forall|key: [u8; 32]|
        (#[trigger] after.account(key)).balance == ledger.account(key).balance && after.account(
            key,
        ).sequence == ledger.account(key).sequence by {
        assert(back.account(key).balance == started.account(key).balance);
        assert(back.account(key).sequence == started.account(key).sequence);
    }
}

// ── Payments in terms of accounts ────────────────────────────────────────────

/// Whether an account has an entry.
pub open spec fn has_entry(ledger: LedgerModel, key: [u8; 32]) -> bool {
    exists|i: int| 0 <= i < ledger.entries.len() && (#[trigger] ledger.entries[i]).key == key
}

proof fn lemma_with_counts(ledger: LedgerModel, account: Account)
    ensures
        ledger.with(account).entries.len() == ledger.entries.len() + if has_entry(
            ledger,
            account.key,
        ) {
            0int
        } else {
            1
        },
{
    crate::ledger::lemma_slot(ledger, account.key, 0);
}

/// The number of accounts starts at nothing, and grows by one with each account that is
/// paid or marked as active for the first time.
pub proof fn law_accounts_are_counted(ledger: LedgerModel, key: [u8; 32], reward: u64, at: u64)
    ensures
        ledger.entries.len() == 0 ==> Ledger::accounts(ledger) == 0,
        ({
            let more = if has_entry(ledger, key) {
                0int
            } else {
                1int
            };
            &&& Ledger::accounts(Ledger::credited(ledger, key, reward)) == Ledger::accounts(ledger)
                + more
            &&& Ledger::accounts(Ledger::touched(ledger, key, at)) == Ledger::accounts(ledger)
                + more
        }),
{
    let account = ledger.account(key);
    assert(account.key == key) by {
        crate::ledger::lemma_slot(ledger, key, 0);
    }
    lemma_with_counts(
        ledger,
        Account {
            balance: crate::model::min_int(account.balance + reward, u64::MAX as int) as u64,
            ..account
        },
    );
    lemma_with_counts(ledger, Account { last_active: at, ..account });
}

/// A transaction is carried out exactly if it carries the sender's next sequence
/// number, the sender holds the amount and the recipient can take it. It moves the
/// amount, and the sender's sequence number to its own; nobody else notices, and the
/// supply stays. One that is not carried out changes nothing, and it is the sequence
/// number that is complained about first. In a historical block the sequence number
/// is not looked at.
pub proof fn law_a_transfer_moves_the_amount(ledger: LedgerModel, tx: TxModel)
    ensures
        ({
            let sender = ledger.account(tx.sender);
            let covered = sender.balance >= tx.amount && (tx.recipient == tx.sender
                || ledger.account(tx.recipient).balance + tx.amount <= u64::MAX);
            let in_turn = tx.sequence == sender.sequence + 1;
            &&& Ledger::paid(ledger, tx).1 <==> in_turn && covered
            &&& Ledger::paid_ibd(ledger, tx).1 <==> covered
            &&& !Ledger::paid(ledger, tx).1 ==> Ledger::paid(ledger, tx).0 == ledger
            &&& !Ledger::paid_ibd(ledger, tx).1 ==> Ledger::paid_ibd(ledger, tx).0 == ledger
            &&& Ledger::paid(ledger, tx).1 ==> Ledger::paid(ledger, tx) == Ledger::paid_ibd(
                ledger,
                tx,
            )
            &&& !in_turn ==> Ledger::refusal(ledger, tx)
                == crate::params::TaronError::InvalidSequence
            &&& in_turn && !covered ==> Ledger::refusal(ledger, tx)
                == crate::params::TaronError::InsufficientBalance
        }),
        Ledger::paid_ibd(ledger, tx).1 ==> {
            let after = Ledger::paid_ibd(ledger, tx).0;
            &&& after.supply == ledger.supply
            &&& tx.sender != tx.recipient ==> after.account(tx.sender).balance == ledger.account(
                tx.sender,
            ).balance - tx.amount
            &&& tx.sender != tx.recipient ==> after.account(tx.recipient).balance
                == ledger.account(tx.recipient).balance + tx.amount
            &&& tx.sender == tx.recipient ==> after.account(tx.sender).balance == ledger.account(
                tx.sender,
            ).balance
            &&& after.account(tx.sender).sequence == tx.sequence
            &&& tx.sender != tx.recipient ==> after.account(tx.recipient).sequence
                == ledger.account(tx.recipient).sequence
            &&& forall|key: [u8; 32]|
                key != tx.sender && key != tx.recipient ==> #[trigger] after.account(key)
                    == ledger.account(key)
            &&& forall|key: [u8; 32]|
                (#[trigger] after.account(key)).last_active == ledger.account(key).last_active
        },
{
    lemma_account_key(ledger);
    let sender = ledger.account(tx.sender);
    let debit = Account {
        balance: (sender.balance - tx.amount) as u64,
        sequence: tx.sequence,
        ..sender
    };
    let debited = ledger.with(debit);
    lemma_with(ledger, debit);
    lemma_account_key(debited);
    let recipient = debited.account(tx.recipient);
    lemma_with(
        debited,
        Account { balance: (recipient.balance + tx.amount) as u64, ..recipient },
    );
}

/// A reward adds to the miner's balance and to the supply, both up to the largest
/// number; being active is noted with one account; nobody else notices either. An
/// account that had no entry gets one.
pub proof fn law_a_reward_goes_to_the_miner(
    ledger: LedgerModel,
    miner: [u8; 32],
    reward: u64,
    at: u64,
)
    ensures
        ({
            let after = Ledger::credited(ledger, miner, reward);
            &&& after.supply == if ledger.supply + reward > u64::MAX {
                u64::MAX as int
            } else {
                ledger.supply + reward
            }
            &&& after.account(miner).balance == if ledger.account(miner).balance + reward
                > u64::MAX {
                u64::MAX as int
            } else {
                ledger.account(miner).balance + reward
            }
            &&& after.account(miner).sequence == ledger.account(miner).sequence
            &&& after.account(miner).last_active == ledger.account(miner).last_active
            &&& forall|key: [u8; 32]|
                key != miner ==> #[trigger] after.account(key) == ledger.account(key)
            &&& Ledger::accounts(after) == Ledger::accounts(ledger) + if has_entry(
                ledger,
                miner,
            ) {
                0int
            } else {
                1
            }
        }),
        ({
            let after = Ledger::touched(ledger, miner, at);
            &&& after.supply == ledger.supply
            &&& after.account(miner).last_active == at
            &&& after.account(miner).balance == ledger.account(miner).balance
            &&& after.account(miner).sequence == ledger.account(miner).sequence
            &&& forall|key: [u8; 32]|
                key != miner ==> #[trigger] after.account(key) == ledger.account(key)
        }),
        ({
            let after = Ledger::uncredited(ledger, miner, reward);
            &&& ledger.supply >= reward ==> after.supply == ledger.supply - reward
            &&& ledger.account(miner).balance >= reward ==> after.account(miner).balance
                == ledger.account(miner).balance - reward
            &&& after.account(miner).sequence == ledger.account(miner).sequence
            &&& after.account(miner).last_active == ledger.account(miner).last_active
            &&& forall|key: [u8; 32]|
                key != miner ==> #[trigger] after.account(key) == ledger.account(key)
        }),
{
    lemma_account_key(ledger);
    let account = ledger.account(miner);
    let credit = Account {
        balance: crate::model::min_int(account.balance + reward, u64::MAX as int) as u64,
        ..account
    };
    lemma_with(ledger, credit);
    lemma_with_counts(ledger, credit);
    lemma_supply_apart(Ledger::credited(ledger, miner, reward), ledger.with(credit));
    lemma_with(ledger, Account { last_active: at, ..account });
    let debit = Account {
        balance: crate::model::monus(account.balance as int, reward as int) as u64,
        ..account
    };
    lemma_with(ledger, debit);
    lemma_supply_apart(Ledger::uncredited(ledger, miner, reward), ledger.with(debit));
}

proof fn lemma_txs_keep_supply(ledger: LedgerModel, txs: Seq<TxModel>, n: int, ibd: bool)
    ensures
        ({
            let after = crate::ledger::after_txs::<Ledger>(ledger, txs, n, ibd).0;
            &&& after.supply == ledger.supply
            &&& forall|key: [u8; 32]|
                (#[trigger] after.account(key)).last_active == ledger.account(key).last_active
        }),
    decreases n,
{
    if n > 0 {
        lemma_txs_keep_supply(ledger, txs, n - 1, ibd);
        let (before, ok) = crate::ledger::after_txs::<Ledger>(ledger, txs, n - 1, ibd);
        if ok {
            law_a_transfer_moves_the_amount(before, txs[n - 1]);
            let after = crate::ledger::after_txs::<Ledger>(ledger, txs, n, ibd).0;
            assert forall|key: [u8; 32]|
                (#[trigger] after.account(key)).last_active == ledger.account(
                    key,
                ).last_active by {
                assert(before.account(key).last_active == ledger.account(key).last_active);
            }
        }
    }
}

/// A block brings its reward into circulation and nothing else, whatever its
/// transactions move, and its miner counts as active at its time if it is live.
pub proof fn law_a_block_adds_its_reward_to_the_supply(ledger: LedgerModel, block: BlockModel)
    requires
        ledger.supply + block.reward <= u64::MAX,
    ensures
        crate::apply::block_paid::<Ledger>(ledger, block).0.supply == ledger.supply
            + block.reward,
        crate::apply::block_paid_ibd::<Ledger>(ledger, block).0.supply == ledger.supply
            + block.reward,
        crate::apply::block_paid::<Ledger>(ledger, block).0.account(block.miner).last_active
            == block.timestamp,
        forall|key: [u8; 32]|
            key != block.miner ==> (#[trigger] crate::apply::block_paid::<Ledger>(
                ledger,
                block,
            ).0.account(key)).last_active == ledger.account(key).last_active,
{
    let n = block.transactions.len() as int;
    let credited = Ledger::credited(ledger, block.miner, block.reward);
    law_a_reward_goes_to_the_miner(ledger, block.miner, block.reward, block.timestamp);
    law_a_reward_goes_to_the_miner(credited, block.miner, block.reward, block.timestamp);
    let started = crate::apply::miner_paid::<Ledger>(ledger, block);
    lemma_txs_keep_supply(started, block.transactions, n, false);
    lemma_txs_keep_supply(credited, block.transactions, n, true);
    assert forall|key: [u8; 32]| key != block.miner implies (
    #[trigger] crate::apply::block_paid::<Ledger>(ledger, block).0.account(key)).last_active
        == ledger.account(key).last_active by {
        assert(started.account(key) == credited.account(key));
    }
}

/// Undoing a transaction returns the amount from the recipient to the sender, who has
/// the sequence number before it again.
pub proof fn law_undoing_returns_the_amount(ledger: LedgerModel, tx: TxModel)
    ensures
        ({
            let after = Ledger::unpaid(ledger, tx);
            &&& after.supply == ledger.supply
            &&& tx.sender != tx.recipient && ledger.account(tx.recipient).balance >= tx.amount
                ==> after.account(tx.recipient).balance == ledger.account(tx.recipient).balance
                - tx.amount
            &&& tx.sender != tx.recipient && ledger.account(tx.sender).balance + tx.amount
                <= u64::MAX ==> after.account(tx.sender).balance == ledger.account(
                tx.sender,
            ).balance + tx.amount
            &&& tx.sequence > 0 ==> after.account(tx.sender).sequence == tx.sequence - 1
            &&& forall|key: [u8; 32]|
                key != tx.sender && key != tx.recipient ==> (#[trigger] after.account(
                    key,
                )).balance == ledger.account(key).balance && after.account(key).sequence
                    == ledger.account(key).sequence
        }),
{
    lemma_unpaid(ledger, tx);
}

pub(crate) proof fn lemma_block_undone_agrees(a: LedgerModel, b: LedgerModel, block: BlockModel)
    requires
        same_holdings(a, b),
    ensures
        same_holdings(
            crate::apply::block_undone::<Ledger>(a, block),
            crate::apply::block_undone::<Ledger>(b, block),
        ),
{
    let n = block.transactions.len() as int;
    lemma_without_agrees(a, b, block.transactions, n);
    let x = crate::ledger::without_txs::<Ledger>(a, block.transactions, n);
    let y = crate::ledger::without_txs::<Ledger>(b, block.transactions, n);
    lemma_uncredited(x, block.miner, block.reward);
    lemma_uncredited(y, block.miner, block.reward);
    let after_a = crate::apply::block_undone::<Ledger>(a, block);
    let after_b = crate::apply::block_undone::<Ledger>(b, block);
    assert forall|key: [u8; 32]|
        (#[trigger] after_a.account(key)).balance == after_b.account(key).balance
            && after_a.account(key).sequence == after_b.account(key).sequence by {
        assert(x.account(key).balance == y.account(key).balance);
        assert(x.account(key).sequence == y.account(key).sequence);
        assert(after_b.account(key).balance >= 0);
    }
}

} // verus!
