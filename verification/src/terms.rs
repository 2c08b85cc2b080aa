//! What the words of the book mean, told by its rows alone.

use vstd::prelude::*;

use crate::book::{
    any_deposit, bet_by, deposit_to, itself, one_deposit_to, payout_to, waits, withdrawal_by, Book,
    RefusedView,
};
use crate::ledger::Ledger;
use crate::rows::{
    Bet, BetView, Deposit, DepositView, Depositor, DepositorView, Payout, Round, RoundView,
    Settlement, SettlementView, Tables, Withdrawal, WithdrawalView,
};
use crate::rules::{
    assign_keeps_rules, label_found, round_found, round_on_found, withdrawal_found,
};
use crate::sums::{
    picked_grows, picked_source, picked_target, running_fits, total, total_same,
};

verus! {

/// A balance is what came in, less what was staked, plus what rounds paid, less
/// what was asked to leave, each over the rows of the address and no others.
/// The sums fit where each of the four does, the payouts at every step, and
/// they add up where the running result stays within a signed 64-bit number.
pub proof fn a_balance_is_its_rows(book: Book, a: u32)
    ensures
        ({
            let deposited = total(
                book.deposits,
                |d: DepositView|
                    if d.address_index == a {
                        d.zatoshi as int
                    } else {
                        0
                    },
            );
            let staked = total(
                book.bets,
                |b: BetView|
                    if b.address_index == a {
                        b.zatoshi as int
                    } else {
                        0
                    },
            );
            let paid = |p: Payout|
                if p.address_index == a {
                    p.zatoshi as int
                } else {
                    0
                };
            let leaving = total(
                book.withdrawals,
                |w: WithdrawalView|
                    if w.address_index == a {
                        w.zatoshi as int
                    } else {
                        0
                    },
            );
            let returned = total(book.payouts, paid);
            let fit = deposited <= i64::MAX && staked <= i64::MAX && leaving <= i64::MAX && (
            forall|k: int|
                0 <= k <= book.payouts.len() ==> i64::MIN <= #[trigger] total(
                    book.payouts.take(k),
                    paid,
                ) <= i64::MAX);
            &&& book.deposited(a) == deposited
            &&& book.balance(a) == deposited - staked + returned - leaving
            &&& book.sums_fit(a) == fit
            &&& book.adds_up(a) == (fit ==> i64::MIN <= deposited - staked + returned <= i64::MAX
                && deposited - staked + returned - leaving >= i64::MIN)
        }),
{
    let d = |d: DepositView|
        if d.address_index == a {
            d.zatoshi as int
        } else {
            0
        };
    total_same(book.deposits, d, deposit_to(a));
    let b = |b: BetView|
        if b.address_index == a {
            b.zatoshi as int
        } else {
            0
        };
    total_same(book.bets, b, bet_by(a));
    let paid = |p: Payout|
        if p.address_index == a {
            p.zatoshi as int
        } else {
            0
        };
    total_same(book.payouts, paid, payout_to(a));
    let w = |w: WithdrawalView|
        if w.address_index == a {
            w.zatoshi as int
        } else {
            0
        };
    total_same(book.withdrawals, w, withdrawal_by(a));
    assert forall|k: int| 0 <= k <= book.payouts.len() implies #[trigger] total(
        book.payouts.take(k),
        paid,
    ) == total(book.payouts.take(k), payout_to(a)) by {
        total_same(book.payouts.take(k), paid, payout_to(a));
    }
    if forall|k: int|
        0 <= k <= book.payouts.len() ==> i64::MIN <= #[trigger] total(book.payouts.take(k), paid)
            <= i64::MAX {
        assert forall|k: int| 0 <= k <= book.payouts.len() implies i64::MIN <= #[trigger] total(
            book.payouts.take(k),
            payout_to(a),
        ) <= i64::MAX by {
            assert(i64::MIN <= total(book.payouts.take(k), paid) <= i64::MAX);
        }
        assert(running_fits(book.payouts, payout_to(a)));
    } else {
        let k = choose|k: int|
            0 <= k <= book.payouts.len() && !(i64::MIN <= #[trigger] total(
                book.payouts.take(k),
                paid,
            ) <= i64::MAX);
        assert(total(book.payouts.take(k), payout_to(a)) == total(book.payouts.take(k), paid));
        assert(!running_fits(book.payouts, payout_to(a)));
    }
}

/// Rows make a book where no note, depositor, round, block, position, payout,
/// withdrawal or rake is there twice, no deposit is more than a signed 64-bit
/// number, no bet and no withdrawal is empty, and rounds and withdrawals come
/// in the order of their numbers; and nothing more is asked of them.
pub proof fn rows_that_make_a_book(book: Book)
    ensures
        book.wf() <==> {
            &&& forall|i: int, j: int|
                #![trigger book.deposits[i], book.deposits[j]]
                0 <= i < j < book.deposits.len() ==> book.deposits[i].txid
                    != book.deposits[j].txid || book.deposits[i].output != book.deposits[j].output
            &&& forall|i: int|
                0 <= i < book.deposits.len() ==> (#[trigger] book.deposits[i]).zatoshi <= i64::MAX
            &&& forall|i: int, j: int|
                #![trigger book.depositors[i], book.depositors[j]]
                0 <= i < j < book.depositors.len() ==> book.depositors[i].address_index
                    != book.depositors[j].address_index
            &&& forall|i: int, j: int|
                #![trigger book.rounds[i], book.rounds[j]]
                0 <= i < j < book.rounds.len() ==> book.rounds[i].id < book.rounds[j].id
                    && book.rounds[i].settles_on != book.rounds[j].settles_on
            &&& forall|i: int, j: int|
                #![trigger book.bets[i], book.bets[j]]
                0 <= i < j < book.bets.len() ==> book.bets[i].round_id != book.bets[j].round_id
                    || book.bets[i].address_index != book.bets[j].address_index
            &&& forall|i: int| 0 <= i < book.bets.len() ==> (#[trigger] book.bets[i]).zatoshi > 0
            &&& forall|i: int, j: int|
                #![trigger book.payouts[i], book.payouts[j]]
                0 <= i < j < book.payouts.len() ==> book.payouts[i].round_id
                    != book.payouts[j].round_id || book.payouts[i].address_index
                    != book.payouts[j].address_index
            &&& forall|i: int, j: int|
                #![trigger book.withdrawals[i], book.withdrawals[j]]
                0 <= i < j < book.withdrawals.len() ==> book.withdrawals[i].id
                    < book.withdrawals[j].id
            &&& forall|i: int|
                0 <= i < book.withdrawals.len() ==> (#[trigger] book.withdrawals[i]).zatoshi > 0
            &&& forall|i: int, j: int|
                #![trigger book.rakes[i], book.rakes[j]]
                0 <= i < j < book.rakes.len() ==> book.rakes[i].round_id != book.rakes[j].round_id
        },
{
}

/// A note is new where no row has both its transaction and its output. A new
/// one is written at the end as it is, one that is there changes nothing, and
/// only one worth more than a signed 64-bit number is refused.
pub proof fn a_new_note_is_written_as_it_is(book: Book, d: DepositView)
    ensures
        ({
            let there = exists|i: int|
                0 <= i < book.deposits.len() && (#[trigger] book.deposits[i]).txid == d.txid
                    && book.deposits[i].output == d.output;
            &&& book.has_note(d.txid, d.output) == there
            &&& d.zatoshi <= i64::MAX && !there ==> book.after_deposit(d) == Ok::<Book, RefusedView>(
                Book { deposits: book.deposits.push(d), ..book },
            )
            &&& d.zatoshi <= i64::MAX && there ==> book.after_deposit(d) == Ok::<Book, RefusedView>(
                book,
            )
            &&& d.zatoshi > i64::MAX ==> book.after_deposit(d) == Err::<Book, RefusedView>(
                RefusedView::DepositNotAValue,
            )
        }),
{
}

/// An address is handed out once: the first name it is given stays, and is what
/// it is called.
pub proof fn an_address_keeps_its_first_name(book: Book, d: DepositorView, k: int)
    requires
        book.wf(),
    ensures
        ({
            let there = exists|i: int|
                0 <= i < book.depositors.len() && (#[trigger] book.depositors[i]).address_index
                    == d.address_index;
            &&& !there ==> book.after_assign(d) == (Book {
                depositors: book.depositors.push(d),
                ..book
            })
            &&& there ==> book.after_assign(d) == book
            &&& !there ==> book.label(d.address_index) is None && book.after_assign(d).label(
                d.address_index,
            ) == Some(d.label)
            &&& 0 <= k < book.depositors.len() ==> book.label(book.depositors[k].address_index)
                == Some(book.depositors[k].label)
        }),
{
    let next = book.after_assign(d);
    if 0 <= k < book.depositors.len() {
        label_found(book, k);
    }
    assign_keeps_rules(book, d);
    if !book.has_depositor(d.address_index) {
        assert(next.depositors[book.depositors.len() as int] == d);
        label_found(next, book.depositors.len() as int);
    }
}

/// The round of a block is the row that names the block. Where there is none, an
/// open one is written at the end, numbered one past the last, or one.
pub proof fn a_block_without_a_round_gets_one(book: Book, settles_on: u32, k: int)
    requires
        book.wf(),
    ensures
        ({
            let there = exists|i: int|
                0 <= i < book.rounds.len() && (#[trigger] book.rounds[i]).settles_on == settles_on;
            let number = if book.rounds.len() == 0 {
                1
            } else {
                book.rounds[book.rounds.len() - 1].id + 1
            };
            &&& book.has_round_on(settles_on) == there
            &&& book.next_round_id() == number
            &&& there ==> book.after_open_round(settles_on) == book
            &&& !there ==> book.after_open_round(settles_on) == (Book {
                rounds: book.rounds.push(
                    RoundView { id: number as i64, settles_on, outcome: None, settled_at: None },
                ),
                ..book
            })
            &&& 0 <= k < book.rounds.len() && book.rounds[k].settles_on == settles_on
                ==> book.round_on(settles_on) == book.rounds[k]
        }),
{
    if exists|i: int|
        0 <= i < book.rounds.len() && (#[trigger] book.rounds[i]).settles_on == settles_on {
        let i = choose|i: int|
            0 <= i < book.rounds.len() && (#[trigger] book.rounds[i]).settles_on == settles_on;
        assert(book.is_round_on(i, settles_on));
    }
    if book.has_round_on(settles_on) {
        let i = choose|i: int| book.is_round_on(i, settles_on);
        assert(book.rounds[i].settles_on == settles_on);
    }
    if 0 <= k < book.rounds.len() && book.rounds[k].settles_on == settles_on {
        assert(book.is_round_on(k, settles_on));
        round_on_found(book, k, settles_on);
    }
}

/// A round is open where its row names no outcome, and settled where it does.
pub proof fn a_round_is_settled_where_its_row_says_so(book: Book, round_id: i64, k: int)
    requires
        book.wf(),
    ensures
        ({
            let there = exists|i: int|
                0 <= i < book.rounds.len() && (#[trigger] book.rounds[i]).id == round_id;
            &&& book.has_round(round_id) == there
            &&& !there ==> !book.settled(round_id) && !book.unsettled(round_id)
            &&& 0 <= k < book.rounds.len() && book.rounds[k].id == round_id ==> {
                &&& book.round(round_id) == book.rounds[k]
                &&& book.settled(round_id) == (book.rounds[k].outcome is Some)
                &&& book.unsettled(round_id) == (book.rounds[k].outcome is None)
            }
        }),
{
    if exists|i: int| 0 <= i < book.rounds.len() && (#[trigger] book.rounds[i]).id == round_id {
        let i = choose|i: int|
            0 <= i < book.rounds.len() && (#[trigger] book.rounds[i]).id == round_id;
        assert(book.is_round(i, round_id));
    }
    if book.has_round(round_id) {
        let i = choose|i: int| book.is_round(i, round_id);
        assert(book.rounds[i].id == round_id);
    }
    if 0 <= k < book.rounds.len() && book.rounds[k].id == round_id {
        assert(book.is_round(k, round_id));
        round_found(book, k, round_id);
    }
}

/// A stake that can be funded is taken: where the round is open, the sums fit,
/// the stake is more than nothing and no more than the balance, and the address
/// has no bet in that round, whatever it has in others, placing it writes
/// exactly that bet.
pub proof fn a_stake_that_can_be_funded_is_taken(
    book: Book,
    k: int,
    round_id: i64,
    address_index: u32,
    outcome: Seq<char>,
    zatoshi: u64,
    at: i64,
)
    requires
        book.wf(),
        0 <= k < book.rounds.len(),
        book.rounds[k].id == round_id,
        book.rounds[k].outcome is None,
        book.sums_fit(address_index),
        zatoshi <= i64::MAX,
        0 < zatoshi <= book.balance(address_index),
        forall|i: int|
            0 <= i < book.bets.len() ==> (#[trigger] book.bets[i]).round_id != round_id
                || book.bets[i].address_index != address_index,
    ensures
        book.after_place(round_id, address_index, outcome, zatoshi, at) == Ok::<Book, RefusedView>(
            Book {
                bets: book.bets.push(
                    BetView {
                        round_id,
                        address_index,
                        outcome,
                        zatoshi: zatoshi as i64,
                        placed_at: at,
                    },
                ),
                ..book
            },
        ),
{
    a_round_is_settled_where_its_row_says_so(book, round_id, k);
}

/// A stake is refused for what is wrong with it, in this order: no row has the
/// round's number; the row names an outcome; the sums do not fit; the stake is
/// no signed 64-bit number; it is more than the balance; it is nothing, or the
/// address has a bet in the round.
pub proof fn a_stake_is_refused_for_what_is_wrong_with_it(
    book: Book,
    k: int,
    round_id: i64,
    address_index: u32,
    outcome: Seq<char>,
    zatoshi: u64,
    at: i64,
)
    requires
        book.wf(),
    ensures
        ({
            let placed = book.after_place(round_id, address_index, outcome, zatoshi, at);
            let available = book.balance(address_index);
            let open = 0 <= k < book.rounds.len() && book.rounds[k].id == round_id
                && book.rounds[k].outcome is None;
            &&& (forall|i: int|
                0 <= i < book.rounds.len() ==> (#[trigger] book.rounds[i]).id != round_id)
                ==> placed == Err::<Book, RefusedView>(RefusedView::NoSuchRound)
            &&& 0 <= k < book.rounds.len() && book.rounds[k].id == round_id
                && book.rounds[k].outcome is Some ==> placed == Err::<Book, RefusedView>(
                RefusedView::RoundClosed { round_id },
            )
            &&& open && !book.sums_fit(address_index) ==> placed == Err::<Book, RefusedView>(
                RefusedView::SumTooLarge,
            )
            &&& open && book.sums_fit(address_index) && zatoshi > i64::MAX ==> placed == Err::<
                Book,
                RefusedView,
            >(RefusedView::StakeNotAValue)
            &&& open && book.sums_fit(address_index) && available < zatoshi <= i64::MAX
                ==> placed == Err::<Book, RefusedView>(
                RefusedView::Short { address_index, available, wanted: zatoshi as int },
            )
            &&& open && book.sums_fit(address_index) && zatoshi <= available && zatoshi <= i64::MAX
                && (zatoshi == 0 || exists|i: int|
                0 <= i < book.bets.len() && (#[trigger] book.bets[i]).round_id == round_id
                    && book.bets[i].address_index == address_index) ==> placed == Err::<
                Book,
                RefusedView,
            >(RefusedView::PositionTaken)
        }),
{
    a_round_is_settled_where_its_row_says_so(book, round_id, k);
}

/// Whatever is available can be withdrawn, wherever it came from: where the sums
/// fit, asking for more than nothing and no more than the balance writes exactly
/// that withdrawal, unsent, numbered one past the last, or one.
pub proof fn whatever_is_available_can_be_withdrawn(
    book: Book,
    address_index: u32,
    zatoshi: u64,
    destination: Seq<char>,
    at: i64,
)
    requires
        book.sums_fit(address_index),
        zatoshi <= i64::MAX,
        0 < zatoshi <= book.balance(address_index),
    ensures
        ({
            let number = if book.withdrawals.len() == 0 {
                1
            } else {
                book.withdrawals[book.withdrawals.len() - 1].id + 1
            };
            &&& book.next_withdrawal_id() == number
            &&& book.after_request(address_index, zatoshi, destination, at) == Ok::<
                Book,
                RefusedView,
            >(
                Book {
                    withdrawals: book.withdrawals.push(
                        WithdrawalView {
                            id: number as i64,
                            address_index,
                            zatoshi: zatoshi as i64,
                            destination,
                            requested_at: at,
                            txid: None,
                            sent_at: None,
                        },
                    ),
                    ..book
                },
            )
        }),
{
}

/// A withdrawal is refused for what is wrong with it, in this order: the sums do
/// not fit; the amount is no signed 64-bit number; it is more than the balance;
/// it is nothing. Its number is one past the last, or one.
pub proof fn a_withdrawal_is_refused_for_what_is_wrong_with_it(
    book: Book,
    address_index: u32,
    zatoshi: u64,
    destination: Seq<char>,
    at: i64,
)
    ensures
        ({
            let asked = book.after_request(address_index, zatoshi, destination, at);
            let available = book.balance(address_index);
            &&& book.next_withdrawal_id() == (if book.withdrawals.len() == 0 {
                1
            } else {
                book.withdrawals[book.withdrawals.len() - 1].id + 1
            })
            &&& !book.sums_fit(address_index) ==> asked == Err::<Book, RefusedView>(
                RefusedView::SumTooLarge,
            )
            &&& book.sums_fit(address_index) && zatoshi > i64::MAX ==> asked == Err::<
                Book,
                RefusedView,
            >(RefusedView::AmountNotAValue)
            &&& book.sums_fit(address_index) && available < zatoshi <= i64::MAX ==> asked == Err::<
                Book,
                RefusedView,
            >(RefusedView::Short { address_index, available, wanted: zatoshi as int })
            &&& book.sums_fit(address_index) && zatoshi == 0 && available >= 0 ==> asked == Err::<
                Book,
                RefusedView,
            >(RefusedView::NothingAsked)
        }),
{
}

/// A withdrawal without a transaction takes the first that is written down for
/// it and keeps the rest of its row; one that has a transaction keeps that, and
/// a number that no row has is told.
pub proof fn a_withdrawal_takes_its_first_transaction(
    book: Book,
    k: int,
    id: i64,
    txid: Seq<char>,
    at: i64,
)
    requires
        book.wf(),
    ensures
        ({
            let marked = book.after_mark_sent(id, txid, at);
            let row = book.withdrawals[k];
            let there = 0 <= k < book.withdrawals.len() && row.id == id;
            &&& there && row.txid is None ==> marked == Ok::<Book, RefusedView>(
                Book {
                    withdrawals: book.withdrawals.update(
                        k,
                        WithdrawalView {
                            id,
                            address_index: row.address_index,
                            zatoshi: row.zatoshi,
                            destination: row.destination,
                            requested_at: row.requested_at,
                            txid: Some(txid),
                            sent_at: Some(at),
                        },
                    ),
                    ..book
                },
            )
            &&& there && row.txid is Some ==> marked == Err::<Book, RefusedView>(
                RefusedView::AlreadyPaid { id, previous: row.txid->0 },
            )
            &&& (forall|i: int|
                0 <= i < book.withdrawals.len() ==> (#[trigger] book.withdrawals[i]).id != id)
                ==> marked == Err::<Book, RefusedView>(RefusedView::NoSuchWithdrawal { id })
        }),
{
    if 0 <= k < book.withdrawals.len() && book.withdrawals[k].id == id {
        assert(book.is_withdrawal(k, id));
        withdrawal_found(book, k, id);
    }
    if book.has_withdrawal(id) {
        assert(book.is_withdrawal(book.withdrawal_index(id), id));
    }
}

/// What waits for a transaction is every withdrawal that has none, each once, as
/// its row says, in the order of the numbers.
pub proof fn every_unsent_withdrawal_waits(book: Book)
    requires
        book.wf(),
    ensures
        forall|i: int|
            0 <= i < book.withdrawals.len() && (#[trigger] book.withdrawals[i]).txid is None
                ==> book.unsent().contains(book.withdrawals[i]),
        forall|k: int|
            0 <= k < book.unsent().len() ==> (#[trigger] book.unsent()[k]).txid is None
                && book.withdrawals.contains(book.unsent()[k]),
        forall|j: int, k: int|
            0 <= j < k < book.unsent().len() ==> (#[trigger] book.unsent()[j]).id < (
            #[trigger] book.unsent()[k]).id,
{
    let s = book.withdrawals;
    assert forall|i: int| 0 <= i < s.len() && (#[trigger] s[i]).txid is None implies
        book.unsent().contains(s[i]) by {
        let k = picked_target(s, waits(), itself(), i);
        assert(book.unsent()[k] == s[i]);
    }
    assert forall|k: int| 0 <= k < book.unsent().len() implies (
    #[trigger] book.unsent()[k]).txid is None && s.contains(book.unsent()[k]) by {
        let i = picked_source(s, waits(), itself(), k);
        assert(s[i] == book.unsent()[k]);
    }
    assert forall|j: int, k: int| 0 <= j < k < book.unsent().len() implies (
    #[trigger] book.unsent()[j]).id < (#[trigger] book.unsent()[k]).id by {
        let a = picked_source(s, waits(), itself(), j);
        let b = picked_source(s, waits(), itself(), k);
        if b <= a {
            picked_grows(s, waits(), itself(), b, a);
        }
        assert(s[a].id < s[b].id);
    }
}

/// The deepest stand first: the addresses listed are those of the deposits, each
/// once, none behind one that put in less, and of two that put in the same the
/// lower index is in front. How many notes came in is how many rows there are.
pub proof fn the_deepest_stand_first(book: Book, order: Seq<u32>, a: u32)
    ensures
        book.is_ranking(order) <==> {
            &&& forall|i: int|
                0 <= i < order.len() ==> exists|k: int|
                    0 <= k < book.deposits.len() && (#[trigger] book.deposits[k]).address_index
                        == #[trigger] order[i]
            &&& forall|k: int|
                0 <= k < book.deposits.len() ==> order.contains(
                    (#[trigger] book.deposits[k]).address_index,
                )
            &&& forall|i: int, j: int|
                #![trigger order[i], order[j]]
                0 <= i < j < order.len() ==> {
                    ||| book.deposited(order[i]) > book.deposited(order[j])
                    ||| book.deposited(order[i]) == book.deposited(order[j]) && order[i] < order[j]
                }
        },
        book.deposits_to(a) == total(
            book.deposits,
            |d: DepositView|
                if d.address_index == a {
                    1int
                } else {
                    0
                },
        ),
        total(book.deposits, any_deposit()) == total(
            book.deposits,
            |d: DepositView| d.zatoshi as int,
        ),
{
    let one = |d: DepositView|
        if d.address_index == a {
            1int
        } else {
            0
        };
    total_same(book.deposits, one, one_deposit_to(a));
    let all = |d: DepositView| d.zatoshi as int;
    total_same(book.deposits, all, any_deposit());
    assert(forall|i: int, j: int|
        #![trigger order[i], order[j]]
        book.deeper(order[i], order[j]) == ({
            ||| book.deposited(order[i]) > book.deposited(order[j])
            ||| book.deposited(order[i]) == book.deposited(order[j]) && order[i] < order[j]
        }));
    assert(forall|i: int|
        #![trigger order[i]]
        book.has_deposit_to(order[i]) == exists|k: int|
            0 <= k < book.deposits.len() && (#[trigger] book.deposits[k]).address_index
                == order[i]);
}

/// The book reaches as far as its highest note.
pub proof fn the_book_reaches_its_highest_note(book: Book, height: u32)
    ensures
        book.is_highest(height) <==> {
            &&& exists|i: int|
                0 <= i < book.deposits.len() && (#[trigger] book.deposits[i]).height == height
            &&& forall|i: int|
                0 <= i < book.deposits.len() ==> (#[trigger] book.deposits[i]).height <= height
        },
{
}

/// A row is seen as it is stored: every number as it is, and every text as its
/// characters.
pub proof fn a_row_is_seen_as_it_is_stored(
    deposit: Deposit,
    depositor: Depositor,
    round: Round,
    bet: Bet,
    withdrawal: Withdrawal,
    settlement: Settlement,
)
    ensures
        deposit@ == (DepositView {
            txid: deposit.txid@,
            output: deposit.output,
            address_index: deposit.address_index,
            zatoshi: deposit.zatoshi,
            height: deposit.height,
            memo: deposit.memo@,
        }),
        depositor@ == (DepositorView {
            address_index: depositor.address_index,
            label: depositor.label@,
            created_at: depositor.created_at,
        }),
        round@ == (RoundView {
            id: round.id,
            settles_on: round.settles_on,
            outcome: match round.outcome {
                Some(outcome) => Some(outcome@),
                None => None,
            },
            settled_at: round.settled_at,
        }),
        bet@ == (BetView {
            round_id: bet.round_id,
            address_index: bet.address_index,
            outcome: bet.outcome@,
            zatoshi: bet.zatoshi,
            placed_at: bet.placed_at,
        }),
        withdrawal@ == (WithdrawalView {
            id: withdrawal.id,
            address_index: withdrawal.address_index,
            zatoshi: withdrawal.zatoshi,
            destination: withdrawal.destination@,
            requested_at: withdrawal.requested_at,
            txid: match withdrawal.txid {
                Some(txid) => Some(txid@),
                None => None,
            },
            sent_at: withdrawal.sent_at,
        }),
        settlement@ == (SettlementView {
            outcome: settlement.outcome@,
            staked: settlement.staked as int,
            winners: settlement.winners as nat,
            paid: settlement.paid as int,
            rake: settlement.rake as int,
            refunded: settlement.refunded,
        }),
{
}

/// A book is its tables, row by row: none left out, none added, none moved.
pub proof fn a_book_is_its_tables(tables: Tables)
    ensures
        tables@.deposits.len() == tables.deposits@.len(),
        tables@.depositors.len() == tables.depositors@.len(),
        tables@.rounds.len() == tables.rounds@.len(),
        tables@.bets.len() == tables.bets@.len(),
        tables@.withdrawals.len() == tables.withdrawals@.len(),
        tables@.payouts == tables.payouts@,
        tables@.rakes == tables.rakes@,
        forall|i: int|
            0 <= i < tables.deposits@.len() ==> #[trigger] tables@.deposits[i]
                == tables.deposits@[i]@,
        forall|i: int|
            0 <= i < tables.depositors@.len() ==> #[trigger] tables@.depositors[i]
                == tables.depositors@[i]@,
        forall|i: int|
            0 <= i < tables.rounds@.len() ==> #[trigger] tables@.rounds[i] == tables.rounds@[i]@,
        forall|i: int|
            0 <= i < tables.bets@.len() ==> #[trigger] tables@.bets[i] == tables.bets@[i]@,
        forall|i: int|
            0 <= i < tables.withdrawals@.len() ==> #[trigger] tables@.withdrawals[i]
                == tables.withdrawals@[i]@,
{
}

/// A ledger keeps its rules where its rows make a book, and a blank one has no
/// rows.
pub proof fn a_ledger_is_its_book(ledger: Ledger)
    ensures
        ledger.wf() == ledger@.wf(),
        Book::blank().deposits.len() == 0,
        Book::blank().depositors.len() == 0,
        Book::blank().rounds.len() == 0,
        Book::blank().bets.len() == 0,
        Book::blank().payouts.len() == 0,
        Book::blank().withdrawals.len() == 0,
        Book::blank().rakes.len() == 0,
{
}

}
