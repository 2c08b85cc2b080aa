//! What comes of a call, told by what goes in and what comes out.

use vstd::prelude::*;

use crate::book::Book;
use crate::closing::{
    a_round_nobody_called_is_paid_back, a_round_somebody_called_is_divided,
    closing_names_the_outcome_and_pays,
};
use crate::ledger::Ledger;
use crate::refusal::LedgerError;
use crate::rows::{
    BetView, Deposit, DepositView, DepositorView, Payout, Settlement, Tables, WithdrawalView,
};
use crate::sums::total;
use crate::terms::{
    a_balance_is_its_rows, a_block_without_a_round_gets_one, a_new_note_is_written_as_it_is,
    a_stake_that_can_be_funded_is_taken, a_withdrawal_takes_its_first_transaction,
    an_address_keeps_its_first_name, every_unsent_withdrawal_waits, the_book_reaches_its_highest_note,
    the_deepest_stand_first, whatever_is_available_can_be_withdrawn,
};

verus! {

/// Placing a stake that can be funded succeeds, whatever else the address has
/// staked or ever staked in other rounds, and writes exactly that bet.
pub proof fn placing_what_can_be_funded_succeeds(
    ledger: &mut Ledger,
    k: int,
    round_id: i64,
    address_index: u32,
    outcome: &str,
    zatoshi: u64,
    at: i64,
    result: Result<(), LedgerError>,
)
    requires
        call_ensures(
            Ledger::place,
            (ledger, round_id, address_index, outcome, zatoshi, at),
            result,
        ),
        old(ledger)@.wf(),
        0 <= k < old(ledger)@.rounds.len(),
        old(ledger)@.rounds[k].id == round_id,
        old(ledger)@.rounds[k].outcome is None,
        old(ledger)@.sums_fit(address_index),
        zatoshi <= i64::MAX,
        0 < zatoshi <= old(ledger)@.balance(address_index),
        forall|i: int|
            0 <= i < old(ledger)@.bets.len() ==> (#[trigger] old(ledger)@.bets[i]).round_id
                != round_id || old(ledger)@.bets[i].address_index != address_index,
    ensures
        result is Ok,
        final(ledger)@ == (Book {
            bets: old(ledger)@.bets.push(
                BetView {
                    round_id,
                    address_index,
                    outcome: outcome@,
                    zatoshi: zatoshi as i64,
                    placed_at: at,
                },
            ),
            ..old(ledger)@
        }),
{
    a_stake_that_can_be_funded_is_taken(
        old(ledger)@,
        k,
        round_id,
        address_index,
        outcome@,
        zatoshi,
        at,
    );
}

/// Asking for no more than is available succeeds, wherever it came from, and writes
/// exactly that withdrawal under the number that is answered.
pub proof fn asking_for_what_is_available_succeeds(
    ledger: &mut Ledger,
    address_index: u32,
    zatoshi: u64,
    destination: &str,
    at: i64,
    result: Result<i64, LedgerError>,
)
    requires
        call_ensures(
            Ledger::request_withdrawal,
            (ledger, address_index, zatoshi, destination, at),
            result,
        ),
        old(ledger)@.wf(),
        old(ledger)@.sums_fit(address_index),
        zatoshi <= i64::MAX,
        0 < zatoshi <= old(ledger)@.balance(address_index),
        old(ledger)@.withdrawals.len() > 0 ==> old(
            ledger,
        )@.withdrawals[old(ledger)@.withdrawals.len() - 1].id < i64::MAX,
    ensures
        result is Ok,
        result->Ok_0 == (if old(ledger)@.withdrawals.len() == 0 {
            1
        } else {
            old(ledger)@.withdrawals[old(ledger)@.withdrawals.len() - 1].id + 1
        }),
        final(ledger)@ == (Book {
            withdrawals: old(ledger)@.withdrawals.push(
                WithdrawalView {
                    id: result->Ok_0,
                    address_index,
                    zatoshi: zatoshi as i64,
                    destination: destination@,
                    requested_at: at,
                    txid: None,
                    sent_at: None,
                },
            ),
            ..old(ledger)@
        }),
{
    whatever_is_available_can_be_withdrawn(
        old(ledger)@,
        address_index,
        zatoshi,
        destination@,
        at,
    );
}

/// Closing an open round on an outcome that a bet of it names, where it has paid
/// nobody and was not raked, succeeds, refunds nothing, counts the bets that name
/// it, and pays each of them, and nobody else, its stake and its part of what the
/// others lost less three hundredths.
#[verifier::spinoff_prover]
pub proof fn closing_a_round_somebody_called_pays_the_callers(
    ledger: &mut Ledger,
    k: int,
    caller: int,
    round_id: i64,
    outcome: &str,
    at: i64,
    result: Result<Settlement, LedgerError>,
)
    requires
        call_ensures(Ledger::settle, (ledger, round_id, outcome, at), result),
        old(ledger)@.wf(),
        0 <= k < old(ledger)@.rounds.len(),
        old(ledger)@.rounds[k].id == round_id,
        old(ledger)@.rounds[k].outcome is None,
        0 <= caller < old(ledger)@.bets.len(),
        old(ledger)@.bets[caller].round_id == round_id,
        old(ledger)@.bets[caller].outcome == outcome@,
        forall|i: int|
            0 <= i < old(ledger)@.payouts.len() ==> (#[trigger] old(ledger)@.payouts[i]).round_id
                != round_id,
        forall|i: int|
            0 <= i < old(ledger)@.rakes.len() ==> (#[trigger] old(ledger)@.rakes[i]).round_id
                != round_id,
        total(
            old(ledger)@.bets,
            |b: BetView|
                if b.round_id == round_id {
                    b.zatoshi as int
                } else {
                    0
                },
        ) <= i64::MAX,
    ensures
        ({
            let bets = old(ledger)@.bets;
            let paid_before = old(ledger)@.payouts;
            let paid_after = final(ledger)@.payouts;
            let won = total(
                bets,
                |b: BetView|
                    if b.round_id == round_id && b.outcome == outcome@ {
                        b.zatoshi as int
                    } else {
                        0
                    },
            );
            let lost = total(
                bets,
                |b: BetView|
                    if b.round_id == round_id && b.outcome != outcome@ {
                        b.zatoshi as int
                    } else {
                        0
                    },
            );
            let one = |b: BetView|
                if b.round_id == round_id && b.outcome == outcome@ {
                    1int
                } else {
                    0
                };
            &&& result matches Ok(settlement) && settlement.outcome@ == outcome@
                && settlement.staked == won + lost && settlement.winners == total(bets, one)
                && !settlement.refunded && settlement.paid + settlement.rake == won + lost
            &&& paid_after.len() == paid_before.len() + total(bets, one)
            &&& forall|j: int|
                0 <= j < paid_before.len() ==> #[trigger] paid_after[j] == paid_before[j]
            &&& forall|j: int|
                0 <= j < bets.len() && (#[trigger] bets[j]).round_id == round_id && bets[j].outcome
                    == outcome@ ==> {
                    let payout = paid_after[paid_before.len() + total(bets.take(j), one)];
                    &&& 0 <= total(bets.take(j), one) < total(bets, one)
                    &&& payout.round_id == round_id
                    &&& payout.address_index == bets[j].address_index
                    &&& payout.zatoshi == bets[j].zatoshi + (lost - lost * 3 / 100)
                        * bets[j].zatoshi / won
                }
            &&& forall|m: int|
                paid_before.len() <= m < paid_after.len() ==> exists|j: int|
                    0 <= j < bets.len() && (#[trigger] bets[j]).round_id == round_id
                        && bets[j].outcome == outcome@ && bets[j].address_index == (
                    #[trigger] paid_after[m]).address_index
            &&& final(ledger)@.rounds[k].outcome == Some(outcome@)
            &&& final(ledger)@.bets == bets
        }),
{
    let book = old(ledger)@;
    a_round_somebody_called_is_divided(book, caller, round_id, outcome@);
    closing_names_the_outcome_and_pays(book, k, round_id, outcome@, at);
    let payouts = book.payouts_of(round_id, outcome@);
    let all = final(ledger)@.payouts;
    assert(all == book.payouts + payouts);
    assert forall|m: int| book.payouts.len() <= m < all.len() implies #[trigger] all[m]
        == payouts[m - book.payouts.len()] by {}
    assert forall|m: int| 0 <= m < payouts.len() implies #[trigger] all[book.payouts.len() + m]
        == payouts[m] by {}
    assert forall|m: int| book.payouts.len() <= m < all.len() implies exists|j: int|
        0 <= j < book.bets.len() && (#[trigger] book.bets[j]).round_id == round_id
            && book.bets[j].outcome == outcome@ && book.bets[j].address_index == (
        #[trigger] all[m]).address_index by {
        let payout = payouts[m - book.payouts.len()];
        assert(all[m] == payout);
    }
}

/// Closing an open round on an outcome that no bet of it names, where it has paid
/// nobody and was not raked, succeeds, pays every bet of it back its stake and
/// keeps nothing.
#[verifier::spinoff_prover]
pub proof fn closing_a_round_nobody_called_pays_everybody_back(
    ledger: &mut Ledger,
    k: int,
    round_id: i64,
    outcome: &str,
    at: i64,
    result: Result<Settlement, LedgerError>,
)
    requires
        call_ensures(Ledger::settle, (ledger, round_id, outcome, at), result),
        old(ledger)@.wf(),
        0 <= k < old(ledger)@.rounds.len(),
        old(ledger)@.rounds[k].id == round_id,
        old(ledger)@.rounds[k].outcome is None,
        forall|i: int|
            0 <= i < old(ledger)@.bets.len() && (#[trigger] old(ledger)@.bets[i]).round_id
                == round_id ==> old(ledger)@.bets[i].outcome != outcome@,
        forall|i: int|
            0 <= i < old(ledger)@.payouts.len() ==> (#[trigger] old(ledger)@.payouts[i]).round_id
                != round_id,
        forall|i: int|
            0 <= i < old(ledger)@.rakes.len() ==> (#[trigger] old(ledger)@.rakes[i]).round_id
                != round_id,
    ensures
        ({
            let bets = old(ledger)@.bets;
            let paid_before = old(ledger)@.payouts;
            let paid_after = final(ledger)@.payouts;
            let staked = total(
                bets,
                |b: BetView|
                    if b.round_id == round_id {
                        b.zatoshi as int
                    } else {
                        0
                    },
            );
            let one = |b: BetView|
                if b.round_id == round_id {
                    1int
                } else {
                    0
                };
            &&& result matches Ok(settlement) && settlement.refunded && settlement.winners == 0
                && settlement.staked == staked && settlement.paid == staked && settlement.rake == 0
            &&& paid_after.len() == paid_before.len() + total(bets, one)
            &&& forall|j: int|
                0 <= j < paid_before.len() ==> #[trigger] paid_after[j] == paid_before[j]
            &&& forall|j: int|
                0 <= j < bets.len() && (#[trigger] bets[j]).round_id == round_id ==> {
                    &&& 0 <= total(bets.take(j), one) < total(bets, one)
                    &&& paid_after[paid_before.len() + total(bets.take(j), one)] == (Payout {
                        round_id,
                        address_index: bets[j].address_index,
                        zatoshi: bets[j].zatoshi,
                    })
                }
            &&& final(ledger)@.rounds[k].outcome == Some(outcome@)
            &&& final(ledger)@.bets == bets
        }),
{
    let book = old(ledger)@;
    a_round_nobody_called_is_paid_back(book, round_id, outcome@);
    closing_names_the_outcome_and_pays(book, k, round_id, outcome@, at);
    let payouts = book.payouts_of(round_id, outcome@);
    let all = final(ledger)@.payouts;
    assert(all == book.payouts + payouts);
    assert forall|m: int| 0 <= m < payouts.len() implies #[trigger] all[book.payouts.len() + m]
        == payouts[m] by {}
}

/// What is refused changes nothing.
pub proof fn what_is_refused_changes_nothing(
    ledger: &mut Ledger,
    number: i64,
    address_index: u32,
    text: &str,
    zatoshi: u64,
    at: i64,
    error: LedgerError,
    deposit: &Deposit,
)
    requires
        ({
            ||| call_ensures(
                Ledger::place,
                (ledger, number, address_index, text, zatoshi, at),
                Err::<(), LedgerError>(error),
            )
            ||| call_ensures(
                Ledger::request_withdrawal,
                (ledger, address_index, zatoshi, text, at),
                Err::<i64, LedgerError>(error),
            )
            ||| call_ensures(
                Ledger::settle,
                (ledger, number, text, at),
                Err::<Settlement, LedgerError>(error),
            )
            ||| call_ensures(
                Ledger::mark_sent,
                (ledger, number, text, at),
                Err::<(), LedgerError>(error),
            )
            ||| call_ensures(
                Ledger::record_deposit,
                (ledger, deposit),
                Err::<bool, LedgerError>(error),
            )
        }),
    ensures
        final(ledger)@ == old(ledger)@,
{
}

/// Recording a note that is not there writes it, tells that it was new, and one
/// that is there is told of as such and written no second time.
pub proof fn recording_a_note_twice_counts_once(
    ledger: &mut Ledger,
    deposit: &Deposit,
    result: Result<bool, LedgerError>,
)
    requires
        call_ensures(Ledger::record_deposit, (ledger, deposit), result),
        deposit.zatoshi <= i64::MAX,
    ensures
        ({
            let there = exists|i: int|
                0 <= i < old(ledger)@.deposits.len() && (#[trigger] old(ledger)@.deposits[i]).txid
                    == deposit.txid@ && old(ledger)@.deposits[i].output == deposit.output;
            &&& result == Ok::<bool, LedgerError>(!there)
            &&& there ==> final(ledger)@ == old(ledger)@
            &&& !there ==> final(ledger)@ == (Book {
                deposits: old(ledger)@.deposits.push(
                    DepositView {
                        txid: deposit.txid@,
                        output: deposit.output,
                        address_index: deposit.address_index,
                        zatoshi: deposit.zatoshi,
                        height: deposit.height,
                        memo: deposit.memo@,
                    },
                ),
                ..old(ledger)@
            })
        }),
{
    a_new_note_is_written_as_it_is(old(ledger)@, deposit@);
}

/// Opening a round answers with the number of the one round of its block, which is
/// the number it has where it is there, and moves none that was there.
pub proof fn opening_a_round_answers_with_its_number(
    ledger: &mut Ledger,
    settles_on: u32,
    id: i64,
    k: int,
)
    requires
        call_ensures(Ledger::open_round, (ledger, settles_on), id),
        old(ledger)@.wf(),
        0 <= k < final(ledger)@.rounds.len(),
        final(ledger)@.rounds[k].settles_on == settles_on,
    ensures
        id == final(ledger)@.rounds[k].id,
        k < old(ledger)@.rounds.len() ==> final(ledger)@ == old(ledger)@,
        k >= old(ledger)@.rounds.len() ==> k == old(ledger)@.rounds.len()
            && final(ledger)@.rounds[k].outcome is None && final(ledger)@ == (Book {
            rounds: old(ledger)@.rounds.push(final(ledger)@.rounds[k]),
            ..old(ledger)@
        }),
{
    a_block_without_a_round_gets_one(old(ledger)@, settles_on, k);
    a_block_without_a_round_gets_one(final(ledger)@, settles_on, k);
}

/// A transaction is written down for a withdrawal that has none, and for no other.
pub proof fn a_transaction_is_written_down_once(
    ledger: &mut Ledger,
    k: int,
    id: i64,
    txid: &str,
    at: i64,
    result: Result<(), LedgerError>,
)
    requires
        call_ensures(Ledger::mark_sent, (ledger, id, txid, at), result),
        old(ledger)@.wf(),
        0 <= k < old(ledger)@.withdrawals.len(),
        old(ledger)@.withdrawals[k].id == id,
    ensures
        result is Ok <==> old(ledger)@.withdrawals[k].txid is None,
        result is Ok ==> final(ledger)@.withdrawals[k].txid == Some(txid@)
            && final(ledger)@.withdrawals[k].sent_at == Some(at),
        final(ledger)@.withdrawals.len() == old(ledger)@.withdrawals.len(),
        forall|i: int|
            0 <= i < old(ledger)@.withdrawals.len() && i != k
                ==> #[trigger] final(ledger)@.withdrawals[i] == old(ledger)@.withdrawals[i],
        final(ledger)@ == (Book { withdrawals: final(ledger)@.withdrawals, ..old(ledger)@ }),
{
    a_withdrawal_takes_its_first_transaction(old(ledger)@, k, id, txid@, at);
}

/// An address is handed out under its first name.
pub proof fn handing_out_an_address_again_changes_nothing(
    ledger: &mut Ledger,
    address_index: u32,
    label: &str,
    at: i64,
    k: int,
)
    requires
        call_ensures(Ledger::assign, (ledger, address_index, label, at), ()),
        old(ledger)@.wf(),
    ensures
        0 <= k < old(ledger)@.depositors.len() && old(ledger)@.depositors[k].address_index
            == address_index ==> final(ledger)@ == old(ledger)@,
        (forall|i: int|
            0 <= i < old(ledger)@.depositors.len() ==> (
            #[trigger] old(ledger)@.depositors[i]).address_index != address_index)
            ==> final(ledger)@ == (Book {
            depositors: old(ledger)@.depositors.push(
                DepositorView { address_index, label: label@, created_at: at },
            ),
            ..old(ledger)@
        }),
{
    an_address_keeps_its_first_name(
        old(ledger)@,
        DepositorView { address_index, label: label@, created_at: at },
        k,
    );
}

/// What is available is what came in, less what was staked, plus what rounds paid,
/// less what was asked to leave.
pub proof fn what_is_available_is_told_by_the_rows(
    ledger: &Ledger,
    a: u32,
    result: Result<i64, LedgerError>,
)
    requires
        call_ensures(Ledger::available, (ledger, a), result),
    ensures
        result is Ok <==> ledger@.sums_fit(a),
        result matches Ok(available) ==> available == total(
            ledger@.deposits,
            |d: DepositView|
                if d.address_index == a {
                    d.zatoshi as int
                } else {
                    0
                },
        ) - total(
            ledger@.bets,
            |b: BetView|
                if b.address_index == a {
                    b.zatoshi as int
                } else {
                    0
                },
        ) + total(
            ledger@.payouts,
            |p: Payout|
                if p.address_index == a {
                    p.zatoshi as int
                } else {
                    0
                },
        ) - total(
            ledger@.withdrawals,
            |w: WithdrawalView|
                if w.address_index == a {
                    w.zatoshi as int
                } else {
                    0
                },
        ),
{
    a_balance_is_its_rows(ledger@, a);
}

/// What waits for a transaction is told in the order of the numbers: every
/// withdrawal without one, none with one, and each as its row says.
pub proof fn what_waits_is_told_in_order(
    ledger: &Ledger,
    list: Vec<(i64, u32, u64, String)>,
    k: int,
)
    requires
        call_ensures(Ledger::unsent_withdrawals, (ledger,), list),
        ledger@.wf(),
    ensures
        forall|i: int, j: int|
            0 <= i < j < list@.len() ==> (#[trigger] list@[i]).0 < (#[trigger] list@[j]).0,
        0 <= k < ledger@.withdrawals.len() && ledger@.withdrawals[k].txid is None ==> exists|
            i: int,
        |
            0 <= i < list@.len() && (#[trigger] list@[i]).0 == ledger@.withdrawals[k].id
                && list@[i].1 == ledger@.withdrawals[k].address_index && list@[i].2
                == ledger@.withdrawals[k].zatoshi && list@[i].3@
                == ledger@.withdrawals[k].destination,
        0 <= k < ledger@.withdrawals.len() && ledger@.withdrawals[k].txid is Some ==> forall|i: int|
            0 <= i < list@.len() ==> (#[trigger] list@[i]).0 != ledger@.withdrawals[k].id,
{
    every_unsent_withdrawal_waits(ledger@);
    let unsent = ledger@.unsent();
    let rows = ledger@.withdrawals;
    assert forall|i: int, j: int| 0 <= i < j < list@.len() implies (#[trigger] list@[i]).0 < (
    #[trigger] list@[j]).0 by {
        assert(unsent[i].id < unsent[j].id);
    }
    if 0 <= k < rows.len() && rows[k].txid is None {
        let i = choose|i: int| 0 <= i < unsent.len() && unsent[i] == rows[k];
        assert(unsent.contains(rows[k]));
        assert(list@[i].0 == rows[k].id);
    }
    if 0 <= k < rows.len() && rows[k].txid is Some {
        assert forall|i: int| 0 <= i < list@.len() implies (#[trigger] list@[i]).0 != rows[k].id by {
            assert(rows.contains(unsent[i]));
            let j = choose|j: int| 0 <= j < rows.len() && rows[j] == unsent[i];
            if j < k {
                assert(rows[j].id < rows[k].id);
            } else if k < j {
                assert(rows[k].id < rows[j].id);
            }
        }
    }
}

/// What came in altogether, and how far up the chain.
pub proof fn what_came_in_is_told_by_the_notes(
    ledger: &Ledger,
    sum: Result<u64, LedgerError>,
    height: Option<u32>,
    empty: bool,
)
    requires
        call_ensures(Ledger::total, (ledger,), sum),
        call_ensures(Ledger::recorded_to, (ledger,), height),
        call_ensures(Ledger::is_empty, (ledger,), empty),
    ensures
        ({
            let all = total(ledger@.deposits, |d: DepositView| d.zatoshi as int);
            &&& sum is Ok <==> all <= i64::MAX
            &&& sum matches Ok(sum) ==> sum == all
        }),
        empty <==> ledger@.deposits.len() == 0,
        height is None <==> empty,
        forall|i: int|
            0 <= i < ledger@.deposits.len() ==> (#[trigger] ledger@.deposits[i]).height
                <= height->0,
        !empty ==> exists|i: int|
            0 <= i < ledger@.deposits.len() && (#[trigger] ledger@.deposits[i]).height
                == height->0,
{
    the_deepest_stand_first(ledger@, Seq::empty(), 0);
    if height is Some {
        the_book_reaches_its_highest_note(ledger@, height->0);
    }
}

/// Rows are taken up as they are, where they make a book, and handed out again as
/// they were.
pub proof fn rows_are_taken_up_as_they_are(
    tables: Tables,
    result: Result<Ledger, LedgerError>,
    ledger: &Ledger,
    rows: &Tables,
    blank: Ledger,
)
    requires
        call_ensures(Ledger::open, (tables,), result),
        call_ensures(Ledger::tables, (ledger,), rows),
        call_ensures(Ledger::prepare, (), blank),
    ensures
        result is Ok <==> tables@.wf(),
        result matches Ok(opened) ==> opened@ == tables@,
        rows@ == ledger@,
        blank@.deposits.len() == 0,
        blank@.depositors.len() == 0,
        blank@.rounds.len() == 0,
        blank@.bets.len() == 0,
        blank@.payouts.len() == 0,
        blank@.withdrawals.len() == 0,
        blank@.rakes.len() == 0,
{
}

}
