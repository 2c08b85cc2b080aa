//! Histories: what holds of the book after any operations, in any order.

use vstd::prelude::*;

use crate::book::{bet_on, Book};
use crate::division::paid_and_raked;
use crate::laws::{
    a_deposit_counts_once, a_round_neither_creates_nor_loses_money, a_stake_is_committed_at_once,
    a_withdrawal_is_debited_when_it_is_asked_for, a_withdrawal_is_not_paid_by_two_transactions,
    any_payout, any_rake, bet_in_settled, conserved, evidenced, settling_pays_each_position,
    solvent, sound,
};
use crate::rows::{BetView, DepositView, DepositorView, Rake};
use crate::rules::{
    assign_keeps_rules, deposit_keeps_rules, mark_sent_keeps_rules, open_round_keeps_rules,
    place_keeps_rules, request_keeps_rules, round_found, round_on_found, rounds_settle,
    settle_keeps_rules, withdrawal_found,
};
use crate::sums::{picked_source, total_concat, total_push, total_same, total_sum};

verus! {

/// One operation on the book.
pub enum Step {
    Deposit { deposit: DepositView },
    Assign { depositor: DepositorView },
    OpenRound { settles_on: u32 },
    Place { round_id: i64, address_index: u32, outcome: Seq<char>, zatoshi: u64, at: i64 },
    Request { address_index: u32, zatoshi: u64, destination: Seq<char>, at: i64 },
    MarkSent { id: i64, txid: Seq<char>, at: i64 },
    Settle { round_id: i64, outcome: Seq<char>, at: i64 },
}

/// The numbers that the operation works with fit the machine.
pub open spec fn fits(book: Book, step: Step) -> bool {
    match step {
        Step::OpenRound { settles_on } => book.has_round_on(settles_on) || book.next_round_id()
            <= i64::MAX,
        Step::Request { address_index, zatoshi, destination, at } => book.next_withdrawal_id()
            <= i64::MAX,
        Step::Settle { round_id, outcome, at } => book.unsettled(round_id) ==> book.pools_fit(
            round_id,
            outcome,
        ),
        _ => true,
    }
}

/// The book after an operation; a refused one leaves it as it was.
pub open spec fn after(book: Book, step: Step) -> Book {
    match step {
        Step::Deposit { deposit } => match book.after_deposit(deposit) {
            Ok(next) => next,
            Err(e) => book,
        },
        Step::Assign { depositor } => book.after_assign(depositor),
        Step::OpenRound { settles_on } => book.after_open_round(settles_on),
        Step::Place { round_id, address_index, outcome, zatoshi, at } => match book.after_place(
            round_id,
            address_index,
            outcome,
            zatoshi,
            at,
        ) {
            Ok(next) => next,
            Err(e) => book,
        },
        Step::Request { address_index, zatoshi, destination, at } => match book.after_request(
            address_index,
            zatoshi,
            destination,
            at,
        ) {
            Ok(next) => next,
            Err(e) => book,
        },
        Step::MarkSent { id, txid, at } => match book.after_mark_sent(id, txid, at) {
            Ok(next) => next,
            Err(e) => book,
        },
        Step::Settle { round_id, outcome, at } => match book.after_settle(round_id, outcome, at) {
            Ok(next) => next,
            Err(e) => book,
        },
    }
}

/// The book after operations, one after the other.
pub open spec fn after_all(book: Book, steps: Seq<Step>) -> Book
    decreases steps.len(),
{
    if steps.len() == 0 {
        book
    } else {
        after(after_all(book, steps.drop_last()), steps.last())
    }
}

/// The numbers of every operation fit the machine when its turn comes.
pub open spec fn all_fit(book: Book, steps: Seq<Step>) -> bool
    decreases steps.len(),
{
    steps.len() == 0 || (all_fit(book, steps.drop_last()) && fits(
        after_all(book, steps.drop_last()),
        steps.last(),
    ))
}

/// Every operation keeps the rules that every book keeps.
pub proof fn every_operation_keeps_the_rules(book: Book, step: Step)
    requires
        book.wf(),
        fits(book, step),
    ensures
        after(book, step).wf(),
{
    match step {
        Step::Deposit { deposit } => deposit_keeps_rules(book, deposit),
        Step::Assign { depositor } => assign_keeps_rules(book, depositor),
        Step::OpenRound { settles_on } => open_round_keeps_rules(book, settles_on),
        Step::Place { round_id, address_index, outcome, zatoshi, at } => place_keeps_rules(
            book,
            round_id,
            address_index,
            outcome,
            zatoshi,
            at,
        ),
        Step::Request { address_index, zatoshi, destination, at } => request_keeps_rules(
            book,
            address_index,
            zatoshi,
            destination,
            at,
        ),
        Step::MarkSent { id, txid, at } => mark_sent_keeps_rules(book, id, txid, at),
        Step::Settle { round_id, outcome, at } => settle_keeps_rules(book, round_id, outcome, at),
    }
}

/// No operation leaves anybody owing the house.
pub proof fn nobody_is_left_owing_the_house(book: Book, step: Step)
    requires
        book.wf(),
        solvent(book),
        fits(book, step),
    ensures
        solvent(after(book, step)),
{
    let next = after(book, step);
    assert forall|a: u32| #[trigger] next.balance(a) >= 0 by {
        assert(book.balance(a) >= 0);
        match step {
            Step::Deposit { deposit } => a_deposit_counts_once(book, deposit, a),
            Step::Assign { depositor } => {},
            Step::OpenRound { settles_on } => {},
            Step::Place { round_id, address_index, outcome, zatoshi, at } =>
                a_stake_is_committed_at_once(
                book,
                round_id,
                address_index,
                outcome,
                zatoshi,
                at,
                a,
                outcome,
                zatoshi,
                at,
            ),
            Step::Request { address_index, zatoshi, destination, at } =>
                a_withdrawal_is_debited_when_it_is_asked_for(
                book,
                address_index,
                zatoshi,
                destination,
                at,
                a,
                destination,
                at,
            ),
            Step::MarkSent { id, txid, at } => a_withdrawal_is_not_paid_by_two_transactions(
                book,
                id,
                txid,
                at,
                txid,
                at,
                a,
            ),
            Step::Settle { round_id, outcome, at } => {
                if book.unsettled(round_id) {
                    settling_pays_each_position(book, round_id, outcome, at, a);
                }
            },
        }
    }
}

/// Over the whole book, no operation creates or loses money between what was
/// staked in settled rounds, what was paid out and what was raked.
pub proof fn no_operation_creates_or_loses_money(book: Book, step: Step)
    requires
        book.wf(),
        conserved(book),
        fits(book, step),
    ensures
        conserved(after(book, step)),
{
    let next = after(book, step);
    let before = bet_in_settled(book);
    let now = bet_in_settled(next);
    match step {
        Step::Settle { round_id, outcome, at } => {
            if let Ok(_) = book.after_settle(round_id, outcome, at) {
                settle_keeps_rules(book, round_id, outcome, at);
                paid_and_raked(book, round_id, outcome);
                a_round_neither_creates_nor_loses_money(book, round_id, outcome);
                let on = bet_on(round_id);
                assert forall|i: int| 0 <= i < book.bets.len() implies #[trigger] now(book.bets[i])
                    == before(book.bets[i]) + on(book.bets[i]) by {
                    assert(next.settled(book.bets[i].round_id) == (book.settled(
                        book.bets[i].round_id,
                    ) || book.bets[i].round_id == round_id));
                }
                total_sum(book.bets, before, on, now);
                total_concat(book.payouts, book.payouts_of(round_id, outcome), any_payout());
                total_push(
                    book.rakes,
                    Rake { round_id, zatoshi: book.rake(round_id, outcome) as i64 },
                    any_rake(),
                );
            }
        },
        Step::OpenRound { settles_on } => {
            open_round_keeps_rules(book, settles_on);
            assert forall|i: int| 0 <= i < book.bets.len() implies #[trigger] now(book.bets[i])
                == before(book.bets[i]) by {
                assert(next.settled(book.bets[i].round_id) == book.settled(book.bets[i].round_id));
            }
            total_same(book.bets, now, before);
        },
        _ => {
            rounds_settle(book, next);
            assert forall|i: int| 0 <= i < book.bets.len() implies #[trigger] now(book.bets[i])
                == before(book.bets[i]) by {
                assert(next.settled(book.bets[i].round_id) == book.settled(book.bets[i].round_id));
            }
            total_same(book.bets, now, before);
            if let Step::Place { round_id, address_index, outcome, zatoshi, at } = step {
                if let Ok(_) = book.after_place(round_id, address_index, outcome, zatoshi, at) {
                    let bet = BetView {
                        round_id,
                        address_index,
                        outcome,
                        zatoshi: zatoshi as i64,
                        placed_at: at,
                    };
                    total_push(book.bets, bet, now);
                    assert(next.settled(round_id) == book.settled(round_id));
                }
            }
        },
    }
}

/// No operation pays or rakes a round that is not settled, or pays less than
/// nothing.
pub proof fn only_settled_rounds_pay(book: Book, step: Step)
    requires
        book.wf(),
        evidenced(book),
        fits(book, step),
    ensures
        evidenced(after(book, step)),
{
    let next = after(book, step);
    match step {
        Step::Settle { round_id, outcome, at } => {
            if let Ok(_) = book.after_settle(round_id, outcome, at) {
                settle_keeps_rules(book, round_id, outcome, at);
                paid_and_raked(book, round_id, outcome);
                let added = book.payouts_of(round_id, outcome);
                let n = book.payouts.len() as int;
                assert forall|i: int| 0 <= i < next.payouts.len() implies (
                #[trigger] next.payouts[i]).zatoshi >= 0 && next.settled(
                    next.payouts[i].round_id,
                ) by {
                    if i >= n {
                        assert(next.payouts[i] == added[i - n]);
                        let k = picked_source(
                            book.bets,
                            book.pays(round_id, outcome),
                            book.payout_for(round_id, outcome),
                            i - n,
                        );
                        let paid = book.paid_to_bet(round_id, outcome);
                        assert(0 <= paid(book.bets[k]) <= book.staked(round_id));
                    } else {
                        assert(next.payouts[i] == book.payouts[i]);
                    }
                }
                assert forall|i: int| 0 <= i < next.rakes.len() implies next.settled(
                    (#[trigger] next.rakes[i]).round_id,
                ) by {
                    if i < book.rakes.len() {
                        assert(next.rakes[i] == book.rakes[i]);
                    }
                }
            }
        },
        Step::OpenRound { settles_on } => open_round_keeps_rules(book, settles_on),
        _ => rounds_settle(book, next),
    }
}

/// No operation makes a sound book unsound.
pub proof fn every_operation_keeps_the_book_sound(book: Book, step: Step)
    requires
        sound(book),
        fits(book, step),
    ensures
        sound(after(book, step)),
{
    every_operation_keeps_the_rules(book, step);
    only_settled_rounds_pay(book, step);
    nobody_is_left_owing_the_house(book, step);
    no_operation_creates_or_loses_money(book, step);
}

/// A book that began with nothing in it keeps the rules, leaves nobody owing
/// the house, and has neither created nor lost money, whatever was done to it.
pub proof fn every_history_is_sound(steps: Seq<Step>)
    requires
        all_fit(Book::blank(), steps),
    ensures
        sound(after_all(Book::blank(), steps)),
    decreases steps.len(),
{
    if steps.len() > 0 {
        let before = after_all(Book::blank(), steps.drop_last());
        every_history_is_sound(steps.drop_last());
        every_operation_keeps_the_book_sound(before, steps.last());
    }
}

/// What a round settled on, and which transaction paid a withdrawal, is final:
/// no operation changes either.
pub proof fn what_is_settled_or_sent_is_final(book: Book, step: Step, round_id: i64, id: i64)
    requires
        book.wf(),
        fits(book, step),
    ensures
        book.settled(round_id) ==> after(book, step).settled(round_id) && after(book, step).round(
            round_id,
        ).outcome == book.round(round_id).outcome,
        book.has_withdrawal(id) && book.withdrawal(id).txid is Some ==> after(
            book,
            step,
        ).has_withdrawal(id) && after(book, step).withdrawal(id) == book.withdrawal(id),
{
    let next = after(book, step);
    every_operation_keeps_the_rules(book, step);
    if book.settled(round_id) {
        let i = book.round_index(round_id);
        assert(book.is_round(i, round_id));
        assert(next.is_round(i, round_id));
        round_found(next, i, round_id);
        if let Step::Settle { round_id: other, outcome, at } = step {
            if book.unsettled(other) {
                assert(book.is_round(book.round_index(other), other));
            }
        }
    }
    if book.has_withdrawal(id) && book.withdrawal(id).txid is Some {
        let i = book.withdrawal_index(id);
        assert(book.is_withdrawal(i, id));
        if let Step::MarkSent { id: other, txid, at } = step {
            if book.has_withdrawal(other) {
                assert(book.is_withdrawal(book.withdrawal_index(other), other));
            }
        }
        assert(next.is_withdrawal(i, id));
        withdrawal_found(next, i, id);
    }
}

/// The rounds of `a` are the first rounds of `b`, under the same numbers and on
/// the same blocks, and the withdrawals of `a` are the first of `b`, under the
/// same numbers.
pub open spec fn keeps_numbers(a: Book, b: Book) -> bool {
    &&& a.rounds.len() <= b.rounds.len()
    &&& forall|i: int|
        0 <= i < a.rounds.len() ==> (#[trigger] b.rounds[i]).id == a.rounds[i].id
            && b.rounds[i].settles_on == a.rounds[i].settles_on
    &&& a.withdrawals.len() <= b.withdrawals.len()
    &&& forall|i: int|
        0 <= i < a.withdrawals.len() ==> (#[trigger] b.withdrawals[i]).id == a.withdrawals[i].id
}

/// No operations change a number that a round or a withdrawal has.
pub proof fn every_history_keeps_numbers(book: Book, steps: Seq<Step>)
    requires
        book.wf(),
        all_fit(book, steps),
    ensures
        after_all(book, steps).wf(),
        keeps_numbers(book, after_all(book, steps)),
    decreases steps.len(),
{
    if steps.len() > 0 {
        let before = after_all(book, steps.drop_last());
        let step = steps.last();
        every_history_keeps_numbers(book, steps.drop_last());
        every_operation_keeps_the_rules(before, step);
        if let Step::Settle { round_id, outcome, at } = step {
            if before.unsettled(round_id) {
                assert(before.is_round(before.round_index(round_id), round_id));
            }
        }
        if let Step::MarkSent { id, txid, at } = step {
            if before.has_withdrawal(id) {
                assert(before.is_withdrawal(before.withdrawal_index(id), id));
            }
        }
        assert(keeps_numbers(before, after(before, step)));
    }
}

/// A block's round keeps its number: opening the rounds of two blocks, with any
/// operations in between, gives the same number exactly where the block is the
/// same. Opening a round again changes nothing; opening any moves no bet and no
/// balance, and a settled round stays settled, so it takes no bet and is not
/// settled again.
pub proof fn a_round_keeps_its_number(
    book: Book,
    one: u32,
    steps: Seq<Step>,
    other: u32,
    round_id: i64,
    address_index: u32,
    outcome: Seq<char>,
    zatoshi: u64,
    at: i64,
)
    requires
        book.wf(),
        fits(book, Step::OpenRound { settles_on: one }),
        all_fit(book.after_open_round(one), steps),
        fits(
            after_all(book.after_open_round(one), steps),
            Step::OpenRound { settles_on: other },
        ),
    ensures
        ({
            let first = book.after_open_round(one);
            let between = after_all(first, steps);
            let second = between.after_open_round(other);
            &&& first.has_round_on(one)
            &&& second.has_round_on(other)
            &&& first.round_on(one).id == second.round_on(other).id <==> one == other
            &&& one == other ==> second == between
            &&& second.bets == between.bets
            &&& second.balance(address_index) == between.balance(address_index)
            &&& second.settled(round_id) == between.settled(round_id)
            &&& between.settled(round_id) ==> {
                &&& second.after_place(round_id, address_index, outcome, zatoshi, at) is Err
                &&& second.after_settle(round_id, outcome, at) is Err
            }
        }),
{
    let first = book.after_open_round(one);
    let between = after_all(first, steps);
    let second = between.after_open_round(other);
    open_round_keeps_rules(book, one);
    if !book.has_round_on(one) {
        assert(first.is_round_on(book.rounds.len() as int, one));
    }
    let i = choose|i: int| first.is_round_on(i, one);
    assert(first.is_round_on(i, one));
    round_on_found(first, i, one);
    every_history_keeps_numbers(first, steps);
    assert(between.rounds[i].settles_on == one);
    assert(between.is_round_on(i, one));
    open_round_keeps_rules(between, other);
    if !between.has_round_on(other) {
        assert(second.is_round_on(between.rounds.len() as int, other));
    }
    let j = choose|j: int| second.is_round_on(j, other);
    assert(second.is_round_on(j, other));
    round_on_found(second, j, other);
    assert(second.rounds[i].id == first.rounds[i].id);
    assert(second.is_round_on(i, one));
    if one == other {
        round_on_found(second, i, one);
    } else if i < j {
        assert(second.rounds[i].id < second.rounds[j].id);
    } else {
        assert(i != j);
        assert(second.rounds[j].id < second.rounds[i].id);
    }
}

/// A withdrawal's number is given once: whatever is done after one is asked
/// for, the next that is asked for has another number.
pub proof fn a_withdrawal_number_is_given_once(
    book: Book,
    address_index: u32,
    zatoshi: u64,
    destination: Seq<char>,
    at: i64,
    steps: Seq<Step>,
)
    requires
        book.wf(),
        book.next_withdrawal_id() <= i64::MAX,
        book.after_request(address_index, zatoshi, destination, at) is Ok,
        all_fit(book.after_request(address_index, zatoshi, destination, at)->Ok_0, steps),
    ensures
        ({
            let first = book.after_request(address_index, zatoshi, destination, at)->Ok_0;
            after_all(first, steps).next_withdrawal_id() > book.next_withdrawal_id()
        }),
{
    let first = book.after_request(address_index, zatoshi, destination, at)->Ok_0;
    request_keeps_rules(book, address_index, zatoshi, destination, at);
    every_history_keeps_numbers(first, steps);
    let later = after_all(first, steps);
    let i = book.withdrawals.len() as int;
    let last = later.withdrawals.len() - 1;
    assert(first.withdrawals[i].id == book.next_withdrawal_id());
    assert(later.withdrawals[i].id == first.withdrawals[i].id);
    if i < last {
        assert(later.withdrawals[i].id < later.withdrawals[last].id);
    }
}

}
