//! What holds of the book whatever is done to it, and in which order.

use vstd::prelude::*;

use crate::book::{bet_backing, bet_by, deposit_to, payout_to, withdrawal_by, Book, RefusedView};
use crate::division::{paid_and_raked, pools};
use crate::rows::{BetView, DepositView, Payout, Rake, WithdrawalView};
use crate::rules::{
    mark_sent_keeps_rules, open_round_keeps_rules, request_keeps_rules, round_found, round_on_found,
    settle_keeps_rules, withdrawal_found,
};
use crate::sums::{
    picked_source, picked_total, total, total_concat, total_prefix, total_push, total_only,
    total_update, total_zero,
};

verus! {

/// Nobody owes the house.
pub open spec fn solvent(book: Book) -> bool {
    forall|address_index: u32| #[trigger] book.balance(address_index) >= 0
}

pub open spec fn bet_in_settled(book: Book) -> spec_fn(BetView) -> int {
    |b: BetView|
        if book.settled(b.round_id) {
            b.zatoshi as int
        } else {
            0
        }
}

pub open spec fn any_payout() -> spec_fn(Payout) -> int {
    |p: Payout| p.zatoshi as int
}

pub open spec fn any_rake() -> spec_fn(Rake) -> int {
    |r: Rake| r.zatoshi as int
}

/// Over the whole book, what was staked in settled rounds is what was paid out
/// and what was raked, and no rake is less than nothing.
pub open spec fn conserved(book: Book) -> bool {
    &&& total(book.bets, bet_in_settled(book)) == total(book.payouts, any_payout()) + total(
        book.rakes,
        any_rake(),
    )
    &&& forall|i: int| 0 <= i < book.rakes.len() ==> (#[trigger] book.rakes[i]).zatoshi >= 0
}

/// Only a settled round has paid or was raked, and no payout is less than
/// nothing.
pub open spec fn evidenced(book: Book) -> bool {
    &&& forall|i: int|
        0 <= i < book.payouts.len() ==> (#[trigger] book.payouts[i]).zatoshi >= 0 && book.settled(
            book.payouts[i].round_id,
        )
    &&& forall|i: int|
        0 <= i < book.rakes.len() ==> book.settled((#[trigger] book.rakes[i]).round_id)
}

/// A book that keeps the rules, paid and raked settled rounds alone, owes
/// nobody's money to anyone else, and has neither created nor lost any.
pub open spec fn sound(book: Book) -> bool {
    book.wf() && evidenced(book) && solvent(book) && conserved(book)
}

/// A round neither creates nor loses money: what it pays and what it rakes is
/// what was staked in it, and the payouts written come to what it pays.
pub proof fn a_round_neither_creates_nor_loses_money(book: Book, round_id: i64, outcome: Seq<char>)
    requires
        book.wf(),
        book.pools_fit(round_id, outcome),
    ensures
        book.paid(round_id, outcome) + book.rake(round_id, outcome) == book.staked(round_id),
        total(book.payouts_of(round_id, outcome), any_payout()) == book.paid(round_id, outcome),
{
    paid_and_raked(book, round_id, outcome);
    let to_bet = book.paid_to_bet(round_id, outcome);
    let keep = book.pays(round_id, outcome);
    let make = book.payout_for(round_id, outcome);
    assert forall|i: int| 0 <= i < book.bets.len() implies #[trigger] to_bet(book.bets[i]) == (
    if keep(book.bets[i]) {
        any_payout()(make(book.bets[i]))
    } else {
        0
    }) by {
        assert(to_bet(book.bets[i]) <= book.staked(round_id));
    }
    picked_total(book.bets, keep, make, any_payout(), to_bet);
}

/// The house never takes more than its cut: three hundredths of what the
/// losers staked, and less than one zatoshi more for each winner.
pub proof fn the_house_never_takes_more_than_its_cut(book: Book, round_id: i64, outcome: Seq<char>)
    requires
        book.wf(),
        !book.refunds(round_id, outcome),
    ensures
        book.losing_pool(round_id, outcome) * 3 / 100 <= book.rake(round_id, outcome),
        book.rake(round_id, outcome) < book.losing_pool(round_id, outcome) * 3 / 100 + book.winners(
            round_id,
            outcome,
        ),
{
    paid_and_raked(book, round_id, outcome);
}

/// Where nobody named the miner, the house takes nothing and every stake in
/// the round goes back whole.
pub proof fn a_round_nobody_called_right_is_refunded(book: Book, round_id: i64, outcome: Seq<char>)
    requires
        book.wf(),
        forall|i: int|
            0 <= i < book.bets.len() && (#[trigger] book.bets[i]).round_id == round_id
                ==> book.bets[i].outcome != outcome,
    ensures
        book.refunds(round_id, outcome),
        book.rake(round_id, outcome) == 0,
        book.paid(round_id, outcome) == book.staked(round_id),
        forall|bet: BetView|
            bet.round_id == round_id ==> #[trigger] book.is_paid(round_id, outcome, bet)
                && book.amount(round_id, outcome, bet) == bet.zatoshi,
{
    let backing = bet_backing(round_id, outcome);
    assert forall|i: int| 0 <= i < book.bets.len() implies #[trigger] backing(book.bets[i])
        == 0 by {}
    total_zero(book.bets, backing);
    paid_and_raked(book, round_id, outcome);
}

/// A winner is paid the stake and a share of what the losers staked, less the
/// cut, in proportion to the stake and in whole zatoshi; so no winner is paid
/// less than the stake, and of two the larger stake is not paid less.
pub proof fn winners_divide_it_by_what_they_staked(
    book: Book,
    round_id: i64,
    outcome: Seq<char>,
    a: BetView,
    b: BetView,
)
    requires
        book.wf(),
        !book.refunds(round_id, outcome),
        0 <= a.zatoshi <= b.zatoshi,
    ensures
        book.amount(round_id, outcome, a) == a.zatoshi + book.divided(round_id, outcome) * a.zatoshi
            / book.winner_pool(round_id, outcome),
        book.amount(round_id, outcome, a) >= a.zatoshi,
        book.amount(round_id, outcome, a) <= book.amount(round_id, outcome, b),
{
    pools(book, round_id, outcome);
    let divided = book.divided(round_id, outcome);
    let pool = book.winner_pool(round_id, outcome);
    let x = a.zatoshi as int;
    let y = b.zatoshi as int;
    assert(0 <= divided * x <= divided * y) by (nonlinear_arith)
        requires
            0 <= divided,
            0 <= x <= y,
    ;
    vstd::arithmetic::div_mod::lemma_div_is_ordered(divided * x, divided * y, pool);
    vstd::arithmetic::div_mod::lemma_div_is_ordered(0, divided * x, pool);
    assert(0int / pool == 0) by (nonlinear_arith)
        requires
            pool > 0,
    ;
}

/// A bet is paid where it backed the outcome, and only there, unless the round
/// is refunded.
pub proof fn only_winners_are_paid(book: Book, round_id: i64, outcome: Seq<char>, k: int) -> (i:
    int)
    requires
        book.wf(),
        book.pools_fit(round_id, outcome),
        !book.refunds(round_id, outcome),
        0 <= k < book.payouts_of(round_id, outcome).len(),
    ensures
        0 <= i < book.bets.len(),
        book.bets[i].round_id == round_id,
        book.bets[i].outcome == outcome,
        book.payouts_of(round_id, outcome)[k].address_index == book.bets[i].address_index,
        book.payouts_of(round_id, outcome)[k].zatoshi == book.amount(
            round_id,
            outcome,
            book.bets[i],
        ),
{
    paid_and_raked(book, round_id, outcome);
    let i = picked_source(
        book.bets,
        book.pays(round_id, outcome),
        book.payout_for(round_id, outcome),
        k,
    );
    assert(book.paid_to_bet(round_id, outcome)(book.bets[i]) <= book.staked(round_id));
    i
}

/// A deposit counts once: recording the same note again changes nothing, and a
/// new one adds its worth to its own address and to no other.
pub proof fn a_deposit_counts_once(book: Book, deposit: DepositView, address_index: u32)
    requires
        book.wf(),
    ensures
        book.after_deposit(deposit) matches Ok(next) ==> {
            &&& next.has_note(deposit.txid, deposit.output)
            &&& next.after_deposit(deposit) == Ok::<Book, RefusedView>(next)
            &&& next.balance(address_index) == book.balance(address_index) + (if !book.has_note(
                deposit.txid,
                deposit.output,
            ) && deposit.address_index == address_index {
                deposit.zatoshi as int
            } else {
                0
            })
        },
{
    if let Ok(next) = book.after_deposit(deposit) {
        if !book.has_note(deposit.txid, deposit.output) {
            total_push(book.deposits, deposit, deposit_to(address_index));
            assert(next.deposits[book.deposits.len() as int] == deposit);
        }
    }
}

/// A stake is committed when it is placed: the balance is less by the stake at
/// once, it was there to begin with, no other balance moves, and the depositor
/// has no second position in the round.
pub proof fn a_stake_is_committed_at_once(
    book: Book,
    round_id: i64,
    address_index: u32,
    outcome: Seq<char>,
    zatoshi: u64,
    at: i64,
    other: u32,
    again: Seq<char>,
    more: u64,
    later: i64,
)
    requires
        book.wf(),
    ensures
        book.after_place(round_id, address_index, outcome, zatoshi, at) matches Ok(next) ==> {
            &&& 0 < zatoshi <= book.balance(address_index)
            &&& next.balance(address_index) == book.balance(address_index) - zatoshi
            &&& other != address_index ==> next.balance(other) == book.balance(other)
            &&& next.after_place(round_id, address_index, again, more, later) is Err
        },
{
    if let Ok(next) = book.after_place(round_id, address_index, outcome, zatoshi, at) {
        let bet = BetView {
            round_id,
            address_index,
            outcome,
            zatoshi: zatoshi as i64,
            placed_at: at,
        };
        total_push(book.bets, bet, bet_by(address_index));
        total_push(book.bets, bet, bet_by(other));
        assert(next.bets[book.bets.len() as int] == bet);
        assert(next.has_position(round_id, address_index));
    }
}

/// A withdrawal is debited when it is asked for: the balance is less by the
/// amount at once, it was there to begin with, and no other balance moves. It
/// waits behind all that wait, under a number that no withdrawal had, and
/// writing down the transaction that pays it does not debit it again.
pub proof fn a_withdrawal_is_debited_when_it_is_asked_for(
    book: Book,
    address_index: u32,
    zatoshi: u64,
    destination: Seq<char>,
    at: i64,
    other: u32,
    txid: Seq<char>,
    later: i64,
)
    requires
        book.wf(),
        book.next_withdrawal_id() <= i64::MAX,
    ensures
        book.after_request(address_index, zatoshi, destination, at) matches Ok(next) ==> {
            &&& 0 < zatoshi <= book.balance(address_index)
            &&& next.balance(address_index) == book.balance(address_index) - zatoshi
            &&& other != address_index ==> next.balance(other) == book.balance(other)
            &&& next.has_withdrawal(book.next_withdrawal_id() as i64)
            &&& next.withdrawal(book.next_withdrawal_id() as i64).txid is None
            &&& next.unsent() == book.unsent().push(
                next.withdrawal(book.next_withdrawal_id() as i64),
            )
            &&& next.withdrawal(book.next_withdrawal_id() as i64).address_index == address_index
            &&& next.withdrawal(book.next_withdrawal_id() as i64).zatoshi == zatoshi
            &&& next.withdrawal(book.next_withdrawal_id() as i64).destination == destination
            &&& forall|id: i64| #[trigger]
                book.has_withdrawal(id) ==> id != book.next_withdrawal_id()
            &&& next.after_mark_sent(
                book.next_withdrawal_id() as i64,
                txid,
                later,
            ) matches Ok(sent) && sent.balance(address_index) == next.balance(address_index)
        },
{
    if let Ok(next) = book.after_request(address_index, zatoshi, destination, at) {
        let row = WithdrawalView {
            id: book.next_withdrawal_id() as i64,
            address_index,
            zatoshi: zatoshi as i64,
            destination,
            requested_at: at,
            txid: None,
            sent_at: None,
        };
        total_push(book.withdrawals, row, withdrawal_by(address_index));
        total_push(book.withdrawals, row, withdrawal_by(other));
        request_keeps_rules(book, address_index, zatoshi, destination, at);
        assert(next.is_withdrawal(book.withdrawals.len() as int, row.id));
        withdrawal_found(next, book.withdrawals.len() as int, row.id);
        assert(next.withdrawals.drop_last() =~= book.withdrawals);
        assert(next.unsent() =~= book.unsent().push(row));
        assert forall|id: i64| #[trigger] book.has_withdrawal(id) implies id
            != book.next_withdrawal_id() by {
            let i = book.withdrawal_index(id);
            assert(book.is_withdrawal(i, id));
            let last = book.withdrawals.len() - 1;
            if i < last {
                assert(book.withdrawals[i].id < book.withdrawals[last].id);
            }
        }
        a_withdrawal_is_not_paid_by_two_transactions(
            next,
            row.id,
            txid,
            later,
            txid,
            later,
            address_index,
        );
    }
}

/// A withdrawal is not paid by two transactions: once one is written down,
/// every other is refused and named against it, and writing it down moves no
/// balance.
pub proof fn a_withdrawal_is_not_paid_by_two_transactions(
    book: Book,
    id: i64,
    txid: Seq<char>,
    at: i64,
    second: Seq<char>,
    later: i64,
    address_index: u32,
)
    requires
        book.wf(),
    ensures
        book.after_mark_sent(id, txid, at) matches Ok(next) ==> {
            &&& next.balance(address_index) == book.balance(address_index)
            &&& next.has_withdrawal(id)
            &&& next.withdrawal(id).txid == Some(txid)
            &&& next.after_mark_sent(id, second, later) == Err::<Book, RefusedView>(
                RefusedView::AlreadyPaid { id, previous: txid },
            )
        },
{
    if let Ok(next) = book.after_mark_sent(id, txid, at) {
        let i = book.withdrawal_index(id);
        assert(book.is_withdrawal(i, id));
        mark_sent_keeps_rules(book, id, txid, at);
        assert(next.is_withdrawal(i, id));
        withdrawal_found(next, i, id);
        total_update(
            book.withdrawals,
            i,
            WithdrawalView { txid: Some(txid), sent_at: Some(at), ..book.withdrawal(id) },
            withdrawal_by(address_index),
        );
    }
}

/// A settled round is not settled twice, and takes no more bets.
pub proof fn a_settled_round_is_not_settled_twice(
    book: Book,
    round_id: i64,
    outcome: Seq<char>,
    at: i64,
    second: Seq<char>,
    address_index: u32,
    zatoshi: u64,
    later: i64,
)
    requires
        book.wf(),
    ensures
        book.after_settle(round_id, outcome, at) matches Ok(next) ==> {
            &&& next.settled(round_id)
            &&& next.round(round_id).outcome == Some(outcome)
            &&& next.after_settle(round_id, second, later) == Err::<Book, RefusedView>(
                RefusedView::AlreadySettled { round_id, previous: outcome },
            )
            &&& next.after_place(round_id, address_index, second, zatoshi, later) == Err::<
                Book,
                RefusedView,
            >(RefusedView::RoundClosed { round_id })
        },
{
    if let Ok(next) = book.after_settle(round_id, outcome, at) {
        settle_keeps_rules(book, round_id, outcome, at);
        let i = book.round_index(round_id);
        assert(book.is_round(i, round_id));
        assert(next.is_round(i, round_id));
        round_found(next, i, round_id);
    }
}

/// Opening the round of a block again changes nothing, and two blocks have two
/// rounds.
pub proof fn a_block_has_one_round(book: Book, settles_on: u32, other: u32)
    requires
        book.wf(),
        book.has_round_on(settles_on) || book.next_round_id() <= i64::MAX,
    ensures
        ({
            let next = book.after_open_round(settles_on);
            &&& next.has_round_on(settles_on)
            &&& next.after_open_round(settles_on) == next
            &&& next.has_round_on(other) && other != settles_on ==> next.round_on(other).id
                != next.round_on(settles_on).id
        }),
{
    let next = book.after_open_round(settles_on);
    open_round_keeps_rules(book, settles_on);
    if !book.has_round_on(settles_on) {
        assert(next.is_round_on(book.rounds.len() as int, settles_on));
    }
    if next.has_round_on(other) && other != settles_on {
        let i = choose|i: int| next.is_round_on(i, settles_on);
        let j = choose|j: int| next.is_round_on(j, other);
        assert(next.is_round_on(i, settles_on));
        assert(next.is_round_on(j, other));
        round_on_found(next, i, settles_on);
        round_on_found(next, j, other);
        if i < j {
            assert(next.rounds[i].id < next.rounds[j].id);
        } else {
            assert(next.rounds[j].id < next.rounds[i].id);
        }
    }
}

/// Nothing stands in the way of closing an open round where only settled rounds
/// have paid or were raked.
pub proof fn an_open_round_can_be_closed(book: Book, round_id: i64, outcome: Seq<char>, at: i64)
    requires
        evidenced(book),
        book.unsettled(round_id),
    ensures
        book.after_settle(round_id, outcome, at) is Ok,
{
    if book.payouts_stand(round_id, outcome) {
        let i = choose|i: int|
            0 <= i < book.bets.len() && book.is_paid(round_id, outcome, #[trigger] book.bets[i])
                && book.payout_stands(round_id, book.bets[i].address_index);
        let k = choose|k: int|
            0 <= k < book.payouts.len() && (#[trigger] book.payouts[k]).round_id == round_id
                && book.payouts[k].address_index == book.bets[i].address_index;
        assert(book.settled(book.payouts[k].round_id));
    }
    if book.rake_stands(round_id) {
        let k = choose|k: int|
            0 <= k < book.rakes.len() && (#[trigger] book.rakes[k]).round_id == round_id;
        assert(book.settled(book.rakes[k].round_id));
    }
}

/// Settling gives each position in the round what it is paid, on top of the
/// balance, and moves no other balance.
pub proof fn settling_pays_each_position(
    book: Book,
    round_id: i64,
    outcome: Seq<char>,
    at: i64,
    address_index: u32,
)
    requires
        book.wf(),
        book.unsettled(round_id),
        book.pools_fit(round_id, outcome),
    ensures
        book.after_settle(round_id, outcome, at) matches Ok(next) ==> {
            &&& next.balance(address_index) >= book.balance(address_index)
            &&& !book.has_position(round_id, address_index) ==> next.balance(address_index)
                == book.balance(address_index)
            &&& forall|i: int|
                0 <= i < book.bets.len() && (#[trigger] book.bets[i]).round_id == round_id
                    && book.bets[i].address_index == address_index ==> next.balance(address_index)
                    == book.balance(address_index) + (if book.is_paid(
                    round_id,
                    outcome,
                    book.bets[i],
                ) {
                    book.amount(round_id, outcome, book.bets[i])
                } else {
                    0
                })
        },
{
    let next = book.after_settle(round_id, outcome, at)->Ok_0;
    let s = book.bets;
    let keep = book.pays(round_id, outcome);
    let make = book.payout_for(round_id, outcome);
    let to_bet = book.paid_to_bet(round_id, outcome);
    let here = |b: BetView|
        if b.address_index == address_index {
            to_bet(b)
        } else {
            0
        };
    paid_and_raked(book, round_id, outcome);
    assert forall|i: int| 0 <= i < s.len() implies #[trigger] here(s[i]) == (if keep(s[i]) {
        payout_to(address_index)(make(s[i]))
    } else {
        0
    }) by {
        assert(to_bet(s[i]) <= book.staked(round_id));
    }
    picked_total(s, keep, make, payout_to(address_index), here);
    total_concat(book.payouts, book.payouts_of(round_id, outcome), payout_to(address_index));
    assert(book.after_settle(round_id, outcome, at) is Ok ==> next.returned(address_index)
        == book.returned(address_index) + total(s, here));
    assert forall|i: int| 0 <= i < s.len() implies #[trigger] here(s[i]) >= 0 by {
        assert(to_bet(s[i]) >= 0);
    }
    total_prefix(s, 0, here);
    assert(s.take(0) =~= Seq::empty());
    if !book.has_position(round_id, address_index) {
        assert forall|j: int| 0 <= j < s.len() implies #[trigger] here(s[j]) == 0 by {
            assert(!(book.bets[j].round_id == round_id && book.bets[j].address_index
                == address_index));
        }
        total_zero(s, here);
    }
    assert forall|i: int|
        0 <= i < s.len() && (#[trigger] s[i]).round_id == round_id && s[i].address_index
            == address_index implies total(s, here) == to_bet(s[i]) by {
        assert forall|j: int| 0 <= j < s.len() && j != i implies #[trigger] here(s[j]) == 0 by {
            if i < j {
                assert(!(s[i].round_id == s[j].round_id && s[i].address_index
                    == s[j].address_index));
            } else {
                assert(!(s[j].round_id == s[i].round_id && s[j].address_index
                    == s[i].address_index));
            }
        }
        total_only(s, i, here);
    }
}

}
