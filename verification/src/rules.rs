//! Every operation keeps the rules that every book keeps.

use vstd::prelude::*;

use crate::book::Book;
use crate::rows::{DepositView, DepositorView};
use crate::sums::{picked_source, picked_target};

verus! {

/// A round's number finds one row only.
pub proof fn round_found(book: Book, i: int, round_id: i64)
    requires
        book.rounds_once(),
        book.is_round(i, round_id),
    ensures
        book.has_round(round_id),
        book.round_index(round_id) == i,
{
    let j = book.round_index(round_id);
    assert(book.is_round(j, round_id));
    if i < j {
        assert(book.rounds[i].id < book.rounds[j].id);
    }
    if j < i {
        assert(book.rounds[j].id < book.rounds[i].id);
    }
}

/// A block finds one round only.
pub proof fn round_on_found(book: Book, i: int, settles_on: u32)
    requires
        book.rounds_once(),
        book.is_round_on(i, settles_on),
    ensures
        book.has_round_on(settles_on),
        book.round_on(settles_on) == book.rounds[i],
{
    let j = choose|j: int| book.is_round_on(j, settles_on);
    assert(book.is_round_on(j, settles_on));
    if i < j {
        assert(book.rounds[i].settles_on != book.rounds[j].settles_on);
    }
    if j < i {
        assert(book.rounds[j].settles_on != book.rounds[i].settles_on);
    }
}

/// A withdrawal's number finds one row only.
pub proof fn withdrawal_found(book: Book, i: int, id: i64)
    requires
        book.withdrawals_once(),
        book.is_withdrawal(i, id),
    ensures
        book.has_withdrawal(id),
        book.withdrawal_index(id) == i,
{
    let j = book.withdrawal_index(id);
    assert(book.is_withdrawal(j, id));
    if i < j {
        assert(book.withdrawals[i].id < book.withdrawals[j].id);
    }
    if j < i {
        assert(book.withdrawals[j].id < book.withdrawals[i].id);
    }
}

/// An address finds one label only.
pub proof fn label_found(book: Book, i: int)
    requires
        book.depositors_once(),
        0 <= i < book.depositors.len(),
    ensures
        book.label(book.depositors[i].address_index) == Some(book.depositors[i].label),
{
    let address_index = book.depositors[i].address_index;
    assert(book.has_depositor(address_index));
    let j = choose|j: int|
        0 <= j < book.depositors.len() && (#[trigger] book.depositors[j]).address_index
            == address_index;
    if i < j {
        assert(book.depositors[i].address_index != book.depositors[j].address_index);
    }
    if j < i {
        assert(book.depositors[j].address_index != book.depositors[i].address_index);
    }
}

/// Recording a deposit keeps the rules.
pub proof fn deposit_keeps_rules(book: Book, deposit: DepositView)
    requires
        book.wf(),
    ensures
        book.after_deposit(deposit) matches Ok(next) ==> next.wf(),
{
}

/// Handing out an address keeps the rules.
pub proof fn assign_keeps_rules(book: Book, depositor: DepositorView)
    requires
        book.wf(),
    ensures
        book.after_assign(depositor).wf(),
{
}

/// Where the rounds are the same, the same are settled.
pub proof fn rounds_settle(a: Book, b: Book)
    requires
        a.rounds_once(),
        a.rounds == b.rounds,
    ensures
        forall|id: i64| #[trigger] b.settled(id) == a.settled(id),
{
    assert forall|id: i64| #[trigger] b.settled(id) == a.settled(id) by {
        if a.has_round(id) {
            let i = a.round_index(id);
            assert(a.is_round(i, id));
            assert(b.is_round(i, id));
            round_found(a, i, id);
            round_found(b, i, id);
        }
        if b.has_round(id) {
            let i = b.round_index(id);
            assert(b.is_round(i, id));
            assert(a.is_round(i, id));
        }
    }
}

/// Opening a round keeps the rules.
pub proof fn open_round_keeps_rules(book: Book, settles_on: u32)
    requires
        book.wf(),
        book.has_round_on(settles_on) || book.next_round_id() <= i64::MAX,
    ensures
        book.after_open_round(settles_on).wf(),
        forall|id: i64| #[trigger]
            book.after_open_round(settles_on).settled(id) == book.settled(id),
{
    let next = book.after_open_round(settles_on);
    if !book.has_round_on(settles_on) {
        let n = book.rounds.len() as int;
        assert forall|i: int, j: int| 0 <= i < j < next.rounds.len() implies (
        #[trigger] next.rounds[i]).id < (#[trigger] next.rounds[j]).id && next.rounds[i].settles_on
            != next.rounds[j].settles_on by {
            if j == n {
                assert(!book.is_round_on(i, settles_on));
                if i < n - 1 {
                    assert(book.rounds[i].id < book.rounds[n - 1].id);
                }
            }
        }
        assert forall|id: i64| #[trigger] next.settled(id) == book.settled(id) by {
            if book.has_round(id) {
                let i = book.round_index(id);
                assert(book.is_round(i, id));
                assert(next.is_round(i, id));
                round_found(next, i, id);
            }
            if next.has_round(id) {
                let i = next.round_index(id);
                assert(next.is_round(i, id));
                if i < n {
                    assert(book.is_round(i, id));
                }
            }
        }
    }
}

/// Placing a bet keeps the rules.
pub proof fn place_keeps_rules(
    book: Book,
    round_id: i64,
    address_index: u32,
    outcome: Seq<char>,
    zatoshi: u64,
    at: i64,
)
    requires
        book.wf(),
    ensures
        book.after_place(round_id, address_index, outcome, zatoshi, at) matches Ok(next)
            ==> next.wf(),
{
}

/// Asking for a withdrawal keeps the rules.
pub proof fn request_keeps_rules(
    book: Book,
    address_index: u32,
    zatoshi: u64,
    destination: Seq<char>,
    at: i64,
)
    requires
        book.wf(),
        book.next_withdrawal_id() <= i64::MAX,
    ensures
        book.after_request(address_index, zatoshi, destination, at) matches Ok(next) ==> next.wf(),
{
    if let Ok(next) = book.after_request(address_index, zatoshi, destination, at) {
        let n = book.withdrawals.len() as int;
        assert forall|i: int, j: int| 0 <= i < j < next.withdrawals.len() implies (
        #[trigger] next.withdrawals[i]).id < (#[trigger] next.withdrawals[j]).id by {
            if j == n && i < n - 1 {
                assert(book.withdrawals[i].id < book.withdrawals[n - 1].id);
            }
        }
    }
}

/// Recording the transaction that pays a withdrawal keeps the rules.
pub proof fn mark_sent_keeps_rules(book: Book, id: i64, txid: Seq<char>, at: i64)
    requires
        book.wf(),
    ensures
        book.after_mark_sent(id, txid, at) matches Ok(next) ==> next.wf(),
{
    if let Ok(next) = book.after_mark_sent(id, txid, at) {
        assert(book.is_withdrawal(book.withdrawal_index(id), id));
    }
}

/// A payout that closing the round writes is written already, seen from the
/// payouts rather than from the bets.
pub proof fn payouts_that_stand(book: Book, round_id: i64, outcome: Seq<char>)
    ensures
        book.payouts_stand(round_id, outcome) <==> exists|k: int|
            0 <= k < book.payouts_of(round_id, outcome).len() && book.payout_stands(
                round_id,
                (#[trigger] book.payouts_of(round_id, outcome)[k]).address_index,
            ),
{
    let keep = book.pays(round_id, outcome);
    let make = book.payout_for(round_id, outcome);
    if book.payouts_stand(round_id, outcome) {
        let i = choose|i: int|
            0 <= i < book.bets.len() && book.is_paid(round_id, outcome, #[trigger] book.bets[i])
                && book.payout_stands(round_id, book.bets[i].address_index);
        let k = picked_target(book.bets, keep, make, i);
        assert(book.payouts_of(round_id, outcome)[k].address_index == book.bets[i].address_index);
    }
    if exists|k: int|
        0 <= k < book.payouts_of(round_id, outcome).len() && book.payout_stands(
            round_id,
            (#[trigger] book.payouts_of(round_id, outcome)[k]).address_index,
        ) {
        let k = choose|k: int|
            0 <= k < book.payouts_of(round_id, outcome).len() && book.payout_stands(
                round_id,
                (#[trigger] book.payouts_of(round_id, outcome)[k]).address_index,
            );
        let i = picked_source(book.bets, keep, make, k);
        assert(book.is_paid(round_id, outcome, book.bets[i]));
    }
}

/// Closing a round keeps the rules.
pub proof fn settle_keeps_rules(book: Book, round_id: i64, outcome: Seq<char>, at: i64)
    requires
        book.wf(),
    ensures
        book.after_settle(round_id, outcome, at) matches Ok(next) ==> {
            &&& next.wf()
            &&& forall|id: i64| #[trigger]
                next.settled(id) == (book.settled(id) || id == round_id)
        },
{
    if let Ok(next) = book.after_settle(round_id, outcome, at) {
        let at_round = book.round_index(round_id);
        assert(book.is_round(at_round, round_id));
        assert(next.rounds_once());
        assert forall|id: i64| #[trigger]
            next.settled(id) == (book.settled(id) || id == round_id) by {
            if book.has_round(id) {
                let i = book.round_index(id);
                assert(book.is_round(i, id));
                assert(next.is_round(i, id));
                round_found(book, i, id);
                round_found(next, i, id);
            }
            if next.has_round(id) {
                let i = next.round_index(id);
                assert(next.is_round(i, id));
                assert(book.is_round(i, id));
            }
            assert(next.is_round(at_round, round_id));
            round_found(next, at_round, round_id);
        }
        let added = book.payouts_of(round_id, outcome);
        let n = book.payouts.len() as int;
        assert forall|i: int, j: int| 0 <= i < j < next.payouts.len() implies !((
        #[trigger] next.payouts[i]).round_id == (#[trigger] next.payouts[j]).round_id
            && next.payouts[i].address_index == next.payouts[j].address_index) by {
            if j >= n {
                assert(next.payouts[j] == added[j - n]);
                let q = picked_source(
                    book.bets,
                    book.pays(round_id, outcome),
                    book.payout_for(round_id, outcome),
                    j - n,
                );
                if i >= n {
                    assert(next.payouts[i] == added[i - n]);
                    let p = picked_source(
                        book.bets,
                        book.pays(round_id, outcome),
                        book.payout_for(round_id, outcome),
                        i - n,
                    );
                    assert(p != q);
                    if p < q {
                        assert(!(book.bets[p].round_id == book.bets[q].round_id
                            && book.bets[p].address_index == book.bets[q].address_index));
                    } else {
                        assert(!(book.bets[q].round_id == book.bets[p].round_id
                            && book.bets[q].address_index == book.bets[p].address_index));
                    }
                } else {
                    assert(book.is_paid(round_id, outcome, book.bets[q]));
                    assert(!book.payout_stands(round_id, book.bets[q].address_index));
                    assert(next.payouts[i] == book.payouts[i]);
                }
            }
        }
        assert forall|i: int, j: int| 0 <= i < j < next.rakes.len() implies (
        #[trigger] next.rakes[i]).round_id != (#[trigger] next.rakes[j]).round_id by {
            assert(next.rakes[i] == book.rakes[i]);
        }
    }
}

}
