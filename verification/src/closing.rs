//! What closing a round does, told by the bets alone.

use vstd::prelude::*;

use crate::book::{bet_backing, bet_on, one_bet_backing, Book, RefusedView};
use crate::division::{one_within_total, paid_and_raked, pools};
use crate::rows::{BetView, Payout, Rake, RoundView, SettlementView};
use crate::rules::round_found;
use crate::sums::{
    picked_count, picked_place, picked_source, total, total_same, total_sum, total_zero,
};

verus! {

/// A round is refunded where no bet of it names the outcome, and nowhere else.
pub proof fn a_round_is_refunded_where_nobody_called_it(
    book: Book,
    round_id: i64,
    outcome: Seq<char>,
)
    requires
        book.wf(),
    ensures
        book.settlement(round_id, outcome).refunded <==> forall|i: int|
            0 <= i < book.bets.len() && (#[trigger] book.bets[i]).round_id == round_id
                ==> book.bets[i].outcome != outcome,
{
    let s = book.bets;
    let backing = bet_backing(round_id, outcome);
    assert forall|i: int| 0 <= i < s.len() implies #[trigger] backing(s[i]) >= 0 by {
        assert(s[i].zatoshi > 0);
    }
    if forall|i: int|
        0 <= i < s.len() && (#[trigger] s[i]).round_id == round_id ==> s[i].outcome != outcome {
        assert forall|i: int| 0 <= i < s.len() implies #[trigger] backing(s[i]) == 0 by {
            assert(s[i].round_id == round_id ==> s[i].outcome != outcome);
        }
        total_zero(s, backing);
    } else {
        let i = choose|i: int|
            0 <= i < s.len() && (#[trigger] s[i]).round_id == round_id && s[i].outcome == outcome;
        one_within_total(s, i, backing);
        assert(s[i].zatoshi > 0);
    }
}

/// Where a bet of the round names the outcome, the round is not refunded: every
/// bet that names it, and no other, is paid its stake and, of what the others
/// staked less three hundredths, the part that its stake is of the stakes that
/// name it, both rounded down. The payouts stand in the order of the bets, and
/// what was staked and not paid is the house's.
pub proof fn a_round_somebody_called_is_divided(
    book: Book,
    caller: int,
    round_id: i64,
    outcome: Seq<char>,
)
    requires
        book.wf(),
        0 <= caller < book.bets.len(),
        book.bets[caller].round_id == round_id,
        book.bets[caller].outcome == outcome,
        total(
            book.bets,
            |b: BetView|
                if b.round_id == round_id {
                    b.zatoshi as int
                } else {
                    0
                },
        ) <= i64::MAX,
    ensures
        ({
            let won = total(
                book.bets,
                |b: BetView|
                    if b.round_id == round_id && b.outcome == outcome {
                        b.zatoshi as int
                    } else {
                        0
                    },
            );
            let lost = total(
                book.bets,
                |b: BetView|
                    if b.round_id == round_id && b.outcome != outcome {
                        b.zatoshi as int
                    } else {
                        0
                    },
            );
            let one = |b: BetView|
                if b.round_id == round_id && b.outcome == outcome {
                    1int
                } else {
                    0
                };
            let paid = total(
                book.bets,
                |b: BetView|
                    if b.round_id == round_id && b.outcome == outcome {
                        b.zatoshi + (lost - lost * 3 / 100) * b.zatoshi / won
                    } else {
                        0
                    },
            );
            let payouts = book.payouts_of(round_id, outcome);
            &&& won > 0
            &&& book.settlement(round_id, outcome) == (SettlementView {
                outcome,
                staked: won + lost,
                winners: total(book.bets, one) as nat,
                paid,
                rake: won + lost - paid,
                refunded: false,
            })
            &&& lost * 3 / 100 <= won + lost - paid < lost * 3 / 100 + total(book.bets, one)
            &&& book.pools_fit(round_id, outcome) == (lost * 3 <= i64::MAX)
            &&& payouts.len() == total(book.bets, one)
            &&& forall|j: int|
                0 <= j < book.bets.len() && (#[trigger] book.bets[j]).round_id == round_id
                    && book.bets[j].outcome == outcome ==> {
                    let payout = payouts[total(book.bets.take(j), one)];
                    &&& 0 <= total(book.bets.take(j), one) < payouts.len()
                    &&& payout.round_id == round_id
                    &&& payout.address_index == book.bets[j].address_index
                    &&& payout.zatoshi == book.bets[j].zatoshi + (lost - lost * 3 / 100)
                        * book.bets[j].zatoshi / won
                }
            &&& forall|m: int|
                0 <= m < payouts.len() ==> exists|j: int|
                    0 <= j < book.bets.len() && (#[trigger] book.bets[j]).round_id == round_id
                        && book.bets[j].outcome == outcome && book.bets[j].address_index == (
                    #[trigger] payouts[m]).address_index
        }),
{
    let s = book.bets;
    a_round_is_refunded_where_nobody_called_it(book, round_id, outcome);
    pools(book, round_id, outcome);
    paid_and_raked(book, round_id, outcome);
    let on = |b: BetView|
        if b.round_id == round_id {
            b.zatoshi as int
        } else {
            0
        };
    total_same(s, on, bet_on(round_id));
    let won_by = |b: BetView|
        if b.round_id == round_id && b.outcome == outcome {
            b.zatoshi as int
        } else {
            0
        };
    total_same(s, won_by, bet_backing(round_id, outcome));
    let lost_by = |b: BetView|
        if b.round_id == round_id && b.outcome != outcome {
            b.zatoshi as int
        } else {
            0
        };
    total_sum(s, won_by, lost_by, on);
    let one = |b: BetView|
        if b.round_id == round_id && b.outcome == outcome {
            1int
        } else {
            0
        };
    total_same(s, one, one_bet_backing(round_id, outcome));
    let won = total(s, won_by);
    let lost = total(s, lost_by);
    let share = |b: BetView|
        if b.round_id == round_id && b.outcome == outcome {
            b.zatoshi + (lost - lost * 3 / 100) * b.zatoshi / won
        } else {
            0
        };
    let paid_to = book.paid_to_bet(round_id, outcome);
    assert(book.bets[caller].outcome == outcome);
    assert(!book.refunds(round_id, outcome));
    assert forall|i: int| 0 <= i < s.len() implies #[trigger] share(s[i]) == paid_to(s[i]) by {}
    total_same(s, share, paid_to);
    let keep = book.pays(round_id, outcome);
    let g = book.payout_for(round_id, outcome);
    picked_count(s, keep, g, one);
    assert forall|j: int|
        0 <= j < s.len() && (#[trigger] s[j]).round_id == round_id && s[j].outcome
            == outcome implies ({
        let payout = book.payouts_of(round_id, outcome)[total(s.take(j), one)];
        &&& 0 <= total(s.take(j), one) < book.payouts_of(round_id, outcome).len()
        &&& payout.round_id == round_id
        &&& payout.address_index == s[j].address_index
        &&& payout.zatoshi == s[j].zatoshi + (lost - lost * 3 / 100) * s[j].zatoshi / won
    }) by {
        picked_place(s, keep, g, j);
        picked_count(s.take(j), keep, g, one);
        assert(paid_to(s[j]) <= book.staked(round_id));
        assert(share(s[j]) == paid_to(s[j]));
    }
    let payouts = book.payouts_of(round_id, outcome);
    assert forall|m: int| 0 <= m < payouts.len() implies exists|j: int|
        0 <= j < s.len() && (#[trigger] s[j]).round_id == round_id && s[j].outcome == outcome
            && s[j].address_index == (#[trigger] payouts[m]).address_index by {
        let j = picked_source(s, keep, g, m);
        assert(s[j].round_id == round_id);
    }
}

/// Where no bet of the round names the outcome, every bet of it is paid back its
/// stake, in the order of the bets, and the house keeps nothing.
pub proof fn a_round_nobody_called_is_paid_back(book: Book, round_id: i64, outcome: Seq<char>)
    requires
        book.wf(),
        forall|i: int|
            0 <= i < book.bets.len() && (#[trigger] book.bets[i]).round_id == round_id
                ==> book.bets[i].outcome != outcome,
    ensures
        ({
            let staked = total(
                book.bets,
                |b: BetView|
                    if b.round_id == round_id {
                        b.zatoshi as int
                    } else {
                        0
                    },
            );
            let one = |b: BetView|
                if b.round_id == round_id {
                    1int
                } else {
                    0
                };
            let payouts = book.payouts_of(round_id, outcome);
            &&& book.settlement(round_id, outcome) == (SettlementView {
                outcome,
                staked,
                winners: 0,
                paid: staked,
                rake: 0,
                refunded: true,
            })
            &&& book.pools_fit(round_id, outcome) == (staked <= i64::MAX)
            &&& payouts.len() == total(book.bets, one)
            &&& forall|j: int|
                0 <= j < book.bets.len() && (#[trigger] book.bets[j]).round_id == round_id ==> {
                    &&& 0 <= total(book.bets.take(j), one) < payouts.len()
                    &&& payouts[total(book.bets.take(j), one)] == (Payout {
                        round_id,
                        address_index: book.bets[j].address_index,
                        zatoshi: book.bets[j].zatoshi,
                    })
                }
        }),
{
    let s = book.bets;
    a_round_is_refunded_where_nobody_called_it(book, round_id, outcome);
    paid_and_raked(book, round_id, outcome);
    let on = |b: BetView|
        if b.round_id == round_id {
            b.zatoshi as int
        } else {
            0
        };
    total_same(s, on, bet_on(round_id));
    let one = |b: BetView|
        if b.round_id == round_id {
            1int
        } else {
            0
        };
    assert(book.refunds(round_id, outcome));
    let keep = book.pays(round_id, outcome);
    let g = book.payout_for(round_id, outcome);
    picked_count(s, keep, g, one);
    assert forall|j: int| 0 <= j < s.len() && (#[trigger] s[j]).round_id == round_id implies ({
        &&& 0 <= total(s.take(j), one) < book.payouts_of(round_id, outcome).len()
        &&& book.payouts_of(round_id, outcome)[total(s.take(j), one)] == (Payout {
            round_id,
            address_index: s[j].address_index,
            zatoshi: s[j].zatoshi,
        })
    }) by {
        picked_place(s, keep, g, j);
        picked_count(s.take(j), keep, g, one);
    }
}

/// Closing a round that has no outcome names it in the round's row, writes the
/// payouts behind those that are there and the rake behind the others, and
/// touches nothing else. It is refused, and nothing is touched, where the round
/// is not there, has an outcome, has paid the address of a bet that is to be
/// paid, or has been raked.
pub proof fn closing_names_the_outcome_and_pays(
    book: Book,
    k: int,
    round_id: i64,
    outcome: Seq<char>,
    at: i64,
)
    requires
        book.wf(),
    ensures
        ({
            let closed = book.after_settle(round_id, outcome, at);
            let row = book.rounds[k];
            let there = 0 <= k < book.rounds.len() && row.id == round_id;
            let uncalled = forall|i: int|
                0 <= i < book.bets.len() && (#[trigger] book.bets[i]).round_id == round_id
                    ==> book.bets[i].outcome != outcome;
            let paid_before = exists|i: int, j: int|
                0 <= i < book.bets.len() && 0 <= j < book.payouts.len() && (
                #[trigger] book.bets[i]).round_id == round_id && (uncalled || book.bets[i].outcome
                    == outcome) && (#[trigger] book.payouts[j]).round_id == round_id
                    && book.payouts[j].address_index == book.bets[i].address_index;
            let raked_before = exists|j: int|
                0 <= j < book.rakes.len() && (#[trigger] book.rakes[j]).round_id == round_id;
            &&& (forall|i: int|
                0 <= i < book.rounds.len() ==> (#[trigger] book.rounds[i]).id != round_id)
                ==> closed == Err::<Book, RefusedView>(RefusedView::NoSuchRound)
            &&& there && row.outcome is Some ==> closed == Err::<Book, RefusedView>(
                RefusedView::AlreadySettled { round_id, previous: row.outcome->0 },
            )
            &&& there && row.outcome is None && paid_before ==> closed == Err::<Book, RefusedView>(
                RefusedView::PayoutStands,
            )
            &&& there && row.outcome is None && !paid_before && raked_before ==> closed == Err::<
                Book,
                RefusedView,
            >(RefusedView::RakeStands)
            &&& there && row.outcome is None && !paid_before && !raked_before ==> closed == Ok::<
                Book,
                RefusedView,
            >(
                Book {
                    rounds: book.rounds.update(
                        k,
                        RoundView {
                            id: round_id,
                            settles_on: row.settles_on,
                            outcome: Some(outcome),
                            settled_at: Some(at),
                        },
                    ),
                    payouts: book.payouts + book.payouts_of(round_id, outcome),
                    rakes: book.rakes.push(
                        Rake {
                            round_id,
                            zatoshi: book.settlement(round_id, outcome).rake as i64,
                        },
                    ),
                    ..book
                },
            )
        }),
{
    a_round_is_refunded_where_nobody_called_it(book, round_id, outcome);
    if 0 <= k < book.rounds.len() && book.rounds[k].id == round_id {
        assert(book.is_round(k, round_id));
        round_found(book, k, round_id);
    }
    if book.has_round(round_id) {
        assert(book.is_round(book.round_index(round_id), round_id));
    }
    if book.payouts_stand(round_id, outcome) {
        let i = choose|i: int|
            0 <= i < book.bets.len() && book.is_paid(round_id, outcome, #[trigger] book.bets[i])
                && book.payout_stands(round_id, book.bets[i].address_index);
        let j = choose|j: int|
            0 <= j < book.payouts.len() && (#[trigger] book.payouts[j]).round_id == round_id
                && book.payouts[j].address_index == book.bets[i].address_index;
        assert(book.bets[i].round_id == round_id && book.payouts[j].round_id == round_id);
    }
}

}
