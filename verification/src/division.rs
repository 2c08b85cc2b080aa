//! The arithmetic of closing a round: what winners are paid and what is left.

use vstd::arithmetic::div_mod::lemma_fundamental_div_mod;
use vstd::prelude::*;

use crate::book::{bet_backing, bet_on, cut_of, one_bet_backing, share_of, Book};
use crate::rows::BetView;
use crate::sums::{total, total_at_most, total_prefix, total_same, total_take};

verus! {

/// Where no item weighs less than nothing, no single one weighs more than all.
pub proof fn one_within_total<T>(s: Seq<T>, i: int, f: spec_fn(T) -> int)
    requires
        0 <= i < s.len(),
        forall|j: int| 0 <= j < s.len() ==> #[trigger] f(s[j]) >= 0,
    ensures
        0 <= f(s[i]) <= total(s, f),
{
    assert(f(s[i]) >= 0);
    total_take(s, i, f);
    total_prefix(s, i, f);
    total_prefix(s, i + 1, f);
}

/// A stake backing the outcome, with its share of what is divided.
spec fn stake_and_share(
    round_id: i64,
    outcome: Seq<char>,
    divided: int,
    pool: int,
) -> spec_fn(BetView) -> int {
    |b: BetView|
        if b.round_id == round_id && b.outcome == outcome {
            b.zatoshi + share_of(divided, b.zatoshi as int, pool)
        } else {
            0
        }
}

/// Summed over the backers, the shares come to what is divided, in proportion
/// to the stakes, less at most one unit for each backer.
proof fn shares_bound(
    bets: Seq<BetView>,
    round_id: i64,
    outcome: Seq<char>,
    divided: int,
    pool: int,
)
    requires
        pool > 0,
    ensures
        ({
            let backed = total(bets, bet_backing(round_id, outcome));
            let shares = total(bets, stake_and_share(round_id, outcome, divided, pool)) - backed;
            let backers = total(bets, one_bet_backing(round_id, outcome));
            &&& pool * shares <= divided * backed
            &&& divided * backed <= pool * shares + (pool - 1) * backers
            &&& backers >= 0
            &&& backers == 0 ==> backed == 0
        }),
    decreases bets.len(),
{
    if bets.len() == 0 {
        assert(pool * 0 == 0 && divided * 0 == 0 && (pool - 1) * 0 == 0) by (nonlinear_arith);
    } else {
        let front = bets.drop_last();
        let bet = bets.last();
        shares_bound(front, round_id, outcome, divided, pool);
        if bet.round_id == round_id && bet.outcome == outcome {
            let stake = bet.zatoshi as int;
            let share = share_of(divided, stake, pool);
            let backed = total(front, bet_backing(round_id, outcome));
            let shares = total(front, stake_and_share(round_id, outcome, divided, pool)) - backed;
            let backers = total(front, one_bet_backing(round_id, outcome));
            lemma_fundamental_div_mod(divided * stake, pool);
            assert(pool * share <= divided * stake <= pool * share + (pool - 1));
            assert(pool * (shares + share) <= divided * (backed + stake) <= pool * (shares + share)
                + (pool - 1) * (backers + 1)) by (nonlinear_arith)
                requires
                    pool * share <= divided * stake <= pool * share + (pool - 1),
                    pool * shares <= divided * backed <= pool * shares + (pool - 1) * backers,
            ;
        }
    }
}

/// What the pools of a round come to, whatever it closes on.
pub proof fn pools(book: Book, round_id: i64, outcome: Seq<char>)
    requires
        book.wf(),
    ensures
        0 <= book.winner_pool(round_id, outcome) <= book.staked(round_id),
        0 <= cut_of(book.losing_pool(round_id, outcome)) <= book.losing_pool(round_id, outcome),
        0 <= book.divided(round_id, outcome) <= book.losing_pool(round_id, outcome),
        0 <= book.winners(round_id, outcome) <= book.bets.len(),
{
    let on = bet_on(round_id);
    let backing = bet_backing(round_id, outcome);
    let one = one_bet_backing(round_id, outcome);
    let s = book.bets;
    assert(s.take(0) =~= Seq::empty());
    assert forall|i: int| 0 <= i < s.len() implies #[trigger] backing(s[i]) >= 0 && backing(s[i])
        <= on(s[i]) by {}
    assert forall|i: int| 0 <= i < s.len() implies #[trigger] one(s[i]) >= 0 by {}
    total_at_most(s, backing, on);
    total_prefix(s, 0, backing);
    total_prefix(s, 0, one);
    count_at_most(s, one);
    let losing = book.losing_pool(round_id, outcome);
    assert(0 <= losing * 3 / 100 <= losing) by (nonlinear_arith)
        requires
            0 <= losing,
    ;
}

proof fn count_at_most(s: Seq<BetView>, f: spec_fn(BetView) -> int)
    requires
        forall|i: int| 0 <= i < s.len() ==> #[trigger] f(s[i]) <= 1,
    ensures
        total(s, f) <= s.len(),
    decreases s.len(),
{
    if s.len() > 0 {
        assert(f(s[s.len() - 1]) <= 1);
        assert forall|i: int| 0 <= i < s.drop_last().len() implies #[trigger] f(s.drop_last()[i])
            <= 1 by {
            assert(f(s[i]) <= 1);
        }
        count_at_most(s.drop_last(), f);
    }
}

/// What a round pays and keeps: together all that was staked; of a refunded
/// round everything goes back, and of any other the house keeps its percentage
/// and less than one unit for each winner.
pub proof fn paid_and_raked(book: Book, round_id: i64, outcome: Seq<char>)
    requires
        book.wf(),
    ensures
        book.paid(round_id, outcome) + book.rake(round_id, outcome) == book.staked(round_id),
        book.refunds(round_id, outcome) ==> book.winners(round_id, outcome) == 0,
        !book.refunds(round_id, outcome) ==> {
            let cut = cut_of(book.losing_pool(round_id, outcome));
            cut <= book.rake(round_id, outcome) < cut + book.winners(round_id, outcome)
        },
        book.rake(round_id, outcome) >= 0,
        book.paid(round_id, outcome) >= 0,
        forall|i: int|
            0 <= i < book.bets.len() ==> 0 <= #[trigger] book.paid_to_bet(round_id, outcome)(
                book.bets[i],
            ) <= book.staked(round_id),
{
    pools(book, round_id, outcome);
    let s = book.bets;
    let to_bet = book.paid_to_bet(round_id, outcome);
    let pool = book.winner_pool(round_id, outcome);
    let divided = book.divided(round_id, outcome);
    let losing = book.losing_pool(round_id, outcome);
    let winners = book.winners(round_id, outcome);
    let backing = bet_backing(round_id, outcome);
    let one = one_bet_backing(round_id, outcome);
    if pool == 0 {
        let on = bet_on(round_id);
        assert forall|i: int| 0 <= i < s.len() implies #[trigger] to_bet(s[i]) == on(s[i]) by {}
        total_same(s, to_bet, on);
        assert forall|i: int| 0 <= i < s.len() implies #[trigger] one(s[i]) <= backing(s[i]) by {}
        total_at_most(s, one, backing);
    } else {
        let with_share = stake_and_share(round_id, outcome, divided, pool);
        assert forall|i: int| 0 <= i < s.len() implies #[trigger] to_bet(s[i]) == with_share(
            s[i],
        ) by {}
        total_same(s, to_bet, with_share);
        shares_bound(s, round_id, outcome, divided, pool);
        let shares = book.paid(round_id, outcome) - pool;
        assert(shares <= divided < shares + winners) by (nonlinear_arith)
            requires
                pool > 0,
                pool * shares <= divided * pool,
                divided * pool <= pool * shares + (pool - 1) * winners,
                winners > 0,
        ;
    }
    assert forall|i: int| 0 <= i < s.len() implies #[trigger] to_bet(s[i]) >= 0 by {
        if pool > 0 {
            let stake = s[i].zatoshi as int;
            assert(divided * stake / pool >= 0) by (nonlinear_arith)
                requires
                    divided >= 0,
                    stake >= 0,
                    pool > 0,
            ;
        }
    }
    total_prefix(s, 0, to_bet);
    assert(s.take(0) =~= Seq::empty());
    assert forall|i: int| 0 <= i < s.len() implies 0 <= #[trigger] to_bet(s[i]) <= book.staked(
        round_id,
    ) by {
        one_within_total(s, i, to_bet);
    }
}

}
