//! Why the sums fit: nobody can hold, and no round can take in, more than was
//! ever deposited.

use vstd::prelude::*;

use crate::book::{
    any_deposit, bet_by, bet_on, deposit_to, payout_to, withdrawal_by, Book, RAKE_PERCENT,
};
use crate::division::pools;
use crate::laws::{any_payout, any_rake, bet_in_settled, sound};
use crate::rows::{BetView, DepositView, Payout};
use crate::sums::{total, total_at_most, total_prefix, total_same, total_sum, total_zero};

verus! {

/// Every zatoshi there will ever be.
pub const MONEY_SUPPLY: u64 = 2_100_000_000_000_000;

/// All that was ever deposited.
pub open spec fn all_deposits(book: Book) -> int {
    total(book.deposits, any_deposit())
}

spec fn deposit_below(n: int) -> spec_fn(DepositView) -> int {
    |d: DepositView|
        if d.address_index < n {
            d.zatoshi as int
        } else {
            0
        }
}

spec fn bet_below(n: int) -> spec_fn(BetView) -> int {
    |b: BetView|
        if b.address_index < n {
            b.zatoshi as int
        } else {
            0
        }
}

spec fn payout_below(n: int) -> spec_fn(Payout) -> int {
    |p: Payout|
        if p.address_index < n {
            p.zatoshi as int
        } else {
            0
        }
}

spec fn any_bet() -> spec_fn(BetView) -> int {
    |b: BetView| b.zatoshi as int
}

spec fn bet_in_open(book: Book) -> spec_fn(BetView) -> int {
    |b: BetView|
        if book.settled(b.round_id) {
            0
        } else {
            b.zatoshi as int
        }
}

/// What an address holds before anything leaves.
spec fn held(book: Book, address_index: u32) -> int {
    book.deposited(address_index) - book.committed(address_index) + book.returned(address_index)
}

/// What all addresses below `n` hold before anything leaves.
spec fn held_below(book: Book, n: int) -> int {
    total(book.deposits, deposit_below(n)) - total(book.bets, bet_below(n)) + total(
        book.payouts,
        payout_below(n),
    )
}

proof fn nothing_leaves_twice(book: Book, address_index: u32)
    requires
        book.wf(),
    ensures
        book.leaving(address_index) >= 0,
{
    let f = withdrawal_by(address_index);
    assert forall|i: int| 0 <= i < book.withdrawals.len() implies #[trigger] f(book.withdrawals[i])
        >= 0 by {}
    total_prefix(book.withdrawals, 0, f);
    assert(book.withdrawals.take(0) =~= Seq::empty());
}

proof fn held_within(book: Book, n: int)
    requires
        sound(book),
        0 <= n <= 0x1_0000_0000,
    ensures
        held_below(book, n) >= 0,
        forall|a: u32| a < n ==> #[trigger] held(book, a) <= held_below(book, n),
    decreases n,
{
    if n == 0 {
        total_zero(book.deposits, deposit_below(0));
        total_zero(book.bets, bet_below(0));
        total_zero(book.payouts, payout_below(0));
    } else {
        let a = (n - 1) as u32;
        held_within(book, n - 1);
        total_sum(book.deposits, deposit_below(n - 1), deposit_to(a), deposit_below(n));
        total_sum(book.bets, bet_below(n - 1), bet_by(a), bet_below(n));
        total_sum(book.payouts, payout_below(n - 1), payout_to(a), payout_below(n));
        nothing_leaves_twice(book, a);
        assert(book.balance(a) >= 0);
        assert(held_below(book, n) == held_below(book, n - 1) + held(book, a));
        assert forall|b: u32| b < n implies #[trigger] held(book, b) <= held_below(book, n) by {
            if b == a {
            } else {
                assert(held(book, b) <= held_below(book, n - 1));
            }
        }
    }
}

/// Of a sound book: what an address could ever have, and what is staked in
/// rounds that are still open, is within what was ever deposited.
proof fn within_deposits(book: Book, address_index: u32)
    requires
        sound(book),
    ensures
        held(book, address_index) <= all_deposits(book),
        total(book.bets, bet_in_open(book)) <= all_deposits(book),
{
    let n = 0x1_0000_0000int;
    held_within(book, n);
    assert(held(book, address_index) <= held_below(book, n));
    total_same(book.deposits, deposit_below(n), any_deposit());
    total_same(book.bets, bet_below(n), any_bet());
    total_same(book.payouts, payout_below(n), any_payout());
    total_sum(book.bets, bet_in_settled(book), bet_in_open(book), any_bet());
    let rakes = any_rake();
    assert forall|i: int| 0 <= i < book.rakes.len() implies #[trigger] rakes(book.rakes[i])
        >= 0 by {}
    total_prefix(book.rakes, 0, rakes);
    assert(book.rakes.take(0) =~= Seq::empty());
    let open = bet_in_open(book);
    assert forall|i: int| 0 <= i < book.bets.len() implies #[trigger] open(book.bets[i]) >= 0 by {}
    total_prefix(book.bets, 0, open);
    assert(book.bets.take(0) =~= Seq::empty());
}

/// Of a sound book whose deposits are a signed 64-bit number, every balance
/// adds up and is within what was deposited.
pub proof fn every_balance_adds_up(book: Book, address_index: u32)
    requires
        sound(book),
        all_deposits(book) <= i64::MAX,
    ensures
        book.adds_up(address_index),
        0 <= book.balance(address_index) <= all_deposits(book),
{
    within_deposits(book, address_index);
    nothing_leaves_twice(book, address_index);
    assert(book.balance(address_index) >= 0);
}

/// Stakes near the money supply do not overflow: of a sound book whose deposits
/// are within it, every open round can be closed, on any outcome.
pub proof fn stakes_within_the_money_supply_do_not_overflow(
    book: Book,
    round_id: i64,
    outcome: Seq<char>,
)
    requires
        sound(book),
        all_deposits(book) <= MONEY_SUPPLY,
        book.unsettled(round_id),
    ensures
        book.staked(round_id) <= all_deposits(book),
        book.pools_fit(round_id, outcome),
{
    within_deposits(book, 0);
    let on = bet_on(round_id);
    let open = bet_in_open(book);
    assert forall|i: int| 0 <= i < book.bets.len() implies #[trigger] on(book.bets[i]) <= open(
        book.bets[i],
    ) by {}
    total_at_most(book.bets, on, open);
    pools(book, round_id, outcome);
    let losing = book.losing_pool(round_id, outcome);
    assert(losing * RAKE_PERCENT <= i64::MAX) by (nonlinear_arith)
        requires
            0 <= losing <= 2_100_000_000_000_000,
            RAKE_PERCENT == 3,
    ;
}

}
