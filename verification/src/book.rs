//! What the book says: balances, rounds and what each operation makes of them.

use vstd::prelude::*;

use crate::rows::{
    BetView, DepositView, DepositorView, Payout, Rake, RoundView, SettlementView, Tables,
    WithdrawalView,
};
use crate::sums::{picked, running_fits, total, views};

verus! {

/// The house's cut of what the losing side staked, in hundredths.
pub const RAKE_PERCENT: i64 = 3;

/// The book as the contracts see it: every row, in the order it was written.
#[verifier::ext_equal]
pub struct Book {
    pub deposits: Seq<DepositView>,
    pub depositors: Seq<DepositorView>,
    pub rounds: Seq<RoundView>,
    pub bets: Seq<BetView>,
    pub payouts: Seq<Payout>,
    pub withdrawals: Seq<WithdrawalView>,
    pub rakes: Seq<Rake>,
}

/// Why an operation on the book was refused.
#[verifier::ext_equal]
pub enum RefusedView {
    DepositNotAValue,
    StakeNotAValue,
    AmountNotAValue,
    NoSuchRound,
    SumTooLarge,
    CountTooLarge { count: nat },
    RoundClosed { round_id: i64 },
    AlreadySettled { round_id: i64, previous: Seq<char> },
    Short { address_index: u32, available: int, wanted: int },
    PositionTaken,
    NothingAsked,
    AlreadyPaid { id: i64, previous: Seq<char> },
    NoSuchWithdrawal { id: i64 },
    PayoutStands,
    RakeStands,
    Inconsistent,
}

impl View for Tables {
    type V = Book;

    open spec fn view(&self) -> Book {
        Book {
            deposits: views(self.deposits@),
            depositors: views(self.depositors@),
            rounds: views(self.rounds@),
            bets: views(self.bets@),
            payouts: self.payouts@,
            withdrawals: views(self.withdrawals@),
            rakes: self.rakes@,
        }
    }
}

// What a row counts for, towards an address or a round.

pub open spec fn deposit_to(address_index: u32) -> spec_fn(DepositView) -> int {
    |d: DepositView|
        if d.address_index == address_index {
            d.zatoshi as int
        } else {
            0
        }
}

pub open spec fn any_deposit() -> spec_fn(DepositView) -> int {
    |d: DepositView| d.zatoshi as int
}

pub open spec fn one_deposit_to(address_index: u32) -> spec_fn(DepositView) -> int {
    |d: DepositView|
        if d.address_index == address_index {
            1
        } else {
            0
        }
}

pub open spec fn bet_by(address_index: u32) -> spec_fn(BetView) -> int {
    |b: BetView|
        if b.address_index == address_index {
            b.zatoshi as int
        } else {
            0
        }
}

pub open spec fn bet_on(round_id: i64) -> spec_fn(BetView) -> int {
    |b: BetView|
        if b.round_id == round_id {
            b.zatoshi as int
        } else {
            0
        }
}

pub open spec fn bet_backing(round_id: i64, outcome: Seq<char>) -> spec_fn(BetView) -> int {
    |b: BetView|
        if b.round_id == round_id && b.outcome == outcome {
            b.zatoshi as int
        } else {
            0
        }
}

pub open spec fn one_bet_backing(round_id: i64, outcome: Seq<char>) -> spec_fn(BetView) -> int {
    |b: BetView|
        if b.round_id == round_id && b.outcome == outcome {
            1
        } else {
            0
        }
}

pub open spec fn payout_to(address_index: u32) -> spec_fn(Payout) -> int {
    |p: Payout|
        if p.address_index == address_index {
            p.zatoshi as int
        } else {
            0
        }
}

pub open spec fn withdrawal_by(address_index: u32) -> spec_fn(WithdrawalView) -> int {
    |w: WithdrawalView|
        if w.address_index == address_index {
            w.zatoshi as int
        } else {
            0
        }
}

pub open spec fn waits() -> spec_fn(WithdrawalView) -> bool {
    |w: WithdrawalView| w.txid is None
}

pub open spec fn itself() -> spec_fn(WithdrawalView) -> WithdrawalView {
    |w: WithdrawalView| w
}

/// What the house takes of a losing pool before rounding: the percentage, in
/// whole zatoshi.
pub open spec fn cut_of(losing: int) -> int {
    losing * RAKE_PERCENT / 100
}

/// What a stake of `stake` out of a winning pool of `pool` is given of
/// `divided`, in whole zatoshi.
pub open spec fn share_of(divided: int, stake: int, pool: int) -> int {
    divided * stake / pool
}

impl Book {
    /// A book with nothing in it.
    pub open spec fn blank() -> Book {
        Book {
            deposits: Seq::empty(),
            depositors: Seq::empty(),
            rounds: Seq::empty(),
            bets: Seq::empty(),
            payouts: Seq::empty(),
            withdrawals: Seq::empty(),
            rakes: Seq::empty(),
        }
    }

    // Balances.

    pub open spec fn deposited(self, address_index: u32) -> int {
        total(self.deposits, deposit_to(address_index))
    }

    pub open spec fn committed(self, address_index: u32) -> int {
        total(self.bets, bet_by(address_index))
    }

    pub open spec fn returned(self, address_index: u32) -> int {
        total(self.payouts, payout_to(address_index))
    }

    /// What is leaving, counted from the moment it is asked for, sent or not.
    pub open spec fn leaving(self, address_index: u32) -> int {
        total(self.withdrawals, withdrawal_by(address_index))
    }

    /// What a depositor can still commit: what came in, less what is committed
    /// to rounds, plus what rounds returned, less what is leaving.
    pub open spec fn balance(self, address_index: u32) -> int {
        self.deposited(address_index) - self.committed(address_index) + self.returned(address_index)
            - self.leaving(address_index)
    }

    /// Each of the four sums is a signed 64-bit number, at every step of adding
    /// it up.
    pub open spec fn sums_fit(self, address_index: u32) -> bool {
        &&& self.deposited(address_index) <= i64::MAX
        &&& self.committed(address_index) <= i64::MAX
        &&& running_fits(self.payouts, payout_to(address_index))
        &&& self.leaving(address_index) <= i64::MAX
    }

    /// Adding the four sums up, from the left, stays within a signed 64-bit
    /// number, or one of them is too large to begin with.
    pub open spec fn adds_up(self, address_index: u32) -> bool {
        self.sums_fit(address_index) ==> {
            &&& i64::MIN <= self.deposited(address_index) - self.committed(address_index)
                + self.returned(address_index) <= i64::MAX
            &&& self.balance(address_index) >= i64::MIN
        }
    }

    // The whole of what came in.

    pub open spec fn has_deposit_to(self, address_index: u32) -> bool {
        exists|i: int|
            0 <= i < self.deposits.len() && (#[trigger] self.deposits[i]).address_index
                == address_index
    }

    /// How many notes came in for an address.
    pub open spec fn deposits_to(self, address_index: u32) -> int {
        total(self.deposits, one_deposit_to(address_index))
    }

    /// Every address that something came in for, deepest first, and of two
    /// equally deep ones the lower index first.
    pub open spec fn is_ranking(self, order: Seq<u32>) -> bool {
        &&& forall|i: int| 0 <= i < order.len() ==> self.has_deposit_to(#[trigger] order[i])
        &&& forall|i: int, j: int|
            0 <= i < j < order.len() ==> self.deeper(#[trigger] order[i], #[trigger] order[j])
        &&& forall|k: int|
            0 <= k < self.deposits.len() ==> order.contains(
                (#[trigger] self.deposits[k]).address_index,
            )
    }

    pub open spec fn deeper(self, a: u32, b: u32) -> bool {
        self.deposited(a) > self.deposited(b) || (self.deposited(a) == self.deposited(b) && a < b)
    }

    /// No note was mined above `height`, and one was mined there.
    pub open spec fn is_highest(self, height: u32) -> bool {
        &&& exists|i: int|
            0 <= i < self.deposits.len() && (#[trigger] self.deposits[i]).height == height
        &&& forall|i: int|
            0 <= i < self.deposits.len() ==> (#[trigger] self.deposits[i]).height <= height
    }

    // Looking rows up.

    pub open spec fn has_note(self, txid: Seq<char>, output: u32) -> bool {
        exists|i: int|
            0 <= i < self.deposits.len() && (#[trigger] self.deposits[i]).txid == txid
                && self.deposits[i].output == output
    }

    pub open spec fn has_depositor(self, address_index: u32) -> bool {
        exists|i: int|
            0 <= i < self.depositors.len() && (#[trigger] self.depositors[i]).address_index
                == address_index
    }

    /// The name an address was handed out under, if it was.
    pub open spec fn label(self, address_index: u32) -> Option<Seq<char>> {
        if self.has_depositor(address_index) {
            let i = choose|i: int|
                0 <= i < self.depositors.len() && (#[trigger] self.depositors[i]).address_index
                    == address_index;
            Some(self.depositors[i].label)
        } else {
            None
        }
    }

    pub open spec fn is_round(self, i: int, round_id: i64) -> bool {
        0 <= i < self.rounds.len() && self.rounds[i].id == round_id
    }

    pub open spec fn has_round(self, round_id: i64) -> bool {
        exists|i: int| self.is_round(i, round_id)
    }

    /// Where the round stands among the rounds.
    pub open spec fn round_index(self, round_id: i64) -> int {
        choose|i: int| self.is_round(i, round_id)
    }

    pub open spec fn round(self, round_id: i64) -> RoundView {
        self.rounds[self.round_index(round_id)]
    }

    pub open spec fn settled(self, round_id: i64) -> bool {
        self.has_round(round_id) && self.round(round_id).outcome is Some
    }

    /// The round is there and nothing has decided it yet.
    pub open spec fn unsettled(self, round_id: i64) -> bool {
        self.has_round(round_id) && self.round(round_id).outcome is None
    }

    pub open spec fn is_round_on(self, i: int, settles_on: u32) -> bool {
        0 <= i < self.rounds.len() && self.rounds[i].settles_on == settles_on
    }

    pub open spec fn has_round_on(self, settles_on: u32) -> bool {
        exists|i: int| self.is_round_on(i, settles_on)
    }

    /// The round that a block decides.
    pub open spec fn round_on(self, settles_on: u32) -> RoundView {
        self.rounds[choose|i: int| self.is_round_on(i, settles_on)]
    }

    pub open spec fn has_position(self, round_id: i64, address_index: u32) -> bool {
        exists|i: int|
            0 <= i < self.bets.len() && (#[trigger] self.bets[i]).round_id == round_id
                && self.bets[i].address_index == address_index
    }

    pub open spec fn is_withdrawal(self, i: int, id: i64) -> bool {
        0 <= i < self.withdrawals.len() && self.withdrawals[i].id == id
    }

    pub open spec fn has_withdrawal(self, id: i64) -> bool {
        exists|i: int| self.is_withdrawal(i, id)
    }

    pub open spec fn withdrawal_index(self, id: i64) -> int {
        choose|i: int| self.is_withdrawal(i, id)
    }

    pub open spec fn withdrawal(self, id: i64) -> WithdrawalView {
        self.withdrawals[self.withdrawal_index(id)]
    }

    // The rules every book keeps.

    /// One note, one row, however many times the chain is read.
    pub open spec fn notes_once(self) -> bool {
        &&& forall|i: int, j: int|
            0 <= i < j < self.deposits.len() ==> !((#[trigger] self.deposits[i]).txid == (
            #[trigger] self.deposits[j]).txid && self.deposits[i].output == self.deposits[j].output)
        &&& forall|i: int|
            0 <= i < self.deposits.len() ==> (#[trigger] self.deposits[i]).zatoshi <= i64::MAX
    }

    pub open spec fn depositors_once(self) -> bool {
        forall|i: int, j: int|
            0 <= i < j < self.depositors.len() ==> (#[trigger] self.depositors[i]).address_index
                != (#[trigger] self.depositors[j]).address_index
    }

    /// Rounds are numbered upwards, and a block decides one round.
    pub open spec fn rounds_once(self) -> bool {
        &&& forall|i: int, j: int|
            0 <= i < j < self.rounds.len() ==> (#[trigger] self.rounds[i]).id < (
            #[trigger] self.rounds[j]).id
        &&& forall|i: int, j: int|
            0 <= i < j < self.rounds.len() ==> (#[trigger] self.rounds[i]).settles_on != (
            #[trigger] self.rounds[j]).settles_on
    }

    /// One position per round per depositor, and no empty one.
    pub open spec fn positions_once(self) -> bool {
        &&& forall|i: int, j: int|
            0 <= i < j < self.bets.len() ==> !((#[trigger] self.bets[i]).round_id == (
            #[trigger] self.bets[j]).round_id && self.bets[i].address_index
                == self.bets[j].address_index)
        &&& forall|i: int| 0 <= i < self.bets.len() ==> (#[trigger] self.bets[i]).zatoshi > 0
    }

    /// A round pays an address once.
    pub open spec fn payouts_once(self) -> bool {
        forall|i: int, j: int|
            0 <= i < j < self.payouts.len() ==> !((#[trigger] self.payouts[i]).round_id == (
            #[trigger] self.payouts[j]).round_id && self.payouts[i].address_index
                == self.payouts[j].address_index)
    }

    /// Withdrawals are numbered upwards, and none is empty.
    pub open spec fn withdrawals_once(self) -> bool {
        &&& forall|i: int, j: int|
            0 <= i < j < self.withdrawals.len() ==> (#[trigger] self.withdrawals[i]).id < (
            #[trigger] self.withdrawals[j]).id
        &&& forall|i: int|
            0 <= i < self.withdrawals.len() ==> (#[trigger] self.withdrawals[i]).zatoshi > 0
    }

    /// A round is raked once.
    pub open spec fn rakes_once(self) -> bool {
        forall|i: int, j: int|
            0 <= i < j < self.rakes.len() ==> (#[trigger] self.rakes[i]).round_id != (
            #[trigger] self.rakes[j]).round_id
    }

    pub open spec fn wf(self) -> bool {
        &&& self.notes_once()
        &&& self.depositors_once()
        &&& self.rounds_once()
        &&& self.positions_once()
        &&& self.payouts_once()
        &&& self.withdrawals_once()
        &&& self.rakes_once()
    }

    // Withdrawals that wait for a transaction.

    /// The withdrawals without a transaction, in the order of their numbers.
    pub open spec fn unsent(self) -> Seq<WithdrawalView> {
        picked(self.withdrawals, waits(), itself())
    }

    // Closing a round.

    pub open spec fn staked(self, round_id: i64) -> int {
        total(self.bets, bet_on(round_id))
    }

    pub open spec fn winner_pool(self, round_id: i64, outcome: Seq<char>) -> int {
        total(self.bets, bet_backing(round_id, outcome))
    }

    pub open spec fn winners(self, round_id: i64, outcome: Seq<char>) -> int {
        total(self.bets, one_bet_backing(round_id, outcome))
    }

    pub open spec fn losing_pool(self, round_id: i64, outcome: Seq<char>) -> int {
        self.staked(round_id) - self.winner_pool(round_id, outcome)
    }

    /// What is divided among the winners beyond their own stakes.
    pub open spec fn divided(self, round_id: i64, outcome: Seq<char>) -> int {
        self.losing_pool(round_id, outcome) - cut_of(self.losing_pool(round_id, outcome))
    }

    /// Nobody named the miner that turned up, so stakes go back.
    pub open spec fn refunds(self, round_id: i64, outcome: Seq<char>) -> bool {
        self.winner_pool(round_id, outcome) == 0
    }

    /// Whether a bet is paid when the round closes on `outcome`.
    pub open spec fn is_paid(self, round_id: i64, outcome: Seq<char>, bet: BetView) -> bool {
        bet.round_id == round_id && (self.refunds(round_id, outcome) || bet.outcome == outcome)
    }

    /// What a paid bet is paid: the stake, and on top of it, unless the round
    /// is refunded, its share of what the others lost.
    pub open spec fn amount(self, round_id: i64, outcome: Seq<char>, bet: BetView) -> int {
        if self.refunds(round_id, outcome) {
            bet.zatoshi as int
        } else {
            bet.zatoshi + share_of(
                self.divided(round_id, outcome),
                bet.zatoshi as int,
                self.winner_pool(round_id, outcome),
            )
        }
    }

    pub open spec fn pays(self, round_id: i64, outcome: Seq<char>) -> spec_fn(BetView) -> bool {
        |b: BetView| self.is_paid(round_id, outcome, b)
    }

    pub open spec fn payout_for(
        self,
        round_id: i64,
        outcome: Seq<char>,
    ) -> spec_fn(BetView) -> Payout {
        |b: BetView|
            Payout {
                round_id,
                address_index: b.address_index,
                zatoshi: self.amount(round_id, outcome, b) as i64,
            }
    }

    pub open spec fn paid_to_bet(
        self,
        round_id: i64,
        outcome: Seq<char>,
    ) -> spec_fn(BetView) -> int {
        |b: BetView|
            if self.is_paid(round_id, outcome, b) {
                self.amount(round_id, outcome, b)
            } else {
                0
            }
    }

    /// The payouts that closing the round writes, in the order of the bets.
    pub open spec fn payouts_of(self, round_id: i64, outcome: Seq<char>) -> Seq<Payout> {
        picked(self.bets, self.pays(round_id, outcome), self.payout_for(round_id, outcome))
    }

    pub open spec fn paid(self, round_id: i64, outcome: Seq<char>) -> int {
        total(self.bets, self.paid_to_bet(round_id, outcome))
    }

    /// What the house keeps: nothing of a refunded round, and of any other
    /// whatever was staked and not paid.
    pub open spec fn rake(self, round_id: i64, outcome: Seq<char>) -> int {
        if self.refunds(round_id, outcome) {
            0
        } else {
            self.staked(round_id) - self.paid(round_id, outcome)
        }
    }

    /// The pools are signed 64-bit numbers, and so is the losing one times the
    /// percentage.
    pub open spec fn pools_fit(self, round_id: i64, outcome: Seq<char>) -> bool {
        &&& self.staked(round_id) <= i64::MAX
        &&& !self.refunds(round_id, outcome) ==> self.losing_pool(round_id, outcome) * RAKE_PERCENT
            <= i64::MAX
    }

    /// A payout of the round to the address is written.
    pub open spec fn payout_stands(self, round_id: i64, address_index: u32) -> bool {
        exists|i: int|
            0 <= i < self.payouts.len() && (#[trigger] self.payouts[i]).round_id == round_id
                && self.payouts[i].address_index == address_index
    }

    /// A payout that closing the round would write is written already.
    pub open spec fn payouts_stand(self, round_id: i64, outcome: Seq<char>) -> bool {
        exists|i: int|
            0 <= i < self.bets.len() && self.is_paid(round_id, outcome, #[trigger] self.bets[i])
                && self.payout_stands(round_id, self.bets[i].address_index)
    }

    /// A rake of the round is written.
    pub open spec fn rake_stands(self, round_id: i64) -> bool {
        exists|i: int|
            0 <= i < self.rakes.len() && (#[trigger] self.rakes[i]).round_id == round_id
    }

    pub open spec fn settlement(self, round_id: i64, outcome: Seq<char>) -> SettlementView {
        SettlementView {
            outcome,
            staked: self.staked(round_id),
            winners: self.winners(round_id, outcome) as nat,
            paid: self.paid(round_id, outcome),
            rake: self.rake(round_id, outcome),
            refunded: self.refunds(round_id, outcome),
        }
    }

    // What each operation makes of the book, or why it refuses.

    pub open spec fn after_deposit(self, deposit: DepositView) -> Result<Book, RefusedView> {
        if deposit.zatoshi > i64::MAX {
            Err(RefusedView::DepositNotAValue)
        } else if self.has_note(deposit.txid, deposit.output) {
            Ok(self)
        } else {
            Ok(Book { deposits: self.deposits.push(deposit), ..self })
        }
    }

    pub open spec fn after_assign(self, depositor: DepositorView) -> Book {
        if self.has_depositor(depositor.address_index) {
            self
        } else {
            Book { depositors: self.depositors.push(depositor), ..self }
        }
    }

    /// The number the next round gets: one past the last, or one.
    pub open spec fn next_round_id(self) -> int {
        if self.rounds.len() == 0 {
            1
        } else {
            self.rounds.last().id + 1
        }
    }

    pub open spec fn after_open_round(self, settles_on: u32) -> Book {
        if self.has_round_on(settles_on) {
            self
        } else {
            Book {
                rounds: self.rounds.push(
                    RoundView {
                        id: self.next_round_id() as i64,
                        settles_on,
                        outcome: None,
                        settled_at: None,
                    },
                ),
                ..self
            }
        }
    }

    pub open spec fn after_place(
        self,
        round_id: i64,
        address_index: u32,
        outcome: Seq<char>,
        zatoshi: u64,
        at: i64,
    ) -> Result<Book, RefusedView> {
        if !self.has_round(round_id) {
            Err(RefusedView::NoSuchRound)
        } else if self.settled(round_id) {
            Err(RefusedView::RoundClosed { round_id })
        } else if !self.sums_fit(address_index) {
            Err(RefusedView::SumTooLarge)
        } else if zatoshi > i64::MAX {
            Err(RefusedView::StakeNotAValue)
        } else if zatoshi > self.balance(address_index) {
            Err(
                RefusedView::Short {
                    address_index,
                    available: self.balance(address_index),
                    wanted: zatoshi as int,
                },
            )
        } else if zatoshi == 0 || self.has_position(round_id, address_index) {
            Err(RefusedView::PositionTaken)
        } else {
            Ok(
                Book {
                    bets: self.bets.push(
                        BetView {
                            round_id,
                            address_index,
                            outcome,
                            zatoshi: zatoshi as i64,
                            placed_at: at,
                        },
                    ),
                    ..self
                },
            )
        }
    }

    /// The number the next withdrawal gets: one past the last, or one.
    pub open spec fn next_withdrawal_id(self) -> int {
        if self.withdrawals.len() == 0 {
            1
        } else {
            self.withdrawals.last().id + 1
        }
    }

    pub open spec fn after_request(
        self,
        address_index: u32,
        zatoshi: u64,
        destination: Seq<char>,
        at: i64,
    ) -> Result<Book, RefusedView> {
        if !self.sums_fit(address_index) {
            Err(RefusedView::SumTooLarge)
        } else if zatoshi > i64::MAX {
            Err(RefusedView::AmountNotAValue)
        } else if zatoshi > self.balance(address_index) {
            Err(
                RefusedView::Short {
                    address_index,
                    available: self.balance(address_index),
                    wanted: zatoshi as int,
                },
            )
        } else if zatoshi == 0 {
            Err(RefusedView::NothingAsked)
        } else {
            Ok(
                Book {
                    withdrawals: self.withdrawals.push(
                        WithdrawalView {
                            id: self.next_withdrawal_id() as i64,
                            address_index,
                            zatoshi: zatoshi as i64,
                            destination,
                            requested_at: at,
                            txid: None,
                            sent_at: None,
                        },
                    ),
                    ..self
                },
            )
        }
    }

    pub open spec fn after_mark_sent(
        self,
        id: i64,
        txid: Seq<char>,
        at: i64,
    ) -> Result<Book, RefusedView> {
        if !self.has_withdrawal(id) {
            Err(RefusedView::NoSuchWithdrawal { id })
        } else {
            match self.withdrawal(id).txid {
                Some(previous) => Err(RefusedView::AlreadyPaid { id, previous }),
                None => Ok(
                    Book {
                        withdrawals: self.withdrawals.update(
                            self.withdrawal_index(id),
                            WithdrawalView {
                                txid: Some(txid),
                                sent_at: Some(at),
                                ..self.withdrawal(id)
                            },
                        ),
                        ..self
                    },
                ),
            }
        }
    }

    pub open spec fn after_settle(
        self,
        round_id: i64,
        outcome: Seq<char>,
        at: i64,
    ) -> Result<Book, RefusedView> {
        if !self.has_round(round_id) {
            Err(RefusedView::NoSuchRound)
        } else {
            match self.round(round_id).outcome {
                Some(previous) => Err(RefusedView::AlreadySettled { round_id, previous }),
                None => if self.payouts_stand(round_id, outcome) {
                    Err(RefusedView::PayoutStands)
                } else if self.rake_stands(round_id) {
                    Err(RefusedView::RakeStands)
                } else {
                    Ok(
                        Book {
                            rounds: self.rounds.update(
                                self.round_index(round_id),
                                RoundView {
                                    outcome: Some(outcome),
                                    settled_at: Some(at),
                                    ..self.round(round_id)
                                },
                            ),
                            payouts: self.payouts + self.payouts_of(round_id, outcome),
                            rakes: self.rakes.push(
                                Rake { round_id, zatoshi: self.rake(round_id, outcome) as i64 },
                            ),
                            ..self
                        },
                    )
                },
            }
        }
    }
}

}
