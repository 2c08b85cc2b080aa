//! The book: who deposited what, and what they are owed.
//!
//! The chain is the authority for money arriving and leaving. This records
//! what the chain showed and what happened between those two events, the
//! rounds, which never touch the chain and so exist only here. Every balance
//! is worked out from rows that name their evidence.

use vstd::prelude::*;

use crate::book::{
    any_deposit, bet_backing, bet_by, bet_on, deposit_to, itself, one_bet_backing, one_deposit_to,
    payout_to, share_of, waits, withdrawal_by, Book, RefusedView, RAKE_PERCENT,
};
use crate::division::{paid_and_raked, pools};
use crate::opening::keeps_rules;
use crate::refusal::LedgerError;
use crate::rows::{
    copy_deposit, text_of, Bet, Deposit, Depositor, DepositorView, Payout, Rake, Round, Settlement,
    Tables, Withdrawal,
};
use crate::rules::{
    assign_keeps_rules, deposit_keeps_rules, label_found, mark_sent_keeps_rules,
    open_round_keeps_rules, payouts_that_stand, place_keeps_rules, request_keeps_rules, round_found, round_on_found,
    settle_keeps_rules, withdrawal_found,
};
use crate::sums::{picked, picked_take, running_fits, total, total_prefix, total_take, views};

verus! {

/// The book, with its rows in memory.
pub struct Ledger {
    tables: Tables,
}

impl View for Ledger {
    type V = Book;

    closed spec fn view(&self) -> Book {
        self.tables@
    }
}

impl Ledger {
    /// The rules that every book keeps.
    pub open spec fn wf(&self) -> bool {
        self@.wf()
    }

    /// A book with nothing in it.
    pub fn prepare() -> (ledger: Ledger)
        ensures
            ledger.wf(),
            ledger@ == Book::blank(),
    {
        let ledger = Ledger {
            tables: Tables {
                deposits: Vec::new(),
                depositors: Vec::new(),
                rounds: Vec::new(),
                bets: Vec::new(),
                payouts: Vec::new(),
                withdrawals: Vec::new(),
                rakes: Vec::new(),
            },
        };
        assert(ledger@ =~= Book::blank());
        ledger
    }

    /// Takes up a book from its stored rows, or refuses rows that break the
    /// rules, which no store of these tables holds. Rounds and withdrawals come
    /// in the order of their numbers.
    pub fn open(tables: Tables) -> (result: Result<Ledger, LedgerError>)
        ensures
            match result {
                Ok(ledger) => ledger.wf() && ledger@ == tables@,
                Err(e) => !tables@.wf() && e@ == RefusedView::Inconsistent,
            },
    {
        if keeps_rules(&tables) {
            Ok(Ledger { tables })
        } else {
            Err(LedgerError::Inconsistent)
        }
    }

    /// The rows of the book, for whoever stores them.
    pub fn tables(&self) -> (tables: &Tables)
        ensures
            tables@ == self@,
    {
        &self.tables
    }

    /// What came in for an address, where it is a signed 64-bit number.
    fn deposited(&self, address_index: u32) -> (sum: Option<i64>)
        requires
            self.wf(),
        ensures
            match sum {
                Some(v) => v == self@.deposited(address_index) && v >= 0,
                None => self@.deposited(address_index) > i64::MAX,
            },
    {
        let ghost rows = self@.deposits;
        let ghost f = deposit_to(address_index);
        let mut sum: i64 = 0;
        let mut i: usize = 0;
        while i < self.tables.deposits.len()
            invariant
                i <= rows.len(),
                rows == views(self.tables.deposits@),
                f == deposit_to(address_index),
                sum >= 0,
                sum == total(rows.take(i as int), f),
                forall|j: int| 0 <= j < rows.len() ==> 0 <= #[trigger] f(rows[j]) <= i64::MAX,
            decreases rows.len() - i,
        {
            let row = &self.tables.deposits[i];
            proof {
                total_take(rows, i as int, f);
                total_prefix(rows, i + 1, f);
                assert(rows[i as int] == row@);
                assert(f(rows[i as int]) <= i64::MAX);
            }
            if row.address_index == address_index {
                match sum.checked_add(row.zatoshi as i64) {
                    Some(s) => sum = s,
                    None => return None,
                }
            }
            i += 1;
        }
        assert(rows.take(i as int) =~= rows);
        Some(sum)
    }

    /// What an address has committed to rounds.
    fn committed(&self, address_index: u32) -> (sum: Option<i64>)
        requires
            self.wf(),
        ensures
            match sum {
                Some(v) => v == self@.committed(address_index) && v >= 0,
                None => self@.committed(address_index) > i64::MAX,
            },
    {
        let ghost rows = self@.bets;
        let ghost f = bet_by(address_index);
        let mut sum: i64 = 0;
        let mut i: usize = 0;
        while i < self.tables.bets.len()
            invariant
                i <= rows.len(),
                rows == views(self.tables.bets@),
                f == bet_by(address_index),
                sum >= 0,
                sum == total(rows.take(i as int), f),
                forall|j: int| 0 <= j < rows.len() ==> 0 <= #[trigger] f(rows[j]) <= i64::MAX,
            decreases rows.len() - i,
        {
            let row = &self.tables.bets[i];
            proof {
                total_take(rows, i as int, f);
                total_prefix(rows, i + 1, f);
                assert(rows[i as int] == row@);
                assert(f(rows[i as int]) <= i64::MAX);
            }
            if row.address_index == address_index {
                match sum.checked_add(row.zatoshi) {
                    Some(s) => sum = s,
                    None => return None,
                }
            }
            i += 1;
        }
        assert(rows.take(i as int) =~= rows);
        Some(sum)
    }

    /// What rounds returned to an address.
    fn returned(&self, address_index: u32) -> (sum: Option<i64>)
        requires
            self.wf(),
        ensures
            match sum {
                Some(v) => v == self@.returned(address_index) && running_fits(
                    self@.payouts,
                    payout_to(address_index),
                ),
                None => !running_fits(self@.payouts, payout_to(address_index)),
            },
    {
        let ghost rows = self@.payouts;
        let ghost f = payout_to(address_index);
        let mut sum: i64 = 0;
        let mut i: usize = 0;
        while i < self.tables.payouts.len()
            invariant
                i <= rows.len(),
                rows == self.tables.payouts@,
                f == payout_to(address_index),
                sum == total(rows.take(i as int), f),
                forall|k: int|
                    0 <= k <= i ==> i64::MIN <= #[trigger] total(rows.take(k), f) <= i64::MAX,
            decreases rows.len() - i,
        {
            let row = &self.tables.payouts[i];
            proof {
                total_take(rows, i as int, f);
                assert(rows[i as int] == *row);
            }
            if row.address_index == address_index {
                match sum.checked_add(row.zatoshi) {
                    Some(s) => sum = s,
                    None => return None,
                }
            }
            i += 1;
        }
        assert(rows.take(i as int) =~= rows);
        Some(sum)
    }

    /// What is leaving an address.
    fn leaving(&self, address_index: u32) -> (sum: Option<i64>)
        requires
            self.wf(),
        ensures
            match sum {
                Some(v) => v == self@.leaving(address_index) && v >= 0,
                None => self@.leaving(address_index) > i64::MAX,
            },
    {
        let ghost rows = self@.withdrawals;
        let ghost f = withdrawal_by(address_index);
        let mut sum: i64 = 0;
        let mut i: usize = 0;
        while i < self.tables.withdrawals.len()
            invariant
                i <= rows.len(),
                rows == views(self.tables.withdrawals@),
                f == withdrawal_by(address_index),
                sum >= 0,
                sum == total(rows.take(i as int), f),
                forall|j: int| 0 <= j < rows.len() ==> 0 <= #[trigger] f(rows[j]) <= i64::MAX,
            decreases rows.len() - i,
        {
            let row = &self.tables.withdrawals[i];
            proof {
                total_take(rows, i as int, f);
                total_prefix(rows, i + 1, f);
                assert(rows[i as int] == row@);
                assert(f(rows[i as int]) <= i64::MAX);
            }
            if row.address_index == address_index {
                match sum.checked_add(row.zatoshi) {
                    Some(s) => sum = s,
                    None => return None,
                }
            }
            i += 1;
        }
        assert(rows.take(i as int) =~= rows);
        Some(sum)
    }

    /// Whether adding up what an address has stays within a signed 64-bit
    /// number at every step.
    pub fn adds_up(&self, address_index: u32) -> (fits: bool)
        requires
            self.wf(),
        ensures
            fits == self@.adds_up(address_index),
    {
        match (
            self.deposited(address_index),
            self.committed(address_index),
            self.returned(address_index),
            self.leaving(address_index),
        ) {
            (Some(deposited), Some(committed), Some(returned), Some(leaving)) => {
                let before: i128 = deposited as i128 - committed as i128 + returned as i128;
                i64::MIN as i128 <= before && before <= i64::MAX as i128 && before - leaving as i128 >= i64::MIN as i128
            },
            _ => true,
        }
    }

    /// What a depositor can still commit: what came in, less what is committed
    /// to rounds, plus what rounds returned, less what is leaving.
    pub fn available(&self, address_index: u32) -> (result: Result<i64, LedgerError>)
        requires
            self.wf(),
            self@.adds_up(address_index),
        ensures
            match result {
                Ok(zatoshi) => self@.sums_fit(address_index) && zatoshi == self@.balance(
                    address_index,
                ),
                Err(e) => !self@.sums_fit(address_index) && e@ == RefusedView::SumTooLarge,
            },
    {
        let deposited = match self.deposited(address_index) {
            Some(sum) => sum,
            None => return Err(LedgerError::SumTooLarge),
        };
        let committed = match self.committed(address_index) {
            Some(sum) => sum,
            None => return Err(LedgerError::SumTooLarge),
        };
        let returned = match self.returned(address_index) {
            Some(sum) => sum,
            None => return Err(LedgerError::SumTooLarge),
        };
        // Counted from the moment it is asked for, sent or not. Waiting for
        // the transaction would let the same balance be withdrawn twice.
        let leaving = match self.leaving(address_index) {
            Some(sum) => sum,
            None => return Err(LedgerError::SumTooLarge),
        };
        Ok(deposited - committed + returned - leaving)
    }

    /// Where a round stands.
    fn find_round(&self, round_id: i64) -> (found: Option<usize>)
        requires
            self.wf(),
        ensures
            match found {
                Some(i) => self@.has_round(round_id) && i == self@.round_index(round_id)
                    && self@.is_round(i as int, round_id),
                None => !self@.has_round(round_id),
            },
    {
        let mut i: usize = 0;
        while i < self.tables.rounds.len()
            invariant
                self.wf(),
                i <= self@.rounds.len(),
                forall|j: int| 0 <= j < i ==> !self@.is_round(j, round_id),
            decreases self.tables.rounds@.len() - i,
        {
            assert(self@.rounds[i as int] == self.tables.rounds@[i as int]@);
            if self.tables.rounds[i].id == round_id {
                proof {
                    round_found(self@, i as int, round_id);
                }
                return Some(i);
            }
            i += 1;
        }
        None
    }

    /// Where a withdrawal stands.
    fn find_withdrawal(&self, id: i64) -> (found: Option<usize>)
        requires
            self.wf(),
        ensures
            match found {
                Some(i) => self@.has_withdrawal(id) && i == self@.withdrawal_index(id)
                    && self@.is_withdrawal(i as int, id),
                None => !self@.has_withdrawal(id),
            },
    {
        let mut i: usize = 0;
        while i < self.tables.withdrawals.len()
            invariant
                self.wf(),
                i <= self@.withdrawals.len(),
                forall|j: int| 0 <= j < i ==> !self@.is_withdrawal(j, id),
            decreases self.tables.withdrawals@.len() - i,
        {
            assert(self@.withdrawals[i as int] == self.tables.withdrawals@[i as int]@);
            if self.tables.withdrawals[i].id == id {
                proof {
                    withdrawal_found(self@, i as int, id);
                }
                return Some(i);
            }
            i += 1;
        }
        None
    }

    /// Whether a depositor has a position in a round.
    fn has_position(&self, round_id: i64, address_index: u32) -> (has: bool)
        ensures
            has == self@.has_position(round_id, address_index),
    {
        let mut i: usize = 0;
        while i < self.tables.bets.len()
            invariant
                i <= self@.bets.len(),
                forall|j: int|
                    0 <= j < i ==> !((#[trigger] self@.bets[j]).round_id == round_id
                        && self@.bets[j].address_index == address_index),
            decreases self.tables.bets@.len() - i,
        {
            assert(self@.bets[i as int] == self.tables.bets@[i as int]@);
            if self.tables.bets[i].round_id == round_id && self.tables.bets[i].address_index
                == address_index {
                return true;
            }
            i += 1;
        }
        false
    }

    /// Commits a stake to a round, or refuses.
    pub fn place(
        &mut self,
        round_id: i64,
        address_index: u32,
        outcome: &str,
        zatoshi: u64,
        at: i64,
    ) -> (result: Result<(), LedgerError>)
        requires
            old(self).wf(),
            old(self)@.unsettled(round_id) ==> old(self)@.adds_up(address_index),
        ensures
            final(self).wf(),
            match result {
                Ok(()) => old(self)@.after_place(round_id, address_index, outcome@, zatoshi, at)
                    == Ok::<Book, RefusedView>(final(self)@),
                Err(e) => final(self)@ == old(self)@ && old(self)@.after_place(
                    round_id,
                    address_index,
                    outcome@,
                    zatoshi,
                    at,
                ) == Err::<Book, RefusedView>(e@),
            },
    {
        proof {
            place_keeps_rules(self@, round_id, address_index, outcome@, zatoshi, at);
        }
        let round = match self.find_round(round_id) {
            Some(i) => i,
            None => return Err(LedgerError::NoSuchRound),
        };
        assert(self@.rounds[round as int] == self.tables.rounds@[round as int]@);
        if self.tables.rounds[round].outcome.is_some() {
            return Err(LedgerError::RoundClosed { round_id });
        }
        let available = match self.available(address_index) {
            Ok(sum) => sum,
            Err(e) => return Err(e),
        };
        if zatoshi > i64::MAX as u64 {
            return Err(LedgerError::StakeNotAValue);
        }
        let wanted: i64 = zatoshi as i64;
        if wanted > available {
            return Err(LedgerError::Short { address_index, available, wanted });
        }
        if wanted == 0 || self.has_position(round_id, address_index) {
            return Err(LedgerError::PositionTaken);
        }
        let bet = Bet {
            round_id,
            address_index,
            outcome: outcome.to_owned(),
            zatoshi: wanted,
            placed_at: at,
        };
        self.tables.bets.push(bet);
        assert(self@.bets =~= old(self)@.bets.push(bet@));
        Ok(())
    }

    /// Commits a balance to leaving, before anything is sent, and says under
    /// which number.
    pub fn request_withdrawal(
        &mut self,
        address_index: u32,
        zatoshi: u64,
        destination: &str,
        at: i64,
    ) -> (result: Result<i64, LedgerError>)
        requires
            old(self).wf(),
            old(self)@.adds_up(address_index),
            old(self)@.next_withdrawal_id() <= i64::MAX,
        ensures
            final(self).wf(),
            match result {
                Ok(id) => id == old(self)@.next_withdrawal_id() && old(self)@.after_request(
                    address_index,
                    zatoshi,
                    destination@,
                    at,
                ) == Ok::<Book, RefusedView>(final(self)@),
                Err(e) => final(self)@ == old(self)@ && old(self)@.after_request(
                    address_index,
                    zatoshi,
                    destination@,
                    at,
                ) == Err::<Book, RefusedView>(e@),
            },
    {
        proof {
            request_keeps_rules(self@, address_index, zatoshi, destination@, at);
        }
        let available = match self.available(address_index) {
            Ok(sum) => sum,
            Err(e) => return Err(e),
        };
        if zatoshi > i64::MAX as u64 {
            return Err(LedgerError::AmountNotAValue);
        }
        let wanted: i64 = zatoshi as i64;
        if wanted > available {
            return Err(LedgerError::Short { address_index, available, wanted });
        }
        if wanted == 0 {
            return Err(LedgerError::NothingAsked);
        }
        let n = self.tables.withdrawals.len();
        let id: i64 = if n == 0 {
            1
        } else {
            assert(self@.withdrawals[n - 1] == self.tables.withdrawals@[n - 1]@);
            self.tables.withdrawals[n - 1].id + 1
        };
        let withdrawal = Withdrawal {
            id,
            address_index,
            zatoshi: wanted,
            destination: destination.to_owned(),
            requested_at: at,
            txid: None,
            sent_at: None,
        };
        self.tables.withdrawals.push(withdrawal);
        assert(self@.withdrawals =~= old(self)@.withdrawals.push(withdrawal@));
        Ok(id)
    }

    /// Whether the pools of a round stay within a signed 64-bit number when it
    /// closes on an outcome.
    pub fn pools_fit(&self, round_id: i64, outcome: &str) -> (fits: bool)
        requires
            self.wf(),
        ensures
            fits == self@.pools_fit(round_id, outcome@),
    {
        let wanted = outcome.to_owned();
        let ghost bets = self@.bets;
        let ghost on = bet_on(round_id);
        let ghost backing = bet_backing(round_id, outcome@);
        let mut staked: i64 = 0;
        let mut pool: i64 = 0;
        let mut i: usize = 0;
        while i < self.tables.bets.len()
            invariant
                self.wf(),
                i <= bets.len(),
                bets == self@.bets,
                wanted@ == outcome@,
                on == bet_on(round_id),
                backing == bet_backing(round_id, outcome@),
                0 <= pool <= staked,
                staked == total(bets.take(i as int), on),
                pool == total(bets.take(i as int), backing),
                forall|j: int| 0 <= j < bets.len() ==> 0 <= #[trigger] on(bets[j]) <= i64::MAX,
            decreases bets.len() - i,
        {
            let bet = &self.tables.bets[i];
            proof {
                total_take(bets, i as int, on);
                total_take(bets, i as int, backing);
                total_prefix(bets, i + 1, on);
                assert(bets[i as int] == bet@);
                assert(on(bets[i as int]) <= i64::MAX);
            }
            if bet.round_id == round_id {
                match staked.checked_add(bet.zatoshi) {
                    Some(s) => staked = s,
                    None => return false,
                }
                if bet.outcome == wanted {
                    pool = pool + bet.zatoshi;
                }
            }
            i += 1;
        }
        assert(bets.take(i as int) =~= bets);
        let losing: i128 = (staked - pool) as i128;
        let percent: i128 = RAKE_PERCENT as i128;
        assert(0 <= losing * percent <= 3 * i64::MAX) by (nonlinear_arith)
            requires
                0 <= losing <= i64::MAX,
                percent == 3,
        ;
        pool == 0 || losing * percent <= i64::MAX as i128
    }

    /// What was staked in a round, what of it backed the outcome, and how many
    /// did.
    fn pools(&self, round_id: i64, outcome: &String) -> (pools: (i64, i64, usize))
        requires
            self.wf(),
            self@.staked(round_id) <= i64::MAX,
        ensures
            pools.0 == self@.staked(round_id),
            pools.1 == self@.winner_pool(round_id, outcome@),
            pools.2 == self@.winners(round_id, outcome@),
    {
        let ghost bets = self@.bets;
        let ghost on = bet_on(round_id);
        let ghost backing = bet_backing(round_id, outcome@);
        let ghost one = one_bet_backing(round_id, outcome@);
        let mut staked: i64 = 0;
        let mut pool: i64 = 0;
        let mut winners: usize = 0;
        let mut i: usize = 0;
        while i < self.tables.bets.len()
            invariant
                self.wf(),
                i <= bets.len(),
                bets == self@.bets,
                on == bet_on(round_id),
                backing == bet_backing(round_id, outcome@),
                one == one_bet_backing(round_id, outcome@),
                0 <= pool <= staked,
                winners <= i,
                staked == total(bets.take(i as int), on),
                pool == total(bets.take(i as int), backing),
                winners == total(bets.take(i as int), one),
                total(bets, on) <= i64::MAX,
                forall|j: int| 0 <= j < bets.len() ==> 0 <= #[trigger] on(bets[j]),
            decreases bets.len() - i,
        {
            let bet = &self.tables.bets[i];
            proof {
                total_take(bets, i as int, on);
                total_take(bets, i as int, backing);
                total_take(bets, i as int, one);
                total_prefix(bets, i + 1, on);
                assert(bets[i as int] == bet@);
            }
            if bet.round_id == round_id {
                staked = staked + bet.zatoshi;
                if bet.outcome == *outcome {
                    pool = pool + bet.zatoshi;
                    winners = winners + 1;
                }
            }
            i += 1;
        }
        assert(bets.take(i as int) =~= bets);
        (staked, pool, winners)
    }

    /// The payouts that closing a round writes, and what they come to.
    fn divide(&self, round_id: i64, outcome: &String, staked: i64, pool: i64) -> (division: (
        Vec<Payout>,
        i64,
    ))
        requires
            self.wf(),
            staked == self@.staked(round_id),
            pool == self@.winner_pool(round_id, outcome@),
            self@.pools_fit(round_id, outcome@),
        ensures
            division.0@ == self@.payouts_of(round_id, outcome@),
            division.1 == self@.paid(round_id, outcome@),
    {
        let ghost book = self@;
        let ghost bets = self@.bets;
        let ghost keep = self@.pays(round_id, outcome@);
        let ghost make = self@.payout_for(round_id, outcome@);
        let ghost to_bet = self@.paid_to_bet(round_id, outcome@);
        proof {
            pools(book, round_id, outcome@);
            paid_and_raked(book, round_id, outcome@);
        }
        // All of it is integer zatoshi: every zatoshi paid out is a zatoshi
        // somebody else put in.
        let divided: i64 = if pool == 0 {
            0
        } else {
            let losing: i64 = staked - pool;
            losing - losing * RAKE_PERCENT / 100
        };
        let mut payouts: Vec<Payout> = Vec::new();
        let mut paid: i64 = 0;
        let mut i: usize = 0;
        while i < self.tables.bets.len()
            invariant
                self.wf(),
                i <= bets.len(),
                book == self@,
                bets == book.bets,
                keep == book.pays(round_id, outcome@),
                make == book.payout_for(round_id, outcome@),
                to_bet == book.paid_to_bet(round_id, outcome@),
                staked == book.staked(round_id),
                0 <= pool == book.winner_pool(round_id, outcome@),
                pool > 0 ==> divided == book.divided(round_id, outcome@),
                0 <= divided,
                payouts@ == picked(bets.take(i as int), keep, make),
                0 <= paid == total(bets.take(i as int), to_bet),
                total(bets, to_bet) <= staked,
                forall|j: int| 0 <= j < bets.len() ==> 0 <= #[trigger] to_bet(bets[j]) <= staked,
            decreases bets.len() - i,
        {
            let bet = &self.tables.bets[i];
            proof {
                total_take(bets, i as int, to_bet);
                picked_take(bets, i as int, keep, make);
                total_prefix(bets, i + 1, to_bet);
                assert(bets[i as int] == bet@);
                assert(to_bet(bets[i as int]) <= staked);
            }
            if bet.round_id == round_id && (pool == 0 || bet.outcome == *outcome) {
                let amount: i64 = if pool == 0 {
                    bet.zatoshi
                } else {
                    // A stake and a pool are each up to the money supply, and
                    // their product does not fit in 64 bits.
                    let ghost stake = bet.zatoshi as int;
                    assert(0 <= divided * stake <= i64::MAX * i64::MAX) by (nonlinear_arith)
                        requires
                            0 <= divided <= i64::MAX,
                            0 <= stake <= i64::MAX,
                    ;
                    let share: i128 = divided as i128 * bet.zatoshi as i128 / pool as i128;
                    assert(share == share_of(divided as int, stake, pool as int));
                    bet.zatoshi + share as i64
                };
                payouts.push(Payout { round_id, address_index: bet.address_index, zatoshi: amount });
                paid = paid + amount;
            }
            i += 1;
        }
        assert(bets.take(i as int) =~= bets);
        (payouts, paid)
    }

    /// Whether one of these payouts of a round is written already.
    fn any_stands(&self, round_id: i64, payouts: &Vec<Payout>) -> (stands: bool)
        ensures
            stands == exists|k: int|
                0 <= k < payouts.len() && self@.payout_stands(
                    round_id,
                    (#[trigger] payouts[k]).address_index,
                ),
    {
        let mut k: usize = 0;
        while k < payouts.len()
            invariant
                k <= payouts.len(),
                forall|j: int|
                    0 <= j < k ==> !self@.payout_stands(
                        round_id,
                        (#[trigger] payouts[j]).address_index,
                    ),
            decreases payouts.len() - k,
        {
            let address_index = payouts[k].address_index;
            let mut i: usize = 0;
            while i < self.tables.payouts.len()
                invariant
                    k < payouts.len(),
                    address_index == payouts[k as int].address_index,
                    i <= self@.payouts.len(),
                    forall|j: int|
                        0 <= j < i ==> !((#[trigger] self@.payouts[j]).round_id == round_id
                            && self@.payouts[j].address_index == address_index),
                decreases self@.payouts.len() - i,
            {
                assert(self@.payouts[i as int] == self.tables.payouts@[i as int]);
                if self.tables.payouts[i].round_id == round_id
                    && self.tables.payouts[i].address_index == address_index {
                    assert(self@.payout_stands(round_id, payouts[k as int].address_index));
                    return true;
                }
                i += 1;
            }
            k += 1;
        }
        false
    }

    /// Whether a rake of a round is written already.
    fn rake_stands(&self, round_id: i64) -> (stands: bool)
        ensures
            stands == self@.rake_stands(round_id),
    {
        let mut i: usize = 0;
        while i < self.tables.rakes.len()
            invariant
                i <= self@.rakes.len(),
                forall|j: int| 0 <= j < i ==> (#[trigger] self@.rakes[j]).round_id != round_id,
            decreases self@.rakes.len() - i,
        {
            assert(self@.rakes[i as int] == self.tables.rakes@[i as int]);
            if self.tables.rakes[i].round_id == round_id {
                return true;
            }
            i += 1;
        }
        false
    }

    /// Closes a round against the miner the chain actually produced.
    ///
    /// Those who named the right miner divide what the others staked. Where
    /// nobody did, stakes go back.
    pub fn settle(&mut self, round_id: i64, outcome: &str, at: i64) -> (result: Result<
        Settlement,
        LedgerError,
    >)
        requires
            old(self).wf(),
            old(self)@.unsettled(round_id) ==> old(self)@.pools_fit(round_id, outcome@),
        ensures
            final(self).wf(),
            match result {
                Ok(settlement) => settlement@ == old(self)@.settlement(round_id, outcome@) && old(
                    self,
                )@.after_settle(round_id, outcome@, at) == Ok::<Book, RefusedView>(final(self)@),
                Err(e) => final(self)@ == old(self)@ && old(self)@.after_settle(
                    round_id,
                    outcome@,
                    at,
                ) == Err::<Book, RefusedView>(e@),
            },
    {
        proof {
            settle_keeps_rules(self@, round_id, outcome@, at);
        }
        let round = match self.find_round(round_id) {
            Some(i) => i,
            None => return Err(LedgerError::NoSuchRound),
        };
        assert(self@.rounds[round as int] == self.tables.rounds@[round as int]@);
        if let Some(previous) = &self.tables.rounds[round].outcome {
            return Err(LedgerError::AlreadySettled { round_id, previous: previous.clone() });
        }
        let wanted = outcome.to_owned();
        let (staked, pool, winners) = self.pools(round_id, &wanted);
        let (mut payouts, paid) = self.divide(round_id, &wanted, staked, pool);
        proof {
            paid_and_raked(self@, round_id, outcome@);
        }
        proof {
            payouts_that_stand(self@, round_id, outcome@);
        }
        if self.any_stands(round_id, &payouts) {
            return Err(LedgerError::PayoutStands);
        }
        if self.rake_stands(round_id) {
            return Err(LedgerError::RakeStands);
        }
        // Integer division leaves less than one zatoshi per winner unassigned.
        // It stays with the house rather than vanishing.
        let refunded = pool == 0;
        let rake: i64 = if refunded {
            0
        } else {
            staked - paid
        };
        let closed = Round {
            id: self.tables.rounds[round].id,
            settles_on: self.tables.rounds[round].settles_on,
            outcome: Some(wanted.clone()),
            settled_at: Some(at),
        };
        self.tables.rounds.set(round, closed);
        self.tables.payouts.append(&mut payouts);
        self.tables.rakes.push(Rake { round_id, zatoshi: rake });
        assert(self@.rounds =~= old(self)@.rounds.update(round as int, closed@));
        Ok(Settlement { outcome: wanted, staked, winners, paid, rake, refunded })
    }

    /// Records a deposit, or does nothing if this note was already recorded.
    ///
    /// Says whether the row was new, so that a rescan can say plainly that it
    /// found nothing.
    pub fn record_deposit(&mut self, deposit: &Deposit) -> (result: Result<bool, LedgerError>)
        requires
            old(self).wf(),
        ensures
            final(self).wf(),
            match result {
                Ok(new) => new == !old(self)@.has_note(deposit@.txid, deposit@.output) && old(
                    self,
                )@.after_deposit(deposit@) == Ok::<Book, RefusedView>(final(self)@),
                Err(e) => final(self)@ == old(self)@ && old(self)@.after_deposit(deposit@) == Err::<
                    Book,
                    RefusedView,
                >(e@),
            },
    {
        proof {
            deposit_keeps_rules(self@, deposit@);
        }
        if deposit.zatoshi > i64::MAX as u64 {
            return Err(LedgerError::DepositNotAValue);
        }
        let mut i: usize = 0;
        while i < self.tables.deposits.len()
            invariant
                self.wf(),
                self@ == old(self)@,
                deposit.zatoshi <= i64::MAX,
                i <= self@.deposits.len(),
                forall|j: int|
                    0 <= j < i ==> !((#[trigger] self@.deposits[j]).txid == deposit@.txid
                        && self@.deposits[j].output == deposit@.output),
            decreases self.tables.deposits@.len() - i,
        {
            assert(self@.deposits[i as int] == self.tables.deposits@[i as int]@);
            if self.tables.deposits[i].output == deposit.output && self.tables.deposits[i].txid
                == deposit.txid {
                assert(self@.has_note(deposit@.txid, deposit@.output));
                return Ok(false);
            }
            i += 1;
        }
        let row = copy_deposit(deposit);
        self.tables.deposits.push(row);
        assert(self@.deposits =~= old(self)@.deposits.push(deposit@));
        Ok(true)
    }

    /// Hands an address out under a name, unless it was handed out before.
    pub fn assign(&mut self, address_index: u32, label: &str, at: i64)
        requires
            old(self).wf(),
        ensures
            final(self).wf(),
            final(self)@ == old(self)@.after_assign(
                (DepositorView { address_index, label: label@, created_at: at }),
            ),
    {
        proof {
            assign_keeps_rules(
                self@,
                DepositorView { address_index, label: label@, created_at: at },
            );
        }
        let mut i: usize = 0;
        while i < self.tables.depositors.len()
            invariant
                self.wf(),
                self@ == old(self)@,
                i <= self@.depositors.len(),
                forall|j: int|
                    0 <= j < i ==> (#[trigger] self@.depositors[j]).address_index != address_index,
            decreases self.tables.depositors@.len() - i,
        {
            assert(self@.depositors[i as int] == self.tables.depositors@[i as int]@);
            if self.tables.depositors[i].address_index == address_index {
                return ;
            }
            i += 1;
        }
        let row = Depositor { address_index, label: label.to_owned(), created_at: at };
        self.tables.depositors.push(row);
        assert(self@.depositors =~= old(self)@.depositors.push(row@));
    }

    /// Opens the round that a block decides, or finds it open, and says under
    /// which number.
    pub fn open_round(&mut self, settles_on: u32) -> (id: i64)
        requires
            old(self).wf(),
            old(self)@.has_round_on(settles_on) || old(self)@.next_round_id() <= i64::MAX,
        ensures
            final(self).wf(),
            final(self)@ == old(self)@.after_open_round(settles_on),
            final(self)@.has_round_on(settles_on),
            id == final(self)@.round_on(settles_on).id,
    {
        let mut i: usize = 0;
        while i < self.tables.rounds.len()
            invariant
                self@ == old(self)@,
                self.wf(),
                i <= self@.rounds.len(),
                forall|j: int| 0 <= j < i ==> !self@.is_round_on(j, settles_on),
            decreases self.tables.rounds@.len() - i,
        {
            assert(self@.rounds[i as int] == self.tables.rounds@[i as int]@);
            if self.tables.rounds[i].settles_on == settles_on {
                proof {
                    round_on_found(self@, i as int, settles_on);
                }
                return self.tables.rounds[i].id;
            }
            i += 1;
        }
        proof {
            assert(!self@.has_round_on(settles_on));
            open_round_keeps_rules(self@, settles_on);
        }
        let n = self.tables.rounds.len();
        let id: i64 = if n == 0 {
            1
        } else {
            assert(self@.rounds[n - 1] == self.tables.rounds@[n - 1]@);
            self.tables.rounds[n - 1].id + 1
        };
        let row = Round { id, settles_on, outcome: None, settled_at: None };
        self.tables.rounds.push(row);
        assert(self@.rounds =~= old(self)@.rounds.push(row@));
        proof {
            round_on_found(self@, n as int, settles_on);
        }
        id
    }

    /// What has been committed to leaving but has no transaction yet.
    pub fn unsent_withdrawals(&self) -> (list: Vec<(i64, u32, u64, String)>)
        requires
            self.wf(),
        ensures
            list.len() == self@.unsent().len(),
            forall|i: int|
                0 <= i < list.len() ==> {
                    let w = self@.unsent()[i];
                    &&& (#[trigger] list[i]).0 == w.id
                    &&& list[i].1 == w.address_index
                    &&& list[i].2 == w.zatoshi
                    &&& list[i].3@ == w.destination
                },
    {
        let ghost rows = self@.withdrawals;
        let mut list: Vec<(i64, u32, u64, String)> = Vec::new();
        let mut i: usize = 0;
        while i < self.tables.withdrawals.len()
            invariant
                self.wf(),
                rows == self@.withdrawals,
                i <= rows.len(),
                list.len() == picked(rows.take(i as int), waits(), itself()).len(),
                forall|k: int|
                    0 <= k < list.len() ==> {
                        let w = picked(rows.take(i as int), waits(), itself())[k];
                        &&& (#[trigger] list[k]).0 == w.id
                        &&& list[k].1 == w.address_index
                        &&& list[k].2 == w.zatoshi
                        &&& list[k].3@ == w.destination
                    },
            decreases rows.len() - i,
        {
            let row = &self.tables.withdrawals[i];
            proof {
                picked_take(rows, i as int, waits(), itself());
                assert(rows[i as int] == row@);
            }
            if row.txid.is_none() {
                list.push(
                    (row.id, row.address_index, row.zatoshi as u64, row.destination.clone()),
                );
            }
            i += 1;
        }
        assert(rows.take(i as int) =~= rows);
        list
    }

    /// Writes down which transaction is paying a withdrawal.
    ///
    /// Refused if one is already recorded: a second transaction for the same
    /// debit is money leaving twice.
    pub fn mark_sent(&mut self, id: i64, txid: &str, at: i64) -> (result: Result<(), LedgerError>)
        requires
            old(self).wf(),
        ensures
            final(self).wf(),
            match result {
                Ok(()) => old(self)@.after_mark_sent(id, txid@, at) == Ok::<Book, RefusedView>(
                    final(self)@,
                ),
                Err(e) => final(self)@ == old(self)@ && old(self)@.after_mark_sent(id, txid@, at)
                    == Err::<Book, RefusedView>(e@),
            },
    {
        proof {
            mark_sent_keeps_rules(self@, id, txid@, at);
        }
        let i = match self.find_withdrawal(id) {
            Some(i) => i,
            None => return Err(LedgerError::NoSuchWithdrawal { id }),
        };
        assert(self@.withdrawals[i as int] == self.tables.withdrawals@[i as int]@);
        if let Some(previous) = &self.tables.withdrawals[i].txid {
            return Err(LedgerError::AlreadyPaid { id, previous: previous.clone() });
        }
        let paid = Withdrawal {
            id,
            address_index: self.tables.withdrawals[i].address_index,
            zatoshi: self.tables.withdrawals[i].zatoshi,
            destination: self.tables.withdrawals[i].destination.clone(),
            requested_at: self.tables.withdrawals[i].requested_at,
            txid: Some(txid.to_owned()),
            sent_at: Some(at),
        };
        self.tables.withdrawals.set(i, paid);
        assert(self@.withdrawals =~= old(self)@.withdrawals.update(i as int, paid@));
        Ok(())
    }

    /// The highest block this book has recorded a deposit from.
    pub fn recorded_to(&self) -> (height: Option<u32>)
        ensures
            match height {
                Some(h) => self@.is_highest(h),
                None => self@.deposits.len() == 0,
            },
    {
        let mut highest: Option<u32> = None;
        let mut i: usize = 0;
        while i < self.tables.deposits.len()
            invariant
                i <= self@.deposits.len(),
                match highest {
                    Some(h) => {
                        &&& exists|j: int| 0 <= j < i && (#[trigger] self@.deposits[j]).height == h
                        &&& forall|j: int|
                            0 <= j < i ==> (#[trigger] self@.deposits[j]).height <= h
                    },
                    None => i == 0,
                },
            decreases self.tables.deposits@.len() - i,
        {
            let height = self.tables.deposits[i].height;
            assert(self@.deposits[i as int].height == height);
            highest = match highest {
                Some(h) if h >= height => Some(h),
                _ => Some(height),
            };
            i += 1;
        }
        highest
    }

    /// Whether nothing was ever recorded.
    pub fn is_empty(&self) -> (empty: bool)
        ensures
            empty == (self@.deposits.len() == 0),
    {
        self.tables.deposits.len() == 0
    }

    /// All that was ever deposited.
    pub fn total(&self) -> (result: Result<u64, LedgerError>)
        requires
            self.wf(),
        ensures
            match result {
                Ok(sum) => sum == total(self@.deposits, any_deposit()) && sum <= i64::MAX,
                Err(e) => total(self@.deposits, any_deposit()) > i64::MAX && e@
                    == RefusedView::SumTooLarge,
            },
    {
        let ghost rows = self@.deposits;
        let ghost f = any_deposit();
        let mut sum: i64 = 0;
        let mut i: usize = 0;
        while i < self.tables.deposits.len()
            invariant
                i <= rows.len(),
                rows == self@.deposits,
                f == any_deposit(),
                0 <= sum == total(rows.take(i as int), f),
                forall|j: int| 0 <= j < rows.len() ==> 0 <= #[trigger] f(rows[j]) <= i64::MAX,
            decreases rows.len() - i,
        {
            let row = &self.tables.deposits[i];
            proof {
                total_take(rows, i as int, f);
                total_prefix(rows, i + 1, f);
                assert(rows[i as int] == row@);
                assert(f(rows[i as int]) <= i64::MAX);
            }
            match sum.checked_add(row.zatoshi as i64) {
                Some(s) => sum = s,
                None => return Err(LedgerError::SumTooLarge),
            }
            i += 1;
        }
        assert(rows.take(i as int) =~= rows);
        Ok(sum as u64)
    }

    /// How many notes came in for an address.
    fn deposits_to(&self, address_index: u32) -> (count: usize)
        ensures
            count == self@.deposits_to(address_index),
    {
        let ghost rows = self@.deposits;
        let ghost f = one_deposit_to(address_index);
        let mut count: usize = 0;
        let mut i: usize = 0;
        while i < self.tables.deposits.len()
            invariant
                i <= rows.len(),
                rows == self@.deposits,
                f == one_deposit_to(address_index),
                count <= i,
                count == total(rows.take(i as int), f),
            decreases rows.len() - i,
        {
            let row = &self.tables.deposits[i];
            proof {
                total_take(rows, i as int, f);
                assert(rows[i as int] == row@);
            }
            if row.address_index == address_index {
                count = count + 1;
            }
            i += 1;
        }
        assert(rows.take(i as int) =~= rows);
        count
    }

    /// The name an address was handed out under, if it was.
    fn label(&self, address_index: u32) -> (label: Option<String>)
        requires
            self.wf(),
        ensures
            text_of(label) == self@.label(address_index),
    {
        let mut i: usize = 0;
        while i < self.tables.depositors.len()
            invariant
                self.wf(),
                i <= self@.depositors.len(),
                forall|j: int|
                    0 <= j < i ==> (#[trigger] self@.depositors[j]).address_index != address_index,
            decreases self.tables.depositors@.len() - i,
        {
            assert(self@.depositors[i as int] == self.tables.depositors@[i as int]@);
            if self.tables.depositors[i].address_index == address_index {
                proof {
                    label_found(self@, i as int);
                }
                return Some(self.tables.depositors[i].label.clone());
            }
            i += 1;
        }
        None
    }

    /// The addresses that something came in for, deepest first, or nothing
    /// where one of them is too deep to count.
    fn ranking(&self) -> (result: Option<Vec<u32>>)
        requires
            self.wf(),
        ensures
            match result {
                Some(order) => {
                    &&& self@.is_ranking(order@)
                    &&& forall|i: int|
                        0 <= i < order.len() ==> self@.deposited(#[trigger] order[i]) <= i64::MAX
                },
                None => exists|k: int|
                    0 <= k < self@.deposits.len() && self@.deposited(
                        (#[trigger] self@.deposits[k]).address_index,
                    ) > i64::MAX,
            },
    {
        let ghost book = self@;
        let mut order: Vec<u32> = Vec::new();
        let mut sums: Vec<i64> = Vec::new();
        let mut k: usize = 0;
        while k < self.tables.deposits.len()
            invariant
                self.wf(),
                book == self@,
                k <= book.deposits.len(),
                sums.len() == order.len(),
                forall|i: int|
                    0 <= i < order.len() ==> book.has_deposit_to(#[trigger] order[i])
                        && book.deposited(order[i]) == sums[i],
                forall|i: int, j: int|
                    0 <= i < j < order.len() ==> book.deeper(
                        #[trigger] order[i],
                        #[trigger] order[j],
                    ),
                forall|i: int|
                    0 <= i < k ==> order@.contains((#[trigger] book.deposits[i]).address_index),
            decreases self.tables.deposits@.len() - k,
        {
            let address_index = self.tables.deposits[k].address_index;
            assert(book.deposits[k as int].address_index == address_index);
            let sum = match self.deposited(address_index) {
                Some(sum) => sum,
                None => return None,
            };
            // Past everything deeper; what stands there may be this address.
            let mut at: usize = 0;
            while at < order.len() && (sums[at] > sum || (sums[at] == sum && order[at]
                < address_index))
                invariant
                    at <= order.len(),
                    sums.len() == order.len(),
                    sum == book.deposited(address_index),
                    forall|i: int| 0 <= i < order.len() ==> book.deposited(#[trigger] order[i]) == sums[i],
                    forall|i: int| 0 <= i < at ==> book.deeper(#[trigger] order[i], address_index),
                decreases order.len() - at,
            {
                at += 1;
            }
            let ghost before = order@;
            if at < order.len() && order[at] == address_index {
                assert(order@[at as int] == address_index);
            } else {
                assert forall|i: int| at <= i < order.len() implies book.deeper(
                    address_index,
                    #[trigger] order[i],
                ) by {
                    if i > at {
                        assert(book.deeper(order[at as int], order[i]));
                    }
                    assert(book.deposited(order[at as int]) == sums[at as int]);
                }
                assert(book.has_deposit_to(address_index));
                order.insert(at, address_index);
                sums.insert(at, sum);
                proof {
                    assert(order@[at as int] == address_index);
                    assert forall|i: int| 0 <= i < order.len() implies book.has_deposit_to(
                        #[trigger] order[i],
                    ) && book.deposited(order[i]) == sums[i] by {
                        if i > at {
                            assert(order@[i] == before[i - 1]);
                        } else if i < at {
                            assert(order@[i] == before[i]);
                        }
                    }
                    assert forall|i: int, j: int| 0 <= i < j < order.len() implies book.deeper(
                        #[trigger] order[i],
                        #[trigger] order[j],
                    ) by {
                        let a = if i > at {
                            i - 1
                        } else {
                            i
                        };
                        let b = if j > at {
                            j - 1
                        } else {
                            j
                        };
                        if i != at {
                            assert(order@[i] == before[a]);
                        }
                        if j != at {
                            assert(order@[j] == before[b]);
                        }
                        if i != at && j != at {
                            assert(book.deeper(before[a], before[b]));
                        }
                    }
                    assert forall|i: int| 0 <= i < k + 1 implies order@.contains(
                        (#[trigger] book.deposits[i]).address_index,
                    ) by {
                        if i < k {
                            let p = before.index_of(book.deposits[i].address_index);
                            assert(before.contains(book.deposits[i].address_index));
                            assert(before[p] == book.deposits[i].address_index);
                            if p >= at {
                                assert(order@[p + 1] == before[p]);
                            } else {
                                assert(order@[p] == before[p]);
                            }
                        }
                    }
                }
            }
            k += 1;
        }
        Some(order)
    }

    /// What each depositor has put in, deepest first: the address, the name it
    /// was handed out under, the sum and how many notes it came in.
    pub fn balances(&self) -> (result: Result<Vec<(u32, Option<String>, u64, u32)>, LedgerError>)
        requires
            self.wf(),
        ensures
            match result {
                Ok(list) => {
                    &&& self@.is_ranking(list@.map_values(|e: (u32, Option<String>, u64, u32)| e.0))
                    &&& forall|i: int|
                        0 <= i < list.len() ==> {
                            let e = #[trigger] list[i];
                            &&& text_of(e.1) == self@.label(e.0)
                            &&& e.2 == self@.deposited(e.0)
                            &&& e.2 <= i64::MAX
                            &&& e.3 == self@.deposits_to(e.0)
                        }
                },
                Err(e) => {
                    ||| e@ == RefusedView::SumTooLarge && exists|k: int|
                        0 <= k < self@.deposits.len() && self@.deposited(
                            (#[trigger] self@.deposits[k]).address_index,
                        ) > i64::MAX
                    ||| exists|order: Seq<u32>, i: int|
                        {
                            &&& #[trigger] self@.is_ranking(order)
                            &&& 0 <= i < order.len()
                            &&& forall|j: int|
                                0 <= j < order.len() ==> self@.deposited(#[trigger] order[j])
                                    <= i64::MAX
                            &&& forall|j: int|
                                0 <= j < i ==> self@.deposits_to(#[trigger] order[j]) <= u32::MAX
                            &&& self@.deposits_to(#[trigger] order[i]) > u32::MAX
                            &&& e@ == RefusedView::CountTooLarge {
                                count: self@.deposits_to(order[i]) as nat,
                            }
                        }
                },
            },
    {
        let order = match self.ranking() {
            Some(order) => order,
            None => return Err(LedgerError::SumTooLarge),
        };
        let mut list: Vec<(u32, Option<String>, u64, u32)> = Vec::new();
        let mut i: usize = 0;
        while i < order.len()
            invariant
                self.wf(),
                self@.is_ranking(order@),
                forall|j: int|
                    0 <= j < order.len() ==> self@.deposited(#[trigger] order[j]) <= i64::MAX,
                i <= order.len(),
                list.len() == i,
                forall|j: int|
                    0 <= j < i ==> {
                        let e = #[trigger] list[j];
                        &&& e.0 == order[j]
                        &&& text_of(e.1) == self@.label(e.0)
                        &&& e.2 == self@.deposited(e.0)
                        &&& e.2 <= i64::MAX
                        &&& e.3 == self@.deposits_to(e.0)
                    },
            decreases order.len() - i,
        {
            let address_index = order[i];
            assert(self@.deposited(order@[i as int]) <= i64::MAX);
            let sum = match self.deposited(address_index) {
                Some(sum) => sum,
                None => return Err(LedgerError::SumTooLarge),
            };
            let count = self.deposits_to(address_index);
            if count as u64 > u32::MAX as u64 {
                assert forall|j: int| 0 <= j < i implies self@.deposits_to(#[trigger] order@[j])
                    <= u32::MAX by {
                    assert(list[j].0 == order[j]);
                }
                return Err(LedgerError::CountTooLarge { count });
            }
            list.push((address_index, self.label(address_index), sum as u64, count as u32));
            i += 1;
        }
        assert(list@.map_values(|e: (u32, Option<String>, u64, u32)| e.0) =~= order@);
        Ok(list)
    }
}

}
