use ring_wallet::ledger::Ledger;
use ring_wallet::refusal::LedgerError;
use ring_wallet::rows::{Bet, Deposit, Depositor, Payout, Rake, Round, Tables, Withdrawal};
use ring_wallet::supply::MONEY_SUPPLY;

fn deposit(txid: &str, output: u32, address_index: u32, zatoshi: u64, height: u32) -> Deposit {
    Deposit { txid: txid.to_string(), output, address_index, zatoshi, height, memo: String::new() }
}

fn with(deposits: &[Deposit]) -> Ledger {
    let mut ledger = Ledger::prepare();
    for deposit in deposits {
        assert!(ledger.record_deposit(deposit).unwrap());
    }
    ledger
}

fn rows() -> Tables {
    Tables {
        deposits: Vec::new(),
        depositors: Vec::new(),
        rounds: Vec::new(),
        bets: Vec::new(),
        payouts: Vec::new(),
        withdrawals: Vec::new(),
        rakes: Vec::new(),
    }
}

fn round(id: i64, settles_on: u32, outcome: Option<&str>) -> Round {
    Round {
        id,
        settles_on,
        outcome: outcome.map(str::to_string),
        settled_at: outcome.map(|_| 0),
    }
}

fn refused(tables: Tables) -> bool {
    matches!(Ledger::open(tables), Err(LedgerError::Inconsistent))
}

#[test]
fn a_note_counts_once_however_often_the_chain_is_read() {
    let mut ledger = with(&[deposit("a", 0, 1, 100, 5)]);
    assert!(!ledger.record_deposit(&deposit("a", 0, 1, 100, 5)).unwrap());
    // The first reading of a note stands.
    assert!(!ledger.record_deposit(&deposit("a", 0, 2, 999, 6)).unwrap());
    assert!(ledger.record_deposit(&deposit("a", 1, 1, 50, 5)).unwrap());
    assert_eq!(ledger.available(1).unwrap(), 150);
    assert_eq!(ledger.available(2).unwrap(), 0);
    assert_eq!(ledger.total().unwrap(), 150);
}

#[test]
fn a_deposit_that_is_not_a_value_is_refused() {
    let mut ledger = Ledger::prepare();
    let error = ledger.record_deposit(&deposit("a", 0, 1, i64::MAX as u64 + 1, 5)).unwrap_err();
    assert!(matches!(error, LedgerError::DepositNotAValue));
    assert_eq!(error.message(), "recording a deposit");
    assert!(ledger.is_empty());
    assert!(ledger.record_deposit(&deposit("a", 0, 1, i64::MAX as u64, 5)).unwrap());
}

#[test]
fn balances_are_listed_deepest_first() {
    let mut ledger = with(&[
        deposit("a", 0, 7, 100, 1),
        deposit("b", 0, 3, 300, 2),
        deposit("c", 0, 7, 150, 3),
        deposit("d", 0, 5, 250, 4),
    ]);
    ledger.assign(3, "web", 9);
    ledger.assign(3, "another name", 10);
    assert_eq!(
        ledger.balances().unwrap(),
        [
            (3, Some("web".to_string()), 300, 1),
            (5, None, 250, 1),
            (7, None, 250, 2),
        ]
    );
    assert!(Ledger::prepare().balances().unwrap().is_empty());
}

#[test]
fn the_book_says_how_far_it_reaches() {
    assert_eq!(Ledger::prepare().recorded_to(), None);
    assert!(Ledger::prepare().is_empty());
    assert_eq!(Ledger::prepare().total().unwrap(), 0);
    let ledger = with(&[deposit("a", 0, 1, 5, 30), deposit("b", 0, 1, 6, 20)]);
    assert_eq!(ledger.recorded_to(), Some(30));
    assert!(!ledger.is_empty());
    assert_eq!(ledger.total().unwrap(), 11);
}

#[test]
fn sums_that_do_not_fit_are_refused() {
    let half = i64::MAX as u64;
    let mut ledger = with(&[deposit("a", 0, 1, half, 1), deposit("b", 0, 1, 1, 1)]);
    assert!(matches!(ledger.available(1), Err(LedgerError::SumTooLarge)));
    assert_eq!(ledger.available(1).unwrap_err().message(), "integer overflow");
    assert!(matches!(ledger.total(), Err(LedgerError::SumTooLarge)));
    assert!(matches!(ledger.balances(), Err(LedgerError::SumTooLarge)));
    let id = ledger.open_round(4);
    assert!(matches!(ledger.place(id, 1, "x", 1, 0), Err(LedgerError::SumTooLarge)));
    assert!(matches!(ledger.request_withdrawal(1, 1, "t", 0), Err(LedgerError::SumTooLarge)));
    // Another address is none the worse for it.
    assert_eq!(ledger.available(2).unwrap(), 0);
}

#[test]
fn a_block_has_one_round() {
    let mut ledger = Ledger::prepare();
    assert_eq!(ledger.open_round(10), 1);
    assert_eq!(ledger.open_round(11), 2);
    assert_eq!(ledger.open_round(10), 1);
    assert_eq!(ledger.tables().rounds.len(), 2);
}

#[test]
fn a_stake_is_refused_for_what_is_wrong_with_it() {
    let mut ledger = with(&[deposit("a", 0, 1, 100, 1)]);
    let error = ledger.place(5, 1, "Luxor", 10, 0).unwrap_err();
    assert!(matches!(error, LedgerError::NoSuchRound));
    assert_eq!(error.message(), "Query returned no rows");

    let id = ledger.open_round(10);
    let error = ledger.place(id, 1, "Luxor", i64::MAX as u64 + 1, 0).unwrap_err();
    assert_eq!(error.message(), "that stake is not a value");
    let error = ledger.place(id, 1, "Luxor", 101, 0).unwrap_err();
    assert_eq!(error.message(), "address 1 has 100 zatoshi, not 101");
    let error = ledger.place(id, 1, "Luxor", 0, 0).unwrap_err();
    assert_eq!(error.message(), "that depositor already has a position in this round");
    ledger.place(id, 1, "Luxor", 60, 0).unwrap();
    assert_eq!(ledger.available(1).unwrap(), 40);
    let error = ledger.place(id, 1, "Luxor", 1, 0).unwrap_err();
    assert_eq!(error.message(), "that depositor already has a position in this round");

    ledger.settle(id, "Luxor", 0).unwrap();
    let error = ledger.place(id, 1, "Luxor", 1, 0).unwrap_err();
    assert_eq!(error.message(), "round 1 is already settled");
}

#[test]
fn a_withdrawal_is_refused_for_what_is_wrong_with_it() {
    let mut ledger = with(&[deposit("a", 0, 1, 100, 1)]);
    let error = ledger.request_withdrawal(1, u64::MAX, "t", 0).unwrap_err();
    assert_eq!(error.message(), "that amount is not a value");
    let error = ledger.request_withdrawal(1, 0, "t", 0).unwrap_err();
    assert_eq!(error.message(), "CHECK constraint failed: zatoshi > 0");
    let error = ledger.request_withdrawal(1, 101, "t", 0).unwrap_err();
    assert_eq!(error.message(), "address 1 has 100 zatoshi, not 101");
    assert_eq!(ledger.request_withdrawal(1, 60, "t", 0).unwrap(), 1);
    assert_eq!(ledger.request_withdrawal(1, 40, "u", 0).unwrap(), 2);
    assert_eq!(
        ledger.unsent_withdrawals(),
        [(1, 1, 60, "t".to_string()), (2, 1, 40, "u".to_string())]
    );
    ledger.mark_sent(1, "abc", 7).unwrap();
    assert_eq!(ledger.unsent_withdrawals(), [(2, 1, 40, "u".to_string())]);
    let error = ledger.mark_sent(1, "def", 8).unwrap_err();
    assert_eq!(error.message(), "withdrawal 1 is already paid by abc");
    let error = ledger.mark_sent(9, "def", 8).unwrap_err();
    assert_eq!(error.message(), "there is no withdrawal 9");
    assert_eq!(ledger.tables().withdrawals[0].txid.as_deref(), Some("abc"));
    assert_eq!(ledger.tables().withdrawals[0].sent_at, Some(7));
}

#[test]
fn a_round_is_settled_once_and_on_one_outcome() {
    let mut ledger = Ledger::prepare();
    assert!(matches!(ledger.settle(1, "x", 0), Err(LedgerError::NoSuchRound)));
    let id = ledger.open_round(10);
    let settled = ledger.settle(id, "Foundry", 3).unwrap();
    assert_eq!((settled.staked, settled.winners, settled.paid, settled.rake), (0, 0, 0, 0));
    assert!(settled.refunded);
    assert_eq!(settled.outcome, "Foundry");
    let error = ledger.settle(id, "Luxor", 4).unwrap_err();
    assert_eq!(error.message(), "round 1 already settled on Foundry");
    assert_eq!(ledger.tables().rounds[0].outcome.as_deref(), Some("Foundry"));
    assert_eq!(ledger.tables().rounds[0].settled_at, Some(3));
}

#[test]
fn losers_are_paid_nothing_and_the_rows_say_who_was() {
    let mut ledger = with(&[
        deposit("a", 0, 1, 1000, 1),
        deposit("b", 0, 2, 1000, 1),
        deposit("c", 0, 3, 1000, 1),
    ]);
    let id = ledger.open_round(10);
    ledger.place(id, 1, "Foundry", 600, 0).unwrap();
    ledger.place(id, 2, "Luxor", 400, 0).unwrap();
    ledger.place(id, 3, "Foundry", 300, 0).unwrap();
    let settled = ledger.settle(id, "Foundry", 0).unwrap();
    // 400 lost, 12 kept, 388 divided: 258 and 129, and one left over.
    assert_eq!((settled.winners, settled.paid, settled.rake), (2, 600 + 258 + 300 + 129, 13));
    let paid: Vec<(u32, i64)> =
        ledger.tables().payouts.iter().map(|p| (p.address_index, p.zatoshi)).collect();
    assert_eq!(paid, [(1, 858), (3, 429)]);
    assert_eq!(ledger.tables().rakes[0].zatoshi, 13);
    assert_eq!(ledger.available(2).unwrap(), 600);
}

#[test]
fn money_is_neither_made_nor_lost_over_many_operations() {
    let mut ledger = with(&[deposit("a", 0, 1, 5000, 1), deposit("b", 0, 2, 7000, 1)]);
    for block in 0..20u32 {
        let id = ledger.open_round(block);
        let _ = ledger.place(id, 1, if block % 3 == 0 { "x" } else { "y" }, 100 + u64::from(block), 0);
        let _ = ledger.place(id, 2, if block % 2 == 0 { "x" } else { "z" }, 77, 0);
        if block % 4 != 3 {
            ledger.settle(id, "x", 0).unwrap();
        }
        let _ = ledger.request_withdrawal(1 + block % 2, 13, "t", 0);
        assert!(ledger.available(1).unwrap() >= 0);
        assert!(ledger.available(2).unwrap() >= 0);
    }
    let tables = ledger.tables();
    let open: i64 = tables
        .bets
        .iter()
        .filter(|b| !tables.rakes.iter().any(|r| r.round_id == b.round_id))
        .map(|b| b.zatoshi)
        .sum();
    let leaving: i64 = tables.withdrawals.iter().map(|w| w.zatoshi).sum();
    let kept: i64 = tables.rakes.iter().map(|r| r.zatoshi).sum();
    let held = ledger.available(1).unwrap() + ledger.available(2).unwrap();
    assert_eq!(held + open + leaving + kept, 12000);
}

#[test]
fn within_the_money_supply_every_sum_fits() {
    let third = MONEY_SUPPLY / 3;
    let mut ledger = with(&[
        deposit("a", 0, 1, third, 1),
        deposit("b", 0, 2, third, 1),
        deposit("c", 0, 1, third, 1),
    ]);
    let id = ledger.open_round(1);
    ledger.place(id, 1, "x", 2 * third, 0).unwrap();
    ledger.place(id, 2, "y", third, 0).unwrap();
    assert!(ledger.adds_up(1) && ledger.adds_up(2));
    assert!(ledger.pools_fit(id, "x"));
    let settled = ledger.settle(id, "x", 0).unwrap();
    assert_eq!(settled.paid + settled.rake, (3 * third) as i64);
}

#[test]
fn sums_that_would_overflow_are_told_beforehand() {
    let mut ledger = with(&[deposit("a", 0, 1, i64::MAX as u64, 1)]);
    assert!(ledger.adds_up(1));
    let id = ledger.open_round(1);
    assert!(ledger.pools_fit(id, "x"));
    ledger.place(id, 1, "x", i64::MAX as u64, 0).unwrap();
    ledger.record_deposit(&deposit("b", 0, 2, i64::MAX as u64, 1)).unwrap();
    ledger.place(id, 2, "y", i64::MAX as u64, 0).unwrap();
    assert!(!ledger.pools_fit(id, "x"));
}

#[test]
fn stored_rows_are_taken_up_as_they_are() {
    let mut ledger = with(&[deposit("a", 0, 1, 100, 1)]);
    ledger.assign(1, "web", 2);
    let id = ledger.open_round(10);
    ledger.place(id, 1, "Luxor", 30, 3).unwrap();
    ledger.settle(id, "Luxor", 4).unwrap();
    ledger.request_withdrawal(1, 20, "t", 5).unwrap();
    let stored = ledger.tables();
    let again = Ledger::open(Tables {
        deposits: stored.deposits.clone(),
        depositors: stored.depositors.clone(),
        rounds: stored.rounds.clone(),
        bets: stored.bets.clone(),
        payouts: stored.payouts.clone(),
        withdrawals: stored.withdrawals.clone(),
        rakes: stored.rakes.clone(),
    })
    .unwrap();
    assert_eq!(again.available(1).unwrap(), 80);
    assert_eq!(again.balances().unwrap(), [(1, Some("web".to_string()), 100, 1)]);
}

#[test]
fn rows_that_break_the_rules_are_refused() {
    assert!(!refused(rows()));
    let mut t = rows();
    t.deposits = vec![deposit("a", 0, 1, 1, 1), deposit("a", 0, 2, 1, 1)];
    assert!(refused(t));
    let mut t = rows();
    t.deposits = vec![deposit("a", 0, 1, u64::MAX, 1)];
    assert!(refused(t));
    let person = |address_index| Depositor { address_index, label: String::new(), created_at: 0 };
    let mut t = rows();
    t.depositors = vec![person(1), person(1)];
    assert!(refused(t));
    let mut t = rows();
    t.rounds = vec![round(1, 10, None), round(2, 10, None)];
    assert!(refused(t));
    let mut t = rows();
    t.rounds = vec![round(2, 10, None), round(1, 11, None)];
    assert!(refused(t));
    let bet = |zatoshi| Bet {
        round_id: 1,
        address_index: 1,
        outcome: String::new(),
        zatoshi,
        placed_at: 0,
    };
    let mut t = rows();
    t.bets = vec![bet(1), bet(2)];
    assert!(refused(t));
    let mut t = rows();
    t.bets = vec![bet(0)];
    assert!(refused(t));
    let paid = |zatoshi| Payout { round_id: 1, address_index: 1, zatoshi };
    let mut t = rows();
    t.payouts = vec![paid(1), paid(2)];
    assert!(refused(t));
    let mut t = rows();
    t.rounds = vec![round(1, 10, Some("x"))];
    t.payouts = vec![paid(1)];
    t.rakes = vec![Rake { round_id: 1, zatoshi: 0 }];
    assert!(!refused(t));
    let mut t = rows();
    t.rakes = vec![Rake { round_id: 1, zatoshi: 0 }, Rake { round_id: 1, zatoshi: 1 }];
    assert!(refused(t));
    let mut t = rows();
    t.withdrawals = vec![Withdrawal {
        id: 1,
        address_index: 1,
        zatoshi: -5,
        destination: String::new(),
        requested_at: 0,
        txid: None,
        sent_at: None,
    }];
    assert!(refused(t));
}

#[test]
fn payouts_and_rakes_are_taken_up_whatever_their_round() {
    let mut t = rows();
    t.deposits = vec![deposit("a", 0, 1, 100, 1)];
    t.rounds = vec![round(1, 10, None)];
    t.payouts = vec![
        Payout { round_id: 1, address_index: 1, zatoshi: -30 },
        Payout { round_id: 7, address_index: 1, zatoshi: 5 },
    ];
    t.rakes = vec![Rake { round_id: 9, zatoshi: 4 }];
    let ledger = Ledger::open(t).unwrap();
    assert_eq!(ledger.available(1).unwrap(), 75);
}

#[test]
fn a_payout_or_a_rake_that_stands_keeps_a_round_from_closing() {
    let open = |payouts, rakes| {
        let mut t = rows();
        t.deposits = vec![deposit("a", 0, 1, 100, 1), deposit("b", 0, 2, 100, 1)];
        t.rounds = vec![round(1, 10, None)];
        t.payouts = payouts;
        t.rakes = rakes;
        let mut ledger = Ledger::open(t).unwrap();
        ledger.place(1, 1, "x", 50, 0).unwrap();
        ledger.place(1, 2, "y", 50, 0).unwrap();
        ledger
    };
    let payout = |address_index| Payout { round_id: 1, address_index, zatoshi: 0 };
    let mut ledger = open(vec![payout(1)], vec![Rake { round_id: 1, zatoshi: 0 }]);
    let error = ledger.settle(1, "x", 0).unwrap_err();
    assert_eq!(
        error.message(),
        "UNIQUE constraint failed: payout.round_id, payout.address_index"
    );
    assert_eq!(ledger.tables().payouts.len(), 1);
    assert!(ledger.tables().rounds[0].outcome.is_none());
    // The one that stands is not in the way of paying the other address.
    let error = ledger.settle(1, "y", 0).unwrap_err();
    assert_eq!(error.message(), "UNIQUE constraint failed: rake.round_id");
    assert!(ledger.tables().rounds[0].outcome.is_none());
    let mut ledger = open(vec![payout(1)], Vec::new());
    assert!(ledger.settle(1, "y", 0).is_ok());
}

#[test]
fn sums_of_payouts_fit_at_every_step_or_are_refused() {
    let mut t = rows();
    t.payouts = vec![
        Payout { round_id: 1, address_index: 1, zatoshi: i64::MAX },
        Payout { round_id: 2, address_index: 1, zatoshi: 1 },
        Payout { round_id: 3, address_index: 1, zatoshi: -5 },
    ];
    let ledger = Ledger::open(t).unwrap();
    assert!(matches!(ledger.available(1), Err(LedgerError::SumTooLarge)));
}

#[test]
fn numbers_are_kept_and_never_given_again() {
    let mut ledger = with(&[deposit("a", 0, 1, 100, 1)]);
    let round = ledger.open_round(10);
    let first = ledger.request_withdrawal(1, 10, "t", 0).unwrap();
    ledger.place(round, 1, "x", 20, 0).unwrap();
    let other = ledger.open_round(11);
    ledger.settle(round, "x", 0).unwrap();
    ledger.mark_sent(first, "abc", 0).unwrap();
    assert_eq!(ledger.available(1).unwrap(), 90);
    assert_eq!(ledger.open_round(10), round);
    assert_eq!(ledger.open_round(11), other);
    assert_ne!(round, other);
    assert!(ledger.place(round, 1, "x", 1, 0).is_err());
    assert!(ledger.settle(round, "y", 0).is_err());
    let second = ledger.request_withdrawal(1, 10, "u", 0).unwrap();
    assert_ne!(first, second);
    assert_eq!(ledger.unsent_withdrawals(), [(second, 1, 10, "u".to_string())]);
}

#[test]
fn a_refusal_of_rows_says_so() {
    assert_eq!(LedgerError::Inconsistent.message(), "the rows do not make a book");
    assert_eq!(
        LedgerError::CountTooLarge { count: 4294967296 }.message(),
        "Integer 4294967296 out of range at index 3"
    );
}
