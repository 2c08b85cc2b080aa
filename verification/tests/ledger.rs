use ring_wallet::book::RAKE_PERCENT;
use ring_wallet::ledger::Ledger;
use ring_wallet::rows::Deposit;

fn book() -> Ledger {
    Ledger::prepare()
}

fn fund(ledger: &mut Ledger, index: u32, zatoshi: u64) {
    ledger
        .record_deposit(&Deposit {
            txid: format!("tx{index}"),
            output: 0,
            address_index: index,
            zatoshi,
            height: 1,
            memo: String::new(),
        })
        .unwrap();
}

/// A tiny deterministic generator, so a failure can be reproduced from
/// the seed it printed rather than from "it happened once".
fn next(state: &mut u64) -> u64 {
    *state ^= *state << 13;
    *state ^= *state >> 7;
    *state ^= *state << 17;
    *state
}

#[test]
fn a_round_neither_creates_nor_loses_money() {
    // The property that matters most: every zatoshi paid out is a
    // zatoshi somebody staked. Integer division makes this easy to get
    // wrong by a few units per winner, and a few units per round is a
    // hole that widens forever.
    let outcomes = ["unsigned", "Foundry", "Luxor", "2Miners"];

    for seed in 1..200u64 {
        let mut rng = seed;
        let mut ledger = book();
        let players = 2 + (next(&mut rng) % 7) as u32;

        for index in 0..players {
            fund(&mut ledger, index, 1_000_000);
        }

        let round = ledger.open_round(1000 + seed as u32);
        let mut staked_here = 0i64;
        for index in 0..players {
            let stake = 1 + next(&mut rng) % 999_999;
            let pick = outcomes[(next(&mut rng) % outcomes.len() as u64) as usize];
            ledger.place(round, index, pick, stake, 0).unwrap();
            staked_here += stake as i64;
        }

        let winner = outcomes[(next(&mut rng) % outcomes.len() as u64) as usize];
        let settled = ledger.settle(round, winner, 0).unwrap();

        assert_eq!(
            settled.paid + settled.rake,
            staked_here,
            "seed {seed}: staked {staked_here}, paid {} and raked {}",
            settled.paid,
            settled.rake
        );
        assert_eq!(settled.staked, staked_here, "seed {seed}");

        // And nobody is left owing the house.
        for index in 0..players {
            assert!(
                ledger.available(index).unwrap() >= 0,
                "seed {seed}: address {index} went negative"
            );
        }
    }
}

#[test]
fn a_winner_is_paid_what_the_rules_say_and_not_less() {
    // Conservation alone cannot see this: a house that quietly keeps a
    // bigger cut still balances the books. So the numbers are pinned.
    //
    //   A stakes 700 on Foundry, B stakes 300 on Luxor, Foundry wins.
    //   losing pool 300, rake 3% of it = 9, 291 to divide,
    //   A is the only winner so takes all of it: 700 + 291 = 991.
    let mut ledger = book();
    fund(&mut ledger, 0, 1000);
    fund(&mut ledger, 1, 1000);
    let round = ledger.open_round(10);
    ledger.place(round, 0, "Foundry", 700, 0).unwrap();
    ledger.place(round, 1, "Luxor", 300, 0).unwrap();

    let settled = ledger.settle(round, "Foundry", 0).unwrap();
    assert_eq!(settled.rake, 9, "the cut is 3% of what the losers staked");
    assert_eq!(settled.paid, 991);
    assert_eq!(ledger.available(0).unwrap(), 1000 - 700 + 991);
    assert_eq!(ledger.available(1).unwrap(), 700);
}

#[test]
fn two_winners_divide_it_by_what_they_staked() {
    //   A 700 and B 200 on Foundry, C 100 on Luxor, Foundry wins.
    //   losing pool 100, rake 3, 97 to divide by stake:
    //   A gets 97*700/900 = 75, B gets 97*200/900 = 21, and the two
    //   zatoshi integer division leaves over stay with the house.
    let mut ledger = book();
    for index in 0..3 {
        fund(&mut ledger, index, 1000);
    }
    let round = ledger.open_round(10);
    ledger.place(round, 0, "Foundry", 700, 0).unwrap();
    ledger.place(round, 1, "Foundry", 200, 0).unwrap();
    ledger.place(round, 2, "Luxor", 100, 0).unwrap();

    let settled = ledger.settle(round, "Foundry", 0).unwrap();
    assert_eq!(ledger.available(0).unwrap(), 1000 - 700 + 775);
    assert_eq!(ledger.available(1).unwrap(), 1000 - 200 + 221);
    assert_eq!(settled.rake, 4, "3 plus the rounding dust");
}

#[test]
fn the_house_never_takes_more_than_its_cut() {
    // A bound rather than an exact figure, checked over every random
    // round: the cut is three percent of what the losers staked, plus at
    // most one zatoshi per winner from integer division.
    //
    // Half the rounds are run at the scale of the money supply. That is
    // not thoroughness for its own sake: conservation is guaranteed by
    // construction here, because the house takes whatever is left over,
    // so an arithmetic slip does not lose money — it quietly moves it to
    // the house. Only a tight bound on the cut can see that, and only at
    // a scale where the arithmetic can actually slip.
    let outcomes = ["unsigned", "Foundry", "Luxor"];
    for seed in 1..200u64 {
        let mut rng = seed.wrapping_mul(7919);
        let mut ledger = book();
        let players = 2 + (next(&mut rng) % 6) as u32;
        let purse = if seed % 2 == 0 { 400_000_000_000_000u64 } else { 1_000_000u64 };
        for index in 0..players {
            fund(&mut ledger, index, purse);
        }
        let round = ledger.open_round(2000 + seed as u32);
        let mut pools = std::collections::HashMap::new();
        let mut staked_by: Vec<(u32, &str, i64)> = Vec::new();
        for index in 0..players {
            let stake = 1 + next(&mut rng) % purse;
            let pick = outcomes[(next(&mut rng) % outcomes.len() as u64) as usize];
            ledger.place(round, index, pick, stake, 0).unwrap();
            *pools.entry(pick).or_insert(0i64) += stake as i64;
            staked_by.push((index, pick, stake as i64));
        }
        let winner = outcomes[(next(&mut rng) % outcomes.len() as u64) as usize];
        let settled = ledger.settle(round, winner, 0).unwrap();
        if settled.refunded {
            assert_eq!(settled.rake, 0, "seed {seed}");
            continue;
        }
        let winner_pool = pools.get(winner).copied().unwrap_or(0);
        let losing = settled.staked - winner_pool;
        let ceiling = losing * RAKE_PERCENT / 100 + settled.winners as i64;
        assert!(
            settled.rake <= ceiling,
            "seed {seed}: took {} of a losing pool of {losing}, ceiling {ceiling}",
            settled.rake
        );

        // And each winner to the zatoshi, worked out here independently.
        // A bound alone tolerates a payout that is merely close, and
        // "close" repeated a million times is a number somebody notices.
        let rake = losing * RAKE_PERCENT / 100;
        let distributable = losing - rake;
        for (index, pick, stake) in &staked_by {
            if *pick != winner {
                continue;
            }
            let share = i64::try_from(
                i128::from(distributable) * i128::from(*stake) / i128::from(winner_pool),
            )
            .unwrap();
            let expected = purse as i64 - stake + stake + share;
            assert_eq!(
                ledger.available(*index).unwrap(),
                expected,
                "seed {seed}: address {index} staked {stake} of {winner_pool}"
            );
        }
    }
}

#[test]
fn stakes_near_the_money_supply_do_not_overflow() {
    // Zcash's supply is 2.1e15 zatoshi. Multiplying a stake by a pool at
    // that scale leaves i64 far behind, and the product is exactly what
    // dividing a pool by stake requires.
    let huge = 2_000_000_000_000_000u64;
    let mut ledger = book();
    fund(&mut ledger, 0, huge);
    fund(&mut ledger, 1, huge);
    let round = ledger.open_round(10);
    ledger.place(round, 0, "Foundry", huge, 0).unwrap();
    ledger.place(round, 1, "Luxor", huge, 0).unwrap();

    let settled = ledger.settle(round, "Foundry", 0).unwrap();
    assert_eq!(settled.paid + settled.rake, settled.staked);
    assert!(settled.paid > huge as i64, "the winner is ahead");
}

#[test]
fn nobody_can_stake_what_they_do_not_have() {
    let mut ledger = book();
    fund(&mut ledger, 0, 500);
    let round = ledger.open_round(10);

    assert!(ledger.place(round, 0, "Foundry", 501, 0).is_err(), "overdrawn");
    ledger.place(round, 0, "Foundry", 500, 0).unwrap();

    let second = ledger.open_round(11);
    assert!(
        ledger.place(second, 0, "Luxor", 1, 0).is_err(),
        "the first bet already committed it"
    );
}

#[test]
fn one_position_per_round() {
    let mut ledger = book();
    fund(&mut ledger, 0, 1000);
    let round = ledger.open_round(10);
    ledger.place(round, 0, "Foundry", 100, 0).unwrap();
    assert!(ledger.place(round, 0, "Luxor", 100, 0).is_err());
}

#[test]
fn a_round_nobody_called_right_is_refunded_rather_than_kept() {
    // The house winning on an outcome nobody chose is the one shape of
    // this with no defence.
    let mut ledger = book();
    fund(&mut ledger, 0, 1000);
    fund(&mut ledger, 1, 1000);
    let round = ledger.open_round(10);
    ledger.place(round, 0, "Foundry", 700, 0).unwrap();
    ledger.place(round, 1, "Luxor", 300, 0).unwrap();

    let settled = ledger.settle(round, "2Miners", 0).unwrap();
    assert!(settled.refunded);
    assert_eq!(settled.rake, 0, "the house takes nothing");
    assert_eq!(ledger.available(0).unwrap(), 1000);
    assert_eq!(ledger.available(1).unwrap(), 1000);
}

#[test]
fn a_withdrawal_is_debited_when_it_is_asked_for() {
    // Not when it is sent. Waiting would let the same balance be asked
    // for twice, and both requests would look fundable.
    let mut ledger = book();
    fund(&mut ledger, 0, 1000);

    ledger.request_withdrawal(0, 600, "utest1somewhere", 0).unwrap();
    assert_eq!(ledger.available(0).unwrap(), 400, "debited before sending");
    assert!(
        ledger.request_withdrawal(0, 500, "utest1somewhere", 0).is_err(),
        "only 400 is left"
    );
    ledger.request_withdrawal(0, 400, "utest1somewhere", 0).unwrap();
    assert_eq!(ledger.available(0).unwrap(), 0);
}

#[test]
fn a_withdrawal_is_not_paid_by_two_transactions() {
    // Nothing on a shielded chain brings the second one back.
    let mut ledger = book();
    fund(&mut ledger, 0, 1000);
    let id = ledger.request_withdrawal(0, 500, "utest1somewhere", 0).unwrap();

    ledger.mark_sent(id, "aa".repeat(32).as_str(), 0).unwrap();
    let second = ledger.mark_sent(id, "bb".repeat(32).as_str(), 0);
    assert!(second.is_err(), "paid twice");
    assert!(second.unwrap_err().message().contains("already paid"));

    assert!(ledger.unsent_withdrawals().is_empty());
}

#[test]
fn money_committed_to_a_round_cannot_also_be_withdrawn() {
    let mut ledger = book();
    fund(&mut ledger, 0, 1000);
    let round = ledger.open_round(10);
    ledger.place(round, 0, "Foundry", 800, 0).unwrap();

    assert!(ledger.request_withdrawal(0, 300, "utest1somewhere", 0).is_err());
    ledger.request_withdrawal(0, 200, "utest1somewhere", 0).unwrap();

    // And what the round returns is withdrawable afterwards.
    ledger.settle(round, "Foundry", 0).unwrap();
    assert_eq!(ledger.available(0).unwrap(), 800, "the stake came back");
}

#[test]
fn a_settled_round_is_not_settled_twice() {
    let mut ledger = book();
    fund(&mut ledger, 0, 1000);
    let round = ledger.open_round(10);
    ledger.place(round, 0, "Foundry", 100, 0).unwrap();
    ledger.settle(round, "Foundry", 0).unwrap();
    assert!(ledger.settle(round, "Luxor", 0).is_err());
    assert!(ledger.place(round, 0, "Luxor", 100, 0).is_err());
}
