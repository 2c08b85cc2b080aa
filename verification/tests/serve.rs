use ring_wallet::ledger::Ledger;
use ring_wallet::network::Network;
use ring_wallet::rows::{Deposit, Payout, Round, Tables};
use ring_wallet::serve::{
    after_claim, bad, bearer, bet, fresh_token, joined, standing, token_from, token_of, who, withdraw,
    JoinStep, Leaving, Stake,
};

fn funded(zatoshi: u64) -> Ledger {
    let mut ledger = Ledger::prepare();
    ledger
        .record_deposit(&Deposit {
            txid: "aa".to_string(),
            output: 0,
            address_index: 3,
            zatoshi,
            height: 1,
            memo: String::new(),
        })
        .unwrap();
    ledger
}

fn stake(zatoshi: u64) -> Stake {
    Stake { settles_on: 10, outcome: "Luxor".to_string(), zatoshi }
}

#[test]
fn the_token_stands_behind_bearer() {
    assert_eq!(bearer(Some("Bearer abc")), "abc");
    assert_eq!(bearer(Some("Bearer ")), "");
    assert_eq!(bearer(Some("Bearer  abc")), " abc");
    assert_eq!(bearer(Some("bearer abc")), "");
    assert_eq!(bearer(Some("Bearer")), "");
    assert_eq!(bearer(Some("Basic abc")), "");
    assert_eq!(bearer(None), "");
}

#[test]
fn an_unknown_token_is_answered_like_a_missing_one() {
    assert_eq!(who::<String>(Ok(Some(7))).unwrap(), 7);
    for resolved in [Ok(None), Err("the disk is gone".to_string())] {
        let refusal = who(resolved).unwrap_err();
        assert_eq!(refusal.status, 401);
        assert_eq!(refusal.message, "that token is not one of ours");
    }
}

#[test]
fn a_token_is_its_bytes_in_hexadecimal() {
    let mut raw = [0u8; 32];
    raw[0] = 0xab;
    raw[31] = 1;
    assert_eq!(token_of(&raw), format!("ab{}01", "00".repeat(30)));
}

#[test]
fn there_is_a_token_wherever_there_are_bytes() {
    assert_eq!(token_from(Some([0xab; 32])), Some("ab".repeat(32)));
    assert_eq!(token_from(None), None);
}

#[test]
fn a_fresh_token_is_not_the_one_before() {
    let one = fresh_token().unwrap();
    let other = fresh_token().unwrap();
    assert_eq!(one.len(), 64);
    assert!(one.chars().all(|c| c.is_ascii_hexdigit() && !c.is_ascii_uppercase()));
    assert_ne!(one, other);
}

#[test]
fn joining_steps_past_an_address_that_is_taken() {
    assert!(matches!(after_claim(4, Ok(())), JoinStep::Claimed(4)));
    assert!(matches!(after_claim(4, Err("taken".to_string())), JoinStep::From(5)));
    match after_claim(u32::MAX, Err("taken".to_string())) {
        JoinStep::Refused(refusal) => {
            assert_eq!(refusal.status, 500);
            assert_eq!(refusal.message, "taken");
        }
        other => panic!("{other:?}"),
    }
    assert!(matches!(after_claim(u32::MAX, Ok(())), JoinStep::Claimed(u32::MAX)));
}

#[test]
fn somebody_who_joined_is_told_where_they_are() {
    let told = joined(Network::TestNetwork, 5, "utest1x".to_string(), "ff".to_string());
    assert_eq!(told.index, 5);
    assert_eq!(told.address, "utest1x");
    assert_eq!(told.token, "ff");
    assert_eq!(told.network, "testnet");
    assert_eq!(told.unit, "TAZ");
    assert_eq!(told.note, "keep this token; it is the only way back to this balance");
}

#[test]
fn a_standing_says_the_network_and_the_balance() {
    let ledger = funded(900);
    let there = standing(&ledger, Network::MainNetwork, 3, "u1x".to_string()).unwrap();
    assert_eq!(there.index, 3);
    assert_eq!(there.address, "u1x");
    assert_eq!(there.available, 900);
    assert_eq!(there.network, "mainnet");
    assert_eq!(there.unit, "ZEC");
}

#[test]
fn a_bet_opens_the_round_and_commits_the_stake() {
    let mut ledger = funded(900);
    bet(&mut ledger, 3, &stake(400), 1).unwrap();
    assert_eq!(ledger.available(3).unwrap(), 500);
    assert_eq!(ledger.tables().rounds.len(), 1);
    assert_eq!(ledger.tables().rounds[0].settles_on, 10);
    assert_eq!(ledger.tables().bets[0].outcome, "Luxor");
}

#[test]
fn a_refused_bet_leaves_the_round_open_and_the_balance_alone() {
    let mut ledger = funded(900);
    let refusal = bet(&mut ledger, 3, &stake(901), 1).unwrap_err();
    assert_eq!(refusal.status, 400);
    assert_eq!(refusal.message, "address 3 has 900 zatoshi, not 901");
    assert_eq!(ledger.available(3).unwrap(), 900);
    assert_eq!(ledger.tables().rounds.len(), 1);
    assert!(ledger.tables().bets.is_empty());
}

#[test]
fn a_bet_on_a_settled_round_is_refused_before_anything_is_added_up() {
    let mut ledger = Ledger::open(Tables {
        deposits: vec![Deposit {
            txid: "aa".to_string(),
            output: 0,
            address_index: 3,
            zatoshi: i64::MAX as u64,
            height: 1,
            memo: String::new(),
        }],
        depositors: Vec::new(),
        rounds: vec![Round {
            id: 1,
            settles_on: 10,
            outcome: Some("x".to_string()),
            settled_at: Some(0),
        }],
        bets: Vec::new(),
        payouts: vec![Payout { round_id: 1, address_index: 3, zatoshi: 1 }],
        withdrawals: Vec::new(),
        rakes: Vec::new(),
    })
    .unwrap();
    assert!(!ledger.adds_up(3));
    let refusal = bet(&mut ledger, 3, &stake(1), 0).unwrap_err();
    assert_eq!(refusal.status, 400);
    assert_eq!(refusal.message, "round 1 is already settled");
}

#[test]
fn a_withdrawal_is_asked_for_or_refused() {
    let mut ledger = funded(900);
    let leaving = Leaving { zatoshi: 600, to: "utest1y".to_string() };
    withdraw(&mut ledger, 3, &leaving, 1).unwrap();
    assert_eq!(ledger.available(3).unwrap(), 300);
    let refusal = withdraw(&mut ledger, 3, &leaving, 2).unwrap_err();
    assert_eq!(refusal.status, 400);
    assert_eq!(refusal.message, "address 3 has 300 zatoshi, not 600");
    assert_eq!(ledger.available(3).unwrap(), 300);
}

#[test]
fn a_bad_request_is_answered_with_its_message() {
    let refusal = bad("no".to_string());
    assert_eq!(refusal.status, 400);
    assert_eq!(refusal.message, "no");
}
