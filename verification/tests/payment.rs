use ring_wallet::keys::generate;
use ring_wallet::memo::describe;
use ring_wallet::network::Network;
use ring_wallet::payment::{
    broadcast_answer, first_account, payment_from, plan_payment, SendError,
};

const PHRASE: &str = "bottom drive obey lake curtain smoke basket hold race lonely fit walk";
const SEED: &str = "02d5cd1db85b4d1397d78978062a1160e76e94cc5aaad3089644846865bb18fc68ddf383059d3fe82902a203d60790a8c8ab488de5013d10a8a8bded8d9174b9";
const SUPPLY: u64 = 2_100_000_000_000_000;

fn somewhere() -> String {
    generate(Network::TestNetwork).unwrap().address
}

fn refusal(file: &str, to: &str, zatoshi: u64, memo: &str) -> String {
    match plan_payment(Network::TestNetwork, file, to, zatoshi, memo) {
        Ok(_) => panic!("planned"),
        Err(error) => error.message(),
    }
}

#[test]
fn a_payment_is_planned_from_the_file_and_the_arguments() {
    let to = somewhere();
    let file = format!("  {PHRASE}\r\n");
    let payment = plan_payment(Network::TestNetwork, &file, &to, 25, "for Luxor").unwrap();
    let seed: String = payment.seed.iter().map(|b| format!("{b:02x}")).collect();
    assert_eq!(seed, SEED);
    assert_eq!(payment.to, to);
    assert_eq!(payment.zatoshi, 25);
    assert_eq!(describe(&payment.memo), "\"for Luxor\"");
}

#[test]
fn a_new_wallet_can_pay() {
    let account = generate(Network::TestNetwork).unwrap();
    let file = format!("{}\n", account.phrase);
    assert!(plan_payment(Network::TestNetwork, &file, &account.address, 1, "").is_ok());
}

#[test]
fn each_argument_is_refused_in_its_turn() {
    let to = somewhere();
    assert_eq!(
        refusal("not a phrase", "nowhere", u64::MAX, &"x".repeat(513)),
        "that file does not hold a seed phrase: BIP-0039 mnemonic only supports 12/15/18/21/24 words: 3"
    );
    assert_eq!(
        refusal(PHRASE, "nowhere", u64::MAX, &"x".repeat(513)),
        "that is not an address for this network"
    );
    assert_eq!(
        refusal(PHRASE, &to, SUPPLY + 1, &"x".repeat(513)),
        "that amount is not a value"
    );
    assert_eq!(refusal(PHRASE, &to, SUPPLY, &"x".repeat(513)), "a memo is at most 512 bytes");
    assert!(plan_payment(Network::TestNetwork, PHRASE, &to, SUPPLY, &"x".repeat(512)).is_ok());
}

#[test]
fn an_address_of_the_other_network_is_refused() {
    let to = somewhere();
    let planned = plan_payment(Network::MainNetwork, PHRASE, &to, 1, "");
    assert!(matches!(planned, Err(SendError::NotAnAddress)));
}

#[test]
fn without_a_spending_key_nothing_is_planned() {
    let planned = payment_from([7; 64], Err("zero".to_string()), true, "t", 1, "");
    match planned {
        Err(error) => assert_eq!(error.message(), "deriving the spending key"),
        Ok(_) => panic!("planned"),
    }
}

#[test]
fn the_first_account_pays() {
    assert_eq!(first_account(&vec![4u8, 5]).unwrap(), 4);
    let error = first_account(&Vec::<u8>::new()).unwrap_err();
    assert_eq!(error.message(), "this wallet has no account; run scan first");
}

#[test]
fn a_code_that_is_not_zero_is_a_refusal() {
    assert_eq!(broadcast_answer("ab", 0, "whatever").unwrap(), "sent ab");
    let error = broadcast_answer("ab", -25, "all good!").unwrap_err();
    assert_eq!(error.message(), "the network refused ab: code -25 all good!");
    assert!(broadcast_answer("ab", 1, "").is_err());
}
