use ring_wallet::blocks::{miner_of, Raw, UNSIGNED};

fn row(hex: &str, guess: Option<&str>) -> Raw {
    Raw {
        id: 1,
        coinbase_data_hex: Some(hex.to_string()),
        guessed_miner: guess.map(str::to_string),
    }
}

fn hex_of(text: &str) -> String {
    text.bytes().map(|b| format!("{b:02x}")).collect()
}

#[test]
fn a_name_in_the_coinbase_is_the_miner() {
    assert_eq!(
        miner_of(&row(&hex_of("mined by 2Miners pool"), None)),
        "2Miners"
    );
    assert_eq!(
        miner_of(&row(&hex_of("\u{1}\u{2}Foundry USA"), None)),
        "Foundry"
    );
    assert_eq!(miner_of(&row(&hex_of("viabtc.com"), None)), "ViaBTC");
}

#[test]
fn a_coinbase_with_no_name_is_unsigned_rather_than_guessed_at() {
    // Naming a suspect would be a guess presented as a fact, and it would
    // decide who gets paid.
    assert_eq!(miner_of(&row(&hex_of("just some bytes"), None)), UNSIGNED);
    assert_eq!(miner_of(&row("", None)), UNSIGNED);
    assert_eq!(
        miner_of(&Raw {
            id: 1,
            coinbase_data_hex: None,
            guessed_miner: None
        }),
        UNSIGNED
    );
}

#[test]
fn the_explorers_own_guess_wins_when_it_has_one() {
    assert_eq!(miner_of(&row(&hex_of("2Miners"), Some("Luxor"))), "Luxor");
    // But "unknown" is not a guess.
    assert_eq!(
        miner_of(&row(&hex_of("2Miners"), Some("unknown"))),
        "2Miners"
    );
    assert_eq!(miner_of(&row(&hex_of("2Miners"), Some(""))), "2Miners");
}

#[test]
fn a_name_is_not_spelled_across_unprintable_padding() {
    // Non-printable bytes become spaces, so "Lu\0xor" is not Luxor.
    let broken = format!("{}{}{}", hex_of("Lu"), "00", hex_of("xor"));
    assert_eq!(miner_of(&row(&broken, None)), UNSIGNED);
}
