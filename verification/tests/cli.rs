use ring_wallet::cli::{network_of, parse, Command};
use ring_wallet::network::Network;

fn args(line: &str) -> Vec<String> {
    line.split(' ').map(str::to_string).collect()
}

fn refusal(line: &str) -> &'static str {
    parse(&args(line)).unwrap_err().message()
}

#[test]
fn testnet_may_stand_before_or_behind_the_command() {
    assert!(matches!(parse(&args("--testnet new")), Ok(Command::New)));
    assert!(matches!(parse(&args("new --testnet")), Ok(Command::New)));
    assert_eq!(network_of(&args("--testnet new")), Network::TestNetwork);
    assert_eq!(network_of(&args("new --testnet")), Network::TestNetwork);
    assert_eq!(network_of(&args("new")), Network::MainNetwork);
}

#[test]
fn a_scan_reads_its_flags() {
    match parse(&args("scan --ufvk key --birthday 42")).unwrap() {
        Command::Scan { ufvk, birthday, data } => {
            assert_eq!(ufvk, "key");
            assert_eq!(birthday, 42);
            assert_eq!(data, "ring-data");
        }
        other => panic!("{other:?}"),
    }
    match parse(&args("--data here scan --birthday +4294967295 --ufvk key")).unwrap() {
        Command::Scan { birthday, data, .. } => {
            assert_eq!(birthday, u32::MAX);
            assert_eq!(data, "here");
        }
        other => panic!("{other:?}"),
    }
}

#[test]
fn a_payment_reads_its_flags() {
    match parse(&args("send --seed-file s --to t --zatoshi 18446744073709551615")).unwrap() {
        Command::Send { seed_file, to, zatoshi, memo, data } => {
            assert_eq!(seed_file, "s");
            assert_eq!(to, "t");
            assert_eq!(zatoshi, u64::MAX);
            assert_eq!(memo, "");
            assert_eq!(data, "ring-data");
        }
        other => panic!("{other:?}"),
    }
    match parse(&args("send --seed-file s --to t --zatoshi 1 --memo hi --data d")).unwrap() {
        Command::Send { memo, data, .. } => {
            assert_eq!(memo, "hi");
            assert_eq!(data, "d");
        }
        other => panic!("{other:?}"),
    }
}

#[test]
fn the_first_command_counts_and_so_does_the_first_flag() {
    assert!(matches!(parse(&args("x new scan")), Ok(Command::New)));
    match parse(&args("scan --ufvk a --ufvk b --birthday 1")).unwrap() {
        Command::Scan { ufvk, .. } => assert_eq!(ufvk, "a"),
        other => panic!("{other:?}"),
    }
}

#[test]
fn what_is_missing_is_said() {
    assert_eq!(
        refusal("nothing"),
        "usage:\n  ring-wallet [--testnet] new\n  ring-wallet [--testnet] scan --ufvk <key> --birthday <height> [--data <dir>]\n  ring-wallet [--testnet] send --seed-file <path> --to <addr> --zatoshi <n> [--memo <text>] [--data <dir>]"
    );
    assert!(parse(&Vec::new()).is_err());
    assert_eq!(refusal("scan"), "--ufvk is required");
    assert_eq!(refusal("scan --ufvk"), "--ufvk is required");
    assert_eq!(
        refusal("scan --ufvk k"),
        "--birthday is required: the height the wallet was made"
    );
    assert_eq!(refusal("scan --ufvk k --birthday -1"), "--birthday must be a block height");
    assert_eq!(
        refusal("scan --ufvk k --birthday 4294967296"),
        "--birthday must be a block height"
    );
    assert_eq!(refusal("send"), "--seed-file is required");
    assert_eq!(refusal("send --seed-file s"), "--to is required");
    assert_eq!(refusal("send --seed-file s --to t"), "--zatoshi is required");
    assert_eq!(
        refusal("send --seed-file s --to t --zatoshi 1.5"),
        "--zatoshi must be a whole number of zatoshi"
    );
    assert_eq!(
        refusal("send --seed-file s --to t --zatoshi 18446744073709551616"),
        "--zatoshi must be a whole number of zatoshi"
    );
}
