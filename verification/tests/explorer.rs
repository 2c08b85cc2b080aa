use ring_wallet::blocks::{at_height, block_url, miner_of, ExplorerError, Raw};

fn row(id: u32) -> Raw {
    Raw { id, coinbase_data_hex: None, guessed_miner: None }
}

fn coinbase(text: &str) -> Raw {
    Raw {
        id: 1,
        coinbase_data_hex: Some(text.bytes().map(|b| format!("{b:02x}")).collect()),
        guessed_miner: None,
    }
}

#[test]
fn one_block_is_asked_about() {
    assert_eq!(
        block_url("https://explorer/blocks", 2_900_000),
        "https://explorer/blocks?q=id(2900000)&fields=id,coinbase_data_hex,guessed_miner"
    );
}

#[test]
fn the_block_that_was_asked_about_is_taken() {
    let block = at_height(7, 200, Some(vec![row(7), row(8)])).unwrap().unwrap();
    assert_eq!(block.id, 7);
}

#[test]
fn an_empty_list_is_a_block_that_is_not_mined_yet() {
    assert!(at_height(7, 200, Some(Vec::new())).unwrap().is_none());
}

#[test]
fn another_block_is_refused() {
    let error = at_height(7, 200, Some(vec![row(8)])).unwrap_err();
    assert!(matches!(error, ExplorerError::WrongBlock { .. }));
    assert_eq!(error.message(), "asked the explorer for block 7 and it answered about 8");
}

#[test]
fn an_answer_that_is_none_says_nothing_about_the_block() {
    let error = at_height(7, 503, None).unwrap_err();
    assert_eq!(
        error.message(),
        "the explorer answered 503 for block 7; this says nothing about the block"
    );
    let error = at_height(7, 200, None).unwrap_err();
    assert_eq!(error.message(), "the explorer's answer was not a block list");
}

#[test]
fn the_longest_name_is_taken() {
    assert_eq!(miner_of(&coinbase("Luxor via zecminingpool")), "zecminingpool");
    assert_eq!(miner_of(&coinbase("2miners and ZERGPOOL")), "zergpool");
    assert_eq!(miner_of(&coinbase("f2pool")), "F2Pool");
}
