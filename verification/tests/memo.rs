use ring_wallet::memo::{describe, memo_of, say, MemoKind};

fn memo(bytes: &[u8]) -> [u8; 512] {
    let mut memo = [0u8; 512];
    memo[..bytes.len()].copy_from_slice(bytes);
    memo
}

#[test]
fn each_kind_of_memo_is_described() {
    assert_eq!(describe(&memo(&[0xF6])), "(empty)");
    assert_eq!(describe(&memo(&[0xFF, 1, 2])), "(not text)");
    assert_eq!(describe(&memo(&[0xF5])), "(a kind this build does not know)");
    assert_eq!(describe(&memo(&[0xF6, 1])), "(a kind this build does not know)");
    assert_eq!(describe(&memo(&[0xC3, 0x28])), "(unreadable)");
    assert_eq!(describe(&memo(b"Foundry")), "\"Foundry\"");
    assert_eq!(describe(&memo(b"say \"hi\"\n")), "\"say \\\"hi\\\"\\n\"");
}

#[test]
fn a_memo_of_zeros_is_an_empty_text() {
    assert_eq!(describe(&[0u8; 512]), "\"\"");
}

#[test]
fn what_is_written_into_a_memo_is_read_out_of_it() {
    for text in ["", "Luxor", "2Miners wins", "żółw", "🐢", &"x".repeat(512)] {
        let bytes = memo_of(text).unwrap();
        assert_eq!(describe(&bytes), format!("{text:?}"));
    }
    // Zeros at the end are padding, so they do not come back.
    assert_eq!(describe(&memo_of("a\0").unwrap()), "\"a\"");
}

#[test]
fn a_memo_is_at_most_512_bytes() {
    assert_eq!(memo_of("ab").unwrap(), memo(b"ab"));
    assert!(memo_of(&"x".repeat(512)).is_some());
    assert!(memo_of(&"x".repeat(513)).is_none());
    // Bytes count, not characters.
    assert!(memo_of(&"ż".repeat(257)).is_none());
}

#[test]
fn what_is_said_follows_from_the_kind() {
    assert_eq!(say(&MemoKind::Text("a".to_string())), "\"a\"");
    assert_eq!(say(&MemoKind::Empty), "(empty)");
    assert_eq!(say(&MemoKind::Future), "(a kind this build does not know)");
    assert_eq!(say(&MemoKind::Arbitrary), "(not text)");
    assert_eq!(say(&MemoKind::Unreadable), "(unreadable)");
}
