//! Memos: what one says, and what is written into one.

use vstd::prelude::*;
use vstd::utf8::{
    char_is_scalar, decode_utf8, encode_scalar, encode_utf8, encode_utf8_decode_utf8,
    encode_utf8_valid_utf8, valid_utf8,
};

verus! {

/// The bytes of a memo.
pub const MEMO_SIZE: usize = 512;

/// What stands in a memo.
#[derive(Debug)]
pub enum MemoKind {
    /// A text.
    Text(String),
    /// Nothing.
    Empty,
    /// A kind that is not known yet.
    Future,
    /// Bytes that are not a text.
    Arbitrary,
    /// A text that cannot be read.
    Unreadable,
}

pub enum MemoView {
    Text(Seq<char>),
    Empty,
    Future,
    Arbitrary,
    Unreadable,
}

impl View for MemoKind {
    type V = MemoView;

    open spec fn view(&self) -> MemoView {
        match self {
            MemoKind::Text(text) => MemoView::Text(text@),
            MemoKind::Empty => MemoView::Empty,
            MemoKind::Future => MemoView::Future,
            MemoKind::Arbitrary => MemoView::Arbitrary,
            MemoKind::Unreadable => MemoView::Unreadable,
        }
    }
}

/// The bytes without the zeros at their end.
pub open spec fn unpadded(bytes: Seq<u8>) -> Seq<u8>
    decreases bytes.len(),
{
    if bytes.len() > 0 && bytes.last() == 0 {
        unpadded(bytes.drop_last())
    } else {
        bytes
    }
}

/// What stands in a memo with these bytes.
pub open spec fn memo_kind(bytes: Seq<u8>) -> MemoView {
    if bytes[0] == 0xF6 && (forall|i: int| 1 <= i < bytes.len() ==> #[trigger] bytes[i] == 0) {
        MemoView::Empty
    } else if bytes[0] == 0xFF {
        MemoView::Arbitrary
    } else if bytes[0] <= 0xF4 {
        if valid_utf8(unpadded(bytes)) {
            MemoView::Text(decode_utf8(unpadded(bytes)))
        } else {
            MemoView::Unreadable
        }
    } else {
        MemoView::Future
    }
}

/// `zcash_protocol::memo::Memo::from_bytes`, on as many bytes as a memo has: a
/// first byte of 0xF6 before zeros alone is no memo, a first byte of 0xFF
/// comes before bytes that are no text, one of at most 0xF4 begins a text in
/// UTF-8, which ends where the zeros at the end begin and is refused where it
/// is not UTF-8, and any other is for kinds to come.
#[verifier::external_body]
fn read_memo(bytes: &[u8; MEMO_SIZE]) -> (kind: MemoKind)
    ensures
        kind@ == memo_kind(bytes@),
{
    match zcash_protocol::memo::Memo::from_bytes(bytes) {
        Ok(zcash_protocol::memo::Memo::Text(text)) => MemoKind::Text(String::from(text)),
        Ok(zcash_protocol::memo::Memo::Empty) => MemoKind::Empty,
        Ok(zcash_protocol::memo::Memo::Future(_)) => MemoKind::Future,
        Ok(zcash_protocol::memo::Memo::Arbitrary(_)) => MemoKind::Arbitrary,
        Err(_) => MemoKind::Unreadable,
    }
}

/// A text in quotation marks, with what cannot be printed escaped, as std
/// writes one for a reader of programs.
pub uninterp spec fn quoted(text: Seq<char>) -> Seq<char>;

/// `std::fmt::Debug` of a `str`: what it writes depends on the text alone.
#[verifier::external_body]
fn quote(text: &str) -> (quote: String)
    ensures
        quote@ == quoted(text@),
{
    format!("{:?}", text)
}

/// What is said of a memo.
pub open spec fn said(kind: MemoView) -> Seq<char> {
    match kind {
        MemoView::Text(text) => quoted(text),
        MemoView::Empty => "(empty)"@,
        MemoView::Future => "(a kind this build does not know)"@,
        MemoView::Arbitrary => "(not text)"@,
        MemoView::Unreadable => "(unreadable)"@,
    }
}

/// What is said of a memo in which that stands.
pub fn say(kind: &MemoKind) -> (text: String)
    ensures
        text@ == said(kind@),
{
    match kind {
        MemoKind::Text(text) => quote(text.as_str()),
        MemoKind::Empty => "(empty)".to_owned(),
        MemoKind::Future => "(a kind this build does not know)".to_owned(),
        MemoKind::Arbitrary => "(not text)".to_owned(),
        MemoKind::Unreadable => "(unreadable)".to_owned(),
    }
}

/// What a memo says, or why it says nothing.
pub fn describe(bytes: &[u8; MEMO_SIZE]) -> (text: String)
    ensures
        text@ == said(memo_kind(bytes@)),
{
    say(&read_memo(bytes))
}

/// The bytes of a memo that begins with `bytes`.
pub open spec fn padded(bytes: Seq<u8>) -> Seq<u8> {
    bytes + Seq::new((MEMO_SIZE - bytes.len()) as nat, |i: int| 0u8)
}

/// `zcash_protocol::memo::MemoBytes::from_bytes`: at most 512 bytes, with
/// zeros behind them, and nothing where there are more.
#[verifier::external_body]
fn pad_memo(bytes: &[u8]) -> (memo: Option<[u8; MEMO_SIZE]>)
    ensures
        memo is Some <==> bytes@.len() <= MEMO_SIZE,
        memo is Some ==> memo->0@ == padded(bytes@),
{
    match zcash_protocol::memo::MemoBytes::from_bytes(bytes) {
        Ok(memo) => Some(memo.into_bytes()),
        Err(_) => None,
    }
}

/// The memo that holds a text, where it is short enough.
pub fn memo_of(text: &str) -> (memo: Option<[u8; MEMO_SIZE]>)
    ensures
        memo is Some <==> encode_utf8(text@).len() <= MEMO_SIZE,
        memo is Some ==> memo->0@ == padded(encode_utf8(text@)),
{
    pad_memo(text.as_bytes())
}

/// Zeros behind bytes are no part of them.
proof fn padding_is_dropped(bytes: Seq<u8>, zeros: nat)
    requires
        bytes.len() > 0 ==> bytes.last() != 0,
    ensures
        unpadded(bytes + Seq::new(zeros, |i: int| 0u8)) == bytes,
    decreases zeros,
{
    let all = bytes + Seq::new(zeros, |i: int| 0u8);
    if zeros == 0 {
        assert(all =~= bytes);
    } else {
        assert(all.drop_last() =~= bytes + Seq::new((zeros - 1) as nat, |i: int| 0u8));
        padding_is_dropped(bytes, (zeros - 1) as nat);
    }
}

/// The first byte of a character is at most 0xF4, and its last is not zero
/// where the character is not.
proof fn ends_of_a_character(c: char)
    ensures
        encode_scalar(c as u32).len() > 0,
        encode_scalar(c as u32)[0] <= 0xF4,
        c != '\0' ==> encode_scalar(c as u32).last() != 0,
{
    let v = c as u32;
    assert(v <= 0x7F ==> (v & 0x7F) as u8 == v) by (bit_vector);
    assert(0xC0u8 | ((v >> 6) & 0x1F) as u8 <= 0xDF) by (bit_vector);
    assert(0xE0u8 | ((v >> 12) & 0x0F) as u8 <= 0xEF) by (bit_vector);
    assert(v <= 0x10FFFF ==> 0xF0u8 | ((v >> 18) & 0x7) as u8 <= 0xF4) by (bit_vector);
    assert(0x80u8 | (v & 0x3F) as u8 >= 0x80) by (bit_vector);
    char_is_scalar(c);
}

/// The first byte of a text is at most 0xF4, and its last is not zero where
/// its last character is not.
proof fn ends_of_a_text(text: Seq<char>)
    requires
        text.len() > 0,
    ensures
        encode_utf8(text).len() > 0,
        encode_utf8(text)[0] <= 0xF4,
        text.last() != '\0' ==> encode_utf8(text).last() != 0,
    decreases text.len(),
{
    ends_of_a_character(text[0]);
    let rest = text.drop_first();
    if rest.len() > 0 {
        ends_of_a_text(rest);
        assert(rest.last() == text.last());
        assert(encode_utf8(text).last() == encode_utf8(rest).last());
    } else {
        assert(encode_utf8(rest) =~= seq![]);
        assert(encode_utf8(text) =~= encode_scalar(text[0] as u32));
    }
}

/// What is written into a memo is what is read out of it: a text that fits,
/// and does not end in the character of value zero, comes back as it was.
pub proof fn a_memo_reads_back(text: Seq<char>)
    requires
        encode_utf8(text).len() <= MEMO_SIZE,
        text.len() > 0 ==> text.last() != '\0',
    ensures
        memo_kind(padded(encode_utf8(text))) == MemoView::Text(text),
{
    let bytes = encode_utf8(text);
    encode_utf8_valid_utf8(text);
    encode_utf8_decode_utf8(text);
    if text.len() > 0 {
        ends_of_a_text(text);
    }
    padding_is_dropped(bytes, (MEMO_SIZE - bytes.len()) as nat);
    assert(padded(bytes)[0] <= 0xF4);
}

/// A memo is what its first byte makes it: nothing where it is 0xF6 and only zeros
/// follow, bytes that are no text where it is 0xFF, a kind that is not known yet
/// where it is any other above 0xF4, and else a text.
pub proof fn a_memo_is_what_its_first_byte_makes_it(bytes: Seq<u8>)
    requires
        bytes.len() > 0,
    ensures
        ({
            let blank = forall|i: int| 1 <= i < bytes.len() ==> #[trigger] bytes[i] == 0;
            let kind = memo_kind(bytes);
            &&& kind is Empty <==> bytes[0] == 0xF6 && blank
            &&& kind is Arbitrary <==> bytes[0] == 0xFF
            &&& kind is Future <==> bytes[0] > 0xF4 && bytes[0] != 0xFF && !(bytes[0] == 0xF6
                && blank)
            &&& kind is Text || kind is Unreadable <==> bytes[0] <= 0xF4
        }),
{
}

/// The zeros behind a text are no part of it: it is read from what stands before
/// them, and is unreadable only where that is not UTF-8.
pub proof fn a_text_ends_where_its_zeros_begin(bytes: Seq<u8>, zeros: nat)
    requires
        bytes.len() + zeros > 0,
        bytes.len() > 0 ==> bytes[0] <= 0xF4 && bytes.last() != 0,
    ensures
        ({
            let memo = bytes + Seq::new(zeros, |i: int| 0u8);
            memo_kind(memo) == (if valid_utf8(bytes) {
                MemoView::Text(decode_utf8(bytes))
            } else {
                MemoView::Unreadable
            })
        }),
{
    padding_is_dropped(bytes, zeros);
    let memo = bytes + Seq::new(zeros, |i: int| 0u8);
    if bytes.len() > 0 {
        assert(memo[0] == bytes[0]);
    } else {
        assert(memo[0] == 0);
    }
}

/// What is written into a memo stands at its beginning, and zeros fill it up to
/// five hundred and twelve bytes.
pub proof fn a_memo_is_filled_up_with_zeros(bytes: Seq<u8>)
    requires
        bytes.len() <= 512,
    ensures
        padded(bytes).len() == 512,
        forall|i: int| 0 <= i < bytes.len() ==> #[trigger] padded(bytes)[i] == bytes[i],
        forall|i: int| bytes.len() <= i < 512 ==> #[trigger] padded(bytes)[i] == 0,
        MEMO_SIZE == 512,
{
}

/// What is said of each kind of memo, and that a kind is seen as it is.
pub proof fn what_is_said_of_each_kind(text: String)
    ensures
        said(MemoKind::Text(text)@) == quoted(text@),
        said(MemoKind::Empty@) == "(empty)"@,
        said(MemoKind::Future@) == "(a kind this build does not know)"@,
        said(MemoKind::Arbitrary@) == "(not text)"@,
        said(MemoKind::Unreadable@) == "(unreadable)"@,
        MemoKind::Text(text)@ == MemoView::Text(text@),
        MemoKind::Empty@ is Empty,
        MemoKind::Future@ is Future,
        MemoKind::Arbitrary@ is Arbitrary,
        MemoKind::Unreadable@ is Unreadable,
{
}

}
