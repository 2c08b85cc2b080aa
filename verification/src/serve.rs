//! The face the market talks to.
//!
//! It can read the book and commit to it. It cannot spend: the spending key is
//! not here, and paying a withdrawal is a separate command run somewhere else.
//! So the worst an intruder does is see who is owed what and move balances
//! between rounds.

use vstd::prelude::*;

use crate::book::{Book, RefusedView};
use crate::history::{
    after, every_operation_keeps_the_book_sound, every_operation_keeps_the_rules, Step,
};
use crate::laws::{
    a_stake_is_committed_at_once, a_withdrawal_is_debited_when_it_is_asked_for, sound,
};
use crate::ledger::Ledger;
use crate::network::{called, coin, name_of, unit_of, Network};
use crate::refusal::{refusal_text, LedgerError};
use crate::rows::{BetView, RoundView};
use crate::rules::open_round_keeps_rules;
use crate::terms::{a_block_without_a_round_gets_one, a_round_is_settled_where_its_row_says_so};
use crate::text::{chars_of, hex_of, to_hex};

verus! {

/// A request that was not one.
pub const BAD_REQUEST: u16 = 400;

/// A request without a token that is known.
pub const UNAUTHORIZED: u16 = 401;

/// A request that failed here.
pub const INTERNAL_SERVER_ERROR: u16 = 500;

/// An error the caller is allowed to read.
#[derive(Debug)]
pub struct Refusal {
    pub status: u16,
    pub message: String,
}

/// Refuses a request as a bad one.
pub fn bad(message: String) -> (refusal: Refusal)
    ensures
        refusal == (Refusal { status: BAD_REQUEST, message }),
{
    Refusal { status: BAD_REQUEST, message }
}

/// The token in an authorization header, and an empty one where there is none.
pub open spec fn token_in(header: Option<Seq<char>>) -> Seq<char> {
    match header {
        Some(value) => if "Bearer "@.is_prefix_of(value) {
            value.skip("Bearer "@.len() as int)
        } else {
            Seq::empty()
        },
        None => Seq::empty(),
    }
}

/// The token in an authorization header, and an empty one where there is none.
pub fn bearer(header: Option<&str>) -> (token: String)
    ensures
        token@ == token_in(
            match header {
                Some(value) => Some(value@),
                None => None,
            },
        ),
{
    let mut token = String::new();
    let value = match header {
        Some(value) => chars_of(value),
        None => return token,
    };
    let prefix = chars_of("Bearer ");
    if value.len() < prefix.len() {
        return token;
    }
    let mut i: usize = 0;
    while i < prefix.len()
        invariant
            prefix@ == "Bearer "@,
            header is Some && value@ == header->0@,
            token@ == Seq::<char>::empty(),
            i <= prefix.len() <= value.len(),
            forall|k: int| 0 <= k < i ==> value@[k] == prefix@[k],
        decreases prefix.len() - i,
    {
        if value[i] != prefix[i] {
            assert(!"Bearer "@.is_prefix_of(value@)) by {
                let front = value@.subrange(0, prefix@.len() as int);
                assert(front[i as int] != prefix@[i as int]);
            }
            return token;
        }
        i += 1;
    }
    assert("Bearer "@.is_prefix_of(value@)) by {
        assert(prefix@ =~= value@.subrange(0, prefix@.len() as int));
    }
    while i < value.len()
        invariant
            prefix.len() <= i <= value.len(),
            token@ == value@.subrange(prefix.len() as int, i as int),
        decreases value.len() - i,
    {
        token.push(value[i]);
        assert(value@.subrange(prefix.len() as int, i + 1) =~= value@.subrange(
            prefix.len() as int,
            i as int,
        ).push(value@[i as int]));
        i += 1;
    }
    assert(token@ =~= value@.skip(prefix.len() as int));
    token
}

/// The address that a token speaks for, from what the book made of the token.
///
/// An unknown token is not distinguished from a missing one: saying which is
/// which would let somebody test tokens here and learn from the difference.
pub fn who<E>(resolved: Result<Option<u32>, E>) -> (who: Result<u32, Refusal>)
    ensures
        match resolved {
            Ok(Some(index)) => who == Ok::<u32, Refusal>(index),
            _ => who matches Err(refusal) && refusal.status == UNAUTHORIZED && refusal.message@
                == "that token is not one of ours"@,
        },
{
    match resolved {
        Ok(Some(index)) => Ok(index),
        _ => Err(
            Refusal {
                status: UNAUTHORIZED,
                message: "that token is not one of ours".to_owned(),
            },
        ),
    }
}

/// Bytes of a token.
pub const TOKEN_SIZE: usize = 32;

/// `rand::rngs::OsRng`, filling bytes by `try_fill_bytes`: which bytes rests on
/// the system's generator, and there are none where it fails.
#[verifier::external_body]
fn random_bytes() -> (raw: Option<[u8; TOKEN_SIZE]>) {
    let mut raw = [0u8; TOKEN_SIZE];
    match rand::RngCore::try_fill_bytes(&mut rand::rngs::OsRng, &mut raw) {
        Ok(()) => Some(raw),
        Err(_) => None,
    }
}

/// The token that bytes of the generator make.
pub fn token_of(raw: &[u8; TOKEN_SIZE]) -> (token: String)
    ensures
        token@ == hex_of(raw@),
{
    to_hex(raw)
}

/// The token from what the generator gave: one wherever it gave bytes, and none
/// only where it gave none.
pub fn token_from(raw: Option<[u8; TOKEN_SIZE]>) -> (token: Option<String>)
    ensures
        match raw {
            Some(raw) => token matches Some(token) && token@ == hex_of(raw@),
            None => token is None,
        },
{
    match raw {
        Some(raw) => Some(token_of(&raw)),
        None => None,
    }
}

/// A token of random bytes, or nothing where the system gives none.
///
/// This is the only thing standing between a stranger and somebody's balance,
/// so it is not a counter, a timestamp, or anything derived from one.
pub fn fresh_token() -> (token: Option<String>)
    ensures
        token is Some ==> exists|raw: Seq<u8>|
            raw.len() == TOKEN_SIZE && token->0@ == #[trigger] hex_of(raw),
{
    let raw = random_bytes();
    let token = token_from(raw);
    assert(raw matches Some(raw) ==> raw@.len() == TOKEN_SIZE && token->0@ == hex_of(raw@));
    token
}

/// What follows an attempt to claim an address for somebody who joins.
#[derive(Debug)]
pub enum JoinStep {
    /// The address at this index is theirs.
    Claimed(u32),
    /// Somebody took it in between: step past it and try from here.
    From(u32),
    /// There is nothing past it.
    Refused(Refusal),
}

/// What follows an attempt to claim the address that was found at `actual`.
///
/// A requested index and the diversifier that actually works are not the same
/// number, and several requests can land on one address. So the index it
/// really came out at is what gets claimed.
pub fn after_claim(actual: u32, taken: Result<(), String>) -> (step: JoinStep)
    ensures
        match taken {
            Ok(()) => step == JoinStep::Claimed(actual),
            Err(why) => if actual < u32::MAX {
                step == JoinStep::From((actual + 1) as u32)
            } else {
                step == JoinStep::Refused(Refusal { status: INTERNAL_SERVER_ERROR, message: why })
            },
        },
{
    match taken {
        Ok(()) => JoinStep::Claimed(actual),
        Err(why) => if actual < u32::MAX {
            JoinStep::From(actual + 1)
        } else {
            JoinStep::Refused(Refusal { status: INTERNAL_SERVER_ERROR, message: why })
        },
    }
}

/// What somebody who joined is told.
#[derive(Debug)]
pub struct Joined {
    pub index: u32,
    pub address: String,
    pub token: String,
    pub network: &'static str,
    pub unit: &'static str,
    pub note: &'static str,
}

/// What somebody who joined is told.
pub fn joined(network: Network, index: u32, address: String, token: String) -> (joined: Joined)
    ensures
        joined.index == index,
        joined.address == address,
        joined.token == token,
        joined.network@ == called(network),
        joined.unit@ == coin(network),
        joined.note@ == "keep this token; it is the only way back to this balance"@,
{
    Joined {
        index,
        address,
        token,
        network: name_of(network),
        unit: unit_of(network),
        note: "keep this token; it is the only way back to this balance",
    }
}

/// Where a depositor stands. The network is said on every answer, because an
/// address alone does not say it loudly enough: a page that reads "send ZEC
/// here" beside a testnet address is an instruction to destroy money.
#[derive(Debug)]
pub struct Standing {
    pub index: u32,
    pub address: String,
    pub available: i64,
    pub network: &'static str,
    /// What the figures are denominated in.
    pub unit: &'static str,
}

/// A refusal by the book is a bad request.
fn refused(error: LedgerError) -> (refusal: Refusal)
    ensures
        refusal.status == BAD_REQUEST,
        refusal.message@ == refusal_text(error@),
{
    bad(error.message())
}

/// Where a depositor stands.
pub fn standing(ledger: &Ledger, network: Network, index: u32, address: String) -> (standing:
    Result<Standing, Refusal>)
    requires
        ledger.wf(),
        ledger@.adds_up(index),
    ensures
        match standing {
            Ok(standing) => {
                &&& ledger@.sums_fit(index)
                &&& standing.index == index
                &&& standing.address == address
                &&& standing.available == ledger@.balance(index)
                &&& standing.network@ == called(network)
                &&& standing.unit@ == coin(network)
            },
            Err(refusal) => !ledger@.sums_fit(index) && refusal.status == BAD_REQUEST
                && refusal.message@ == refusal_text(RefusedView::SumTooLarge),
        },
{
    match ledger.available(index) {
        Ok(available) => Ok(
            Standing {
                index,
                address,
                available,
                network: name_of(network),
                unit: unit_of(network),
            },
        ),
        Err(error) => Err(refused(error)),
    }
}

/// A position that somebody asks for.
#[derive(Debug)]
pub struct Stake {
    pub settles_on: u32,
    pub outcome: String,
    pub zatoshi: u64,
}

/// What a position makes of a book: the round is opened, whatever comes of the
/// stake, and the stake is committed to it or refused.
pub open spec fn after_bet(book: Book, index: u32, stake: Stake, at: i64) -> Result<
    Book,
    RefusedView,
> {
    let open = book.after_open_round(stake.settles_on);
    open.after_place(open.round_on(stake.settles_on).id, index, stake.outcome@, stake.zatoshi, at)
}

/// Commits a stake to the round that a block decides, or refuses.
pub fn bet(ledger: &mut Ledger, index: u32, stake: &Stake, at: i64) -> (result: Result<(), Refusal>)
    requires
        old(ledger).wf(),
        old(ledger)@.has_round_on(stake.settles_on) || old(ledger)@.next_round_id() <= i64::MAX,
        ({
            let open = old(ledger)@.after_open_round(stake.settles_on);
            open.unsettled(open.round_on(stake.settles_on).id) ==> open.adds_up(index)
        }),
    ensures
        final(ledger).wf(),
        match after_bet(old(ledger)@, index, *stake, at) {
            Ok(book) => result is Ok && final(ledger)@ == book,
            Err(why) => result matches Err(refusal) && refusal.status == BAD_REQUEST
                && refusal.message@ == refusal_text(why) && final(ledger)@
                == old(ledger)@.after_open_round(stake.settles_on),
        },
{
    let round = ledger.open_round(stake.settles_on);
    match ledger.place(round, index, stake.outcome.as_str(), stake.zatoshi, at) {
        Ok(()) => Ok(()),
        Err(error) => Err(refused(error)),
    }
}

/// A withdrawal that somebody asks for.
#[derive(Debug)]
pub struct Leaving {
    pub zatoshi: u64,
    pub to: String,
}

/// Commits a balance to leaving, or refuses.
pub fn withdraw(ledger: &mut Ledger, index: u32, leaving: &Leaving, at: i64) -> (result: Result<
    (),
    Refusal,
>)
    requires
        old(ledger).wf(),
        old(ledger)@.adds_up(index),
        old(ledger)@.next_withdrawal_id() <= i64::MAX,
    ensures
        final(ledger).wf(),
        match old(ledger)@.after_request(index, leaving.zatoshi, leaving.to@, at) {
            Ok(book) => result is Ok && final(ledger)@ == book,
            Err(why) => result matches Err(refusal) && refusal.status == BAD_REQUEST
                && refusal.message@ == refusal_text(why) && final(ledger)@ == old(ledger)@,
        },
{
    match ledger.request_withdrawal(index, leaving.zatoshi, leaving.to.as_str(), at) {
        Ok(_) => Ok(()),
        Err(error) => Err(refused(error)),
    }
}

/// The book after a position was asked for, taken or refused.
pub open spec fn book_after_bet(book: Book, index: u32, stake: Stake, at: i64) -> Book {
    match after_bet(book, index, stake, at) {
        Ok(next) => next,
        Err(_) => book.after_open_round(stake.settles_on),
    }
}

/// The book after a withdrawal was asked for, taken or refused.
pub open spec fn book_after_withdraw(book: Book, index: u32, leaving: Leaving, at: i64) -> Book {
    match book.after_request(index, leaving.zatoshi, leaving.to@, at) {
        Ok(next) => next,
        Err(_) => book,
    }
}

/// Whatever is asked for here, the book stays sound: it keeps its rules,
/// nobody is left owing the house, and no money is created or lost.
pub proof fn a_request_keeps_the_book_sound(
    book: Book,
    index: u32,
    stake: Stake,
    leaving: Leaving,
    at: i64,
)
    requires
        sound(book),
        book.has_round_on(stake.settles_on) || book.next_round_id() <= i64::MAX,
        book.next_withdrawal_id() <= i64::MAX,
    ensures
        sound(book_after_bet(book, index, stake, at)),
        sound(book_after_withdraw(book, index, leaving, at)),
{
    let opening = Step::OpenRound { settles_on: stake.settles_on };
    let open = after(book, opening);
    every_operation_keeps_the_book_sound(book, opening);
    let placing = Step::Place {
        round_id: open.round_on(stake.settles_on).id,
        address_index: index,
        outcome: stake.outcome@,
        zatoshi: stake.zatoshi,
        at,
    };
    every_operation_keeps_the_book_sound(open, placing);
    let asking = Step::Request {
        address_index: index,
        zatoshi: leaving.zatoshi,
        destination: leaving.to@,
        at,
    };
    every_operation_keeps_the_book_sound(book, asking);
}

/// A token moves the balance it speaks for and no other, and never upwards.
pub proof fn a_request_moves_its_own_balance_alone(
    book: Book,
    index: u32,
    stake: Stake,
    leaving: Leaving,
    at: i64,
    other: u32,
)
    requires
        book.wf(),
        book.has_round_on(stake.settles_on) || book.next_round_id() <= i64::MAX,
        book.next_withdrawal_id() <= i64::MAX,
    ensures
        other != index ==> book_after_bet(book, index, stake, at).balance(other) == book.balance(
            other,
        ),
        other != index ==> book_after_withdraw(book, index, leaving, at).balance(other)
            == book.balance(other),
        book_after_bet(book, index, stake, at).balance(index) <= book.balance(index),
        book_after_withdraw(book, index, leaving, at).balance(index) <= book.balance(index),
{
    let open = book.after_open_round(stake.settles_on);
    every_operation_keeps_the_rules(book, Step::OpenRound { settles_on: stake.settles_on });
    a_stake_is_committed_at_once(
        open,
        open.round_on(stake.settles_on).id,
        index,
        stake.outcome@,
        stake.zatoshi,
        at,
        other,
        stake.outcome@,
        stake.zatoshi,
        at,
    );
    a_withdrawal_is_debited_when_it_is_asked_for(
        book,
        index,
        leaving.zatoshi,
        leaving.to@,
        at,
        other,
        leaving.to@,
        at,
    );
}

/// Whatever stands behind "Bearer " and one space is the token, all of it; a header
/// that begins otherwise, and none, give an empty one.
pub proof fn the_token_stands_behind_its_scheme(token: Seq<char>, header: Seq<char>, i: int)
    ensures
        token_in(Some(seq!['B', 'e', 'a', 'r', 'e', 'r', ' '] + token)) == token,
        header.len() < 7 ==> token_in(Some(header)).len() == 0,
        0 <= i < 7 && header.len() >= 7 && header[i] != seq!['B', 'e', 'a', 'r', 'e', 'r', ' '][i]
            ==> token_in(Some(header)).len() == 0,
        token_in(None).len() == 0,
{
    reveal_strlit("Bearer ");
    let scheme = seq!['B', 'e', 'a', 'r', 'e', 'r', ' '];
    assert("Bearer "@ =~= scheme);
    let whole = scheme + token;
    assert(whole.subrange(0, 7) =~= scheme);
    assert(whole.skip(7) =~= token);
    if 0 <= i < 7 && header.len() >= 7 && header[i] != scheme[i] {
        assert(header.subrange(0, 7)[i] == header[i]);
    }
}

/// A position is taken in the round of its block, which is opened where there is
/// none yet: where the sums fit, the stake is more than nothing and no more than
/// the balance, and the address has no bet in that round, exactly that bet is
/// written, and a new round only where the block had none.
pub proof fn a_position_is_taken_in_the_round_of_its_block(
    book: Book,
    k: int,
    index: u32,
    stake: Stake,
    at: i64,
)
    requires
        book.wf(),
        book.sums_fit(index),
        stake.zatoshi <= i64::MAX,
        0 < stake.zatoshi <= book.balance(index),
    ensures
        0 <= k < book.rounds.len() && book.rounds[k].settles_on == stake.settles_on
            && book.rounds[k].outcome is None && (forall|i: int|
            0 <= i < book.bets.len() ==> (#[trigger] book.bets[i]).round_id != book.rounds[k].id
                || book.bets[i].address_index != index) ==> after_bet(book, index, stake, at)
            == Ok::<Book, RefusedView>(
            Book {
                bets: book.bets.push(
                    BetView {
                        round_id: book.rounds[k].id,
                        address_index: index,
                        outcome: stake.outcome@,
                        zatoshi: stake.zatoshi as i64,
                        placed_at: at,
                    },
                ),
                ..book
            },
        ),
        ({
            let number = if book.rounds.len() == 0 {
                1
            } else {
                book.rounds[book.rounds.len() - 1].id + 1
            };
            number <= i64::MAX && (forall|i: int|
                0 <= i < book.rounds.len() ==> (#[trigger] book.rounds[i]).settles_on
                    != stake.settles_on) && (forall|i: int|
                0 <= i < book.bets.len() ==> (#[trigger] book.bets[i]).round_id != number
                    || book.bets[i].address_index != index) ==> after_bet(book, index, stake, at)
                == Ok::<Book, RefusedView>(
                Book {
                    rounds: book.rounds.push(
                        RoundView {
                            id: number as i64,
                            settles_on: stake.settles_on,
                            outcome: None,
                            settled_at: None,
                        },
                    ),
                    bets: book.bets.push(
                        BetView {
                            round_id: number as i64,
                            address_index: index,
                            outcome: stake.outcome@,
                            zatoshi: stake.zatoshi as i64,
                            placed_at: at,
                        },
                    ),
                    ..book
                },
            )
        }),
{
    let open = book.after_open_round(stake.settles_on);
    a_block_without_a_round_gets_one(book, stake.settles_on, k);
    if 0 <= k < book.rounds.len() && book.rounds[k].settles_on == stake.settles_on {
        a_round_is_settled_where_its_row_says_so(book, book.rounds[k].id, k);
    } else if book.next_round_id() <= i64::MAX && !book.has_round_on(stake.settles_on) {
        open_round_keeps_rules(book, stake.settles_on);
        let last = book.rounds.len() as int;
        a_block_without_a_round_gets_one(open, stake.settles_on, last);
        a_round_is_settled_where_its_row_says_so(open, open.rounds[last].id, last);
    }
}

/// A position is opened for, taken or refused: the round stays open either way. A
/// withdrawal that is refused leaves the book as it is.
pub proof fn a_refused_request_leaves_its_round_open(
    book: Book,
    index: u32,
    stake: Stake,
    leaving: Leaving,
    at: i64,
)
    ensures
        after_bet(book, index, stake, at) is Err ==> book_after_bet(book, index, stake, at)
            == book.after_open_round(stake.settles_on),
        after_bet(book, index, stake, at) matches Ok(next) ==> book_after_bet(
            book,
            index,
            stake,
            at,
        ) == next,
        book.after_request(index, leaving.zatoshi, leaving.to@, at) is Err ==> book_after_withdraw(
            book,
            index,
            leaving,
            at,
        ) == book,
        book.after_request(index, leaving.zatoshi, leaving.to@, at) matches Ok(next)
            ==> book_after_withdraw(book, index, leaving, at) == next,
{
}

/// What a refusal is answered with, and how long a token is.
pub proof fn the_numbers_of_an_answer()
    ensures
        BAD_REQUEST == 400,
        UNAUTHORIZED == 401,
        INTERNAL_SERVER_ERROR == 500,
        TOKEN_SIZE == 32,
{
}

/// A position is a stake in the round of its block, and is taken or refused as one.
pub proof fn a_position_is_a_stake_in_the_round_of_its_block(
    book: Book,
    k: int,
    index: u32,
    stake: Stake,
    at: i64,
)
    requires
        book.wf(),
        book.has_round_on(stake.settles_on) || book.next_round_id() <= i64::MAX,
    ensures
        ({
            let open = book.after_open_round(stake.settles_on);
            0 <= k < open.rounds.len() && open.rounds[k].settles_on == stake.settles_on
                ==> after_bet(book, index, stake, at) == open.after_place(
                open.rounds[k].id,
                index,
                stake.outcome@,
                stake.zatoshi,
                at,
            )
        }),
{
    let open = book.after_open_round(stake.settles_on);
    if !book.has_round_on(stake.settles_on) {
        open_round_keeps_rules(book, stake.settles_on);
    }
    a_block_without_a_round_gets_one(open, stake.settles_on, k);
}

}
