//! Who took a block, read from its coinbase.
//!
//! This is the reading that decides who is paid.

use vstd::prelude::*;

use crate::text::{
    chars_of, decimal, decimal_i64, decimal_u64, find, holds, same_but_for_case, small, small_chars,
    smalls, stands_at,
};

verus! {

/// The label of a block whose coinbase carries no recognisable name. The
/// honest label is that nobody signed it, which anyone can check; naming a
/// suspect would be a guess presented as a fact.
pub const UNSIGNED: &'static str = "unsigned";

/// One block as the explorer tells of it.
#[derive(Debug)]
pub struct Raw {
    pub id: u32,
    pub coinbase_data_hex: Option<String>,
    pub guessed_miner: Option<String>,
}

/// The names that are looked for, longest first so that a shorter name cannot
/// eat a longer one.
pub open spec fn known_names() -> Seq<Seq<char>> {
    seq![
        "zecminingpool"@,
        "milledgeville"@,
        "HeroMiners"@,
        "flexpool"@,
        "NiceHash"@,
        "zergpool"@,
        "2Miners"@,
        "Foundry"@,
        "Kryptex"@,
        "AntPool"@,
        "sluicey"@,
        "KuPool"@,
        "F2Pool"@,
        "ViaBTC"@,
        "poolin"@,
        "Luxor"@,
    ]
}

fn known() -> (names: Vec<&'static str>)
    ensures
        names.len() == known_names().len(),
        forall|i: int| 0 <= i < names.len() ==> (#[trigger] names[i])@ == known_names()[i],
{
    vec![
        "zecminingpool",
        "milledgeville",
        "HeroMiners",
        "flexpool",
        "NiceHash",
        "zergpool",
        "2Miners",
        "Foundry",
        "Kryptex",
        "AntPool",
        "sluicey",
        "KuPool",
        "F2Pool",
        "ViaBTC",
        "poolin",
        "Luxor",
    ]
}

/// A guess that is one: neither empty nor "unknown", in whatever case.
pub open spec fn is_guess(guess: Seq<char>) -> bool {
    guess.len() > 0 && smalls(guess) != smalls("unknown"@)
}

/// What a hexadecimal digit counts for, in either case.
pub open spec fn hex_value(c: char) -> Option<int> {
    if '0' <= c <= '9' {
        Some(c as int - 48)
    } else if 'a' <= c <= 'f' {
        Some(c as int - 87)
    } else if 'A' <= c <= 'F' {
        Some(c as int - 55)
    } else {
        None
    }
}

/// What two digits of a coinbase read as: the character, where they spell a
/// printable byte, and a space everywhere else.
pub open spec fn printable(high: char, low: char) -> char {
    match (hex_value(high), hex_value(low)) {
        (Some(h), Some(l)) if 32 <= 16 * h + l < 127 => (16 * h + l) as char,
        _ => ' ',
    }
}

/// What a coinbase reads as, two digits at a time. A digit left over at the
/// end reads as a space.
pub open spec fn coinbase_text(hex: Seq<char>) -> Seq<char> {
    Seq::new(
        ((hex.len() + 1) / 2) as nat,
        |i: int|
            if 2 * i + 1 < hex.len() {
                printable(hex[2 * i], hex[2 * i + 1])
            } else {
                ' '
            },
    )
}

/// A known name stands in the text, whatever the case of either.
pub open spec fn names(text: Seq<char>, i: int) -> bool {
    holds(smalls(text), smalls(known_names()[i]))
}

/// `i` is the first known name that stands in the text.
pub open spec fn first_name(text: Seq<char>, i: int) -> bool {
    &&& 0 <= i < known_names().len()
    &&& names(text, i)
    &&& forall|j: int| 0 <= j < i ==> !#[trigger] names(text, j)
}

/// What the coinbase says of the miner.
pub open spec fn signed_by(text: Seq<char>) -> Seq<char> {
    if exists|i: int| first_name(text, i) {
        known_names()[choose|i: int| first_name(text, i)]
    } else {
        UNSIGNED@
    }
}

pub open spec fn miner(coinbase: Option<Seq<char>>, guess: Option<Seq<char>>) -> Seq<char> {
    match guess {
        Some(g) if is_guess(g) => g,
        _ => match coinbase {
            Some(hex) if hex.len() > 0 => signed_by(coinbase_text(hex)),
            _ => UNSIGNED@,
        },
    }
}

fn hex_digit(c: char) -> (value: Option<u8>)
    ensures
        match value {
            Some(v) => hex_value(c) == Some(v as int) && v < 16,
            None => hex_value(c) is None,
        },
{
    if '0' <= c && c <= '9' {
        Some((c as u8) - 48)
    } else if 'a' <= c && c <= 'f' {
        Some((c as u8) - 87)
    } else if 'A' <= c && c <= 'F' {
        Some((c as u8) - 55)
    } else {
        None
    }
}

/// What a coinbase reads as.
///
/// Printable bytes only, everything else a space, so that a name cannot be
/// spelled across binary padding that happens to sit between its letters.
fn read_coinbase(hex: &str) -> (text: String)
    ensures
        text@ == coinbase_text(hex@),
{
    let digits = chars_of(hex);
    let n = digits.len();
    let mut text = String::new();
    let mut i: usize = 0;
    while i < n
        invariant
            n == digits.len(),
            digits@ == hex@,
            i <= n,
            i % 2 == 0 || i == n,
            text@ == coinbase_text(hex@).take((i + 1) / 2),
        decreases n - i,
    {
        let ghost k = i as int / 2;
        if n - i >= 2 {
            let c = match (hex_digit(digits[i]), hex_digit(digits[i + 1])) {
                (Some(high), Some(low)) => {
                    let b: u8 = 16 * high + low;
                    if 32 <= b && b < 127 {
                        b as char
                    } else {
                        ' '
                    }
                },
                _ => ' ',
            };
            text.push(c);
            assert(c == coinbase_text(hex@)[k]);
            assert(coinbase_text(hex@).take(k + 1) =~= coinbase_text(hex@).take(k).push(c));
            i += 2;
        } else {
            text.push(' ');
            assert(coinbase_text(hex@).take(k + 1) =~= coinbase_text(hex@).take(k).push(' '));
            i += 1;
        }
    }
    assert(coinbase_text(hex@).take((i + 1) / 2) =~= coinbase_text(hex@));
    text
}

/// The first known name in a text, or the label of a block nobody signed.
fn name_in(text: &str) -> (name: String)
    ensures
        name@ == signed_by(text@),
{
    let small = small_chars(text);
    let names_known = known();
    let mut i: usize = 0;
    while i < names_known.len()
        invariant
            small@ == smalls(text@),
            names_known.len() == known_names().len(),
            forall|k: int|
                0 <= k < names_known.len() ==> (#[trigger] names_known[k])@ == known_names()[k],
            i <= names_known.len(),
            forall|k: int| 0 <= k < i ==> !#[trigger] names(text@, k),
        decreases names_known.len() - i,
    {
        let name = names_known[i];
        if find(&small, &small_chars(name)) {
            assert(names(text@, i as int));
            assert(first_name(text@, i as int));
            assert forall|k: int| first_name(text@, k) implies k == i by {
                if k < i {
                    assert(!names(text@, k));
                }
                if i < k {
                    assert(!names(text@, i as int));
                }
            }
            return name.to_owned();
        }
        assert(!names(text@, i as int));
        i += 1;
    }
    assert forall|k: int| !first_name(text@, k) by {
        if first_name(text@, k) {
            assert(names(text@, k));
        }
    }
    UNSIGNED.to_owned()
}

/// Who took a block: the explorer's own guess where it has one, and otherwise
/// the name in the coinbase.
pub fn miner_of(row: &Raw) -> (name: String)
    ensures
        name@ == miner(
            crate::rows::text_of(row.coinbase_data_hex),
            crate::rows::text_of(row.guessed_miner),
        ),
{
    if let Some(guess) = &row.guessed_miner {
        if !guess.as_str().is_empty() && !same_but_for_case(guess.as_str(), "unknown") {
            return guess.clone();
        }
    }
    match &row.coinbase_data_hex {
        None => UNSIGNED.to_owned(),
        Some(hex) => {
            if hex.as_str().is_empty() {
                return UNSIGNED.to_owned();
            }
            name_in(read_coinbase(hex.as_str()).as_str())
        },
    }
}

/// Why the explorer's answer is not taken.
#[derive(Debug)]
pub enum ExplorerError {
    /// It answered with something other than success.
    Status { status: i32, height: u32 },
    /// What it answered is not a list of blocks.
    NotABlockList,
    /// It was asked about one block and answered about another.
    WrongBlock { asked: u32, answered: u32 },
}

/// What the refusal of an answer says.
pub open spec fn explorer_text(error: ExplorerError) -> Seq<char> {
    match error {
        ExplorerError::Status { status, height } => "the explorer answered "@ + decimal(
            status as int,
        ) + " for block "@ + decimal(height as int) + "; this says nothing about the block"@,
        ExplorerError::NotABlockList => "the explorer's answer was not a block list"@,
        ExplorerError::WrongBlock { asked, answered } => "asked the explorer for block "@ + decimal(
            asked as int,
        ) + " and it answered about "@ + decimal(answered as int),
    }
}

impl ExplorerError {
    /// What the refusal says.
    pub fn message(&self) -> (text: String)
        ensures
            text@ == explorer_text(*self),
    {
        match self {
            ExplorerError::Status { status, height } => {
                "the explorer answered ".to_owned().concat(
                    decimal_i64(*status as i64).as_str(),
                ).concat(" for block ").concat(decimal_u64(*height as u64).as_str()).concat(
                    "; this says nothing about the block",
                )
            },
            ExplorerError::NotABlockList => "the explorer's answer was not a block list".to_owned(),
            ExplorerError::WrongBlock { asked, answered } => {
                "asked the explorer for block ".to_owned().concat(
                    decimal_u64(*asked as u64).as_str(),
                ).concat(" and it answered about ").concat(decimal_u64(*answered as u64).as_str())
            },
        }
    }
}

/// Where one block is asked about.
pub open spec fn url_of(source: Seq<char>, height: u32) -> Seq<char> {
    source + "?q=id("@ + decimal(height as int) + ")&fields=id,coinbase_data_hex,guessed_miner"@
}

/// Where one block is asked about.
pub fn block_url(source: &str, height: u32) -> (url: String)
    ensures
        url@ == url_of(source@, height),
{
    source.to_owned().concat("?q=id(").concat(decimal_u64(height as u64).as_str()).concat(
        ")&fields=id,coinbase_data_hex,guessed_miner",
    )
}

/// One block from what the explorer answered, or nothing if it is not mined
/// yet. `rows` is the list of blocks in the answer, where it holds one.
///
/// Settling on another block than the one asked about would pay out against
/// the wrong one, so it is refused rather than trusted.
pub fn at_height(height: u32, status: i32, rows: Option<Vec<Raw>>) -> (result: Result<
    Option<Raw>,
    ExplorerError,
>)
    ensures
        match result {
            Err(ExplorerError::Status { status: s, height: h }) => status != 200 && s == status && h
                == height,
            Err(ExplorerError::NotABlockList) => status == 200 && rows is None,
            Err(ExplorerError::WrongBlock { asked, answered }) => status == 200 && rows is Some
                && rows->0.len() > 0 && answered == rows->0[0].id && asked == height && answered
                != asked,
            Ok(None) => status == 200 && rows is Some && rows->0.len() == 0,
            Ok(Some(block)) => status == 200 && rows is Some && rows->0.len() > 0 && block
                == rows->0[0] && block.id == height,
        },
{
    if status != 200 {
        return Err(ExplorerError::Status { status, height });
    }
    let mut rows = match rows {
        Some(rows) => rows,
        None => return Err(ExplorerError::NotABlockList),
    };
    if rows.len() == 0 {
        return Ok(None);
    }
    let block = rows.remove(0);
    if block.id != height {
        return Err(ExplorerError::WrongBlock { asked: height, answered: block.id });
    }
    Ok(Some(block))
}

/// The known names are listed longest first, and none holds a space.
proof fn names_in_order()
    ensures
        forall|i: int, j: int|
            0 <= i <= j < known_names().len() ==> #[trigger] known_names()[i].len()
                >= #[trigger] known_names()[j].len(),
        forall|i: int, k: int|
            0 <= i < known_names().len() && 0 <= k < known_names()[i].len()
                ==> #[trigger] known_names()[i][k] != ' ',
{
    reveal_strlit("zecminingpool");
    reveal_strlit("milledgeville");
    reveal_strlit("HeroMiners");
    reveal_strlit("flexpool");
    reveal_strlit("NiceHash");
    reveal_strlit("zergpool");
    reveal_strlit("2Miners");
    reveal_strlit("Foundry");
    reveal_strlit("Kryptex");
    reveal_strlit("AntPool");
    reveal_strlit("sluicey");
    reveal_strlit("KuPool");
    reveal_strlit("F2Pool");
    reveal_strlit("ViaBTC");
    reveal_strlit("poolin");
    reveal_strlit("Luxor");
}

/// Of all the known names that a coinbase holds, the longest is taken.
pub proof fn the_longest_name_is_taken(text: Seq<char>, j: int)
    requires
        0 <= j < known_names().len(),
        names(text, j),
    ensures
        known_names().contains(signed_by(text)),
        holds(smalls(text), smalls(signed_by(text))),
        signed_by(text).len() >= known_names()[j].len(),
{
    names_in_order();
    first_exists(text, j);
    let i = choose|i: int| first_name(text, i);
    assert(names(text, i));
    if j < i {
        assert(!names(text, j));
    }
    assert(known_names()[i].len() >= known_names()[j].len());
}

proof fn first_exists(text: Seq<char>, j: int)
    requires
        0 <= j < known_names().len(),
        names(text, j),
    ensures
        exists|i: int| first_name(text, i),
    decreases j,
{
    if forall|k: int| 0 <= k < j ==> !#[trigger] names(text, k) {
        assert(first_name(text, j));
    } else {
        let k = choose|k: int| 0 <= k < j && #[trigger] names(text, k);
        first_exists(text, k);
    }
}

/// The `i`th byte of a coinbase is printable, and is the letter `c` in one case
/// or the other.
pub open spec fn spells(hex: Seq<char>, i: int, c: char) -> bool {
    let high = hex_value(hex[2 * i]);
    let low = hex_value(hex[2 * i + 1]);
    &&& 0 <= i && 2 * i + 1 < hex.len()
    &&& high is Some && low is Some
    &&& 32 <= 16 * high->0 + low->0 < 127
    &&& small((16 * high->0 + low->0) as char) == small(c)
}

/// A name is not spelled across unprintable padding: where a known name is
/// found in a coinbase, its letters are bytes of it that stand side by side.
pub proof fn a_name_is_not_spelled_across_padding(hex: Seq<char>, j: int) -> (at: int)
    requires
        0 <= j < known_names().len(),
        names(coinbase_text(hex), j),
    ensures
        forall|k: int|
            0 <= k < known_names()[j].len() ==> #[trigger] spells(
                hex,
                at + k,
                known_names()[j][k],
            ),
{
    names_in_order();
    let text = coinbase_text(hex);
    let name = known_names()[j];
    let at = choose|i: int| stands_at(smalls(text), smalls(name), i);
    assert(stands_at(smalls(text), smalls(name), at));
    assert forall|k: int| 0 <= k < name.len() implies #[trigger] spells(hex, at + k, name[k]) by {
        assert(smalls(text).subrange(at, at + smalls(name).len())[k] == smalls(name)[k]);
        assert(small(text[at + k]) == small(name[k]));
        assert(known_names()[j][k] != ' ');
        if text[at + k] == ' ' {
            assert(small(' ') == ' ');
            assert(small(name[k]) != ' ');
        }
    }
    at
}

/// The explorer's guess is taken as it is, whatever it is and whatever the
/// coinbase says, unless it is empty or the seven letters of "unknown" in any
/// case; and then it is as if there were none.
pub proof fn a_guess_is_taken_unless_it_is_unknown(coinbase: Option<Seq<char>>, guess: Seq<char>)
    ensures
        ({
            let unknown = {
                &&& guess.len() == 7
                &&& guess[0] == 'u' || guess[0] == 'U'
                &&& guess[1] == 'n' || guess[1] == 'N'
                &&& guess[2] == 'k' || guess[2] == 'K'
                &&& guess[3] == 'n' || guess[3] == 'N'
                &&& guess[4] == 'o' || guess[4] == 'O'
                &&& guess[5] == 'w' || guess[5] == 'W'
                &&& guess[6] == 'n' || guess[6] == 'N'
            };
            miner(coinbase, Some(guess)) == (if guess.len() == 0 || unknown {
                miner(coinbase, None)
            } else {
                guess
            })
        }),
{
    reveal_strlit("unknown");
    let word = smalls("unknown"@);
    let said = smalls(guess);
    if said == word {
        assert(said.len() == 7);
        assert(said[0] == word[0]);
        assert(said[1] == word[1]);
        assert(said[2] == word[2]);
        assert(said[3] == word[3]);
        assert(said[4] == word[4]);
        assert(said[5] == word[5]);
        assert(said[6] == word[6]);
    } else if guess.len() == 7 {
        assert(!(said =~= word));
    }
}

/// A coinbase is read two hexadecimal digits at a time, in either case: each
/// pair is the character it spells where that is printable, and a space where it
/// is not, where one of the two is no digit, and where the second is missing.
pub proof fn a_coinbase_is_read_two_digits_at_a_time(hex: Seq<char>, i: int, high: int, low: int)
    requires
        0 <= i < (hex.len() + 1) / 2,
        0 <= high < 16,
        0 <= low < 16,
    ensures
        ({
            let text = coinbase_text(hex);
            let small = "0123456789abcdef"@;
            let capital = "0123456789ABCDEF"@;
            &&& text.len() == (hex.len() + 1) / 2
            &&& 2 * i + 1 == hex.len() ==> text[i] == ' '
            &&& 2 * i + 1 < hex.len() && (hex[2 * i] == small[high] || hex[2 * i] == capital[high])
                && (hex[2 * i + 1] == small[low] || hex[2 * i + 1] == capital[low]) ==> text[i] == (
            if 32 <= 16 * high + low <= 126 {
                (16 * high + low) as char
            } else {
                ' '
            })
            &&& 2 * i + 1 < hex.len() && !(small.contains(hex[2 * i]) || capital.contains(
                hex[2 * i],
            )) ==> text[i] == ' '
            &&& 2 * i + 1 < hex.len() && !(small.contains(hex[2 * i + 1]) || capital.contains(
                hex[2 * i + 1],
            )) ==> text[i] == ' '
        }),
{
    reveal_strlit("0123456789abcdef");
    reveal_strlit("0123456789ABCDEF");
    if 2 * i + 1 < hex.len() {
        a_digit_counts_for_its_place(hex[2 * i]);
        a_digit_counts_for_its_place(hex[2 * i + 1]);
    }
}

/// A hexadecimal digit counts for the place where it stands among the sixteen.
pub proof fn a_digit_counts_for_its_place(c: char)
    ensures
        forall|d: int|
            0 <= d < 16 && (c == #[trigger] "0123456789abcdef"@[d] || c
                == "0123456789ABCDEF"@[d]) ==> hex_value(c) == Some(d),
        hex_value(c) is Some ==> "0123456789abcdef"@.contains(c) || "0123456789ABCDEF"@.contains(c),
{
    reveal_strlit("0123456789abcdef");
    reveal_strlit("0123456789ABCDEF");
    if let Some(d) = hex_value(c) {
        assert(c == "0123456789abcdef"@[d] || c == "0123456789ABCDEF"@[d]);
    }
}

/// A coinbase is signed by the first of the sixteen names that stands in what it
/// reads as, letter for letter but for ASCII case. Where none does, where there
/// is no coinbase and where it is empty, nobody signed the block.
pub proof fn the_first_name_that_stands_there_signs(hex: Seq<char>, i: int)
    requires
        0 <= i < 16,
    ensures
        miner(None, None) == "unsigned"@,
        miner(Some(Seq::empty()), None) == "unsigned"@,
        ({
            let listed = seq![
                "zecminingpool"@,
                "milledgeville"@,
                "HeroMiners"@,
                "flexpool"@,
                "NiceHash"@,
                "zergpool"@,
                "2Miners"@,
                "Foundry"@,
                "Kryptex"@,
                "AntPool"@,
                "sluicey"@,
                "KuPool"@,
                "F2Pool"@,
                "ViaBTC"@,
                "poolin"@,
                "Luxor"@,
            ];
            let low = |c: char|
                if 'A' <= c && c <= 'Z' {
                    c as int + 32
                } else {
                    c as int
                };
            let text = coinbase_text(hex);
            let stands = |name: Seq<char>|
                exists|at: int|
                    0 <= at <= text.len() && name.len() <= (#[trigger] text.skip(at)).len() && (
                    forall|k: int|
                        0 <= k < name.len() ==> low(#[trigger] name[k]) == low(text.skip(at)[k]));
            &&& hex.len() > 0 && stands(listed[i]) && (forall|j: int|
                0 <= j < i ==> !stands(#[trigger] listed[j])) ==> miner(Some(hex), None)
                == listed[i]
            &&& (forall|j: int| 0 <= j < 16 ==> !stands(#[trigger] listed[j])) ==> miner(
                Some(hex),
                None,
            ) == "unsigned"@
        }),
{
    let low = |c: char|
        if 'A' <= c && c <= 'Z' {
            c as int + 32
        } else {
            c as int
        };
    let text = coinbase_text(hex);
    let stands = |name: Seq<char>|
        exists|at: int|
            0 <= at <= text.len() && name.len() <= (#[trigger] text.skip(at)).len() && (forall|
                k: int,
            |
                0 <= k < name.len() ==> low(#[trigger] name[k]) == low(text.skip(at)[k]));
    assert forall|j: int| 0 <= j < 16 implies stands(#[trigger] known_names()[j]) == names(
        text,
        j,
    ) by {
        let name = known_names()[j];
        if names(text, j) {
            let at = choose|at: int| stands_at(smalls(text), smalls(name), at);
            assert(stands_at(smalls(text), smalls(name), at));
            assert forall|k: int| 0 <= k < name.len() implies low(#[trigger] name[k]) == low(
                text.skip(at)[k],
            ) by {
                assert(smalls(text).subrange(at, at + smalls(name).len())[k] == smalls(name)[k]);
                assert(small(text[at + k]) == small(name[k]));
                assert(text.skip(at)[k] == text[at + k]);
            }
            assert(name.len() <= text.skip(at).len());
            assert(stands(name));
        }
        if stands(name) {
            let at = choose|at: int|
                0 <= at <= text.len() && name.len() <= (#[trigger] text.skip(at)).len() && (forall|
                    k: int,
                |
                    0 <= k < name.len() ==> low(#[trigger] name[k]) == low(text.skip(at)[k]));
            assert forall|k: int| 0 <= k < name.len() implies smalls(text).subrange(
                at,
                at + smalls(name).len(),
            )[k] == smalls(name)[k] by {
                assert(low(name[k]) == low(text.skip(at)[k]));
                assert(text.skip(at)[k] == text[at + k]);
                assert(small(text[at + k]) == small(name[k]));
            }
            assert(smalls(text).subrange(at, at + smalls(name).len()) =~= smalls(name));
            assert(stands_at(smalls(text), smalls(name), at));
        }
    }
    if stands(known_names()[i]) && forall|j: int|
        0 <= j < i ==> !stands(#[trigger] known_names()[j]) {
        assert(first_name(text, i)) by {
            assert(stands(known_names()[i]) == names(text, i));
            assert forall|j: int| 0 <= j < i implies !#[trigger] names(text, j) by {
                assert(!stands(known_names()[j]));
            }
        }
        assert forall|k: int| first_name(text, k) implies k == i by {
            if k < i {
                assert(!names(text, k));
            }
            if i < k {
                assert(!names(text, i));
            }
        }
    }
    if forall|j: int| 0 <= j < 16 ==> !stands(#[trigger] known_names()[j]) {
        assert forall|k: int| !first_name(text, k) by {
            if first_name(text, k) {
                assert(!stands(known_names()[k]));
            }
        }
    }
}

/// What is asked about a block of a height, and what is said of an answer that
/// is not taken.
pub proof fn what_is_asked_of_the_explorer(
    source: Seq<char>,
    height: u32,
    status: i32,
    answered: u32,
)
    ensures
        url_of(source, height) == source + "?q=id("@ + decimal(height as int)
            + ")&fields=id,coinbase_data_hex,guessed_miner"@,
        explorer_text(ExplorerError::Status { status, height }) == "the explorer answered "@
            + decimal(status as int) + " for block "@ + decimal(height as int)
            + "; this says nothing about the block"@,
        explorer_text(ExplorerError::NotABlockList)
            == "the explorer's answer was not a block list"@,
        explorer_text(ExplorerError::WrongBlock { asked: height, answered })
            == "asked the explorer for block "@ + decimal(height as int)
            + " and it answered about "@ + decimal(answered as int),
{
}

}
