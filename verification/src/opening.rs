//! Whether stored rows keep the rules that every book keeps.

use vstd::prelude::*;

use crate::rows::Tables;

verus! {

fn notes_once(tables: &Tables) -> (kept: bool)
    ensures
        kept == tables@.notes_once(),
{
    let ghost rows = tables@.deposits;
    let mut j: usize = 0;
    while j < tables.deposits.len()
        invariant
            j <= rows.len(),
            rows == tables@.deposits,
            forall|a: int, b: int|
                0 <= a < b < j ==> !((#[trigger] rows[a]).txid == (#[trigger] rows[b]).txid
                    && rows[a].output == rows[b].output),
            forall|a: int| 0 <= a < j ==> (#[trigger] rows[a]).zatoshi <= i64::MAX,
        decreases rows.len() - j,
    {
        assert(rows[j as int] == tables.deposits@[j as int]@);
        if tables.deposits[j].zatoshi > i64::MAX as u64 {
            return false;
        }
        let mut i: usize = 0;
        while i < j
            invariant
                i <= j < rows.len(),
                rows == tables@.deposits,
                forall|a: int|
                    0 <= a < i ==> !((#[trigger] rows[a]).txid == rows[j as int].txid
                        && rows[a].output == rows[j as int].output),
            decreases j - i,
        {
            assert(rows[i as int] == tables.deposits@[i as int]@);
            assert(rows[j as int] == tables.deposits@[j as int]@);
            if tables.deposits[i].output == tables.deposits[j].output && tables.deposits[i].txid
                == tables.deposits[j].txid {
                return false;
            }
            i += 1;
        }
        j += 1;
    }
    true
}

fn depositors_once(tables: &Tables) -> (kept: bool)
    ensures
        kept == tables@.depositors_once(),
{
    let ghost rows = tables@.depositors;
    let mut j: usize = 0;
    while j < tables.depositors.len()
        invariant
            j <= rows.len(),
            rows == tables@.depositors,
            forall|a: int, b: int|
                0 <= a < b < j ==> (#[trigger] rows[a]).address_index != (
                #[trigger] rows[b]).address_index,
        decreases rows.len() - j,
    {
        let mut i: usize = 0;
        while i < j
            invariant
                i <= j < rows.len(),
                rows == tables@.depositors,
                forall|a: int|
                    0 <= a < i ==> (#[trigger] rows[a]).address_index
                        != rows[j as int].address_index,
            decreases j - i,
        {
            assert(rows[i as int] == tables.depositors@[i as int]@);
            assert(rows[j as int] == tables.depositors@[j as int]@);
            if tables.depositors[i].address_index == tables.depositors[j].address_index {
                return false;
            }
            i += 1;
        }
        j += 1;
    }
    true
}

fn rounds_once(tables: &Tables) -> (kept: bool)
    ensures
        kept == tables@.rounds_once(),
{
    let ghost rows = tables@.rounds;
    let mut j: usize = 0;
    while j < tables.rounds.len()
        invariant
            j <= rows.len(),
            rows == tables@.rounds,
            forall|a: int, b: int|
                0 <= a < b < j ==> (#[trigger] rows[a]).id < (#[trigger] rows[b]).id,
            forall|a: int, b: int|
                0 <= a < b < j ==> (#[trigger] rows[a]).settles_on != (
                #[trigger] rows[b]).settles_on,
        decreases rows.len() - j,
    {
        let mut i: usize = 0;
        while i < j
            invariant
                i <= j < rows.len(),
                rows == tables@.rounds,
                forall|a: int|
                    0 <= a < i ==> (#[trigger] rows[a]).id < rows[j as int].id
                        && rows[a].settles_on != rows[j as int].settles_on,
            decreases j - i,
        {
            assert(rows[i as int] == tables.rounds@[i as int]@);
            assert(rows[j as int] == tables.rounds@[j as int]@);
            if tables.rounds[i].id >= tables.rounds[j].id || tables.rounds[i].settles_on
                == tables.rounds[j].settles_on {
                return false;
            }
            i += 1;
        }
        j += 1;
    }
    true
}

fn positions_once(tables: &Tables) -> (kept: bool)
    ensures
        kept == tables@.positions_once(),
{
    let ghost rows = tables@.bets;
    let mut j: usize = 0;
    while j < tables.bets.len()
        invariant
            j <= rows.len(),
            rows == tables@.bets,
            forall|a: int, b: int|
                0 <= a < b < j ==> !((#[trigger] rows[a]).round_id == (
                #[trigger] rows[b]).round_id && rows[a].address_index == rows[b].address_index),
            forall|a: int| 0 <= a < j ==> (#[trigger] rows[a]).zatoshi > 0,
        decreases rows.len() - j,
    {
        assert(rows[j as int] == tables.bets@[j as int]@);
        if tables.bets[j].zatoshi <= 0 {
            return false;
        }
        let mut i: usize = 0;
        while i < j
            invariant
                i <= j < rows.len(),
                rows == tables@.bets,
                forall|a: int|
                    0 <= a < i ==> !((#[trigger] rows[a]).round_id == rows[j as int].round_id
                        && rows[a].address_index == rows[j as int].address_index),
            decreases j - i,
        {
            assert(rows[i as int] == tables.bets@[i as int]@);
            assert(rows[j as int] == tables.bets@[j as int]@);
            if tables.bets[i].round_id == tables.bets[j].round_id && tables.bets[i].address_index
                == tables.bets[j].address_index {
                return false;
            }
            i += 1;
        }
        j += 1;
    }
    true
}

fn payouts_once(tables: &Tables) -> (kept: bool)
    ensures
        kept == tables@.payouts_once(),
{
    let ghost rows = tables@.payouts;
    let mut j: usize = 0;
    while j < tables.payouts.len()
        invariant
            j <= rows.len(),
            rows == tables@.payouts,
            forall|a: int, b: int|
                0 <= a < b < j ==> !((#[trigger] rows[a]).round_id == (
                #[trigger] rows[b]).round_id && rows[a].address_index == rows[b].address_index),
        decreases rows.len() - j,
    {
        let mut i: usize = 0;
        while i < j
            invariant
                i <= j < rows.len(),
                rows == tables@.payouts,
                forall|a: int|
                    0 <= a < i ==> !((#[trigger] rows[a]).round_id == rows[j as int].round_id
                        && rows[a].address_index == rows[j as int].address_index),
            decreases j - i,
        {
            if tables.payouts[i].round_id == tables.payouts[j].round_id
                && tables.payouts[i].address_index == tables.payouts[j].address_index {
                assert(rows[i as int].round_id == rows[j as int].round_id
                    && rows[i as int].address_index == rows[j as int].address_index);
                return false;
            }
            i += 1;
        }
        j += 1;
    }
    true
}

fn withdrawals_once(tables: &Tables) -> (kept: bool)
    ensures
        kept == tables@.withdrawals_once(),
{
    let ghost rows = tables@.withdrawals;
    let mut j: usize = 0;
    while j < tables.withdrawals.len()
        invariant
            j <= rows.len(),
            rows == tables@.withdrawals,
            forall|a: int, b: int|
                0 <= a < b < j ==> (#[trigger] rows[a]).id < (#[trigger] rows[b]).id,
            forall|a: int| 0 <= a < j ==> (#[trigger] rows[a]).zatoshi > 0,
        decreases rows.len() - j,
    {
        assert(rows[j as int] == tables.withdrawals@[j as int]@);
        if tables.withdrawals[j].zatoshi <= 0 {
            return false;
        }
        if j > 0 {
            assert(rows[j - 1] == tables.withdrawals@[j - 1]@);
            if tables.withdrawals[j - 1].id >= tables.withdrawals[j].id {
                return false;
            }
        }
        j += 1;
    }
    true
}

fn rakes_once(tables: &Tables) -> (kept: bool)
    ensures
        kept == tables@.rakes_once(),
{
    let ghost rows = tables@.rakes;
    let mut j: usize = 0;
    while j < tables.rakes.len()
        invariant
            j <= rows.len(),
            rows == tables@.rakes,
            forall|a: int, b: int|
                0 <= a < b < j ==> (#[trigger] rows[a]).round_id != (#[trigger] rows[b]).round_id,
        decreases rows.len() - j,
    {
        let mut i: usize = 0;
        while i < j
            invariant
                i <= j < rows.len(),
                rows == tables@.rakes,
                forall|a: int|
                    0 <= a < i ==> (#[trigger] rows[a]).round_id != rows[j as int].round_id,
            decreases j - i,
        {
            if tables.rakes[i].round_id == tables.rakes[j].round_id {
                assert(rows[i as int].round_id == rows[j as int].round_id);
                return false;
            }
            i += 1;
        }
        j += 1;
    }
    true
}

/// Whether the rows make a book.
pub fn keeps_rules(tables: &Tables) -> (kept: bool)
    ensures
        kept == tables@.wf(),
{
    notes_once(tables) && depositors_once(tables) && rounds_once(tables) && positions_once(tables)
        && payouts_once(tables) && withdrawals_once(tables) && rakes_once(tables)
}

}
