//! Browsing the lines entered before.
//!
//! A cursor runs over the history: position `i` below the history's length
//! shows entry `i`; the position equal to the length is the live line, which
//! is shown empty.

use vstd::prelude::*;
use crate::text::texts;

verus! {

/// Which way to move through the history.
#[derive(Clone, Copy, Debug, PartialEq, Eq, Structural)]
pub enum Direction {
    /// Towards older entries.
    Up,
    /// Towards newer entries and the live line.
    Down,
}

/// Whether a move from `cursor` in `direction` goes anywhere: not up from
/// the oldest entry, not down from the live line or beyond it.
pub open spec fn can_move(direction: Direction, len: nat, cursor: nat) -> bool {
    match direction {
        Direction::Up => cursor > 0,
        Direction::Down => cursor < len,
    }
}

/// The cursor after a move: one step in `direction` where that goes
/// anywhere, otherwise unchanged.
pub open spec fn moved_cursor(direction: Direction, len: nat, cursor: nat) -> nat {
    if !can_move(direction, len, cursor) {
        cursor
    } else if direction == Direction::Up {
        (cursor - 1) as nat
    } else {
        cursor + 1
    }
}

/// What the edit line shows at `cursor`: the entry there, or nothing on the
/// live line.
pub open spec fn shown(history: Seq<Seq<char>>, cursor: nat) -> Seq<char> {
    if cursor < history.len() {
        history[cursor as int]
    } else {
        seq![]
    }
}

/// Moves the history cursor one step and rewrites the edit buffer.
///
/// Returns whether the cursor moved; only then has the buffer been rewritten
/// and is the visible line to be drawn again. At either end the call changes
/// nothing.
pub fn move_history(
    direction: Direction,
    history: &Vec<String>,
    input_buffer: &mut String,
    history_index: &mut usize,
) -> (moved: bool)
    ensures
        moved == can_move(direction, history@.len(), *old(history_index) as nat),
        *final(history_index) == moved_cursor(
            direction,
            history@.len(),
            *old(history_index) as nat,
        ),
        moved ==> final(input_buffer)@ == shown(texts(history@), *final(history_index) as nat),
        !moved ==> final(input_buffer)@ == old(input_buffer)@,
{
    match direction {
        Direction::Up => {
            if *history_index > 0 {
                *history_index -= 1;
            } else {
                return false;
            }
        },
        Direction::Down => {
            if *history_index < history.len() {
                *history_index += 1;
            } else {
                return false;
            }
        },
    }
    if *history_index < history.len() {
        assert(texts(history@)[*history_index as int] == history@[*history_index as int]@);
        *input_buffer = history[*history_index].clone();
    } else {
        *input_buffer = String::new();
    }
    true
}

} // verus!
