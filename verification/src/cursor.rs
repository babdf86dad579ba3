//! Brush size stepping for the editor cursor.
//!
//! Small sizes follow a fixed progression of pleasant brush widths;
//! beyond it the size grows or shrinks by roughly a fifth per step, and
//! never drops below one cell.

use vstd::prelude::*;

verus! {

/// Largest brush size the stepping functions accept; keeps the growth
/// arithmetic inside a 32-bit size.
pub const CURSOR_SIZE_LIMIT: i32 = 100000000;

/// The brush size one step up from `c`.
pub open spec fn spec_cursor_increase(c: int) -> int {
    if c == 1 {
        2
    } else if c == 2 {
        3
    } else if c == 3 {
        4
    } else if c == 4 {
        5
    } else if c == 5 {
        7
    } else if c == 7 {
        9
    } else if c == 9 {
        13
    } else if c == 13 {
        17
    } else if c == 17 {
        23
    } else if c == 23 {
        31
    } else if c == 31 {
        41
    } else {
        c * 12 / 10 + 1
    }
}

/// The brush size one step down from `c`, never below 1.
pub open spec fn spec_cursor_decrease(c: int) -> int {
    if c == 1 {
        1
    } else if c == 2 {
        1
    } else if c == 3 {
        2
    } else if c == 4 {
        3
    } else if c == 5 {
        4
    } else if c == 7 {
        5
    } else if c == 9 {
        7
    } else if c == 13 {
        9
    } else if c == 17 {
        13
    } else if c == 23 {
        17
    } else if c == 31 {
        23
    } else if c == 41 {
        31
    } else {
        let v = c * 10 / 12 - 1;
        if v > 1 {
            v
        } else {
            1
        }
    }
}

/// Step the brush size up.
pub fn cursor_size_increase(cursor_size: &mut i32)
    requires
        1 <= *old(cursor_size) <= CURSOR_SIZE_LIMIT,
    ensures
        *final(cursor_size) == spec_cursor_increase(*old(cursor_size) as int),
        1 <= *final(cursor_size),
{
    let c = *cursor_size;
    *cursor_size = match c {
        1 => 2,
        2 => 3,
        3 => 4,
        4 => 5,
        5 => 7,
        7 => 9,
        9 => 13,
        13 => 17,
        17 => 23,
        23 => 31,
        31 => 41,
        _ => ((c as u64) * 12 / 10 + 1) as i32,
    };
}

/// Step the brush size down, stopping at 1.
pub fn cursor_size_decrease(cursor_size: &mut i32)
    requires
        1 <= *old(cursor_size) <= CURSOR_SIZE_LIMIT,
    ensures
        *final(cursor_size) == spec_cursor_decrease(*old(cursor_size) as int),
        1 <= *final(cursor_size),
{
    let c = *cursor_size;
    *cursor_size = match c {
        1 => 1,
        2 => 1,
        3 => 2,
        4 => 3,
        5 => 4,
        7 => 5,
        9 => 7,
        13 => 9,
        17 => 13,
        23 => 17,
        31 => 23,
        41 => 31,
        _ => {
            let v = ((c as u64) * 10 / 12) as i32 - 1;
            if v > 1 {
                v
            } else {
                1
            }
        },
    };
}

} // verus!
