use vstd::prelude::*;
use crate::types::WASDKey;

verus! {

/// The index a grid move lands on, if any.
pub open spec fn grid_target(idx: int, total: int, columns: int, key: WASDKey) -> Option<int> {
    if total == 0 {
        None
    } else {
        let row = idx / columns;
        let col = idx % columns;
        let rows = (total + columns - 1) / columns;
        match key {
            WASDKey::W => if row > 0 { Some(idx - columns) } else { None },
            WASDKey::S => if row < rows - 1 && idx + columns < total {
                Some(idx + columns)
            } else {
                None
            },
            WASDKey::A => if col > 0 { Some(idx - 1) } else { None },
            WASDKey::D => if col < columns - 1 && idx + 1 < total {
                Some(idx + 1)
            } else {
                None
            },
        }
    }
}

/// The index a list move lands on, if any.
pub open spec fn list_target(idx: int, total: int, is_vertical: bool, key: WASDKey) -> Option<int> {
    if total == 0 {
        None
    } else {
        let back = if is_vertical { key == WASDKey::W } else { key == WASDKey::A };
        let forth = if is_vertical { key == WASDKey::S } else { key == WASDKey::D };
        if back {
            if idx > 0 { Some(idx - 1) } else { None }
        } else if forth {
            if idx < total - 1 { Some(idx + 1) } else { None }
        } else {
            None
        }
    }
}

/// Whether an exec index result agrees with a mathematical one.
pub open spec fn same_index(r: Option<usize>, m: Option<int>) -> bool {
    match r {
        Some(n) => m == Some(n as int),
        None => m is None,
    }
}

/// Moves in a grid of `columns` columns holding `total` elements.
pub fn navigate_grid(current_index: usize, total_elements: usize, columns: usize, direction: WASDKey) -> (r:
    Option<usize>)
    requires
        columns > 0,
    ensures
        same_index(r, grid_target(current_index as int, total_elements as int, columns as int, direction)),
{
    if total_elements == 0 {
        return None;
    }
    let q = total_elements / columns;
    let rem = total_elements % columns;
    let current_row = current_index / columns;
    let current_col = current_index % columns;
    proof {
        let t = total_elements as int;
        let c = columns as int;
        assert(t == c * (t / c) + t % c) by (nonlinear_arith) requires c > 0;
        assert(rem != 0 ==> q < t) by (nonlinear_arith)
            requires t == c * q + rem, 0 <= rem < c, q >= 0, t > 0;
        assert(rem == 0 ==> q >= 1) by (nonlinear_arith)
            requires t == c * q + rem, c > 0, t > 0, q >= 0;
        let i = current_index as int;
        assert(i == c * (i / c) + i % c) by (nonlinear_arith) requires c > 0;
        assert(i / c > 0 ==> i >= c) by (nonlinear_arith)
            requires i == c * (i / c) + i % c, 0 <= i % c, c > 0;
    }
    let rows = if rem != 0 { q + 1 } else { q };
    proof {
        let t = total_elements as int;
        let c = columns as int;
        assert((t + c - 1) / c == rows) by {
            if t % c != 0 {
                assert(t + c - 1 == c * (t / c + 1) + (t % c - 1)) by (nonlinear_arith)
                    requires t == c * (t / c) + t % c;
                assert((t + c - 1) / c == t / c + 1) by (nonlinear_arith)
                    requires t + c - 1 == c * (t / c + 1) + (t % c - 1), 0 <= t % c - 1 < c;
            } else {
                assert(t + c - 1 == c * (t / c) + (c - 1)) by (nonlinear_arith)
                    requires t == c * (t / c) + t % c, t % c == 0;
                assert((t + c - 1) / c == t / c) by (nonlinear_arith)
                    requires t + c - 1 == c * (t / c) + (c - 1), 0 <= c - 1 < c;
            }
        }
    }
    match direction {
        WASDKey::W => {
            if current_row > 0 {
                Some(current_index - columns)
            } else {
                None
            }
        },
        WASDKey::S => {
            if current_row < rows - 1 && current_index < total_elements && columns < total_elements
                - current_index {
                Some(current_index + columns)
            } else {
                None
            }
        },
        WASDKey::A => {
            if current_col > 0 {
                Some(current_index - 1)
            } else {
                None
            }
        },
        WASDKey::D => {
            if current_col < columns - 1 && current_index < total_elements - 1 {
                Some(current_index + 1)
            } else {
                None
            }
        },
    }
}

/// Moves in a single row or column of `total_elements` elements.
pub fn navigate_list(current_index: usize, total_elements: usize, is_vertical: bool, direction: WASDKey) -> (r:
    Option<usize>)
    ensures
        same_index(r, list_target(current_index as int, total_elements as int, is_vertical, direction)),
{
    if total_elements == 0 {
        return None;
    }
    let back = if is_vertical {
        direction == WASDKey::W
    } else {
        direction == WASDKey::A
    };
    let forth = if is_vertical {
        direction == WASDKey::S
    } else {
        direction == WASDKey::D
    };
    if back {
        if current_index > 0 {
            Some(current_index - 1)
        } else {
            None
        }
    } else if forth {
        if current_index < total_elements - 1 {
            Some(current_index + 1)
        } else {
            None
        }
    } else {
        None
    }
}

} // verus!
