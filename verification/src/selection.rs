//! The selected position of a list: one index into the visible items, moved
//! cyclically, reset or clamped as the items change.

use vstd::prelude::*;

verus! {

/// A selection fits a list of `len` items if it names one of them, or names
/// none and the list is empty.
pub open spec fn selection_valid(selected: Option<usize>, len: nat) -> bool {
    match selected {
        Some(i) => i < len,
        None => len == 0,
    }
}

/// The selection of a list that was just filled: its first item, if any.
pub open spec fn first_index(len: nat) -> Option<usize> {
    if len == 0 {
        None
    } else {
        Some(0)
    }
}

/// One step forward; from the last item to the first. Nothing to select in
/// an empty list.
pub open spec fn next_index(selected: Option<usize>, len: nat) -> Option<usize> {
    if len == 0 {
        None
    } else {
        match selected {
            Some(i) => if i + 1 >= len {
                Some(0)
            } else {
                Some((i + 1) as usize)
            },
            None => Some(0),
        }
    }
}

/// One step back; from the first item to the last. Nothing to select in an
/// empty list.
pub open spec fn previous_index(selected: Option<usize>, len: nat) -> Option<usize> {
    if len == 0 {
        None
    } else {
        match selected {
            Some(i) => if i == 0 {
                Some((len - 1) as usize)
            } else {
                Some((i - 1) as usize)
            },
            None => Some(0),
        }
    }
}

/// The selection kept by position when the list changes its length: the same
/// index where it still exists, else the last one; the first item if nothing
/// was selected; nothing in an empty list.
pub open spec fn clamped_index(selected: Option<usize>, len: nat) -> Option<usize> {
    if len == 0 {
        None
    } else {
        match selected {
            Some(i) => if i >= len {
                Some((len - 1) as usize)
            } else {
                Some(i)
            },
            None => Some(0),
        }
    }
}

/// `steps` steps forward.
pub open spec fn next_index_times(selected: Option<usize>, len: nat, steps: nat) -> Option<usize>
    decreases steps,
{
    if steps == 0 {
        selected
    } else {
        next_index(next_index_times(selected, len, (steps - 1) as nat), len)
    }
}

/// The selection of a list of `len` items that was just filled.
pub fn first_position(len: usize) -> (r: Option<usize>)
    ensures
        r == first_index(len as nat),
        selection_valid(r, len as nat),
{
    if len == 0 {
        None
    } else {
        Some(0)
    }
}

/// The selection one step forward, cyclically.
pub fn next_position(selected: Option<usize>, len: usize) -> (r: Option<usize>)
    requires
        selection_valid(selected, len as nat),
    ensures
        r == next_index(selected, len as nat),
        selection_valid(r, len as nat),
{
    if len == 0 {
        return None;
    }
    match selected {
        Some(i) => {
            if i >= len - 1 {
                Some(0)
            } else {
                Some(i + 1)
            }
        },
        None => Some(0),
    }
}

/// The selection one step back, cyclically.
pub fn previous_position(selected: Option<usize>, len: usize) -> (r: Option<usize>)
    requires
        selection_valid(selected, len as nat),
    ensures
        r == previous_index(selected, len as nat),
        selection_valid(r, len as nat),
{
    if len == 0 {
        return None;
    }
    match selected {
        Some(i) => {
            if i == 0 {
                Some(len - 1)
            } else {
                Some(i - 1)
            }
        },
        None => Some(0),
    }
}

/// The selection kept by position in a list that now has `len` items.
pub fn clamped_position(selected: Option<usize>, len: usize) -> (r: Option<usize>)
    ensures
        r == clamped_index(selected, len as nat),
        selection_valid(r, len as nat),
{
    if len == 0 {
        return None;
    }
    match selected {
        Some(i) => {
            if i >= len {
                Some(len - 1)
            } else {
                Some(i)
            }
        },
        None => Some(0),
    }
}

/// Stepping forward `steps` times from item `i` of `len` arrives at item
/// `(i + steps) % len`.
pub proof fn lemma_next_index_times(i: usize, len: nat, steps: nat)
    requires
        i < len,
        len <= usize::MAX,
    ensures
        next_index_times(Some(i), len, steps) == Some(((i + steps) % (len as int)) as usize),
    decreases steps,
{
    if steps == 0 {
        assert((i + 0) % (len as int) == i) by (nonlinear_arith)
            requires
                0 <= i < len,
        ;
    } else {
        let before = (steps - 1) as nat;
        lemma_next_index_times(i, len, before);
        let at = (i + before) % (len as int);
        assert(0 <= at < len && (i + steps) % (len as int) == if at + 1 >= len {
            0
        } else {
            at + 1
        }) by (nonlinear_arith)
            requires
                at == (i + before) % (len as int),
                steps == before + 1,
                0 <= i < len,
        ;
    }
}

/// On a list that is not empty, as many steps forward as the list has items
/// lead back to the item where they began.
pub proof fn lemma_next_cycles(selected: Option<usize>, len: nat)
    requires
        selection_valid(selected, len),
        0 < len <= usize::MAX,
    ensures
        next_index_times(selected, len, len) == selected,
{
    let i = selected->Some_0;
    lemma_next_index_times(i, len, len);
    assert((i + len) % (len as int) == i) by (nonlinear_arith)
        requires
            0 <= i < len,
    ;
}

/// On a list that is not empty, a step back undoes a step forward, and a step
/// forward undoes a step back.
pub proof fn lemma_previous_inverts_next(selected: Option<usize>, len: nat)
    requires
        selection_valid(selected, len),
        0 < len <= usize::MAX,
    ensures
        previous_index(next_index(selected, len), len) == selected,
        next_index(previous_index(selected, len), len) == selected,
{
}

/// Every step keeps the selection valid, and on a single item it stays where
/// it is.
pub proof fn lemma_steps_stay_valid(selected: Option<usize>, len: nat)
    requires
        selection_valid(selected, len),
        len <= usize::MAX,
    ensures
        selection_valid(next_index(selected, len), len),
        selection_valid(previous_index(selected, len), len),
        len == 0 ==> next_index(selected, len) is None && previous_index(selected, len) is None,
        len == 1 ==> next_index(selected, len) == selected && previous_index(selected, len)
            == selected,
{
}

} // verus!
