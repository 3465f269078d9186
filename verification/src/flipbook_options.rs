//! The flipbook options of the material inspector: a checkbox that turns the flipbook of
//! the inspected emitter on and off, and the fields of its grid.
use vstd::prelude::*;

use crate::text::{decimal, decimal_string};

verus! {

/// The grid of a flipbook sprite sheet.
#[derive(PartialEq, Eq, Structural, Clone, Copy, Debug)]
pub struct FlipbookGrid {
    pub columns: u32,
    pub rows: u32,
}

/// Whether the inspected emitter has a flipbook. `inspected` is `None` when no emitter is
/// inspected, otherwise whether its draw pass has a flipbook.
pub fn flipbook_enabled(inspected: Option<bool>) -> (res: bool)
    ensures
        res == (inspected == Some(true)),
{
    match inspected {
        Some(enabled) => enabled,
        None => false,
    }
}

/// What the flipbook options show when they are first built.
pub struct FlipbookOptionsPlan {
    /// Whether the checkbox is checked and the options are displayed.
    pub enabled: bool,
    /// The initial text of the columns field.
    pub columns_text: String,
    /// The initial text of the rows field.
    pub rows_text: String,
}

/// What the flipbook options show for the flipbook `flipbook` of the inspected emitter
/// (`None` when it has none): checked and displayed when there is one, and the columns and
/// rows of that flipbook, or of `default` when there is none, in decimal.
pub fn flipbook_options_plan(flipbook: Option<FlipbookGrid>, default: FlipbookGrid) -> (res:
    FlipbookOptionsPlan)
    ensures
        res.enabled == flipbook is Some,
        res.columns_text@ == decimal(
            (match flipbook {
                Some(g) => g.columns,
                None => default.columns,
            }) as nat,
        ),
        res.rows_text@ == decimal(
            (match flipbook {
                Some(g) => g.rows,
                None => default.rows,
            }) as nat,
        ),
{
    let enabled = flipbook.is_some();
    let grid = match flipbook {
        Some(g) => g,
        None => default,
    };
    FlipbookOptionsPlan {
        enabled,
        columns_text: decimal_string(grid.columns),
        rows_text: decimal_string(grid.rows),
    }
}

/// The checkboxes whose state must change to show `enabled`: when a refresh is due
/// (the editor state or the assets changed, or a checkbox was just created), those whose
/// state differs from `enabled`, in order; otherwise none.
pub fn checkbox_updates(states: &Vec<bool>, enabled: bool, refresh: bool) -> (res: Vec<usize>)
    ensures
        res@ == (if refresh {
            Seq::new(states.len() as nat, |i: int| i as usize).filter(
                |i: usize| states@[i as int] != enabled,
            )
        } else {
            Seq::empty()
        }),
{
    let mut res: Vec<usize> = Vec::new();
    if !refresh {
        return res;
    }
    let ghost all = Seq::new(states.len() as nat, |i: int| i as usize);
    let mut i: usize = 0;
    assert(all.take(0).filter(|i: usize| states@[i as int] != enabled) =~= Seq::<usize>::empty())
        by {
        assert(all.take(0) =~= Seq::<usize>::empty());
        reveal_with_fuel(Seq::filter, 1);
    }
    while i < states.len()
        invariant
            i <= states.len(),
            all == Seq::new(states.len() as nat, |i: int| i as usize),
            res@ == all.take(i as int).filter(|i: usize| states@[i as int] != enabled),
        decreases states.len() - i,
    {
        proof {
            assert(all.take(i + 1) =~= all.take(i as int).push(i));
            all.take(i as int).lemma_filter_push(i, |i: usize| states@[i as int] != enabled);
        }
        if states[i] != enabled {
            res.push(i);
        }
        i = i + 1;
    }
    assert(all.take(states.len() as int) =~= all);
    res
}

/// What a commit of a checkbox does to the flipbook of the inspected emitter.
#[derive(PartialEq, Eq, Structural, Clone, Copy, Debug)]
pub enum FlipbookToggle {
    /// Nothing changes.
    Ignore,
    /// The emitter gets a default flipbook; it is marked dirty and restarted.
    Enable,
    /// The emitter loses its flipbook; it is marked dirty and restarted.
    Disable,
}

/// What a commit of a checkbox does (see `flipbook_toggle`).
pub open spec fn toggle_spec(is_flipbook_checkbox: bool, inspected: Option<bool>, checked: bool) -> FlipbookToggle {
    match inspected {
        Some(current) => if is_flipbook_checkbox && current != checked {
            if checked {
                FlipbookToggle::Enable
            } else {
                FlipbookToggle::Disable
            }
        } else {
            FlipbookToggle::Ignore
        },
        None => FlipbookToggle::Ignore,
    }
}

/// Whether the emitter has a flipbook after `t` was applied to it, having one or not
/// (`current`) before.
pub open spec fn apply_toggle(current: bool, t: FlipbookToggle) -> bool {
    match t {
        FlipbookToggle::Ignore => current,
        FlipbookToggle::Enable => true,
        FlipbookToggle::Disable => false,
    }
}

/// After a commit of the flipbook checkbox the inspected emitter has a flipbook exactly
/// when the checkbox is checked, and committing the same state again changes nothing.
pub proof fn lemma_toggle_follows_checkbox(current: bool, checked: bool)
    ensures
        apply_toggle(current, toggle_spec(true, Some(current), checked)) == checked,
        toggle_spec(
            true,
            Some(apply_toggle(current, toggle_spec(true, Some(current), checked))),
            checked,
        ) == FlipbookToggle::Ignore,
{
}

/// Only a commit of the flipbook checkbox changes the flipbook: a commit of any other
/// checkbox, or one while no emitter is inspected, changes nothing. The flipbook checkbox
/// turns the flipbook on exactly when it is checked while the inspected emitter has none,
/// and off exactly when it is unchecked while the emitter has one.
pub proof fn lemma_toggle_law(is_flipbook_checkbox: bool, inspected: Option<bool>, checked: bool)
    ensures
        ({
            let t = toggle_spec(is_flipbook_checkbox, inspected, checked);
            &&& !is_flipbook_checkbox ==> t == FlipbookToggle::Ignore
            &&& inspected is None ==> t == FlipbookToggle::Ignore
            &&& t == FlipbookToggle::Enable <==> (is_flipbook_checkbox && inspected == Some(false)
                && checked)
            &&& t == FlipbookToggle::Disable <==> (is_flipbook_checkbox && inspected == Some(true)
                && !checked)
        }),
{
}

/// What a commit of a checkbox with state `checked` does: nothing unless it is the
/// flipbook checkbox and an emitter is inspected (`inspected` is then whether it has a
/// flipbook) whose flipbook state differs from `checked`; otherwise the flipbook is
/// turned on or off as the checkbox says.
pub fn flipbook_toggle(is_flipbook_checkbox: bool, inspected: Option<bool>, checked: bool) -> (res:
    FlipbookToggle)
    ensures
        res == toggle_spec(is_flipbook_checkbox, inspected, checked),
        !is_flipbook_checkbox ==> res == FlipbookToggle::Ignore,
        inspected is None ==> res == FlipbookToggle::Ignore,
        res == FlipbookToggle::Enable <==> (is_flipbook_checkbox && inspected == Some(false)
            && checked),
        res == FlipbookToggle::Disable <==> (is_flipbook_checkbox && inspected == Some(true)
            && !checked),
{
    if !is_flipbook_checkbox {
        return FlipbookToggle::Ignore;
    }
    let current = match inspected {
        Some(c) => c,
        None => {
            return FlipbookToggle::Ignore;
        },
    };
    if checked == current {
        return FlipbookToggle::Ignore;
    }
    if checked {
        FlipbookToggle::Enable
    } else {
        FlipbookToggle::Disable
    }
}

} // verus!
