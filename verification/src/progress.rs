//! The width of the progress bar.

use vstd::prelude::*;

verus! {

/// The width of the bar for a terminal of the given dimensions, in columns:
/// half the width of the terminal, which is taken as 80 columns where it is
/// narrower or unknown, and no more than 100.
pub open spec fn bar_width_for(dimensions: Option<(usize, usize)>) -> int {
    let columns: int = match dimensions {
        Some((width, _)) => if width >= 80 {
            width as int
        } else {
            80
        },
        None => 80,
    };
    if columns / 2 <= 100 {
        columns / 2
    } else {
        100
    }
}

/// Asks `term_size::dimensions` for the width and height of the terminal.
///
/// Trusted: nothing. The answer depends on the terminal that the process is
/// attached to, and is `None` where there is none.
#[verifier::external_body]
pub(crate) fn terminal_dimensions() -> (r: Option<(usize, usize)>) {
    term_size::dimensions()
}

/// The width of the progress bar for a terminal of the given dimensions.
pub fn bar_width(dimensions: Option<(usize, usize)>) -> (w: usize)
    ensures
        w == bar_width_for(dimensions),
        40 <= w <= 100,
{
    let term_width: usize = match dimensions {
        Some((width, _)) => if width > 80 {
            width
        } else {
            80
        },
        None => 80,
    };
    let half: usize = term_width / 2;
    if half < 40 {
        40
    } else if half > 100 {
        100
    } else {
        half
    }
}

/// The width of the progress bar on the terminal of this process.
pub fn progress_bar_width() -> (w: usize)
    ensures
        40 <= w <= 100,
{
    bar_width(terminal_dimensions())
}

} // verus!
