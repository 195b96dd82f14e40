//! The decision whether rendered output should go through a pager.

use vstd::prelude::*;

verus! {

/// The line count above which paging starts: an explicit nonzero
/// threshold, else the terminal height less a small margin for the prompt.
pub open spec fn spec_pager_threshold(auto_pager_threshold: int, terminal_height: int) -> int {
    if auto_pager_threshold > 0 {
        auto_pager_threshold
    } else if terminal_height >= 2 {
        terminal_height - 2
    } else {
        0
    }
}

/// Whether to page: an explicit disable always wins, then an explicit
/// enable, then the auto-pager setting, which pages only when the
/// estimated line count exceeds the threshold.
pub fn should_use_pager(
    no_pager_explicit: bool,
    use_pager: bool,
    auto_pager: bool,
    auto_pager_threshold: usize,
    terminal_height: usize,
    estimated_lines: usize,
) -> (r: bool)
    ensures
        no_pager_explicit ==> r == false,
        !no_pager_explicit && use_pager ==> r == true,
        !no_pager_explicit && !use_pager && !auto_pager ==> r == false,
        !no_pager_explicit && !use_pager && auto_pager ==> r == (estimated_lines
            > spec_pager_threshold(auto_pager_threshold as int, terminal_height as int)),
{
    if no_pager_explicit {
        return false;
    }
    if use_pager {
        return true;
    }
    if !auto_pager {
        return false;
    }
    let threshold: usize = if auto_pager_threshold > 0 {
        auto_pager_threshold
    } else {
        if terminal_height >= 2 {
            terminal_height - 2
        } else {
            0
        }
    };
    estimated_lines > threshold
}

} // verus!
