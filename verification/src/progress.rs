//! The bar drawn while a download is running.
use vstd::prelude::*;
use vstd::string::*;

verus! {

/// The number of cells of the progress bar.
pub const PROGRESS_WIDTH: usize = 30;

/// A progress bar with `filled` of its cells done: `=` for each done cell, then spaces.
pub open spec fn bar_cells(filled: nat) -> Seq<char> {
    Seq::new(PROGRESS_WIDTH as nat, |i: int| if i < filled { '=' } else { ' ' })
}

/// Draws the progress bar with `filled` cells done.
pub fn progress_bar(filled: usize) -> (r: String)
    requires
        filled <= PROGRESS_WIDTH,
    ensures
        r@ == bar_cells(filled as nat),
{
    proof {
        reveal_strlit("");
    }
    let mut r = String::from_str("");
    assert(r@ =~= bar_cells(filled as nat).take(0));
    let mut i: usize = 0;
    while i < PROGRESS_WIDTH
        invariant
            i <= PROGRESS_WIDTH,
            r@ == bar_cells(filled as nat).take(i as int),
        decreases PROGRESS_WIDTH - i,
    {
        let ghost before = r@;
        proof {
            reveal_strlit("=");
            reveal_strlit(" ");
            assert("="@ =~= seq!['=']);
            assert(" "@ =~= seq![' ']);
        }
        if i < filled {
            r.append("=");
            assert(r@ =~= before.push('='));
        } else {
            r.append(" ");
            assert(r@ =~= before.push(' '));
        }
        i = i + 1;
        assert(r@ =~= bar_cells(filled as nat).take(i as int));
    }
    assert(r@ =~= bar_cells(filled as nat));
    r
}

} // verus!
