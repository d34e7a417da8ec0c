//! Where a hit is drawn on the timeline of recent ticks.

use vstd::prelude::*;

verus! {

/// How many ticks back the timeline shows.
pub const WINDOW: usize = 32;

/// The cell at which the oldest tick shown is drawn.
pub const OFFSET: usize = 10;

/// The oldest tick shown once tick `now` has arrived.
pub open spec fn window_start(now: nat) -> nat {
    if now >= WINDOW {
        (now - WINDOW) as nat
    } else {
        0
    }
}

/// The screen column of a hit at tick `hit`, seen from tick `now`: two
/// columns for every cell, cells counted from `OFFSET` at the oldest tick
/// shown.
pub open spec fn column_of(hit: nat, now: nat) -> nat {
    ((OFFSET + hit - window_start(now)) * 2) as nat
}

/// The column at which to draw a hit, or `None` for a hit that has left
/// the window or lies beyond the columns a screen can address.
pub fn hit_column(hit: usize, now: usize) -> (c: Option<u16>)
    ensures
        c.is_some() <==> window_start(now as nat) <= hit && column_of(hit as nat, now as nat)
            <= u16::MAX,
        c.is_some() ==> c.unwrap() == column_of(hit as nat, now as nat),
{
    let min = now.saturating_sub(WINDOW);
    if hit < min {
        return None;
    }
    let cell = hit - min;
    if cell > 32757 {
        return None;
    }
    let doubled: usize = (OFFSET + cell) * 2;
    Some(doubled as u16)
}

} // verus!
