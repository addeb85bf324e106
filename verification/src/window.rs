use vstd::prelude::*;

verus! {

/// The gap kept between the desktop window and the edges of the screen's work area.
pub const WINDOW_EDGE_MARGIN: i32 = 24;

/// The smallest window width.
pub const MIN_WINDOW_WIDTH: u32 = 900;

/// The smallest window height.
pub const MIN_WINDOW_HEIGHT: u32 = 620;

/// `a - b`, or 0 when `b` is larger (`u32::saturating_sub`).
pub open spec fn saturating_sub(a: u32, b: u32) -> u32 {
    if a >= b {
        (a - b) as u32
    } else {
        0
    }
}

/// The larger of two sizes.
pub open spec fn larger(a: u32, b: u32) -> u32 {
    if a >= b {
        a
    } else {
        b
    }
}

/// The width the window takes in a work area `work_width` wide: the work area less the margins
/// on both sides, but at least the smallest width.
pub open spec fn fitted_width(work_width: u32) -> u32 {
    larger(saturating_sub(work_width, (2 * WINDOW_EDGE_MARGIN) as u32), MIN_WINDOW_WIDTH)
}

/// The height the window takes in a work area `work_height` high.
pub open spec fn fitted_height(work_height: u32) -> u32 {
    larger(saturating_sub(work_height, (2 * WINDOW_EDGE_MARGIN) as u32), MIN_WINDOW_HEIGHT)
}

/// The position and size of the main window in the work area at (`x`, `y`) of `width` by
/// `height`: sized by `fitted_width` and `fitted_height`, centred in the work area (at its
/// corner when it is larger than the area).
pub fn fit_window(x: i32, y: i32, width: u32, height: u32) -> (r: (i32, i32, u32, u32))
    requires
        x + saturating_sub(width, fitted_width(width)) / 2 <= i32::MAX,
        y + saturating_sub(height, fitted_height(height)) / 2 <= i32::MAX,
    ensures
        r.2 == fitted_width(width),
        r.3 == fitted_height(height),
        r.0 == x + saturating_sub(width, r.2) / 2,
        r.1 == y + saturating_sub(height, r.3) / 2,
{
    let margin_twice: u32 = 48;
    let w0 = width.saturating_sub(margin_twice);
    let w = if w0 >= MIN_WINDOW_WIDTH { w0 } else { MIN_WINDOW_WIDTH };
    let h0 = height.saturating_sub(margin_twice);
    let h = if h0 >= MIN_WINDOW_HEIGHT { h0 } else { MIN_WINDOW_HEIGHT };
    let dx = width.saturating_sub(w) / 2;
    let dy = height.saturating_sub(h) / 2;
    (x + dx as i32, y + dy as i32, w, h)
}

} // verus!
