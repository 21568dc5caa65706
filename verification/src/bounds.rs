//! Placement of a hosted browser surface inside the main window.
//!
//! The window reserves a sidebar strip at the left edge; every hosted surface
//! fills the rest. The host hands in the sidebar width already scaled to
//! physical pixels together with the window's inner size.

use vstd::prelude::*;

verus! {

/// Position and size, in physical pixels, of a hosted surface inside a
/// window of inner size `win_w` x `win_h` with a sidebar of `sidebar_px`
/// physical pixels at the left edge.
///
/// Returns `(x, y, width, height)`: the surface starts where the sidebar
/// ends (clamped to the window's width), keeps the full height, and takes
/// whatever width is left.
pub fn webview_bounds(sidebar_px: u32, win_w: u32, win_h: u32) -> (r: (u32, u32, u32, u32))
    ensures
        r.0 == if sidebar_px <= win_w {
            sidebar_px
        } else {
            win_w
        },
        r.1 == 0,
        r.2 == win_w - r.0,
        r.3 == win_h,
{
    let x = if sidebar_px <= win_w {
        sidebar_px
    } else {
        win_w
    };
    (x, 0, win_w - x, win_h)
}

/// Whether a developer-tools switch read from the environment is on: the
/// text `1`, or `true` in any letter case.
pub open spec fn devtools_flag_spec(v: Option<Seq<char>>) -> bool {
    match v {
        Some(s) => s == "1"@ || crate::text::lower_spec(s) == "true"@,
        None => false,
    }
}

/// Read a developer-tools switch; the host hands in the environment text.
pub fn devtools_flag(v: Option<&String>) -> (r: bool)
    ensures
        r == devtools_flag_spec(
            match v {
                Some(s) => Some(s@),
                None => None,
            },
        ),
{
    match v {
        Some(s) => {
            if crate::text::str_eq(s.as_str(), "1") {
                return true;
            }
            let cv = crate::text::to_chars(s.as_str());
            let low = crate::text::lower_chars(&cv);
            let low_s = crate::text::chars_to_string(&low);
            crate::text::str_eq(low_s.as_str(), "true")
        },
        None => false,
    }
}

} // verus!
