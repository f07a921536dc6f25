//! Where the parts of the picture go in a window: the box with the agents,
//! the counts, the colour key and the chart.
//!
//! The box with the agents fills a square along the shorter side of the
//! window; the rest of the longer side is shared by the other three. A window
//! is wide if it is at least as wide as it is high.

use vstd::prelude::*;

verus! {

/// The margin that is kept round each part, in pixels.
pub const MARGIN: u32 = 10;

/// A rectangle of pixels in a window, measured from the lower left corner.
#[derive(Debug, Clone, Copy, PartialEq, Eq, Structural)]
pub struct Viewport {
    pub left: u32,
    pub bottom: u32,
    pub width: u32,
    pub height: u32,
}

/// The shorter side of the window.
pub open spec fn shorter(size_x: u32, size_y: u32) -> u32 {
    if size_x < size_y {
        size_x
    } else {
        size_y
    }
}

/// What is left of the longer side beside the square of the agents.
pub open spec fn spare(size_x: u32, size_y: u32) -> int {
    if size_x < size_y {
        size_y - size_x
    } else {
        size_x - size_y
    }
}

/// The rectangle lies in a window of the given size.
pub open spec fn within(v: Viewport, size_x: u32, size_y: u32) -> bool {
    &&& v.left + v.width <= size_x
    &&& v.bottom + v.height <= size_y
}

/// The window has room for the square of the agents inside its margins.
pub open spec fn holds_arena(size_x: u32, size_y: u32) -> bool {
    shorter(size_x, size_y) >= 2 * MARGIN
}

/// The window has room for the counts and for the colour key, side by side
/// in a wide window and also in a high one.
pub open spec fn holds_panels(size_x: u32, size_y: u32) -> bool {
    if size_x < size_y {
        size_x / 2 >= 2 * MARGIN && spare(size_x, size_y) >= 2 * MARGIN
    } else {
        spare(size_x, size_y) / 2 >= 2 * MARGIN && size_y >= 2 * MARGIN
    }
}

/// The window has room for the chart.
pub open spec fn holds_graph(size_x: u32, size_y: u32) -> bool {
    if size_x < size_y {
        size_x >= 2 * MARGIN
    } else {
        spare(size_x, size_y) >= 2 * MARGIN
    }
}

/// The square of the agents: along the shorter side of the window, a margin
/// away from its edges, at the left of a wide window and at the top of a
/// high one.
pub open spec fn arena_of(size_x: u32, size_y: u32) -> Viewport {
    let side = (shorter(size_x, size_y) - 2 * MARGIN) as u32;
    Viewport {
        left: MARGIN,
        bottom: if size_x < size_y {
            (size_y - side - MARGIN) as u32
        } else {
            MARGIN
        },
        width: side,
        height: side,
    }
}

/// The counts: the first half of what the square of the agents leaves free.
pub open spec fn numbers_of(size_x: u32, size_y: u32) -> Viewport {
    if size_x < size_y {
        Viewport {
            left: MARGIN,
            bottom: 0,
            width: (size_x / 2 - 2 * MARGIN) as u32,
            height: (size_y - size_x - 2 * MARGIN) as u32,
        }
    } else {
        Viewport {
            left: (size_y + MARGIN) as u32,
            bottom: 0,
            width: ((size_x - size_y) / 2 - 2 * MARGIN) as u32,
            height: (size_y - 2 * MARGIN) as u32,
        }
    }
}

/// The colour key: the second half of what the square of the agents leaves
/// free.
pub open spec fn key_of(size_x: u32, size_y: u32) -> Viewport {
    if size_x < size_y {
        Viewport {
            left: (MARGIN + size_x / 2) as u32,
            bottom: 0,
            width: (size_x / 2 - 2 * MARGIN) as u32,
            height: (size_y - size_x - 2 * MARGIN) as u32,
        }
    } else {
        Viewport {
            left: (size_y + (size_x - size_y) / 2 + MARGIN) as u32,
            bottom: 0,
            width: ((size_x - size_y) / 2 - 2 * MARGIN) as u32,
            height: (size_y - 2 * MARGIN) as u32,
        }
    }
}

/// The chart: the middle third, in height, of what the square of the agents
/// leaves free.
pub open spec fn graph_of(size_x: u32, size_y: u32) -> Viewport {
    if size_x < size_y {
        Viewport {
            left: MARGIN,
            bottom: ((size_y - size_x) / 3) as u32,
            width: (size_x - 2 * MARGIN) as u32,
            height: ((size_y - size_x) / 3) as u32,
        }
    } else {
        Viewport {
            left: (size_y + MARGIN) as u32,
            bottom: size_y / 3,
            width: (size_x - size_y - 2 * MARGIN) as u32,
            height: size_y / 3,
        }
    }
}

/// The square of the agents, if the window has room for it.
pub fn arena(size_x: u32, size_y: u32) -> (r: Option<Viewport>)
    ensures
        r is Some <==> holds_arena(size_x, size_y),
        r is Some ==> r->0 == arena_of(size_x, size_y) && within(r->0, size_x, size_y),
{
    let short: u32 = if size_x < size_y {
        size_x
    } else {
        size_y
    };
    if short < 2 * MARGIN {
        return None;
    }
    let side: u32 = short - 2 * MARGIN;
    let bottom: u32 = if size_x < size_y {
        size_y - side - MARGIN
    } else {
        MARGIN
    };
    Some(Viewport { left: MARGIN, bottom, width: side, height: side })
}

/// The rectangle of the counts, if the window has room for it.
pub fn numbers(size_x: u32, size_y: u32) -> (r: Option<Viewport>)
    ensures
        r is Some <==> holds_panels(size_x, size_y),
        r is Some ==> r->0 == numbers_of(size_x, size_y) && within(r->0, size_x, size_y),
{
    if size_x < size_y {
        if size_x / 2 < 2 * MARGIN || size_y - size_x < 2 * MARGIN {
            return None;
        }
        Some(
            Viewport {
                left: MARGIN,
                bottom: 0,
                width: size_x / 2 - 2 * MARGIN,
                height: size_y - size_x - 2 * MARGIN,
            },
        )
    } else {
        if (size_x - size_y) / 2 < 2 * MARGIN || size_y < 2 * MARGIN {
            return None;
        }
        Some(
            Viewport {
                left: size_y + MARGIN,
                bottom: 0,
                width: (size_x - size_y) / 2 - 2 * MARGIN,
                height: size_y - 2 * MARGIN,
            },
        )
    }
}

/// The rectangle of the colour key, if the window has room for it.
pub fn key(size_x: u32, size_y: u32) -> (r: Option<Viewport>)
    ensures
        r is Some <==> holds_panels(size_x, size_y),
        r is Some ==> r->0 == key_of(size_x, size_y) && within(r->0, size_x, size_y),
{
    if size_x < size_y {
        if size_x / 2 < 2 * MARGIN || size_y - size_x < 2 * MARGIN {
            return None;
        }
        Some(
            Viewport {
                left: MARGIN + size_x / 2,
                bottom: 0,
                width: size_x / 2 - 2 * MARGIN,
                height: size_y - size_x - 2 * MARGIN,
            },
        )
    } else {
        if (size_x - size_y) / 2 < 2 * MARGIN || size_y < 2 * MARGIN {
            return None;
        }
        Some(
            Viewport {
                left: size_y + (size_x - size_y) / 2 + MARGIN,
                bottom: 0,
                width: (size_x - size_y) / 2 - 2 * MARGIN,
                height: size_y - 2 * MARGIN,
            },
        )
    }
}

/// The rectangle of the chart, if the window has room for it.
pub fn graph(size_x: u32, size_y: u32) -> (r: Option<Viewport>)
    ensures
        r is Some <==> holds_graph(size_x, size_y),
        r is Some ==> r->0 == graph_of(size_x, size_y) && within(r->0, size_x, size_y),
{
    if size_x < size_y {
        if size_x < 2 * MARGIN {
            return None;
        }
        let free: u32 = size_y - size_x;
        Some(
            Viewport {
                left: MARGIN,
                bottom: free / 3,
                width: size_x - 2 * MARGIN,
                height: free / 3,
            },
        )
    } else {
        if size_x - size_y < 2 * MARGIN {
            return None;
        }
        Some(
            Viewport {
                left: size_y + MARGIN,
                bottom: size_y / 3,
                width: size_x - size_y - 2 * MARGIN,
                height: size_y / 3,
            },
        )
    }
}

} // verus!
