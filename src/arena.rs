//! The play area and the regions of it that entities keep to.

use vstd::prelude::*;

use crate::config::{MAX_HALF_EXTENT, PLAYER_MARGIN, UNITS_PER_PIXEL};
use crate::geometry::Position;

verus! {

/// Slack beyond the left and right edges where rockets and shots may still be.
pub const FIELD_SLACK: i64 = 1000;

/// The rectangular play area, centred on the origin.
#[derive(Clone, Copy, Debug, PartialEq, Eq, Structural)]
pub struct Arena {
    pub half_width: i64,
    pub half_height: i64,
}

impl Arena {
    /// Large enough that the player fits at its start, small enough that
    /// coordinates never overflow.
    pub open spec fn wf(self) -> bool {
        &&& 2 * PLAYER_MARGIN <= self.half_width <= MAX_HALF_EXTENT
        &&& PLAYER_MARGIN <= self.half_height <= MAX_HALF_EXTENT
    }

    /// Where any entity of the simulation may be.
    pub open spec fn holds(self, p: Position) -> bool {
        &&& -self.half_width - FIELD_SLACK <= p.x <= self.half_width + FIELD_SLACK
        &&& -self.half_height <= p.y <= self.half_height
    }

    /// Horizontal coordinates that the player's centre may take.
    pub open spec fn player_x_ok(self, x: int) -> bool {
        -self.half_width + PLAYER_MARGIN <= x <= self.half_width - PLAYER_MARGIN
    }

    /// Vertical coordinates that the player's centre may take.
    pub open spec fn player_y_ok(self, y: int) -> bool {
        -self.half_height + PLAYER_MARGIN <= y <= self.half_height - PLAYER_MARGIN
    }

    /// The box that the player's centre stays in.
    pub open spec fn player_box(self, p: Position) -> bool {
        self.player_x_ok(p.x as int) && self.player_y_ok(p.y as int)
    }

    /// Lower end (inclusive) of the vertical spawn offset of a rocket:
    /// three quarters of the half-height below the centre line.
    pub open spec fn spawn_y_low(self) -> int {
        -(3 * self.half_height / 4)
    }

    /// Upper end (exclusive) of the vertical spawn offset of a rocket.
    pub open spec fn spawn_y_high(self) -> int {
        3 * self.half_height / 4
    }

    /// The arena of a display `width` by `height` pixels; `None` where it is
    /// too small for the player ship or too large for the coordinates.
    pub fn from_pixels(width: u32, height: u32) -> (r: Option<Arena>)
        ensures
            r.is_some() <==> {
                &&& 2 * PLAYER_MARGIN <= width * UNITS_PER_PIXEL / 2 <= MAX_HALF_EXTENT
                &&& PLAYER_MARGIN <= height * UNITS_PER_PIXEL / 2 <= MAX_HALF_EXTENT
            },
            r.is_some() ==> r.unwrap().wf() && r.unwrap().half_width == width * UNITS_PER_PIXEL / 2
                && r.unwrap().half_height == height * UNITS_PER_PIXEL / 2,
    {
        let half_width: i64 = width as i64 * UNITS_PER_PIXEL / 2;
        let half_height: i64 = height as i64 * UNITS_PER_PIXEL / 2;
        let a = Arena { half_width, half_height };
        if 2 * PLAYER_MARGIN <= half_width && half_width <= MAX_HALF_EXTENT && PLAYER_MARGIN
            <= half_height && half_height <= MAX_HALF_EXTENT {
            Some(a)
        } else {
            None
        }
    }

    /// Lower end (inclusive) of a rocket's vertical spawn offset.
    pub fn spawn_low(&self) -> (r: i64)
        requires
            self.wf(),
        ensures
            r == self.spawn_y_low(),
    {
        -(3 * self.half_height / 4)
    }

    /// Upper end (exclusive) of a rocket's vertical spawn offset.
    pub fn spawn_high(&self) -> (r: i64)
        requires
            self.wf(),
        ensures
            r == self.spawn_y_high(),
            self.spawn_y_low() < r,
    {
        3 * self.half_height / 4
    }
}

} // verus!
