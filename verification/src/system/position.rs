use vstd::prelude::*;

verus! {

/// The screen is 128 pixels wide; world coordinates put it at 64..192, so that a
/// byte coordinate can reach 64 pixels past each edge.
pub const SCREEN_OFFSET: u8 = 64;

/// Screen coordinate of a world coordinate: `c - 64`, wrapping within a byte.
pub open spec fn world_to_screen(c: u8) -> int {
    (c - 64) % 256
}

/// World coordinate of a screen coordinate: `c + 64`, wrapping within a byte.
pub open spec fn screen_to_world(c: u8) -> int {
    (c + 64) % 256
}

/// A position on the visible screen, 0..128 on each axis.
#[derive(Clone, Copy, Debug, PartialEq, Eq, Structural)]
pub struct ScreenSpacePosition {
    pub x: u8,
    pub y: u8,
}

/// A position in world space: the screen stands at 64..192 on each axis, and
/// the world reaches 64 pixels past it on every side.
#[derive(Clone, Copy, Debug, PartialEq, Eq, Structural)]
pub struct FancyPosition {
    pub x: u8,
    pub y: u8,
}

impl ScreenSpacePosition {
    /// The world position of this screen position.
    pub fn to_fancy(&self) -> (p: FancyPosition)
        ensures
            p.x == screen_to_world(self.x),
            p.y == screen_to_world(self.y),
            (p.x - 64) % 256 == self.x,
            (p.y - 64) % 256 == self.y,
    {
        FancyPosition { x: self.x.wrapping_add(SCREEN_OFFSET), y: self.y.wrapping_add(SCREEN_OFFSET) }
    }
}

impl FancyPosition {
    /// The screen position of this world position.
    pub fn to_screenspace(&self) -> (s: ScreenSpacePosition)
        ensures
            s.x == world_to_screen(self.x),
            s.y == world_to_screen(self.y),
            (s.x + 64) % 256 == self.x,
            (s.y + 64) % 256 == self.y,
    {
        ScreenSpacePosition {
            x: self.x.wrapping_sub(SCREEN_OFFSET),
            y: self.y.wrapping_sub(SCREEN_OFFSET),
        }
    }
}

/// A world coordinate lies 64 to the right of (below) its screen coordinate, modulo
/// 256: the screen coordinate is a byte `s` with `s + 64 == c` modulo 256, so the
/// world band 64..192 covers the screen 0..128 in order. Likewise a screen
/// coordinate lies 64 to the left of its world coordinate.
pub proof fn lemma_screen_is_world_minus_offset(c: u8)
    ensures
        0 <= world_to_screen(c) < 256,
        (world_to_screen(c) + 64) % 256 == c,
        64 <= c < 192 ==> world_to_screen(c) == c - 64,
        0 <= screen_to_world(c) < 256,
        (screen_to_world(c) - 64) % 256 == c,
        c < 128 ==> screen_to_world(c) == c + 64,
{
}

/// Going from world space to screen space and back gives the same coordinate,
/// and so does going from screen space to world space and back.
pub proof fn lemma_world_screen_round_trip(c: u8)
    ensures
        screen_to_world(world_to_screen(c) as u8) == c,
        world_to_screen(screen_to_world(c) as u8) == c,
{
}

} // verus!
