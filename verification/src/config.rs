//! The settings of a game and the reasons for which settings are refused.

use vstd::prelude::*;
use crate::coordinates::Coordinates;

verus! {

/// Why a field cannot be laid out.
#[derive(Debug, Copy, Clone, Eq, PartialEq, Structural)]
pub enum ConfigurationError {
    /// The grid has no column or no row.
    ZeroSized,
    /// There are not fewer bombs than cells, or more than a grid can record.
    TooManyBombs,
}

/// The reason for which a field of `width` by `height` cells with `bombs`
/// bombs is refused, if it is: a grid without cells first, then a number of
/// bombs that leaves no cell free.
pub open spec fn refusal(width: u16, height: u16, bombs: nat) -> Option<ConfigurationError> {
    if width == 0 || height == 0 {
        Some(ConfigurationError::ZeroSized)
    } else if bombs >= (width as nat) * (height as nat) || bombs > u16::MAX {
        Some(ConfigurationError::TooManyBombs)
    } else {
        None
    }
}

/// The two parameters that set the difficulty of a game: the size of the
/// grid, `x` columns by `y` rows, and the number of bombs.
#[derive(Debug, Copy, Clone, Eq, PartialEq, Structural)]
pub struct DifficultySettings {
    pub grid_size: Coordinates,
    pub bomb_count: u16,
}

impl DifficultySettings {
    /// The reason for which these settings are refused, if they are.
    pub open spec fn refusal(self) -> Option<ConfigurationError> {
        refusal(self.grid_size.x, self.grid_size.y, self.bomb_count as nat)
    }

    /// Whether a field can be laid out with these settings.
    pub open spec fn valid(self) -> bool {
        self.refusal() is None
    }

    pub fn beginner() -> (s: DifficultySettings)
        ensures
            s.grid_size == (Coordinates { x: 9, y: 9 }),
            s.bomb_count == 10,
            s.valid(),
    {
        DifficultySettings { grid_size: Coordinates::new(9, 9), bomb_count: 10 }
    }

    pub fn intermediate() -> (s: DifficultySettings)
        ensures
            s.grid_size == (Coordinates { x: 16, y: 16 }),
            s.bomb_count == 40,
            s.valid(),
    {
        DifficultySettings { grid_size: Coordinates::new(16, 16), bomb_count: 40 }
    }

    pub fn expert() -> (s: DifficultySettings)
        ensures
            s.grid_size == (Coordinates { x: 30, y: 16 }),
            s.bomb_count == 99,
            s.valid(),
    {
        DifficultySettings { grid_size: Coordinates::new(30, 16), bomb_count: 99 }
    }

    /// Settings of any size, as given.
    pub fn custom(width: u16, height: u16, bomb_count: u16) -> (s: DifficultySettings)
        ensures
            s.grid_size == (Coordinates { x: width, y: height }),
            s.bomb_count == bomb_count,
    {
        DifficultySettings { grid_size: Coordinates::new(width, height), bomb_count }
    }

    /// Tests the settings: `Ok` when a field can be laid out with them, else
    /// the reason why not.
    pub fn check(&self) -> (r: Result<(), ConfigurationError>)
        ensures
            r == (match self.refusal() {
                Some(e) => Err::<(), ConfigurationError>(e),
                None => Ok(()),
            }),
    {
        let w = self.grid_size.x;
        let h = self.grid_size.y;
        if w == 0 || h == 0 {
            return Err(ConfigurationError::ZeroSized);
        }
        let cells: u32 = area(w, h);
        if self.bomb_count as u32 >= cells {
            return Err(ConfigurationError::TooManyBombs);
        }
        Ok(())
    }
}

impl Default for DifficultySettings {
    fn default() -> (s: DifficultySettings)
        ensures
            s.grid_size == (Coordinates { x: 16, y: 16 }),
            s.bomb_count == 40,
    {
        DifficultySettings::intermediate()
    }
}

/// The number of cells of a grid of `width` by `height`.
pub fn area(width: u16, height: u16) -> (cells: u32)
    ensures
        cells == (width as nat) * (height as nat),
{
    assert((width as nat) * (height as nat) <= 0xffff * 0xffff) by (nonlinear_arith)
        requires
            width <= 0xffff,
            height <= 0xffff,
    ;
    width as u32 * height as u32
}

} // verus!
