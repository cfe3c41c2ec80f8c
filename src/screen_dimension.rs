use vstd::prelude::*;

verus! {

/// The game window sizes the matchers are set up for.
#[derive(Clone, Copy, PartialEq, Eq, Structural, Debug)]
pub enum ScreenDimension {
    X1280Y720,
}

impl ScreenDimension {
    pub fn width(&self) -> (w: u32)
        ensures
            w == 1280,
    {
        match self {
            ScreenDimension::X1280Y720 => 1280,
        }
    }

    pub fn height(&self) -> (h: u32)
        ensures
            h == 720,
    {
        match self {
            ScreenDimension::X1280Y720 => 720,
        }
    }

    /// The size written as `<width>x<height>`.
    pub fn to_str(&self) -> (s: &'static str)
        ensures
            s@ == "1280x720"@,
    {
        match self {
            ScreenDimension::X1280Y720 => "1280x720",
        }
    }
}

impl Default for ScreenDimension {
    fn default() -> (d: Self)
        ensures
            d == ScreenDimension::X1280Y720,
    {
        ScreenDimension::X1280Y720
    }
}

} // verus!
