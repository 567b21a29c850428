//! The images named by a wallpaper manifest.
use vstd::prelude::*;

verus! {

/// What every manifest entry says about its image.
#[derive(Debug, PartialEq, Eq)]
pub struct CommonInput {
    /// The image file, relative to the manifest's directory.
    pub file_name: String,
    /// Whether this image is the one shown where dynamic wallpapers are not supported.
    pub is_primary: bool,
    /// Whether this image stands for the light appearance.
    pub is_for_light: bool,
    /// Whether this image stands for the dark appearance.
    pub is_for_dark: bool,
}

/// An image shown from a time of day, written `HH:MM:SS`.
#[derive(Debug, PartialEq, Eq)]
pub struct TimeInput {
    pub common: CommonInput,
    pub time: String,
}

/// An image shown at a position of the sun. The angles, in degrees, are
/// carried as the IEEE-754 bit patterns of the manifest's numbers, which the
/// metadata passes on unchanged.
#[derive(Debug, PartialEq, Eq)]
pub struct SolarInput {
    pub common: CommonInput,
    pub altitude_bits: u64,
    pub azimuth_bits: u64,
}

/// One manifest entry.
#[derive(Debug, PartialEq, Eq)]
pub enum Input {
    Time(TimeInput),
    Solar(SolarInput),
}

impl Input {
    pub open spec fn spec_common(self) -> CommonInput {
        match self {
            Input::Time(t) => t.common,
            Input::Solar(s) => s.common,
        }
    }

    pub open spec fn spec_is_primary(self) -> bool {
        self.spec_common().is_primary
    }

    pub open spec fn spec_is_for_light(self) -> bool {
        self.spec_common().is_for_light
    }

    pub open spec fn spec_is_for_dark(self) -> bool {
        self.spec_common().is_for_dark
    }

    /// The file name of the image.
    pub fn file_name(&self) -> (name: &str)
        ensures
            name@ == self.spec_common().file_name@,
    {
        match self {
            Input::Time(input) => input.common.file_name.as_str(),
            Input::Solar(input) => input.common.file_name.as_str(),
        }
    }

    pub fn is_primary(&self) -> (b: bool)
        ensures
            b == self.spec_is_primary(),
    {
        match self {
            Input::Time(input) => input.common.is_primary,
            Input::Solar(input) => input.common.is_primary,
        }
    }

    pub fn is_for_light(&self) -> (b: bool)
        ensures
            b == self.spec_is_for_light(),
    {
        match self {
            Input::Time(input) => input.common.is_for_light,
            Input::Solar(input) => input.common.is_for_light,
        }
    }

    pub fn is_for_dark(&self) -> (b: bool)
        ensures
            b == self.spec_is_for_dark(),
    {
        match self {
            Input::Time(input) => input.common.is_for_dark,
            Input::Solar(input) => input.common.is_for_dark,
        }
    }

    /// The time of day of a time entry; `None` for a solar entry.
    pub fn time(&self) -> (t: Option<&str>)
        ensures
            match self {
                Input::Time(input) => t is Some && t.unwrap()@ == input.time@,
                Input::Solar(_) => t is None,
            },
    {
        match self {
            Input::Time(input) => Some(input.time.as_str()),
            Input::Solar(_) => None,
        }
    }

    /// The altitude and azimuth of a solar entry; `None` for a time entry.
    pub fn solar_position(&self) -> (p: Option<(u64, u64)>)
        ensures
            match self {
                Input::Time(_) => p is None,
                Input::Solar(input) => p == Some((input.altitude_bits, input.azimuth_bits)),
            },
    {
        match self {
            Input::Time(_) => None,
            Input::Solar(input) => Some((input.altitude_bits, input.azimuth_bits)),
        }
    }
}

} // verus!
