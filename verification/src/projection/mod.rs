//! Planetary projection: bodies, projection kinds and view settings.

use vstd::prelude::*;

pub mod export_dialog;
pub mod image_loading;
pub mod playback;
pub mod source_view;
pub mod worker;

pub use export_dialog::ExportDialog;
pub use source_view::SourceView;

verus! {

/// A body with known shape and rotation.
#[derive(Copy, Clone, PartialEq, Eq, Structural, Debug)]
pub enum Planet {
    Jupiter,
    Mars,
}

/// Number of known planets.
pub const NUM_PLANETS: usize = 2;

impl Planet {
    /// The planet whose position in the list of known planets is `index`.
    pub open spec fn at(index: int) -> Option<Planet> {
        if index == 0 {
            Some(Planet::Jupiter)
        } else if index == 1 {
            Some(Planet::Mars)
        } else {
            None
        }
    }

    pub open spec fn spec_index(self) -> int {
        match self {
            Planet::Jupiter => 0,
            Planet::Mars => 1,
        }
    }

    /// Length of one sidereal rotation, in seconds.
    pub open spec fn spec_sidereal_rotation(self) -> int {
        match self {
            Planet::Jupiter => 9int * 3600 + 55 * 60 + 30,
            Planet::Mars => 24int * 3600 + 37 * 60 + 23,
        }
    }

    pub fn name(&self) -> (name: &'static str)
        ensures
            *self == Planet::Jupiter ==> name@ == "Jupiter"@,
            *self == Planet::Mars ==> name@ == "Mars"@,
    {
        match self {
            Planet::Jupiter => "Jupiter",
            Planet::Mars => "Mars",
        }
    }

    /// Length of one sidereal rotation, in whole seconds.
    pub fn sidereal_rotation(&self) -> (seconds: u64)
        ensures
            seconds == self.spec_sidereal_rotation(),
    {
        match self {
            Planet::Jupiter => 9 * 3600 + 55 * 60 + 30,
            Planet::Mars => 24 * 3600 + 37 * 60 + 23,
        }
    }

    /// Position of the planet in the list of known planets.
    pub fn as_index(&self) -> (index: usize)
        ensures
            index == self.spec_index(),
            index < NUM_PLANETS,
            Planet::at(index as int) == Some(*self),
    {
        match self {
            Planet::Jupiter => 0,
            Planet::Mars => 1,
        }
    }

    /// The planet at position `index`, if there is one.
    pub fn from_index(index: usize) -> (planet: Option<Planet>)
        ensures
            planet == Planet::at(index as int),
            planet is Some <==> index < NUM_PLANETS,
            planet matches Some(p) ==> p.spec_index() == index,
    {
        if index == 0 {
            Some(Planet::Jupiter)
        } else if index == 1 {
            Some(Planet::Mars)
        } else {
            None
        }
    }
}

/// How the visible hemisphere is mapped onto a plane.
#[derive(Copy, Clone, PartialEq, Eq, Structural, Debug)]
pub enum ProjectionType {
    Equirectangular,
    LambertCylindricalEqualArea,
}

/// How dragging the pointer rotates a globe.
#[derive(Copy, Clone, PartialEq, Eq, Structural, Debug)]
pub enum DragRotation {
    NSEW,
    Free,
}

} // verus!
