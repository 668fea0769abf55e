//! The map projections a render can use. Their geometry is floating-point
//! work and lives with the renderer; this names them.

use vstd::prelude::*;

verus! {

#[derive(Clone, Copy, PartialEq, Eq, Structural, Debug)]
pub enum ProjectionMode {
    Mercator,
    Peters,
    Square,
    Stereographic,
    Orthographic,
    Gnomonic,
    Azimuthal,
    Conical,
    Mollweide,
    Sinusoidal,
    Icosahedral,
}

} // verus!
