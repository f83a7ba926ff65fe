use vstd::prelude::*;

verus! {

/// Command-line arguments, as plain values.  Parsing the command line is
/// the launcher's business; the kernel only carries the result around.
#[derive(Debug)]
pub struct Args {
    pub arg_points_file: String,
    pub arg_combs_file: String,
    pub arg_dest_prefix: String,
    pub flag_output_directories: bool,
}

/// Feature toggles for a run.  `refine_poly` and `rm_crossing` are
/// accepted but inert: the corresponding passes are not implemented, and
/// the flags are kept so that existing configurations remain valid.
#[derive(Clone, Copy, Debug, PartialEq, Eq, Structural)]
pub struct ConfigRun {
    pub fix_hull: bool,
    pub refine_poly: bool,
    pub rm_crossing: bool,
}

/// An exact positive rational, used where the configuration holds a
/// scale factor.  The value it stands for is `num / den`.
#[derive(Clone, Copy, Debug, PartialEq, Eq, Structural)]
pub struct Ratio {
    pub num: i64,
    pub den: i64,
}

/// A usable configuration ratio: positive, with a denominator small
/// enough that fixed-point products stay inside an `i64`.
pub open spec fn ratio_valid(r: Ratio) -> bool {
    1 <= r.num && 1 <= r.den <= 1_000_000
}

/// Geometry parameters of the blob pass.  `mindist_radius_factor`
/// divides each nearest-neighbor distance to produce the vertex radius;
/// `refine_epsilon` belongs to the inert refinement pass and is carried
/// at coordinate scale.
#[derive(Clone, Copy, Debug, PartialEq, Eq, Structural)]
pub struct ConfigB2 {
    pub mindist_radius_factor: Ratio,
    pub refine_epsilon: i64,
}

/// The configuration the kernel reads.  Image and drawing settings are
/// the rendering collaborator's and do not enter the geometry.
#[derive(Clone, Copy, Debug, PartialEq, Eq, Structural)]
pub struct Config {
    pub run: ConfigRun,
    pub b2: ConfigB2,
}

} // verus!
