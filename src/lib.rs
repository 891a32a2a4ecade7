use vstd::prelude::*;

pub mod numerical;
pub mod measurements;
pub mod lumber;
pub mod cut_list;

pub use cut_list::{CutList, Settings};
pub use lumber::{get_conversion_chart_inches, to_actual_size_in_inches, Lumber};
pub use numerical::FractionalValue;

verus! {

/// Why a size could not be given.
#[derive(Clone, Copy, Debug, PartialEq, Eq, Structural)]
pub enum LumberError {
    /// A nominal size that the conversion chart does not hold.
    Lookup,
    /// A size beyond the largest stock size.
    UnsupportedSize,
    /// A spec that does not give three numeric dimensions.
    Parse,
}

} // verus!
