use vstd::prelude::*;

use crate::measurements::{determine_dimensions_from_spec, spec_dimensions, INCHES_PER_FOOT};
use crate::numerical::{decimal_text, FractionalValue, FRACTION_SCALE};
use crate::LumberError;

verus! {

/// The actual size, in millionths of an inch, of a board of the given
/// nominal size, where the conversion chart holds that size.
pub open spec fn actual_for_nominal(nominal: int) -> Option<int> {
    if nominal == 1_000_000 {
        Some(750_000)
    } else if nominal == 1_250_000 {
        Some(1_000_000)
    } else if nominal == 1_500_000 {
        Some(1_250_000)
    } else if nominal == 2_000_000 {
        Some(1_500_000)
    } else if nominal == 3_000_000 {
        Some(2_500_000)
    } else if nominal == 4_000_000 {
        Some(3_500_000)
    } else if nominal == 5_000_000 {
        Some(4_500_000)
    } else if nominal == 6_000_000 {
        Some(5_500_000)
    } else if nominal == 7_000_000 {
        Some(6_250_000)
    } else if nominal == 8_000_000 {
        Some(7_250_000)
    } else if nominal == 10_000_000 {
        Some(9_250_000)
    } else if nominal == 12_000_000 {
        Some(11_250_000)
    } else {
        None
    }
}

/// The nominal size, in millionths of an inch, that an actual measurement in
/// millionths of an inch rounds up to, with the bounds of the stock chart:
/// up to 1, below 1.25, below 1.5, then up to each whole inch from 2 to 11,
/// and below 12. Measurements from 12 inches on have none.
pub open spec fn nearest_nominal_inches(actual: int) -> Option<int> {
    if actual <= 1_000_000 {
        Some(1_000_000)
    } else if actual < 1_250_000 {
        Some(1_250_000)
    } else if actual < 1_500_000 {
        Some(1_500_000)
    } else if actual <= 2_000_000 {
        Some(2_000_000)
    } else if actual <= 3_000_000 {
        Some(3_000_000)
    } else if actual <= 4_000_000 {
        Some(4_000_000)
    } else if actual <= 5_000_000 {
        Some(5_000_000)
    } else if actual <= 6_000_000 {
        Some(6_000_000)
    } else if actual <= 7_000_000 {
        Some(7_000_000)
    } else if actual <= 8_000_000 {
        Some(8_000_000)
    } else if actual <= 9_000_000 {
        Some(9_000_000)
    } else if actual <= 10_000_000 {
        Some(10_000_000)
    } else if actual <= 11_000_000 {
        Some(11_000_000)
    } else if actual < 12_000_000 {
        Some(12_000_000)
    } else {
        None
    }
}

/// The longest stock length, in feet.
pub const MAX_LENGTH_FEET: u64 = 16;

/// A length in millionths of a foot rounded up to whole feet, where it is at
/// most the longest stock length.
pub open spec fn nearest_nominal_feet(actual: int) -> Option<int> {
    if actual > MAX_LENGTH_FEET * FRACTION_SCALE {
        None
    } else {
        Some((actual + FRACTION_SCALE - 1) / FRACTION_SCALE as int * FRACTION_SCALE)
    }
}

/// The nominal-to-actual chart, as (nominal, actual) pairs in inches.
pub fn get_conversion_chart_inches() -> (r: Vec<(FractionalValue, FractionalValue)>)
    ensures
        r@.len() == 12,
        forall|i: int| 0 <= i < r@.len() ==> actual_for_nominal((#[trigger] r@[i]).0@) == Some(r@[i].1@),
        forall|n: int| #[trigger] actual_for_nominal(n) is Some ==> exists|i: int| 0 <= i < r@.len() && (#[trigger] r@[i]).0@ == n,
{
    let r = vec![
        (FractionalValue::from_whole(1), FractionalValue::new(0, 750_000)),
        (FractionalValue::new(1, 250_000), FractionalValue::from_whole(1)),
        (FractionalValue::new(1, 500_000), FractionalValue::new(1, 250_000)),
        (FractionalValue::from_whole(2), FractionalValue::new(1, 500_000)),
        (FractionalValue::from_whole(3), FractionalValue::new(2, 500_000)),
        (FractionalValue::from_whole(4), FractionalValue::new(3, 500_000)),
        (FractionalValue::from_whole(5), FractionalValue::new(4, 500_000)),
        (FractionalValue::from_whole(6), FractionalValue::new(5, 500_000)),
        (FractionalValue::from_whole(7), FractionalValue::new(6, 250_000)),
        (FractionalValue::from_whole(8), FractionalValue::new(7, 250_000)),
        (FractionalValue::from_whole(10), FractionalValue::new(9, 250_000)),
        (FractionalValue::from_whole(12), FractionalValue::new(11, 250_000)),
    ];
    proof {
        assert forall|n: int| #[trigger] actual_for_nominal(n) is Some implies exists|i: int|
            0 <= i < r@.len() && (#[trigger] r@[i]).0@ == n by {
            if n == 1_000_000 {
                assert(r@[0].0@ == n);
            } else if n == 1_250_000 {
                assert(r@[1].0@ == n);
            } else if n == 1_500_000 {
                assert(r@[2].0@ == n);
            } else if n == 2_000_000 {
                assert(r@[3].0@ == n);
            } else if n == 3_000_000 {
                assert(r@[4].0@ == n);
            } else if n == 4_000_000 {
                assert(r@[5].0@ == n);
            } else if n == 5_000_000 {
                assert(r@[6].0@ == n);
            } else if n == 6_000_000 {
                assert(r@[7].0@ == n);
            } else if n == 7_000_000 {
                assert(r@[8].0@ == n);
            } else if n == 8_000_000 {
                assert(r@[9].0@ == n);
            } else if n == 10_000_000 {
                assert(r@[10].0@ == n);
            } else {
                assert(r@[11].0@ == n);
            }
        }
    }
    r
}

/// The actual size of a nominal size in inches, from the conversion chart;
/// a size that the chart does not hold is a lookup error.
pub fn to_actual_size_in_inches(input: FractionalValue) -> (r: Result<FractionalValue, LumberError>)
    ensures
        r matches Ok(v) ==> actual_for_nominal(input@) == Some(v@),
        r is Err ==> actual_for_nominal(input@) is None && r == Err::<FractionalValue, LumberError>(LumberError::Lookup),
{
    let chart = get_conversion_chart_inches();
    let key = input.millionths();
    let mut i: usize = 0;
    while i < chart.len()
        invariant
            i <= chart@.len(),
            chart@.len() == 12,
            key == input@,
            forall|k: int| 0 <= k < chart@.len() ==> actual_for_nominal((#[trigger] chart@[k]).0@) == Some(chart@[k].1@),
            forall|n: int| #[trigger] actual_for_nominal(n) is Some ==> exists|k: int| 0 <= k < chart@.len() && (#[trigger] chart@[k]).0@ == n,
            forall|k: int| 0 <= k < i ==> (#[trigger] chart@[k]).0@ != input@,
        decreases chart@.len() - i,
    {
        if chart[i].0.millionths() == key {
            return Ok(chart[i].1);
        }
        i += 1;
    }
    Err(LumberError::Lookup)
}

/// A board: width and height in inches and length in feet, tagged with
/// whether these are nominal call-outs or true measurements.
#[derive(Clone, Copy, Debug)]
pub struct Lumber {
    width_inches: FractionalValue,
    height_inches: FractionalValue,
    length_feet: FractionalValue,
    is_nominal: bool,
}

/// A board as numbers: width and height in millionths of an inch, length in
/// millionths of a foot.
pub struct LumberView {
    pub width: int,
    pub height: int,
    pub length: int,
    pub is_nominal: bool,
}

impl LumberView {
    /// The board's identity, `{width}x{height}x{length}`; the mode takes no
    /// part in it.
    pub open spec fn identifier(self) -> Seq<char> {
        decimal_text(self.width) + seq!['x'] + decimal_text(self.height) + seq!['x']
            + decimal_text(self.length)
    }
}

impl View for Lumber {
    type V = LumberView;

    closed spec fn view(&self) -> LumberView {
        LumberView {
            width: self.width_inches@,
            height: self.height_inches@,
            length: self.length_feet@,
            is_nominal: self.is_nominal,
        }
    }
}

pub open spec fn view_result(r: Result<Lumber, LumberError>) -> Result<LumberView, LumberError> {
    match r {
        Ok(l) => Ok(l@),
        Err(e) => Err(e),
    }
}

/// The board in actual sizes: a nominal board's width and height come from
/// the conversion chart, its length stays; an actual board is kept as it is.
pub open spec fn spec_as_actual(l: LumberView) -> Result<LumberView, LumberError> {
    if !l.is_nominal {
        Ok(l)
    } else {
        match (actual_for_nominal(l.width), actual_for_nominal(l.height)) {
            (Some(w), Some(h)) => Ok(LumberView { width: w, height: h, length: l.length, is_nominal: false }),
            _ => Err(LumberError::Lookup),
        }
    }
}

/// The board in nominal sizes: an actual board's smaller cross dimension
/// becomes the width, each cross dimension rounds up to a nominal size in
/// inches and the length to whole feet, and the result keeps the actual tag;
/// a nominal board is kept as it is.
pub open spec fn spec_as_nearest_nominal(l: LumberView) -> Result<LumberView, LumberError> {
    if l.is_nominal {
        Ok(l)
    } else {
        let narrow = if l.width > l.height { l.height } else { l.width };
        let wide = if l.width > l.height { l.width } else { l.height };
        match (nearest_nominal_inches(narrow), nearest_nominal_inches(wide), nearest_nominal_feet(l.length)) {
            (Some(w), Some(h), Some(f)) => Ok(LumberView { width: w, height: h, length: f, is_nominal: false }),
            _ => Err(LumberError::UnsupportedSize),
        }
    }
}

/// The chart gives each standard nominal size its fixed actual size, in
/// millionths of an inch; `to_actual_size_in_inches` returns exactly these,
/// so calls on the same size agree.
pub proof fn lemma_standard_sizes()
    ensures
        actual_for_nominal(1_000_000) == Some(750_000int),
        actual_for_nominal(1_250_000) == Some(1_000_000int),
        actual_for_nominal(1_500_000) == Some(1_250_000int),
        actual_for_nominal(2_000_000) == Some(1_500_000int),
        actual_for_nominal(3_000_000) == Some(2_500_000int),
        actual_for_nominal(4_000_000) == Some(3_500_000int),
        actual_for_nominal(5_000_000) == Some(4_500_000int),
        actual_for_nominal(6_000_000) == Some(5_500_000int),
        actual_for_nominal(7_000_000) == Some(6_250_000int),
        actual_for_nominal(8_000_000) == Some(7_250_000int),
        actual_for_nominal(10_000_000) == Some(9_250_000int),
        actual_for_nominal(12_000_000) == Some(11_250_000int),
{
}

/// Converting to actual sizes twice gives what converting once gives.
pub proof fn lemma_as_actual_idempotent(l: LumberView)
    ensures
        spec_as_actual(l) matches Ok(a) ==> spec_as_actual(a) == Ok::<LumberView, LumberError>(a),
{
}

/// A nominal board converts to nominal sizes unchanged.
pub proof fn lemma_nominal_kept(l: LumberView)
    requires
        l.is_nominal,
    ensures
        spec_as_nearest_nominal(l) == Ok::<LumberView, LumberError>(l),
{
}

impl Lumber {
    /// The nominal size in inches that an actual measurement in inches rounds up
    /// to (see `nearest_nominal_inches`); from 12 inches on, an unsupported size.
    pub fn get_nearest_nominal_size_inches(inches: FractionalValue) -> (r: Result<FractionalValue, LumberError>)
        ensures
            r matches Ok(v) ==> nearest_nominal_inches(inches@) == Some(v@),
            r is Err ==> nearest_nominal_inches(inches@) is None && r == Err::<FractionalValue, LumberError>(LumberError::UnsupportedSize),
    {
        let v = inches.millionths();
        let nominal: u64 = if v <= 1_000_000 {
            1_000_000
        } else if v < 1_250_000 {
            1_250_000
        } else if v < 1_500_000 {
            1_500_000
        } else if v <= 2_000_000 {
            2_000_000
        } else if v <= 3_000_000 {
            3_000_000
        } else if v <= 4_000_000 {
            4_000_000
        } else if v <= 5_000_000 {
            5_000_000
        } else if v <= 6_000_000 {
            6_000_000
        } else if v <= 7_000_000 {
            7_000_000
        } else if v <= 8_000_000 {
            8_000_000
        } else if v <= 9_000_000 {
            9_000_000
        } else if v <= 10_000_000 {
            10_000_000
        } else if v <= 11_000_000 {
            11_000_000
        } else if v < 12_000_000 {
            12_000_000
        } else {
            return Err(LumberError::UnsupportedSize);
        };
        Ok(FractionalValue::from_millionths(nominal))
    }

    /// A length in feet rounded up to whole feet (see `nearest_nominal_feet`);
    /// beyond the longest stock length, an unsupported size.
    pub fn get_nearest_nominal_size_feet(feet: FractionalValue) -> (r: Result<FractionalValue, LumberError>)
        ensures
            r matches Ok(v) ==> nearest_nominal_feet(feet@) == Some(v@),
            r is Err ==> nearest_nominal_feet(feet@) is None && r == Err::<FractionalValue, LumberError>(LumberError::UnsupportedSize),
    {
        let v = feet.millionths();
        if v > MAX_LENGTH_FEET * FRACTION_SCALE {
            return Err(LumberError::UnsupportedSize);
        }
        Ok(FractionalValue::from_millionths((v + FRACTION_SCALE - 1) / FRACTION_SCALE * FRACTION_SCALE))
    }

    /// The board's identity, `{width}x{height}x{length}`, each number in its
    /// shortest decimal text.
    pub fn get_identifier_string(&self) -> (r: String)
        ensures
            r@ == self@.identifier(),
    {
        proof {
            reveal_strlit("x");
        }
        let mut r = self.width_inches.to_text();
        r.append("x");
        let height = self.height_inches.to_text();
        r.append(height.as_str());
        r.append("x");
        let length = self.length_feet.to_text();
        r.append(length.as_str());
        r
    }

    pub fn get_width_in_inches(&self) -> (r: FractionalValue)
        ensures
            r@ == self@.width,
    {
        self.width_inches
    }

    pub fn get_height_in_inches(&self) -> (r: FractionalValue)
        ensures
            r@ == self@.height,
    {
        self.height_inches
    }

    pub fn get_length_in_feet(&self) -> (r: FractionalValue)
        ensures
            r@ == self@.length,
    {
        self.length_feet
    }

    pub fn get_length_in_inches(&self) -> (r: FractionalValue)
        requires
            self@.length * INCHES_PER_FOOT <= u64::MAX,
        ensures
            r@ == self@.length * INCHES_PER_FOOT,
    {
        FractionalValue::from_millionths(self.length_feet.millionths() * INCHES_PER_FOOT)
    }

    pub fn is_nominal(&self) -> (r: bool)
        ensures
            r == self@.is_nominal,
    {
        self.is_nominal
    }

    /// A board given in nominal sizes.
    pub fn create_nominal(width_inches: FractionalValue, height_inches: FractionalValue, length_feet: FractionalValue) -> (r: Lumber)
        ensures
            r@ == (LumberView { width: width_inches@, height: height_inches@, length: length_feet@, is_nominal: true }),
    {
        Lumber { width_inches, height_inches, length_feet, is_nominal: true }
    }

    /// A board given in actual sizes.
    pub fn create_actual(width_inches: FractionalValue, height_inches: FractionalValue, length_feet: FractionalValue) -> (r: Lumber)
        ensures
            r@ == (LumberView { width: width_inches@, height: height_inches@, length: length_feet@, is_nominal: false }),
    {
        Lumber { width_inches, height_inches, length_feet, is_nominal: false }
    }

    /// A board in actual sizes read from a spec such as `2x4x8`.
    pub fn create_from_spec(spec: &String) -> (r: Result<Lumber, LumberError>)
        ensures
            view_result(r) == match spec_dimensions(spec@) {
                Some((w, h, l)) => Ok(LumberView { width: w, height: h, length: l, is_nominal: false }),
                None => Err(LumberError::Parse),
            },
    {
        let (w, h, l) = determine_dimensions_from_spec(spec.as_str())?;
        Ok(Lumber::create_actual(w, h, l))
    }

    /// The board in actual sizes (see `spec_as_actual`).
    pub fn as_actual_size(&self) -> (r: Result<Lumber, LumberError>)
        ensures
            view_result(r) == spec_as_actual(self@),
    {
        if self.is_nominal {
            let w = to_actual_size_in_inches(self.width_inches)?;
            let h = to_actual_size_in_inches(self.height_inches)?;
            Ok(Lumber { width_inches: w, height_inches: h, length_feet: self.length_feet, is_nominal: false })
        } else {
            Ok(*self)
        }
    }

    /// The board in nominal sizes (see `spec_as_nearest_nominal`).
    pub fn as_nearest_nominal(&self) -> (r: Result<Lumber, LumberError>)
        ensures
            view_result(r) == spec_as_nearest_nominal(self@),
    {
        if self.is_nominal {
            return Ok(*self);
        }
        let (narrow, wide) = if self.width_inches.millionths() > self.height_inches.millionths() {
            (self.height_inches, self.width_inches)
        } else {
            (self.width_inches, self.height_inches)
        };
        let w = Lumber::get_nearest_nominal_size_inches(narrow)?;
        let h = Lumber::get_nearest_nominal_size_inches(wide)?;
        let l = Lumber::get_nearest_nominal_size_feet(self.length_feet)?;
        Ok(Lumber { width_inches: w, height_inches: h, length_feet: l, is_nominal: false })
    }
}

impl PartialEq for Lumber {
    fn eq(&self, other: &Lumber) -> (r: bool) {
        self.get_identifier_string() == other.get_identifier_string()
    }
}

impl vstd::std_specs::cmp::PartialEqSpecImpl for Lumber {
    open spec fn obeys_eq_spec() -> bool {
        true
    }

    open spec fn eq_spec(&self, other: &Lumber) -> bool {
        self@.identifier() == other@.identifier()
    }
}

impl Eq for Lumber {
}

} // verus!
