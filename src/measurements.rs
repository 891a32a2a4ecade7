use vstd::prelude::*;

use crate::numerical::{chars_of, decimal_value, FractionalValue};
use crate::LumberError;

verus! {

/// Inches in one foot.
pub const INCHES_PER_FOOT: u64 = 12;

/// The unit in which a dimension of a spec is wanted.
#[derive(Clone, Copy, Debug, PartialEq, Eq, Structural)]
pub enum Units {
    Inches,
    Feet,
}

pub open spec fn is_space(c: char) -> bool {
    c == ' ' || c == '\t' || c == '\n' || c == '\r' || c == '\x0B' || c == '\x0C'
}

/// A unit mark that may follow a number: `'` for feet, `"` for inches.
pub open spec fn is_unit_mark(c: char) -> bool {
    c == '\'' || c == '"'
}

/// The letter that separates the dimensions of a spec, in either case.
pub open spec fn is_separator(c: char) -> bool {
    c == 'x' || c == 'X'
}

pub open spec fn trim_start(s: Seq<char>) -> Seq<char>
    decreases s.len(),
{
    if s.len() > 0 && is_space(s[0]) {
        trim_start(s.drop_first())
    } else {
        s
    }
}

pub open spec fn trim_end(s: Seq<char>) -> Seq<char>
    decreases s.len(),
{
    if s.len() > 0 && is_space(s.last()) {
        trim_end(s.drop_last())
    } else {
        s
    }
}

/// `s` without the white space at either end.
pub open spec fn trim(s: Seq<char>) -> Seq<char> {
    trim_end(trim_start(s))
}

/// `s` without the unit marks at its end.
pub open spec fn strip_unit_marks(s: Seq<char>) -> Seq<char>
    decreases s.len(),
{
    if s.len() > 0 && is_unit_mark(s.last()) {
        strip_unit_marks(s.drop_last())
    } else {
        s
    }
}

/// What one dimension of a spec gives in the wanted unit, in millionths.
///
/// The number is read after trimming and dropping the trailing unit marks. A
/// number marked in inches (`"`) and wanted in feet is divided by twelve
/// (rounded down to the millionth); one marked in feet (`'`) and wanted in
/// inches is multiplied by twelve; an unmarked number is taken to be in the
/// wanted unit already.
pub open spec fn token_value(token: Seq<char>, unit: Units) -> Option<int> {
    let t = trim(token);
    match decimal_value(strip_unit_marks(t)) {
        None => None,
        Some(v) => Some(
            match unit {
                Units::Feet => if t.len() > 0 && t.last() == '"' {
                    v / INCHES_PER_FOOT as int
                } else {
                    v
                },
                Units::Inches => if t.len() > 0 && t.last() == '\'' {
                    v * INCHES_PER_FOOT
                } else {
                    v
                },
            },
        ),
    }
}

/// The pieces of `s` between separators, in order; `s` with no separator is
/// one piece.
pub open spec fn split_tokens(s: Seq<char>) -> Seq<Seq<char>>
    decreases s.len(),
{
    if s.len() == 0 {
        seq![Seq::empty()]
    } else {
        let prev = split_tokens(s.drop_last());
        if is_separator(s.last()) {
            prev.push(Seq::empty())
        } else {
            prev.update(prev.len() - 1, prev.last().push(s.last()))
        }
    }
}

/// Width and height in inches and length in feet, in millionths, that a
/// spec such as `2x4x8` or `2"x4"x8'` gives: the first three pieces, where
/// each reads as a number; further pieces are ignored.
pub open spec fn spec_dimensions(s: Seq<char>) -> Option<(int, int, int)> {
    let t = split_tokens(s);
    if t.len() < 3 {
        None
    } else {
        match (token_value(t[0], Units::Inches), token_value(t[1], Units::Inches), token_value(t[2], Units::Feet)) {
            (Some(w), Some(h), Some(l)) => Some((w, h, l)),
            _ => None,
        }
    }
}

proof fn lemma_split_tokens_nonempty(s: Seq<char>)
    ensures
        split_tokens(s).len() >= 1,
    decreases s.len(),
{
    if s.len() > 0 {
        lemma_split_tokens_nonempty(s.drop_last());
    }
}

/// Splits the characters of a spec at each separator.
fn split_on_separators(s: &Vec<char>) -> (r: Vec<Vec<char>>)
    ensures
        r@.len() == split_tokens(s@).len(),
        forall|k: int| 0 <= k < r@.len() ==> (#[trigger] r@[k])@ == split_tokens(s@)[k],
{
    let n = s.len();
    let mut tokens: Vec<Vec<char>> = Vec::new();
    let mut current: Vec<char> = Vec::new();
    let mut i: usize = 0;
    proof {
        assert(s@.take(0) =~= Seq::<char>::empty());
    }
    while i < n
        invariant
            i <= n,
            n == s@.len(),
            split_tokens(s@.take(i as int)).len() == tokens@.len() + 1,
            forall|k: int| 0 <= k < tokens@.len() ==> (#[trigger] tokens@[k])@ == split_tokens(s@.take(i as int))[k],
            current@ == split_tokens(s@.take(i as int)).last(),
        decreases n - i,
    {
        let c = s[i];
        proof {
            assert(s@.take(i + 1).drop_last() =~= s@.take(i as int));
            assert(s@.take(i + 1).last() == c);
        }
        if c == 'x' || c == 'X' {
            tokens.push(current);
            current = Vec::new();
        } else {
            current.push(c);
        }
        i += 1;
        proof {
            let t = split_tokens(s@.take(i as int));
            assert forall|k: int| 0 <= k < tokens@.len() implies (#[trigger] tokens@[k])@ == t[k] by {}
        }
    }
    proof {
        assert(s@.take(n as int) =~= s@);
    }
    tokens.push(current);
    tokens
}

/// Reads one dimension of a spec, given as characters (see `token_value`).
fn token_from_chars(s: &Vec<char>, desired_unit: Units) -> (r: Result<FractionalValue, LumberError>)
    ensures
        r matches Ok(v) ==> token_value(s@, desired_unit) == Some(v@),
        r is Err ==> token_value(s@, desired_unit) is None && r == Err::<FractionalValue, LumberError>(LumberError::Parse),
{
    let n = s.len();
    let mut lo: usize = 0;
    proof {
        assert(s@.skip(0) =~= s@);
    }
    while lo < n && (s[lo] == ' ' || s[lo] == '\t' || s[lo] == '\n' || s[lo] == '\r' || s[lo] == '\x0B' || s[lo] == '\x0C')
        invariant
            lo <= n,
            n == s@.len(),
            trim_start(s@) == trim_start(s@.skip(lo as int)),
        decreases n - lo,
    {
        proof {
            assert(s@.skip(lo as int).drop_first() =~= s@.skip(lo + 1));
        }
        lo += 1;
    }
    let mut hi: usize = n;
    proof {
        assert(s@.subrange(lo as int, n as int) =~= s@.skip(lo as int));
    }
    while hi > lo && (s[hi - 1] == ' ' || s[hi - 1] == '\t' || s[hi - 1] == '\n' || s[hi - 1] == '\r' || s[hi - 1] == '\x0B' || s[hi - 1] == '\x0C')
        invariant
            lo <= hi <= n,
            n == s@.len(),
            trim(s@) == trim_end(s@.subrange(lo as int, hi as int)),
        decreases hi,
    {
        proof {
            assert(s@.subrange(lo as int, hi as int).drop_last() =~= s@.subrange(lo as int, hi - 1));
        }
        hi -= 1;
    }
    let ghost t = s@.subrange(lo as int, hi as int);
    assert(trim(s@) == t);
    let mut mk: usize = hi;
    while mk > lo && (s[mk - 1] == '\'' || s[mk - 1] == '"')
        invariant
            lo <= mk <= hi <= n,
            n == s@.len(),
            t == s@.subrange(lo as int, hi as int),
            strip_unit_marks(t) == strip_unit_marks(s@.subrange(lo as int, mk as int)),
        decreases mk,
    {
        proof {
            assert(s@.subrange(lo as int, mk as int).drop_last() =~= s@.subrange(lo as int, mk - 1));
        }
        mk -= 1;
    }
    let mut number: Vec<char> = Vec::new();
    let mut j: usize = lo;
    while j < mk
        invariant
            lo <= j <= mk <= n,
            n == s@.len(),
            number@ == s@.subrange(lo as int, j as int),
        decreases mk - j,
    {
        number.push(s[j]);
        proof {
            assert(number@ =~= s@.subrange(lo as int, j + 1));
        }
        j += 1;
    }
    assert(strip_unit_marks(t) == number@);
    match FractionalValue::parse_chars(&number) {
        None => Err(LumberError::Parse),
        Some(v) => {
            let m = v.millionths();
            let last_mark = if hi > lo {
                s[hi - 1]
            } else {
                ' '
            };
            proof {
                if hi > lo {
                    assert(t.last() == last_mark);
                }
            }
            match desired_unit {
                Units::Feet => if last_mark == '"' {
                    Ok(FractionalValue::from_millionths(m / INCHES_PER_FOOT))
                } else {
                    Ok(v)
                },
                Units::Inches => if last_mark == '\'' {
                    Ok(FractionalValue::from_millionths(m * INCHES_PER_FOOT))
                } else {
                    Ok(v)
                },
            }
        },
    }
}

/// Reads one dimension of a spec in the wanted unit (see `token_value`).
pub fn get_from_spec_token(spec_token: &str, desired_unit: Units) -> (r: Result<FractionalValue, LumberError>)
    ensures
        r matches Ok(v) ==> token_value(spec_token@, desired_unit) == Some(v@),
        r is Err ==> token_value(spec_token@, desired_unit) is None && r == Err::<FractionalValue, LumberError>(LumberError::Parse),
{
    let chars = chars_of(spec_token);
    token_from_chars(&chars, desired_unit)
}

/// Width and height in inches and length in feet that a spec gives (see
/// `spec_dimensions`); a spec with fewer than three pieces, or a piece that
/// is no number, is refused.
pub fn determine_dimensions_from_spec(spec: &str) -> (r: Result<(FractionalValue, FractionalValue, FractionalValue), LumberError>)
    ensures
        r matches Ok((w, h, l)) ==> spec_dimensions(spec@) == Some((w@, h@, l@)),
        r is Err ==> spec_dimensions(spec@) is None && r == Err::<(FractionalValue, FractionalValue, FractionalValue), LumberError>(LumberError::Parse),
{
    let chars = chars_of(spec);
    let tokens = split_on_separators(&chars);
    if tokens.len() < 3 {
        return Err(LumberError::Parse);
    }
    let width = token_from_chars(&tokens[0], Units::Inches)?;
    let height = token_from_chars(&tokens[1], Units::Inches)?;
    let length = token_from_chars(&tokens[2], Units::Feet)?;
    Ok((width, height, length))
}

} // verus!
