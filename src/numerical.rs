use vstd::prelude::*;

verus! {

/// Millionths in one unit: values carry six decimal places.
pub const FRACTION_SCALE: u64 = 1_000_000;

/// The largest integer part that decimal text may carry.
pub const MAX_WHOLE: u64 = 1_000_000;

pub open spec fn is_digit(c: char) -> bool {
    '0' <= c && c <= '9'
}

pub open spec fn digit_value(c: char) -> int {
    c as int - '0' as int
}

pub open spec fn all_digits(s: Seq<char>) -> bool {
    forall|i: int| 0 <= i < s.len() ==> is_digit(#[trigger] s[i])
}

/// The number that a string of decimal digits denotes.
pub open spec fn digits_value(s: Seq<char>) -> int
    decreases s.len(),
{
    if s.len() == 0 {
        0
    } else {
        digits_value(s.drop_last()) * 10 + digit_value(s.last())
    }
}

/// The first position of `c` in `s`, or the length of `s` where `c` is absent.
pub open spec fn first_index_of(s: Seq<char>, c: char) -> int {
    if exists|i: int| 0 <= i < s.len() && s[i] == c {
        choose|i: int|
            0 <= i < s.len() && s[i] == c && forall|j: int| 0 <= j < i ==> s[j] != c
    } else {
        s.len() as int
    }
}

/// The first six digits after the point, padded with zeros.
pub open spec fn fraction_digits(f: Seq<char>) -> Seq<char> {
    Seq::new(6, |j: int| if j < f.len() { f[j] } else { '0' })
}

/// The value, in millionths, of decimal text: digits with at most one point
/// among them and at least one digit, such as `8`, `1.25`, `.334` or `5.`.
/// Digits past the sixth after the point are dropped; an integer part above
/// `MAX_WHOLE` is refused.
pub open spec fn decimal_value(s: Seq<char>) -> Option<int> {
    let p = first_index_of(s, '.');
    let int_part = s.take(p);
    let frac_part = if p < s.len() {
        s.skip(p + 1)
    } else {
        Seq::empty()
    };
    if int_part.len() + frac_part.len() > 0 && all_digits(int_part) && all_digits(frac_part)
        && digits_value(int_part) <= MAX_WHOLE {
        Some(digits_value(int_part) * FRACTION_SCALE + digits_value(fraction_digits(frac_part)))
    } else {
        None
    }
}

pub open spec fn digit_char(d: int) -> char {
    ((d + '0' as int) as u32) as char
}

/// Decimal digits of a natural number, without leading zeros.
pub open spec fn nat_text(n: nat) -> Seq<char>
    decreases n,
{
    if n < 10 {
        seq![digit_char(n as int)]
    } else {
        nat_text(n / 10).push(digit_char((n % 10) as int))
    }
}

/// The place value, in millionths, of the `j`-th digit after the point.
pub open spec fn place_value(j: int) -> int {
    if j == 0 {
        100_000
    } else if j == 1 {
        10_000
    } else if j == 2 {
        1_000
    } else if j == 3 {
        100
    } else if j == 4 {
        10
    } else {
        1
    }
}

pub open spec fn trim_trailing_zeros(s: Seq<char>) -> Seq<char>
    decreases s.len(),
{
    if s.len() > 0 && s.last() == '0' {
        trim_trailing_zeros(s.drop_last())
    } else {
        s
    }
}

/// The digits after the point of a fraction given in millionths, without
/// trailing zeros.
pub open spec fn fraction_text(f: int) -> Seq<char> {
    trim_trailing_zeros(Seq::new(6, |j: int| digit_char((f / place_value(j)) % 10)))
}

/// A value given in millionths written as the shortest decimal text: `8`,
/// `0.75`, `1.25`.
pub open spec fn decimal_text(v: int) -> Seq<char> {
    let whole = v / FRACTION_SCALE as int;
    let frac = v % FRACTION_SCALE as int;
    if frac == 0 {
        nat_text(whole as nat)
    } else {
        nat_text(whole as nat) + seq!['.'] + fraction_text(frac)
    }
}

pub proof fn lemma_first_index_of(s: Seq<char>, c: char, i: int)
    requires
        0 <= i <= s.len(),
        forall|j: int| 0 <= j < i ==> s[j] != c,
        i < s.len() ==> s[i] == c,
    ensures
        first_index_of(s, c) == i,
{
    if i < s.len() {
        assert(0 <= i < s.len() && s[i] == c && forall|j: int| 0 <= j < i ==> s[j] != c);
        let q = choose|q: int|
            0 <= q < s.len() && s[q] == c && forall|j: int| 0 <= j < q ==> s[j] != c;
        if q < i {
            assert(s[q] != c);
        } else if q > i {
            assert(s[i] != c);
        }
    } else {
        assert(!exists|k: int| 0 <= k < s.len() && s[k] == c) by {
            if exists|k: int| 0 <= k < s.len() && s[k] == c {
                let k = choose|k: int| 0 <= k < s.len() && s[k] == c;
                assert(s[k] != c);
            }
        }
    }
}

/// The characters of `text`, one by one.
pub fn chars_of(text: &str) -> (r: Vec<char>)
    ensures
        r@ == text@,
{
    let n = text.unicode_len();
    let mut r: Vec<char> = Vec::new();
    let mut i: usize = 0;
    while i < n
        invariant
            n == text@.len(),
            i <= n,
            r@ == text@.take(i as int),
        decreases n - i,
    {
        r.push(text.get_char(i));
        proof {
            assert(r@ =~= text@.take(i + 1));
        }
        i += 1;
    }
    proof {
        assert(r@ =~= text@);
    }
    r
}

/// The one-character text of a decimal digit.
fn digit_str(d: u64) -> (r: &'static str)
    requires
        d < 10,
    ensures
        r@ == seq![digit_char(d as int)],
{
    proof {
        reveal_strlit("0");
        reveal_strlit("1");
        reveal_strlit("2");
        reveal_strlit("3");
        reveal_strlit("4");
        reveal_strlit("5");
        reveal_strlit("6");
        reveal_strlit("7");
        reveal_strlit("8");
        reveal_strlit("9");
    }
    let r = if d == 0 {
        "0"
    } else if d == 1 {
        "1"
    } else if d == 2 {
        "2"
    } else if d == 3 {
        "3"
    } else if d == 4 {
        "4"
    } else if d == 5 {
        "5"
    } else if d == 6 {
        "6"
    } else if d == 7 {
        "7"
    } else if d == 8 {
        "8"
    } else {
        "9"
    };
    assert(r@ =~= seq![digit_char(d as int)]);
    r
}

fn place_value_of(j: usize) -> (r: u64)
    requires
        j < 6,
    ensures
        r == place_value(j as int),
        r > 0,
{
    if j == 0 {
        100_000
    } else if j == 1 {
        10_000
    } else if j == 2 {
        1_000
    } else if j == 3 {
        100
    } else if j == 4 {
        10
    } else {
        1
    }
}

/// Appends the decimal digits of `n`.
pub(crate) fn push_nat_text(n: u64, out: &mut String)
    ensures
        final(out)@ == old(out)@ + nat_text(n as nat),
    decreases n,
{
    if n >= 10 {
        push_nat_text(n / 10, out);
    }
    out.append(digit_str(n % 10));
    proof {
        if n >= 10 {
            assert(final(out)@ =~= old(out)@ + nat_text(n as nat));
        } else {
            assert(final(out)@ =~= old(out)@ + nat_text(n as nat));
        }
    }
}

/// Appends the digits after the point of a fraction given in millionths.
fn push_fraction_text(f: u64, out: &mut String)
    ensures
        final(out)@ == old(out)@ + fraction_text(f as int),
{
    let ghost six = Seq::new(6, |j: int| digit_char((f as int / place_value(j)) % 10));
    let mut k: usize = 6;
    proof {
        assert(six.take(6) =~= six);
    }
    while k > 0 && (f / place_value_of(k - 1)) % 10 == 0
        invariant
            k <= 6,
            six == Seq::new(6, |j: int| digit_char((f as int / place_value(j)) % 10)),
            trim_trailing_zeros(six) == trim_trailing_zeros(six.take(k as int)),
        decreases k,
    {
        proof {
            assert(six.take(k as int).drop_last() =~= six.take(k - 1));
            assert(six.take(k as int).last() == '0');
        }
        k -= 1;
    }
    proof {
        if k > 0 {
            let d = (f as int / place_value(k - 1)) % 10;
            assert(0 < d < 10);
            assert(six.take(k as int).last() == digit_char(d));
            assert(digit_char(d) != '0');
        }
        assert(six.take(6) =~= six);
    }
    let mut j: usize = 0;
    while j < k
        invariant
            j <= k <= 6,
            six == Seq::new(6, |j: int| digit_char((f as int / place_value(j)) % 10)),
            out@ == old(out)@ + six.take(j as int),
            trim_trailing_zeros(six) == six.take(k as int),
        decreases k - j,
    {
        let d = (f / place_value_of(j)) % 10;
        out.append(digit_str(d));
        proof {
            assert(six.take(j + 1) =~= six.take(j as int).push(six[j as int]));
            assert(out@ =~= old(out)@ + six.take(j + 1));
        }
        j += 1;
    }
}

/// A non-negative decimal quantity held as a whole number of millionths.
///
/// Equality and hashing go by that number, so two values written with the
/// same digits (`1.25`, `1.250`) are the same key, while `1.25` and `1.26`
/// are not.
#[derive(Clone, Copy, Debug, PartialEq, Eq, Hash, Structural)]
pub struct FractionalValue {
    millionths: u64,
}

impl View for FractionalValue {
    type V = int;

    /// The value, counted in millionths.
    closed spec fn view(&self) -> int {
        self.millionths as int
    }
}

impl FractionalValue {
    /// The value `whole + millionths / 1_000_000`.
    pub fn new(whole: u32, millionths: u32) -> (r: FractionalValue)
        requires
            millionths < FRACTION_SCALE,
        ensures
            r@ == whole as int * FRACTION_SCALE + millionths as int,
    {
        FractionalValue { millionths: whole as u64 * FRACTION_SCALE + millionths as u64 }
    }

    pub fn from_whole(whole: u32) -> (r: FractionalValue)
        ensures
            r@ == whole as int * FRACTION_SCALE,
    {
        FractionalValue { millionths: whole as u64 * FRACTION_SCALE }
    }

    pub fn from_millionths(millionths: u64) -> (r: FractionalValue)
        ensures
            r@ == millionths,
    {
        FractionalValue { millionths }
    }

    pub fn millionths(&self) -> (r: u64)
        ensures
            r == self@,
    {
        self.millionths
    }

    /// The integer part (the value truncated toward zero).
    pub fn whole_part(&self) -> (r: u64)
        ensures
            r == self@ / FRACTION_SCALE as int,
    {
        self.millionths / FRACTION_SCALE
    }

    /// The fractional part, in millionths.
    pub fn fractional_part(&self) -> (r: u64)
        ensures
            r == self@ % FRACTION_SCALE as int,
            r < FRACTION_SCALE,
    {
        self.millionths % FRACTION_SCALE
    }

    /// Reads decimal text (see `decimal_value`).
    pub fn parse(text: &str) -> (r: Option<FractionalValue>)
        ensures
            r matches Some(v) ==> decimal_value(text@) == Some(v@),
            r is None ==> decimal_value(text@) is None,
    {
        let chars = chars_of(text);
        FractionalValue::parse_chars(&chars)
    }

    /// Reads decimal text given as characters (see `decimal_value`).
    pub fn parse_chars(s: &Vec<char>) -> (r: Option<FractionalValue>)
        ensures
            r matches Some(v) ==> decimal_value(s@) == Some(v@),
            r matches Some(v) ==> v@ < (MAX_WHOLE + 1) * FRACTION_SCALE,
            r is None ==> decimal_value(s@) is None,
    {
        let n = s.len();
        let mut p: usize = 0;
        while p < n && s[p] != '.'
            invariant
                p <= n,
                n == s@.len(),
                forall|j: int| 0 <= j < p ==> s@[j] != '.',
            decreases n - p,
        {
            p += 1;
        }
        proof {
            lemma_first_index_of(s@, '.', p as int);
        }
        if n == 0 || (n == 1 && p == 0) {
            return None;
        }
        let ghost int_part = s@.take(p as int);
        let mut whole: u64 = 0;
        let mut i: usize = 0;
        while i < p
            invariant
                i <= p <= n,
                n == s@.len(),
                int_part == s@.take(p as int),
                first_index_of(s@, '.') == p,
                all_digits(int_part.take(i as int)),
                whole == digits_value(int_part.take(i as int)) || (whole > MAX_WHOLE
                    && digits_value(int_part.take(i as int)) > MAX_WHOLE),
                whole <= MAX_WHOLE * 10 + 9,
            decreases p - i,
        {
            let c = s[i];
            if !('0' <= c && c <= '9') {
                proof {
                    assert(int_part[i as int] == c);
                    assert(!all_digits(int_part));
                }
                return None;
            }
            let d = (c as u32 - '0' as u32) as u64;
            proof {
                assert(int_part.take(i + 1).drop_last() =~= int_part.take(i as int));
                assert(int_part.take(i + 1).last() == c);
            }
            if whole <= MAX_WHOLE {
                whole = whole * 10 + d;
            }
            i += 1;
            proof {
                assert forall|k: int| 0 <= k < i implies is_digit(#[trigger] int_part.take(i as int)[k]) by {
                    if k < i - 1 {
                        assert(int_part.take(i as int)[k] == int_part.take(i - 1)[k]);
                    }
                }
            }
        }
        proof {
            assert(int_part.take(p as int) =~= int_part);
        }
        if whole > MAX_WHOLE {
            return None;
        }
        let ghost frac_part = if p < n {
            s@.skip(p + 1)
        } else {
            Seq::<char>::empty()
        };
        let mut k: usize = if p < n {
            p + 1
        } else {
            n
        };
        while k < n
            invariant
                p < k <= n || (p == n && k == n),
                n == s@.len(),
                p < n ==> frac_part == s@.skip(p + 1),
                p == n ==> frac_part.len() == 0,
                first_index_of(s@, '.') == p,
                all_digits(s@.take(p as int)),
                digits_value(s@.take(p as int)) == whole,
                forall|j: int| p + 1 <= j < k ==> is_digit(#[trigger] s@[j]),
            decreases n - k,
        {
            let c = s[k];
            if !('0' <= c && c <= '9') {
                proof {
                    assert(frac_part[k - p - 1] == c);
                    assert(!all_digits(frac_part));
                }
                return None;
            }
            k += 1;
        }
        proof {
            assert forall|j: int| 0 <= j < frac_part.len() implies is_digit(
                #[trigger] frac_part[j],
            ) by {
                assert(frac_part[j] == s@[p + 1 + j]);
            }
        }
        let ghost padded = fraction_digits(frac_part);
        let mut frac: u64 = 0;
        let mut limit: u64 = 1;
        let mut j: usize = 0;
        while j < 6
            invariant
                j <= 6,
                p <= n,
                n == s@.len(),
                p < n ==> frac_part == s@.skip(p + 1),
                p == n ==> frac_part.len() == 0,
                padded == fraction_digits(frac_part),
                p < n ==> frac_part.len() == n - p - 1,
                first_index_of(s@, '.') == p,
                all_digits(s@.take(p as int)),
                digits_value(s@.take(p as int)) == whole,
                whole <= MAX_WHOLE,
                all_digits(frac_part),
                frac == digits_value(padded.take(j as int)),
                frac < limit,
                (j == 0 && limit == 1) || (j == 1 && limit == 10) || (j == 2 && limit == 100) || (
                j == 3 && limit == 1_000) || (j == 4 && limit == 10_000) || (j == 5 && limit
                    == 100_000) || (j == 6 && limit == 1_000_000),
            decreases 6 - j,
        {
            let d: u64 = if p < n && j < n - p - 1 {
                let c = s[p + 1 + j];
                proof {
                    assert(frac_part[j as int] == c);
                    assert(is_digit(frac_part[j as int]));
                }
                (c as u32 - '0' as u32) as u64
            } else {
                proof {
                    assert(j >= frac_part.len());
                    assert(padded[j as int] == '0');
                }
                0
            };
            proof {
                assert(d == digit_value(padded[j as int]));
                assert(padded.take(j + 1).drop_last() =~= padded.take(j as int));
                assert(padded.take(j + 1).last() == padded[j as int]);
            }
            frac = frac * 10 + d;
            limit = limit * 10;
            j += 1;
        }
        proof {
            assert(padded.take(6) =~= padded);
        }
        Some(FractionalValue { millionths: whole * FRACTION_SCALE + frac })
    }

    /// The shortest decimal text of the value (see `decimal_text`).
    pub fn to_text(&self) -> (r: String)
        ensures
            r@ == decimal_text(self@),
    {
        let mut r = String::new();
        push_nat_text(self.millionths / FRACTION_SCALE, &mut r);
        let f = self.millionths % FRACTION_SCALE;
        if f != 0 {
            proof {
                reveal_strlit(".");
            }
            r.append(".");
            push_fraction_text(f, &mut r);
        }
        r
    }

    /// Every value lies in the range of `u64`, and the value determines the
    /// whole `FractionalValue`.
    pub proof fn lemma_view(a: FractionalValue, b: FractionalValue)
        ensures
            0 <= a@ <= u64::MAX,
            a@ == b@ <==> a == b,
    {
    }
}

} // verus!
