use vstd::prelude::*;
use vstd::string::StrSliceExecFns;

verus! {

/// Facility count used when the answer to the prompt is empty or unreadable.
pub const DEFAULT_FACILITY_COUNT: usize = 25;

/// Why an answer to a prompt gave no coordinates.
#[derive(Clone, Copy, Debug, PartialEq, Eq, Structural)]
pub enum InputError {
    /// The answer could not be read.
    Unreadable,
    /// The answer holds no comma, so no second coordinate.
    MissingCoordinate,
    /// A coordinate is not a decimal integer that fits in an `i64`.
    InvalidNumber,
}

/// Unicode's White_Space property.
pub open spec fn is_white_space(c: char) -> bool {
    let u = c as u32;
    ||| 0x9 <= u <= 0xd
    ||| u == 0x20
    ||| u == 0x85
    ||| u == 0xa0
    ||| u == 0x1680
    ||| 0x2000 <= u <= 0x200a
    ||| u == 0x2028
    ||| u == 0x2029
    ||| u == 0x202f
    ||| u == 0x205f
    ||| u == 0x3000
}

pub open spec fn trim_start(s: Seq<char>) -> Seq<char>
    decreases s.len(),
{
    if s.len() > 0 && is_white_space(s[0]) {
        trim_start(s.drop_first())
    } else {
        s
    }
}

pub open spec fn trim_end(s: Seq<char>) -> Seq<char>
    decreases s.len(),
{
    if s.len() > 0 && is_white_space(s.last()) {
        trim_end(s.drop_last())
    } else {
        s
    }
}

/// `s` without its leading and trailing white space.
pub open spec fn trimmed(s: Seq<char>) -> Seq<char> {
    trim_end(trim_start(s))
}

pub open spec fn is_digit(c: char) -> bool {
    48 <= (c as u32) <= 57
}

/// A non-empty run of ASCII decimal digits.
pub open spec fn all_digits(s: Seq<char>) -> bool {
    s.len() > 0 && forall|i: int| 0 <= i < s.len() ==> is_digit(#[trigger] s[i])
}

/// The value of a run of decimal digits.
pub open spec fn digits_value(s: Seq<char>) -> int
    decreases s.len(),
{
    if s.len() == 0 {
        0
    } else {
        digits_value(s.drop_last()) * 10 + ((s.last() as u32) - 48)
    }
}

/// The integer that `s` writes in decimal, with an optional `+` sign (or `-`
/// where `signed`), or `None` where `s` is not such text.
pub open spec fn integer_text(s: Seq<char>, signed: bool) -> Option<int> {
    if s.len() > 0 && s[0] == '+' {
        if all_digits(s.drop_first()) {
            Some(digits_value(s.drop_first()))
        } else {
            None
        }
    } else if signed && s.len() > 0 && s[0] == '-' {
        if all_digits(s.drop_first()) {
            Some(-digits_value(s.drop_first()))
        } else {
            None
        }
    } else if all_digits(s) {
        Some(digits_value(s))
    } else {
        None
    }
}

/// The `usize` that `s` writes in decimal, if any.
pub open spec fn usize_text(s: Seq<char>) -> Option<usize> {
    let v = integer_text(s, false);
    if v is Some && v->0 <= usize::MAX {
        Some(v->0 as usize)
    } else {
        None
    }
}

/// The `i64` that `s` writes in decimal, if any.
pub open spec fn i64_text(s: Seq<char>) -> Option<i64> {
    let v = integer_text(s, true);
    if v is Some && i64::MIN <= v->0 <= i64::MAX {
        Some(v->0 as i64)
    } else {
        None
    }
}

/// Relies on `str::trim`: leading and trailing White_Space removed.
#[verifier::external_body]
fn trim_str(s: &str) -> (r: &str)
    ensures
        r@ == trimmed(s@),
{
    s.trim()
}

/// Relies on `str::parse::<usize>`: an optional `+` and decimal digits, whose
/// value fits in a `usize`.
#[verifier::external_body]
fn parse_usize(s: &str) -> (r: Option<usize>)
    ensures
        r == usize_text(s@),
{
    s.parse::<usize>().ok()
}

/// Relies on `str::parse::<i64>`: an optional sign and decimal digits, whose
/// value fits in an `i64`.
#[verifier::external_body]
fn parse_i64(s: &str) -> (r: Option<i64>)
    ensures
        r == i64_text(s@),
{
    s.parse::<i64>().ok()
}

/// The facility count that an answer asks for: the decimal number it holds
/// between white space, or the default.
pub open spec fn facility_count_text(s: Seq<char>) -> usize {
    match usize_text(trimmed(s)) {
        Some(n) => n,
        None => DEFAULT_FACILITY_COUNT,
    }
}

/// Index of the first comma at or after `from`, or the length of `s`.
pub open spec fn comma_index(s: Seq<char>, from: int) -> int
    decreases s.len() - from,
{
    if from < 0 || from >= s.len() {
        s.len() as int
    } else if s[from] == ',' {
        from
    } else {
        comma_index(s, from + 1)
    }
}

/// A coordinate written in decimal between white space, if it fits in an `i64`.
pub open spec fn coordinate_text(s: Seq<char>) -> Option<i64> {
    i64_text(trimmed(s))
}

/// The coordinates that an answer writes as `x, y`: the text before the
/// first comma and the text between it and the next comma (or the end).
pub open spec fn coordinates_text(s: Seq<char>) -> Result<(i64, i64), InputError> {
    let e0 = comma_index(s, 0);
    if e0 >= s.len() {
        Err(InputError::MissingCoordinate)
    } else {
        let e1 = comma_index(s, e0 + 1);
        let x = coordinate_text(s.subrange(0, e0));
        let y = coordinate_text(s.subrange(e0 + 1, e1));
        if x is Some && y is Some {
            Ok((x->0, y->0))
        } else {
            Err(InputError::InvalidNumber)
        }
    }
}

/// The characters of `s`, one by one.
fn chars_of(s: &str) -> (r: Vec<char>)
    ensures
        r@ == s@,
{
    let n = s.unicode_len();
    let mut v: Vec<char> = Vec::new();
    let mut i: usize = 0;
    while i < n
        invariant
            n == s@.len(),
            i <= n,
            v@ == s@.take(i as int),
        decreases n - i,
    {
        v.push(s.get_char(i));
        i = i + 1;
    }
    v
}

/// Index of the first comma of `v` at or after `from`, or its length.
fn find_comma(v: &Vec<char>, from: usize) -> (r: usize)
    requires
        from <= v@.len(),
    ensures
        r as int == comma_index(v@, from as int),
        from <= r <= v@.len(),
{
    let n = v.len();
    let mut e = from;
    while e < n && v[e] != ','
        invariant
            n == v@.len(),
            from <= e <= n,
            comma_index(v@, from as int) == comma_index(v@, e as int),
        decreases n - e,
    {
        e = e + 1;
    }
    e
}

/// The bounds of the coordinates a user may give, relative to the centre of
/// the grid.
pub struct PromptConfig {
    min_world_x: i64,
    max_world_x: i64,
    min_world_y: i64,
    max_world_y: i64,
}

impl PromptConfig {
    pub closed spec fn spec_min_x(&self) -> i64 {
        self.min_world_x
    }

    pub closed spec fn spec_max_x(&self) -> i64 {
        self.max_world_x
    }

    pub closed spec fn spec_min_y(&self) -> i64 {
        self.min_world_y
    }

    pub closed spec fn spec_max_y(&self) -> i64 {
        self.max_world_y
    }

    pub fn new(min_world_x: i64, max_world_x: i64, min_world_y: i64, max_world_y: i64) -> (r: PromptConfig)
        ensures
            r.spec_min_x() == min_world_x,
            r.spec_max_x() == max_world_x,
            r.spec_min_y() == min_world_y,
            r.spec_max_y() == max_world_y,
    {
        PromptConfig { min_world_x, max_world_x, min_world_y, max_world_y }
    }

    pub fn min_world_x(&self) -> (r: i64)
        ensures
            r == self.spec_min_x(),
    {
        self.min_world_x
    }

    pub fn max_world_x(&self) -> (r: i64)
        ensures
            r == self.spec_max_x(),
    {
        self.max_world_x
    }

    pub fn min_world_y(&self) -> (r: i64)
        ensures
            r == self.spec_min_y(),
    {
        self.min_world_y
    }

    pub fn max_world_y(&self) -> (r: i64)
        ensures
            r == self.spec_max_y(),
    {
        self.max_world_y
    }

    /// The facility count an answer asks for; an empty or unreadable answer,
    /// or one that is no count, gives the default.
    pub fn get_facility(&self, input: Result<String, InputError>) -> (r: usize)
        ensures
            r == (match input {
                Ok(s) => facility_count_text(s@),
                Err(_) => DEFAULT_FACILITY_COUNT,
            }),
    {
        match input {
            Ok(s) => {
                if s.as_str().is_empty() {
                    proof {
                        assert(trimmed(s@) == s@);
                    }
                    DEFAULT_FACILITY_COUNT
                } else {
                    match parse_usize(trim_str(s.as_str())) {
                        Some(n) => n,
                        None => DEFAULT_FACILITY_COUNT,
                    }
                }
            },
            Err(_) => DEFAULT_FACILITY_COUNT,
        }
    }

    /// Reads coordinates written as `x, y`; an unreadable answer keeps its
    /// error.
    pub fn get_coordinates(&self, input: Result<String, InputError>) -> (r: Result<(i64, i64), InputError>)
        ensures
            r == (match input {
                Ok(s) => coordinates_text(s@),
                Err(e) => Err(e),
            }),
    {
        match input {
            Ok(s) => {
                let text = s.as_str();
                let v = chars_of(text);
                let n = v.len();
                let e0 = find_comma(&v, 0);
                if e0 >= n {
                    return Err(InputError::MissingCoordinate);
                }
                let e1 = find_comma(&v, e0 + 1);
                let xs = text.substring_char(0, e0);
                let ys = text.substring_char(e0 + 1, e1);
                let x = parse_i64(trim_str(xs));
                let y = parse_i64(trim_str(ys));
                match (x, y) {
                    (Some(x), Some(y)) => Ok((x, y)),
                    _ => Err(InputError::InvalidNumber),
                }
            },
            Err(e) => Err(e),
        }
    }

    /// Converts coordinates relative to the centre into absolute grid
    /// coordinates (`x - min_x`, `y - min_y`), if they lie within the bounds.
    pub fn to_absolute(&self, x: i64, y: i64) -> (r: Option<(usize, usize)>)
        ensures
            r is Some <==> {
                &&& self.spec_min_x() <= x <= self.spec_max_x()
                &&& self.spec_min_y() <= y <= self.spec_max_y()
                &&& x - self.spec_min_x() <= usize::MAX
                &&& y - self.spec_min_y() <= usize::MAX
            },
            r matches Some(p) ==> p.0 == x - self.spec_min_x() && p.1 == y - self.spec_min_y(),
    {
        if x < self.min_world_x || x > self.max_world_x || y < self.min_world_y || y > self.max_world_y {
            return None;
        }
        let dx = (x as i128 - self.min_world_x as i128) as u128;
        let dy = (y as i128 - self.min_world_y as i128) as u128;
        if dx > usize::MAX as u128 || dy > usize::MAX as u128 {
            return None;
        }
        Some((dx as usize, dy as usize))
    }
}

} // verus!
