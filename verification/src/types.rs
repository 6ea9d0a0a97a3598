//! Shared value types: Excel error values, VBA array bounds, date-serial
//! math and cell-address parsing.

use vstd::prelude::*;
pub use crate::array::{VbaArray, MAX_ARRAY_ELEMENTS};
use crate::text::{
    ascii_digit, ascii_upper, chars_eq, chars_to_uppercase, decimal,
    fmt_u64, is_ascii_digit, pad_zeros, parse_u32, parse_u32_text, push_all,
    slice_chars, str_chars, string_from_chars, to_ascii_upper, trim_bounds, trimmed,
    unicode_uppercase, zero_pad,
};

verus! {

// ── Excel error values ───────────────────────────────────────────────────

/// Excel worksheet error values (#DIV/0!, #N/A, etc.)
#[derive(Debug, Clone, Copy, PartialEq, Eq, Structural)]
pub enum ExcelError {
    DivZero,
    NA,
    Value,
    Ref,
    Name,
    Num,
    Null,
}

/// The display text of an error value.
pub open spec fn error_text(e: ExcelError) -> Seq<char> {
    match e {
        ExcelError::DivZero => "#DIV/0!"@,
        ExcelError::NA => "#N/A"@,
        ExcelError::Value => "#VALUE!"@,
        ExcelError::Ref => "#REF!"@,
        ExcelError::Name => "#NAME?"@,
        ExcelError::Num => "#NUM!"@,
        ExcelError::Null => "#NULL!"@,
    }
}

/// The classic BIFF numeric error code of an error value.
pub open spec fn error_code(e: ExcelError) -> u8 {
    match e {
        ExcelError::Null => 0x00,
        ExcelError::DivZero => 0x07,
        ExcelError::Value => 0x0F,
        ExcelError::Ref => 0x17,
        ExcelError::Name => 0x1D,
        ExcelError::Num => 0x24,
        ExcelError::NA => 0x2A,
    }
}

/// The error value whose display text is `s`, if any.
pub open spec fn error_from_text(s: Seq<char>) -> Option<ExcelError> {
    if s == "#DIV/0!"@ {
        Some(ExcelError::DivZero)
    } else if s == "#N/A"@ {
        Some(ExcelError::NA)
    } else if s == "#VALUE!"@ {
        Some(ExcelError::Value)
    } else if s == "#REF!"@ {
        Some(ExcelError::Ref)
    } else if s == "#NAME?"@ {
        Some(ExcelError::Name)
    } else if s == "#NUM!"@ {
        Some(ExcelError::Num)
    } else if s == "#NULL!"@ {
        Some(ExcelError::Null)
    } else {
        None
    }
}

impl ExcelError {
    pub fn as_str(&self) -> (r: &'static str)
        ensures
            r@ == error_text(*self),
    {
        match self {
            ExcelError::DivZero => "#DIV/0!",
            ExcelError::NA => "#N/A",
            ExcelError::Value => "#VALUE!",
            ExcelError::Ref => "#REF!",
            ExcelError::Name => "#NAME?",
            ExcelError::Num => "#NUM!",
            ExcelError::Null => "#NULL!",
        }
    }

    /// The classic BIFF numeric error code that XLSX consumers use for
    /// `t:"e"` cells instead of the display string.
    pub fn biff_code(&self) -> (r: u8)
        ensures
            r == error_code(*self),
    {
        match self {
            ExcelError::Null => 0x00,
            ExcelError::DivZero => 0x07,
            ExcelError::Value => 0x0F,
            ExcelError::Ref => 0x17,
            ExcelError::Name => 0x1D,
            ExcelError::Num => 0x24,
            ExcelError::NA => 0x2A,
        }
    }

    /// The display text, as an owned string.
    pub fn to_string(&self) -> (r: String)
        ensures
            r@ == error_text(*self),
    {
        self.as_str().to_owned()
    }

    /// The `as_str` inverse: parses one of the seven classic error strings.
    /// Any other string is `Err(())`.
    pub fn from_text(s: &str) -> (r: Result<ExcelError, ()>)
        ensures
            match error_from_text(s@) {
                Some(e) => r == Ok::<ExcelError, ()>(e),
                None => r == Err::<ExcelError, ()>(()),
            },
    {
        let c = str_chars(s);
        if chars_eq(&c, &str_chars("#DIV/0!")) {
            Ok(ExcelError::DivZero)
        } else if chars_eq(&c, &str_chars("#N/A")) {
            Ok(ExcelError::NA)
        } else if chars_eq(&c, &str_chars("#VALUE!")) {
            Ok(ExcelError::Value)
        } else if chars_eq(&c, &str_chars("#REF!")) {
            Ok(ExcelError::Ref)
        } else if chars_eq(&c, &str_chars("#NAME?")) {
            Ok(ExcelError::Name)
        } else if chars_eq(&c, &str_chars("#NUM!")) {
            Ok(ExcelError::Num)
        } else if chars_eq(&c, &str_chars("#NULL!")) {
            Ok(ExcelError::Null)
        } else {
            Err(())
        }
    }
}

impl std::str::FromStr for ExcelError {
    type Err = ();

    fn from_str(s: &str) -> Result<Self, Self::Err> {
        ExcelError::from_text(s)
    }
}

/// Parsing an error value's display text gives the error value back.
pub proof fn law_error_text_reads_back(e: ExcelError)
    ensures
        error_from_text(error_text(e)) == Some(e),
{
    reveal_strlit("#DIV/0!");
    reveal_strlit("#N/A");
    reveal_strlit("#VALUE!");
    reveal_strlit("#REF!");
    reveal_strlit("#NAME?");
    reveal_strlit("#NUM!");
    reveal_strlit("#NULL!");
    let t = error_text(e);
    if e != ExcelError::DivZero {
        assert(t != "#DIV/0!"@) by {
            if t.len() == 7 {
                assert(t[1] != "#DIV/0!"@[1] || t[2] != "#DIV/0!"@[2]);
            }
        }
    }
    if e != ExcelError::NA {
        assert(t != "#N/A"@) by {
            if t.len() == 4 {
                assert(t[1] != "#N/A"@[1]);
            }
        }
    }
    if e != ExcelError::Value {
        assert(t != "#VALUE!"@) by {
            if t.len() == 7 {
                assert(t[1] != "#VALUE!"@[1]);
            }
        }
    }
    if e != ExcelError::Ref {
        assert(t != "#REF!"@) by {
            if t.len() == 5 {
                assert(t[1] != "#REF!"@[1]);
            }
        }
    }
    if e != ExcelError::Name {
        assert(t != "#NAME?"@) by {
            if t.len() == 6 {
                assert(t[2] != "#NAME?"@[2] || t[5] != "#NAME?"@[5]);
            }
        }
    }
    if e != ExcelError::Num {
        assert(t != "#NUM!"@) by {
            if t.len() == 5 {
                assert(t[1] != "#NUM!"@[1]);
            }
        }
    }
}

/// Every text that parses as an error value is that value's display text.
pub proof fn law_error_from_text_only_accepts_display_texts(s: Seq<char>)
    ensures
        error_from_text(s) matches Some(e) ==> error_text(e) == s,
{
}

// ── Array bounds ─────────────────────────────────────────────────────────

/// The bounds of one dimension of a VBA-declared array. `upper < lower` is
/// legal VBA and just means zero elements along that dimension.
#[derive(Debug, Clone, Copy, PartialEq)]
pub struct ArrayBound {
    pub lower: i64,
    pub upper: i64,
}

/// The element count of a dimension: `upper - lower + 1`, or 0 when that is
/// negative.
pub open spec fn bound_len(b: ArrayBound) -> int {
    if b.upper - b.lower + 1 > 0 {
        b.upper - b.lower + 1
    } else {
        0
    }
}

/// `upper - lower + 1` is computed in `i64` without overflow.
pub open spec fn bound_len_fits(b: ArrayBound) -> bool {
    i64::MIN <= b.upper - b.lower && b.upper - b.lower + 1 <= i64::MAX
}

impl ArrayBound {
    pub fn len(&self) -> (r: i64)
        requires
            bound_len_fits(*self),
        ensures
            r == bound_len(*self),
    {
        let n = self.upper - self.lower + 1;
        if n > 0 {
            n
        } else {
            0
        }
    }

    pub fn is_empty(&self) -> (r: bool)
        requires
            bound_len_fits(*self),
        ensures
            r == (bound_len(*self) == 0),
    {
        self.len() == 0
    }
}

// ── Date-serial math ─────────────────────────────────────────────────────

/// Gregorian leap-year rule.
pub open spec fn spec_is_leap(y: int) -> bool {
    (y % 4 == 0 && y % 100 != 0) || y % 400 == 0
}

proof fn lemma_divides_neg(y: int, m: int)
    requires
        m > 0,
    ensures
        (y % m == 0) == ((-y) % m == 0),
{
    if y % m == 0 {
        vstd::arithmetic::div_mod::lemma_fundamental_div_mod(y, m);
        let q = y / m;
        vstd::arithmetic::mul::lemma_mul_unary_negation(q, m);
        vstd::arithmetic::mul::lemma_mul_is_commutative(q, m);
        vstd::arithmetic::div_mod::lemma_fundamental_div_mod_converse_mod(-y, m, -q, 0);
    }
    if (-y) % m == 0 {
        vstd::arithmetic::div_mod::lemma_fundamental_div_mod(-y, m);
        let q = (-y) / m;
        vstd::arithmetic::mul::lemma_mul_unary_negation(q, m);
        vstd::arithmetic::mul::lemma_mul_is_commutative(q, m);
        vstd::arithmetic::div_mod::lemma_fundamental_div_mod_converse_mod(y, m, -q, 0);
    }
}

pub fn is_leap(y: i32) -> (r: bool)
    ensures
        r == spec_is_leap(y as int),
{
    let u: i64 = if y < 0 {
        -(y as i64)
    } else {
        y as i64
    };
    proof {
        lemma_divides_neg(y as int, 4);
        lemma_divides_neg(y as int, 100);
        lemma_divides_neg(y as int, 400);
    }
    (u % 4 == 0 && u % 100 != 0) || u % 400 == 0
}

/// Days in month `m` (1-12) of year `y`; 0 for any other `m`.
pub open spec fn spec_days_in_month(y: int, m: int) -> int {
    if m == 1 || m == 3 || m == 5 || m == 7 || m == 8 || m == 10 || m == 12 {
        31
    } else if m == 4 || m == 6 || m == 9 || m == 11 {
        30
    } else if m == 2 {
        if spec_is_leap(y) {
            29
        } else {
            28
        }
    } else {
        0
    }
}

pub fn days_in_month(y: i32, m: u32) -> (r: u32)
    ensures
        r == spec_days_in_month(y as int, m as int),
{
    match m {
        1 | 3 | 5 | 7 | 8 | 10 | 12 => 31,
        4 | 6 | 9 | 11 => 30,
        2 => {
            if is_leap(y) {
                29
            } else {
                28
            }
        },
        _ => 0,
    }
}

pub open spec fn days_in_year(y: int) -> int {
    if spec_is_leap(y) {
        366
    } else {
        365
    }
}

/// Counting `s` days (1-based) from Jan 1 of year `y`: the year reached and
/// the day within it.
pub open spec fn year_of(s: int, y: int) -> (int, int)
    decreases s,
{
    if s > days_in_year(y) {
        year_of(s - days_in_year(y), y + 1)
    } else {
        (y, s)
    }
}

/// Counting `s` days (1-based) from the first of month `m` of year `y`: the
/// month reached and the day within it.
pub open spec fn month_of(s: int, y: int, m: int) -> (int, int)
    decreases 13 - m,
{
    if 1 <= m <= 12 && s > spec_days_in_month(y, m) {
        month_of(s - spec_days_in_month(y, m), y, m + 1)
    } else {
        (m, s)
    }
}

/// Days from the first of month `m` to the end of year `y`.
pub open spec fn days_left_in_year(y: int, m: int) -> int
    decreases 13 - m,
{
    if 1 <= m <= 12 {
        spec_days_in_month(y, m) + days_left_in_year(y, m + 1)
    } else {
        0
    }
}

/// The serial with the Excel 1900 leap-year bug undone: serials after 60
/// move back a day.
pub open spec fn adjusted_serial(s: int) -> int {
    if s > 60 {
        s - 1
    } else {
        s
    }
}

/// `(year, month, day)` of an Excel serial date; the day is the count left
/// in the month, wrapped to `u32` when it is not positive.
pub open spec fn spec_serial_to_ymd(s: i64) -> (int, int, u32) {
    let (y, d) = year_of(adjusted_serial(s as int), 1900);
    let (m, day) = month_of(d, y, 1);
    (y, m, day as u32)
}

/// The year of the serial fits in an `i32`.
pub open spec fn serial_fits(s: i64) -> bool {
    year_of(adjusted_serial(s as int), 1900).0 <= i32::MAX
}

proof fn lemma_year_of_ge(s: int, y: int)
    ensures
        year_of(s, y).0 >= y,
        s > days_in_year(y) ==> year_of(s, y).0 > y,
        year_of(s, y).1 <= days_in_year(year_of(s, y).0),
    decreases s,
{
    if s > days_in_year(y) {
        lemma_year_of_ge(s - days_in_year(y), y + 1);
    }
}

proof fn lemma_days_left_full_year(y: int)
    ensures
        days_left_in_year(y, 1) == days_in_year(y),
{
    reveal_with_fuel(days_left_in_year, 13);
}

fn year_days(y: i32) -> (r: i64)
    ensures
        r == days_in_year(y as int),
{
    if is_leap(y) {
        366
    } else {
        365
    }
}

pub fn serial_to_ymd(s: i64) -> (r: (i32, u32, u32))
    requires
        serial_fits(s),
    ensures
        r.0 as int == spec_serial_to_ymd(s).0,
        r.1 as int == spec_serial_to_ymd(s).1,
        r.2 == spec_serial_to_ymd(s).2,
        r.0 >= 1900,
        1 <= r.1 <= 12,
        s >= 1 ==> 1 <= r.2 <= spec_days_in_month(r.0 as int, r.1 as int),
{
    let ghost s_in = s;
    let mut s = s;
    // Undo the Excel leap-year bug offset for dates after serial 60.
    if s > 60 {
        s = s - 1;
    }
    let ghost s0 = s as int;
    let mut y: i32 = 1900;
    proof {
        lemma_year_of_ge(s0, 1900);
    }
    while s > year_days(y)
        invariant
            year_of(s as int, y as int) == year_of(s0, 1900),
            year_of(s0, 1900).0 <= i32::MAX,
            y >= 1900,
            s_in >= 1 ==> s >= 1,
        decreases s,
    {
        proof {
            lemma_year_of_ge(s as int, y as int);
        }
        let days = year_days(y);
        s = s - days;
        y = y + 1;
    }
    let ghost d0 = s as int;
    proof {
        lemma_days_left_full_year(y as int);
    }
    let mut m: u32 = 1;
    while s > days_in_month(y, m) as i64
        invariant
            1 <= m <= 12,
            s <= days_left_in_year(y as int, m as int),
            month_of(s as int, y as int, m as int) == month_of(d0, y as int, 1),
            s_in >= 1 ==> s >= 1,
        decreases 12 - m,
    {
        let dim = days_in_month(y, m) as i64;
        proof {
            assert(days_left_in_year(y as int, m as int) == dim + days_left_in_year(
                y as int,
                m + 1,
            ));
            if m == 12 {
                assert(days_left_in_year(y as int, 13) == 0);
            }
        }
        s = s - dim;
        m = m + 1;
    }
    (y, m, s as u32)
}

proof fn lemma_days_left_nonneg(y: int, m: int)
    ensures
        days_left_in_year(y, m) >= 0,
        1 <= m <= 12 ==> days_left_in_year(y, m) >= spec_days_in_month(y, m) >= 28,
    decreases 13 - m,
{
    if 1 <= m <= 12 {
        lemma_days_left_nonneg(y, m + 1);
    }
}

/// The day after day `d` of the year counted from month `m`.
proof fn lemma_month_of_next(d: int, y: int, m: int)
    requires
        1 <= m <= 12,
        1 <= d <= days_left_in_year(y, m),
    ensures
        ({
            let (mm, dd) = month_of(d, y, m);
            let next = month_of(d + 1, y, m);
            &&& m <= mm <= 12
            &&& 1 <= dd <= spec_days_in_month(y, mm)
            &&& dd < spec_days_in_month(y, mm) ==> next == (mm, dd + 1)
            &&& dd == spec_days_in_month(y, mm) && mm < 12 ==> next == (mm + 1, 1int)
            &&& (mm == 12 && dd == spec_days_in_month(y, 12)) <==> d == days_left_in_year(y, m)
        }),
    decreases 13 - m,
{
    lemma_days_left_nonneg(y, m);
    lemma_days_left_nonneg(y, m + 1);
    let dim = spec_days_in_month(y, m);
    assert(days_left_in_year(y, m) == dim + days_left_in_year(y, m + 1));
    if d > dim {
        if m == 12 {
            assert(days_left_in_year(y, 13) == 0);
        }
        assert(month_of(d, y, m) == month_of(d - dim, y, m + 1));
        assert(month_of(d + 1, y, m) == month_of(d + 1 - dim, y, m + 1));
        lemma_month_of_next(d - dim, y, m + 1);
    } else {
        assert(month_of(d, y, m) == (m, d));
        if d < dim {
            assert(month_of(d + 1, y, m) == (m, d + 1));
        } else {
            assert(month_of(d + 1, y, m) == month_of(1, y, m + 1));
            if m < 12 {
                lemma_days_left_nonneg(y, m + 1);
                assert(month_of(1, y, m + 1) == (m + 1, 1int));
                assert(d < days_left_in_year(y, m));
            } else {
                assert(days_left_in_year(y, 13) == 0);
            }
        }
    }
}

/// The day after day `s` counted from Jan 1 of year `y`.
proof fn lemma_year_of_next(s: int, y: int)
    requires
        s >= 1,
    ensures
        ({
            let (yy, d) = year_of(s, y);
            &&& 1 <= d <= days_in_year(yy)
            &&& year_of(s + 1, y) == if d < days_in_year(yy) {
                (yy, d + 1)
            } else {
                (yy + 1, 1int)
            }
        }),
    decreases s,
{
    let n = days_in_year(y);
    assert(n >= 365);
    if s > n {
        assert(year_of(s, y) == year_of(s - n, y + 1));
        assert(year_of(s + 1, y) == year_of(s + 1 - n, y + 1));
        lemma_year_of_next(s - n, y + 1);
    } else if s == n {
        assert(year_of(s, y) == (y, s));
        assert(year_of(s + 1, y) == year_of(1, y + 1));
        assert(days_in_year(y + 1) >= 365);
        assert(year_of(1, y + 1) == (y + 1, 1int));
    } else {
        assert(year_of(s, y) == (y, s));
        assert(year_of(s + 1, y) == (y, s + 1));
    }
}

/// Serial dates count calendar days: outside the Excel leap-year bug's
/// phantom 1900-02-29 (serial 60), the serial after `s` is the next day of
/// the calendar, within the month, else the first of the next month, else
/// the first of January of the next year.
pub proof fn law_serial_next_day(s: i64)
    requires
        1 <= s < i64::MAX,
        s != 60,
    ensures
        ({
            let (y, m, d) = spec_serial_to_ymd(s);
            let next = spec_serial_to_ymd((s + 1) as i64);
            &&& 1 <= m <= 12
            &&& 1 <= d <= spec_days_in_month(y, m)
            &&& next == if d < spec_days_in_month(y, m) {
                (y, m, (d + 1) as u32)
            } else if m < 12 {
                (y, m + 1, 1u32)
            } else {
                (y + 1, 1int, 1u32)
            }
        }),
{
    let a = adjusted_serial(s as int);
    assert(adjusted_serial((s + 1) as i64 as int) == a + 1);
    lemma_year_of_next(a, 1900);
    let (yy, dy) = year_of(a, 1900);
    lemma_days_left_full_year(yy);
    lemma_month_of_next(dy, yy, 1);
    if dy == days_in_year(yy) {
        lemma_days_left_full_year(yy + 1);
        lemma_days_left_nonneg(yy + 1, 1);
        assert(month_of(1, yy + 1, 1) == (1int, 1int));
    }
}

proof fn lemma_year_of_at_most(s: int, y: int)
    requires
        s >= 0,
    ensures
        year_of(s, y).0 <= y + s,
    decreases s,
{
    if s > days_in_year(y) {
        lemma_year_of_at_most(s - days_in_year(y), y + 1);
    }
}

/// Every serial from 1 up to 2958465 (9999-12-31) has its year within
/// `i32`, so `serial_to_ymd` and `serial_to_display` accept it.
pub proof fn law_excel_serials_fit(s: i64)
    requires
        1 <= s <= 2958465,
    ensures
        serial_fits(s),
{
    lemma_year_of_at_most(adjusted_serial(s as int), 1900);
}

/// `YYYY-MM-DD` (zero-padded) of an Excel serial date.
pub open spec fn spec_serial_to_display(s: i64) -> Seq<char> {
    let (y, m, d) = spec_serial_to_ymd(s);
    zero_pad(decimal(y as nat), 4) + seq!['-'] + zero_pad(decimal(m as nat), 2) + seq!['-']
        + zero_pad(decimal(d as nat), 2)
}

pub fn serial_to_display(s: i64) -> (r: String)
    requires
        serial_fits(s),
    ensures
        r@ == spec_serial_to_display(s),
{
    let (y, m, d) = serial_to_ymd(s);
    let mut out = pad_zeros(&fmt_u64(y as u64), 4);
    out.push('-');
    push_all(&mut out, &pad_zeros(&fmt_u64(m as u64), 2));
    out.push('-');
    push_all(&mut out, &pad_zeros(&fmt_u64(d as u64), 2));
    string_from_chars(&out)
}

// ── Range address helpers ────────────────────────────────────────────────

/// Index of the first ASCII digit in `s` at or after `i`.
pub open spec fn digit_index(s: Seq<char>, i: int) -> Option<int>
    decreases s.len() - i,
{
    if !(0 <= i < s.len()) {
        None
    } else if is_ascii_digit(s[i]) {
        Some(i)
    } else {
        digit_index(s, i + 1)
    }
}

/// Index of the first `c` in `s` at or after `i`.
pub open spec fn char_index(s: Seq<char>, c: char, i: int) -> Option<int>
    decreases s.len() - i,
{
    if !(0 <= i < s.len()) {
        None
    } else if s[i] == c {
        Some(i)
    } else {
        char_index(s, c, i + 1)
    }
}

/// Column letters read base 26 from `'A'` = 1, each char ASCII-uppercased.
pub open spec fn vm_col_value(t: Seq<char>) -> int
    decreases t.len(),
{
    if t.len() == 0 {
        0
    } else {
        vm_col_value(t.drop_last()) * 26 + ((ascii_upper(t.last()) as u32) as int - 65 + 1)
    }
}

/// Reading the column letters stays within `u32`: no char is below `'A'`
/// once uppercased, and the value fits.
pub open spec fn vm_col_fits(t: Seq<char>) -> bool {
    &&& forall|k: int| 0 <= k < t.len() ==> (ascii_upper(#[trigger] t[k]) as u32) >= 65
    &&& vm_col_value(t) <= u32::MAX
}

/// The address as it is read: trimmed, then uppercased.
pub open spec fn addr_upper(addr: Seq<char>) -> Seq<char> {
    unicode_uppercase(trimmed(addr))
}

/// `(row, column)` of an address already trimmed and uppercased: letters
/// before the first ASCII digit (at least one), then the row number.
pub open spec fn spec_parse_upper_cell_addr(u: Seq<char>) -> Option<(u32, u32)> {
    match digit_index(u, 0) {
        None => None,
        Some(k) => if k == 0 {
            None
        } else {
            match parse_u32_text(u.subrange(k, u.len() as int)) {
                None => None,
                Some(row) => Some((row, vm_col_value(u.subrange(0, k)) as u32)),
            }
        },
    }
}

/// `(row, column)` of a cell address such as `B3`: the address trimmed and
/// uppercased, then read by `spec_parse_upper_cell_addr`.
pub open spec fn spec_parse_cell_addr(addr: Seq<char>) -> Option<(u32, u32)> {
    spec_parse_upper_cell_addr(addr_upper(addr))
}

/// Reading the column letters of an uppercased address stays within `u32`.
pub open spec fn upper_cell_addr_fits(u: Seq<char>) -> bool {
    match digit_index(u, 0) {
        Some(k) => k > 0 ==> vm_col_fits(u.subrange(0, k)),
        None => true,
    }
}

/// Reading the column letters of the address stays within `u32`.
pub open spec fn cell_addr_fits(addr: Seq<char>) -> bool {
    upper_cell_addr_fits(addr_upper(addr))
}

proof fn lemma_vm_col_value_grows(t: Seq<char>, i: int)
    requires
        0 <= i <= t.len(),
        forall|k: int| 0 <= k < t.len() ==> (ascii_upper(#[trigger] t[k]) as u32) >= 65,
    ensures
        0 <= vm_col_value(t.subrange(0, i)) <= vm_col_value(t),
    decreases t.len() - i,
{
    if i < t.len() {
        lemma_vm_col_value_grows(t, i + 1);
        let p = t.subrange(0, i + 1);
        let q = t.subrange(0, i);
        assert forall|k: int| 0 <= k < q.len() implies (ascii_upper(#[trigger] q[k]) as u32) >= 65 by {
            assert(q[k] == t[k]);
        }
        lemma_vm_col_value_nonneg(q);
        assert(p.drop_last() == t.subrange(0, i));
        assert(p.last() == t[i]);
        assert((ascii_upper(t[i]) as u32) >= 65);
    } else {
        assert(t.subrange(0, i) == t);
        lemma_vm_col_value_nonneg(t);
    }
}

proof fn lemma_vm_col_value_nonneg(t: Seq<char>)
    requires
        forall|k: int| 0 <= k < t.len() ==> (ascii_upper(#[trigger] t[k]) as u32) >= 65,
    ensures
        vm_col_value(t) >= 0,
    decreases t.len(),
{
    if t.len() > 0 {
        let p = t.drop_last();
        assert forall|k: int| 0 <= k < p.len() implies (ascii_upper(#[trigger] p[k]) as u32) >= 65 by {
            assert(p[k] == t[k]);
        }
        lemma_vm_col_value_nonneg(p);
        assert((ascii_upper(t[t.len() - 1]) as u32) >= 65);
    }
}

fn col_letters_to_num_vm(t: &Vec<char>) -> (r: u32)
    requires
        vm_col_fits(t@),
    ensures
        r as int == vm_col_value(t@),
{
    let mut acc: u32 = 0;
    let mut i: usize = 0;
    while i < t.len()
        invariant
            0 <= i <= t@.len(),
            vm_col_fits(t@),
            acc as int == vm_col_value(t@.subrange(0, i as int)),
        decreases t@.len() - i,
    {
        let c = to_ascii_upper(t[i]);
        proof {
            let p = t@.subrange(0, i + 1);
            assert(p.drop_last() == t@.subrange(0, i as int));
            assert(p.last() == t@[i as int]);
            assert((ascii_upper(t@[i as int]) as u32) >= 65);
            lemma_vm_col_value_grows(t@, i + 1);
        }
        acc = acc * 26 + (c as u32 - 65 + 1);
        i = i + 1;
    }
    proof {
        assert(t@.subrange(0, t@.len() as int) == t@);
    }
    acc
}

/// Does reading these column letters stay within `u32`?
fn vm_col_fits_exec(t: &Vec<char>) -> (r: bool)
    ensures
        r == vm_col_fits(t@),
{
    let mut acc: u64 = 0;
    let mut i: usize = 0;
    while i < t.len()
        invariant
            0 <= i <= t@.len(),
            forall|k: int| 0 <= k < i ==> (ascii_upper(#[trigger] t@[k]) as u32) >= 65,
            acc as int == vm_col_value(t@.subrange(0, i as int)),
            acc <= u32::MAX,
        decreases t@.len() - i,
    {
        let c = to_ascii_upper(t[i]);
        let ghost p = t@.subrange(0, i + 1);
        proof {
            assert(p.drop_last() == t@.subrange(0, i as int));
            assert(p.last() == t@[i as int]);
        }
        if (c as u32) < 65 {
            return false;
        }
        let next: u64 = acc * 26 + ((c as u32 - 65 + 1) as u64);
        if next > 0xffff_ffff {
            proof {
                lemma_vm_col_value_prefix_bound(t@, i + 1);
            }
            return false;
        }
        acc = next;
        i = i + 1;
    }
    proof {
        assert(t@.subrange(0, t@.len() as int) == t@);
    }
    true
}

/// When every char is at least `'A'`, the value of a prefix bounds the value
/// of the whole from below; when some char is not, `vm_col_fits` fails
/// anyway.
proof fn lemma_vm_col_value_prefix_bound(t: Seq<char>, i: int)
    requires
        0 <= i <= t.len(),
        vm_col_value(t.subrange(0, i)) > u32::MAX,
        forall|k: int| 0 <= k < i ==> (ascii_upper(#[trigger] t[k]) as u32) >= 65,
    ensures
        !vm_col_fits(t),
{
    if vm_col_fits(t) {
        lemma_vm_col_value_grows(t, i);
    }
}

/// The address trimmed and uppercased, and where its first ASCII digit is.
fn upper_and_digit(addr: &str) -> (r: (Vec<char>, Option<usize>))
    ensures
        r.0@ == addr_upper(addr@),
        r.1 matches Some(k) ==> k < r.0@.len() && digit_index(addr_upper(addr@), 0) == Some(k as int),
        r.1 is None ==> digit_index(addr_upper(addr@), 0) is None,
{
    let chars = str_chars(addr);
    let (a, b) = trim_bounds(&chars);
    let t = slice_chars(&chars, a, b);
    let u = chars_to_uppercase(&t);
    let mut i: usize = 0;
    while i < u.len()
        invariant
            0 <= i <= u@.len(),
            u@ == addr_upper(addr@),
            digit_index(u@, 0) == digit_index(u@, i as int),
        decreases u@.len() - i,
    {
        if ascii_digit(u[i]) {
            return (u, Some(i));
        }
        i = i + 1;
    }
    (u, None)
}

/// Where the first ASCII digit of `u` is.
fn first_digit(u: &Vec<char>) -> (r: Option<usize>)
    ensures
        r matches Some(k) ==> k < u@.len() && digit_index(u@, 0) == Some(k as int),
        r is None ==> digit_index(u@, 0) is None,
{
    let mut i: usize = 0;
    while i < u.len()
        invariant
            0 <= i <= u@.len(),
            digit_index(u@, 0) == digit_index(u@, i as int),
        decreases u@.len() - i,
    {
        if ascii_digit(u[i]) {
            return Some(i);
        }
        i = i + 1;
    }
    None
}

/// Reads an address that is already trimmed and uppercased: column letters
/// before the first ASCII digit (at least one), then the row number as
/// `str::parse::<u32>` reads it.
pub fn parse_upper_cell_addr(u: &Vec<char>) -> (r: Option<(u32, u32)>)
    requires
        upper_cell_addr_fits(u@),
    ensures
        r == spec_parse_upper_cell_addr(u@),
{
    let alpha_end = match first_digit(u) {
        Some(k) => k,
        None => {
            return None;
        },
    };
    if alpha_end == 0 {
        return None;
    }
    let letters = slice_chars(u, 0, alpha_end);
    let col = col_letters_to_num_vm(&letters);
    let digits = slice_chars(u, alpha_end, u.len());
    let row = match parse_u32(&digits) {
        Some(v) => v,
        None => {
            return None;
        },
    };
    Some((row, col))
}

/// `parse_upper_cell_addr` where reading the column letters stays within
/// `u32`, and `None` where it would overflow.
pub fn parse_upper_cell_addr_checked(u: &Vec<char>) -> (r: Option<Option<(u32, u32)>>)
    ensures
        r is None <==> !upper_cell_addr_fits(u@),
        r matches Some(x) ==> x == spec_parse_upper_cell_addr(u@),
{
    if let Some(i) = first_digit(u) {
        if i > 0 {
            let letters = slice_chars(u, 0, i);
            if !vm_col_fits_exec(&letters) {
                return None;
            }
        }
    }
    Some(parse_upper_cell_addr(u))
}

/// Parses a cell address such as `B3` into `(row, column)`: trimmed,
/// uppercased, column letters before the first ASCII digit (at least one),
/// then the row number as `str::parse::<u32>` reads it.
pub fn parse_cell_addr(addr: &str) -> (r: Option<(u32, u32)>)
    requires
        cell_addr_fits(addr@),
    ensures
        r == spec_parse_cell_addr(addr@),
{
    let (u, _) = upper_and_digit(addr);
    parse_upper_cell_addr(&u)
}

/// `parse_cell_addr` where reading the column letters stays within `u32`,
/// and `None` where it would overflow.
pub fn parse_cell_addr_checked(addr: &str) -> (r: Option<Option<(u32, u32)>>)
    ensures
        r is None <==> !cell_addr_fits(addr@),
        r matches Some(x) ==> x == spec_parse_cell_addr(addr@),
{
    let (u, found) = upper_and_digit(addr);
    if let Some(k) = found {
        if k > 0 {
            let letters = slice_chars(&u, 0, k);
            if !vm_col_fits_exec(&letters) {
                return None;
            }
        }
    }
    Some(parse_cell_addr(addr))
}

/// `((r1, c1), (r2, c2))` of a range address `A1:B2`, or of a single cell
/// as a 1x1 range; the text is trimmed and split at its first `:`.
pub open spec fn spec_parse_range_addr(addr: Seq<char>) -> Option<((u32, u32), (u32, u32))> {
    let t = trimmed(addr);
    match char_index(t, ':', 0) {
        Some(i) => match spec_parse_cell_addr(t.subrange(0, i)) {
            None => None,
            Some(a) => match spec_parse_cell_addr(t.subrange(i + 1, t.len() as int)) {
                None => None,
                Some(b) => Some((a, b)),
            },
        },
        None => match spec_parse_cell_addr(t) {
            None => None,
            Some(c) => Some((c, c)),
        },
    }
}

/// Reading every cell address that `parse_range_addr` reads stays within
/// `u32` (the second is read only when the first parses).
pub open spec fn range_addr_fits(addr: Seq<char>) -> bool {
    let t = trimmed(addr);
    match char_index(t, ':', 0) {
        Some(i) => cell_addr_fits(t.subrange(0, i)) && (spec_parse_cell_addr(t.subrange(0, i)) is Some
            ==> cell_addr_fits(t.subrange(i + 1, t.len() as int))),
        None => cell_addr_fits(t),
    }
}

fn trimmed_and_colon(addr: &str) -> (r: (Vec<char>, Option<usize>))
    ensures
        r.0@ == trimmed(addr@),
        r.1 matches Some(i) ==> i < r.0@.len() && char_index(trimmed(addr@), ':', 0) == Some(i as int),
        r.1 is None ==> char_index(trimmed(addr@), ':', 0) is None,
{
    let chars = str_chars(addr);
    let (a, b) = trim_bounds(&chars);
    let t = slice_chars(&chars, a, b);
    let mut i: usize = 0;
    while i < t.len()
        invariant
            0 <= i <= t@.len(),
            t@ == trimmed(addr@),
            char_index(t@, ':', 0) == char_index(t@, ':', i as int),
        decreases t@.len() - i,
    {
        if t[i] == ':' {
            return (t, Some(i));
        }
        i = i + 1;
    }
    (t, None)
}

/// Parses `A1:B2` (or a single cell `B2` as a 1x1 range) into
/// `((r1, c1), (r2, c2))`.
pub fn parse_range_addr(addr: &str) -> (r: Option<((u32, u32), (u32, u32))>)
    requires
        range_addr_fits(addr@),
    ensures
        r == spec_parse_range_addr(addr@),
{
    let (t, colon) = trimmed_and_colon(addr);
    match colon {
        Some(i) => {
            let n = t.len();
            assert(i < n);
            let left = string_from_chars(&slice_chars(&t, 0, i));
            let a = match parse_cell_addr(left.as_str()) {
                Some(a) => a,
                None => {
                    return None;
                },
            };
            let right = string_from_chars(&slice_chars(&t, i + 1, n));
            let b = match parse_cell_addr(right.as_str()) {
                Some(b) => b,
                None => {
                    return None;
                },
            };
            Some((a, b))
        },
        None => {
            let whole = string_from_chars(&t);
            match parse_cell_addr(whole.as_str()) {
                Some(c) => Some((c, c)),
                None => None,
            }
        },
    }
}

/// `parse_range_addr` where reading its cell addresses stays within `u32`,
/// and `None` where it would overflow.
pub fn parse_range_addr_checked(addr: &str) -> (r: Option<Option<((u32, u32), (u32, u32))>>)
    ensures
        r is None <==> !range_addr_fits(addr@),
        r matches Some(x) ==> x == spec_parse_range_addr(addr@),
{
    let (t, colon) = trimmed_and_colon(addr);
    match colon {
        Some(i) => {
            let left = string_from_chars(&slice_chars(&t, 0, i));
            match parse_cell_addr_checked(left.as_str()) {
                None => {
                    return None;
                },
                Some(Some(_)) => {
                    let right = string_from_chars(&slice_chars(&t, i + 1, t.len()));
                    if parse_cell_addr_checked(right.as_str()).is_none() {
                        return None;
                    }
                },
                Some(None) => {},
            }
        },
        None => {
            let whole = string_from_chars(&t);
            if parse_cell_addr_checked(whole.as_str()).is_none() {
                return None;
            }
        },
    }
    Some(parse_range_addr(addr))
}

} // verus!
