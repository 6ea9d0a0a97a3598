//! Character and string primitives shared by the formula parser, the
//! reference rewriter and the JSON renderers: ASCII classification, the
//! Unicode classification and case mapping that std provides, decimal
//! rendering and parsing, trimming, and conversions between `str`/`String`
//! and `Vec<char>`.

use vstd::prelude::*;

verus! {

broadcast use vstd::string::axiom_spec_iter;

// ── ASCII classification ─────────────────────────────────────────────────

pub open spec fn is_ascii_digit(c: char) -> bool {
    '0' <= c && c <= '9'
}

pub open spec fn is_ascii_upper(c: char) -> bool {
    'A' <= c && c <= 'Z'
}

pub open spec fn is_ascii_lower(c: char) -> bool {
    'a' <= c && c <= 'z'
}

pub open spec fn is_ascii_alpha(c: char) -> bool {
    is_ascii_upper(c) || is_ascii_lower(c)
}

pub open spec fn is_ascii_alnum(c: char) -> bool {
    is_ascii_alpha(c) || is_ascii_digit(c)
}

/// `char::to_ascii_uppercase`: ASCII lowercase letters map to uppercase,
/// every other char is unchanged.
pub open spec fn ascii_upper(c: char) -> char {
    if is_ascii_lower(c) {
        ((c as u32) - 32) as char
    } else {
        c
    }
}

pub open spec fn ascii_lower(c: char) -> char {
    if is_ascii_upper(c) {
        ((c as u32) + 32) as char
    } else {
        c
    }
}

pub open spec fn seq_ascii_lower(s: Seq<char>) -> Seq<char> {
    Seq::new(s.len(), |i: int| ascii_lower(s[i]))
}

pub fn ascii_digit(c: char) -> (r: bool)
    ensures
        r == is_ascii_digit(c),
{
    '0' <= c && c <= '9'
}

pub fn ascii_alpha(c: char) -> (r: bool)
    ensures
        r == is_ascii_alpha(c),
{
    ('A' <= c && c <= 'Z') || ('a' <= c && c <= 'z')
}

pub fn ascii_alnum(c: char) -> (r: bool)
    ensures
        r == is_ascii_alnum(c),
{
    ascii_alpha(c) || ascii_digit(c)
}

pub fn to_ascii_upper(c: char) -> (r: char)
    ensures
        r == ascii_upper(c),
{
    if 'a' <= c && c <= 'z' {
        let u: u32 = (c as u32) - 32;
        proof {
            assert(('A' as u32) <= u && u <= ('Z' as u32));
        }
        char_from_ascii_code(u)
    } else {
        c
    }
}

pub fn to_ascii_lower(c: char) -> (r: char)
    ensures
        r == ascii_lower(c),
{
    if 'A' <= c && c <= 'Z' {
        let u: u32 = (c as u32) + 32;
        char_from_ascii_code(u)
    } else {
        c
    }
}

/// The char whose code point is `u`, for an ASCII code point.
fn char_from_ascii_code(u: u32) -> (r: char)
    requires
        u < 128,
    ensures
        r == u as char,
        r as u32 == u,
{
    let b: u8 = u as u8;
    let r = b as char;
    proof {
        assert(r as u32 == u);
    }
    r
}

// ── Unicode classification and case mapping (std) ────────────────────────

/// What `char::is_alphabetic` returns: whether `c` has the Unicode
/// `Alphabetic` property.
pub uninterp spec fn unicode_alphabetic(c: char) -> bool;

/// What `char::is_numeric` returns: whether `c` is in one of the Unicode
/// general categories for numbers (`Nd`, `Nl`, `No`).
pub uninterp spec fn unicode_numeric(c: char) -> bool;

/// What `char::is_whitespace` returns: whether `c` has the Unicode
/// `White_Space` property.
pub uninterp spec fn unicode_white_space(c: char) -> bool;

/// What `str::to_lowercase` returns for a string with these chars.
pub uninterp spec fn unicode_lowercase(s: Seq<char>) -> Seq<char>;

/// What `str::to_uppercase` returns for a string with these chars.
pub uninterp spec fn unicode_uppercase(s: Seq<char>) -> Seq<char>;

/// What `<str as Debug>::fmt` writes for a string with these chars: the
/// text in double quotes with `\\`, `"` and control chars escaped.
pub uninterp spec fn str_debug_text(s: Seq<char>) -> Seq<char>;

/// `char::is_alphanumeric`, which std documents as `is_alphabetic() ||
/// is_numeric()`.
pub open spec fn unicode_alphanumeric(c: char) -> bool {
    unicode_alphabetic(c) || unicode_numeric(c)
}

/// Formats `s` with `{:?}` (`<str as Debug>::fmt`); the contract names its
/// result and states nothing more of it.
#[verifier::external_body]
pub(crate) fn str_debug(s: &str) -> (r: String)
    ensures
        r@ == str_debug_text(s@),
{
    format!("{:?}", s)
}

/// Calls `char::is_alphabetic`; the contract names its result
/// (`unicode_alphabetic`), a function of `c` alone.
#[verifier::external_body]
pub(crate) fn char_is_alphabetic(c: char) -> (r: bool)
    ensures
        r == unicode_alphabetic(c),
{
    c.is_alphabetic()
}

/// Calls `char::is_numeric`; the contract names its result
/// (`unicode_numeric`), a function of `c` alone.
#[verifier::external_body]
pub(crate) fn char_is_numeric(c: char) -> (r: bool)
    ensures
        r == unicode_numeric(c),
{
    c.is_numeric()
}

pub fn char_is_alphanumeric(c: char) -> (r: bool)
    ensures
        r == unicode_alphanumeric(c),
{
    char_is_alphabetic(c) || char_is_numeric(c)
}

/// Calls `char::is_whitespace`; the contract names its result
/// (`unicode_white_space`), a function of `c` alone.
#[verifier::external_body]
pub(crate) fn char_is_whitespace(c: char) -> (r: bool)
    ensures
        r == unicode_white_space(c),
{
    c.is_whitespace()
}

/// Calls `str::to_lowercase` on the string made of `s`; the contract names
/// the result's chars (`unicode_lowercase`), a function of `s` alone.
#[verifier::external_body]
pub(crate) fn chars_to_lowercase(s: &Vec<char>) -> (r: Vec<char>)
    ensures
        r@ == unicode_lowercase(s@),
{
    let text: String = s.iter().collect();
    text.to_lowercase().chars().collect()
}

/// Calls `str::to_uppercase` on the string made of `s`; the contract names
/// the result's chars (`unicode_uppercase`), a function of `s` alone.
#[verifier::external_body]
pub(crate) fn chars_to_uppercase(s: &Vec<char>) -> (r: Vec<char>)
    ensures
        r@ == unicode_uppercase(s@),
{
    let text: String = s.iter().collect();
    text.to_uppercase().chars().collect()
}

// ── Conversions ──────────────────────────────────────────────────────────

/// The chars of `s`, in order.
pub(crate) fn str_chars(s: &str) -> (r: Vec<char>)
    ensures
        r@ == s@,
{
    let mut out: Vec<char> = Vec::new();
    for c in it: s.chars()
        invariant
            it.seq() == s@,
            out@ == it.seq().take(it.index() as int),
    {
        proof {
            assert(it.seq().take(it.index() + 1) =~= out@.push(c));
        }
        out.push(c);
    }
    proof {
        assert(s@.take(s@.len() as int) =~= s@);
    }
    out
}

/// A `String` holding exactly the chars of `v` (`FromIterator<char>`).
#[verifier::external_body]
pub(crate) fn string_from_chars(v: &Vec<char>) -> (r: String)
    ensures
        r@ == v@,
{
    v.iter().collect()
}

pub fn string_chars(s: &String) -> (r: Vec<char>)
    ensures
        r@ == s@,
{
    str_chars(s.as_str())
}

/// Appends every char of `src` to `dst`.
pub fn push_all(dst: &mut Vec<char>, src: &Vec<char>)
    ensures
        final(dst)@ == old(dst)@ + src@,
{
    let mut i: usize = 0;
    while i < src.len()
        invariant
            0 <= i <= src@.len(),
            dst@ == old(dst)@ + src@.subrange(0, i as int),
        decreases src@.len() - i,
    {
        dst.push(src[i]);
        proof {
            assert(src@.subrange(0, i + 1) == src@.subrange(0, i as int).push(src@[i as int]));
        }
        i = i + 1;
    }
    proof {
        assert(src@.subrange(0, src@.len() as int) == src@);
    }
}

/// Appends every char of `src` to `dst`.
pub fn push_str_chars(dst: &mut Vec<char>, src: &str)
    ensures
        final(dst)@ == old(dst)@ + src@,
{
    let v = str_chars(src);
    push_all(dst, &v);
}

/// The chars `s[lo..hi]`, copied.
pub fn slice_chars(s: &Vec<char>, lo: usize, hi: usize) -> (r: Vec<char>)
    requires
        lo <= hi <= s@.len(),
    ensures
        r@ == s@.subrange(lo as int, hi as int),
{
    let mut r: Vec<char> = Vec::new();
    let mut i: usize = lo;
    while i < hi
        invariant
            lo <= i <= hi,
            hi <= s@.len(),
            r@ == s@.subrange(lo as int, i as int),
        decreases hi - i,
    {
        r.push(s[i]);
        proof {
            assert(s@.subrange(lo as int, i + 1) == s@.subrange(lo as int, i as int).push(
                s@[i as int],
            ));
        }
        i = i + 1;
    }
    r
}

pub fn chars_eq(a: &Vec<char>, b: &Vec<char>) -> (r: bool)
    ensures
        r == (a@ == b@),
{
    if a.len() != b.len() {
        return false;
    }
    let mut i: usize = 0;
    while i < a.len()
        invariant
            a@.len() == b@.len(),
            0 <= i <= a@.len(),
            forall|j: int| 0 <= j < i ==> a@[j] == b@[j],
        decreases a@.len() - i,
    {
        if a[i] != b[i] {
            return false;
        }
        i = i + 1;
    }
    proof {
        assert(a@ =~= b@);
    }
    true
}

pub fn contains_char(a: &Vec<char>, c: char) -> (r: bool)
    ensures
        r == a@.contains(c),
{
    let mut i: usize = 0;
    while i < a.len()
        invariant
            0 <= i <= a@.len(),
            forall|j: int| 0 <= j < i ==> a@[j] != c,
        decreases a@.len() - i,
    {
        if a[i] == c {
            proof {
                assert(a@[i as int] == c);
            }
            return true;
        }
        i = i + 1;
    }
    false
}

/// `ascii_lower` applied to every char (`str::to_ascii_lowercase`).
pub fn chars_ascii_lower(s: &Vec<char>) -> (r: Vec<char>)
    ensures
        r@ == seq_ascii_lower(s@),
{
    let mut r: Vec<char> = Vec::new();
    let mut i: usize = 0;
    while i < s.len()
        invariant
            0 <= i <= s@.len(),
            r@ == seq_ascii_lower(s@.subrange(0, i as int)),
        decreases s@.len() - i,
    {
        let c = to_ascii_lower(s[i]);
        r.push(c);
        proof {
            assert(seq_ascii_lower(s@.subrange(0, i + 1)) =~= seq_ascii_lower(
                s@.subrange(0, i as int),
            ).push(c));
        }
        i = i + 1;
    }
    proof {
        assert(s@.subrange(0, s@.len() as int) == s@);
    }
    r
}

// ── Decimal rendering ────────────────────────────────────────────────────

pub open spec fn digit_char(d: nat) -> char {
    ((d + 48) as u32) as char
}

/// The decimal rendering of `n`, most significant digit first, with no
/// leading zeros (`"0"` for zero) -- what `Display` prints for an unsigned
/// integer.
pub open spec fn decimal(n: nat) -> Seq<char>
    decreases n,
{
    if n < 10 {
        seq![digit_char(n)]
    } else {
        decimal(n / 10).push(digit_char(n % 10))
    }
}

/// The decimal rendering of a signed integer, with a leading `-` for a
/// negative value.
pub open spec fn decimal_int(n: int) -> Seq<char> {
    if n < 0 {
        seq!['-'] + decimal((-n) as nat)
    } else {
        decimal(n as nat)
    }
}

fn digit_to_char(d: u128) -> (r: char)
    requires
        d < 10,
    ensures
        r == digit_char(d as nat),
{
    char_from_ascii_code((d + 48) as u32)
}

pub fn fmt_u128(n: u128) -> (r: Vec<char>)
    ensures
        r@ == decimal(n as nat),
    decreases n,
{
    if n < 10 {
        let mut v: Vec<char> = Vec::new();
        v.push(digit_to_char(n));
        proof {
            assert(v@ =~= seq![digit_char(n as nat)]);
        }
        v
    } else {
        let mut v = fmt_u128(n / 10);
        v.push(digit_to_char(n % 10));
        v
    }
}

pub fn fmt_u64(n: u64) -> (r: Vec<char>)
    ensures
        r@ == decimal(n as nat),
{
    fmt_u128(n as u128)
}

pub fn fmt_i64(n: i64) -> (r: Vec<char>)
    ensures
        r@ == decimal_int(n as int),
{
    if n < 0 {
        let m: u128 = (0 - (n as i128)) as u128;
        let mut v: Vec<char> = Vec::new();
        v.push('-');
        let d = fmt_u128(m);
        push_all(&mut v, &d);
        proof {
            assert(v@ =~= seq!['-'] + decimal((-(n as int)) as nat));
        }
        v
    } else {
        fmt_u128(n as u128)
    }
}

// ── Decimal parsing ──────────────────────────────────────────────────────

pub open spec fn all_ascii_digits(s: Seq<char>) -> bool {
    forall|i: int| 0 <= i < s.len() ==> is_ascii_digit(#[trigger] s[i])
}

/// The value of a string of ASCII digits read as a decimal number.
pub open spec fn digits_value(s: Seq<char>) -> nat
    decreases s.len(),
{
    if s.len() == 0 {
        0
    } else {
        digits_value(s.drop_last()) * 10 + ((s.last() as u32) - 48) as nat
    }
}

pub proof fn lemma_digits_value_prefix_monotone(s: Seq<char>, k: int)
    requires
        0 <= k <= s.len(),
        all_ascii_digits(s),
    ensures
        digits_value(s.subrange(0, k)) <= digits_value(s),
    decreases s.len() - k,
{
    if k < s.len() {
        lemma_digits_value_prefix_monotone(s, k + 1);
        let p = s.subrange(0, k + 1);
        assert(p.drop_last() == s.subrange(0, k));
        assert(p.last() == s[k]);
        assert(is_ascii_digit(s[k]));
        assert(digits_value(p) == digits_value(s.subrange(0, k)) * 10 + ((s[k] as u32) - 48) as nat);
    } else {
        assert(s.subrange(0, k) == s);
    }
}

/// `str::parse::<u32>` on a non-empty string of ASCII digits: the value,
/// or `None` when it does not fit in a `u32`.
pub fn parse_u32_digits(s: &Vec<char>) -> (r: Option<u32>)
    requires
        all_ascii_digits(s@),
    ensures
        match r {
            Some(v) => v as nat == digits_value(s@),
            None => digits_value(s@) > u32::MAX,
        },
{
    let mut acc: u32 = 0;
    let mut i: usize = 0;
    while i < s.len()
        invariant
            0 <= i <= s@.len(),
            all_ascii_digits(s@),
            acc as nat == digits_value(s@.subrange(0, i as int)),
        decreases s@.len() - i,
    {
        let c = s[i];
        proof {
            assert(is_ascii_digit(s@[i as int]));
            assert(s@.subrange(0, i + 1).drop_last() == s@.subrange(0, i as int));
        }
        let d: u32 = (c as u32) - 48;
        let next: u64 = (acc as u64) * 10 + (d as u64);
        if next > 0xffff_ffff {
            proof {
                lemma_digits_value_prefix_monotone(s@, i + 1);
            }
            return None;
        }
        acc = next as u32;
        i = i + 1;
    }
    proof {
        assert(s@.subrange(0, s@.len() as int) == s@);
    }
    Some(acc)
}

/// What `str::parse::<u32>` gives: an optional leading `+`, then one or
/// more ASCII digits whose value fits in a `u32`.
pub open spec fn parse_u32_text(s: Seq<char>) -> Option<u32> {
    let d = if s.len() > 0 && s[0] == '+' {
        s.drop_first()
    } else {
        s
    };
    if d.len() > 0 && all_ascii_digits(d) && digits_value(d) <= u32::MAX {
        Some(digits_value(d) as u32)
    } else {
        None
    }
}

/// Parses a `u32` the way `str::parse::<u32>` does.
pub fn parse_u32(s: &Vec<char>) -> (r: Option<u32>)
    ensures
        r == parse_u32_text(s@),
{
    let start: usize = if s.len() > 0 && s[0] == '+' {
        1
    } else {
        0
    };
    let d = slice_chars(s, start, s.len());
    proof {
        if start == 1 {
            assert(d@ =~= s@.drop_first());
        } else {
            assert(d@ =~= s@);
        }
    }
    if d.len() == 0 {
        return None;
    }
    let mut i: usize = 0;
    while i < d.len()
        invariant
            0 <= i <= d@.len(),
            d@.len() > 0,
            d@ == (if s@.len() > 0 && s@[0] == '+' {
                s@.drop_first()
            } else {
                s@
            }),
            forall|k: int| 0 <= k < i ==> is_ascii_digit(#[trigger] d@[k]),
        decreases d@.len() - i,
    {
        if !ascii_digit(d[i]) {
            proof {
                assert(!is_ascii_digit(d@[i as int]));
                assert(!all_ascii_digits(d@));
            }
            return None;
        }
        i = i + 1;
    }
    parse_u32_digits(&d)
}

/// `s` padded on the left with `0`s to at least `w` chars (`{:0w}`).
pub open spec fn zero_pad(s: Seq<char>, w: nat) -> Seq<char> {
    if s.len() < w {
        Seq::new((w - s.len()) as nat, |i: int| '0') + s
    } else {
        s
    }
}

pub fn pad_zeros(s: &Vec<char>, w: usize) -> (r: Vec<char>)
    ensures
        r@ == zero_pad(s@, w as nat),
{
    let mut out: Vec<char> = Vec::new();
    if s.len() < w {
        let n = w - s.len();
        let mut i: usize = 0;
        while i < n
            invariant
                0 <= i <= n,
                out@ == Seq::new(i as nat, |k: int| '0'),
            decreases n - i,
        {
            out.push('0');
            i = i + 1;
            proof {
                assert(out@ =~= Seq::new(i as nat, |k: int| '0'));
            }
        }
    }
    push_all(&mut out, s);
    proof {
        if s@.len() >= w {
            assert(out@ =~= s@);
        }
    }
    out
}

/// The items joined with `sep` between them.
pub open spec fn join_with(items: Seq<Seq<char>>, sep: char) -> Seq<char>
    decreases items.len(),
{
    if items.len() == 0 {
        Seq::empty()
    } else if items.len() == 1 {
        items[0]
    } else {
        join_with(items.drop_last(), sep) + seq![sep] + items.last()
    }
}

// ── Substring search ─────────────────────────────────────────────────────

/// `needle` occurs in `hay` at index `i`.
pub open spec fn occurs_at(hay: Seq<char>, needle: Seq<char>, i: int) -> bool {
    0 <= i && i + needle.len() <= hay.len() && hay.subrange(i, i + needle.len()) == needle
}

/// The first index at or after `i` where `needle` occurs in `hay`.
pub open spec fn find_sub(hay: Seq<char>, needle: Seq<char>, i: int) -> Option<int>
    decreases hay.len() + 1 - i,
{
    if !(0 <= i && i + needle.len() <= hay.len()) {
        None
    } else if hay.subrange(i, i + needle.len()) == needle {
        Some(i)
    } else {
        find_sub(hay, needle, i + 1)
    }
}

pub proof fn lemma_find_sub_bounds(hay: Seq<char>, needle: Seq<char>, i: int)
    requires
        0 <= i,
    ensures
        find_sub(hay, needle, i) matches Some(k) ==> i <= k && k + needle.len() <= hay.len()
            && occurs_at(hay, needle, k),
    decreases hay.len() + 1 - i,
{
    if i + needle.len() <= hay.len() && hay.subrange(i, i + needle.len()) != needle {
        lemma_find_sub_bounds(hay, needle, i + 1);
    }
}

/// Does `needle` occur in `hay` at index `i`?
pub fn occurs_at_exec(hay: &Vec<char>, needle: &Vec<char>, i: usize) -> (r: bool)
    ensures
        r == occurs_at(hay@, needle@, i as int),
{
    if needle.len() > hay.len() || i > hay.len() - needle.len() {
        return false;
    }
    let mut k: usize = 0;
    while k < needle.len()
        invariant
            0 <= k <= needle@.len(),
            i + needle@.len() <= hay.len(),
            forall|j: int| 0 <= j < k ==> hay@[i + j] == needle@[j],
        decreases needle@.len() - k,
    {
        if hay[i + k] != needle[k] {
            proof {
                assert(hay@.subrange(i as int, i + needle@.len())[k as int] != needle@[k as int]);
            }
            return false;
        }
        k = k + 1;
    }
    proof {
        assert(hay@.subrange(i as int, i + needle@.len()) =~= needle@);
    }
    true
}

/// The first index at or after `from` where `needle` occurs in `hay`.
pub fn find_from(hay: &Vec<char>, needle: &Vec<char>, from: usize) -> (r: Option<usize>)
    ensures
        r matches Some(i) ==> find_sub(hay@, needle@, from as int) == Some(i as int) && from <= i
            && i + needle@.len() <= hay.len(),
        r is None ==> find_sub(hay@, needle@, from as int) is None,
{
    proof {
        lemma_find_sub_bounds(hay@, needle@, from as int);
    }
    if needle.len() > hay.len() || from > hay.len() - needle.len() {
        return None;
    }
    let last = hay.len() - needle.len();
    let mut i: usize = from;
    while i < last
        invariant
            from <= i <= last,
            last + needle@.len() == hay@.len(),
            find_sub(hay@, needle@, from as int) == find_sub(hay@, needle@, i as int),
        decreases last - i,
    {
        if occurs_at_exec(hay, needle, i) {
            return Some(i);
        }
        i = i + 1;
    }
    if occurs_at_exec(hay, needle, last) {
        Some(last)
    } else {
        proof {
            assert(find_sub(hay@, needle@, last + 1) is None);
        }
        None
    }
}

// ── Whitespace trimming (`str::trim`) ────────────────────────────────────

/// Index of the first char at or after `i` that is not Unicode white space.
pub open spec fn trim_start_index(s: Seq<char>, i: int) -> int
    decreases s.len() - i,
{
    if 0 <= i < s.len() && unicode_white_space(s[i]) {
        trim_start_index(s, i + 1)
    } else {
        i
    }
}

/// One past the last char before `j` that is not Unicode white space,
/// stopping at `lo`.
pub open spec fn trim_end_index(s: Seq<char>, lo: int, j: int) -> int
    decreases j - lo,
{
    if lo < j && j <= s.len() && unicode_white_space(s[j - 1]) {
        trim_end_index(s, lo, j - 1)
    } else {
        j
    }
}

/// `str::trim`: `s` without its leading and trailing white space.
pub open spec fn trimmed(s: Seq<char>) -> Seq<char> {
    let a = trim_start_index(s, 0);
    s.subrange(a, trim_end_index(s, a, s.len() as int))
}

pub proof fn lemma_trim_start_bounds(s: Seq<char>, i: int)
    requires
        0 <= i <= s.len(),
    ensures
        i <= trim_start_index(s, i) <= s.len(),
    decreases s.len() - i,
{
    if i < s.len() && unicode_white_space(s[i]) {
        lemma_trim_start_bounds(s, i + 1);
    }
}

pub proof fn lemma_trim_end_bounds(s: Seq<char>, lo: int, j: int)
    requires
        0 <= lo <= j <= s.len(),
    ensures
        lo <= trim_end_index(s, lo, j) <= j,
    decreases j - lo,
{
    if lo < j && unicode_white_space(s[j - 1]) {
        lemma_trim_end_bounds(s, lo, j - 1);
    }
}

/// The bounds `(a, b)` such that `s[a..b]` is `s` trimmed.
pub fn trim_bounds(s: &Vec<char>) -> (r: (usize, usize))
    ensures
        r.0 == trim_start_index(s@, 0),
        r.1 == trim_end_index(s@, r.0 as int, s@.len() as int),
        r.0 <= r.1 <= s@.len(),
        s@.subrange(r.0 as int, r.1 as int) == trimmed(s@),
{
    let mut a: usize = 0;
    while a < s.len() && char_is_whitespace(s[a])
        invariant
            0 <= a <= s@.len(),
            trim_start_index(s@, a as int) == trim_start_index(s@, 0),
        decreases s@.len() - a,
    {
        a = a + 1;
    }
    let mut b: usize = s.len();
    proof {
        lemma_trim_end_bounds(s@, a as int, s@.len() as int);
    }
    while a < b && char_is_whitespace(s[b - 1])
        invariant
            0 <= a <= b <= s@.len(),
            trim_end_index(s@, a as int, b as int) == trim_end_index(
                s@,
                a as int,
                s@.len() as int,
            ),
        decreases b - a,
    {
        b = b - 1;
    }
    (a, b)
}

/// `s.trim().trim_start_matches('=')`: the text a formula is parsed from.
pub open spec fn strip_equals(s: Seq<char>) -> Seq<char>
    decreases s.len(),
{
    if s.len() > 0 && s[0] == '=' {
        strip_equals(s.drop_first())
    } else {
        s
    }
}

pub open spec fn formula_body(s: Seq<char>) -> Seq<char> {
    strip_equals(trimmed(s))
}

pub proof fn lemma_strip_equals_suffix(s: Seq<char>)
    ensures
        exists|k: int|
            0 <= k <= s.len() && #[trigger] s.subrange(k, s.len() as int) == strip_equals(s),
    decreases s.len(),
{
    if s.len() > 0 && s[0] == '=' {
        lemma_strip_equals_suffix(s.drop_first());
        let k = choose|k: int|
            0 <= k <= s.drop_first().len() && #[trigger] s.drop_first().subrange(
                k,
                s.drop_first().len() as int,
            ) == strip_equals(s.drop_first());
        assert(s.subrange(k + 1, s.len() as int) =~= s.drop_first().subrange(
            k,
            s.drop_first().len() as int,
        ));
    } else {
        assert(s.subrange(0, s.len() as int) =~= s);
    }
}

/// The chars of `formula.trim().trim_start_matches('=')`.
pub fn formula_body_chars(formula: &str) -> (r: Vec<char>)
    ensures
        r@ == formula_body(formula@),
        r@.len() <= formula@.len(),
{
    let all = str_chars(formula);
    let (a, b) = trim_bounds(&all);
    let mut k: usize = a;
    while k < b && all[k] == '='
        invariant
            a <= k <= b <= all@.len(),
            strip_equals(all@.subrange(k as int, b as int)) == strip_equals(
                all@.subrange(a as int, b as int),
            ),
        decreases b - k,
    {
        proof {
            assert(all@.subrange(k as int, b as int).drop_first() =~= all@.subrange(
                k + 1,
                b as int,
            ));
        }
        k = k + 1;
    }
    proof {
        let t = all@.subrange(k as int, b as int);
        if t.len() > 0 {
            assert(t[0] == all@[k as int]);
        }
    }
    slice_chars(&all, k, b)
}

// ── UTF-8 length ─────────────────────────────────────────────────────────

pub open spec fn utf8_width(c: char) -> nat {
    if (c as u32) < 0x80 {
        1
    } else if (c as u32) < 0x800 {
        2
    } else if (c as u32) < 0x10000 {
        3
    } else {
        4
    }
}

/// The number of bytes in the UTF-8 encoding of `s` (`str::len`).
pub open spec fn utf8_len(s: Seq<char>) -> nat
    decreases s.len(),
{
    if s.len() == 0 {
        0
    } else {
        utf8_len(s.drop_last()) + utf8_width(s.last())
    }
}

pub fn utf8_byte_len(s: &Vec<char>) -> (r: u128)
    ensures
        r as nat == utf8_len(s@),
{
    let mut acc: u128 = 0;
    let mut i: usize = 0;
    while i < s.len()
        invariant
            0 <= i <= s@.len(),
            acc as nat == utf8_len(s@.subrange(0, i as int)),
            acc <= 4 * i,
        decreases s@.len() - i,
    {
        let c = s[i];
        let w: u128 = if (c as u32) < 0x80 {
            1
        } else if (c as u32) < 0x800 {
            2
        } else if (c as u32) < 0x10000 {
            3
        } else {
            4
        };
        proof {
            assert(s@.subrange(0, i + 1).drop_last() == s@.subrange(0, i as int));
        }
        acc = acc + w;
        i = i + 1;
    }
    proof {
        assert(s@.subrange(0, s@.len() as int) == s@);
    }
    acc
}

// ── Column letters ───────────────────────────────────────────────────────

pub open spec fn letter(k: nat) -> char {
    ((k + 65) as u32) as char
}

/// A 1-based column number in Excel's letter form (`1` -> `A`, `27` -> `AA`);
/// empty for 0.
pub open spec fn col_letters(n: nat) -> Seq<char>
    decreases n,
{
    if n == 0 {
        Seq::empty()
    } else {
        col_letters(((n - 1) / 26) as nat).push(letter(((n - 1) % 26) as nat))
    }
}

/// Renders a 1-based column number as its Excel letter form.
pub fn col_to_letters(col: u32) -> (r: Vec<char>)
    ensures
        r@ == col_letters(col as nat),
    decreases col,
{
    if col == 0 {
        Vec::new()
    } else {
        let mut v = col_to_letters((col - 1) / 26);
        v.push(char_from_ascii_code(((col - 1) % 26) + 65));
        v
    }
}

} // verus!
