//! Character-level helpers shared by the line protocols: character
//! classes, searching and splitting, decimal rendering and decimal
//! parsing, each stated over `Seq<char>`.
use vstd::prelude::*;
use vstd::string::*;

verus! {

// ---------------------------------------------------------------------
// Character classes
// ---------------------------------------------------------------------

/// ASCII letter or digit (`u8::is_ascii_alphanumeric`).
pub open spec fn is_ascii_alnum(c: char) -> bool {
    ('a' <= c && c <= 'z') || ('A' <= c && c <= 'Z') || ('0' <= c && c <= '9')
}

/// The Unicode `White_Space` property, as `char::is_whitespace` tests it.
pub open spec fn is_whitespace(c: char) -> bool {
    ||| ('\u{9}' <= c && c <= '\u{d}')
    ||| c == ' '
    ||| c == '\u{85}'
    ||| c == '\u{a0}'
    ||| c == '\u{1680}'
    ||| ('\u{2000}' <= c && c <= '\u{200a}')
    ||| c == '\u{2028}'
    ||| c == '\u{2029}'
    ||| c == '\u{202f}'
    ||| c == '\u{205f}'
    ||| c == '\u{3000}'
}

/// A text that trims to nothing (`s.trim().is_empty()`).
pub open spec fn is_blank(s: Seq<char>) -> bool {
    forall|i: int| 0 <= i < s.len() ==> is_whitespace(#[trigger] s[i])
}

pub fn ascii_alnum(c: char) -> (r: bool)
    ensures
        r == is_ascii_alnum(c),
{
    ('a' <= c && c <= 'z') || ('A' <= c && c <= 'Z') || ('0' <= c && c <= '9')
}

pub fn whitespace(c: char) -> (r: bool)
    ensures
        r == is_whitespace(c),
{
    ('\u{9}' <= c && c <= '\u{d}') || c == ' ' || c == '\u{85}' || c == '\u{a0}' || c
        == '\u{1680}' || ('\u{2000}' <= c && c <= '\u{200a}') || c == '\u{2028}' || c
        == '\u{2029}' || c == '\u{202f}' || c == '\u{205f}' || c == '\u{3000}'
}

/// Whether `v[lo..hi]` is blank.
pub fn blank_range(v: &Vec<char>, lo: usize, hi: usize) -> (r: bool)
    requires
        lo <= hi <= v@.len(),
    ensures
        r == is_blank(v@.subrange(lo as int, hi as int)),
{
    let mut i = lo;
    while i < hi
        invariant
            lo <= i <= hi <= v@.len(),
            forall|j: int| lo <= j < i ==> is_whitespace(#[trigger] v@[j]),
        decreases hi - i,
    {
        if !whitespace(v[i]) {
            assert(v@.subrange(lo as int, hi as int)[i - lo] == v@[i as int]);
            return false;
        }
        i += 1;
    }
    assert forall|k: int| 0 <= k < hi - lo implies is_whitespace(
        #[trigger] v@.subrange(lo as int, hi as int)[k],
    ) by {
        assert(v@.subrange(lo as int, hi as int)[k] == v@[lo + k]);
    }
    true
}

// ---------------------------------------------------------------------
// Strings and character vectors
// ---------------------------------------------------------------------

/// The characters of `s`, in order.
pub fn chars_of(s: &str) -> (v: Vec<char>)
    ensures
        v@ == s@,
{
    let mut v: Vec<char> = Vec::new();
    for c in it: s.chars()
        invariant
            v@ == it.seq().take(it.index() as int),
    {
        v.push(c);
    }
    v
}

/// `String::push`: appends one character.
#[verifier::external_body]
pub fn push_char(s: &mut String, c: char)
    ensures
        final(s)@ == old(s)@.push(c),
{
    s.push(c);
}

/// Appends `v[lo..hi]` to `s`.
pub fn push_range(s: &mut String, v: &Vec<char>, lo: usize, hi: usize)
    requires
        lo <= hi <= v@.len(),
    ensures
        final(s)@ == old(s)@ + v@.subrange(lo as int, hi as int),
{
    let ghost start = s@;
    let mut i = lo;
    while i < hi
        invariant
            lo <= i <= hi <= v@.len(),
            s@ == start + v@.subrange(lo as int, i as int),
        decreases hi - i,
    {
        push_char(s, v[i]);
        assert(v@.subrange(lo as int, i + 1) == v@.subrange(lo as int, i as int).push(v@[i as int]));
        i += 1;
    }
}

/// A new string holding `v[lo..hi]`.
pub fn string_of_range(v: &Vec<char>, lo: usize, hi: usize) -> (s: String)
    requires
        lo <= hi <= v@.len(),
    ensures
        s@ == v@.subrange(lo as int, hi as int),
{
    let mut s = String::new();
    push_range(&mut s, v, lo, hi);
    s
}

/// Whether two strings hold the same characters.
pub fn str_equal(a: &str, b: &str) -> (r: bool)
    ensures
        r == (a@ == b@),
{
    let va = chars_of(a);
    let vb = chars_of(b);
    if va.len() != vb.len() {
        return false;
    }
    let mut i: usize = 0;
    while i < va.len()
        invariant
            va@ == a@,
            vb@ == b@,
            va@.len() == vb@.len(),
            i <= va@.len(),
            forall|j: int| 0 <= j < i ==> va@[j] == vb@[j],
        decreases va@.len() - i,
    {
        if va[i] != vb[i] {
            return false;
        }
        i += 1;
    }
    assert(va@ =~= vb@);
    true
}

// ---------------------------------------------------------------------
// Searching and splitting
// ---------------------------------------------------------------------

/// `k` is the position of the first `c` in `s`.
pub open spec fn is_first(s: Seq<char>, c: char, k: int) -> bool {
    &&& 0 <= k < s.len()
    &&& s[k] == c
    &&& forall|j: int| 0 <= j < k ==> s[j] != c
}

/// Position of the first `c` in `s` (`str::find`), if any.
pub open spec fn first_index(s: Seq<char>, c: char) -> Option<int> {
    if exists|k: int| is_first(s, c, k) {
        Some(choose|k: int| is_first(s, c, k))
    } else {
        None
    }
}

/// The first position of a character is unique.
pub proof fn lemma_first_index(s: Seq<char>, c: char, k: int)
    requires
        is_first(s, c, k),
    ensures
        first_index(s, c) == Some(k),
{
    let k2 = choose|k2: int| is_first(s, c, k2);
    assert(is_first(s, c, k2));
    if k2 < k {
        assert(s[k2] != c);
    } else if k < k2 {
        assert(s[k] != c);
    }
}

/// A text without `c` has no first position of `c`.
pub proof fn lemma_no_index(s: Seq<char>, c: char)
    requires
        forall|j: int| 0 <= j < s.len() ==> s[j] != c,
    ensures
        first_index(s, c) is None,
{
    if exists|k: int| is_first(s, c, k) {
        let k = choose|k: int| is_first(s, c, k);
        assert(s[k] == c);
    }
}

/// The pieces of `s` between occurrences of `c` (`str::split`).
pub open spec fn split_on(s: Seq<char>, c: char) -> Seq<Seq<char>>
    decreases s.len(),
{
    match first_index(s, c) {
        Some(k) => seq![s.take(k)] + split_on(s.skip(k + 1), c),
        None => seq![s],
    }
}

/// First position of `c` in `v[lo..hi]`, counted from `lo`.
pub fn find_in_range(v: &Vec<char>, lo: usize, hi: usize, c: char) -> (r: Option<usize>)
    requires
        lo <= hi <= v@.len(),
    ensures
        match r {
            Some(k) => first_index(v@.subrange(lo as int, hi as int), c) == Some(k as int),
            None => first_index(v@.subrange(lo as int, hi as int), c) is None,
        },
{
    let ghost s = v@.subrange(lo as int, hi as int);
    let mut i = lo;
    while i < hi
        invariant
            lo <= i <= hi <= v@.len(),
            s == v@.subrange(lo as int, hi as int),
            forall|j: int| 0 <= j < i - lo ==> s[j] != c,
        decreases hi - i,
    {
        if v[i] == c {
            proof {
                lemma_first_index(s, c, i - lo);
            }
            return Some(i - lo);
        }
        i += 1;
    }
    proof {
        lemma_no_index(s, c);
    }
    None
}

/// The pieces of `v[lo..hi]` between occurrences of `c`, as
/// `(start, end)` positions into `v`.
pub fn split_range(v: &Vec<char>, lo: usize, hi: usize, c: char) -> (parts: Vec<(usize, usize)>)
    requires
        lo <= hi <= v@.len(),
    ensures
        parts@.len() == split_on(v@.subrange(lo as int, hi as int), c).len(),
        forall|k: int|
            0 <= k < parts@.len() ==> {
                &&& lo <= (#[trigger] parts@[k]).0 <= parts@[k].1 <= hi
                &&& v@.subrange(parts@[k].0 as int, parts@[k].1 as int) == split_on(
                    v@.subrange(lo as int, hi as int),
                    c,
                )[k]
            },
{
    let ghost whole = v@.subrange(lo as int, hi as int);
    let mut parts: Vec<(usize, usize)> = Vec::new();
    let mut start = lo;
    loop
        invariant
            lo <= start <= hi <= v@.len(),
            whole == v@.subrange(lo as int, hi as int),
            split_on(whole, c) == Seq::new(
                parts@.len() as nat,
                |k: int| v@.subrange(parts@[k].0 as int, parts@[k].1 as int),
            ) + split_on(v@.subrange(start as int, hi as int), c),
            forall|k: int|
                0 <= k < parts@.len() ==> lo <= (#[trigger] parts@[k]).0 <= parts@[k].1 <= hi,
        decreases hi - start,
    {
        let ghost rest = v@.subrange(start as int, hi as int);
        let ghost done = Seq::new(
            parts@.len() as nat,
            |k: int| v@.subrange(parts@[k].0 as int, parts@[k].1 as int),
        );
        match find_in_range(v, start, hi, c) {
            Some(k) => {
                let end = start + k;
                assert(rest.take(k as int) == v@.subrange(start as int, end as int));
                assert(rest.skip(k + 1) == v@.subrange(end + 1, hi as int));
                parts.push((start, end));
                let ghost done2 = Seq::new(
                    parts@.len() as nat,
                    |j: int| v@.subrange(parts@[j].0 as int, parts@[j].1 as int),
                );
                assert(done2 == done.push(v@.subrange(start as int, end as int)));
                assert(split_on(rest, c) == seq![rest.take(k as int)] + split_on(rest.skip(k + 1), c));
                assert(split_on(whole, c) == done2 + split_on(v@.subrange(end + 1, hi as int), c));
                start = end + 1;
            },
            None => {
                parts.push((start, hi));
                let ghost done2 = Seq::new(
                    parts@.len() as nat,
                    |j: int| v@.subrange(parts@[j].0 as int, parts@[j].1 as int),
                );
                assert(done2 == done.push(rest));
                assert(split_on(rest, c) == seq![rest]);
                assert(split_on(whole, c) == done2);
                return parts;
            },
        }
    }
}

// ---------------------------------------------------------------------
// Decimal rendering
// ---------------------------------------------------------------------

/// The character of a decimal digit.
pub open spec fn digit_char(d: nat) -> char {
    seq!['0', '1', '2', '3', '4', '5', '6', '7', '8', '9'][d as int]
}

/// Decimal digits of `n`, without leading zeros (`n.to_string()`).
pub open spec fn decimal(n: nat) -> Seq<char>
    decreases n,
{
    if n < 10 {
        seq![digit_char(n)]
    } else {
        decimal(n / 10).push(digit_char(n % 10))
    }
}

/// `width` zeros.
pub open spec fn zeros(width: nat) -> Seq<char> {
    Seq::new(width, |i: int| '0')
}

/// Decimal digits of `n`, left-padded with zeros to at least `width`
/// characters (`format!("{n:0width$}")`).
pub open spec fn padded_decimal(n: nat, width: nat) -> Seq<char> {
    if decimal(n).len() < width {
        zeros((width - decimal(n).len()) as nat) + decimal(n)
    } else {
        decimal(n)
    }
}

pub fn digit(d: u64) -> (c: char)
    requires
        d < 10,
    ensures
        c == digit_char(d as nat),
{
    match d {
        0 => '0',
        1 => '1',
        2 => '2',
        3 => '3',
        4 => '4',
        5 => '5',
        6 => '6',
        7 => '7',
        8 => '8',
        _ => '9',
    }
}

/// Appends the decimal digits of `n`.
pub fn push_decimal(s: &mut String, n: u64)
    ensures
        final(s)@ == old(s)@ + decimal(n as nat),
    decreases n,
{
    if n >= 10 {
        push_decimal(s, n / 10);
    }
    push_char(s, digit(n % 10));
}

pub open spec fn pow10(k: nat) -> nat
    decreases k,
{
    if k == 0 {
        1
    } else {
        10 * pow10((k - 1) as nat)
    }
}

/// A number below `10^k` has at most `k` digits.
pub proof fn lemma_decimal_len(n: nat, k: nat)
    requires
        n < pow10(k),
        k >= 1,
    ensures
        decimal(n).len() <= k,
    decreases k,
{
    if n >= 10 {
        if k == 1 {
            assert(pow10(1) == 10) by {
                assert(pow10(0) == 1);
            }
        }
        lemma_decimal_len(n / 10, (k - 1) as nat);
    }
}

/// Appends `n` left-padded with zeros to `width` characters.
pub fn push_padded_decimal(s: &mut String, n: u64, width: usize)
    ensures
        final(s)@ == old(s)@ + padded_decimal(n as nat, width as nat),
{
    let mut digits = String::new();
    push_decimal(&mut digits, n);
    let len = digits.as_str().unicode_len();
    let ghost start = s@;
    if len < width {
        let mut i = len;
        while i < width
            invariant
                len <= i <= width,
                s@ == start + zeros((i - len) as nat),
            decreases width - i,
        {
            push_char(s, '0');
            assert(zeros((i + 1 - len) as nat) == zeros((i - len) as nat).push('0'));
            i += 1;
        }
    }
    s.append(digits.as_str());
    assert(s@ == start + padded_decimal(n as nat, width as nat));
}

// ---------------------------------------------------------------------
// Decimal parsing (`str::parse::<u16>` and `str::parse::<u8>`)
// ---------------------------------------------------------------------

/// Why a text is not an unsigned integer (`core::num::IntErrorKind`).
#[derive(Clone, Copy, Debug, PartialEq, Eq, Structural)]
pub enum IntErrorKind {
    Empty,
    InvalidDigit,
    PosOverflow,
}

pub open spec fn is_digit(c: char) -> bool {
    '0' <= c && c <= '9'
}

pub open spec fn digit_value(c: char) -> nat {
    (c as int - '0' as int) as nat
}

/// Scans `d` from the left: the first character that is no digit, or
/// the first digit that takes the value past `max`, decides the error.
pub open spec fn scan_digits(d: Seq<char>, max: nat) -> Result<nat, IntErrorKind>
    decreases d.len(),
{
    if d.len() == 0 {
        Ok(0)
    } else {
        match scan_digits(d.drop_last(), max) {
            Err(e) => Err(e),
            Ok(v) => if !is_digit(d.last()) {
                Err(IntErrorKind::InvalidDigit)
            } else if v * 10 + digit_value(d.last()) > max {
                Err(IntErrorKind::PosOverflow)
            } else {
                Ok(v * 10 + digit_value(d.last()))
            },
        }
    }
}

/// An unsigned integer of at most `max` in decimal: an optional `+`,
/// then digits only.
pub open spec fn parse_uint(s: Seq<char>, max: nat) -> Result<nat, IntErrorKind> {
    if s.len() == 0 {
        Err(IntErrorKind::Empty)
    } else if s.len() == 1 && (s[0] == '+' || s[0] == '-') {
        Err(IntErrorKind::InvalidDigit)
    } else if s[0] == '+' {
        scan_digits(s.drop_first(), max)
    } else {
        scan_digits(s, max)
    }
}

/// Parses `v[lo..hi]` as an unsigned integer of at most `max`.
pub fn parse_uint_range(v: &Vec<char>, lo: usize, hi: usize, max: u32) -> (r: Result<
    u32,
    IntErrorKind,
>)
    requires
        lo <= hi <= v@.len(),
    ensures
        match parse_uint(v@.subrange(lo as int, hi as int), max as nat) {
            Ok(n) => r == Ok::<u32, IntErrorKind>(n as u32),
            Err(e) => r == Err::<u32, IntErrorKind>(e),
        },
{
    let ghost s = v@.subrange(lo as int, hi as int);
    if lo == hi {
        return Err(IntErrorKind::Empty);
    }
    if hi - lo == 1 && (v[lo] == '+' || v[lo] == '-') {
        return Err(IntErrorKind::InvalidDigit);
    }
    let first = if v[lo] == '+' {
        lo + 1
    } else {
        lo
    };
    let ghost d = v@.subrange(first as int, hi as int);
    assert(v@[lo as int] == '+' ==> d == s.drop_first());
    assert(v@[lo as int] != '+' ==> d == s);
    assert(parse_uint(s, max as nat) == scan_digits(d, max as nat));
    let mut acc: u64 = 0;
    let mut i = first;
    while i < hi
        invariant
            first <= i <= hi <= v@.len(),
            d == v@.subrange(first as int, hi as int),
            s == v@.subrange(lo as int, hi as int),
            parse_uint(s, max as nat) == scan_digits(d, max as nat),
            scan_digits(v@.subrange(first as int, i as int), max as nat) == Ok::<
                nat,
                IntErrorKind,
            >(acc as nat),
            acc <= max,
        decreases hi - i,
    {
        let c = v[i];
        let ghost pre = v@.subrange(first as int, i + 1);
        assert(pre.drop_last() == v@.subrange(first as int, i as int));
        assert(pre.last() == c);
        assert(d.take((i - first) + 1) == pre);
        if !('0' <= c && c <= '9') {
            assert(scan_digits(pre, max as nat) == Err::<nat, IntErrorKind>(IntErrorKind::InvalidDigit));
            proof {
                lemma_scan_prefix_err(d, (i - first) as nat, max as nat, IntErrorKind::InvalidDigit);
            }
            return Err(IntErrorKind::InvalidDigit);
        }
        let dv = (c as u32 - '0' as u32) as u64;
        assert(dv == digit_value(c));
        if acc * 10 + dv > max as u64 {
            assert(scan_digits(pre, max as nat) == Err::<nat, IntErrorKind>(IntErrorKind::PosOverflow));
            proof {
                lemma_scan_prefix_err(d, (i - first) as nat, max as nat, IntErrorKind::PosOverflow);
            }
            return Err(IntErrorKind::PosOverflow);
        }
        acc = acc * 10 + dv;
        i += 1;
    }
    assert(v@.subrange(first as int, hi as int) == d);
    Ok(acc as u32)
}

/// An error in the first `k + 1` characters is the error of the whole.
proof fn lemma_scan_prefix_err(d: Seq<char>, k: nat, max: nat, e: IntErrorKind)
    requires
        k < d.len(),
        scan_digits(d.take(k as int + 1), max) == Err::<nat, IntErrorKind>(e),
    ensures
        scan_digits(d, max) == Err::<nat, IntErrorKind>(e),
    decreases d.len() - k,
{
    if k + 1 < d.len() {
        lemma_scan_prefix_err_step(d, (k + 1) as nat, max, e);
    } else {
        assert(d.take(k as int + 1) == d);
    }
}

proof fn lemma_scan_prefix_err_step(d: Seq<char>, n: nat, max: nat, e: IntErrorKind)
    requires
        n <= d.len(),
        scan_digits(d.take(n as int), max) == Err::<nat, IntErrorKind>(e),
    ensures
        scan_digits(d, max) == Err::<nat, IntErrorKind>(e),
    decreases d.len() - n,
{
    if n < d.len() {
        assert(d.take(n as int + 1).drop_last() == d.take(n as int));
        lemma_scan_prefix_err_step(d, n + 1, max, e);
    } else {
        assert(d.take(n as int) == d);
    }
}

proof fn lemma_digit_char(d: nat)
    requires
        d < 10,
    ensures
        is_digit(digit_char(d)),
        digit_value(digit_char(d)) == d,
{
    let ds = seq!['0', '1', '2', '3', '4', '5', '6', '7', '8', '9'];
    assert(ds[0] == '0' && ds[1] == '1' && ds[2] == '2' && ds[3] == '3' && ds[4] == '4');
    assert(ds[5] == '5' && ds[6] == '6' && ds[7] == '7' && ds[8] == '8' && ds[9] == '9');
}

/// The decimal text of a number is a non-empty run of digits.
pub proof fn lemma_decimal_digits(n: nat)
    ensures
        decimal(n).len() >= 1,
        forall|i: int| 0 <= i < decimal(n).len() ==> is_digit(#[trigger] decimal(n)[i]),
    decreases n,
{
    lemma_digit_char(n % 10);
    if n >= 10 {
        lemma_decimal_digits(n / 10);
        let d = decimal(n);
        assert forall|i: int| 0 <= i < d.len() implies is_digit(#[trigger] d[i]) by {
            if i < d.len() - 1 {
                assert(d[i] == decimal(n / 10)[i]);
            }
        }
    }
}

proof fn lemma_scan_decimal(n: nat, max: nat)
    requires
        n <= max,
    ensures
        scan_digits(decimal(n), max) == Ok::<nat, IntErrorKind>(n),
    decreases n,
{
    lemma_digit_char(n % 10);
    if n >= 10 {
        lemma_scan_decimal(n / 10, max);
        assert(decimal(n).drop_last() == decimal(n / 10));
        assert(decimal(n).last() == digit_char(n % 10));
        assert((n / 10) * 10 + n % 10 == n) by (nonlinear_arith);
        assert(n / 10 <= max);
    } else {
        assert(decimal(n).drop_last() =~= Seq::<char>::empty());
        assert(scan_digits(Seq::<char>::empty(), max) == Ok::<nat, IntErrorKind>(0));
        assert(decimal(n).last() == digit_char(n));
    }
}

/// Parsing the decimal text of a number gives the number back.
pub proof fn lemma_decimal_parses(n: nat, max: nat)
    requires
        n <= max,
    ensures
        parse_uint(decimal(n), max) == Ok::<nat, IntErrorKind>(n),
{
    lemma_decimal_digits(n);
    lemma_scan_decimal(n, max);
    assert(is_digit(decimal(n)[0]));
}

proof fn lemma_scan_zeros_prefix(z: nat, d: Seq<char>, max: nat)
    ensures
        scan_digits(zeros(z) + d, max) == scan_digits(d, max),
    decreases d.len() + z,
{
    if d.len() == 0 {
        assert(zeros(z) + d =~= zeros(z));
        if z > 0 {
            assert(zeros(z).drop_last() =~= zeros((z - 1) as nat) + Seq::<char>::empty());
            lemma_scan_zeros_prefix((z - 1) as nat, Seq::<char>::empty(), max);
            assert(zeros((z - 1) as nat) + Seq::<char>::empty() =~= zeros((z - 1) as nat));
            assert(zeros(z).last() == '0');
        }
    } else {
        lemma_scan_zeros_prefix(z, d.drop_last(), max);
        assert((zeros(z) + d).drop_last() =~= zeros(z) + d.drop_last());
        assert((zeros(z) + d).last() == d.last());
    }
}

/// Parsing a number padded with zeros to `width` digits gives the number
/// back, and the padded text is a non-empty run of digits.
pub proof fn lemma_padded_decimal_parses(n: nat, width: nat, max: nat)
    requires
        n <= max,
    ensures
        parse_uint(padded_decimal(n, width), max) == Ok::<nat, IntErrorKind>(n),
        forall|i: int|
            0 <= i < padded_decimal(n, width).len() ==> is_digit(
                #[trigger] padded_decimal(n, width)[i],
            ),
{
    lemma_decimal_digits(n);
    lemma_scan_decimal(n, max);
    let p = padded_decimal(n, width);
    let d = decimal(n);
    if d.len() < width {
        let z = (width - d.len()) as nat;
        lemma_scan_zeros_prefix(z, d, max);
        assert forall|i: int| 0 <= i < p.len() implies is_digit(#[trigger] p[i]) by {
            if i < z {
                assert(p[i] == '0');
            } else {
                assert(p[i] == d[i - z]);
            }
        }
    }
    assert(is_digit(p[0]));
}

/// `ParseIntError`'s message for each kind.
pub open spec fn int_error_text(e: IntErrorKind) -> Seq<char> {
    match e {
        IntErrorKind::Empty => "cannot parse integer from empty string"@,
        IntErrorKind::InvalidDigit => "invalid digit found in string"@,
        IntErrorKind::PosOverflow => "number too large to fit in target type"@,
    }
}

pub fn push_int_error(s: &mut String, e: IntErrorKind)
    ensures
        final(s)@ == old(s)@ + int_error_text(e),
{
    match e {
        IntErrorKind::Empty => s.append("cannot parse integer from empty string"),
        IntErrorKind::InvalidDigit => s.append("invalid digit found in string"),
        IntErrorKind::PosOverflow => s.append("number too large to fit in target type"),
    }
}

} // verus!
