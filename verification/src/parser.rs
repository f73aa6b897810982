//! Parsing of one line of text into a transaction record.
//!
//! A record line is `type,client,tx[,amount]`, with `,` or `;` as the field
//! separator and optional whitespace around each field. Fields beyond the
//! fourth are ignored. An amount that does not parse as a non-negative
//! fixed-point decimal counts as zero (deliberate leniency); an unknown
//! transaction keyword is a hard parse error.

use vstd::prelude::*;
use vstd::string::StrSliceExecFns;

verus! {

/// The five meaningful transaction kinds. A record cannot exist without one.
#[derive(Clone, Copy, Debug, PartialEq, Eq, Structural)]
pub enum TxType {
    Deposit,
    Withdrawal,
    Dispute,
    Resolve,
    Chargeback,
}

/// Why a record line was rejected; names the missing or invalid field.
#[derive(Clone, Copy, Debug, PartialEq, Eq, Structural)]
pub enum ParseError {
    /// The transaction-type keyword is not one of the five known ones.
    InvalidType,
    /// The line has no client field.
    MissingClient,
    /// The client field is not an unsigned 16-bit number.
    InvalidClient,
    /// The line has no transaction-id field.
    MissingTx,
    /// The transaction-id field is not an unsigned 32-bit number.
    InvalidTx,
}

/// One parsed transaction record. Amounts are fixed-point: counts of
/// 1/10000 currency units.
#[derive(Clone, Copy, Debug, PartialEq, Eq)]
pub struct Tx {
    pub tx_type: TxType,
    pub tx_id: u32,
    pub client: u16,
    pub amount: Option<u64>,
}

/// Field separators accepted in a record line.
pub open spec fn is_sep(c: char) -> bool {
    c == ',' || c == ';'
}

/// Whitespace trimmed from the ends of each field.
pub open spec fn is_space(c: char) -> bool {
    c == ' ' || c == '\t' || c == '\r' || c == '\n'
}

/// Decimal digits.
pub open spec fn is_digit(c: char) -> bool {
    c == '0' || c == '1' || c == '2' || c == '3' || c == '4' || c == '5' || c == '6' || c == '7'
        || c == '8' || c == '9'
}

/// Position of the first field separator at or after `i`, or the length of
/// `s` if there is none.
pub open spec fn first_sep_from(s: Seq<char>, i: int) -> int
    decreases s.len() - i,
{
    if i >= s.len() {
        s.len() as int
    } else if is_sep(s[i]) {
        i
    } else {
        first_sep_from(s, i + 1)
    }
}

/// Position of the first character at or after `i` that is not whitespace.
pub open spec fn skip_ws_from(s: Seq<char>, i: int) -> int
    decreases s.len() - i,
{
    if i >= s.len() {
        s.len() as int
    } else if is_space(s[i]) {
        skip_ws_from(s, i + 1)
    } else {
        i
    }
}

/// Position just after the last non-whitespace character of `s` before `i`,
/// never retreating past `lo`.
pub open spec fn rskip_ws_from(s: Seq<char>, lo: int, i: int) -> int
    decreases i - lo,
{
    if i <= lo {
        i
    } else if 0 <= i - 1 < s.len() && is_space(s[i - 1]) {
        rskip_ws_from(s, lo, i - 1)
    } else {
        i
    }
}

/// `s` with leading and trailing whitespace removed.
pub open spec fn spec_trim(s: Seq<char>) -> Seq<char> {
    let lo = skip_ws_from(s, 0);
    let hi = rskip_ws_from(s, lo, s.len() as int);
    s.subrange(lo, hi)
}

/// Numeric value of a decimal digit.
pub open spec fn digit_val(c: char) -> nat {
    if c == '0' {
        0
    } else if c == '1' {
        1
    } else if c == '2' {
        2
    } else if c == '3' {
        3
    } else if c == '4' {
        4
    } else if c == '5' {
        5
    } else if c == '6' {
        6
    } else if c == '7' {
        7
    } else if c == '8' {
        8
    } else {
        9
    }
}

/// Every character of `s` is a decimal digit.
pub open spec fn all_digits(s: Seq<char>) -> bool {
    forall|i: int| 0 <= i < s.len() ==> is_digit(s[i])
}

/// Value of a string of decimal digits, most significant first.
pub open spec fn digits_val(s: Seq<char>) -> nat
    decreases s.len(),
{
    if s.len() == 0 {
        0
    } else {
        digits_val(s.drop_last()) * 10 + digit_val(s.last())
    }
}

/// The value of a digit string never shrinks as more digits are appended.
pub proof fn lemma_digits_val_mono(t: Seq<char>, k: int)
    requires
        0 <= k <= t.len(),
    ensures
        digits_val(t.take(k)) <= digits_val(t),
    decreases t.len() - k,
{
    if k < t.len() {
        assert(t.take(k + 1).drop_last() =~= t.take(k));
        assert(digits_val(t.take(k + 1)) == digits_val(t.take(k)) * 10 + digit_val(t[k]));
        lemma_digits_val_mono(t, k + 1);
    } else {
        assert(t.take(k) =~= t);
    }
}

/// An unsigned integer field: an optional `+` sign, then one or more
/// digits, with a value of at most `max`.
pub open spec fn spec_parse_uint(s: Seq<char>, max: nat) -> Option<nat> {
    let t = if s.len() > 0 && s[0] == '+' {
        s.skip(1)
    } else {
        s
    };
    if t.len() > 0 && all_digits(t) && digits_val(t) <= max {
        Some(digits_val(t))
    } else {
        None
    }
}

/// Position of the first `.` at or after `i`, or the length of `s`.
pub open spec fn first_dot_from(s: Seq<char>, i: int) -> int
    decreases s.len() - i,
{
    if i >= s.len() {
        s.len() as int
    } else if s[i] == '.' {
        i
    } else {
        first_dot_from(s, i + 1)
    }
}

pub proof fn lemma_first_dot_from(s: Seq<char>, i: int)
    requires
        0 <= i <= s.len(),
    ensures
        i <= first_dot_from(s, i) <= s.len(),
        forall|j: int| i <= j < first_dot_from(s, i) ==> s[j] != '.',
        first_dot_from(s, i) < s.len() ==> s[first_dot_from(s, i)] == '.',
    decreases s.len() - i,
{
    if i < s.len() && s[i] != '.' {
        lemma_first_dot_from(s, i + 1);
    }
}

pub open spec fn pow10(k: nat) -> nat
    decreases k,
{
    if k == 0 {
        1
    } else {
        10 * pow10((k - 1) as nat)
    }
}

/// Value of the fractional digits of an amount, in 1/10000 units.
/// Digits beyond the fourth are truncated.
pub open spec fn frac_units(f: Seq<char>) -> nat {
    if f.len() >= 4 {
        digits_val(f.take(4))
    } else {
        digits_val(f) * pow10((4 - f.len()) as nat)
    }
}

/// Fixed-point value of an amount field, in 1/10000 units.
///
/// The grammar is an optional `+` sign, digits, and optionally a `.`
/// followed by more digits, with at least one digit in all; fractional
/// digits beyond the fourth are truncated. Text outside this grammar, or a
/// value over `u64::MAX` units, counts as zero: a malformed amount is
/// deliberately lenient rather than an error.
pub open spec fn spec_amount_units(s: Seq<char>) -> u64 {
    let t = if s.len() > 0 && s[0] == '+' {
        s.skip(1)
    } else {
        s
    };
    let d = first_dot_from(t, 0);
    let ip = t.take(d);
    let fp = if d < t.len() {
        t.skip(d + 1)
    } else {
        Seq::<char>::empty()
    };
    if all_digits(ip) && all_digits(fp) && ip.len() + fp.len() > 0 && digits_val(ip) * 10000
        + frac_units(fp) <= u64::MAX {
        (digits_val(ip) * 10000 + frac_units(fp)) as u64
    } else {
        0
    }
}

/// The transaction kind named by a (trimmed) keyword field, if any.
pub open spec fn spec_kind(t0: Seq<char>) -> Option<TxType> {
    if t0 == "deposit"@ {
        Some(TxType::Deposit)
    } else if t0 == "withdrawal"@ {
        Some(TxType::Withdrawal)
    } else if t0 == "dispute"@ {
        Some(TxType::Dispute)
    } else if t0 == "resolve"@ {
        Some(TxType::Resolve)
    } else if t0 == "chargeback"@ {
        Some(TxType::Chargeback)
    } else {
        None
    }
}

fn space_at(s: &str, i: usize) -> (b: bool)
    requires
        i < s@.len(),
    ensures
        b == is_space(s@[i as int]),
{
    let c = s.get_char(i);
    c == ' ' || c == '\t' || c == '\r' || c == '\n'
}

fn find_sep(s: &str, from: usize) -> (r: usize)
    requires
        from <= s@.len(),
    ensures
        r == first_sep_from(s@, from as int),
        from <= r <= s@.len(),
{
    let n = s.unicode_len();
    let mut i = from;
    while i < n
        invariant
            from <= i <= n,
            n == s@.len(),
            first_sep_from(s@, from as int) == first_sep_from(s@, i as int),
        decreases n - i,
    {
        let c = s.get_char(i);
        if c == ',' || c == ';' {
            return i;
        }
        i = i + 1;
    }
    i
}

fn find_dot(s: &str, from: usize) -> (r: usize)
    requires
        from <= s@.len(),
    ensures
        r == first_dot_from(s@, from as int),
        from <= r <= s@.len(),
{
    let n = s.unicode_len();
    let mut i = from;
    while i < n
        invariant
            from <= i <= n,
            n == s@.len(),
            first_dot_from(s@, from as int) == first_dot_from(s@, i as int),
        decreases n - i,
    {
        let c = s.get_char(i);
        if c == '.' {
            return i;
        }
        i = i + 1;
    }
    i
}

fn trim_str(s: &str) -> (t: &str)
    ensures
        t@ == spec_trim(s@),
{
    let n = s.unicode_len();
    let mut lo: usize = 0;
    while lo < n && space_at(s, lo)
        invariant
            lo <= n,
            n == s@.len(),
            skip_ws_from(s@, 0) == skip_ws_from(s@, lo as int),
        decreases n - lo,
    {
        lo = lo + 1;
    }
    let mut hi: usize = n;
    while hi > lo && space_at(s, hi - 1)
        invariant
            lo <= hi <= n,
            n == s@.len(),
            skip_ws_from(s@, 0) == lo as int,
            rskip_ws_from(s@, lo as int, n as int) == rskip_ws_from(s@, lo as int, hi as int),
        decreases hi,
    {
        hi = hi - 1;
    }
    s.substring_char(lo, hi)
}

/// The digit at position `i` of `s`, if it is one.
fn digit_at(s: &str, i: usize) -> (r: Option<u8>)
    requires
        i < s@.len(),
    ensures
        match r {
            Option::Some(d) => is_digit(s@[i as int]) && d == digit_val(s@[i as int]) && d <= 9,
            Option::None => !is_digit(s@[i as int]),
        },
{
    let c = s.get_char(i);
    if c == '0' {
        Some(0)
    } else if c == '1' {
        Some(1)
    } else if c == '2' {
        Some(2)
    } else if c == '3' {
        Some(3)
    } else if c == '4' {
        Some(4)
    } else if c == '5' {
        Some(5)
    } else if c == '6' {
        Some(6)
    } else if c == '7' {
        Some(7)
    } else if c == '8' {
        Some(8)
    } else if c == '9' {
        Some(9)
    } else {
        None
    }
}

/// Parses an unsigned integer field, rejecting values over `max`.
fn parse_uint(s: &str, max: u64) -> (r: Option<u64>)
    ensures
        match r {
            Option::Some(v) => spec_parse_uint(s@, max as nat) == Some(v as nat) && v <= max,
            Option::None => spec_parse_uint(s@, max as nat) is None,
        },
{
    let n = s.unicode_len();
    let mut i: usize = 0;
    if n > 0 {
        let c = s.get_char(0);
        if c == '+' {
            i = 1;
        }
    }
    let ghost t: Seq<char> = if s@.len() > 0 && s@[0] == '+' {
        s@.skip(1)
    } else {
        s@
    };
    let ghost i0: int = i as int;
    assert(t.len() == n - i0);
    assert(forall|k: int| 0 <= k < t.len() ==> t[k] == s@[i0 + k]);
    if i == n {
        return None;
    }
    let mut acc: u64 = 0;
    let mut j = i;
    while j < n
        invariant
            i0 <= j <= n,
            n == s@.len(),
            i0 == (if s@.len() > 0 && s@[0] == '+' {
                1int
            } else {
                0int
            }),
            t == (if s@.len() > 0 && s@[0] == '+' {
                s@.skip(1)
            } else {
                s@
            }),
            t.len() == n - i0,
            forall|k: int| 0 <= k < t.len() ==> t[k] == s@[i0 + k],
            all_digits(t.take(j - i0)),
            acc == digits_val(t.take(j - i0)),
            acc <= max,
        decreases n - j,
    {
        match digit_at(s, j) {
            Option::None => {
                assert(!is_digit(t[j - i0]));
                return None;
            },
            Option::Some(d) => {
                proof {
                    assert(t.take(j - i0 + 1).drop_last() =~= t.take(j - i0));
                    assert(t.take(j - i0 + 1).last() == t[j - i0]);
                }
                let acc10 = match acc.checked_mul(10) {
                    Option::Some(x) => x,
                    Option::None => {
                        proof {
                            lemma_digits_val_mono(t, j - i0 + 1);
                        }
                        return None;
                    },
                };
                let acc2 = match acc10.checked_add(d as u64) {
                    Option::Some(x) => x,
                    Option::None => {
                        proof {
                            lemma_digits_val_mono(t, j - i0 + 1);
                        }
                        return None;
                    },
                };
                if acc2 > max {
                    proof {
                        lemma_digits_val_mono(t, j - i0 + 1);
                    }
                    return None;
                }
                acc = acc2;
                j = j + 1;
            },
        }
    }
    proof {
        assert(t.take(n - i0) =~= t);
    }
    Some(acc)
}

/// Scans `s[lo..hi)` as a run of decimal digits: `None` when some
/// character is no digit, `Some(None)` when the value exceeds `u64`,
/// `Some(Some(v))` for the value itself.
fn scan_digits(s: &str, lo: usize, hi: usize) -> (r: Option<Option<u64>>)
    requires
        lo <= hi <= s@.len(),
    ensures
        ({
            let d = s@.subrange(lo as int, hi as int);
            match r {
                Option::None => !all_digits(d),
                Option::Some(Option::None) => all_digits(d) && digits_val(d) > u64::MAX,
                Option::Some(Option::Some(v)) => all_digits(d) && digits_val(d) == v,
            }
        }),
{
    let ghost d = s@.subrange(lo as int, hi as int);
    let mut acc: u64 = 0;
    let mut overflow = false;
    let mut j = lo;
    while j < hi
        invariant
            lo <= j <= hi <= s@.len(),
            d == s@.subrange(lo as int, hi as int),
            all_digits(d.take(j - lo)),
            !overflow ==> acc == digits_val(d.take(j - lo)),
            overflow ==> digits_val(d.take(j - lo)) > u64::MAX,
        decreases hi - j,
    {
        proof {
            assert(d.take(j - lo + 1).drop_last() =~= d.take(j - lo));
            assert(d.take(j - lo + 1).last() == d[j - lo]);
            assert(d[j - lo] == s@[j as int]);
        }
        match digit_at(s, j) {
            Option::None => {
                assert(!is_digit(d[j - lo]));
                return None;
            },
            Option::Some(dd) => {
                if !overflow {
                    match acc.checked_mul(10) {
                        Option::Some(x) => {
                            match x.checked_add(dd as u64) {
                                Option::Some(y) => {
                                    acc = y;
                                },
                                Option::None => {
                                    overflow = true;
                                },
                            }
                        },
                        Option::None => {
                            overflow = true;
                        },
                    }
                } else {
                    proof {
                        lemma_digits_val_mono_step(d, j - lo);
                    }
                }
                j = j + 1;
            },
        }
    }
    proof {
        assert(d.take(hi - lo) =~= d);
    }
    if overflow {
        Some(None)
    } else {
        Some(Some(acc))
    }
}

/// Scans `s[lo..hi)` as the fractional digits of an amount: `None` when
/// some character is no digit, else their value in 1/10000 units.
fn scan_frac(s: &str, lo: usize, hi: usize) -> (r: Option<u64>)
    requires
        lo <= hi <= s@.len(),
    ensures
        ({
            let d = s@.subrange(lo as int, hi as int);
            match r {
                Option::None => !all_digits(d),
                Option::Some(v) => all_digits(d) && v == frac_units(d) && v < 10000,
            }
        }),
{
    let ghost d = s@.subrange(lo as int, hi as int);
    let mut fv: u64 = 0;
    let mut j = lo;
    while j < hi
        invariant
            lo <= j <= hi <= s@.len(),
            d == s@.subrange(lo as int, hi as int),
            all_digits(d.take(j - lo)),
            fv == digits_val(
                d.take(
                    if j - lo <= 4 {
                        j - lo
                    } else {
                        4
                    },
                ),
            ),
            j - lo == 0 ==> fv == 0,
            j - lo == 1 ==> fv < 10,
            j - lo == 2 ==> fv < 100,
            j - lo == 3 ==> fv < 1000,
            j - lo >= 4 ==> fv < 10000,
        decreases hi - j,
    {
        proof {
            assert(d[j - lo] == s@[j as int]);
        }
        match digit_at(s, j) {
            Option::None => {
                assert(!is_digit(d[j - lo]));
                return None;
            },
            Option::Some(dd) => {
                if j - lo < 4 {
                    proof {
                        assert(d.take(j - lo + 1).drop_last() =~= d.take(j - lo));
                        assert(d.take(j - lo + 1).last() == d[j - lo]);
                    }
                    fv = fv * 10 + (dd as u64);
                } else {
                    proof {
                        assert(d.take(
                            if j - lo + 1 <= 4 {
                                j - lo + 1
                            } else {
                                4
                            },
                        ) =~= d.take(4));
                    }
                }
                j = j + 1;
            },
        }
    }
    let flen = hi - lo;
    if flen == 0 {
        proof {
            assert(d.take(0) =~= d);
            assert(pow10(0) == 1);
            assert(pow10(1) == 10);
            assert(pow10(2) == 100);
            assert(pow10(3) == 1000);
            assert(pow10(4) == 10000);
        }
        Some(fv * 10000)
    } else if flen == 1 {
        proof {
            assert(d.take(1) =~= d);
            assert(pow10(0) == 1);
            assert(pow10(1) == 10);
            assert(pow10(2) == 100);
            assert(pow10(3) == 1000);
        }
        Some(fv * 1000)
    } else if flen == 2 {
        proof {
            assert(d.take(2) =~= d);
            assert(pow10(0) == 1);
            assert(pow10(1) == 10);
            assert(pow10(2) == 100);
        }
        Some(fv * 100)
    } else if flen == 3 {
        proof {
            assert(d.take(3) =~= d);
            assert(pow10(0) == 1);
            assert(pow10(1) == 10);
        }
        Some(fv * 10)
    } else {
        proof {
            assert(d.take(flen as int) =~= d);
        }
        Some(fv)
    }
}

/// Parses an amount field into 1/10000 units, with zero for anything
/// outside the amount grammar.
fn parse_amount(s: &str) -> (r: u64)
    ensures
        r == spec_amount_units(s@),
{
    let n = s.unicode_len();
    let mut i: usize = 0;
    if n > 0 {
        let c = s.get_char(0);
        if c == '+' {
            i = 1;
        }
    }
    let ghost t: Seq<char> = if s@.len() > 0 && s@[0] == '+' {
        s@.skip(1)
    } else {
        s@
    };
    let ghost i0: int = i as int;
    assert(t.len() == n - i0);
    assert(forall|k: int| 0 <= k < t.len() ==> t[k] == s@[i0 + k]);
    let d = find_dot(s, i);
    let ghost dt: int = first_dot_from(t, 0);
    proof {
        lemma_first_dot_from(s@, i0);
        lemma_first_dot_from(t, 0);
        if d < i0 + dt {
            assert(t[d - i0] == '.');
            assert(false);
        }
        if d > i0 + dt {
            assert(dt < t.len());
            assert(s@[i0 + dt] == '.');
            assert(false);
        }
    }
    let fstart: usize = if d < n {
        d + 1
    } else {
        n
    };
    let ghost ip: Seq<char> = t.take(dt);
    let ghost fp: Seq<char> = if dt < t.len() {
        t.skip(dt + 1)
    } else {
        Seq::<char>::empty()
    };
    proof {
        assert(ip =~= s@.subrange(i0, d as int));
        assert(fp =~= s@.subrange(fstart as int, n as int));
    }
    if (d - i) + (n - fstart) == 0 {
        return 0;
    }
    let int_part = match scan_digits(s, i, d) {
        Option::None => {
            assert(!all_digits(ip));
            return 0;
        },
        Option::Some(Option::None) => {
            proof {
                lemma_mul_ge(digits_val(ip), 10000);
            }
            return 0;
        },
        Option::Some(Option::Some(v)) => v,
    };
    let frac = match scan_frac(s, fstart, n) {
        Option::None => {
            assert(!all_digits(fp));
            return 0;
        },
        Option::Some(f) => f,
    };
    match int_part.checked_mul(10000) {
        Option::Some(x) => {
            match x.checked_add(frac) {
                Option::Some(y) => y,
                Option::None => 0,
            }
        },
        Option::None => 0,
    }
}

/// One step of digit-string monotonicity: extending by one digit cannot
/// shrink the value.
proof fn lemma_digits_val_mono_step(t: Seq<char>, k: int)
    requires
        0 <= k < t.len(),
    ensures
        digits_val(t.take(k + 1)) >= digits_val(t.take(k)),
{
    assert(t.take(k + 1).drop_last() =~= t.take(k));
    assert(t.take(k + 1).last() == t[k]);
}

/// Multiplying by a positive factor cannot shrink a natural number.
proof fn lemma_mul_ge(a: nat, b: nat)
    requires
        b >= 1,
    ensures
        a * b >= a,
{
    assert(a * b >= a) by (nonlinear_arith)
        requires
            b >= 1,
    ;
}

/// What parsing one record line yields: the line is cut at its
/// separators, each field is trimmed, and the first four fields are read
/// in order — fields beyond the fourth are ignored. The keyword is
/// checked first, then the client, then the transaction id; the first bad
/// field names the error. A missing amount field is `None`.
pub open spec fn spec_parse_line(s: Seq<char>) -> Result<Tx, ParseError> {
    let n = s.len() as int;
    let p1 = first_sep_from(s, 0);
    let p2 = first_sep_from(s, p1 + 1);
    let p3 = first_sep_from(s, p2 + 1);
    let p4 = first_sep_from(s, p3 + 1);
    match spec_kind(spec_trim(s.subrange(0, p1))) {
        Option::None => Err(ParseError::InvalidType),
        Option::Some(kind) => if p1 >= n {
            Err(ParseError::MissingClient)
        } else {
            match spec_parse_uint(spec_trim(s.subrange(p1 + 1, p2)), 0xffff) {
                Option::None => Err(ParseError::InvalidClient),
                Option::Some(client) => if p2 >= n {
                    Err(ParseError::MissingTx)
                } else {
                    match spec_parse_uint(spec_trim(s.subrange(p2 + 1, p3)), 0xffff_ffff) {
                        Option::None => Err(ParseError::InvalidTx),
                        Option::Some(tx_id) => Ok(
                            Tx {
                                tx_type: kind,
                                tx_id: tx_id as u32,
                                client: client as u16,
                                amount: if p3 >= n {
                                    None
                                } else {
                                    Some(spec_amount_units(spec_trim(s.subrange(p3 + 1, p4))))
                                },
                            },
                        ),
                    }
                },
            }
        },
    }
}

/// Character-for-character string equality.
fn str_eq(a: &str, b: &str) -> (r: bool)
    ensures
        r == (a@ == b@),
{
    let n = a.unicode_len();
    let m = b.unicode_len();
    if n != m {
        assert(a@ != b@);
        return false;
    }
    let mut i: usize = 0;
    while i < n
        invariant
            i <= n,
            n == a@.len(),
            n == b@.len(),
            forall|k: int| 0 <= k < i ==> a@[k] == b@[k],
        decreases n - i,
    {
        let ca = a.get_char(i);
        let cb = b.get_char(i);
        if ca != cb {
            assert(a@ != b@);
            return false;
        }
        i = i + 1;
    }
    proof {
        assert(a@ =~= b@);
    }
    true
}

impl TxType {
    /// The transaction kind named by a keyword, matched case-sensitively
    /// against the five known ones; any other text is no kind at all.
    pub fn from_keyword(s: &str) -> (r: Option<TxType>)
        ensures
            r == spec_kind(s@),
    {
        if str_eq(s, "deposit") {
            Some(TxType::Deposit)
        } else if str_eq(s, "withdrawal") {
            Some(TxType::Withdrawal)
        } else if str_eq(s, "dispute") {
            Some(TxType::Dispute)
        } else if str_eq(s, "resolve") {
            Some(TxType::Resolve)
        } else if str_eq(s, "chargeback") {
            Some(TxType::Chargeback)
        } else {
            None
        }
    }
}

impl Tx {
    /// Parses one record line. The result is exactly what the line grammar
    /// `spec_parse_line` assigns to the text, field by field.
    pub fn from_str(v: &str) -> (r: Result<Tx, ParseError>)
        ensures
            r == spec_parse_line(v@),
    {
        let n = v.unicode_len();
        let p1 = find_sep(v, 0);
        let p2 = if p1 < n {
            find_sep(v, p1 + 1)
        } else {
            n
        };
        let p3 = if p2 < n {
            find_sep(v, p2 + 1)
        } else {
            n
        };
        let p4 = if p3 < n {
            find_sep(v, p3 + 1)
        } else {
            n
        };
        assert(p2 == first_sep_from(v@, p1 + 1));
        assert(p3 == first_sep_from(v@, p2 + 1));
        assert(p4 == first_sep_from(v@, p3 + 1));
        let f0 = trim_str(v.substring_char(0, p1));
        let kind = match TxType::from_keyword(f0) {
            Option::Some(k) => k,
            Option::None => {
                return Err(ParseError::InvalidType);
            },
        };
        if p1 >= n {
            return Err(ParseError::MissingClient);
        }
        let f1 = trim_str(v.substring_char(p1 + 1, p2));
        let client = match parse_uint(f1, 0xffff) {
            Option::Some(c) => c as u16,
            Option::None => {
                return Err(ParseError::InvalidClient);
            },
        };
        if p2 >= n {
            return Err(ParseError::MissingTx);
        }
        let f2 = trim_str(v.substring_char(p2 + 1, p3));
        let tx_id = match parse_uint(f2, 0xffff_ffff) {
            Option::Some(t) => t as u32,
            Option::None => {
                return Err(ParseError::InvalidTx);
            },
        };
        let amount = if p3 >= n {
            None
        } else {
            Some(parse_amount(trim_str(v.substring_char(p3 + 1, p4))))
        };
        Ok(Tx { tx_type: kind, tx_id, client, amount })
    }
}

} // verus!
