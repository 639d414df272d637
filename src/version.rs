use vstd::prelude::*;
use vstd::string::*;

verus! {

/// An interpreter version: a major number and, optionally, a minor number.
///
/// As a request, a missing minor accepts any minor of that major. A
/// discovered interpreter always carries both numbers.
#[derive(Clone, Copy, Debug, PartialEq, Eq, Structural)]
pub struct Version {
    pub major: u64,
    pub minor: Option<u64>,
}

/// Why a version token was rejected.
#[derive(Clone, Copy, Debug, PartialEq, Eq, Structural)]
pub enum ParseError {
    Malformed,
}

/// The value of a decimal digit, or `None` for any other character.
pub open spec fn digit_value(c: char) -> Option<nat> {
    if c == '0' { Some(0nat) }
    else if c == '1' { Some(1nat) }
    else if c == '2' { Some(2nat) }
    else if c == '3' { Some(3nat) }
    else if c == '4' { Some(4nat) }
    else if c == '5' { Some(5nat) }
    else if c == '6' { Some(6nat) }
    else if c == '7' { Some(7nat) }
    else if c == '8' { Some(8nat) }
    else if c == '9' { Some(9nat) }
    else { None }
}

pub open spec fn is_digit(c: char) -> bool {
    digit_value(c) is Some
}

/// The character of a digit `d < 10`.
pub open spec fn digit_char(d: nat) -> char {
    if d == 0 { '0' }
    else if d == 1 { '1' }
    else if d == 2 { '2' }
    else if d == 3 { '3' }
    else if d == 4 { '4' }
    else if d == 5 { '5' }
    else if d == 6 { '6' }
    else if d == 7 { '7' }
    else if d == 8 { '8' }
    else { '9' }
}

/// The number that a string of digits spells.
pub open spec fn digits_value(s: Seq<char>) -> nat
    decreases s.len(),
{
    if s.len() == 0 {
        0
    } else {
        digits_value(s.drop_last()) * 10 + digit_value(s.last()).unwrap_or(0)
    }
}

/// A decimal numeral: at least one digit, and no leading zero but for `0` itself.
pub open spec fn is_numeral(s: Seq<char>) -> bool {
    &&& s.len() > 0
    &&& forall|i: int| 0 <= i < s.len() ==> is_digit(#[trigger] s[i])
    &&& (s.len() == 1 || s[0] != '0')
}

/// The canonical decimal numeral of `n`.
pub open spec fn decimal(n: nat) -> Seq<char>
    decreases n,
{
    if n < 10 {
        seq![digit_char(n)]
    } else {
        decimal(n / 10).push(digit_char(n % 10))
    }
}

/// The index of the first `'.'` at or after `i`, or the length when there is none.
pub open spec fn dot_from(s: Seq<char>, i: int) -> int
    decreases s.len() - i,
{
    if i >= s.len() || i < 0 {
        s.len() as int
    } else if s[i] == '.' {
        i
    } else {
        dot_from(s, i + 1)
    }
}

/// The numeral's value as a `u64`, when it is a numeral and fits.
pub open spec fn numeral_u64(s: Seq<char>) -> Option<u64> {
    if is_numeral(s) && digits_value(s) <= u64::MAX {
        Some(digits_value(s) as u64)
    } else {
        None
    }
}

/// What a version token denotes: `M.N`, a bare `M`, or the legacy undotted
/// `3N` (two digits, the first a `3`) for `3.N`.
pub open spec fn parse_spec(s: Seq<char>) -> Option<Version> {
    let d = dot_from(s, 0);
    if d < s.len() {
        let major = numeral_u64(s.subrange(0, d));
        let minor = numeral_u64(s.subrange(d + 1, s.len() as int));
        if major is Some && minor is Some {
            Some(Version { major: major.unwrap(), minor: Some(minor.unwrap()) })
        } else {
            None
        }
    } else if s.len() == 2 && s[0] == '3' && is_digit(s[1]) {
        Some(Version { major: 3, minor: Some(digit_value(s[1]).unwrap() as u64) })
    } else if numeral_u64(s) is Some {
        Some(Version { major: numeral_u64(s).unwrap(), minor: None })
    } else {
        None
    }
}

/// The canonical text of a version: `M.N`, or `M` when the minor is absent.
pub open spec fn format_spec(v: Version) -> Seq<char> {
    match v.minor {
        Some(n) => decimal(v.major as nat) + seq!['.'] + decimal(n as nat),
        None => decimal(v.major as nat),
    }
}

impl Version {
    /// Whether `self`, read as a request, accepts the discovered `candidate`.
    pub open spec fn spec_matches(self, candidate: Version) -> bool {
        self.major == candidate.major && (self.minor is None || self.minor == candidate.minor)
    }

    /// The lexicographic order on `(major, minor)`, an absent minor lowest.
    pub open spec fn spec_less(self, other: Version) -> bool {
        self.major < other.major || (self.major == other.major && match (self.minor, other.minor) {
            (None, Some(_)) => true,
            (Some(a), Some(b)) => a < b,
            _ => false,
        })
    }

    pub fn matches(&self, candidate: &Version) -> (r: bool)
        ensures
            r == self.spec_matches(*candidate),
    {
        self.major == candidate.major && match self.minor {
            None => true,
            Some(m) => candidate.minor == Some(m),
        }
    }

    pub fn less_than(&self, other: &Version) -> (r: bool)
        ensures
            r == self.spec_less(*other),
    {
        if self.major != other.major {
            self.major < other.major
        } else {
            match (self.minor, other.minor) {
                (None, Some(_)) => true,
                (Some(a), Some(b)) => a < b,
                _ => false,
            }
        }
    }

    /// Reads a version token.
    pub fn parse(s: &str) -> (r: Result<Version, ParseError>)
        ensures
            r == (match parse_spec(s@) {
                Some(v) => Ok(v),
                None => Err(ParseError::Malformed),
            }),
    {
        let n: usize = s.unicode_len();
        let d: usize = find_dot(s, 0);
        if d < n {
            let major = parse_numeral(s, 0, d);
            let minor = parse_numeral(s, d + 1, n);
            match (major, minor) {
                (Some(a), Some(b)) => Ok(Version { major: a, minor: Some(b) }),
                _ => Err(ParseError::Malformed),
            }
        } else if n == 2 && s.get_char(0) == '3' && digit_of(s.get_char(1)).is_some() {
            match digit_of(s.get_char(1)) {
                Some(m) => Ok(Version { major: 3, minor: Some(m) }),
                None => Err(ParseError::Malformed),
            }
        } else {
            proof {
                assert(s@.subrange(0, n as int) =~= s@);
            }
            match parse_numeral(s, 0, n) {
                Some(a) => Ok(Version { major: a, minor: None }),
                None => Err(ParseError::Malformed),
            }
        }
    }

    /// The canonical text of the version.
    pub fn to_string(&self) -> (r: String)
        ensures
            r@ == format_spec(*self),
    {
        let mut r = decimal_string(self.major);
        match self.minor {
            Some(n) => {
                proof { reveal_strlit("."); }
                r.append(".");
                let tail = decimal_string(n);
                r.append(tail.as_str());
            },
            None => {},
        }
        r
    }
}

fn digit_of(c: char) -> (r: Option<u64>)
    ensures
        r == (match digit_value(c) {
            Some(d) => Some(d as u64),
            None => None,
        }),
{
    match c {
        '0' => Some(0),
        '1' => Some(1),
        '2' => Some(2),
        '3' => Some(3),
        '4' => Some(4),
        '5' => Some(5),
        '6' => Some(6),
        '7' => Some(7),
        '8' => Some(8),
        '9' => Some(9),
        _ => None,
    }
}

fn find_dot(s: &str, start: usize) -> (r: usize)
    requires
        start <= s@.len(),
    ensures
        r as int == dot_from(s@, start as int),
    decreases s@.len() - start,
{
    let n: usize = s.unicode_len();
    if start >= n {
        start
    } else if s.get_char(start) == '.' {
        start
    } else {
        find_dot(s, start + 1)
    }
}

proof fn lemma_value_prefix(s: Seq<char>, k: int)
    requires
        0 < k <= s.len(),
    ensures
        digits_value(s.subrange(0, k)) == digits_value(s.subrange(0, k - 1)) * 10
            + digit_value(s[k - 1]).unwrap_or(0),
{
    assert(s.subrange(0, k).drop_last() =~= s.subrange(0, k - 1));
}

proof fn lemma_value_grows(s: Seq<char>, k: int)
    requires
        0 <= k <= s.len(),
    ensures
        digits_value(s.subrange(0, k)) <= digits_value(s),
    decreases s.len() - k,
{
    if k < s.len() {
        lemma_value_grows(s, k + 1);
        lemma_value_prefix(s, k + 1);
    } else {
        assert(s.subrange(0, k) =~= s);
    }
}

/// Reads the numeral between `lo` and `hi`.
fn parse_numeral(s: &str, lo: usize, hi: usize) -> (r: Option<u64>)
    requires
        lo <= hi <= s@.len(),
    ensures
        r == numeral_u64(s@.subrange(lo as int, hi as int)),
{
    let ghost t = s@.subrange(lo as int, hi as int);
    if lo == hi {
        return None;
    }
    if hi - lo > 1 && s.get_char(lo) == '0' {
        return None;
    }
    let mut acc: u64 = 0;
    let mut i: usize = lo;
    while i < hi
        invariant
            lo <= i <= hi <= s@.len(),
            t == s@.subrange(lo as int, hi as int),
            forall|j: int| 0 <= j < i - lo ==> is_digit(#[trigger] t[j]),
            acc as nat == digits_value(t.subrange(0, i - lo)),
        decreases hi - i,
    {
        let c = s.get_char(i);
        match digit_of(c) {
            None => {
                assert(!is_digit(t[i - lo]));
                return None;
            },
            Some(d) => {
                proof { lemma_value_prefix(t, i - lo + 1); }
                if acc > (u64::MAX - d) / 10 {
                    proof {
                        assert(acc * 10 + d > u64::MAX) by (nonlinear_arith)
                            requires acc > (u64::MAX - d) / 10, d < 10;
                        lemma_value_grows(t, i - lo + 1);
                    }
                    return None;
                }
                assert(acc * 10 + d <= u64::MAX) by (nonlinear_arith)
                    requires acc <= (u64::MAX - d) / 10, d < 10;
                acc = acc * 10 + d;
                i = i + 1;
            },
        }
    }
    assert(t.subrange(0, hi - lo) =~= t);
    Some(acc)
}

/// The text of one digit.
fn digit_str(d: u64) -> (r: &'static str)
    requires
        d < 10,
    ensures
        r@ == seq![digit_char(d as nat)],
{
    if d == 0 { proof { reveal_strlit("0"); } "0" }
    else if d == 1 { proof { reveal_strlit("1"); } "1" }
    else if d == 2 { proof { reveal_strlit("2"); } "2" }
    else if d == 3 { proof { reveal_strlit("3"); } "3" }
    else if d == 4 { proof { reveal_strlit("4"); } "4" }
    else if d == 5 { proof { reveal_strlit("5"); } "5" }
    else if d == 6 { proof { reveal_strlit("6"); } "6" }
    else if d == 7 { proof { reveal_strlit("7"); } "7" }
    else if d == 8 { proof { reveal_strlit("8"); } "8" }
    else { proof { reveal_strlit("9"); } "9" }
}

/// The canonical decimal numeral of `n`.
fn decimal_string(n: u64) -> (r: String)
    ensures
        r@ == decimal(n as nat),
    decreases n,
{
    if n < 10 {
        String::from_str(digit_str(n))
    } else {
        let mut r = decimal_string(n / 10);
        r.append(digit_str(n % 10));
        r
    }
}

proof fn lemma_digit_round_trip(d: nat, c: char)
    ensures
        d < 10 ==> digit_value(digit_char(d)) == Some(d),
        is_digit(c) ==> digit_char(digit_value(c).unwrap()) == c,
        is_digit(c) ==> digit_value(c).unwrap() < 10,
{
}

/// The canonical numeral of `n` is a numeral, spells `n`, and has no leading zero.
proof fn lemma_decimal_numeral(n: nat)
    ensures
        is_numeral(decimal(n)),
        digits_value(decimal(n)) == n,
        n >= 1 ==> decimal(n)[0] != '0',
    decreases n,
{
    if n < 10 {
        lemma_digit_round_trip(n, '0');
        let s = decimal(n);
        assert(s == seq![digit_char(n)]);
        assert(s.drop_last() =~= Seq::<char>::empty());
        assert(digits_value(s) == digits_value(s.drop_last()) * 10
            + digit_value(s.last()).unwrap_or(0));
    } else {
        lemma_decimal_numeral(n / 10);
        lemma_digit_round_trip(n % 10, '0');
        let p = decimal(n / 10);
        let s = decimal(n);
        assert(s.drop_last() =~= p);
        assert forall|i: int| 0 <= i < s.len() implies is_digit(#[trigger] s[i]) by {
            if i < p.len() {
                assert(s[i] == p[i]);
            }
        }
        assert(s[0] == p[0]);
        assert(s.last() == digit_char(n % 10));
        assert((n / 10) * 10 + n % 10 == n) by (nonlinear_arith);
        assert(digits_value(s) == digits_value(p) * 10 + digit_value(s.last()).unwrap_or(0));
    }
}

/// A numeral is the canonical numeral of its value.
proof fn lemma_numeral_canonical(s: Seq<char>)
    requires
        is_numeral(s),
    ensures
        decimal(digits_value(s)) == s,
    decreases s.len(),
{
    let c = s.last();
    lemma_digit_round_trip(0, c);
    assert(is_digit(s[s.len() - 1]));
    let d = digit_value(c).unwrap();
    if s.len() == 1 {
        assert(s.drop_last().len() == 0);
        assert(digits_value(s.drop_last()) == 0);
        assert(digits_value(s) == d);
        assert(decimal(d) == seq![digit_char(d)]);
        assert(decimal(digits_value(s)) =~= s);
    } else {
        let p = s.drop_last();
        assert forall|i: int| 0 <= i < p.len() implies is_digit(#[trigger] p[i]) by {
            assert(p[i] == s[i]);
        }
        assert(p[0] == s[0]);
        lemma_numeral_canonical(p);
        let vp = digits_value(p);
        if vp == 0 {
            assert(decimal(0)[0] == '0');
        }
        let v = digits_value(s);
        assert(v == vp * 10 + d);
        assert(v / 10 == vp && v % 10 == d) by (nonlinear_arith)
            requires v == vp * 10 + d, d < 10;
        assert(decimal(v) =~= p.push(c));
        assert(p.push(c) =~= s);
    }
}

proof fn lemma_no_dot(s: Seq<char>, i: int)
    requires
        0 <= i <= s.len(),
        forall|j: int| 0 <= j < s.len() ==> is_digit(#[trigger] s[j]),
    ensures
        dot_from(s, i) == s.len(),
    decreases s.len() - i,
{
    if i < s.len() {
        assert(is_digit(s[i]));
        lemma_no_dot(s, i + 1);
    }
}

proof fn lemma_dot_after_digits(a: Seq<char>, b: Seq<char>, i: int)
    requires
        0 <= i <= a.len(),
        forall|j: int| 0 <= j < a.len() ==> is_digit(#[trigger] a[j]),
    ensures
        dot_from(a + seq!['.'] + b, i) == a.len(),
    decreases a.len() - i,
{
    let s = a + seq!['.'] + b;
    if i < a.len() {
        assert(s[i] == a[i]);
        assert(is_digit(a[i]));
        lemma_dot_after_digits(a, b, i + 1);
    } else {
        assert(s[i] == '.');
    }
}

/// Formatting a parsed version and parsing the text again gives the same version.
pub proof fn law_version_round_trip(s: Seq<char>)
    requires
        parse_spec(s) is Some,
    ensures
        parse_spec(format_spec(parse_spec(s).unwrap())) == parse_spec(s),
{
    let v = parse_spec(s).unwrap();
    lemma_decimal_numeral(v.major as nat);
    let a = decimal(v.major as nat);
    match v.minor {
        Some(n) => {
            lemma_decimal_numeral(n as nat);
            let b = decimal(n as nat);
            let t = a + seq!['.'] + b;
            lemma_dot_after_digits(a, b, 0);
            assert(t.subrange(0, a.len() as int) =~= a);
            assert(t.subrange(a.len() as int + 1, t.len() as int) =~= b);
        },
        None => {
            lemma_no_dot(a, 0);
            lemma_no_dot(s, 0);
            assert(dot_from(s, 0) >= s.len());
            lemma_numeral_canonical(s);
            assert(a == s);
        },
    }
}

} // verus!
