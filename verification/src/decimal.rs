use vstd::prelude::*;

verus! {

/// The character that stands for the decimal digit `d` (`0 <= d < 10`).
pub open spec fn digit_char(d: int) -> char {
    (d + 48) as char
}

/// Whether `c` is an ASCII decimal digit.
pub open spec fn is_digit(c: char) -> bool {
    48 <= c as int <= 57
}

/// The value of the ASCII decimal digit `c`.
pub open spec fn digit_value(c: char) -> int {
    c as int - 48
}

/// Why a text is not an unsigned 64-bit decimal number; the kinds that
/// `u64::from_str` reports.
#[derive(Clone, Copy, PartialEq, Eq, Structural, Debug)]
pub enum DecimalError {
    /// The text is empty.
    Empty,
    /// A character is not a decimal digit (or the text is a lone sign).
    InvalidDigit,
    /// The number does not fit in 64 bits.
    PosOverflow,
}

impl DecimalError {
    /// The text that the standard library gives for this kind of error.
    pub open spec fn spec_message(self) -> Seq<char> {
        match self {
            DecimalError::Empty => "cannot parse integer from empty string"@,
            DecimalError::InvalidDigit => "invalid digit found in string"@,
            DecimalError::PosOverflow => "number too large to fit in target type"@,
        }
    }

    /// The text that the standard library gives for this kind of error.
    pub fn message(&self) -> (r: String)
        ensures
            r@ == self.spec_message(),
    {
        match self {
            DecimalError::Empty => String::from_str("cannot parse integer from empty string"),
            DecimalError::InvalidDigit => String::from_str("invalid digit found in string"),
            DecimalError::PosOverflow => String::from_str("number too large to fit in target type"),
        }
    }
}

/// Reads the digits of `s` from the left onto the value `acc` read so far,
/// stopping at the first character that is no digit or that makes the value
/// leave the range of `u64`.
pub open spec fn scan_digits(s: Seq<char>, acc: int) -> Result<int, DecimalError>
    decreases s.len(),
{
    if s.len() == 0 {
        Ok(acc)
    } else if !is_digit(s[0]) {
        Err(DecimalError::InvalidDigit)
    } else if acc * 10 + digit_value(s[0]) > u64::MAX {
        Err(DecimalError::PosOverflow)
    } else {
        scan_digits(s.drop_first(), acc * 10 + digit_value(s[0]))
    }
}

/// The meaning of `u64::from_str` on the text `s`: an optional leading `+`,
/// then one or more decimal digits whose value fits in 64 bits.
pub open spec fn spec_parse_u64(s: Seq<char>) -> Result<u64, DecimalError> {
    if s.len() == 0 {
        Err(DecimalError::Empty)
    } else {
        let digits = if s[0] == '+' {
            s.drop_first()
        } else {
            s
        };
        if digits.len() == 0 {
            Err(DecimalError::InvalidDigit)
        } else {
            match scan_digits(digits, 0) {
                Ok(v) => Ok(v as u64),
                Err(e) => Err(e),
            }
        }
    }
}

/// The decimal notation of `n`, without sign or leading zeros.
pub open spec fn decimal_digits(n: nat) -> Seq<char>
    decreases n,
{
    if n < 10 {
        seq![digit_char(n as int)]
    } else {
        decimal_digits(n / 10) + seq![digit_char((n % 10) as int)]
    }
}

proof fn lemma_scan_bounded(s: Seq<char>, acc: int)
    requires
        0 <= acc <= u64::MAX,
    ensures
        scan_digits(s, acc) matches Ok(v) ==> 0 <= v <= u64::MAX,
    decreases s.len(),
{
    if s.len() > 0 && is_digit(s[0]) && acc * 10 + digit_value(s[0]) <= u64::MAX {
        lemma_scan_bounded(s.drop_first(), acc * 10 + digit_value(s[0]));
    }
}

/// Parses `s` as `u64::from_str` does.
pub fn parse_u64(s: &str) -> (r: Result<u64, DecimalError>)
    ensures
        r == spec_parse_u64(s@),
{
    let n = s.unicode_len();
    if n == 0 {
        return Err(DecimalError::Empty);
    }
    let mut i: usize = 0;
    if s.get_char(0) == '+' {
        i = 1;
    }
    if i == n {
        return Err(DecimalError::InvalidDigit);
    }
    let ghost digits = s@.subrange(i as int, n as int);
    proof {
        if s@[0] == '+' {
            assert(digits =~= s@.drop_first());
        } else {
            assert(digits =~= s@);
        }
        lemma_scan_bounded(digits, 0);
    }
    let mut acc: u64 = 0;
    while i < n
        invariant
            n == s@.len(),
            i <= n,
            digits.len() > 0,
            spec_parse_u64(s@) == match scan_digits(digits, 0) {
                Ok(v) => Ok::<u64, DecimalError>(v as u64),
                Err(e) => Err(e),
            },
            scan_digits(digits, 0) == scan_digits(s@.subrange(i as int, n as int), acc as int),
        decreases n - i,
    {
        let c = s.get_char(i);
        assert(s@.subrange(i as int, n as int)[0] == c);
        assert(s@.subrange(i as int + 1, n as int) =~= s@.subrange(i as int, n as int).drop_first());
        if !('0' <= c && c <= '9') {
            return Err(DecimalError::InvalidDigit);
        }
        let d = (c as u32 - 48) as u64;
        let next = match acc.checked_mul(10) {
            Some(m) => m.checked_add(d),
            None => None,
        };
        match next {
            Some(v) => {
                acc = v;
            },
            None => {
                return Err(DecimalError::PosOverflow);
            },
        }
        i = i + 1;
    }
    assert(s@.subrange(n as int, n as int) =~= Seq::<char>::empty());
    Ok(acc)
}

/// The text of the decimal digit `d`.
fn digit_str(d: u64) -> (r: &'static str)
    requires
        d < 10,
    ensures
        r@ == seq![digit_char(d as int)],
{
    match d {
        0 => {
            proof { reveal_strlit("0"); }
            "0"
        },
        1 => {
            proof { reveal_strlit("1"); }
            "1"
        },
        2 => {
            proof { reveal_strlit("2"); }
            "2"
        },
        3 => {
            proof { reveal_strlit("3"); }
            "3"
        },
        4 => {
            proof { reveal_strlit("4"); }
            "4"
        },
        5 => {
            proof { reveal_strlit("5"); }
            "5"
        },
        6 => {
            proof { reveal_strlit("6"); }
            "6"
        },
        7 => {
            proof { reveal_strlit("7"); }
            "7"
        },
        8 => {
            proof { reveal_strlit("8"); }
            "8"
        },
        _ => {
            proof { reveal_strlit("9"); }
            "9"
        },
    }
}

/// Appends the decimal notation of `n` to `s`.
pub fn push_decimal(n: u64, s: &mut String)
    ensures
        final(s)@ == old(s)@ + decimal_digits(n as nat),
    decreases n,
{
    if n >= 10 {
        push_decimal(n / 10, s);
    }
    s.append(digit_str(n % 10));
    proof {
        if n >= 10 {
            assert(decimal_digits(n as nat) == decimal_digits((n / 10) as nat) + seq![
                digit_char((n % 10) as int),
            ]);
        }
    }
    assert(s@ =~= old(s)@ + decimal_digits(n as nat));
}

proof fn lemma_scan_append(a: Seq<char>, b: Seq<char>, acc: int)
    ensures
        scan_digits(a + b, acc) == match scan_digits(a, acc) {
            Ok(v) => scan_digits(b, v),
            Err(e) => Err(e),
        },
    decreases a.len(),
{
    if a.len() > 0 {
        assert((a + b).drop_first() =~= a.drop_first() + b);
        assert((a + b)[0] == a[0]);
        lemma_scan_append(a.drop_first(), b, acc * 10 + digit_value(a[0]));
    } else {
        assert(a + b =~= b);
    }
}

proof fn lemma_scan_decimal(n: nat)
    requires
        n <= u64::MAX,
    ensures
        scan_digits(decimal_digits(n), 0) == Ok::<int, DecimalError>(n as int),
        decimal_digits(n).len() > 0,
        is_digit(decimal_digits(n)[0]),
    decreases n,
{
    let d = digit_char((n % 10) as int);
    assert(is_digit(d) && digit_value(d) == n % 10);
    let last = seq![d];
    assert(last.drop_first() =~= Seq::<char>::empty());
    if n < 10 {
        assert(scan_digits(last, 0) == scan_digits(last.drop_first(), n as int));
    } else {
        lemma_scan_decimal(n / 10);
        lemma_scan_append(decimal_digits(n / 10), last, 0);
        assert(scan_digits(last, (n / 10) as int) == scan_digits(last.drop_first(), n as int));
        assert((decimal_digits(n / 10) + last)[0] == decimal_digits(n / 10)[0]);
    }
}

/// Reading back the decimal notation of a number gives that number: what
/// `u64_to_decimal` writes, `parse_u64` reads as the same value.
pub proof fn law_decimal_roundtrip(n: u64)
    ensures
        spec_parse_u64(decimal_digits(n as nat)) == Ok::<u64, DecimalError>(n),
{
    lemma_scan_decimal(n as nat);
    let s = decimal_digits(n as nat);
    assert(s[0] != '+');
}

/// The decimal notation of `n`, as `u64::to_string` writes it.
pub fn u64_to_decimal(n: u64) -> (r: String)
    ensures
        r@ == decimal_digits(n as nat),
{
    let mut s = String::new();
    push_decimal(n, &mut s);
    assert(s@ =~= decimal_digits(n as nat));
    s
}

} // verus!
