//! Parsing of the typed values the renderer is configured with: signed
//! decimal integers, and pairs of them split at a separator character.

use vstd::prelude::*;

verus! {

/// `c` is an ASCII decimal digit.
pub open spec fn is_digit(c: char) -> bool {
    48 <= c as u32 <= 57
}

/// The numeric value of the digit `c`.
pub open spec fn digit_val(c: char) -> int {
    c as u32 - 48
}

/// The value of a string of digits, most significant first.
pub open spec fn digits_val(s: Seq<char>) -> int
    decreases s.len(),
{
    if s.len() == 0 {
        0
    } else {
        digits_val(s.drop_last()) * 10 + digit_val(s.last())
    }
}

/// The digits of a decimal number: `s` without its sign, if it has one.
pub open spec fn number_body(s: Seq<char>) -> Seq<char> {
    if s.len() > 0 && (s[0] == '+' || s[0] == '-') {
        s.drop_first()
    } else {
        s
    }
}

/// `s` begins with a minus sign.
pub open spec fn is_negative(s: Seq<char>) -> bool {
    s.len() > 0 && s[0] == '-'
}

/// `s` is an optional sign followed by at least one digit and nothing
/// else.
pub open spec fn well_formed_number(s: Seq<char>) -> bool {
    &&& s.len() > 0
    &&& number_body(s).len() > 0
    &&& forall|i: int| 0 <= i < number_body(s).len() ==> is_digit(#[trigger] number_body(s)[i])
}

/// The signed value a well-formed number denotes.
pub open spec fn number_val(s: Seq<char>) -> int {
    if is_negative(s) {
        -digits_val(number_body(s))
    } else {
        digits_val(number_body(s))
    }
}

/// Why a string failed to parse as an `i32`.
#[derive(Clone, Copy, Debug, PartialEq, Eq, Structural)]
pub enum NumberError {
    /// The string is empty.
    Empty,
    /// A character is not a digit, or no digit follows the sign.
    InvalidDigit,
    /// The denoted value is above the largest `i32`.
    TooLarge,
    /// The denoted value is below the smallest `i32`.
    TooSmall,
}

/// A string of digits is never negative.
proof fn lemma_digits_val_nonneg(s: Seq<char>)
    requires
        forall|i: int| 0 <= i < s.len() ==> is_digit(#[trigger] s[i]),
    ensures
        digits_val(s) >= 0,
    decreases s.len(),
{
    if s.len() > 0 {
        lemma_digits_val_nonneg(s.drop_last());
    }
}

/// Parse `s` as a signed decimal `i32`: an optional `+` or `-` followed
/// by one or more digits, whose value fits the type.  Which error comes
/// back on which inputs is pinned down exactly.
pub fn parse_i32(s: &str) -> (r: Result<i32, NumberError>)
    ensures
        r matches Ok(v) <==> well_formed_number(s@) && i32::MIN <= number_val(s@) <= i32::MAX,
        r matches Ok(v) ==> v == number_val(s@),
        r == Err::<i32, _>(NumberError::Empty) <==> s@.len() == 0,
        r == Err::<i32, _>(NumberError::InvalidDigit) <==> s@.len() > 0 && !well_formed_number(
            s@,
        ),
        r == Err::<i32, _>(NumberError::TooLarge) <==> well_formed_number(s@) && number_val(s@)
            > i32::MAX,
        r == Err::<i32, _>(NumberError::TooSmall) <==> well_formed_number(s@) && number_val(s@)
            < i32::MIN,
{
    let len = s.unicode_len();
    if len == 0 {
        return Err(NumberError::Empty);
    }
    let first = s.get_char(0);
    let negative = first as u32 == 45;
    let signed = negative || first as u32 == 43;
    let start: usize = if signed {
        1
    } else {
        0
    };
    proof {
        assert(first as u32 == 45 <==> first == '-');
        assert(first as u32 == 43 <==> first == '+');
        if signed {
            assert(number_body(s@) =~= s@.drop_first());
        } else {
            assert(number_body(s@) =~= s@);
        }
    }
    if start == len {
        return Err(NumberError::InvalidDigit);
    }
    let ghost body = number_body(s@);
    // Accumulate the magnitude; once it exceeds the widest `i32`
    // magnitude it only has to stay too big, not stay exact.
    let mut acc: u64 = 0;
    let mut i: usize = start;
    while i < len
        invariant
            start <= i <= len,
            len == s@.len(),
            start == if signed {
                1int
            } else {
                0int
            },
            body == number_body(s@),
            body.len() == len - start,
            forall|j: int| 0 <= j < body.len() ==> body[j] == s@[j + start],
            forall|j: int| 0 <= j < i - start ==> is_digit(#[trigger] body[j]),
            digits_val(body.take(i - start)) <= 0x80000000 ==> acc == digits_val(
                body.take(i - start),
            ),
            digits_val(body.take(i - start)) > 0x80000000 ==> acc > 0x80000000,
            acc <= 0x80000000 * 10 + 9,
        decreases len - i,
    {
        let c = s.get_char(i);
        let d = c as u32;
        if d < 48 || d > 57 {
            proof {
                let k = i - start;
                assert(body[k] == s@[k + start]);
                assert(body[k] == c);
                assert(!is_digit(body[k]));
            }
            return Err(NumberError::InvalidDigit);
        }
        proof {
            let k = i - start;
            assert(body[k] == c);
            assert(body.take(k + 1).drop_last() =~= body.take(k));
            assert(digits_val(body.take(k + 1)) == digits_val(body.take(k)) * 10 + digit_val(c));
            lemma_digits_val_nonneg(body.take(k));
        }
        if acc <= 0x80000000 {
            acc = acc * 10 + ((d - 48) as u64);
        }
        i = i + 1;
    }
    proof {
        assert(body.take(len - start) =~= body);
        lemma_digits_val_nonneg(body);
        assert(well_formed_number(s@));
        assert(is_negative(s@) <==> negative);
    }
    if negative {
        if acc > 0x80000000 {
            Err(NumberError::TooSmall)
        } else if acc == 0x80000000 {
            Ok(i32::MIN)
        } else {
            Ok(-(acc as i32))
        }
    } else {
        if acc > 0x7fffffff {
            Err(NumberError::TooLarge)
        } else {
            Ok(acc as i32)
        }
    }
}

impl NumberError {
    /// The wording each parse failure carries.
    pub open spec fn message_spec(self) -> Seq<char> {
        match self {
            NumberError::Empty => "cannot parse integer from empty string"@,
            NumberError::InvalidDigit => "invalid digit found in string"@,
            NumberError::TooLarge => "number too large to fit in target type"@,
            NumberError::TooSmall => "number too small to fit in target type"@,
        }
    }

    /// Say in words why the parse failed.
    pub fn message(&self) -> (m: &'static str)
        ensures
            m@ == self.message_spec(),
    {
        match self {
            NumberError::Empty => "cannot parse integer from empty string",
            NumberError::InvalidDigit => "invalid digit found in string",
            NumberError::TooLarge => "number too large to fit in target type",
            NumberError::TooSmall => "number too small to fit in target type",
        }
    }
}

/// `s` denotes a value that fits an `i32`.
pub open spec fn line_ok(s: Seq<char>) -> bool {
    well_formed_number(s) && i32::MIN <= number_val(s) <= i32::MAX
}

/// The failure a line that does not denote an `i32` runs into.
pub open spec fn line_error(s: Seq<char>) -> NumberError {
    if s.len() == 0 {
        NumberError::Empty
    } else if !well_formed_number(s) {
        NumberError::InvalidDigit
    } else if number_val(s) > i32::MAX {
        NumberError::TooLarge
    } else {
        NumberError::TooSmall
    }
}

/// A line that failed to parse as a number: what went wrong, the line
/// itself, and its 1-indexed position in the input.
#[derive(Debug)]
pub struct ParseLineError {
    pub message: String,
    pub line: String,
    pub line_number: usize,
}

impl ParseLineError {
    /// The error in words: the failure, the 1-indexed line number, and
    /// the line itself.
    pub fn describe(&self) -> (s: String)
        ensures
            s@ == "'"@ + self.message@ + "' on line "@ + crate::text::dec_rep(
                self.line_number as nat,
            ) + ": '"@ + self.line@ + "'"@,
    {
        let mut s = String::from_str("'");
        s.append(self.message.as_str());
        s.append("' on line ");
        s.append(crate::text::to_decimal(self.line_number as u64).as_str());
        s.append(": '");
        s.append(self.line.as_str());
        s.append("'");
        s
    }
}

/// Parse every line as a signed decimal `i32`.  All lines parse exactly
/// when every one of them denotes an in-range number; otherwise the
/// error reports the first offending line, 1-indexed, with the line text
/// and the wording of its failure.
pub fn parse_numbers(lines: &Vec<String>) -> (r: Result<Vec<i32>, ParseLineError>)
    ensures
        r is Ok <==> (forall|i: int| 0 <= i < lines@.len() ==> line_ok(#[trigger] lines@[i]@)),
        r matches Ok(ns) ==> ns@.len() == lines@.len() && (forall|i: int|
            0 <= i < lines@.len() ==> #[trigger] ns@[i] == number_val(lines@[i]@)),
        r matches Err(e) ==> {
            let k = e.line_number - 1;
            &&& 1 <= e.line_number <= lines@.len()
            &&& !line_ok(lines@[k]@)
            &&& (forall|j: int| 0 <= j < k ==> line_ok(#[trigger] lines@[j]@))
            &&& e.line@ == lines@[k]@
            &&& e.message@ == line_error(lines@[k]@).message_spec()
        },
{
    let mut numbers: Vec<i32> = Vec::new();
    let mut i: usize = 0;
    while i < lines.len()
        invariant
            i <= lines@.len(),
            numbers@.len() == i,
            forall|j: int| 0 <= j < i ==> line_ok(#[trigger] lines@[j]@),
            forall|j: int| 0 <= j < i ==> #[trigger] numbers@[j] == number_val(lines@[j]@),
        decreases lines@.len() - i,
    {
        let line = &lines[i];
        match parse_i32(line.as_str()) {
            Ok(number) => {
                numbers.push(number);
            },
            Err(e) => {
                return Err(
                    ParseLineError {
                        message: String::from_str(e.message()),
                        line: line.clone(),
                        line_number: i + 1,
                    },
                );
            },
        }
        i = i + 1;
    }
    Ok(numbers)
}

/// The position of the first occurrence of `sep` in `s`, if any.
pub open spec fn first_sep(s: Seq<char>, sep: char) -> Option<int>
    decreases s.len(),
{
    if s.len() == 0 {
        None
    } else if s[0] == sep {
        Some(0)
    } else {
        match first_sep(s.drop_first(), sep) {
            None => None,
            Some(i) => Some(i + 1),
        }
    }
}

/// `first_sep` finds exactly the least index holding `sep`.
proof fn lemma_first_sep_char(s: Seq<char>, sep: char)
    ensures
        first_sep(s, sep) is None <==> (forall|j: int| 0 <= j < s.len() ==> s[j] != sep),
        first_sep(s, sep) matches Some(i) ==> 0 <= i < s.len() && s[i] == sep && (forall|j: int|
            0 <= j < i ==> s[j] != sep),
    decreases s.len(),
{
    if s.len() == 0 {
    } else if s[0] == sep {
    } else {
        let rest = s.drop_first();
        lemma_first_sep_char(rest, sep);
        assert(forall|j: int| 0 <= j < rest.len() ==> rest[j] == s[j + 1]);
        if first_sep(rest, sep) is None {
            assert forall|j: int| 0 <= j < s.len() implies s[j] != sep by {
                if j > 0 {
                    assert(rest[j - 1] == s[j]);
                }
            }
        } else {
            let i = first_sep(rest, sep)->Some_0;
            assert(s[i + 1] == rest[i]);
            assert forall|j: int| 0 <= j < i + 1 implies s[j] != sep by {
                if j > 0 {
                    assert(rest[j - 1] == s[j]);
                }
            }
        }
    }
}

/// Whether both halves of `s`, split at the first `sep`, denote `i32`
/// values.
pub open spec fn pair_parses(s: Seq<char>, sep: char) -> bool {
    match first_sep(s, sep) {
        None => false,
        Some(k) => {
            let left = s.take(k);
            let right = s.skip(k + 1);
            &&& well_formed_number(left)
            &&& i32::MIN <= number_val(left) <= i32::MAX
            &&& well_formed_number(right)
            &&& i32::MIN <= number_val(right) <= i32::MAX
        },
    }
}

/// Split `s` at the first occurrence of `sep` and parse each half as an
/// `i32`.  There is a pair exactly when a separator is present and both
/// halves are in-range decimal numbers.
pub fn parse_pair(s: &str, separator: char) -> (r: Option<(i32, i32)>)
    ensures
        r is Some <==> pair_parses(s@, separator),
        r matches Some(p) ==> {
            let k = first_sep(s@, separator)->Some_0;
            p.0 == number_val(s@.take(k)) && p.1 == number_val(s@.skip(k + 1))
        },
{
    proof {
        lemma_first_sep_char(s@, separator);
    }
    let len = s.unicode_len();
    let mut k: usize = 0;
    let mut found = false;
    while k < len && !found
        invariant
            len == s@.len(),
            k <= len,
            !found ==> forall|j: int| 0 <= j < k ==> s@[j] != separator,
            found ==> k < len && s@[k as int] == separator && (forall|j: int|
                0 <= j < k ==> s@[j] != separator),
        decreases len - k + if found {
            0int
        } else {
            1int
        },
    {
        if s.get_char(k) == separator {
            found = true;
        } else {
            k = k + 1;
        }
    }
    if !found {
        proof {
            if first_sep(s@, separator) is Some {
                let i = first_sep(s@, separator)->Some_0;
                assert(s@[i] != separator);
            }
        }
        return None;
    }
    proof {
        if first_sep(s@, separator) is None {
            assert(s@[k as int] != separator);
        }
        let i = first_sep(s@, separator)->Some_0;
        if i < k as int {
            assert(s@[i] != separator);
        }
        if i > k as int {
            assert(s@[k as int] != separator);
        }
        assert(first_sep(s@, separator) == Some(k as int));
    }
    let left = s.substring_char(0, k);
    let right = s.substring_char(k + 1, len);
    proof {
        assert(left@ =~= s@.take(k as int));
        assert(right@ =~= s@.skip(k as int + 1));
    }
    let l = parse_i32(left);
    let r = parse_i32(right);
    match (l, r) {
        (Ok(a), Ok(b)) => Some((a, b)),
        _ => None,
    }
}

} // verus!
