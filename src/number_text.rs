//! Reading a signed 32-bit integer from a line of text.
use vstd::prelude::*;
use vstd::string::*;

verus! {

/// The characters that carry the Unicode `White_Space` property.
pub open spec fn is_space(c: char) -> bool {
    ||| '\u{9}' <= c <= '\u{d}'
    ||| c == ' '
    ||| c == '\u{85}'
    ||| c == '\u{a0}'
    ||| c == '\u{1680}'
    ||| '\u{2000}' <= c <= '\u{200a}'
    ||| c == '\u{2028}'
    ||| c == '\u{2029}'
    ||| c == '\u{202f}'
    ||| c == '\u{205f}'
    ||| c == '\u{3000}'
}

/// `s` without its leading white space.
pub open spec fn trim_front(s: Seq<char>) -> Seq<char>
    decreases s.len(),
{
    if s.len() > 0 && is_space(s[0]) {
        trim_front(s.drop_first())
    } else {
        s
    }
}

/// `s` without its trailing white space.
pub open spec fn trim_back(s: Seq<char>) -> Seq<char>
    decreases s.len(),
{
    if s.len() > 0 && is_space(s.last()) {
        trim_back(s.drop_last())
    } else {
        s
    }
}

/// `s` without white space at either end.
pub open spec fn trimmed(s: Seq<char>) -> Seq<char> {
    trim_back(trim_front(s))
}

pub open spec fn is_digit(c: char) -> bool {
    '0' <= c <= '9'
}

pub open spec fn digit_value(c: char) -> int {
    c as int - '0' as int
}

/// The value of a run of decimal digits, most significant first.
pub open spec fn digits_value(s: Seq<char>) -> int
    decreases s.len(),
{
    if s.len() == 0 {
        0
    } else {
        digits_value(s.drop_last()) * 10 + digit_value(s.last())
    }
}

/// One or more decimal digits and nothing else.
pub open spec fn is_digit_run(s: Seq<char>) -> bool {
    s.len() > 0 && forall|i: int| 0 <= i < s.len() ==> is_digit(#[trigger] s[i])
}

/// The value written by `s` as an integer literal: an optional `-`
/// followed by one or more decimal digits; `None` for any other text.
pub open spec fn literal_value(s: Seq<char>) -> Option<int> {
    if s.len() > 0 && s[0] == '-' {
        let rest = s.drop_first();
        if is_digit_run(rest) {
            Some(-digits_value(rest))
        } else {
            None
        }
    } else if is_digit_run(s) {
        Some(digits_value(s))
    } else {
        None
    }
}

/// True when `v` is a value of `i32`.
pub open spec fn fits_i32(v: int) -> bool {
    i32::MIN <= v <= i32::MAX
}

/// The `i32` written by `s`: `None` unless `s` is an integer literal whose
/// value lies within the range of `i32`.
pub open spec fn literal_i32(s: Seq<char>) -> Option<i32> {
    match literal_value(s) {
        Some(v) => if fits_i32(v) {
            Some(v as i32)
        } else {
            None
        },
        None => None,
    }
}

/// The number a line holds once trimmed of white space at both ends.
pub open spec fn line_value(line: Seq<char>) -> Option<i32> {
    literal_i32(trimmed(line))
}

/// Why a line could not be turned into a number.
#[derive(Clone, Copy, Debug, PartialEq, Eq, Structural)]
pub enum InputError {
    /// The line could not be read at all.
    ReadFailure,
    /// The trimmed line is not an integer literal within range.
    ParseFailure,
}

impl InputError {
    /// A short description for the user.
    pub fn message(&self) -> (r: &'static str)
        ensures
            *self == InputError::ReadFailure ==> r@ == "Failed to read line"@,
            *self == InputError::ParseFailure ==> r@ == "Please enter a valid number"@,
    {
        match self {
            InputError::ReadFailure => "Failed to read line",
            InputError::ParseFailure => "Please enter a valid number",
        }
    }
}

proof fn lemma_digits_value_nonneg(s: Seq<char>)
    requires
        forall|i: int| 0 <= i < s.len() ==> is_digit(#[trigger] s[i]),
    ensures
        digits_value(s) >= 0,
    decreases s.len(),
{
    if s.len() > 0 {
        lemma_digits_value_nonneg(s.drop_last());
        assert(is_digit(s[s.len() - 1]));
    }
}

/// A longer run of digits is worth at least as much as its prefix.
proof fn lemma_digits_value_grows(s: Seq<char>, k: int)
    requires
        0 <= k <= s.len(),
        forall|i: int| 0 <= i < s.len() ==> is_digit(#[trigger] s[i]),
    ensures
        digits_value(s.subrange(0, k)) <= digits_value(s),
    decreases s.len(),
{
    if k < s.len() {
        lemma_digits_value_grows(s.drop_last(), k);
        assert(s.drop_last().subrange(0, k) =~= s.subrange(0, k));
        lemma_digits_value_nonneg(s.drop_last());
        assert(is_digit(s[s.len() - 1]));
    } else {
        assert(s.subrange(0, k) =~= s);
    }
}

proof fn lemma_trim_front_skip(s: Seq<char>, i: int)
    requires
        0 <= i < s.len(),
        is_space(s[i]),
    ensures
        trim_front(s.subrange(i, s.len() as int)) == trim_front(s.subrange(i + 1, s.len() as int)),
{
    assert(s.subrange(i, s.len() as int).drop_first() =~= s.subrange(i + 1, s.len() as int));
}

proof fn lemma_trim_back_skip(s: Seq<char>, j: int)
    requires
        0 < j <= s.len(),
        is_space(s[j - 1]),
    ensures
        trim_back(s.subrange(0, j)) == trim_back(s.subrange(0, j - 1)),
{
    assert(s.subrange(0, j).drop_last() =~= s.subrange(0, j - 1));
}

/// Returns whether `c` is a white-space character.
fn char_is_space(c: char) -> (r: bool)
    ensures
        r == is_space(c),
{
    ('\u{9}' <= c && c <= '\u{d}') || c == ' ' || c == '\u{85}' || c == '\u{a0}' || c
        == '\u{1680}' || ('\u{2000}' <= c && c <= '\u{200a}') || c == '\u{2028}' || c
        == '\u{2029}' || c == '\u{202f}' || c == '\u{205f}' || c == '\u{3000}'
}

/// The bounds `(start, end)` of `line` once trimmed.
fn trim_bounds(line: &str) -> (r: (usize, usize))
    ensures
        r.0 <= r.1 <= line@.len(),
        line@.subrange(r.0 as int, r.1 as int) == trimmed(line@),
{
    let n = line.unicode_len();
    let ghost s = line@;
    let mut start: usize = 0;
    proof {
        assert(s.subrange(0, n as int) =~= s);
    }
    while start < n && char_is_space(line.get_char(start))
        invariant
            n == s.len(),
            s == line@,
            start <= n,
            trim_front(s.subrange(start as int, n as int)) == trim_front(s),
        decreases n - start,
    {
        proof {
            lemma_trim_front_skip(s, start as int);
        }
        start = start + 1;
    }
    let ghost front = s.subrange(start as int, n as int);
    proof {
        assert(s.subrange(0, n as int) =~= s);
        assert(trim_front(front) == front);
    }
    let mut end: usize = n;
    while end > start && char_is_space(line.get_char(end - 1))
        invariant
            n == s.len(),
            s == line@,
            start <= end <= n,
            front == s.subrange(start as int, n as int),
            trim_back(s.subrange(start as int, end as int)) == trim_back(front),
        decreases end - start,
    {
        proof {
            let t = s.subrange(start as int, end as int);
            lemma_trim_back_skip(t, t.len() as int);
            assert(t.subrange(0, t.len() as int) =~= t);
            assert(t.subrange(0, t.len() - 1) =~= s.subrange(start as int, end - 1));
        }
        end = end - 1;
    }
    proof {
        let t = s.subrange(start as int, end as int);
        assert(trim_back(t) == t);
    }
    (start, end)
}

/// Reads the integer literal that occupies `line[from..to]`, counted in
/// characters.
fn parse_literal(line: &str, from: usize, to: usize) -> (r: Option<i32>)
    requires
        from <= to <= line@.len(),
    ensures
        r == literal_i32(line@.subrange(from as int, to as int)),
{
    let ghost s = line@.subrange(from as int, to as int);
    if from == to {
        return None;
    }
    let first = line.get_char(from);
    let negative = first == '-';
    let start: usize = if negative {
        from + 1
    } else {
        from
    };
    let ghost ds = line@.subrange(start as int, to as int);
    proof {
        if negative {
            assert(s.drop_first() =~= ds);
        } else {
            assert(s =~= ds);
        }
    }
    if start == to {
        return None;
    }
    let limit: i64 = if negative {
        2147483648
    } else {
        2147483647
    };
    let mut acc: i64 = 0;
    let mut i: usize = start;
    proof {
        assert(line@.subrange(start as int, start as int) =~= Seq::<char>::empty());
    }
    while i < to
        invariant
            from <= start < to <= line@.len(),
            start <= i <= to,
            ds == line@.subrange(start as int, to as int),
            s == line@.subrange(from as int, to as int),
            negative == (s[0] == '-'),
            negative ==> s.drop_first() == ds,
            !negative ==> s == ds,
            limit == (if negative { 2147483648i64 } else { 2147483647i64 }),
            0 <= acc <= limit,
            acc == digits_value(line@.subrange(start as int, i as int)),
            forall|k: int| start <= k < i ==> is_digit(#[trigger] line@[k]),
        decreases to - i,
    {
        let c = line.get_char(i);
        if !('0' <= c && c <= '9') {
            proof {
                assert(ds[i - start] == c);
                assert(!is_digit_run(ds));
            }
            return None;
        }
        let d = (c as u32 - '0' as u32) as i64;
        let next = acc * 10 + d;
        let ghost prefix = line@.subrange(start as int, i + 1);
        proof {
            assert(prefix.drop_last() =~= line@.subrange(start as int, i as int));
            assert(digits_value(prefix) == next);
        }
        if next > limit {
            proof {
                if is_digit_run(ds) {
                    lemma_digits_value_grows(ds, i + 1 - start);
                    assert(ds.subrange(0, i + 1 - start) =~= prefix);
                }
            }
            return None;
        }
        acc = next;
        i = i + 1;
    }
    proof {
        assert(ds =~= line@.subrange(start as int, i as int));
        assert(is_digit_run(ds));
    }
    if negative {
        Some((0 - acc) as i32)
    } else {
        Some(acc as i32)
    }
}

/// Reads the number on `line`: white space at both ends is dropped, and what
/// remains must be an integer literal within the range of `i32`.
pub fn parse_number(line: &str) -> (r: Result<i32, InputError>)
    ensures
        r matches Ok(v) ==> line_value(line@) == Some(v),
        r matches Err(e) ==> line_value(line@) is None && e == InputError::ParseFailure,
{
    let (from, to) = trim_bounds(line);
    match parse_literal(line, from, to) {
        Some(v) => Ok(v),
        None => Err(InputError::ParseFailure),
    }
}

} // verus!
