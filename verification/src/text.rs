//! Reading a line of text: fields between commas, white space around them,
//! unsigned numbers.

use vstd::prelude::*;

verus! {

/// Whether `c` is white space: a character with the Unicode property
/// `White_Space`.
pub open spec fn is_space(c: char) -> bool {
    let code = c as u32;
    ||| 0x09 <= code <= 0x0D
    ||| code == 0x20
    ||| code == 0x85
    ||| code == 0xA0
    ||| code == 0x1680
    ||| 0x2000 <= code <= 0x200A
    ||| code == 0x2028
    ||| code == 0x2029
    ||| code == 0x202F
    ||| code == 0x205F
    ||| code == 0x3000
}

/// The end of the field that starts at `start`: the index of the next comma,
/// or the length of the text where none follows.
pub open spec fn field_end(text: Seq<char>, start: int) -> int
    decreases text.len() - start,
{
    if start < 0 || start >= text.len() || text[start] == ',' {
        start
    } else {
        field_end(text, start + 1)
    }
}

/// The index of the first character in `lo..hi` that is no white space, or
/// `hi`.
pub open spec fn trim_start(text: Seq<char>, lo: int, hi: int) -> int
    decreases hi - lo,
{
    if lo >= hi || !is_space(text[lo]) {
        lo
    } else {
        trim_start(text, lo + 1, hi)
    }
}

/// The index behind the last character in `lo..hi` that is no white space,
/// or `lo`.
pub open spec fn trim_end(text: Seq<char>, lo: int, hi: int) -> int
    decreases hi - lo,
{
    if lo >= hi || !is_space(text[hi - 1]) {
        hi
    } else {
        trim_end(text, lo, hi - 1)
    }
}

/// The field that starts at `start`, without the white space around it.
pub open spec fn field(text: Seq<char>, start: int) -> Seq<char> {
    let end = field_end(text, start);
    let lo = trim_start(text, start, end);
    text.subrange(lo, trim_end(text, lo, end))
}

/// Whether `c` is one of the digits `0` to `9`.
pub open spec fn is_digit(c: char) -> bool {
    '0' <= c <= '9'
}

/// Whether `text` is made of digits.
pub open spec fn all_digits(text: Seq<char>) -> bool {
    forall|i: int| 0 <= i < text.len() ==> is_digit(#[trigger] text[i])
}

/// The number that a sequence of digits stands for.
pub open spec fn digits_value(text: Seq<char>) -> int
    decreases text.len(),
{
    if text.len() == 0 {
        0
    } else {
        10 * digits_value(text.drop_last()) + (text.last() as u32 - '0' as u32)
    }
}

/// The text without the `+` that may stand in front.
pub open spec fn unsigned_digits(text: Seq<char>) -> Seq<char> {
    if text.len() > 0 && text[0] == '+' {
        text.skip(1)
    } else {
        text
    }
}

/// The unsigned number that `text` stands for: digits, at least one, behind
/// an optional `+`, with a value of at most `max`.
pub open spec fn unsigned_of(text: Seq<char>, max: int) -> Option<int> {
    let digits = unsigned_digits(text);
    if digits.len() > 0 && all_digits(digits) && digits_value(digits) <= max {
        Some(digits_value(digits))
    } else {
        None
    }
}

/// The characters of a string.
pub fn chars_of(text: &str) -> (chars: Vec<char>)
    ensures
        chars@ == text@,
{
    let mut chars: Vec<char> = Vec::new();
    for c in iter: text.chars()
        invariant
            iter.seq() == text@,
            chars@ == text@.take(iter.index()),
    {
        chars.push(c);
    }
    chars
}

/// Whether `c` is white space.
pub fn is_whitespace(c: char) -> (r: bool)
    ensures
        r == is_space(c),
{
    let code: u32 = c as u32;
    (0x09 <= code && code <= 0x0D) || code == 0x20 || code == 0x85 || code == 0xA0 || code
        == 0x1680 || (0x2000 <= code && code <= 0x200A) || code == 0x2028 || code == 0x2029
        || code == 0x202F || code == 0x205F || code == 0x3000
}

/// The end of the field that starts at `start`.
pub fn find_field_end(text: &Vec<char>, start: usize) -> (end: usize)
    requires
        start <= text@.len(),
    ensures
        end == field_end(text@, start as int),
        start <= end <= text@.len(),
{
    let mut end: usize = start;
    while end < text.len() && text[end] != ','
        invariant
            start <= end <= text@.len(),
            field_end(text@, start as int) == field_end(text@, end as int),
        decreases text@.len() - end,
    {
        end += 1;
    }
    end
}

/// The bounds of what is left of `lo..hi` without the white space at its
/// ends.
pub fn trim(text: &Vec<char>, lo: usize, hi: usize) -> (r: (usize, usize))
    requires
        lo <= hi <= text@.len(),
    ensures
        r.0 == trim_start(text@, lo as int, hi as int),
        r.1 == trim_end(text@, r.0 as int, hi as int),
        lo <= r.0 <= r.1 <= hi,
{
    let mut from: usize = lo;
    while from < hi && is_whitespace(text[from])
        invariant
            lo <= from <= hi <= text@.len(),
            trim_start(text@, lo as int, hi as int) == trim_start(text@, from as int, hi as int),
        decreases hi - from,
    {
        from += 1;
    }
    let mut to: usize = hi;
    while from < to && is_whitespace(text[to - 1])
        invariant
            from <= to <= hi <= text@.len(),
            trim_end(text@, from as int, hi as int) == trim_end(text@, from as int, to as int),
        decreases to - from,
    {
        to -= 1;
    }
    (from, to)
}

/// Whether the characters in `lo..hi` spell `word`.
pub fn spells(text: &Vec<char>, lo: usize, hi: usize, word: &str) -> (r: bool)
    requires
        lo <= hi <= text@.len(),
    ensures
        r == (text@.subrange(lo as int, hi as int) == word@),
{
    let len = word.unicode_len();
    if hi - lo != len {
        return false;
    }
    let ghost part = text@.subrange(lo as int, hi as int);
    let mut i: usize = 0;
    while i < len
        invariant
            lo <= hi <= text@.len(),
            hi - lo == len,
            len == word@.len(),
            0 <= i <= len,
            part == text@.subrange(lo as int, hi as int),
            forall|j: int| 0 <= j < i ==> part[j] == word@[j],
        decreases len - i,
    {
        if text[lo + i] != word.get_char(i) {
            return false;
        }
        i += 1;
    }
    assert(part =~= word@);
    true
}

/// A prefix of a sequence of digits stands for no more than the whole.
proof fn lemma_digits_value_grows(text: Seq<char>, len: int)
    requires
        all_digits(text),
        0 <= len <= text.len(),
    ensures
        0 <= digits_value(text.take(len)) <= digits_value(text),
    decreases text.len() - len,
{
    if len == text.len() {
        assert(text.take(len) =~= text);
        lemma_digits_value_nonnegative(text);
    } else {
        lemma_digits_value_grows(text, len + 1);
        assert(text.take(len + 1).drop_last() =~= text.take(len));
        lemma_digits_value_nonnegative(text.take(len));
    }
}

/// A sequence of digits stands for no negative number.
proof fn lemma_digits_value_nonnegative(text: Seq<char>)
    requires
        all_digits(text),
    ensures
        0 <= digits_value(text),
    decreases text.len(),
{
    if text.len() > 0 {
        lemma_digits_value_nonnegative(text.drop_last());
    }
}

/// The unsigned number that the characters in `lo..hi` stand for, if it is
/// at most `max`.
pub fn parse_unsigned(text: &Vec<char>, lo: usize, hi: usize, max: u32) -> (r: Option<u32>)
    requires
        lo <= hi <= text@.len(),
    ensures
        r matches Some(n) ==> n <= max,
        match r {
            Some(n) => Some(n as int),
            None => None,
        } == unsigned_of(text@.subrange(lo as int, hi as int), max as int),
{
    let from: usize = if lo < hi && text[lo] == '+' {
        lo + 1
    } else {
        lo
    };
    let ghost digits = text@.subrange(from as int, hi as int);
    if from == hi {
        return None;
    }
    let mut value: u64 = 0;
    let mut i: usize = from;
    while i < hi
        invariant
            from <= i <= hi <= text@.len(),
            digits == text@.subrange(from as int, hi as int),
            digits == unsigned_digits(text@.subrange(lo as int, hi as int)),
            all_digits(digits.take(i - from)),
            value == digits_value(digits.take(i - from)),
            value <= max,
        decreases hi - i,
    {
        let c = text[i];
        if c < '0' || c > '9' {
            assert(!is_digit(digits[i - from]));
            return None;
        }
        let digit: u64 = (c as u32 - '0' as u32) as u64;
        let next: u64 = value * 10 + digit;
        proof {
            let seen = digits.take(i - from + 1);
            assert(seen.drop_last() =~= digits.take(i - from));
            assert(all_digits(seen)) by {
                assert forall|j: int| 0 <= j < seen.len() implies is_digit(#[trigger] seen[j]) by {
                    assert(j < i - from ==> seen[j] == digits.take(i - from)[j]);
                }
            }
            if next > max && all_digits(digits) {
                lemma_digits_value_grows(digits, i - from + 1);
            }
        }
        if next > max as u64 {
            return None;
        }
        value = next;
        i += 1;
    }
    assert(digits.take(hi - from) =~= digits);
    Some(value as u32)
}

} // verus!
