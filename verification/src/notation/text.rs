use vstd::prelude::*;
use vstd::string::StrSliceExecFns;

verus! {

/// The characters of a string.
pub fn chars_of(s: &str) -> (chars: Vec<char>)
    ensures
        chars@ == s@,
{
    let n = s.unicode_len();
    let mut chars: Vec<char> = Vec::new();
    let mut i: usize = 0;
    while i < n
        invariant
            n == s@.len(),
            i <= n,
            chars@ == s@.subrange(0, i as int),
        decreases n - i,
    {
        chars.push(s.get_char(i));
        assert(s@.subrange(0, i as int).push(s@[i as int]) =~= s@.subrange(0, i + 1));
        i += 1;
    }
    assert(s@.subrange(0, n as int) =~= s@);
    chars
}

/// The code point of a character.
pub fn code_of(c: char) -> (code: u32)
    ensures
        code == c as int,
{
    c as u32
}

/// The number of bytes that a character takes in UTF-8.
pub open spec fn utf8_width(c: char) -> int {
    if (c as u32) < 0x80 {
        1
    } else if (c as u32) < 0x800 {
        2
    } else if (c as u32) < 0x10000 {
        3
    } else {
        4
    }
}

/// The number of bytes that the first `n` characters take in UTF-8.
pub open spec fn utf8_len(s: Seq<char>, n: int) -> int
    decreases n,
{
    if n <= 0 {
        0
    } else {
        utf8_len(s, n - 1) + utf8_width(s[n - 1])
    }
}

/// Do these characters take exactly two bytes in UTF-8?
pub fn takes_two_bytes(chars: &Vec<char>) -> (r: bool)
    ensures
        r == (utf8_len(chars@, chars@.len() as int) == 2),
{
    let mut total: u8 = 0;
    let mut i: usize = 0;
    while i < chars.len()
        invariant
            i <= chars.len(),
            total <= 2,
            total == utf8_len(chars@, i as int),
            forall|j: int| 0 <= j <= i ==> utf8_len(chars@, j) <= utf8_len(chars@, i as int),
        decreases chars.len() - i,
    {
        let c = code_of(chars[i]);
        let w: u8 = if c < 0x80 {
            1
        } else if c < 0x800 {
            2
        } else if c < 0x10000 {
            3
        } else {
            4
        };
        if total + w > 2 {
            proof {
                lemma_utf8_len_grows(chars@, i + 1, chars@.len() as int);
            }
            return false;
        }
        total = total + w;
        i += 1;
    }
    total == 2
}

/// More characters never take fewer bytes.
proof fn lemma_utf8_len_grows(s: Seq<char>, n: int, m: int)
    requires
        0 <= n <= m,
    ensures
        utf8_len(s, n) <= utf8_len(s, m),
    decreases m - n,
{
    if n < m {
        lemma_utf8_len_grows(s, n, m - 1);
    }
}

/// White space, as Unicode defines it.
pub open spec fn is_space(c: char) -> bool {
    let u = c as u32;
    (0x09 <= u <= 0x0d) || u == 0x20 || u == 0x85 || u == 0xa0 || u == 0x1680 || (0x2000 <= u
        <= 0x200a) || u == 0x2028 || u == 0x2029 || u == 0x202f || u == 0x205f || u == 0x3000
}

/// Is the character white space?
pub fn is_space_char(c: char) -> (r: bool)
    ensures
        r == is_space(c),
{
    let u = c as u32;
    (0x09 <= u && u <= 0x0d) || u == 0x20 || u == 0x85 || u == 0xa0 || u == 0x1680 || (0x2000 <= u
        && u <= 0x200a) || u == 0x2028 || u == 0x2029 || u == 0x202f || u == 0x205f || u == 0x3000
}

/// The state of a split after the first `n` characters: the parts that are
/// complete, and the part that is being read.
pub open spec fn split_state(s: Seq<char>, sep: char, n: int) -> (Seq<Seq<char>>, Seq<char>)
    decreases n,
{
    if n <= 0 {
        (Seq::empty(), Seq::empty())
    } else {
        let (done, part) = split_state(s, sep, n - 1);
        if s[n - 1] == sep {
            (done.push(part), Seq::empty())
        } else {
            (done, part.push(s[n - 1]))
        }
    }
}

/// The parts of `s` between the occurrences of `sep`: one more than there are
/// occurrences, some of them possibly empty.
pub open spec fn split(s: Seq<char>, sep: char) -> Seq<Seq<char>> {
    let (done, part) = split_state(s, sep, s.len() as int);
    done.push(part)
}

/// The state of a division into words after the first `n` characters.
pub open spec fn words_state(s: Seq<char>, n: int) -> (Seq<Seq<char>>, Seq<char>)
    decreases n,
{
    if n <= 0 {
        (Seq::empty(), Seq::empty())
    } else {
        let (done, word) = words_state(s, n - 1);
        if is_space(s[n - 1]) {
            if word.len() > 0 {
                (done.push(word), Seq::empty())
            } else {
                (done, word)
            }
        } else {
            (done, word.push(s[n - 1]))
        }
    }
}

/// The words of `s`: its longest runs of characters that are not white space.
pub open spec fn words(s: Seq<char>) -> Seq<Seq<char>> {
    let (done, word) = words_state(s, s.len() as int);
    if word.len() > 0 {
        done.push(word)
    } else {
        done
    }
}

/// The sequences that a vector of vectors holds.
pub open spec fn parts_of(v: Seq<Vec<char>>) -> Seq<Seq<char>> {
    v.map_values(|p: Vec<char>| p@)
}

/// The parts of `s` between the occurrences of `sep`.
pub fn split_chars(s: &Vec<char>, sep: char) -> (parts: Vec<Vec<char>>)
    ensures
        parts_of(parts@) == split(s@, sep),
{
    let mut parts: Vec<Vec<char>> = Vec::new();
    let mut part: Vec<char> = Vec::new();
    let mut i: usize = 0;
    assert(parts_of(parts@) =~= split_state(s@, sep, 0).0);
    while i < s.len()
        invariant
            i <= s.len(),
            parts_of(parts@) == split_state(s@, sep, i as int).0,
            part@ == split_state(s@, sep, i as int).1,
        decreases s.len() - i,
    {
        let ghost before = parts@;
        if s[i] == sep {
            parts.push(part);
            assert(parts_of(parts@) =~= parts_of(before).push(part@));
            part = Vec::new();
        } else {
            part.push(s[i]);
        }
        i += 1;
    }
    let ghost before = parts@;
    parts.push(part);
    assert(parts_of(parts@) =~= parts_of(before).push(part@));
    parts
}

/// The words of `s`.
pub fn split_words(s: &Vec<char>) -> (parts: Vec<Vec<char>>)
    ensures
        parts_of(parts@) == words(s@),
{
    let mut parts: Vec<Vec<char>> = Vec::new();
    let mut word: Vec<char> = Vec::new();
    let mut i: usize = 0;
    assert(parts_of(parts@) =~= words_state(s@, 0).0);
    while i < s.len()
        invariant
            i <= s.len(),
            parts_of(parts@) == words_state(s@, i as int).0,
            word@ == words_state(s@, i as int).1,
        decreases s.len() - i,
    {
        let ghost before = parts@;
        if is_space_char(s[i]) {
            if word.len() > 0 {
                parts.push(word);
                assert(parts_of(parts@) =~= parts_of(before).push(word@));
                word = Vec::new();
            }
        } else {
            word.push(s[i]);
        }
        i += 1;
    }
    if word.len() > 0 {
        let ghost before = parts@;
        parts.push(word);
        assert(parts_of(parts@) =~= parts_of(before).push(word@));
    }
    parts
}

/// The value of a decimal digit.
pub open spec fn digit_value(c: char) -> Option<int> {
    if '0' <= c <= '9' {
        Some(c as int - '0' as int)
    } else {
        None
    }
}

/// The number that the first `n` characters spell in decimal digits, if they
/// are all digits.
pub open spec fn digits_value(s: Seq<char>, n: int) -> Option<int>
    decreases n,
{
    if n <= 0 {
        Some(0)
    } else {
        match (digits_value(s, n - 1), digit_value(s[n - 1])) {
            (Some(v), Some(d)) => Some(10 * v + d),
            _ => None,
        }
    }
}

/// The number that a word spells: an optional sign, then at least one decimal
/// digit, the whole within the range of `i32`.
pub open spec fn number(s: Seq<char>) -> Option<i32> {
    let signed = s.len() > 0 && (s[0] == '-' || s[0] == '+');
    let digits = if signed {
        s.subrange(1, s.len() as int)
    } else {
        s
    };
    if digits.len() == 0 {
        None
    } else {
        match digits_value(digits, digits.len() as int) {
            Some(v) => {
                let n = if s[0] == '-' {
                    -v
                } else {
                    v
                };
                if i32::MIN <= n <= i32::MAX {
                    Some(n as i32)
                } else {
                    None
                }
            },
            None => None,
        }
    }
}

/// With more digits the number does not get smaller.
proof fn lemma_digits_grow(s: Seq<char>, n: int, m: int)
    requires
        0 <= n <= m,
        digits_value(s, m) is Some,
    ensures
        digits_value(s, n) is Some,
        0 <= digits_value(s, n)->0 <= digits_value(s, m)->0,
    decreases m - n,
{
    if n < m {
        lemma_digits_grow(s, n, m - 1);
    } else {
        lemma_digits_nonneg(s, n);
    }
}

proof fn lemma_digits_nonneg(s: Seq<char>, n: int)
    requires
        digits_value(s, n) is Some,
    ensures
        digits_value(s, n)->0 >= 0,
    decreases n,
{
    if n > 0 {
        lemma_digits_nonneg(s, n - 1);
    }
}

proof fn lemma_digits_fail(s: Seq<char>, n: int, m: int)
    requires
        0 <= n <= m,
        digits_value(s, n) is None,
    ensures
        digits_value(s, m) is None,
    decreases m - n,
{
    if n < m {
        lemma_digits_fail(s, n, m - 1);
    }
}

/// Reads a number as `number` defines it.
pub fn parse_number(s: &Vec<char>) -> (r: Option<i32>)
    ensures
        r == number(s@),
{
    let len = s.len();
    if len == 0 {
        return None;
    }
    let negative = s[0] == '-';
    let start: usize = if s[0] == '-' || s[0] == '+' {
        1
    } else {
        0
    };
    if start == len {
        return None;
    }
    let ghost digits = if start == 1 {
        s@.subrange(1, len as int)
    } else {
        s@
    };
    let mut value: i64 = 0;
    let mut i: usize = start;
    while i < len
        invariant
            start <= i <= len,
            len == s@.len(),
            digits == (if start == 1 {
                s@.subrange(1, len as int)
            } else {
                s@
            }),
            start <= 1,
            (start == 1) == (s@[0] == '-' || s@[0] == '+'),
            digits.len() == len - start,
            digits_value(digits, i - start) == Some(value as int),
            0 <= value <= 0x8000_0000,
        decreases len - i,
    {
        let c = s[i];
        assert(digits[i - start] == c);
        if c < '0' || c > '9' {
            proof {
                assert(digit_value(digits[i - start]) is None);
                assert(digits_value(digits, i - start + 1) is None);
                lemma_digits_fail(digits, i - start + 1, digits.len() as int);
            }
            return None;
        }
        let d: i64 = (code_of(c) - code_of('0')) as i64;
        let next: i64 = 10 * value + d;
        assert(digit_value(digits[i - start]) == Some(d as int));
        assert(digits_value(digits, i - start + 1) == Some(next as int));
        if next > 0x8000_0000 {
            proof {
                if digits_value(digits, digits.len() as int) is Some {
                    lemma_digits_grow(digits, i - start + 1, digits.len() as int);
                }
            }
            return None;
        }
        value = next;
        i += 1;
    }
    let n: i64 = if negative {
        -value
    } else {
        value
    };
    if n < i32::MIN as i64 || n > i32::MAX as i64 {
        None
    } else {
        Some(n as i32)
    }
}

/// Are the characters of `word` those of `text`?
pub fn same_text(word: &Vec<char>, text: &str) -> (r: bool)
    ensures
        r == (word@ == text@),
{
    let n = text.unicode_len();
    if word.len() != n {
        return false;
    }
    let mut i: usize = 0;
    while i < n
        invariant
            n == text@.len(),
            n == word@.len(),
            i <= n,
            forall|j: int| 0 <= j < i ==> word@[j] == text@[j],
        decreases n - i,
    {
        if word[i] != text.get_char(i) {
            return false;
        }
        i += 1;
    }
    assert(word@ =~= text@);
    true
}

} // verus!

