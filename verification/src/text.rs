//! Reading text: comparison of string slices and unsigned numerals.

use vstd::prelude::*;

verus! {

/// The value of `c` as a digit in base `radix`, where letters of either
/// case stand for ten and above.
pub open spec fn digit_value(c: char, radix: nat) -> Option<nat> {
    let d: int = if '0' <= c <= '9' {
        c as int - '0' as int
    } else if 'a' <= c <= 'z' {
        c as int - 'a' as int + 10
    } else if 'A' <= c <= 'Z' {
        c as int - 'A' as int + 10
    } else {
        radix as int
    };
    if d < radix {
        Some(d as nat)
    } else {
        None
    }
}

/// The number that the digits `s` write in base `radix`, most significant
/// digit first; `None` when some character is not a digit of that base.
/// The empty sequence writes zero.
pub open spec fn digits_value(s: Seq<char>, radix: nat) -> Option<nat>
    decreases s.len(),
{
    if s.len() == 0 {
        Some(0)
    } else {
        match (digits_value(s.drop_last(), radix), digit_value(s.last(), radix)) {
            (Some(high), Some(low)) => Some(high * radix + low),
            _ => None,
        }
    }
}

/// The digits of a numeral once an optional leading `+` is set aside.
pub open spec fn unsigned_digits(s: Seq<char>) -> Seq<char> {
    if s.len() > 0 && s[0] == '+' {
        s.skip(1)
    } else {
        s
    }
}

/// The machine-sized number that `s` writes in base `radix`: an optional
/// `+`, then at least one digit and nothing else, with a value that fits.
pub open spec fn parse_unsigned(s: Seq<char>, radix: nat) -> Option<usize> {
    let digits = unsigned_digits(s);
    if digits.len() == 0 {
        None
    } else {
        match digits_value(digits, radix) {
            Some(value) => if value <= usize::MAX {
                Some(value as usize)
            } else {
                None
            },
            None => None,
        }
    }
}

/// Whether two string slices hold the same characters.
pub fn same_text(a: &str, b: &str) -> (same: bool)
    ensures
        same == (a@ == b@),
{
    let left = a.to_owned();
    let right = b.to_owned();
    left == right
}

/// The characters of `s`, in order.
pub fn chars_of(s: &str) -> (chars: Vec<char>)
    ensures
        chars@ == s@,
{
    let n = s.unicode_len();
    let mut chars: Vec<char> = Vec::new();
    let mut i: usize = 0;
    while i < n
        invariant
            n == s@.len(),
            i <= n,
            chars@ == s@.take(i as int),
        decreases n - i,
    {
        let c = s.get_char(i);
        chars.push(c);
        assert(chars@ =~= s@.take(i + 1));
        i += 1;
    }
    assert(s@.take(n as int) =~= s@);
    chars
}

/// Reads one digit of a base between two and thirty-six.
pub fn read_digit(c: char, radix: u32) -> (digit: Option<u32>)
    requires
        2 <= radix <= 36,
    ensures
        digit matches Some(d) ==> digit_value(c, radix as nat) == Some(d as nat),
        digit is None ==> digit_value(c, radix as nat) is None,
{
    let code: u32 = c as u32;
    let d: u32 = if '0' <= c && c <= '9' {
        code - ('0' as u32)
    } else if 'a' <= c && c <= 'z' {
        code - ('a' as u32) + 10
    } else if 'A' <= c && c <= 'Z' {
        code - ('A' as u32) + 10
    } else {
        radix
    };
    if d < radix {
        Some(d)
    } else {
        None
    }
}

proof fn lemma_digits_prefix(s: Seq<char>, radix: nat, k: int)
    requires
        0 <= k <= s.len(),
        radix >= 1,
    ensures
        digits_value(s.take(k), radix) is None ==> digits_value(s, radix) is None,
        digits_value(s, radix) matches Some(whole) ==> digits_value(s.take(k), radix) matches Some(
            part,
        ) && part <= whole,
    decreases s.len() - k,
{
    if k < s.len() {
        lemma_digits_prefix(s, radix, k + 1);
        assert(s.take(k + 1).drop_last() =~= s.take(k));
        if let (Some(high), Some(low)) = (
            digits_value(s.take(k), radix),
            digit_value(s.take(k + 1).last(), radix),
        ) {
            assert(high * radix >= high) by (nonlinear_arith)
                requires
                    radix >= 1,
                    high >= 0,
            ;
        }
    } else {
        assert(s.take(k) =~= s);
    }
}

/// Reads an unsigned numeral of base `radix` from `chars`.
pub fn read_unsigned(chars: &Vec<char>, radix: u32) -> (number: Option<usize>)
    requires
        2 <= radix <= 36,
    ensures
        number == parse_unsigned(chars@, radix as nat),
{
    let n = chars.len();
    let start: usize = if n > 0 && chars[0] == '+' {
        1
    } else {
        0
    };
    if start == n {
        return None;
    }
    let ghost digits = unsigned_digits(chars@);
    assert(digits =~= chars@.skip(start as int));
    let base: usize = radix as usize;
    let mut value: usize = 0;
    let mut i: usize = start;
    assert(digits.take(0) =~= Seq::<char>::empty());
    while i < n
        invariant
            2 <= radix <= 36,
            base == radix,
            n == chars@.len(),
            start <= i <= n,
            digits == unsigned_digits(chars@),
            digits == chars@.skip(start as int),
            digits.len() > 0,
            digits_value(digits.take(i - start), radix as nat) == Some(value as nat),
        decreases n - i,
    {
        let ghost k = i - start;
        let c = chars[i];
        proof {
            lemma_digits_prefix(digits, radix as nat, k + 1);
            assert(digits.take(k + 1).drop_last() =~= digits.take(k));
            assert(digits.take(k + 1).last() == c);
            assert(digits_value(digits.take(k + 1), radix as nat) == match (
                digits_value(digits.take(k), radix as nat),
                digit_value(c, radix as nat),
            ) {
                (Some(high), Some(low)) => Some(high * (radix as nat) + low),
                _ => None,
            });
        }
        match read_digit(c, radix) {
            None => {
                return None;
            },
            Some(d) => {
                let low: usize = d as usize;
                if value > (usize::MAX - low) / base {
                    proof {
                        assert(value * base + low > usize::MAX) by (nonlinear_arith)
                            requires
                                value > (usize::MAX - low) / (base as int),
                                base >= 2,
                                low <= usize::MAX,
                        ;
                    }
                    return None;
                }
                assert(value * base + low <= usize::MAX) by (nonlinear_arith)
                    requires
                        value <= (usize::MAX - low) / (base as int),
                        base >= 2,
                        low <= usize::MAX,
                ;
                value = value * base + low;
            },
        }
        i += 1;
    }
    assert(digits.take(n - start) =~= digits);
    Some(value)
}

/// The character that writes the digit `d`.
pub open spec fn digit_char(d: nat) -> char {
    if d == 0 {
        '0'
    } else if d == 1 {
        '1'
    } else if d == 2 {
        '2'
    } else if d == 3 {
        '3'
    } else if d == 4 {
        '4'
    } else if d == 5 {
        '5'
    } else if d == 6 {
        '6'
    } else if d == 7 {
        '7'
    } else if d == 8 {
        '8'
    } else {
        '9'
    }
}

/// The decimal numeral of `n`, without leading zeros.
pub open spec fn decimal(n: nat) -> Seq<char>
    decreases n,
{
    if n < 10 {
        seq![digit_char(n)]
    } else {
        decimal(n / 10).push(digit_char(n % 10))
    }
}

/// The one-character text of a decimal digit.
pub fn digit_text(d: u32) -> (text: &'static str)
    requires
        d < 10,
    ensures
        text@ == seq![digit_char(d as nat)],
{
    proof {
        reveal_strlit("0");
        reveal_strlit("1");
        reveal_strlit("2");
        reveal_strlit("3");
        reveal_strlit("4");
        reveal_strlit("5");
        reveal_strlit("6");
        reveal_strlit("7");
        reveal_strlit("8");
        reveal_strlit("9");
    }
    let text = if d == 0 {
        "0"
    } else if d == 1 {
        "1"
    } else if d == 2 {
        "2"
    } else if d == 3 {
        "3"
    } else if d == 4 {
        "4"
    } else if d == 5 {
        "5"
    } else if d == 6 {
        "6"
    } else if d == 7 {
        "7"
    } else if d == 8 {
        "8"
    } else {
        "9"
    };
    assert(text@ =~= seq![digit_char(d as nat)]);
    text
}

/// Appends the decimal numeral of `n` to `out`.
pub fn push_decimal(out: &mut String, n: u32)
    ensures
        final(out)@ == old(out)@ + decimal(n as nat),
    decreases n,
{
    if n >= 10 {
        push_decimal(out, n / 10);
    }
    out.append(digit_text(n % 10));
    proof {
        if n >= 10 {
            assert(out@ =~= old(out)@ + decimal(n as nat));
        } else {
            assert(out@ =~= old(out)@ + decimal(n as nat));
        }
    }
}

/// Whether `c` is white space.
pub open spec fn is_space(c: char) -> bool {
    ||| c == ' '
    ||| '\t' <= c <= '\r'
    ||| c == '\u{85}'
    ||| c == '\u{a0}'
    ||| c == '\u{1680}'
    ||| '\u{2000}' <= c <= '\u{200a}'
    ||| c == '\u{2028}'
    ||| c == '\u{2029}'
    ||| c == '\u{202f}'
    ||| c == '\u{205f}'
    ||| c == '\u{3000}'
}

/// Tells whether a character is white space.
pub fn is_whitespace(c: char) -> (space: bool)
    ensures
        space == is_space(c),
{
    c == ' ' || ('\t' <= c && c <= '\r') || c == '\u{85}' || c == '\u{a0}' || c == '\u{1680}' || (
    '\u{2000}' <= c && c <= '\u{200a}') || c == '\u{2028}' || c == '\u{2029}' || c == '\u{202f}'
        || c == '\u{205f}' || c == '\u{3000}'
}

/// The number of characters at the front of `s` that are no white space.
pub open spec fn word_len(s: Seq<char>) -> nat
    decreases s.len(),
{
    if s.len() > 0 && !is_space(s[0]) {
        1 + word_len(s.skip(1))
    } else {
        0
    }
}

/// A word is no longer than the text it begins.
pub proof fn lemma_word_len_bound(s: Seq<char>)
    ensures
        word_len(s) <= s.len(),
    decreases s.len(),
{
    if s.len() > 0 && !is_space(s[0]) {
        lemma_word_len_bound(s.skip(1));
    }
}

/// The words of `s`: its longest runs of characters that are no white
/// space, in order.
pub open spec fn words(s: Seq<char>) -> Seq<Seq<char>>
    decreases s.len(),
{
    if s.len() == 0 {
        Seq::empty()
    } else if is_space(s[0]) {
        words(s.skip(1))
    } else {
        proof {
            lemma_word_len_bound(s);
        }
        seq![s.take(word_len(s) as int)] + words(s.skip(word_len(s) as int))
    }
}

/// Finds the end of the word of `chars` that begins at `from`.
fn find_word_end(chars: &Vec<char>, from: usize) -> (end: usize)
    requires
        from <= chars@.len(),
    ensures
        from <= end <= chars@.len(),
        end == from + word_len(chars@.skip(from as int)),
{
    let mut end = from;
    let ghost rest = chars@.skip(from as int);
    proof {
        assert(rest.skip(0) =~= rest);
    }
    while end < chars.len() && !is_whitespace(chars[end])
        invariant
            from <= end <= chars@.len(),
            rest == chars@.skip(from as int),
            word_len(rest) == (end - from) + word_len(rest.skip(end - from)),
        decreases chars@.len() - end,
    {
        proof {
            let here = rest.skip(end - from);
            assert(here[0] == chars@[end as int]);
            assert(here.skip(1) =~= rest.skip(end - from + 1));
        }
        end += 1;
    }
    proof {
        let here = rest.skip(end - from);
        if end < chars@.len() {
            assert(here[0] == chars@[end as int]);
        }
    }
    end
}

/// Splits `text` into its words.
pub fn split_words(text: &str) -> (found: Vec<String>)
    ensures
        found@.len() == words(text@).len(),
        forall|k: int| 0 <= k < found@.len() ==> (#[trigger] found@[k])@ == words(text@)[k],
{
    let chars = chars_of(text);
    let n = chars.len();
    let mut found: Vec<String> = Vec::new();
    let ghost mut seen: Seq<Seq<char>> = Seq::empty();
    let mut i: usize = 0;
    proof {
        assert(chars@.skip(0) =~= chars@);
        assert(seen + words(chars@.skip(0)) =~= words(text@));
    }
    while i < n
        invariant
            chars@ == text@,
            n == chars@.len(),
            i <= n,
            words(text@) == seen + words(chars@.skip(i as int)),
            found@.len() == seen.len(),
            forall|k: int| 0 <= k < found@.len() ==> (#[trigger] found@[k])@ == seen[k],
        decreases n - i,
    {
        let ghost rest = chars@.skip(i as int);
        proof {
            assert(rest[0] == chars@[i as int]);
        }
        if is_whitespace(chars[i]) {
            proof {
                assert(rest.skip(1) =~= chars@.skip(i + 1));
            }
            i += 1;
        } else {
            let end = find_word_end(&chars, i);
            let word = text.substring_char(i, end).to_owned();
            proof {
                let length = word_len(rest) as int;
                assert(rest.take(length) =~= chars@.subrange(i as int, end as int));
                assert(rest.skip(length) =~= chars@.skip(end as int));
                assert(seen.push(rest.take(length)) + words(rest.skip(length)) =~= seen + (
                seq![rest.take(length)] + words(rest.skip(length))));
                seen = seen.push(rest.take(length));
            }
            found.push(word);
            i = end;
        }
    }
    proof {
        assert(chars@.skip(n as int) =~= Seq::<char>::empty());
        assert(seen + Seq::<Seq<char>>::empty() =~= seen);
    }
    found
}

} // verus!
