//! The values of literals, from the text they are written as.

use crate::text::chars_of;
use vstd::prelude::*;
use vstd::utf8::encode_utf8;

verus! {

/// `std::char::from_u32`: the character with that Unicode scalar value, for
/// every value up to `0x10ffff` outside `0xd800`-`0xdfff`; nothing for others.
#[verifier::external_body]
pub(crate) fn char_of(cp: u32) -> (r: Option<char>)
    ensures
        r == if is_scalar_value(cp) {
            Some(cp as char)
        } else {
            None
        },
{
    char::from_u32(cp)
}

/// Whether the number is that of a character.
pub open spec fn is_scalar_value(cp: u32) -> bool {
    cp < 0xd800 || 0xe000 <= cp <= 0x10ffff
}

/// The text between the quotes; the whole text when it is not in quotes.
pub open spec fn unquoted(s: Seq<char>, quote: char) -> Seq<char> {
    if s.len() >= 2 && s[0] == quote && s.last() == quote {
        s.subrange(1, s.len() - 1)
    } else {
        s
    }
}

/// What a digit counts, in a base up to sixteen.
pub open spec fn digit_value(c: char, radix: nat) -> Option<nat> {
    let n = c as u32;
    let d: nat = if 48 <= n <= 57 {
        (n - 48) as nat
    } else if 97 <= n <= 102 {
        (n - 87) as nat
    } else if 65 <= n <= 70 {
        (n - 55) as nat
    } else {
        16
    };
    if d < radix {
        Some(d)
    } else {
        None
    }
}

/// The number that the digits write; `None` when one is no digit.
pub open spec fn digits_value(s: Seq<char>, radix: nat) -> Option<nat>
    decreases s.len(),
{
    if s.len() == 0 {
        Some(0)
    } else {
        match (digits_value(s.drop_last(), radix), digit_value(s.last(), radix)) {
            (Some(n), Some(d)) => Some(n * radix + d),
            _ => None,
        }
    }
}

/// The number that at least one digit writes.
pub open spec fn number_value(s: Seq<char>, radix: nat) -> Option<nat> {
    if s.len() == 0 {
        None
    } else {
        digits_value(s, radix)
    }
}

/// The code point that hexadecimal digits write, after at most one `+`.
pub open spec fn code_point(hex: Seq<char>) -> Option<u32> {
    let digits = if hex.len() > 0 && hex[0] == '+' {
        hex.drop_first()
    } else {
        hex
    };
    match number_value(digits, 16) {
        Some(n) => if n <= u32::MAX {
            Some(n as u32)
        } else {
            None
        },
        None => None,
    }
}

/// The place of the first closing brace; the length when there is none.
pub open spec fn brace_index(s: Seq<char>) -> nat
    decreases s.len(),
{
    if s.len() == 0 {
        0
    } else if s[0] == '}' {
        0
    } else {
        1 + brace_index(s.drop_first())
    }
}

/// The place after the first closing brace; the length when there is none.
pub open spec fn past_brace(s: Seq<char>) -> int {
    if brace_index(s) < s.len() {
        brace_index(s) as int + 1
    } else {
        brace_index(s) as int
    }
}

/// The character of a one-letter escape.
pub open spec fn simple_escape(c: char) -> Option<char> {
    if c == 'n' {
        Some('\n')
    } else if c == 'r' {
        Some('\r')
    } else if c == 't' {
        Some('\t')
    } else if c == '"' {
        Some('"')
    } else if c == '\\' {
        Some('\\')
    } else {
        None
    }
}

/// The characters that a code point in braces stands for: itself, or nothing
/// when it is no character.
pub open spec fn braced_char(hex: Seq<char>) -> Seq<char> {
    match code_point(hex) {
        Some(cp) => if is_scalar_value(cp) {
            seq![cp as char]
        } else {
            Seq::empty()
        },
        None => Seq::empty(),
    }
}

/// The characters that the inside of a string literal stands for; `None` at an
/// escape that does not exist. A backslash at the end, and `\u` without a
/// brace, end the text.
pub open spec fn unescaped(s: Seq<char>) -> Option<Seq<char>>
    decreases s.len(),
{
    if s.len() == 0 {
        Some(Seq::empty())
    } else if s[0] != '\\' {
        prefixed(seq![s[0]], unescaped(s.drop_first()))
    } else if s.len() == 1 {
        Some(Seq::empty())
    } else if s[1] == 'u' {
        if s.len() == 2 || s[2] != '{' {
            Some(Seq::empty())
        } else {
            let rest = s.skip(3);
            let k = brace_index(rest);
            proof {
                lemma_brace_index(rest);
            }
            prefixed(
                braced_char(rest.take(k as int)),
                unescaped(rest.skip(past_brace(rest))),
            )
        }
    } else {
        match simple_escape(s[1]) {
            Some(c) => prefixed(seq![c], unescaped(s.skip(2))),
            None => None,
        }
    }
}

/// `head` before a text, if there is one.
pub open spec fn prefixed(head: Seq<char>, tail: Option<Seq<char>>) -> Option<Seq<char>> {
    match tail {
        Some(t) => Some(head + t),
        None => None,
    }
}

pub proof fn lemma_brace_index(s: Seq<char>)
    ensures
        brace_index(s) <= s.len(),
    decreases s.len(),
{
    if s.len() > 0 {
        lemma_brace_index(s.drop_first());
    }
}

/// The text that a string literal stands for.
pub open spec fn string_value(text: Seq<char>) -> Option<Seq<char>> {
    unescaped(unquoted(text, '"'))
}

/// The text without underscores.
pub open spec fn without_underscores(s: Seq<char>) -> Seq<char> {
    s.filter(|c: char| c != '_')
}

/// The base that the literal's first two characters name.
pub open spec fn radix_of(s: Seq<char>) -> Option<nat> {
    if s.len() < 2 || s[0] != '0' {
        None
    } else if s[1] == 'x' || s[1] == 'X' {
        Some(16)
    } else if s[1] == 'b' || s[1] == 'B' {
        Some(2)
    } else if s[1] == 'o' || s[1] == 'O' {
        Some(8)
    } else if s[1] == 'd' || s[1] == 'D' {
        Some(10)
    } else {
        None
    }
}

/// A signed number that fits 64 bits.
pub open spec fn signed_value(s: Seq<char>, radix: nat) -> Option<int> {
    if s.len() > 0 && s[0] == '-' {
        match number_value(s.drop_first(), radix) {
            Some(n) => if n <= 0x8000_0000_0000_0000 {
                Some(-(n as int))
            } else {
                None
            },
            None => None,
        }
    } else {
        let digits = if s.len() > 0 && s[0] == '+' {
            s.drop_first()
        } else {
            s
        };
        match number_value(digits, radix) {
            Some(n) => if n <= i64::MAX {
                Some(n as int)
            } else {
                None
            },
            None => None,
        }
    }
}

/// The number that an integer literal stands for: decimal, or in the base that
/// `0x`, `0b`, `0o` or `0d` names, with underscores anywhere.
pub open spec fn integer_value(text: Seq<char>) -> Option<int> {
    let s = without_underscores(text);
    match radix_of(s) {
        Some(radix) => signed_value(s.skip(2), radix),
        None => signed_value(s, 10),
    }
}

/// The code point that a character literal stands for.
pub open spec fn char_value(text: Seq<char>) -> Option<u32> {
    let s = unquoted(text, '\'');
    if s.len() == 0 {
        None
    } else if s[0] != '\\' {
        Some(s[0] as u32)
    } else if s.len() == 1 {
        None
    } else if s[1] == '\'' {
        Some(39)
    } else if s[1] == 'u' {
        if s.len() == 2 || s[2] != '{' {
            None
        } else {
            code_point(s.skip(3).take(brace_index(s.skip(3)) as int))
        }
    } else {
        match simple_escape(s[1]) {
            Some(c) => Some(c as u32),
            None => None,
        }
    }
}

fn digit_of(c: char, radix: u64) -> (r: Option<u64>)
    requires
        radix <= 16,
    ensures
        digit_value(c, radix as nat) == match r {
            Some(d) => Some(d as nat),
            None => None::<nat>,
        },
        r matches Some(d) ==> d < radix,
{
    let n: u32 = c as u32;
    let d: u32 = if 48 <= n && n <= 57 {
        n - 48
    } else if 97 <= n && n <= 102 {
        n - 87
    } else if 65 <= n && n <= 70 {
        n - 55
    } else {
        16
    };
    if (d as u64) < radix {
        Some(d as u64)
    } else {
        None
    }
}

proof fn lemma_digits_grow(s: Seq<char>, radix: nat, n: int)
    requires
        0 <= n <= s.len(),
        radix >= 1,
    ensures
        digits_value(s, radix) is Some ==> digits_value(s.take(n), radix) is Some && digits_value(
            s.take(n),
            radix,
        )->0 <= digits_value(s, radix)->0,
    decreases s.len(),
{
    if n == s.len() {
        assert(s.take(n) =~= s);
    } else {
        lemma_digits_grow(s.drop_last(), radix, n);
        assert(s.drop_last().take(n) =~= s.take(n));
        if digits_value(s, radix) is Some {
            let m = digits_value(s.drop_last(), radix)->0;
            assert(m <= m * radix) by (nonlinear_arith)
                requires
                    radix >= 1,
            ;
        }
    }
}

/// The number that the characters from `from` on write, up to `limit`.
fn parse_number(chars: &Vec<char>, from: usize, to: usize, radix: u64, limit: u64) -> (r: Option<
    u64,
>)
    requires
        2 <= radix <= 16,
        from <= to <= chars.len(),
        limit <= 0x8000_0000_0000_0000,
    ensures
        r == match number_value(chars@.subrange(from as int, to as int), radix as nat) {
            Some(n) => if n <= limit {
                Some(n as u64)
            } else {
                None
            },
            None => None,
        },
{
    let ghost s = chars@.subrange(from as int, to as int);
    if from == to {
        return None;
    }
    let mut total: u64 = 0;
    let mut i: usize = from;
    assert(s.take(0) =~= Seq::<char>::empty());
    while i < to
        invariant
            from <= i <= to <= chars.len(),
            2 <= radix <= 16,
            limit <= 0x8000_0000_0000_0000,
            total <= limit,
            s == chars@.subrange(from as int, to as int),
            digits_value(s.take(i - from), radix as nat) == Some(total as nat),
        decreases to - i,
    {
        proof {
            let t = s.take(i - from + 1);
            assert(t.drop_last() =~= s.take(i - from));
            assert(t.last() == chars@[i as int]);
            lemma_digits_grow(s, radix as nat, i - from + 1);
        }
        match digit_of(chars[i], radix) {
            None => {
                return None;
            },
            Some(d) => {
                assert(total * radix <= 0x8000_0000_0000_0000 * 16) by (nonlinear_arith)
                    requires
                        total <= 0x8000_0000_0000_0000,
                        radix <= 16,
                ;
                let wide: u128 = total as u128 * radix as u128 + d as u128;
                if wide > limit as u128 {
                    return None;
                }
                total = wide as u64;
            },
        }
        i += 1;
    }
    assert(s.take(i - from) =~= s);
    Some(total)
}

fn parse_code_point(chars: &Vec<char>, from: usize, to: usize) -> (r: Option<u32>)
    requires
        from <= to <= chars.len(),
    ensures
        r == code_point(chars@.subrange(from as int, to as int)),
{
    let ghost hex = chars@.subrange(from as int, to as int);
    let start: usize = if from < to && chars[from] == '+' {
        from + 1
    } else {
        from
    };
    assert(chars@.subrange(start as int, to as int) =~= if hex.len() > 0 && hex[0] == '+' {
        hex.drop_first()
    } else {
        hex
    });
    match parse_number(chars, start, to, 16, 0xffff_ffff) {
        Some(n) => Some(n as u32),
        None => None,
    }
}

/// The place of the first closing brace from `from` on, up to `to`.
fn find_brace(chars: &Vec<char>, from: usize, to: usize) -> (r: usize)
    requires
        from <= to <= chars.len(),
    ensures
        from <= r <= to,
        r - from == brace_index(chars@.subrange(from as int, to as int)),
{
    let ghost s = chars@.subrange(from as int, to as int);
    let mut i: usize = from;
    assert(s.skip(0) =~= s);
    while i < to
        invariant
            from <= i <= to <= chars.len(),
            s == chars@.subrange(from as int, to as int),
            brace_index(s) == (i - from) + brace_index(s.skip(i - from)),
        decreases to - i,
    {
        assert(s.skip(i - from)[0] == chars@[i as int]);
        if chars[i] == '}' {
            return i;
        }
        assert(s.skip(i - from).drop_first() =~= s.skip(i - from + 1));
        i += 1;
    }
    i
}

fn escape_of(c: char) -> (r: Option<char>)
    ensures
        r == simple_escape(c),
{
    if c == 'n' {
        Some('\n')
    } else if c == 'r' {
        Some('\r')
    } else if c == 't' {
        Some('\t')
    } else if c == '"' {
        Some('"')
    } else if c == '\\' {
        Some('\\')
    } else {
        None
    }
}

/// Where the inside of a quoted text begins and ends.
fn inner_range(chars: &Vec<char>, quote: char) -> (r: (usize, usize))
    ensures
        r.0 <= r.1 <= chars.len(),
        chars@.subrange(r.0 as int, r.1 as int) == unquoted(chars@, quote),
{
    let n: usize = chars.len();
    if n >= 2 && chars[0] == quote && chars[n - 1] == quote {
        (1, n - 1)
    } else {
        assert(chars@.subrange(0, n as int) =~= chars@);
        (0, n)
    }
}

proof fn lemma_prefixed(a: Seq<char>, b: Seq<char>, t: Option<Seq<char>>)
    ensures
        prefixed(a, prefixed(b, t)) == prefixed(a + b, t),
{
    if t is Some {
        assert(a + (b + t->0) =~= (a + b) + t->0);
    }
}

/// Adds the character of a code point whose digits begin at `from`; gives the
/// place after its closing brace.
fn decode_braced(chars: &Vec<char>, from: usize, to: usize, out: &mut String) -> (r: usize)
    requires
        from <= to <= chars.len(),
    ensures
        from <= r <= to,
        r - from == past_brace(chars@.subrange(from as int, to as int)),
        final(out)@ == old(out)@ + braced_char(
            chars@.subrange(from as int, to as int).take(
                brace_index(chars@.subrange(from as int, to as int)) as int,
            ),
        ),
{
    let ghost rest = chars@.subrange(from as int, to as int);
    let end: usize = find_brace(chars, from, to);
    assert(rest.take(end - from) =~= chars@.subrange(from as int, end as int));
    match parse_code_point(chars, from, end) {
        Some(cp) => {
            if let Some(ch) = char_of(cp) {
                out.push(ch);
            }
        },
        None => {},
    }
    if end < to {
        end + 1
    } else {
        end
    }
}

/// The text that a string literal stands for; `None` when it holds an escape
/// that does not exist.
pub fn decode_string(text: &str) -> (r: Option<String>)
    ensures
        string_value(text@) == match r {
            Some(s) => Some(s@),
            None => None::<Seq<char>>,
        },
{
    let chars = chars_of(text);
    let (from, to) = inner_range(&chars, '"');
    let ghost inner = unquoted(text@, '"');
    let mut out = String::new();
    let mut i: usize = from;
    assert(inner.skip(0) =~= inner);
    proof {
        if unescaped(inner) is Some {
            assert(out@ + unescaped(inner)->0 =~= unescaped(inner)->0);
        }
    }
    while i < to
        invariant
            from <= i <= to <= chars.len(),
            chars@ == text@,
            inner == unquoted(text@, '"'),
            chars@.subrange(from as int, to as int) == inner,
            string_value(text@) == prefixed(out@, unescaped(inner.skip(i - from))),
        decreases to - i,
    {
        let ghost s = inner.skip(i - from);
        let ghost was = out@;
        let c = chars[i];
        assert(s[0] == c);
        if c != '\\' {
            out.push(c);
            proof {
                assert(s.drop_first() =~= inner.skip(i - from + 1));
                lemma_prefixed(was, seq![c], unescaped(s.drop_first()));
                assert(was + seq![c] =~= was.push(c));
            }
            i += 1;
            continue ;
        }
        if i + 1 == to {
            assert(was + Seq::<char>::empty() =~= was);
            return Some(out);
        }
        let esc = chars[i + 1];
        assert(s[1] == esc);
        if esc == 'u' {
            if i + 2 == to || chars[i + 2] != '{' {
                proof {
                    if i + 2 < to {
                        assert(s[2] == chars@[i + 2]);
                    }
                    assert(was + Seq::<char>::empty() =~= was);
                }
                return Some(out);
            }
            let ghost rest = s.skip(3);
            let next: usize = decode_braced(&chars, i + 3, to, &mut out);
            proof {
                assert(s[2] == chars@[i + 2]);
                assert(rest =~= chars@.subrange(i as int + 3, to as int));
                let k = brace_index(rest);
                let after = rest.skip(past_brace(rest));
                assert(after =~= inner.skip(next - from));
                lemma_prefixed(was, braced_char(rest.take(k as int)), unescaped(after));
            }
            i = next;
            continue ;
        }
        match escape_of(esc) {
            Some(ch) => {
                out.push(ch);
                proof {
                    assert(s.skip(2) =~= inner.skip(i - from + 2));
                    lemma_prefixed(was, seq![ch], unescaped(s.skip(2)));
                    assert(was + seq![ch] =~= was.push(ch));
                }
                i += 2;
            },
            None => {
                return None;
            },
        }
    }
    assert(inner.skip(i - from) =~= Seq::<char>::empty());
    assert(out@ + Seq::<char>::empty() =~= out@);
    Some(out)
}

/// The UTF-8 bytes of the text that a string literal stands for.
pub fn decode_string_literal(text: &str) -> (r: Vec<u8>)
    requires
        string_value(text@) is Some,
    ensures
        r@ == encode_utf8(string_value(text@)->0),
{
    match decode_string(text) {
        Some(s) => s.as_str().as_bytes_vec(),
        None => Vec::new(),
    }
}

/// The code point that a character literal stands for; `None` for a text that
/// is no character literal.
pub fn decode_char(text: &str) -> (r: Option<u32>)
    ensures
        r == char_value(text@),
{
    let chars = chars_of(text);
    let (from, to) = inner_range(&chars, '\'');
    let ghost s = unquoted(text@, '\'');
    if from == to {
        return None;
    }
    let c = chars[from];
    assert(s[0] == c);
    if c != '\\' {
        return Some(c as u32);
    }
    if from + 1 == to {
        return None;
    }
    let esc = chars[from + 1];
    assert(s[1] == esc);
    if esc == '\'' {
        return Some(39);
    }
    if esc == 'u' {
        if from + 2 == to || chars[from + 2] != '{' {
            proof {
                if from + 2 < to {
                    assert(s[2] == chars@[from + 2]);
                }
            }
            return None;
        }
        assert(s[2] == chars@[from + 2]);
        let end: usize = find_brace(&chars, from + 3, to);
        proof {
            assert(s.skip(3) =~= chars@.subrange(from as int + 3, to as int));
            assert(s.skip(3).take(end - (from + 3)) =~= chars@.subrange(
                from as int + 3,
                end as int,
            ));
        }
        return parse_code_point(&chars, from + 3, end);
    }
    match escape_of(esc) {
        Some(ch) => Some(ch as u32),
        None => None,
    }
}

/// The code point that a character literal stands for.
pub fn decode_char_literal(text: &str) -> (r: u32)
    requires
        char_value(text@) is Some,
    ensures
        char_value(text@) == Some(r),
{
    match decode_char(text) {
        Some(cp) => cp,
        None => 0,
    }
}

/// The characters other than underscores.
fn drop_underscores(chars: &Vec<char>) -> (r: Vec<char>)
    ensures
        r@ == without_underscores(chars@),
{
    let mut r: Vec<char> = Vec::new();
    let mut i: usize = 0;
    proof {
        reveal_with_fuel(Seq::filter, 1);
        assert(chars@.take(0) =~= Seq::<char>::empty());
    }
    while i < chars.len()
        invariant
            i <= chars.len(),
            r@ == without_underscores(chars@.take(i as int)),
        decreases chars.len() - i,
    {
        proof {
            reveal_with_fuel(Seq::filter, 1);
            assert(chars@.take(i as int + 1).drop_last() =~= chars@.take(i as int));
            assert(chars@.take(i as int + 1).last() == chars@[i as int]);
        }
        if chars[i] != '_' {
            r.push(chars[i]);
        }
        i += 1;
    }
    assert(chars@.take(i as int) =~= chars@);
    r
}

fn parse_signed(chars: &Vec<char>, from: usize, radix: u64) -> (r: Option<i64>)
    requires
        from <= chars.len(),
        2 <= radix <= 16,
    ensures
        signed_value(chars@.skip(from as int), radix as nat) == match r {
            Some(n) => Some(n as int),
            None => None::<int>,
        },
{
    let n: usize = chars.len();
    let ghost s = chars@.skip(from as int);
    if from < n && chars[from] == '-' {
        assert(s.drop_first() =~= chars@.subrange(from as int + 1, n as int));
        match parse_number(chars, from + 1, n, radix, 0x8000_0000_0000_0000) {
            Some(m) => if m == 0x8000_0000_0000_0000 {
                Some(i64::MIN)
            } else {
                Some(-(m as i64))
            },
            None => None,
        }
    } else {
        let start: usize = if from < n && chars[from] == '+' {
            from + 1
        } else {
            from
        };
        assert(chars@.subrange(start as int, n as int) =~= if s.len() > 0 && s[0] == '+' {
            s.drop_first()
        } else {
            s
        });
        match parse_number(chars, start, n, radix, 0x7fff_ffff_ffff_ffff) {
            Some(m) => Some(m as i64),
            None => None,
        }
    }
}

/// The number that an integer literal stands for; `None` for a text that is no
/// integer literal, or one that does not fit 64 bits.
pub fn parse_integer(text: &str) -> (r: Option<i64>)
    ensures
        integer_value(text@) == match r {
            Some(n) => Some(n as int),
            None => None::<int>,
        },
{
    let chars = drop_underscores(&chars_of(text));
    let ghost s = without_underscores(text@);
    if chars.len() >= 2 && chars[0] == '0' {
        let c = chars[1];
        if c == 'x' || c == 'X' {
            return parse_signed(&chars, 2, 16);
        }
        if c == 'b' || c == 'B' {
            return parse_signed(&chars, 2, 2);
        }
        if c == 'o' || c == 'O' {
            return parse_signed(&chars, 2, 8);
        }
        if c == 'd' || c == 'D' {
            return parse_signed(&chars, 2, 10);
        }
    }
    assert(chars@.skip(0) =~= s);
    parse_signed(&chars, 0, 10)
}

/// The number that an integer literal stands for.
pub fn parse_integer_literal(text: &str) -> (r: i64)
    requires
        integer_value(text@) is Some,
    ensures
        integer_value(text@) == Some(r as int),
{
    match parse_integer(text) {
        Some(n) => n,
        None => 0,
    }
}

/// A text without backslashes, in quotes, stands for itself.
pub proof fn law_plain_string_reads_back(s: Seq<char>)
    requires
        forall|i: int| 0 <= i < s.len() ==> s[i] != '\\',
    ensures
        string_value(seq!['"'] + s + seq!['"']) == Some(s),
{
    let t = seq!['"'] + s + seq!['"'];
    assert(t.subrange(1, t.len() - 1) =~= s);
    lemma_plain(s);
}

proof fn lemma_plain(s: Seq<char>)
    requires
        forall|i: int| 0 <= i < s.len() ==> s[i] != '\\',
    ensures
        unescaped(s) == Some(s),
    decreases s.len(),
{
    if s.len() > 0 {
        lemma_plain(s.drop_first());
        assert(seq![s[0]] + s.drop_first() =~= s);
    } else {
        assert(s =~= Seq::empty());
    }
}

/// Decimal notation reads back as the number it writes.
pub proof fn law_decimal_reads_back(n: nat)
    requires
        n <= i64::MAX,
    ensures
        integer_value(crate::text::decimal(n)) == Some(n as int),
{
    let s = crate::text::decimal(n);
    lemma_numeral_digits(n);
    lemma_no_underscores(s);
    if s.len() >= 2 {
        assert(crate::literals::digit_value(s[1], 10) is Some);
    }
}

proof fn lemma_no_underscores(s: Seq<char>)
    requires
        forall|i: int| 0 <= i < s.len() ==> s[i] != '_',
    ensures
        without_underscores(s) == s,
    decreases s.len(),
{
    reveal_with_fuel(Seq::filter, 1);
    if s.len() > 0 {
        lemma_no_underscores(s.drop_last());
        assert(s.drop_last().push(s.last()) =~= s);
    } else {
        assert(s =~= Seq::empty());
    }
}

proof fn lemma_numeral_digits(n: nat)
    ensures
        crate::text::decimal(n).len() > 0,
        digits_value(crate::text::decimal(n), 10) == Some(n),
        forall|i: int|
            0 <= i < crate::text::decimal(n).len() ==> 48 <= (#[trigger] crate::text::decimal(
                n,
            )[i]) as u32 <= 57,
    decreases n,
{
    let s = crate::text::decimal(n);
    if n < 10 {
        assert(s =~= seq![crate::text::digit(n)]);
        assert(s.drop_last() =~= Seq::<char>::empty());
        assert(digits_value(s.drop_last(), 10) == Some(0nat));
    } else {
        lemma_numeral_digits(n / 10);
        assert(s.drop_last() =~= crate::text::decimal(n / 10));
        assert(n == (n / 10) * 10 + n % 10);
    }
}

} // verus!
