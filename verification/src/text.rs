//! Text building: numerals, joined lists and escapes, each with the character
//! sequence it produces.

use vstd::prelude::*;

verus! {

/// The characters of a name.
pub type Name = Seq<char>;

/// `String::push`: the text grows by that one character.
pub assume_specification[ String::push ](s: &mut String, c: char)
    ensures
        final(s)@ == old(s)@.push(c),
;

/// The numeral for one digit, `0`-`9` then `a`-`f`.
pub open spec fn digit(d: nat) -> char {
    if d < 10 {
        (48 + d) as char
    } else {
        (87 + d) as char
    }
}

/// `n` written in the given base, most significant digit first and without
/// leading zeros (`0` itself is one digit).
pub open spec fn numeral(n: nat, base: nat) -> Seq<char>
    decreases n,
{
    if base < 2 {
        Seq::empty()
    } else if n < base {
        seq![digit(n)]
    } else {
        proof {
            lemma_quotient_shrinks(n, base);
        }
        numeral(n / base, base).push(digit(n % base))
    }
}

pub proof fn lemma_quotient_shrinks(n: nat, base: nat)
    by (nonlinear_arith)
    requires
        2 <= base <= n,
    ensures
        n / base < n,
{
}

/// `n` in decimal.
pub open spec fn decimal(n: nat) -> Seq<char> {
    numeral(n, 10)
}

/// A signed integer in decimal, with a leading `-` when negative.
pub open spec fn signed_decimal(n: int) -> Seq<char> {
    if n < 0 {
        seq!['-'] + decimal((-n) as nat)
    } else {
        decimal(n as nat)
    }
}

pub(crate) fn digit_char(d: u8) -> (c: char)
    requires
        d < 16,
    ensures
        c == digit(d as nat),
{
    if d < 10 {
        (48 + d) as char
    } else {
        (87 + d) as char
    }
}

fn numeral_text(n: u64, base: u64) -> (s: String)
    requires
        2 <= base <= 16,
    ensures
        s@ == numeral(n as nat, base as nat),
    decreases n,
{
    if n < base {
        let mut s = String::new();
        s.push(digit_char(n as u8));
        assert(s@ =~= seq![digit(n as nat)]);
        s
    } else {
        proof {
            lemma_quotient_shrinks(n as nat, base as nat);
        }
        let mut s = numeral_text(n / base, base);
        s.push(digit_char((n % base) as u8));
        s
    }
}

/// `n` in decimal.
pub fn decimal_text(n: u64) -> (s: String)
    ensures
        s@ == decimal(n as nat),
{
    numeral_text(n, 10)
}

/// `n` in lower-case hexadecimal.
pub fn hex_text(n: u64) -> (s: String)
    ensures
        s@ == numeral(n as nat, 16),
{
    numeral_text(n, 16)
}

/// A signed integer in decimal.
pub fn signed_text(n: i64) -> (s: String)
    ensures
        s@ == signed_decimal(n as int),
{
    if n >= 0 {
        decimal_text(n as u64)
    } else {
        let mut s = String::new();
        s.push('-');
        assert(s@ =~= seq!['-']);
        let magnitude: u64 = if n == i64::MIN { 0x8000_0000_0000_0000u64 } else { (-n) as u64 };
        s.append(decimal_text(magnitude).as_str());
        s
    }
}

/// The names a list of strings holds.
pub open spec fn names_of(v: Seq<String>) -> Seq<Name> {
    Seq::new(v.len(), |i: int| v[i]@)
}

/// The name lists a list of string lists holds.
pub open spec fn name_lists_of(v: Seq<Vec<String>>) -> Seq<Seq<Name>> {
    Seq::new(v.len(), |i: int| names_of(v[i]@))
}

/// The pairs of names a list of string pairs holds.
pub open spec fn name_pairs_of(v: Seq<(String, String)>) -> Seq<(Name, Name)> {
    Seq::new(v.len(), |i: int| (v[i].0@, v[i].1@))
}

/// Whether `a` comes strictly before `b` in code-point order.
pub open spec fn before(a: Seq<char>, b: Seq<char>) -> bool
    decreases a.len(),
{
    if b.len() == 0 {
        false
    } else if a.len() == 0 {
        true
    } else if a[0] != b[0] {
        (a[0] as int) < (b[0] as int)
    } else {
        before(a.drop_first(), b.drop_first())
    }
}

/// The characters of a text.
pub fn chars_of(s: &str) -> (v: Vec<char>)
    ensures
        v@ == s@,
{
    let mut v: Vec<char> = Vec::new();
    for c in it: s.chars()
        invariant
            v@ == s@.take(it.index() as int),
            it.seq() == s@,
    {
        v.push(c);
    }
    v
}

/// Whether `a` comes strictly before `b` in code-point order.
pub fn comes_before(a: &str, b: &str) -> (r: bool)
    ensures
        r == before(a@, b@),
{
    let x = chars_of(a);
    let y = chars_of(b);
    let mut i: usize = 0;
    assert(a@.skip(0) =~= a@);
    assert(b@.skip(0) =~= b@);
    while i < x.len() && i < y.len()
        invariant
            x@ == a@,
            y@ == b@,
            i <= x.len(),
            i <= y.len(),
            before(a@, b@) == before(a@.skip(i as int), b@.skip(i as int)),
        decreases x.len() - i,
    {
        if x[i] != y[i] {
            return x[i] < y[i];
        }
        assert(a@.skip(i as int).drop_first() =~= a@.skip(i as int + 1));
        assert(b@.skip(i as int).drop_first() =~= b@.skip(i as int + 1));
        i += 1;
    }
    x.len() < y.len()
}

/// Whether two texts hold the same characters.
pub fn same_text(a: &str, b: &str) -> (r: bool)
    ensures
        r == (a@ == b@),
{
    a.to_owned() == b.to_owned()
}

/// Whether `name` stands in the list.
pub fn has_name(list: &Vec<String>, name: &str) -> (r: bool)
    ensures
        r == names_of(list@).contains(name@),
{
    let mut i: usize = 0;
    while i < list.len()
        invariant
            i <= list.len(),
            forall|j: int| 0 <= j < i ==> names_of(list@)[j] != name@,
        decreases list.len() - i,
    {
        if same_text(list[i].as_str(), name) {
            assert(names_of(list@)[i as int] == name@);
            return true;
        }
        i += 1;
    }
    false
}

/// A copy of a list of strings.
pub fn copy_names(list: &Vec<String>) -> (r: Vec<String>)
    ensures
        names_of(r@) == names_of(list@),
{
    let r = list.clone();
    assert(names_of(r@) =~= names_of(list@));
    r
}

/// The texts of `list` with `sep` between neighbours.
pub open spec fn joined(list: Seq<Seq<char>>, sep: Seq<char>) -> Seq<char>
    decreases list.len(),
{
    if list.len() == 0 {
        Seq::empty()
    } else if list.len() == 1 {
        list[0]
    } else {
        joined(list.drop_last(), sep) + sep + list.last()
    }
}

/// The texts of `list` with `sep` between neighbours.
pub fn join_texts(list: &Vec<String>, sep: &str) -> (s: String)
    ensures
        s@ == joined(names_of(list@), sep@),
{
    let mut s = String::new();
    let mut i: usize = 0;
    while i < list.len()
        invariant
            i <= list.len(),
            s@ == joined(names_of(list@).take(i as int), sep@),
        decreases list.len() - i,
    {
        proof {
            let t = names_of(list@).take(i as int + 1);
            assert(t.drop_last() =~= names_of(list@).take(i as int));
            assert(t.last() == list@[i as int]@);
        }
        if i > 0 {
            s.append(sep);
        }
        s.append(list[i].as_str());
        i += 1;
        proof {
            if i == 1 {
                assert(s@ =~= list@[0]@);
            }
        }
    }
    assert(names_of(list@).take(i as int) =~= names_of(list@));
    s
}

/// Whether the character is white space (Unicode `White_Space`).
pub open spec fn white(c: char) -> bool {
    ||| 0x09 <= c as u32 <= 0x0d
    ||| c as u32 == 0x20
    ||| c as u32 == 0x85
    ||| c as u32 == 0xa0
    ||| c as u32 == 0x1680
    ||| 0x2000 <= c as u32 <= 0x200a
    ||| c as u32 == 0x2028
    ||| c as u32 == 0x2029
    ||| c as u32 == 0x202f
    ||| c as u32 == 0x205f
    ||| c as u32 == 0x3000
}

/// The text without the white space at its end.
pub open spec fn trimmed_end(s: Seq<char>) -> Seq<char>
    decreases s.len(),
{
    if s.len() > 0 && white(s.last()) {
        trimmed_end(s.drop_last())
    } else {
        s
    }
}

fn is_white(c: char) -> (r: bool)
    ensures
        r == white(c),
{
    let n: u32 = c as u32;
    (0x09 <= n && n <= 0x0d) || n == 0x20 || n == 0x85 || n == 0xa0 || n == 0x1680 || (0x2000 <= n
        && n <= 0x200a) || n == 0x2028 || n == 0x2029 || n == 0x202f || n == 0x205f || n == 0x3000
}

/// The text of the first `n` characters.
fn text_of(chars: &Vec<char>, n: usize) -> (s: String)
    requires
        n <= chars.len(),
    ensures
        s@ == chars@.take(n as int),
{
    let mut s = String::new();
    let mut i: usize = 0;
    while i < n
        invariant
            i <= n <= chars.len(),
            s@ == chars@.take(i as int),
        decreases n - i,
    {
        s.push(chars[i]);
        assert(chars@.take(i as int + 1) =~= chars@.take(i as int).push(chars@[i as int]));
        i += 1;
    }
    s
}

/// The text without the white space at its end.
pub fn trim_end_text(s: &str) -> (r: String)
    ensures
        r@ == trimmed_end(s@),
{
    let chars = chars_of(s);
    let mut n: usize = chars.len();
    assert(chars@.take(n as int) =~= s@);
    while n > 0 && is_white(chars[n - 1])
        invariant
            n <= chars.len(),
            trimmed_end(s@) == trimmed_end(chars@.take(n as int)),
        decreases n,
    {
        assert(chars@.take(n as int).drop_last() =~= chars@.take(n as int - 1));
        assert(chars@.take(n as int).last() == chars@[n as int - 1]);
        n -= 1;
    }
    proof {
        if n > 0 {
            assert(chars@.take(n as int).last() == chars@[n as int - 1]);
        }
    }
    text_of(&chars, n)
}

/// What `Debug` formatting makes of a text: it in quotes, with escapes.
pub uninterp spec fn quoted(s: Seq<char>) -> Seq<char>;

/// `format!` with `{:?}` on a `str`: a function of the characters alone. Which
/// characters it escapes is left unsaid.
#[verifier::external_body]
pub(crate) fn quoted_text(s: &str) -> (r: String)
    ensures
        r@ == quoted(s@),
{
    format!("{s:?}")
}

/// What `Debug` formatting makes of a character: it in quotes, with escapes.
pub uninterp spec fn quoted_char(c: char) -> Seq<char>;

/// `format!` with `{:?}` on a `char`: a function of the character alone. Which
/// characters it escapes is left unsaid.
#[verifier::external_body]
pub(crate) fn quoted_char_text(c: char) -> (r: String)
    ensures
        r@ == quoted_char(c),
{
    format!("{c:?}")
}

/// A code point as it is written inside a character literal: `\t`, `\r`,
/// `\n`, `\'`, `\"` and `\\` for those, printable ASCII as it is, and
/// `\u{hex}` for everything else.
pub open spec fn escaped(cp: u32) -> Seq<char> {
    if cp == 9 {
        "\\t"@
    } else if cp == 13 {
        "\\r"@
    } else if cp == 10 {
        "\\n"@
    } else if cp == 39 {
        "\\'"@
    } else if cp == 34 {
        "\\\""@
    } else if cp == 92 {
        "\\\\"@
    } else if 0x20 <= cp <= 0x7e {
        seq![cp as char]
    } else {
        "\\u{"@ + numeral(cp as nat, 16) + "}"@
    }
}

/// A code point as it is written inside a character literal.
pub fn escaped_text(cp: u32) -> (s: String)
    ensures
        s@ == escaped(cp),
{
    if cp == 9 {
        "\\t".to_owned()
    } else if cp == 13 {
        "\\r".to_owned()
    } else if cp == 10 {
        "\\n".to_owned()
    } else if cp == 39 {
        "\\'".to_owned()
    } else if cp == 34 {
        "\\\"".to_owned()
    } else if cp == 92 {
        "\\\\".to_owned()
    } else if 0x20 <= cp && cp <= 0x7e {
        let mut s = String::new();
        s.push((cp as u8) as char);
        assert(s@ =~= seq![cp as char]);
        s
    } else {
        let mut s = "\\u{".to_owned();
        s.append(hex_text(cp as u64).as_str());
        s.append("}");
        s
    }
}

/// The letter in upper case when it is one of `a`-`z`, else the character
/// itself.
pub open spec fn ascii_upper(c: char) -> char {
    if 97 <= c as u32 <= 122 {
        (c as u32 - 32) as char
    } else {
        c
    }
}

/// The text with its letters `a`-`z` in upper case.
pub open spec fn upper(s: Seq<char>) -> Seq<char> {
    Seq::new(s.len(), |i: int| ascii_upper(s[i]))
}

/// The text with its letters `a`-`z` in upper case.
pub fn upper_text(s: &str) -> (r: String)
    ensures
        r@ == upper(s@),
{
    let chars = chars_of(s);
    let mut r = String::new();
    let mut i: usize = 0;
    while i < chars.len()
        invariant
            i <= chars.len(),
            chars@ == s@,
            r@ == upper(s@).take(i as int),
        decreases chars.len() - i,
    {
        let c = chars[i];
        let n: u32 = c as u32;
        if 97 <= n && n <= 122 {
            r.push(((n - 32) as u8) as char);
        } else {
            r.push(c);
        }
        assert(upper(s@).take(i as int + 1) =~= upper(s@).take(i as int).push(ascii_upper(c)));
        i += 1;
    }
    assert(upper(s@).take(i as int) =~= upper(s@));
    r
}

/// `s` with `name` put behind every name that does not come after it.
pub open spec fn insert_name(s: Seq<Name>, name: Name) -> Seq<Name>
    decreases s.len(),
{
    if s.len() > 0 && before(name, s.last()) {
        insert_name(s.drop_last(), name).push(s.last())
    } else {
        s.push(name)
    }
}

/// The names in order.
pub open spec fn ordered(s: Seq<Name>) -> Seq<Name>
    decreases s.len(),
{
    if s.len() == 0 {
        Seq::empty()
    } else {
        insert_name(ordered(s.drop_last()), s.last())
    }
}

proof fn lemma_insert_name_at(s: Seq<Name>, name: Name, p: int)
    requires
        0 <= p <= s.len(),
        forall|j: int| p <= j < s.len() ==> before(name, #[trigger] s[j]),
        p > 0 ==> !before(name, s[p - 1]),
    ensures
        s.insert(p, name) == insert_name(s, name),
    decreases s.len(),
{
    if p == s.len() {
        assert(s.insert(p, name) =~= s.push(name));
    } else {
        let t = s.drop_last();
        assert forall|j: int| p <= j < t.len() implies before(name, #[trigger] t[j]) by {
            assert(t[j] == s[j]);
        }
        lemma_insert_name_at(t, name, p);
        assert(before(name, s[s.len() - 1]));
        assert(s.insert(p, name) =~= t.insert(p, name).push(s.last()));
    }
}

/// The names in order.
pub fn order_names(names: Vec<String>) -> (r: Vec<String>)
    ensures
        names_of(r@) == ordered(names_of(names@)),
{
    let mut sorted: Vec<String> = Vec::new();
    let mut i: usize = 0;
    assert(names_of(sorted@) =~= Seq::<Name>::empty());
    while i < names.len()
        invariant
            i <= names.len(),
            sorted.len() == i,
            names_of(sorted@) == ordered(names_of(names@).take(i as int)),
        decreases names.len() - i,
    {
        let entry = names[i].clone();
        let mut p: usize = i;
        while p > 0 && comes_before(entry.as_str(), sorted[p - 1].as_str())
            invariant
                p <= i,
                sorted.len() == i,
                forall|j: int|
                    p <= j < names_of(sorted@).len() ==> before(
                        entry@,
                        #[trigger] names_of(sorted@)[j],
                    ),
            decreases p,
        {
            p -= 1;
        }
        let ghost was = names_of(sorted@);
        let ghost seen = entry@;
        proof {
            lemma_insert_name_at(was, seen, p as int);
        }
        sorted.insert(p, entry);
        proof {
            assert(names_of(sorted@) =~= was.insert(p as int, seen));
            let t = names_of(names@).take(i as int + 1);
            assert(t.drop_last() =~= names_of(names@).take(i as int));
            assert(t.last() == seen);
        }
        i += 1;
    }
    assert(names_of(names@).take(i as int) =~= names_of(names@));
    sorted
}

/// `true` or `false`.
pub open spec fn bool_word(b: bool) -> Seq<char> {
    if b {
        "true"@
    } else {
        "false"@
    }
}

/// `true` or `false`.
pub fn bool_text(b: bool) -> (s: String)
    ensures
        s@ == bool_word(b),
{
    if b {
        "true".to_owned()
    } else {
        "false".to_owned()
    }
}

} // verus!
