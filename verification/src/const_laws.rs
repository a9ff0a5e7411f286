//! The printed form of a text constant is printable and loses nothing.

use crate::ir::ConstView;
use crate::ir_text::{byte_text, bytes_text};
use crate::text::digit;
use vstd::prelude::*;

verus! {

/// Whether characters are printable ASCII.
pub open spec fn is_printable(s: Seq<char>) -> bool {
    forall|i: int| 0 <= i < s.len() ==> 0x20 <= (#[trigger] s[i]) as int <= 0x7e
}

/// What is printed for a byte: itself, or a backslash and what says which byte it
/// is.
proof fn lemma_byte_text(b: u8)
    ensures
        is_printable(byte_text(b)),
        byte_text(b).len() > 0,
        ({
            let t = byte_text(b);
            if t[0] != '\\' {
                t == seq![b as char] && 0x20 <= b <= 0x7e && b != 34 && b != 92
            } else {
                &&& t.len() >= 2
                &&& match t[1] {
                    'n' => b == 10 && t.len() == 2,
                    'r' => b == 13 && t.len() == 2,
                    't' => b == 9 && t.len() == 2,
                    '"' => b == 34 && t.len() == 2,
                    '\\' => b == 92 && t.len() == 2,
                    _ => {
                        &&& t.len() == 4
                        &&& t[1] == 'x'
                        &&& t[2] == digit((b / 16) as nat)
                        &&& t[3] == digit((b % 16) as nat)
                    },
                }
            }
        }),
{
    reveal_strlit("\\n");
    reveal_strlit("\\r");
    reveal_strlit("\\t");
    reveal_strlit("\\\"");
    reveal_strlit("\\\\");
    reveal_strlit("\\x");
    let t = byte_text(b);
    if b == 10 || b == 13 || b == 9 || b == 34 || b == 92 {
        assert(t.len() == 2 && t[0] == '\\');
        assert(t[1] == 'n' || t[1] == 'r' || t[1] == 't' || t[1] == '"' || t[1] == '\\');
    } else if 0x20 <= b <= 0x7e {
        assert(t[0] == b as char);
    } else {
        assert(t.len() == 4 && t[0] == '\\' && t[1] == 'x');
        lemma_digit((b / 16) as nat, (b / 16) as nat);
        lemma_digit((b % 16) as nat, (b % 16) as nat);
    }
}

proof fn lemma_digit(m: nat, n: nat)
    requires
        m < 16,
        n < 16,
    ensures
        0x20 <= digit(m) as int <= 0x7e,
        digit(m) == digit(n) ==> m == n,
{
}

/// No byte's text begins that of another.
proof fn lemma_first_byte(b: u8, c: u8, s: Seq<char>, t: Seq<char>)
    requires
        byte_text(b) + s == byte_text(c) + t,
    ensures
        b == c,
        s == t,
{
    let (x, y) = (byte_text(b), byte_text(c));
    lemma_byte_text(b);
    lemma_byte_text(c);
    assert((x + s)[0] == x[0] && (y + t)[0] == y[0]);
    if x[0] != '\\' {
        assert(b as char == c as char);
    } else {
        assert((x + s)[1] == x[1] && (y + t)[1] == y[1]);
        if x.len() == 4 {
            assert((x + s)[2] == x[2] && (y + t)[2] == y[2]);
            assert((x + s)[3] == x[3] && (y + t)[3] == y[3]);
            lemma_digit((b / 16) as nat, (c / 16) as nat);
            lemma_digit((b % 16) as nat, (c % 16) as nat);
        }
    }
    assert(b == c);
    assert((x + s).skip(x.len() as int) =~= s);
    assert((y + t).skip(y.len() as int) =~= t);
}

/// The text of bytes begins with that of the first one.
proof fn lemma_text_of_first(bytes: Seq<u8>)
    requires
        bytes.len() > 0,
    ensures
        bytes_text(bytes) == byte_text(bytes[0]) + bytes_text(bytes.drop_first()),
    decreases bytes.len(),
{
    let (front, rest) = (bytes.drop_last(), bytes.drop_first());
    if bytes.len() == 1 {
        assert(front =~= Seq::empty());
        assert(rest =~= Seq::empty());
        assert(bytes_text(bytes) =~= byte_text(bytes[0]) + bytes_text(rest));
    } else {
        lemma_text_of_first(front);
        assert(rest.drop_last() =~= front.drop_first());
        assert(rest.last() == bytes.last());
        assert(bytes_text(bytes) =~= byte_text(bytes[0]) + bytes_text(rest));
    }
}

proof fn lemma_bytes_printable(bytes: Seq<u8>)
    ensures
        is_printable(bytes_text(bytes)),
    decreases bytes.len(),
{
    if bytes.len() > 0 {
        let front = bytes.drop_last();
        lemma_bytes_printable(front);
        lemma_byte_text(bytes.last());
        let (x, y) = (bytes_text(front), byte_text(bytes.last()));
        assert forall|i: int| 0 <= i < (x + y).len() implies 0x20 <= (#[trigger] (x + y)[i]) as int
            <= 0x7e by {
            if i < x.len() {
                assert((x + y)[i] == x[i]);
            } else {
                assert((x + y)[i] == y[i - x.len()]);
            }
        }
    }
}

proof fn lemma_bytes_told_apart(a: Seq<u8>, b: Seq<u8>)
    requires
        bytes_text(a) == bytes_text(b),
    ensures
        a == b,
    decreases a.len(),
{
    if a.len() > 0 {
        lemma_text_of_first(a);
        lemma_byte_text(a[0]);
    }
    if b.len() > 0 {
        lemma_text_of_first(b);
        lemma_byte_text(b[0]);
    }
    if a.len() > 0 && b.len() > 0 {
        let (s, t) = (a.drop_first(), b.drop_first());
        lemma_first_byte(a[0], b[0], bytes_text(s), bytes_text(t));
        lemma_bytes_told_apart(s, t);
        assert(a =~= seq![a[0]] + s);
        assert(b =~= seq![b[0]] + t);
    } else {
        assert(a =~= b);
    }
}

/// A text constant is printed as printable ASCII between double quotes.
pub proof fn law_text_is_printable(bytes: Seq<u8>)
    ensures
        ({
            let t = ConstView::Text(bytes).text();
            &&& is_printable(t)
            &&& t.len() >= 2 && t[0] == '"' && t.last() == '"'
        }),
{
    reveal_strlit("\"");
    let t = ConstView::Text(bytes).text();
    let inner = bytes_text(bytes);
    lemma_bytes_printable(bytes);
    assert(t == seq!['"'] + inner + seq!['"']) by {
        assert("\""@ =~= seq!['"']);
    }
    assert forall|i: int| 0 <= i < t.len() implies 0x20 <= (#[trigger] t[i]) as int <= 0x7e by {
        if 0 < i < t.len() - 1 {
            assert(t[i] == inner[i - 1]);
        }
    }
}

/// Text constants of different bytes are printed differently.
pub proof fn law_texts_are_told_apart(a: Seq<u8>, b: Seq<u8>)
    requires
        ConstView::Text(a).text() == ConstView::Text(b).text(),
    ensures
        a == b,
{
    reveal_strlit("\"");
    let (x, y) = (bytes_text(a), bytes_text(b));
    let (s, t) = (ConstView::Text(a).text(), ConstView::Text(b).text());
    assert(s.subrange(1, s.len() - 1) =~= x);
    assert(t.subrange(1, t.len() - 1) =~= y);
    lemma_bytes_told_apart(a, b);
}

} // verus!
