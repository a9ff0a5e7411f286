//! Types as messages write them.

use crate::text::{join_texts, joined, names_of, quoted, quoted_text};
use crate::types::{Heading, HeadingView, Type, TypeView};
use vstd::prelude::*;

verus! {

/// A type as a message writes it.
pub open spec fn type_word(t: TypeView) -> Seq<char>
    decreases t, 2nat,
{
    match t {
        TypeView::Integer => "Integer"@,
        TypeView::Rational => "Rational"@,
        TypeView::Approximate => "Approximate"@,
        TypeView::Text => "Text"@,
        TypeView::Character => "Character"@,
        TypeView::Binary => "Binary"@,
        TypeView::Byte => "Byte"@,
        TypeView::Boolean => "Boolean"@,
        TypeView::Tuple(h) => "Tuple("@ + heading_word(h) + ")"@,
        TypeView::Relation(h) => "Relation("@ + heading_word(h) + ")"@,
        TypeView::FormatText => "FormatText"@,
        TypeView::Sequence(t) => "Sequence("@ + type_word(*t) + ")"@,
        TypeView::Unknown => "Unknown"@,
    }
}

/// A heading as a message writes it.
pub open spec fn heading_word(h: HeadingView) -> Seq<char>
    decreases h, 1nat,
{
    "Heading { attrs: ["@ + joined(attr_words(h), ", "@) + "] }"@
}

/// Each attribute of a heading as a message writes it.
pub open spec fn attr_words(h: HeadingView) -> Seq<Seq<char>>
    decreases h, 0nat,
{
    Seq::new(
        h.len(),
        |i: int|
            if 0 <= i < h.len() {
                "("@ + quoted(h[i].0) + ", "@ + type_word(h[i].1) + ")"@
            } else {
                arbitrary()
            },
    )
}

impl Heading {
    /// The heading as a message writes it.
    pub fn word(&self) -> (r: String)
        ensures
            r@ == heading_word(self@),
        decreases self,
    {
        let mut parts: Vec<String> = Vec::new();
        let mut i: usize = 0;
        let ghost h = self@;
        while i < self.attrs.len()
            invariant
                i <= self.attrs.len(),
                h == self@,
                h.len() == self.attrs.len(),
                parts.len() == i,
                forall|j: int| 0 <= j < i ==> (#[trigger] parts@[j])@ == attr_words(h)[j],
            decreases self.attrs.len() - i,
        {
            assert(h[i as int] == (self.attrs@[i as int].0@, self.attrs@[i as int].1@));
            let mut s = "(".to_owned();
            s.append(quoted_text(self.attrs[i].0.as_str()).as_str());
            s.append(", ");
            s.append(self.attrs[i].1.word().as_str());
            s.append(")");
            parts.push(s);
            i += 1;
        }
        assert(names_of(parts@) =~= attr_words(h));
        let mut s = "Heading { attrs: [".to_owned();
        s.append(join_texts(&parts, ", ").as_str());
        s.append("] }");
        s
    }
}

impl Type {
    /// The type as a message writes it.
    pub fn word(&self) -> (r: String)
        ensures
            r@ == type_word(self@),
        decreases self,
    {
        match self {
            Type::Integer => "Integer".to_owned(),
            Type::Rational => "Rational".to_owned(),
            Type::Approximate => "Approximate".to_owned(),
            Type::Text => "Text".to_owned(),
            Type::Character => "Character".to_owned(),
            Type::Binary => "Binary".to_owned(),
            Type::Byte => "Byte".to_owned(),
            Type::Boolean => "Boolean".to_owned(),
            Type::Tuple(h) => {
                let mut s = "Tuple(".to_owned();
                s.append(h.word().as_str());
                s.append(")");
                s
            },
            Type::Relation(h) => {
                let mut s = "Relation(".to_owned();
                s.append(h.word().as_str());
                s.append(")");
                s
            },
            Type::FormatText => "FormatText".to_owned(),
            Type::Sequence(t) => {
                let mut s = "Sequence(".to_owned();
                s.append(t.word().as_str());
                s.append(")");
                s
            },
            Type::Unknown => "Unknown".to_owned(),
        }
    }
}

} // verus!
