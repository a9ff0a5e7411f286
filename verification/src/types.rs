//! Scalar and generated types, and headings: attribute lists kept in
//! canonical (name-sorted) order.

use crate::text::{before, comes_before, has_name, names_of, same_text, Name};
use vstd::prelude::*;

pub mod words;

verus! {

/// A surface type.
#[derive(Debug, PartialEq, Eq)]
pub enum Type {
    Integer,
    Rational,
    Approximate,
    Text,
    Character,
    Binary,
    Byte,
    Boolean,
    /// A tuple type over a heading.
    Tuple(Heading),
    /// A relation type over a heading.
    Relation(Heading),
    /// A format template; exists at compile time only.
    FormatText,
    /// A sequence of elements of one type.
    Sequence(Box<Type>),
    /// The type of an expression that could not be typed.
    Unknown,
}

/// The attributes of a tuple or relation type, in canonical order.
#[derive(Debug, PartialEq, Eq)]
pub struct Heading {
    attrs: Vec<(String, Type)>,
}

/// What a [`Type`] stands for.
pub enum TypeView {
    Integer,
    Rational,
    Approximate,
    Text,
    Character,
    Binary,
    Byte,
    Boolean,
    Tuple(Seq<(Name, TypeView)>),
    Relation(Seq<(Name, TypeView)>),
    FormatText,
    Sequence(Box<TypeView>),
    Unknown,
}

/// What a [`Heading`] stands for: its attributes in order.
pub type HeadingView = Seq<(Name, TypeView)>;

impl Type {
    pub open spec fn view(&self) -> TypeView
        decreases self,
    {
        match self {
            Type::Integer => TypeView::Integer,
            Type::Rational => TypeView::Rational,
            Type::Approximate => TypeView::Approximate,
            Type::Text => TypeView::Text,
            Type::Character => TypeView::Character,
            Type::Binary => TypeView::Binary,
            Type::Byte => TypeView::Byte,
            Type::Boolean => TypeView::Boolean,
            Type::Tuple(h) => TypeView::Tuple(h.view()),
            Type::Relation(h) => TypeView::Relation(h.view()),
            Type::FormatText => TypeView::FormatText,
            Type::Sequence(t) => TypeView::Sequence(Box::new(t.view())),
            Type::Unknown => TypeView::Unknown,
        }
    }

    /// The type with no values but one: the empty tuple.
    pub fn unit() -> (r: Type)
        ensures
            r@ == TypeView::Tuple(Seq::empty()),
    {
        Type::Tuple(Heading::empty())
    }

    /// Whether two types are the same type.
    pub fn same(&self, other: &Type) -> (r: bool)
        ensures
            r == (self@ == other@),
        decreases self,
    {
        match (self, other) {
            (Type::Integer, Type::Integer) => true,
            (Type::Rational, Type::Rational) => true,
            (Type::Approximate, Type::Approximate) => true,
            (Type::Text, Type::Text) => true,
            (Type::Character, Type::Character) => true,
            (Type::Binary, Type::Binary) => true,
            (Type::Byte, Type::Byte) => true,
            (Type::Boolean, Type::Boolean) => true,
            (Type::Tuple(a), Type::Tuple(b)) => a.same(b),
            (Type::Relation(a), Type::Relation(b)) => a.same(b),
            (Type::FormatText, Type::FormatText) => true,
            (Type::Sequence(a), Type::Sequence(b)) => a.same(b),
            (Type::Unknown, Type::Unknown) => true,
            _ => false,
        }
    }
}

impl Clone for Type {
    fn clone(&self) -> (r: Self)
        ensures
            r@ == self@,
        decreases self,
    {
        match self {
            Type::Integer => Type::Integer,
            Type::Rational => Type::Rational,
            Type::Approximate => Type::Approximate,
            Type::Text => Type::Text,
            Type::Character => Type::Character,
            Type::Binary => Type::Binary,
            Type::Byte => Type::Byte,
            Type::Boolean => Type::Boolean,
            Type::Tuple(h) => Type::Tuple(h.clone()),
            Type::Relation(h) => Type::Relation(h.clone()),
            Type::FormatText => Type::FormatText,
            Type::Sequence(t) => Type::Sequence(Box::new((**t).clone())),
            Type::Unknown => Type::Unknown,
        }
    }
}

/// What a list of attributes stands for.
pub open spec fn attrs_view(s: Seq<(String, Type)>) -> HeadingView {
    Seq::new(s.len(), |i: int| (s[i].0@, s[i].1@))
}

/// The attribute names of a heading, in order.
pub open spec fn attr_names(h: HeadingView) -> Seq<Name> {
    Seq::new(h.len(), |i: int| h[i].0)
}

/// `s` with `a` put behind every attribute that does not come after it.
pub open spec fn insert_attr(s: HeadingView, a: (Name, TypeView)) -> HeadingView
    decreases s.len(),
{
    if s.len() > 0 && before(a.0, s.last().0) {
        insert_attr(s.drop_last(), a).push(s.last())
    } else {
        s.push(a)
    }
}

/// The attributes in name order; attributes of one name keep their order.
pub open spec fn canonical(s: HeadingView) -> HeadingView
    decreases s.len(),
{
    if s.len() == 0 {
        Seq::empty()
    } else {
        insert_attr(canonical(s.drop_last()), s.last())
    }
}

/// The type of the first attribute with that name.
pub open spec fn lookup_attr(h: HeadingView, name: Name) -> Option<TypeView>
    decreases h.len(),
{
    if h.len() == 0 {
        None
    } else if h[0].0 == name {
        Some(h[0].1)
    } else {
        lookup_attr(h.drop_first(), name)
    }
}

/// Whether attributes of one name have one type in both headings.
pub open spec fn headings_agree(a: HeadingView, b: HeadingView) -> bool {
    forall|i: int, j: int|
        0 <= i < a.len() && 0 <= j < b.len() && #[trigger] a[i].0 == #[trigger] b[j].0 ==> a[i].1
            == b[j].1
}

/// The attributes of `s` whose name is not in `names`, in order.
pub open spec fn attrs_without(s: HeadingView, names: Seq<Name>) -> HeadingView {
    s.filter(|a: (Name, TypeView)| !names.contains(a.0))
}

/// The attributes of `s` whose name is in `names`, in order.
pub open spec fn attrs_within(s: HeadingView, names: Seq<Name>) -> HeadingView {
    s.filter(|a: (Name, TypeView)| names.contains(a.0))
}

/// The attributes of either heading, each name once.
pub open spec fn heading_union(a: HeadingView, b: HeadingView) -> HeadingView {
    canonical(a + attrs_without(b, attr_names(a)))
}

/// The names that stand in both headings, in the order of the first.
pub open spec fn shared_of(a: HeadingView, b: HeadingView) -> Seq<Name> {
    attr_names(attrs_within(a, attr_names(b)))
}

/// Whether the names of a heading rise strictly: canonical order, no name twice.
pub open spec fn names_rise(h: HeadingView) -> bool {
    forall|i: int, j: int| 0 <= i < j < h.len() ==> before(#[trigger] h[i].0, #[trigger] h[j].0)
}

/// Whether no name stands twice in the heading.
pub open spec fn names_distinct(h: HeadingView) -> bool {
    forall|i: int, j: int| 0 <= i < j < h.len() ==> #[trigger] h[i].0 != #[trigger] h[j].0
}

/// `v[..p] ++ [a] ++ v[p..]` is the ordered insertion when everything from `p`
/// on comes after `a` and what stands before `p` does not.
proof fn lemma_insert_at(s: HeadingView, a: (Name, TypeView), p: int)
    requires
        0 <= p <= s.len(),
        forall|j: int| p <= j < s.len() ==> before(a.0, (#[trigger] s[j]).0),
        p > 0 ==> !before(a.0, s[p - 1].0),
    ensures
        s.insert(p, a) == insert_attr(s, a),
    decreases s.len(),
{
    if p == s.len() {
        assert(s.insert(p, a) =~= s.push(a));
    } else {
        let t = s.drop_last();
        assert forall|j: int| p <= j < t.len() implies before(a.0, (#[trigger] t[j]).0) by {
            assert(t[j] == s[j]);
        }
        lemma_insert_at(t, a, p);
        assert(before(a.0, s[s.len() - 1].0));
        assert(s.insert(p, a) =~= t.insert(p, a).push(s.last()));
    }
}

impl Heading {
    pub closed spec fn view(&self) -> HeadingView
        decreases self,
    {
        let s = self.attrs@;
        Seq::new(
            s.len(),
            |i: int|
                if 0 <= i < s.len() {
                    (s[i].0@, s[i].1.view())
                } else {
                    arbitrary()
                },
        )
    }

    /// A heading of these attributes, put in canonical order.
    pub fn new(attrs: Vec<(String, Type)>) -> (r: Heading)
        ensures
            r@ == canonical(attrs_view(attrs@)),
    {
        let mut sorted: Vec<(String, Type)> = Vec::new();
        let mut i: usize = 0;
        assert(attrs_view(sorted@) =~= Seq::<(Name, TypeView)>::empty());
        while i < attrs.len()
            invariant
                i <= attrs.len(),
                sorted.len() == i,
                attrs_view(sorted@) == canonical(attrs_view(attrs@).take(i as int)),
            decreases attrs.len() - i,
        {
            let entry = (attrs[i].0.clone(), attrs[i].1.clone());
            let mut p: usize = i;
            while p > 0 && comes_before(entry.0.as_str(), sorted[p - 1].0.as_str())
                invariant
                    p <= i,
                    sorted.len() == i,
                    forall|j: int|
                        p <= j < attrs_view(sorted@).len() ==> before(
                            entry.0@,
                            (#[trigger] attrs_view(sorted@)[j]).0,
                        ),
                decreases p,
            {
                p -= 1;
            }
            let ghost entry_view = (entry.0@, entry.1@);
            let ghost was = attrs_view(sorted@);
            proof {
                lemma_insert_at(was, entry_view, p as int);
            }
            sorted.insert(p, entry);
            proof {
                assert(attrs_view(sorted@) =~= was.insert(p as int, entry_view));
                let t = attrs_view(attrs@).take(i as int + 1);
                assert(t.drop_last() =~= attrs_view(attrs@).take(i as int));
                assert(t.last() == entry_view);
            }
            i += 1;
        }
        assert(attrs_view(attrs@).take(i as int) =~= attrs_view(attrs@));
        let r = Heading { attrs: sorted };
        assert(r@ =~= attrs_view(r.attrs@));
        r
    }

    /// The heading without attributes.
    pub fn empty() -> (r: Heading)
        ensures
            r@ == Seq::<(Name, TypeView)>::empty(),
    {
        let r = Heading { attrs: Vec::new() };
        assert(r@ =~= Seq::<(Name, TypeView)>::empty());
        r
    }

    /// The attributes in canonical order.
    pub fn attrs(&self) -> (r: &Vec<(String, Type)>)
        ensures
            attrs_view(r@) == self@,
            r.len() == self@.len(),
    {
        assert(self@ =~= attrs_view(self.attrs@));
        &self.attrs
    }

    /// How many attributes the heading has.
    pub fn len(&self) -> (r: usize)
        ensures
            r == self@.len(),
    {
        self.attrs.len()
    }

    /// Whether the heading has no attribute.
    pub fn is_empty(&self) -> (r: bool)
        ensures
            r == (self@.len() == 0),
    {
        self.attrs.len() == 0
    }

    /// The type of the attribute with that name.
    pub fn lookup(&self, name: &str) -> (r: Option<&Type>)
        ensures
            lookup_attr(self@, name@) == match r {
                Some(t) => Some(t@),
                None => None::<TypeView>,
            },
    {
        let mut i: usize = 0;
        let attrs = self.attrs();
        assert(self@.skip(0) =~= self@);
        while i < attrs.len()
            invariant
                i <= attrs.len(),
                attrs_view(attrs@) == self@,
                lookup_attr(self@, name@) == lookup_attr(self@.skip(i as int), name@),
            decreases attrs.len() - i,
        {
            assert(self@.skip(i as int)[0] == attrs_view(attrs@)[i as int]);
            if same_text(attrs[i].0.as_str(), name) {
                return Some(&attrs[i].1);
            }
            assert(self@.skip(i as int).drop_first() =~= self@.skip(i as int + 1));
            i += 1;
        }
        None
    }

    /// Whether an attribute has that name.
    pub fn contains(&self, name: &str) -> (r: bool)
        ensures
            r == attr_names(self@).contains(name@),
    {
        let mut i: usize = 0;
        let attrs = self.attrs();
        while i < attrs.len()
            invariant
                i <= attrs.len(),
                attrs_view(attrs@) == self@,
                forall|j: int| 0 <= j < i ==> attr_names(self@)[j] != name@,
            decreases attrs.len() - i,
        {
            assert(attr_names(self@)[i as int] == attrs_view(attrs@)[i as int].0);
            if same_text(attrs[i].0.as_str(), name) {
                assert(attr_names(self@)[i as int] == name@);
                return true;
            }
            i += 1;
        }
        false
    }

    /// The attribute names, in order.
    pub fn names(&self) -> (r: Vec<String>)
        ensures
            names_of(r@) == attr_names(self@),
    {
        let mut r: Vec<String> = Vec::new();
        let mut i: usize = 0;
        let attrs = self.attrs();
        while i < attrs.len()
            invariant
                i <= attrs.len(),
                attrs_view(attrs@) == self@,
                names_of(r@) == attr_names(self@).take(i as int),
            decreases attrs.len() - i,
        {
            let n = attrs[i].0.clone();
            let ghost was = r@;
            r.push(n);
            proof {
                assert(attrs_view(attrs@)[i as int].0 == n@);
                assert(names_of(r@) =~= names_of(was).push(n@));
                assert(attr_names(self@).take(i as int + 1) =~= attr_names(self@).take(
                    i as int,
                ).push(n@));
            }
            i += 1;
        }
        assert(attr_names(self@).take(i as int) =~= attr_names(self@));
        r
    }

    /// Whether two headings have the same attributes.
    pub fn same(&self, other: &Heading) -> (r: bool)
        ensures
            r == (self@ == other@),
        decreases self,
    {
        assert(self@.len() == self.attrs.len() && other@.len() == other.attrs.len());
        if self.attrs.len() != other.attrs.len() {
            return false;
        }
        let mut i: usize = 0;
        while i < self.attrs.len()
            invariant
                i <= self.attrs.len(),
                self.attrs.len() == other.attrs.len(),
                forall|j: int| 0 <= j < i ==> self@[j] == other@[j],
            decreases self.attrs.len() - i,
        {
            assert(self@[i as int] == (self.attrs@[i as int].0@, self.attrs@[i as int].1@));
            assert(other@[i as int] == (other.attrs@[i as int].0@, other.attrs@[i as int].1@));
            if !(self.attrs[i].0 == other.attrs[i].0) || !self.attrs[i].1.same(&other.attrs[i].1) {
                return false;
            }
            i += 1;
        }
        assert(self@ =~= other@);
        true
    }

    /// The attributes of this heading whose name is in `names`, in order.
    pub fn within(&self, names: &Vec<String>) -> (r: Vec<(String, Type)>)
        ensures
            attrs_view(r@) == attrs_within(self@, names_of(names@)),
    {
        self.pick(names, true)
    }

    /// The attributes of this heading whose name is not in `names`, in order.
    pub fn without(&self, names: &Vec<String>) -> (r: Vec<(String, Type)>)
        ensures
            attrs_view(r@) == attrs_without(self@, names_of(names@)),
    {
        self.pick(names, false)
    }

    fn pick(&self, names: &Vec<String>, wanted: bool) -> (r: Vec<(String, Type)>)
        ensures
            wanted ==> attrs_view(r@) == attrs_within(self@, names_of(names@)),
            !wanted ==> attrs_view(r@) == attrs_without(self@, names_of(names@)),
    {
        let mut r: Vec<(String, Type)> = Vec::new();
        let mut i: usize = 0;
        let attrs = self.attrs();
        let ghost ns = names_of(names@);
        proof {
            reveal_with_fuel(Seq::filter, 1);
            assert(self@.take(0) =~= Seq::<(Name, TypeView)>::empty());
            assert(attrs_view(r@) =~= Seq::<(Name, TypeView)>::empty());
        }
        while i < attrs.len()
            invariant
                i <= attrs.len(),
                ns == names_of(names@),
                attrs_view(attrs@) == self@,
                wanted ==> attrs_view(r@) == attrs_within(self@.take(i as int), ns),
                !wanted ==> attrs_view(r@) == attrs_without(self@.take(i as int), ns),
            decreases attrs.len() - i,
        {
            let ghost was = attrs_view(r@);
            proof {
                reveal_with_fuel(Seq::filter, 1);
                let t = self@.take(i as int + 1);
                assert(t.drop_last() =~= self@.take(i as int));
                assert(t.last() == attrs_view(attrs@)[i as int]);
            }
            if has_name(names, attrs[i].0.as_str()) == wanted {
                let entry = (attrs[i].0.clone(), attrs[i].1.clone());
                let ghost entry_view = (entry.0@, entry.1@);
                r.push(entry);
                assert(attrs_view(r@) =~= was.push(entry_view));
            }
            i += 1;
        }
        assert(self@.take(i as int) =~= self@);
        r
    }

    /// The attributes of either heading, each name once; `None` when a name
    /// they share has two types.
    pub fn union(&self, other: &Heading) -> (r: Option<Heading>)
        ensures
            r is Some <==> headings_agree(self@, other@),
            r is Some ==> r->0@ == heading_union(self@, other@),
    {
        let mine = self.attrs();
        let theirs = other.attrs();
        let mut i: usize = 0;
        while i < mine.len()
            invariant
                i <= mine.len(),
                attrs_view(mine@) == self@,
                attrs_view(theirs@) == other@,
                forall|a: int, b: int|
                    0 <= a < i && 0 <= b < other@.len() && #[trigger] self@[a].0
                        == #[trigger] other@[b].0 ==> self@[a].1 == other@[b].1,
            decreases mine.len() - i,
        {
            let mut j: usize = 0;
            while j < theirs.len()
                invariant
                    i < mine.len(),
                    j <= theirs.len(),
                    attrs_view(mine@) == self@,
                    attrs_view(theirs@) == other@,
                    forall|b: int|
                        0 <= b < j && self@[i as int].0 == #[trigger] other@[b].0
                            ==> self@[i as int].1 == other@[b].1,
                decreases theirs.len() - j,
            {
                assert(self@[i as int] == attrs_view(mine@)[i as int]);
                assert(other@[j as int] == attrs_view(theirs@)[j as int]);
                if mine[i].0 == theirs[j].0 && !mine[i].1.same(&theirs[j].1) {
                    assert(self@[i as int].0 == other@[j as int].0);
                    return None;
                }
                j += 1;
            }
            i += 1;
        }
        let mine_names = self.names();
        let mut all = copy_attrs(mine);
        let mut rest = other.without(&mine_names);
        let ghost a = attrs_view(all@);
        let ghost b = attrs_view(rest@);
        all.append(&mut rest);
        assert(attrs_view(all@) =~= a + b);
        Some(Heading::new(all))
    }

    /// The names that stand in both headings, in the order of this one.
    pub fn shared_names(&self, other: &Heading) -> (r: Vec<String>)
        ensures
            names_of(r@) == shared_of(self@, other@),
    {
        let theirs = other.names();
        let both = self.within(&theirs);
        names_of_attrs(&both)
    }
}

/// The names of a list of attributes.
pub fn names_of_attrs(attrs: &Vec<(String, Type)>) -> (r: Vec<String>)
    ensures
        names_of(r@) == attr_names(attrs_view(attrs@)),
{
    let mut r: Vec<String> = Vec::new();
    let mut i: usize = 0;
    while i < attrs.len()
        invariant
            i <= attrs.len(),
            r.len() == i,
            forall|j: int| 0 <= j < i ==> (#[trigger] r@[j])@ == attrs@[j].0@,
        decreases attrs.len() - i,
    {
        r.push(attrs[i].0.clone());
        i += 1;
    }
    assert(names_of(r@) =~= attr_names(attrs_view(attrs@)));
    r
}

/// A copy of a list of attributes.
pub fn copy_attrs(attrs: &Vec<(String, Type)>) -> (r: Vec<(String, Type)>)
    ensures
        attrs_view(r@) == attrs_view(attrs@),
    decreases attrs,
{
    let mut r: Vec<(String, Type)> = Vec::new();
    let mut i: usize = 0;
    while i < attrs.len()
        invariant
            i <= attrs.len(),
            r.len() == i,
            forall|j: int|
                0 <= j < i ==> (#[trigger] r@[j]).0@ == attrs@[j].0@ && r@[j].1@ == attrs@[j].1@,
        decreases attrs.len() - i,
    {
        let n = attrs[i].0.clone();
        let t = attrs[i].1.clone();
        r.push((n, t));
        i += 1;
    }
    assert(attrs_view(r@) =~= attrs_view(attrs@));
    r
}

impl Clone for Heading {
    fn clone(&self) -> (r: Self)
        ensures
            r@ == self@,
        decreases self,
    {
        let attrs = copy_attrs(&self.attrs);
        let r = Heading { attrs };
        assert(self@ =~= attrs_view(self.attrs@));
        assert(r@ =~= attrs_view(r.attrs@));
        r
    }
}

} // verus!
