//! The record layout of a heading: where each attribute's cell lies.
//!
//! Integers, truth values, characters and approximate numbers take eight
//! bytes, rationals and texts sixteen, a relation value the eight of its
//! pointer; a tuple takes the sum of its components and lies inside the
//! record. Other types have no cell.

pub mod kind_tag;

use crate::text::Name;
use crate::types::{attrs_view, Heading, HeadingView, Type, TypeView};
use vstd::prelude::*;

verus! {

/// One attribute's cell in a record.
#[derive(Debug, PartialEq, Eq)]
pub struct AttrLayout {
    pub name: String,
    pub kind: u32,
    pub offset: u32,
    pub width: u32,
    /// For a tuple, the layout of its components, with offsets from the
    /// tuple's own start.
    pub sub: Option<RecordLayout>,
}

/// The cells of a record, in canonical attribute order, and its size.
#[derive(Debug, PartialEq, Eq)]
pub struct RecordLayout {
    pub attrs: Vec<AttrLayout>,
    pub record_size: u32,
}

/// What an [`AttrLayout`] stands for.
pub struct AttrLayoutView {
    pub name: Name,
    pub kind: nat,
    pub offset: nat,
    pub width: nat,
    pub sub: Option<RecordLayoutView>,
}

/// What a [`RecordLayout`] stands for.
pub struct RecordLayoutView {
    pub attrs: Seq<AttrLayoutView>,
    pub record_size: nat,
}

impl AttrLayout {
    pub open spec fn view(&self) -> AttrLayoutView
        decreases self,
    {
        AttrLayoutView {
            name: self.name@,
            kind: self.kind as nat,
            offset: self.offset as nat,
            width: self.width as nat,
            sub: match self.sub {
                Some(r) => Some(r.view()),
                None => None,
            },
        }
    }
}

impl RecordLayout {
    pub open spec fn view(&self) -> RecordLayoutView
        decreases self,
    {
        let s = self.attrs@;
        RecordLayoutView {
            attrs: Seq::new(
                s.len(),
                |i: int|
                    if 0 <= i < s.len() {
                        s[i].view()
                    } else {
                        arbitrary()
                    },
            ),
            record_size: self.record_size as nat,
        }
    }
}

/// The bytes of a cell; `None` for a type that has no cell.
pub open spec fn cell_size(t: TypeView) -> Option<nat>
    decreases t,
{
    match t {
        TypeView::Integer => Some(8),
        TypeView::Boolean => Some(8),
        TypeView::Character => Some(8),
        TypeView::Approximate => Some(8),
        TypeView::Rational => Some(16),
        TypeView::Text => Some(16),
        TypeView::Relation(_) => Some(8),
        TypeView::Tuple(h) => record_bytes(h),
        _ => None,
    }
}

/// The bytes of all cells of a heading; `None` when one has no cell.
pub open spec fn record_bytes(h: HeadingView) -> Option<nat>
    decreases h,
{
    if h.len() == 0 {
        Some(0)
    } else {
        match (record_bytes(h.drop_last()), cell_size(h[h.len() - 1].1)) {
            (Some(a), Some(b)) => Some(a + b),
            _ => None,
        }
    }
}

/// Whether the sizes met on the way to [`cell_size`] fit the machine's
/// 32-bit offsets.
pub open spec fn cell_fits(t: TypeView) -> bool
    decreases t,
{
    match t {
        TypeView::Tuple(h) => record_fits(h),
        _ => true,
    }
}

/// Whether the sizes met on the way to [`record_bytes`] fit the machine's
/// 32-bit offsets.
pub open spec fn record_fits(h: HeadingView) -> bool
    decreases h,
{
    h.len() > 0 ==> {
        &&& record_fits(h.drop_last())
        &&& record_bytes(h.drop_last()) is Some ==> cell_fits(h[h.len() - 1].1)
        &&& record_bytes(h) matches Some(n) ==> n <= u32::MAX
    }
}

/// The kind number of a cell; `None` for a type that has no cell.
pub open spec fn kind_of(t: TypeView) -> Option<nat> {
    match t {
        TypeView::Integer => Some(kind_tag::INTEGER as nat),
        TypeView::Boolean => Some(kind_tag::BOOLEAN as nat),
        TypeView::Character => Some(kind_tag::CHARACTER as nat),
        TypeView::Approximate => Some(kind_tag::APPROXIMATE as nat),
        TypeView::Rational => Some(kind_tag::RATIONAL as nat),
        TypeView::Text => Some(kind_tag::TEXT as nat),
        TypeView::Tuple(_) => Some(kind_tag::TUPLE as nat),
        TypeView::Relation(_) => Some(kind_tag::RELATION as nat),
        _ => None,
    }
}

/// The cells of a heading one behind the other, each at the sum of the widths
/// before it.
pub open spec fn layout_of(h: HeadingView) -> RecordLayoutView
    decreases h,
{
    RecordLayoutView {
        attrs: Seq::new(
            h.len(),
            |i: int|
                if 0 <= i < h.len() {
                    AttrLayoutView {
                        name: h[i].0,
                        kind: kind_of(h[i].1)->0,
                        offset: record_bytes(h.take(i))->0,
                        width: cell_size(h[i].1)->0,
                        sub: match h[i].1 {
                            TypeView::Tuple(inner) => Some(layout_of(inner)),
                            _ => None,
                        },
                    }
                } else {
                    arbitrary()
                },
        ),
        record_size: record_bytes(h)->0,
    }
}

/// The bytes of a cell of that type; `None` for a type that has no cell.
pub fn cell_width(ty: &Type) -> (r: Option<u32>)
    requires
        cell_fits(ty@),
    ensures
        cell_size(ty@) == match r {
            Some(n) => Some(n as nat),
            None => None::<nat>,
        },
    decreases ty@,
{
    match ty {
        Type::Integer => Some(8),
        Type::Boolean => Some(8),
        Type::Character => Some(8),
        Type::Approximate => Some(8),
        Type::Rational => Some(16),
        Type::Text => Some(16),
        Type::Relation(_) => Some(8),
        Type::Tuple(h) => heading_width(h),
        _ => None,
    }
}

fn heading_width(h: &Heading) -> (r: Option<u32>)
    requires
        record_fits(h@),
    ensures
        record_bytes(h@) == match r {
            Some(n) => Some(n as nat),
            None => None::<nat>,
        },
    decreases h@,
{
    let attrs = h.attrs();
    let mut total: u32 = 0;
    let mut i: usize = 0;
    while i < attrs.len()
        invariant
            i <= attrs.len(),
            attrs_view(attrs@) == h@,
            record_bytes(h@.take(i as int)) == Some(total as nat),
            record_fits(h@),
        decreases attrs.len() - i,
    {
        proof {
            lemma_fits_prefix(h@, i as int + 1);
            lemma_bytes_prefix(h@, i as int + 1);
            let t = h@.take(i as int + 1);
            assert(t.drop_last() =~= h@.take(i as int));
            assert(t[t.len() - 1] == attrs_view(attrs@)[i as int]);
            assert(h@[i as int].1 == attrs@[i as int].1@);
            assert(decreases_to!(h@ => h@[i as int]));
            assert(decreases_to!(h@[i as int] => h@[i as int].1));
        }
        match cell_width(&attrs[i].1) {
            Some(w) => {
                total += w;
            },
            None => {
                return None;
            },
        }
        i += 1;
    }
    assert(h@.take(i as int) =~= h@);
    Some(total)
}

proof fn lemma_fits_prefix(h: HeadingView, n: int)
    requires
        record_fits(h),
        0 <= n <= h.len(),
    ensures
        record_fits(h.take(n)),
    decreases h.len(),
{
    if n == h.len() {
        assert(h.take(n) =~= h);
    } else {
        lemma_fits_prefix(h.drop_last(), n);
        assert(h.drop_last().take(n) =~= h.take(n));
    }
}

proof fn lemma_bytes_prefix(h: HeadingView, n: int)
    requires
        0 <= n <= h.len(),
    ensures
        record_bytes(h) is Some ==> record_bytes(h.take(n)) is Some,
        record_bytes(h) is Some ==> record_bytes(h.take(n))->0 <= record_bytes(h)->0,
    decreases h.len(),
{
    if n == h.len() {
        assert(h.take(n) =~= h);
    } else {
        lemma_bytes_prefix(h.drop_last(), n);
        assert(h.drop_last().take(n) =~= h.take(n));
    }
}

/// Whether every cell of the heading has a layout and the record's bytes fit
/// 32 bits.
pub open spec fn lays_out(h: HeadingView) -> bool {
    record_bytes(h) matches Some(n) && n <= u32::MAX
}

/// A record whose bytes fit 32 bits has only cells whose bytes do.
pub proof fn lemma_lays_out_fits(h: HeadingView)
    requires
        lays_out(h),
    ensures
        record_fits(h),
    decreases h,
{
    if h.len() > 0 {
        let last = h[h.len() - 1];
        lemma_bytes_prefix(h, h.len() - 1);
        assert(h.take(h.len() - 1) =~= h.drop_last());
        lemma_lays_out_fits(h.drop_last());
        assert(decreases_to!(h => last));
        assert(decreases_to!(last => last.1));
        lemma_cell_size_fits(last.1);
    }
}

proof fn lemma_cell_size_fits(t: TypeView)
    requires
        cell_size(t) matches Some(n) && n <= u32::MAX,
    ensures
        cell_fits(t),
    decreases t,
{
    if let TypeView::Tuple(h) = t {
        lemma_lays_out_fits(h);
    }
}

/// Every offset in a record whose bytes fit 32 bits does too.
pub proof fn lemma_offset(h: HeadingView, i: int)
    requires
        lays_out(h),
        0 <= i < h.len(),
    ensures
        record_bytes(h.take(i)) is Some,
        record_bytes(h.take(i))->0 <= u32::MAX,
{
    lemma_bytes_prefix(h, i);
}

/// Whether every cell of the heading has a layout and the record's bytes fit
/// 32 bits.
pub fn is_laid_out(h: &Heading) -> (r: bool)
    ensures
        r == lays_out(h@),
        r ==> record_fits(h@),
{
    let r = small_heading_width(h).is_some();
    proof {
        if r {
            lemma_lays_out_fits(h@);
        }
    }
    r
}

fn small_cell_width(ty: &Type) -> (r: Option<u32>)
    ensures
        r matches Some(w) ==> cell_size(ty@) == Some(w as nat),
        r is None ==> !(cell_size(ty@) matches Some(n) && n <= u32::MAX),
    decreases ty@,
{
    match ty {
        Type::Integer => Some(8),
        Type::Boolean => Some(8),
        Type::Character => Some(8),
        Type::Approximate => Some(8),
        Type::Rational => Some(16),
        Type::Text => Some(16),
        Type::Relation(_) => Some(8),
        Type::Tuple(h) => small_heading_width(h),
        _ => None,
    }
}

fn small_heading_width(h: &Heading) -> (r: Option<u32>)
    ensures
        r matches Some(w) ==> record_bytes(h@) == Some(w as nat),
        r is None ==> !lays_out(h@),
    decreases h@,
{
    let attrs = h.attrs();
    let mut total: u32 = 0;
    let mut i: usize = 0;
    while i < attrs.len()
        invariant
            i <= attrs.len(),
            attrs_view(attrs@) == h@,
            record_bytes(h@.take(i as int)) == Some(total as nat),
        decreases attrs.len() - i,
    {
        proof {
            lemma_bytes_prefix(h@, i as int + 1);
            let t = h@.take(i as int + 1);
            assert(t.drop_last() =~= h@.take(i as int));
            assert(t[t.len() - 1] == attrs_view(attrs@)[i as int]);
            assert(h@[i as int].1 == attrs@[i as int].1@);
            assert(decreases_to!(h@ => h@[i as int]));
            assert(decreases_to!(h@[i as int] => h@[i as int].1));
        }
        match small_cell_width(&attrs[i].1) {
            Some(w) => match total.checked_add(w) {
                Some(sum) => {
                    total = sum;
                },
                None => {
                    return None;
                },
            },
            None => {
                return None;
            },
        }
        i += 1;
    }
    assert(h@.take(i as int) =~= h@);
    Some(total)
}

/// The kind number of a cell of that type; `None` for a type that has no cell.
pub fn cell_kind(ty: &Type) -> (r: Option<u32>)
    ensures
        kind_of(ty@) == match r {
            Some(n) => Some(n as nat),
            None => None::<nat>,
        },
{
    match ty {
        Type::Integer => Some(kind_tag::INTEGER),
        Type::Boolean => Some(kind_tag::BOOLEAN),
        Type::Character => Some(kind_tag::CHARACTER),
        Type::Approximate => Some(kind_tag::APPROXIMATE),
        Type::Rational => Some(kind_tag::RATIONAL),
        Type::Text => Some(kind_tag::TEXT),
        Type::Tuple(_) => Some(kind_tag::TUPLE),
        Type::Relation(_) => Some(kind_tag::RELATION),
        _ => None,
    }
}

/// A tuple of at least this many bytes is passed as a pointer to a record.
pub const TUPLE_BOX_THRESHOLD: u32 = 64;

/// Whether tuples of the heading are passed as a pointer to a record.
pub open spec fn is_boxed(h: HeadingView) -> bool {
    record_bytes(h) matches Some(n) && n >= TUPLE_BOX_THRESHOLD
}

/// Whether tuples of the heading are passed as a pointer to a record: those of
/// at least [`TUPLE_BOX_THRESHOLD`] bytes. A heading with a type that has no
/// cell never is.
pub fn tuple_is_boxed(heading: &Heading) -> (r: bool)
    requires
        record_fits(heading@),
    ensures
        r == is_boxed(heading@),
{
    match heading_width(heading) {
        Some(w) => w >= TUPLE_BOX_THRESHOLD,
        None => false,
    }
}

/// The layout of a heading's records.
pub fn record_layout(heading: &Heading) -> (r: RecordLayout)
    requires
        record_bytes(heading@) is Some,
        record_fits(heading@),
    ensures
        r@ == layout_of(heading@),
    decreases heading@,
{
    let source = heading.attrs();
    let ghost h = heading@;
    let mut offset: u32 = 0;
    let mut attrs: Vec<AttrLayout> = Vec::new();
    let mut i: usize = 0;
    while i < source.len()
        invariant
            i <= source.len(),
            h == heading@,
            attrs_view(source@) == h,
            record_bytes(h) is Some,
            record_fits(h),
            record_bytes(h.take(i as int)) == Some(offset as nat),
            attrs.len() == i,
            forall|j: int| 0 <= j < i ==> (#[trigger] attrs@[j])@ == layout_of(h).attrs[j],
        decreases source.len() - i,
    {
        let ghost ty = h[i as int].1;
        proof {
            lemma_fits_prefix(h, i as int + 1);
            lemma_bytes_prefix(h, i as int + 1);
            let t = h.take(i as int + 1);
            assert(t.drop_last() =~= h.take(i as int));
            assert(t[t.len() - 1] == attrs_view(source@)[i as int]);
            assert(ty == source@[i as int].1@);
            assert(kind_of(ty) is Some);
            assert(decreases_to!(h => h[i as int]));
            assert(decreases_to!(h[i as int] => h[i as int].1));
            assert(cell_fits(ty));
        }
        let kind: u32 = match cell_kind(&source[i].1) {
            Some(k) => k,
            None => 0,
        };
        let sub = match &source[i].1 {
            Type::Tuple(inner) => Some(record_layout(inner)),
            _ => None,
        };
        let width: u32 = match &sub {
            Some(s) => s.record_size,
            None => match cell_width(&source[i].1) {
                Some(w) => w,
                None => 0,
            },
        };
        let attr = AttrLayout { name: source[i].0.clone(), kind, offset, width, sub };
        assert(attr@ == layout_of(h).attrs[i as int]);
        attrs.push(attr);
        offset += width;
        i += 1;
    }
    assert(h.take(i as int) =~= h);
    let r = RecordLayout { attrs, record_size: offset };
    assert(r@.attrs =~= layout_of(h).attrs);
    r
}

/// Cells follow one another without gap or overlap, from the start of the
/// record to its end, and a tuple's cell is its components' record.
pub proof fn law_cells_tile_record(h: HeadingView, i: int)
    requires
        record_bytes(h) is Some,
        0 <= i < h.len(),
    ensures
        i == 0 ==> layout_of(h).attrs[i].offset == 0,
        i + 1 < h.len() ==> layout_of(h).attrs[i + 1].offset == layout_of(h).attrs[i].offset
            + layout_of(h).attrs[i].width,
        i + 1 == h.len() ==> layout_of(h).record_size == layout_of(h).attrs[i].offset + layout_of(
            h,
        ).attrs[i].width,
        layout_of(h).attrs[i].offset + layout_of(h).attrs[i].width <= layout_of(h).record_size,
        layout_of(h).attrs[i].sub matches Some(sub) ==> sub.record_size == layout_of(
            h,
        ).attrs[i].width,
{
    reveal_with_fuel(layout_of, 2);
    lemma_bytes_prefix(h, i + 1);
    lemma_bytes_prefix(h, i);
    assert(h.take(i + 1).drop_last() =~= h.take(i));
    assert(h.take(i + 1)[i] == h[i]);
    if i + 1 == h.len() {
        assert(h.take(i + 1) =~= h);
    }
}

/// A record is as wide as a tuple cell of the same heading, so a tuple is
/// passed by pointer exactly when its record reaches the threshold.
pub proof fn law_record_size_is_tuple_width(h: HeadingView)
    requires
        record_bytes(h) is Some,
    ensures
        cell_size(TypeView::Tuple(h)) == Some(layout_of(h).record_size),
        is_boxed(h) <==> layout_of(h).record_size >= TUPLE_BOX_THRESHOLD,
{
}

} // verus!
