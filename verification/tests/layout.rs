//! How tuples are laid out.

use coddl::layout::{
    cell_kind, cell_width, is_laid_out, kind_tag, record_layout, tuple_is_boxed,
    TUPLE_BOX_THRESHOLD,
};
use coddl::types::{Heading, Type};

fn heading(pairs: &[(&str, Type)]) -> Heading {
    Heading::new(
        pairs
            .iter()
            .map(|(n, t)| (n.to_string(), t.clone()))
            .collect(),
    )
}

#[test]
fn single_integer_attr_is_eight_bytes() {
    let h = heading(&[("a", Type::Integer)]);
    let l = record_layout(&h);
    assert_eq!(l.record_size, 8);
    assert_eq!(l.attrs.len(), 1);
    assert_eq!(l.attrs[0].name, "a");
    assert_eq!(l.attrs[0].offset, 0);
    assert_eq!(l.attrs[0].width, 8);
    assert_eq!(l.attrs[0].kind, kind_tag::INTEGER);
}

#[test]
fn single_character_attr_is_eight_byte_codepoint_cell() {
    let h = heading(&[("c", Type::Character)]);
    let l = record_layout(&h);
    assert_eq!(l.record_size, 8);
    assert_eq!(l.attrs[0].name, "c");
    assert_eq!(l.attrs[0].offset, 0);
    assert_eq!(l.attrs[0].width, 8);
    assert_eq!(l.attrs[0].kind, kind_tag::CHARACTER);
}

#[test]
fn single_approximate_attr_is_eight_byte_double_cell() {
    let h = heading(&[("x", Type::Approximate)]);
    let l = record_layout(&h);
    assert_eq!(l.record_size, 8);
    assert_eq!(l.attrs[0].name, "x");
    assert_eq!(l.attrs[0].offset, 0);
    assert_eq!(l.attrs[0].width, 8);
    assert_eq!(l.attrs[0].kind, kind_tag::APPROXIMATE);
}

#[test]
fn single_rational_attr_is_sixteen_byte_cell() {
    let h = heading(&[("r", Type::Rational)]);
    let l = record_layout(&h);
    assert_eq!(l.record_size, 16);
    assert_eq!(l.attrs[0].name, "r");
    assert_eq!(l.attrs[0].offset, 0);
    assert_eq!(l.attrs[0].width, 16);
    assert_eq!(l.attrs[0].kind, kind_tag::RATIONAL);
}

#[test]
fn integer_and_text_layout_canonical() {
    // Heading source order is reversed; canonical layout sorts
    // by name, so `a` (Integer) comes before `z` (Text).
    let h = heading(&[("z", Type::Text), ("a", Type::Integer)]);
    let l = record_layout(&h);
    assert_eq!(l.record_size, 24);
    let names: Vec<&str> = l.attrs.iter().map(|a| a.name.as_str()).collect();
    assert_eq!(names, vec!["a", "z"]);
    assert_eq!(l.attrs[0].offset, 0);
    assert_eq!(l.attrs[0].width, 8);
    assert_eq!(l.attrs[1].offset, 8);
    assert_eq!(l.attrs[1].width, 16);
}

#[test]
fn tuple_attr_lays_out_as_inline_sub_region() {
    // {id: Integer, pt: Tuple {x: Integer, y: Text}} — `id` (8) then `pt`
    // (a 24-byte sub-region: x at sub-offset 0, y at sub-offset 8). The
    // sub-layout's offsets are 0-based within the region.
    let pt = Type::Tuple(heading(&[("x", Type::Integer), ("y", Type::Text)]));
    let h = heading(&[("id", Type::Integer), ("pt", pt)]);
    let l = record_layout(&h);
    assert_eq!(l.record_size, 8 + 24);
    let names: Vec<&str> = l.attrs.iter().map(|a| a.name.as_str()).collect();
    assert_eq!(names, vec!["id", "pt"]);
    assert_eq!(l.attrs[0].offset, 0);
    let pt_attr = &l.attrs[1];
    assert_eq!(pt_attr.kind, kind_tag::TUPLE);
    assert_eq!(pt_attr.offset, 8);
    assert_eq!(pt_attr.width, 24);
    let sub = pt_attr.sub.as_ref().expect("tuple attr has a sub-layout");
    assert_eq!(sub.record_size, 24);
    assert_eq!(sub.attrs[0].name, "x");
    assert_eq!(sub.attrs[0].offset, 0);
    assert_eq!(sub.attrs[0].kind, kind_tag::INTEGER);
    assert_eq!(sub.attrs[1].name, "y");
    assert_eq!(sub.attrs[1].offset, 8);
    assert_eq!(sub.attrs[1].kind, kind_tag::TEXT);
}

#[test]
fn empty_tuple_attr_is_zero_width() {
    let h = heading(&[("u", Type::Tuple(Heading::empty()))]);
    let l = record_layout(&h);
    assert_eq!(l.record_size, 0);
    assert_eq!(l.attrs[0].kind, kind_tag::TUPLE);
    assert_eq!(l.attrs[0].width, 0);
    assert_eq!(l.attrs[0].sub.as_ref().unwrap().record_size, 0);
}

#[test]
fn cells_lie_one_behind_the_other() {
    let h = heading(&[
        ("a", Type::Boolean),
        ("b", Type::Text),
        ("c", Type::Tuple(heading(&[("x", Type::Rational), ("y", Type::Integer)]))),
        ("d", Type::Relation(heading(&[("n", Type::Integer)]))),
    ]);
    let l = record_layout(&h);
    let mut end = 0;
    for a in &l.attrs {
        assert_eq!(a.offset, end);
        end += a.width;
        assert_eq!(Some(a.width), cell_width(h.lookup(&a.name).unwrap()));
        assert_eq!(Some(a.kind), cell_kind(h.lookup(&a.name).unwrap()));
    }
    assert_eq!(l.record_size, end);
    assert_eq!(cell_width(&Type::Tuple(h)), Some(end));
}

#[test]
fn types_without_cells() {
    assert_eq!(cell_width(&Type::Binary), None);
    assert_eq!(cell_kind(&Type::Binary), None);
    assert_eq!(cell_width(&Type::Byte), None);
    let binary = heading(&[("a", Type::Integer), ("b", Type::Binary)]);
    assert_eq!(cell_width(&Type::Tuple(binary.clone())), None);
    assert!(!is_laid_out(&binary));
    assert!(!tuple_is_boxed(&binary));
}

#[test]
fn large_tuples_are_boxed() {
    let names: Vec<String> = (0..64).map(|i| format!("a{i}")).collect();
    let wide = |n: usize| {
        Heading::new(names[..n].iter().map(|s| (s.clone(), Type::Integer)).collect())
    };
    let least = (TUPLE_BOX_THRESHOLD as usize).div_ceil(8);
    assert!(tuple_is_boxed(&wide(least)));
    assert!(!tuple_is_boxed(&wide(least - 1)));
    assert!(!tuple_is_boxed(&Heading::empty()));
}
