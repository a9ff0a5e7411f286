//! Headings and the table of a module's headings.

use coddl::ir::{HeadingId, Module};
use coddl::types::{Heading, Type};

fn attr(name: &str, ty: Type) -> (String, Type) {
    (name.to_string(), ty)
}

fn module() -> Module {
    Module {
        program_name: "p".to_string(),
        functions: vec![],
        headings: vec![],
        public_relvars: vec![],
        db_path_default: None,
        db_name: None,
        plans: vec![],
        private_relvar_slots: vec![],
    }
}

#[test]
fn headings_ignore_the_order_of_attributes() {
    let h = Heading::new(vec![
        attr("b", Type::Text),
        attr("a", Type::Integer),
        attr("C", Type::Boolean),
    ]);
    let g = Heading::new(vec![
        attr("C", Type::Boolean),
        attr("b", Type::Text),
        attr("a", Type::Integer),
    ]);
    assert_eq!(h, g);
    assert_eq!(h.names(), vec!["C", "a", "b"]);
    assert_eq!(h.len(), 3);
    assert_eq!(h.lookup("b"), Some(&Type::Text));
    assert_eq!(h.lookup("c"), None);
    assert!(h.contains("a") && !h.contains("A"));
}

#[test]
fn unions_need_one_type_for_shared_attributes() {
    let h = Heading::new(vec![attr("a", Type::Integer), attr("b", Type::Text)]);
    let g = Heading::new(vec![attr("b", Type::Text), attr("c", Type::Boolean)]);
    let other = Heading::new(vec![attr("b", Type::Integer)]);
    assert_eq!(h.union(&g).expect("one type").names(), vec!["a", "b", "c"]);
    assert!(h.union(&other).is_none());
    assert_eq!(h.shared_names(&g), vec!["b"]);
    assert!(Heading::empty().is_empty());
    assert_eq!(h.union(&Heading::empty()), Some(h.clone()));
}

#[test]
fn interning_hands_out_one_number_for_each_heading() {
    let mut m = module();
    let h = Heading::new(vec![attr("a", Type::Integer)]);
    let g = Heading::new(vec![attr("a", Type::Text)]);
    assert_eq!(m.intern_heading(&h), HeadingId(0));
    assert_eq!(m.intern_heading(&g), HeadingId(1));
    assert_eq!(m.intern_heading(&h), HeadingId(0));
    assert_eq!(m.headings, vec![h, g]);
}
