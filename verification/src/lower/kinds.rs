//! Machine types for surface types, and back.

use crate::ast::TypeRef;
use crate::ir::{ProcType, ProcTypeView};
use crate::layout::{is_laid_out, lays_out, record_layout, RecordLayout};
use crate::layout::layout_of;
use crate::text::{same_text, Name};
use crate::types::{Heading, Type, TypeView};
use vstd::prelude::*;

verus! {

/// The machine type of a cell of a surface type; `None` for a type that has
/// none of its own.
pub open spec fn proc_of_type(t: TypeView) -> Option<ProcTypeView>
    decreases t,
{
    match t {
        TypeView::Integer => Some(ProcTypeView::Integer),
        TypeView::Rational => Some(ProcTypeView::Rational),
        TypeView::Approximate => Some(ProcTypeView::Approximate),
        TypeView::Text => Some(ProcTypeView::Text),
        TypeView::Character => Some(ProcTypeView::Character),
        TypeView::Binary => Some(ProcTypeView::Binary),
        TypeView::Byte => Some(ProcTypeView::Byte),
        TypeView::Boolean => Some(ProcTypeView::Boolean),
        TypeView::Tuple(h) => Some(ProcTypeView::Tuple(h)),
        TypeView::Relation(_) => None,
        TypeView::FormatText => None,
        TypeView::Sequence(elem) => match proc_of_type(*elem) {
            Some(p) => Some(ProcTypeView::Sequence(Box::new(p))),
            None => None,
        },
        TypeView::Unknown => None,
    }
}

/// The surface type that a machine type stands for; `None` for a pointer and
/// for a relation, whose heading the number alone does not tell.
pub open spec fn type_of_proc(p: ProcTypeView) -> Option<TypeView>
    decreases p,
{
    match p {
        ProcTypeView::Integer => Some(TypeView::Integer),
        ProcTypeView::Rational => Some(TypeView::Rational),
        ProcTypeView::Approximate => Some(TypeView::Approximate),
        ProcTypeView::Text => Some(TypeView::Text),
        ProcTypeView::Character => Some(TypeView::Character),
        ProcTypeView::Binary => Some(TypeView::Binary),
        ProcTypeView::Byte => Some(TypeView::Byte),
        ProcTypeView::Boolean => Some(TypeView::Boolean),
        ProcTypeView::Unit => Some(TypeView::Tuple(Seq::empty())),
        ProcTypeView::Pointer => None,
        ProcTypeView::Tuple(h) => Some(TypeView::Tuple(h)),
        ProcTypeView::Relation(_) => None,
        ProcTypeView::Sequence(elem) => match type_of_proc(*elem) {
            Some(t) => Some(TypeView::Sequence(Box::new(t))),
            None => None,
        },
    }
}

/// The machine type that a helper function loads a record's cell as; `None`
/// for a cell that helper functions do not load.
pub open spec fn loaded_type(t: TypeView) -> Option<ProcTypeView> {
    match t {
        TypeView::Integer => Some(ProcTypeView::Integer),
        TypeView::Boolean => Some(ProcTypeView::Boolean),
        TypeView::Text => Some(ProcTypeView::Text),
        _ => None,
    }
}

/// The machine type that a built-in type name names.
pub open spec fn named_type(name: Name) -> Option<ProcTypeView> {
    if name == "Integer"@ {
        Some(ProcTypeView::Integer)
    } else if name == "Rational"@ {
        Some(ProcTypeView::Rational)
    } else if name == "Approximate"@ {
        Some(ProcTypeView::Approximate)
    } else if name == "Text"@ {
        Some(ProcTypeView::Text)
    } else if name == "Character"@ {
        Some(ProcTypeView::Character)
    } else if name == "Binary"@ {
        Some(ProcTypeView::Binary)
    } else if name == "Byte"@ {
        Some(ProcTypeView::Byte)
    } else if name == "Boolean"@ {
        Some(ProcTypeView::Boolean)
    } else {
        None
    }
}

/// The machine type that a written type names: `Sequence` with its element, or
/// a built-in name; one without a name is `Unit`.
pub open spec fn written_type(t: TypeRef) -> Option<ProcTypeView>
    decreases t,
{
    match t.name {
        None => Some(ProcTypeView::Unit),
        Some(name) => if name@ == "Sequence"@ {
            match t.element {
                None => Some(ProcTypeView::Sequence(Box::new(ProcTypeView::Unit))),
                Some(elem) => match written_type(*elem) {
                    Some(p) => Some(ProcTypeView::Sequence(Box::new(p))),
                    None => None,
                },
            }
        } else {
            named_type(name@)
        },
    }
}

/// What an optional machine type stands for.
pub open spec fn maybe_proc(p: Option<ProcType>) -> Option<ProcTypeView> {
    match p {
        Some(p) => Some(p@),
        None => None,
    }
}

/// What an optional surface type stands for.
pub open spec fn maybe_type(t: Option<Type>) -> Option<TypeView> {
    match t {
        Some(t) => Some(t@),
        None => None,
    }
}

/// The machine type of a cell of a surface type.
pub fn proc_type_from_type(t: &Type) -> (r: Option<ProcType>)
    ensures
        maybe_proc(r) == proc_of_type(t@),
    decreases t,
{
    match t {
        Type::Integer => Some(ProcType::Integer),
        Type::Rational => Some(ProcType::Rational),
        Type::Approximate => Some(ProcType::Approximate),
        Type::Text => Some(ProcType::Text),
        Type::Character => Some(ProcType::Character),
        Type::Binary => Some(ProcType::Binary),
        Type::Byte => Some(ProcType::Byte),
        Type::Boolean => Some(ProcType::Boolean),
        Type::Tuple(h) => Some(ProcType::Tuple(h.clone())),
        Type::Relation(_) => None,
        Type::FormatText => None,
        Type::Sequence(elem) => match proc_type_from_type(elem) {
            Some(p) => Some(ProcType::Sequence(Box::new(p))),
            None => None,
        },
        Type::Unknown => None,
    }
}

/// The surface type that a machine type stands for.
pub fn type_from_proc(p: &ProcType) -> (r: Option<Type>)
    ensures
        maybe_type(r) == type_of_proc(p@),
    decreases p,
{
    match p {
        ProcType::Integer => Some(Type::Integer),
        ProcType::Rational => Some(Type::Rational),
        ProcType::Approximate => Some(Type::Approximate),
        ProcType::Text => Some(Type::Text),
        ProcType::Character => Some(Type::Character),
        ProcType::Binary => Some(Type::Binary),
        ProcType::Byte => Some(Type::Byte),
        ProcType::Boolean => Some(Type::Boolean),
        ProcType::Unit => Some(Type::unit()),
        ProcType::Pointer => None,
        ProcType::Tuple(h) => Some(Type::Tuple(h.clone())),
        ProcType::Relation(_) => None,
        ProcType::Sequence(elem) => match type_from_proc(elem) {
            Some(t) => Some(Type::Sequence(Box::new(t))),
            None => None,
        },
    }
}

/// The machine type that a helper function loads a record's cell as.
pub fn proc_type_from_cell(t: &Type) -> (r: Option<ProcType>)
    ensures
        maybe_proc(r) == loaded_type(t@),
{
    match t {
        Type::Integer => Some(ProcType::Integer),
        Type::Boolean => Some(ProcType::Boolean),
        Type::Text => Some(ProcType::Text),
        _ => None,
    }
}

/// The machine type that a built-in type name names.
pub fn proc_type_from_builtin_name(name: &str) -> (r: Option<ProcType>)
    ensures
        maybe_proc(r) == named_type(name@),
{
    if same_text(name, "Integer") {
        Some(ProcType::Integer)
    } else if same_text(name, "Rational") {
        Some(ProcType::Rational)
    } else if same_text(name, "Approximate") {
        Some(ProcType::Approximate)
    } else if same_text(name, "Text") {
        Some(ProcType::Text)
    } else if same_text(name, "Character") {
        Some(ProcType::Character)
    } else if same_text(name, "Binary") {
        Some(ProcType::Binary)
    } else if same_text(name, "Byte") {
        Some(ProcType::Byte)
    } else if same_text(name, "Boolean") {
        Some(ProcType::Boolean)
    } else {
        None
    }
}

/// The machine type that a written type names.
pub fn proc_type_from_type_ref(t: &TypeRef) -> (r: Option<ProcType>)
    ensures
        maybe_proc(r) == written_type(*t),
    decreases t,
{
    proof {
        reveal_with_fuel(ProcType::view, 2);
    }
    match &t.name {
        None => Some(ProcType::Unit),
        Some(name) => {
            if same_text(name.as_str(), "Sequence") {
                match &t.element {
                    None => Some(ProcType::Sequence(Box::new(ProcType::Unit))),
                    Some(elem) => match proc_type_from_type_ref(elem) {
                        Some(p) => Some(ProcType::Sequence(Box::new(p))),
                        None => None,
                    },
                }
            } else {
                proc_type_from_builtin_name(name.as_str())
            }
        },
    }
}

/// Whether the two machine types are the same.
pub fn same_proc_type(a: &ProcType, b: &ProcType) -> (r: bool)
    ensures
        r == (a@ == b@),
    decreases a,
{
    match (a, b) {
        (ProcType::Integer, ProcType::Integer) => true,
        (ProcType::Rational, ProcType::Rational) => true,
        (ProcType::Approximate, ProcType::Approximate) => true,
        (ProcType::Text, ProcType::Text) => true,
        (ProcType::Character, ProcType::Character) => true,
        (ProcType::Binary, ProcType::Binary) => true,
        (ProcType::Byte, ProcType::Byte) => true,
        (ProcType::Boolean, ProcType::Boolean) => true,
        (ProcType::Unit, ProcType::Unit) => true,
        (ProcType::Pointer, ProcType::Pointer) => true,
        (ProcType::Tuple(x), ProcType::Tuple(y)) => x.same(y),
        (ProcType::Relation(x), ProcType::Relation(y)) => *x == *y,
        (ProcType::Sequence(x), ProcType::Sequence(y)) => same_proc_type(x, y),
        _ => false,
    }
}

/// The layout of a heading's records, when every cell has one and the record's
/// bytes fit 32 bits.
pub fn checked_layout(h: &Heading) -> (r: Option<RecordLayout>)
    ensures
        r is Some <==> lays_out(h@),
        r matches Some(l) ==> l@ == layout_of(h@),
{
    if is_laid_out(h) {
        Some(record_layout(h))
    } else {
        None
    }
}

/// A machine type comes back from the surface type that it stands for.
pub proof fn law_proc_type_round_trip(t: TypeView)
    requires
        proc_of_type(t) is Some,
    ensures
        type_of_proc(proc_of_type(t)->0) == Some(t),
    decreases t,
{
    if let TypeView::Sequence(elem) = t {
        law_proc_type_round_trip(*elem);
    }
}

/// What a helper function loads a cell as is the cell's machine type.
pub proof fn law_loaded_type_is_machine_type(t: TypeView)
    requires
        loaded_type(t) is Some,
    ensures
        proc_of_type(t) == loaded_type(t),
{
}

} // verus!
