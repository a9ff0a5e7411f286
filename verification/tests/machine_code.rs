//! Machine code as text.

use coddl::ir::{
    BasicBlock, BlockId, Const, Function, HeadingId, Inst, Module, ProcType, Terminator, ValueId,
};
use coddl::types::Heading;

fn extern_write_line() -> Function {
    Function {
        name: "write_line".to_string(),
        linkage_name: "coddl_write_line".to_string(),
        params: vec![("message".to_string(), ProcType::Text)],
        return_type: ProcType::Unit,
        blocks: Vec::new(),
    }
}

fn defined_main() -> Function {
    Function {
        name: "main".to_string(),
        linkage_name: "main".to_string(),
        params: Vec::new(),
        return_type: ProcType::Unit,
        blocks: vec![BasicBlock {
            id: BlockId(0),
            params: Vec::new(),
            insts: vec![
                Inst::Const {
                    dst: ValueId(0),
                    value: Const::Text(b"Hello, world!".to_vec()),
                    ty: ProcType::Text,
                },
                Inst::Call {
                    dst: None,
                    callee: "coddl_write_line".to_string(),
                    args: vec![ValueId(0)],
                    return_type: ProcType::Unit,
                },
            ],
            terminator: Terminator::Return(None),
        }],
    }
}

#[test]
fn module_display_round_trips_simple_extern() {
    let m = Module {
        program_name: "hello_world".to_string(),
        functions: vec![extern_write_line()],
        headings: Vec::new(),
        public_relvars: Vec::new(),
        db_path_default: None,
        db_name: None,
        plans: Vec::new(),
        private_relvar_slots: Vec::new(),
    };
    let text = m.to_string();
    assert!(text.starts_with("module hello_world {"));
    assert!(text.contains("extern fn coddl_write_line(message: Text) -> Unit"));
    assert!(text.ends_with("}"));
}

#[test]
fn module_display_includes_basic_block_label() {
    let m = Module {
        program_name: "hello_world".to_string(),
        functions: vec![extern_write_line(), defined_main()],
        headings: Vec::new(),
        public_relvars: Vec::new(),
        db_path_default: None,
        db_name: None,
        plans: Vec::new(),
        private_relvar_slots: Vec::new(),
    };
    let text = m.to_string();
    assert!(text.contains("block_0:"), "no block label in:\n{text}");
    assert!(text.contains("%0 = const Text \"Hello, world!\""));
    assert!(text.contains("call coddl_write_line(%0)"));
    assert!(text.contains("return"));
}

#[test]
fn value_id_renders_with_percent_prefix() {
    assert_eq!(ValueId(0).to_string(), "%0");
    assert_eq!(ValueId(42).to_string(), "%42");
}

#[test]
fn proctype_display_covers_all_variants() {
    // Match force: if a variant is added without a Display arm,
    // this match becomes non-exhaustive and the test stops
    // compiling.
    for ty in [
        ProcType::Integer,
        ProcType::Rational,
        ProcType::Approximate,
        ProcType::Text,
        ProcType::Character,
        ProcType::Binary,
        ProcType::Byte,
        ProcType::Boolean,
        ProcType::Unit,
        ProcType::Pointer,
        ProcType::Tuple(Heading::empty()),
        ProcType::Relation(HeadingId(0)),
    ] {
        let s = ty.to_string();
        assert!(!s.is_empty());
        assert!(s.chars().next().unwrap().is_ascii_uppercase());
    }
}

#[test]
fn inst_display_call_with_args() {
    let inst = Inst::Call {
        dst: Some(ValueId(2)),
        callee: "do_thing".to_string(),
        args: vec![ValueId(0), ValueId(1)],
        return_type: ProcType::Integer,
    };
    assert_eq!(inst.to_string(), "%2 = call do_thing(%0, %1)");

    let void_call = Inst::Call {
        dst: None,
        callee: "noop".to_string(),
        args: Vec::new(),
        return_type: ProcType::Unit,
    };
    assert_eq!(void_call.to_string(), "call noop()");
}

#[test]
fn text_constants_are_printable_and_told_apart() {
    let all: Vec<Vec<u8>> = (0..=255u8)
        .map(|b| vec![b])
        .chain([vec![], b"\\x00".to_vec(), b"\\n".to_vec(), b"\n".to_vec(), vec![0, b'0']])
        .collect();
    let mut texts: Vec<String> = vec![];
    let mut kept: Vec<Vec<u8>> = vec![];
    for bytes in all {
        if kept.contains(&bytes) {
            continue;
        }
        let text = Const::Text(bytes.clone()).to_string();
        assert!(text.bytes().all(|b| (0x20..=0x7e).contains(&b)), "{text}");
        assert!(text.starts_with('"') && text.ends_with('"') && text.len() >= 2);
        assert!(!texts.contains(&text), "{text}");
        texts.push(text);
        kept.push(bytes);
    }
    assert_eq!(Const::Text(vec![0, b'"', 0xff]).to_string(), "\"\\x00\\\"\\xff\"");
}
