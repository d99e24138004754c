use isa::instruction::{Instruction, Mode};
use isa::parser::parse_instruction;

#[test]
fn parse_const() {
    let li = parse_instruction("a = 7").unwrap();
    assert!(li.label.is_none());
    match li.instruction {
        Instruction::Const { r, value } => {
            assert_eq!(r, "a");
            assert_eq!(value, 7);
        },
        _ => panic!("expected a constant"),
    }
}

#[test]
fn parse_negative_const() {
    let li = parse_instruction("a = -2147483648").unwrap();
    match li.instruction {
        Instruction::Const { r, value } => {
            assert_eq!(r, "a");
            assert_eq!(value, i32::MIN);
        },
        _ => panic!("expected a constant"),
    }
}

#[test]
fn parse_arith() {
    let li = parse_instruction("r1 = r2 - r3").unwrap();
    match li.instruction {
        Instruction::ArithMinus { r1, r2, r3 } => {
            assert_eq!(r1, "r1");
            assert_eq!(r2, "r2");
            assert_eq!(r3, "r3");
        },
        _ => panic!("expected a subtraction"),
    }
}

#[test]
fn parse_labeled_instruction() {
    let li = parse_instruction("L: i = i - one").unwrap();
    assert_eq!(li.label, Some("L".to_string()));
    match li.instruction {
        Instruction::ArithMinus { r1, r2, r3 } => {
            assert_eq!(r1, "i");
            assert_eq!(r2, "i");
            assert_eq!(r3, "one");
        },
        _ => panic!("expected a subtraction"),
    }
}

#[test]
fn parse_load_store() {
    let li = parse_instruction("load SEQ_CST x b").unwrap();
    match li.instruction {
        Instruction::Load { mode, address, r } => {
            assert!(matches!(mode, Mode::SeqCst));
            assert_eq!(address, "x");
            assert_eq!(r, "b");
        },
        _ => panic!("expected a load"),
    }
    let li2 = parse_instruction("store RLX x a").unwrap();
    match li2.instruction {
        Instruction::Store { mode, address, r } => {
            assert!(matches!(mode, Mode::Rlx));
            assert_eq!(address, "x");
            assert_eq!(r, "a");
        },
        _ => panic!("expected a store"),
    }
}

#[test]
fn parse_cas_fai_fence_cond() {
    let li = parse_instruction("to := cas REL_ACQ x e d").unwrap();
    match li.instruction {
        Instruction::Cas { mode, address, to, exp, des } => {
            assert!(matches!(mode, Mode::RelAcq));
            assert_eq!(address, "x");
            assert_eq!(to, "to");
            assert_eq!(exp, "e");
            assert_eq!(des, "d");
        },
        _ => panic!("expected a compare-and-swap"),
    }
    let li2 = parse_instruction("t := fai ACQ x i").unwrap();
    match li2.instruction {
        Instruction::Fai { mode, address, to, inc } => {
            assert!(matches!(mode, Mode::Acq));
            assert_eq!(address, "x");
            assert_eq!(to, "t");
            assert_eq!(inc, "i");
        },
        _ => panic!("expected a fetch-and-add"),
    }
    let li3 = parse_instruction("fence REL").unwrap();
    assert!(matches!(li3.instruction, Instruction::Fence { mode: Mode::Rel }));
    let li4 = parse_instruction("if i goto L").unwrap();
    match li4.instruction {
        Instruction::Cond { r, label } => {
            assert_eq!(r, "i");
            assert_eq!(label, "L");
        },
        _ => panic!("expected a conditional jump"),
    }
}

#[test]
fn parse_rejects_bad_mode() {
    let e = parse_instruction("load WEAK x b").unwrap_err();
    assert_eq!(e, "Invalid mode");
    let e2 = parse_instruction("fence NONE").unwrap_err();
    assert_eq!(e2, "Invalid mode");
}

#[test]
fn parse_rejects_bad_constant() {
    let e = parse_instruction("a = banana").unwrap_err();
    assert_eq!(e, "Invalid constant");
    let e2 = parse_instruction("a = 99999999999").unwrap_err();
    assert_eq!(e2, "Invalid constant");
    let e3 = parse_instruction("a = 2147483648").unwrap_err();
    assert_eq!(e3, "Invalid constant");
}

#[test]
fn parse_rejects_unknown_shape() {
    let e = parse_instruction("this is not an instruction").unwrap_err();
    assert_eq!(e, "Unknown instruction format");
    let e2 = parse_instruction("   ").unwrap_err();
    assert_eq!(e2, "Unknown instruction format");
}
