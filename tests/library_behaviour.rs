use simple_vm::operating_system::debugger::{
    debug_step, parse_debug_cmd, DebugAction, DebugCmd, DebugState,
};
use simple_vm::cpu::instructions::{FlowOp, Instruction, Register};
use simple_vm::cpu::RuntimeError;
use simple_vm::operating_system::assembler::{assemble, AsmError, DATA_INIT_ADDRESS};
use simple_vm::operating_system::compiler::ast::{
    BinaryOp, BinaryopType, Constant, Expression, Type, ID,
};
use simple_vm::operating_system::compiler::{CompileError, Compiler, Tables};
use simple_vm::operating_system::{VmError, OS};

#[test]
fn text_round_trip_keeps_instruction() {
    for line in ["ADD R1 R2 -5", "MOV SP 9996", "TJMP -3", "LOAD R4 R1", "NEG ZR", "RET"] {
        let instr = Instruction::from_str(line).unwrap();
        assert_eq!(instr.to_str(), line);
        assert_eq!(Instruction::from_str(&instr.to_str()).unwrap(), instr);
    }
}

#[test]
fn text_parse_normalises_whitespace() {
    let instr = Instruction::from_str("  SUB   R1\tR2  +7 ").unwrap();
    assert_eq!(instr.to_str(), "SUB R1 R2 7");
}

#[test]
fn text_parse_rejects_bad_lines() {
    assert!(Instruction::from_str("FOO R1").is_err());
    assert!(Instruction::from_str("ADD R1 R2").is_err());
    assert!(Instruction::from_str("MOV R9 1").is_err());
    assert!(Instruction::from_str("MOV R1 2147483648").is_err());
    assert!(Instruction::from_str("").is_err());
}

#[test]
fn data_linking_places_string_and_lea_address() {
    let program = "
    .stringz s1 hello
    LEA R1 s1
    HALT
    ";
    let exec = assemble(program).unwrap();
    assert_eq!(exec.data[0], 'h' as i32);
    assert_eq!(exec.data[5], 0);
    let mut os = OS::new();
    os.assemble_and_run(program).unwrap();
    assert_eq!(os.cpu.regs.get(&Register::R1), DATA_INIT_ADDRESS as i32);
    assert_eq!(os.cpu.mem.get_num(DATA_INIT_ADDRESS), 'h' as i32);
    assert_eq!(os.cpu.mem.get_num(DATA_INIT_ADDRESS + 5), 0);
}

#[test]
fn jump_lands_after_label() {
    let program = "
    L1:
    MUL R1 R2 5
    JUMP L2
    L3:
    ADD R1 R1 1
    HALT
    L2:
    SUB R2 R2 R1
    TJMP L3
    ";
    let exec = assemble(program).unwrap();
    assert_eq!(exec.code[1], Instruction::Flow { op: FlowOp::JUMP, offset: 3 });
    assert_eq!(*exec.symbol_table.get("L2").unwrap(), 4);
    assert!(exec.symbol_table.get("L9").is_none());
}

#[test]
fn assembler_reports_each_error_with_its_line() {
    assert_eq!(assemble("JUMP NOWHERE").err(), Some(AsmError::UnresolvedLabel { line: 0 }));
    assert_eq!(assemble("A:\nA:\nHALT").err(), Some(AsmError::DuplicateSymbol { line: 1 }));
    assert_eq!(assemble(".word x 1").err(), Some(AsmError::InvalidData { line: 0 }));
    assert_eq!(assemble("HALT\nFOO R1").err(), Some(AsmError::Parse { line: 1 }));
    assert_eq!(assemble("LEA R1 nothing").err(), Some(AsmError::UnresolvedData { line: 0 }));
    assert_eq!(
        assemble(".stringz a x\n.stringz a y").err(),
        Some(AsmError::DuplicateData { line: 1 })
    );
}

#[test]
fn runtime_errors_are_returned() {
    let mut os = OS::new();
    let res = os.assemble_and_run("MOV R1 1\nMOV R2 0\nDIV R1 R1 R2\nHALT");
    assert_eq!(res, Err(VmError::Runtime(RuntimeError::DivideByZero)));
    let mut os = OS::new();
    let res = os.assemble_and_run("LOAD R1 7000\nHALT");
    assert_eq!(res, Err(VmError::Runtime(RuntimeError::InvalidAddress(7000))));
    let mut os = OS::new();
    let res = os.assemble_and_run("MOV R1 1000\nLOAD R2 R1\nHALT");
    assert_eq!(res, Err(VmError::Runtime(RuntimeError::NotNumeric(1000))));
    let mut os = OS::new();
    let res = os.assemble_and_run("MOV R1 8000\nSTR R1 5\nJUMP X\nX:\nMOV IR 7999\nHALT");
    assert_eq!(res, Err(VmError::Runtime(RuntimeError::NotInstruction(8000))));
}

#[test]
fn wrapping_arithmetic_and_shift_masking() {
    let mut os = OS::new();
    os.assemble_and_run("MOV R1 2147483647\nADD R1 R1 1\nMOV R2 1\nSHL R2 R2 33\nHALT")
        .unwrap();
    assert_eq!(os.cpu.regs.get(&Register::R1), i32::MIN);
    assert_eq!(os.cpu.regs.get(&Register::R2), 2);
    let mut os = OS::new();
    os.assemble_and_run("MOV R1 -2147483648\nDIV R1 R1 -1\nMOV R2 -7\nMOD R2 R2 2\nHALT")
        .unwrap();
    assert_eq!(os.cpu.regs.get(&Register::R1), i32::MIN);
    assert_eq!(os.cpu.regs.get(&Register::R2), -1);
}

#[test]
fn character_output_and_input() {
    let mut os = OS::new();
    os.assemble_and_run("MOV R1 201\nSTR R1 72\nMOV R1 200\nSTR R1 1\nHALT").unwrap();
    assert_eq!(os.out_chars, vec!['H']);
    let mut os = OS::new();
    os.inp_chars = vec!['x'];
    os.assemble_and_run("MOV R1 202\nSTR R1 1\nMOV R2 203\nLOAD R3 R2\nHALT").unwrap();
    assert_eq!(os.cpu.regs.get(&Register::R3), 'x' as i32);
    assert!(os.inp_chars.is_empty());
    let mut os = OS::new();
    let res = os.assemble_and_run("MOV R1 202\nSTR R1 1\nHALT");
    assert_eq!(res, Err(VmError::InputExhausted));
}

#[test]
fn endless_program_stops_at_step_limit() {
    let mut os = OS::new();
    let res = os.assemble_and_run("L:\nJUMP L");
    assert_eq!(res, Err(VmError::StepLimit));
}

#[test]
fn linked_units_resolve_each_others_labels() {
    let mut os = OS::new();
    let res = os.assemble_link_and_run(vec![
        "CALL SET\nHALT",
        "SET:\nADD R1 BP 2\nSTR R1 5\nMOV R4 9\nRET",
    ]);
    assert_eq!(res, Ok(-1));
    assert_eq!(os.cpu.regs.get(&Register::R4), 9);
    let mut os = OS::new();
    let res = os.assemble_link_and_run(vec!["A:\nHALT", "A:\nHALT"]);
    assert_eq!(res, Err(VmError::Assemble(AsmError::DuplicateSymbol { line: 2 })));
}

fn empty_compiler() -> Compiler {
    Compiler {
        tables: Tables { scopes: Vec::new(), funcs: Vec::new(), structs: Vec::new() },
        declared: Vec::new(),
        loop_labels: Vec::new(),
        tmp_label_count: 0,
    }
}

fn constant(text: &str) -> Expression {
    Expression::Constant(Constant { _type: Type::Int, val: text.to_string() })
}

#[test]
fn compiles_constants_and_arithmetic() {
    let mut compiler = empty_compiler();
    let mut code = Vec::new();
    compiler.right_gen(&constant("2"), &"main".to_string(), &mut code).unwrap();
    assert_eq!(code, vec!["MOV R1 2".to_string()]);
    let mut code = Vec::new();
    compiler.right_gen(&constant("'a'"), &"main".to_string(), &mut code).unwrap();
    assert_eq!(code, vec!["MOV R1 97".to_string()]);
    let sum = Expression::BinaryOp(BinaryOp {
        op_type: BinaryopType::ADD,
        left: Box::new(constant("1")),
        right: Box::new(constant("2")),
    });
    let mut code = Vec::new();
    compiler.right_gen(&sum, &"main".to_string(), &mut code).unwrap();
    assert_eq!(code, vec!["MOV R1 1", "PUSH R1", "MOV R1 2", "POP R2", "ADD R1 R2 R1"]);
    let mut os = OS::new();
    let program = format!("{}\nHALT", code.join("\n"));
    os.assemble_and_run(&program).unwrap();
    assert_eq!(os.cpu.regs.get(&Register::R1), 3);
}

#[test]
fn compiled_comparison_runs_to_truth_value() {
    let mut compiler = empty_compiler();
    let lt = Expression::BinaryOp(BinaryOp {
        op_type: BinaryopType::LTEQ,
        left: Box::new(constant("3")),
        right: Box::new(constant("3")),
    });
    let mut code = Vec::new();
    compiler.right_gen(&lt, &"main".to_string(), &mut code).unwrap();
    let mut os = OS::new();
    os.assemble_and_run(&format!("{}\nHALT", code.join("\n"))).unwrap();
    assert_eq!(os.cpu.regs.get(&Register::R1), 1);
}

#[test]
fn compiler_reports_unknown_names() {
    let mut compiler = empty_compiler();
    let mut code = Vec::new();
    let id = Expression::ID(ID { name: "x".to_string() });
    assert_eq!(
        compiler.right_gen(&id, &"main".to_string(), &mut code),
        Err(CompileError::UnknownVariable)
    );
    assert_eq!(
        compiler.right_gen(&constant("two"), &"main".to_string(), &mut code),
        Err(CompileError::BadConstant)
    );
}

#[test]
fn debugger_commands() {
    assert_eq!(parse_debug_cmd("continue"), Some(DebugCmd::Continue));
    assert_eq!(parse_debug_cmd(" step "), Some(DebugCmd::Step));
    assert_eq!(parse_debug_cmd("reg R2"), Some(DebugCmd::Reg(Register::R2)));
    assert_eq!(parse_debug_cmd("break 3"), Some(DebugCmd::Break(3)));
    assert_eq!(parse_debug_cmd("break x"), None);
    assert_eq!(parse_debug_cmd("jump"), None);
    let exe = assemble("MOV R1 1\n\nMOV R2 2\nHALT").unwrap();
    let mut os = OS::new();
    os.boot_image(&exe.code, &exe.data).unwrap();
    let mut st = DebugState::new();
    assert_eq!(debug_step(&mut st, &os.cpu.regs, &exe, DebugCmd::Break(2)), DebugAction::Added(1));
    assert_eq!(debug_step(&mut st, &os.cpu.regs, &exe, DebugCmd::Break(9)), DebugAction::BadLine);
    assert_eq!(debug_step(&mut st, &os.cpu.regs, &exe, DebugCmd::Continue), DebugAction::Resume);
    assert!(st.running);
    st.check_breakpoint(os.cpu.regs.get(&Register::IR));
    assert!(st.running);
    assert!(os.step_once().unwrap());
    st.check_breakpoint(os.cpu.regs.get(&Register::IR));
    assert!(!st.running);
    assert_eq!(debug_step(&mut st, &os.cpu.regs, &exe, DebugCmd::Reg(Register::R1)), DebugAction::Print(1));
    assert_eq!(debug_step(&mut st, &os.cpu.regs, &exe, DebugCmd::Step), DebugAction::StepOnce);
}

fn fibonacci_program(n: i32) -> String {
    format!(
        "
    JUMP MAIN
    MAIN:
    MOV R3 {}
    PUSH R3
    MOV R3 0
    PUSH R3
    CALL FIBBO
    POP R1
    HALT
    FIBBO:
    PUSH R1
    PUSH R2
    PUSH R4
    ADD R4 BP 3
    LOAD R4 R4
    TSTG R4 1
    TJMP RECURSE
    ADD R1 BP 2
    STR R1 R4
    JUMP FIBO_RET
    RECURSE:
    ADD R4 R4 -1
    PUSH R4
    MOV R3 0
    PUSH R3
    CALL FIBBO
    POP R1
    POP R4
    ADD R4 R4 -1
    PUSH R4
    MOV R3 0
    PUSH R3
    CALL FIBBO
    POP R2
    POP R4
    ADD R1 R1 R2
    ADD R2 BP 2
    STR R2 R1
    FIBO_RET:
    POP R4
    POP R2
    POP R1
    RET
    ",
        n
    )
}

#[test]
fn recursive_fibonacci_up_to_twenty() {
    let mut expected = vec![0, 1];
    for k in 2..=20 {
        let next = expected[k - 1] + expected[k - 2];
        expected.push(next);
    }
    for n in 0..=20 {
        let mut os = OS::new();
        os.assemble_and_run(&fibonacci_program(n)).unwrap();
        assert_eq!(os.cpu.regs.get(&Register::R1), expected[n as usize]);
    }
}
