use simple_vm::operating_system::compiler::ast::{
    Assignment, AssignmentOp, BinaryOp, BinaryopType, Compound, Constant, Decl, Expression, External,
    ForLoop, FuncDecl, FuncDef, Return, RootAstNode, Statement, StructDecl, Type, UnaryOp,
    UnaryopType, VarDecl, ID,
};
use simple_vm::operating_system::compiler::{binop_from_str, Compiler};
use simple_vm::operating_system::OS;

fn num(v: &str) -> Expression {
    Expression::Constant(Constant { _type: Type::Int, val: v.to_string() })
}

fn id(n: &str) -> Expression {
    Expression::ID(ID { name: n.to_string() })
}

fn var(n: &str, init: Option<Expression>) -> Statement {
    Statement::Decl(Decl::VarDecl(VarDecl { name: n.to_string(), _type: Type::Int, init }))
}

fn block(items: Vec<Statement>, loc: &str) -> Compound {
    Compound { items, code_loc: loc.to_string() }
}

fn assign(lhs: &str, op: Option<BinaryopType>, rhs: Expression) -> Statement {
    Statement::Assignment(Assignment {
        op: AssignmentOp { op },
        lvalue: Box::new(id(lhs)),
        rvalue: Box::new(rhs),
    })
}

fn ret(e: Expression) -> Statement {
    Statement::Return(Return { expr: e })
}

fn main_with(items: Vec<Statement>) -> RootAstNode {
    RootAstNode {
        externals: vec![External::FuncDef(FuncDef {
            body: block(items, "main"),
            decl: FuncDecl { name: "main".to_string(), args: Vec::new(), ret_type: Type::Int },
        })],
    }
}

fn compile_and_run(root: &RootAstNode) -> i32 {
    let mut compiler = Compiler::new();
    let code = compiler.compile(root).unwrap();
    let program = code.join("\n");
    let mut os = OS::new();
    os.assemble_and_run(&program).unwrap()
}

#[test]
fn main_returning_constant_exits_with_it() {
    let root = main_with(vec![ret(num("2"))]);
    let mut compiler = Compiler::new();
    let code = compiler.compile(&root).unwrap();
    assert_eq!(code[0], "JUMP main");
    assert_eq!(code[1], "main:");
    assert_eq!(compile_and_run(&root), 2);
}

#[test]
fn for_loop_sums() {
    let for_loop = Statement::ForLoop(ForLoop {
        cond: Some(Expression::BinaryOp(BinaryOp {
            op_type: BinaryopType::LT,
            left: Box::new(id("i")),
            right: Box::new(num("5")),
        })),
        init: Some(Box::new(block(vec![assign("i", None, num("0"))], "for-init"))),
        body: Box::new(block(vec![assign("a", Some(BinaryopType::ADD), id("i"))], "for-body")),
        next: Some(Box::new(block(
            vec![Statement::Expression(Expression::UnaryOp(UnaryOp {
                op_type: UnaryopType::XPP,
                expr: Box::new(id("i")),
            }))],
            "for-next",
        ))),
        code_loc: "for".to_string(),
    });
    let root = main_with(vec![var("a", Some(num("0"))), var("i", None), for_loop, ret(id("a"))]);
    assert_eq!(compile_and_run(&root), 10);
}

#[test]
fn inner_declaration_shadows_outer() {
    let inner = Statement::Compound(block(vec![var("x", Some(num("2")))], "blk"));
    let root = main_with(vec![var("x", Some(num("1"))), inner, ret(id("x"))]);
    assert_eq!(compile_and_run(&root), 1);
    let inner = Statement::Compound(block(vec![var("x", Some(num("2"))), ret(id("x"))], "blk"));
    let root = main_with(vec![var("x", Some(num("1"))), inner]);
    assert_eq!(compile_and_run(&root), 2);
}

#[test]
fn call_with_arguments() {
    let arg = |n: &str| Decl::VarDecl(VarDecl { name: n.to_string(), _type: Type::Int, init: None });
    let sub = External::FuncDef(FuncDef {
        body: block(
            vec![ret(Expression::BinaryOp(BinaryOp {
                op_type: BinaryopType::SUB,
                left: Box::new(id("x")),
                right: Box::new(id("y")),
            }))],
            "sub",
        ),
        decl: FuncDecl {
            name: "sub".to_string(),
            args: vec![arg("x"), arg("y")],
            ret_type: Type::Int,
        },
    });
    let call = Expression::FuncCall(simple_vm::operating_system::compiler::ast::FuncCall {
        name: "sub".to_string(),
        args: vec![Box::new(num("7")), Box::new(num("3"))],
    });
    let mut root = main_with(vec![ret(call)]);
    root.externals.insert(0, sub);
    assert_eq!(compile_and_run(&root), 4);
}

#[test]
fn find_variable() {
    let root = main_with(vec![var("a", Some(num("1"))), ret(id("a"))]);
    let mut compiler = Compiler::new();
    compiler.compile(&root).unwrap();
    let found = compiler.tables.find_variable(&compiler.declared, &"a".to_string(), &"main".to_string());
    assert!(found.is_some());
    let b = compiler.tables.find_variable(&compiler.declared, &"b".to_string(), &"main".to_string());
    assert!(b.is_none());
}

#[test]
fn struct_registration() {
    let field = |n: &str| {
        (n.to_string(), Decl::VarDecl(VarDecl { name: n.to_string(), _type: Type::Int, init: None }))
    };
    let sd = StructDecl { name: "A".to_string(), items: vec![field("x"), field("y"), field("z")] };
    let mut compiler = Compiler::new();
    compiler.register_struct(&sd).unwrap();
    let struct_data = &compiler.tables.structs[0];
    assert_eq!(struct_data.name, "A");
    assert_eq!(struct_data.size, 3);
    assert_eq!(struct_data.items[0].name, "x");
    assert_eq!(struct_data.items[0].offset, 0);
    assert_eq!(struct_data.items[0].size, 1);
    assert!(matches!(struct_data.items[0].var_type, Type::Int));
    assert_eq!(struct_data.items[1].offset, 1);
    assert_eq!(struct_data.items[2].offset, 2);
}

#[test]
fn function_args() {
    let arg = |n: &str| Decl::VarDecl(VarDecl { name: n.to_string(), _type: Type::Int, init: None });
    let def = FuncDef {
        body: block(vec![ret(id("x"))], "sub_3"),
        decl: FuncDecl {
            name: "sub_3".to_string(),
            args: vec![arg("x"), arg("y"), arg("z")],
            ret_type: Type::Int,
        },
    };
    let mut compiler = Compiler::new();
    compiler.register_func_decl(&def.decl).unwrap();
    compiler.register_func_body(&def).unwrap();
    let func_data = compiler.tables.funcs.iter().rev().find(|f| f.name == "sub_3").unwrap();
    assert!(matches!(func_data.arg_types[0], Type::Int));
    assert!(matches!(func_data.arg_types[1], Type::Int));
    assert!(matches!(func_data.arg_types[2], Type::Int));
    assert!(matches!(func_data.ret_type, Type::Int));
    let scope = compiler.tables.scopes.iter().find(|s| s.name == "sub_3").unwrap();
    let offset_of = |n: &str| scope.variables.iter().find(|v| v.name == n).unwrap().offset;
    assert_eq!(offset_of("x"), 0);
    assert_eq!(offset_of("y"), 1);
    assert_eq!(offset_of("z"), 2);
    for v in scope.variables.iter() {
        assert!(matches!(v.var_type, Type::Int));
        assert_eq!(v.local_or_arg, simple_vm::operating_system::compiler::LocalOrArg::Arg);
    }
}

#[test]
fn binary_operator_tokens() {
    assert_eq!(binop_from_str("+"), Some(BinaryopType::ADD));
    assert_eq!(binop_from_str("<="), Some(BinaryopType::LTEQ));
    assert_eq!(binop_from_str(">="), Some(BinaryopType::GTEQ));
    assert_eq!(binop_from_str("&&"), Some(BinaryopType::LogicalAnd));
    assert_eq!(binop_from_str("=>"), None);
}
