use ygvm::syntax::parser::{
    AssignOp, AssignStmt, AssignTarget, BinaryExpr, BinaryOp, Block, CallExpr, Class, Expr, Function, IfStmt, Item,
    LetStmt, Literal, Method, MethodCallDotExpr, Module, Statement, UnaryExpr, UnaryOp,
};
use ygvm::syntax::pretty::pretty_print;

fn var(name: &str) -> Expr {
    Expr::Var(name.to_string())
}

fn num(n: i64) -> Expr {
    Expr::Literal(Literal::Integer(n))
}

#[test]
fn function_module() {
    let body = Block {
        statements: vec![
            Statement::Let(LetStmt {
                name: "x".to_string(),
                value: Expr::Binary(BinaryExpr { op: BinaryOp::Add, left: Box::new(var("a")), right: Box::new(num(1)) }),
            }),
            Statement::Return(Some(var("x"))),
        ],
    };
    let module = Module {
        path: "app/main".to_string(),
        uses: vec![],
        items: vec![Item::Function(Function {
            name: "main".to_string(),
            params: vec!["a".to_string(), "b".to_string()],
            captures: Some(vec![]),
            body,
        })],
    };
    assert_eq!(
        pretty_print(&module),
        "(module app/main\n  (fun main\n    (a b)\n    (let x (+ a 1))\n    (return x)\n  )\n)\n"
    );
}

#[test]
fn anonymous_function_captures_everything() {
    let module = Module {
        path: "m".to_string(),
        uses: vec![],
        items: vec![Item::Function(Function { name: String::new(), params: vec![], captures: None, body: Block { statements: vec![] } })],
    };
    assert_eq!(pretty_print(&module), "(module m\n  (fun anon\n    ()\n    (captures *)\n  )\n)\n");
}

#[test]
fn class_with_method_and_control_flow() {
    let cond = Expr::Unary(UnaryExpr { op: UnaryOp::Not, expr: Box::new(var("done")) });
    let assign = Statement::Assign(AssignStmt {
        target: AssignTarget::Member { target: Box::new(var("this")), name: "n".to_string() },
        op: AssignOp::PlusEq,
        value: num(2),
    });
    let call = Statement::Expr(Expr::MethodCallDot(MethodCallDotExpr {
        target: Box::new(var("this")),
        method: "tick".to_string(),
        args: vec![],
    }));
    let body = Block {
        statements: vec![Statement::If(IfStmt {
            cond,
            then_block: Block { statements: vec![assign] },
            else_block: Some(Block { statements: vec![call] }),
        })],
    };
    let module = Module {
        path: "m".to_string(),
        uses: vec![],
        items: vec![Item::Object(Class {
            name: "Counter".to_string(),
            extends: vec!["std/core/Object".to_string()],
            methods: vec![Method { name: "step".to_string(), params: vec![], body }],
        })],
    };
    let expected = "(module m\n  (object Counter\n    (extends std/core/Object)\n    (def step ()\n      (if (not done)\n        (set! (. this n) =+ 2)\n        (else\n          (. this tick)\n        )\n      )\n    )\n  )\n)\n";
    assert_eq!(pretty_print(&module), expected);
}

#[test]
fn literals_and_lambdas() {
    let lambda = Expr::Function(Function {
        name: String::new(),
        params: vec!["x".to_string()],
        captures: Some(vec![]),
        body: Block { statements: vec![Statement::Return(Some(var("x")))] },
    });
    let empty = Expr::Function(Function { name: String::new(), params: vec![], captures: None, body: Block { statements: vec![] } });
    let lits = Expr::Call(CallExpr {
        callee: Box::new(var("f")),
        args: vec![
            Expr::Literal(Literal::String("hi".to_string())),
            Expr::Literal(Literal::Double("1.5".to_string())),
            Expr::Literal(Literal::Boolean(true)),
            Expr::Literal(Literal::Array(vec![num(1), num(-2)])),
            Expr::Literal(Literal::Mapping(vec![(num(1), var("a"))])),
            lambda,
            empty,
        ],
    });
    let module = Module {
        path: "m".to_string(),
        uses: vec![],
        items: vec![Item::Function(Function {
            name: "g".to_string(),
            params: vec![],
            captures: Some(vec!["y".to_string()]),
            body: Block { statements: vec![Statement::Expr(lits)] },
        })],
    };
    let expected = "(module m\n  (fun g\n    ()\n    (captures y)\n    (f \"hi\" 1.5 true [1 -2] {1 a} (fn (x) (return x)) (fn () (do)))\n  )\n)\n";
    assert_eq!(pretty_print(&module), expected);
}
