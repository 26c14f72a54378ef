//! Pretty printer for the syntax tree, in a Lisp-like layout.

use vstd::prelude::*;
use crate::syntax::parser::{
    AssignOp, AssignStmt, AssignTarget, BinaryExpr, BinaryOp, Block, CallExpr, Class, Expr, ForStmt,
    Function, IfStmt, IndexExpr, Item, LetStmt, Literal, MemberExpr, Method, MethodCallColonExpr,
    MethodCallDotExpr, Module, ModuleCallExpr, NewExpr, Statement, TryCatchStmt, UnaryExpr, UnaryOp,
    WhileStmt,
};
use crate::text::{
    int_text, join, join_strings, push_int, push_spaces, spaces, trim, trim_str, views,
};

verus! {

// ---- What each node prints as ----

/// `()` for no parameters, else the names in parentheses.
pub open spec fn params_text(params: Seq<String>) -> Seq<char> {
    if params.len() == 0 {
        "()"@
    } else {
        "("@ + join(views(params), " "@) + ")"@
    }
}

pub open spec fn binary_op_text(op: BinaryOp) -> Seq<char> {
    match op {
        BinaryOp::Add => "+"@,
        BinaryOp::Sub => "-"@,
        BinaryOp::Mul => "*"@,
        BinaryOp::Div => "/"@,
        BinaryOp::Mod => "%"@,
        BinaryOp::And => "and"@,
        BinaryOp::Or => "or"@,
        BinaryOp::Xor => "xor"@,
        BinaryOp::Eq => "=="@,
        BinaryOp::Neq => "!="@,
        BinaryOp::Lt => "<"@,
        BinaryOp::Gt => ">"@,
        BinaryOp::Le => "<="@,
        BinaryOp::Ge => ">="@,
    }
}

pub open spec fn unary_op_text(op: UnaryOp) -> Seq<char> {
    match op {
        UnaryOp::Neg => "-"@,
        UnaryOp::Not => "not"@,
    }
}

pub open spec fn assign_op_text(op: AssignOp) -> Seq<char> {
    match op {
        AssignOp::Assign => "="@,
        AssignOp::PlusEq => "=+"@,
        AssignOp::MinusEq => "=-"@,
        AssignOp::StarEq => "=*"@,
        AssignOp::SlashEq => "=/"@,
        AssignOp::PercentEq => "=%"@,
        AssignOp::AndEq => "=&"@,
        AssignOp::OrEq => "=|"@,
        AssignOp::XorEq => "=^"@,
        AssignOp::NotEq => "=!"@,
        AssignOp::LtEq => "=<"@,
        AssignOp::GtEq => "=>"@,
        AssignOp::LeEq => "=<="@,
        AssignOp::GeEq => "=>="@,
    }
}

pub open spec fn expr_text(e: Expr) -> Seq<char>
    decreases e,
{
    match e {
        Expr::Literal(lit) => literal_text(lit),
        Expr::Var(name) => name@,
        Expr::Binary(b) => "("@ + binary_op_text(b.op) + " "@ + expr_text(*b.left) + " "@ + expr_text(*b.right)
            + ")"@,
        Expr::Unary(u) => "("@ + unary_op_text(u.op) + " "@ + expr_text(*u.expr) + ")"@,
        Expr::Call(c) => "("@ + expr_text(*c.callee) + " "@ + exprs_text(c.args@) + ")"@,
        Expr::Index(x) => "(get "@ + expr_text(*x.target) + " "@ + expr_text(*x.index) + ")"@,
        Expr::Member(m) => "(. "@ + expr_text(*m.target) + " "@ + m.name@ + ")"@,
        Expr::MethodCallColon(mc) => "("@ + mc.class@ + ":"@ + mc.method@ + " "@ + exprs_text(mc.args@) + ")"@,
        Expr::MethodCallDot(mc) => if mc.args@.len() == 0 {
            "(. "@ + expr_text(*mc.target) + " "@ + mc.method@ + ")"@
        } else {
            "(. "@ + expr_text(*mc.target) + " "@ + mc.method@ + " "@ + exprs_text(mc.args@) + ")"@
        },
        Expr::ModuleCall(mc) => "("@ + mc.module@ + "::"@ + mc.function@ + " "@ + exprs_text(mc.args@) + ")"@,
        Expr::New(n) => "(new "@ + n.class@ + " "@ + exprs_text(n.args@) + ")"@,
        Expr::Function(f) => "(fn "@ + params_text(f.params@) + " "@ + fn_body_text(f.body) + ")"@,
        Expr::ObjectRef(path) => "(object-ref "@ + path@ + ")"@,
    }
}

/// Each binary operator prints as its own symbol of the language, between
/// `(` and its operands: `(< a b)` for `a < b`, `(>= a b)` for `a >= b`,
/// `(and a b)` for `a and b`, and so on.
pub proof fn lemma_binary_expr_symbols(op: BinaryOp, left: Expr, right: Expr)
    ensures
        expr_text(Expr::Binary(BinaryExpr { op, left: Box::new(left), right: Box::new(right) })) == seq!['(']
            + match op {
                BinaryOp::Add => seq!['+'],
                BinaryOp::Sub => seq!['-'],
                BinaryOp::Mul => seq!['*'],
                BinaryOp::Div => seq!['/'],
                BinaryOp::Mod => seq!['%'],
                BinaryOp::And => seq!['a', 'n', 'd'],
                BinaryOp::Or => seq!['o', 'r'],
                BinaryOp::Xor => seq!['x', 'o', 'r'],
                BinaryOp::Eq => seq!['=', '='],
                BinaryOp::Neq => seq!['!', '='],
                BinaryOp::Lt => seq!['<'],
                BinaryOp::Gt => seq!['>'],
                BinaryOp::Le => seq!['<', '='],
                BinaryOp::Ge => seq!['>', '='],
            } + seq![' '] + expr_text(left) + seq![' '] + expr_text(right) + seq![')'],
{
    reveal_strlit("+");
    reveal_strlit("-");
    reveal_strlit("*");
    reveal_strlit("/");
    reveal_strlit("%");
    reveal_strlit("and");
    reveal_strlit("or");
    reveal_strlit("xor");
    reveal_strlit("==");
    reveal_strlit("!=");
    reveal_strlit("<");
    reveal_strlit(">");
    reveal_strlit("<=");
    reveal_strlit(">=");
    reveal_strlit("not");
    reveal_strlit("(");
    reveal_strlit(")");
    reveal_strlit(" ");
}

/// Indexing prints as `(get target index)` and member access as
/// `(. target name)`.
pub proof fn lemma_access_expr_symbols(target: Expr, index: Expr, name: String)
    ensures
        expr_text(Expr::Index(IndexExpr { target: Box::new(target), index: Box::new(index) })) == seq![
            '(',
            'g',
            'e',
            't',
            ' ',
        ] + expr_text(target) + seq![' '] + expr_text(index) + seq![')'],
        expr_text(Expr::Member(MemberExpr { target: Box::new(target), name })) == seq!['(', '.', ' '] + expr_text(
            target,
        ) + seq![' '] + name@ + seq![')'],
{
    reveal_strlit("(get ");
    reveal_strlit("(. ");
    reveal_strlit(")");
    reveal_strlit(" ");
}

/// Each unary operator prints as its own symbol of the language: `(- a)`
/// for the negation of `a`, `(not a)` for its logical negation.
pub proof fn lemma_unary_expr_symbols(op: UnaryOp, operand: Expr)
    ensures
        expr_text(Expr::Unary(UnaryExpr { op, expr: Box::new(operand) })) == seq!['('] + match op {
            UnaryOp::Neg => seq!['-'],
            UnaryOp::Not => seq!['n', 'o', 't'],
        } + seq![' '] + expr_text(operand) + seq![')'],
{
    reveal_strlit("-");
    reveal_strlit("not");
    reveal_strlit("(");
    reveal_strlit(")");
    reveal_strlit(" ");
}

/// Body of a function expression: its statements at indent 0, trimmed, or
/// `(do)` when it has none.
pub open spec fn fn_body_text(b: Block) -> Seq<char>
    decreases b,
{
    if b.statements@.len() == 0 {
        "(do)"@
    } else {
        trim(stmts_text(b.statements@, 0))
    }
}

/// Expressions separated by single spaces.
pub open spec fn exprs_text(s: Seq<Expr>) -> Seq<char>
    decreases s,
{
    if s.len() == 0 {
        Seq::empty()
    } else if s.len() == 1 {
        expr_text(s[0])
    } else {
        exprs_text(s.drop_last()) + " "@ + expr_text(s.last())
    }
}

/// Key-value pairs, each as `key value`, separated by single spaces.
pub open spec fn pairs_text(s: Seq<(Expr, Expr)>) -> Seq<char>
    decreases s,
{
    if s.len() == 0 {
        Seq::empty()
    } else if s.len() == 1 {
        expr_text(s[0].0) + " "@ + expr_text(s[0].1)
    } else {
        pairs_text(s.drop_last()) + " "@ + expr_text(s.last().0) + " "@ + expr_text(s.last().1)
    }
}

pub open spec fn literal_text(lit: Literal) -> Seq<char>
    decreases lit,
{
    match lit {
        Literal::Integer(n) => int_text(n as int),
        Literal::Double(text) => text@,
        Literal::String(s) => "\""@ + s@ + "\""@,
        Literal::Boolean(b) => if b {
            "true"@
        } else {
            "false"@
        },
        Literal::Array(elems) => "["@ + exprs_text(elems@) + "]"@,
        Literal::Mapping(pairs) => "{"@ + pairs_text(pairs@) + "}"@,
    }
}

pub open spec fn target_text(t: AssignTarget) -> Seq<char>
    decreases t,
{
    match t {
        AssignTarget::Var(name) => name@,
        AssignTarget::Index { target, index } => "(get "@ + expr_text(*target) + " "@ + expr_text(*index) + ")"@,
        AssignTarget::Member { target, name } => "(. "@ + expr_text(*target) + " "@ + name@ + ")"@,
    }
}

/// A line: `indent` spaces, `body`, a newline.
pub open spec fn line(indent: nat, body: Seq<char>) -> Seq<char> {
    spaces(indent) + body + "\n"@
}

pub open spec fn stmt_text(s: Statement, indent: nat) -> Seq<char>
    decreases s,
{
    match s {
        Statement::Let(l) => line(indent, "(let "@ + l.name@ + " "@ + expr_text(l.value) + ")"@),
        Statement::Assign(a) => line(
            indent,
            "(set! "@ + target_text(a.target) + " "@ + assign_op_text(a.op) + " "@ + expr_text(a.value) + ")"@,
        ),
        Statement::If(i) => line(indent, "(if "@ + expr_text(i.cond)) + block_text(i.then_block, indent + 2)
            + match i.else_block {
            Some(eb) => line(indent, "  (else"@) + block_text(eb, indent + 4) + line(indent, "  )"@),
            None => Seq::empty(),
        } + line(indent, ")"@),
        Statement::While(w) => line(indent, "(while "@ + expr_text(w.cond)) + block_text(w.body, indent + 2)
            + line(indent, ")"@),
        Statement::For(f) => line(indent, "(for "@ + f.var@ + " (in "@ + expr_text(f.iter) + ")"@) + block_text(
            f.body,
            indent + 2,
        ) + line(indent, ")"@),
        Statement::Return(e) => match e {
            Some(x) => line(indent, "(return "@ + expr_text(x) + ")"@),
            None => line(indent, "(return)"@),
        },
        Statement::TryCatch(tc) => line(indent, "(try"@) + block_text(tc.try_block, indent + 2) + line(
            indent,
            "  (catch ("@ + tc.catch_param@ + ")"@,
        ) + block_text(tc.catch_block, indent + 4) + line(indent, "  )"@) + line(indent, ")"@),
        Statement::Throw(x) => line(indent, "(throw "@ + expr_text(x) + ")"@),
        Statement::Expr(x) => line(indent, expr_text(x)),
        Statement::Block(b) => line(indent, "(do"@) + block_text(b, indent + 2) + line(indent, ")"@),
    }
}

pub open spec fn block_text(b: Block, indent: nat) -> Seq<char>
    decreases b,
{
    stmts_text(b.statements@, indent)
}

pub open spec fn stmts_text(s: Seq<Statement>, indent: nat) -> Seq<char>
    decreases s,
{
    if s.len() == 0 {
        Seq::empty()
    } else {
        stmts_text(s.drop_last(), indent) + stmt_text(s.last(), indent)
    }
}

pub open spec fn method_text(m: Method, indent: nat) -> Seq<char> {
    line(indent, "(def "@ + m.name@ + " "@ + params_text(m.params@)) + block_text(m.body, indent + 2) + line(
        indent,
        ")"@,
    )
}

pub open spec fn methods_text(s: Seq<Method>, indent: nat) -> Seq<char>
    decreases s.len(),
{
    if s.len() == 0 {
        Seq::empty()
    } else {
        methods_text(s.drop_last(), indent) + method_text(s.last(), indent)
    }
}

pub open spec fn captures_text(captures: Option<Vec<String>>, indent: nat) -> Seq<char> {
    match captures {
        None => line(indent, "  (captures *)"@),
        Some(caps) => if caps@.len() == 0 {
            Seq::empty()
        } else {
            line(indent, "  (captures "@ + join(views(caps@), " "@) + ")"@)
        },
    }
}

pub open spec fn function_text(f: Function, indent: nat) -> Seq<char> {
    let name = if f.name@.len() == 0 {
        "anon"@
    } else {
        f.name@
    };
    line(indent, "(fun "@ + name) + line(indent, "  "@ + params_text(f.params@)) + captures_text(f.captures, indent)
        + block_text(f.body, indent + 2) + line(indent, ")"@)
}

pub open spec fn class_text(c: Class, indent: nat, kind: Seq<char>) -> Seq<char> {
    line(indent, "("@ + kind + " "@ + c.name@) + if c.extends@.len() == 0 {
        Seq::empty()
    } else {
        line(indent, "  (extends "@ + join(views(c.extends@), " "@) + ")"@)
    } + methods_text(c.methods@, indent + 2) + line(indent, ")"@)
}

pub open spec fn item_text(item: Item, indent: nat) -> Seq<char> {
    match item {
        Item::Function(f) => function_text(f, indent),
        Item::Class(c) => class_text(c, indent, "class"@),
        Item::Object(o) => class_text(o, indent, "object"@),
    }
}

pub open spec fn items_text(s: Seq<Item>, indent: nat) -> Seq<char>
    decreases s.len(),
{
    if s.len() == 0 {
        Seq::empty()
    } else {
        items_text(s.drop_last(), indent) + item_text(s.last(), indent)
    }
}

pub open spec fn module_text(m: Module, indent: nat) -> Seq<char> {
    line(indent, "(module "@ + m.path@) + items_text(m.items@, indent + 2) + line(indent, ")"@)
}

// ---- How deeply blocks nest (bounds the indentation) ----

pub open spec fn max(a: nat, b: nat) -> nat {
    if a >= b {
        a
    } else {
        b
    }
}

pub open spec fn expr_depth(e: Expr) -> nat
    decreases e,
{
    match e {
        Expr::Literal(lit) => literal_depth(lit),
        Expr::Var(_) => 0,
        Expr::Binary(b) => max(expr_depth(*b.left), expr_depth(*b.right)),
        Expr::Unary(u) => expr_depth(*u.expr),
        Expr::Call(c) => max(expr_depth(*c.callee), exprs_depth(c.args@)),
        Expr::Index(x) => max(expr_depth(*x.target), expr_depth(*x.index)),
        Expr::Member(m) => expr_depth(*m.target),
        Expr::MethodCallColon(mc) => exprs_depth(mc.args@),
        Expr::MethodCallDot(mc) => max(expr_depth(*mc.target), exprs_depth(mc.args@)),
        Expr::ModuleCall(mc) => exprs_depth(mc.args@),
        Expr::New(n) => exprs_depth(n.args@),
        Expr::Function(f) => 1 + block_depth(f.body),
        Expr::ObjectRef(_) => 0,
    }
}

pub open spec fn exprs_depth(s: Seq<Expr>) -> nat
    decreases s,
{
    if s.len() == 0 {
        0
    } else {
        max(exprs_depth(s.drop_last()), expr_depth(s.last()))
    }
}

pub open spec fn pairs_depth(s: Seq<(Expr, Expr)>) -> nat
    decreases s,
{
    if s.len() == 0 {
        0
    } else {
        max(pairs_depth(s.drop_last()), max(expr_depth(s.last().0), expr_depth(s.last().1)))
    }
}

pub open spec fn literal_depth(lit: Literal) -> nat
    decreases lit,
{
    match lit {
        Literal::Array(elems) => exprs_depth(elems@),
        Literal::Mapping(pairs) => pairs_depth(pairs@),
        _ => 0,
    }
}

pub open spec fn target_depth(t: AssignTarget) -> nat
    decreases t,
{
    match t {
        AssignTarget::Var(_) => 0,
        AssignTarget::Index { target, index } => max(expr_depth(*target), expr_depth(*index)),
        AssignTarget::Member { target, name } => expr_depth(*target),
    }
}

pub open spec fn stmt_depth(s: Statement) -> nat
    decreases s,
{
    match s {
        Statement::Let(l) => expr_depth(l.value),
        Statement::Assign(a) => max(target_depth(a.target), expr_depth(a.value)),
        Statement::If(i) => max(
            expr_depth(i.cond),
            1 + max(
                block_depth(i.then_block),
                match i.else_block {
                    Some(eb) => block_depth(eb),
                    None => 0,
                },
            ),
        ),
        Statement::While(w) => max(expr_depth(w.cond), 1 + block_depth(w.body)),
        Statement::For(f) => max(expr_depth(f.iter), 1 + block_depth(f.body)),
        Statement::Return(e) => match e {
            Some(x) => expr_depth(x),
            None => 0,
        },
        Statement::TryCatch(tc) => 1 + max(block_depth(tc.try_block), block_depth(tc.catch_block)),
        Statement::Throw(x) => expr_depth(x),
        Statement::Expr(x) => expr_depth(x),
        Statement::Block(b) => 1 + block_depth(b),
    }
}

pub open spec fn block_depth(b: Block) -> nat
    decreases b,
{
    stmts_depth(b.statements@)
}

pub open spec fn stmts_depth(s: Seq<Statement>) -> nat
    decreases s,
{
    if s.len() == 0 {
        0
    } else {
        max(stmts_depth(s.drop_last()), stmt_depth(s.last()))
    }
}

pub open spec fn methods_depth(s: Seq<Method>) -> nat
    decreases s.len(),
{
    if s.len() == 0 {
        0
    } else {
        max(methods_depth(s.drop_last()), 1 + block_depth(s.last().body))
    }
}

pub open spec fn item_depth(item: Item) -> nat {
    match item {
        Item::Function(f) => 1 + block_depth(f.body),
        Item::Class(c) => 1 + methods_depth(c.methods@),
        Item::Object(o) => 1 + methods_depth(o.methods@),
    }
}

pub open spec fn items_depth(s: Seq<Item>) -> nat
    decreases s.len(),
{
    if s.len() == 0 {
        0
    } else {
        max(items_depth(s.drop_last()), item_depth(s.last()))
    }
}

pub open spec fn module_depth(m: Module) -> nat {
    1 + items_depth(m.items@)
}

// ---- Depth facts ----

proof fn lemma_exprs_depth(s: Seq<Expr>, i: int)
    requires
        0 <= i < s.len(),
    ensures
        expr_depth(s[i]) <= exprs_depth(s),
    decreases s.len(),
{
    if i < s.len() - 1 {
        lemma_exprs_depth(s.drop_last(), i);
    }
}

proof fn lemma_pairs_depth(s: Seq<(Expr, Expr)>, i: int)
    requires
        0 <= i < s.len(),
    ensures
        expr_depth(s[i].0) <= pairs_depth(s),
        expr_depth(s[i].1) <= pairs_depth(s),
    decreases s.len(),
{
    if i < s.len() - 1 {
        lemma_pairs_depth(s.drop_last(), i);
    }
}

proof fn lemma_stmts_depth(s: Seq<Statement>, i: int)
    requires
        0 <= i < s.len(),
    ensures
        stmt_depth(s[i]) <= stmts_depth(s),
    decreases s.len(),
{
    if i < s.len() - 1 {
        lemma_stmts_depth(s.drop_last(), i);
    }
}

proof fn lemma_methods_depth(s: Seq<Method>, i: int)
    requires
        0 <= i < s.len(),
    ensures
        1 + block_depth(s[i].body) <= methods_depth(s),
    decreases s.len(),
{
    if i < s.len() - 1 {
        lemma_methods_depth(s.drop_last(), i);
    }
}

proof fn lemma_items_depth(s: Seq<Item>, i: int)
    requires
        0 <= i < s.len(),
    ensures
        item_depth(s[i]) <= items_depth(s),
    decreases s.len(),
{
    if i < s.len() - 1 {
        lemma_items_depth(s.drop_last(), i);
    }
}

// ---- Printing ----

fn format_params(params: &Vec<String>) -> (r: String)
    ensures
        r@ == params_text(params@),
{
    if params.len() == 0 {
        String::from_str("()")
    } else {
        let mut s = String::from_str("(");
        let joined = join_strings(params, " ");
        s.append(joined.as_str());
        s.append(")");
        s
    }
}

fn format_exprs(args: &Vec<Expr>) -> (r: String)
    requires
        4 * exprs_depth(args@) <= usize::MAX,
    ensures
        r@ == exprs_text(args@),
    decreases args,
{
    let mut s = String::new();
    let n = args.len();
    let mut i: usize = 0;
    while i < n
        invariant
            n == args@.len(),
            i <= n,
            4 * exprs_depth(args@) <= usize::MAX,
            s@ == exprs_text(args@.take(i as int)),
        decreases n - i,
    {
        proof {
            assert(args@.take(i + 1).drop_last() =~= args@.take(i as int));
            lemma_exprs_depth(args@, i as int);
            assert(decreases_to!(*args => args@));
            assert(decreases_to!(args@ => args@[i as int]));
        }
        if i > 0 {
            s.append(" ");
        }
        let t = format_expr(&args[i]);
        s.append(t.as_str());
        i = i + 1;
    }
    assert(args@.take(n as int) =~= args@);
    s
}

fn format_pairs(pairs: &Vec<(Expr, Expr)>) -> (r: String)
    requires
        4 * pairs_depth(pairs@) <= usize::MAX,
    ensures
        r@ == pairs_text(pairs@),
    decreases pairs,
{
    let mut s = String::new();
    let n = pairs.len();
    let mut i: usize = 0;
    while i < n
        invariant
            n == pairs@.len(),
            i <= n,
            4 * pairs_depth(pairs@) <= usize::MAX,
            s@ == pairs_text(pairs@.take(i as int)),
        decreases n - i,
    {
        proof {
            assert(pairs@.take(i + 1).drop_last() =~= pairs@.take(i as int));
            lemma_pairs_depth(pairs@, i as int);
            assert(decreases_to!(*pairs => pairs@));
            assert(decreases_to!(pairs@ => pairs@[i as int]));
            assert(decreases_to!(pairs@[i as int] => pairs@[i as int].0));
            assert(decreases_to!(pairs@[i as int] => pairs@[i as int].1));
        }
        if i > 0 {
            s.append(" ");
        }
        let k = format_expr(&pairs[i].0);
        s.append(k.as_str());
        s.append(" ");
        let v = format_expr(&pairs[i].1);
        s.append(v.as_str());
        i = i + 1;
    }
    assert(pairs@.take(n as int) =~= pairs@);
    s
}

/// Prints a literal.
pub fn format_literal(lit: &Literal) -> (r: String)
    requires
        4 * literal_depth(*lit) <= usize::MAX,
    ensures
        r@ == literal_text(*lit),
    decreases lit,
{
    match lit {
        Literal::Integer(n) => {
            let mut s = String::new();
            push_int(&mut s, *n);
            assert(s@ =~= int_text(*n as int));
            s
        },
        Literal::Double(text) => text.clone(),
        Literal::String(text) => {
            let mut s = String::from_str("\"");
            s.append(text.as_str());
            s.append("\"");
            s
        },
        Literal::Boolean(b) => {
            if *b {
                String::from_str("true")
            } else {
                String::from_str("false")
            }
        },
        Literal::Array(elems) => {
            let mut s = String::from_str("[");
            let t = format_exprs(elems);
            s.append(t.as_str());
            s.append("]");
            s
        },
        Literal::Mapping(pairs) => {
            let mut s = String::from_str("{");
            let t = format_pairs(pairs);
            s.append(t.as_str());
            s.append("}");
            s
        },
    }
}

/// Prints an expression.
pub fn format_expr(expr: &Expr) -> (r: String)
    requires
        4 * expr_depth(*expr) <= usize::MAX,
    ensures
        r@ == expr_text(*expr),
    decreases expr,
{
    match expr {
        Expr::Literal(lit) => format_literal(lit),
        Expr::Var(name) => name.clone(),
        Expr::Binary(b) => {
            let mut s = String::from_str("(");
            let op = match b.op {
                BinaryOp::Add => "+",
                BinaryOp::Sub => "-",
                BinaryOp::Mul => "*",
                BinaryOp::Div => "/",
                BinaryOp::Mod => "%",
                BinaryOp::And => "and",
                BinaryOp::Or => "or",
                BinaryOp::Xor => "xor",
                BinaryOp::Eq => "==",
                BinaryOp::Neq => "!=",
                BinaryOp::Lt => "<",
                BinaryOp::Gt => ">",
                BinaryOp::Le => "<=",
                BinaryOp::Ge => ">=",
            };
            assert(op@ == binary_op_text(b.op));
            s.append(op);
            s.append(" ");
            let l = format_expr(&b.left);
            s.append(l.as_str());
            s.append(" ");
            let r = format_expr(&b.right);
            s.append(r.as_str());
            s.append(")");
            assert(s@ =~= expr_text(*expr));
            s
        },
        Expr::Unary(u) => {
            let mut s = String::from_str("(");
            let op = match u.op {
                UnaryOp::Neg => "-",
                UnaryOp::Not => "not",
            };
            assert(op@ == unary_op_text(u.op));
            s.append(op);
            s.append(" ");
            let t = format_expr(&u.expr);
            s.append(t.as_str());
            s.append(")");
            assert(s@ =~= expr_text(*expr));
            s
        },
        Expr::Call(c) => {
            let mut s = String::from_str("(");
            let t = format_expr(&c.callee);
            s.append(t.as_str());
            s.append(" ");
            let a = format_exprs(&c.args);
            s.append(a.as_str());
            s.append(")");
            assert(s@ =~= expr_text(*expr));
            s
        },
        Expr::Index(x) => {
            let mut s = String::from_str("(get ");
            let t = format_expr(&x.target);
            s.append(t.as_str());
            s.append(" ");
            let i = format_expr(&x.index);
            s.append(i.as_str());
            s.append(")");
            assert(s@ =~= expr_text(*expr));
            s
        },
        Expr::Member(m) => {
            let mut s = String::from_str("(. ");
            let t = format_expr(&m.target);
            s.append(t.as_str());
            s.append(" ");
            s.append(m.name.as_str());
            s.append(")");
            assert(s@ =~= expr_text(*expr));
            s
        },
        Expr::MethodCallColon(mc) => {
            let mut s = String::from_str("(");
            s.append(mc.class.as_str());
            s.append(":");
            s.append(mc.method.as_str());
            s.append(" ");
            let a = format_exprs(&mc.args);
            s.append(a.as_str());
            s.append(")");
            assert(s@ =~= expr_text(*expr));
            s
        },
        Expr::MethodCallDot(mc) => {
            let mut s = String::from_str("(. ");
            let t = format_expr(&mc.target);
            s.append(t.as_str());
            s.append(" ");
            s.append(mc.method.as_str());
            if mc.args.len() > 0 {
                s.append(" ");
                let a = format_exprs(&mc.args);
                s.append(a.as_str());
            }
            s.append(")");
            assert(s@ =~= expr_text(*expr));
            s
        },
        Expr::ModuleCall(mc) => {
            let mut s = String::from_str("(");
            s.append(mc.module.as_str());
            s.append("::");
            s.append(mc.function.as_str());
            s.append(" ");
            let a = format_exprs(&mc.args);
            s.append(a.as_str());
            s.append(")");
            assert(s@ =~= expr_text(*expr));
            s
        },
        Expr::New(n) => {
            let mut s = String::from_str("(new ");
            s.append(n.class.as_str());
            s.append(" ");
            let a = format_exprs(&n.args);
            s.append(a.as_str());
            s.append(")");
            assert(s@ =~= expr_text(*expr));
            s
        },
        Expr::Function(f) => {
            let mut s = String::from_str("(fn ");
            let p = format_params(&f.params);
            s.append(p.as_str());
            s.append(" ");
            if f.body.statements.len() == 0 {
                s.append("(do)");
                assert("(do)"@ == fn_body_text(f.body));
            } else {
                let body = format_block(&f.body, 0);
                s.append(trim_str(body.as_str()));
                assert(trim(body@) == fn_body_text(f.body));
            }
            s.append(")");
            assert(s@ =~= expr_text(*expr));
            s
        },
        Expr::ObjectRef(path) => {
            let mut s = String::from_str("(object-ref ");
            s.append(path.as_str());
            s.append(")");
            assert(s@ =~= expr_text(*expr));
            s
        },
    }
}

fn format_target(target: &AssignTarget) -> (r: String)
    requires
        4 * target_depth(*target) <= usize::MAX,
    ensures
        r@ == target_text(*target),
    decreases target,
{
    match target {
        AssignTarget::Var(name) => name.clone(),
        AssignTarget::Index { target, index } => {
            let mut s = String::from_str("(get ");
            let t = format_expr(target);
            s.append(t.as_str());
            s.append(" ");
            let i = format_expr(index);
            s.append(i.as_str());
            s.append(")");
            s
        },
        AssignTarget::Member { target, name } => {
            let mut s = String::from_str("(. ");
            let t = format_expr(target);
            s.append(t.as_str());
            s.append(" ");
            s.append(name.as_str());
            s.append(")");
            s
        },
    }
}

/// Appends a line's indentation.
fn start_line(s: &mut String, indent: usize)
    ensures
        final(s)@ == old(s)@ + spaces(indent as nat),
{
    push_spaces(s, indent);
}

/// Prints a statement at `indent` spaces.
fn format_assign(a: &AssignStmt, indent: usize) -> (r: String)
    requires
        indent + 4 * stmt_depth(Statement::Assign(*a)) <= usize::MAX,
    ensures
        r@ == stmt_text(Statement::Assign(*a), indent as nat),
    decreases a,
{
    let mut s = String::new();
    let target = format_target(&a.target);
    let op = match a.op {
        AssignOp::Assign => "=",
        AssignOp::PlusEq => "=+",
        AssignOp::MinusEq => "=-",
        AssignOp::StarEq => "=*",
        AssignOp::SlashEq => "=/",
        AssignOp::PercentEq => "=%",
        AssignOp::AndEq => "=&",
        AssignOp::OrEq => "=|",
        AssignOp::XorEq => "=^",
        AssignOp::NotEq => "=!",
        AssignOp::LtEq => "=<",
        AssignOp::GtEq => "=>",
        AssignOp::LeEq => "=<=",
        AssignOp::GeEq => "=>=",
    };
    assert(op@ == assign_op_text(a.op));
    start_line(&mut s, indent);
    s.append("(set! ");
    s.append(target.as_str());
    s.append(" ");
    s.append(op);
    s.append(" ");
    let v = format_expr(&a.value);
    s.append(v.as_str());
    s.append(")");
    s.append("\n");
    assert(s@ =~= stmt_text(Statement::Assign(*a), indent as nat));
    s
}

#[verifier::spinoff_prover]
fn format_if(i: &IfStmt, indent: usize) -> (r: String)
    requires
        indent + 4 * stmt_depth(Statement::If(*i)) <= usize::MAX,
    ensures
        r@ == stmt_text(Statement::If(*i), indent as nat),
    decreases i,
{
    let mut s = String::new();
    start_line(&mut s, indent);
    s.append("(if ");
    let c = format_expr(&i.cond);
    s.append(c.as_str());
    s.append("\n");
    let t = format_block(&i.then_block, indent + 2);
    s.append(t.as_str());
    let ghost mid = s@;
    match &i.else_block {
        Some(eb) => {
            start_line(&mut s, indent);
            s.append("  (else");
            s.append("\n");
            let e = format_block(eb, indent + 4);
            s.append(e.as_str());
            start_line(&mut s, indent);
            s.append("  )");
            s.append("\n");
            assert(s@ =~= mid + line(indent as nat, "  (else"@) + block_text(*eb, (indent + 4) as nat) + line(
                indent as nat,
                "  )"@,
            ));
        },
        None => {},
    }
    start_line(&mut s, indent);
    s.append(")");
    s.append("\n");
    assert(s@ =~= stmt_text(Statement::If(*i), indent as nat));
    s
}

/// `head` on a line, then `inner`, then `)` on a line.
fn wrap_block(head: String, inner: String, indent: usize) -> (r: String)
    ensures
        r@ == line(indent as nat, head@) + inner@ + line(indent as nat, ")"@),
{
    let mut s = String::new();
    start_line(&mut s, indent);
    s.append(head.as_str());
    s.append("\n");
    s.append(inner.as_str());
    start_line(&mut s, indent);
    s.append(")");
    s.append("\n");
    assert(s@ =~= line(indent as nat, head@) + inner@ + line(indent as nat, ")"@));
    s
}

fn format_try(tc: &TryCatchStmt, indent: usize) -> (r: String)
    requires
        indent + 4 * stmt_depth(Statement::TryCatch(*tc)) <= usize::MAX,
    ensures
        r@ == stmt_text(Statement::TryCatch(*tc), indent as nat),
    decreases tc,
{
    let mut s = String::new();
    start_line(&mut s, indent);
    s.append("(try");
    s.append("\n");
    let t = format_block(&tc.try_block, indent + 2);
    s.append(t.as_str());
    start_line(&mut s, indent);
    s.append("  (catch (");
    s.append(tc.catch_param.as_str());
    s.append(")");
    s.append("\n");
    let c = format_block(&tc.catch_block, indent + 4);
    s.append(c.as_str());
    start_line(&mut s, indent);
    s.append("  )");
    s.append("\n");
    start_line(&mut s, indent);
    s.append(")");
    s.append("\n");
    assert(s@ =~= stmt_text(Statement::TryCatch(*tc), indent as nat));
    s
}

/// Prints a statement at `indent` spaces.
pub fn format_statement(stmt: &Statement, indent: usize) -> (r: String)
    requires
        indent + 4 * stmt_depth(*stmt) <= usize::MAX,
    ensures
        r@ == stmt_text(*stmt, indent as nat),
    decreases stmt,
{
    match stmt {
        Statement::Let(l) => {
            let mut s = String::new();
            start_line(&mut s, indent);
            s.append("(let ");
            s.append(l.name.as_str());
            s.append(" ");
            let v = format_expr(&l.value);
            s.append(v.as_str());
            s.append(")");
            s.append("\n");
            assert(s@ =~= stmt_text(*stmt, indent as nat));
            s
        },
        Statement::Assign(a) => format_assign(a, indent),
        Statement::If(i) => format_if(i, indent),
        Statement::While(w) => {
            let mut head = String::from_str("(while ");
            let c = format_expr(&w.cond);
            head.append(c.as_str());
            let inner = format_block(&w.body, indent + 2);
            wrap_block(head, inner, indent)
        },
        Statement::For(f) => {
            let mut head = String::from_str("(for ");
            head.append(f.var.as_str());
            head.append(" (in ");
            let it = format_expr(&f.iter);
            head.append(it.as_str());
            head.append(")");
            let inner = format_block(&f.body, indent + 2);
            wrap_block(head, inner, indent)
        },
        Statement::Return(e) => {
            let mut s = String::new();
            start_line(&mut s, indent);
            match e {
                Some(x) => {
                    s.append("(return ");
                    let t = format_expr(x);
                    s.append(t.as_str());
                    s.append(")");
                },
                None => {
                    s.append("(return)");
                },
            }
            s.append("\n");
            assert(s@ =~= stmt_text(*stmt, indent as nat));
            s
        },
        Statement::TryCatch(tc) => format_try(tc, indent),
        Statement::Throw(x) => {
            let mut s = String::new();
            start_line(&mut s, indent);
            s.append("(throw ");
            let t = format_expr(x);
            s.append(t.as_str());
            s.append(")");
            s.append("\n");
            assert(s@ =~= stmt_text(*stmt, indent as nat));
            s
        },
        Statement::Expr(x) => {
            let mut s = String::new();
            start_line(&mut s, indent);
            let t = format_expr(x);
            s.append(t.as_str());
            s.append("\n");
            assert(s@ =~= stmt_text(*stmt, indent as nat));
            s
        },
        Statement::Block(b) => {
            let head = String::from_str("(do");
            let inner = format_block(b, indent + 2);
            wrap_block(head, inner, indent)
        },
    }
}

/// Prints the statements of a block, each at `indent` spaces.
pub fn format_block(block: &Block, indent: usize) -> (r: String)
    requires
        indent + 4 * block_depth(*block) <= usize::MAX,
    ensures
        r@ == block_text(*block, indent as nat),
    decreases block,
{
    let mut s = String::new();
    let n = block.statements.len();
    let mut i: usize = 0;
    while i < n
        invariant
            n == block.statements@.len(),
            i <= n,
            indent + 4 * block_depth(*block) <= usize::MAX,
            s@ == stmts_text(block.statements@.take(i as int), indent as nat),
        decreases n - i,
    {
        proof {
            assert(block.statements@.take(i + 1).drop_last() =~= block.statements@.take(i as int));
            lemma_stmts_depth(block.statements@, i as int);
            assert(decreases_to!(*block => block.statements));
            assert(decreases_to!(block.statements => block.statements@));
            assert(decreases_to!(block.statements@ => block.statements@[i as int]));
        }
        let t = format_statement(&block.statements[i], indent);
        s.append(t.as_str());
        i = i + 1;
    }
    assert(block.statements@.take(n as int) =~= block.statements@);
    s
}

/// Prints a method of a class at `indent` spaces.
pub fn format_method(method: &Method, indent: usize) -> (r: String)
    requires
        indent + 4 + 4 * block_depth(method.body) <= usize::MAX,
    ensures
        r@ == method_text(*method, indent as nat),
{
    let mut head = String::from_str("(def ");
    head.append(method.name.as_str());
    head.append(" ");
    let p = format_params(&method.params);
    head.append(p.as_str());
    let inner = format_block(&method.body, indent + 2);
    wrap_block(head, inner, indent)
}

fn format_methods(methods: &Vec<Method>, indent: usize) -> (r: String)
    requires
        indent + 4 * methods_depth(methods@) <= usize::MAX,
    ensures
        r@ == methods_text(methods@, indent as nat),
{
    let mut s = String::new();
    let n = methods.len();
    let mut i: usize = 0;
    while i < n
        invariant
            n == methods@.len(),
            i <= n,
            indent + 4 * methods_depth(methods@) <= usize::MAX,
            s@ == methods_text(methods@.take(i as int), indent as nat),
        decreases n - i,
    {
        proof {
            assert(methods@.take(i + 1).drop_last() =~= methods@.take(i as int));
            lemma_methods_depth(methods@, i as int);
        }
        let t = format_method(&methods[i], indent);
        s.append(t.as_str());
        i = i + 1;
    }
    assert(methods@.take(n as int) =~= methods@);
    s
}

/// Prints a named function of a module at `indent` spaces.
pub fn format_function(func: &Function, indent: usize) -> (r: String)
    requires
        indent + 4 + 4 * block_depth(func.body) <= usize::MAX,
    ensures
        r@ == function_text(*func, indent as nat),
{
    let mut s = String::new();
    start_line(&mut s, indent);
    s.append("(fun ");
    if func.name.as_str().is_empty() {
        s.append("anon");
    } else {
        s.append(func.name.as_str());
    }
    s.append("\n");
    start_line(&mut s, indent);
    s.append("  ");
    let p = format_params(&func.params);
    s.append(p.as_str());
    s.append("\n");
    let ghost before_caps = s@;
    match &func.captures {
        None => {
            start_line(&mut s, indent);
            s.append("  (captures *)");
            s.append("\n");
        },
        Some(caps) => {
            if caps.len() > 0 {
                start_line(&mut s, indent);
                s.append("  (captures ");
                let j = join_strings(caps, " ");
                s.append(j.as_str());
                s.append(")");
                s.append("\n");
            }
        },
    }
    assert(s@ =~= before_caps + captures_text(func.captures, indent as nat));
    let b = format_block(&func.body, indent + 2);
    s.append(b.as_str());
    start_line(&mut s, indent);
    s.append(")");
    s.append("\n");
    proof {
        let name = if func.name@.len() == 0 {
            "anon"@
        } else {
            func.name@
        };
        assert(before_caps =~= line(indent as nat, "(fun "@ + name) + line(indent as nat, "  "@ + params_text(func.params@)));
    }
    assert(s@ =~= function_text(*func, indent as nat));
    s
}

/// Prints a class (`kind` is `class`) or singleton object (`object`) at
/// `indent` spaces.
pub fn format_class(cls: &Class, indent: usize, kind: &str) -> (r: String)
    requires
        indent + 4 + 4 * methods_depth(cls.methods@) <= usize::MAX,
    ensures
        r@ == class_text(*cls, indent as nat, kind@),
{
    let mut s = String::new();
    start_line(&mut s, indent);
    s.append("(");
    s.append(kind);
    s.append(" ");
    s.append(cls.name.as_str());
    s.append("\n");
    let ghost head = s@;
    if cls.extends.len() > 0 {
        start_line(&mut s, indent);
        s.append("  (extends ");
        let j = join_strings(&cls.extends, " ");
        s.append(j.as_str());
        s.append(")");
        s.append("\n");
    }
    let ghost with_extends = s@;
    let m = format_methods(&cls.methods, indent + 2);
    s.append(m.as_str());
    start_line(&mut s, indent);
    s.append(")");
    s.append("\n");
    assert(head =~= line(indent as nat, "("@ + kind@ + " "@ + cls.name@));
    assert(s@ =~= class_text(*cls, indent as nat, kind@));
    s
}

/// Prints a top-level item at `indent` spaces.
pub fn format_item(item: &Item, indent: usize) -> (r: String)
    requires
        indent + 4 * item_depth(*item) <= usize::MAX,
    ensures
        r@ == item_text(*item, indent as nat),
{
    match item {
        Item::Function(f) => format_function(f, indent),
        Item::Class(c) => format_class(c, indent, "class"),
        Item::Object(o) => format_class(o, indent, "object"),
    }
}

/// Prints a module at `indent` spaces.
pub fn format_module(module: &Module, indent: usize) -> (r: String)
    requires
        indent + 4 * module_depth(*module) <= usize::MAX,
    ensures
        r@ == module_text(*module, indent as nat),
{
    let mut s = String::new();
    start_line(&mut s, indent);
    s.append("(module ");
    s.append(module.path.as_str());
    s.append("\n");
    let ghost head = s@;
    let n = module.items.len();
    let mut i: usize = 0;
    while i < n
        invariant
            n == module.items@.len(),
            i <= n,
            indent + 4 * module_depth(*module) <= usize::MAX,
            s@ == head + items_text(module.items@.take(i as int), (indent + 2) as nat),
        decreases n - i,
    {
        proof {
            assert(module.items@.take(i + 1).drop_last() =~= module.items@.take(i as int));
            lemma_items_depth(module.items@, i as int);
        }
        let t = format_item(&module.items[i], indent + 2);
        s.append(t.as_str());
        i = i + 1;
    }
    assert(module.items@.take(n as int) =~= module.items@);
    start_line(&mut s, indent);
    s.append(")");
    s.append("\n");
    assert(s@ =~= module_text(*module, indent as nat));
    s
}

/// Prints a module as a tree of parenthesised forms, two spaces of
/// indentation per level.
pub fn pretty_print(module: &Module) -> (r: String)
    requires
        4 * module_depth(*module) <= usize::MAX,
    ensures
        r@ == module_text(*module, 0),
{
    format_module(module, 0)
}

} // verus!
