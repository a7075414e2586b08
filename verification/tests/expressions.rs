use vit::ast::{Expr, Opcode};
use vit::vit::scope::{Scope, Variable};
use vit::vit::State;

fn number(n: i32) -> Box<Expr> {
    Box::new(Expr::Number(false, Box::new(Expr::Integer(n))))
}

fn id(name: &str) -> Box<Expr> {
    Box::new(Expr::Id(name.to_string()))
}

fn op(l: Box<Expr>, opcode: Opcode, r: Box<Expr>) -> Box<Expr> {
    Box::new(Expr::Op(l, opcode, r))
}

#[test]
fn mod_operator() {
    // a % 2
    let expr = op(id("a"), Opcode::Mod, number(2));
    let mut result = String::new();
    let mut stack: Vec<Scope> = vec![];

    let mut scope = Scope::new();
    scope.insert(
        "a".to_string(),
        Variable {
            address: 0,
            initialized: true,
        },
    );
    stack.push(scope);

    let _ = State::parse_expression(&mut stack, *expr, &mut result);
    assert_eq!(
        result,
        "lod #0\nlod #0\nldc 2\ndiv\nto int\nldc 2\nmul\nsub\n"
    );
}

#[test]
fn valid_expression() {
    // 2 + 3 * 4 - 3
    let expr = op(
        op(number(2), Opcode::Add, op(number(3), Opcode::Mul, number(4))),
        Opcode::Sub,
        number(3),
    );
    let mut result = String::new();
    let mut stack: Vec<Scope> = vec![];
    let _ = State::parse_expression(&mut stack, *expr, &mut result);
    assert_eq!(result, "ldc 2\nldc 3\nldc 4\nmul\nadd\nldc 3\nsub\n");
}

#[test]
fn expression_with_undefined_id() {
    // 2 + 3 * a - 3
    let expr = op(
        op(number(2), Opcode::Add, op(number(3), Opcode::Mul, id("a"))),
        Opcode::Sub,
        number(3),
    );

    let mut result = String::new();

    let mut stack: Vec<Scope> = vec![];
    stack.push(Scope::new());

    assert!(State::parse_expression(&mut stack, *expr, &mut result).is_err());
}

#[test]
fn valid_expression_with_id() {
    // (7 * (start + 2) - 2) + 2 / a
    let expr = op(
        op(
            op(number(7), Opcode::Mul, op(id("start"), Opcode::Add, number(2))),
            Opcode::Sub,
            number(2),
        ),
        Opcode::Add,
        op(number(2), Opcode::Div, id("a")),
    );

    let mut result = String::new();

    let mut stack: Vec<Scope> = vec![];
    let mut table: Scope = Scope::new();

    table.insert(
        "a".to_string(),
        Variable {
            address: 0,
            initialized: true,
        },
    );
    table.insert(
        "start".to_string(),
        Variable {
            address: 1,
            initialized: true,
        },
    );

    stack.push(table);

    let _ = State::parse_expression(&mut stack, *expr, &mut result);
    assert_eq!(
        result,
        "ldc 7\nlod #1\nldc 2\nadd\nmul\nldc 2\nsub\nldc 2\nlod #0\ndiv\nadd\n"
    );
}

#[test]
fn valid_expression_with_multiple_scopes() {
    // 2 + a - 3 * b
    let expr = op(
        op(number(2), Opcode::Add, id("a")),
        Opcode::Sub,
        op(number(3), Opcode::Mul, id("b")),
    );

    let mut result = String::new();

    let mut stack: Vec<Scope> = vec![];

    let mut table: Scope = Scope::new();

    table.insert(
        "a".to_string(),
        Variable {
            address: 0,
            initialized: true,
        },
    );
    table.insert(
        "b".to_string(),
        Variable {
            address: 1,
            initialized: true,
        },
    );

    stack.push(table);

    let mut table: Scope = Scope::new();
    table.insert(
        "b".to_string(),
        Variable {
            address: 2,
            initialized: true,
        },
    );

    stack.push(table);

    let _ = State::parse_expression(&mut stack, *expr, &mut result);
    assert_eq!(result, "ldc 2\nlod #0\nadd\nldc 3\nlod #2\nmul\nsub\n");
}

#[test]
fn valid_simple_predicate() {
    // 2 + 3 * a > b / 2
    let expr = op(
        op(number(2), Opcode::Add, op(number(3), Opcode::Mul, id("a"))),
        Opcode::Grt,
        op(id("b"), Opcode::Div, number(2)),
    );

    let mut result = String::new();

    let mut table: Scope = Scope::new();
    table.insert(
        "a".to_string(),
        Variable {
            address: 0,
            initialized: true,
        },
    );
    table.insert(
        "b".to_string(),
        Variable {
            address: 1,
            initialized: true,
        },
    );

    let mut stack: Vec<Scope> = vec![];
    stack.push(table);

    assert!(State::parse_expression(&mut stack, *expr, &mut result).is_ok());
    assert_eq!(
        result,
        "ldc 2\nldc 3\nlod #0\nmul\nadd\nlod #1\nldc 2\ndiv\ngrt\n"
    );
}

#[test]
fn valid_predicate_with_connectors() {
    // 2 + 3 * a > b / 2 and x == 2 or 2 != 2
    let expr = op(
        op(
            op(
                op(number(2), Opcode::Add, op(number(3), Opcode::Mul, id("a"))),
                Opcode::Grt,
                op(id("b"), Opcode::Div, number(2)),
            ),
            Opcode::And,
            op(id("x"), Opcode::Eq, number(2)),
        ),
        Opcode::Or,
        op(number(2), Opcode::Neq, number(2)),
    );
    println!("{}", expr.text());
    let mut result = String::new();

    let mut table: Scope = Scope::new();
    table.insert(
        "a".to_string(),
        Variable {
            address: 0,
            initialized: true,
        },
    );
    table.insert(
        "b".to_string(),
        Variable {
            address: 1,
            initialized: true,
        },
    );
    table.insert(
        "x".to_string(),
        Variable {
            address: 2,
            initialized: true,
        },
    );

    let mut stack: Vec<Scope> = vec![];
    stack.push(table);

    assert!(State::parse_expression(&mut stack, *expr, &mut result).is_ok());
    assert_eq!(
        result,
        "\
        ldc 2
ldc 3
lod #0
mul
add
lod #1
ldc 2
div
grt
lod #2
ldc 2
equ
and
ldc 2
ldc 2
neq
or\n"
    );
}
