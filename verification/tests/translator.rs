use vit::ast::{Expr, Opcode, Statement};
use vit::translator::Translator;

fn number(n: i32) -> Box<Expr> {
    Box::new(Expr::Number(false, Box::new(Expr::Integer(n))))
}

fn negative(n: i32) -> Box<Expr> {
    Box::new(Expr::Number(true, Box::new(Expr::Integer(n))))
}

fn float(written: &str) -> Box<Expr> {
    Box::new(Expr::Number(false, Box::new(Expr::Float(written.to_string()))))
}

fn id(name: &str) -> Box<Expr> {
    Box::new(Expr::Id(name.to_string()))
}

fn op(l: Box<Expr>, opcode: Opcode, r: Box<Expr>) -> Box<Expr> {
    Box::new(Expr::Op(l, opcode, r))
}

fn declare(name: &str, e: Option<Box<Expr>>) -> Statement {
    Statement::Declaration(name.to_string(), e)
}

fn assign(name: &str, e: Box<Expr>) -> Statement {
    Statement::Assignment(name.to_string(), e)
}

fn write(name: &str) -> Statement {
    Statement::WriteId(name.to_string())
}

fn write_literal(quoted: &str) -> Statement {
    Statement::WriteLiteral(quoted.to_string())
}

#[test]
fn translator_valid_declaration() {
    let mut translator = Translator::new();
    let statement = Statement::Declaration("a".to_string(), None);

    let result = translator.parse_statement(statement);
    assert!(result.unwrap().is_empty());
    assert_eq!(translator.current_address(), 1);
    assert!(translator.stack().get(0).unwrap().contains_key("a"));
}

#[test]
fn translator_valid_declaration_with_assignment() {
    let mut translator = Translator::new();

    _ = translator.parse_statement(Statement::Declaration("a".to_string(), Some(number(24))));

    // b = a * 2 + 1
    let statement = Statement::Declaration(
        "b".to_string(),
        Some(op(op(id("a"), Opcode::Mul, number(2)), Opcode::Add, number(1))),
    );

    let result = translator.parse_statement(statement);
    assert_eq!(
        result.unwrap(),
        "lda #1\nlod #0\nldc 2\nmul\nldc 1\nadd\nsto\n"
    );
    assert_eq!(translator.current_address(), 2);
    assert!(translator.stack().get(0).unwrap().contains_key("b"));
}

#[test]
fn translator_declaration_with_shadowing() {
    let mut translator = Translator::new();

    let _ = translator.parse_statement(Statement::Declaration("a".to_string(), Some(number(24))));

    let statement = Statement::Declaration("a".to_string(), Some(number(4)));

    let result = translator.parse_statement(statement);
    assert!(result.is_err());
}

#[test]
fn translator_declaration_inside_inner_scope() {
    let mut translator = Translator::new();

    let _ = translator.parse_statement(Statement::Declaration("a".to_string(), Some(number(24))));

    translator.push_scope();

    // b = a * 2
    let statement = Statement::Declaration(
        "b".to_string(),
        Some(op(id("a"), Opcode::Mul, number(2))),
    );

    let result = translator.parse_statement(statement);
    assert_eq!(result.unwrap(), "lda #1\nlod #0\nldc 2\nmul\nsto\n");
    assert_eq!(translator.current_address(), 2);
    assert!(translator.stack().last().unwrap().contains_key("b"));
}

#[test]
fn translator_use_after_scope() {
    let mut translator = Translator::new();

    translator.push_scope();

    let statement = Statement::Declaration("b".to_string(), Some(number(2)));

    let _ = translator.parse_statement(statement);

    translator.pop_scope();

    // a = b + 2
    let statement = Statement::Declaration(
        "a".to_string(),
        Some(op(id("b"), Opcode::Add, number(2))),
    );

    let result = translator.parse_statement(statement);

    assert!(result.is_err());
    assert!(result.unwrap_err().message().contains("undeclared variable"));
}

#[test]
fn translator_assign_to_undefined_variable() {
    let mut translator = Translator::new();

    let result = translator.parse_statement(Statement::Assignment("a".to_string(), number(24)));

    assert!(result.is_err());
}

#[test]
fn translator_assign_to_variable() {
    let mut translator = Translator::new();

    let _ = translator.parse_statement(Statement::Declaration("age".to_string(), None));

    let result = translator
        .parse_statement(Statement::Assignment("age".to_string(), number(24)))
        .unwrap();

    assert_eq!(result, "lda #0\nldc 24\nsto\n");
}

#[test]
fn translator_assign_expression_to_variable() {
    let mut translator = Translator::new();

    let _ = translator.parse_statement(Statement::Declaration("average".to_string(), None));

    let _ = translator.parse_statement(Statement::Declaration("n1".to_string(), Some(float("7.8"))));

    let _ = translator.parse_statement(Statement::Declaration("n2".to_string(), Some(float("9.0"))));

    // average = (n1 + n2) / 2
    let result = translator
        .parse_statement(Statement::Assignment(
            "average".to_string(),
            op(op(id("n1"), Opcode::Add, id("n2")), Opcode::Div, number(2)),
        ))
        .unwrap();

    assert_eq!(result, "lda #0\nlod #1\nlod #2\nadd\nldc 2\ndiv\nsto\n");
    assert_eq!(translator.current_address(), 3);
}

#[test]
fn translator_read_to_variable() {
    let mut translator = Translator::new();
    let _ = translator.parse_statement(Statement::Declaration("age".to_string(), None));

    let result = translator.parse_statement(Statement::Read("age".to_string()));

    assert_eq!(result.unwrap(), "lda #0\nrd\nsto\n");
}

#[test]
fn translator_read_to_undeclared_variable() {
    let mut translator = Translator::new();

    let result = translator.parse_statement(Statement::Read("age".to_string()));

    assert!(result.is_err());
    assert!(result.unwrap_err().message().contains("undeclared variable"));
}

#[test]
fn translator_write_unitialized_variable() {
    let mut translator = Translator::new();

    let _ = translator.parse_statement(Statement::Declaration("a".to_string(), None));

    let result = translator.write("a".to_string());

    println!("{result:?}");
    assert!(result.is_err());
    assert!(result.unwrap_err().message().contains("unitialized"));
}

#[test]
fn translator_write_valid_variable() {
    let mut translator = Translator::new();

    let _ = translator.parse_statement(Statement::Declaration("a".to_string(), Some(negative(50))));

    let result = translator.write("a".to_string());

    println!("{result:?}");
    assert_eq!(result.unwrap(), "lod #0\nwri\n");
}

#[test]
fn translator_write_string() {
    let mut translator = Translator::new();

    let result = translator.write_string("hello, world!\\n".to_string());

    assert_eq!(result.unwrap(), "ldc \"hello, world!\\n\"\nwri\n");
}

#[test]
fn translator_infinite_loop() {
    // let a = 24;
    // loop {
    //     a = a + 1;
    //     write a;
    // }
    let program = vec![
        declare("a", Some(number(24))),
        Statement::Loop(vec![
            assign("a", op(id("a"), Opcode::Add, number(1))),
            write("a"),
        ]),
    ];

    let mut translator = Translator::new();

    let result = translator.run(program);

    assert_eq!(
        result.unwrap(),
        "lda #0\nldc 24\nsto\nL0:\nlda #0\nlod #0\nldc 1\nadd\nsto\nlod #0\nwri\nujp L0\nE0:\n"
    );
}

#[test]
fn translator_test_break() {
    // loop {
    //     write 'Loop 0.\n';
    //     loop {
    //         write 'Loop 1.\n';
    //         loop {
    //             write 'Loop 2.\n';
    //             break;
    //         }
    //         break;
    //     }
    //     break;
    // }
    let program = vec![Statement::Loop(vec![
        write_literal("'Loop 0.\\n'"),
        Statement::Loop(vec![
            write_literal("'Loop 1.\\n'"),
            Statement::Loop(vec![write_literal("'Loop 2.\\n'"), Statement::Break]),
            Statement::Break,
        ]),
        Statement::Break,
    ])];

    let mut translator = Translator::new();

    let result = translator.run(program);

    assert_eq!(result.unwrap(), "L0:\nldc \"Loop 0.\\n\"\nwri\nL1:\nldc \"Loop 1.\\n\"\nwri\nL2:\nldc \"Loop 2.\\n\"\nwri\nujp E2\nujp L2\nE2:\nujp E1\nujp L1\nE1:\nujp E0\nujp L0\nE0:\n");
}

#[test]
fn translator_test_scope() {
    // loop {
    //     let a = 2;
    //     break;
    // }
    // write a;
    let program = vec![
        Statement::Loop(vec![declare("a", Some(number(2))), Statement::Break]),
        write("a"),
    ];

    let mut translator = Translator::new();

    let result = translator.run(program);

    assert!(result.is_err());
    assert!(result.unwrap_err().message().contains("undeclared"));
    assert_eq!(translator.current_address(), 0);
}

#[test]
fn translator_keeps_its_state_between_fragments() {
    let mut translator = Translator::new();
    assert_eq!(
        translator.run(vec![declare("a", None), Statement::Loop(vec![Statement::Break])]),
        Ok("L0:\nujp E0\nujp L0\nE0:\n".to_string())
    );
    assert_eq!(
        translator.break_loop(),
        Err(vit::error::CompileError::BreakOutsideLoop)
    );
    assert_eq!(translator.read("a".to_string()), Ok("lda #0\nrd\nsto\n".to_string()));
    assert_eq!(
        translator.run(vec![declare("b", None), Statement::Loop(vec![write("a")])]),
        Ok("L1:\nlod #0\nwri\nujp L1\nE1:\n".to_string())
    );
    assert_eq!(translator.current_address(), 2);
}
