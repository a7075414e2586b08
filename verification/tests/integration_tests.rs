use vit::ast::{Expr, Opcode, Statement};

fn number(n: i32) -> Box<Expr> {
    Box::new(Expr::Number(false, Box::new(Expr::Integer(n))))
}

fn id(name: &str) -> Box<Expr> {
    Box::new(Expr::Id(name.to_string()))
}

fn op(l: Box<Expr>, opcode: Opcode, r: Box<Expr>) -> Box<Expr> {
    Box::new(Expr::Op(l, opcode, r))
}

#[test]
fn even_or_odd() {
    // let num;
    // write 'Input a number: ';
    // read num;
    // write 'The number is ';
    // if num % 2 == 0 {
    //     write 'even.\n';
    // } else {
    //     write 'odd.\n';
    // }
    let program = vec![
        Statement::Declaration("num".to_string(), None),
        Statement::WriteLiteral("'Input a number: '".to_string()),
        Statement::Read("num".to_string()),
        Statement::WriteLiteral("'The number is '".to_string()),
        Statement::If(
            op(op(id("num"), Opcode::Mod, number(2)), Opcode::Eq, number(0)),
            vec![Statement::WriteLiteral("'even.\\n'".to_string())],
            Some(vec![Statement::WriteLiteral("'odd.\\n'".to_string())]),
        ),
    ];

    let result = vit::vit::build(program).unwrap();
    assert_eq!(result, "ldc \"Input a number: \"\nwri\nlda #0\nrd\nsto\nldc \"The number is \"\nwri\nlod #0\nlod #0\nldc 2\ndiv\nto int\nldc 2\nmul\nsub\nldc 0\nequ\nfjp F0\nldc \"even.\\n\"\nwri\nujp E0\nF0:\nldc \"odd.\\n\"\nwri\nE0:\nstp\n")
}
