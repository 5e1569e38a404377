use lion_calculator::lexer::{tokenise, Token};
use lion_calculator::parser::{compile, Func, Instr};

fn show(code: &[Instr]) -> String {
    format!("{:?}", code)
}

#[test]
fn tokenise_operators_and_numbers() {
    let t = tokenise("2 + 3.5e-2×(x_1)").unwrap();
    assert_eq!(
        format!("{:?}", t),
        "[Num(\"2\"), Plus, Num(\"3.5e-2\"), Star, LParen, Ident(\"x_1\"), RParen, End]"
    );
    assert!(matches!(tokenise("").unwrap().as_slice(), [Token::End]));
}

#[test]
fn tokenise_errors() {
    assert_eq!(tokenise("2 $ 3").unwrap_err(), "Unknown character '$'");
    assert_eq!(tokenise("1.2.3").unwrap_err(), "Bad number: 1.2.3");
    assert_eq!(tokenise("1e").unwrap_err(), "Bad number: 1e");
    assert_eq!(tokenise(".").unwrap_err(), "Bad number: .");
    assert!(tokenise(".5").is_ok());
    assert!(tokenise("5.").is_ok());
    assert!(tokenise("1E+3").is_ok());
}

#[test]
fn number_literals_parse_as_f64() {
    for s in ["0", "12", ".5", "5.", "1e3", "1E-3", "2.5e+10", "007"] {
        let t = tokenise(s).unwrap();
        match &t[0] {
            Token::Num(text) => assert!(text.parse::<f64>().is_ok(), "{text}"),
            other => panic!("{other:?}"),
        }
    }
}

#[test]
fn compile_precedence() {
    assert_eq!(show(&compile("2+3*4")), "[Num(\"2\"), Num(\"3\"), Num(\"4\"), Mul, Add]");
    assert_eq!(show(&compile("(2+3)*4")), "[Num(\"2\"), Num(\"3\"), Add, Num(\"4\"), Mul]");
    assert_eq!(show(&compile("10-4-3")), "[Num(\"10\"), Num(\"4\"), Sub, Num(\"3\"), Sub]");
    assert_eq!(show(&compile("10%3")), "[Num(\"10\"), Num(\"3\"), Rem]");
    assert_eq!(show(&compile("8/2")), "[Num(\"8\"), Num(\"2\"), Div]");
}

#[test]
fn compile_power_right_assoc() {
    assert_eq!(show(&compile("2^3^2")), "[Num(\"2\"), Num(\"3\"), Num(\"2\"), Pow, Pow]");
    assert_eq!(show(&compile("-2^2")), "[Num(\"2\"), Neg, Num(\"2\"), Pow]");
}

#[test]
fn compile_constants_and_functions() {
    assert_eq!(show(&compile("pi")), "[Pi]");
    assert_eq!(show(&compile("π")), "[Pi]");
    assert_eq!(show(&compile("e")), "[E]");
    assert_eq!(show(&compile("sin(90)")), "[Num(\"90\"), Call(Sin)]");
    assert_eq!(show(&compile("fact(5)")), "[Num(\"5\"), Call(Fact)]");
    assert_eq!(Func::from_name("sqrt"), Some(Func::Sqrt));
    assert_eq!(Func::from_name("SQRT"), None);
}

#[test]
fn compile_errors_in_evaluation_order() {
    assert_eq!(show(&compile("2+")), "[Num(\"2\"), Fail(\"Unexpected token: End\")]");
    assert_eq!(show(&compile("(2")), "[Num(\"2\"), Fail(\"Expected ')'\")]");
    assert_eq!(show(&compile("foo")), "[Fail(\"Unknown identifier 'foo'\")]");
    assert_eq!(show(&compile("foo(1)")), "[Num(\"1\"), Fail(\"Unknown function 'foo'\")]");
    assert_eq!(show(&compile("sin(1")), "[Num(\"1\"), Fail(\"Expected ')' after sin(...)\")]");
    assert_eq!(show(&compile("1 2")), "[Num(\"1\"), Fail(\"Unexpected input at position 1\")]");
    assert_eq!(show(&compile("1/0 + (2")), "[Num(\"1\"), Num(\"0\"), Div, Num(\"2\"), Fail(\"Expected ')'\")]");
    assert_eq!(show(&compile("--3")), "[Fail(\"Unexpected token: Minus\")]");
    assert_eq!(show(&compile("2 # 3")), "[Fail(\"Unknown character '#'\")]");
    assert_eq!(show(&compile("pi(3)")), "[Pi, Fail(\"Unexpected input at position 1\")]");
}

#[test]
fn compiled_programs_have_stack_shape() {
    for src in ["1+2*3-4/5%6^7", "-(1)", "sqrt(abs(-4))", "((((2))))", "2^-1", "1+", "(((", ")"] {
        let code = compile(src);
        let mut depth: i64 = 0;
        let mut failed = false;
        for (i, ins) in code.iter().enumerate() {
            match ins {
                Instr::Num(_) | Instr::Pi | Instr::E => depth += 1,
                Instr::Neg | Instr::Call(_) => assert!(depth >= 1),
                Instr::Fail(_) => {
                    assert_eq!(i, code.len() - 1);
                    failed = true;
                }
                _ => {
                    assert!(depth >= 2);
                    depth -= 1;
                }
            }
        }
        assert!(failed || depth == 1, "{src}");
    }
}

#[test]
fn identifiers_take_letters_digits_underscore_and_pi() {
    let t = tokenise("π2 _a1 é").unwrap_err();
    assert_eq!(t, "Unknown character 'é'");
    let t = tokenise("π2 _a1 xé").unwrap();
    assert_eq!(format!("{:?}", t), "[Ident(\"π2\"), Ident(\"_a1\"), Ident(\"xé\"), End]");
}
