use pakhi::common::io::{MockIO, IO};
use pakhi::common::number::Num;
use pakhi::common::platform::Platform;
use pakhi::frontend::lexer::TokenKind::{Identifier, Plus};
use pakhi::frontend::lexer::{Token, TokenKind};
use pakhi::frontend::parser::AssignmentKind::FirstAssignment;
use pakhi::frontend::parser::Expr::AddOrSub;
use pakhi::frontend::parser::Primary::NamelessRecord;
use pakhi::frontend::parser::{
    parse, And, Assignment, AssignmentKind, Binary, Expr, Or, Primary, Stmt, Unary,
};
use pakhi::frontend::{lexer, parser};

struct Host {
    files: std::collections::BTreeMap<String, String>,
    dirs: std::collections::BTreeSet<String>,
    input: Vec<String>,
}

impl Host {
    fn new() -> Host {
        Host {
            files: std::collections::BTreeMap::new(),
            dirs: std::collections::BTreeSet::new(),
            input: Vec::new(),
        }
    }
}

fn num(value: f64) -> Num {
    Num { bits: value.to_bits() }
}

fn val(n: Num) -> f64 {
    f64::from_bits(n.bits)
}

impl Platform for Host {
    fn add(&self, a: Num, b: Num) -> Num {
        num(val(a) + val(b))
    }

    fn sub(&self, a: Num, b: Num) -> Num {
        num(val(a) - val(b))
    }

    fn mul(&self, a: Num, b: Num) -> Num {
        num(val(a) * val(b))
    }

    fn div(&self, a: Num, b: Num) -> Num {
        num(val(a) / val(b))
    }

    fn rem(&self, a: Num, b: Num) -> Num {
        num(val(a) % val(b))
    }

    fn powf(&self, a: Num, b: Num) -> Num {
        num(val(a).powf(val(b)))
    }

    fn num_to_string(&self, n: Num) -> String {
        val(n).to_string()
    }

    fn parse_num(&self, text: &str) -> Result<Num, String> {
        match text.parse::<f64>() {
            Ok(v) => Ok(num(v)),
            Err(e) => Err(format!("{:?}", e)),
        }
    }

    fn read_line(&mut self) -> Result<String, String> {
        if self.input.is_empty() {
            Err("end of input".to_string())
        } else {
            Ok(self.input.remove(0).trim_end().to_string())
        }
    }

    fn read_file(&mut self, path: &str) -> Result<String, String> {
        match self.files.get(path) {
            Some(content) => Ok(content.clone()),
            None => Err("No such file or directory".to_string()),
        }
    }

    fn write_file(&mut self, path: &str, content: &str) -> Result<(), String> {
        self.files.insert(path.to_string(), content.to_string());
        Ok(())
    }

    fn delete_file(&mut self, path: &str) -> Result<(), String> {
        match self.files.remove(path) {
            Some(_) => Ok(()),
            None => Err("No such file or directory".to_string()),
        }
    }

    fn create_dir(&mut self, path: &str) -> Result<(), String> {
        self.dirs.insert(path.trim_end_matches('/').to_string());
        Ok(())
    }

    fn read_dir(&mut self, path: &str) -> Result<Vec<String>, String> {
        let dir = path.trim_end_matches('/').to_string();
        if !self.dirs.contains(&dir) {
            return Err("No such file or directory".to_string());
        }
        let prefix = format!("{}/", dir);
        let mut names = Vec::new();
        for name in self.files.keys() {
            if let Some(rest) = name.strip_prefix(&prefix) {
                if !rest.contains('/') {
                    names.push(rest.to_string());
                }
            }
        }
        Ok(names)
    }

    fn delete_dir(&mut self, path: &str) -> Result<(), String> {
        let dir = path.trim_end_matches('/').to_string();
        if self.dirs.remove(&dir) {
            let prefix = format!("{}/", dir);
            self.files.retain(|name, _| !name.starts_with(&prefix));
            Ok(())
        } else {
            Err("No such file or directory".to_string())
        }
    }

    fn is_file(&mut self, path: &str) -> Result<bool, String> {
        if self.files.contains_key(path) {
            Ok(true)
        } else if self.dirs.contains(path.trim_end_matches('/')) {
            Ok(false)
        } else {
            Err("No such file or directory".to_string())
        }
    }

    fn join_path(&self, base: &str, rest: &str) -> String {
        let rest = rest.strip_prefix("./").unwrap_or(rest);
        if rest.starts_with('/') || base.is_empty() {
            rest.to_string()
        } else if base.ends_with('/') {
            format!("{}{}", base, rest)
        } else {
            format!("{}/{}", base, rest)
        }
    }

    fn file_name(&self, path: &str) -> String {
        match path.rfind('/') {
            Some(i) => path[i + 1..].to_string(),
            None => path.to_string(),
        }
    }

    fn parent_dir(&self, path: &str) -> String {
        match path.rfind('/') {
            Some(i) => path[..i].to_string(),
            None => String::new(),
        }
    }

    fn absolute_parent_dir(&self, path: &str) -> String {
        let parent = self.parent_dir(path);
        if parent.starts_with('/') {
            parent
        } else if parent.is_empty() {
            "/work".to_string()
        } else {
            format!("/work/{}", parent)
        }
    }
}

#[test]
fn parse_test_primary_num() {
    let tokens = lexer::tokenize("দেখাও ৫৩.৬;".chars().collect(),
                                 "test.pakhi".to_string(), &Host::new()).unwrap();
    let parse_result = parse(String::from("test.pakhi"), tokens, &mut MockIO::new(), &Host::new());
    match parse_result {
        Ok(ast) => {
            let expected_ast = Stmt::Print(Expr::Primary(Primary::Num(num(53.6)), 1, "test.pakhi".to_string())
                                           , 1, "test.pakhi".to_string());
            assert_eq!(expected_ast, ast[0]);
        },
        Err(e) => panic!("err: {:?}", e),
    }
}

#[test]
fn parse_test_binary_addition() {
    let tokens = lexer::tokenize("দেখাও -৫৩.৬ + ৬;".chars().collect(),
                                 "test.pakhi".to_string(), &Host::new()).unwrap();
    let parse_result = parse(String::from("test.pakhi"), tokens, &mut MockIO::new(), &Host::new());
    match parse_result {
        Ok(ast) => {
            let expected_ast = Stmt::Print(Expr::AddOrSub(Binary {
                operator: TokenKind::Plus,
                left: Box::new(Expr::Primary(Primary::Num(num(-53.6)), 1, "test.pakhi".to_string())),
                right: Box::new(Expr::Primary(Primary::Num(num(6.0)), 1, "test.pakhi".to_string())),
            }, 1, "test.pakhi".to_string()), 1, "test.pakhi".to_string());
            assert_eq!(expected_ast, ast[0]);
        },
        Err(e) => panic!("err: {:?}", e),
    }
}

#[test]
fn parse_test_primary_string() {
    let tokens = lexer::tokenize("দেখাও \"this is a test\";".chars().collect(),
                                 "test.pakhi".to_string(), &Host::new()).unwrap();
    let parse_result = parse(String::from("test.pakhi"), tokens, &mut MockIO::new(), &Host::new());
    match parse_result {
        Ok(ast) => {
            let expected_ast = Stmt::Print(Expr::Primary(Primary::String(String::from("this is a test")),
                                                         1, "test.pakhi".to_string()), 1, "test.pakhi".to_string());
            assert_eq!(expected_ast, ast[0]);
        },
        Err(e) => panic!("err: {:?}", e),
    }
}

#[test]
fn parse_test_print_expr() {
    let tokens = lexer::tokenize("দেখাও ১ + ৩ * ২;".chars().collect(),
                                 "test.pakhi".to_string(), &Host::new()).unwrap();
    let parse_result = parse(String::from("test.pakhi"), tokens, &mut MockIO::new(), &Host::new());
    match parse_result {
        Ok(ast) => {
            let expected_ast = Stmt::Print(Expr::AddOrSub(Binary {
                operator: TokenKind::Plus,
                left: Box::from(Expr::Primary(Primary::Num(num(1.0)), 1, "test.pakhi".to_string())),
                right: Box::from(Expr::MulOrDivOrRemainder(Binary {
                    operator: TokenKind::Multiply,
                    left: Box::from(Expr::Primary(Primary::Num(num(3.0)), 1, "test.pakhi".to_string())),
                    right: Box::from(Expr::Primary(Primary::Num(num(2.0)), 1, "test.pakhi".to_string())),
                }, 1, "test.pakhi".to_string()))
            }, 1, "test.pakhi".to_string()), 1, "test.pakhi".to_string());
            assert_eq!(expected_ast, ast[0]);
    },
        Err(e) => panic!("err: {:?}", e),
    }
}

#[test]
fn parse_test_print_equality() {
    let tokens = lexer::tokenize("দেখাও ১ == ১;".chars().collect(),
                                 "test.pakhi".to_string(), &Host::new()).unwrap();
    let parse_result = parse(String::from("test.pakhi"), tokens, &mut MockIO::new(), &Host::new());
    match parse_result {
        Ok(ast) => {
            let expected_ast = Stmt::Print(Expr::Equality(Binary {
                operator: TokenKind::EqualEqual,
                left: Box::from(Expr::Primary(Primary::Num(num(1.0)), 1, "test.pakhi".to_string())),
                right: Box::from(Expr::Primary(Primary::Num(num(1.0)), 1, "test.pakhi".to_string())),
            }, 1, "test.pakhi".to_string()), 1, "test.pakhi".to_string());

            assert_eq!(expected_ast, ast[0]);
        },
        Err(e) => panic!("err: {:?}", e),
    }
}

#[test]
fn parse_test_print_not_equal() {
    let tokens = lexer::tokenize("দেখাও ১ != ১;".chars().collect(),
                                 "test.pakhi".to_string(), &Host::new()).unwrap();
    let parse_result = parse(String::from("test.pakhi"), tokens, &mut MockIO::new(), &Host::new());
    match parse_result {
        Ok(ast) => {
            let expected_ast = Stmt::Print(Expr::Equality(Binary {
                operator: TokenKind::NotEqual,
                left: Box::from(Expr::Primary(Primary::Num(num(1.0)), 1, "test.pakhi".to_string())),
                right: Box::from(Expr::Primary(Primary::Num(num(1.0)), 1, "test.pakhi".to_string())),
            }, 1, "test.pakhi".to_string()), 1, "test.pakhi".to_string());

            assert_eq!(expected_ast, ast[0]);
        },
        Err(e) => panic!("err: {:?}", e),
    }
}

#[test]
fn parse_test_print_comparison_less() {
    let tokens = lexer::tokenize("দেখাও ১ < ১;".chars().collect(),
                                 "test.pakhi".to_string(), &Host::new()).unwrap();
    let parse_result = parse(String::from("test.pakhi"), tokens, &mut MockIO::new(), &Host::new());
    match parse_result {
        Ok(ast) => {
            let expected_ast = Stmt::Print(Expr::Comparison(Binary {
                operator: TokenKind::LessThan,
                left: Box::from(Expr::Primary(Primary::Num(num(1.0)), 1, "test.pakhi".to_string())),
                right: Box::from(Expr::Primary(Primary::Num(num(1.0)), 1, "test.pakhi".to_string())),
            }, 1, "test.pakhi".to_string()), 1, "test.pakhi".to_string());

            assert_eq!(expected_ast, ast[0]);
        }
        Err(e) => panic!("err: {:?}", e),
    }
}

#[test]
fn parse_test_comaprison_greater() {
    let tokens = lexer::tokenize("দেখাও ১ > ১;".chars().collect(),
                                 "test.pakhi".to_string(), &Host::new()).unwrap();
    let parse_result = parse(String::from("test.pakhi"), tokens, &mut MockIO::new(), &Host::new());
    match parse_result {
        Ok(ast) => {
            let expected_ast = Stmt::Print(Expr::Comparison(Binary {
                operator: TokenKind::GreaterThan,
                left: Box::from(Expr::Primary(Primary::Num(num(1.0)), 1, "test.pakhi".to_string())),
                right: Box::from(Expr::Primary(Primary::Num(num(1.0)), 1, "test.pakhi".to_string())),
            }, 1, "test.pakhi".to_string()), 1, "test.pakhi".to_string());

            assert_eq!(expected_ast, ast[0]);
        }
        Err(e) => panic!("err: {:?}", e),
    }
}

#[test]
fn parse_test_comparison_less_or_equal() {
    let tokens = lexer::tokenize("দেখাও ১ <= ১;".chars().collect(),
                                 "test.pakhi".to_string(), &Host::new()).unwrap();
    let parse_result = parse(String::from("test.pakhi"), tokens, &mut MockIO::new(), &Host::new());
    match parse_result {
        Ok(ast) => {
            let expected_ast = Stmt::Print(Expr::Comparison(Binary {
                operator: TokenKind::LessThanOrEqual,
                left: Box::from(Expr::Primary(Primary::Num(num(1.0)), 1, "test.pakhi".to_string())),
                right: Box::from(Expr::Primary(Primary::Num(num(1.0)), 1, "test.pakhi".to_string())),
            }, 1, "test.pakhi".to_string()), 1, "test.pakhi".to_string());

            assert_eq!(expected_ast, ast[0]);
        },
        Err(e) => panic!("err: {:?}", e),
    }
}

#[test]
fn parse_test_comaprison_greater_or_equla() {
    let tokens = lexer::tokenize("দেখাও ১ >= ১;".chars().collect(),
                                 "test.pakhi".to_string(), &Host::new()).unwrap();
    let parse_result = parse(String::from("test.pakhi"), tokens, &mut MockIO::new(), &Host::new());
    match parse_result {
        Ok(ast) => {
            let expected_ast = Stmt::Print(Expr::Comparison(Binary {
                operator: TokenKind::GreaterThanOrEqual,
                left: Box::from(Expr::Primary(Primary::Num(num(1.0)), 1, "test.pakhi".to_string())),
                right: Box::from(Expr::Primary(Primary::Num(num(1.0)), 1, "test.pakhi".to_string())),
            }, 1, "test.pakhi".to_string()), 1, "test.pakhi".to_string());

            assert_eq!(expected_ast, ast[0]);
        },
        Err(e) => panic!("err: {:?}", e),
    }
}

#[test]
fn parse_test_print_logical_and() {
    let tokens = lexer::tokenize("দেখাও সত্য & মিথ্যা;".chars().collect(),
                                 "test.pakhi".to_string(), &Host::new()).unwrap();
    let parse_result = parse(String::from("test.pakhi"), tokens, &mut MockIO::new(), &Host::new());
    match parse_result {
        Ok(ast) => {
            let expected_ast = Stmt::Print(Expr::And(And {
                left: Box::from(Expr::Primary(Primary::Bool(true), 1, "test.pakhi".to_string())),
                right: Box::from(Expr::Primary(Primary::Bool(false), 1, "test.pakhi".to_string())),
            }, 1, "test.pakhi".to_string()), 1, "test.pakhi".to_string());

            assert_eq!(expected_ast, ast[0]);
        },
        Err(e) => panic!("err: {:?}", e),
    }
}

#[test]
fn parse_test_print_logical_or() {
    let tokens = lexer::tokenize("দেখাও সত্য | মিথ্যা;".chars().collect(),
                                 "test.pakhi".to_string(), &Host::new()).unwrap();
    let parse_result = parse(String::from("test.pakhi"), tokens, &mut MockIO::new(), &Host::new());
    match parse_result {
        Ok(ast) => {
            let expected_ast = Stmt::Print(Expr::Or(Or {
                left: Box::from(Expr::Primary(Primary::Bool(true), 1, "test.pakhi".to_string())),
                right: Box::from(Expr::Primary(Primary::Bool(false), 1, "test.pakhi".to_string())),
            }, 1, "test.pakhi".to_string()), 1, "test.pakhi".to_string());

            assert_eq!(expected_ast, ast[0]);
        },
        Err(e) => panic!("err: {:?}", e),
    }
}

#[test]
fn parse_test_print_logical_not() {
    let tokens = lexer::tokenize("দেখাও !সত্য;".chars().collect(),
                                 "test.pakhi".to_string(), &Host::new()).unwrap();
    let parse_result = parse(String::from("test.pakhi"), tokens, &mut MockIO::new(), &Host::new());
    match parse_result {
        Ok(ast) => {
            let expected_ast = Stmt::Print(Expr::Unary(Unary {
                operator: TokenKind::Not,
                right: Box::from(Expr::Primary(Primary::Bool(true), 1, "test.pakhi".to_string())),
            }, 1, "test.pakhi".to_string()), 1, "test.pakhi".to_string());

            assert_eq!(expected_ast, ast[0]);
        },
        Err(e) => panic!("err: {:?}", e),
    }
}

#[test]
fn parse_test_assignment_string() {
    let tokens = lexer::tokenize("নাম ল = \"red\";".chars().collect(),
                                 "test.pakhi".to_string(), &Host::new()).unwrap();
    let parse_result = parse(String::from("test.pakhi"), tokens, &mut MockIO::new(), &Host::new());
    match parse_result {
        Ok(ast) => {
            let expected_ast = Stmt::Assignment(Assignment {
                kind: AssignmentKind::FirstAssignment,
                var_name: Token {
                    kind: TokenKind::Identifier,
                    lexeme: vec!['ল'],
                    line: 1,
                    src_file_path: "test.pakhi".to_string(),
                },
                indexes: Vec::new(),
                init_value: Some(Expr::Primary(Primary::String("red".to_string()), 1, "test.pakhi".to_string())),
            }, 1, "test.pakhi".to_string());

            assert_eq!(expected_ast, ast[0]);
        },
        Err(e) => panic!("err: {:?}", e),
    }
}

#[test]
fn parse_test_re_assignment_string() {
    let tokens = lexer::tokenize("ল = \"red\";".chars().collect(),
                                 "test.pakhi".to_string(), &Host::new()).unwrap();
    let parse_result = parse(String::from("test.pakhi"), tokens, &mut MockIO::new(), &Host::new());
    match parse_result {
        Ok(ast) => {
            let expected_ast = Stmt::Assignment(Assignment {
                kind: AssignmentKind::Reassignment,
                var_name: Token {
                    kind: TokenKind::Identifier,
                    lexeme: vec!['ল'],
                    line: 1,
                    src_file_path: "test.pakhi".to_string(),
                },
                indexes: Vec::new(),
                init_value: Some(Expr::Primary(Primary::String("red".to_string()), 1, "test.pakhi".to_string())),
            }, 1, "test.pakhi".to_string());

            assert_eq!(expected_ast, ast[0]);
        },
        Err(e) => panic!("err: {:?}", e),
    }
}

#[test]
fn parse_test_namesless_record_literal() {
    let tokens = lexer::tokenize(r#"নাম ক =  @{
                                                                "key" -> ১,
                                                                "key_2" -> "string",
                                                                "key" -> ১ + ১,
                                                            };"#.chars().collect(),
                                                        "test.pakhi".to_string(), &Host::new()).unwrap();
    let parse_result = parse(String::from("test.pakhi"), tokens, &mut MockIO::new(), &Host::new());
    match parse_result {
        Ok(ast) =>  {
            let expected_ast = Stmt::Assignment(Assignment {
                kind: FirstAssignment,
                var_name: Token {
                    kind: Identifier,
                    lexeme: vec!['ক'],
                    line: 1,
                    src_file_path: "test.pakhi".to_string(),
                },
                indexes: vec![],
                init_value: Some(
                    parser::Expr::Primary(NamelessRecord(
                        (
                            vec![
                                parser::Expr::Primary(Primary::String("key".to_string()), 2, "test.pakhi".to_string()),
                                parser::Expr::Primary(Primary::String("key_2".to_string()), 3, "test.pakhi".to_string()),
                                parser::Expr::Primary(Primary::String("key".to_string()), 4, "test.pakhi".to_string()),
                            ],
                            vec![
                                parser::Expr::Primary(Primary::Num(num(1.0)), 2, "test.pakhi".to_string()),
                                parser::Expr::Primary(Primary::String("string".to_string()), 3, "test.pakhi".to_string()),
                                AddOrSub(Binary {
                                    operator: Plus,
                                    left: Box::from(parser::Expr::Primary(Primary::Num(num(1.0)), 4, "test.pakhi".to_string())),
                                    right: Box::from(parser::Expr::Primary(Primary::Num(num(1.0)), 4, "test.pakhi".to_string())),
                                }, 4, "test.pakhi".to_string()),
                            ],
                        ),
                    ), 1, "test.pakhi".to_string()),
                ),
            }, 1, "test.pakhi".to_string());

            assert_eq!(expected_ast, ast[0]);
        },
        Err(e) => panic!("err: {:?}", e),
    }
}