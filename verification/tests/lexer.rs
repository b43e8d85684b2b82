use pakhi::common::number::Num;
use pakhi::common::platform::Platform;
use pakhi::frontend::lexer::{consume_num, consume_string, keyword, tokenize, Token, TokenKind};

struct Host {
    files: std::collections::BTreeMap<String, String>,
    dirs: std::collections::BTreeSet<String>,
    input: Vec<String>,
}

impl Host {
    fn new() -> Host {
        Host {
            files: std::collections::BTreeMap::new(),
            dirs: std::collections::BTreeSet::new(),
            input: Vec::new(),
        }
    }
}

fn num(value: f64) -> Num {
    Num { bits: value.to_bits() }
}

fn val(n: Num) -> f64 {
    f64::from_bits(n.bits)
}

impl Platform for Host {
    fn add(&self, a: Num, b: Num) -> Num {
        num(val(a) + val(b))
    }

    fn sub(&self, a: Num, b: Num) -> Num {
        num(val(a) - val(b))
    }

    fn mul(&self, a: Num, b: Num) -> Num {
        num(val(a) * val(b))
    }

    fn div(&self, a: Num, b: Num) -> Num {
        num(val(a) / val(b))
    }

    fn rem(&self, a: Num, b: Num) -> Num {
        num(val(a) % val(b))
    }

    fn powf(&self, a: Num, b: Num) -> Num {
        num(val(a).powf(val(b)))
    }

    fn num_to_string(&self, n: Num) -> String {
        val(n).to_string()
    }

    fn parse_num(&self, text: &str) -> Result<Num, String> {
        match text.parse::<f64>() {
            Ok(v) => Ok(num(v)),
            Err(e) => Err(format!("{:?}", e)),
        }
    }

    fn read_line(&mut self) -> Result<String, String> {
        if self.input.is_empty() {
            Err("end of input".to_string())
        } else {
            Ok(self.input.remove(0).trim_end().to_string())
        }
    }

    fn read_file(&mut self, path: &str) -> Result<String, String> {
        match self.files.get(path) {
            Some(content) => Ok(content.clone()),
            None => Err("No such file or directory".to_string()),
        }
    }

    fn write_file(&mut self, path: &str, content: &str) -> Result<(), String> {
        self.files.insert(path.to_string(), content.to_string());
        Ok(())
    }

    fn delete_file(&mut self, path: &str) -> Result<(), String> {
        match self.files.remove(path) {
            Some(_) => Ok(()),
            None => Err("No such file or directory".to_string()),
        }
    }

    fn create_dir(&mut self, path: &str) -> Result<(), String> {
        self.dirs.insert(path.trim_end_matches('/').to_string());
        Ok(())
    }

    fn read_dir(&mut self, path: &str) -> Result<Vec<String>, String> {
        let dir = path.trim_end_matches('/').to_string();
        if !self.dirs.contains(&dir) {
            return Err("No such file or directory".to_string());
        }
        let prefix = format!("{}/", dir);
        let mut names = Vec::new();
        for name in self.files.keys() {
            if let Some(rest) = name.strip_prefix(&prefix) {
                if !rest.contains('/') {
                    names.push(rest.to_string());
                }
            }
        }
        Ok(names)
    }

    fn delete_dir(&mut self, path: &str) -> Result<(), String> {
        let dir = path.trim_end_matches('/').to_string();
        if self.dirs.remove(&dir) {
            let prefix = format!("{}/", dir);
            self.files.retain(|name, _| !name.starts_with(&prefix));
            Ok(())
        } else {
            Err("No such file or directory".to_string())
        }
    }

    fn is_file(&mut self, path: &str) -> Result<bool, String> {
        if self.files.contains_key(path) {
            Ok(true)
        } else if self.dirs.contains(path.trim_end_matches('/')) {
            Ok(false)
        } else {
            Err("No such file or directory".to_string())
        }
    }

    fn join_path(&self, base: &str, rest: &str) -> String {
        let rest = rest.strip_prefix("./").unwrap_or(rest);
        if rest.starts_with('/') || base.is_empty() {
            rest.to_string()
        } else if base.ends_with('/') {
            format!("{}{}", base, rest)
        } else {
            format!("{}/{}", base, rest)
        }
    }

    fn file_name(&self, path: &str) -> String {
        match path.rfind('/') {
            Some(i) => path[i + 1..].to_string(),
            None => path.to_string(),
        }
    }

    fn parent_dir(&self, path: &str) -> String {
        match path.rfind('/') {
            Some(i) => path[..i].to_string(),
            None => String::new(),
        }
    }

    fn absolute_parent_dir(&self, path: &str) -> String {
        let parent = self.parent_dir(path);
        if parent.starts_with('/') {
            parent
        } else if parent.is_empty() {
            "/work".to_string()
        } else {
            format!("/work/{}", parent)
        }
    }
}

fn lex(src: Vec<char>) -> Vec<Token> {
    tokenize(src, "test.pakhi".to_string(), &Host::new()).unwrap()
}

#[test]
fn lexer_var_declare() {
    let tokens = lex("নাম ল = ০;".chars().collect::<Vec<char>>());
    assert_eq!(TokenKind::Var, tokens[0].kind);
    assert_eq!(TokenKind::Identifier, tokens[1].kind);
    assert_eq!(TokenKind::Equal, tokens[2].kind);
    assert_eq!(TokenKind::Num(num(0.0)), tokens[3].kind);
    assert_eq!(TokenKind::Semicolon, tokens[4].kind);
}

#[test]
fn lexer_nameless_record_literal() {
    let tokens = lex(
        r#"@ {"key" -> ১,}"#.chars().collect::<Vec<char>>());
    assert_eq!(TokenKind::At, tokens[0].kind);
    assert_eq!(TokenKind::CurlyBraceStart, tokens[1].kind);
    assert_eq!(TokenKind::String(String::from("key")), tokens[2].kind);
    assert_eq!(TokenKind::MapArrow, tokens[3].kind);
    assert_eq!(TokenKind::Num(num(1.0)), tokens[4].kind);
    assert_eq!(TokenKind::Comma, tokens[5].kind);
    assert_eq!(TokenKind::CurlyBraceEnd, tokens[6].kind);
}

#[test]
fn lexer_comment_block() {
    let tokens = lex("# this is a comment # \
                                          নাম ল = ০;\
                                          #this is a second comment#".chars().collect::<Vec<char>>());
    assert_eq!(TokenKind::Comment, tokens[0].kind);
    assert_eq!(TokenKind::Var, tokens[1].kind);
    assert_eq!(TokenKind::Identifier, tokens[2].kind);
    assert_eq!(TokenKind::Equal, tokens[3].kind);
    assert_eq!(TokenKind::Num(num(0.0)), tokens[4].kind);
    assert_eq!(TokenKind::Semicolon, tokens[5].kind);
    assert_eq!(TokenKind::Comment, tokens[6].kind);
}

#[test]
fn lexer_consume_num_test_1() {
    let digits_1 = vec!['২', '৪', '৫'];

    let (val, consumed) = consume_num(&digits_1, 0, 1, &"test.pakhi".to_string(), &Host::new()).unwrap();
    assert_eq!(245.0, f64::from_bits(val.bits));
    assert_eq!(3, consumed);
}

#[test]
fn lexer_consume_num_test_2() {
    let digits_2 = vec!['২', '৪', '৫', ' ', '২'];

    let (val, consumed) = consume_num(&digits_2, 0, 1, &"test.pakhi".to_string(), &Host::new()).unwrap();
    assert_eq!(245.0, f64::from_bits(val.bits));
    assert_eq!(3, consumed);
}

#[test]
fn lexer_consume_num_test_3() {
    let digits_3 = vec!['২', '৪', '৫', '.', '২', '৩', '৬'];

    let (val, consumed) = consume_num(&digits_3, 0, 1, &"test.pakhi".to_string(), &Host::new()).unwrap();
    assert_eq!(245.236, f64::from_bits(val.bits));
    assert_eq!(7, consumed);
}

#[test]
fn lexer_consume_num_test_4() {
    let digits_4 = vec!['-', '২', '৪', '৫', '.', '২', '৩', '৬'];

    let (val, consumed) = consume_num(&digits_4, 0, 1, &"test.pakhi".to_string(), &Host::new()).unwrap();
    assert_eq!(-245.236, f64::from_bits(val.bits));
    assert_eq!(8, consumed);
}

#[test]
fn lexer_consume_num_test_5() {
    let digits_5 = vec!['০'];

    let (val, consumed) = consume_num(&digits_5, 0, 1, &"test.pakhi".to_string(), &Host::new()).unwrap();
    assert_eq!(0.0, f64::from_bits(val.bits));
    assert_eq!(1, consumed);
}

#[test]
fn lexer_consume_string_test() {
    let string: Vec<char> = "\" var a = 45;\"".chars().collect();

    let (val, consumed) = consume_string(&string, 0);
    assert_eq!(" var a = 45;", val);
    assert_eq!(14, consumed);
}

#[test]
fn lexer_keyword_test_1() {
    let kword: Vec<char> = "ফাং".chars().collect();
    let t = keyword(&kword, 0, "test.pakhi".to_string()).unwrap();
    assert_eq!(TokenKind::Function, t.kind);
}

#[test]
fn lexer_keyword_test_2() {
    let kword: Vec<char> = "নাম".chars().collect();
    let t = keyword(&kword, 0, "test.pakhi".to_string()).unwrap();
    assert_eq!(TokenKind::Var, t.kind);
}

#[test]
fn lexer_keyword_test_3() {
    let kword: Vec<char> = "লুপ".chars().collect();
    let t = keyword(&kword, 0, "test.pakhi".to_string()).unwrap();
    assert_eq!(TokenKind::Loop, t.kind);
}

#[test]
fn lexer_keyword_test_4() {
    let kword: Vec<char> = "abc".chars().collect();
    assert!(keyword(&kword, 0, "test.pakhi".to_string()).is_none());
}
