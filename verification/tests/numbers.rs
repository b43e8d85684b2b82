use pakhi::backend::built_ins::{split_text, BuiltInFunctionList};
use pakhi::backend::operators::{bn_num_text, to_bn_bool};
use pakhi::common::number::Num;
use pakhi::frontend::lexer::{
    is_valid_identifier_char, skip_comment_block, slice_chars, tokenize, TokenKind,
};
use pakhi::common::platform::Platform;

struct Host {
    files: std::collections::BTreeMap<String, String>,
    dirs: std::collections::BTreeSet<String>,
    input: Vec<String>,
}

impl Host {
    fn new() -> Host {
        Host {
            files: std::collections::BTreeMap::new(),
            dirs: std::collections::BTreeSet::new(),
            input: Vec::new(),
        }
    }
}

fn num(value: f64) -> Num {
    Num { bits: value.to_bits() }
}

fn val(n: Num) -> f64 {
    f64::from_bits(n.bits)
}

impl Platform for Host {
    fn add(&self, a: Num, b: Num) -> Num {
        num(val(a) + val(b))
    }

    fn sub(&self, a: Num, b: Num) -> Num {
        num(val(a) - val(b))
    }

    fn mul(&self, a: Num, b: Num) -> Num {
        num(val(a) * val(b))
    }

    fn div(&self, a: Num, b: Num) -> Num {
        num(val(a) / val(b))
    }

    fn rem(&self, a: Num, b: Num) -> Num {
        num(val(a) % val(b))
    }

    fn powf(&self, a: Num, b: Num) -> Num {
        num(val(a).powf(val(b)))
    }

    fn num_to_string(&self, n: Num) -> String {
        val(n).to_string()
    }

    fn parse_num(&self, text: &str) -> Result<Num, String> {
        match text.parse::<f64>() {
            Ok(v) => Ok(num(v)),
            Err(e) => Err(format!("{:?}", e)),
        }
    }

    fn read_line(&mut self) -> Result<String, String> {
        if self.input.is_empty() {
            Err("end of input".to_string())
        } else {
            Ok(self.input.remove(0).trim_end().to_string())
        }
    }

    fn read_file(&mut self, path: &str) -> Result<String, String> {
        match self.files.get(path) {
            Some(content) => Ok(content.clone()),
            None => Err("No such file or directory".to_string()),
        }
    }

    fn write_file(&mut self, path: &str, content: &str) -> Result<(), String> {
        self.files.insert(path.to_string(), content.to_string());
        Ok(())
    }

    fn delete_file(&mut self, path: &str) -> Result<(), String> {
        match self.files.remove(path) {
            Some(_) => Ok(()),
            None => Err("No such file or directory".to_string()),
        }
    }

    fn create_dir(&mut self, path: &str) -> Result<(), String> {
        self.dirs.insert(path.trim_end_matches('/').to_string());
        Ok(())
    }

    fn read_dir(&mut self, path: &str) -> Result<Vec<String>, String> {
        let dir = path.trim_end_matches('/').to_string();
        if !self.dirs.contains(&dir) {
            return Err("No such file or directory".to_string());
        }
        let prefix = format!("{}/", dir);
        let mut names = Vec::new();
        for name in self.files.keys() {
            if let Some(rest) = name.strip_prefix(&prefix) {
                if !rest.contains('/') {
                    names.push(rest.to_string());
                }
            }
        }
        Ok(names)
    }

    fn delete_dir(&mut self, path: &str) -> Result<(), String> {
        let dir = path.trim_end_matches('/').to_string();
        if self.dirs.remove(&dir) {
            let prefix = format!("{}/", dir);
            self.files.retain(|name, _| !name.starts_with(&prefix));
            Ok(())
        } else {
            Err("No such file or directory".to_string())
        }
    }

    fn is_file(&mut self, path: &str) -> Result<bool, String> {
        if self.files.contains_key(path) {
            Ok(true)
        } else if self.dirs.contains(path.trim_end_matches('/')) {
            Ok(false)
        } else {
            Err("No such file or directory".to_string())
        }
    }

    fn join_path(&self, base: &str, rest: &str) -> String {
        let rest = rest.strip_prefix("./").unwrap_or(rest);
        if rest.starts_with('/') || base.is_empty() {
            rest.to_string()
        } else if base.ends_with('/') {
            format!("{}{}", base, rest)
        } else {
            format!("{}/{}", base, rest)
        }
    }

    fn file_name(&self, path: &str) -> String {
        match path.rfind('/') {
            Some(i) => path[i + 1..].to_string(),
            None => path.to_string(),
        }
    }

    fn parent_dir(&self, path: &str) -> String {
        match path.rfind('/') {
            Some(i) => path[..i].to_string(),
            None => String::new(),
        }
    }

    fn absolute_parent_dir(&self, path: &str) -> String {
        let parent = self.parent_dir(path);
        if parent.starts_with('/') {
            parent
        } else if parent.is_empty() {
            "/work".to_string()
        } else {
            format!("/work/{}", parent)
        }
    }
}

fn samples() -> Vec<f64> {
    vec![
        0.0,
        -0.0,
        0.43,
        -0.43,
        0.5,
        0.9999999999999999,
        1.0,
        1.5,
        -1.0,
        2.0,
        13.32,
        -43.43,
        4503599627370496.0,
        4503599627370497.0,
        9007199254740992.0,
        9007199254740993.0,
        1e10,
        1e19,
        9223372036854775808.0,
        18446744073709549568.0,
        18446744073709551616.0,
        1e300,
        f64::MAX,
        f64::MIN,
        f64::MIN_POSITIVE,
        5e-324,
        f64::INFINITY,
        f64::NEG_INFINITY,
        f64::NAN,
        -f64::NAN,
    ]
}

#[test]
fn conversion_of_a_length_rounds_as_the_machine_does() {
    let mut values: Vec<usize> = (0..3000).collect();
    for e in 1..64u32 {
        let p = 1usize << e;
        for v in [p - 1, p, p + 1, p + (p >> 1), p + (p >> 1) + 1, p + (p >> 2) + 1] {
            values.push(v);
        }
    }
    for v in [
        9007199254740993usize,
        9007199254740994,
        9007199254740995,
        18014398509481985,
        18014398509481987,
        usize::MAX,
        usize::MAX - 1,
        usize::MAX - 1023,
        usize::MAX - 1024,
        usize::MAX - 1025,
    ] {
        values.push(v);
    }
    for v in values {
        assert_eq!((v as f64).to_bits(), Num::from_usize(v).bits, "{}", v);
    }
    assert_eq!(0x4024000000000000, Num::from_usize(10).bits);
}

#[test]
fn truncation_to_an_index_saturates() {
    for v in samples() {
        assert_eq!(v as usize, num(v).to_index(), "{}", v);
    }
    assert_eq!(3, num(3.99).to_index());
    assert_eq!(0, num(-3.99).to_index());
    assert_eq!(usize::MAX, num(1e30).to_index());
}

#[test]
fn comparisons_are_those_of_the_numbers() {
    for a in samples() {
        for b in samples() {
            assert_eq!(a == b, num(a).is_eq(&num(b)), "{} == {}", a, b);
            assert_eq!(a == b, num(a) == num(b), "{} == {}", a, b);
            assert_eq!(a < b, num(a).is_lt(&num(b)), "{} < {}", a, b);
            assert_eq!(a <= b, num(a).is_le(&num(b)), "{} <= {}", a, b);
        }
    }
    assert_eq!(1.0f64.to_bits(), Num::from_bits(1.0f64.to_bits()).to_bits());
    assert_eq!(-1.0, val(Num::minus_one()));
}

#[test]
fn digits_change_glyphs_both_ways() {
    assert_eq!(
        "-১৩.৩২",
        BuiltInFunctionList::replace_en_with_bn_digit("-13.32".to_string())
    );
    assert_eq!(
        "-13.32 ক",
        BuiltInFunctionList::replace_bn_with_en_digit("-১৩.৩২ ক".to_string())
    );
    assert_eq!('7', BuiltInFunctionList::bn_digit_to_en_digit(&'৭'));
    assert_eq!('৭', BuiltInFunctionList::en_digit_to_bn_digit(&'7'));
    assert_eq!('x', BuiltInFunctionList::bn_digit_to_en_digit(&'x'));
    for v in [0.0, 7.0, 13.32, -43.43, -0.43, 1e21, 1234567.891] {
        let text = v.to_string();
        let bangla = BuiltInFunctionList::replace_en_with_bn_digit(text.clone());
        assert_eq!(text, BuiltInFunctionList::replace_bn_with_en_digit(bangla.clone()));
        assert_eq!(v, bangla.chars().map(|c| BuiltInFunctionList::bn_digit_to_en_digit(&c)).collect::<String>().parse::<f64>().unwrap());
    }
}

#[test]
fn number_text_takes_digits_sign_and_point_only() {
    assert_eq!(Ok("-১৩.৩২".to_string()), bn_num_text("-13.32"));
    assert_eq!(Ok(String::new()), bn_num_text(""));
    assert_eq!(Err('N'), bn_num_text("NaN"));
    assert_eq!(Err('e'), bn_num_text("1e5"));
    assert_eq!("সত্য", to_bn_bool(true));
    assert_eq!("মিথ্যা", to_bn_bool(false));
}

#[test]
fn built_in_names_are_reserved() {
    let list = BuiltInFunctionList::new();
    let name: Vec<char> = "_লিস্ট-পুশ".chars().collect();
    assert!(list.is_built_in(&name));
    assert_eq!("_লিস্ট-পুশ", list.get_name(&name));
    let other: Vec<char> = "_লিস্ট".chars().collect();
    assert!(!list.is_built_in(&other));
}

#[test]
fn identifier_characters() {
    for c in ['-', '_', '/', 'a', 'ক', '৫', '5'] {
        assert!(is_valid_identifier_char(c), "{}", c);
    }
    for c in [' ', '\n', '\t', ';', '(', '"', '#', '+', '\u{0}', '\u{7f}', '~', '@', '['] {
        assert!(!is_valid_identifier_char(c), "{:?}", c);
    }
    for code in 0..128u8 {
        let c = code as char;
        let expected = c == '-'
            || c == '_'
            || c == '/'
            || (!c.is_ascii_whitespace() && !c.is_ascii_punctuation() && !c.is_ascii_control());
        assert_eq!(expected, is_valid_identifier_char(c), "{:?}", c);
    }
}

#[test]
fn comment_blocks_count_characters_and_lines() {
    let path = "test.pakhi".to_string();
    let src: Vec<char> = "# ক \\# খ\nগ\n# ঘ".chars().collect();
    assert_eq!((12, 2), skip_comment_block(&src, 0, 1, &path).unwrap());
    let open: Vec<char> = "# ক".chars().collect();
    assert!(skip_comment_block(&open, 0, 1, &path).is_err());
    let lone: Vec<char> = "#".chars().collect();
    assert!(skip_comment_block(&lone, 0, 1, &path).is_err());
    let empty: Vec<char> = "##".chars().collect();
    assert_eq!((2, 0), skip_comment_block(&empty, 0, 1, &path).unwrap());
    assert_eq!(vec!['ক'], slice_chars(&src, 2, 3));
}

#[test]
fn minus_before_a_numeric_character_starts_a_number() {
    let host = Host::new();
    let kinds = |text: &str| -> Vec<TokenKind> {
        tokenize(text.chars().collect(), "test.pakhi".to_string(), &host)
            .unwrap()
            .into_iter()
            .map(|t| t.kind)
            .collect()
    };
    assert_eq!(vec![TokenKind::Num(num(-5.0)), TokenKind::EOT], kinds("-৫"));
    assert_eq!(vec![TokenKind::Minus, TokenKind::Num(num(5.0)), TokenKind::EOT], kinds("- ৫"));
    assert_eq!(vec![TokenKind::Minus, TokenKind::Identifier, TokenKind::EOT], kinds("-ক"));
    assert_eq!(vec![TokenKind::MapArrow, TokenKind::EOT], kinds("->"));
    assert_eq!(vec![TokenKind::Minus, TokenKind::EOT], kinds("-"));
    assert_eq!(
        vec![TokenKind::NotEqual, TokenKind::LessThanOrEqual, TokenKind::Not, TokenKind::EOT],
        kinds("!= <= !")
    );
    assert_eq!(
        vec![TokenKind::String("ক খ".to_string()), TokenKind::EOT],
        kinds("\"ক খ")
    );
    let lines: Vec<u32> = tokenize("১\n\n২ # ক\nখ # ৩".chars().collect(), "t".to_string(), &host)
        .unwrap()
        .iter()
        .map(|t| t.line)
        .collect();
    assert_eq!(vec![1, 3, 3, 4, 0], lines);
}

#[test]
fn split_agrees_with_the_standard_split() {
    let texts = [
        "", "a", "ab", "aaa", "aaaa", "abab", "a,b,,c", ",a,", ",,", "ক খ গ", "খখখ", "abcabcabc",
        "xaxbx", "  lead", "trail  ", "aXbXXc", "XX", "aab", "baa", "ababa",
    ];
    let separators = ["", "a", "aa", ",", " ", "X", "XX", "ab", "aba", "খ", "abc", "abcd", "ঘ"];
    for text in texts {
        for separator in separators {
            let expected: Vec<String> = text.split(separator).map(String::from).collect();
            assert_eq!(expected, split_text(text, separator), "{:?} {:?}", text, separator);
        }
    }
    assert_eq!(vec!["", "a"], split_text("aaa", "aa"));
    assert_eq!(vec!["", "ক", "খ", ""], split_text("কখ", ""));
    assert_eq!(vec!["", ""], split_text("", ""));
    assert_eq!(vec![""], split_text("", "a"));
}

#[test]
fn number_literals_are_built_digit_by_digit() {
    let host = Host::new();
    let value = |text: &str| -> f64 {
        let tokens = tokenize(text.chars().collect(), "test.pakhi".to_string(), &host).unwrap();
        match &tokens[0].kind {
            TokenKind::Num(n) => val(*n),
            other => panic!("{:?}", other),
        }
    };
    assert_eq!(0.0, value("০"));
    assert_eq!(1234567890.0, value("১২৩৪৫৬৭৮৯০"));
    assert_eq!(13.32, value("১৩.৩২"));
    assert_eq!(-0.43, value("-০.৪৩"));
    assert_eq!(7.0, value("৭."));
    // The part behind the point is divided by ten to the power of the
    // length of its own decimal text, which has no leading zeros.
    assert_eq!(1.5, value("১.০৫"));
}
