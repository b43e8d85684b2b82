//! The lexer: source characters to tokens.

use vstd::prelude::*;
use crate::common::number::Num;
use crate::common::pakhi_error::{PakhiErr, PakhiErrView};
use crate::common::platform::Platform;
use crate::common::text::{clone_chars, string_from_chars};

verus! {

/// A token, with the characters it was read from and its place in the
/// source.
#[derive(Debug, PartialEq)]
pub struct Token {
    pub kind: TokenKind,
    pub lexeme: Vec<char>,
    pub line: u32,
    pub src_file_path: String,
}

/// The kinds of tokens.
#[derive(Debug, PartialEq)]
pub enum TokenKind {
    Num(Num),
    String(String),
    Identifier,
    If,
    Else,
    Loop,
    /// The keyword that declares a variable, not a variable's name.
    Var,
    Function,
    Plus,
    Minus,
    Multiply,
    Division,
    Remainder,
    At,
    Semicolon,
    /// The `->` between a key and its value.
    MapArrow,
    Comment,
    Comma,
    ParenStart,
    ParenEnd,
    CurlyBraceStart,
    CurlyBraceEnd,
    SquareBraceStart,
    SquareBraceEnd,
    Equal,
    LessThan,
    GreaterThan,
    EqualEqual,
    NotEqual,
    LessThanOrEqual,
    GreaterThanOrEqual,
    And,
    Or,
    Not,
    Bool(bool),
    Break,
    Continue,
    Return,
    Print,
    Import,
    PrintNoEOL,
    /// The end of the tokens.
    EOT,
}

/// Whether a character is numeric, as `char::is_numeric` decides it.
pub uninterp spec fn is_numeric_char(c: char) -> bool;

/// `char::is_numeric`: whether the character has one of the general
/// categories for numbers. The contract names the result and states two
/// facts of it: every Bangla digit is a decimal digit and so numeric, and
/// among the ASCII characters the digits `0` to `9` are the numeric ones.
#[verifier::external_body]
fn char_is_numeric(c: char) -> (r: bool)
    ensures
        r == is_numeric_char(c),
        bn_digit_value(c) is Some ==> r,
        c as u32 <= 0x7f ==> r == ('0' <= c && c <= '9'),
{
    c.is_numeric()
}

/// The value of a Bangla digit.
pub open spec fn bn_digit_value(c: char) -> Option<nat> {
    if c == '০' {
        Some(0)
    } else if c == '১' {
        Some(1)
    } else if c == '২' {
        Some(2)
    } else if c == '৩' {
        Some(3)
    } else if c == '৪' {
        Some(4)
    } else if c == '৫' {
        Some(5)
    } else if c == '৬' {
        Some(6)
    } else if c == '৭' {
        Some(7)
    } else if c == '৮' {
        Some(8)
    } else if c == '৯' {
        Some(9)
    } else {
        None
    }
}

/// Whether `c` is ASCII white space: a blank, a tab, a line feed, a form
/// feed or a carriage return.
pub open spec fn is_ascii_space(c: char) -> bool {
    c == ' ' || c == '\t' || c == '\n' || c == '\x0C' || c == '\r'
}

/// Whether `c` is an ASCII punctuation character.
pub open spec fn is_ascii_punct(c: char) -> bool {
    ('!' <= c && c <= '/') || (':' <= c && c <= '@') || ('[' <= c && c <= '`') || ('{' <= c && c
        <= '~')
}

/// Whether `c` is an ASCII control character.
pub open spec fn is_ascii_ctrl(c: char) -> bool {
    c <= '\x1F' || c == '\x7F'
}

/// Whether `c` may stand in an identifier: `-`, `_` and `/` may, and so may
/// everything that is neither ASCII white space, ASCII punctuation nor an
/// ASCII control character.
pub open spec fn valid_identifier_char(c: char) -> bool {
    c == '-' || c == '_' || c == '/' || (!is_ascii_space(c) && !is_ascii_punct(c)
        && !is_ascii_ctrl(c))
}

/// How many characters from `from` on are no quote, up to the first quote.
pub open spec fn string_extent(src: Seq<char>, from: int) -> nat
    decreases src.len() - from,
{
    if from < 0 || from >= src.len() || src[from] == '"' {
        0
    } else {
        1 + string_extent(src, from + 1)
    }
}

/// How many characters from `from` on may stand in an identifier, up to
/// the first that may not.
pub open spec fn identifier_extent(src: Seq<char>, from: int) -> nat
    decreases src.len() - from,
{
    if from < 0 || from >= src.len() || !valid_identifier_char(src[from]) {
        0
    } else {
        1 + identifier_extent(src, from + 1)
    }
}

/// The characters of `src` from `from` up to `to`.
pub fn slice_chars(src: &Vec<char>, from: usize, to: usize) -> (r: Vec<char>)
    requires
        from <= to <= src@.len(),
    ensures
        r@ == src@.subrange(from as int, to as int),
{
    let mut out: Vec<char> = Vec::new();
    let mut i: usize = from;
    while i < to
        invariant
            from <= i <= to <= src@.len(),
            out@ == src@.subrange(from as int, i as int),
        decreases to - i,
    {
        out.push(src[i]);
        i += 1;
        assert(out@ =~= src@.subrange(from as int, i as int));
    }
    out
}

/// Whether `c` may stand in an identifier.
pub fn is_valid_identifier_char(c: char) -> (r: bool)
    ensures
        r == valid_identifier_char(c),
{
    if c == '-' || c == '_' || c == '/' {
        return true;
    }
    let space = c == ' ' || c == '\t' || c == '\n' || c == '\x0C' || c == '\r';
    let punct = ('!' <= c && c <= '/') || (':' <= c && c <= '@') || ('[' <= c && c <= '`') || ('{'
        <= c && c <= '~');
    let ctrl = c <= '\x1F' || c == '\x7F';
    !space && !punct && !ctrl
}

/// Reads a string literal that starts with the quote at `start`: the
/// characters up to the next quote, or to the end of the source where no
/// quote follows, and how many characters the literal takes with its two
/// quotes.
pub fn consume_string(src: &Vec<char>, start: usize) -> (r: (String, usize))
    requires
        start < src@.len(),
        src@[start as int] == '"',
        src@.len() < usize::MAX,
    ensures
        r.0@ == src@.subrange(start + 1, start + 1 + string_extent(src@, start + 1)),
        r.1 == string_extent(src@, start + 1) + 2,
{
    let mut consumed: usize = 0;
    let mut val = String::new();
    let mut i: usize = start + 1;
    assert(val@ =~= src@.subrange(start + 1, i as int));
    while i < src.len() && src[i] != '"'
        invariant
            start + 1 <= i <= src@.len(),
            src@.len() < usize::MAX,
            i == start + 1 + consumed,
            val@ == src@.subrange(start + 1, i as int),
            string_extent(src@, start + 1) == consumed + string_extent(src@, i as int),
        decreases src.len() - i,
    {
        assert(string_extent(src@, i as int) == 1 + string_extent(src@, i + 1));
        val.push(src[i]);
        consumed += 1;
        i += 1;
        assert(val@ =~= src@.subrange(start + 1, i as int));
    }
    assert(string_extent(src@, i as int) == 0);
    // The two quotes are taken too.
    consumed += 2;
    (val, consumed)
}

/// The kind of a keyword, where the characters spell one.
pub open spec fn keyword_kind(word: Seq<char>) -> Option<TokenKind> {
    if word == "নাম"@ {
        Some(TokenKind::Var)
    } else if word == "যদি"@ {
        Some(TokenKind::If)
    } else if word == "অথবা"@ {
        Some(TokenKind::Else)
    } else if word == "লুপ"@ {
        Some(TokenKind::Loop)
    } else if word == "ফাং"@ {
        Some(TokenKind::Function)
    } else if word == "ফেরত"@ {
        Some(TokenKind::Return)
    } else if word == "থামাও"@ {
        Some(TokenKind::Break)
    } else if word == "আবার"@ {
        Some(TokenKind::Continue)
    } else if word == "দেখাও"@ {
        Some(TokenKind::Print)
    } else if word == "_দেখাও"@ {
        Some(TokenKind::PrintNoEOL)
    } else if word == "সত্য"@ {
        Some(TokenKind::Bool(true))
    } else if word == "মিথ্যা"@ {
        Some(TokenKind::Bool(false))
    } else if word == "মডিউল"@ {
        Some(TokenKind::Import)
    } else {
        None
    }
}

/// The token of a keyword, where the characters spell one.
pub fn keyword(char_vec: &Vec<char>, line: u32, src_file_path: String) -> (r: Option<Token>)
    ensures
        r is Some == keyword_kind(char_vec@) is Some,
        r matches Some(t) ==> Some(t.kind) == keyword_kind(char_vec@) && t.lexeme@ == char_vec@
            && t.line == line && t.src_file_path@ == src_file_path@,
{
    let word = string_from_chars(char_vec);
    let w = word.as_str();
    let kind = if crate::common::text::str_eq(w, "নাম") {
        TokenKind::Var
    } else if crate::common::text::str_eq(w, "যদি") {
        TokenKind::If
    } else if crate::common::text::str_eq(w, "অথবা") {
        TokenKind::Else
    } else if crate::common::text::str_eq(w, "লুপ") {
        TokenKind::Loop
    } else if crate::common::text::str_eq(w, "ফাং") {
        TokenKind::Function
    } else if crate::common::text::str_eq(w, "ফেরত") {
        TokenKind::Return
    } else if crate::common::text::str_eq(w, "থামাও") {
        TokenKind::Break
    } else if crate::common::text::str_eq(w, "আবার") {
        TokenKind::Continue
    } else if crate::common::text::str_eq(w, "দেখাও") {
        TokenKind::Print
    } else if crate::common::text::str_eq(w, "_দেখাও") {
        TokenKind::PrintNoEOL
    } else if crate::common::text::str_eq(w, "সত্য") {
        TokenKind::Bool(true)
    } else if crate::common::text::str_eq(w, "মিথ্যা") {
        TokenKind::Bool(false)
    } else if crate::common::text::str_eq(w, "মডিউল") {
        TokenKind::Import
    } else {
        return None;
    };
    Some(Token { kind, lexeme: clone_chars(char_vec), line, src_file_path })
}

/// Reads an identifier or a keyword that starts at `start`, and how many
/// characters it takes.
pub fn consume_identifier(src: &Vec<char>, start: usize, line: u32, src_file_path: String) -> (r: (
    Token,
    usize,
))
    requires
        start <= src@.len(),
    ensures
        r.1 == identifier_extent(src@, start as int),
        r.0.lexeme@ == src@.subrange(start as int, start + r.1),
        r.0.line == line,
        r.0.src_file_path@ == src_file_path@,
        match keyword_kind(r.0.lexeme@) {
            Some(kind) => r.0.kind == kind,
            None => r.0.kind is Identifier,
        },
{
    let mut consumed: usize = 0;
    let mut i: usize = start;
    while i < src.len() && is_valid_identifier_char(src[i])
        invariant
            start <= i <= src@.len(),
            i == start + consumed,
            identifier_extent(src@, start as int) == consumed + identifier_extent(src@, i as int),
        decreases src.len() - i,
    {
        assert(identifier_extent(src@, i as int) == 1 + identifier_extent(src@, i + 1));
        consumed += 1;
        i += 1;
    }
    assert(identifier_extent(src@, i as int) == 0);
    let char_vec = slice_chars(src, start, start + consumed);
    let path = src_file_path.clone();
    let token = match keyword(&char_vec, line, path) {
        Some(t) => t,
        None => Token { kind: TokenKind::Identifier, lexeme: char_vec, line, src_file_path },
    };
    (token, consumed)
}

/// The value of a Bangla digit, as a number.
pub fn bn_digit_to_en_digit(digit: char, line: u32, src_file_path: &String) -> (r: Result<
    Num,
    PakhiErr,
>)
    ensures
        match bn_digit_value(digit) {
            Some(d) => r matches Ok(n) && n.bits == crate::common::number::bits_of_nat(d),
            None => r matches Err(e) && e@ is SyntaxError,
        },
{
    let d: usize = match digit {
        '০' => 0,
        '১' => 1,
        '২' => 2,
        '৩' => 3,
        '৪' => 4,
        '৫' => 5,
        '৬' => 6,
        '৭' => 7,
        '৮' => 8,
        '৯' => 9,
        _ => {
            let mut message = String::from_str("Cannot convert '");
            message.push(digit);
            message.append("' to bangla digit");
            return Err(PakhiErr::syntax(line, src_file_path, message.as_str()));
        },
    };
    Ok(Num::from_usize(d))
}

/// Where a scan of a number from `i` ends and whether it succeeds: it
/// passes numeric characters and one point, and fails at a second point
/// and at a numeric character that is no Bangla digit.
pub open spec fn number_scan(src: Seq<char>, i: int, seen_point: bool) -> Option<int>
    decreases src.len() - i,
{
    if i < 0 || i >= src.len() {
        Some(i)
    } else if src[i] == '.' {
        if seen_point {
            None
        } else {
            number_scan(src, i + 1, true)
        }
    } else if is_numeric_char(src[i]) {
        if bn_digit_value(src[i]) is Some {
            number_scan(src, i + 1, seen_point)
        } else {
            None
        }
    } else {
        Some(i)
    }
}

/// The first position behind `start` that belongs to the number no more,
/// where the number is well written.
pub open spec fn number_end(src: Seq<char>, start: int) -> Option<int> {
    if src[start] == '-' {
        number_scan(src, start + 1, false)
    } else {
        number_scan(src, start, false)
    }
}

/// Reads a number that starts at `start`, with a sign or a digit, and how
/// many characters it takes.
///
/// The value is built as the platform's arithmetic builds it: digit by
/// digit for the part before the point and for the part behind it, the
/// latter divided by ten to the power of the length of its own decimal
/// text.
pub fn consume_num<P: Platform>(
    src: &Vec<char>,
    start: usize,
    line: u32,
    src_file_path: &String,
    pf: &P,
) -> (r: Result<(Num, usize), PakhiErr>)
    requires
        start < src.len(),
        src@[start as int] == '-' || is_numeric_char(src@[start as int]),
    ensures
        match number_end(src@, start as int) {
            Some(end) => r matches Ok(pair) && pair.1 == end - start,
            None => r matches Err(e) && e@ is SyntaxError,
        },
{
    let ten = Num::from_usize(10);
    let mut consumed: usize = 0;
    let mut val = Num::from_usize(0);
    let mut fractional_val = Num::from_usize(0);
    let mut i: usize = start;
    let is_negative = if src[start] == '-' {
        consumed += 1;
        i += 1;
        true
    } else {
        false
    };
    let mut in_fractional_part = false;
    while i < src.len() && (char_is_numeric(src[i]) || src[i] == '.')
        invariant
            start <= i <= src@.len(),
            i == start + consumed,
            number_end(src@, start as int) == number_scan(src@, i as int, in_fractional_part),
        decreases src.len() - i,
    {
        if src[i] == '.' {
            if in_fractional_part {
                return Err(PakhiErr::syntax(line, src_file_path,
                    "Number is not properly formatted"));
            }
            in_fractional_part = true;
            consumed += 1;
            i += 1;
            continue ;
        }
        let digit = bn_digit_to_en_digit(src[i], line, src_file_path)?;
        if in_fractional_part {
            fractional_val = pf.add(pf.mul(fractional_val, ten), digit);
        } else {
            val = pf.add(pf.mul(val, ten), digit);
        }
        consumed += 1;
        i += 1;
    }
    let digits = pf.num_to_string(fractional_val).as_str().unicode_len();
    fractional_val = pf.div(fractional_val, pf.powf(ten, Num::from_usize(digits)));
    let magnitude = pf.add(val, fractional_val);
    if is_negative {
        Ok((pf.mul(magnitude, Num::minus_one()), consumed))
    } else {
        Ok((magnitude, consumed))
    }
}

/// Where a scan of a comment block from `i` ends and how many line feeds
/// it counts, or `None` where the source ends before the block is closed.
/// A `#` behind a backslash does not close the block.
pub open spec fn comment_scan(src: Seq<char>, i: int, lines: nat) -> Option<(int, nat)>
    decreases src.len() - i,
{
    if i < 0 || i >= src.len() {
        None
    } else if src[i] == '#' {
        Some((i + 1, lines))
    } else if i + 1 >= src.len() {
        None
    } else if src[i] == '\\' && src[i + 1] == '#' {
        comment_scan(src, i + 2, lines)
    } else {
        comment_scan(
            src,
            i + 1,
            if src[i + 1] == '\n' {
                lines + 1
            } else {
                lines
            },
        )
    }
}

/// Passes the comment block that starts with the `#` at `start`: how many
/// characters it takes with its two `#`, and how many line feeds were
/// counted in it; the count stops at the largest `u32`.
pub fn skip_comment_block(src: &Vec<char>, start: usize, line: u32, src_file_path: &String) -> (r:
    Result<(usize, u32), PakhiErr>)
    requires
        start < src@.len(),
    ensures
        match comment_scan(src@, start + 1, 0) {
            Some((end, lines)) => r matches Ok(pair) && pair.0 == end - start && pair.1 == if lines
                <= u32::MAX {
                lines
            } else {
                u32::MAX as nat
            },
            None => r matches Err(e) && e@ == PakhiErrView::SyntaxError(
                line,
                src_file_path@,
                "Comment block wasn't closed"@,
            ),
        },
        r matches Ok(pair) ==> 2 <= pair.0 && start + pair.0 <= src@.len(),
{
    let n = src.len();
    let mut char_skipped: usize = 1;
    let mut lines_skipped: u32 = 0;
    let ghost mut counted: nat = 0;
    loop
        invariant
            n == src@.len(),
            start < n,
            1 <= char_skipped,
            start + char_skipped <= n,
            lines_skipped == if counted <= u32::MAX {
                counted
            } else {
                u32::MAX as nat
            },
            comment_scan(src@, start + 1, 0) == comment_scan(src@, start + char_skipped, counted),
        decreases n - (start + char_skipped),
    {
        if start + char_skipped >= n {
            return Err(PakhiErr::syntax(line, src_file_path, "Comment block wasn't closed"));
        }
        if src[start + char_skipped] == '#' {
            // The closing `#` is taken too.
            return Ok((char_skipped + 1, lines_skipped));
        }
        if start + char_skipped + 1 >= n {
            return Err(PakhiErr::syntax(line, src_file_path, "Comment block wasn't closed"));
        }
        let ghost here = start + char_skipped;
        if src[start + char_skipped] == '\\' && src[start + char_skipped + 1] == '#' {
            // An escaped `#` is passed over.
            assert(comment_scan(src@, here, counted) == comment_scan(src@, here + 2, counted));
            char_skipped += 2;
            continue ;
        }
        char_skipped += 1;
        if src[start + char_skipped] == '\n' {
            assert(comment_scan(src@, here, counted) == comment_scan(src@, here + 1, counted + 1));
            lines_skipped = lines_skipped.saturating_add(1);
            proof {
                counted = counted + 1;
            }
        } else {
            assert(comment_scan(src@, here, counted) == comment_scan(src@, here + 1, counted));
        }
    }
}

/// The kind and the length of the operator or delimiter that starts with
/// `c`, given the character that follows it, if any, and whether that
/// character is numeric. A `-` before a numeric character starts a number
/// and is no operator.
pub open spec fn operator_token(c: char, follows: Option<char>, numeric_follows: bool) -> Option<
    (TokenKind, nat),
> {
    if c == '-' {
        if follows is Some && numeric_follows {
            None
        } else if follows == Some('>') {
            Some((TokenKind::MapArrow, 2))
        } else {
            Some((TokenKind::Minus, 1))
        }
    } else if c == '+' {
        Some((TokenKind::Plus, 1))
    } else if c == '*' {
        Some((TokenKind::Multiply, 1))
    } else if c == '/' {
        Some((TokenKind::Division, 1))
    } else if c == '%' {
        Some((TokenKind::Remainder, 1))
    } else if c == '&' {
        Some((TokenKind::And, 1))
    } else if c == '|' {
        Some((TokenKind::Or, 1))
    } else if c == '!' {
        if follows == Some('=') {
            Some((TokenKind::NotEqual, 2))
        } else {
            Some((TokenKind::Not, 1))
        }
    } else if c == '@' {
        Some((TokenKind::At, 1))
    } else if c == ';' {
        Some((TokenKind::Semicolon, 1))
    } else if c == ',' {
        Some((TokenKind::Comma, 1))
    } else if c == '(' {
        Some((TokenKind::ParenStart, 1))
    } else if c == ')' {
        Some((TokenKind::ParenEnd, 1))
    } else if c == '{' {
        Some((TokenKind::CurlyBraceStart, 1))
    } else if c == '}' {
        Some((TokenKind::CurlyBraceEnd, 1))
    } else if c == '[' {
        Some((TokenKind::SquareBraceStart, 1))
    } else if c == ']' {
        Some((TokenKind::SquareBraceEnd, 1))
    } else if c == '=' {
        if follows == Some('=') {
            Some((TokenKind::EqualEqual, 2))
        } else {
            Some((TokenKind::Equal, 1))
        }
    } else if c == '<' {
        if follows == Some('=') {
            Some((TokenKind::LessThanOrEqual, 2))
        } else {
            Some((TokenKind::LessThan, 1))
        }
    } else if c == '>' {
        if follows == Some('=') {
            Some((TokenKind::GreaterThanOrEqual, 2))
        } else {
            Some((TokenKind::GreaterThan, 1))
        }
    } else {
        None
    }
}

/// The kind and the length of the operator or delimiter that starts with
/// `c`.
pub fn operator_kind(c: char, follows: Option<char>, numeric_follows: bool) -> (r: Option<
    (TokenKind, usize),
>)
    ensures
        match operator_token(c, follows, numeric_follows) {
            Some((kind, n)) => r matches Some(pair) && pair.0 == kind && pair.1 == n,
            None => r is None,
        },
        r matches Some(pair) ==> 1 <= pair.1 <= 2 && (pair.1 == 2 ==> follows is Some) && !(pair.0
            is EOT),
{
    let then_equal = match follows {
        Some(n) => n == '=',
        None => false,
    };
    match c {
        '-' => {
            match follows {
                Some(n) => {
                    if numeric_follows {
                        None
                    } else if n == '>' {
                        Some((TokenKind::MapArrow, 2))
                    } else {
                        Some((TokenKind::Minus, 1))
                    }
                },
                None => Some((TokenKind::Minus, 1)),
            }
        },
        '+' => Some((TokenKind::Plus, 1)),
        '*' => Some((TokenKind::Multiply, 1)),
        '/' => Some((TokenKind::Division, 1)),
        '%' => Some((TokenKind::Remainder, 1)),
        '&' => Some((TokenKind::And, 1)),
        '|' => Some((TokenKind::Or, 1)),
        '!' => if then_equal {
            Some((TokenKind::NotEqual, 2))
        } else {
            Some((TokenKind::Not, 1))
        },
        '@' => Some((TokenKind::At, 1)),
        ';' => Some((TokenKind::Semicolon, 1)),
        ',' => Some((TokenKind::Comma, 1)),
        '(' => Some((TokenKind::ParenStart, 1)),
        ')' => Some((TokenKind::ParenEnd, 1)),
        '{' => Some((TokenKind::CurlyBraceStart, 1)),
        '}' => Some((TokenKind::CurlyBraceEnd, 1)),
        '[' => Some((TokenKind::SquareBraceStart, 1)),
        ']' => Some((TokenKind::SquareBraceEnd, 1)),
        '=' => if then_equal {
            Some((TokenKind::EqualEqual, 2))
        } else {
            Some((TokenKind::Equal, 1))
        },
        '<' => if then_equal {
            Some((TokenKind::LessThanOrEqual, 2))
        } else {
            Some((TokenKind::LessThan, 1))
        },
        '>' => if then_equal {
            Some((TokenKind::GreaterThanOrEqual, 2))
        } else {
            Some((TokenKind::GreaterThan, 1))
        },
        _ => None,
    }
}

/// The character behind `start`, if the source has one.
pub open spec fn following(src: Seq<char>, start: int) -> Option<char> {
    if start + 1 < src.len() {
        Some(src[start + 1])
    } else {
        None
    }
}

/// How many characters the token or the white space at `start` takes, and
/// how many lines it counts; `None` where what stands there can be read as
/// nothing.
pub open spec fn token_extent(src: Seq<char>, start: int) -> Option<(int, nat)> {
    let c = src[start];
    let follows = following(src, start);
    let numeric_follows = follows is Some && is_numeric_char(follows->0);
    if operator_token(c, follows, numeric_follows) is Some {
        let (_, n) = operator_token(c, follows, numeric_follows)->0;
        Some((n as int, 0))
    } else if c == ' ' || c == '\r' || c == '\t' {
        Some((1, 0))
    } else if c == '\n' {
        Some((1, 1))
    } else if c == '#' {
        match comment_scan(src, start + 1, 0) {
            Some((end, lines)) => Some(
                (
                    end - start,
                    if lines <= u32::MAX {
                        lines
                    } else {
                        u32::MAX as nat
                    },
                ),
            ),
            None => None,
        }
    } else if c == '"' {
        Some((string_extent(src, start + 1) as int + 2, 0))
    } else if c == '-' || bn_digit_value(c) is Some {
        if c != '-' && !is_numeric_char(c) {
            None
        } else {
            match number_end(src, start) {
                Some(end) => if end > start {
                    Some((end - start, 0))
                } else {
                    None
                },
                None => None,
            }
        }
    } else if identifier_extent(src, start) > 0 {
        Some((identifier_extent(src, start) as int, 0))
    } else {
        None
    }
}

/// Whether what stands at `start` is white space, which makes no token.
pub open spec fn is_blank(c: char) -> bool {
    c == ' ' || c == '\r' || c == '\t' || c == '\n'
}

/// Whether the source from `i` on can be read as tokens.
pub open spec fn lexable(src: Seq<char>, i: int) -> bool
    decreases src.len() + 1 - i,
{
    if i < 0 || i >= src.len() {
        true
    } else {
        match token_extent(src, i) {
            Some((n, _)) => if 0 < n && i + n <= src.len() + 1 {
                lexable(src, i + n)
            } else {
                false
            },
            None => false,
        }
    }
}

/// The line that is `lines` lines behind `line`; the count stops at the
/// largest `u32`.
pub open spec fn line_after(line: u32, lines: nat) -> u32 {
    if line + lines > u32::MAX {
        u32::MAX
    } else {
        (line + lines) as u32
    }
}

/// Where each token of the source from `i` on starts and on which line,
/// `i` being on line `line`.
pub open spec fn token_starts(src: Seq<char>, i: int, line: u32) -> Seq<(int, u32)>
    decreases src.len() + 1 - i,
{
    if i < 0 || i >= src.len() {
        Seq::empty()
    } else {
        match token_extent(src, i) {
            Some((n, lines)) => if 0 < n && i + n <= src.len() + 1 {
                let rest = token_starts(src, i + n, line_after(line, lines));
                if is_blank(src[i]) {
                    rest
                } else {
                    seq![(i, line)] + rest
                }
            } else {
                Seq::empty()
            },
            None => Seq::empty(),
        }
    }
}

/// Whether `t` is the token that starts at `start` on line `line` of the
/// file `path`: its kind and the characters it was read from. Of a number
/// the value is not said: it is what the platform's arithmetic makes of the
/// digits.
pub open spec fn describes(t: Token, src: Seq<char>, start: int, line: u32,
    path: Seq<char>) -> bool {
    let c = src[start];
    let follows = following(src, start);
    let numeric_follows = follows is Some && is_numeric_char(follows->0);
    let (n, _) = token_extent(src, start)->0;
    let taken = src.subrange(start, start + n);
    &&& t.line == line
    &&& t.src_file_path@ == path
    &&& if operator_token(c, follows, numeric_follows) is Some {
        let (kind, _) = operator_token(c, follows, numeric_follows)->0;
        t.kind == kind && t.lexeme@ == taken
    } else if c == '#' {
        t.kind is Comment && t.lexeme@ == taken
    } else if c == '"' {
        let inner = src.subrange(start + 1, start + 1 + string_extent(src, start + 1));
        t.kind is String && t.kind->String_0@ == inner && t.lexeme@ == inner
    } else if c == '-' || bn_digit_value(c) is Some {
        t.kind is Num && t.lexeme@ == taken
    } else {
        t.lexeme@ == taken && match keyword_kind(taken) {
            Some(kind) => t.kind == kind,
            None => t.kind is Identifier,
        }
    }
}

/// Reads what starts at `start`: a token, or nothing for white space; how
/// many characters it takes; and by how many lines the source goes on.
///
/// An operator or delimiter is read as [`operator_token`] says. A blank, a
/// tab and a carriage return are passed, a line feed too, which counts a
/// line. `#` starts a comment block, `"` a string, a Bangla digit or a `-`
/// before a numeric character a number; anything else starts an
/// identifier or a keyword. A character that can start none of these is a
/// syntax error.
pub fn consume<P: Platform>(
    src: &Vec<char>,
    start: usize,
    line: u32,
    src_file_path: &String,
    pf: &P,
) -> (r: Result<(Option<Token>, usize, u32), PakhiErr>)
    requires
        start < src@.len(),
        src@.len() < usize::MAX,
    ensures
        match token_extent(src@, start as int) {
            Some((n, lines)) => {
                &&& r matches Ok(out) && out.1 == n && out.2 == lines
                &&& 1 <= n && start + n <= src@.len() + 1
                &&& if is_blank(src@[start as int]) {
                    r->Ok_0.0 is None
                } else {
                    r->Ok_0.0 is Some && !(r->Ok_0.0->0.kind is EOT) && describes(
                        r->Ok_0.0->0,
                        src@,
                        start as int,
                        line,
                        src_file_path@,
                    )
                }
            },
            None => r matches Err(e) && e@ is SyntaxError,
        },
{
    let c = src[start];
    let follows = if start + 1 < src.len() {
        Some(src[start + 1])
    } else {
        None
    };
    let numeric_follows = match follows {
        Some(next) => char_is_numeric(next),
        None => false,
    };
    if let Some((kind, n)) = operator_kind(c, follows, numeric_follows) {
        let token = Token {
            kind,
            lexeme: slice_chars(src, start, start + n),
            line,
            src_file_path: src_file_path.clone(),
        };
        return Ok((Some(token), n, 0));
    }
    match c {
        ' ' | '\r' | '\t' => Ok((None, 1, 0)),
        '\n' => Ok((None, 1, 1)),
        '#' => {
            let (char_skipped, lines_skipped) = skip_comment_block(src, start, line,
                src_file_path)?;
            let token = Token {
                kind: TokenKind::Comment,
                lexeme: slice_chars(src, start, start + char_skipped),
                line,
                src_file_path: src_file_path.clone(),
            };
            Ok((Some(token), char_skipped, lines_skipped))
        },
        '"' => {
            let (val, consumed) = consume_string(src, start);
            proof {
                lemma_string_extent_bound(src@, start + 1);
            }
            // The quotes are left out of the lexeme.
            let end = if start + consumed - 1 > src.len() {
                src.len()
            } else {
                start + consumed - 1
            };
            let token = Token {
                kind: TokenKind::String(val),
                lexeme: slice_chars(src, start + 1, end),
                line,
                src_file_path: src_file_path.clone(),
            };
            Ok((Some(token), consumed, 0))
        },
        '-' | '০' | '১' | '২' | '৩' | '৪' | '৫' | '৬' | '৭' | '৮' | '৯' => {
            if c != '-' && !char_is_numeric(c) {
                return Err(PakhiErr::syntax(line, src_file_path,
                    "Number is not properly formatted"));
            }
            let (val, consumed) = consume_num(src, start, line, src_file_path, pf)?;
            proof {
                lemma_number_scan_bound(src@, start as int, false);
                lemma_number_scan_bound(src@, start + 1, false);
            }
            if consumed == 0 {
                return Err(PakhiErr::syntax(line, src_file_path,
                    "Number is not properly formatted"));
            }
            let token = Token {
                kind: TokenKind::Num(val),
                lexeme: slice_chars(src, start, start + consumed),
                line,
                src_file_path: src_file_path.clone(),
            };
            Ok((Some(token), consumed, 0))
        },
        _ => {
            let (t, consumed) = consume_identifier(src, start, line, src_file_path.clone());
            proof {
                lemma_identifier_extent_bound(src@, start as int);
            }
            if consumed == 0 {
                return Err(PakhiErr::syntax(line, src_file_path, "Unexpected character"));
            }
            assert(!(t.kind is EOT)) by {
                if keyword_kind(t.lexeme@) is Some {
                    assert(t.kind == keyword_kind(t.lexeme@)->0);
                }
            }
            Ok((Some(t), consumed, 0))
        },
    }
}

/// A string's extent ends within the source.
pub proof fn lemma_string_extent_bound(src: Seq<char>, from: int)
    requires
        0 <= from <= src.len(),
    ensures
        from + string_extent(src, from) <= src.len(),
    decreases src.len() - from,
{
    if from < src.len() && src[from] != '"' {
        lemma_string_extent_bound(src, from + 1);
    }
}

/// An identifier's extent ends within the source.
pub proof fn lemma_identifier_extent_bound(src: Seq<char>, from: int)
    requires
        0 <= from <= src.len(),
    ensures
        from + identifier_extent(src, from) <= src.len(),
    decreases src.len() - from,
{
    if from < src.len() && valid_identifier_char(src[from]) {
        lemma_identifier_extent_bound(src, from + 1);
    }
}

/// A number's scan ends within the source, at or behind its start.
pub proof fn lemma_number_scan_bound(src: Seq<char>, i: int, seen_point: bool)
    requires
        0 <= i <= src.len(),
    ensures
        number_scan(src, i, seen_point) matches Some(end) ==> i <= end <= src.len(),
    decreases src.len() - i,
{
    if i < src.len() {
        if src[i] == '.' {
            if !seen_point {
                lemma_number_scan_bound(src, i + 1, true);
            }
        } else if is_numeric_char(src[i]) && bn_digit_value(src[i]) is Some {
            lemma_number_scan_bound(src, i + 1, seen_point);
        }
    }
}

/// Turns source text into tokens. The last token, and no other, is the
/// end-of-tokens marker.
pub fn tokenize<P: Platform>(src: Vec<char>, src_file_path: String, pf: &P) -> (r: Result<
    Vec<Token>,
    PakhiErr,
>)
    ensures
        (r is Ok) == (src@.len() < usize::MAX && lexable(src@, 0)),
        r matches Ok(tokens) ==> {
            &&& tokens@.len() == token_starts(src@, 0, 1).len() + 1
            &&& tokens@.last().kind is EOT
            &&& tokens@.last().line == 0
            &&& tokens@.last().lexeme@.len() == 0
            &&& tokens@.last().src_file_path@ == src_file_path@
            &&& forall|k: int|
                0 <= k < tokens@.len() - 1 ==> !((#[trigger] tokens@[k]).kind is EOT) && describes(
                    tokens@[k],
                    src@,
                    token_starts(src@, 0, 1)[k].0,
                    token_starts(src@, 0, 1)[k].1,
                    src_file_path@,
                )
        },
{
    let mut current_i: usize = 0;
    let mut line: u32 = 1;
    let mut tokens: Vec<Token> = Vec::new();
    if src.len() == usize::MAX {
        return Err(PakhiErr::syntax(0, &src_file_path, "Source is too long"));
    }
    let ghost mut emitted: Seq<(int, u32)> = Seq::empty();
    while current_i < src.len()
        invariant
            src@.len() < usize::MAX,
            current_i <= src@.len() + 1,
            lexable(src@, 0) == lexable(src@, current_i as int),
            token_starts(src@, 0, 1) == emitted + token_starts(src@, current_i as int, line),
            tokens@.len() == emitted.len(),
            forall|k: int|
                0 <= k < tokens@.len() ==> !((#[trigger] tokens@[k]).kind is EOT) && describes(
                    tokens@[k],
                    src@,
                    emitted[k].0,
                    emitted[k].1,
                    src_file_path@,
                ),
        decreases src@.len() + 1 - current_i,
    {
        let ghost rest = token_starts(src@, current_i as int, line);
        let (t, c, l) = consume(&src, current_i, line, &src_file_path, pf)?;
        let ghost later = token_starts(src@, current_i + c, line_after(line, l as nat));
        if let Some(token) = t {
            tokens.push(token);
            proof {
                assert(rest =~= seq![(current_i as int, line)] + later);
                emitted = emitted.push((current_i as int, line));
                assert(token_starts(src@, 0, 1) =~= emitted + later);
            }
        } else {
            assert(rest == later);
        }
        current_i += c;
        line = line.saturating_add(l);
    }
    proof {
        assert(token_starts(src@, current_i as int, line) =~= Seq::empty());
        assert(token_starts(src@, 0, 1) =~= emitted);
    }
    tokens.push(Token { kind: TokenKind::EOT, lexeme: Vec::new(), line: 0, src_file_path });
    Ok(tokens)
}

impl Clone for TokenKind {
    fn clone(&self) -> (r: Self)
        ensures
            r == *self,
    {
        match self {
            TokenKind::Num(n) => TokenKind::Num(*n),
            TokenKind::String(s) => TokenKind::String(s.clone()),
            TokenKind::Identifier => TokenKind::Identifier,
            TokenKind::If => TokenKind::If,
            TokenKind::Else => TokenKind::Else,
            TokenKind::Loop => TokenKind::Loop,
            TokenKind::Var => TokenKind::Var,
            TokenKind::Function => TokenKind::Function,
            TokenKind::Plus => TokenKind::Plus,
            TokenKind::Minus => TokenKind::Minus,
            TokenKind::Multiply => TokenKind::Multiply,
            TokenKind::Division => TokenKind::Division,
            TokenKind::Remainder => TokenKind::Remainder,
            TokenKind::At => TokenKind::At,
            TokenKind::Semicolon => TokenKind::Semicolon,
            TokenKind::MapArrow => TokenKind::MapArrow,
            TokenKind::Comment => TokenKind::Comment,
            TokenKind::Comma => TokenKind::Comma,
            TokenKind::ParenStart => TokenKind::ParenStart,
            TokenKind::ParenEnd => TokenKind::ParenEnd,
            TokenKind::CurlyBraceStart => TokenKind::CurlyBraceStart,
            TokenKind::CurlyBraceEnd => TokenKind::CurlyBraceEnd,
            TokenKind::SquareBraceStart => TokenKind::SquareBraceStart,
            TokenKind::SquareBraceEnd => TokenKind::SquareBraceEnd,
            TokenKind::Equal => TokenKind::Equal,
            TokenKind::LessThan => TokenKind::LessThan,
            TokenKind::GreaterThan => TokenKind::GreaterThan,
            TokenKind::EqualEqual => TokenKind::EqualEqual,
            TokenKind::NotEqual => TokenKind::NotEqual,
            TokenKind::LessThanOrEqual => TokenKind::LessThanOrEqual,
            TokenKind::GreaterThanOrEqual => TokenKind::GreaterThanOrEqual,
            TokenKind::And => TokenKind::And,
            TokenKind::Or => TokenKind::Or,
            TokenKind::Not => TokenKind::Not,
            TokenKind::Bool(b) => TokenKind::Bool(*b),
            TokenKind::Break => TokenKind::Break,
            TokenKind::Continue => TokenKind::Continue,
            TokenKind::Return => TokenKind::Return,
            TokenKind::Print => TokenKind::Print,
            TokenKind::Import => TokenKind::Import,
            TokenKind::PrintNoEOL => TokenKind::PrintNoEOL,
            TokenKind::EOT => TokenKind::EOT,
        }
    }
}

impl Clone for Token {
    fn clone(&self) -> (r: Self)
        ensures
            r.kind == self.kind,
            r.lexeme@ == self.lexeme@,
            r.line == self.line,
            r.src_file_path@ == self.src_file_path@,
    {
        Token {
            kind: self.kind.clone(),
            lexeme: clone_chars(&self.lexeme),
            line: self.line,
            src_file_path: self.src_file_path.clone(),
        }
    }
}

} // verus!
