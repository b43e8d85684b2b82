//! The built-in functions: their reserved names and what each one does with
//! its evaluated arguments.

use vstd::prelude::*;
use crate::backend::heap::{list_values, Heap};
use crate::backend::value::{DataType, Value};
use crate::common::number::Num;
use crate::common::platform::Platform;
use crate::common::text::{chars_of, string_from_chars, views};

verus! {

/// The names of the built-in functions. A module import never renames them.
pub struct BuiltInFunctionList {
    built_in_functions: Vec<String>,
}

/// The reserved names.
pub open spec fn built_in_names() -> Seq<Seq<char>> {
    seq![
        "_স্ট্রিং"@,
        "_সংখ্যা"@,
        "_লিস্ট-পুশ"@,
        "_লিস্ট-পপ"@,
        "_লিস্ট-লেন"@,
        "_রিড-লাইন"@,
        "_এরর"@,
        "_স্ট্রিং-স্প্লিট"@,
        "_স্ট্রিং-জয়েন"@,
        "_টাইপ"@,
        "_রিড-ফাইল"@,
        "_রাইট-ফাইল"@,
        "_ডিলিট-ফাইল"@,
        "_নতুন-ডাইরেক্টরি"@,
        "_রিড-ডাইরেক্টরি"@,
        "_ডিলিট-ডাইরেক্টরি"@,
        "_ফাইল-নাকি-ডাইরেক্টরি"@,
    ]
}

/// The ASCII digit of a Bangla digit; any other character is itself.
pub open spec fn bn_to_en(c: char) -> char {
    if c == '০' {
        '0'
    } else if c == '১' {
        '1'
    } else if c == '২' {
        '2'
    } else if c == '৩' {
        '3'
    } else if c == '৪' {
        '4'
    } else if c == '৫' {
        '5'
    } else if c == '৬' {
        '6'
    } else if c == '৭' {
        '7'
    } else if c == '৮' {
        '8'
    } else if c == '৯' {
        '9'
    } else {
        c
    }
}

/// The Bangla digit of an ASCII digit; any other character is itself.
pub open spec fn en_to_bn(c: char) -> char {
    if c == '0' {
        '০'
    } else if c == '1' {
        '১'
    } else if c == '2' {
        '২'
    } else if c == '3' {
        '৩'
    } else if c == '4' {
        '৪'
    } else if c == '5' {
        '৫'
    } else if c == '6' {
        '৬'
    } else if c == '7' {
        '৭'
    } else if c == '8' {
        '৮'
    } else if c == '9' {
        '৯'
    } else {
        c
    }
}

/// Whether `c` is one of the ten Bangla digits.
pub open spec fn is_bn_digit(c: char) -> bool {
    c == '০' || c == '১' || c == '২' || c == '৩' || c == '৪' || c == '৫' || c == '৬' || c == '৭'
        || c == '৮' || c == '৯'
}

/// Whether `c` is one of the ten ASCII digits.
pub open spec fn is_en_digit(c: char) -> bool {
    c == '0' || c == '1' || c == '2' || c == '3' || c == '4' || c == '5' || c == '6' || c == '7'
        || c == '8' || c == '9'
}

/// A text with every Bangla digit replaced by its ASCII digit.
pub open spec fn text_bn_to_en(s: Seq<char>) -> Seq<char> {
    Seq::new(s.len(), |i: int| bn_to_en(s[i]))
}

/// A text with every ASCII digit replaced by its Bangla digit.
pub open spec fn text_en_to_bn(s: Seq<char>) -> Seq<char> {
    Seq::new(s.len(), |i: int| en_to_bn(s[i]))
}

/// Numeral rendering round trip: a text without Bangla digits, such as the
/// decimal text of a number, comes back unchanged from the Bangla glyphs.
pub proof fn lemma_glyph_round_trip(s: Seq<char>)
    requires
        forall|i: int| 0 <= i < s.len() ==> !is_bn_digit(#[trigger] s[i]),
    ensures
        text_bn_to_en(text_en_to_bn(s)) == s,
{
    assert(text_bn_to_en(text_en_to_bn(s)) =~= s);
}

/// A text without ASCII digits, such as a number written in Bangla glyphs,
/// comes back unchanged from the ASCII digits.
pub proof fn lemma_glyph_round_trip_bangla(s: Seq<char>)
    requires
        forall|i: int| 0 <= i < s.len() ==> !is_en_digit(#[trigger] s[i]),
    ensures
        text_en_to_bn(text_bn_to_en(s)) == s,
{
    assert(text_en_to_bn(text_bn_to_en(s)) =~= s);
}

/// Whether `separator` stands in `text` at position `i`.
pub open spec fn occurs_at(text: Seq<char>, separator: Seq<char>, i: int) -> bool {
    0 <= i && i + separator.len() <= text.len() && text.subrange(i, i + separator.len())
        == separator
}

/// The first position at or behind `from` where `separator` stands in
/// `text`, or -1 where it stands nowhere behind `from`.
pub open spec fn first_occurrence(text: Seq<char>, separator: Seq<char>, from: int) -> int
    decreases text.len() + 1 - from,
{
    if from < 0 || from + separator.len() > text.len() {
        -1
    } else if occurs_at(text, separator, from) {
        from
    } else {
        first_occurrence(text, separator, from + 1)
    }
}

/// The parts of `text` between the occurrences of `separator`, found from
/// left to right, none overlapping another. An empty separator stands
/// before, between and behind all characters: the parts are an empty one,
/// each character, and an empty one.
pub open spec fn split_parts(text: Seq<char>, separator: Seq<char>) -> Seq<Seq<char>>
    decreases text.len(),
{
    if separator.len() == 0 {
        seq![Seq::<char>::empty()] + Seq::new(text.len(), |i: int| seq![text[i]])
            + seq![Seq::<char>::empty()]
    } else {
        let at = first_occurrence(text, separator, 0);
        if at < 0 || at + separator.len() > text.len() {
            seq![text]
        } else {
            seq![text.subrange(0, at)] + split_parts(
                text.subrange(at + separator.len(), text.len() as int),
                separator,
            )
        }
    }
}

/// Where the first occurrence lies, if there is one.
pub proof fn lemma_first_occurrence(text: Seq<char>, separator: Seq<char>, from: int)
    requires
        0 <= from,
    ensures
        first_occurrence(text, separator, from) >= 0 ==> from <= first_occurrence(
            text,
            separator,
            from,
        ) && occurs_at(text, separator, first_occurrence(text, separator, from)),
        forall|i: int|
            from <= i && (first_occurrence(text, separator, from) < 0 || i < first_occurrence(
                text,
                separator,
                from,
            )) ==> !occurs_at(text, separator, i),
    decreases text.len() + 1 - from,
{
    if from + separator.len() <= text.len() && !occurs_at(text, separator, from) {
        lemma_first_occurrence(text, separator, from + 1);
    }
}

/// Whether `separator` stands in `text` at position `at`.
fn matches_at(text: &Vec<char>, separator: &Vec<char>, at: usize) -> (r: bool)
    requires
        at + separator@.len() <= text@.len(),
    ensures
        r == occurs_at(text@, separator@, at as int),
{
    let n = text.len();
    let mut k: usize = 0;
    while k < separator.len()
        invariant
            n == text@.len(),
            at + separator@.len() <= text@.len(),
            k <= separator@.len(),
            forall|w: int| 0 <= w < k ==> text@[at + w] == separator@[w],
        decreases separator.len() - k,
    {
        if text[at + k] != separator[k] {
            assert(text@.subrange(at as int,
                at + separator@.len())[k as int] != separator@[k as int]);
            return false;
        }
        k += 1;
    }
    assert(text@.subrange(at as int, at + separator@.len()) =~= separator@);
    true
}

/// Splits `text` at the occurrences of `separator`.
pub fn split_text(text: &str, separator: &str) -> (parts: Vec<String>)
    ensures
        views(parts@) == split_parts(text@, separator@),
{
    let chars = chars_of(text);
    let sep = chars_of(separator);
    let n = chars.len();
    let m = sep.len();
    let mut parts: Vec<String> = Vec::new();
    if m == 0 {
        parts.push(String::new());
        let mut i: usize = 0;
        while i < n
            invariant
                n == chars@.len(),
                i <= n,
                parts@.len() == i + 1,
                parts@[0]@.len() == 0,
                forall|k: int| 0 <= k < i ==> (#[trigger] parts@[k + 1])@ == seq![chars@[k]],
            decreases n - i,
        {
            let mut one = String::new();
            one.push(chars[i]);
            assert(one@ =~= seq![chars@[i as int]]);
            parts.push(one);
            i += 1;
        }
        parts.push(String::new());
        proof {
            let wanted = split_parts(text@, separator@);
            assert(views(parts@).len() == wanted.len());
            assert forall|k: int| 0 <= k < wanted.len() implies views(parts@)[k] == wanted[k] by {
                if k == 0 {
                    assert(views(parts@)[0] =~= Seq::<char>::empty());
                } else if k <= n {
                    assert(parts@[(k - 1) + 1]@ == seq![chars@[k - 1]]);
                } else {
                    assert(views(parts@)[k] =~= Seq::<char>::empty());
                }
            }
            assert(views(parts@) =~= wanted);
        }
        return parts;
    }
    // `start` is where the part that is being read begins.
    let mut start: usize = 0;
    let mut at: usize = 0;
    let ghost whole = chars@;
    proof {
        assert(whole.subrange(0, n as int) =~= whole);
        assert(views(parts@) + split_parts(whole.subrange(0, n as int), sep@) =~= split_parts(
            whole,
            sep@,
        ));
    }
    while m <= n && at <= n - m
        invariant
            n == chars@.len(),
            m == sep@.len(),
            m > 0,
            whole == chars@,
            whole == text@,
            sep@ == separator@,
            start <= at,
            start <= n,
            split_parts(whole, sep@) == views(parts@) + split_parts(
                whole.subrange(start as int, n as int),
                sep@,
            ),
            forall|i: int|
                0 <= i < at - start ==> !occurs_at(
                    whole.subrange(start as int, n as int),
                    sep@,
                    i,
                ),
        decreases n - at,
    {
        let ghost rest = whole.subrange(start as int, n as int);
        let found = matches_at(&chars, &sep, at);
        proof {
            assert(rest.subrange(at - start, at - start + m) =~= whole.subrange(
                at as int,
                at + m,
            ));
            assert(occurs_at(rest, sep@, at - start) == found);
        }
        if found {
            let part = crate::frontend::lexer::slice_chars(&chars, start, at);
            proof {
                lemma_first_occurrence(rest, sep@, 0);
                assert(first_occurrence(rest, sep@, 0) == at - start) by {
                    if first_occurrence(rest, sep@, 0) < 0 {
                        assert(!occurs_at(rest, sep@, at - start));
                    } else if first_occurrence(rest, sep@, 0) > at - start {
                        assert(!occurs_at(rest, sep@, at - start));
                    } else if first_occurrence(rest, sep@, 0) < at - start {
                        assert(!occurs_at(rest, sep@, first_occurrence(rest, sep@, 0)));
                    }
                }
                assert(rest.subrange(0, at - start) =~= whole.subrange(start as int, at as int));
                assert(rest.subrange(at - start + m, rest.len() as int) =~= whole.subrange(
                    at + m,
                    n as int,
                ));
            }
            let ghost before = views(parts@);
            parts.push(string_from_chars(&part));
            proof {
                assert(views(parts@) =~= before.push(whole.subrange(start as int, at as int)));
                assert(split_parts(whole, sep@) =~= views(parts@) + split_parts(
                    whole.subrange(at + m, n as int),
                    sep@,
                ));
            }
            at = at + m;
            start = at;
        } else {
            at = at + 1;
        }
    }
    let part = crate::frontend::lexer::slice_chars(&chars, start, n);
    proof {
        let rest = whole.subrange(start as int, n as int);
        lemma_first_occurrence(rest, sep@, 0);
        if first_occurrence(rest, sep@, 0) >= 0 {
            let i = first_occurrence(rest, sep@, 0);
            assert(occurs_at(rest, sep@, i));
            assert(i < at - start);
        }
        assert(split_parts(rest, sep@) =~= seq![rest]);
    }
    let ghost before = views(parts@);
    parts.push(string_from_chars(&part));
    proof {
        assert(views(parts@) =~= before.push(whole.subrange(start as int, n as int)));
    }
    parts
}

/// The parts without the first and the last where both of these are empty.
pub open spec fn trimmed_parts(parts: Seq<Seq<char>>) -> Seq<Seq<char>> {
    if parts.len() > 0 && parts[0].len() == 0 && parts.last().len() == 0 {
        if parts.len() == 1 {
            Seq::empty()
        } else {
            parts.subrange(1, parts.len() - 1)
        }
    } else {
        parts
    }
}

/// The parts put together with `separator` between each two.
pub open spec fn joined(parts: Seq<Seq<char>>, separator: Seq<char>) -> Seq<char>
    decreases parts.len(),
{
    if parts.len() == 0 {
        Seq::empty()
    } else if parts.len() == 1 {
        parts[0]
    } else {
        joined(parts.drop_last(), separator) + separator + parts.last()
    }
}

/// The name of the kind of a value.
pub open spec fn kind_name(v: Value) -> Seq<char> {
    match v {
        Value::Num(_) => "_সংখ্যা"@,
        Value::Bool(_) => "_বুলিয়ান"@,
        Value::String(_) => "_স্ট্রিং"@,
        Value::List(_) => "_লিস্ট"@,
        Value::NamelessRecord(_) => "_রেকর্ড"@,
        Value::Function(_, _) => "_ফাং"@,
        Value::Nil => "_শূন্য"@,
    }
}

/// Every argument that is a handle is live.
pub open spec fn all_live(heap: &Heap, arguments: Seq<DataType>) -> bool {
    forall|k: int| 0 <= k < arguments.len() ==> heap.live(#[trigger] arguments[k]@)
}

/// Why a built-in function failed.
#[derive(Debug, PartialEq)]
pub enum BuiltInError {
    /// An argument is of the wrong kind.
    WrongKind(String),
    /// Anything else: the number of arguments, a position out of range, an
    /// operation of the platform that failed.
    Failed(String),
}

/// The mathematical content of a [`BuiltInError`].
pub enum BuiltInErrorView {
    WrongKind(Seq<char>),
    Failed(Seq<char>),
}

impl View for BuiltInError {
    type V = BuiltInErrorView;

    open spec fn view(&self) -> BuiltInErrorView {
        match self {
            BuiltInError::WrongKind(m) => BuiltInErrorView::WrongKind(m@),
            BuiltInError::Failed(m) => BuiltInErrorView::Failed(m@),
        }
    }
}

impl BuiltInError {
    /// The complaint about an argument of the wrong kind.
    pub fn wrong_kind(message: &str) -> (r: BuiltInError)
        ensures
            r@ == BuiltInErrorView::WrongKind(message@),
    {
        BuiltInError::WrongKind(String::from_str(message))
    }

    /// The complaint about anything else.
    pub fn failed(message: &str) -> (r: BuiltInError)
        ensures
            r@ == BuiltInErrorView::Failed(message@),
    {
        BuiltInError::Failed(String::from_str(message))
    }
}

/// `prefix` followed by `detail`.
pub fn prefixed(prefix: &str, detail: &String) -> (r: String)
    ensures
        r@ == prefix@ + detail@,
{
    let mut r = String::from_str(prefix);
    r.append(detail.as_str());
    r
}

impl BuiltInFunctionList {
    /// The list holds exactly the reserved names.
    pub closed spec fn wf(&self) -> bool {
        views(self.built_in_functions@) == built_in_names()
    }

    /// The list of the reserved names.
    pub fn new() -> (r: Self)
        ensures
            r.wf(),
    {
        let mut names: Vec<String> = Vec::new();
        names.push(String::from_str("_স্ট্রিং"));
        names.push(String::from_str("_সংখ্যা"));
        names.push(String::from_str("_লিস্ট-পুশ"));
        names.push(String::from_str("_লিস্ট-পপ"));
        names.push(String::from_str("_লিস্ট-লেন"));
        names.push(String::from_str("_রিড-লাইন"));
        names.push(String::from_str("_এরর"));
        names.push(String::from_str("_স্ট্রিং-স্প্লিট"));
        names.push(String::from_str("_স্ট্রিং-জয়েন"));
        names.push(String::from_str("_টাইপ"));
        names.push(String::from_str("_রিড-ফাইল"));
        names.push(String::from_str("_রাইট-ফাইল"));
        names.push(String::from_str("_ডিলিট-ফাইল"));
        names.push(String::from_str("_নতুন-ডাইরেক্টরি"));
        names.push(String::from_str("_রিড-ডাইরেক্টরি"));
        names.push(String::from_str("_ডিলিট-ডাইরেক্টরি"));
        names.push(String::from_str("_ফাইল-নাকি-ডাইরেক্টরি"));
        assert(views(names@) =~= built_in_names());
        BuiltInFunctionList { built_in_functions: names }
    }

    /// Whether `function_name` is a reserved name.
    pub fn is_built_in(&self, function_name: &Vec<char>) -> (r: bool)
        requires
            self.wf(),
        ensures
            r == built_in_names().contains(function_name@),
    {
        let name = string_from_chars(function_name);
        let mut i: usize = 0;
        while i < self.built_in_functions.len()
            invariant
                self.wf(),
                name@ == function_name@,
                i <= self.built_in_functions@.len(),
                forall|k: int| 0 <= k < i ==> built_in_names()[k] != name@,
            decreases self.built_in_functions.len() - i,
        {
            assert(views(self.built_in_functions@)[i as int] == self.built_in_functions@[i as int]@);
            if self.built_in_functions[i] == name {
                return true;
            }
            i += 1;
        }
        assert(views(self.built_in_functions@).len() == self.built_in_functions@.len());
        false
    }

    /// The reserved name as a string.
    pub fn get_name(&self, function_name: &Vec<char>) -> (r: String)
        requires
            self.wf(),
            built_in_names().contains(function_name@),
        ensures
            r@ == function_name@,
    {
        string_from_chars(function_name)
    }

    /// Replaces every Bangla digit of a text by its ASCII digit.
    pub fn replace_bn_with_en_digit(bn_num_string: String) -> (r: String)
        ensures
            r@ == text_bn_to_en(bn_num_string@),
    {
        let mut num_chars = chars_of(bn_num_string.as_str());
        let n = num_chars.len();
        let mut i: usize = 0;
        while i < n
            invariant
                n == num_chars@.len(),
                n == bn_num_string@.len(),
                i <= n,
                forall|k: int| 0 <= k < i ==> num_chars@[k] == bn_to_en(bn_num_string@[k]),
                forall|k: int| i <= k < n ==> num_chars@[k] == bn_num_string@[k],
            decreases n - i,
        {
            let c = num_chars[i];
            num_chars[i] = Self::bn_digit_to_en_digit(&c);
            i += 1;
        }
        assert(num_chars@ =~= text_bn_to_en(bn_num_string@));
        string_from_chars(&num_chars)
    }

    /// Replaces every ASCII digit of a text by its Bangla digit.
    pub fn replace_en_with_bn_digit(en_num_string: String) -> (r: String)
        ensures
            r@ == text_en_to_bn(en_num_string@),
    {
        let mut num_chars = chars_of(en_num_string.as_str());
        let n = num_chars.len();
        let mut i: usize = 0;
        while i < n
            invariant
                n == num_chars@.len(),
                n == en_num_string@.len(),
                i <= n,
                forall|k: int| 0 <= k < i ==> num_chars@[k] == en_to_bn(en_num_string@[k]),
                forall|k: int| i <= k < n ==> num_chars@[k] == en_num_string@[k],
            decreases n - i,
        {
            let c = num_chars[i];
            num_chars[i] = Self::en_digit_to_bn_digit(&c);
            i += 1;
        }
        assert(num_chars@ =~= text_en_to_bn(en_num_string@));
        string_from_chars(&num_chars)
    }

    /// The ASCII digit of a Bangla digit; any other character is itself.
    pub fn bn_digit_to_en_digit(digit: &char) -> (r: char)
        ensures
            r == bn_to_en(*digit),
    {
        match *digit {
            '০' => '0',
            '১' => '1',
            '২' => '2',
            '৩' => '3',
            '৪' => '4',
            '৫' => '5',
            '৬' => '6',
            '৭' => '7',
            '৮' => '8',
            '৯' => '9',
            c => c,
        }
    }

    /// The Bangla digit of an ASCII digit; any other character is itself.
    pub fn en_digit_to_bn_digit(digit: &char) -> (r: char)
        ensures
            r == en_to_bn(*digit),
    {
        match *digit {
            '0' => '০',
            '1' => '১',
            '2' => '২',
            '3' => '৩',
            '4' => '৪',
            '5' => '৫',
            '6' => '৬',
            '7' => '৭',
            '8' => '৮',
            '9' => '৯',
            c => c,
        }
    }

    /// The text of a number, in Bangla digits. The decimal text comes from
    /// the platform.
    pub fn _to_string<P: Platform>(arguments: Vec<DataType>, pf: &P) -> (r: Result<DataType,
        BuiltInError>)
        ensures
            arguments@.len() != 1 ==> (r matches Err(m)
                && m@ == BuiltInErrorView::Failed("Function requires one arguments"@)),
            arguments@.len() == 1 && !(arguments@[0] is Num) ==> (r matches Err(m)
                && m@ == BuiltInErrorView::WrongKind("Datatype must be Number for converting to string"@)),
            arguments@.len() == 1 && arguments@[0] is Num ==> (r matches Ok(v) && v is String
                && forall|i: int|
                0 <= i < v->String_0@.len() ==> !is_en_digit(#[trigger] v->String_0@[i])),
    {
        if arguments.len() == 1 {
            if let DataType::Num(n) = &arguments[0] {
                let bn_num_string = Self::replace_en_with_bn_digit(pf.num_to_string(*n));
                Ok(DataType::String(bn_num_string))
            } else {
                Err(BuiltInError::wrong_kind("Datatype must be Number for converting to string"))
            }
        } else {
            Err(BuiltInError::failed("Function requires one arguments"))
        }
    }

    /// The number that a text in Bangla digits denotes. The platform reads
    /// the text once its digits are ASCII.
    pub fn _to_num<P: Platform>(arguments: Vec<DataType>, pf: &P) -> (r: Result<DataType,
        BuiltInError>)
        ensures
            arguments@.len() != 1 ==> (r matches Err(m)
                && m@ == BuiltInErrorView::Failed("Function requires one arguments"@)),
            arguments@.len() == 1 && !(arguments@[0] is String) ==> (r matches Err(m)
                && m@ == BuiltInErrorView::WrongKind("Datatype must be Number for converting to string"@)),
            r matches Ok(v) ==> v is Num,
    {
        if arguments.len() == 1 {
            if let DataType::String(bangla_num_string) = &arguments[0] {
                let eng_num_string = Self::replace_bn_with_en_digit(bangla_num_string.clone());
                Self::parsed_number(pf.parse_num(eng_num_string.as_str()))
            } else {
                Err(BuiltInError::wrong_kind("Datatype must be Number for converting to string"))
            }
        } else {
            Err(BuiltInError::failed("Function requires one arguments"))
        }
    }

    /// What [`Self::_to_num`] makes of the platform's answer.
    pub fn parsed_number(answer: Result<Num, String>) -> (r: Result<DataType, BuiltInError>)
        ensures
            answer matches Ok(n) ==> (r matches Ok(v) && v@ == Value::Num(n)),
            answer matches Err(e) ==> (r matches Err(m) && m@ == BuiltInErrorView::Failed(e@)),
    {
        match answer {
            Ok(n) => Ok(DataType::Num(n)),
            Err(e) => Err(BuiltInError::Failed(e)),
        }
    }

    /// Why a call of `_লিস্ট-পুশ` fails, if it does.
    pub open spec fn list_push_error(arguments: Seq<Value>,
        heap: &Heap) -> Option<BuiltInErrorView> {
        if arguments.len() == 2 {
            if arguments[0] is List {
                None
            } else {
                Some(BuiltInErrorView::WrongKind("Datatype must be array to push value"@))
            }
        } else if arguments.len() == 3 {
            if !(arguments[0] is List) {
                Some(BuiltInErrorView::WrongKind("Datatype must be array to push value"@))
            } else if !(arguments[1] is Num) {
                Some(BuiltInErrorView::WrongKind("Index must evaluate to number type"@))
            } else if arguments[1]->Num_0.index() > heap.lists@[arguments[0]->List_0 as int]@.len() {
                Some(BuiltInErrorView::Failed("Index out of range"@))
            } else {
                None
            }
        } else {
            Some(BuiltInErrorView::Failed("Function requires two arguments"@))
        }
    }

    /// What a call of `_লিস্ট-পুশ` gives and does to the heap.
    pub open spec fn list_pushed(
        arguments: Seq<DataType>,
        before: &Heap,
        after: &Heap,
        r: Result<DataType, BuiltInError>,
    ) -> bool {
        match Self::list_push_error(list_values(arguments), before) {
            Some(m) => r matches Err(e) && e@ == m && *after == *before,
            None => {
                let i = arguments[0]@->List_0;
                &&& r matches Ok(v) && v@ == Value::Nil
                &&& after.only_list_changed(before, i)
                &&& arguments.len() == 2 ==> list_values(after.lists@[i as int]@)
                    == list_values(before.lists@[i as int]@).push(arguments[1]@)
                &&& arguments.len() == 3 ==> list_values(after.lists@[i as int]@)
                    == list_values(before.lists@[i as int]@).insert(
                    arguments[1]@->Num_0.index() as int,
                    arguments[2]@,
                )
            },
        }
    }

    /// Appends a value to a list, or with three arguments inserts it before
    /// the given position.
    pub fn _list_push(arguments: Vec<DataType>, heap: &mut Heap) -> (r: Result<DataType,
        BuiltInError>)
        requires
            old(heap).wf(),
            all_live(old(heap), arguments@),
        ensures
            final(heap).wf(),
            final(heap).extends(old(heap)),
            Self::list_pushed(arguments@, old(heap), final(heap), r),
    {
        proof {
            assert(forall|k: int|
                0 <= k < arguments@.len() ==> list_values(arguments@)[k] == arguments@[k]@);
        }
        if arguments.len() == 2 {
            if let DataType::List(index) = &arguments[0] {
                let index = *index;
                assert(old(heap).live(arguments@[0]@));
                let push_value = arguments[1].clone();
                assert(old(heap).live(arguments@[1]@));
                let at = heap.list_len(index);
                heap.list_insert(index, at, push_value);
                proof {
                    assert(list_values(heap.lists@[index as int]@) =~= list_values(
                        old(heap).lists@[index as int]@,
                    ).push(arguments@[1]@));
                }
                Ok(DataType::Nil)
            } else {
                Err(BuiltInError::wrong_kind("Datatype must be array to push value"))
            }
        } else if arguments.len() == 3 {
            if let DataType::List(index) = &arguments[0] {
                let index = *index;
                assert(old(heap).live(arguments@[0]@));
                if let DataType::Num(push_at_i_f) = &arguments[1] {
                    let push_at_u = push_at_i_f.to_index();
                    if push_at_u > heap.list_len(index) {
                        return Err(BuiltInError::failed("Index out of range"));
                    }
                    let push_value = arguments[2].clone();
                    assert(old(heap).live(arguments@[2]@));
                    heap.list_insert(index, push_at_u, push_value);
                    proof {
                        assert(list_values(heap.lists@[index as int]@) =~= list_values(
                            old(heap).lists@[index as int]@,
                        ).insert(push_at_u as int, arguments@[2]@));
                    }
                    Ok(DataType::Nil)
                } else {
                    Err(BuiltInError::wrong_kind("Index must evaluate to number type"))
                }
            } else {
                Err(BuiltInError::wrong_kind("Datatype must be array to push value"))
            }
        } else {
            Err(BuiltInError::failed("Function requires two arguments"))
        }
    }

    /// Why a call of `_লিস্ট-পপ` fails, if it does.
    pub open spec fn list_pop_error(arguments: Seq<Value>,
        heap: &Heap) -> Option<BuiltInErrorView> {
        if arguments.len() == 1 {
            if arguments[0] is List {
                None
            } else {
                Some(BuiltInErrorView::WrongKind("Datatype must be array to push value"@))
            }
        } else if arguments.len() == 2 {
            if !(arguments[0] is List) {
                Some(BuiltInErrorView::WrongKind("Datatype must be array to push value"@))
            } else if !(arguments[1] is Num) {
                Some(BuiltInErrorView::WrongKind("Index must be a number"@))
            } else if arguments[1]->Num_0.index()
                >= heap.lists@[arguments[0]->List_0 as int]@.len() {
                Some(BuiltInErrorView::Failed("Index out of range"@))
            } else {
                None
            }
        } else {
            Some(BuiltInErrorView::Failed("Function requires one argument"@))
        }
    }

    /// What a call of `_লিস্ট-পপ` gives and does to the heap.
    pub open spec fn list_popped(
        arguments: Seq<DataType>,
        start: &Heap,
        after: &Heap,
        r: Result<DataType, BuiltInError>,
    ) -> bool {
        match Self::list_pop_error(list_values(arguments), start) {
            Some(m) => r matches Err(e) && e@ == m && *after == *start,
            None => {
                let i = arguments[0]@->List_0;
                let before = list_values(start.lists@[i as int]@);
                &&& r matches Ok(v) && v@ == Value::Nil
                &&& after.only_list_changed(start, i)
                &&& arguments.len() == 1 ==> list_values(after.lists@[i as int]@) == if before.len()
                    == 0 {
                    before
                } else {
                    before.drop_last()
                }
                &&& arguments.len() == 2
                    ==> list_values(after.lists@[i as int]@) == before.remove(
                    arguments[1]@->Num_0.index() as int,
                )
            },
        }
    }

    /// Removes the last element of a list, or with two arguments the
    /// element at the given position. An empty list stays empty, and a
    /// position that is no number removes nothing.
    pub fn _list_pop(arguments: Vec<DataType>, heap: &mut Heap) -> (r: Result<DataType,
        BuiltInError>)
        requires
            old(heap).wf(),
            all_live(old(heap), arguments@),
        ensures
            final(heap).wf(),
            final(heap).extends(old(heap)),
            Self::list_popped(arguments@, old(heap), final(heap), r),
    {
        proof {
            assert(forall|k: int|
                0 <= k < arguments@.len() ==> list_values(arguments@)[k] == arguments@[k]@);
        }
        if arguments.len() == 1 {
            if let DataType::List(index) = &arguments[0] {
                let index = *index;
                assert(old(heap).live(arguments@[0]@));
                let n = heap.list_len(index);
                if n > 0 {
                    heap.list_remove(index, n - 1);
                    proof {
                        assert(list_values(heap.lists@[index as int]@) =~= list_values(
                            old(heap).lists@[index as int]@,
                        ).drop_last());
                    }
                }
                Ok(DataType::Nil)
            } else {
                Err(BuiltInError::wrong_kind("Datatype must be array to push value"))
            }
        } else if arguments.len() == 2 {
            if let DataType::List(index) = &arguments[0] {
                let index = *index;
                assert(old(heap).live(arguments@[0]@));
                if let DataType::Num(pop_at_i_f) = &arguments[1] {
                    let pop_at_i = pop_at_i_f.to_index();
                    if pop_at_i >= heap.list_len(index) {
                        return Err(BuiltInError::failed("Index out of range"));
                    }
                    heap.list_remove(index, pop_at_i);
                    proof {
                        assert(list_values(heap.lists@[index as int]@) =~= list_values(
                            old(heap).lists@[index as int]@,
                        ).remove(pop_at_i as int));
                    }
                    Ok(DataType::Nil)
                } else {
                    Err(BuiltInError::wrong_kind("Index must be a number"))
                }
            } else {
                Err(BuiltInError::wrong_kind("Datatype must be array to push value"))
            }
        } else {
            Err(BuiltInError::failed("Function requires one argument"))
        }
    }

    /// What a call of `_লিস্ট-লেন` gives: the double nearest to the length
    /// of the list.
    pub open spec fn list_measured(
        arguments: Seq<DataType>,
        heap: &Heap,
        r: Result<DataType, BuiltInError>,
    ) -> bool {
        if arguments.len() != 1 {
            r matches Err(m) && m@ == BuiltInErrorView::Failed("Function requires one argument"@)
        } else if !(arguments[0] is List) {
            r matches Err(m) && m@ == BuiltInErrorView::WrongKind("Datatype must be list to get length"@)
        } else {
            r is Ok && r->Ok_0 is Num && r->Ok_0->Num_0.bits == crate::common::number::bits_of_nat(
                heap.lists@[arguments[0]->List_0 as int]@.len(),
            )
        }
    }

    /// The length of a list, as a number.
    pub fn _list_len(arguments: Vec<DataType>, heap: &Heap) -> (r: Result<DataType, BuiltInError>)
        requires
            heap.wf(),
            all_live(heap, arguments@),
        ensures
            Self::list_measured(arguments@, heap, r),
    {
        if arguments.len() == 1 {
            if let DataType::List(index) = &arguments[0] {
                assert(heap.live(arguments@[0]@));
                let length = heap.list_len(*index);
                Ok(DataType::Num(Num::from_usize(length)))
            } else {
                Err(BuiltInError::wrong_kind("Datatype must be list to get length"))
            }
        } else {
            Err(BuiltInError::failed("Function requires one argument"))
        }
    }

    /// One line of input.
    pub fn _read_line<P: Platform>(arguments: Vec<DataType>, pf: &mut P) -> (r: Result<DataType,
        BuiltInError>)
        ensures
            arguments@.len() != 0 ==> (r matches Err(m)
                && m@ == BuiltInErrorView::Failed("Function requires zero argument"@)),
            r matches Ok(v) ==> v is String,
    {
        if arguments.len() == 0 {
            match pf.read_line() {
                Ok(input) => Ok(DataType::String(input)),
                Err(e) => Err(BuiltInError::Failed(e)),
            }
        } else {
            Err(BuiltInError::failed("Function requires zero argument"))
        }
    }

    /// The error that a call of `_এরর` raises: the message that the program
    /// gives, or a complaint about the arguments.
    pub open spec fn error_raised(arguments: Seq<DataType>) -> BuiltInErrorView {
        if arguments.len() != 1 {
            BuiltInErrorView::Failed("_এরর() function expects one argument"@)
        } else if !(arguments[0] is String) {
            BuiltInErrorView::WrongKind("_এরর() functions arguments must be string"@)
        } else {
            BuiltInErrorView::Failed(arguments[0]->String_0@)
        }
    }

    /// The message of a raised error where the argument is one string, else
    /// a complaint about the arguments.
    pub fn _error(arguments: Vec<DataType>) -> (r: Result<String, BuiltInError>)
        ensures
            arguments@.len() == 1 && arguments@[0] is String ==> (r matches Ok(m)
                && BuiltInErrorView::Failed(m@) == Self::error_raised(arguments@)),
            !(arguments@.len() == 1 && arguments@[0] is String) ==> (r matches Err(e) && e@
                == Self::error_raised(arguments@)),
    {
        if arguments.len() == 1 {
            match &arguments[0] {
                DataType::String(err_message) => Ok(err_message.clone()),
                _ => Err(BuiltInError::wrong_kind("_এরর() functions arguments must be string")),
            }
        } else {
            Err(BuiltInError::failed("_এরর() function expects one argument"))
        }
    }

    /// What a call of `_স্ট্রিং-স্প্লিট` gives and does to the heap.
    pub open spec fn string_split(
        arguments: Seq<DataType>,
        before: &Heap,
        after: &Heap,
        r: Result<DataType, BuiltInError>,
    ) -> bool {
        if arguments.len() != 2 {
            r matches Err(m) && m@ == BuiltInErrorView::Failed("_স্ট্রিং-স্প্লিট() function expects two argument"@) && *after
                == *before
        } else if !(arguments[0] is String && arguments[1] is String) {
            r matches Err(m) && m@ == BuiltInErrorView::WrongKind("_স্ট্রিং-স্প্লিট() functions arguments must be string"@)
                && *after == *before
        } else {
            r is Ok && r->Ok_0@ == Value::List(before.next_list_index() as usize)
                && Self::holds_split(
                before,
                after,
                split_parts(arguments[0]->String_0@, arguments[1]->String_0@),
            )
        }
    }

    /// Splits a string at a separator into a new list of strings.
    pub fn _string_split(arguments: Vec<DataType>, heap: &mut Heap) -> (r: Result<DataType,
        BuiltInError>)
        requires
            old(heap).wf(),
        ensures
            final(heap).wf(),
            final(heap).extends(old(heap)),
            r matches Ok(v) ==> final(heap).live(v@),
            Self::string_split(arguments@, old(heap), final(heap), r),
    {
        if arguments.len() == 2 {
            match (&arguments[0], &arguments[1]) {
                (DataType::String(string), DataType::String(split_by)) => {
                    let parts = split_text(string.as_str(), split_by.as_str());
                    Ok(Self::store_split(parts, heap))
                },
                _ => Err(BuiltInError::wrong_kind("_স্ট্রিং-স্প্লিট() functions arguments must be string")),
            }
        } else {
            Err(BuiltInError::failed("_স্ট্রিং-স্প্লিট() function expects two argument"))
        }
    }

    /// `after` is `before` with one more list allocated: the strings of
    /// `parts`, without the first and the last where both are empty.
    pub open spec fn holds_split(before: &Heap, after: &Heap, parts: Seq<Seq<char>>) -> bool {
        let at = before.next_list_index();
        &&& list_values(after.lists@[at]@) == Seq::new(
            trimmed_parts(parts).len(),
            |k: int| Value::String(trimmed_parts(parts)[k]),
        )
        &&& before.free_lists@.len() > 0 ==> after.lists@ == before.lists@.update(
            at,
            after.lists@[at],
        ) && after.free_lists@ == before.free_lists@.drop_last()
        &&& before.free_lists@.len() == 0 ==> after.lists@ == before.lists@.push(after.lists@[at])
            && after.free_lists@ == before.free_lists@
        &&& after.nameless_records == before.nameless_records
        &&& after.free_nameless_records == before.free_nameless_records
        &&& after.total_allocated_object_count == crate::backend::heap::capped_sum(
            before.total_allocated_object_count,
            trimmed_parts(parts).len(),
        )
    }

    /// Puts the parts of a split in a new list of the heap and returns the
    /// handle.
    pub fn store_split(parts: Vec<String>, heap: &mut Heap) -> (r: DataType)
        requires
            old(heap).wf(),
        ensures
            final(heap).wf(),
            final(heap).extends(old(heap)),
            r@ == Value::List(old(heap).next_list_index() as usize),
            final(heap).live(r@),
            Self::holds_split(old(heap), final(heap), views(parts@)),
    {
        let n = parts.len();
        let strip = n > 0 && parts[0].as_str().unicode_len() == 0 && parts[n
            - 1].as_str().unicode_len() == 0;
        let (from, to) = if strip {
            if n == 1 {
                (0, 0)
            } else {
                (1, n - 1)
            }
        } else {
            (0, n)
        };
        let ghost wanted = trimmed_parts(views(parts@));
        assert(wanted =~= views(parts@).subrange(from as int, to as int));
        let mut splitted_string: Vec<DataType> = Vec::new();
        let mut k: usize = from;
        while k < to
            invariant
                from <= k <= to <= parts@.len(),
                splitted_string@.len() == k - from,
                forall|w: int|
                    0 <= w < k - from ==> (#[trigger] splitted_string@[w])@ == Value::String(
                        parts@[from + w]@,
                    ),
            decreases to - k,
        {
            splitted_string.push(DataType::String(parts[k].clone()));
            k += 1;
        }
        assert(list_values(splitted_string@) =~= Seq::new(
            wanted.len(),
            |k: int| Value::String(wanted[k]),
        ));
        heap.create_new_list_datatype(splitted_string)
    }

    /// Why a call of `_স্ট্রিং-জয়েন` fails, if it does.
    pub open spec fn string_join_error(arguments: Seq<Value>,
        heap: &Heap) -> Option<BuiltInErrorView> {
        if arguments.len() != 2 {
            Some(BuiltInErrorView::Failed("_স্ট্রিং-জয়েন() function expects two argument"@))
        } else if !(arguments[0] is List && arguments[1] is String) {
            Some(BuiltInErrorView::WrongKind("_স্ট্রিং-জয়েন() functions arguments must be list and string"@))
        } else if exists|k: int|
            0 <= k < heap.lists@[arguments[0]->List_0 as int]@.len() && !(
            #[trigger] heap.lists@[arguments[0]->List_0 as int]@[k] is String) {
            Some(BuiltInErrorView::WrongKind("_স্ট্রিং-জয়েন() functions only accepts list of strings"@))
        } else {
            None
        }
    }

    /// The strings of a list.
    pub open spec fn strings_of(list: Seq<DataType>) -> Seq<Seq<char>> {
        Seq::new(list.len(), |k: int| list[k]->String_0@)
    }

    /// What a call of `_স্ট্রিং-জয়েন` gives.
    pub open spec fn strings_joined(
        arguments: Seq<DataType>,
        heap: &Heap,
        r: Result<DataType, BuiltInError>,
    ) -> bool {
        match Self::string_join_error(list_values(arguments), heap) {
            Some(m) => r matches Err(e) && e@ == m,
            None => r matches Ok(v) && v@ == Value::String(
                joined(
                    Self::strings_of(heap.lists@[arguments[0]->List_0 as int]@),
                    arguments[1]->String_0@,
                ),
            ),
        }
    }

    /// Joins the strings of a list with a separator between each two.
    pub fn _string_join(arguments: Vec<DataType>, heap: &Heap) -> (r: Result<DataType,
        BuiltInError>)
        requires
            heap.wf(),
            all_live(heap, arguments@),
        ensures
            Self::strings_joined(arguments@, heap, r),
    {
        proof {
            assert(forall|k: int|
                0 <= k < arguments@.len() ==> list_values(arguments@)[k] == arguments@[k]@);
        }
        if arguments.len() == 2 {
            match (&arguments[0], &arguments[1]) {
                (DataType::List(list_index), DataType::String(join_by)) => {
                    assert(heap.live(arguments@[0]@));
                    let string_list = &heap.lists[*list_index];
                    let ghost parts = Self::strings_of(string_list@);
                    let mut joined_string = String::new();
                    let mut k: usize = 0;
                    while k < string_list.len()
                        invariant
                            k <= string_list@.len(),
                            *list_index < heap.lists@.len(),
                            *string_list == heap.lists@[*list_index as int],
                            list_values(arguments@).len() == 2,
                            list_values(arguments@)[0] == Value::List(*list_index),
                            list_values(arguments@)[1] is String,
                            parts == Self::strings_of(string_list@),
                            forall|w: int| 0 <= w < k ==> #[trigger] string_list@[w] is String,
                            joined_string@ == joined(parts.subrange(0, k as int), join_by@),
                        decreases string_list.len() - k,
                    {
                        if let DataType::String(string) = &string_list[k] {
                            proof {
                                let so_far = parts.subrange(0, k as int);
                                let next = parts.subrange(0, k + 1);
                                assert(next.drop_last() =~= so_far);
                                assert(next.last() == string@);
                                if k > 0 {
                                    assert((joined_string@ + join_by@) + string@ == joined(
                                        next,
                                        join_by@,
                                    ));
                                } else {
                                    assert(Seq::<char>::empty() + string@ =~= string@);
                                }
                            }
                            if k > 0 {
                                joined_string.append(join_by.as_str());
                            }
                            joined_string.append(string.as_str());
                        } else {
                            assert(!(heap.lists@[*list_index as int]@[k as int] is String));
                            return Err(BuiltInError::wrong_kind("_স্ট্রিং-জয়েন() functions only accepts list of strings"));
                        }
                        k += 1;
                    }
                    assert(parts.subrange(0, k as int) =~= parts);
                    Ok(DataType::String(joined_string))
                },
                _ => Err(BuiltInError::wrong_kind("_স্ট্রিং-জয়েন() functions arguments must be list and string")),
            }
        } else {
            Err(BuiltInError::failed("_স্ট্রিং-জয়েন() function expects two argument"))
        }
    }

    /// What a call of `_টাইপ` gives.
    pub open spec fn kind_named(arguments: Seq<DataType>, r: Result<DataType,
        BuiltInError>) -> bool {
        if arguments.len() != 1 {
            r matches Err(m) && m@ == BuiltInErrorView::Failed("_টাইপ() function expects one argument"@)
        } else {
            r matches Ok(v) && v@ == Value::String(kind_name(arguments[0]@))
        }
    }

    /// The name of the kind of a value.
    pub fn _type(arguments: Vec<DataType>) -> (r: Result<DataType, BuiltInError>)
        ensures
            Self::kind_named(arguments@, r),
    {
        if arguments.len() == 1 {
            let d = match &arguments[0] {
                DataType::Num(_) => DataType::String(String::from_str("_সংখ্যা")),
                DataType::Bool(_) => DataType::String(String::from_str("_বুলিয়ান")),
                DataType::String(_) => DataType::String(String::from_str("_স্ট্রিং")),
                DataType::List(_) => DataType::String(String::from_str("_লিস্ট")),
                DataType::NamelessRecord(_) => DataType::String(String::from_str("_রেকর্ড")),
                DataType::Function(_) => DataType::String(String::from_str("_ফাং")),
                DataType::Nil => DataType::String(String::from_str("_শূন্য")),
            };
            Ok(d)
        } else {
            Err(BuiltInError::failed("_টাইপ() function expects one argument"))
        }
    }
    /// A truth value for a platform operation that succeeded, or its error
    /// behind `prefix`.
    pub fn done(answer: Result<(), String>, prefix: &str) -> (r: Result<DataType, BuiltInError>)
        ensures
            answer is Ok ==> (r matches Ok(v) && v@ == Value::Bool(true)),
            answer matches Err(e) ==> (r matches Err(m) && m@ == BuiltInErrorView::Failed(
                prefix@ + e@,
            )),
    {
        match answer {
            Ok(()) => Ok(DataType::Bool(true)),
            Err(e) => Err(BuiltInError::Failed(prefixed(prefix, &e))),
        }
    }

    /// The one argument where it is a string, or a complaint: `arity`
    /// where there is not exactly one argument, `kind` where it is no
    /// string.
    pub fn path_argument(arguments: &Vec<DataType>, arity: &str, kind: &str) -> (r: Result<
        String,
        BuiltInError,
    >)
        ensures
            arguments@.len() != 1 ==> (r matches Err(m) && m@ == BuiltInErrorView::Failed(arity@)),
            arguments@.len() == 1 && !(arguments@[0] is String) ==> (r matches Err(m) && m@
                == BuiltInErrorView::WrongKind(kind@)),
            arguments@.len() == 1 && arguments@[0] is String ==> (r matches Ok(p) && p@
                == arguments@[0]->String_0@),
    {
        if arguments.len() == 1 {
            match &arguments[0] {
                DataType::String(p) => Ok(p.clone()),
                _ => Err(BuiltInError::wrong_kind(kind)),
            }
        } else {
            Err(BuiltInError::failed(arity))
        }
    }

    /// The content of a file.
    pub fn _read_file<P: Platform>(arguments: Vec<DataType>, pf: &mut P) -> (r: Result<DataType,
        BuiltInError>)
        ensures
            arguments@.len() != 1 ==> (r matches Err(m)
                && m@ == BuiltInErrorView::Failed("_রিড-ফাইল() function expects one argument"@)),
            arguments@.len() == 1 && !(arguments@[0] is String) ==> (r matches Err(m)
                && m@ == BuiltInErrorView::WrongKind("_রিড-ফাইল() function's path argument must be of type string"@)),
            r matches Ok(v) ==> v is String,
    {
        let path = Self::path_argument(
            &arguments,
            "_রিড-ফাইল() function expects one argument",
            "_রিড-ফাইল() function's path argument must be of type string",
        )?;
        match pf.read_file(path.as_str()) {
            Ok(content) => Ok(DataType::String(content)),
            Err(e) => Err(BuiltInError::Failed(prefixed("_রিড-ফাইল(): ", &e))),
        }
    }

    /// Writes a string to a file.
    pub fn _write_file<P: Platform>(arguments: Vec<DataType>, pf: &mut P) -> (r: Result<DataType,
        BuiltInError>)
        ensures
            arguments@.len() != 2 ==> (r matches Err(m)
                && m@ == BuiltInErrorView::Failed("_রাইট-ফাইল() function expects two argument"@)),
            arguments@.len() == 2 && !(arguments@[0] is String && arguments@[1] is String) ==> (
            r matches Err(m) && m@ == BuiltInErrorView::WrongKind("_রাইট-ফাইল() function's both argument must be of type string"@)),
            r matches Ok(v) ==> v@ == Value::Bool(true),
    {
        if arguments.len() == 2 {
            match (&arguments[0], &arguments[1]) {
                (DataType::String(p), DataType::String(content)) => Self::done(
                    pf.write_file(p.as_str(), content.as_str()),
                    "_রাইট-ফাইল(): ",
                ),
                _ => Err(BuiltInError::wrong_kind("_রাইট-ফাইল() function's both argument must be of type string")),
            }
        } else {
            Err(BuiltInError::failed("_রাইট-ফাইল() function expects two argument"))
        }
    }

    /// Removes a file.
    pub fn _delete_file<P: Platform>(arguments: Vec<DataType>, pf: &mut P) -> (r: Result<DataType,
        BuiltInError>)
        ensures
            arguments@.len() != 1 ==> (r matches Err(m)
                && m@ == BuiltInErrorView::Failed("_ডিলিট-ফাইল() function expects one argument"@)),
            arguments@.len() == 1 && !(arguments@[0] is String) ==> (r matches Err(m)
                && m@ == BuiltInErrorView::WrongKind("_ডিলিট-ফাইল() function's argument must be of type string"@)),
            r matches Ok(v) ==> v@ == Value::Bool(true),
    {
        let path = Self::path_argument(
            &arguments,
            "_ডিলিট-ফাইল() function expects one argument",
            "_ডিলিট-ফাইল() function's argument must be of type string",
        )?;
        Self::done(pf.delete_file(path.as_str()), "_ডিলিট-ফাইল(): ")
    }

    /// Creates a directory and the missing ones above it.
    pub fn _create_dir<P: Platform>(arguments: Vec<DataType>, pf: &mut P) -> (r: Result<DataType,
        BuiltInError>)
        ensures
            arguments@.len() != 1 ==> (r matches Err(m)
                && m@ == BuiltInErrorView::Failed("_ক্রিয়েট-ডাইরেক্টরি() function expects one argument"@)),
            arguments@.len() == 1 && !(arguments@[0] is String) ==> (r matches Err(m)
                && m@ == BuiltInErrorView::WrongKind("_ক্রিয়েট-ডাইরেক্টরি() function's argument must be of type string"@)),
            r matches Ok(v) ==> v@ == Value::Bool(true),
    {
        let path = Self::path_argument(
            &arguments,
            "_ক্রিয়েট-ডাইরেক্টরি() function expects one argument",
            "_ক্রিয়েট-ডাইরেক্টরি() function's argument must be of type string",
        )?;
        Self::done(pf.create_dir(path.as_str()), "_ক্রিয়েট-ডাইরেক্টরি(): ")
    }

    /// The names of the entries of a directory.
    pub fn _read_dir<P: Platform>(arguments: Vec<DataType>, pf: &mut P) -> (r: Result<
        Vec<String>,
        BuiltInError,
    >)
        ensures
            arguments@.len() != 1 ==> (r matches Err(m)
                && m@ == BuiltInErrorView::Failed("_রিড-ডাইরেক্টরি() function expects one argument"@)),
            arguments@.len() == 1 && !(arguments@[0] is String) ==> (r matches Err(m)
                && m@ == BuiltInErrorView::WrongKind("_রিড-ডাইরেক্টরি() function's argument must be of type string"@)),
    {
        let path = Self::path_argument(
            &arguments,
            "_রিড-ডাইরেক্টরি() function expects one argument",
            "_রিড-ডাইরেক্টরি() function's argument must be of type string",
        )?;
        match pf.read_dir(path.as_str()) {
            Ok(all_files_dirs) => Ok(all_files_dirs),
            Err(e) => {
                let mut detail = e;
                detail.append(", path: ");
                detail.append(path.as_str());
                Err(BuiltInError::Failed(prefixed("_রিড-ডাইরেক্টরি(): ", &detail)))
            },
        }
    }

    /// Removes a directory and what it holds.
    pub fn _delete_dir<P: Platform>(arguments: Vec<DataType>, pf: &mut P) -> (r: Result<DataType,
        BuiltInError>)
        ensures
            arguments@.len() != 1 ==> (r matches Err(m)
                && m@ == BuiltInErrorView::Failed("_ডিলিট-ডাইরেক্টরি() function expects one argument"@)),
            arguments@.len() == 1 && !(arguments@[0] is String) ==> (r matches Err(m)
                && m@ == BuiltInErrorView::WrongKind("_ডিলিট-ডাইরেক্টরি() function's argument must be of type string"@)),
            r matches Ok(v) ==> v@ == Value::Bool(true),
    {
        let path = Self::path_argument(
            &arguments,
            "_ডিলিট-ডাইরেক্টরি() function expects one argument",
            "_ডিলিট-ডাইরেক্টরি() function's argument must be of type string",
        )?;
        Self::done(pf.delete_dir(path.as_str()), "_ডিলিট-ডাইরেক্টরি(): ")
    }

    /// Whether a path names a file or a directory.
    pub fn _file_or_dir<P: Platform>(arguments: Vec<DataType>, pf: &mut P) -> (r: Result<DataType,
        BuiltInError>)
        ensures
            arguments@.len() != 1 ==> (r matches Err(m)
                && m@ == BuiltInErrorView::Failed("_ফাইল-নাকি-ডাইরেক্টরি() function expects one argument"@)),
            arguments@.len() == 1 && !(arguments@[0] is String) ==> (r matches Err(m)
                && m@ == BuiltInErrorView::WrongKind("_ফাইল-নাকি-ডাইরেক্টরি() function's argument must be of type string"@)),
            r matches Ok(v) ==> v@ == Value::String("ফাইল"@) || v@ == Value::String("ডাইরেক্টরি"@),
    {
        let path = Self::path_argument(
            &arguments,
            "_ফাইল-নাকি-ডাইরেক্টরি() function expects one argument",
            "_ফাইল-নাকি-ডাইরেক্টরি() function's argument must be of type string",
        )?;
        match pf.is_file(path.as_str()) {
            Ok(true) => Ok(DataType::String(String::from_str("ফাইল"))),
            Ok(false) => Ok(DataType::String(String::from_str("ডাইরেক্টরি"))),
            Err(e) => {
                let mut detail = e;
                detail.append(", path: ");
                detail.append(path.as_str());
                Err(BuiltInError::Failed(prefixed("_ফাইল-নাকি-ডাইরেক্টরি(): ", &detail)))
            },
        }
    }
}

} // verus!
