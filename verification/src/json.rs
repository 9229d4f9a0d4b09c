//! JSON values, as far as a job description needs them.

use vstd::prelude::*;
use vstd::string::StrSliceExecFns;
use vstd::string::StringExecFns;
use vstd::utf8::encode_utf8;
use crate::text::same_text;

verus! {

broadcast use vstd::string::group_string_axioms;

/// A JSON value as the parser holds it.
#[verifier::external_type_specification]
#[verifier::external_body]
pub struct ExParsedJson(rustc_serialize::json::Json);

/// The fault that the parser finds in a text.
#[verifier::external_type_specification]
#[verifier::external_body]
pub struct ExParserError(rustc_serialize::json::ParserError);

/// A JSON value.
#[derive(Debug, PartialEq, Eq)]
pub enum Value {
    Null,
    Boolean(bool),
    I64(i64),
    U64(u64),
    /// A number that is no integer. Its value is not kept: nothing here
    /// reads it.
    F64,
    String(String),
    Array(Vec<Value>),
    /// The members in order. Where a key stands twice, the first counts.
    Object(Vec<(String, Value)>),
}

/// The view of a [`Value`].
pub enum ValueView {
    Null,
    Boolean(bool),
    I64(i64),
    U64(u64),
    F64,
    String(Seq<char>),
    Array(Seq<ValueView>),
    Object(Seq<(Seq<char>, ValueView)>),
}

impl Value {
    /// The mathematical value that this value stands for.
    pub open spec fn model(self) -> ValueView
        decreases self,
    {
        match self {
            Value::Null => ValueView::Null,
            Value::Boolean(b) => ValueView::Boolean(b),
            Value::I64(n) => ValueView::I64(n),
            Value::U64(n) => ValueView::U64(n),
            Value::F64 => ValueView::F64,
            Value::String(text) => ValueView::String(text@),
            Value::Array(items) => ValueView::Array(
                Seq::new(
                    items@.len(),
                    |i: int|
                        if 0 <= i < items@.len() {
                            items@[i].model()
                        } else {
                            ValueView::Null
                        },
                ),
            ),
            Value::Object(members) => ValueView::Object(
                Seq::new(
                    members@.len(),
                    |i: int|
                        if 0 <= i < members@.len() {
                            (members@[i].0@, members@[i].1.model())
                        } else {
                            (Seq::empty(), ValueView::Null)
                        },
                ),
            ),
        }
    }
}

impl View for Value {
    type V = ValueView;

    open spec fn view(&self) -> ValueView {
        self.model()
    }
}

/// The value of the first member with the key `key`.
pub open spec fn first_member(members: Seq<(Seq<char>, ValueView)>, key: Seq<char>) -> Option<
    ValueView,
>
    decreases members.len(),
{
    if members.len() == 0 {
        None
    } else if members[0].0 == key {
        Some(members[0].1)
    } else {
        first_member(members.skip(1), key)
    }
}

impl ValueView {
    /// The value under `key`, where this is an object that has the key.
    pub open spec fn find(self, key: Seq<char>) -> Option<ValueView> {
        match self {
            ValueView::Object(members) => first_member(members, key),
            _ => None,
        }
    }

    /// The text, where this is a string.
    pub open spec fn as_string(self) -> Option<Seq<char>> {
        match self {
            ValueView::String(text) => Some(text),
            _ => None,
        }
    }

    /// The truth value, where this is one.
    pub open spec fn as_boolean(self) -> Option<bool> {
        match self {
            ValueView::Boolean(b) => Some(b),
            _ => None,
        }
    }

    /// The number, where this is an integer that is not negative.
    pub open spec fn as_u64(self) -> Option<u64> {
        match self {
            ValueView::I64(n) => if n >= 0 {
                Some(n as u64)
            } else {
                None
            },
            ValueView::U64(n) => Some(n),
            _ => None,
        }
    }

    /// The items, where this is an array.
    pub open spec fn as_array(self) -> Option<Seq<ValueView>> {
        match self {
            ValueView::Array(items) => Some(items),
            _ => None,
        }
    }
}

impl Value {
    /// The value under `key`, where this is an object that has the key.
    pub fn find(&self, key: &str) -> (found: Option<&Value>)
        ensures
            match found {
                Some(value) => self@.find(key@) == Some(value@),
                None => self@.find(key@) is None,
            },
    {
        match self {
            Value::Object(members) => {
                let ghost views = self@->Object_0;
                let mut i: usize = 0;
                assert(views.skip(0) =~= views);
                while i < members.len()
                    invariant
                        *self == Value::Object(*members),
                        views == self@->Object_0,
                        i <= members@.len(),
                        first_member(views, key@) == first_member(views.skip(i as int), key@),
                    decreases members@.len() - i,
                {
                    assert(views.skip(i as int).skip(1) =~= views.skip(i + 1));
                    if same_text(members[i].0.as_str(), key) {
                        return Some(&members[i].1);
                    }
                    i += 1;
                }
                None
            },
            _ => None,
        }
    }

    /// Whether this is an object.
    pub fn is_object(&self) -> (object: bool)
        ensures
            object == (self@ is Object),
    {
        match self {
            Value::Object(_) => true,
            _ => false,
        }
    }

    /// The text, where this is a string.
    pub fn as_string(&self) -> (text: Option<&str>)
        ensures
            match text {
                Some(text) => self@.as_string() == Some(text@),
                None => self@.as_string() is None,
            },
    {
        match self {
            Value::String(text) => Some(text.as_str()),
            _ => None,
        }
    }

    /// The truth value, where this is one.
    pub fn as_boolean(&self) -> (value: Option<bool>)
        ensures
            value == self@.as_boolean(),
    {
        match self {
            Value::Boolean(b) => Some(*b),
            _ => None,
        }
    }

    /// The number, where this is an integer that is not negative.
    pub fn as_u64(&self) -> (value: Option<u64>)
        ensures
            value == self@.as_u64(),
    {
        match self {
            Value::I64(n) => if *n >= 0 {
                Some(*n as u64)
            } else {
                None
            },
            Value::U64(n) => Some(*n),
            _ => None,
        }
    }

    /// The items, where this is an array.
    pub fn as_array(&self) -> (items: Option<&Vec<Value>>)
        ensures
            match items {
                Some(items) => self@ == ValueView::Array(
                    Seq::new(items@.len(), |i: int| items@[i]@),
                ),
                None => self@.as_array() is None,
            },
    {
        match self {
            Value::Array(items) => {
                assert(self@->Array_0 =~= Seq::new(items@.len(), |i: int| items@[i]@));
                Some(items)
            },
            _ => None,
        }
    }
}

/// The longest text, in bytes, that is handed to the parser. The parser
/// keeps the place of every object key in sixteen bits.
pub const MAX_TEXT_BYTES: usize = 65535;

/// The most opening brackets and braces of a text that is handed to the
/// parser. The parser goes one call deeper with each array and object
/// that opens inside another.
pub const MAX_OPENINGS: usize = 128;

/// The most digits of an exponent in a text that is handed to the
/// parser. The parser adds the digits of an exponent up in a machine word
/// and does not look whether the word holds them; one of thirty-two bits
/// holds nine.
pub const MAX_EXPONENT_DIGITS: usize = 9;

/// Why a text gave no JSON value.
#[derive(Debug, PartialEq, Eq)]
pub enum ParseError {
    /// The text is not one that is handed to the parser: it is too long,
    /// opens too many arrays and objects, holds an exponent of too many
    /// digits, or has a comma before a closing brace.
    Refused,
    /// The text is no JSON document. The error holds the fault and where
    /// it stands, in the words of the parser.
    Syntax(String),
}

/// The number of opening brackets and braces in a text, wherever they
/// stand.
pub open spec fn openings(text: Seq<char>) -> nat
    decreases text.len(),
{
    if text.len() == 0 {
        0
    } else if text.last() == '[' || text.last() == '{' {
        openings(text.drop_last()) + 1
    } else {
        openings(text.drop_last())
    }
}

/// Whether `c` is one of the ten digits.
pub open spec fn is_digit(c: char) -> bool {
    '0' <= c <= '9'
}

/// The number of digits that a text ends in.
pub open spec fn trailing_digits(text: Seq<char>) -> nat
    decreases text.len(),
{
    if text.len() > 0 && is_digit(text.last()) {
        trailing_digits(text.drop_last()) + 1
    } else {
        0
    }
}

/// Whether a text ends where the digits of an exponent begin: in `e` or
/// `E`, or in a sign behind one of the two.
pub open spec fn ends_in_exponent_mark(text: Seq<char>) -> bool {
    let n = text.len() as int;
    ||| n >= 1 && (text[n - 1] == 'e' || text[n - 1] == 'E')
    ||| n >= 2 && (text[n - 1] == '+' || text[n - 1] == '-') && (text[n - 2] == 'e' || text[n
        - 2] == 'E')
}

/// The number of exponent digits that a text ends in: the digits at its
/// end where the mark of an exponent stands before them, wherever in the
/// text that is; none where no such mark stands there.
pub open spec fn exponent_digits(text: Seq<char>) -> nat {
    let digits = trailing_digits(text);
    if ends_in_exponent_mark(text.take(text.len() - digits)) {
        digits
    } else {
        0
    }
}

/// Whether a text holds an exponent of more than `MAX_EXPONENT_DIGITS`
/// digits: whether some beginning of the text ends in that many.
pub open spec fn has_long_exponent(text: Seq<char>) -> bool
    decreases text.len(),
{
    text.len() > 0 && (has_long_exponent(text.drop_last()) || exponent_digits(text)
        > MAX_EXPONENT_DIGITS)
}

/// Whether the parser skips `c` between the parts of a document.
pub open spec fn is_blank(c: char) -> bool {
    c == ' ' || c == '\n' || c == '\t' || c == '\r'
}

/// Whether a text ends in a comma, or in a comma and blanks behind it.
pub open spec fn ends_behind_comma(text: Seq<char>) -> bool
    decreases text.len(),
{
    text.len() > 0 && (text.last() == ',' || (is_blank(text.last()) && ends_behind_comma(
        text.drop_last(),
    )))
}

/// Whether somewhere in a text a closing brace follows a comma with
/// nothing but blanks between the two.
pub open spec fn has_comma_before_brace(text: Seq<char>) -> bool
    decreases text.len(),
{
    text.len() > 0 && (has_comma_before_brace(text.drop_last()) || (text.last() == '}'
        && ends_behind_comma(text.drop_last())))
}

/// Whether a text is one that is handed to the parser: at most
/// `MAX_TEXT_BYTES` bytes long, with at most `MAX_OPENINGS` opening
/// brackets and braces, with no exponent of more than
/// `MAX_EXPONENT_DIGITS` digits, and with no comma before a closing
/// brace. No JSON document has such a comma outside its strings.
pub open spec fn parseable(text: Seq<char>) -> bool {
    &&& encode_utf8(text).len() <= MAX_TEXT_BYTES
    &&& openings(text) <= MAX_OPENINGS
    &&& !has_long_exponent(text)
    &&& !has_comma_before_brace(text)
}

/// Whether a text is one that is handed to the parser.
pub fn is_parseable(text: &str) -> (fits: bool)
    ensures
        fits == parseable(text@),
{
    if text.as_bytes().len() > MAX_TEXT_BYTES {
        return false;
    }
    let n: usize = text.unicode_len();
    let mut count: usize = 0;
    let mut digits: usize = 0;
    let mut marked = false;
    let mut after_e = false;
    let mut long_exponent = false;
    let mut behind_comma = false;
    let mut comma_before_brace = false;
    let chars = text.chars();
    for ch in it: chars
        invariant
            it.seq() == text@,
            n == text@.len(),
            count == openings(text@.take(it.index())),
            count <= it.index(),
            digits == trailing_digits(text@.take(it.index())),
            digits <= it.index(),
            marked == ends_in_exponent_mark(text@.take(it.index() - digits)),
            after_e == (it.index() > 0 && (text@[it.index() - 1] == 'e' || text@[it.index() - 1]
                == 'E')),
            long_exponent == has_long_exponent(text@.take(it.index())),
            behind_comma == ends_behind_comma(text@.take(it.index())),
            comma_before_brace == has_comma_before_brace(text@.take(it.index())),
    {
        let ghost before = text@.take(it.index());
        let ghost after = text@.take(it.index() + 1);
        assert(after.drop_last() =~= before);
        assert(after.last() == ch);
        if ch == '[' || ch == '{' {
            count += 1;
        }
        if ch == '}' && behind_comma {
            comma_before_brace = true;
        }
        if ch == ',' {
            behind_comma = true;
        } else if !(ch == ' ' || ch == '\n' || ch == '\t' || ch == '\r') {
            behind_comma = false;
        }
        if ch >= '0' && ch <= '9' {
            digits += 1;
            assert(after.take(after.len() - digits) =~= before.take(before.len() - (digits - 1)));
            if marked && digits > MAX_EXPONENT_DIGITS {
                long_exponent = true;
            }
            after_e = false;
        } else {
            digits = 0;
            assert(after.take(after.len() as int) =~= after);
            marked = ch == 'e' || ch == 'E' || ((ch == '+' || ch == '-') && after_e);
            after_e = ch == 'e' || ch == 'E';
        }
    }
    assert(text@.take(text@.len() as int) =~= text@);
    count <= MAX_OPENINGS && !long_exponent && !comma_before_brace
}

/// The value that a document of the parser holds. The members of an
/// object stand in the order of their keys, each key once; of a number
/// that is no integer only that it is one.
pub uninterp spec fn document_value(document: rustc_serialize::json::Json) -> ValueView;

/// The value that the parser reads from a text; nothing where the text is
/// no JSON document.
pub uninterp spec fn parsed(text: Seq<char>) -> Option<ValueView>;

/// Parses a text.
///
/// Stands for `rustc_serialize::json::Json::from_str`, which reads one
/// JSON document from the characters of the text and gives the fault
/// where the text is none. The parser reads nothing but the text, so what
/// it gives is a function of the text; the contract gives that function
/// its name and claims no more.
///
/// The parser does not come back from every text. It keeps the start and
/// the length of each object key that is open in sixteen bits and adds
/// the two, so keys that together pass 65535 bytes make it panic; it
/// calls itself once for each array or object that opens inside another,
/// without a limit; it adds the digits of an exponent up in a machine
/// word without a check; and at a closing brace behind a comma, inside
/// another array or object, it forgets one level of where it stands and
/// may then panic at the next member. A text of at most `MAX_TEXT_BYTES`
/// bytes holds no such keys, one with at most `MAX_OPENINGS` opening
/// brackets and braces is nested no deeper than that, an exponent of at
/// most `MAX_EXPONENT_DIGITS` digits fits the word, and a text without a
/// comma before a closing brace never brings the parser to that place:
/// those are the texts that the contract admits.
///
/// Of a number that is no integer the name says that it is one and no
/// more: the parser works its value out in floating point, in steps
/// whose precision is not fixed.
#[verifier::external_body]
fn parse(text: &str) -> (result: Result<
    rustc_serialize::json::Json,
    rustc_serialize::json::ParserError,
>)
    requires
        parseable(text@),
    ensures
        match result {
            Ok(document) => parsed(text@) == Some(document_value(document)),
            Err(_) => parsed(text@) is None,
        },
{
    rustc_serialize::json::Json::from_str(text)
}

/// The library's value for a document of the parser.
///
/// Handles `rustc_serialize::json::Json`: each variant becomes the variant
/// of the same name with the same content, but for a number that is no
/// integer, whose value is left behind; the members of an object come in
/// the order in which its map hands them out. The contract names what
/// comes of this.
#[verifier::external_body]
fn imported(document: &rustc_serialize::json::Json) -> (value: Value)
    ensures
        value@ == document_value(*document),
{
    match document {
        rustc_serialize::json::Json::Null => Value::Null,
        rustc_serialize::json::Json::Boolean(b) => Value::Boolean(*b),
        rustc_serialize::json::Json::I64(n) => Value::I64(*n),
        rustc_serialize::json::Json::U64(n) => Value::U64(*n),
        rustc_serialize::json::Json::F64(_) => Value::F64,
        rustc_serialize::json::Json::String(text) => Value::String(text.clone()),
        rustc_serialize::json::Json::Array(items) => Value::Array(
            items.iter().map(imported).collect(),
        ),
        rustc_serialize::json::Json::Object(members) => Value::Object(
            members.iter().map(|(key, value)| (key.clone(), imported(value))).collect(),
        ),
    }
}

/// The fault in the words of the parser.
///
/// Stands for the `Display` of `rustc_serialize::json::ParserError`.
#[verifier::external_body]
fn fault_text(error: &rustc_serialize::json::ParserError) -> String {
    format!("{}", error)
}

impl ParseError {
    /// The error in words.
    pub fn message(&self) -> (text: String)
        ensures
            text@ == match self {
                ParseError::Refused => "text refused"@,
                ParseError::Syntax(fault) => fault@,
            },
    {
        match self {
            ParseError::Refused => String::from_str("text refused"),
            ParseError::Syntax(fault) => fault.clone(),
        }
    }
}

impl Value {
    /// The value that a text spells. A text that is not one for the parser
    /// is turned away before the parser sees it; of any other text the
    /// parser says whether it is a JSON document, and which.
    pub fn from_str(text: &str) -> (result: Result<Value, ParseError>)
        ensures
            match result {
                Ok(value) => parseable(text@) && parsed(text@) == Some(value@),
                Err(ParseError::Refused) => !parseable(text@),
                Err(ParseError::Syntax(_)) => parseable(text@) && parsed(text@) is None,
            },
    {
        if !is_parseable(text) {
            return Err(ParseError::Refused);
        }
        match parse(text) {
            Ok(document) => Ok(imported(&document)),
            Err(error) => Err(ParseError::Syntax(fault_text(&error))),
        }
    }
}

} // verus!
