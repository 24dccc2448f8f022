//! How messages are framed, told apart and read.
use vstd::prelude::*;

use crate::data::{
    is_null, json_content, json_member, json_of_bytes, json_print, print_json, read_json_bytes,
    DataModel,
};
use crate::git::{lines, split_lines};
use crate::lookup::under;
use crate::order::{chars_of, models, Key};
use crate::parser::source::SourceText;
use crate::text::{
    behind, decimal, decimal_text, join, joined, offset, starts_with, strip_prefix, trim, trimmed,
};
use crate::tsgo::protocol::{HoverContents, JsonRpcResponse, MarkedStringOrMarkup};
use crate::words::texts_of;

verus! {

pub type Text = Seq<char>;

/// A message with the header that gives its length in bytes.
pub open spec fn framed(body: Text) -> Text {
    "Content-Length: "@ + decimal(offset(body, body.len() as int)) + "\r\n\r\n"@ + body
}

/// Frames a message.
pub fn frame(body: &str) -> (r: String)
    ensures
        r@ == framed(body@),
{
    let n = SourceText::new(body).byte_count();
    let mut out = "Content-Length: ".to_owned();
    out.append(decimal_text(n).as_str());
    out.append("\r\n\r\n");
    out.append(body);
    out
}

/// The value of a decimal digit.
pub open spec fn digit_value(c: char) -> Option<nat> {
    if '0' <= c && c <= '9' {
        Some((c as int - '0' as int) as nat)
    } else {
        None
    }
}

/// The number that a text of digits writes.
pub open spec fn digits_value(text: Text) -> Option<nat>
    decreases text.len(),
{
    if text.len() == 0 {
        Some(0)
    } else {
        match (digits_value(text.drop_last()), digit_value(text.last())) {
            (Some(n), Some(d)) => Some(n * 10 + d),
            _ => None,
        }
    }
}

/// The number that a text writes, with a plus sign or without; it fits in a machine word.
pub open spec fn number_in(text: Text) -> Option<usize> {
    let digits = if text.len() > 0 && text[0] == '+' {
        text.skip(1)
    } else {
        text
    };
    if digits.len() == 0 {
        None
    } else {
        match digits_value(digits) {
            Some(n) => if n <= usize::MAX {
                Some(n as usize)
            } else {
                None
            },
            None => None,
        }
    }
}

fn digit_number(c: char) -> (r: Option<usize>)
    ensures
        match r {
            Some(d) => digit_value(c) == Some(d as nat) && d < 10,
            None => digit_value(c) is None,
        },
{
    match c {
        '0' => Some(0),
        '1' => Some(1),
        '2' => Some(2),
        '3' => Some(3),
        '4' => Some(4),
        '5' => Some(5),
        '6' => Some(6),
        '7' => Some(7),
        '8' => Some(8),
        '9' => Some(9),
        _ => None,
    }
}

proof fn no_digits_stay(text: Text, k: int)
    requires
        0 <= k <= text.len(),
        digits_value(text.take(k)) is None,
    ensures
        digits_value(text) is None,
    decreases text.len() - k,
{
    if k < text.len() {
        assert(text.take(k + 1).drop_last() =~= text.take(k));
        no_digits_stay(text, k + 1);
    } else {
        assert(text.take(k) =~= text);
    }
}

proof fn digits_grow(text: Text, k: int)
    requires
        0 <= k <= text.len(),
        digits_value(text) is Some,
    ensures
        digits_value(text.take(k)) is Some,
        digits_value(text.take(k))->0 <= digits_value(text)->0,
    decreases text.len() - k,
{
    if k < text.len() {
        digits_grow(text, k + 1);
        assert(text.take(k + 1).drop_last() =~= text.take(k));
    } else {
        assert(text.take(k) =~= text);
    }
}

/// Reads a number.
pub fn parse_number(text: &str) -> (r: Option<usize>)
    ensures
        r == number_in(text@),
{
    let chars = chars_of(text);
    let from: usize = if chars.len() > 0 && chars[0] == '+' {
        1
    } else {
        0
    };
    let ghost digits = chars@.skip(from as int);
    proof {
        if from == 0 {
            assert(digits =~= text@);
        }
    }
    if chars.len() == from {
        return None;
    }
    let mut n: usize = 0;
    let mut i: usize = from;
    assert(digits.take(0) =~= Seq::empty());
    while i < chars.len()
        invariant
            from <= i <= chars.len(),
            from < chars.len(),
            chars@ == text@,
            digits == chars@.skip(from as int),
            number_in(text@) == match digits_value(digits) {
                Some(v) => if v <= usize::MAX {
                    Some(v as usize)
                } else {
                    None
                },
                None => None,
            },
            digits_value(digits.take(i - from)) == Some(n as nat),
        decreases chars.len() - i,
    {
        let ghost k = i - from;
        assert(digits.take(k + 1).drop_last() =~= digits.take(k));
        assert(digits.take(k + 1).last() == chars@[i as int]);
        match digit_number(chars[i]) {
            Some(d) => {
                if n > usize::MAX / 10 || n * 10 > usize::MAX - d {
                    proof {
                        if digits_value(digits) is Some {
                            digits_grow(digits, k + 1);
                        }
                    }
                    return None;
                }
                n = n * 10 + d;
            },
            None => {
                proof {
                    no_digits_stay(digits, k + 1);
                }
                return None;
            },
        }
        i += 1;
    }
    assert(digits.take(i - from) =~= digits);
    Some(n)
}

/// What reading a line of the headers leads to: the headers end, or the length is known as far as
/// this line says.
pub open spec fn header_step(known: Option<usize>, line: Text) -> Option<Option<usize>> {
    let text = trimmed(line);
    if text.len() == 0 {
        None
    } else {
        match behind(text, "Content-Length: "@) {
            Some(number) => Some(number_in(number)),
            None => Some(known),
        }
    }
}

/// Takes in a line of the headers: the length that is known now, or nothing where the headers end.
pub fn read_header(known: Option<usize>, line: &str) -> (r: Option<Option<usize>>)
    ensures
        r == header_step(known, line@),
{
    let text = trim(line);
    if chars_of(text.as_str()).len() == 0 {
        return None;
    }
    match strip_prefix(text.as_str(), "Content-Length: ") {
        Some(number) => Some(parse_number(number.as_str())),
        None => Some(known),
    }
}

/// What a message from the server is.
#[derive(Clone, Copy, Debug, PartialEq, Eq, Structural)]
pub enum MessageKind {
    /// It answers a request.
    Response,
    /// It asks for an answer itself.
    Request,
    /// It is neither.
    Notification,
}

pub open spec fn kind_of_message(message: DataModel) -> MessageKind {
    let id = under(message, "id"@) is Some;
    let method = under(message, "method"@) is Some;
    if id && !method {
        MessageKind::Response
    } else if id {
        MessageKind::Request
    } else {
        MessageKind::Notification
    }
}

/// Tells messages apart.
pub fn classify(message: &serde_json::Value) -> (r: MessageKind)
    ensures
        r == kind_of_message(json_content(*message)),
{
    let id = json_member(message, "id").is_some();
    let method = json_member(message, "method").is_some();
    if id && !method {
        MessageKind::Response
    } else if id {
        MessageKind::Request
    } else {
        MessageKind::Notification
    }
}

/// Reads the body of a message and says what the message is; a body that is no JSON is refused
/// with the reason.
pub fn read_message(body: &Vec<u8>) -> (r: Result<(MessageKind, serde_json::Value), String>)
    ensures
        match r {
            Ok((kind, value)) => json_of_bytes(body@) == Ok::<DataModel, Text>(json_content(value))
                && kind == kind_of_message(json_content(value)),
            Err(fault) => json_of_bytes(body@) == Err::<DataModel, Text>(fault@),
        },
{
    match read_json_bytes(body) {
        Ok(value) => {
            let kind = classify(&value);
            Ok((kind, value))
        },
        Err(fault) => Err(fault),
    }
}

/// Why an answer holds no result.
#[derive(Clone, Debug)]
pub enum AnswerFault {
    /// The server refused the request.
    Refused { code: i32, message: String },
    /// The answer holds neither an error nor a result.
    Empty,
}

/// The result that an answer gives: an error goes before a result.
pub fn answer<R>(response: JsonRpcResponse<R>) -> (r: Result<R, AnswerFault>)
    ensures
        match response.error {
            Some(error) => r matches Err(AnswerFault::Refused { code, message }) && code
                == error.code && message@ == error.message@,
            None => match response.result {
                Some(result) => r == Ok::<R, AnswerFault>(result),
                None => r == Err::<R, AnswerFault>(AnswerFault::Empty),
            },
        },
{
    match response.error {
        Some(error) => Err(AnswerFault::Refused { code: error.code, message: error.message }),
        None => match response.result {
            Some(result) => Ok(result),
            None => Err(AnswerFault::Empty),
        },
    }
}

/// The description of a place that an answer gives: an error goes first, and a result that is
/// missing or null describes nothing.
pub fn hover_answer(response: JsonRpcResponse<serde_json::Value>) -> (r: Result<
    Option<serde_json::Value>,
    AnswerFault,
>)
    ensures
        match response.error {
            Some(error) => r matches Err(AnswerFault::Refused { code, message }) && code
                == error.code && message@ == error.message@,
            None => match response.result {
                Some(result) => if json_content(result) == DataModel::Null {
                    r == Ok::<Option<serde_json::Value>, AnswerFault>(None)
                } else {
                    r == Ok::<Option<serde_json::Value>, AnswerFault>(Some(result))
                },
                None => r == Ok::<Option<serde_json::Value>, AnswerFault>(None),
            },
        },
{
    match answer(response) {
        Ok(value) => if is_null(&value) {
            Ok(None)
        } else {
            Ok(Some(value))
        },
        Err(AnswerFault::Empty) => Ok(None),
        Err(fault) => Err(fault),
    }
}

/// The answer to a request of the server, so that it goes on.
pub open spec fn acknowledgement(id: DataModel) -> Text {
    "{\"jsonrpc\":\"2.0\",\"id\":"@ + json_print(id) + ",\"result\":null}"@
}

/// Answers a request of the server with nothing.
pub fn acknowledge(message: &serde_json::Value) -> (r: Option<String>)
    ensures
        match r {
            Some(body) => under(json_content(*message), "id"@) is Some && body@ == acknowledgement(
                under(json_content(*message), "id"@)->0,
            ),
            None => under(json_content(*message), "id"@) is None,
        },
{
    match json_member(message, "id") {
        Some(id) => {
            let mut out = "{\"jsonrpc\":\"2.0\",\"id\":".to_owned();
            out.append(print_json(id).as_str());
            out.append(",\"result\":null}");
            Some(out)
        },
        None => None,
    }
}

/// The text between the fences of a block of code; the whole where there is no block.
pub open spec fn unfenced(text: Text) -> Text {
    let value = trimmed(text);
    let all = lines(value);
    if "```"@.is_prefix_of(value) && all.len() >= 2 {
        joined(all.subrange(1, all.len() - 1), "\n"@)
    } else {
        value
    }
}

/// The type that a part of an answer gives.
pub open spec fn type_in(part: MarkedStringOrMarkup) -> Option<Text> {
    match part {
        MarkedStringOrMarkup::String(text) => if text@.len() == 0 {
            None
        } else {
            Some(text@)
        },
        MarkedStringOrMarkup::MarkupContent(markup) => if markup.value@.len() == 0 {
            None
        } else {
            Some(unfenced(markup.value@))
        },
        MarkedStringOrMarkup::MarkedString(marked) => if marked.value@.len() == 0 {
            None
        } else {
            Some(marked.value@)
        },
    }
}

/// The first type among the parts from the `i`th on.
pub open spec fn first_type(parts: Seq<MarkedStringOrMarkup>, i: int) -> Option<Text>
    decreases parts.len() - i,
{
    if i >= parts.len() {
        None
    } else if type_in(parts[i]) is Some {
        type_in(parts[i])
    } else {
        first_type(parts, i + 1)
    }
}

/// The type that an answer gives.
pub open spec fn hover_type(contents: HoverContents) -> Option<Text> {
    match contents {
        HoverContents::Single(part) => type_in(part),
        HoverContents::Array(parts) => first_type(parts@, 0),
    }
}

fn is_empty(text: &String) -> (r: bool)
    ensures
        r == (text@.len() == 0),
{
    chars_of(text.as_str()).len() == 0
}

fn unfence(text: &str) -> (r: String)
    ensures
        r@ == unfenced(text@),
{
    let value = trim(text);
    if starts_with(value.as_str(), "```") {
        let all = split_lines(value.as_str());
        let ghost l = lines(value@);
        assert(texts_of(all@) =~= models(all@));
        if all.len() >= 2 {
            let mut inner: Vec<String> = Vec::new();
            let last = all.len() - 1;
            let mut i: usize = 1;
            assert(models(inner@) =~= l.subrange(1, 1));
            while i < last
                invariant
                    1 <= i <= last,
                    last == all.len() - 1,
                    l == texts_of(all@),
                    models(inner@) == l.subrange(1, i as int),
                decreases last - i,
            {
                let ghost before = models(inner@);
                let item = all[i].clone();
                inner.push(item);
                proof {
                    assert(l[i as int] == all@[i as int]@);
                    assert(models(inner@) =~= before.push(item@));
                    assert(l.subrange(1, i + 1) =~= l.subrange(1, i as int).push(l[i as int]));
                }
                i += 1;
            }
            return join(&inner, "\n");
        }
    }
    value
}

fn read_type(part: &MarkedStringOrMarkup) -> (r: Option<String>)
    ensures
        r.model() == type_in(*part),
{
    match part {
        MarkedStringOrMarkup::String(text) => if is_empty(text) {
            None
        } else {
            Some(text.clone())
        },
        MarkedStringOrMarkup::MarkupContent(markup) => if is_empty(&markup.value) {
            None
        } else {
            Some(unfence(markup.value.as_str()))
        },
        MarkedStringOrMarkup::MarkedString(marked) => if is_empty(&marked.value) {
            None
        } else {
            Some(marked.value.clone())
        },
    }
}

/// Reads the type off an answer.
pub fn extract_type(contents: &HoverContents) -> (r: Option<String>)
    ensures
        r.model() == hover_type(*contents),
{
    match contents {
        HoverContents::Single(part) => read_type(part),
        HoverContents::Array(parts) => {
            let mut i: usize = 0;
            while i < parts.len()
                invariant
                    i <= parts.len(),
                    first_type(parts@, 0) == first_type(parts@, i as int),
                    hover_type(*contents) == first_type(parts@, 0),
                decreases parts.len() - i,
            {
                let found = read_type(&parts[i]);
                if found.is_some() {
                    return found;
                }
                i += 1;
            }
            None
        },
    }
}

/// A reader of the header of a framed message learns the length of its body.
pub proof fn frames_tell_their_length(n: usize)
    ensures
        number_in(decimal(n as nat)) == Some(n),
{
    decimal_is_read_back(n as nat);
    let text = decimal(n as nat);
    assert(text.len() > 0 && text[0] != '+') by {
        decimal_starts_with_digit(n as nat);
    }
}

proof fn decimal_is_read_back(n: nat)
    ensures
        digits_value(decimal(n)) == Some(n),
    decreases n,
{
    let text = decimal(n);
    if n < 10 {
        assert(text.drop_last() =~= Seq::empty());
        assert(digits_value(Seq::<char>::empty()) == Some(0nat));
    } else {
        decimal_is_read_back(n / 10);
        assert(text.drop_last() =~= decimal(n / 10));
        assert(n / 10 * 10 + n % 10 == n);
    }
}

proof fn decimal_starts_with_digit(n: nat)
    ensures
        decimal(n).len() > 0,
        digit_value(decimal(n)[0]) is Some,
    decreases n,
{
    if n >= 10 {
        decimal_starts_with_digit(n / 10);
    }
}

/// The header that a frame starts with gives its length back. An empty line ends the headers, and
/// other headers say nothing of the length.
pub proof fn headers_give_the_length_back(known: Option<usize>, n: usize, other: Text)
    requires
        other.len() > 0,
        trimmed(other) == other,
        !"Content-Length: "@.is_prefix_of(other),
    ensures
        header_step(known, "Content-Length: "@ + decimal(n as nat) + "\r\n"@) == Some(Some(n)),
        header_step(known, "\r\n"@) is None,
        header_step(known, Seq::empty()) is None,
        header_step(known, other) == Some(known),
{
    reveal_strlit("Content-Length: ");
    reveal_strlit("\r\n");
    let number = decimal(n as nat);
    let line = "Content-Length: "@ + number;
    frames_tell_their_length(n);
    decimal_starts_with_digit(n as nat);
    decimal_ends_with_digit(n as nat);
    assert(line.last() == number.last());
    assert("\r\n"@ =~= seq!['\r', '\n']);
    crate::text::white_space_behind_is_trimmed(line, "\r\n"@);
    assert("Content-Length: "@.is_prefix_of(line)) by {
        assert(line.take("Content-Length: "@.len() as int) =~= "Content-Length: "@);
    }
    assert(line.skip("Content-Length: "@.len() as int) =~= number);
    crate::text::trimming_takes_white_space("\r\n"@);
    crate::text::trimming_takes_white_space(Seq::<char>::empty());
    nothing_is_left_of_white_space("\r\n"@);
    nothing_is_left_of_white_space(Seq::empty());
}

proof fn nothing_is_left_of_white_space(text: Text)
    requires
        forall|i: int| 0 <= i < text.len() ==> crate::text::white_space(#[trigger] text[i]),
    ensures
        trimmed(text).len() == 0,
{
    crate::text::trimming_takes_white_space(text);
    let (from, to) = choose|from: int, to: int|
        {
            &&& 0 <= from <= to <= text.len()
            &&& trimmed(text) == #[trigger] text.subrange(from, to)
            &&& forall|i: int| 0 <= i < from ==> crate::text::white_space(#[trigger] text[i])
            &&& forall|i: int| to <= i < text.len() ==> crate::text::white_space(#[trigger] text[i])
        };
    if from < to {
        assert(trimmed(text)[0] == text[from]);
    }
}

proof fn decimal_ends_with_digit(n: nat)
    ensures
        decimal(n).len() > 0,
        !crate::text::white_space(decimal(n).last()),
{
    let d = (n % 10) as nat;
    assert(decimal(n).last() == crate::text::digit(d));
}

/// A message with an identifier is a request where it names a method and a response where not; one
/// without is a notification.
pub proof fn messages_are_told_apart(message: DataModel)
    ensures
        under(message, "id"@) is None ==> kind_of_message(message) == MessageKind::Notification,
        under(message, "id"@) is Some && under(message, "method"@) is Some ==> kind_of_message(message)
            == MessageKind::Request,
        under(message, "id"@) is Some && under(message, "method"@) is None ==> kind_of_message(message)
            == MessageKind::Response,
{
}

/// The type in an answer of several parts is that of the first part that gives one.
pub proof fn the_first_type_counts(parts: Seq<MarkedStringOrMarkup>, from: int, i: int)
    requires
        0 <= from <= i < parts.len(),
        type_in(parts[i]) is Some,
        forall|k: int| from <= k < i ==> type_in(#[trigger] parts[k]) is None,
    ensures
        first_type(parts, from) == type_in(parts[i]),
    decreases i - from,
{
    if from < i {
        assert(type_in(parts[from]) is None);
        the_first_type_counts(parts, from + 1, i);
    }
}

} // verus!
