//! Pieces of text: decimal numbers, JSON strings, prefixes, bytes read as text.

use vstd::prelude::*;
use vstd::string::*;
use vstd::utf8::*;

verus! {

/// The character of a decimal digit.
pub open spec fn digit_char(d: nat) -> char {
    if d == 0 { '0' } else if d == 1 { '1' } else if d == 2 { '2' } else if d == 3 { '3' }
    else if d == 4 { '4' } else if d == 5 { '5' } else if d == 6 { '6' } else if d == 7 { '7' }
    else if d == 8 { '8' } else { '9' }
}

/// A number written in decimal, without leading zeros.
pub open spec fn decimal(n: nat) -> Seq<char>
    decreases n,
{
    if n < 10 {
        seq![digit_char(n)]
    } else {
        decimal(n / 10).push(digit_char(n % 10))
    }
}

fn digit_text(d: u64) -> (s: &'static str)
    requires
        d < 10,
    ensures
        s@ == seq![digit_char(d as nat)],
{
    proof {
        reveal_strlit("0");
        reveal_strlit("1");
        reveal_strlit("2");
        reveal_strlit("3");
        reveal_strlit("4");
        reveal_strlit("5");
        reveal_strlit("6");
        reveal_strlit("7");
        reveal_strlit("8");
        reveal_strlit("9");
    }
    if d == 0 { "0" } else if d == 1 { "1" } else if d == 2 { "2" } else if d == 3 { "3" }
    else if d == 4 { "4" } else if d == 5 { "5" } else if d == 6 { "6" } else if d == 7 { "7" }
    else if d == 8 { "8" } else { "9" }
}

/// Writes a number in decimal.
pub fn decimal_text(n: u64) -> (s: String)
    ensures
        s@ == decimal(n as nat),
    decreases n,
{
    if n < 10 {
        digit_text(n).to_owned()
    } else {
        let mut s = decimal_text(n / 10);
        s.append(digit_text(n % 10));
        s
    }
}

/// The character of a hexadecimal digit, in lower case.
pub open spec fn hex_char(d: nat) -> char {
    if d < 10 { digit_char(d) } else if d == 10 { 'a' } else if d == 11 { 'b' }
    else if d == 12 { 'c' } else if d == 13 { 'd' } else if d == 14 { 'e' } else { 'f' }
}

/// A character as it stands inside a JSON string.
pub open spec fn json_char(c: char) -> Seq<char> {
    let n = c as u32;
    if c == '"' {
        seq!['\\', '"']
    } else if c == '\\' {
        seq!['\\', '\\']
    } else if n == 0x08 {
        seq!['\\', 'b']
    } else if n == 0x09 {
        seq!['\\', 't']
    } else if n == 0x0a {
        seq!['\\', 'n']
    } else if n == 0x0c {
        seq!['\\', 'f']
    } else if n == 0x0d {
        seq!['\\', 'r']
    } else if n < 0x20 {
        seq!['\\', 'u', '0', '0', hex_char((n / 16) as nat), hex_char((n % 16) as nat)]
    } else {
        seq![c]
    }
}

/// A text as it stands inside a JSON string.
pub open spec fn json_chars(text: Seq<char>) -> Seq<char>
    decreases text.len(),
{
    if text.len() == 0 {
        Seq::empty()
    } else {
        json_chars(text.drop_last()) + json_char(text.last())
    }
}

/// A text as a JSON string, with its quotes.
pub open spec fn json_quoted(text: Seq<char>) -> Seq<char> {
    seq!['"'] + json_chars(text) + seq!['"']
}

/// Writes a text as a JSON string. Calls `serde_json::to_string` on the text,
/// which puts it between quotes and writes a quote, a backslash and each control
/// character below U+0020 as an escape sequence, and every other character as
/// it is. It does not fail on a text.
#[verifier::external_body]
pub(crate) fn json_text(text: &str) -> (s: String)
    ensures
        s@ == json_quoted(text@),
{
    serde_json::to_string(text).unwrap()
}

/// The text that `String::from_utf8_lossy` reads from bytes.
pub uninterp spec fn lossy_text(bytes: Seq<u8>) -> Seq<char>;

/// Reads bytes as UTF-8 text. Calls `String::from_utf8_lossy`, which decodes
/// valid UTF-8 as it is. What stands for bytes that are not valid is a function
/// of the bytes that no clause describes further.
#[verifier::external_body]
pub(crate) fn read_lossy(bytes: &Vec<u8>) -> (s: String)
    ensures
        s@ == lossy_text(bytes@),
        valid_utf8(bytes@) ==> s@ == decode_utf8(bytes@),
{
    String::from_utf8_lossy(bytes).into_owned()
}

/// The text that is read from bytes: what they encode if they are valid UTF-8.
pub open spec fn text_of(bytes: Seq<u8>) -> Seq<char> {
    if valid_utf8(bytes) {
        decode_utf8(bytes)
    } else {
        lossy_text(bytes)
    }
}

/// The characters of each string.
pub open spec fn texts(strings: Seq<String>) -> Seq<Seq<char>> {
    strings.map_values(|s: String| s@)
}

/// Whether a text is the same as a given one.
pub fn same_text(text: &str, other: &str) -> (r: bool)
    ensures
        r == (text@ == other@),
{
    text.to_owned() == other.to_owned()
}

/// The part of a text behind a prefix, if the text has the prefix.
pub fn strip_prefix(text: &str, prefix: &str) -> (r: Option<String>)
    ensures
        match r {
            Some(rest) => text@ == prefix@ + rest@,
            None => !prefix@.is_prefix_of(text@),
        },
{
    let n = prefix.unicode_len();
    let len = text.unicode_len();
    if n > len {
        return None;
    }
    if same_text(text.substring_char(0, n), prefix) {
        let rest = text.substring_char(n, len).to_owned();
        assert(text@ =~= prefix@ + rest@);
        Some(rest)
    } else {
        None
    }
}

/// Two texts, one behind the other.
pub fn join(first: &str, second: &str) -> (s: String)
    ensures
        s@ == first@ + second@,
{
    let mut s = first.to_owned();
    s.append(second);
    s
}

/// The number that a decimal digit stands for.
pub open spec fn digit_value(c: char) -> nat {
    (c as int - '0' as int) as nat
}

/// Reads a number from the front of a text: the number, and what stands behind its
/// last digit. `read` is what the digits before stood for.
pub open spec fn read_number(read: nat, s: Seq<char>) -> (nat, Seq<char>)
    decreases s.len(),
{
    if s.len() > 0 && '0' <= s[0] <= '9' {
        read_number(read * 10 + digit_value(s[0]), s.drop_first())
    } else {
        (read, s)
    }
}

/// A number that is written and read again is the same number, whatever stands
/// behind it.
pub proof fn law_decimal_reads_back(n: nat, rest: Seq<char>)
    requires
        rest.len() == 0 || !('0' <= rest[0] <= '9'),
    ensures
        read_number(0, decimal(n) + rest) == (n, rest),
{
    lemma_read_decimal(n, rest);
}

proof fn lemma_read_decimal(n: nat, rest: Seq<char>)
    ensures
        read_number(0, decimal(n) + rest) == read_number(n, rest),
    decreases n,
{
    let d = digit_char(n % 10);
    let more = seq![d] + rest;
    assert('0' <= d <= '9' && digit_value(d) == n % 10);
    assert(more.drop_first() =~= rest);
    assert(read_number(n / 10, more) == read_number((n / 10) * 10 + digit_value(d), rest));
    if n < 10 {
        assert(decimal(n) + rest =~= more);
    } else {
        lemma_read_decimal(n / 10, more);
        assert(decimal(n) + rest =~= decimal(n / 10) + more);
    }
}

/// A number is written with decimal digits only, at least one, and with a zero in
/// front only if it is zero.
pub proof fn law_decimal_digits(n: nat)
    ensures
        decimal(n).len() > 0,
        forall|i: int| 0 <= i < decimal(n).len() ==> '0' <= #[trigger] decimal(n)[i] <= '9',
        decimal(n)[0] == '0' ==> n == 0 && decimal(n).len() == 1,
    decreases n,
{
    if n >= 10 {
        law_decimal_digits(n / 10);
        assert(decimal(n)[0] == decimal(n / 10)[0]);
    }
}

/// The number that a hexadecimal digit stands for.
pub open spec fn hex_value(c: char) -> nat {
    if '0' <= c <= '9' {
        (c as int - '0' as int) as nat
    } else if 'a' <= c <= 'f' {
        (c as int - 'a' as int + 10) as nat
    } else {
        (c as int - 'A' as int + 10) as nat
    }
}

/// The character that one character or escape sequence of a JSON string stands for.
pub open spec fn read_json_char(code: Seq<char>) -> char {
    if code.len() == 1 {
        code[0]
    } else if code.len() == 6 {
        (hex_value(code[2]) * 4096 + hex_value(code[3]) * 256 + hex_value(code[4]) * 16 + hex_value(
            code[5],
        )) as char
    } else if code[1] == 'b' {
        0x08int as char
    } else if code[1] == 't' {
        0x09int as char
    } else if code[1] == 'n' {
        0x0aint as char
    } else if code[1] == 'f' {
        0x0cint as char
    } else if code[1] == 'r' {
        0x0dint as char
    } else {
        code[1]
    }
}

/// Reads the inside of a JSON string up to its closing quote: the text, and what
/// stands behind the quote.
pub open spec fn read_json_chars(s: Seq<char>) -> Option<(Seq<char>, Seq<char>)>
    decreases s.len(),
{
    if s.len() == 0 {
        None
    } else if s[0] == '"' {
        Some((Seq::empty(), s.skip(1)))
    } else {
        let n: int = if s[0] != '\\' {
            1
        } else if s.len() > 1 && s[1] == 'u' {
            6
        } else {
            2
        };
        if (s[0] as int) < 0x20 || s.len() < n {
            None
        } else {
            let c = read_json_char(s.take(n));
            match read_json_chars(s.skip(n)) {
                Some((text, rest)) => Some((seq![c] + text, rest)),
                None => None,
            }
        }
    }
}

/// Reads a JSON string from the front of a text: what it says, and what stands behind it.
pub open spec fn read_json(s: Seq<char>) -> Option<(Seq<char>, Seq<char>)> {
    if s.len() > 0 && s[0] == '"' {
        read_json_chars(s.skip(1))
    } else {
        None
    }
}

/// A text that is written as a JSON string and read again is the same text, whatever
/// it holds and whatever stands behind it.
pub proof fn law_json_reads_back(text: Seq<char>, rest: Seq<char>)
    ensures
        read_json(json_quoted(text) + rest) == Some((text, rest)),
{
    lemma_read_json_chars(text, rest);
    let s = json_quoted(text) + rest;
    assert(s.skip(1) =~= json_chars(text) + (seq!['"'] + rest));
}

proof fn lemma_json_chars_front(text: Seq<char>)
    requires
        text.len() > 0,
    ensures
        json_chars(text) == json_char(text[0]) + json_chars(text.drop_first()),
    decreases text.len(),
{
    let rest = text.drop_first();
    if text.len() == 1 {
        assert(text.drop_last() =~= Seq::empty());
        assert(rest =~= Seq::empty());
        assert(json_chars(text) =~= json_char(text[0]) + json_chars(rest));
    } else {
        lemma_json_chars_front(text.drop_last());
        assert(text.drop_last().drop_first() =~= rest.drop_last());
        assert(json_chars(text) =~= json_char(text[0]) + json_chars(rest));
    }
}

proof fn lemma_read_json_chars(text: Seq<char>, rest: Seq<char>)
    ensures
        read_json_chars(json_chars(text) + (seq!['"'] + rest)) == Some((text, rest)),
    decreases text.len(),
{
    let end = seq!['"'] + rest;
    if text.len() == 0 {
        assert(json_chars(text) + end =~= end);
        assert(end.skip(1) =~= rest);
        assert(text =~= Seq::empty());
    } else {
        let c = text[0];
        let more = text.drop_first();
        let code = json_char(c);
        let s = json_chars(text) + end;
        lemma_json_chars_front(text);
        lemma_read_json_chars(more, rest);
        assert(s =~= code + (json_chars(more) + end));
        assert(s.skip(code.len() as int) =~= json_chars(more) + end);
        assert(s.take(code.len() as int) =~= code);
        assert(forall|i: int| 0 <= i < code.len() ==> s[i] == code[i]);
        assert(seq![c] + more =~= text);
        lemma_json_char(c);
    }
}

/// What the escape sequences stand for.
proof fn lemma_json_char(c: char)
    ensures
        ({
            let code = json_char(c);
            &&& code.len() == 1 || code.len() == 2 || code.len() == 6
            &&& code[0] != '"'
            &&& forall|i: int| 0 <= i < code.len() ==> 0x20 <= #[trigger] code[i] as int
            &&& code.len() == 1 <==> code[0] != '\\'
            &&& code.len() == 6 <==> code.len() > 1 && code[1] == 'u'
            &&& read_json_char(code) == c
            &&& 0x20 <= c as int && c != '"' && c != '\\' ==> code == seq![c]
        }),
{
    let n = c as u32;
    if n < 0x20 {
        assert(n / 16 < 2 && n % 16 < 16);
        assert(hex_value(hex_char((n / 16) as nat)) == n / 16);
        assert(hex_value(hex_char((n % 16) as nat)) == n % 16);
    }
}

/// Texts that are not the same are not the same JSON string, and a JSON string holds
/// no line break and no other control character.
pub proof fn law_json_strings(text: Seq<char>, other: Seq<char>)
    ensures
        json_quoted(text) == json_quoted(other) ==> text == other,
        forall|i: int|
            0 <= i < json_quoted(text).len() ==> 0x20 <= #[trigger] json_quoted(text)[i] as int,
{
    law_json_reads_back(text, Seq::empty());
    law_json_reads_back(other, Seq::empty());
    lemma_no_control(text);
}

proof fn lemma_no_control(text: Seq<char>)
    ensures
        forall|i: int|
            0 <= i < json_chars(text).len() ==> 0x20 <= #[trigger] json_chars(text)[i] as int,
    decreases text.len(),
{
    if text.len() > 0 {
        let front = json_chars(text.drop_last());
        let code = json_char(text.last());
        lemma_no_control(text.drop_last());
        lemma_json_char(text.last());
        assert forall|i: int| 0 <= i < json_chars(text).len() implies 0x20 <= #[trigger] json_chars(
            text,
        )[i] as int by {
            if i < front.len() {
                assert(json_chars(text)[i] == front[i]);
            } else {
                assert(json_chars(text)[i] == code[i - front.len()]);
            }
        }
    }
}

/// A text without quotes, backslashes and control characters stands in a JSON string
/// as it is.
pub proof fn law_plain_json(text: Seq<char>)
    requires
        forall|i: int|
            0 <= i < text.len() ==> {
                &&& 0x20 <= #[trigger] text[i] as int
                &&& text[i] != '"'
                &&& text[i] != '\\'
            },
    ensures
        json_quoted(text) == seq!['"'] + text + seq!['"'],
{
    lemma_plain_json(text);
}

proof fn lemma_plain_json(text: Seq<char>)
    requires
        forall|i: int|
            0 <= i < text.len() ==> {
                &&& 0x20 <= #[trigger] text[i] as int
                &&& text[i] != '"'
                &&& text[i] != '\\'
            },
    ensures
        json_chars(text) == text,
    decreases text.len(),
{
    if text.len() > 0 {
        lemma_plain_json(text.drop_last());
        assert(text.last() == text[text.len() - 1]);
        lemma_json_char(text.last());
        assert(json_chars(text) =~= text);
    }
}

/// What is read from valid UTF-8 is the text that it encodes.
pub proof fn law_text_of(text: Seq<char>)
    ensures
        text_of(encode_utf8(text)) == text,
{
    encode_utf8_valid_utf8(text);
    encode_utf8_decode_utf8(text);
}

} // verus!
