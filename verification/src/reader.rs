//! The executable parser: a cursor over an immutable text buffer, and one
//! method per production.  Every method is proved to agree with the spec
//! functions of [`crate::model`].

use vstd::prelude::*;
use vstd::string::StrSliceExecFns;
use vstd::string::StringExecFns;

use crate::model::advanced;
use crate::model::array_items;
use crate::model::bool_result;
use crate::model::char_at;
use crate::model::ci_eq;
use crate::model::ci_match;
use crate::model::dec_of;
use crate::model::digit_char;
use crate::model::digit_of;
use crate::model::is_valid_number;
use crate::model::key_result;
use crate::model::lemma_ci_match3;
use crate::model::lemma_ci_match4;
use crate::model::lemma_number_scan_len_le;
use crate::model::lemma_parse_progress;
use crate::model::lemma_text_scan_len_le;
use crate::model::lemma_window3_is;
use crate::model::message_text;
use crate::model::look_window;
use crate::model::null_result;
use crate::model::number_char;
use crate::model::number_result;
use crate::model::number_scan_len;
use crate::model::option_char_debug_of;
use crate::model::object_items;
use crate::model::parse_result;
use crate::model::remaining;
use crate::model::string_result;
use crate::model::text_scan_len;
use crate::model::ErrorKind;
use crate::model::Value;
use crate::value::entry_models_of;
use crate::value::models_of;
use crate::value::failure_message_pinned;
use crate::value::result_models;
use crate::value::JsonError;
use crate::value::JsonValue;

verus! {

/// A single-pass recursive-descent parser over a fixed input text.  The
/// cursor counts characters (codepoints), not bytes, and advances
/// monotonically with no bounds check against the input: it may move past
/// end-of-input, after which reads yield nothing and lookaheads are empty.
/// The one stop is the machine's own limit — an advance saturates at
/// `usize::MAX` instead of overflowing, so no advance can panic.
///
/// Parsing one value leaves the cursor just past what was consumed, except
/// that a string's closing quote is left unconsumed for an enclosing
/// container loop to absorb; a second `parse` on the same instance is
/// therefore not in general a fresh top-level parse of the remaining text.
pub struct Json {
    pos: usize,
    json: String,
}

/// The decimal rendering of a number, most significant digit first, proved
/// equal to [`dec_of`].
fn decimal_string(n: usize) -> (r: String)
    ensures
        r@ == dec_of(n as nat),
    decreases n,
{
    let digits = "0123456789";
    proof {
        reveal_strlit("0123456789");
    }
    let d = n % 10;
    let tail = digits.substring_char(d, d + 1);
    proof {
        assert(tail@ =~= seq![digit_of((n % 10) as nat)]);
    }
    if n < 10 {
        tail.to_owned()
    } else {
        let mut r = decimal_string(n / 10);
        r.append(tail);
        proof {
            assert(r@ =~= dec_of((n / 10) as nat).push(digit_of((n % 10) as nat)));
        }
        r
    }
}

/// Renders a diagnostic message: the leading phrase, the position in
/// decimal, the connecting phrase, and the fragment in single quotes — the
/// one shape every diagnostic of this library takes, built here by verified
/// concatenation.
fn render_message(before: &str, pos: usize, middle: &str, fragment: &str) -> (r: String)
    ensures
        r@ == message_text(before@, pos as nat, middle@, fragment@),
{
    proof {
        reveal_strlit("'");
    }
    let mut r = before.to_owned();
    let num = decimal_string(pos);
    r.append(num.as_str());
    r.append(middle);
    r.append("'");
    r.append(fragment);
    r.append("'");
    r
}

/// Relies on char's `Display` implementation, which std documents as writing
/// the character itself, so the result is exactly the one-character string.
#[verifier::external_body]
fn char_to_string(c: char) -> (r: String)
    ensures
        r@ == seq![c],
{
    c.to_string()
}

/// Relies on std's `Debug` formatting of an optional character, used only to
/// render the offending character inside a diagnostic message.  The result
/// depends on the argument alone, so it is promised as the named rendering
/// [`option_char_debug_of`] rather than transcribing std's escaping rules.
#[verifier::external_body]
fn option_char_debug(c: Option<char>) -> (r: String)
    ensures
        r@ == option_char_debug_of(c),
{
    format!("{:?}", c)
}

impl Json {
    /// The input text, as a character sequence.
    pub closed spec fn buf(self) -> Seq<char> {
        self.json@
    }

    /// The cursor: the index of the next character to be read.
    pub closed spec fn cursor(self) -> int {
        self.pos as int
    }

    /// Makes a parser over the given text, with the cursor at the start.
    pub fn new(json: String) -> (r: Json)
        ensures
            r.buf() == json@,
            r.cursor() == 0,
    {
        Json { pos: 0, json }
    }

    /// The number of characters in the input.
    fn len_chars(&self) -> (n: usize)
        ensures
            n == self.buf().len(),
    {
        self.json.as_str().unicode_len()
    }

    /// Moves the cursor one character forward, with no bounds check against
    /// the input; it saturates only at `usize::MAX`.
    pub fn consume_char(&mut self)
        ensures
            final(self).buf() == old(self).buf(),
            final(self).cursor() == advanced(old(self).cursor(), 1),
    {
        if self.pos < usize::MAX {
            self.pos = self.pos + 1;
        }
    }

    /// Moves the cursor `n` characters forward, with no bounds check against
    /// the input; it saturates only at `usize::MAX`.
    pub fn consume_chars(&mut self, n: usize)
        ensures
            final(self).buf() == old(self).buf(),
            final(self).cursor() == advanced(old(self).cursor(), n as int),
    {
        if n <= usize::MAX - self.pos {
            self.pos = self.pos + n;
        } else {
            self.pos = usize::MAX;
        }
    }

    /// The character at the cursor, or nothing at or past end-of-input.
    /// Does not advance.  The second clause records that the input fits the
    /// machine, which the recursive proofs lean on.
    pub fn current_char(&self) -> (r: Option<char>)
        ensures
            r == char_at(self.buf(), self.cursor()),
            self.buf().len() <= usize::MAX,
    {
        let n = self.len_chars();
        if self.pos < n {
            Some(self.json.as_str().get_char(self.pos))
        } else {
            None
        }
    }

    /// The character one position past the cursor, if any.  Does not advance.
    pub fn next_char(&self) -> (r: Option<char>)
        ensures
            r == char_at(self.buf(), self.cursor() + 1),
    {
        let n = self.len_chars();
        if self.pos < n && self.pos + 1 < n {
            Some(self.json.as_str().get_char(self.pos + 1))
        } else {
            None
        }
    }

    /// Up to `length` characters starting one position past the cursor.  If
    /// the input ends first, only what is available is returned, possibly
    /// nothing; the call never fails and never moves the cursor, which the
    /// `&self` receiver already guarantees.
    pub fn look_ahead(&self, length: usize) -> (r: String)
        ensures
            r@ == look_window(self.buf(), self.cursor(), length as int),
    {
        let n = self.len_chars();
        let lo = if self.pos < n {
            self.pos + 1
        } else {
            n
        };
        let hi = if length < n - lo {
            lo + length
        } else {
            n
        };
        self.json.as_str().substring_char(lo, hi).to_owned()
    }

    /// The `InvalidFormat` error for an unrecognised character under the
    /// cursor, with a diagnostic naming the position and the character.
    pub fn invalid_format(&self, invalid: char) -> (e: JsonError)
        ensures
            e.kind() == ErrorKind::InvalidFormat,
            e->InvalidFormat_0@ == message_text(
                "Invalid format at pos "@,
                self.cursor() as nat,
                " found: "@,
                seq![invalid],
            ),
    {
        let frag = char_to_string(invalid);
        JsonError::InvalidFormat(
            render_message("Invalid format at pos ", self.pos, " found: ", frag.as_str()),
        )
    }

    /// How many characters the number scanner takes from the cursor: the
    /// length of the run of digits, `.` and `-` under it.  Does not advance.
    fn scan_number_len(&self) -> (n: usize)
        ensures
            n == number_scan_len(self.buf(), self.cursor()),
    {
        let len = self.len_chars();
        let mut i: usize = self.pos;
        loop
            invariant
                self.pos <= i,
                len == self.buf().len(),
                number_scan_len(self.buf(), self.pos as int) == i - self.pos + number_scan_len(
                    self.buf(),
                    i as int,
                ),
            ensures
                self.pos <= i,
                number_scan_len(self.buf(), self.pos as int) == i - self.pos,
            decreases self.buf().len() - i,
        {
            if i < len {
                let c = self.json.as_str().get_char(i);
                if is_number_char(c) {
                    i = i + 1;
                } else {
                    break;
                }
            } else {
                break;
            }
        }
        i - self.pos
    }

    /// How many characters a string or key scan takes from the cursor: the
    /// length of the run of characters other than `"` under it.  Does not
    /// advance.
    fn scan_text_len(&self) -> (n: usize)
        ensures
            n == text_scan_len(self.buf(), self.cursor()),
    {
        let len = self.len_chars();
        let mut i: usize = self.pos;
        loop
            invariant
                self.pos <= i,
                len == self.buf().len(),
                text_scan_len(self.buf(), self.pos as int) == i - self.pos + text_scan_len(
                    self.buf(),
                    i as int,
                ),
            ensures
                self.pos <= i,
                text_scan_len(self.buf(), self.pos as int) == i - self.pos,
            decreases self.buf().len() - i,
        {
            if i < len {
                let c = self.json.as_str().get_char(i);
                if c != '"' {
                    i = i + 1;
                } else {
                    break;
                }
            } else {
                break;
            }
        }
        i - self.pos
    }
}

/// Whether `c` is a character the number scanner accepts.
fn is_number_char(c: char) -> (r: bool)
    ensures
        r == number_char(c),
{
    ('0' as u32 <= c as u32 && c as u32 <= '9' as u32) || c == '.' || c == '-'
}

/// Whether `c` is an ASCII decimal digit.
fn is_digit_char(c: char) -> (r: bool)
    ensures
        r == digit_char(c),
{
    '0' as u32 <= c as u32 && c as u32 <= '9' as u32
}

/// Whether `a` equals `b` up to ASCII letter case; see [`ci_eq`].
fn ci_eq_char(a: char, b: char) -> (r: bool)
    ensures
        r == ci_eq(a, b),
{
    a == b || (b as u32 >= 32 && a as u32 == b as u32 - 32)
}

/// Whether the scanned text is a numeric literal the host floating-point
/// parser accepts; agrees with [`is_valid_number`] on its character sequence.
fn check_number(text: &str) -> (b: bool)
    ensures
        b == is_valid_number(text@),
{
    let len = text.unicode_len();
    if len == 0 {
        return false;
    }
    let start: usize = if text.get_char(0) == '-' {
        1
    } else {
        0
    };
    if len <= start {
        return false;
    }
    let mut seen_digit = false;
    let mut seen_dot = false;
    let mut j: usize = start;
    while j < len
        invariant
            start <= j <= len,
            len == text@.len(),
            start < len,
            start == (if text@.len() > 0 && text@[0] == '-' {
                1int
            } else {
                0int
            }),
            forall|i: int| start <= i < j ==> digit_char(#[trigger] text@[i]) || text@[i] == '.',
            seen_dot == exists|i: int| start <= i < j && #[trigger] text@[i] == '.',
            forall|i: int, k: int|
                start <= i < k < j && text@[i] == '.' ==> text@[k] != '.',
            seen_digit == exists|i: int| start <= i < j && digit_char(#[trigger] text@[i]),
        decreases len - j,
    {
        let c = text.get_char(j);
        if is_digit_char(c) {
            seen_digit = true;
        } else if c == '.' {
            if seen_dot {
                proof {
                    let i = choose|i: int| start <= i < j && #[trigger] text@[i] == '.';
                    assert(text@[i] == '.' && text@[j as int] == '.' && i < j);
                }
                return false;
            }
            seen_dot = true;
        } else {
            return false;
        }
        j = j + 1;
    }
    seen_digit
}

impl Json {
    /// Parses a boolean literal at the cursor.  On `t`/`T` the next three
    /// characters must spell `rue` in any letter casing and four characters
    /// are consumed; on `f`/`F` the next four must spell `alse` and five are
    /// consumed.  Anything else, including a truncated literal, fails with
    /// `InvalidFormat` — or `EndOfStr` at end-of-input — and leaves the
    /// cursor in place.
    pub fn parse_bool(&mut self) -> (r: Result<JsonValue, JsonError>)
        ensures
            final(self).buf() == old(self).buf(),
            ({
                let (m, q) = bool_result(old(self).buf(), old(self).cursor());
                &&& final(self).cursor() == q
                &&& result_models(r, m)
            }),
            ({
                let s = old(self).buf();
                let p = old(self).cursor();
                &&& ((0 <= p < s.len() && (s[p] == 't' || s[p] == 'T') && !ci_match(
                    look_window(s, p, 3),
                    seq!['r', 'u', 'e'],
                )) ==> (r->Err_0 is InvalidFormat && r->Err_0->InvalidFormat_0@ == message_text(
                    "Invalid boolean at "@,
                    p as nat,
                    " found char: "@,
                    look_window(s, p, 3),
                )))
                &&& ((0 <= p < s.len() && (s[p] == 'f' || s[p] == 'F') && !ci_match(
                    look_window(s, p, 4),
                    seq!['a', 'l', 's', 'e'],
                )) ==> (r->Err_0 is InvalidFormat && r->Err_0->InvalidFormat_0@ == message_text(
                    "Invalid boolean at "@,
                    p as nat,
                    " found char: "@,
                    look_window(s, p, 4),
                )))
                &&& ((0 <= p < s.len() && !(s[p] == 't' || s[p] == 'T') && !(s[p] == 'f' || s[p]
                    == 'F')) ==> (r->Err_0 is InvalidFormat && r->Err_0->InvalidFormat_0@
                    == message_text(
                    "Invalid boolean at "@,
                    p as nat,
                    " found char: "@,
                    option_char_debug_of(Some(s[p])),
                )))
            }),
    {
        let len = self.len_chars();
        let cur = self.current_char();
        proof {
            lemma_ci_match3(self.buf(), self.cursor(), 'r', 'u', 'e');
            lemma_ci_match4(self.buf(), self.cursor(), 'a', 'l', 's', 'e');
        }
        match cur {
            Some(c) => {
                if c == 't' || c == 'T' {
                    if self.pos < len && len - self.pos >= 4 && ci_eq_char(
                        self.json.as_str().get_char(self.pos + 1),
                        'r',
                    ) && ci_eq_char(self.json.as_str().get_char(self.pos + 2), 'u') && ci_eq_char(
                        self.json.as_str().get_char(self.pos + 3),
                        'e',
                    ) {
                        self.consume_chars(4);
                        Ok(JsonValue::Bool(true))
                    } else {
                        let tail = self.look_ahead(3);
                        Err(
                            JsonError::InvalidFormat(
                                render_message(
                                    "Invalid boolean at ",
                                    self.pos,
                                    " found char: ",
                                    tail.as_str(),
                                ),
                            ),
                        )
                    }
                } else if c == 'f' || c == 'F' {
                    if self.pos < len && len - self.pos >= 5 && ci_eq_char(
                        self.json.as_str().get_char(self.pos + 1),
                        'a',
                    ) && ci_eq_char(self.json.as_str().get_char(self.pos + 2), 'l') && ci_eq_char(
                        self.json.as_str().get_char(self.pos + 3),
                        's',
                    ) && ci_eq_char(self.json.as_str().get_char(self.pos + 4), 'e') {
                        self.consume_chars(5);
                        Ok(JsonValue::Bool(false))
                    } else {
                        let tail = self.look_ahead(4);
                        Err(
                            JsonError::InvalidFormat(
                                render_message(
                                    "Invalid boolean at ",
                                    self.pos,
                                    " found char: ",
                                    tail.as_str(),
                                ),
                            ),
                        )
                    }
                } else {
                    let frag = option_char_debug(cur);
                    Err(
                        JsonError::InvalidFormat(
                            render_message(
                                "Invalid boolean at ",
                                self.pos,
                                " found char: ",
                                frag.as_str(),
                            ),
                        ),
                    )
                }
            }
            None => Err(JsonError::EndOfStr),
        }
    }

    /// Parses a number at the cursor: the maximal run of digits, `.` and `-`
    /// is scanned, kept as text if the host floating-point parser would
    /// accept it, and consumed; otherwise the parse fails with
    /// `InvalidFormat` naming the position and the parse-error phrase — on
    /// the characters the scanner admits, the host float parser reports
    /// `invalid float literal` for every string it rejects, and the
    /// diagnostic reproduces that phrase — and the cursor stays.  Leading
    /// zeros are accepted.
    pub fn parse_number(&mut self) -> (r: Result<JsonValue, JsonError>)
        ensures
            final(self).buf() == old(self).buf(),
            ({
                let (m, q) = number_result(old(self).buf(), old(self).cursor());
                &&& final(self).cursor() == q
                &&& result_models(r, m)
                &&& m is Err ==> (r->Err_0 is InvalidFormat && r->Err_0->InvalidFormat_0@
                    == message_text(
                    "Invalid number format at "@,
                    old(self).cursor() as nat,
                    " "@,
                    "invalid float literal"@,
                ))
            }),
    {
        let len = self.len_chars();
        let n = self.scan_number_len();
        let start = if self.pos <= len {
            self.pos
        } else {
            len
        };
        proof {
            if self.pos <= len {
                lemma_number_scan_len_le(self.buf(), self.cursor());
            }
        }
        let text = self.json.as_str().substring_char(start, start + n).to_owned();
        if check_number(text.as_str()) {
            self.consume_chars(n);
            Ok(JsonValue::Number(text))
        } else {
            Err(
                JsonError::InvalidFormat(
                    render_message("Invalid number format at ", self.pos, " ", "invalid float literal"),
                ),
            )
        }
    }

    /// Parses `null` at the cursor: the three characters past the cursor
    /// must equal `ull` exactly — unlike booleans the match is
    /// case-sensitive — and four characters are consumed; otherwise the
    /// parse fails with `InvalidFormat` and the cursor stays.
    pub fn parse_null(&mut self) -> (r: Result<JsonValue, JsonError>)
        ensures
            final(self).buf() == old(self).buf(),
            ({
                let (m, q) = null_result(old(self).buf(), old(self).cursor());
                &&& final(self).cursor() == q
                &&& result_models(r, m)
                &&& m is Err ==> (r->Err_0 is InvalidFormat && r->Err_0->InvalidFormat_0@
                    == message_text(
                    "Invalid null value at "@,
                    old(self).cursor() as nat,
                    " "@,
                    look_window(old(self).buf(), old(self).cursor(), 3),
                ))
            }),
    {
        let len = self.len_chars();
        proof {
            lemma_window3_is(self.buf(), self.cursor(), 'u', 'l', 'l');
        }
        if self.pos < len && len - self.pos >= 4 && self.json.as_str().get_char(self.pos + 1)
            == 'u' && self.json.as_str().get_char(self.pos + 2) == 'l' && self.json.as_str()
            .get_char(self.pos + 3) == 'l' {
            self.consume_chars(4);
            Ok(JsonValue::Null)
        } else {
            let tail = self.look_ahead(3);
            Err(
                JsonError::InvalidFormat(
                    render_message("Invalid null value at ", self.pos, " ", tail.as_str()),
                ),
            )
        }
    }

    /// Parses a string at the cursor: the opening quote is consumed, then
    /// everything up to (not including) the next `"` becomes the text, with
    /// no escape processing.  The closing quote is left unconsumed, a string
    /// with no closing quote runs to end-of-input, and the parse never
    /// fails.
    pub fn parse_string(&mut self) -> (r: Result<JsonValue, JsonError>)
        ensures
            final(self).buf() == old(self).buf(),
            ({
                let (m, q) = string_result(old(self).buf(), old(self).cursor());
                &&& final(self).cursor() == q
                &&& result_models(r, m)
            }),
    {
        self.consume_char();
        let len = self.len_chars();
        let n = self.scan_text_len();
        let start = if self.pos <= len {
            self.pos
        } else {
            len
        };
        proof {
            if self.pos <= len {
                lemma_text_scan_len_le(self.buf(), self.cursor());
            }
        }
        let text = self.json.as_str().substring_char(start, start + n).to_owned();
        proof {
            let s = old(self).buf();
            let q = advanced(old(self).cursor(), 1);
            assert(self.cursor() == q);
            assert(n == text_scan_len(s, q));
            if q <= s.len() {
                assert(text@ == s.subrange(q, q + text_scan_len(s, q)));
            } else {
                assert(n == 0);
                assert(text@ =~= Seq::<char>::empty());
            }
        }
        self.consume_chars(n);
        Ok(JsonValue::String(text))
    }

    /// Scans an object key: the cursor is assumed to sit just past the
    /// opening quote, everything up to (not including) the next `"` is
    /// returned as raw text, and the cursor is left on that quote.  Never
    /// fails; the key may be empty or run to end-of-input.
    pub fn parse_key(&mut self) -> (r: String)
        ensures
            final(self).buf() == old(self).buf(),
            ({
                let (t, q) = key_result(old(self).buf(), old(self).cursor());
                &&& r@ == t
                &&& final(self).cursor() == q
            }),
    {
        let len = self.len_chars();
        let n = self.scan_text_len();
        let start = if self.pos <= len {
            self.pos
        } else {
            len
        };
        proof {
            if self.pos <= len {
                lemma_text_scan_len_le(self.buf(), self.cursor());
            }
        }
        let text = self.json.as_str().substring_char(start, start + n).to_owned();
        self.consume_chars(n);
        text
    }

    /// Parses one value at the cursor.  Separators — space, newline, colon,
    /// comma, tab — are skipped first; the next character then selects the
    /// production, an unrecognised character fails with `InvalidFormat`, and
    /// exhausted input fails with `EndOfStr`.  This is also the recursive
    /// driver for every array element and object value.
    pub fn parse(&mut self) -> (r: Result<JsonValue, JsonError>)
        ensures
            final(self).buf() == old(self).buf(),
            ({
                let (m, q) = parse_result(old(self).buf(), old(self).cursor());
                &&& final(self).cursor() == q
                &&& result_models(r, m)
                &&& failure_message_pinned(
                    old(self).buf(),
                    parse_result(old(self).buf(), old(self).cursor()),
                    r,
                )
            }),
        decreases remaining(old(self).buf(), old(self).cursor()), 2int,
    {
        loop
            invariant
                self.buf() == old(self).buf(),
                old(self).cursor() <= self.cursor(),
                parse_result(self.buf(), self.cursor()) == parse_result(
                    old(self).buf(),
                    old(self).cursor(),
                ),
            ensures
                self.buf() == old(self).buf(),
                old(self).cursor() <= self.cursor(),
                parse_result(self.buf(), self.cursor()) == parse_result(
                    old(self).buf(),
                    old(self).cursor(),
                ),
                self.cursor() >= self.buf().len() || !crate::model::sep_char(
                    self.buf()[self.cursor()],
                ),
            decreases remaining(self.buf(), self.cursor()),
        {
            let cur = self.current_char();
            match cur {
                Some(c) => {
                    if c == ' ' || c == '\n' || c == ':' || c == ',' || c == '\t' {
                        self.consume_char();
                    } else {
                        break;
                    }
                }
                None => {
                    break;
                }
            }
        }
        let cur = self.current_char();
        match cur {
            None => Err(JsonError::EndOfStr),
            Some(c) => {
                if c == '{' {
                    self.parse_object()
                } else if c == 'T' || c == 'F' || c == 't' || c == 'f' {
                    self.parse_bool()
                } else if c == '-' || is_digit_char(c) {
                    self.parse_number()
                } else if c == 'N' || c == 'n' {
                    self.parse_null()
                } else if c == '[' {
                    self.parse_array()
                } else if c == '"' {
                    self.parse_string()
                } else {
                    Err(self.invalid_format(c))
                }
            }
        }
    }

    /// Parses an array.  Entered with the cursor on `[`, the loop advances
    /// one position each pass and classifies: `,` and space are skipped, `]`
    /// ends the array, end-of-input ends it with the elements gathered so
    /// far, and anything else is parsed as one element, a failure
    /// propagating unchanged.  Elements keep encounter order.
    pub fn parse_array(&mut self) -> (r: Result<JsonValue, JsonError>)
        ensures
            final(self).buf() == old(self).buf(),
            ({
                let (m, q) = array_items(old(self).buf(), old(self).cursor(), Seq::empty());
                &&& final(self).cursor() == q
                &&& result_models(r, m)
                &&& failure_message_pinned(
                    old(self).buf(),
                    array_items(old(self).buf(), old(self).cursor(), Seq::empty()),
                    r,
                )
            }),
        decreases remaining(old(self).buf(), old(self).cursor()), 1int,
    {
        let mut array: Vec<JsonValue> = Vec::new();
        let ghost s = self.buf();
        let ghost p0 = self.cursor();
        proof {
            assert(models_of(array) =~= Seq::empty());
        }
        loop
            invariant_except_break
                array_items(s, p0, Seq::empty()) == array_items(
                    s,
                    self.cursor(),
                    models_of(array),
                ),
            invariant
                s == old(self).buf(),
                p0 == old(self).cursor(),
                self.buf() == s,
                0 <= p0,
                p0 <= self.cursor(),
            ensures
                self.buf() == s,
                array_items(s, p0, Seq::empty()) == (
                    Ok::<Value, ErrorKind>(Value::Array(models_of(array))),
                    self.cursor(),
                ),
            decreases remaining(s, self.cursor()), 0int,
        {
            self.consume_char();
            let cur = self.current_char();
            match cur {
                Some(c) => {
                    if c == ',' || c == ' ' {
                        self.consume_char();
                    } else if c == ']' {
                        self.consume_char();
                        break;
                    } else {
                        proof {
                            lemma_parse_progress(s, self.cursor());
                        }
                        let value = self.parse();
                        match value {
                            Ok(v) => {
                                let ghost prev = models_of(array);
                                let ghost vm = v.model();
                                array.push(v);
                                proof {
                                    assert(models_of(array) =~= prev.push(vm));
                                }
                            }
                            Err(e) => {
                                return Err(e);
                            }
                        }
                    }
                }
                None => {
                    break;
                }
            }
        }
        Ok(JsonValue::Array(array))
    }

    /// Parses an object.  Entered with the cursor on `{`, the loop advances
    /// one position each pass and classifies: `}` ends the object,
    /// separators are skipped, end-of-input ends it with the entries
    /// gathered so far, and any other character begins an entry: the
    /// character (the opening quote) is consumed, a key is scanned up to the
    /// next quote, that quote is consumed, one value is parsed, and the pair
    /// is appended.  Duplicate keys become further entries, in encounter
    /// order.
    pub fn parse_object(&mut self) -> (r: Result<JsonValue, JsonError>)
        ensures
            final(self).buf() == old(self).buf(),
            ({
                let (m, q) = object_items(old(self).buf(), old(self).cursor(), Seq::empty());
                &&& final(self).cursor() == q
                &&& result_models(r, m)
                &&& failure_message_pinned(
                    old(self).buf(),
                    object_items(old(self).buf(), old(self).cursor(), Seq::empty()),
                    r,
                )
            }),
        decreases remaining(old(self).buf(), old(self).cursor()), 1int,
    {
        let mut obj: Vec<(String, JsonValue)> = Vec::new();
        let ghost s = self.buf();
        let ghost p0 = self.cursor();
        proof {
            assert(entry_models_of(obj) =~= Seq::empty());
        }
        loop
            invariant_except_break
                object_items(s, p0, Seq::empty()) == object_items(
                    s,
                    self.cursor(),
                    entry_models_of(obj),
                ),
            invariant
                s == old(self).buf(),
                p0 == old(self).cursor(),
                self.buf() == s,
                0 <= p0,
                p0 <= self.cursor(),
            ensures
                self.buf() == s,
                object_items(s, p0, Seq::empty()) == (
                    Ok::<Value, ErrorKind>(Value::Object(entry_models_of(obj))),
                    self.cursor(),
                ),
            decreases remaining(s, self.cursor()), 0int,
        {
            self.consume_char();
            let cur = self.current_char();
            match cur {
                Some(c) => {
                    if c == '}' {
                        self.consume_char();
                        break;
                    } else if c == ',' || c == ' ' || c == ':' || c == '\n' || c == '\t' {
                        self.consume_char();
                    } else {
                        self.consume_char();
                        let key = self.parse_key();
                        self.consume_char();
                        proof {
                            lemma_parse_progress(s, self.cursor());
                        }
                        let value = self.parse();
                        match value {
                            Ok(v) => {
                                let ghost prev = entry_models_of(obj);
                                let ghost kv = (key@, v.model());
                                obj.push((key, v));
                                proof {
                                    assert(entry_models_of(obj) =~= prev.push(kv));
                                }
                            }
                            Err(e) => {
                                return Err(e);
                            }
                        }
                    }
                }
                None => {
                    break;
                }
            }
        }
        Ok(JsonValue::Object(obj))
    }
}

} // verus!
