//! The mathematical model of the parser.
//!
//! Everything here is specification-level: a parsed tree as ghost data
//! ([`Value`]), and one spec function per parsing routine, each mapping the
//! input character sequence and a cursor position to the produced result and
//! the position the cursor is left at.  The executable routines in
//! [`crate::reader`] are proved to agree with these functions exactly.

use vstd::prelude::*;

verus! {

/// A parsed tree, as mathematics.  Numbers are kept as the exact literal text
/// that was scanned (see [`is_valid_number`]); arrays and objects keep source
/// order, and an object is a sequence of pairs in which duplicate keys are
/// retained as separate entries.
pub enum Value {
    Bool(bool),
    Number(Seq<char>),
    Null,
    Array(Seq<Value>),
    String(Seq<char>),
    Object(Seq<(Seq<char>, Value)>),
}

/// The kind of a parse failure.  `InvalidFormat` covers malformed literals and
/// unrecognised leading characters; `EndOfStream` says the input was exhausted
/// where a value was expected.  The executable errors additionally carry a
/// diagnostic message, pinned exactly by the reader's contracts (see
/// [`message_text`]); the one std rendering involved, `Debug` of an optional
/// character in one boolean arm, is carried as the named function
/// [`option_char_debug_of`].
pub enum ErrorKind {
    InvalidFormat,
    EndOfStream,
}

/// The characters that the dispatch loop and the object loop consume as
/// generic separators: space, newline, colon, comma and tab.
pub open spec fn sep_char(c: char) -> bool {
    c == ' ' || c == '\n' || c == ':' || c == ',' || c == '\t'
}

/// An ASCII decimal digit.
pub open spec fn digit_char(c: char) -> bool {
    '0' as u32 <= c as u32 && c as u32 <= '9' as u32
}

/// The characters the number scanner accepts: digits, `.` and `-`.
pub open spec fn number_char(c: char) -> bool {
    digit_char(c) || c == '.' || c == '-'
}

/// `a` equals `b` up to ASCII letter case; `b` is a lower-case ASCII letter at
/// every use site, so this accepts exactly `b` and its upper-case form.
pub open spec fn ci_eq(a: char, b: char) -> bool {
    a == b || a as u32 == b as u32 - 32
}

/// Case-insensitive equality of two character sequences, via [`ci_eq`].
pub open spec fn ci_match(a: Seq<char>, b: Seq<char>) -> bool {
    a.len() == b.len() && forall|i: int| 0 <= i < a.len() ==> ci_eq(#[trigger] a[i], b[i])
}

/// The cursor after moving `n` positions forward: plain addition, with no
/// bounds check against the input — the cursor may run past end-of-input,
/// after which reads simply yield nothing.  The one stop is the machine's
/// own limit: the executable cursor is a `usize`, so an advance saturates at
/// `usize::MAX` instead of overflowing.
pub open spec fn advanced(p: int, n: int) -> int {
    if p + n <= usize::MAX {
        p + n
    } else {
        usize::MAX as int
    }
}

/// The character under the cursor, or nothing at or past end-of-input.
pub open spec fn char_at(s: Seq<char>, p: int) -> Option<char> {
    if 0 <= p < s.len() {
        Some(s[p])
    } else {
        None
    }
}

/// The bounded lookahead window: up to `n` characters starting one position
/// past `p`, truncated at end-of-input.
pub open spec fn look_window(s: Seq<char>, p: int, n: int) -> Seq<char>
    recommends
        0 <= p,
        0 <= n,
{
    let lo = if p + 1 <= s.len() { p + 1 } else { s.len() as int };
    let hi = if p + 1 + n <= s.len() { p + 1 + n } else { s.len() as int };
    s.subrange(lo, hi)
}

/// How many characters the number scanner takes from position `p`: the length
/// of the maximal run of [`number_char`]s.
pub open spec fn number_scan_len(s: Seq<char>, p: int) -> nat
    decreases s.len() - p,
{
    if 0 <= p < s.len() && number_char(s[p]) {
        (1 + number_scan_len(s, p + 1)) as nat
    } else {
        0
    }
}

/// How many characters a string or key scan takes from position `p`: the
/// length of the maximal run of characters other than `"`.
pub open spec fn text_scan_len(s: Seq<char>, p: int) -> nat
    decreases s.len() - p,
{
    if 0 <= p < s.len() && s[p] != '"' {
        (1 + text_scan_len(s, p + 1)) as nat
    } else {
        0
    }
}

pub proof fn lemma_number_scan_len_le(s: Seq<char>, p: int)
    requires
        0 <= p <= s.len(),
    ensures
        p + number_scan_len(s, p) <= s.len(),
    decreases s.len() - p,
{
    if p < s.len() && number_char(s[p]) {
        lemma_number_scan_len_le(s, p + 1);
    }
}

pub proof fn lemma_text_scan_len_le(s: Seq<char>, p: int)
    requires
        0 <= p <= s.len(),
    ensures
        p + text_scan_len(s, p) <= s.len(),
    decreases s.len() - p,
{
    if p < s.len() && s[p] != '"' {
        lemma_text_scan_len_le(s, p + 1);
    }
}

/// Whether a scanned run of [`number_char`]s is a number the host
/// floating-point parser accepts: an optional leading `-`, then at least one
/// digit and at most one `.`, and nothing else.
pub open spec fn is_valid_number(s: Seq<char>) -> bool {
    let start: int = if s.len() > 0 && s[0] == '-' {
        1
    } else {
        0
    };
    &&& s.len() > start
    &&& forall|i: int| start <= i < s.len() ==> digit_char(#[trigger] s[i]) || s[i] == '.'
    &&& forall|i: int, j: int| start <= i < j < s.len() && s[i] == '.' ==> s[j] != '.'
    &&& exists|i: int| start <= i < s.len() && digit_char(#[trigger] s[i])
}

/// The text the number scanner takes from position `p`.
pub open spec fn scanned_number(s: Seq<char>, p: int) -> Seq<char> {
    if 0 <= p <= s.len() {
        s.subrange(p, p + number_scan_len(s, p))
    } else {
        Seq::empty()
    }
}

/// What parsing a boolean at position `p` produces, and where it leaves the
/// cursor.  On `t`/`T` the three characters after the cursor must match
/// `rue` up to case; on `f`/`F` the four after it must match `alse`; any
/// mismatch, including a truncated lookahead, leaves the cursor in place.
pub open spec fn bool_result(s: Seq<char>, p: int) -> (Result<Value, ErrorKind>, int) {
    if 0 <= p < s.len() && (s[p] == 't' || s[p] == 'T') {
        if ci_match(look_window(s, p, 3), seq!['r', 'u', 'e']) {
            (Ok(Value::Bool(true)), advanced(p, 4))
        } else {
            (Err(ErrorKind::InvalidFormat), p)
        }
    } else if 0 <= p < s.len() && (s[p] == 'f' || s[p] == 'F') {
        if ci_match(look_window(s, p, 4), seq!['a', 'l', 's', 'e']) {
            (Ok(Value::Bool(false)), advanced(p, 5))
        } else {
            (Err(ErrorKind::InvalidFormat), p)
        }
    } else if 0 <= p < s.len() {
        (Err(ErrorKind::InvalidFormat), p)
    } else {
        (Err(ErrorKind::EndOfStream), p)
    }
}

/// What parsing a number at position `p` produces: the scanned run of number
/// characters, kept as text, if it is a valid numeric literal.
pub open spec fn number_result(s: Seq<char>, p: int) -> (Result<Value, ErrorKind>, int) {
    let t = scanned_number(s, p);
    if is_valid_number(t) {
        (Ok(Value::Number(t)), advanced(p, number_scan_len(s, p) as int))
    } else {
        (Err(ErrorKind::InvalidFormat), p)
    }
}

/// What parsing `null` at position `p` produces.  Unlike booleans the match
/// is case-sensitive, and the character under the cursor itself is not
/// examined: only the three characters after it must equal `ull`.
pub open spec fn null_result(s: Seq<char>, p: int) -> (Result<Value, ErrorKind>, int) {
    if look_window(s, p, 3) == seq!['u', 'l', 'l'] {
        (Ok(Value::Null), advanced(p, 4))
    } else {
        (Err(ErrorKind::InvalidFormat), p)
    }
}

/// What parsing a string at position `p` produces: the opening quote is
/// consumed, then everything up to (not including) the next `"` is the text.
/// The closing quote is not consumed, and a string with no closing quote runs
/// to end-of-input.  String parsing never fails.
pub open spec fn string_result(s: Seq<char>, p: int) -> (Result<Value, ErrorKind>, int) {
    let q = advanced(p, 1);
    let n = text_scan_len(s, q);
    let t = if 0 <= q <= s.len() {
        s.subrange(q, q + n)
    } else {
        Seq::empty()
    };
    (Ok(Value::String(t)), advanced(q, n as int))
}

/// What scanning an object key at position `p` produces: everything up to
/// (not including) the next `"`, with the cursor left on that quote.  The
/// cursor is assumed to sit just past the opening quote already.
pub open spec fn key_result(s: Seq<char>, p: int) -> (Seq<char>, int) {
    let n = text_scan_len(s, p);
    let t = if 0 <= p <= s.len() {
        s.subrange(p, p + n)
    } else {
        Seq::empty()
    };
    (t, advanced(p, n as int))
}

/// The decimal digit character for a value below ten.
pub open spec fn digit_of(d: nat) -> char {
    if d == 0 {
        '0'
    } else if d == 1 {
        '1'
    } else if d == 2 {
        '2'
    } else if d == 3 {
        '3'
    } else if d == 4 {
        '4'
    } else if d == 5 {
        '5'
    } else if d == 6 {
        '6'
    } else if d == 7 {
        '7'
    } else if d == 8 {
        '8'
    } else {
        '9'
    }
}

/// The decimal rendering of a number, most significant digit first, with no
/// leading zeros (and `0` itself rendered as one digit).
pub open spec fn dec_of(n: nat) -> Seq<char>
    decreases n,
{
    if n < 10 {
        seq![digit_of(n)]
    } else {
        dec_of(n / 10).push(digit_of(n % 10))
    }
}

/// The shape every diagnostic message of this library takes: a leading
/// phrase, the cursor position in decimal, a connecting phrase, and the
/// offending fragment in single quotes.
pub open spec fn message_text(before: Seq<char>, pos: nat, middle: Seq<char>, fragment: Seq<
    char,
>) -> Seq<char> {
    before + dec_of(pos) + middle + seq!['\u{27}'] + fragment + seq!['\u{27}']
}

/// What std's `Debug` formatting renders for an optional character — e.g.
/// `Some('x')` with the character escaped by std's own rules.  The result
/// depends on the argument alone; its full definition is std's and is not
/// transcribed here.
pub uninterp spec fn option_char_debug_of(c: Option<char>) -> Seq<char>;

/// The characters on which the dispatch routes to a production: an object,
/// a boolean, a number, `null`, an array or a string may begin here.
pub open spec fn starter_char(c: char) -> bool {
    ||| c == '{'
    ||| c == 'T' || c == 'F' || c == 't' || c == 'f'
    ||| c == '-' || digit_char(c)
    ||| c == 'N' || c == 'n'
    ||| c == '['
    ||| c == '"'
}

/// Position `p` holds a character that the dispatch can neither skip nor
/// route: parsing there fails with `InvalidFormat` naming that character.
pub open spec fn dispatch_rejects(s: Seq<char>, p: int) -> bool {
    0 <= p < s.len() && !sep_char(s[p]) && !starter_char(s[p])
}

/// The measure for the mutually recursive parsing functions: how many
/// characters remain at or after position `p`.
pub open spec fn remaining(s: Seq<char>, p: int) -> nat {
    if p <= s.len() {
        (s.len() - p) as nat
    } else {
        0
    }
}

/// Guards the recursion measure of the container loops: parsing always moves
/// the cursor strictly forward (see [`lemma_parse_progress`]), so this is the
/// position `q` itself everywhere it is applied.
pub open spec fn bump(p: int, q: int) -> int {
    if q > p {
        q
    } else {
        p + 1
    }
}

/// What one top-level parse at position `p` produces.  Separators are skipped
/// first; the next character then selects the production, an unrecognised
/// character fails with `InvalidFormat`, and exhausted input fails with
/// `EndOfStream`.
pub open spec fn parse_result(s: Seq<char>, p: int) -> (Result<Value, ErrorKind>, int)
    decreases remaining(s, p), 2int,
{
    if 0 <= p < s.len() && p < usize::MAX && sep_char(s[p]) {
        // `p < usize::MAX` holds for every position in a buffer that fits
        // the machine; it is stated so the recursion is well-founded even
        // over sequences longer than any real input
        parse_result(s, advanced(p, 1))
    } else if !(0 <= p < s.len()) {
        (Err(ErrorKind::EndOfStream), p)
    } else if s[p] == '{' {
        object_items(s, p, Seq::empty())
    } else if s[p] == 'T' || s[p] == 'F' || s[p] == 't' || s[p] == 'f' {
        bool_result(s, p)
    } else if s[p] == '-' || digit_char(s[p]) {
        number_result(s, p)
    } else if s[p] == 'N' || s[p] == 'n' {
        null_result(s, p)
    } else if s[p] == '[' {
        array_items(s, p, Seq::empty())
    } else if s[p] == '"' {
        string_result(s, p)
    } else {
        (Err(ErrorKind::InvalidFormat), p)
    }
}

/// One pass of the array loop, entered with the cursor on `[` or on the last
/// character of the previous element and `acc` holding the elements gathered
/// so far.  The loop first advances one position, then classifies: `,` and
/// space are skipped, `]` is consumed and ends the array, end-of-input ends
/// the array with the partial contents, and anything else is parsed as one
/// element, failures propagating unchanged.
pub open spec fn array_items(s: Seq<char>, p: int, acc: Seq<Value>) -> (
    Result<Value, ErrorKind>,
    int,
)
    decreases remaining(s, p), 1int,
{
    let q = advanced(p, 1);
    if !(0 <= q < s.len() && q < usize::MAX) {
        // the second conjunct holds for every buffer that fits the machine;
        // see the note in `parse_result`
        (Ok(Value::Array(acc)), q)
    } else if s[q] == ',' || s[q] == ' ' {
        array_items(s, advanced(q, 1), acc)
    } else if s[q] == ']' {
        (Ok(Value::Array(acc)), advanced(q, 1))
    } else {
        let pr = parse_result(s, q);
        match pr.0 {
            Err(k) => (Err(k), pr.1),
            Ok(v) => array_items(s, bump(q, pr.1), acc.push(v)),
        }
    }
}

/// One pass of the object loop, entered as the array loop is.  After the one
/// position advance: `}` is consumed and ends the object, separators are
/// skipped, end-of-input ends the object with the partial contents, and any
/// other character begins an entry: the character itself (the opening quote)
/// is consumed, a key is scanned up to the next quote, that quote is
/// consumed, one value is parsed, and the pair is appended — duplicate keys
/// simply become further entries.
pub open spec fn object_items(s: Seq<char>, p: int, acc: Seq<(Seq<char>, Value)>) -> (
    Result<Value, ErrorKind>,
    int,
)
    decreases remaining(s, p), 1int,
{
    let q = advanced(p, 1);
    if !(0 <= q < s.len() && q < usize::MAX) {
        // the second conjunct holds for every buffer that fits the machine;
        // see the note in `parse_result`
        (Ok(Value::Object(acc)), q)
    } else if s[q] == '}' {
        (Ok(Value::Object(acc)), advanced(q, 1))
    } else if sep_char(s[q]) {
        object_items(s, advanced(q, 1), acc)
    } else {
        let kr = key_result(s, advanced(q, 1));
        let pr = parse_result(s, advanced(kr.1, 1));
        match pr.0 {
            Err(k) => (Err(k), pr.1),
            Ok(v) => object_items(s, bump(q, pr.1), acc.push((kr.0, v))),
        }
    }
}

/// A three-character lookahead window matches `b0 b1 b2` up to ASCII case
/// exactly when the input still holds three characters past the cursor and
/// each matches in place.
pub proof fn lemma_ci_match3(s: Seq<char>, p: int, b0: char, b1: char, b2: char)
    requires
        0 <= p,
    ensures
        ci_match(look_window(s, p, 3), seq![b0, b1, b2]) <==> (p + 4 <= s.len() && ci_eq(
            s[p + 1],
            b0,
        ) && ci_eq(s[p + 2], b1) && ci_eq(s[p + 3], b2)),
{
    let w = look_window(s, p, 3);
    let b = seq![b0, b1, b2];
    assert(b.len() == 3 && b[0] == b0 && b[1] == b1 && b[2] == b2);
    if p + 4 <= s.len() {
        assert(w =~= s.subrange(p + 1, p + 4));
        assert(w.len() == 3 && w[0] == s[p + 1] && w[1] == s[p + 2] && w[2] == s[p + 3]);
        if ci_eq(s[p + 1], b0) && ci_eq(s[p + 2], b1) && ci_eq(s[p + 3], b2) {
            assert forall|i: int| 0 <= i < w.len() implies ci_eq(#[trigger] w[i], b[i]) by {
                assert(i == 0 || i == 1 || i == 2);
            }
        }
    } else {
        assert(w.len() < 3);
    }
}

/// As [`lemma_ci_match3`], for a four-character window.
pub proof fn lemma_ci_match4(s: Seq<char>, p: int, b0: char, b1: char, b2: char, b3: char)
    requires
        0 <= p,
    ensures
        ci_match(look_window(s, p, 4), seq![b0, b1, b2, b3]) <==> (p + 5 <= s.len() && ci_eq(
            s[p + 1],
            b0,
        ) && ci_eq(s[p + 2], b1) && ci_eq(s[p + 3], b2) && ci_eq(s[p + 4], b3)),
{
    let w = look_window(s, p, 4);
    let b = seq![b0, b1, b2, b3];
    assert(b.len() == 4 && b[0] == b0 && b[1] == b1 && b[2] == b2 && b[3] == b3);
    if p + 5 <= s.len() {
        assert(w =~= s.subrange(p + 1, p + 5));
        assert(w.len() == 4 && w[0] == s[p + 1] && w[1] == s[p + 2] && w[2] == s[p + 3] && w[3]
            == s[p + 4]);
        if ci_eq(s[p + 1], b0) && ci_eq(s[p + 2], b1) && ci_eq(s[p + 3], b2) && ci_eq(
            s[p + 4],
            b3,
        ) {
            assert forall|i: int| 0 <= i < w.len() implies ci_eq(#[trigger] w[i], b[i]) by {
                assert(i == 0 || i == 1 || i == 2 || i == 3);
            }
        }
    } else {
        assert(w.len() < 4);
    }
}

/// A three-character lookahead window equals `b0 b1 b2` exactly when the
/// input still holds three characters past the cursor and each is the given
/// one.
pub proof fn lemma_window3_is(s: Seq<char>, p: int, b0: char, b1: char, b2: char)
    requires
        0 <= p,
    ensures
        (look_window(s, p, 3) == seq![b0, b1, b2]) <==> (p + 4 <= s.len() && s[p + 1] == b0 && s[p
            + 2] == b1 && s[p + 3] == b2),
{
    let w = look_window(s, p, 3);
    let b = seq![b0, b1, b2];
    assert(b.len() == 3 && b[0] == b0 && b[1] == b1 && b[2] == b2);
    if p + 4 <= s.len() {
        assert(w =~= s.subrange(p + 1, p + 4));
        assert(w.len() == 3 && w[0] == s[p + 1] && w[1] == s[p + 2] && w[2] == s[p + 3]);
        if s[p + 1] == b0 && s[p + 2] == b1 && s[p + 3] == b2 {
            assert(w =~= b);
        }
    } else {
        assert(w.len() < 3);
    }
}

/// The cursor never moves backwards, stays within the machine's range, and
/// a successful parse consumes at least one character.
pub proof fn lemma_parse_progress(s: Seq<char>, p: int)
    requires
        0 <= p <= usize::MAX,
        s.len() <= usize::MAX,
    ensures
        p <= parse_result(s, p).1 <= usize::MAX,
        parse_result(s, p).0 is Ok ==> parse_result(s, p).1 > p,
    decreases remaining(s, p), 2int,
{
    if 0 <= p < s.len() && p < usize::MAX && sep_char(s[p]) {
        lemma_parse_progress(s, advanced(p, 1));
    } else if !(0 <= p < s.len())  {
    } else if s[p] == '{' {
        lemma_object_items_progress(s, p, Seq::empty());
    } else if s[p] == '[' {
        lemma_array_items_progress(s, p, Seq::empty());
    }
}

/// As [`lemma_parse_progress`], for the array loop.
pub proof fn lemma_array_items_progress(s: Seq<char>, p: int, acc: Seq<Value>)
    requires
        0 <= p <= usize::MAX,
        s.len() <= usize::MAX,
    ensures
        p <= array_items(s, p, acc).1 <= usize::MAX,
        p < usize::MAX ==> array_items(s, p, acc).1 > p,
    decreases remaining(s, p), 1int,
{
    let q = advanced(p, 1);
    if !(0 <= q < s.len() && q < usize::MAX) {
    } else if s[q] == ',' || s[q] == ' ' {
        lemma_array_items_progress(s, advanced(q, 1), acc);
    } else if s[q] == ']' {
    } else {
        let pr = parse_result(s, q);
        lemma_parse_progress(s, q);
        if pr.0 is Ok {
            lemma_array_items_progress(s, bump(q, pr.1), acc.push(pr.0->Ok_0));
        }
    }
}

/// As [`lemma_parse_progress`], for the object loop.
pub proof fn lemma_object_items_progress(s: Seq<char>, p: int, acc: Seq<(Seq<char>, Value)>)
    requires
        0 <= p <= usize::MAX,
        s.len() <= usize::MAX,
    ensures
        p <= object_items(s, p, acc).1 <= usize::MAX,
        p < usize::MAX ==> object_items(s, p, acc).1 > p,
    decreases remaining(s, p), 1int,
{
    let q = advanced(p, 1);
    if !(0 <= q < s.len() && q < usize::MAX) {
    } else if s[q] == '}' {
    } else if sep_char(s[q]) {
        lemma_object_items_progress(s, advanced(q, 1), acc);
    } else {
        let kr = key_result(s, advanced(q, 1));
        let pr = parse_result(s, advanced(kr.1, 1));
        lemma_parse_progress(s, advanced(kr.1, 1));
        if pr.0 is Ok {
            lemma_object_items_progress(s, bump(q, pr.1), acc.push((kr.0, pr.0->Ok_0)));
        }
    }
}

} // verus!
