//! The executable parse tree and error type, and how they abstract to the
//! model in [`crate::model`].

use vstd::prelude::*;

use crate::model::digit_char;
use crate::model::dispatch_rejects;
use crate::model::look_window;
use crate::model::message_text;
use crate::model::ErrorKind;
use crate::model::Value;

verus! {

broadcast use {vstd::std_specs::vec::group_vec_axioms, vstd::seq::group_seq_axioms};

/// A parsed node.  `Number` keeps the literal text exactly as it was scanned
/// — the run of digits, `.` and `-` that the standard floating-point parser
/// accepts — so no precision is lost; a caller that wants the numeric value
/// hands the text to the host float parser.  `Object` is a sequence of pairs,
/// not a map: duplicate keys are retained in source order.
#[derive(Debug, PartialEq)]
pub enum JsonValue {
    Bool(bool),
    Number(String),
    Null,
    Array(Vec<JsonValue>),
    String(String),
    Object(Vec<(String, JsonValue)>),
}

/// A parse failure: a malformed fragment, with a human-readable diagnostic
/// naming the cursor position and the offending text, or exhausted input.
/// The reader's contracts pin both the variant and the exact message text.
#[derive(Debug)]
pub enum JsonError {
    InvalidFormat(String),
    EndOfStr,
}

impl JsonValue {
    /// The tree as mathematics.
    pub open spec fn model(self) -> Value
        decreases self,
    {
        match self {
            JsonValue::Bool(b) => Value::Bool(b),
            JsonValue::Number(t) => Value::Number(t@),
            JsonValue::Null => Value::Null,
            JsonValue::Array(vs) => Value::Array(models_of(vs)),
            JsonValue::String(t) => Value::String(t@),
            JsonValue::Object(ps) => Value::Object(entry_models_of(ps)),
        }
    }
}

/// The models of a vector of parsed elements, element by element.
pub open spec fn models_of(vs: Vec<JsonValue>) -> Seq<Value>
    decreases vs,
{
    // the range test keeps the recursion inside the vector, where it is
    // well-founded; positions outside it are never read
    Seq::new(
        vs@.len(),
        |i: int|
            if 0 <= i < vs@.len() {
                vs@[i].model()
            } else {
                Value::Null
            },
    )
}

/// The models of a vector of key/value entries, entry by entry.
pub open spec fn entry_models_of(ps: Vec<(String, JsonValue)>) -> Seq<(Seq<char>, Value)>
    decreases ps,
{
    Seq::new(
        ps@.len(),
        |i: int|
            if 0 <= i < ps@.len() {
                (ps@[i].0@, ps@[i].1.model())
            } else {
                (Seq::empty(), Value::Null)
            },
    )
}

/// Deep copies of the first `i` elements of `vs`, in order.
fn clone_values_prefix(vs: &Vec<JsonValue>, i: usize) -> (r: Vec<JsonValue>)
    requires
        i <= vs.len(),
    ensures
        r@.len() == i,
        forall|j: int| 0 <= j < i ==> #[trigger] r@[j].model() == vs@[j].model(),
    decreases vs@, i,
{
    if i == 0 {
        Vec::new()
    } else {
        let mut r = clone_values_prefix(vs, i - 1);
        r.push(vs[i - 1].clone());
        r
    }
}

/// Deep copies of the first `i` entries of `ps`, in order.
fn clone_entries_prefix(ps: &Vec<(String, JsonValue)>, i: usize) -> (r: Vec<(String, JsonValue)>)
    requires
        i <= ps.len(),
    ensures
        r@.len() == i,
        forall|j: int| #![trigger r@[j]]
            0 <= j < i ==> r@[j].0@ == ps@[j].0@ && r@[j].1.model() == ps@[j].1.model(),
    decreases ps@, i,
{
    if i == 0 {
        Vec::new()
    } else {
        let mut r = clone_entries_prefix(ps, i - 1);
        let entry = &ps[i - 1];
        r.push((entry.0.clone(), entry.1.clone()));
        r
    }
}

impl Clone for JsonValue {
    /// A deep copy: the clone is the same tree, as the models state.
    fn clone(&self) -> (r: JsonValue)
        ensures
            r.model() == self.model(),
        decreases *self, 0int,
    {
        match self {
            JsonValue::Bool(b) => JsonValue::Bool(*b),
            JsonValue::Number(t) => JsonValue::Number(t.clone()),
            JsonValue::Null => JsonValue::Null,
            JsonValue::Array(vs) => {
                let out = clone_values_prefix(vs, vs.len());
                proof {
                    assert forall|j: int| 0 <= j < out@.len() implies models_of(out)[j]
                        == models_of(*vs)[j] by {
                        assert(out@[j].model() == vs@[j].model());
                    }
                    assert(models_of(out) =~= models_of(*vs));
                }
                JsonValue::Array(out)
            }
            JsonValue::String(t) => JsonValue::String(t.clone()),
            JsonValue::Object(ps) => {
                let out = clone_entries_prefix(ps, ps.len());
                proof {
                    assert forall|j: int| 0 <= j < out@.len() implies entry_models_of(out)[j]
                        == entry_models_of(*ps)[j] by {
                        assert(out@[j].0@ == ps@[j].0@ && out@[j].1.model() == ps@[j].1.model());
                    }
                    assert(entry_models_of(out) =~= entry_models_of(*ps));
                }
                JsonValue::Object(out)
            }
        }
    }
}

impl JsonError {
    /// Which failure this is, message aside.
    pub open spec fn kind(self) -> ErrorKind {
        match self {
            JsonError::InvalidFormat(_) => ErrorKind::InvalidFormat,
            JsonError::EndOfStr => ErrorKind::EndOfStream,
        }
    }
}

/// Whether an executable parse outcome abstracts to a model outcome: equal
/// trees on success, equal failure kinds on failure.
pub open spec fn result_models(r: Result<JsonValue, JsonError>, m: Result<Value, ErrorKind>) -> bool {
    match r {
        Ok(v) => m == Ok::<Value, ErrorKind>(v.model()),
        Err(e) => m == Err::<Value, ErrorKind>(e.kind()),
    }
}

/// Pins the diagnostic of every failure a dispatched parse can raise: when
/// the model outcome `o` is an `InvalidFormat` failure, the character at the
/// final cursor identifies the production that failed — an unrecognised
/// character, a boolean, a number or a `null` — and the message is that
/// production's diagnostic there.  Together with [`result_models`] (and the
/// payload-free end-of-stream error) this makes the whole returned value,
/// message included, a function of the input text and start position.
pub open spec fn failure_message_pinned(
    s: Seq<char>,
    o: (Result<Value, ErrorKind>, int),
    r: Result<JsonValue, JsonError>,
) -> bool {
    (o.0 == Err::<Value, ErrorKind>(ErrorKind::InvalidFormat)) ==> {
        let q = o.1;
        let msg = r->Err_0->InvalidFormat_0@;
        &&& r is Err
        &&& r->Err_0 is InvalidFormat
        &&& (dispatch_rejects(s, q) ==> msg == message_text(
            "Invalid format at pos "@,
            q as nat,
            " found: "@,
            seq![s[q]],
        ))
        &&& (0 <= q < s.len() && (s[q] == 't' || s[q] == 'T') ==> msg == message_text(
            "Invalid boolean at "@,
            q as nat,
            " found char: "@,
            look_window(s, q, 3),
        ))
        &&& (0 <= q < s.len() && (s[q] == 'f' || s[q] == 'F') ==> msg == message_text(
            "Invalid boolean at "@,
            q as nat,
            " found char: "@,
            look_window(s, q, 4),
        ))
        &&& (0 <= q < s.len() && (s[q] == '-' || digit_char(s[q])) ==> msg == message_text(
            "Invalid number format at "@,
            q as nat,
            " "@,
            "invalid float literal"@,
        ))
        &&& (0 <= q < s.len() && (s[q] == 'n' || s[q] == 'N') ==> msg == message_text(
            "Invalid null value at "@,
            q as nat,
            " "@,
            look_window(s, q, 3),
        ))
    }
}

} // verus!
