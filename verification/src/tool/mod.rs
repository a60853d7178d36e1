//! Tools: the JSON result protocol committed to model history, and the
//! registry of tool definitions and their enablement.

mod registry;

use vstd::prelude::*;

pub use registry::{
    RegistryProblem, SchemaShape, ToolDefinition, ToolEntry, ToolRegistry, ToolRegistryError,
    ToolSnapshot, ToolStatus, TypeField, check_definition, definition_problem, defines,
    enabled_definitions, first_problem, first_unknown, first_unlisted, has_name, has_slot, listed,
    names_ordered, problem_of, schema_shape_of, selected, validate_definition, with_enabled,
};

use crate::json::{json_quote, json_string};
use crate::text::{decimal_digits, push_char, push_decimal, push_str};

verus! {

/// The model-facing text of a failed invocation:
/// `{"error":{"kind":…,"message":…}}`.
pub open spec fn error_json(kind: Seq<char>, message: Seq<char>) -> Seq<char> {
    "{\"error\":{\"kind\":"@ + json_string(kind) + ",\"message\":"@ + json_string(message) + "}}"@
}

/// Encodes a failed invocation for model history. Every caller, including a
/// skipped call, uses this one envelope.
pub fn encode_error(kind: &str, message: &str) -> (r: String)
    ensures
        r@ == error_json(kind@, message@),
{
    let mut r = "{\"error\":{\"kind\":".to_owned();
    let k = json_quote(kind);
    push_str(&mut r, k.as_str());
    push_str(&mut r, ",\"message\":");
    let m = json_quote(message);
    push_str(&mut r, m.as_str());
    push_str(&mut r, "}}");
    r
}

/// An integer as JSON writes it: an optional minus sign, then its digits.
pub open spec fn decimal_text(v: int) -> Seq<char> {
    if v < 0 {
        seq!['-'] + decimal_digits((-v) as nat)
    } else {
        decimal_digits(v as nat)
    }
}

/// The result of `echo`: `{"text":…}`.
pub fn echo_result(text: &str) -> (r: String)
    ensures
        r@ == "{\"text\":"@ + json_string(text@) + "}"@,
{
    let mut r = "{\"text\":".to_owned();
    let t = json_quote(text);
    push_str(&mut r, t.as_str());
    push_str(&mut r, "}");
    r
}

/// The result of `random_integer`: `{"value":…}`.
pub fn random_result(value: i64) -> (r: String)
    ensures
        r@ == "{\"value\":"@ + decimal_text(value as int) + "}"@,
{
    let mut r = "{\"value\":".to_owned();
    let ghost start = r@;
    let magnitude: u64 = if value < 0 {
        push_char(&mut r, '-');
        (-(value as i128)) as u64
    } else {
        value as u64
    };
    push_decimal(&mut r, magnitude);
    push_str(&mut r, "}");
    assert(r@ =~= start + decimal_text(value as int) + "}"@);
    r
}

/// The result of `current_datetime`: `{"datetime":…,"timezone":"UTC"}`.
pub fn datetime_result(datetime: &str) -> (r: String)
    ensures
        r@ == "{\"datetime\":"@ + json_string(datetime@) + ",\"timezone\":\"UTC\"}"@,
{
    let mut r = "{\"datetime\":".to_owned();
    let t = json_quote(datetime);
    push_str(&mut r, t.as_str());
    push_str(&mut r, ",\"timezone\":\"UTC\"}");
    r
}

/// The result of one invocation: JSON protocol text for model history, and
/// whether it reports an error.
#[derive(Debug, PartialEq, Eq)]
pub struct ToolInvocation {
    pub output: String,
    pub is_error: bool,
}

/// A failed invocation of the given kind.
pub fn invocation_error(kind: &str, message: &str) -> (r: ToolInvocation)
    ensures
        r.output@ == error_json(kind@, message@),
        r.is_error,
{
    ToolInvocation { output: encode_error(kind, message), is_error: true }
}

/// Why a tool refused or failed a call.
#[derive(Debug)]
pub enum ToolError {
    InvalidArguments(String),
    Execution(String),
}

impl ToolError {
    /// `invalid arguments: …` or `tool execution failed: …`.
    pub fn message(&self) -> (s: String)
        ensures
            self matches ToolError::InvalidArguments(m) ==> s@ == "invalid arguments: "@ + m@,
            self matches ToolError::Execution(m) ==> s@ == "tool execution failed: "@ + m@,
    {
        match self {
            ToolError::InvalidArguments(m) => {
                let mut s = "invalid arguments: ".to_owned();
                push_str(&mut s, m.as_str());
                s
            },
            ToolError::Execution(m) => {
                let mut s = "tool execution failed: ".to_owned();
                push_str(&mut s, m.as_str());
                s
            },
        }
    }

    /// The error kind reported to the model.
    pub fn kind(&self) -> (k: &'static str)
        ensures
            self is InvalidArguments ==> k@ == "invalid_arguments"@,
            self is Execution ==> k@ == "execution_error"@,
    {
        match self {
            ToolError::InvalidArguments(_) => "invalid_arguments",
            ToolError::Execution(_) => "execution_error",
        }
    }
}

/// A uniformly distributed integer in `min..=max`, from
/// `rand::rng().random_range`, which panics on an empty range.
#[verifier::external_body]
fn random_inclusive(min: i64, max: i64) -> (v: i64)
    requires
        min <= max,
    ensures
        min <= v <= max,
{
    rand::Rng::random_range(&mut rand::rng(), min..=max)
}

/// The `random_integer` tool: a uniformly distributed integer in the
/// inclusive range, or an argument error for an empty range.
pub fn random_integer(min: i64, max: i64) -> (r: Result<i64, ToolError>)
    ensures
        min > max <==> r is Err,
        r matches Err(ToolError::InvalidArguments(m)) ==> m@ == "min must be less than or equal to max"@,
        r matches Ok(v) ==> min <= v <= max,
        r is Err ==> r matches Err(ToolError::InvalidArguments(_)),
{
    if min > max {
        return Err(ToolError::InvalidArguments("min must be less than or equal to max".to_owned()));
    }
    Ok(random_inclusive(min, max))
}

/// The `current_datetime` tool's check of its arguments: it accepts only
/// an empty object.
pub fn check_no_arguments(is_object: bool, member_count: usize) -> (r: Result<(), ToolError>)
    ensures
        !is_object ==> (r matches Err(ToolError::InvalidArguments(m)) && m@ == "arguments must be an object"@),
        is_object && member_count > 0 ==> (r matches Err(ToolError::InvalidArguments(m)) && m@
            == "current_datetime accepts no arguments"@),
        is_object && member_count == 0 ==> r is Ok,
{
    if !is_object {
        return Err(ToolError::InvalidArguments("arguments must be an object".to_owned()));
    }
    if member_count > 0 {
        return Err(ToolError::InvalidArguments("current_datetime accepts no arguments".to_owned()));
    }
    Ok(())
}

} // verus!
