//! The few points where the library leans on outside crates: schema
//! validation, identifier generation and the clock. Each call is held
//! behind one function whose contract states only what the outside
//! code plainly provides.
use vstd::prelude::*;

verus! {

/// Whether the JSON schema written as `schema` accepts the JSON
/// document written as `instance`. The verdict of the validator,
/// named: it depends on the two texts alone.
pub uninterp spec fn schema_accepts(schema: Seq<char>, instance: Seq<char>) -> bool;

/// Whether both texts parse as JSON and the schema compiles into a
/// validator. Named for the same reason: it depends on the texts
/// alone.
pub uninterp spec fn schema_usable(schema: Seq<char>, instance: Seq<char>) -> bool;

/// The first validation diagnostic the validator reports when the
/// document is rejected. Named: the keyword order comes from the
/// schema document and the instance is traversed in its own key
/// order, so the text depends on the two texts alone; nothing else is
/// promised of its wording.
pub uninterp spec fn schema_diagnostic(schema: Seq<char>, instance: Seq<char>) -> Seq<char>;

/// Relies on `serde_json::from_str`, `jsonschema::validator_for` and
/// `jsonschema::Validator::validate`. With the reference-resolving
/// features disabled the verdict and the first diagnostic are
/// functions of the two texts. `None` when either text does not parse
/// as JSON or the schema does not compile.
#[verifier::external_body]
pub(crate) fn check_schema(schema: &str, instance: &str) -> (r: Option<Result<(), String>>)
    ensures
        (r is Some) == schema_usable(schema@, instance@),
        match r {
            Some(v) => match v {
                Ok(()) => schema_accepts(schema@, instance@),
                Err(msg) => !schema_accepts(schema@, instance@) && msg@ == schema_diagnostic(
                    schema@,
                    instance@,
                ),
            },
            None => true,
        },
{
    let s: serde_json::Value = serde_json::from_str(schema).ok()?;
    let i: serde_json::Value = serde_json::from_str(instance).ok()?;
    let v = jsonschema::validator_for(&s).ok()?;
    Some(match v.validate(&i) {
        Ok(()) => Ok(()),
        Err(e) => Err(e.to_string()),
    })
}

/// What case folding makes of a sequence of characters. Named: the
/// result depends on the characters alone.
pub uninterp spec fn lower_of(s: Seq<char>) -> Seq<char>;

/// Relies on `str::to_lowercase`, which vstd gives no specification:
/// the folded text is a function of the characters alone.
#[verifier::external_body]
pub(crate) fn lowercase(s: &str) -> (r: String)
    ensures
        r@ == lower_of(s@),
{
    s.to_lowercase()
}

/// Relies on `uuid::Uuid::new_v4`: a freshly drawn random identifier,
/// returned as its 128-bit value. Nothing is promised of it.
#[verifier::external_body]
pub(crate) fn fresh_uuid() -> u128 {
    uuid::Uuid::new_v4().as_u128()
}

/// Relies on `chrono::Utc::now`: the current time as microseconds
/// since the Unix epoch. Nothing is promised of it.
#[verifier::external_body]
pub(crate) fn now_micros() -> i64 {
    chrono::Utc::now().timestamp_micros()
}

} // verus!
