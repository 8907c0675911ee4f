use vstd::prelude::*;

verus! {

#[verifier::external_type_specification]
#[verifier::external_body]
pub struct ExTemplateValue(minijinja::Value);

#[verifier::external_type_specification]
#[verifier::external_body]
pub struct ExTemplateError(minijinja::Error);

#[verifier::external_type_specification]
#[verifier::external_body]
pub struct ExJsonValue(serde_json::Value);

/// Relies on which::which: whether a binary of that name resolves on the
/// executable search path. The answer depends on the machine and its files,
/// so it is stated of no input.
#[verifier::external_body]
pub(crate) fn command_exists(cmd: &str) -> (r: bool) {
    which::which(cmd).is_ok()
}

/// Whether `pattern` compiles as a regular expression (`None` if not) and,
/// if so, whether it matches somewhere in `text`.
pub uninterp spec fn regex_match(pattern: Seq<char>, text: Seq<char>) -> Option<bool>;

/// Relies on regex::Regex::new and Regex::is_match: an invalid pattern is an
/// error, else the answer depends on pattern and text alone.
#[verifier::external_body]
pub(crate) fn regex_is_match(pattern: &str, text: &str) -> (r: Option<bool>)
    ensures
        r == regex_match(pattern@, text@),
{
    match regex::Regex::new(pattern) {
        Ok(re) => Some(re.is_match(text)),
        Err(_) => None,
    }
}

/// Whether `serde_json::from_str` accepts `text` as a `serde_json::Value`:
/// well-formed JSON nested at most 128 levels deep.
pub uninterp spec fn json_well_formed(text: Seq<char>) -> bool;

/// Relies on serde_json::from_str into serde_json::Value: it succeeds
/// exactly on the texts that `json_well_formed` stands for.
#[verifier::external_body]
pub(crate) fn json_parse(text: &str) -> (r: Option<serde_json::Value>)
    ensures
        r is Some == json_well_formed(text@),
{
    serde_json::from_str::<serde_json::Value>(text).ok()
}

/// The JSON string literal for `s`.
pub uninterp spec fn json_quoted(s: Seq<char>) -> Seq<char>;

/// Relies on serde_json::to_string on a `str`: the JSON string literal of
/// the text, a function of the text alone (serialising a `str` cannot fail).
#[verifier::external_body]
pub(crate) fn json_quote(s: &str) -> (r: String)
    ensures
        r@ == json_quoted(s@),
{
    serde_json::to_string(s).unwrap_or_default()
}

/// Relies on minijinja::Value::from_serialize: the template value of a JSON
/// document.
#[verifier::external_body]
pub(crate) fn template_value_of_json(v: &serde_json::Value) -> (r: minijinja::Value) {
    minijinja::Value::from_serialize(v)
}

/// Relies on minijinja::Error::new with ErrorKind::InvalidOperation.
#[verifier::external_body]
pub(crate) fn template_error(detail: String) -> (r: minijinja::Error) {
    minijinja::Error::new(minijinja::ErrorKind::InvalidOperation, detail)
}

/// The text of template `source` rendered against the JSON object `ctx`,
/// undefined values being an error if `strict` and lenient otherwise; `None`
/// when `ctx` is not JSON or the template fails.
pub uninterp spec fn rendered(source: Seq<char>, ctx: Seq<char>, strict: bool) -> Option<Seq<char>>;

/// Relies on serde_json::from_str (the context text into a value, converted
/// with minijinja::Value::from_serialize) and minijinja's
/// Environment::render_str, with the `fromjson` filter and the undefined
/// behaviour chosen by `strict`: the text depends on the arguments alone.
#[verifier::external_body]
pub(crate) fn render_template(source: &str, ctx: &str, strict: bool) -> (r: Option<String>)
    ensures
        match r {
            Some(t) => rendered(source@, ctx@, strict) == Some(t@),
            None => rendered(source@, ctx@, strict) is None,
        },
{
    let ctx = minijinja::Value::from_serialize(serde_json::from_str::<serde_json::Value>(ctx).ok()?);
    let mut env = minijinja::Environment::new();
    env.set_undefined_behavior(match strict {
        true => minijinja::UndefinedBehavior::Strict,
        false => minijinja::UndefinedBehavior::Lenient,
    });
    env.add_filter("fromjson", |s: String| crate::probe::fromjson_filter(s));
    env.render_str(source, ctx).ok()
}

/// The lowercase hexadecimal MD5 digest of `data`.
pub uninterp spec fn md5_hex_of(data: Seq<u8>) -> Seq<char>;

/// Relies on md5::compute and the digest's `LowerHex` formatting: 32
/// lowercase hex digits determined by the bytes alone.
#[verifier::external_body]
pub(crate) fn md5_hex(data: &[u8]) -> (r: String)
    ensures
        r@ == md5_hex_of(data@),
        r@.len() == 32,
{
    format!("{:x}", md5::compute(data))
}

} // verus!
