//! Command-line argument parsing that carries rules of its own.
use vstd::prelude::*;
use vstd::string::StringExecFns;

verus! {

/// What `format!("{raw:?}")` gives for the string `raw`: its `Debug`
/// rendering, quoted, with special characters escaped.
pub uninterp spec fn str_debug_text(raw: Seq<char>) -> Seq<char>;

/// The `Debug` rendering of `raw`, produced with `format!("{raw:?}")`.
#[verifier::external_body]
fn debug_text(raw: &str) -> (r: String)
    ensures
        r@ == str_debug_text(raw@),
{
    format!("{raw:?}")
}

/// The message for a `--set` argument that is not of the form `key=value`.
pub open spec fn set_value_error_text(raw: Seq<char>) -> Seq<char> {
    "invalid --set value "@ + str_debug_text(raw) + ": expected key=value"@
}

/// Builds the error message for a malformed `--set` argument.
fn set_value_error(raw: &str) -> (r: String)
    ensures
        r@ == set_value_error_text(raw@),
{
    let mut s = String::from_str("invalid --set value ");
    s.append(debug_text(raw).as_str());
    s.append(": expected key=value");
    s
}

/// Splits a `--set key=value` argument at its first `=`: the key is what
/// comes before it, the value everything after (which may hold more `=`).
/// An argument without `=` is refused with a message naming it.
pub fn parse_key_val(raw: &str) -> (r: Result<(String, String), String>)
    ensures
        match r {
            Ok((key, value)) => exists|i: int|
                0 <= i < raw@.len() && raw@[i] == '=' && (forall|j: int| 0 <= j < i ==> raw@[j] != '=')
                    && key@ == raw@.subrange(0, i) && value@ == raw@.subrange(i + 1, raw@.len() as int),
            Err(e) => (forall|i: int| 0 <= i < raw@.len() ==> raw@[i] != '=') && e@
                == set_value_error_text(raw@),
        },
{
    let n = raw.unicode_len();
    let mut i: usize = 0;
    while i < n
        invariant
            n == raw@.len(),
            i <= n,
            forall|j: int| 0 <= j < i ==> raw@[j] != '=',
        decreases n - i,
    {
        if raw.get_char(i) == '=' {
            let key = raw.substring_char(0, i);
            let value = raw.substring_char(i + 1, n);
            return Ok((key.to_owned(), value.to_owned()));
        }
        i = i + 1;
    }
    Err(set_value_error(raw))
}

} // verus!
