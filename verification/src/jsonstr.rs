use vstd::prelude::*;

verus! {

/// The JSON string literal (quotes included) that serializing a Rust string
/// produces.
pub uninterp spec fn json_quoted(s: Seq<char>) -> Seq<char>;

/// Relies on serde_json::to_string for &str: it renders the JSON string
/// literal with its surrounding quotes, escaping only '"', '\' and control
/// characters below 0x20, and it cannot fail for a string value.
#[verifier::external_body]
pub(crate) fn json_quote(s: &str) -> (r: String)
    ensures
        r@ == json_quoted(s@),
        (forall|i: int|
            0 <= i < s@.len() ==> s@[i] != '"' && s@[i] != '\\' && s@[i] as u32 >= 32) ==> r@
            == seq!['"'] + s@ + seq!['"'],
{
    serde_json::to_string(s).expect("serializing a string cannot fail")
}

} // verus!
