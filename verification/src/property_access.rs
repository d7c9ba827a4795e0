use vstd::prelude::*;
use vstd::string::StrSliceExecFns;
use vstd::string::StringExecFns;
use crate::jsonstr::{json_quote, json_quoted};
use crate::strutil::str_eq;

verus! {

/// A character that may begin a JavaScript identifier.
pub open spec fn is_identifier_start(c: char) -> bool {
    c == '_' || c == '$' || ('a' <= c && c <= 'z') || ('A' <= c && c <= 'Z')
}

/// A character that may continue a JavaScript identifier.
pub open spec fn is_identifier_part(c: char) -> bool {
    is_identifier_start(c) || ('0' <= c && c <= '9')
}

/// A property name that can be rendered with dot access: a plain identifier.
pub open spec fn is_safe_identifier(s: Seq<char>) -> bool {
    &&& s.len() > 0
    &&& is_identifier_start(s[0])
    &&& forall|i: int| 1 <= i < s.len() ==> is_identifier_part(#[trigger] s[i])
}

/// JavaScript reserved words, which cannot be used after a dot.
pub open spec fn is_reserved_word(s: Seq<char>) -> bool {
    ||| s == "break"@
    ||| s == "case"@
    ||| s == "catch"@
    ||| s == "class"@
    ||| s == "const"@
    ||| s == "continue"@
    ||| s == "debugger"@
    ||| s == "default"@
    ||| s == "delete"@
    ||| s == "do"@
    ||| s == "else"@
    ||| s == "enum"@
    ||| s == "export"@
    ||| s == "extends"@
    ||| s == "false"@
    ||| s == "finally"@
    ||| s == "for"@
    ||| s == "function"@
    ||| s == "if"@
    ||| s == "implements"@
    ||| s == "import"@
    ||| s == "in"@
    ||| s == "instanceof"@
    ||| s == "interface"@
    ||| s == "let"@
    ||| s == "new"@
    ||| s == "null"@
    ||| s == "package"@
    ||| s == "private"@
    ||| s == "protected"@
    ||| s == "public"@
    ||| s == "return"@
    ||| s == "static"@
    ||| s == "super"@
    ||| s == "switch"@
    ||| s == "this"@
    ||| s == "throw"@
    ||| s == "true"@
    ||| s == "try"@
    ||| s == "typeof"@
    ||| s == "var"@
    ||| s == "void"@
    ||| s == "while"@
    ||| s == "with"@
    ||| s == "yield"@
    ||| s == "await"@
}

/// Decides `is_identifier_start`.
fn identifier_start_char(c: char) -> (r: bool)
    ensures
        r == is_identifier_start(c),
{
    c == '_' || c == '$' || ('a' <= c && c <= 'z') || ('A' <= c && c <= 'Z')
}

/// Decides `is_identifier_part`.
fn identifier_part_char(c: char) -> (r: bool)
    ensures
        r == is_identifier_part(c),
{
    identifier_start_char(c) || ('0' <= c && c <= '9')
}

/// Decides `is_safe_identifier`.
pub fn safe_identifier(s: &str) -> (r: bool)
    ensures
        r == is_safe_identifier(s@),
{
    let n = s.unicode_len();
    if n == 0 {
        return false;
    }
    if !identifier_start_char(s.get_char(0)) {
        return false;
    }
    for i in 1..n
        invariant
            n == s@.len(),
            1 <= i <= n,
            is_identifier_start(s@[0]),
            forall|j: int| 1 <= j < i ==> is_identifier_part(#[trigger] s@[j]),
    {
        if !identifier_part_char(s.get_char(i)) {
            return false;
        }
    }
    true
}

/// Decides `is_reserved_word`.
pub fn reserved_word(s: &str) -> (r: bool)
    ensures
        r == is_reserved_word(s@),
{
    str_eq(s, "break") || str_eq(s, "case") || str_eq(s, "catch") || str_eq(s, "class") || str_eq(
        s,
        "const",
    ) || str_eq(s, "continue") || str_eq(s, "debugger") || str_eq(s, "default") || str_eq(
        s,
        "delete",
    ) || str_eq(s, "do") || str_eq(s, "else") || str_eq(s, "enum") || str_eq(s, "export") || str_eq(
        s,
        "extends",
    ) || str_eq(s, "false") || str_eq(s, "finally") || str_eq(s, "for") || str_eq(s, "function")
        || str_eq(s, "if") || str_eq(s, "implements") || str_eq(s, "import") || str_eq(s, "in")
        || str_eq(s, "instanceof") || str_eq(s, "interface") || str_eq(s, "let") || str_eq(s, "new")
        || str_eq(s, "null") || str_eq(s, "package") || str_eq(s, "private") || str_eq(
        s,
        "protected",
    ) || str_eq(s, "public") || str_eq(s, "return") || str_eq(s, "static") || str_eq(s, "super")
        || str_eq(s, "switch") || str_eq(s, "this") || str_eq(s, "throw") || str_eq(s, "true")
        || str_eq(s, "try") || str_eq(s, "typeof") || str_eq(s, "var") || str_eq(s, "void")
        || str_eq(s, "while") || str_eq(s, "with") || str_eq(s, "yield") || str_eq(s, "await")
}

/// The rendering of one property access step: dot access for a safe,
/// unreserved identifier, otherwise bracket access around the JSON-quoted
/// name; `optional` puts `?.` in front of the step.
pub open spec fn property_piece(p: Seq<char>, optional: bool) -> Seq<char> {
    if is_safe_identifier(p) && !is_reserved_word(p) {
        (if optional {
            "?."@
        } else {
            "."@
        }) + p
    } else {
        (if optional {
            "?.["@
        } else {
            "["@
        }) + json_quoted(p) + "]"@
    }
}

/// The optional flag for step `i`; absent entries count as required.
pub open spec fn optional_at(optionals: Seq<bool>, i: int) -> bool {
    if 0 <= i < optionals.len() {
        optionals[i]
    } else {
        false
    }
}

/// The accessor string for the properties from `start` on, each step rendered
/// by `property_piece` with its flag from `optionals`.
pub open spec fn spec_property_access(
    props: Seq<Seq<char>>,
    optionals: Seq<bool>,
    start: int,
) -> Seq<char>
    decreases props.len() - start,
{
    if start < 0 || start >= props.len() {
        Seq::empty()
    } else {
        property_piece(props[start], optional_at(optionals, start)) + spec_property_access(
            props,
            optionals,
            start + 1,
        )
    }
}

/// Appends one access step for `property` to `result`.
fn render_property_access(result: &mut String, property: &str, optional: bool)
    ensures
        final(result)@ == old(result)@ + property_piece(property@, optional),
{
    if safe_identifier(property) && !reserved_word(property) {
        result.append(if optional {
            "?."
        } else {
            "."
        });
        result.append(property);
    } else {
        let quoted = json_quote(property);
        result.append(if optional {
            "?.["
        } else {
            "["
        });
        result.append(quoted.as_str());
        result.append("]");
    }
}

/// Renders a dot-or-bracket accessor chain for the property names from
/// `start` on, with every step required.
pub fn property_access(o: &Vec<String>, start: usize) -> (r: String)
    ensures
        r@ == spec_property_access(o.deep_view(), Seq::empty(), start as int),
{
    property_access_with_optional_seq(o, &Vec::new(), start)
}

/// Renders an accessor chain for the property names from `start` on, making
/// step `i` optional when `optionals[i]` is true; missing entries count as
/// required.
pub fn property_access_with_optional(o: &Vec<String>, optionals: &Vec<bool>, start: usize) -> (r:
    String)
    ensures
        r@ == spec_property_access(o.deep_view(), optionals@, start as int),
{
    property_access_with_optional_seq(o, optionals, start)
}

/// Shared renderer behind the two accessor entry points.
fn property_access_with_optional_seq(o: &Vec<String>, optionals: &Vec<bool>, start: usize) -> (r:
    String)
    ensures
        r@ == spec_property_access(o.deep_view(), optionals@, start as int),
{
    let mut s = String::new();
    if start >= o.len() {
        proof {
            assert(s@ =~= spec_property_access(o.deep_view(), optionals@, start as int));
        }
        return s;
    }
    for i in start..o.len()
        invariant
            start <= i <= o.len(),
            o.deep_view().len() == o@.len(),
            s@ + spec_property_access(o.deep_view(), optionals@, i as int)
                == spec_property_access(o.deep_view(), optionals@, start as int),
    {
        let optional = if i < optionals.len() {
            optionals[i]
        } else {
            false
        };
        assert(o.deep_view()[i as int] == o@[i as int]@);
        render_property_access(&mut s, o[i].as_str(), optional);
        proof {
            let props = o.deep_view();
            assert((s@ + spec_property_access(props, optionals@, i + 1)) =~= (s@
                + spec_property_access(props, optionals@, i + 1)));
            assert(spec_property_access(props, optionals@, i as int) == property_piece(
                props[i as int],
                optional_at(optionals@, i as int),
            ) + spec_property_access(props, optionals@, i + 1));
        }
    }
    proof {
        assert(s@ + Seq::<char>::empty() =~= s@);
    }
    s
}

} // verus!
