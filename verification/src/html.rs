use vstd::prelude::*;
use vstd::string::StrSliceExecFns;

verus! {

// ----------------------------------------------------------------------------
// HTML compilation decisions: whether a source parses as a full document or
// as a fragment, whether the output is minified, and how parse-error spans
// map to source offsets.  The parsing and emission themselves are host work
// around these decisions.
// ----------------------------------------------------------------------------

/// The options the compiler reads.
pub struct HtmlPluginOptions {
    /// Explicit minification choice; absent means "follow the build mode".
    pub minify: Option<bool>,
}

/// The HTML compiler: carries the options its decisions depend on.
pub struct HtmlCompiler {
    pub config: HtmlPluginOptions,
}

/// ASCII whitespace skipped before the doctype check.
pub open spec fn is_ascii_whitespace(c: char) -> bool {
    c == ' ' || c == '\t' || c == '\n' || c == '\r' || c == 11u8 as char || c == 12u8 as char
}

/// ASCII lowercase folding of one character.
pub open spec fn ascii_lower(c: char) -> char {
    if 'A' <= c && c <= 'Z' {
        ((c as u8) + 32) as char
    } else {
        c
    }
}

/// The number of leading ASCII whitespace characters.
pub open spec fn leading_ws(s: Seq<char>, i: int) -> int
    decreases s.len() - i,
{
    if i < 0 || i >= s.len() {
        i
    } else if is_ascii_whitespace(s[i]) {
        leading_ws(s, i + 1)
    } else {
        i
    }
}

/// The doctype marker, lowercase.
pub open spec fn doctype_marker() -> Seq<char> {
    seq!['<', '!', 'd', 'o', 'c', 't', 'y', 'p', 'e']
}

/// The source opens (after ASCII whitespace) with `<!doctype`, in any case.
pub open spec fn spec_has_doctype(s: Seq<char>) -> bool {
    let i = leading_ws(s, 0);
    &&& i + doctype_marker().len() <= s.len()
    &&& forall|j: int|
        0 <= j < doctype_marker().len() ==> ascii_lower(s[i + j]) == doctype_marker()[j]
}

/// The index of the first character that is not ASCII whitespace.
fn skip_ascii_ws(source: &str) -> (i: usize)
    ensures
        i as int == leading_ws(source@, 0),
        i <= source@.len(),
{
    let n = source.unicode_len();
    let mut i: usize = 0;
    while i < n
        invariant
            n == source@.len(),
            0 <= i <= n,
            leading_ws(source@, 0) == leading_ws(source@, i as int),
        decreases n - i,
    {
        let c = source.get_char(i);
        if !(c == ' ' || c == '\t' || c == '\n' || c == '\r' || c as u32 == 11 || c as u32 == 12) {
            proof {
                assert(leading_ws(source@, i as int) == i as int);
            }
            return i;
        }
        i = i + 1;
    }
    proof {
        assert(leading_ws(source@, i as int) == i as int);
    }
    i
}

/// Decides `spec_has_doctype`: whether the source parses as a full document
/// rather than a fragment.
pub fn has_doctype(source: &str) -> (r: bool)
    ensures
        r == spec_has_doctype(source@),
{
    let n = source.unicode_len();
    let i = skip_ascii_ws(source);
    if n - i < 9 {
        return false;
    }
    let marker = "<!doctype";
    proof {
        reveal_strlit("<!doctype");
        assert(marker@ =~= doctype_marker());
    }
    for j in 0..9usize
        invariant
            n == source@.len(),
            i + 9 <= n,
            marker@ == doctype_marker(),
            leading_ws(source@, 0) == i as int,
            forall|j2: int|
                0 <= j2 < j ==> ascii_lower(source@[i + j2]) == doctype_marker()[j2],
    {
        let c = source.get_char(i + j);
        let lc = if 'A' <= c && c <= 'Z' {
            ((c as u8) + 32) as char
        } else {
            c
        };
        if lc != marker.get_char(j) {
            proof {
                assert(ascii_lower(source@[i + j]) != doctype_marker()[j as int]);
            }
            return false;
        }
        proof {
            assert(ascii_lower(source@[i + j]) == doctype_marker()[j as int]);
        }
    }
    true
}

impl HtmlCompiler {
    /// Builds the compiler over its options.
    pub fn new(config: HtmlPluginOptions) -> (r: HtmlCompiler)
        ensures
            r.config.minify == config.minify,
    {
        HtmlCompiler { config }
    }

    /// Whether the output is minified: the explicit choice, or the build
    /// mode's default.
    pub fn should_minify(&self, production_mode: bool) -> (r: bool)
        ensures
            r == (match self.config.minify {
                Some(m) => m,
                None => production_mode,
            }),
    {
        match self.config.minify {
            Some(m) => m,
            None => production_mode,
        }
    }
}

/// A parse diagnostic over plain source offsets.
pub struct HtmlDiagnostic {
    pub message: String,
    pub start: usize,
    pub end: usize,
}

/// Maps a one-based parser span to zero-based source offsets; a zero bound
/// stays at the start.
pub fn span_to_offsets(lo: u32, hi: u32) -> (r: (usize, usize))
    ensures
        r.0 == (if lo > 0 {
            (lo - 1) as usize
        } else {
            0usize
        }),
        r.1 == (if hi > 0 {
            (hi - 1) as usize
        } else {
            0usize
        }),
{
    let start = if lo > 0 {
        (lo - 1) as usize
    } else {
        0
    };
    let end = if hi > 0 {
        (hi - 1) as usize
    } else {
        0
    };
    (start, end)
}

/// Packages one parse error as a diagnostic with the fixed title the build
/// reports.
pub fn html_parse_error_to_traceable_error(message: String, lo: u32, hi: u32) -> (r: HtmlDiagnostic)
    ensures
        r.message@ == message@,
        r.start == (if lo > 0 {
            (lo - 1) as usize
        } else {
            0usize
        }),
        r.end == (if hi > 0 {
            (hi - 1) as usize
        } else {
            0usize
        }),
{
    let (start, end) = span_to_offsets(lo, hi);
    HtmlDiagnostic { message, start, end }
}

} // verus!
