use vstd::prelude::*;

verus! {

/// regex's compiled byte-oriented regular expression, carried opaquely.
#[verifier::external_type_specification]
#[verifier::external_body]
pub struct ExRegex(regex::bytes::Regex);

/// regex's pattern-compilation error, carried opaquely.
#[verifier::external_type_specification]
#[verifier::external_body]
pub struct ExRegexError(regex::Error);

/// Whether the regular expression written `pat` — matched without regard to
/// letter case when `ci` is set — matches anywhere in `text`.  This names
/// the result of regex::bytes::Regex::is_match, which is a function of the
/// pattern and the haystack alone.
pub uninterp spec fn pattern_matches(pat: Seq<char>, ci: bool, text: Seq<u8>) -> bool;

/// Whether the regex engine accepts the pattern written `pat` (wrapped in
/// the case-insensitive group when `ci` is set).  This names the success of
/// regex::bytes::Regex::new, which is a function of the pattern text alone:
/// it fails exactly for invalid syntax or a compiled expression over the
/// crate's fixed default size limit.
pub uninterp spec fn pattern_ok(pat: Seq<char>, ci: bool) -> bool;

/// A compiled pattern, kept together with the text it was compiled from.
pub struct Matcher {
    pattern: String,
    case_insensitive: bool,
    re: regex::bytes::Regex,
}

impl Matcher {
    /// The pattern this matcher was compiled from.
    pub closed spec fn spec_pattern(self) -> Seq<char> {
        self.pattern@
    }

    /// Whether this matcher ignores letter case.
    pub closed spec fn spec_ci(self) -> bool {
        self.case_insensitive
    }
    /// Compiles a pattern.  Relies on regex::bytes::Regex::new, which
    /// returns `Err` exactly for a pattern the crate refuses (invalid syntax
    /// or a compiled expression over its default size limit), a function of
    /// the pattern text alone.  Case-insensitive matching uses the crate's
    /// own `(?i:...)` group syntax.
    #[verifier::external_body]
    pub fn new(pattern: &str, case_insensitive: bool) -> (r: Result<Matcher, regex::Error>)
        ensures
            r is Ok <==> pattern_ok(pattern@, case_insensitive),
            r matches Ok(m) ==> m.spec_pattern() == pattern@ && m.spec_ci() == case_insensitive,
    {
        let source = if case_insensitive {
            format!("(?i:{})", pattern)
        } else {
            pattern.to_string()
        };
        match regex::bytes::Regex::new(&source) {
            Ok(re) => Ok(Matcher { pattern: pattern.to_string(), case_insensitive, re }),
            Err(e) => Err(e),
        }
    }

    /// Whether the pattern matches anywhere in `text`.  Relies on
    /// regex::bytes::Regex::is_match being a pure function of the compiled
    /// pattern and the haystack; the private `re` field is always the
    /// compilation of `pattern` and `case_insensitive` by `Matcher::new`,
    /// the only constructor.
    #[verifier::external_body]
    pub(crate) fn is_match(&self, text: &[u8]) -> (r: bool)
        ensures
            r == pattern_matches(self.spec_pattern(), self.spec_ci(), text@),
    {
        self.re.is_match(text)
    }
}

} // verus!
