//! Regular expressions, through the `regex` crate.
use vstd::prelude::*;

verus! {

#[verifier::external_type_specification]
#[verifier::external_body]
pub struct ExRegex(regex::Regex);

/// Why a pattern did not compile.
pub enum RegexFault {
    Syntax(Seq<char>),
    TooBig,
    Other,
}

/// Why `regex::Regex::new` refuses `pattern`, if it does.
pub uninterp spec fn regex_compile_fault(pattern: Seq<char>) -> Option<RegexFault>;

/// Whether the regex compiled from `pattern` matches somewhere in `haystack`.
pub uninterp spec fn regex_is_match(pattern: Seq<char>, haystack: Seq<char>) -> bool;

/// Why a pattern did not compile.
pub enum RegexFailure {
    Syntax(String),
    TooBig,
    Other,
}

impl View for RegexFailure {
    type V = RegexFault;

    open spec fn view(&self) -> RegexFault {
        match self {
            RegexFailure::Syntax(m) => RegexFault::Syntax(m@),
            RegexFailure::TooBig => RegexFault::TooBig,
            RegexFailure::Other => RegexFault::Other,
        }
    }
}

/// A compiled pattern, together with the text it was compiled from. Its
/// fields are private and only `compile` builds one, so `regex` is always
/// the regex compiled from `source`.
pub struct CompiledPattern {
    source: String,
    regex: regex::Regex,
}

impl CompiledPattern {
    /// The text the pattern was compiled from.
    pub closed spec fn source(&self) -> Seq<char> {
        self.source@
    }

    /// Relies on regex::Regex::new: it compiles `pattern` or says why not,
    /// telling a syntax error (with its message) and an exceeded size limit
    /// from other failures.
    #[verifier::external_body]
    pub fn compile(pattern: &str) -> (r: Result<CompiledPattern, RegexFailure>)
        ensures
            match r {
                Ok(c) => c.source() == pattern@ && regex_compile_fault(pattern@) is None,
                Err(f) => regex_compile_fault(pattern@) == Some(f@),
            },
    {
        match regex::Regex::new(pattern) {
            Ok(regex) => Ok(CompiledPattern { source: pattern.to_string(), regex }),
            Err(regex::Error::Syntax(msg)) => Err(RegexFailure::Syntax(msg)),
            Err(regex::Error::CompiledTooBig(_)) => Err(RegexFailure::TooBig),
            Err(_) => Err(RegexFailure::Other),
        }
    }

    /// Relies on regex::Regex::is_match: whether the pattern matches
    /// somewhere in `haystack`.
    #[verifier::external_body]
    pub fn is_match(&self, haystack: &str) -> (r: bool)
        ensures
            r == regex_is_match(self.source(), haystack@),
    {
        self.regex.is_match(haystack)
    }
}

} // verus!
