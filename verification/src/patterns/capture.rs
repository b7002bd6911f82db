//! Capture-group regexes. A pattern's numbered capture groups each hold a
//! compiled regular expression together with the source text it was compiled
//! from; matching is delegated to the `regex` crate, and everything the rest
//! of the library proves about a capture group is stated in terms of that
//! source text.

use vstd::prelude::*;

verus! {

#[verifier::external_type_specification]
#[verifier::external_body]
pub struct ExRegex(regex::Regex);

#[verifier::external_type_specification]
#[verifier::external_body]
pub struct ExRegexError(regex::Error);

/// Whether `regex::Regex::new` accepts `src`: compilation is a deterministic
/// function of the pattern text.
pub uninterp spec fn regex_is_valid(src: Seq<char>) -> bool;

/// The successive non-overlapping matches that a regex compiled from `src`
/// finds in `hay`, in order: a deterministic function of the two texts.
pub uninterp spec fn regex_found_matches(src: Seq<char>, hay: Seq<char>) -> Seq<Seq<char>>;

/// Relies on `regex::Regex::new`: compiling a pattern text is deterministic
/// and succeeds exactly on valid patterns.
#[verifier::external_body]
fn regex_new(src: &str) -> (r: Result<regex::Regex, regex::Error>)
    ensures
        r is Ok <==> regex_is_valid(src@),
{
    regex::Regex::new(src)
}

/// Relies on the `Display` rendering of `regex::Error` for a human-readable
/// compile-failure message; nothing is assumed of its content.
#[verifier::external_body]
pub(crate) fn regex_error_message(e: &regex::Error) -> (r: String) {
    format!("{}", e)
}

/// A compiled capture-group regex, remembering the source text it came from.
/// Its view is that source text.
pub struct CaptureRegex {
    source: String,
    compiled: regex::Regex,
}

impl View for CaptureRegex {
    type V = Seq<char>;

    closed spec fn view(&self) -> Seq<char> {
        self.source@
    }
}

impl CaptureRegex {
    /// Compile `src`; on success the regex remembers `src` as its source.
    pub fn compile(src: &str) -> (r: Result<CaptureRegex, regex::Error>)
        ensures
            r is Ok <==> regex_is_valid(src@),
            r matches Ok(cr) ==> cr@ == src@,
    {
        match regex_new(src) {
            Ok(compiled) => Ok(CaptureRegex { source: src.to_owned(), compiled }),
            Err(e) => Err(e),
        }
    }

    /// The source text the regex was compiled from.
    pub fn source(&self) -> (r: &String)
        ensures
            r@ == self@,
    {
        &self.source
    }

    /// Relies on `regex::Regex::find_iter` and `regex::Match::as_str`: the
    /// successive non-overlapping matches found in a haystack depend only on
    /// the regex's pattern text and the haystack.
    #[verifier::external_body]
    pub(crate) fn find_matches(&self, hay: &str) -> (r: Vec<String>)
        ensures
            r.deep_view() == regex_found_matches(self@, hay@),
    {
        self.compiled.find_iter(hay).map(|m| m.as_str().to_owned()).collect()
    }
}

} // verus!
