use vstd::prelude::*;

verus! {

/// Declaration of `regex::Regex`, so that a compiled pattern can be held in
/// a field and passed through verified code.
#[verifier::external_type_specification]
#[verifier::external_body]
pub struct ExRegex(regex::Regex);

/// Whether `src` is a valid regular expression: exactly the pattern texts
/// that `regex::Regex::new` accepts (under its default size limit).
pub uninterp spec fn pattern_ok(src: Seq<char>) -> bool;

/// Whether the regular expression `src` matches anywhere in `text`, as
/// `regex::Regex::is_match` decides it: a function of the pattern source and
/// the haystack alone.
pub uninterp spec fn regex_match(src: Seq<char>, text: Seq<char>) -> bool;

/// The lowercased form of `s`, as `str::to_lowercase` computes it: a
/// function of the characters alone.
pub uninterp spec fn lower_of(s: Seq<char>) -> Seq<char>;

/// The error returned when a pattern does not compile.
#[derive(Clone, Copy, Debug, PartialEq, Eq)]
pub struct PatternError;

/// A compiled pattern, together with the source text it was compiled from.
/// The view of a `Pattern` is that source text, and `is_match` is specified
/// entirely over the view; only `compile` constructs a `Pattern`, so the
/// compiled value always belongs to the stored source.
pub struct Pattern {
    re: regex::Regex,
    src: String,
}

impl View for Pattern {
    type V = Seq<char>;

    closed spec fn view(&self) -> Seq<char> {
        self.src@
    }
}

impl Pattern {
    /// Relies on `regex::Regex::new`: compilation succeeds exactly when the
    /// source is a valid pattern, and fails otherwise.
    #[verifier::external_body]
    pub fn compile(src: &str) -> (r: Result<Pattern, PatternError>)
        ensures
            r is Ok <==> pattern_ok(src@),
            r is Ok ==> r->Ok_0@ == src@,
    {
        match regex::Regex::new(src) {
            Ok(re) => Ok(Pattern { re, src: src.to_owned() }),
            Err(_) => Err(PatternError),
        }
    }

    /// Relies on `regex::Regex::is_match`: whether the compiled pattern
    /// matches anywhere in `text`, a function of the pattern source and the
    /// text alone.
    #[verifier::external_body]
    pub fn is_match(&self, text: &str) -> (r: bool)
        ensures
            r == regex_match(self@, text@),
    {
        self.re.is_match(text)
    }
}

/// Relies on `str::to_lowercase`: the result depends on the characters alone.
#[verifier::external_body]
pub fn lowercase(s: &str) -> (r: String)
    ensures
        r@ == lower_of(s@),
{
    s.to_lowercase()
}

} // verus!
