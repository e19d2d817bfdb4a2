//! The line matcher of a search, compiled by the `regex` crate.
use vstd::prelude::*;
use crate::error::{error_context, ToolError};
use crate::literal::contains;

verus! {

#[verifier::external_type_specification]
#[verifier::external_body]
pub struct ExRegex(regex::Regex);

/// The characters that have a meaning in a regular expression
/// (`regex_syntax::is_meta_character`).
pub open spec fn is_regex_meta(c: char) -> bool {
    c == '\\' || c == '.' || c == '+' || c == '*' || c == '?' || c == '(' || c == ')' || c == '|'
        || c == '[' || c == ']' || c == '{' || c == '}' || c == '^' || c == '$' || c == '#' || c
        == '&' || c == '-' || c == '~'
}

/// What `regex::escape` makes of a text: each meta character preceded by a
/// backslash, every other character kept.
pub open spec fn regex_escaped(text: Seq<char>) -> Seq<char>
    decreases text.len(),
{
    if text.len() == 0 {
        Seq::empty()
    } else {
        regex_escaped(text.drop_last()) + if is_regex_meta(text.last()) {
            seq!['\\', text.last()]
        } else {
            seq![text.last()]
        }
    }
}

/// Whether `regex::RegexBuilder` compiles an expression with this case
/// setting (syntax and default size limits).
pub uninterp spec fn regex_compiles(expression: Seq<char>, ignore_case: bool) -> bool;

/// The text of the error that `regex::RegexBuilder` gives for an expression
/// it does not compile with this case setting (`regex::Error`'s display).
pub uninterp spec fn regex_error_message(expression: Seq<char>, ignore_case: bool) -> Seq<char>;

/// Whether the regular expression, with this case setting, matches somewhere
/// in the haystack (`regex::Regex::is_match`).
pub uninterp spec fn regex_matches(expression: Seq<char>, ignore_case: bool, haystack: Seq<char>) -> bool;

/// A compiled line matcher. It is made only by `compile_regex`, so its
/// `regex` is always the compilation of `expression` with `ignore_case`.
pub struct Matcher {
    regex: regex::Regex,
    expression: String,
    ignore_case: bool,
}

impl Matcher {
    /// The regular expression the matcher was compiled from.
    pub closed spec fn expression(&self) -> Seq<char> {
        self.expression@
    }

    /// Whether matching ignores case.
    pub closed spec fn ignores_case(&self) -> bool {
        self.ignore_case
    }

    /// Whether the matcher accepts a line.
    pub open spec fn accepts(&self, line: Seq<char>) -> bool {
        regex_matches(self.expression(), self.ignores_case(), line)
    }
}

/// `regex::escape`: the text with every meta character escaped, as its
/// source (`regex_syntax::escape_into`) does. Its documentation says that
/// the result may be used as a literal in a regular expression; the contract
/// states that, when the result compiles case-sensitively, it matches
/// exactly the haystacks that contain the text.
#[verifier::external_body]
fn escape_literal(text: &str) -> (r: String)
    ensures
        r@ == regex_escaped(text@),
        regex_compiles(r@, false) ==> forall|haystack: Seq<char>|
            #[trigger] regex_matches(r@, false, haystack) == contains(haystack, text@),
{
    regex::escape(text)
}

/// `regex::RegexBuilder::new(expression).case_insensitive(ignore_case).build()`,
/// packed with what it was built from, its error converted to its display
/// text. Claims success exactly when the expression compiles under that
/// setting, and names the error text, which the builder derives from the
/// expression and the setting alone.
#[verifier::external_body]
fn compile_regex(expression: &str, ignore_case: bool) -> (r: Result<Matcher, String>)
    ensures
        r is Ok <==> regex_compiles(expression@, ignore_case),
        r matches Ok(m) ==> m.expression() == expression@ && m.ignores_case() == ignore_case,
        r matches Err(e) ==> e@ == regex_error_message(expression@, ignore_case),
{
    match regex::RegexBuilder::new(expression).case_insensitive(ignore_case).build() {
        Ok(regex) => Ok(Matcher { regex, expression: expression.to_owned(), ignore_case }),
        Err(error) => Err(error.to_string()),
    }
}

/// `regex::Regex::is_match` on the matcher's compiled expression: whether it
/// matches anywhere in the haystack.
#[verifier::external_body]
pub(crate) fn is_match(m: &Matcher, haystack: &str) -> (b: bool)
    ensures
        b == m.accepts(haystack@),
{
    m.regex.is_match(haystack)
}

/// The expression a search compiles: the pattern itself for a regex search,
/// the escaped pattern for a literal one.
pub open spec fn search_expression(pattern: Seq<char>, use_regex: bool) -> Seq<char> {
    if use_regex {
        pattern
    } else {
        regex_escaped(pattern)
    }
}

/// Builds the matcher of a search. A literal, case-sensitive matcher accepts
/// exactly the lines that contain the pattern.
pub fn build_matcher(pattern: &str, use_regex: bool, ignore_case: bool) -> (r: Result<
    Matcher,
    ToolError,
>)
    ensures
        r is Ok <==> regex_compiles(search_expression(pattern@, use_regex), ignore_case),
        r matches Ok(m) ==> m.expression() == search_expression(pattern@, use_regex)
            && m.ignores_case() == ignore_case,
        r matches Ok(m) ==> (!use_regex && !ignore_case ==> forall|line: Seq<char>|
            #[trigger] m.accepts(line) == contains(line, pattern@)),
        r matches Err(e) ==> error_context(e) == "Invalid regex pattern: "@ + pattern@,
        r matches Err(e) ==> (e matches ToolError::InvalidPattern { pattern: p, cause: c } && p@
            == pattern@ && c@ == regex_error_message(
            search_expression(pattern@, use_regex),
            ignore_case,
        )),
{
    let expression = if use_regex {
        pattern.to_owned()
    } else {
        escape_literal(pattern)
    };
    match compile_regex(expression.as_str(), ignore_case) {
        Ok(m) => {
            proof {
                if !use_regex && !ignore_case {
                    assert forall|line: Seq<char>| #[trigger] m.accepts(line) == contains(
                        line,
                        pattern@,
                    ) by {
                        assert(regex_matches(expression@, false, line) == contains(
                            line,
                            pattern@,
                        ));
                    }
                }
            }
            Ok(m)
        },
        Err(error) => Err(
            ToolError::InvalidPattern { pattern: pattern.to_owned(), cause: error },
        ),
    }
}

} // verus!
