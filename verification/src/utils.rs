//! A small builder for the multi-line patterns that the rules share.

use crate::error::ProcessError;
use crate::matcher::{regex_accepts, Pattern};
use vstd::prelude::*;
use vstd::string::*;

verus! {

/// What ends a line inside a pattern: the escape for a line feed.
pub open spec fn line_end() -> Seq<char> {
    seq!['\\', 'n']
}

/// What opens a line on which TeX reports an error.
pub open spec fn error_mark() -> Seq<char> {
    seq!['!', ' ']
}

/// A line with any content.
pub open spec fn any_line() -> Seq<char> {
    seq!['.', '*']
}

/// The start of the line that names the source line: `l.`, the number as
/// group, and a space.
pub open spec fn location_mark() -> Seq<char> {
    r"l\.(\d+) "@
}

/// The line that names the source line, with the rest of it as a second
/// group.
pub open spec fn location_with_arg_mark() -> Seq<char> {
    r"l\.(\d+) (.+)"@
}

/// Collects the text of a pattern piece by piece.
pub struct PatternBuilder {
    pattern: String,
}

impl View for PatternBuilder {
    type V = Seq<char>;

    /// The pattern text collected so far.
    closed spec fn view(&self) -> Seq<char> {
        self.pattern@
    }
}

impl PatternBuilder {
    /// A builder with an empty pattern.
    pub fn new() -> (builder: Self)
        ensures
            builder@ == Seq::<char>::empty(),
    {
        Self { pattern: String::new() }
    }

    /// Appends `pattern` as it is.
    pub fn raw(self, pattern: &str) -> (builder: Self)
        ensures
            builder@ == self@ + pattern@,
    {
        Self { pattern: self.pattern.concat(pattern) }
    }

    /// Appends `pattern` and the end of the line.
    pub fn line(self, pattern: &str) -> (builder: Self)
        ensures
            builder@ == self@ + pattern@ + line_end(),
    {
        proof {
            reveal_strlit(r"\n");
        }
        let end = r"\n";
        assert(end@ =~= line_end());
        let builder = self.raw(pattern).raw(end);
        builder
    }

    /// Appends a line that starts with TeX's error mark and goes on with
    /// `pattern`.
    pub fn error(self, pattern: &str) -> (builder: Self)
        ensures
            builder@ == self@ + error_mark() + pattern@ + line_end(),
    {
        proof {
            reveal_strlit("! ");
        }
        let mark = "! ";
        assert(mark@ =~= error_mark());
        let builder = self.raw(mark).line(pattern);
        builder
    }

    /// Appends a line with any content.
    pub fn any_on_line(self) -> (builder: Self)
        ensures
            builder@ == self@ + any_line() + line_end(),
    {
        proof {
            reveal_strlit(".*");
        }
        let any = ".*";
        assert(any@ =~= any_line());
        self.line(any)
    }

    /// Appends the start of a line that names the source line.
    pub fn location(self) -> (builder: Self)
        ensures
            builder@ == self@ + location_mark(),
    {
        self.raw(r"l\.(\d+) ")
    }

    /// Appends a line that names the source line and captures the rest of it.
    pub fn location_with_arg(self) -> (builder: Self)
        ensures
            builder@ == self@ + location_with_arg_mark(),
    {
        self.raw(r"l\.(\d+) (.+)")
    }

    /// Hands the collected text to the expression engine. Succeeds exactly
    /// where the engine takes the text; the compiled pattern then has exactly
    /// that text as its source.
    pub fn compile(self) -> (compiled: Result<Pattern, ProcessError>)
        ensures
            compiled is Ok <==> regex_accepts(self@),
            compiled matches Ok(pattern) ==> pattern@ == self@,
            compiled matches Err(e) ==> e == ProcessError::PatternRejected,
    {
        Pattern::new(self.pattern.as_str())
    }
}

} // verus!
