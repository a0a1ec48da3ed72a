//! The diagnostics and the rules that recognise them.

use crate::error::ProcessError;
use crate::matcher::{all_captures, captures_view, number_of, regex_accepts, regex_captures, text_of};
use crate::matcher::{Captures, Groups, Pattern};
use crate::text::{trim, trimmed};
use crate::utils::PatternBuilder;
use vstd::prelude::*;

verus! {

/// Where in the source a diagnostic applies.
#[derive(Clone, Copy, Debug, PartialEq, Eq, Hash, Structural)]
pub enum Location {
    /// On the given line.
    Line(usize),
    /// At the end of the document.
    End,
    /// Nowhere in particular.
    Unlocated,
}

/// The place of a location in the order of a report: unlocated diagnostics
/// first, then the lines in rising order, then the end of the document.
pub open spec fn location_key(location: Location) -> int {
    match location {
        Location::Unlocated => -1,
        Location::Line(n) => n as int,
        Location::End => usize::MAX + 1,
    }
}

impl Location {
    /// Whether `self` comes strictly after `other` in a report.
    pub fn comes_after(&self, other: &Location) -> (after: bool)
        ensures
            after == (location_key(*self) > location_key(*other)),
    {
        match (*self, *other) {
            (Location::Unlocated, _) => false,
            (Location::Line(_), Location::Unlocated) => true,
            (Location::Line(a), Location::Line(b)) => a > b,
            (Location::Line(_), Location::End) => false,
            (Location::End, Location::End) => false,
            (Location::End, _) => true,
        }
    }
}

/// How severe a diagnostic is.
#[derive(Clone, Copy, Debug, PartialEq, Eq, Structural)]
pub enum LogItemTypeLevel {
    Error,
    Warning,
}

/// What a diagnostic reports, with the text taken from the transcript.
#[derive(Clone, Debug, Eq, Hash)]
pub enum LogItemType {
    /// A command was used that is not defined; holds the command.
    UndefinedControlSequence(String),
    /// A closing brace has no opening one; holds the text near it.
    TooManyEndingBraces(String),
    /// Something that belongs in math mode stood outside; holds that text.
    NotInMathMode(String),
    /// The argument of a command was never closed; holds the command.
    RunawayArgument(String),
    /// A line could not be stretched to the full width; holds the text that
    /// follows the report and the badness.
    UnderfullHBox(String, usize),
    /// A line sticks out over the margin; holds the hyphenated text.
    OverfullHBox(String),
    /// A package could not be found; holds its name.
    MissingPackage(String),
    /// A package does not know an option; holds the option and the package.
    InvalidOption(String, String),
    /// A row of an alignment has too many cells; holds the text near it.
    ExtraAlignmentToCR(String),
}

/// The mathematical value of a `LogItemType`.
pub enum LogItemTypeView {
    UndefinedControlSequence(Seq<char>),
    TooManyEndingBraces(Seq<char>),
    NotInMathMode(Seq<char>),
    RunawayArgument(Seq<char>),
    UnderfullHBox(Seq<char>, usize),
    OverfullHBox(Seq<char>),
    MissingPackage(Seq<char>),
    InvalidOption(Seq<char>, Seq<char>),
    ExtraAlignmentToCR(Seq<char>),
}

impl View for LogItemType {
    type V = LogItemTypeView;

    open spec fn view(&self) -> LogItemTypeView {
        match *self {
            LogItemType::UndefinedControlSequence(s) => LogItemTypeView::UndefinedControlSequence(
                s@,
            ),
            LogItemType::TooManyEndingBraces(s) => LogItemTypeView::TooManyEndingBraces(s@),
            LogItemType::NotInMathMode(s) => LogItemTypeView::NotInMathMode(s@),
            LogItemType::RunawayArgument(s) => LogItemTypeView::RunawayArgument(s@),
            LogItemType::UnderfullHBox(s, badness) => LogItemTypeView::UnderfullHBox(s@, badness),
            LogItemType::OverfullHBox(s) => LogItemTypeView::OverfullHBox(s@),
            LogItemType::MissingPackage(s) => LogItemTypeView::MissingPackage(s@),
            LogItemType::InvalidOption(option, package) => LogItemTypeView::InvalidOption(
                option@,
                package@,
            ),
            LogItemType::ExtraAlignmentToCR(s) => LogItemTypeView::ExtraAlignmentToCR(s@),
        }
    }
}

/// The severity of each kind of diagnostic: the two reports about the width
/// of a line are warnings, everything else is an error.
pub open spec fn level_of(kind: LogItemTypeView) -> LogItemTypeLevel {
    match kind {
        LogItemTypeView::UnderfullHBox(_, _) | LogItemTypeView::OverfullHBox(_) => {
            LogItemTypeLevel::Warning
        },
        _ => LogItemTypeLevel::Error,
    }
}

impl LogItemType {
    /// The severity of this kind of diagnostic.
    pub fn get_level(&self) -> (level: LogItemTypeLevel)
        ensures
            level == level_of(self@),
    {
        match self {
            LogItemType::UndefinedControlSequence(_)
            | LogItemType::TooManyEndingBraces(_)
            | LogItemType::NotInMathMode(_)
            | LogItemType::RunawayArgument(_)
            | LogItemType::MissingPackage(_)
            | LogItemType::InvalidOption(_, _)
            | LogItemType::ExtraAlignmentToCR(_) => LogItemTypeLevel::Error,
            LogItemType::UnderfullHBox(_, _) | LogItemType::OverfullHBox(_) => {
                LogItemTypeLevel::Warning
            },
        }
    }
}

impl PartialEq for LogItemType {
    /// Two kinds are equal when they are the same variant with the same text
    /// and numbers.
    fn eq(&self, other: &Self) -> (equal: bool) {
        match (self, other) {
            (
                LogItemType::UndefinedControlSequence(a),
                LogItemType::UndefinedControlSequence(b),
            ) => *a == *b,
            (LogItemType::TooManyEndingBraces(a), LogItemType::TooManyEndingBraces(b)) => *a == *b,
            (LogItemType::NotInMathMode(a), LogItemType::NotInMathMode(b)) => *a == *b,
            (LogItemType::RunawayArgument(a), LogItemType::RunawayArgument(b)) => *a == *b,
            (LogItemType::UnderfullHBox(a, m), LogItemType::UnderfullHBox(b, n)) => *a == *b
                && *m == *n,
            (LogItemType::OverfullHBox(a), LogItemType::OverfullHBox(b)) => *a == *b,
            (LogItemType::MissingPackage(a), LogItemType::MissingPackage(b)) => *a == *b,
            (LogItemType::InvalidOption(a, p), LogItemType::InvalidOption(b, q)) => *a == *b
                && *p == *q,
            (LogItemType::ExtraAlignmentToCR(a), LogItemType::ExtraAlignmentToCR(b)) => *a == *b,
            _ => false,
        }
    }
}

impl vstd::std_specs::cmp::PartialEqSpecImpl for LogItemType {
    open spec fn obeys_eq_spec() -> bool {
        true
    }

    open spec fn eq_spec(&self, other: &Self) -> bool {
        self@ == other@
    }
}

/// One diagnostic: what is reported, and where.
#[derive(Clone, Debug, Eq, Hash)]
pub struct LogItem {
    pub item_type: LogItemType,
    pub location: Location,
}

/// The mathematical value of a `LogItem`.
pub struct LogItemView {
    pub item_type: LogItemTypeView,
    pub location: Location,
}

impl View for LogItem {
    type V = LogItemView;

    open spec fn view(&self) -> LogItemView {
        LogItemView { item_type: self.item_type@, location: self.location }
    }
}

impl PartialEq for LogItem {
    /// Two diagnostics are the same finding when kind and location agree.
    fn eq(&self, other: &Self) -> (equal: bool) {
        self.item_type == other.item_type && self.location == other.location
    }
}

impl vstd::std_specs::cmp::PartialEqSpecImpl for LogItem {
    open spec fn obeys_eq_spec() -> bool {
        true
    }

    open spec fn eq_spec(&self, other: &Self) -> bool {
        self@ == other@
    }
}

/// The values of a list of diagnostics.
pub open spec fn items_view(items: Seq<LogItem>) -> Seq<LogItemView> {
    items.map_values(|item: LogItem| item@)
}

/// The value of a diagnostic that may be missing.
pub open spec fn item_option_view(item: Option<LogItem>) -> Option<LogItemView> {
    match item {
        Some(i) => Some(i@),
        None => None,
    }
}

impl LogItem {
    /// A diagnostic of the given kind at the given place.
    pub fn new(item_type: LogItemType, location: Location) -> (item: Self)
        ensures
            item.item_type == item_type,
            item.location == location,
    {
        Self { item_type, location }
    }

    /// All rules, in the order in which they are applied.
    pub fn rules() -> (rules: Vec<RuleKind>)
        ensures
            rules@ == registry(),
    {
        let rules = vec![
            RuleKind::UndefinedControlSequence,
            RuleKind::TooManyEndingBraces,
            RuleKind::NotInMathMode,
            RuleKind::RunawayArgument,
            RuleKind::RunawayArgument2,
            RuleKind::UnderfullHBox,
            RuleKind::OverfullHBox,
            RuleKind::MissingPackage,
            RuleKind::InvalidOption,
            RuleKind::ExtraAlignmentToCR,
        ];
        assert(rules@ =~= registry());
        rules
    }
}

/// The diagnostic of `kind` on the line that the group at `index` names.
pub open spec fn on_line(kind: LogItemTypeView, groups: Groups, index: int) -> Option<
    LogItemView,
> {
    match number_of(groups, index) {
        Some(line) => Some(LogItemView { item_type: kind, location: Location::Line(line) }),
        None => None,
    }
}

/// Every match, as the engine found them.
pub open spec fn every_match(found: Seq<Groups>) -> Seq<Groups> {
    found
}

/// The matches at even positions: the first, the third, and so on.
pub open spec fn every_second_match(found: Seq<Groups>) -> Seq<Groups> {
    Seq::new(((found.len() + 1) / 2) as nat, |i: int| found[2 * i])
}

/// A rule recognises one shape of text in the transcript and says which
/// diagnostic a match stands for.
pub trait Rule {
    /// The text of the pattern that recognises the shape.
    spec fn pattern(&self) -> Seq<char>;

    /// Which of the pattern's matches count.
    spec fn picked(&self, found: Seq<Groups>) -> Seq<Groups>;

    /// The diagnostic that a match with these groups stands for; `None` where
    /// a group that the rule reads is missing or a number cannot be read.
    spec fn item(&self, groups: Groups) -> Option<LogItemView>;

    /// Compiles the rule's pattern: succeeds exactly where the engine takes
    /// it.
    fn get_regex(&self) -> (compiled: Result<Pattern, ProcessError>)
        ensures
            compiled is Ok <==> regex_accepts(self.pattern()),
            compiled matches Ok(compiled_pattern) ==> compiled_pattern@ == self.pattern(),
            compiled matches Err(e) ==> e == ProcessError::PatternRejected,
    ;

    /// Turns one match into its diagnostic.
    fn process(&self, captures: &Captures) -> (item: Option<LogItem>)
        ensures
            item_option_view(item) == self.item(captures@),
    ;

    /// The matches of `pattern` in `log` that count for this rule.
    fn captures(&self, pattern: &Pattern, log: &str) -> (found: Vec<Captures>)
        ensures
            captures_view(found@) == self.picked(regex_captures(pattern@, log@)),
    ;
}

/// An undefined command, reported with the line on which it stands.
pub struct UndefinedControlSequence;

/// A closing brace too many.
pub struct TooManyEndingBraces;

/// Math-only input outside math mode.
pub struct NotInMathMode;

/// An argument that a paragraph break cut short.
pub struct RunawayArgument;

/// An argument that the end of the file cut short.
pub struct RunawayArgument2;

/// A line that is too loose.
pub struct UnderfullHBox;

/// A line that is too wide.
pub struct OverfullHBox;

/// A package file that was not found.
pub struct MissingPackage;

/// An option that a package does not know.
pub struct InvalidOption;

/// A surplus cell in a row of an alignment.
pub struct ExtraAlignmentToCR;

impl Rule for UndefinedControlSequence {
    open spec fn pattern(&self) -> Seq<char> {
        r"! Undefined control sequence\.\n(?:.+\n.+\n)?l\.(\d+) .*(\\[^{\s]+).*\n"@
    }

    open spec fn picked(&self, found: Seq<Groups>) -> Seq<Groups> {
        every_match(found)
    }

    open spec fn item(&self, groups: Groups) -> Option<LogItemView> {
        match text_of(groups, 2) {
            Some(command) => on_line(
                LogItemTypeView::UndefinedControlSequence(command),
                groups,
                1,
            ),
            None => None,
        }
    }

    fn get_regex(&self) -> (compiled: Result<Pattern, ProcessError>) {
        let builder = PatternBuilder::new().error(r"Undefined control sequence\.").raw(
            r"(?:.+\n.+\n)?",
        ).location().line(r".*(\\[^{\s]+).*");
        proof {
            reveal_strlit(r"Undefined control sequence\.");
            reveal_strlit(r"(?:.+\n.+\n)?");
            reveal_strlit(r"l\.(\d+) ");
            reveal_strlit(r".*(\\[^{\s]+).*");
            reveal_strlit(
                r"! Undefined control sequence\.\n(?:.+\n.+\n)?l\.(\d+) .*(\\[^{\s]+).*\n",
            );
            assert(builder@ =~= self.pattern());
        }
        builder.compile()
    }

    fn process(&self, captures: &Captures) -> (item: Option<LogItem>) {
        match (captures.get(2), captures.number(1)) {
            (Some(command), Some(line)) => Some(
                LogItem::new(
                    LogItemType::UndefinedControlSequence(command.clone()),
                    Location::Line(line),
                ),
            ),
            _ => None,
        }
    }

    fn captures(&self, pattern: &Pattern, log: &str) -> (found: Vec<Captures>) {
        all_captures(pattern, log)
    }
}

impl Rule for TooManyEndingBraces {
    open spec fn pattern(&self) -> Seq<char> {
        r"! Too many }'s\.\nl\.(\d+) (.+)"@
    }

    open spec fn picked(&self, found: Seq<Groups>) -> Seq<Groups> {
        every_match(found)
    }

    open spec fn item(&self, groups: Groups) -> Option<LogItemView> {
        match text_of(groups, 2) {
            Some(context) => on_line(LogItemTypeView::TooManyEndingBraces(context), groups, 1),
            None => None,
        }
    }

    fn get_regex(&self) -> (compiled: Result<Pattern, ProcessError>) {
        let builder = PatternBuilder::new().error(r"Too many }'s\.").location_with_arg();
        proof {
            reveal_strlit(r"Too many }'s\.");
            reveal_strlit(r"l\.(\d+) (.+)");
            reveal_strlit(r"! Too many }'s\.\nl\.(\d+) (.+)");
            assert(builder@ =~= self.pattern());
        }
        builder.compile()
    }

    fn process(&self, captures: &Captures) -> (item: Option<LogItem>) {
        match (captures.get(2), captures.number(1)) {
            (Some(context), Some(line)) => Some(
                LogItem::new(
                    LogItemType::TooManyEndingBraces(context.clone()),
                    Location::Line(line),
                ),
            ),
            _ => None,
        }
    }

    fn captures(&self, pattern: &Pattern, log: &str) -> (found: Vec<Captures>) {
        all_captures(pattern, log)
    }
}

impl Rule for NotInMathMode {
    open spec fn pattern(&self) -> Seq<char> {
        r"! Missing \$ inserted\.\n<inserted text> \n.+\$\nl\.(\d+) (.+)"@
    }

    /// TeX reports the event twice in a row, and only the first report names
    /// the offending text: every second match is passed over.
    open spec fn picked(&self, found: Seq<Groups>) -> Seq<Groups> {
        every_second_match(found)
    }

    open spec fn item(&self, groups: Groups) -> Option<LogItemView> {
        match text_of(groups, 2) {
            Some(input) => on_line(LogItemTypeView::NotInMathMode(input), groups, 1),
            None => None,
        }
    }

    fn get_regex(&self) -> (compiled: Result<Pattern, ProcessError>) {
        let builder = PatternBuilder::new().error(r"Missing \$ inserted\.").line(
            "<inserted text> ",
        ).line(r".+\$").location_with_arg();
        proof {
            reveal_strlit(r"Missing \$ inserted\.");
            reveal_strlit("<inserted text> ");
            reveal_strlit(r".+\$");
            reveal_strlit(r"l\.(\d+) (.+)");
            reveal_strlit(r"! Missing \$ inserted\.\n<inserted text> \n.+\$\nl\.(\d+) (.+)");
            assert(builder@ =~= self.pattern());
        }
        builder.compile()
    }

    fn process(&self, captures: &Captures) -> (item: Option<LogItem>) {
        match (captures.get(2), captures.number(1)) {
            (Some(input), Some(line)) => Some(
                LogItem::new(LogItemType::NotInMathMode(input.clone()), Location::Line(line)),
            ),
            _ => None,
        }
    }

    fn captures(&self, pattern: &Pattern, log: &str) -> (found: Vec<Captures>) {
        every_second(all_captures(pattern, log))
    }
}

impl Rule for RunawayArgument {
    open spec fn pattern(&self) -> Seq<char> {
        r"Runaway argument\?\n.*\n! Paragraph ended before (\S+) was complete\.\n.*\n.*\nl\.(\d+) "@
    }

    open spec fn picked(&self, found: Seq<Groups>) -> Seq<Groups> {
        every_match(found)
    }

    /// TeX names the line after the paragraph break, so the diagnostic is
    /// placed one line earlier; a report that names line 0 stands for
    /// nothing.
    open spec fn item(&self, groups: Groups) -> Option<LogItemView> {
        match (text_of(groups, 1), number_of(groups, 2)) {
            (Some(command), Some(line)) if line > 0 => Some(
                LogItemView {
                    item_type: LogItemTypeView::RunawayArgument(command),
                    location: Location::Line((line - 1) as usize),
                },
            ),
            _ => None,
        }
    }

    fn get_regex(&self) -> (compiled: Result<Pattern, ProcessError>) {
        let builder = PatternBuilder::new().line(r"Runaway argument\?").any_on_line().error(
            r"Paragraph ended before (\S+) was complete\.",
        ).any_on_line().any_on_line().location();
        proof {
            reveal_strlit(r"Runaway argument\?");
            reveal_strlit(r"Paragraph ended before (\S+) was complete\.");
            reveal_strlit(r"l\.(\d+) ");
            reveal_strlit(
                r"Runaway argument\?\n.*\n! Paragraph ended before (\S+) was complete\.\n.*\n.*\nl\.(\d+) ",
            );
            assert(builder@ =~= self.pattern());
        }
        builder.compile()
    }

    fn process(&self, captures: &Captures) -> (item: Option<LogItem>) {
        match (captures.get(1), captures.number(2)) {
            (Some(command), Some(line)) => {
                if line > 0 {
                    Some(
                        LogItem::new(
                            LogItemType::RunawayArgument(command.clone()),
                            Location::Line(line - 1),
                        ),
                    )
                } else {
                    None
                }
            },
            _ => None,
        }
    }

    fn captures(&self, pattern: &Pattern, log: &str) -> (found: Vec<Captures>) {
        all_captures(pattern, log)
    }
}

impl Rule for RunawayArgument2 {
    open spec fn pattern(&self) -> Seq<char> {
        r"Runaway argument\?\n.*\n! File ended while scanning use of (\S+)\.\n"@
    }

    open spec fn picked(&self, found: Seq<Groups>) -> Seq<Groups> {
        every_match(found)
    }

    open spec fn item(&self, groups: Groups) -> Option<LogItemView> {
        match text_of(groups, 1) {
            Some(command) => Some(
                LogItemView {
                    item_type: LogItemTypeView::RunawayArgument(command),
                    location: Location::End,
                },
            ),
            None => None,
        }
    }

    fn get_regex(&self) -> (compiled: Result<Pattern, ProcessError>) {
        let builder = PatternBuilder::new().line(r"Runaway argument\?").any_on_line().error(
            r"File ended while scanning use of (\S+)\.",
        );
        proof {
            reveal_strlit(r"Runaway argument\?");
            reveal_strlit(r"File ended while scanning use of (\S+)\.");
            reveal_strlit(
                r"Runaway argument\?\n.*\n! File ended while scanning use of (\S+)\.\n",
            );
            assert(builder@ =~= self.pattern());
        }
        builder.compile()
    }

    fn process(&self, captures: &Captures) -> (item: Option<LogItem>) {
        match captures.get(1) {
            Some(command) => Some(
                LogItem::new(LogItemType::RunawayArgument(command.clone()), Location::End),
            ),
            None => None,
        }
    }

    fn captures(&self, pattern: &Pattern, log: &str) -> (found: Vec<Captures>) {
        all_captures(pattern, log)
    }
}

impl Rule for UnderfullHBox {
    open spec fn pattern(&self) -> Seq<char> {
        r"Underfull \\hbox \(badness (\d+)\) in paragraph at lines (\d+)--\d+\n(.*)\n"@
    }

    open spec fn picked(&self, found: Seq<Groups>) -> Seq<Groups> {
        every_match(found)
    }

    open spec fn item(&self, groups: Groups) -> Option<LogItemView> {
        match (text_of(groups, 3), number_of(groups, 1)) {
            (Some(content), Some(badness)) => on_line(
                LogItemTypeView::UnderfullHBox(content, badness),
                groups,
                2,
            ),
            _ => None,
        }
    }

    fn get_regex(&self) -> (compiled: Result<Pattern, ProcessError>) {
        let builder = PatternBuilder::new().line(
            r"Underfull \\hbox \(badness (\d+)\) in paragraph at lines (\d+)--\d+",
        ).line(r"(.*)");
        proof {
            reveal_strlit(r"Underfull \\hbox \(badness (\d+)\) in paragraph at lines (\d+)--\d+");
            reveal_strlit(r"(.*)");
            reveal_strlit(
                r"Underfull \\hbox \(badness (\d+)\) in paragraph at lines (\d+)--\d+\n(.*)\n",
            );
            assert(builder@ =~= self.pattern());
        }
        builder.compile()
    }

    fn process(&self, captures: &Captures) -> (item: Option<LogItem>) {
        match (captures.get(3), captures.number(1), captures.number(2)) {
            (Some(content), Some(badness), Some(line)) => Some(
                LogItem::new(
                    LogItemType::UnderfullHBox(content.clone(), badness),
                    Location::Line(line),
                ),
            ),
            _ => None,
        }
    }

    fn captures(&self, pattern: &Pattern, log: &str) -> (found: Vec<Captures>) {
        all_captures(pattern, log)
    }
}

impl Rule for OverfullHBox {
    open spec fn pattern(&self) -> Seq<char> {
        r"Overfull \\hbox \([^)]+\) in paragraph at lines (\d+)--\d+\n\S+ ((?:.|\s)+)\[\]"@
    }

    open spec fn picked(&self, found: Seq<Groups>) -> Seq<Groups> {
        every_match(found)
    }

    open spec fn item(&self, groups: Groups) -> Option<LogItemView> {
        match text_of(groups, 2) {
            Some(content) => on_line(LogItemTypeView::OverfullHBox(content), groups, 1),
            None => None,
        }
    }

    fn get_regex(&self) -> (compiled: Result<Pattern, ProcessError>) {
        let builder = PatternBuilder::new().line(
            r"Overfull \\hbox \([^)]+\) in paragraph at lines (\d+)--\d+",
        ).raw(r"\S+ ((?:.|\s)+)\[\]");
        proof {
            reveal_strlit(r"Overfull \\hbox \([^)]+\) in paragraph at lines (\d+)--\d+");
            reveal_strlit(r"\S+ ((?:.|\s)+)\[\]");
            reveal_strlit(
                r"Overfull \\hbox \([^)]+\) in paragraph at lines (\d+)--\d+\n\S+ ((?:.|\s)+)\[\]",
            );
            assert(builder@ =~= self.pattern());
        }
        builder.compile()
    }

    fn process(&self, captures: &Captures) -> (item: Option<LogItem>) {
        match (captures.get(2), captures.number(1)) {
            (Some(content), Some(line)) => Some(
                LogItem::new(LogItemType::OverfullHBox(content.clone()), Location::Line(line)),
            ),
            _ => None,
        }
    }

    fn captures(&self, pattern: &Pattern, log: &str) -> (found: Vec<Captures>) {
        all_captures(pattern, log)
    }
}

impl Rule for MissingPackage {
    open spec fn pattern(&self) -> Seq<char> {
        r"! LaTeX Error: File `([^\.]+)\.sty' not found\.\n"@
    }

    open spec fn picked(&self, found: Seq<Groups>) -> Seq<Groups> {
        every_match(found)
    }

    open spec fn item(&self, groups: Groups) -> Option<LogItemView> {
        match text_of(groups, 1) {
            Some(package) => Some(
                LogItemView {
                    item_type: LogItemTypeView::MissingPackage(package),
                    location: Location::Unlocated,
                },
            ),
            None => None,
        }
    }

    fn get_regex(&self) -> (compiled: Result<Pattern, ProcessError>) {
        let builder = PatternBuilder::new().error(
            r"LaTeX Error: File `([^\.]+)\.sty' not found\.",
        );
        proof {
            reveal_strlit(r"LaTeX Error: File `([^\.]+)\.sty' not found\.");
            reveal_strlit(r"! LaTeX Error: File `([^\.]+)\.sty' not found\.\n");
            assert(builder@ =~= self.pattern());
        }
        builder.compile()
    }

    fn process(&self, captures: &Captures) -> (item: Option<LogItem>) {
        match captures.get(1) {
            Some(package) => Some(
                LogItem::new(LogItemType::MissingPackage(package.clone()), Location::Unlocated),
            ),
            None => None,
        }
    }

    fn captures(&self, pattern: &Pattern, log: &str) -> (found: Vec<Captures>) {
        all_captures(pattern, log)
    }
}

impl Rule for InvalidOption {
    open spec fn pattern(&self) -> Seq<char> {
        r"! LaTeX Error: Unknown option `([^']+)' for package `([^']+)'\.\n"@
    }

    open spec fn picked(&self, found: Seq<Groups>) -> Seq<Groups> {
        every_match(found)
    }

    open spec fn item(&self, groups: Groups) -> Option<LogItemView> {
        match (text_of(groups, 1), text_of(groups, 2)) {
            (Some(option), Some(package)) => Some(
                LogItemView {
                    item_type: LogItemTypeView::InvalidOption(option, package),
                    location: Location::Unlocated,
                },
            ),
            _ => None,
        }
    }

    fn get_regex(&self) -> (compiled: Result<Pattern, ProcessError>) {
        let builder = PatternBuilder::new().error(
            r"LaTeX Error: Unknown option `([^']+)' for package `([^']+)'\.",
        );
        proof {
            reveal_strlit(r"LaTeX Error: Unknown option `([^']+)' for package `([^']+)'\.");
            reveal_strlit(r"! LaTeX Error: Unknown option `([^']+)' for package `([^']+)'\.\n");
            assert(builder@ =~= self.pattern());
        }
        builder.compile()
    }

    fn process(&self, captures: &Captures) -> (item: Option<LogItem>) {
        match (captures.get(1), captures.get(2)) {
            (Some(option), Some(package)) => Some(
                LogItem::new(
                    LogItemType::InvalidOption(option.clone(), package.clone()),
                    Location::Unlocated,
                ),
            ),
            _ => None,
        }
    }

    fn captures(&self, pattern: &Pattern, log: &str) -> (found: Vec<Captures>) {
        all_captures(pattern, log)
    }
}

impl Rule for ExtraAlignmentToCR {
    open spec fn pattern(&self) -> Seq<char> {
        r"! Extra alignment tab has been changed to \\cr\.\n.*\n.*\nl\.(\d+) (.+)"@
    }

    open spec fn picked(&self, found: Seq<Groups>) -> Seq<Groups> {
        every_match(found)
    }

    /// The text near the surplus cell is kept without the white space around
    /// it.
    open spec fn item(&self, groups: Groups) -> Option<LogItemView> {
        match text_of(groups, 2) {
            Some(context) => on_line(
                LogItemTypeView::ExtraAlignmentToCR(trimmed(context)),
                groups,
                1,
            ),
            None => None,
        }
    }

    fn get_regex(&self) -> (compiled: Result<Pattern, ProcessError>) {
        let builder = PatternBuilder::new().error(
            r"Extra alignment tab has been changed to \\cr\.",
        ).any_on_line().any_on_line().location_with_arg();
        proof {
            reveal_strlit(r"Extra alignment tab has been changed to \\cr\.");
            reveal_strlit(r"l\.(\d+) (.+)");
            reveal_strlit(
                r"! Extra alignment tab has been changed to \\cr\.\n.*\n.*\nl\.(\d+) (.+)",
            );
            assert(builder@ =~= self.pattern());
        }
        builder.compile()
    }

    fn process(&self, captures: &Captures) -> (item: Option<LogItem>) {
        match (captures.get(2), captures.number(1)) {
            (Some(context), Some(line)) => Some(
                LogItem::new(
                    LogItemType::ExtraAlignmentToCR(trim(context.as_str())),
                    Location::Line(line),
                ),
            ),
            _ => None,
        }
    }

    fn captures(&self, pattern: &Pattern, log: &str) -> (found: Vec<Captures>) {
        all_captures(pattern, log)
    }
}

/// Keeps the matches at even positions.
pub fn every_second(found: Vec<Captures>) -> (kept: Vec<Captures>)
    ensures
        captures_view(kept@) == every_second_match(captures_view(found@)),
{
    let ghost all = captures_view(found@);
    let total = found.len();
    let mut kept: Vec<Captures> = Vec::new();
    let mut index: usize = 0;
    for captures in it: found
        invariant
            it.seq() == found@,
            total == found@.len(),
            index == it.index(),
            all == captures_view(found@),
            kept.len() == (index + 1) / 2,
            forall|k: int| 0 <= k < kept.len() ==> (#[trigger] kept@[k])@ == all[2 * k],
    {
        if index % 2 == 0 {
            kept.push(captures);
        }
        index += 1;
    }
    assert(captures_view(kept@) =~= every_second_match(all));
    kept
}

/// The rules by name, for a registry that holds them in one list.
#[derive(Clone, Copy, Debug, PartialEq, Eq, Structural)]
pub enum RuleKind {
    UndefinedControlSequence,
    TooManyEndingBraces,
    NotInMathMode,
    RunawayArgument,
    RunawayArgument2,
    UnderfullHBox,
    OverfullHBox,
    MissingPackage,
    InvalidOption,
    ExtraAlignmentToCR,
}

/// The registry: all ten rules in the order in which they are applied.
pub open spec fn registry() -> Seq<RuleKind> {
    seq![
        RuleKind::UndefinedControlSequence,
        RuleKind::TooManyEndingBraces,
        RuleKind::NotInMathMode,
        RuleKind::RunawayArgument,
        RuleKind::RunawayArgument2,
        RuleKind::UnderfullHBox,
        RuleKind::OverfullHBox,
        RuleKind::MissingPackage,
        RuleKind::InvalidOption,
        RuleKind::ExtraAlignmentToCR,
    ]
}

impl Rule for RuleKind {
    open spec fn pattern(&self) -> Seq<char> {
        match *self {
            RuleKind::UndefinedControlSequence => UndefinedControlSequence.pattern(),
            RuleKind::TooManyEndingBraces => TooManyEndingBraces.pattern(),
            RuleKind::NotInMathMode => NotInMathMode.pattern(),
            RuleKind::RunawayArgument => RunawayArgument.pattern(),
            RuleKind::RunawayArgument2 => RunawayArgument2.pattern(),
            RuleKind::UnderfullHBox => UnderfullHBox.pattern(),
            RuleKind::OverfullHBox => OverfullHBox.pattern(),
            RuleKind::MissingPackage => MissingPackage.pattern(),
            RuleKind::InvalidOption => InvalidOption.pattern(),
            RuleKind::ExtraAlignmentToCR => ExtraAlignmentToCR.pattern(),
        }
    }

    open spec fn picked(&self, found: Seq<Groups>) -> Seq<Groups> {
        match *self {
            RuleKind::UndefinedControlSequence => UndefinedControlSequence.picked(found),
            RuleKind::TooManyEndingBraces => TooManyEndingBraces.picked(found),
            RuleKind::NotInMathMode => NotInMathMode.picked(found),
            RuleKind::RunawayArgument => RunawayArgument.picked(found),
            RuleKind::RunawayArgument2 => RunawayArgument2.picked(found),
            RuleKind::UnderfullHBox => UnderfullHBox.picked(found),
            RuleKind::OverfullHBox => OverfullHBox.picked(found),
            RuleKind::MissingPackage => MissingPackage.picked(found),
            RuleKind::InvalidOption => InvalidOption.picked(found),
            RuleKind::ExtraAlignmentToCR => ExtraAlignmentToCR.picked(found),
        }
    }

    open spec fn item(&self, groups: Groups) -> Option<LogItemView> {
        match *self {
            RuleKind::UndefinedControlSequence => UndefinedControlSequence.item(groups),
            RuleKind::TooManyEndingBraces => TooManyEndingBraces.item(groups),
            RuleKind::NotInMathMode => NotInMathMode.item(groups),
            RuleKind::RunawayArgument => RunawayArgument.item(groups),
            RuleKind::RunawayArgument2 => RunawayArgument2.item(groups),
            RuleKind::UnderfullHBox => UnderfullHBox.item(groups),
            RuleKind::OverfullHBox => OverfullHBox.item(groups),
            RuleKind::MissingPackage => MissingPackage.item(groups),
            RuleKind::InvalidOption => InvalidOption.item(groups),
            RuleKind::ExtraAlignmentToCR => ExtraAlignmentToCR.item(groups),
        }
    }

    fn get_regex(&self) -> (compiled: Result<Pattern, ProcessError>) {
        match self {
            RuleKind::UndefinedControlSequence => UndefinedControlSequence.get_regex(),
            RuleKind::TooManyEndingBraces => TooManyEndingBraces.get_regex(),
            RuleKind::NotInMathMode => NotInMathMode.get_regex(),
            RuleKind::RunawayArgument => RunawayArgument.get_regex(),
            RuleKind::RunawayArgument2 => RunawayArgument2.get_regex(),
            RuleKind::UnderfullHBox => UnderfullHBox.get_regex(),
            RuleKind::OverfullHBox => OverfullHBox.get_regex(),
            RuleKind::MissingPackage => MissingPackage.get_regex(),
            RuleKind::InvalidOption => InvalidOption.get_regex(),
            RuleKind::ExtraAlignmentToCR => ExtraAlignmentToCR.get_regex(),
        }
    }

    fn process(&self, captures: &Captures) -> (item: Option<LogItem>) {
        match self {
            RuleKind::UndefinedControlSequence => UndefinedControlSequence.process(captures),
            RuleKind::TooManyEndingBraces => TooManyEndingBraces.process(captures),
            RuleKind::NotInMathMode => NotInMathMode.process(captures),
            RuleKind::RunawayArgument => RunawayArgument.process(captures),
            RuleKind::RunawayArgument2 => RunawayArgument2.process(captures),
            RuleKind::UnderfullHBox => UnderfullHBox.process(captures),
            RuleKind::OverfullHBox => OverfullHBox.process(captures),
            RuleKind::MissingPackage => MissingPackage.process(captures),
            RuleKind::InvalidOption => InvalidOption.process(captures),
            RuleKind::ExtraAlignmentToCR => ExtraAlignmentToCR.process(captures),
        }
    }

    fn captures(&self, pattern: &Pattern, log: &str) -> (found: Vec<Captures>) {
        match self {
            RuleKind::UndefinedControlSequence => UndefinedControlSequence.captures(pattern, log),
            RuleKind::TooManyEndingBraces => TooManyEndingBraces.captures(pattern, log),
            RuleKind::NotInMathMode => NotInMathMode.captures(pattern, log),
            RuleKind::RunawayArgument => RunawayArgument.captures(pattern, log),
            RuleKind::RunawayArgument2 => RunawayArgument2.captures(pattern, log),
            RuleKind::UnderfullHBox => UnderfullHBox.captures(pattern, log),
            RuleKind::OverfullHBox => OverfullHBox.captures(pattern, log),
            RuleKind::MissingPackage => MissingPackage.captures(pattern, log),
            RuleKind::InvalidOption => InvalidOption.captures(pattern, log),
            RuleKind::ExtraAlignmentToCR => ExtraAlignmentToCR.captures(pattern, log),
        }
    }
}

} // verus!
