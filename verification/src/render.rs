//! The sentence that tells a reader about a diagnostic, as a row of pieces of
//! text, each with the style in which it is meant to be shown.

use crate::rules::{level_of, Location, LogItem, LogItemType, LogItemTypeLevel, LogItemTypeView};
use crate::rules::LogItemView;
use crate::text::{decimal_digits, decimal_string, remove_all, trim, trimmed, without};
use vstd::prelude::*;
use vstd::string::*;

verus! {

/// How a piece of a sentence is meant to be shown.
#[derive(Clone, Copy, Debug, PartialEq, Eq, Structural)]
pub enum Style {
    /// As it is.
    Plain,
    /// In red: the word for an error.
    Red,
    /// In yellow: the word for a warning.
    Yellow,
    /// In cyan: the name of a command, a package or an option.
    Cyan,
    /// In bold white: text quoted from the source, and line numbers.
    WhiteBold,
    /// In italic white: the words that say where.
    WhiteItalic,
}

/// A piece of a sentence.
#[derive(Clone, Debug, PartialEq, Eq)]
pub struct Segment {
    pub style: Style,
    pub text: String,
}

/// The mathematical value of a `Segment`.
pub struct SegmentView {
    pub style: Style,
    pub text: Seq<char>,
}

impl View for Segment {
    type V = SegmentView;

    open spec fn view(&self) -> SegmentView {
        SegmentView { style: self.style, text: self.text@ }
    }
}

/// The values of a row of segments.
pub open spec fn segments_view(segments: Seq<Segment>) -> Seq<SegmentView> {
    segments.map_values(|s: Segment| s@)
}

/// A piece shown as it is.
pub open spec fn plain(text: Seq<char>) -> SegmentView {
    SegmentView { style: Style::Plain, text }
}

/// A piece in the given style.
pub open spec fn styled(style: Style, text: Seq<char>) -> SegmentView {
    SegmentView { style, text }
}

/// The word for a severity, in its colour.
pub open spec fn level_segment(level: LogItemTypeLevel) -> SegmentView {
    match level {
        LogItemTypeLevel::Error => styled(Style::Red, "Error"@),
        LogItemTypeLevel::Warning => styled(Style::Yellow, "Warning"@),
    }
}

/// The words that say where a diagnostic applies; nothing for a diagnostic
/// without a place.
pub open spec fn place_segments(location: Location) -> Seq<SegmentView> {
    match location {
        Location::Line(line) => seq![
            plain(" "@),
            styled(Style::WhiteItalic, "on line"@),
            plain(" "@),
            styled(Style::WhiteBold, decimal_digits(line as nat)),
        ],
        Location::End => seq![plain(" "@), styled(Style::WhiteItalic, "at the end"@)],
        Location::Unlocated => Seq::<SegmentView>::empty(),
    }
}

/// How bad a line is that could not be stretched, by its badness.
pub open spec fn verdict(badness: usize) -> Seq<char> {
    if badness < 2000 {
        "ignorable"@
    } else if badness < 6000 {
        "not as bad"@
    } else {
        "very bad"@
    }
}

/// The hyphenated text of a line that is too wide, as it is quoted: on one
/// line and without the white space around it.
pub open spec fn quoted_overflow(content: Seq<char>) -> Seq<char> {
    trimmed(without(content, seq!['\n']))
}

/// The sentence about a kind of diagnostic.
pub open spec fn sentence_segments(kind: LogItemTypeView) -> Seq<SegmentView> {
    match kind {
        LogItemTypeView::UndefinedControlSequence(command) => seq![
            plain("Unknown command "@),
            styled(Style::Cyan, command),
            plain("."@),
        ],
        LogItemTypeView::TooManyEndingBraces(context) => seq![
            plain("Number of curly braces near "@),
            styled(Style::WhiteBold, context),
            plain(" does not match."@),
        ],
        LogItemTypeView::NotInMathMode(input) => seq![
            plain("String "@),
            styled(Style::WhiteBold, input),
            plain(" is valid only in math mode."@),
        ],
        LogItemTypeView::RunawayArgument(command) => seq![
            plain("Command "@),
            styled(Style::Cyan, command),
            plain(" was not properly ended with curly brace."@),
        ],
        LogItemTypeView::UnderfullHBox(content, badness) => if content.len() == 0 {
            seq![
                plain("Line cannot be stretch enough. The problem is "@),
                plain(verdict(badness)),
                plain("."@),
            ]
        } else {
            seq![
                plain("Due to "@),
                plain(content),
                plain(" the line cannot be stretch enough. The problem is "@),
                plain(verdict(badness)),
                plain("."@),
            ]
        },
        LogItemTypeView::OverfullHBox(content) => seq![
            plain("Text after "@),
            styled(Style::WhiteBold, quoted_overflow(content)),
            plain(" (displayed hyphenated) overflows the line end."@),
        ],
        LogItemTypeView::MissingPackage(package) => seq![
            plain("Missing package "@),
            styled(Style::Cyan, package),
            plain("."@),
        ],
        LogItemTypeView::InvalidOption(option, package) => seq![
            plain("Invalid option "@),
            styled(Style::Cyan, option),
            plain(" of package "@),
            styled(Style::WhiteBold, package),
            plain("."@),
        ],
        LogItemTypeView::ExtraAlignmentToCR(context) => seq![
            plain(
                "There are more &'s than should be in an aligned environment (table, etc.) near "@,
            ),
            styled(Style::WhiteBold, context),
            plain("."@),
        ],
    }
}

/// The whole line about a diagnostic: its severity, where it applies, a
/// colon, and the sentence about it.
pub open spec fn item_segments(item: LogItemView) -> Seq<SegmentView> {
    seq![level_segment(level_of(item.item_type))] + place_segments(item.location) + seq![
        plain(": "@),
    ] + sentence_segments(item.item_type)
}

/// The text of a row of segments, without regard to style.
pub open spec fn plain_text(segments: Seq<SegmentView>) -> Seq<char>
    decreases segments.len(),
{
    if segments.len() == 0 {
        Seq::<char>::empty()
    } else {
        plain_text(segments.drop_last()) + segments.last().text
    }
}

impl Segment {
    /// A piece of text in a style.
    pub fn new(style: Style, text: &str) -> (segment: Self)
        ensures
            segment@ == styled(style, text@),
    {
        Segment { style, text: String::from_str(text) }
    }

    /// A piece of text shown as it is.
    pub fn plain(text: &str) -> (segment: Self)
        ensures
            segment@ == plain(text@),
    {
        Segment::new(Style::Plain, text)
    }
}

impl LogItemTypeLevel {
    /// The word for this severity, in its colour.
    pub fn segment(&self) -> (segment: Segment)
        ensures
            segment@ == level_segment(*self),
    {
        match self {
            LogItemTypeLevel::Error => Segment::new(Style::Red, "Error"),
            LogItemTypeLevel::Warning => Segment::new(Style::Yellow, "Warning"),
        }
    }
}

impl Location {
    /// The words that say where a diagnostic applies.
    pub fn segments(&self) -> (segments: Vec<Segment>)
        ensures
            segments_view(segments@) == place_segments(*self),
    {
        let mut segments: Vec<Segment> = Vec::new();
        match self {
            Location::Line(line) => {
                segments.push(Segment::plain(" "));
                segments.push(Segment::new(Style::WhiteItalic, "on line"));
                segments.push(Segment::plain(" "));
                segments.push(Segment::new(Style::WhiteBold, decimal_string(*line).as_str()));
            },
            Location::End => {
                segments.push(Segment::plain(" "));
                segments.push(Segment::new(Style::WhiteItalic, "at the end"));
            },
            Location::Unlocated => {},
        }
        assert(segments_view(segments@) =~= place_segments(*self));
        segments
    }
}

/// The word for how bad a line is that could not be stretched.
pub fn verdict_word(badness: usize) -> (word: &'static str)
    ensures
        word@ == verdict(badness),
{
    if badness < 2000 {
        "ignorable"
    } else if badness < 6000 {
        "not as bad"
    } else {
        "very bad"
    }
}

impl LogItemType {
    /// The sentence about this kind of diagnostic.
    pub fn segments(&self) -> (segments: Vec<Segment>)
        ensures
            segments_view(segments@) == sentence_segments(self@),
    {
        let mut segments: Vec<Segment> = Vec::new();
        match self {
            LogItemType::UndefinedControlSequence(command) => {
                segments.push(Segment::plain("Unknown command "));
                segments.push(Segment::new(Style::Cyan, command.as_str()));
                segments.push(Segment::plain("."));
            },
            LogItemType::TooManyEndingBraces(context) => {
                segments.push(Segment::plain("Number of curly braces near "));
                segments.push(Segment::new(Style::WhiteBold, context.as_str()));
                segments.push(Segment::plain(" does not match."));
            },
            LogItemType::NotInMathMode(input) => {
                segments.push(Segment::plain("String "));
                segments.push(Segment::new(Style::WhiteBold, input.as_str()));
                segments.push(Segment::plain(" is valid only in math mode."));
            },
            LogItemType::RunawayArgument(command) => {
                segments.push(Segment::plain("Command "));
                segments.push(Segment::new(Style::Cyan, command.as_str()));
                segments.push(Segment::plain(" was not properly ended with curly brace."));
            },
            LogItemType::UnderfullHBox(content, badness) => {
                if content.as_str().is_empty() {
                    segments.push(
                        Segment::plain("Line cannot be stretch enough. The problem is "),
                    );
                } else {
                    segments.push(Segment::plain("Due to "));
                    segments.push(Segment::plain(content.as_str()));
                    segments.push(
                        Segment::plain(" the line cannot be stretch enough. The problem is "),
                    );
                }
                segments.push(Segment::plain(verdict_word(*badness)));
                segments.push(Segment::plain("."));
            },
            LogItemType::OverfullHBox(content) => {
                let newline = "\n";
                proof {
                    reveal_strlit("\n");
                }
                assert(newline@ =~= seq!['\n']);
                let quoted = trim(remove_all(content.as_str(), newline).as_str());
                segments.push(Segment::plain("Text after "));
                segments.push(Segment::new(Style::WhiteBold, quoted.as_str()));
                segments.push(Segment::plain(" (displayed hyphenated) overflows the line end."));
            },
            LogItemType::MissingPackage(package) => {
                segments.push(Segment::plain("Missing package "));
                segments.push(Segment::new(Style::Cyan, package.as_str()));
                segments.push(Segment::plain("."));
            },
            LogItemType::InvalidOption(option, package) => {
                segments.push(Segment::plain("Invalid option "));
                segments.push(Segment::new(Style::Cyan, option.as_str()));
                segments.push(Segment::plain(" of package "));
                segments.push(Segment::new(Style::WhiteBold, package.as_str()));
                segments.push(Segment::plain("."));
            },
            LogItemType::ExtraAlignmentToCR(context) => {
                segments.push(
                    Segment::plain(
                        "There are more &'s than should be in an aligned environment (table, etc.) near ",
                    ),
                );
                segments.push(Segment::new(Style::WhiteBold, context.as_str()));
                segments.push(Segment::plain("."));
            },
        }
        assert(segments_view(segments@) =~= sentence_segments(self@));
        segments
    }
}

/// The text of a row of segments, without regard to style.
pub fn join_segments(segments: &Vec<Segment>) -> (text: String)
    ensures
        text@ == plain_text(segments_view(segments@)),
{
    let ghost all = segments_view(segments@);
    let mut text = String::new();
    let mut i: usize = 0;
    assert(all.take(0) =~= Seq::<SegmentView>::empty());
    while i < segments.len()
        invariant
            i <= segments.len(),
            all == segments_view(segments@),
            text@ == plain_text(all.take(i as int)),
        decreases segments.len() - i,
    {
        assert(all.take(i + 1).drop_last() =~= all.take(i as int));
        assert(all.take(i + 1).last() == segments@[i as int]@);
        text.append(segments[i].text.as_str());
        i += 1;
    }
    assert(all.take(i as int) =~= all);
    text
}

impl LogItem {
    /// The line about this diagnostic as styled pieces: the severity, where
    /// it applies, a colon, and the sentence.
    pub fn segments(&self) -> (segments: Vec<Segment>)
        ensures
            segments_view(segments@) == item_segments(self@),
    {
        let mut segments: Vec<Segment> = Vec::new();
        segments.push(self.item_type.get_level().segment());
        let ghost first = segments_view(segments@);
        let mut place = self.location.segments();
        segments.append(&mut place);
        let ghost second = segments_view(segments@);
        assert(second =~= first + place_segments(self.location));
        segments.push(Segment::plain(": "));
        let ghost third = segments_view(segments@);
        assert(third =~= second + seq![plain(": "@)]);
        let mut sentence = self.item_type.segments();
        segments.append(&mut sentence);
        assert(segments_view(segments@) =~= third + sentence_segments(self.item_type@));
        assert(first =~= seq![level_segment(level_of(self.item_type@))]);
        segments
    }

    /// The line about this diagnostic as plain text.
    pub fn message(&self) -> (text: String)
        ensures
            text@ == plain_text(item_segments(self@)),
    {
        join_segments(&self.segments())
    }
}

} // verus!
