use texlog::error::ProcessError;
use texlog::extract::{process, FileReport};
use texlog::rules::{Location, LogItem, LogItemType};

fn item(item_type: LogItemType, location: Location) -> LogItem {
    LogItem::new(item_type, location)
}

fn report_for<'a>(reports: &'a [FileReport], filename: &str) -> &'a FileReport {
    reports
        .iter()
        .find(|r| r.filename == filename)
        .unwrap_or_else(|| panic!("no report for {}", filename))
}

#[test]
fn undefined_command_is_attributed_to_its_file_and_line() {
    let log = "(./main.tex\n! Undefined control sequence.\nl.4 \\foo bar\n)\n";
    let reports = process(log).unwrap();
    assert_eq!(reports.len(), 1);
    assert_eq!(reports[0].filename, "main.tex");
    assert_eq!(
        reports[0].items,
        vec![item(
            LogItemType::UndefinedControlSequence("\\foo".to_string()),
            Location::Line(4)
        )]
    );
}

#[test]
fn undefined_command_with_context_lines() {
    let log = "(./main.tex\n! Undefined control sequence.\n<argument> \\bar \n                 x\nl.12 \\section{\\bar x}\n)\n";
    let reports = process(log).unwrap();
    assert_eq!(
        reports[0].items,
        vec![item(
            LogItemType::UndefinedControlSequence("\\bar".to_string()),
            Location::Line(12)
        )]
    );
}

#[test]
fn missing_package_is_listed_before_located_diagnostics() {
    let log = "(./main.tex\n! Undefined control sequence.\nl.4 \\foo bar\n\n! LaTeX Error: File `missing.sty' not found.\n\n)\n";
    let reports = process(log).unwrap();
    assert_eq!(reports.len(), 1);
    assert_eq!(
        reports[0].items,
        vec![
            item(LogItemType::MissingPackage("missing".to_string()), Location::Unlocated),
            item(
                LogItemType::UndefinedControlSequence("\\foo".to_string()),
                Location::Line(4)
            ),
        ]
    );
}

#[test]
fn transcript_without_source_block_fails() {
    assert_eq!(process("no block here"), Err(ProcessError::NoFileRegionFound));
    assert_eq!(
        process("(/usr/share/texmf/article.cls\nDocument Class)\n"),
        Err(ProcessError::NoFileRegionFound)
    );
    assert_eq!(process(""), Err(ProcessError::NoFileRegionFound));
}

#[test]
fn failure_of_one_transcript_leaves_the_next_untouched() {
    let logs = ["nothing to see", "(./ok.tex\n! Too many }'s.\nl.3 \\date x}\n)"];
    let outcomes: Vec<_> = logs.iter().map(|log| process(log)).collect();
    assert_eq!(outcomes[0], Err(ProcessError::NoFileRegionFound));
    let reports = outcomes[1].as_ref().unwrap();
    assert_eq!(reports.len(), 1);
    assert_eq!(reports[0].filename, "ok.tex");
    assert_eq!(
        reports[0].items,
        vec![item(
            LogItemType::TooManyEndingBraces("\\date x}".to_string()),
            Location::Line(3)
        )]
    );
}

#[test]
fn same_underfull_box_twice_is_reported_once() {
    let log = "(./main.tex\nUnderfull \\hbox (badness 500) in paragraph at lines 5--6\nsome text\n\nUnderfull \\hbox (badness 500) in paragraph at lines 5--6\nsome text\n)\n";
    let reports = process(log).unwrap();
    assert_eq!(
        reports[0].items,
        vec![item(
            LogItemType::UnderfullHBox("some text".to_string(), 500),
            Location::Line(5)
        )]
    );
}

#[test]
fn underfull_boxes_with_different_badness_stay_apart() {
    let log = "(./main.tex\nUnderfull \\hbox (badness 500) in paragraph at lines 5--6\nsome text\n\nUnderfull \\hbox (badness 9000) in paragraph at lines 5--6\nsome text\n)\n";
    let reports = process(log).unwrap();
    assert_eq!(
        reports[0].items,
        vec![
            item(LogItemType::UnderfullHBox("some text".to_string(), 500), Location::Line(5)),
            item(LogItemType::UnderfullHBox("some text".to_string(), 9000), Location::Line(5)),
        ]
    );
}

#[test]
fn repeated_runs_give_the_same_report() {
    let log = "(./main.tex\n! LaTeX Error: File `a.sty' not found.\n\n! Too many }'s.\nl.9 x}\n(./part.tex\n! Undefined control sequence.\nl.2 \\nope here\n)\n! Undefined control sequence.\nl.1 \\first\n)\n";
    let first = process(log);
    let second = process(log);
    assert!(first.is_ok());
    assert_eq!(first, second);
}

#[test]
fn no_finding_is_reported_twice_and_locations_rise() {
    let log = "(./main.tex\n! Undefined control sequence.\nl.7 \\b x\n! Undefined control sequence.\nl.3 \\a x\n! Undefined control sequence.\nl.7 \\b x\nRunaway argument?\n{April 2018 \\maketitle \\end {document}\n! File ended while scanning use of \\date.\n! LaTeX Error: Unknown option `invalid' for package `graphics'.\n)\n";
    let reports = process(log).unwrap();
    assert_eq!(
        reports[0].items,
        vec![
            item(
                LogItemType::InvalidOption("invalid".to_string(), "graphics".to_string()),
                Location::Unlocated
            ),
            item(LogItemType::UndefinedControlSequence("\\a".to_string()), Location::Line(3)),
            item(LogItemType::UndefinedControlSequence("\\b".to_string()), Location::Line(7)),
            item(LogItemType::RunawayArgument("\\date".to_string()), Location::End),
        ]
    );
}

#[test]
fn text_of_a_nested_file_is_not_attributed_to_the_file_around_it() {
    let log = "(./main.tex\n(./part.tex\n! Undefined control sequence.\nl.2 \\inner x\n)\n! Undefined control sequence.\nl.5 \\outer x\n)\n";
    let reports = process(log).unwrap();
    assert_eq!(reports.len(), 2);
    assert_eq!(reports[0].filename, "part.tex");
    assert_eq!(
        reports[0].items,
        vec![item(
            LogItemType::UndefinedControlSequence("\\inner".to_string()),
            Location::Line(2)
        )]
    );
    assert_eq!(reports[1].filename, "main.tex");
    assert_eq!(
        reports[1].items,
        vec![item(
            LogItemType::UndefinedControlSequence("\\outer".to_string()),
            Location::Line(5)
        )]
    );
}

#[test]
fn text_of_a_file_nested_twice_deep_stays_with_that_file() {
    let log = "(./main.tex\n(./chapter.tex\n! Undefined control sequence.\nl.1 \\chap x\n(./section.tex\n! Undefined control sequence.\nl.2 \\sect x\n)\n! Too many }'s.\nl.3 tail}\n)\n! Undefined control sequence.\nl.5 \\outer x\n)\n";
    let reports = process(log).unwrap();
    assert_eq!(reports.len(), 3);
    assert_eq!(
        report_for(&reports, "section.tex").items,
        vec![item(
            LogItemType::UndefinedControlSequence("\\sect".to_string()),
            Location::Line(2)
        )]
    );
    assert_eq!(
        report_for(&reports, "chapter.tex").items,
        vec![
            item(LogItemType::UndefinedControlSequence("\\chap".to_string()), Location::Line(1)),
            item(LogItemType::TooManyEndingBraces("tail}".to_string()), Location::Line(3)),
        ]
    );
    assert_eq!(
        report_for(&reports, "main.tex").items,
        vec![item(
            LogItemType::UndefinedControlSequence("\\outer".to_string()),
            Location::Line(5)
        )]
    );
}

#[test]
fn transcript_that_breaks_off_keeps_its_last_diagnostics() {
    let log = "(./main.tex\n! Undefined control sequence.\nl.4 \\foo bar\n! Emergency stop.\n";
    let reports = process(log).unwrap();
    assert_eq!(reports.len(), 1);
    assert_eq!(reports[0].filename, "main.tex");
    assert_eq!(
        reports[0].items,
        vec![item(
            LogItemType::UndefinedControlSequence("\\foo".to_string()),
            Location::Line(4)
        )]
    );
}

#[test]
fn diagnostics_behind_the_last_parenthesis_belong_to_the_main_file() {
    let log = "(./main.tex\nsome output\n)\n! LaTeX Error: File `late.sty' not found.\n\n";
    let reports = process(log).unwrap();
    assert_eq!(reports.len(), 1);
    assert_eq!(
        reports[0].items,
        vec![item(LogItemType::MissingPackage("late".to_string()), Location::Unlocated)]
    );
}

#[test]
fn findings_of_a_file_read_twice_are_gathered() {
    let log = "(./main.tex\n(./part.tex\n! Undefined control sequence.\nl.2 \\one x\n)\n(./part.tex\n! Undefined control sequence.\nl.1 \\two x\n)\n)\n";
    let reports = process(log).unwrap();
    assert_eq!(reports.len(), 2);
    assert_eq!(reports[0].filename, "part.tex");
    assert_eq!(
        reports[0].items,
        vec![
            item(LogItemType::UndefinedControlSequence("\\two".to_string()), Location::Line(1)),
            item(LogItemType::UndefinedControlSequence("\\one".to_string()), Location::Line(2)),
        ]
    );
    assert_eq!(reports[1].filename, "main.tex");
    assert!(reports[1].items.is_empty());
}

#[test]
fn closing_parenthesis_that_closes_nothing_is_passed_over() {
    let log = "stray ) first\n(./main.tex\n! Too many }'s.\nl.8 oops}\n)\n";
    let reports = process(log).unwrap();
    assert_eq!(reports.len(), 1);
    assert_eq!(
        reports[0].items,
        vec![item(LogItemType::TooManyEndingBraces("oops}".to_string()), Location::Line(8))]
    );
}

#[test]
fn transcript_with_letters_beyond_ascii() {
    let log = "(./été.tex\n! Undefined control sequence.\nl.4 \\résumé bar\n)\n";
    let reports = process(log).unwrap();
    assert_eq!(reports.len(), 1);
    assert_eq!(reports[0].filename, "été.tex");
    assert_eq!(
        reports[0].items,
        vec![item(
            LogItemType::UndefinedControlSequence("\\résumé".to_string()),
            Location::Line(4)
        )]
    );
}
