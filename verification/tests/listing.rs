use texlog::extract::{is_log_file, process, FileReport};
use texlog::listing::{comes_before, heading_line, listing, sort_by_filename};
use texlog::render::{join_segments, Segment, Style};
use texlog::rules::{Location, LogItem, LogItemType};

fn file(filename: &str, items: Vec<LogItem>) -> FileReport {
    FileReport { filename: filename.to_string(), items }
}

fn package(name: &str, location: Location) -> LogItem {
    LogItem::new(LogItemType::MissingPackage(name.to_string()), location)
}

fn texts(lines: &[Vec<Segment>]) -> Vec<String> {
    lines.iter().map(|line| join_segments(&line.to_vec())).collect()
}

#[test]
fn names_that_end_in_the_extension_are_transcripts() {
    assert!(is_log_file("main.log"));
    assert!(is_log_file("dir/other.log"));
    assert!(is_log_file(".log"));
    assert!(!is_log_file("main.tex"));
    assert!(!is_log_file("main.log.bak"));
    assert!(!is_log_file("log"));
    assert!(!is_log_file(""));
}

#[test]
fn order_of_names() {
    assert!(comes_before("a", "b"));
    assert!(!comes_before("b", "a"));
    assert!(!comes_before("a", "a"));
    assert!(comes_before("", "a"));
    assert!(!comes_before("a", ""));
    assert!(!comes_before("", ""));
    assert!(comes_before("ab", "abc"));
    assert!(!comes_before("abc", "ab"));
    assert!(comes_before("Z", "a"));
    assert!(comes_before("a.tex", "b.tex"));
    assert!(comes_before("z", "é"));
    assert_eq!(comes_before("été", "z"), "été" < "z");
}

#[test]
fn reports_are_ordered_by_file_name() {
    let sorted = sort_by_filename(vec![
        file("main.tex", vec![]),
        file("chapter.tex", vec![package("p", Location::End)]),
        file("appendix/a.tex", vec![]),
        file("main.tex.tex", vec![]),
    ]);
    assert_eq!(
        sorted,
        vec![
            file("appendix/a.tex", vec![]),
            file("chapter.tex", vec![package("p", Location::End)]),
            file("main.tex", vec![]),
            file("main.tex.tex", vec![]),
        ]
    );
    assert!(sort_by_filename(Vec::new()).is_empty());
}

#[test]
fn heading_of_a_file() {
    assert_eq!(
        heading_line("main.tex"),
        vec![
            Segment { style: Style::Cyan, text: "File:".to_string() },
            Segment { style: Style::Plain, text: " ".to_string() },
            Segment { style: Style::Plain, text: "main.tex".to_string() },
        ]
    );
}

#[test]
fn lines_of_a_listing() {
    let reports = vec![
        file("a.tex", vec![package("x", Location::Unlocated), package("y", Location::Line(3))]),
        file("b.tex", vec![]),
        file("c.tex", vec![package("z", Location::End)]),
    ];
    assert_eq!(
        texts(&listing(&reports)),
        vec![
            "File: a.tex",
            "",
            "Error: Missing package x.",
            "Error on line 3: Missing package y.",
            "",
            "File: b.tex",
            "",
            "",
            "File: c.tex",
            "",
            "Error at the end: Missing package z.",
        ]
    );
}

#[test]
fn listing_of_one_file_has_no_empty_line_at_the_end() {
    let reports = vec![file("a.tex", vec![package("x", Location::Unlocated)])];
    assert_eq!(texts(&listing(&reports)), vec!["File: a.tex", "", "Error: Missing package x."]);
    assert!(listing(&Vec::new()).is_empty());
}

#[test]
fn listing_of_a_transcript() {
    let log = "(./main.tex\n(./part.tex\n! Undefined control sequence.\nl.2 \\inner x\n)\nOverfull \\hbox (3.0pt too wide) in paragraph at lines 8--9\n[]\\OT1/cmr Lorem ip-sum\n dolor []\n! LaTeX Error: File `missing.sty' not found.\n\n)\n";
    let reports = sort_by_filename(process(log).unwrap());
    assert_eq!(
        texts(&listing(&reports)),
        vec![
            "File: main.tex",
            "",
            "Error: Missing package missing.",
            "Warning on line 8: Text after Lorem ip-sum dolor (displayed hyphenated) overflows the line end.",
            "",
            "File: part.tex",
            "",
            "Error on line 2: Unknown command \\inner.",
        ]
    );
}
