use texlog::matcher::Captures;
use texlog::rules::{
    every_second, ExtraAlignmentToCR, InvalidOption, Location, LogItem, LogItemType,
    LogItemTypeLevel, MissingPackage, NotInMathMode, OverfullHBox, Rule, RuleKind,
    RunawayArgument, RunawayArgument2, TooManyEndingBraces, UndefinedControlSequence,
    UnderfullHBox,
};

fn caps(groups: &[Option<&str>]) -> Captures {
    Captures { groups: groups.iter().map(|g| g.map(|s| s.to_string())).collect() }
}

fn found<R: Rule>(rule: &R, text: &str) -> Vec<Option<LogItem>> {
    let pattern = rule.get_regex().unwrap();
    rule.captures(&pattern, text).iter().map(|c| rule.process(c)).collect()
}

#[test]
fn registry_holds_the_ten_rules_in_order() {
    assert_eq!(
        LogItem::rules(),
        vec![
            RuleKind::UndefinedControlSequence,
            RuleKind::TooManyEndingBraces,
            RuleKind::NotInMathMode,
            RuleKind::RunawayArgument,
            RuleKind::RunawayArgument2,
            RuleKind::UnderfullHBox,
            RuleKind::OverfullHBox,
            RuleKind::MissingPackage,
            RuleKind::InvalidOption,
            RuleKind::ExtraAlignmentToCR,
        ]
    );
}

#[test]
fn patterns_of_the_rules() {
    assert_eq!(
        UndefinedControlSequence.get_regex().unwrap().as_str(),
        r"! Undefined control sequence\.\n(?:.+\n.+\n)?l\.(\d+) .*(\\[^{\s]+).*\n"
    );
    assert_eq!(
        TooManyEndingBraces.get_regex().unwrap().as_str(),
        r"! Too many }'s\.\nl\.(\d+) (.+)"
    );
    assert_eq!(
        NotInMathMode.get_regex().unwrap().as_str(),
        r"! Missing \$ inserted\.\n<inserted text> \n.+\$\nl\.(\d+) (.+)"
    );
    assert_eq!(
        RunawayArgument.get_regex().unwrap().as_str(),
        r"Runaway argument\?\n.*\n! Paragraph ended before (\S+) was complete\.\n.*\n.*\nl\.(\d+) "
    );
    assert_eq!(
        RunawayArgument2.get_regex().unwrap().as_str(),
        r"Runaway argument\?\n.*\n! File ended while scanning use of (\S+)\.\n"
    );
    assert_eq!(
        UnderfullHBox.get_regex().unwrap().as_str(),
        r"Underfull \\hbox \(badness (\d+)\) in paragraph at lines (\d+)--\d+\n(.*)\n"
    );
    assert_eq!(
        OverfullHBox.get_regex().unwrap().as_str(),
        r"Overfull \\hbox \([^)]+\) in paragraph at lines (\d+)--\d+\n\S+ ((?:.|\s)+)\[\]"
    );
    assert_eq!(
        MissingPackage.get_regex().unwrap().as_str(),
        r"! LaTeX Error: File `([^\.]+)\.sty' not found\.\n"
    );
    assert_eq!(
        InvalidOption.get_regex().unwrap().as_str(),
        r"! LaTeX Error: Unknown option `([^']+)' for package `([^']+)'\.\n"
    );
    assert_eq!(
        ExtraAlignmentToCR.get_regex().unwrap().as_str(),
        r"! Extra alignment tab has been changed to \\cr\.\n.*\n.*\nl\.(\d+) (.+)"
    );
}

#[test]
fn registry_entries_stand_for_their_rules() {
    for kind in LogItem::rules() {
        let own = match kind {
            RuleKind::UndefinedControlSequence => UndefinedControlSequence.get_regex(),
            RuleKind::TooManyEndingBraces => TooManyEndingBraces.get_regex(),
            RuleKind::NotInMathMode => NotInMathMode.get_regex(),
            RuleKind::RunawayArgument => RunawayArgument.get_regex(),
            RuleKind::RunawayArgument2 => RunawayArgument2.get_regex(),
            RuleKind::UnderfullHBox => UnderfullHBox.get_regex(),
            RuleKind::OverfullHBox => OverfullHBox.get_regex(),
            RuleKind::MissingPackage => MissingPackage.get_regex(),
            RuleKind::InvalidOption => InvalidOption.get_regex(),
            RuleKind::ExtraAlignmentToCR => ExtraAlignmentToCR.get_regex(),
        };
        assert_eq!(kind.get_regex().unwrap().as_str(), own.unwrap().as_str());
    }
}

#[test]
fn undefined_control_sequence_from_groups() {
    assert_eq!(
        UndefinedControlSequence.process(&caps(&[Some("whole"), Some("4"), Some("\\foo")])),
        Some(LogItem::new(
            LogItemType::UndefinedControlSequence("\\foo".to_string()),
            Location::Line(4)
        ))
    );
    assert_eq!(
        RuleKind::UndefinedControlSequence.process(&caps(&[
            Some("whole"),
            Some("4"),
            Some("\\foo")
        ])),
        Some(LogItem::new(
            LogItemType::UndefinedControlSequence("\\foo".to_string()),
            Location::Line(4)
        ))
    );
}

#[test]
fn match_without_the_groups_a_rule_reads_stands_for_nothing() {
    assert_eq!(UndefinedControlSequence.process(&caps(&[Some("whole"), Some("4")])), None);
    assert_eq!(UndefinedControlSequence.process(&caps(&[Some("whole"), Some("4"), None])), None);
    assert_eq!(TooManyEndingBraces.process(&caps(&[Some("whole")])), None);
    assert_eq!(MissingPackage.process(&caps(&[Some("whole"), None])), None);
    assert_eq!(InvalidOption.process(&caps(&[Some("whole"), Some("o")])), None);
    assert_eq!(RunawayArgument2.process(&caps(&[])), None);
}

#[test]
fn match_with_an_unreadable_number_stands_for_nothing() {
    assert_eq!(
        UndefinedControlSequence.process(&caps(&[Some("whole"), Some("x4"), Some("\\foo")])),
        None
    );
    assert_eq!(
        UndefinedControlSequence.process(&caps(&[Some("whole"), Some(""), Some("\\foo")])),
        None
    );
    assert_eq!(
        TooManyEndingBraces.process(&caps(&[
            Some("whole"),
            Some("99999999999999999999999999999999"),
            Some("x}")
        ])),
        None
    );
    assert_eq!(
        UnderfullHBox.process(&caps(&[Some("whole"), Some("١٢"), Some("5"), Some("")])),
        None
    );
}

#[test]
fn too_many_ending_braces_in_text() {
    assert_eq!(
        found(&TooManyEndingBraces, "! Too many }'s.\nl.4 \\date April 2018}\n"),
        vec![Some(LogItem::new(
            LogItemType::TooManyEndingBraces("\\date April 2018}".to_string()),
            Location::Line(4)
        ))]
    );
}

#[test]
fn not_in_math_mode_takes_every_second_match() {
    let text = "! Missing $ inserted.\n<inserted text> \n                $\nl.4 _\n\n! Missing $ inserted.\n<inserted text> \n                $\nl.5 \\end{document}\n";
    let pattern = NotInMathMode.get_regex().unwrap();
    assert_eq!(MissingPackage.captures(&pattern, text).len(), 2);
    assert_eq!(
        found(&NotInMathMode, text),
        vec![Some(LogItem::new(LogItemType::NotInMathMode("_".to_string()), Location::Line(4)))]
    );
    assert_eq!(
        found(&RuleKind::NotInMathMode, text),
        vec![Some(LogItem::new(LogItemType::NotInMathMode("_".to_string()), Location::Line(4)))]
    );
}

#[test]
fn every_second_keeps_even_positions() {
    let all = vec![caps(&[Some("a")]), caps(&[Some("b")]), caps(&[Some("c")])];
    let kept = every_second(all);
    assert_eq!(kept.len(), 2);
    assert_eq!(kept[0].groups, vec![Some("a".to_string())]);
    assert_eq!(kept[1].groups, vec![Some("c".to_string())]);
    assert!(every_second(Vec::new()).is_empty());
    let two = every_second(vec![caps(&[Some("a")]), caps(&[Some("b")])]);
    assert_eq!(two.len(), 1);
    assert_eq!(two[0].groups, vec![Some("a".to_string())]);
}

#[test]
fn runaway_argument_is_placed_one_line_earlier() {
    let text = "Runaway argument?\n{April 2018 \\maketitle \n! Paragraph ended before \\date was complete.\n<to be read again> \n                   \\par \nl.5 \n";
    assert_eq!(
        found(&RunawayArgument, text),
        vec![Some(LogItem::new(
            LogItemType::RunawayArgument("\\date".to_string()),
            Location::Line(4)
        ))]
    );
    assert_eq!(
        RunawayArgument.process(&caps(&[Some("whole"), Some("\\date"), Some("1")])),
        Some(LogItem::new(LogItemType::RunawayArgument("\\date".to_string()), Location::Line(0)))
    );
    assert_eq!(RunawayArgument.process(&caps(&[Some("whole"), Some("\\date"), Some("0")])), None);
}

#[test]
fn runaway_argument_at_the_end_of_the_file() {
    let text = "Runaway argument?\n{April 2018 \\maketitle \\end {document}\n! File ended while scanning use of \\date.\n<inserted text> \n";
    assert_eq!(
        found(&RunawayArgument2, text),
        vec![Some(LogItem::new(LogItemType::RunawayArgument("\\date".to_string()), Location::End))]
    );
}

#[test]
fn underfull_box_in_text() {
    let text = "Underfull \\hbox (badness 10000) in paragraph at lines 5--6\n\n []\n";
    assert_eq!(
        found(&UnderfullHBox, text),
        vec![Some(LogItem::new(
            LogItemType::UnderfullHBox(String::new(), 10000),
            Location::Line(5)
        ))]
    );
}

#[test]
fn overfull_box_in_text() {
    let text = "Overfull \\hbox (35.0259pt too wide) in paragraph at lines 5--6\n[]\\OT1/cmr/m/n/10 Lorem ip-sum do-lor sit amet, con-secte-tur adip-isc-ing elit\n. Sed in $[]$\n []\n";
    assert_eq!(
        found(&OverfullHBox, text),
        vec![Some(LogItem::new(
            LogItemType::OverfullHBox(
                "Lorem ip-sum do-lor sit amet, con-secte-tur adip-isc-ing elit\n. Sed in $[]$\n "
                    .to_string()
            ),
            Location::Line(5)
        ))]
    );
}

#[test]
fn missing_package_in_text() {
    assert_eq!(
        found(&MissingPackage, "! LaTeX Error: File `missing.sty' not found.\n"),
        vec![Some(LogItem::new(
            LogItemType::MissingPackage("missing".to_string()),
            Location::Unlocated
        ))]
    );
}

#[test]
fn invalid_option_in_text() {
    assert_eq!(
        found(
            &InvalidOption,
            "! LaTeX Error: Unknown option `invalid' for package `graphics'.\n"
        ),
        vec![Some(LogItem::new(
            LogItemType::InvalidOption("invalid".to_string(), "graphics".to_string()),
            Location::Unlocated
        ))]
    );
}

#[test]
fn extra_alignment_tab_is_quoted_without_white_space_around() {
    let text = "! Extra alignment tab has been changed to \\cr.\n<recently read> \\endtemplate \n\nl.7     Foo &\n               Bar \\\\\n";
    assert_eq!(
        found(&ExtraAlignmentToCR, text),
        vec![Some(LogItem::new(
            LogItemType::ExtraAlignmentToCR("Foo &".to_string()),
            Location::Line(7)
        ))]
    );
    assert_eq!(
        ExtraAlignmentToCR.process(&caps(&[Some("whole"), Some("7"), Some("  \t Foo &  ")])),
        Some(LogItem::new(
            LogItemType::ExtraAlignmentToCR("Foo &".to_string()),
            Location::Line(7)
        ))
    );
}

#[test]
fn rule_finds_every_occurrence_from_left_to_right() {
    let text = "! LaTeX Error: File `a.sty' not found.\nnoise\n! LaTeX Error: File `b.sty' not found.\n";
    assert_eq!(
        found(&MissingPackage, text),
        vec![
            Some(LogItem::new(LogItemType::MissingPackage("a".to_string()), Location::Unlocated)),
            Some(LogItem::new(LogItemType::MissingPackage("b".to_string()), Location::Unlocated)),
        ]
    );
    assert!(found(&MissingPackage, "nothing of the kind").is_empty());
}

#[test]
fn severity_of_each_kind() {
    let s = || "x".to_string();
    assert_eq!(LogItemType::UndefinedControlSequence(s()).get_level(), LogItemTypeLevel::Error);
    assert_eq!(LogItemType::TooManyEndingBraces(s()).get_level(), LogItemTypeLevel::Error);
    assert_eq!(LogItemType::NotInMathMode(s()).get_level(), LogItemTypeLevel::Error);
    assert_eq!(LogItemType::RunawayArgument(s()).get_level(), LogItemTypeLevel::Error);
    assert_eq!(LogItemType::UnderfullHBox(s(), 1).get_level(), LogItemTypeLevel::Warning);
    assert_eq!(LogItemType::OverfullHBox(s()).get_level(), LogItemTypeLevel::Warning);
    assert_eq!(LogItemType::MissingPackage(s()).get_level(), LogItemTypeLevel::Error);
    assert_eq!(LogItemType::InvalidOption(s(), s()).get_level(), LogItemTypeLevel::Error);
    assert_eq!(LogItemType::ExtraAlignmentToCR(s()).get_level(), LogItemTypeLevel::Error);
}

#[test]
fn new_item_holds_what_it_was_given() {
    let item = LogItem::new(LogItemType::MissingPackage("p".to_string()), Location::End);
    assert_eq!(item.item_type, LogItemType::MissingPackage("p".to_string()));
    assert_eq!(item.location, Location::End);
}

#[test]
fn items_are_equal_when_kind_and_location_agree() {
    let a = LogItem::new(LogItemType::UnderfullHBox("t".to_string(), 5), Location::Line(1));
    let b = LogItem::new(LogItemType::UnderfullHBox("t".to_string(), 5), Location::Line(1));
    assert_eq!(a, b);
    assert_ne!(
        a,
        LogItem::new(LogItemType::UnderfullHBox("t".to_string(), 6), Location::Line(1))
    );
    assert_ne!(
        a,
        LogItem::new(LogItemType::UnderfullHBox("t".to_string(), 5), Location::Line(2))
    );
    assert_ne!(
        a,
        LogItem::new(LogItemType::UnderfullHBox("u".to_string(), 5), Location::Line(1))
    );
    assert_ne!(a, LogItem::new(LogItemType::OverfullHBox("t".to_string()), Location::Line(1)));
    assert_ne!(
        LogItemType::InvalidOption("a".to_string(), "b".to_string()),
        LogItemType::InvalidOption("a".to_string(), "c".to_string())
    );
}

#[test]
fn order_of_locations() {
    assert!(Location::Line(0).comes_after(&Location::Unlocated));
    assert!(Location::Line(2).comes_after(&Location::Line(1)));
    assert!(!Location::Line(1).comes_after(&Location::Line(1)));
    assert!(!Location::Line(1).comes_after(&Location::Line(2)));
    assert!(Location::End.comes_after(&Location::Line(usize::MAX)));
    assert!(Location::End.comes_after(&Location::Unlocated));
    assert!(!Location::End.comes_after(&Location::End));
    assert!(!Location::Unlocated.comes_after(&Location::Unlocated));
    assert!(!Location::Unlocated.comes_after(&Location::Line(0)));
    assert!(!Location::Line(usize::MAX).comes_after(&Location::End));
}
