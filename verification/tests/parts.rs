use texlog::blocks::{
    file_name_of, find_blocks, get_file_block_indices, normalize_filename, tex_regex,
    widen_last_region, FileRegion,
};
use texlog::content::{content_ranges, cut_parts};
use texlog::error::ProcessError;
use texlog::extract::{add_findings, collect_items, compile_rules, find_entry, finish, FileReport};
use texlog::matcher::Captures;
use texlog::report::{contains_item, dedup, report, sort_by_location};
use texlog::rules::{Location, LogItem, LogItemType, MissingPackage, Rule, RuleKind};
use texlog::text::{
    decimal_string, has_suffix, parse_number, remove_all, slice_to_string, strip_leading,
    to_chars, trim,
};
use texlog::utils::PatternBuilder;

fn chars(s: &str) -> Vec<char> {
    s.chars().collect()
}

fn region(start: usize, end: usize, filename: &str) -> FileRegion {
    FileRegion { start, end, filename: filename.to_string() }
}

fn package(name: &str, location: Location) -> LogItem {
    LogItem::new(LogItemType::MissingPackage(name.to_string()), location)
}

#[test]
fn blocks_of_nested_parentheses() {
    assert_eq!(find_blocks(&chars("a(b(c)d)e")), vec![(3, 5), (1, 7)]);
    assert_eq!(find_blocks(&chars("()()")), vec![(0, 1), (2, 3)]);
    assert!(find_blocks(&chars("no parentheses")).is_empty());
    assert!(find_blocks(&chars("")).is_empty());
}

#[test]
fn blocks_that_the_end_cuts_short() {
    assert_eq!(find_blocks(&chars("(a(b")), vec![(2, 4), (0, 4)]);
    assert_eq!(find_blocks(&chars("(a(b)c")), vec![(2, 4), (0, 6)]);
    assert_eq!(find_blocks(&chars("(")), vec![(0, 1)]);
}

#[test]
fn blocks_with_a_stray_closing_parenthesis() {
    assert_eq!(find_blocks(&chars(")(a)")), vec![(1, 3)]);
    assert!(find_blocks(&chars(")))")).is_empty());
}

#[test]
fn regions_of_a_transcript() {
    let log = "x(./main.tex\n(./sub/part.tex a) (other.cls b) c) tail";
    assert_eq!(
        get_file_block_indices(log),
        Ok(vec![region(13, 30, "sub/part.tex"), region(1, 53, "main.tex")])
    );
}

#[test]
fn region_of_a_block_that_is_never_closed() {
    assert_eq!(
        get_file_block_indices("(./main.tex\nstop"),
        Ok(vec![region(0, 16, "main.tex")])
    );
    assert_eq!(
        get_file_block_indices("(./main.tex\n(./part.tex\nstop"),
        Ok(vec![region(12, 28, "part.tex"), region(0, 28, "main.tex")])
    );
}

#[test]
fn last_region_is_drawn_out_even_if_it_is_not_the_outermost() {
    assert_eq!(
        get_file_block_indices("(./a.tex x) (./b.tex y) z"),
        Ok(vec![region(0, 10, "a.tex"), region(12, 25, "b.tex")])
    );
}

#[test]
fn name_is_taken_up_to_the_last_extension_on_the_line() {
    assert_eq!(
        get_file_block_indices("(./main.tex (./part.tex x) y)"),
        Ok(vec![region(12, 25, "part.tex"), region(0, 29, "main.tex (./part.tex")])
    );
}

#[test]
fn no_region_without_a_source_file() {
    assert_eq!(get_file_block_indices("(a.cls) b"), Err(ProcessError::NoFileRegionFound));
    assert_eq!(get_file_block_indices(""), Err(ProcessError::NoFileRegionFound));
    assert_eq!(get_file_block_indices("main.tex"), Err(ProcessError::NoFileRegionFound));
}

#[test]
fn name_must_stand_on_the_line_of_the_parenthesis() {
    assert_eq!(
        get_file_block_indices("(\n./main.tex)"),
        Err(ProcessError::NoFileRegionFound)
    );
}

#[test]
fn file_name_is_rid_of_the_directory_prefix() {
    assert_eq!(normalize_filename("./main"), "main.tex");
    assert_eq!(normalize_filename("main"), "main.tex");
    assert_eq!(normalize_filename("./dir/main"), "dir/main.tex");
    assert_eq!(normalize_filename("././main"), "main.tex");
    assert_eq!(normalize_filename("./a/./b"), "a/./b.tex");
    assert_eq!(normalize_filename("..//x"), "..//x.tex");
    assert_eq!(normalize_filename("../x"), "../x.tex");
    assert_eq!(normalize_filename("./"), ".tex");
    assert_eq!(normalize_filename("."), "..tex");
    assert_eq!(normalize_filename(""), ".tex");
}

#[test]
fn file_name_of_the_first_match() {
    let pattern = tex_regex().unwrap();
    assert_eq!(pattern.as_str(), r"^\((.+)\.tex");
    assert_eq!(
        file_name_of(&MissingPackage.captures(&pattern, "(./dir/main.tex and more")),
        Some("dir/main.tex".to_string())
    );
    assert_eq!(file_name_of(&MissingPackage.captures(&pattern, "x(./main.tex")), None);
    assert_eq!(file_name_of(&Vec::new()), None);
    assert_eq!(file_name_of(&vec![Captures { groups: vec![Some("(a.tex".to_string())] }]), None);
    assert_eq!(
        file_name_of(&vec![Captures {
            groups: vec![Some("(a.tex".to_string()), Some("./a".to_string())]
        }]),
        Some("a.tex".to_string())
    );
}

#[test]
fn matches_are_copied_out_with_all_groups() {
    let pattern = PatternBuilder::new().raw(r"(a)(b)?(c)").compile().unwrap();
    let found = MissingPackage.captures(&pattern, "ac abc");
    assert_eq!(found.len(), 2);
    assert_eq!(
        found[0].groups,
        vec![Some("ac".to_string()), Some("a".to_string()), None, Some("c".to_string())]
    );
    assert_eq!(
        found[1].groups,
        vec![
            Some("abc".to_string()),
            Some("a".to_string()),
            Some("b".to_string()),
            Some("c".to_string())
        ]
    );
    assert_eq!(found[0].get(1), Some(&"a".to_string()));
    assert_eq!(found[0].get(2), None);
    assert_eq!(found[0].get(4), None);
}

#[test]
fn number_of_a_group() {
    let c = Captures { groups: vec![Some("12".to_string()), None, Some("x".to_string())] };
    assert_eq!(c.number(0), Some(12));
    assert_eq!(c.number(1), None);
    assert_eq!(c.number(2), None);
    assert_eq!(c.number(3), None);
}

#[test]
fn widening_the_last_region() {
    assert_eq!(
        widen_last_region(vec![region(5, 7, "a.tex"), region(1, 9, "b.tex")], 20),
        Ok(vec![region(5, 7, "a.tex"), region(1, 20, "b.tex")])
    );
    assert_eq!(widen_last_region(Vec::new(), 20), Err(ProcessError::NoFileRegionFound));
}

#[test]
fn content_without_nested_blocks() {
    assert_eq!(content_ranges(&vec![], 0, 10), vec![(0, 10)]);
    assert_eq!(content_ranges(&vec![(3, 5)], 0, 10), vec![(0, 3), (5, 10)]);
    assert_eq!(content_ranges(&vec![(3, 5), (6, 8)], 0, 10), vec![(0, 3), (5, 6), (8, 10)]);
    assert_eq!(content_ranges(&vec![(6, 8), (3, 5)], 0, 10), vec![(0, 3), (5, 6), (8, 10)]);
}

#[test]
fn content_without_blocks_nested_twice_deep() {
    assert_eq!(content_ranges(&vec![(4, 6), (2, 8)], 0, 10), vec![(0, 2), (8, 10)]);
    assert_eq!(content_ranges(&vec![(2, 8), (4, 6)], 0, 10), vec![(0, 2), (8, 10)]);
}

#[test]
fn content_ignores_blocks_that_do_not_start_inside() {
    assert_eq!(content_ranges(&vec![(0, 5)], 0, 10), vec![(0, 10)]);
    assert_eq!(content_ranges(&vec![(10, 12)], 0, 10), vec![(0, 10)]);
    assert_eq!(content_ranges(&vec![(20, 30), (12, 15)], 40, 50), vec![(40, 50)]);
    assert_eq!(content_ranges(&vec![(3, 3)], 0, 10), vec![(0, 10)]);
}

#[test]
fn content_of_a_block_whose_nested_block_reaches_its_end() {
    assert_eq!(content_ranges(&vec![(4, 10)], 0, 10), vec![(0, 4)]);
    assert_eq!(content_ranges(&vec![(4, 15)], 0, 10), vec![(0, 4)]);
    assert!(content_ranges(&vec![(4, 6)], 5, 5).is_empty());
    assert!(content_ranges(&vec![], 7, 3).is_empty());
}

#[test]
fn cutting_a_hole_out_of_parts() {
    assert_eq!(cut_parts(&vec![(0, 4), (6, 10)], (2, 8)), vec![(0, 2), (8, 10)]);
    assert_eq!(cut_parts(&vec![(0, 4), (6, 10)], (4, 6)), vec![(0, 4), (6, 10)]);
    assert_eq!(cut_parts(&vec![(0, 4), (6, 10)], (0, 10)), vec![]);
    assert_eq!(cut_parts(&vec![(0, 10)], (3, 3)), vec![(0, 10)]);
}

#[test]
fn decimal_numbers_are_read() {
    assert_eq!(parse_number("0"), Some(0));
    assert_eq!(parse_number("12"), Some(12));
    assert_eq!(parse_number("007"), Some(7));
    assert_eq!(parse_number(&usize::MAX.to_string()), Some(usize::MAX));
}

#[test]
fn what_is_no_decimal_number_is_not_read() {
    assert_eq!(parse_number(""), None);
    assert_eq!(parse_number("12a"), None);
    assert_eq!(parse_number("+12"), None);
    assert_eq!(parse_number("-1"), None);
    assert_eq!(parse_number(" 1"), None);
    assert_eq!(parse_number("١٢"), None);
    assert_eq!(parse_number(&format!("{}0", usize::MAX)), None);
    assert_eq!(parse_number("99999999999999999999999999999999999999999"), None);
}

#[test]
fn decimal_numbers_are_written() {
    assert_eq!(decimal_string(0), "0");
    assert_eq!(decimal_string(7), "7");
    assert_eq!(decimal_string(10), "10");
    assert_eq!(decimal_string(12345), "12345");
    assert_eq!(decimal_string(usize::MAX), usize::MAX.to_string());
}

#[test]
fn written_numbers_read_back() {
    for n in [0usize, 1, 9, 10, 99, 100, 4096, usize::MAX] {
        assert_eq!(parse_number(&decimal_string(n)), Some(n));
    }
}

#[test]
fn white_space_around_a_text_is_removed() {
    assert_eq!(trim("  a b \t\n"), "a b");
    assert_eq!(trim("a"), "a");
    assert_eq!(trim(""), "");
    assert_eq!(trim(" \n "), "");
    assert_eq!(trim("\u{a0}x\u{2003}"), "x");
}

#[test]
fn fragments_are_taken_out() {
    assert_eq!(remove_all("./a/./b", "./"), "a/b");
    assert_eq!(remove_all("aaa", "aa"), "a");
    assert_eq!(remove_all("abc", ""), "abc");
    assert_eq!(remove_all("ab", "abc"), "ab");
    assert_eq!(remove_all("a\nb\n", "\n"), "ab");
    assert_eq!(remove_all("", "x"), "");
    assert_eq!(remove_all("xx", "x"), "");
}

#[test]
fn characters_and_slices() {
    assert_eq!(to_chars("aé("), vec!['a', 'é', '(']);
    assert_eq!(slice_to_string(&chars("aébc"), 1, 3), "éb");
    assert_eq!(slice_to_string(&chars("abc"), 2, 2), "");
    assert_eq!(slice_to_string(&chars("abc"), 0, 3), "abc");
}

#[test]
fn duplicates_are_dropped_at_their_later_places() {
    let items = vec![
        package("b", Location::Line(2)),
        package("a", Location::Line(1)),
        package("b", Location::Line(2)),
        package("b", Location::Line(3)),
        package("a", Location::Line(1)),
    ];
    assert_eq!(
        dedup(items),
        vec![
            package("b", Location::Line(2)),
            package("a", Location::Line(1)),
            package("b", Location::Line(3)),
        ]
    );
    assert!(dedup(Vec::new()).is_empty());
}

#[test]
fn findings_are_ordered_by_location_and_ties_keep_their_order() {
    let items = vec![
        package("e", Location::End),
        package("l2", Location::Line(2)),
        package("u1", Location::Unlocated),
        package("l1", Location::Line(1)),
        package("l2b", Location::Line(2)),
        package("e2", Location::End),
        package("u2", Location::Unlocated),
    ];
    assert_eq!(
        sort_by_location(items),
        vec![
            package("u1", Location::Unlocated),
            package("u2", Location::Unlocated),
            package("l1", Location::Line(1)),
            package("l2", Location::Line(2)),
            package("l2b", Location::Line(2)),
            package("e", Location::End),
            package("e2", Location::End),
        ]
    );
}

#[test]
fn reported_list_is_deduplicated_and_ordered() {
    let items = vec![
        package("x", Location::Line(9)),
        package("y", Location::Line(3)),
        package("x", Location::Line(9)),
        package("z", Location::Unlocated),
    ];
    assert_eq!(
        report(items),
        vec![
            package("z", Location::Unlocated),
            package("y", Location::Line(3)),
            package("x", Location::Line(9)),
        ]
    );
}

#[test]
fn finding_in_a_list() {
    let items = vec![package("a", Location::Line(1)), package("b", Location::End)];
    assert!(contains_item(&items, &package("b", Location::End)));
    assert!(!contains_item(&items, &package("b", Location::Line(1))));
    assert!(!contains_item(&Vec::new(), &package("b", Location::End)));
}

#[test]
fn items_of_matches() {
    let found = vec![
        Captures { groups: vec![Some("w".to_string()), Some("a".to_string())] },
        Captures { groups: vec![Some("w".to_string()), None] },
        Captures { groups: vec![Some("w".to_string()), Some("b".to_string())] },
    ];
    assert_eq!(
        collect_items(&RuleKind::MissingPackage, &found),
        vec![package("a", Location::Unlocated), package("b", Location::Unlocated)]
    );
}

#[test]
fn all_patterns_compile() {
    let rules = LogItem::rules();
    let patterns = compile_rules(&rules).unwrap();
    assert_eq!(patterns.len(), 10);
    for (rule, pattern) in rules.iter().zip(patterns.iter()) {
        assert_eq!(rule.get_regex().unwrap().as_str(), pattern.as_str());
    }
}

#[test]
fn findings_are_added_to_the_entry_of_their_file() {
    let mut entries: Vec<FileReport> = Vec::new();
    add_findings(&mut entries, "a.tex".to_string(), vec![package("1", Location::End)]);
    add_findings(&mut entries, "b.tex".to_string(), vec![package("2", Location::End)]);
    add_findings(&mut entries, "a.tex".to_string(), vec![package("3", Location::End)]);
    assert_eq!(
        entries,
        vec![
            FileReport {
                filename: "a.tex".to_string(),
                items: vec![package("1", Location::End), package("3", Location::End)]
            },
            FileReport {
                filename: "b.tex".to_string(),
                items: vec![package("2", Location::End)]
            },
        ]
    );
    assert_eq!(find_entry(&entries, &"b.tex".to_string()), Some(1));
    assert_eq!(find_entry(&entries, &"c.tex".to_string()), None);
}

#[test]
fn entries_are_turned_into_reports() {
    let entries = vec![FileReport {
        filename: "a.tex".to_string(),
        items: vec![
            package("1", Location::End),
            package("0", Location::Line(1)),
            package("1", Location::End),
        ],
    }];
    assert_eq!(
        finish(entries),
        vec![FileReport {
            filename: "a.tex".to_string(),
            items: vec![package("0", Location::Line(1)), package("1", Location::End)]
        }]
    );
}

#[test]
fn suffix_of_a_text() {
    assert!(has_suffix("main.log", ".log"));
    assert!(has_suffix(".log", ".log"));
    assert!(has_suffix("abc", ""));
    assert!(!has_suffix("log", ".log"));
    assert!(!has_suffix("main.log.txt", ".log"));
    assert!(!has_suffix("main.loG", ".log"));
}

#[test]
fn no_file_name_starts_with_the_directory_prefix() {
    for stem in ["./a", "././a", "./", "", ".", "/", "./.", "././/", "../a", "a/./b", "./../a"] {
        assert!(!normalize_filename(stem).starts_with("./"), "stem {:?}", stem);
    }
}

#[test]
fn leading_prefix_is_taken_off_as_often_as_it_stands() {
    assert_eq!(strip_leading("./a", "./"), "a");
    assert_eq!(strip_leading("././a./", "./"), "a./");
    assert_eq!(strip_leading("a./", "./"), "a./");
    assert_eq!(strip_leading("./", "./"), "");
    assert_eq!(strip_leading(".", "./"), ".");
    assert_eq!(strip_leading("", "./"), "");
    assert_eq!(strip_leading("abc", ""), "abc");
    assert_eq!(strip_leading("aaab", "a"), "b");
    assert_eq!(strip_leading("ababa", "ab"), "a");
}

#[test]
fn white_space_is_what_the_standard_library_calls_so() {
    let spaces = [
        '\u{9}', '\u{a}', '\u{b}', '\u{c}', '\u{d}', ' ', '\u{85}', '\u{a0}', '\u{1680}',
        '\u{2000}', '\u{2001}', '\u{2002}', '\u{2003}', '\u{2004}', '\u{2005}', '\u{2006}',
        '\u{2007}', '\u{2008}', '\u{2009}', '\u{200a}', '\u{2028}', '\u{2029}', '\u{202f}',
        '\u{205f}', '\u{3000}',
    ];
    let mut count = 0;
    for code in 0..=0x10ffffu32 {
        if let Some(c) = char::from_u32(code) {
            assert_eq!(c.is_whitespace(), spaces.contains(&c), "code {:x}", code);
            if c.is_whitespace() {
                count += 1;
            }
        }
    }
    assert_eq!(count, 25);
    for c in spaces {
        assert_eq!(trim(&format!("{}x{}", c, c)), "x");
    }
    for c in ['\u{8}', '\u{e}', '\u{1f}', '\u{180e}', '\u{200b}', '\u{2060}', '\u{feff}', '_'] {
        let text = format!("{}x{}", c, c);
        assert_eq!(trim(&text), text);
    }
}
