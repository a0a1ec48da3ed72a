//! From a transcript to the report: which diagnostics each source file
//! caused.

use crate::blocks::{file_regions, regions_of, regions_view, regions_within, spans_of, tex_pattern};
use crate::blocks::{lemma_regions_nested_first, FileRegion, FileRegionView};
use crate::content::{content_ranges, content_spans, lemma_content_excludes_nested, span_has};
use crate::content::Span;
use crate::error::ProcessError;
use crate::matcher::{captures_view, regex_accepts, regex_captures, Captures, Groups, Pattern};
use crate::report::{distinct, lemma_by_location, lemma_reported_complete, lemma_unique, ordered};
use crate::report::{report, reported};
use crate::rules::{items_view, registry, LogItem, LogItemView, Rule, RuleKind};
use crate::text::{ends_with, has_suffix, slice_to_string, to_chars};
use vstd::prelude::*;

verus! {

/// What is reported for one source file.
#[derive(Clone, Debug, PartialEq, Eq)]
pub struct FileReport {
    pub filename: String,
    pub items: Vec<LogItem>,
}

/// The mathematical value of a `FileReport`.
pub struct FileReportView {
    pub filename: Seq<char>,
    pub items: Seq<LogItemView>,
}

impl View for FileReport {
    type V = FileReportView;

    open spec fn view(&self) -> FileReportView {
        FileReportView { filename: self.filename@, items: items_view(self.items@) }
    }
}

/// The values of a list of reports.
pub open spec fn reports_view(reports: Seq<FileReport>) -> Seq<FileReportView> {
    reports.map_values(|r: FileReport| r@)
}

/// The diagnostics that `rule` makes of the matches `found`, in their order;
/// a match that the rule makes nothing of is passed over.
pub open spec fn items_of(rule: RuleKind, found: Seq<Groups>) -> Seq<LogItemView>
    decreases found.len(),
{
    if found.len() == 0 {
        Seq::<LogItemView>::empty()
    } else {
        let items = items_of(rule, found.drop_last());
        match rule.item(found.last()) {
            Some(item) => items.push(item),
            None => items,
        }
    }
}

/// The diagnostics that `rule` finds in `text`.
pub open spec fn rule_items(rule: RuleKind, text: Seq<char>) -> Seq<LogItemView> {
    items_of(rule, rule.picked(regex_captures(rule.pattern(), text)))
}

/// The diagnostics that `rule` finds in the `parts` of `log`, part by part.
pub open spec fn rule_items_in(rule: RuleKind, log: Seq<char>, parts: Seq<Span>) -> Seq<
    LogItemView,
>
    decreases parts.len(),
{
    if parts.len() == 0 {
        Seq::<LogItemView>::empty()
    } else {
        rule_items_in(rule, log, parts.drop_last()) + rule_items(
            rule,
            log.subrange(parts.last().0 as int, parts.last().1 as int),
        )
    }
}

/// The diagnostics that `rules` find in the `parts` of `log`, rule by rule.
pub open spec fn region_items(rules: Seq<RuleKind>, log: Seq<char>, parts: Seq<Span>) -> Seq<
    LogItemView,
>
    decreases rules.len(),
{
    if rules.len() == 0 {
        Seq::<LogItemView>::empty()
    } else {
        region_items(rules.drop_last(), log, parts) + rule_items_in(rules.last(), log, parts)
    }
}

/// The content of the region at index `k`: its span without the regions
/// before it that are nested in it.
pub open spec fn region_content(regions: Seq<FileRegionView>, k: int) -> Seq<Span> {
    content_spans(spans_of(regions.take(k)), regions[k].start, regions[k].end)
}

/// The diagnostics found in the content of the region at index `k`.
pub open spec fn raw_items(log: Seq<char>, regions: Seq<FileRegionView>, k: int) -> Seq<
    LogItemView,
> {
    region_items(registry(), log, region_content(regions, k))
}

/// The files of the first `upto` regions, each once, in the order in which
/// they first occur.
pub open spec fn names_seen(regions: Seq<FileRegionView>, upto: int) -> Seq<Seq<char>>
    decreases upto,
{
    if upto <= 0 {
        Seq::<Seq<char>>::empty()
    } else {
        let names = names_seen(regions, upto - 1);
        if names.contains(regions[upto - 1].filename) {
            names
        } else {
            names.push(regions[upto - 1].filename)
        }
    }
}

/// The diagnostics found for the file `name` in the first `upto` regions:
/// those of each of its regions, region by region.
pub open spec fn gathered(
    log: Seq<char>,
    regions: Seq<FileRegionView>,
    upto: int,
    name: Seq<char>,
) -> Seq<LogItemView>
    decreases upto,
{
    if upto <= 0 {
        Seq::<LogItemView>::empty()
    } else if regions[upto - 1].filename == name {
        gathered(log, regions, upto - 1, name) + raw_items(log, regions, upto - 1)
    } else {
        gathered(log, regions, upto - 1, name)
    }
}

/// What has been found for each file after the first `upto` regions.
pub open spec fn collected(log: Seq<char>, regions: Seq<FileRegionView>, upto: int) -> Seq<
    FileReportView,
> {
    Seq::new(
        names_seen(regions, upto).len(),
        |i: int|
            FileReportView {
                filename: names_seen(regions, upto)[i],
                items: gathered(log, regions, upto, names_seen(regions, upto)[i]),
            },
    )
}

/// The report on `regions`: for each file, in the order in which the files
/// first occur, what was found for it, each finding once and ordered by
/// location.
pub open spec fn extraction(log: Seq<char>, regions: Seq<FileRegionView>) -> Seq<FileReportView> {
    Seq::new(
        names_seen(regions, regions.len() as int).len(),
        |i: int|
            FileReportView {
                filename: names_seen(regions, regions.len() as int)[i],
                items: reported(
                    gathered(
                        log,
                        regions,
                        regions.len() as int,
                        names_seen(regions, regions.len() as int)[i],
                    ),
                ),
            },
    )
}

/// The report on a transcript.
pub open spec fn analysis(log: Seq<char>) -> Seq<FileReportView> {
    extraction(log, file_regions(log))
}

/// Whether the engine takes the pattern of every one of `rules`.
pub open spec fn rules_accepted(rules: Seq<RuleKind>) -> bool {
    forall|i: int| 0 <= i < rules.len() ==> regex_accepts((#[trigger] rules[i]).pattern())
}

/// What `process` answers for `log`: `PatternRejected` where the engine does
/// not take the file pattern; else `NoFileRegionFound` where the transcript
/// has no region of a source file; else `PatternRejected` where the engine
/// does not take the pattern of a rule; else the report.
pub open spec fn process_result(log: Seq<char>) -> Result<Seq<FileReportView>, ProcessError> {
    if !regex_accepts(tex_pattern()) {
        Err(ProcessError::PatternRejected)
    } else if file_regions(log).len() == 0 {
        Err(ProcessError::NoFileRegionFound)
    } else if !rules_accepted(registry()) {
        Err(ProcessError::PatternRejected)
    } else {
        Ok(analysis(log))
    }
}

/// The value of an answer of `process`.
pub open spec fn report_answer(outcome: Result<Vec<FileReport>, ProcessError>) -> Result<
    Seq<FileReportView>,
    ProcessError,
> {
    match outcome {
        Ok(reports) => Ok(reports_view(reports@)),
        Err(e) => Err(e),
    }
}

/// The names seen are distinct, and hold the file of every region so far.
pub proof fn lemma_names_seen(regions: Seq<FileRegionView>, upto: int)
    requires
        0 <= upto <= regions.len(),
    ensures
        names_seen(regions, upto).no_duplicates(),
        forall|k: int|
            0 <= k < upto ==> names_seen(regions, upto).contains((#[trigger] regions[k]).filename),
        forall|n: Seq<char>|
            names_seen(regions, upto).contains(n) ==> exists|k: int|
                0 <= k < upto && (#[trigger] regions[k]).filename == n,
    decreases upto,
{
    if upto > 0 {
        let before = names_seen(regions, upto - 1);
        let after = names_seen(regions, upto);
        let name = regions[upto - 1].filename;
        lemma_names_seen(regions, upto - 1);
        if before.contains(name) {
        } else {
            assert(after[before.len() as int] == name);
            assert forall|k: int| 0 <= k < upto implies after.contains(
                (#[trigger] regions[k]).filename,
            ) by {
                if k < upto - 1 {
                    let at = choose|at: int| 0 <= at < before.len() && before[at] == regions[k].filename;
                    assert(after[at] == regions[k].filename);
                }
            }
            assert forall|n: Seq<char>| after.contains(n) implies exists|k: int|
                0 <= k < upto && (#[trigger] regions[k]).filename == n by {
                let at = choose|at: int| 0 <= at < after.len() && after[at] == n;
                if at < before.len() {
                    assert(before[at] == n);
                    assert(before.contains(n));
                } else {
                    assert(regions[upto - 1].filename == n);
                }
            }
            assert forall|i: int, j: int|
                0 <= i < after.len() && 0 <= j < after.len() && i != j implies after[i]
                != after[j] by {
                if i < before.len() && j < before.len() {
                    assert(after[i] == before[i] && after[j] == before[j]);
                } else if i < before.len() {
                    assert(after[i] == before[i]);
                    assert(before.contains(after[i]));
                } else {
                    assert(after[j] == before[j]);
                    assert(before.contains(after[j]));
                }
            }
        }
    }
}

/// Nothing has been found for a file that no region so far belongs to.
pub proof fn lemma_unseen_gathers_nothing(
    log: Seq<char>,
    regions: Seq<FileRegionView>,
    upto: int,
    name: Seq<char>,
)
    requires
        0 <= upto <= regions.len(),
        !names_seen(regions, upto).contains(name),
    ensures
        gathered(log, regions, upto, name) == Seq::<LogItemView>::empty(),
    decreases upto,
{
    if upto > 0 {
        lemma_names_seen(regions, upto);
        let before = names_seen(regions, upto - 1);
        if before.contains(name) {
            let at = choose|at: int| 0 <= at < before.len() && before[at] == name;
            assert(names_seen(regions, upto)[at] == name);
        }
        assert(regions[upto - 1].filename != name);
        lemma_unseen_gathers_nothing(log, regions, upto - 1, name);
    }
}

/// No file has two entries in a report, and each entry names every finding
/// once, in the order of the locations: unlocated findings, then the lines in
/// rising order, then the end of the document.
pub proof fn lemma_extraction_shape(log: Seq<char>, regions: Seq<FileRegionView>)
    ensures
        forall|i: int, j: int|
            0 <= i < j < extraction(log, regions).len() ==> extraction(log, regions)[i].filename
                != extraction(log, regions)[j].filename,
        forall|i: int|
            0 <= i < extraction(log, regions).len() ==> distinct(
                (#[trigger] extraction(log, regions)[i]).items,
            ) && ordered(extraction(log, regions)[i].items),
{
    let names = names_seen(regions, regions.len() as int);
    lemma_names_seen(regions, regions.len() as int);
    assert forall|i: int| 0 <= i < extraction(log, regions).len() implies distinct(
        (#[trigger] extraction(log, regions)[i]).items,
    ) && ordered(extraction(log, regions)[i].items) by {
        let found = gathered(log, regions, regions.len() as int, names[i]);
        lemma_unique(found);
        lemma_by_location(crate::report::unique(found));
    }
}

/// What has been gathered for a file was found in a region of that file: the
/// result is the index of such a region.
pub proof fn lemma_gathered_origin(
    log: Seq<char>,
    regions: Seq<FileRegionView>,
    upto: int,
    name: Seq<char>,
    item: LogItemView,
) -> (k: int)
    requires
        0 <= upto <= regions.len(),
        gathered(log, regions, upto, name).contains(item),
    ensures
        0 <= k < upto,
        regions[k].filename == name,
        raw_items(log, regions, k).contains(item),
    decreases upto,
{
    let before = gathered(log, regions, upto - 1, name);
    let raw = raw_items(log, regions, upto - 1);
    if upto > 0 && regions[upto - 1].filename == name && raw.contains(item) {
        upto - 1
    } else {
        if upto > 0 && regions[upto - 1].filename == name {
            let found = before + raw;
            let at = choose|at: int| 0 <= at < found.len() && found[at] == item;
            if at >= before.len() {
                assert(raw[at - before.len()] == item);
            } else {
                assert(before[at] == item);
            }
        }
        assert(upto > 0);
        lemma_gathered_origin(log, regions, upto - 1, name, item)
    }
}

/// Diagnostics of different files never mix: every diagnostic in the report
/// on a file was found in the content of a region of that very file. The
/// result is the index of such a region.
pub proof fn lemma_reported_origin(
    log: Seq<char>,
    regions: Seq<FileRegionView>,
    file: int,
    item: LogItemView,
) -> (k: int)
    requires
        0 <= file < extraction(log, regions).len(),
        extraction(log, regions)[file].items.contains(item),
    ensures
        0 <= k < regions.len(),
        regions[k].filename == extraction(log, regions)[file].filename,
        raw_items(log, regions, k).contains(item),
{
    let name = names_seen(regions, regions.len() as int)[file];
    lemma_reported_complete(gathered(log, regions, regions.len() as int, name), item);
    lemma_gathered_origin(log, regions, regions.len() as int, name, item)
}

/// Running `process` again on the same transcript gives the same answer:
/// the same failure, or the same files with the same diagnostics in the same
/// order.
pub proof fn lemma_process_repeatable(
    log: Seq<char>,
    first: Result<Vec<FileReport>, ProcessError>,
    second: Result<Vec<FileReport>, ProcessError>,
)
    requires
        report_answer(first) == process_result(log),
        report_answer(second) == process_result(log),
    ensures
        report_answer(first) == report_answer(second),
        first is Ok <==> second is Ok,
{
}

/// `process` fails with `NoFileRegionFound` exactly where the engine takes
/// the file pattern and the transcript has no region of a source file, and
/// with `PatternRejected` exactly where the engine does not take the file
/// pattern, or takes it, finds a region, and does not take the pattern of a
/// rule.
pub proof fn lemma_process_failures(log: Seq<char>)
    ensures
        process_result(log) == Err::<Seq<FileReportView>, ProcessError>(
            ProcessError::NoFileRegionFound,
        ) <==> regex_accepts(tex_pattern()) && file_regions(log).len() == 0,
        process_result(log) == Err::<Seq<FileReportView>, ProcessError>(
            ProcessError::PatternRejected,
        ) <==> !regex_accepts(tex_pattern()) || (file_regions(log).len() > 0 && !rules_accepted(
            registry(),
        )),
        process_result(log) is Ok <==> regex_accepts(tex_pattern()) && file_regions(log).len() > 0
            && rules_accepted(registry()),
{
}

/// Text inside a nested region is no content of the region around it: where
/// the region at `inner` starts strictly inside the region at `outer`, it
/// stands before it, and no span of the outer region's content holds a
/// position of the inner region.
pub proof fn lemma_nested_text_excluded(
    log: Seq<char>,
    outer: int,
    inner: int,
    part: int,
    position: int,
)
    requires
        log.len() <= usize::MAX,
        0 <= outer < file_regions(log).len(),
        0 <= inner < file_regions(log).len(),
        file_regions(log)[outer].start < file_regions(log)[inner].start < file_regions(
            log,
        )[outer].end,
        file_regions(log)[inner].start <= position < file_regions(log)[inner].end,
        0 <= part < region_content(file_regions(log), outer).len(),
    ensures
        inner < outer,
        !span_has(region_content(file_regions(log), outer)[part], position),
{
    let regions = file_regions(log);
    lemma_regions_nested_first(log, inner, outer);
    let recorded = spans_of(regions.take(outer));
    assert(recorded[inner] == (regions[inner].start, regions[inner].end));
    lemma_content_excludes_nested(
        recorded,
        regions[outer].start,
        regions[outer].end,
        part,
        inner,
        position,
    );
}

/// The diagnostics that `rule` makes of the matches `found`.
pub fn collect_items(rule: &RuleKind, found: &Vec<Captures>) -> (items: Vec<LogItem>)
    ensures
        items_view(items@) == items_of(*rule, captures_view(found@)),
{
    let ghost all = captures_view(found@);
    let mut items: Vec<LogItem> = Vec::new();
    let mut i: usize = 0;
    assert(items_view(items@) =~= items_of(*rule, all.take(0)));
    while i < found.len()
        invariant
            i <= found.len(),
            all == captures_view(found@),
            items_view(items@) == items_of(*rule, all.take(i as int)),
        decreases found.len() - i,
    {
        let ghost before = items_view(items@);
        assert(all.take(i + 1).drop_last() =~= all.take(i as int));
        assert(all.take(i + 1).last() == found@[i as int]@);
        match rule.process(&found[i]) {
            Some(item) => {
                items.push(item);
                assert(items_view(items@) =~= before.push(item@));
            },
            None => {},
        }
        i += 1;
    }
    assert(all.take(i as int) =~= all);
    items
}

/// Compiles the patterns of `rules`, in their order: succeeds exactly where
/// the engine takes every one of them.
pub fn compile_rules(rules: &Vec<RuleKind>) -> (compiled: Result<Vec<Pattern>, ProcessError>)
    ensures
        compiled is Ok <==> rules_accepted(rules@),
        compiled matches Ok(list) ==> list.len() == rules.len() && forall|i: int|
            0 <= i < list.len() ==> (#[trigger] list[i])@ == rules[i].pattern(),
        compiled matches Err(e) ==> e == ProcessError::PatternRejected,
{
    let mut list: Vec<Pattern> = Vec::new();
    let mut i: usize = 0;
    while i < rules.len()
        invariant
            i <= rules.len(),
            list.len() == i,
            forall|k: int| 0 <= k < i ==> (#[trigger] list[k])@ == rules[k].pattern(),
            forall|k: int| 0 <= k < i ==> regex_accepts((#[trigger] rules@[k]).pattern()),
        decreases rules.len() - i,
    {
        match rules[i].get_regex() {
            Ok(pattern) => {
                list.push(pattern);
            },
            Err(e) => {
                assert(!regex_accepts(rules@[i as int].pattern()));
                return Err(e);
            },
        }
        i += 1;
    }
    Ok(list)
}

/// The texts of the parts of a transcript given as characters.
fn part_texts(text: &Vec<char>, parts: &Vec<Span>) -> (texts: Vec<String>)
    requires
        forall|i: int| 0 <= i < parts.len() ==> (#[trigger] parts[i]).0 <= parts[i].1 <= text.len(),
    ensures
        texts.len() == parts.len(),
        forall|i: int|
            0 <= i < parts.len() ==> (#[trigger] texts[i])@ == text@.subrange(
                parts[i].0 as int,
                parts[i].1 as int,
            ),
{
    let mut texts: Vec<String> = Vec::new();
    let mut i: usize = 0;
    while i < parts.len()
        invariant
            i <= parts.len(),
            texts.len() == i,
            forall|k: int|
                0 <= k < parts.len() ==> (#[trigger] parts[k]).0 <= parts[k].1 <= text.len(),
            forall|k: int|
                0 <= k < i ==> (#[trigger] texts[k])@ == text@.subrange(
                    parts[k].0 as int,
                    parts[k].1 as int,
                ),
        decreases parts.len() - i,
    {
        let (start, end) = parts[i];
        texts.push(slice_to_string(text, start, end));
        i += 1;
    }
    texts
}

/// The diagnostics that one rule finds in the parts of a transcript.
fn rule_findings(
    rule: &RuleKind,
    pattern: &Pattern,
    texts: &Vec<String>,
    text: &Vec<char>,
    spans: &Vec<Span>,
) -> (items: Vec<LogItem>)
    requires
        pattern@ == rule.pattern(),
        texts.len() == spans.len(),
        forall|i: int|
            0 <= i < spans.len() ==> (#[trigger] texts[i])@ == text@.subrange(
                spans[i].0 as int,
                spans[i].1 as int,
            ),
    ensures
        items_view(items@) == rule_items_in(*rule, text@, spans@),
{
    let ghost log = text@;
    let ghost parts = spans@;
    let mut items: Vec<LogItem> = Vec::new();
    let mut i: usize = 0;
    assert(items_view(items@) =~= rule_items_in(*rule, log, parts.take(0)));
    while i < texts.len()
        invariant
            i <= texts.len(),
            pattern@ == rule.pattern(),
            log == text@,
            parts == spans@,
            texts.len() == parts.len(),
            forall|k: int|
                0 <= k < parts.len() ==> (#[trigger] texts[k])@ == log.subrange(
                    parts[k].0 as int,
                    parts[k].1 as int,
                ),
            items_view(items@) == rule_items_in(*rule, log, parts.take(i as int)),
        decreases texts.len() - i,
    {
        let ghost before = items_view(items@);
        assert(parts.take(i + 1).drop_last() =~= parts.take(i as int));
        assert(parts.take(i + 1).last() == parts[i as int]);
        let found = rule.captures(pattern, texts[i].as_str());
        let mut more = collect_items(rule, &found);
        let ghost added = items_view(more@);
        items.append(&mut more);
        assert(items_view(items@) =~= before + added);
        i += 1;
    }
    assert(parts.take(i as int) =~= parts);
    items
}

/// The diagnostics that all rules find in the parts of a transcript.
fn region_findings(
    rules: &Vec<RuleKind>,
    patterns: &Vec<Pattern>,
    text: &Vec<char>,
    parts: &Vec<Span>,
) -> (items: Vec<LogItem>)
    requires
        patterns.len() == rules.len(),
        forall|i: int|
            0 <= i < rules.len() ==> (#[trigger] patterns[i])@ == rules[i].pattern(),
        forall|i: int| 0 <= i < parts.len() ==> (#[trigger] parts[i]).0 <= parts[i].1 <= text.len(),
    ensures
        items_view(items@) == region_items(rules@, text@, parts@),
{
    let texts = part_texts(text, parts);
    let mut items: Vec<LogItem> = Vec::new();
    let mut i: usize = 0;
    assert(items_view(items@) =~= region_items(rules@.take(0), text@, parts@));
    while i < rules.len()
        invariant
            i <= rules.len(),
            patterns.len() == rules.len(),
            forall|k: int|
                0 <= k < rules.len() ==> (#[trigger] patterns[k])@ == rules[k].pattern(),
            texts.len() == parts.len(),
            forall|k: int|
                0 <= k < parts.len() ==> (#[trigger] texts[k])@ == text@.subrange(
                    parts[k].0 as int,
                    parts[k].1 as int,
                ),
            items_view(items@) == region_items(rules@.take(i as int), text@, parts@),
        decreases rules.len() - i,
    {
        let ghost before = items_view(items@);
        assert(rules@.take(i + 1).drop_last() =~= rules@.take(i as int));
        assert(rules@.take(i + 1).last() == rules@[i as int]);
        let mut more = rule_findings(&rules[i], &patterns[i], &texts, text, parts);
        let ghost added = items_view(more@);
        items.append(&mut more);
        assert(items_view(items@) =~= before + added);
        i += 1;
    }
    assert(rules@.take(i as int) =~= rules@);
    items
}

/// Whether `after` is `before` with `items` added for the file `filename`:
/// behind the items of that file's entry, or as a new entry behind the
/// others where the file has none.
pub open spec fn with_findings(
    before: Seq<FileReportView>,
    filename: Seq<char>,
    items: Seq<LogItemView>,
    after: Seq<FileReportView>,
) -> bool {
    ||| exists|at: int|
        0 <= at < before.len() && (#[trigger] before[at]).filename == filename && after
            == before.update(at, FileReportView { filename, items: before[at].items + items })
    ||| {
        &&& forall|i: int| 0 <= i < before.len() ==> (#[trigger] before[i]).filename != filename
        &&& after == before.push(FileReportView { filename, items })
    }
}

/// The index of the entry for `filename`.
pub fn find_entry(entries: &Vec<FileReport>, filename: &String) -> (index: Option<usize>)
    ensures
        match index {
            Some(at) => at < entries.len() && entries[at as int].filename@ == filename@,
            None => forall|i: int|
                0 <= i < entries.len() ==> (#[trigger] entries[i]).filename@ != filename@,
        },
{
    let mut i: usize = 0;
    while i < entries.len()
        invariant
            i <= entries.len(),
            forall|k: int| 0 <= k < i ==> (#[trigger] entries[k]).filename@ != filename@,
        decreases entries.len() - i,
    {
        if entries[i].filename == *filename {
            return Some(i);
        }
        i += 1;
    }
    None
}

/// Adds what was found in one region of the file `filename`: to the entry of
/// that file, or as a new entry behind the others.
pub fn add_findings(entries: &mut Vec<FileReport>, filename: String, items: Vec<LogItem>)
    ensures
        with_findings(
            reports_view(old(entries)@),
            filename@,
            items_view(items@),
            reports_view(final(entries)@),
        ),
{
    let ghost before = reports_view(entries@);
    let mut items = items;
    match find_entry(entries, &filename) {
        Some(at) => {
            assert(before[at as int] == entries@[at as int]@);
            let mut entry = entries.remove(at);
            let ghost had = items_view(entry.items@);
            let ghost added = items_view(items@);
            entry.items.append(&mut items);
            assert(items_view(entry.items@) =~= had + added);
            entries.insert(at, entry);
            assert(reports_view(entries@) =~= before.update(
                at as int,
                FileReportView { filename: filename@, items: before[at as int].items + added },
            ));
        },
        None => {
            assert forall|i: int| 0 <= i < before.len() implies (#[trigger] before[i]).filename
                != filename@ by {
                assert(before[i] == entries@[i]@);
            }
            entries.push(FileReport { filename, items });
            assert(reports_view(entries@) =~= before.push(
                FileReportView { filename: filename@, items: items_view(items@) },
            ));
        },
    }
}

/// One more region: what has been found for each file after the region at
/// index `k` is taken in.
pub proof fn lemma_collected_step(
    log: Seq<char>,
    regions: Seq<FileRegionView>,
    k: int,
    after: Seq<FileReportView>,
)
    requires
        0 <= k < regions.len(),
        with_findings(
            collected(log, regions, k),
            regions[k].filename,
            raw_items(log, regions, k),
            after,
        ),
    ensures
        after == collected(log, regions, k + 1),
{
    let before = collected(log, regions, k);
    let names = names_seen(regions, k);
    let name = regions[k].filename;
    let raw = raw_items(log, regions, k);
    let next = collected(log, regions, k + 1);
    lemma_names_seen(regions, k);
    if exists|at: int|
        0 <= at < before.len() && (#[trigger] before[at]).filename == name && after
            == before.update(
            at,
            FileReportView { filename: name, items: before[at].items + raw },
        ) {
        let at = choose|at: int|
            0 <= at < before.len() && (#[trigger] before[at]).filename == name && after
                == before.update(
                at,
                FileReportView { filename: name, items: before[at].items + raw },
            );
        assert(names[at] == name);
        assert(names.contains(name));
        assert(names_seen(regions, k + 1) == names);
        assert(after =~= next) by {
            assert forall|i: int| 0 <= i < next.len() implies after[i] == next[i] by {
                if i != at {
                    assert(names[i] != names[at]);
                }
            }
        }
    } else {
        assert(!names.contains(name)) by {
            if names.contains(name) {
                let at = choose|at: int| 0 <= at < names.len() && names[at] == name;
                assert(before[at].filename == name);
            }
        }
        lemma_unseen_gathers_nothing(log, regions, k, name);
        assert(names_seen(regions, k + 1) == names.push(name));
        assert(after =~= next) by {
            assert forall|i: int| 0 <= i < next.len() implies after[i] == next[i] by {
                if i < names.len() {
                    assert(before[i].filename != name);
                } else {
                    assert(Seq::<LogItemView>::empty() + raw =~= raw);
                }
            }
        }
    }
}

/// What the rules find for each file in the regions of a transcript.
fn gather(
    text: &Vec<char>,
    regions: &Vec<FileRegion>,
    rules: &Vec<RuleKind>,
    patterns: &Vec<Pattern>,
) -> (entries: Vec<FileReport>)
    requires
        rules@ == registry(),
        patterns.len() == rules.len(),
        forall|i: int|
            0 <= i < rules.len() ==> (#[trigger] patterns[i])@ == rules[i].pattern(),
        regions_within(regions_view(regions@), text.len() as int),
    ensures
        reports_view(entries@) == collected(
            text@,
            regions_view(regions@),
            regions.len() as int,
        ),
{
    let ghost all = regions_view(regions@);
    let mut entries: Vec<FileReport> = Vec::new();
    let mut recorded: Vec<Span> = Vec::new();
    let mut k: usize = 0;
    assert(reports_view(entries@) =~= collected(text@, all, 0));
    assert(recorded@ =~= spans_of(all.take(0)));
    while k < regions.len()
        invariant
            k <= regions.len(),
            all == regions_view(regions@),
            rules@ == registry(),
            patterns.len() == rules.len(),
            forall|i: int|
                0 <= i < rules.len() ==> (#[trigger] patterns[i])@ == rules[i].pattern(),
            regions_within(all, text.len() as int),
            recorded@ == spans_of(all.take(k as int)),
            reports_view(entries@) == collected(text@, all, k as int),
        decreases regions.len() - k,
    {
        let start = regions[k].start;
        let end = regions[k].end;
        assert(all[k as int] == regions@[k as int]@);
        assert(all[k as int].start < all[k as int].end <= text.len());
        let parts = content_ranges(&recorded, start, end);
        let items = region_findings(rules, patterns, text, &parts);
        assert(items_view(items@) == raw_items(text@, all, k as int));
        recorded.push((start, end));
        assert(recorded@ =~= spans_of(all.take(k + 1))) by {
            assert(all.take(k + 1) =~= all.take(k as int).push(all[k as int]));
        }
        add_findings(&mut entries, regions[k].filename.clone(), items);
        proof {
            lemma_collected_step(text@, all, k as int, reports_view(entries@));
        }
        k += 1;
    }
    entries
}

/// Turns what was found for each file into what is reported for it.
pub fn finish(entries: Vec<FileReport>) -> (reports: Vec<FileReport>)
    ensures
        reports.len() == entries.len(),
        forall|i: int|
            0 <= i < reports.len() ==> (#[trigger] reports[i])@ == (FileReportView {
                filename: entries[i]@.filename,
                items: reported(entries[i]@.items),
            }),
{
    let mut reports: Vec<FileReport> = Vec::new();
    for entry in it: entries
        invariant
            it.seq() == entries@,
            reports.len() == it.index(),
            forall|i: int|
                0 <= i < reports.len() ==> (#[trigger] reports[i])@ == (FileReportView {
                    filename: entries[i]@.filename,
                    items: reported(entries[i]@.items),
                }),
    {
        let FileReport { filename, items } = entry;
        reports.push(FileReport { filename, items: report(items) });
    }
    reports
}

/// The extension by which a transcript is known.
pub open spec fn log_extension() -> Seq<char> {
    seq!['.', 'l', 'o', 'g']
}

/// Whether `name` names a transcript: whether it ends in `.log`.
pub fn is_log_file(name: &str) -> (is_log: bool)
    ensures
        is_log == ends_with(name@, log_extension()),
{
    proof {
        reveal_strlit(".log");
    }
    let extension = ".log";
    assert(extension@ =~= log_extension());
    has_suffix(name, extension)
}

/// Analyses a transcript: finds the regions of its source files, applies
/// every rule to the content of each region, and reports for each file what
/// was found, each finding once and ordered by location.
///
/// The answer is fixed by the transcript: the report, or `NoFileRegionFound`
/// where the transcript has no region of a source file, or `PatternRejected`
/// where the expression engine does not take one of the library's patterns.
pub fn process(log: &str) -> (outcome: Result<Vec<FileReport>, ProcessError>)
    ensures
        report_answer(outcome) == process_result(log@),
        outcome matches Ok(reports) ==> {
            &&& forall|i: int, j: int|
                0 <= i < j < reports.len() ==> reports[i].filename@ != reports[j].filename@
            &&& forall|i: int|
                0 <= i < reports.len() ==> distinct(items_view((#[trigger] reports[i]).items@))
                    && ordered(items_view(reports[i].items@))
        },
{
    let text = to_chars(log);
    let regions = match regions_of(&text) {
        Ok(regions) => regions,
        Err(e) => {
            return Err(e);
        },
    };
    let rules = LogItem::rules();
    let patterns = match compile_rules(&rules) {
        Ok(patterns) => patterns,
        Err(e) => {
            return Err(e);
        },
    };
    let entries = gather(&text, &regions, &rules, &patterns);
    let reports = finish(entries);
    proof {
        let views = reports_view(reports@);
        let found = reports_view(entries@);
        let all = regions_view(regions@);
        let names = names_seen(all, all.len() as int);
        assert(text@ == log@);
        assert(all == file_regions(log@));
        assert(found == collected(log@, all, all.len() as int));
        assert(found.len() == names.len());
        assert(analysis(log@).len() == names.len());
        assert(views.len() == found.len());
        assert forall|i: int| 0 <= i < views.len() implies views[i] == analysis(log@)[i] by {
            assert(views[i] == reports[i]@);
            assert(found[i] == entries[i]@);
        }
        assert(views =~= analysis(log@));
        lemma_extraction_shape(log@, file_regions(log@));
        assert forall|i: int, j: int| 0 <= i < j < reports.len() implies reports[i].filename@
            != reports[j].filename@ by {
            assert(views[i].filename == reports[i].filename@);
            assert(views[j].filename == reports[j].filename@);
        }
        assert forall|i: int| 0 <= i < reports.len() implies distinct(
            items_view((#[trigger] reports[i]).items@),
        ) && ordered(items_view(reports[i].items@)) by {
            assert(views[i].items == items_view(reports[i].items@));
        }
    }
    Ok(reports)
}

} // verus!
