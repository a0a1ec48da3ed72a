//! The report as it is shown: the files in the order of their names, and for
//! each file a heading and a line for every diagnostic.

use crate::extract::{reports_view, FileReport, FileReportView};
use crate::render::{item_segments, plain, segments_view, styled, Segment, SegmentView, Style};
use crate::rules::{items_view, LogItemView};
use crate::text::to_chars;
use vstd::prelude::*;

verus! {

/// Whether the name `a` comes strictly before the name `b`: at the first
/// place where they differ `a` has the smaller character, or `a` ends there
/// and `b` goes on.
pub open spec fn name_before(a: Seq<char>, b: Seq<char>) -> bool
    decreases a.len(),
{
    if b.len() == 0 {
        false
    } else if a.len() == 0 {
        true
    } else if a[0] != b[0] {
        a[0] < b[0]
    } else {
        name_before(a.skip(1), b.skip(1))
    }
}

/// Whether the names of `reports` never step back.
pub open spec fn names_ordered(reports: Seq<FileReportView>) -> bool {
    forall|i: int, j: int|
        0 <= i < j < reports.len() ==> !name_before(reports[j].filename, reports[i].filename)
}

/// Where `report` goes into `sorted`: behind the last entry whose name does
/// not come after its name.
pub open spec fn name_slot(sorted: Seq<FileReportView>, report: FileReportView) -> int
    decreases sorted.len(),
{
    if sorted.len() == 0 {
        0
    } else if !name_before(report.filename, sorted.last().filename) {
        sorted.len() as int
    } else {
        name_slot(sorted.drop_last(), report)
    }
}

/// `reports` in the order of their file names.
pub open spec fn by_filename(reports: Seq<FileReportView>) -> Seq<FileReportView>
    decreases reports.len(),
{
    if reports.len() == 0 {
        Seq::<FileReportView>::empty()
    } else {
        let sorted = by_filename(reports.drop_last());
        sorted.insert(name_slot(sorted, reports.last()), reports.last())
    }
}

/// The heading of a file.
pub open spec fn heading(filename: Seq<char>) -> Seq<SegmentView> {
    seq![styled(Style::Cyan, "File:"@), plain(" "@), plain(filename)]
}

/// A line for each of `items`.
pub open spec fn item_lines(items: Seq<LogItemView>) -> Seq<Seq<SegmentView>> {
    items.map_values(|item: LogItemView| item_segments(item))
}

/// The lines about one file: the heading, an empty line, and the
/// diagnostics.
pub open spec fn file_lines(report: FileReportView) -> Seq<Seq<SegmentView>> {
    seq![heading(report.filename), Seq::<SegmentView>::empty()] + item_lines(report.items)
}

/// The lines about `reports`: those of each file, with an empty line between
/// two files and none behind the last.
pub open spec fn listing_lines(reports: Seq<FileReportView>) -> Seq<Seq<SegmentView>>
    decreases reports.len(),
{
    if reports.len() == 0 {
        Seq::<Seq<SegmentView>>::empty()
    } else if reports.len() == 1 {
        file_lines(reports[0])
    } else {
        listing_lines(reports.drop_last()) + seq![Seq::<SegmentView>::empty()] + file_lines(
            reports.last(),
        )
    }
}

/// The values of lines of segments.
pub open spec fn lines_view(lines: Seq<Vec<Segment>>) -> Seq<Seq<SegmentView>> {
    lines.map_values(|line: Vec<Segment>| segments_view(line@))
}

/// Of three names, where the third comes before the first, the second comes
/// before the first or the third before the second: "comes not after" is a
/// chain.
pub proof fn lemma_name_order_chain(a: Seq<char>, b: Seq<char>, c: Seq<char>)
    requires
        name_before(c, a),
    ensures
        name_before(b, a) || name_before(c, b),
    decreases a.len(),
{
    if b.len() > 0 && c.len() > 0 && c[0] == a[0] && b[0] == a[0] {
        lemma_name_order_chain(a.skip(1), b.skip(1), c.skip(1));
    }
}

/// No name comes before itself, and of two names at most one comes before
/// the other.
pub proof fn lemma_name_order_strict(a: Seq<char>, b: Seq<char>)
    ensures
        !name_before(a, a),
        name_before(a, b) ==> !name_before(b, a),
    decreases a.len(),
{
    if a.len() > 0 {
        lemma_name_order_strict(a.skip(1), a.skip(1));
        if b.len() > 0 && a[0] == b[0] {
            lemma_name_order_strict(a.skip(1), b.skip(1));
        }
    }
}

/// The slot of a report lies inside the list; every entry from it on has a
/// name after the report's, and, where the list is ordered, no entry before
/// it has.
pub proof fn lemma_name_slot(sorted: Seq<FileReportView>, report: FileReportView)
    ensures
        0 <= name_slot(sorted, report) <= sorted.len(),
        forall|i: int|
            name_slot(sorted, report) <= i < sorted.len() ==> name_before(
                report.filename,
                (#[trigger] sorted[i]).filename,
            ),
        names_ordered(sorted) ==> forall|i: int|
            0 <= i < name_slot(sorted, report) ==> !name_before(
                report.filename,
                (#[trigger] sorted[i]).filename,
            ),
    decreases sorted.len(),
{
    if sorted.len() > 0 {
        let front = sorted.drop_last();
        if name_before(report.filename, sorted.last().filename) {
            lemma_name_slot(front, report);
            assert forall|i: int| name_slot(sorted, report) <= i < sorted.len() implies name_before(
                report.filename,
                (#[trigger] sorted[i]).filename,
            ) by {
                if i < front.len() {
                    assert(front[i] == sorted[i]);
                }
            }
            if names_ordered(sorted) {
                assert(names_ordered(front)) by {
                    assert forall|i: int, j: int| 0 <= i < j < front.len() implies !name_before(
                        front[j].filename,
                        front[i].filename,
                    ) by {
                        assert(front[i] == sorted[i] && front[j] == sorted[j]);
                    }
                }
                assert forall|i: int| 0 <= i < name_slot(sorted, report) implies !name_before(
                    report.filename,
                    (#[trigger] sorted[i]).filename,
                ) by {
                    assert(front[i] == sorted[i]);
                }
            }
        } else if names_ordered(sorted) {
            let last = sorted.len() - 1;
            assert forall|i: int| 0 <= i < sorted.len() implies !name_before(
                report.filename,
                (#[trigger] sorted[i]).filename,
            ) by {
                if i < last && name_before(report.filename, sorted[i].filename) {
                    lemma_name_order_chain(
                        sorted[i].filename,
                        sorted[last].filename,
                        report.filename,
                    );
                }
            }
        }
    }
}

/// Ordering by file name gives a list whose names never step back, with the
/// same reports as the input.
pub proof fn lemma_by_filename(reports: Seq<FileReportView>)
    ensures
        names_ordered(by_filename(reports)),
        by_filename(reports).len() == reports.len(),
        by_filename(reports).to_multiset() == reports.to_multiset(),
    decreases reports.len(),
{
    let result = by_filename(reports);
    if reports.len() == 0 {
        assert(result =~= reports);
    } else {
        let front = reports.drop_last();
        let last = reports.last();
        let sorted = by_filename(front);
        let at = name_slot(sorted, last);
        lemma_by_filename(front);
        lemma_name_slot(sorted, last);
        sorted.insert_ensures(at, last);
        vstd::seq_lib::to_multiset_insert(sorted, at, last);
        assert(reports =~= front.push(last));
        vstd::seq_lib::to_multiset_build(front, last);
        assert(result.to_multiset() =~= reports.to_multiset());
        assert forall|i: int, j: int| 0 <= i < j < result.len() implies !name_before(
            result[j].filename,
            result[i].filename,
        ) by {
            if i < at && j > at {
                assert(result[i] == sorted[i] && result[j] == sorted[j - 1]);
            } else if i > at {
                assert(result[i] == sorted[i - 1] && result[j] == sorted[j - 1]);
            } else if j < at {
                assert(result[i] == sorted[i] && result[j] == sorted[j]);
            } else if i == at {
                assert(result[j] == sorted[j - 1]);
                lemma_name_order_strict(last.filename, sorted[j - 1].filename);
            } else {
                assert(result[i] == sorted[i]);
            }
        }
    }
}

/// Whether the name `a` comes strictly before the name `b`.
pub fn comes_before(a: &str, b: &str) -> (before: bool)
    ensures
        before == name_before(a@, b@),
{
    let left = to_chars(a);
    let right = to_chars(b);
    let mut i: usize = 0;
    assert(left@.skip(0) =~= left@ && right@.skip(0) =~= right@);
    while i < left.len() && i < right.len() && left[i] == right[i]
        invariant
            i <= left.len(),
            i <= right.len(),
            name_before(left@, right@) == name_before(left@.skip(i as int), right@.skip(i as int)),
        decreases left.len() - i,
    {
        assert(left@.skip(i as int).skip(1) =~= left@.skip(i + 1));
        assert(right@.skip(i as int).skip(1) =~= right@.skip(i + 1));
        i += 1;
    }
    if i >= right.len() {
        false
    } else if i >= left.len() {
        true
    } else {
        left[i] < right[i]
    }
}

/// Orders reports by the names of their files.
pub fn sort_by_filename(reports: Vec<FileReport>) -> (sorted: Vec<FileReport>)
    ensures
        reports_view(sorted@) == by_filename(reports_view(reports@)),
        names_ordered(reports_view(sorted@)),
        reports_view(sorted@).to_multiset() == reports_view(reports@).to_multiset(),
{
    let ghost all = reports_view(reports@);
    let mut sorted: Vec<FileReport> = Vec::new();
    assert(reports_view(sorted@) =~= by_filename(all.take(0)));
    for report in it: reports
        invariant
            it.seq() == reports@,
            all == reports_view(reports@),
            reports_view(sorted@) == by_filename(all.take(it.index() as int)),
    {
        let ghost before = reports_view(sorted@);
        assert(all.take(it.index() + 1).drop_last() =~= all.take(it.index() as int));
        assert(all.take(it.index() + 1).last() == report@);
        let mut at: usize = sorted.len();
        assert(before.take(at as int) =~= before);
        while at > 0 && comes_before(report.filename.as_str(), sorted[at - 1].filename.as_str())
            invariant
                at <= sorted.len(),
                before == reports_view(sorted@),
                name_slot(before, report@) == name_slot(before.take(at as int), report@),
            decreases at,
        {
            assert(before.take(at as int).drop_last() =~= before.take(at - 1));
            assert(before.take(at as int).last() == sorted@[at - 1]@);
            at -= 1;
        }
        proof {
            lemma_name_slot(before.take(at as int), report@);
            if at > 0 {
                assert(before.take(at as int).last() == sorted@[at - 1]@);
            }
            assert(name_slot(before, report@) == at);
        }
        sorted.insert(at, report);
        assert(reports_view(sorted@) =~= before.insert(at as int, report@));
    }
    assert(all.take(all.len() as int) =~= all);
    proof {
        lemma_by_filename(all);
    }
    sorted
}

/// The heading of a file.
pub fn heading_line(filename: &str) -> (line: Vec<Segment>)
    ensures
        segments_view(line@) == heading(filename@),
{
    let mut line: Vec<Segment> = Vec::new();
    line.push(Segment::new(Style::Cyan, "File:"));
    line.push(Segment::plain(" "));
    line.push(Segment::plain(filename));
    assert(segments_view(line@) =~= heading(filename@));
    line
}

/// Appends the lines about one file.
fn push_file_lines(lines: &mut Vec<Vec<Segment>>, report: &FileReport)
    ensures
        lines_view(final(lines)@) == lines_view(old(lines)@) + file_lines(report@),
{
    let ghost before = lines_view(lines@);
    lines.push(heading_line(report.filename.as_str()));
    let blank: Vec<Segment> = Vec::new();
    assert(segments_view(blank@) =~= Seq::<SegmentView>::empty());
    lines.push(blank);
    let ghost head = lines_view(lines@);
    assert(head =~= before + seq![heading(report@.filename), Seq::<SegmentView>::empty()]);
    let ghost items = items_view(report.items@);
    let mut i: usize = 0;
    assert(item_lines(items.take(0)) =~= Seq::<Seq<SegmentView>>::empty());
    while i < report.items.len()
        invariant
            i <= report.items.len(),
            items == items_view(report.items@),
            lines_view(lines@) == head + item_lines(items.take(i as int)),
        decreases report.items.len() - i,
    {
        let ghost so_far = lines_view(lines@);
        lines.push(report.items[i].segments());
        assert(lines_view(lines@) =~= so_far.push(item_segments(items[i as int])));
        assert(item_lines(items.take(i + 1)) =~= item_lines(items.take(i as int)).push(
            item_segments(items[i as int]),
        ));
        i += 1;
    }
    assert(items.take(i as int) =~= items);
    assert(lines_view(lines@) =~= before + file_lines(report@));
}

/// The lines that show `reports`: for each file its heading, an empty line
/// and its diagnostics, with an empty line between two files.
pub fn listing(reports: &Vec<FileReport>) -> (lines: Vec<Vec<Segment>>)
    ensures
        lines_view(lines@) == listing_lines(reports_view(reports@)),
{
    let ghost all = reports_view(reports@);
    let mut lines: Vec<Vec<Segment>> = Vec::new();
    let mut i: usize = 0;
    assert(lines_view(lines@) =~= listing_lines(all.take(0)));
    while i < reports.len()
        invariant
            i <= reports.len(),
            all == reports_view(reports@),
            lines_view(lines@) == listing_lines(all.take(i as int)),
        decreases reports.len() - i,
    {
        let ghost before = lines_view(lines@);
        assert(all.take(i + 1).drop_last() =~= all.take(i as int));
        assert(all.take(i + 1).last() == reports@[i as int]@);
        assert(all.take(i + 1)[0] == all[0]);
        if i > 0 {
            let blank: Vec<Segment> = Vec::new();
            assert(segments_view(blank@) =~= Seq::<SegmentView>::empty());
            lines.push(blank);
            assert(lines_view(lines@) =~= before + seq![Seq::<SegmentView>::empty()]);
        } else {
            assert(before + file_lines(reports@[0]@) =~= file_lines(reports@[0]@));
        }
        push_file_lines(&mut lines, &reports[i]);
        i += 1;
    }
    assert(all.take(i as int) =~= all);
    lines
}

} // verus!
