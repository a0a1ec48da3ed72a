//! Finding the blocks of the transcript that belong to source files.
//!
//! TeX opens a parenthesis when it starts to read a file and closes it when
//! it is done, so the nesting of the parentheses is the nesting of the files.

use crate::content::Span;
use crate::error::ProcessError;
use crate::matcher::{all_captures, captures_view, regex_accepts, regex_captures, text_of};
use crate::matcher::{Captures, Groups, Pattern};
use crate::text::{lemma_without_leading, slice_to_string, starts_with, strip_leading, to_chars};
use crate::text::without_leading;
use crate::utils::PatternBuilder;
use vstd::prelude::*;
use vstd::string::*;

verus! {

/// What a scan of the transcript knows after some characters: the opening
/// parentheses that are not closed yet, outermost first, and the blocks that
/// are closed, in the order in which they were closed.
pub struct Scan {
    pub open: Seq<usize>,
    pub closed: Seq<Span>,
}

/// The scan after one more character, `c` at position `at`. A closing
/// parenthesis closes the innermost open block; one that closes nothing is
/// passed over.
pub open spec fn scan_step(state: Scan, at: usize, c: char) -> Scan {
    if c == '(' {
        Scan { open: state.open.push(at), closed: state.closed }
    } else if c == ')' && state.open.len() > 0 {
        Scan { open: state.open.drop_last(), closed: state.closed.push((state.open.last(), at)) }
    } else {
        state
    }
}

/// The scan after the first `upto` characters of `text`.
pub open spec fn scan(text: Seq<char>, upto: int) -> Scan
    decreases upto,
{
    if upto <= 0 {
        Scan { open: Seq::<usize>::empty(), closed: Seq::<Span>::empty() }
    } else {
        scan_step(scan(text, upto - 1), (upto - 1) as usize, text[upto - 1])
    }
}

/// The blocks of the parentheses that are still open at the end of the
/// transcript, innermost first: each reaches to `end`.
pub open spec fn unwind(open: Seq<usize>, end: usize) -> Seq<Span>
    decreases open.len(),
{
    if open.len() == 0 {
        Seq::<Span>::empty()
    } else {
        seq![(open.last(), end)] + unwind(open.drop_last(), end)
    }
}

/// All blocks of `text`: the closed ones in the order in which they are
/// closed, then those that the end of the transcript cuts short. A block
/// starts at its opening parenthesis and ends before its closing one.
pub open spec fn paren_blocks(text: Seq<char>) -> Seq<Span> {
    let last = scan(text, text.len() as int);
    last.closed + unwind(last.open, text.len() as usize)
}

/// The pattern that a block of a source file starts with: the parenthesis
/// and, on the same line, a name that ends in `.tex`.
pub open spec fn tex_pattern() -> Seq<char> {
    r"^\((.+)\.tex"@
}

/// The prefix that says "in this directory", which a file name is rid of.
pub open spec fn here_prefix() -> Seq<char> {
    seq!['.', '/']
}

/// The extension of a source file.
pub open spec fn tex_extension() -> Seq<char> {
    seq!['.', 't', 'e', 'x']
}

/// The name of the file whose name without extension reads `stem` in the
/// transcript: the stem without the prefix at its start, and the extension.
pub open spec fn file_name(stem: Seq<char>) -> Seq<char> {
    without_leading(stem, here_prefix()) + tex_extension()
}

/// No file name starts with the prefix that says "in this directory".
pub proof fn lemma_file_name_has_no_prefix(stem: Seq<char>)
    ensures
        !starts_with(file_name(stem), here_prefix()),
{
    let bare = without_leading(stem, here_prefix());
    let name = file_name(stem);
    lemma_without_leading(stem, here_prefix());
    if starts_with(name, here_prefix()) {
        assert(name.subrange(0, 2)[0] == '.' && name.subrange(0, 2)[1] == '/');
        if bare.len() >= 2 {
            assert(bare.subrange(0, 2) =~= name.subrange(0, 2));
        } else if bare.len() == 1 {
            assert(name[1] == tex_extension()[0]);
        } else {
            assert(name[1] == tex_extension()[1]);
        }
    }
}

/// What asking for the regions of `text` gives: `PatternRejected` where the
/// engine does not take the file pattern; else `NoFileRegionFound` where no
/// block belongs to a source file; else the regions.
pub open spec fn regions_outcome(text: Seq<char>) -> Result<Seq<FileRegionView>, ProcessError> {
    if !regex_accepts(tex_pattern()) {
        Err(ProcessError::PatternRejected)
    } else if file_regions(text).len() == 0 {
        Err(ProcessError::NoFileRegionFound)
    } else {
        Ok(file_regions(text))
    }
}

/// The value of an answer about regions.
pub open spec fn regions_answer(found: Result<Vec<FileRegion>, ProcessError>) -> Result<
    Seq<FileRegionView>,
    ProcessError,
> {
    match found {
        Ok(regions) => Ok(regions_view(regions@)),
        Err(e) => Err(e),
    }
}

/// The file that the matches of the pattern name: that of the first match,
/// if there is one.
pub open spec fn named_by(found: Seq<Groups>) -> Option<Seq<char>> {
    if found.len() > 0 {
        match text_of(found[0], 1) {
            Some(stem) => Some(file_name(stem)),
            None => None,
        }
    } else {
        None
    }
}

/// The source file that a block with this text belongs to, if any.
pub open spec fn tex_name(block: Seq<char>) -> Option<Seq<char>> {
    named_by(regex_captures(tex_pattern(), block))
}

/// A block of the transcript that belongs to a source file.
#[derive(Clone, Debug, PartialEq, Eq)]
pub struct FileRegion {
    pub start: usize,
    pub end: usize,
    pub filename: String,
}

/// The mathematical value of a `FileRegion`.
pub struct FileRegionView {
    pub start: usize,
    pub end: usize,
    pub filename: Seq<char>,
}

impl View for FileRegion {
    type V = FileRegionView;

    open spec fn view(&self) -> FileRegionView {
        FileRegionView { start: self.start, end: self.end, filename: self.filename@ }
    }
}

/// The values of a list of regions.
pub open spec fn regions_view(regions: Seq<FileRegion>) -> Seq<FileRegionView> {
    regions.map_values(|r: FileRegion| r@)
}

/// The span of each region.
pub open spec fn spans_of(regions: Seq<FileRegionView>) -> Seq<Span> {
    regions.map_values(|r: FileRegionView| (r.start, r.end))
}

/// The blocks that belong to a source file, in the order of `blocks`, each
/// with the name of its file.
pub open spec fn kept_regions(text: Seq<char>, blocks: Seq<Span>) -> Seq<FileRegionView>
    decreases blocks.len(),
{
    if blocks.len() == 0 {
        Seq::<FileRegionView>::empty()
    } else {
        let kept = kept_regions(text, blocks.drop_last());
        let block = blocks.last();
        match tex_name(text.subrange(block.0 as int, block.1 as int)) {
            Some(filename) => kept.push(
                FileRegionView { start: block.0, end: block.1, filename },
            ),
            None => kept,
        }
    }
}

/// `regions` with the last one drawn out to `end`: what TeX reports after it
/// has closed the main file still belongs to that file.
pub open spec fn widen_last(regions: Seq<FileRegionView>, end: usize) -> Seq<FileRegionView> {
    if regions.len() == 0 {
        regions
    } else {
        regions.update(
            regions.len() - 1,
            FileRegionView { start: regions.last().start, end, filename: regions.last().filename },
        )
    }
}

/// The regions of the source files in `text`, each before the regions that
/// enclose it.
pub open spec fn file_regions(text: Seq<char>) -> Seq<FileRegionView> {
    widen_last(kept_regions(text, paren_blocks(text)), text.len() as usize)
}

/// Whether every region is non-empty and ends inside the text.
pub open spec fn regions_within(regions: Seq<FileRegionView>, len: int) -> bool {
    forall|i: int| 0 <= i < regions.len() ==> (#[trigger] regions[i]).start < regions[i].end <= len
}

/// Whether every block is non-empty and ends inside the text.
pub open spec fn blocks_within(blocks: Seq<Span>, len: int) -> bool {
    forall|i: int| 0 <= i < blocks.len() ==> (#[trigger] blocks[i]).0 < blocks[i].1 <= len
}

/// What holds of a scan after `upto` characters: open parentheses rise and
/// lie before `upto`; closed blocks are non-empty and end before `upto`; no
/// open parenthesis stands inside a closed block; a closed block that starts
/// inside another one was closed before it.
pub open spec fn scan_sound(state: Scan, upto: int) -> bool {
    &&& forall|i: int| 0 <= i < state.open.len() ==> (#[trigger] state.open[i]) < upto
    &&& forall|i: int, j: int|
        0 <= i < j < state.open.len() ==> (#[trigger] state.open[i]) < (#[trigger] state.open[j])
    &&& forall|k: int|
        0 <= k < state.closed.len() ==> (#[trigger] state.closed[k]).0 < state.closed[k].1 < upto
    &&& forall|k: int, i: int|
        0 <= k < state.closed.len() && 0 <= i < state.open.len() ==> !((
        #[trigger] state.closed[k]).0 < (#[trigger] state.open[i]) < state.closed[k].1)
    &&& forall|j: int, k: int|
        0 <= j < state.closed.len() && 0 <= k < state.closed.len() && (
        #[trigger] state.closed[k]).0 < (#[trigger] state.closed[j]).0 < state.closed[k].1 ==> j
            < k
}

/// Every scan is sound.
pub proof fn lemma_scan_sound(text: Seq<char>, upto: int)
    requires
        0 <= upto <= text.len() <= usize::MAX,
    ensures
        scan_sound(scan(text, upto), upto),
    decreases upto,
{
    if upto > 0 {
        lemma_scan_sound(text, upto - 1);
        let before = scan(text, upto - 1);
        let after = scan(text, upto);
        let c = text[upto - 1];
        if c == '(' {
            assert forall|i: int, j: int| 0 <= i < j < after.open.len() implies (
            #[trigger] after.open[i]) < (#[trigger] after.open[j]) by {
                assert(after.open[i] == before.open[i]);
                if j < before.open.len() {
                    assert(after.open[j] == before.open[j]);
                }
            }
            assert forall|k: int, i: int|
                0 <= k < after.closed.len() && 0 <= i < after.open.len() implies !((
            #[trigger] after.closed[k]).0 < (#[trigger] after.open[i]) < after.closed[k].1) by {
                if i < before.open.len() {
                    assert(after.open[i] == before.open[i]);
                }
            }
        } else if c == ')' && before.open.len() > 0 {
            let n = before.closed.len() as int;
            assert forall|i: int| 0 <= i < after.open.len() implies (#[trigger] after.open[i])
                < upto by {
                assert(after.open[i] == before.open[i]);
            }
            assert forall|i: int, j: int| 0 <= i < j < after.open.len() implies (
            #[trigger] after.open[i]) < (#[trigger] after.open[j]) by {
                assert(after.open[i] == before.open[i] && after.open[j] == before.open[j]);
            }
            assert forall|k: int| 0 <= k < after.closed.len() implies (
            #[trigger] after.closed[k]).0 < after.closed[k].1 < upto by {
                if k < n {
                    assert(after.closed[k] == before.closed[k]);
                } else {
                    assert(before.open[before.open.len() - 1] < upto - 1);
                }
            }
            assert forall|k: int, i: int|
                0 <= k < after.closed.len() && 0 <= i < after.open.len() implies !((
            #[trigger] after.closed[k]).0 < (#[trigger] after.open[i]) < after.closed[k].1) by {
                assert(after.open[i] == before.open[i]);
                if k < n {
                    assert(after.closed[k] == before.closed[k]);
                } else {
                    assert(before.open[i] < before.open[before.open.len() - 1]);
                }
            }
            assert forall|j: int, k: int|
                0 <= j < after.closed.len() && 0 <= k < after.closed.len() && (
                #[trigger] after.closed[k]).0 < (#[trigger] after.closed[j]).0
                    < after.closed[k].1 implies j < k by {
                if k < n {
                    assert(after.closed[k] == before.closed[k]);
                    if j < n {
                        assert(after.closed[j] == before.closed[j]);
                    } else {
                        assert(after.closed[j].0 == before.open[before.open.len() - 1]);
                    }
                }
            }
        }
    }
}

/// The blocks that the end cuts short are those of the open parentheses, from
/// the innermost to the outermost.
pub proof fn lemma_unwind(open: Seq<usize>, end: usize)
    ensures
        unwind(open, end).len() == open.len(),
        forall|i: int|
            0 <= i < open.len() ==> #[trigger] unwind(open, end)[i] == (
                open[open.len() - 1 - i],
                end,
            ),
    decreases open.len(),
{
    if open.len() > 0 {
        lemma_unwind(open.drop_last(), end);
        assert forall|i: int| 0 <= i < open.len() implies #[trigger] unwind(open, end)[i] == (
            open[open.len() - 1 - i],
            end,
        ) by {
            if i > 0 {
                assert(unwind(open, end)[i] == unwind(open.drop_last(), end)[i - 1]);
                assert(open.drop_last()[open.len() - 1 - i] == open[open.len() - 1 - i]);
            }
        }
    }
}

/// Every block is non-empty and lies inside the text, and a block that
/// starts inside another block stands before it: when a block is reached,
/// all blocks nested in it have been reached already.
pub proof fn lemma_blocks_nested_first(text: Seq<char>)
    requires
        text.len() <= usize::MAX,
    ensures
        blocks_within(paren_blocks(text), text.len() as int),
        forall|j: int, k: int|
            0 <= j < paren_blocks(text).len() && 0 <= k < paren_blocks(text).len() && (
            #[trigger] paren_blocks(text)[k]).0 < (#[trigger] paren_blocks(text)[j]).0
                < paren_blocks(text)[k].1 ==> j < k,
{
    let len = text.len() as int;
    let last = scan(text, len);
    let blocks = paren_blocks(text);
    let n = last.closed.len() as int;
    let m = last.open.len() as int;
    lemma_scan_sound(text, len);
    lemma_unwind(last.open, len as usize);
    assert forall|i: int| 0 <= i < blocks.len() implies (#[trigger] blocks[i]).0 < blocks[i].1
        <= len by {
        if i < n {
            assert(blocks[i] == last.closed[i]);
        } else {
            assert(blocks[i] == unwind(last.open, len as usize)[i - n]);
            assert(last.open[m - 1 - (i - n)] < len);
        }
    }
    assert forall|j: int, k: int|
        0 <= j < blocks.len() && 0 <= k < blocks.len() && (#[trigger] blocks[k]).0 < (
        #[trigger] blocks[j]).0 < blocks[k].1 implies j < k by {
        if k < n {
            assert(blocks[k] == last.closed[k]);
            if j < n {
                assert(blocks[j] == last.closed[j]);
            } else {
                assert(blocks[j] == unwind(last.open, len as usize)[j - n]);
                assert(blocks[j].0 == last.open[m - 1 - (j - n)]);
            }
        } else {
            assert(blocks[k] == unwind(last.open, len as usize)[k - n]);
            if j >= n {
                assert(blocks[j] == unwind(last.open, len as usize)[j - n]);
                assert(blocks[k].0 == last.open[m - 1 - (k - n)]);
                assert(blocks[j].0 == last.open[m - 1 - (j - n)]);
            }
        }
    }
}

/// A parenthesis that is never closed still gives a block, and that block
/// reaches to the end of the text.
pub proof fn lemma_unclosed_block_reaches_end(text: Seq<char>, i: int)
    requires
        text.len() <= usize::MAX,
        0 <= i < scan(text, text.len() as int).open.len(),
    ensures
        paren_blocks(text).contains((scan(text, text.len() as int).open[i], text.len() as usize)),
{
    let last = scan(text, text.len() as int);
    let end = text.len() as usize;
    lemma_unwind(last.open, end);
    let at = last.open.len() - 1 - i;
    assert(unwind(last.open, end)[at] == (last.open[i], end));
    assert(paren_blocks(text)[last.closed.len() + at] == (last.open[i], end));
}

/// Whether `region` is what the block at index `b` gives: its span, with
/// the name that its text holds.
pub open spec fn region_of_block(
    text: Seq<char>,
    blocks: Seq<Span>,
    b: int,
    region: FileRegionView,
) -> bool {
    &&& 0 <= b < blocks.len()
    &&& blocks[b] == (region.start, region.end)
    &&& tex_name(text.subrange(blocks[b].0 as int, blocks[b].1 as int)) == Some(region.filename)
}

/// Every kept region is one of the blocks, with the name that the block's
/// text gives it: the result is the index of that block.
pub proof fn lemma_kept_region_origin(text: Seq<char>, blocks: Seq<Span>, r: int) -> (b: int)
    requires
        0 <= r < kept_regions(text, blocks).len(),
    ensures
        region_of_block(text, blocks, b, kept_regions(text, blocks)[r]),
    decreases blocks.len(),
{
    let front = blocks.drop_last();
    let head = kept_regions(text, front);
    if r < head.len() {
        let b = lemma_kept_region_origin(text, front, r);
        assert(blocks[b] == front[b]);
        b
    } else {
        blocks.len() - 1
    }
}

/// Every block that names a file is kept: the result is the index of its
/// region.
pub proof fn lemma_block_kept(text: Seq<char>, blocks: Seq<Span>, b: int) -> (r: int)
    requires
        0 <= b < blocks.len(),
        tex_name(text.subrange(blocks[b].0 as int, blocks[b].1 as int)) is Some,
    ensures
        0 <= r < kept_regions(text, blocks).len(),
        region_of_block(text, blocks, b, kept_regions(text, blocks)[r]),
    decreases blocks.len(),
{
    let front = blocks.drop_last();
    let head = kept_regions(text, front);
    if b < front.len() {
        assert(front[b] == blocks[b]);
        let r = lemma_block_kept(text, front, b);
        r
    } else {
        head.len() as int
    }
}

/// Among the kept regions too, a region that starts inside another one
/// stands before it.
pub proof fn lemma_kept_nested_first(text: Seq<char>, upto: int)
    requires
        text.len() <= usize::MAX,
        0 <= upto <= paren_blocks(text).len(),
    ensures
        kept_regions(text, paren_blocks(text).take(upto)).len() <= upto,
        forall|j: int, k: int|
            #![trigger kept_regions(text, paren_blocks(text).take(upto))[j], kept_regions(text, paren_blocks(text).take(upto))[k]]
            0 <= j < kept_regions(text, paren_blocks(text).take(upto)).len() && 0 <= k
                < kept_regions(text, paren_blocks(text).take(upto)).len() && kept_regions(
                text,
                paren_blocks(text).take(upto),
            )[k].start < kept_regions(text, paren_blocks(text).take(upto))[j].start
                < kept_regions(text, paren_blocks(text).take(upto))[k].end ==> j < k,
    decreases upto,
{
    let blocks = paren_blocks(text);
    let kept = kept_regions(text, blocks.take(upto));
    if upto > 0 {
        let front = blocks.take(upto - 1);
        let head = kept_regions(text, front);
        assert(blocks.take(upto).drop_last() =~= front);
        lemma_kept_nested_first(text, upto - 1);
        lemma_blocks_nested_first(text);
        assert forall|j: int, k: int|
            0 <= j < kept.len() && 0 <= k < kept.len() && (#[trigger] kept[k]).start < (
            #[trigger] kept[j]).start < kept[k].end implies j < k by {
            if k < head.len() {
                assert(kept[k] == head[k]);
                if j < head.len() {
                    assert(kept[j] == head[j]);
                } else {
                    let b = lemma_kept_region_origin(text, front, k);
                    assert(blocks[b] == front[b]);
                    assert(kept[j].start == blocks[upto - 1].0);
                    assert(blocks[b].0 < blocks[upto - 1].0 < blocks[b].1);
                }
            }
        }
    }
}

/// Every region of a transcript is non-empty and ends inside the text.
pub proof fn lemma_regions_within(text: Seq<char>)
    requires
        text.len() <= usize::MAX,
    ensures
        regions_within(file_regions(text), text.len() as int),
{
    let blocks = paren_blocks(text);
    let regions = file_regions(text);
    lemma_blocks_nested_first(text);
    assert forall|i: int| 0 <= i < regions.len() implies (#[trigger] regions[i]).start
        < regions[i].end <= text.len() by {
        let b = lemma_kept_region_origin(text, blocks, i);
        assert(blocks[b].0 < blocks[b].1 <= text.len());
    }
}

/// No region of a transcript has a file name that starts with the directory
/// prefix.
pub proof fn lemma_region_names_have_no_prefix(text: Seq<char>, r: int)
    requires
        0 <= r < file_regions(text).len(),
    ensures
        !starts_with(file_regions(text)[r].filename, here_prefix()),
{
    let blocks = paren_blocks(text);
    let kept = kept_regions(text, blocks);
    let b = lemma_kept_region_origin(text, blocks, r);
    let found = regex_captures(tex_pattern(), text.subrange(blocks[b].0 as int, blocks[b].1 as int));
    assert(named_by(found) == Some(kept[r].filename));
    lemma_file_name_has_no_prefix(text_of(found[0], 1)->Some_0);
    assert(file_regions(text)[r].filename == kept[r].filename);
}

/// In the regions of a transcript, a region that starts strictly inside
/// another one stands before it.
pub proof fn lemma_regions_nested_first(text: Seq<char>, j: int, k: int)
    requires
        text.len() <= usize::MAX,
        0 <= j < file_regions(text).len(),
        0 <= k < file_regions(text).len(),
        file_regions(text)[k].start < file_regions(text)[j].start < file_regions(text)[k].end,
    ensures
        j < k,
{
    let blocks = paren_blocks(text);
    let kept = kept_regions(text, blocks);
    assert(blocks.take(blocks.len() as int) =~= blocks);
    lemma_kept_nested_first(text, blocks.len() as int);
    if k < kept.len() - 1 {
        assert(file_regions(text)[k] == kept[k]);
        assert(file_regions(text)[j].start == kept[j].start);
        assert(kept[k].start < kept[j].start < kept[k].end);
    }
}

/// A transcript that breaks off inside a source file still has a region for
/// that file, and the region reaches to the end of the text: the result is
/// its index among the regions.
pub proof fn lemma_unclosed_file_region(text: Seq<char>, i: int) -> (r: int)
    requires
        text.len() <= usize::MAX,
        0 <= i < scan(text, text.len() as int).open.len(),
        tex_name(
            text.subrange(scan(text, text.len() as int).open[i] as int, text.len() as int),
        ) is Some,
    ensures
        0 <= r < file_regions(text).len(),
        file_regions(text)[r] == (FileRegionView {
            start: scan(text, text.len() as int).open[i],
            end: text.len() as usize,
            filename: tex_name(
                text.subrange(scan(text, text.len() as int).open[i] as int, text.len() as int),
            )->Some_0,
        }),
{
    let last = scan(text, text.len() as int);
    let end = text.len() as usize;
    let blocks = paren_blocks(text);
    lemma_unwind(last.open, end);
    let at = last.open.len() - 1 - i;
    let b = last.closed.len() + at;
    assert(unwind(last.open, end)[at] == (last.open[i], end));
    assert(blocks[b] == (last.open[i], end));
    lemma_block_kept(text, blocks, b)
}

/// The last region of a transcript reaches to its end, whether or not its
/// block was ever closed.
pub proof fn lemma_last_region_reaches_end(text: Seq<char>)
    requires
        file_regions(text).len() > 0,
    ensures
        file_regions(text).last().end == text.len() as usize,
{
}

/// All blocks of `text`.
pub fn find_blocks(text: &Vec<char>) -> (blocks: Vec<Span>)
    ensures
        blocks@ == paren_blocks(text@),
        blocks_within(blocks@, text.len() as int),
{
    let mut open: Vec<usize> = Vec::new();
    let mut closed: Vec<Span> = Vec::new();
    let mut at: usize = 0;
    while at < text.len()
        invariant
            at <= text.len(),
            open@ == scan(text@, at as int).open,
            closed@ == scan(text@, at as int).closed,
        decreases text.len() - at,
    {
        let c = text[at];
        if c == '(' {
            open.push(at);
        } else if c == ')' {
            if let Some(start) = open.pop() {
                closed.push((start, at));
            }
        }
        at += 1;
    }
    let end = text.len();
    while open.len() > 0
        invariant
            end == text.len(),
            closed@ + unwind(open@, end) == paren_blocks(text@),
        decreases open.len(),
    {
        let ghost before = closed@;
        let ghost rest = open@;
        let start = open.pop();
        if let Some(start) = start {
            closed.push((start, end));
            assert(closed@ + unwind(open@, end) =~= before + unwind(rest, end));
        }
    }
    assert(closed@ + unwind(open@, end) =~= closed@);
    proof {
        lemma_blocks_nested_first(text@);
    }
    closed
}

/// The name of the file whose name without extension reads `stem`: the
/// stem without the directory prefix at its start, and the extension.
pub fn normalize_filename(stem: &str) -> (filename: String)
    ensures
        filename@ == file_name(stem@),
        !starts_with(filename@, here_prefix()),
{
    proof {
        reveal_strlit("./");
        reveal_strlit(".tex");
        lemma_file_name_has_no_prefix(stem@);
    }
    let here = "./";
    let extension = ".tex";
    assert(here@ =~= here_prefix());
    assert(extension@ =~= tex_extension());
    strip_leading(stem, here).concat(extension)
}

/// The file that the matches of the file pattern name.
pub fn file_name_of(found: &Vec<Captures>) -> (filename: Option<String>)
    ensures
        match filename {
            Some(name) => named_by(captures_view(found@)) == Some(name@),
            None => named_by(captures_view(found@)) is None,
        },
{
    if found.len() == 0 {
        return None;
    }
    assert(captures_view(found@)[0] == found@[0]@);
    match found[0].get(1) {
        Some(stem) => Some(normalize_filename(stem.as_str())),
        None => None,
    }
}

/// Compiles the pattern that a block of a source file starts with:
/// succeeds exactly where the engine takes it.
pub fn tex_regex() -> (compiled: Result<Pattern, ProcessError>)
    ensures
        compiled is Ok <==> regex_accepts(tex_pattern()),
        compiled matches Ok(pattern) ==> pattern@ == tex_pattern(),
        compiled matches Err(e) ==> e == ProcessError::PatternRejected,
{
    PatternBuilder::new().raw(r"^\((.+)\.tex").compile()
}

/// Draws the last region out to `end`; without any region there is nothing
/// to report on.
pub fn widen_last_region(regions: Vec<FileRegion>, end: usize) -> (widened: Result<
    Vec<FileRegion>,
    ProcessError,
>)
    ensures
        match widened {
            Ok(list) => list.len() == regions.len() && regions.len() > 0 && regions_view(list@)
                == widen_last(regions_view(regions@), end),
            Err(e) => regions.len() == 0 && e == ProcessError::NoFileRegionFound,
        },
{
    let mut regions = regions;
    let ghost before = regions_view(regions@);
    match regions.pop() {
        Some(last) => {
            regions.push(FileRegion { start: last.start, end, filename: last.filename });
            assert(regions_view(regions@) =~= widen_last(before, end));
            Ok(regions)
        },
        None => Err(ProcessError::NoFileRegionFound),
    }
}

/// The regions of the source files in a transcript given as characters.
pub fn regions_of(text: &Vec<char>) -> (found: Result<Vec<FileRegion>, ProcessError>)
    ensures
        regions_answer(found) == regions_outcome(text@),
        regions_within(file_regions(text@), text.len() as int),
{
    let end = text.len();
    proof {
        lemma_regions_within(text@);
    }
    let pattern = match tex_regex() {
        Ok(re) => re,
        Err(e) => {
            return Err(e);
        },
    };
    let blocks = find_blocks(text);
    let mut regions: Vec<FileRegion> = Vec::new();
    let mut i: usize = 0;
    assert(regions_view(regions@) =~= kept_regions(text@, blocks@.take(0)));
    while i < blocks.len()
        invariant
            i <= blocks.len(),
            blocks@ == paren_blocks(text@),
            blocks_within(blocks@, text.len() as int),
            pattern@ == tex_pattern(),
            regions_view(regions@) == kept_regions(text@, blocks@.take(i as int)),
        decreases blocks.len() - i,
    {
        let ghost before = regions_view(regions@);
        assert(blocks@.take(i + 1).drop_last() =~= blocks@.take(i as int));
        assert(blocks@.take(i + 1).last() == blocks@[i as int]);
        let (start, end) = blocks[i];
        let block = slice_to_string(text, start, end);
        let found = all_captures(&pattern, block.as_str());
        match file_name_of(&found) {
            Some(filename) => {
                regions.push(FileRegion { start, end, filename });
                assert(regions_view(regions@) =~= before.push(
                    FileRegionView { start, end, filename: filename@ },
                ));
            },
            None => {},
        }
        i += 1;
    }
    assert(blocks@.take(i as int) =~= blocks@);
    widen_last_region(regions, end)
}

/// The regions of the source files in a transcript: each block that starts
/// with the name of a `.tex` file, innermost first, the last one drawn out to
/// the end of the transcript. Fails with `NoFileRegionFound` exactly when
/// the engine takes the file pattern and there is no such block, and with
/// `PatternRejected` exactly when the engine does not take the file pattern.
pub fn get_file_block_indices(log: &str) -> (found: Result<Vec<FileRegion>, ProcessError>)
    ensures
        regions_answer(found) == regions_outcome(log@),
{
    let text = to_chars(log);
    regions_of(&text)
}

} // verus!
