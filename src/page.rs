//! Pages and documents: from text operations to the lines of a transcript.
use vstd::prelude::*;
use crate::extract::{Operation, UndecodableText, extracted, text_objects, views, ObjView};
use crate::line::{Line, LineView, line_for, transform_to_line_object};
use crate::rows::{
    lemma_rows_by_y_filled, merge_lines, merge_rows, reading_order, row_views, rows_by_y,
    sort_text_objects_to_lines,
};
use crate::settings::{PageSettings, UNITS_PER_POINT};

verus! {

/// How far apart rows may lie and still be read as one line.
pub const ROW_TOLERANCE: i64 = 5 * UNITS_PER_POINT;

pub open spec fn line_views(ls: Seq<Line>) -> Seq<LineView> {
    ls.map_values(|l: Line| l@)
}

/// The lines that rows give on a page, leaving out the empty ones.
pub open spec fn row_lines(rows: Seq<Seq<ObjView>>, page: usize, st: PageSettings) -> Seq<LineView>
    decreases rows.len(),
{
    if rows.len() == 0 {
        Seq::empty()
    } else {
        let kept = row_lines(rows.drop_last(), page, st);
        let l = line_for(rows.last(), page, st);
        if l.is_empty() {
            kept
        } else {
            kept.push(l)
        }
    }
}

/// The merged rows of a page's text objects.
pub open spec fn page_rows(found: Seq<ObjView>) -> Seq<Seq<ObjView>> {
    merge_rows(rows_by_y(reading_order(found)), ROW_TOLERANCE as int)
}

/// The lines of a page's text objects.
pub open spec fn page_lines(found: Seq<ObjView>, page: usize, st: PageSettings) -> Seq<LineView> {
    row_lines(page_rows(found), page, st)
}

/// No line that rows give is empty.
pub proof fn lemma_row_lines_not_empty(rows: Seq<Seq<ObjView>>, page: usize, st: PageSettings)
    ensures
        forall|k: int|
            0 <= k < row_lines(rows, page, st).len() ==> !(#[trigger] row_lines(rows, page, st)[k]).is_empty(),
    decreases rows.len(),
{
    if rows.len() > 0 {
        lemma_row_lines_not_empty(rows.drop_last(), page, st);
        let kept = row_lines(rows.drop_last(), page, st);
        let all = row_lines(rows, page, st);
        assert forall|k: int| 0 <= k < all.len() implies !(#[trigger] all[k]).is_empty() by {
            if k < kept.len() {
                assert(all[k] == kept[k]);
            }
        }
    }
}

/// The lines of one page, from its content operations; a page without
/// content has no lines.
pub fn parse_text_objects_on_page(
    contents: &Option<Vec<Operation>>,
    settings: &PageSettings,
    page_num: usize,
) -> (r: Result<Vec<Line>, UndecodableText>)
    ensures
        match contents {
            None => r is Ok && r->Ok_0@.len() == 0,
            Some(ops) => match extracted(ops@) {
                None => r is Err,
                Some(found) => r is Ok && line_views(r->Ok_0@) == page_lines(found, page_num, *settings),
            },
        },
        r is Ok ==> forall|k: int| 0 <= k < r->Ok_0@.len() ==> !(#[trigger] r->Ok_0@[k])@.is_empty(),
{
    let ops = match contents {
        Some(c) => c,
        None => {
            return Ok(Vec::new());
        },
    };
    let objects = match text_objects(ops) {
        Ok(v) => v,
        Err(e) => {
            return Err(e);
        },
    };
    let ghost found = views(objects@);
    let rows = sort_text_objects_to_lines(objects);
    proof {
        lemma_rows_by_y_filled(reading_order(found));
    }
    let merged = merge_lines(rows, ROW_TOLERANCE);
    let ghost all = row_views(merged@);
    let mut lines: Vec<Line> = Vec::new();
    let mut i: usize = 0;
    assert(all.take(0) =~= Seq::<Seq<ObjView>>::empty());
    while i < merged.len()
        invariant
            all == row_views(merged@),
            all == page_rows(found),
            i <= merged@.len(),
            line_views(lines@) == row_lines(all.take(i as int), page_num, *settings),
        decreases merged.len() - i,
    {
        let line = transform_to_line_object(&merged[i], page_num, settings);
        assert(all.take(i + 1).drop_last() =~= all.take(i as int));
        assert(all.take(i + 1).last() == views(merged@[i as int]@));
        if !(line.line == 0 && line.text.is_none()) {
            let ghost before = lines@;
            lines.push(line);
            assert(line_views(lines@) =~= line_views(before).push(line@));
        }
        i = i + 1;
    }
    assert(all.take(i as int) =~= all);
    proof {
        lemma_row_lines_not_empty(all, page_num, *settings);
        assert forall|k: int| 0 <= k < lines@.len() implies !(#[trigger] lines@[k])@.is_empty() by {
            assert(line_views(lines@)[k] == lines@[k]@);
        }
    }
    Ok(lines)
}

/// Why a document could not be read.
#[derive(Debug, Clone, Copy, PartialEq, Eq)]
pub enum TranscriptError {
    /// A string on the page with this number, counted from one, cannot be decoded.
    UndecodableText { page: usize },
}

/// The lines of a page, or `None` where its text cannot be decoded.
pub open spec fn page_result(contents: Option<Vec<Operation>>, page: usize, st: PageSettings) -> Option<
    Seq<LineView>,
> {
    match contents {
        None => Some(Seq::empty()),
        Some(ops) => match extracted(ops@) {
            None => None,
            Some(found) => Some(page_lines(found, page, st)),
        },
    }
}

/// The lines of a document's pages in page order, or the index of the first
/// page whose text cannot be decoded.
pub open spec fn document_lines(pages: Seq<Option<Vec<Operation>>>, st: PageSettings) -> Result<
    Seq<LineView>,
    int,
>
    decreases pages.len(),
{
    if pages.len() == 0 {
        Ok(Seq::empty())
    } else {
        let i = pages.len() - 1;
        match document_lines(pages.drop_last(), st) {
            Err(e) => Err(e),
            Ok(ls) => match page_result(pages.last(), (i + st.starting_page_number) as usize, st) {
                None => Err(i),
                Some(pl) => Ok(ls + pl),
            },
        }
    }
}

proof fn lemma_document_fails_on(pages: Seq<Option<Vec<Operation>>>, st: PageSettings, n: int)
    requires
        0 <= n <= pages.len(),
        document_lines(pages.take(n), st) is Err,
    ensures
        document_lines(pages, st) == document_lines(pages.take(n), st),
    decreases pages.len() - n,
{
    if n < pages.len() {
        assert(pages.take(n + 1).drop_last() =~= pages.take(n));
        lemma_document_fails_on(pages, st, n + 1);
    } else {
        assert(pages.take(n) =~= pages);
    }
}

/// No line of a document is empty.
pub proof fn lemma_document_lines_not_empty(pages: Seq<Option<Vec<Operation>>>, st: PageSettings)
    ensures
        document_lines(pages, st) is Ok ==> forall|k: int|
            0 <= k < document_lines(pages, st)->Ok_0.len() ==> !(#[trigger] document_lines(
                pages,
                st,
            )->Ok_0[k]).is_empty(),
    decreases pages.len(),
{
    if pages.len() > 0 {
        lemma_document_lines_not_empty(pages.drop_last(), st);
        let i = pages.len() - 1;
        let page = (i + st.starting_page_number) as usize;
        if let Ok(ls) = document_lines(pages.drop_last(), st) {
            if let Some(ops) = pages.last() {
                if let Some(found) = extracted(ops@) {
                    lemma_row_lines_not_empty(page_rows(found), page, st);
                    let pl = page_lines(found, page, st);
                    let all = ls + pl;
                    assert forall|k: int| 0 <= k < all.len() implies !(#[trigger] all[k]).is_empty() by {
                        if k >= ls.len() {
                            assert(all[k] == pl[k - ls.len()]);
                        }
                    }
                }
            } else {
                assert(ls + Seq::<LineView>::empty() =~= ls);
            }
        }
    }
}

/// The lines of a whole document, page after page; the pages are numbered
/// from the settings' starting page number. Fails on the first page whose
/// text cannot be decoded, naming it by its place counted from one.
pub fn parse_pdf_transcript(pages: &Vec<Option<Vec<Operation>>>, settings: &PageSettings) -> (r:
    Result<Vec<Line>, TranscriptError>)
    requires
        settings.starting_page_number + pages@.len() <= usize::MAX,
    ensures
        match document_lines(pages@, *settings) {
            Ok(ls) => r is Ok && line_views(r->Ok_0@) == ls,
            Err(i) => r == Err::<Vec<Line>, TranscriptError>(
                TranscriptError::UndecodableText { page: (i + 1) as usize },
            ),
        },
        r is Ok ==> forall|k: int| 0 <= k < r->Ok_0@.len() ==> !(#[trigger] r->Ok_0@[k])@.is_empty(),
{
    let mut lines: Vec<Line> = Vec::new();
    let mut i: usize = 0;
    assert(pages@.take(0) =~= Seq::<Option<Vec<Operation>>>::empty());
    assert(line_views(lines@) =~= Seq::<LineView>::empty());
    while i < pages.len()
        invariant
            i <= pages@.len(),
            settings.starting_page_number + pages@.len() <= usize::MAX,
            document_lines(pages@.take(i as int), *settings) == Ok::<Seq<LineView>, int>(
                line_views(lines@),
            ),
        decreases pages.len() - i,
    {
        assert(pages@.take(i + 1).drop_last() =~= pages@.take(i as int));
        let page_number = i + settings.starting_page_number;
        match parse_text_objects_on_page(&pages[i], settings, page_number) {
            Ok(mut on_page) => {
                let ghost before = lines@;
                let ghost added = on_page@;
                lines.append(&mut on_page);
                assert(line_views(lines@) =~= line_views(before) + line_views(added));
            },
            Err(_) => {
                proof {
                    lemma_document_fails_on(pages@, *settings, i + 1);
                }
                return Err(TranscriptError::UndecodableText { page: i + 1 });
            },
        }
        i = i + 1;
    }
    assert(pages@.take(i as int) =~= pages@);
    proof {
        lemma_document_lines_not_empty(pages@, *settings);
        let ls = line_views(lines@);
        assert(document_lines(pages@, *settings) == Ok::<Seq<LineView>, int>(ls));
        assert forall|k: int| 0 <= k < lines@.len() implies !(#[trigger] lines@[k])@.is_empty() by {
            assert(ls[k] == lines@[k]@);
            assert(!document_lines(pages@, *settings)->Ok_0[k].is_empty());
        }
    }
    Ok(lines)
}

} // verus!
