//! The line assembler: one merged row becomes one transcript line.
use vstd::prelude::*;
use vstd::string::StringExecFns;
use crate::extract::{ObjView, TextObject, views};
use crate::settings::PageSettings;
use crate::text::{is_blank, is_blank_spec, line_number_of, parse_line_number};

verus! {

/// One transcript line: its page, its printed line number (0 where none was
/// read), its body text, and where that text begins.
#[derive(Debug, Clone, PartialEq)]
pub struct Line {
    pub page: usize,
    pub line: u32,
    pub text: Option<String>,
    pub x: Option<i64>,
    pub y: Option<i64>,
}

pub struct LineView {
    pub page: usize,
    pub line: u32,
    pub text: Option<Seq<char>>,
    pub x: Option<i64>,
    pub y: Option<i64>,
}

impl View for Line {
    type V = LineView;

    open spec fn view(&self) -> LineView {
        LineView {
            page: self.page,
            line: self.line,
            text: match self.text {
                Some(t) => Some(t@),
                None => None,
            },
            x: self.x,
            y: self.y,
        }
    }
}

impl LineView {
    /// A line with neither a line number nor body text.
    pub open spec fn is_empty(self) -> bool {
        self.line == 0 && self.text is None
    }
}

/// What a row has given its line so far.
pub struct Draft {
    pub line: u32,
    pub text: Option<Seq<char>>,
    pub anchor: Option<(i64, i64)>,
}

pub open spec fn blank_draft() -> Draft {
    Draft { line: 0, text: None, anchor: None }
}

/// The object lies inside the page's print region.
pub open spec fn in_print_region(o: ObjView, st: PageSettings) -> bool {
    &&& o.x >= st.margin_left_x
    &&& o.x <= st.margin_right_x
    &&& o.y >= st.margin_bottom_y
    &&& o.y <= st.margin_top_y
}

/// What one object adds to a line: left of the line-number edge it may set
/// the line number, right of it it adds body text; on the edge itself, and
/// outside the print region, it adds nothing.
pub open spec fn take_object(d: Draft, o: ObjView, st: PageSettings) -> Draft {
    if !in_print_region(o, st) {
        d
    } else if o.x < st.line_number_limit_x {
        match line_number_of(o.text) {
            Some(n) => Draft { line: n, ..d },
            None => d,
        }
    } else if o.x > st.line_number_limit_x {
        match d.text {
            None => if is_blank_spec(o.text) {
                d
            } else {
                Draft { text: Some(o.text), anchor: Some((o.x, o.y)), ..d }
            },
            Some(t) => Draft { text: Some(t + o.text), ..d },
        }
    } else {
        d
    }
}

/// What a row's objects, taken in their order, give its line.
pub open spec fn assemble(objs: Seq<ObjView>, st: PageSettings) -> Draft
    decreases objs.len(),
{
    if objs.len() == 0 {
        blank_draft()
    } else {
        take_object(assemble(objs.drop_last(), st), objs.last(), st)
    }
}

/// The line that a row gives on a page.
pub open spec fn line_for(objs: Seq<ObjView>, page: usize, st: PageSettings) -> LineView {
    let d = assemble(objs, st);
    LineView {
        page,
        line: d.line,
        text: d.text,
        x: match d.anchor {
            Some(a) => Some(a.0),
            None => None,
        },
        y: match d.anchor {
            Some(a) => Some(a.1),
            None => None,
        },
    }
}

/// An object on the line-number edge counts for nothing: wherever it stands
/// in a row, the row gives the same line as without it.
pub proof fn lemma_edge_object_ignored(
    before: Seq<ObjView>,
    o: ObjView,
    after: Seq<ObjView>,
    st: PageSettings,
)
    requires
        o.x == st.line_number_limit_x,
    ensures
        assemble(before + seq![o] + after, st) == assemble(before + after, st),
    decreases after.len(),
{
    if after.len() == 0 {
        assert((before + seq![o] + after).drop_last() =~= before);
        assert(before + after =~= before);
    } else {
        lemma_edge_object_ignored(before, o, after.drop_last(), st);
        assert((before + seq![o] + after).drop_last() =~= before + seq![o] + after.drop_last());
        assert((before + after).drop_last() =~= before + after.drop_last());
    }
}

/// Turns one merged row into a line of the given page.
pub fn transform_to_line_object(vector: &Vec<TextObject>, page_number: usize, settings: &PageSettings) -> (r: Line)
    ensures
        r@ == line_for(views(vector@), page_number, *settings),
{
    let ghost objs = views(vector@);
    let mut line: u32 = 0;
    let mut text = String::new();
    let mut has_text = false;
    let mut x: i64 = 0;
    let mut y: i64 = 0;
    let mut i: usize = 0;
    assert(objs.take(0) =~= Seq::<ObjView>::empty());
    while i < vector.len()
        invariant
            objs == views(vector@),
            i <= vector@.len(),
            assemble(objs.take(i as int), *settings) == (Draft {
                line,
                text: if has_text { Some(text@) } else { None },
                anchor: if has_text { Some((x, y)) } else { None },
            }),
        decreases vector.len() - i,
    {
        let o = &vector[i];
        assert(objs.take(i + 1).drop_last() =~= objs.take(i as int));
        assert(objs.take(i + 1).last() == o@);
        let inside = o.x >= settings.margin_left_x && o.x <= settings.margin_right_x
            && o.y >= settings.margin_bottom_y && o.y <= settings.margin_top_y;
        if inside {
            if o.x < settings.line_number_limit_x {
                if let Some(n) = parse_line_number(o.text.as_str()) {
                    line = n;
                }
            } else if o.x > settings.line_number_limit_x {
                if has_text {
                    text.append(o.text.as_str());
                } else if !is_blank(o.text.as_str()) {
                    text = o.text.clone();
                    has_text = true;
                    x = o.x;
                    y = o.y;
                }
            }
        }
        i = i + 1;
    }
    assert(objs.take(i as int) =~= objs);
    Line {
        page: page_number,
        line,
        text: if has_text { Some(text) } else { None },
        x: if has_text { Some(x) } else { None },
        y: if has_text { Some(y) } else { None },
    }
}

} // verus!
