//! The text-object extractor: a state machine over one page's text
//! operations that yields each positioned run of text.
use vstd::prelude::*;
use crate::text::{decode_text, decoded_text, same_text};
use vstd::string::StringExecFns;

verus! {

/// One operand of a page operation, with numbers in thousandths of a point.
#[derive(Debug)]
pub enum Operand {
    Number(i64),
    Text(Vec<u8>),
    Array(Vec<Operand>),
    Other,
}

/// One page-content instruction: an operator name and its operands.
#[derive(Debug)]
pub struct Operation {
    pub operator: String,
    pub operands: Vec<Operand>,
}

/// A positioned run of text, in thousandths of a point.
#[derive(Debug, Clone, PartialEq)]
pub struct TextObject {
    pub x: i64,
    pub y: i64,
    pub text: String,
}

/// What a text object holds.
pub struct ObjView {
    pub x: i64,
    pub y: i64,
    pub text: Seq<char>,
}

impl View for TextObject {
    type V = ObjView;

    open spec fn view(&self) -> ObjView {
        ObjView { x: self.x, y: self.y, text: self.text@ }
    }
}

pub open spec fn views(s: Seq<TextObject>) -> Seq<ObjView> {
    s.map_values(|o: TextObject| o@)
}

/// The coordinates and text gathered since the last begin or end of a text block.
pub struct Pending {
    pub coords: Option<(i64, i64)>,
    pub text: Option<Seq<char>>,
}

pub open spec fn no_pending() -> Pending {
    Pending { coords: None, text: None }
}

/// The concatenated strings of a text array, skipping its other elements;
/// `None` where one of the strings cannot be decoded.
pub open spec fn array_text(items: Seq<Operand>) -> Option<Seq<char>>
    decreases items.len(),
{
    if items.len() == 0 {
        Some(Seq::empty())
    } else {
        match array_text(items.drop_last()) {
            None => None,
            Some(t) => match items.last() {
                Operand::Text(b) => match decoded_text(b@) {
                    Some(d) => Some(t + d),
                    None => None,
                },
                _ => Some(t),
            },
        }
    }
}

pub open spec fn all_numbers(args: Seq<Operand>) -> bool {
    forall|i: int| 0 <= i < args.len() ==> #[trigger] args[i] is Number
}

/// One transition of the extractor: the new pending state and the object that
/// the operation completes, or `None` where a string cannot be decoded.
pub open spec fn step(p: Pending, op: Operation) -> Option<(Pending, Option<ObjView>)> {
    let name = op.operator@;
    let args = op.operands@;
    if name == "BT"@ {
        Some((no_pending(), None))
    } else if name == "Td"@ && args.len() == 2 && all_numbers(args) {
        Some((Pending { coords: Some((args[0]->Number_0, args[1]->Number_0)), ..p }, None))
    } else if name == "Tm"@ && args.len() == 6 && all_numbers(args) {
        Some((Pending { coords: Some((args[4]->Number_0, args[5]->Number_0)), ..p }, None))
    } else if name == "Tj"@ && args.len() == 1 && args[0] is Text {
        match decoded_text(args[0]->Text_0@) {
            Some(t) => Some((Pending { text: Some(t), ..p }, None)),
            None => None,
        }
    } else if (name == "Tj"@ || name == "TJ"@) && args.len() == 1 && args[0] is Array {
        match array_text(args[0]->Array_0@) {
            Some(t) => Some((Pending { text: Some(t), ..p }, None)),
            None => None,
        }
    } else if name == "ET"@ {
        let done = match (p.coords, p.text) {
            (Some(c), Some(t)) => Some(ObjView { x: c.0, y: c.1, text: t }),
            _ => None,
        };
        Some((no_pending(), done))
    } else {
        Some((p, None))
    }
}

/// The pending state and the objects found after a run of operations, or
/// `None` where one of them holds a string that cannot be decoded.
pub open spec fn scan(ops: Seq<Operation>) -> Option<(Pending, Seq<ObjView>)>
    decreases ops.len(),
{
    if ops.len() == 0 {
        Some((no_pending(), Seq::empty()))
    } else {
        match scan(ops.drop_last()) {
            None => None,
            Some((p, found)) => match step(p, ops.last()) {
                None => None,
                Some((q, done)) => match done {
                    Some(o) => Some((q, found.push(o))),
                    None => Some((q, found)),
                },
            },
        }
    }
}

/// The text objects of a page, in the order their blocks end; `None` where a
/// string cannot be decoded.
pub open spec fn extracted(ops: Seq<Operation>) -> Option<Seq<ObjView>> {
    match scan(ops) {
        Some((_, found)) => Some(found),
        None => None,
    }
}

/// A string in a page's text operations could not be decoded.
#[derive(Debug, Clone, Copy, PartialEq, Eq)]
pub struct UndecodableText;

/// The extractor's state: which of coordinates and text the current block has.
#[derive(Debug, Clone, PartialEq)]
pub enum TextState {
    Idle,
    Placed { x: i64, y: i64 },
    Shown { text: String },
    Ready { x: i64, y: i64, text: String },
}

impl View for TextState {
    type V = Pending;

    open spec fn view(&self) -> Pending {
        match self {
            TextState::Idle => no_pending(),
            TextState::Placed { x, y } => Pending { coords: Some((*x, *y)), text: None },
            TextState::Shown { text } => Pending { coords: None, text: Some(text@) },
            TextState::Ready { x, y, text } => Pending {
                coords: Some((*x, *y)),
                text: Some(text@),
            },
        }
    }
}

impl TextState {
    fn place(&mut self, x: i64, y: i64)
        ensures
            final(self)@ == (Pending { coords: Some((x, y)), ..old(self)@ }),
    {
        let next = match self {
            TextState::Idle | TextState::Placed { .. } => TextState::Placed { x, y },
            TextState::Shown { text } => TextState::Ready { x, y, text: text.clone() },
            TextState::Ready { text, .. } => TextState::Ready { x, y, text: text.clone() },
        };
        *self = next;
    }

    fn show(&mut self, text: String)
        ensures
            final(self)@ == (Pending { text: Some(text@), ..old(self)@ }),
    {
        let next = match self {
            TextState::Idle | TextState::Shown { .. } => TextState::Shown { text },
            TextState::Placed { x, y } => TextState::Ready { x: *x, y: *y, text },
            TextState::Ready { x, y, .. } => TextState::Ready { x: *x, y: *y, text },
        };
        *self = next;
    }

    /// Ends a text block: the object it completes, if it has both parts.
    fn finish(&mut self) -> (r: Option<TextObject>)
        ensures
            final(self)@ == no_pending(),
            match (old(self)@.coords, old(self)@.text) {
                (Some(c), Some(t)) => r is Some && r->Some_0@ == (ObjView { x: c.0, y: c.1, text: t }),
                _ => r is None,
            },
    {
        let done = match self {
            TextState::Ready { x, y, text } => Some(TextObject { x: *x, y: *y, text: text.clone() }),
            _ => None,
        };
        *self = TextState::Idle;
        done
    }
}

/// The concatenated strings of a text array.
fn join_array_text(items: &Vec<Operand>) -> (r: Option<String>)
    ensures
        match r {
            Some(t) => array_text(items@) == Some(t@),
            None => array_text(items@) is None,
        },
{
    let mut joined = String::new();
    let mut i: usize = 0;
    while i < items.len()
        invariant
            i <= items@.len(),
            array_text(items@.take(i as int)) == Some(joined@),
        decreases items.len() - i,
    {
        assert(items@.take(i + 1).drop_last() =~= items@.take(i as int));
        match &items[i] {
            Operand::Text(b) => match decode_text(b) {
                Some(d) => {
                    joined.append(d.as_str());
                },
                None => {
                    proof {
                        lemma_array_text_fails_on(items@, i as int + 1);
                    }
                    assert(items@.take(items@.len() as int) =~= items@);
                    return None;
                },
            },
            _ => {},
        }
        i = i + 1;
    }
    assert(items@.take(items@.len() as int) =~= items@);
    Some(joined)
}

proof fn lemma_array_text_fails_on(items: Seq<Operand>, i: int)
    requires
        0 <= i <= items.len(),
        array_text(items.take(i)) is None,
    ensures
        array_text(items) is None,
    decreases items.len() - i,
{
    if i < items.len() {
        assert(items.take(i + 1).drop_last() =~= items.take(i));
        lemma_array_text_fails_on(items, i + 1);
    } else {
        assert(items.take(i) =~= items);
    }
}

fn are_numbers(args: &Vec<Operand>) -> (r: bool)
    ensures
        r == all_numbers(args@),
{
    let mut i: usize = 0;
    while i < args.len()
        invariant
            i <= args@.len(),
            forall|j: int| 0 <= j < i ==> #[trigger] args@[j] is Number,
        decreases args.len() - i,
    {
        match &args[i] {
            Operand::Number(_) => {},
            _ => {
                return false;
            },
        }
        i = i + 1;
    }
    true
}

/// Pulls text objects out of a page's operations, one operation at a time.
#[derive(Debug, Clone)]
pub struct TextObjectParser {
    pub state: TextState,
}

impl TextObjectParser {
    pub fn new() -> (r: TextObjectParser)
        ensures
            r.state@ == no_pending(),
    {
        TextObjectParser { state: TextState::Idle }
    }

    /// Feeds one operation: returns the object that it completes, if any.
    pub fn feed(&mut self, op: &Operation) -> (r: Result<Option<TextObject>, UndecodableText>)
        ensures
            match step(old(self).state@, *op) {
                Some((q, done)) => r is Ok && final(self).state@ == q && match r->Ok_0 {
                    Some(o) => done == Some(o@),
                    None => done is None,
                },
                None => r is Err,
            },
    {
        let name = op.operator.as_str();
        let args = &op.operands;
        if same_text(name, "BT") {
            self.state = TextState::Idle;
            return Ok(None);
        }
        if same_text(name, "Td") && args.len() == 2 {
            if let (Operand::Number(x), Operand::Number(y)) = (&args[0], &args[1]) {
                self.state.place(*x, *y);
                return Ok(None);
            }
        }
        if same_text(name, "Tm") && args.len() == 6 && are_numbers(args) {
            if let (Operand::Number(x), Operand::Number(y)) = (&args[4], &args[5]) {
                self.state.place(*x, *y);
                return Ok(None);
            }
        }
        let shows = same_text(name, "Tj");
        if shows && args.len() == 1 {
            if let Operand::Text(bytes) = &args[0] {
                return match decode_text(bytes) {
                    Some(t) => {
                        self.state.show(t);
                        Ok(None)
                    },
                    None => Err(UndecodableText),
                };
            }
        }
        if (shows || same_text(name, "TJ")) && args.len() == 1 {
            if let Operand::Array(items) = &args[0] {
                return match join_array_text(items) {
                    Some(t) => {
                        self.state.show(t);
                        Ok(None)
                    },
                    None => Err(UndecodableText),
                };
            }
        }
        if same_text(name, "ET") {
            return Ok(self.state.finish());
        }
        Ok(None)
    }
}

proof fn lemma_scan_fails_on(ops: Seq<Operation>, i: int)
    requires
        0 <= i <= ops.len(),
        scan(ops.take(i)) is None,
    ensures
        scan(ops) is None,
    decreases ops.len() - i,
{
    if i < ops.len() {
        assert(ops.take(i + 1).drop_last() =~= ops.take(i));
        lemma_scan_fails_on(ops, i + 1);
    } else {
        assert(ops.take(i) =~= ops);
    }
}

/// All text objects of a page's operations, in the order their blocks end.
pub fn text_objects(operations: &Vec<Operation>) -> (r: Result<Vec<TextObject>, UndecodableText>)
    ensures
        match extracted(operations@) {
            Some(found) => r is Ok && views(r->Ok_0@) == found,
            None => r is Err,
        },
{
    let mut parser = TextObjectParser::new();
    let mut found: Vec<TextObject> = Vec::new();
    let mut i: usize = 0;
    assert(operations@.take(0) =~= Seq::<Operation>::empty());
    while i < operations.len()
        invariant
            i <= operations@.len(),
            scan(operations@.take(i as int)) == Some((parser.state@, views(found@))),
        decreases operations.len() - i,
    {
        assert(operations@.take(i + 1).drop_last() =~= operations@.take(i as int));
        match parser.feed(&operations[i]) {
            Ok(Some(o)) => {
                let ghost before = found@;
                found.push(o);
                assert(views(found@) =~= views(before).push(o@));
            },
            Ok(None) => {},
            Err(e) => {
                proof {
                    lemma_scan_fails_on(operations@, i + 1);
                }
                return Err(e);
            },
        }
        i = i + 1;
    }
    assert(operations@.take(i as int) =~= operations@);
    Ok(found)
}

} // verus!
