//! What a front end shows of a run, and how each trace event changes it.

use vstd::prelude::*;
use vstd::string::StringExecFns;
use crate::control::ControlState;
use crate::interpreter::Interpreter;
use crate::lexer::{lex, lex_spec};
use crate::machine::{Machine, TAPE_LEN};
use crate::parser::{parse, parse_spec};
use crate::text::{decimal, decimal_string};
use crate::trace::{Action, CellChange, Event, Kind};

verus! {

/// The picture of a run: the source text, the content shown for each cell,
/// the cell that is marked as current, the text of the output area, the
/// source offset that is highlighted, and whether the source may be edited.
pub struct Screen {
    source: String,
    cells: Vec<u8>,
    marker: Option<usize>,
    output: String,
    selection: Option<usize>,
    editable: bool,
}

/// The mathematical value of a [`Screen`].
pub struct Picture {
    pub source: Seq<char>,
    pub cells: Seq<u8>,
    pub marker: Option<usize>,
    pub output: Seq<char>,
    pub selection: Option<usize>,
    pub editable: bool,
}

impl Picture {
    /// Every cell is shown and the marker, if any, is on a cell.
    pub open spec fn wf(self) -> bool {
        &&& self.cells.len() == TAPE_LEN
        &&& self.marker matches Some(i) ==> i < TAPE_LEN
    }

    /// The picture before anything has run: no source, every cell 0, no
    /// cell marked, no output, nothing highlighted.
    pub open spec fn blank(editable: bool) -> Picture {
        Picture {
            source: Seq::empty(),
            cells: Seq::new(TAPE_LEN as nat, |i: int| 0u8),
            marker: None,
            output: Seq::empty(),
            selection: None,
            editable,
        }
    }

    /// The picture after a reset, whatever it was before: blank, with the
    /// source open for editing.
    pub open spec fn cleared(self) -> Picture {
        Self::blank(true)
    }

    /// The picture at the start of a run: tape and output are cleared and
    /// the source is locked.  The source and the highlight stay as they
    /// were.
    pub open spec fn started(self) -> Picture {
        Picture { source: self.source, selection: self.selection, ..Self::blank(false) }
    }

    /// The picture after one trace event.
    ///
    /// Output appends the cell's byte, as a character, to the output area.
    /// A tape event, a request for input and a pause mark the event's cell
    /// as current and show its content.  Each of these highlights the
    /// event's source offset.  A fault replaces the output with the word
    /// `Error`, a colon, a space and the reason.
    pub open spec fn shown(self, event: Event) -> Picture {
        match event.kind {
            Kind::Output => Picture {
                output: self.output.push(event.content as char),
                selection: Some(event.text_index),
                ..self
            },
            Kind::Error(reason) => Picture { output: "Error: "@ + reason, ..self },
            _ => Picture {
                cells: self.cells.update(event.index as int, event.content),
                marker: Some(event.index),
                selection: Some(event.text_index),
                ..self
            },
        }
    }
}

impl View for Screen {
    type V = Picture;

    closed spec fn view(&self) -> Picture {
        Picture {
            source: self.source@,
            cells: self.cells@,
            marker: self.marker,
            output: self.output@,
            selection: self.selection,
            editable: self.editable,
        }
    }
}

/// A tape of zeros.
fn zeroed_cells() -> (cells: Vec<u8>)
    ensures
        cells@ == Seq::new(TAPE_LEN as nat, |i: int| 0u8),
{
    let mut cells: Vec<u8> = Vec::new();
    while cells.len() < TAPE_LEN
        invariant
            cells.len() <= TAPE_LEN,
            forall|i: int| 0 <= i < cells@.len() ==> cells@[i] == 0,
        decreases TAPE_LEN - cells.len(),
    {
        cells.push(0);
    }
    assert(cells@ =~= Seq::new(TAPE_LEN as nat, |i: int| 0u8));
    cells
}

impl Screen {
    /// The screen shows all cells and marks at most one of them.
    pub open spec fn wf(&self) -> bool {
        self@.wf()
    }

    /// A blank screen whose source may be edited.
    pub fn new() -> (screen: Screen)
        ensures
            screen.wf(),
            screen@ == Picture::blank(true),
    {
        Screen {
            source: String::new(),
            cells: zeroed_cells(),
            marker: None,
            output: String::new(),
            selection: None,
            editable: true,
        }
    }

    /// Takes over the source text as the user has edited it.
    pub fn set_source(&mut self, text: String)
        ensures
            final(self)@ == (Picture { source: text@, ..old(self)@ }),
    {
        self.source = text;
    }

    /// The source text.
    pub fn source(&self) -> (text: &str)
        ensures
            text@ == self@.source,
    {
        self.source.as_str()
    }

    /// Prepares the screen for a run.
    pub fn begin_run(&mut self)
        ensures
            final(self).wf(),
            final(self)@ == old(self)@.started(),
    {
        self.cells = zeroed_cells();
        self.marker = None;
        self.output = String::new();
        self.editable = false;
    }

    /// Unlocks the source when the run has ended.
    pub fn end_run(&mut self)
        ensures
            final(self)@ == (Picture { editable: true, ..old(self)@ }),
    {
        self.editable = true;
    }

    /// Clears the screen: whatever it showed, it is blank afterwards and
    /// the source may be edited.
    pub fn reset(&mut self)
        ensures
            final(self).wf(),
            final(self)@ == old(self)@.cleared(),
            final(self)@ == Picture::blank(true),
    {
        self.source = String::new();
        self.cells = zeroed_cells();
        self.marker = None;
        self.output = String::new();
        self.selection = None;
        self.editable = true;
    }

    /// Shows one trace event.
    pub fn apply(&mut self, change: &CellChange)
        requires
            old(self).wf(),
            change.index < TAPE_LEN,
        ensures
            final(self).wf(),
            final(self)@ == old(self)@.shown(change@),
    {
        match &change.action {
            Action::Output => {
                self.output.push(change.content as char);
                self.selection = Some(change.text_index);
            },
            Action::Error(reason) => {
                let mut text = String::from_str("Error: ");
                text.append(reason.as_str());
                self.output = text;
            },
            _ => {
                self.cells.set(change.index, change.content);
                self.marker = Some(change.index);
                self.selection = Some(change.text_index);
            },
        }
    }

    /// The text of the output area.
    pub fn output(&self) -> (text: &str)
        ensures
            text@ == self@.output,
    {
        self.output.as_str()
    }

    /// The content shown for each cell.
    pub fn cells(&self) -> (cells: &Vec<u8>)
        ensures
            cells@ == self@.cells,
    {
        &self.cells
    }

    /// The cell that is marked as current.
    pub fn marker(&self) -> (marker: Option<usize>)
        ensures
            marker == self@.marker,
    {
        self.marker
    }

    /// The source offset that is highlighted.
    pub fn selection(&self) -> (selection: Option<usize>)
        ensures
            selection == self@.selection,
    {
        self.selection
    }

    /// Whether the source may be edited.
    pub fn editable(&self) -> (editable: bool)
        ensures
            editable == self@.editable,
    {
        self.editable
    }

    /// The label of a cell: its content as a decimal numeral.
    pub fn cell_text(&self, cell: usize) -> (text: String)
        requires
            self.wf(),
            cell < TAPE_LEN,
        ensures
            text@ == decimal(self@.cells[cell as int] as nat),
    {
        decimal_string(self.cells[cell] as usize)
    }

    /// The marker under a cell: `#` under the current cell, nothing under
    /// the others.
    pub fn marker_text(&self, cell: usize) -> (text: &'static str)
        ensures
            text@ == if self@.marker == Some(cell) {
                "#"@
            } else {
                ""@
            },
    {
        match self.marker {
            Some(current) => if current == cell {
                "#"
            } else {
                ""
            },
            None => "",
        }
    }
}

/// Starts a run of the source that the screen holds: clears the cancel
/// request, the pause and the pace, prepares the screen, and returns the
/// interpreter at the start of the parsed program.
pub fn start_parsing(control: &mut ControlState, screen: &mut Screen) -> (run: Interpreter)
    ensures
        *final(control) == ControlState::initial(),
        final(screen).wf(),
        final(screen)@ == old(screen)@.started(),
        run.wf(),
        run@ == Machine::start(parse_spec(lex_spec(old(screen)@.source))),
{
    control.begin_run();
    screen.begin_run();
    let opcodes = lex(screen.source.clone());
    let program = parse(opcodes);
    Interpreter::new(program)
}

/// Abandons the run and clears the screen, the source with it.
pub fn reset_app(control: &mut ControlState, screen: &mut Screen)
    ensures
        *final(control) == (ControlState { cancel_requested: true, ..*old(control) }),
        final(screen).wf(),
        final(screen)@ == old(screen)@.cleared(),
        final(screen)@ == Picture::blank(true),
{
    control.request_cancel();
    screen.reset();
}

/// A reset wipes whatever a run has left behind.
///
/// Whatever picture a run ended with, and whatever event is shown after it,
/// a reset gives the blank picture; a second reset changes nothing; and the
/// run that follows starts with every cell 0, no cell marked and no output.
pub proof fn lemma_reset_wipes(picture: Picture, event: Event)
    ensures
        picture.cleared() == Picture::blank(true),
        picture.shown(event).cleared() == picture.cleared(),
        picture.cleared().cleared() == picture.cleared(),
        picture.cleared().wf(),
        picture.cleared().started().cells == Seq::new(TAPE_LEN as nat, |i: int| 0u8),
        picture.cleared().started().marker is None,
        picture.cleared().started().output == Seq::<char>::empty(),
{
}

} // verus!
