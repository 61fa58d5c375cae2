//! Running G-code on an emulated cutter.
use vstd::prelude::*;

use crate::gcode::GCodeOp;
use crate::plan::{MachineState, PointId};
use crate::renderer::{MoveKind, NullRenderer, RenderError};

verus! {

/// A G-code line as the emulator reads it: its operation and its coordinate.
#[derive(PartialEq, Eq, Structural, Debug, Clone, Copy)]
pub struct GCodeLine {
    pub code: Option<GCodeOp>,
    pub coord: Option<PointId>,
}

/// How the program says coordinates are meant.
#[derive(PartialEq, Eq, Structural, Debug, Clone, Copy)]
pub enum Positioning {
    Relative,
    Absolute,
}

/// A move that the emulator draws: from where the head was to where it goes,
/// made by the line with index `line`.
#[derive(PartialEq, Eq, Structural, Debug, Clone, Copy)]
pub struct Draw {
    pub from: PointId,
    pub to: PointId,
    pub kind: MoveKind,
    pub line: usize,
}

/// What one step of the emulator did.
#[derive(PartialEq, Eq, Structural, Debug, Clone, Copy)]
pub enum Step {
    /// There is no line left to execute.
    Finished,
    /// A line was executed; a move was made where `Some`.
    Executed(Option<Draw>),
}

/// Why the emulator stopped.
#[derive(PartialEq, Eq, Structural, Debug, Clone, Copy)]
pub enum EmulatorError {
    /// A move (`G0` or `G1`) without a coordinate.
    MissingCoord(GCodeOp),
    /// The line with this index carries an operation that the emulator does not know.
    UnknownCode(usize),
    /// The renderer failed.
    Render(RenderError),
}

/// Emulates a cutter running a G-code program.
pub struct GCodeEmulator {
    gcode: Vec<GCodeLine>,
    state: MachineState,
    current_line: usize,
    positioning: Positioning,
    renderer: NullRenderer,
}

/// The emulator as the specification sees it.
pub struct EmuView {
    pub lines: Seq<GCodeLine>,
    pub pos: PointId,
    pub current_line: nat,
    pub positioning: Positioning,
}

impl GCodeEmulator {
    #[verifier::type_invariant]
    spec fn well_formed(self) -> bool {
        self.current_line <= self.gcode@.len()
    }
}

impl View for GCodeEmulator {
    type V = EmuView;

    closed spec fn view(&self) -> EmuView {
        EmuView {
            lines: self.gcode@,
            pos: self.state.pos,
            current_line: self.current_line as nat,
            positioning: self.positioning,
        }
    }
}

/// The index of the first line from `from` on that carries an operation,
/// or the number of lines where there is none.
pub open spec fn next_coded(lines: Seq<GCodeLine>, from: int) -> int
    decreases lines.len() - from,
{
    if from >= lines.len() {
        lines.len() as int
    } else if lines[from].code is Some {
        from
    } else {
        next_coded(lines, from + 1)
    }
}

/// One step of the emulator, from `v`: skip the lines without an operation,
/// then execute the next line. A move goes to the line's coordinate and is
/// drawn from where the head was; `G90` switches to relative positioning;
/// `G21`, `M4` and `M5` change nothing that is emulated.
pub open spec fn step_spec(v: EmuView) -> (Result<Step, EmulatorError>, EmuView) {
    let j = next_coded(v.lines, v.current_line as int);
    if j >= v.lines.len() {
        (Ok(Step::Finished), EmuView { current_line: v.lines.len(), ..v })
    } else {
        let line = v.lines[j];
        let after = EmuView { current_line: (j + 1) as nat, ..v };
        match line.code.unwrap() {
            GCodeOp::G0 => match line.coord {
                None => (Err(EmulatorError::MissingCoord(GCodeOp::G0)), after),
                Some(c) => (
                    Ok(Step::Executed(Some(Draw { from: v.pos, to: c, kind: MoveKind::Rapid, line: j as usize }))),
                    EmuView { pos: c, ..after },
                ),
            },
            GCodeOp::G1 => match line.coord {
                None => (Err(EmulatorError::MissingCoord(GCodeOp::G1)), after),
                Some(c) => (
                    Ok(Step::Executed(Some(Draw { from: v.pos, to: c, kind: MoveKind::Feed, line: j as usize }))),
                    EmuView { pos: c, ..after },
                ),
            },
            GCodeOp::G90 => (Ok(Step::Executed(None)), EmuView { positioning: Positioning::Relative, ..after }),
            GCodeOp::UNKNOWN => (Err(EmulatorError::UnknownCode(j as usize)), after),
            _ => (Ok(Step::Executed(None)), after),
        }
    }
}

pub proof fn lemma_next_coded(lines: Seq<GCodeLine>, from: int)
    requires
        0 <= from <= lines.len(),
    ensures
        from <= next_coded(lines, from) <= lines.len(),
        next_coded(lines, from) < lines.len() ==> lines[next_coded(lines, from)].code is Some,
        forall|k: int| from <= k < next_coded(lines, from) ==> (#[trigger] lines[k]).code is None,
    decreases lines.len() - from,
{
    if from < lines.len() && lines[from].code is None {
        lemma_next_coded(lines, from + 1);
    }
}

impl GCodeEmulator {
    /// An emulator at the start of `gcode`, the head at `origin`, positioning absolute.
    pub fn from_gcode(gcode: Vec<GCodeLine>, origin: PointId) -> (r: Result<GCodeEmulator, EmulatorError>)
        ensures
            r matches Ok(emu) && emu@ == (EmuView {
                lines: gcode@,
                pos: origin,
                current_line: 0,
                positioning: Positioning::Absolute,
            }),
    {
        Ok(GCodeEmulator {
            gcode,
            state: MachineState { pos: origin, e: false, s: 0, f: 0 },
            current_line: 0,
            positioning: Positioning::Absolute,
            renderer: NullRenderer::new(),
        })
    }

    /// Executes the next line that carries an operation, and says what it did.
    /// The move, if any, is handed back to be drawn.
    pub fn next_step(&mut self) -> (r: Result<Step, EmulatorError>)
        ensures
            (r, final(self)@) == step_spec(old(self)@),
    {
        proof {
            use_type_invariant(&*self);
        }
        let ghost v = self@;
        proof {
            lemma_next_coded(v.lines, v.current_line as int);
        }
        let n = self.gcode.len();
        while self.current_line < n && self.gcode[self.current_line].code.is_none()
            invariant
                n == self.gcode@.len(),
                self.gcode@ == v.lines,
                self.state == old(self).state,
                self.positioning == v.positioning,
                v.current_line <= self.current_line <= next_coded(v.lines, v.current_line as int),
                next_coded(v.lines, self.current_line as int) == next_coded(v.lines, v.current_line as int),
            decreases n - self.current_line,
        {
            proof {
                let c = self.current_line as int;
                assert(next_coded(v.lines, c) == next_coded(v.lines, c + 1));
                lemma_next_coded(v.lines, c + 1);
            }
            self.current_line = self.current_line + 1;
        }
        if self.current_line >= n {
            return Ok(Step::Finished);
        }
        let j = self.current_line;
        self.current_line = j + 1;
        let line = self.gcode[j];
        match line.code {
            None => {
                // Not reached: the line at `j` carries an operation.
                Ok(Step::Executed(None))
            },
            Some(op) => match op {
                GCodeOp::G0 => match line.coord {
                    None => Err(EmulatorError::MissingCoord(GCodeOp::G0)),
                    Some(c) => {
                        let from = self.state.pos;
                        self.state.pos = c;
                        Ok(Step::Executed(Some(Draw { from, to: c, kind: MoveKind::Rapid, line: j })))
                    },
                },
                GCodeOp::G1 => match line.coord {
                    None => Err(EmulatorError::MissingCoord(GCodeOp::G1)),
                    Some(c) => {
                        let from = self.state.pos;
                        self.state.pos = c;
                        Ok(Step::Executed(Some(Draw { from, to: c, kind: MoveKind::Feed, line: j })))
                    },
                },
                GCodeOp::G21 => Ok(Step::Executed(None)),
                GCodeOp::G90 => {
                    self.positioning = Positioning::Relative;
                    Ok(Step::Executed(None))
                },
                GCodeOp::M4 => Ok(Step::Executed(None)),
                GCodeOp::M5 => Ok(Step::Executed(None)),
                GCodeOp::UNKNOWN => Err(EmulatorError::UnknownCode(j)),
            },
        }
    }
}


/// Running the emulator from `v` until the program ends or fails: the outcome
/// and where the emulator is left.
pub open spec fn run_spec(v: EmuView) -> (Result<(), EmulatorError>, EmuView)
    decreases v.lines.len() - v.current_line,
{
    if v.current_line > v.lines.len() {
        (Ok(()), v)
    } else {
        proof {
            lemma_next_coded(v.lines, v.current_line as int);
        }
        let (r, v2) = step_spec(v);
        match r {
            Err(e) => (Err(e), v2),
            Ok(Step::Finished) => (Ok(()), v2),
            Ok(Step::Executed(_)) => run_spec(v2),
        }
    }
}

/// The result of a step as `step` reports it: whether a line was executed.
pub open spec fn step_reported(r: Result<Step, EmulatorError>) -> Result<bool, EmulatorError> {
    match r {
        Ok(Step::Finished) => Ok(false),
        Ok(Step::Executed(_)) => Ok(true),
        Err(e) => Err(e),
    }
}

impl GCodeEmulator {
    /// Executes the next line that carries an operation and draws its move;
    /// `false` where no line was left.
    pub fn step(&mut self) -> (r: Result<bool, EmulatorError>)
        ensures
            r == step_reported(step_spec(old(self)@).0),
            final(self)@ == step_spec(old(self)@).1,
    {
        proof {
            use_type_invariant(&*self);
        }
        match self.next_step() {
            Ok(Step::Finished) => Ok(false),
            Ok(Step::Executed(Some(d))) => {
                proof {
                    use_type_invariant(&*self);
                }
                let mut renderer = self.renderer;
                let drawn = renderer.draw_line(d.from, d.to, d.kind);
                self.renderer = renderer;
                match drawn {
                    Ok(()) => Ok(true),
                    Err(e) => Err(EmulatorError::Render(e)),
                }
            },
            Ok(Step::Executed(None)) => Ok(true),
            Err(e) => Err(e),
        }
    }

    /// Executes the program to its end, or until a line fails.
    pub fn run(&mut self) -> (r: Result<(), EmulatorError>)
        ensures
            (r, final(self)@) == run_spec(old(self)@),
    {
        let ghost v0 = self@;
        proof {
            use_type_invariant(&*self);
        }
        loop
            invariant
                run_spec(self@) == run_spec(v0),
                v0 == old(self)@,
                self@.current_line <= self@.lines.len(),
            decreases self@.lines.len() - self@.current_line,
        {
            let ghost v = self@;
            proof {
                lemma_next_coded(v.lines, v.current_line as int);
            }
            let r = self.step();
            proof {
                use_type_invariant(&*self);
            }
            proof {
                let (sr, v2) = step_spec(v);
                assert(self@ == v2);
                assert(run_spec(v) == match sr {
                    Err(e) => (Err(e), v2),
                    Ok(Step::Finished) => (Ok(()), v2),
                    Ok(Step::Executed(_)) => run_spec(v2),
                });
            }
            match r {
                Err(e) => {
                    return Err(e);
                },
                Ok(false) => {
                    return Ok(());
                },
                Ok(true) => {},
            }
        }
    }

    /// The picture of what was drawn; the null renderer has none.
    pub fn to_img_url(&mut self) -> (r: Result<String, EmulatorError>)
        ensures
            r matches Ok(s) && s@ == "Invalid Renderer"@,
            final(self)@ == old(self)@,
    {
        proof {
            use_type_invariant(&*self);
        }
        let mut renderer = self.renderer;
        let url = renderer.to_img_url();
        self.renderer = renderer;
        match url {
            Ok(s) => Ok(s),
            Err(e) => Err(EmulatorError::Render(e)),
        }
    }

    /// Writes the picture of what was drawn; the null renderer writes nothing.
    pub fn save(&mut self, file: &str) -> (r: Result<(), EmulatorError>)
        ensures
            r == Ok::<(), EmulatorError>(()),
            final(self)@ == old(self)@,
    {
        proof {
            use_type_invariant(&*self);
        }
        let mut renderer = self.renderer;
        let written = renderer.to_file(file);
        self.renderer = renderer;
        match written {
            Ok(()) => Ok(()),
            Err(e) => Err(EmulatorError::Render(e)),
        }
    }
}

/// A line that the emulator executes without failing.
pub open spec fn line_ok(l: GCodeLine) -> bool {
    match l.code {
        Some(GCodeOp::G0) => l.coord is Some,
        Some(GCodeOp::G1) => l.coord is Some,
        Some(GCodeOp::UNKNOWN) => false,
        _ => true,
    }
}

/// Where the head is after the lines from `from` on have moved it, starting at `pos`.
pub open spec fn last_target(lines: Seq<GCodeLine>, from: int, pos: PointId) -> PointId
    decreases lines.len() - from,
{
    if from >= lines.len() || from < 0 {
        pos
    } else {
        let l = lines[from];
        let next = match l.code {
            Some(GCodeOp::G0) => match l.coord {
                Some(c) => c,
                None => pos,
            },
            Some(GCodeOp::G1) => match l.coord {
                Some(c) => c,
                None => pos,
            },
            _ => pos,
        };
        last_target(lines, from + 1, next)
    }
}

proof fn lemma_last_target_skip(lines: Seq<GCodeLine>, from: int, to: int, pos: PointId)
    requires
        0 <= from <= to <= lines.len(),
        forall|k: int| from <= k < to ==> (#[trigger] lines[k]).code is None,
    ensures
        last_target(lines, from, pos) == last_target(lines, to, pos),
    decreases to - from,
{
    if from < to {
        lemma_last_target_skip(lines, from + 1, to, pos);
    }
}

/// Running a program succeeds exactly when every line still to run that
/// carries an operation is one the emulator can execute: no unknown
/// operation, no move without a coordinate. After a run that succeeds, every
/// line has been read and the head stands where the last move took it.
pub proof fn lemma_run_outcome(v: EmuView)
    requires
        v.current_line <= v.lines.len(),
    ensures
        run_spec(v).0 is Ok <==> forall|k: int|
            v.current_line <= k < v.lines.len() ==> line_ok(#[trigger] v.lines[k]),
        run_spec(v).0 is Ok ==> run_spec(v).1.pos == last_target(v.lines, v.current_line as int, v.pos)
            && run_spec(v).1.current_line == v.lines.len(),
    decreases v.lines.len() - v.current_line,
{
    let cur = v.current_line as int;
    let j = next_coded(v.lines, cur);
    lemma_next_coded(v.lines, cur);
    lemma_last_target_skip(v.lines, cur, j, v.pos);
    let (r, v2) = step_spec(v);
    if j >= v.lines.len() {
        assert forall|k: int| cur <= k < v.lines.len() implies line_ok(#[trigger] v.lines[k]) by {
            assert(v.lines[k].code is None);
        }
    } else {
        let l = v.lines[j];
        if !line_ok(l) {
            assert(r is Err);
        } else {
            assert(r is Ok && r != Ok::<Step, EmulatorError>(Step::Finished));
            lemma_run_outcome(v2);
            assert(last_target(v.lines, j, v.pos) == last_target(v.lines, j + 1, v2.pos));
            assert((forall|k: int| cur <= k < v.lines.len() ==> line_ok(#[trigger] v.lines[k])) <==> (forall|
                k: int,
            | j + 1 <= k < v.lines.len() ==> line_ok(#[trigger] v.lines[k]))) by {
                if forall|k: int| j + 1 <= k < v.lines.len() ==> line_ok(#[trigger] v.lines[k]) {
                    assert forall|k: int| cur <= k < v.lines.len() implies line_ok(#[trigger] v.lines[k]) by {
                        if k < j {
                            assert(v.lines[k].code is None);
                        }
                    }
                }
            }
        }
    }
}

/// What one step does, line by line. The step executes the first line from
/// the current one on that carries an operation (the lines before it are
/// skipped), and moves past it. A move is reported only for a `G0` or `G1`
/// line: it goes from where the head was to the line's coordinate, which is
/// where the head then stands, rapid for `G0` and cutting for `G1`. `G21`,
/// `G90`, `M4` and `M5` report no move and leave the head where it was;
/// `G90` switches to relative positioning, as the emulator has always done.
/// An unknown operation, or a move without a coordinate, fails. A step with
/// no such line left reports that the program is finished.
pub proof fn lemma_step_moves(v: EmuView, j: int)
    requires
        v.lines.len() <= usize::MAX,
        v.current_line <= j <= v.lines.len(),
        forall|k: int| v.current_line <= k < j ==> (#[trigger] v.lines[k]).code is None,
        j == v.lines.len() || v.lines[j].code is Some,
    ensures
        ({
            let (r, v2) = step_spec(v);
            &&& j == v.lines.len() ==> r == Ok::<Step, EmulatorError>(Step::Finished) && v2.pos == v.pos
            &&& j < v.lines.len() ==> v2.current_line == j + 1
            &&& r matches Ok(Step::Executed(Some(d))) ==> {
                &&& d.line == j
                &&& d.from == v.pos
                &&& v.lines[j].coord == Some(d.to)
                &&& v2.pos == d.to
                &&& (v.lines[j].code == Some(GCodeOp::G0) && d.kind == MoveKind::Rapid
                    || v.lines[j].code == Some(GCodeOp::G1) && d.kind == MoveKind::Feed)
            }
            &&& j < v.lines.len() && (v.lines[j].code == Some(GCodeOp::G21) || v.lines[j].code == Some(GCodeOp::G90)
                || v.lines[j].code == Some(GCodeOp::M4) || v.lines[j].code == Some(GCodeOp::M5))
                ==> r == Ok::<Step, EmulatorError>(Step::Executed(None)) && v2.pos == v.pos
            &&& v2.lines == v.lines
            &&& (j < v.lines.len() && v.lines[j].code == Some(GCodeOp::G90) ==> v2.positioning == Positioning::Relative)
            &&& (j == v.lines.len() || v.lines[j].code != Some(GCodeOp::G90) ==> v2.positioning == v.positioning)
            &&& (j < v.lines.len() && v.lines[j].code == Some(GCodeOp::UNKNOWN) ==> r == Err::<Step, EmulatorError>(
                EmulatorError::UnknownCode(j as usize),
            ))
            &&& (j < v.lines.len() && v.lines[j].coord is None && (v.lines[j].code == Some(GCodeOp::G0)
                || v.lines[j].code == Some(GCodeOp::G1)) ==> r == Err::<Step, EmulatorError>(
                EmulatorError::MissingCoord(v.lines[j].code.unwrap()),
            ))
        }),
{
    lemma_next_coded(v.lines, v.current_line as int);
    let n = next_coded(v.lines, v.current_line as int);
    if n < j {
        assert(v.lines[n].code is None);
    }
    if j < n {
        assert(v.lines[j].code is None);
    }
    assert(n == j);
}

} // verus!
