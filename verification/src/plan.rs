//! Turning cuts into machine commands.
use vstd::prelude::*;

verus! {

/// Names a point of the workspace. Two points have the same id exactly when
/// their coordinates compare equal.
pub type PointId = usize;

/// A piece of a cut, with its transform already applied.
#[derive(PartialEq, Eq, Structural, Debug, Clone, Copy)]
pub enum Segment {
    /// A straight line from the first point to the second.
    Line(PointId, PointId),
    /// A curve; the cutter does not cut curves and skips them.
    Curve,
}

/// What the cutter is doing between two commands.
#[derive(PartialEq, Eq, Structural, Debug, Clone, Copy)]
pub struct MachineState {
    /// Where the head is.
    pub pos: PointId,
    /// Whether the laser is on.
    pub e: bool,
    /// The laser power last set.
    pub s: u32,
    /// The feed rate last set.
    pub f: u32,
}

/// The laser power at which every line is cut.
pub const CUT_POWER: u32 = 1000;

/// The feed rate at which every line is cut.
pub const CUT_FEED: u32 = 100;

/// One line of generated G-code.
#[derive(PartialEq, Eq, Structural, Debug, Clone, Copy)]
pub enum Command {
    /// `M5`: the laser goes off.
    LaserOff,
    /// `M4`: the laser goes on.
    LaserOn,
    /// `G0`: a rapid move to the point.
    Rapid(PointId),
    /// `G1`: a cutting move to the point, setting the power and the feed rate
    /// where the flags say so.
    Cut { to: PointId, set_power: bool, set_feed: bool },
}

/// A cut: the segments that it is made of, placed in the workspace.
#[derive(PartialEq, Eq, Debug, Clone)]
pub struct Cut {
    /// The file that the cut was read from, if any.
    pub source: Option<String>,
    /// The segments, in the order in which they are cut.
    pub cuts: Vec<Segment>,
}

/// The commands for one straight segment, and the state after them:
/// leave the laser off and move rapidly to the start unless the head is there,
/// turn the laser on unless it is on, then cut to the end, setting power and
/// feed rate where they are not set yet.
pub open spec fn plan_line(start: PointId, end: PointId, st: MachineState) -> (Seq<Command>, MachineState) {
    let moved = start != st.pos;
    let c1: Seq<Command> = if moved {
        (if st.e {
            seq![Command::LaserOff]
        } else {
            Seq::empty()
        }) + seq![Command::Rapid(start)]
    } else {
        Seq::empty()
    };
    let e1 = if moved {
        false
    } else {
        st.e
    };
    let c2: Seq<Command> = if !e1 {
        seq![Command::LaserOn]
    } else {
        Seq::empty()
    };
    let cut = Command::Cut { to: end, set_power: st.s != CUT_POWER, set_feed: st.f != CUT_FEED };
    (c1 + c2 + seq![cut], MachineState { pos: end, e: true, s: CUT_POWER, f: CUT_FEED })
}

/// The commands for a run of segments, one after the other.
pub open spec fn plan_segments(segs: Seq<Segment>, st: MachineState) -> (Seq<Command>, MachineState)
    decreases segs.len(),
{
    if segs.len() == 0 {
        (Seq::empty(), st)
    } else {
        let (c, s1) = plan_segments(segs.drop_last(), st);
        match segs.last() {
            Segment::Line(a, b) => {
                let (c2, s2) = plan_line(a, b, s1);
                (c + c2, s2)
            },
            Segment::Curve => (c, s1),
        }
    }
}

/// The commands for a whole cut: its segments, then the laser goes off.
pub open spec fn plan_cut(segs: Seq<Segment>, st: MachineState) -> (Seq<Command>, MachineState) {
    let (c, s) = plan_segments(segs, st);
    (c.push(Command::LaserOff), MachineState { e: false, ..s })
}

/// The commands that cut the segments `segs` one after the other, then turn
/// the laser off, starting from `machine_state`, which is left as the machine
/// is after them.
fn gen_segments(segs: &Vec<Segment>, machine_state: &mut MachineState) -> (cmds: Vec<Command>)
    ensures
        (cmds@, *final(machine_state)) == plan_cut(segs@, *old(machine_state)),
{
    let ghost st0 = *machine_state;
    let mut gcode: Vec<Command> = Vec::new();
    let n = segs.len();
    let mut i: usize = 0;
    while i < n
        invariant
            n == segs@.len(),
            i <= n,
            (gcode@, *machine_state) == plan_segments(segs@.take(i as int), st0),
        decreases n - i,
    {
        proof {
            assert(segs@.take(i + 1).drop_last() =~= segs@.take(i as int));
            assert(segs@.take(i + 1).last() == segs@[i as int]);
        }
        match segs[i] {
            Segment::Line(start, end) => {
                let ghost before = gcode@;
                let ghost st1 = *machine_state;
                if start != machine_state.pos {
                    if machine_state.e {
                        gcode.push(Command::LaserOff);
                        machine_state.e = false;
                    }
                    gcode.push(Command::Rapid(start));
                    machine_state.pos = start;
                }
                if !machine_state.e {
                    gcode.push(Command::LaserOn);
                    machine_state.e = true;
                }
                let set_power = machine_state.s != CUT_POWER;
                let set_feed = machine_state.f != CUT_FEED;
                if set_power {
                    machine_state.s = CUT_POWER;
                }
                if set_feed {
                    machine_state.f = CUT_FEED;
                }
                gcode.push(Command::Cut { to: end, set_power, set_feed });
                machine_state.pos = end;
                proof {
                    let (c2, s2) = plan_line(start, end, st1);
                    assert(gcode@ =~= before + c2);
                    assert(*machine_state == s2);
                }
            },
            Segment::Curve => {},
        }
        i = i + 1;
    }
    proof {
        assert(segs@.take(n as int) =~= segs@);
    }
    gcode.push(Command::LaserOff);
    machine_state.e = false;
    gcode
}

impl Cut {
    /// The commands that cut this cut, starting from `machine_state`, which
    /// is left as the machine is after them.
    pub fn gen_gcode(&self, machine_state: &mut MachineState) -> (cmds: Vec<Command>)
        ensures
            (cmds@, *final(machine_state)) == plan_cut(self.cuts@, *old(machine_state)),
    {
        gen_segments(&self.cuts, machine_state)
    }
}

/// A straight line from the first point to the second, the piece that a
/// raster is made of.
#[derive(PartialEq, Eq, Structural, Debug, Clone, Copy)]
pub struct Line(pub PointId, pub PointId);

/// A raster engraving: the lines that sweep an image, placed in the
/// workspace, in the order in which they are cut.
#[derive(PartialEq, Eq, Debug, Clone)]
pub struct Raster {
    /// The image that the raster was made from, if any.
    pub source: Option<String>,
    /// The lines, in the order in which they are cut.
    pub cuts: Vec<Line>,
}

/// One job of the workspace: a cut along outlines, or a raster.
#[derive(PartialEq, Eq, Debug, Clone)]
pub enum Operation {
    Cut(Cut),
    Raster(Raster),
}

/// The lines `lines`, each as a straight segment.
pub open spec fn lines_as_segments(lines: Seq<Line>) -> Seq<Segment> {
    lines.map_values(|l: Line| Segment::Line(l.0, l.1))
}

impl Operation {
    /// The segments that the operation cuts, in order.
    pub open spec fn segments(&self) -> Seq<Segment> {
        match self {
            Operation::Cut(c) => c.cuts@,
            Operation::Raster(r) => lines_as_segments(r.cuts@),
        }
    }

    /// The commands that carry out this operation, starting from
    /// `machine_state`, which is left as the machine is after them. A raster
    /// is cut line by line, exactly as a cut made of those lines would be.
    pub fn gen_gcode(&self, machine_state: &mut MachineState) -> (cmds: Vec<Command>)
        ensures
            (cmds@, *final(machine_state)) == plan_cut(self.segments(), *old(machine_state)),
    {
        match self {
            Operation::Cut(c) => c.gen_gcode(machine_state),
            Operation::Raster(r) => {
                let mut segs: Vec<Segment> = Vec::new();
                let n = r.cuts.len();
                let mut i: usize = 0;
                while i < n
                    invariant
                        n == r.cuts@.len(),
                        i <= n,
                        segs@ == lines_as_segments(r.cuts@.take(i as int)),
                    decreases n - i,
                {
                    let line = r.cuts[i];
                    segs.push(Segment::Line(line.0, line.1));
                    i = i + 1;
                    proof {
                        assert(segs@ =~= lines_as_segments(r.cuts@.take(i as int)));
                    }
                }
                proof {
                    assert(r.cuts@.take(n as int) =~= r.cuts@);
                }
                gen_segments(&segs, machine_state)
            },
        }
    }
}

/// The state of the machine after it carries out `c`.
pub open spec fn exec_command(st: MachineState, c: Command) -> MachineState {
    match c {
        Command::LaserOff => MachineState { e: false, ..st },
        Command::LaserOn => MachineState { e: true, ..st },
        Command::Rapid(p) => MachineState { pos: p, ..st },
        Command::Cut { to, set_power, set_feed } => MachineState {
            pos: to,
            s: if set_power {
                CUT_POWER
            } else {
                st.s
            },
            f: if set_feed {
                CUT_FEED
            } else {
                st.f
            },
            ..st
        },
    }
}

/// The state of the machine after it carries out `cmds` in order.
pub open spec fn run_commands(cmds: Seq<Command>, st: MachineState) -> MachineState
    decreases cmds.len(),
{
    if cmds.len() == 0 {
        st
    } else {
        exec_command(run_commands(cmds.drop_last(), st), cmds.last())
    }
}

/// `c` is safe to carry out in `st`: no rapid move with the laser on, and no
/// cutting move but with the laser on at the cutting power and feed rate.
pub open spec fn command_safe(st: MachineState, c: Command) -> bool {
    match c {
        Command::Rapid(_) => !st.e,
        Command::Cut { to, set_power, set_feed } => st.e && (set_power || st.s == CUT_POWER) && (set_feed
            || st.f == CUT_FEED),
        _ => true,
    }
}

/// Every command of `cmds` is safe in the state in which it is carried out.
pub open spec fn run_safe(cmds: Seq<Command>, st: MachineState) -> bool
    decreases cmds.len(),
{
    if cmds.len() == 0 {
        true
    } else {
        run_safe(cmds.drop_last(), st) && command_safe(run_commands(cmds.drop_last(), st), cmds.last())
    }
}

/// The lines that carrying out `cmds` cuts, in order: from where the head is
/// to where each cutting move goes.
pub open spec fn lines_cut(cmds: Seq<Command>, st: MachineState) -> Seq<(PointId, PointId)>
    decreases cmds.len(),
{
    if cmds.len() == 0 {
        Seq::empty()
    } else {
        let before = run_commands(cmds.drop_last(), st);
        lines_cut(cmds.drop_last(), st) + match cmds.last() {
            Command::Cut { to, .. } => seq![(before.pos, to)],
            _ => Seq::empty(),
        }
    }
}

/// The straight segments among `segs`, in order.
pub open spec fn line_pairs(segs: Seq<Segment>) -> Seq<(PointId, PointId)>
    decreases segs.len(),
{
    if segs.len() == 0 {
        Seq::empty()
    } else {
        line_pairs(segs.drop_last()) + match segs.last() {
            Segment::Line(a, b) => seq![(a, b)],
            Segment::Curve => Seq::empty(),
        }
    }
}

/// Carrying out two runs of commands one after the other.
pub proof fn lemma_run_concat(a: Seq<Command>, b: Seq<Command>, st: MachineState)
    ensures
        run_commands(a + b, st) == run_commands(b, run_commands(a, st)),
        run_safe(a + b, st) == (run_safe(a, st) && run_safe(b, run_commands(a, st))),
        lines_cut(a + b, st) == lines_cut(a, st) + lines_cut(b, run_commands(a, st)),
    decreases b.len(),
{
    if b.len() == 0 {
        assert(a + b =~= a);
        assert(lines_cut(a, st) + lines_cut(b, run_commands(a, st)) =~= lines_cut(a, st));
    } else {
        assert((a + b).drop_last() =~= a + b.drop_last());
        assert((a + b).last() == b.last());
        lemma_run_concat(a, b.drop_last(), st);
        let mid = run_commands(a, st);
        let tail: Seq<(PointId, PointId)> = match b.last() {
            Command::Cut { to, .. } => seq![(run_commands(b.drop_last(), mid).pos, to)],
            _ => Seq::empty(),
        };
        assert(lines_cut(a, st) + lines_cut(b.drop_last(), mid) + tail =~= lines_cut(a, st) + (lines_cut(
            b.drop_last(),
            mid,
        ) + tail));
    }
}

proof fn lemma_run_single(c: Command, st: MachineState)
    ensures
        run_commands(seq![c], st) == exec_command(st, c),
        run_safe(seq![c], st) == command_safe(st, c),
        lines_cut(seq![c], st) == match c {
            Command::Cut { to, .. } => seq![(st.pos, to)],
            _ => Seq::<(PointId, PointId)>::empty(),
        },
{
    let empty = Seq::<Command>::empty();
    assert(seq![c].drop_last() =~= empty);
    assert(seq![c].last() == c);
    assert(run_commands(empty, st) == st);
    assert(run_safe(empty, st));
    assert(lines_cut(empty, st) =~= Seq::<(PointId, PointId)>::empty());
    let t: Seq<(PointId, PointId)> = match c {
        Command::Cut { to, .. } => seq![(st.pos, to)],
        _ => Seq::<(PointId, PointId)>::empty(),
    };
    assert(Seq::<(PointId, PointId)>::empty() + t =~= t);
}

proof fn lemma_plan_line(start: PointId, end: PointId, st: MachineState)
    ensures
        ({
            let (c, s2) = plan_line(start, end, st);
            &&& run_commands(c, st) == s2
            &&& run_safe(c, st)
            &&& lines_cut(c, st) == seq![(start, end)]
        }),
{
    let moved = start != st.pos;
    let off: Seq<Command> = if moved && st.e {
        seq![Command::LaserOff]
    } else {
        Seq::empty()
    };
    let mv: Seq<Command> = if moved {
        seq![Command::Rapid(start)]
    } else {
        Seq::empty()
    };
    let e1 = if moved {
        false
    } else {
        st.e
    };
    let on: Seq<Command> = if !e1 {
        seq![Command::LaserOn]
    } else {
        Seq::empty()
    };
    let cut = Command::Cut { to: end, set_power: st.s != CUT_POWER, set_feed: st.f != CUT_FEED };
    let (c, s2) = plan_line(start, end, st);
    assert(c =~= off + mv + on + seq![cut]);
    let empty: Seq<Command> = Seq::empty();
    assert(run_commands(empty, st) == st);
    // Laser off.
    let st_a = run_commands(off, st);
    if moved && st.e {
        lemma_run_single(Command::LaserOff, st);
    }
    assert(st_a == MachineState { e: if moved { false } else { st.e }, ..st });
    assert(run_safe(off, st));
    assert(lines_cut(off, st) =~= Seq::<(PointId, PointId)>::empty());
    // Rapid move.
    lemma_run_concat(off, mv, st);
    let st_b = run_commands(off + mv, st);
    if moved {
        lemma_run_single(Command::Rapid(start), st_a);
    } else {
        assert(off + mv =~= off);
    }
    assert(st_b == MachineState { pos: start, e: e1, ..st });
    assert(run_safe(off + mv, st));
    assert(lines_cut(off + mv, st) =~= Seq::<(PointId, PointId)>::empty());
    // Laser on.
    lemma_run_concat(off + mv, on, st);
    let st_c = run_commands(off + mv + on, st);
    if !e1 {
        lemma_run_single(Command::LaserOn, st_b);
    } else {
        assert(off + mv + on =~= off + mv);
    }
    assert(st_c == MachineState { pos: start, e: true, ..st });
    assert(run_safe(off + mv + on, st));
    assert(lines_cut(off + mv + on, st) =~= Seq::<(PointId, PointId)>::empty());
    // The cut.
    lemma_run_concat(off + mv + on, seq![cut], st);
    lemma_run_single(cut, st_c);
    assert(lines_cut(off + mv + on + seq![cut], st) =~= seq![(start, end)]);
}

proof fn lemma_plan_segments(segs: Seq<Segment>, st: MachineState)
    ensures
        ({
            let (c, s) = plan_segments(segs, st);
            &&& run_commands(c, st) == s
            &&& run_safe(c, st)
            &&& lines_cut(c, st) == line_pairs(segs)
        }),
    decreases segs.len(),
{
    if segs.len() > 0 {
        lemma_plan_segments(segs.drop_last(), st);
        let (c, s1) = plan_segments(segs.drop_last(), st);
        match segs.last() {
            Segment::Line(a, b) => {
                let (c2, s2) = plan_line(a, b, s1);
                lemma_plan_line(a, b, s1);
                lemma_run_concat(c, c2, st);
            },
            Segment::Curve => {
                assert(line_pairs(segs) =~= line_pairs(segs.drop_last()));
            },
        }
    }
}

/// Carrying out the commands that `Cut::gen_gcode` writes for a cut cuts
/// exactly the straight segments of the cut, in order, each from its start to
/// its end. No rapid move happens with the laser on, every cutting move runs
/// with the laser on at the cutting power and feed rate, the laser is off at
/// the end, and the machine ends in the state that `gen_gcode` reports.
pub proof fn lemma_cut_commands_sound(segs: Seq<Segment>, st: MachineState)
    ensures
        ({
            let (cmds, out) = plan_cut(segs, st);
            &&& run_commands(cmds, st) == out
            &&& run_safe(cmds, st)
            &&& lines_cut(cmds, st) == line_pairs(segs)
            &&& !out.e
            &&& cmds.last() == Command::LaserOff
        }),
{
    lemma_plan_segments(segs, st);
    let (c, s) = plan_segments(segs, st);
    lemma_run_concat(c, seq![Command::LaserOff], st);
    lemma_run_single(Command::LaserOff, s);
    assert(c.push(Command::LaserOff) =~= c + seq![Command::LaserOff]);
    assert(lines_cut(c, st) + Seq::<(PointId, PointId)>::empty() =~= lines_cut(c, st));
}

/// The straight segments among `segs`, in order, with the curves left out.
pub open spec fn straight_segments(segs: Seq<Segment>) -> Seq<Segment>
    decreases segs.len(),
{
    if segs.len() == 0 {
        Seq::empty()
    } else {
        match segs.last() {
            Segment::Line(a, b) => straight_segments(segs.drop_last()).push(Segment::Line(a, b)),
            Segment::Curve => straight_segments(segs.drop_last()),
        }
    }
}

/// Curves are skipped without a trace: the commands for a cut, and the state
/// the machine is left in, are those for its straight segments alone. In
/// particular a curve between two connected lines neither turns the laser
/// off nor moves the head.
pub proof fn lemma_curves_skipped(segs: Seq<Segment>, st: MachineState)
    ensures
        plan_segments(segs, st) == plan_segments(straight_segments(segs), st),
        plan_cut(segs, st) == plan_cut(straight_segments(segs), st),
        forall|i: int| 0 <= i < straight_segments(segs).len() ==> #[trigger] straight_segments(segs)[i] is Line,
    decreases segs.len(),
{
    if segs.len() > 0 {
        let init = segs.drop_last();
        lemma_curves_skipped(init, st);
        let lines = straight_segments(init);
        match segs.last() {
            Segment::Line(a, b) => {
                let pushed = lines.push(Segment::Line(a, b));
                assert(pushed.drop_last() =~= lines);
                assert(pushed.last() == Segment::Line(a, b));
                assert forall|i: int| 0 <= i < pushed.len() implies #[trigger] pushed[i] is Line by {
                    if i < lines.len() {
                        assert(pushed[i] == lines[i]);
                    }
                }
            },
            Segment::Curve => {},
        }
    }
}

} // verus!
