//! A workspace of cuts, and the G-code that cuts them.
use vstd::prelude::*;

use crate::plan::{
    lemma_cut_commands_sound, lemma_run_concat, line_pairs, lines_cut, plan_cut, run_commands, run_safe, plan_line, plan_segments, Command, Cut, MachineState,
    PointId, Segment, CUT_FEED, CUT_POWER,
};

use crate::gcode::{op_name, GCodeOp};

verus! {

/// The printed coordinates of a point, as they go into G-code.
pub struct PointText {
    pub x: String,
    pub y: String,
}

/// The printed coordinates of each point, indexed by point id.
pub open spec fn point_views(points: Seq<PointText>) -> Seq<(Seq<char>, Seq<char>)> {
    points.map_values(|p: PointText| (p.x@, p.y@))
}

/// ` X<x> Y<y>` for the point `p`.
pub open spec fn xy_text(p: PointId, pts: Seq<(Seq<char>, Seq<char>)>) -> Seq<char> {
    seq![' ', 'X'] + pts[p as int].0 + seq![' ', 'Y'] + pts[p as int].1
}

/// The G-code line of a command, as `gen_gcode` writes it.
pub open spec fn command_text(c: Command, pts: Seq<(Seq<char>, Seq<char>)>) -> Seq<char> {
    match c {
        Command::LaserOff => seq!['M', '5'],
        Command::LaserOn => seq!['M', '4'],
        Command::Rapid(p) => seq!['G', '0'] + xy_text(p, pts),
        Command::Cut { to, set_power, set_feed } => seq!['G', '1'] + xy_text(to, pts) + (if set_power {
            seq![' ', 'S', '1', '0', '0', '0']
        } else {
            Seq::empty()
        }) + (if set_feed {
            seq![' ', 'F', '1', '0', '0']
        } else {
            Seq::empty()
        }),
    }
}

/// The point that a command names, if it names one, is one of the first `n`.
pub open spec fn command_in_range(c: Command, n: nat) -> bool {
    match c {
        Command::Rapid(p) => p < n,
        Command::Cut { to, .. } => to < n,
        _ => true,
    }
}

/// Every point that the segments name is one of the first `n`.
pub open spec fn segments_in_range(segs: Seq<Segment>, n: nat) -> bool {
    forall|i: int|
        0 <= i < segs.len() ==> match #[trigger] segs[i] {
            Segment::Line(a, b) => a < n && b < n,
            Segment::Curve => true,
        }
}

/// Every point that the cuts name is one of the first `n`.
pub open spec fn cuts_in_range(items: Seq<Cut>, n: nat) -> bool {
    forall|i: int| 0 <= i < items.len() ==> segments_in_range(#[trigger] items[i].cuts@, n)
}

/// The commands for a list of cuts, taken from the last to the first.
pub open spec fn plan_items(items: Seq<Cut>, st: MachineState) -> (Seq<Command>, MachineState)
    decreases items.len(),
{
    if items.len() == 0 {
        (Seq::empty(), st)
    } else {
        let (c, s1) = plan_cut(items.last().cuts@, st);
        let (c2, s2) = plan_items(items.drop_last(), s1);
        (c + c2, s2)
    }
}

/// The machine as a generated program finds it: at the origin, laser off,
/// power and feed rate not set.
pub open spec fn start_state(origin: PointId) -> MachineState {
    MachineState { pos: origin, e: false, s: 0, f: 0 }
}

/// The two lines that open every generated program.
pub open spec fn gcode_header() -> Seq<Seq<char>> {
    seq!["G21         ; Set units to mm"@, "G90         ; Absolute positioning"@]
}

/// The commands that the G-code of a workspace carries out.
pub open spec fn workspace_commands(items: Seq<Cut>, origin: PointId) -> Seq<Command> {
    plan_items(items, start_state(origin)).0
}

/// Generated G-code, one string per line.
pub struct GCode {
    pub lines: Vec<String>,
}

impl View for GCode {
    type V = Seq<Seq<char>>;

    open spec fn view(&self) -> Seq<Seq<char>> {
        self.lines@.map_values(|l: String| l@)
    }
}

/// A marker for a collection of segments; it carries nothing yet.
pub struct Segments {}

/// The cuts laid out on the machine's bed.
pub struct Workspace {
    pub items: Vec<Cut>,
}

fn append_xy(out: &mut String, p: PointId, points: &Vec<PointText>)
    requires
        p < points@.len(),
    ensures
        final(out)@ == old(out)@ + xy_text(p, point_views(points@)),
{
    proof {
        reveal_strlit(" X");
        reveal_strlit(" Y");
    }
    out.append(" X");
    out.append(points[p].x.as_str());
    out.append(" Y");
    out.append(points[p].y.as_str());
    assert(final(out)@ =~= old(out)@ + xy_text(p, point_views(points@)));
}

/// The G-code line of one command.
pub fn command_line(c: Command, points: &Vec<PointText>) -> (r: String)
    requires
        command_in_range(c, points@.len()),
    ensures
        r@ == command_text(c, point_views(points@)),
{
    proof {
        reveal_strlit("M5");
        reveal_strlit("M4");
        reveal_strlit("G0");
        reveal_strlit("G1");
        reveal_strlit(" S1000");
        reveal_strlit(" F100");
    }
    match c {
        Command::LaserOff => String::from_str("M5"),
        Command::LaserOn => String::from_str("M4"),
        Command::Rapid(p) => {
            let mut out = String::from_str("G0");
            append_xy(&mut out, p, points);
            out
        },
        Command::Cut { to, set_power, set_feed } => {
            let mut out = String::from_str("G1");
            append_xy(&mut out, to, points);
            let ghost base = out@;
            if set_power {
                out.append(" S1000");
            }
            let ghost with_power = out@;
            if set_feed {
                out.append(" F100");
            }
            proof {
                assert(with_power =~= base + (if set_power {
                    seq![' ', 'S', '1', '0', '0', '0']
                } else {
                    Seq::empty()
                }));
                assert(out@ =~= with_power + (if set_feed {
                    seq![' ', 'F', '1', '0', '0']
                } else {
                    Seq::empty()
                }));
            }
            out
        },
    }
}

/// Every command names only points of the first `n`.
pub open spec fn commands_in_range(cmds: Seq<Command>, n: nat) -> bool {
    forall|i: int| 0 <= i < cmds.len() ==> command_in_range(#[trigger] cmds[i], n)
}

proof fn lemma_in_range_concat(a: Seq<Command>, b: Seq<Command>, n: nat)
    requires
        commands_in_range(a, n),
        commands_in_range(b, n),
    ensures
        commands_in_range(a + b, n),
{
    assert forall|i: int| 0 <= i < (a + b).len() implies command_in_range(#[trigger] (a + b)[i], n) by {
        if i < a.len() {
            assert((a + b)[i] == a[i]);
        } else {
            assert((a + b)[i] == b[i - a.len()]);
        }
    }
}

proof fn lemma_segments_in_range(segs: Seq<Segment>, st: MachineState, n: nat)
    requires
        segments_in_range(segs, n),
    ensures
        commands_in_range(plan_segments(segs, st).0, n),
    decreases segs.len(),
{
    if segs.len() > 0 {
        assert(segments_in_range(segs.drop_last(), n)) by {
            assert forall|i: int| 0 <= i < segs.drop_last().len() implies match #[trigger] segs.drop_last()[i] {
                Segment::Line(a, b) => a < n && b < n,
                Segment::Curve => true,
            } by {
                assert(segs.drop_last()[i] == segs[i]);
            }
        }
        lemma_segments_in_range(segs.drop_last(), st, n);
        let (c, s1) = plan_segments(segs.drop_last(), st);
        let last = segs[segs.len() - 1];
        match last {
            Segment::Line(a, b) => {
                let (c2, s2) = plan_line(a, b, s1);
                assert(commands_in_range(c2, n));
                lemma_in_range_concat(c, c2, n);
            },
            Segment::Curve => {},
        }
    }
}

pub(crate) proof fn lemma_items_in_range(items: Seq<Cut>, st: MachineState, n: nat)
    requires
        cuts_in_range(items, n),
    ensures
        commands_in_range(plan_items(items, st).0, n),
    decreases items.len(),
{
    if items.len() > 0 {
        let last = items.last();
        assert(segments_in_range(last.cuts@, n));
        lemma_segments_in_range(last.cuts@, st, n);
        let (c, s1) = plan_cut(last.cuts@, st);
        assert(commands_in_range(c, n)) by {
            let (c0, s0) = plan_segments(last.cuts@, st);
            assert(commands_in_range(seq![Command::LaserOff], n));
            lemma_in_range_concat(c0, seq![Command::LaserOff], n);
            assert(c0.push(Command::LaserOff) =~= c0 + seq![Command::LaserOff]);
        }
        assert(cuts_in_range(items.drop_last(), n)) by {
            assert forall|i: int| 0 <= i < items.drop_last().len() implies segments_in_range(
                #[trigger] items.drop_last()[i].cuts@,
                n,
            ) by {
                assert(items.drop_last()[i] == items[i]);
            }
        }
        lemma_items_in_range(items.drop_last(), s1, n);
        lemma_in_range_concat(c, plan_items(items.drop_last(), s1).0, n);
    }
}

impl Workspace {
    /// An empty workspace.
    pub fn init() -> (w: Workspace)
        ensures
            w.items@ == Seq::<Cut>::empty(),
    {
        Workspace { items: Vec::new() }
    }

    /// Adds a cut, placed where it is, after the cuts already there.
    pub fn add_cut(&mut self, cut: Cut)
        ensures
            final(self).items@ == old(self).items@.push(cut),
    {
        self.items.push(cut);
    }

    /// The cuts of the workspace, in the order in which they were added.
    pub fn items(&self) -> (r: &[Cut])
        ensures
            r@ == self.items@,
    {
        self.items.as_slice()
    }

    /// The G-code that cuts the whole workspace: the two header lines, then
    /// the commands of each cut, the last added first, the machine starting at
    /// `origin` with the laser off and no power or feed rate set.
    pub fn gen_gcode(&self, origin: PointId, points: &Vec<PointText>) -> (g: GCode)
        requires
            cuts_in_range(self.items@, points@.len()),
        ensures
            g@ == gcode_header() + workspace_commands(self.items@, origin).map_values(
                |c: Command| command_text(c, point_views(points@)),
            ),
    {
        let ghost items = self.items@;
        let ghost total = plan_items(items, start_state(origin));
        let mut cmds: Vec<Command> = Vec::new();
        let mut machine_state = MachineState { pos: origin, e: false, s: 0, f: 0 };
        let mut k = self.items.len();
        proof {
            assert(items.take(k as int) =~= items);
        }
        while k > 0
            invariant
                k <= items.len(),
                items == self.items@,
                cmds@ + plan_items(items.take(k as int), machine_state).0 == total.0,
            decreases k,
        {
            let ghost before = cmds@;
            let ghost st = machine_state;
            proof {
                assert(items.take(k as int).last() == items[k - 1]);
                assert(items.take(k as int).drop_last() =~= items.take(k - 1));
            }
            let cut_cmds = self.items[k - 1].gen_gcode(&mut machine_state);
            let mut j: usize = 0;
            while j < cut_cmds.len()
                invariant
                    j <= cut_cmds@.len(),
                    cmds@ == before + cut_cmds@.take(j as int),
                decreases cut_cmds@.len() - j,
            {
                cmds.push(cut_cmds[j]);
                proof {
                    assert(cut_cmds@.take(j + 1) =~= cut_cmds@.take(j as int).push(cut_cmds@[j as int]));
                }
                j = j + 1;
            }
            proof {
                assert(cut_cmds@.take(j as int) =~= cut_cmds@);
                assert(before + (cut_cmds@ + plan_items(items.take(k - 1), machine_state).0) =~= cmds@
                    + plan_items(items.take(k - 1), machine_state).0);
            }
            k = k - 1;
        }
        proof {
            assert(items.take(0) =~= Seq::<Cut>::empty());
            assert(cmds@ + Seq::<Command>::empty() =~= cmds@);
            lemma_items_in_range(items, start_state(origin), points@.len());
        }
        let mut lines: Vec<String> = Vec::new();
        lines.push(String::from_str("G21         ; Set units to mm"));
        lines.push(String::from_str("G90         ; Absolute positioning"));
        let ghost pts = point_views(points@);
        let mut i: usize = 0;
        while i < cmds.len()
            invariant
                i <= cmds@.len(),
                cmds@ == total.0,
                commands_in_range(cmds@, points@.len()),
                pts == point_views(points@),
                lines@.map_values(|l: String| l@) == gcode_header() + cmds@.take(i as int).map_values(
                    |c: Command| command_text(c, pts),
                ),
            decreases cmds@.len() - i,
        {
            let line = command_line(cmds[i], points);
            let ghost old_lines = lines@;
            let ghost line_view = line@;
            lines.push(line);
            proof {
                assert(lines@ == old_lines.push(line));
                assert(lines@.map_values(|l: String| l@) =~= old_lines.map_values(|l: String| l@).push(
                    line_view,
                ));
                assert(cmds@.take(i + 1) =~= cmds@.take(i as int).push(cmds@[i as int]));
                assert(cmds@.take(i + 1).map_values(|c: Command| command_text(c, pts)) =~= cmds@.take(
                    i as int,
                ).map_values(|c: Command| command_text(c, pts)).push(command_text(cmds@[i as int], pts)));
                assert(lines@.map_values(|l: String| l@) =~= gcode_header() + cmds@.take(i + 1).map_values(
                    |c: Command| command_text(c, pts),
                ));
            }
            i = i + 1;
        }
        proof {
            assert(cmds@.take(i as int) =~= cmds@);
        }
        GCode { lines }
    }
}


/// The straight segments of a list of cuts, the last cut's first.
pub open spec fn items_lines(items: Seq<Cut>) -> Seq<(PointId, PointId)>
    decreases items.len(),
{
    if items.len() == 0 {
        Seq::empty()
    } else {
        line_pairs(items.last().cuts@) + items_lines(items.drop_last())
    }
}

proof fn lemma_items_sound(items: Seq<Cut>, st: MachineState)
    ensures
        ({
            let (cmds, out) = plan_items(items, st);
            &&& run_commands(cmds, st) == out
            &&& run_safe(cmds, st)
            &&& lines_cut(cmds, st) == items_lines(items)
            &&& items.len() > 0 ==> !out.e
            &&& items.len() == 0 ==> out == st
        }),
    decreases items.len(),
{
    if items.len() > 0 {
        let (c, s1) = plan_cut(items.last().cuts@, st);
        lemma_cut_commands_sound(items.last().cuts@, st);
        lemma_items_sound(items.drop_last(), s1);
        let (c2, s2) = plan_items(items.drop_last(), s1);
        lemma_run_concat(c, c2, st);
    } else {
        assert(run_commands(Seq::<Command>::empty(), st) == st);
        assert(lines_cut(Seq::<Command>::empty(), st) =~= Seq::<(PointId, PointId)>::empty());
    }
}

/// Carrying out the G-code of a workspace cuts exactly the straight segments
/// of its cuts, the cut added last first, each cut's segments in order. No
/// rapid move happens with the laser on, every cutting move runs with the
/// laser on at the cutting power and feed rate, and the laser is off at the end.
pub proof fn lemma_workspace_commands_sound(items: Seq<Cut>, origin: PointId)
    ensures
        run_safe(workspace_commands(items, origin), start_state(origin)),
        lines_cut(workspace_commands(items, origin), start_state(origin)) == items_lines(items),
        !run_commands(workspace_commands(items, origin), start_state(origin)).e,
{
    lemma_items_sound(items, start_state(origin));
}

/// The lines that a generated program writes for its commands open with the
/// name of the matching G-code operation: laser off is `M5`, laser on `M4`,
/// a rapid move `G0` and a cutting move `G1`, each as `GCodeOp` names it.
pub proof fn lemma_command_names(c: Command, pts: Seq<(Seq<char>, Seq<char>)>)
    ensures
        c == Command::LaserOff ==> command_text(c, pts) == op_name(GCodeOp::M5),
        c == Command::LaserOn ==> command_text(c, pts) == op_name(GCodeOp::M4),
        c is Rapid ==> command_text(c, pts).take(2) == op_name(GCodeOp::G0),
        c is Cut ==> command_text(c, pts).take(2) == op_name(GCodeOp::G1),
{
    match c {
        Command::Rapid(p) => {
            assert(command_text(c, pts).take(2) =~= op_name(GCodeOp::G0));
        },
        Command::Cut { to, set_power, set_feed } => {
            assert(command_text(c, pts).take(2) =~= op_name(GCodeOp::G1));
        },
        _ => {},
    }
}

} // verus!
