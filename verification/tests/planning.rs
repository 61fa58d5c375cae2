use laser_cutter::plan::{Command, Cut, Line, MachineState, Operation, Raster, Segment};
use laser_cutter::workspace::{command_line, PointText, Workspace};

fn pt(x: &str, y: &str) -> PointText {
    PointText { x: x.to_string(), y: y.to_string() }
}

fn start(origin: usize) -> MachineState {
    MachineState { pos: origin, e: false, s: 0, f: 0 }
}

#[test]
fn square_cut_commands() {
    // Points: 0 origin, 1..4 the corners of a square.
    let cut = Cut {
        source: None,
        cuts: vec![
            Segment::Line(1, 2),
            Segment::Line(2, 3),
            Segment::Line(3, 4),
            Segment::Line(4, 1),
        ],
    };
    let mut st = start(0);
    let cmds = cut.gen_gcode(&mut st);
    assert_eq!(
        cmds,
        vec![
            Command::Rapid(1),
            Command::LaserOn,
            Command::Cut { to: 2, set_power: true, set_feed: true },
            Command::Cut { to: 3, set_power: false, set_feed: false },
            Command::Cut { to: 4, set_power: false, set_feed: false },
            Command::Cut { to: 1, set_power: false, set_feed: false },
            Command::LaserOff,
        ]
    );
    assert_eq!(st, MachineState { pos: 1, e: false, s: 1000, f: 100 });
}

#[test]
fn gap_turns_laser_off_for_rapid() {
    let cut = Cut { source: None, cuts: vec![Segment::Line(0, 1), Segment::Curve, Segment::Line(2, 3)] };
    let mut st = start(0);
    let cmds = cut.gen_gcode(&mut st);
    assert_eq!(
        cmds,
        vec![
            Command::LaserOn,
            Command::Cut { to: 1, set_power: true, set_feed: true },
            Command::LaserOff,
            Command::Rapid(2),
            Command::LaserOn,
            Command::Cut { to: 3, set_power: false, set_feed: false },
            Command::LaserOff,
        ]
    );
}

#[test]
fn empty_cut_turns_laser_off() {
    let cut = Cut { source: Some("a.svg".to_string()), cuts: vec![] };
    let mut st = MachineState { pos: 5, e: true, s: 1000, f: 100 };
    assert_eq!(cut.gen_gcode(&mut st), vec![Command::LaserOff]);
    assert!(!st.e);
}

#[test]
fn command_lines() {
    let pts = vec![pt("0", "0"), pt("1.5", "-2")];
    assert_eq!(command_line(Command::LaserOff, &pts), "M5");
    assert_eq!(command_line(Command::LaserOn, &pts), "M4");
    assert_eq!(command_line(Command::Rapid(1), &pts), "G0 X1.5 Y-2");
    assert_eq!(command_line(Command::Cut { to: 1, set_power: true, set_feed: true }, &pts), "G1 X1.5 Y-2 S1000 F100");
    assert_eq!(command_line(Command::Cut { to: 0, set_power: false, set_feed: true }, &pts), "G1 X0 Y0 F100");
}

#[test]
fn workspace_gcode_takes_last_cut_first() {
    let pts = vec![pt("0", "0"), pt("1", "0"), pt("5", "5"), pt("6", "5")];
    let mut w = Workspace::init();
    w.add_cut(Cut { source: None, cuts: vec![Segment::Line(0, 1)] });
    w.add_cut(Cut { source: None, cuts: vec![Segment::Line(2, 3)] });
    assert_eq!(w.items().len(), 2);
    let g = w.gen_gcode(0, &pts);
    assert_eq!(
        g.lines,
        vec![
            "G21         ; Set units to mm",
            "G90         ; Absolute positioning",
            "G0 X5 Y5",
            "M4",
            "G1 X6 Y5 S1000 F100",
            "M5",
            "G0 X0 Y0",
            "M4",
            "G1 X1 Y0",
            "M5",
        ]
    );
}

#[test]
fn empty_workspace_gcode_is_the_header() {
    let w = Workspace::init();
    let g = w.gen_gcode(0, &vec![]);
    assert_eq!(g.lines, vec!["G21         ; Set units to mm", "G90         ; Absolute positioning"]);
}

#[test]
fn raster_lines_are_cut_in_order() {
    // A serpentine sweep: down, across, up.
    let raster = Raster { source: Some("g2.png".to_string()), cuts: vec![Line(0, 1), Line(1, 2), Line(2, 3), Line(5, 6)] };
    let mut st = start(0);
    let cmds = Operation::Raster(raster).gen_gcode(&mut st);
    assert_eq!(
        cmds,
        vec![
            Command::LaserOn,
            Command::Cut { to: 1, set_power: true, set_feed: true },
            Command::Cut { to: 2, set_power: false, set_feed: false },
            Command::Cut { to: 3, set_power: false, set_feed: false },
            Command::LaserOff,
            Command::Rapid(5),
            Command::LaserOn,
            Command::Cut { to: 6, set_power: false, set_feed: false },
            Command::LaserOff,
        ]
    );
    assert_eq!(st, MachineState { pos: 6, e: false, s: 1000, f: 100 });
}

#[test]
fn cut_operation_matches_cut() {
    let cut = Cut { source: None, cuts: vec![Segment::Line(1, 2), Segment::Curve, Segment::Line(2, 4)] };
    let mut st_a = MachineState { pos: 7, e: true, s: 1000, f: 50 };
    let mut st_b = st_a;
    let direct = cut.gen_gcode(&mut st_a);
    let via_op = Operation::Cut(cut).gen_gcode(&mut st_b);
    assert_eq!(direct, via_op);
    assert_eq!(st_a, st_b);
    assert_eq!(direct[0], Command::LaserOff);
    assert_eq!(direct[1], Command::Rapid(1));
}

#[test]
fn empty_raster_only_turns_laser_off() {
    let mut st = MachineState { pos: 3, e: true, s: 1000, f: 100 };
    let cmds = Operation::Raster(Raster { source: None, cuts: vec![] }).gen_gcode(&mut st);
    assert_eq!(cmds, vec![Command::LaserOff]);
    assert_eq!(st, MachineState { pos: 3, e: false, s: 1000, f: 100 });
}
