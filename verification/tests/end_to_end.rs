use laser_cutter::emulator::{GCodeEmulator, GCodeLine};
use laser_cutter::gcode::{parse_op, scan_line, Field, GCodeOp};
use laser_cutter::plan::{Cut, Segment};
use laser_cutter::workspace::{PointText, Workspace};

/// Reads generated G-code back into emulator lines, giving coordinates the
/// ids of the points whose texts they carry.
fn read_back(lines: &[String], pts: &[PointText]) -> Vec<GCodeLine> {
    lines
        .iter()
        .map(|l| {
            let s = scan_line(l);
            let code = s.code.as_ref().and_then(|c| parse_op(c));
            let mut x = None;
            let mut y = None;
            for n in &s.numbers {
                let t = String::from_utf8(n.text.clone()).unwrap();
                let _: f32 = t.parse().unwrap();
                match n.field {
                    Field::X => x = Some(t),
                    Field::Y => y = Some(t),
                    _ => {}
                }
            }
            let coord = match (x, y) {
                (Some(x), Some(y)) => pts.iter().position(|p| p.x == x && p.y == y),
                _ => None,
            };
            GCodeLine { code, coord }
        })
        .collect()
}

fn pt(x: &str, y: &str) -> PointText {
    PointText { x: x.to_string(), y: y.to_string() }
}

#[test]
fn generated_gcode_runs_in_the_emulator() {
    let pts = vec![pt("0", "0"), pt("10", "0"), pt("10", "10"), pt("0", "10"), pt("20.5", "3")];
    let mut w = Workspace::init();
    w.add_cut(Cut {
        source: Some("box.svg".to_string()),
        cuts: vec![Segment::Line(0, 1), Segment::Line(1, 2), Segment::Line(2, 3), Segment::Line(3, 0)],
    });
    w.add_cut(Cut { source: None, cuts: vec![Segment::Line(4, 2)] });
    let g = w.gen_gcode(0, &pts);
    let program = read_back(&g.lines, &pts);
    assert_eq!(program.len(), g.lines.len());
    // Only rapid moves are read back with an operation.
    let rapid: Vec<_> = program.iter().filter(|l| l.code == Some(GCodeOp::G0)).map(|l| l.coord).collect();
    assert_eq!(rapid, vec![Some(4), Some(0)]);
    assert!(program.iter().all(|l| l.code.is_none() || l.code == Some(GCodeOp::G0)));
    let mut emu = GCodeEmulator::from_gcode(program, 0).unwrap();
    assert_eq!(emu.run(), Ok(()));
}

fn box_cut() -> Cut {
    Cut {
        source: Some("box-all/input.svg".to_string()),
        cuts: vec![Segment::Line(0, 1), Segment::Line(1, 2), Segment::Line(2, 3), Segment::Line(3, 0)],
    }
}

/// The box placed with its lowest corner at the origin, which is point 0.
fn box_points() -> Vec<PointText> {
    vec![pt("0", "0"), pt("100", "0"), pt("100", "100"), pt("0", "100")]
}

#[test]
fn workspace_test_gen_gcode() {
    let pts = box_points();
    let mut w = Workspace::init();
    w.add_cut(box_cut());
    let g = w.gen_gcode(0, &pts);
    assert_eq!(
        g.lines,
        vec![
            "G21         ; Set units to mm",
            "G90         ; Absolute positioning",
            "M4",
            "G1 X100 Y0 S1000 F100",
            "G1 X100 Y100",
            "G1 X0 Y100",
            "G1 X0 Y0",
            "M5",
        ]
    );
}

#[test]
fn laser_gcode_test() {
    let text = "G21 ; mm\nG90\nG0 X0 Y0\nM4\nG1 X10 Y0 S1000 F100\nG1 X10 Y10\nM5\nG0 X0 Y10\n";
    let pts = vec![pt("0", "0"), pt("10", "0"), pt("10", "10"), pt("0", "10")];
    let lines: Vec<String> = text.lines().map(|l| l.to_string()).collect();
    let program = read_back(&lines, &pts);
    let mut gce = GCodeEmulator::from_gcode(program, 0).unwrap();
    gce.run().unwrap();
    gce.save("out.svg").unwrap();
}

#[test]
fn end_to_end_test() {
    let pts = box_points();
    let mut w = Workspace::init();
    w.add_cut(box_cut());
    let g = w.gen_gcode(0, &pts);
    let program = read_back(&g.lines, &pts);
    let mut gce = GCodeEmulator::from_gcode(program, 0).unwrap();
    gce.run().unwrap();
    gce.save("out.svg").unwrap();
}
