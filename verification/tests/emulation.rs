use laser_cutter::emulator::{Draw, EmulatorError, GCodeEmulator, GCodeLine, Step};
use laser_cutter::gcode::GCodeOp;
use laser_cutter::renderer::{MoveKind, NullRenderer, RenderError};

fn line(code: Option<GCodeOp>, coord: Option<usize>) -> GCodeLine {
    GCodeLine { code, coord }
}

#[test]
fn null_renderer_does_nothing() {
    let mut r = NullRenderer::new();
    assert_eq!(r.draw_line(0, 1, MoveKind::Feed), Ok(()));
    assert_eq!(r.to_file("nowhere.svg"), Ok(()));
    assert_eq!(r.to_img_url(), Ok("Invalid Renderer".to_string()));
    let _e = RenderError::NoDocument;
}

#[test]
fn steps_skip_lines_without_operation() {
    let lines = vec![
        line(None, Some(4)),
        line(Some(GCodeOp::G0), Some(1)),
        line(Some(GCodeOp::G21), None),
        line(None, None),
        line(Some(GCodeOp::G1), Some(2)),
    ];
    let mut emu = GCodeEmulator::from_gcode(lines, 0).unwrap();
    assert_eq!(
        emu.next_step(),
        Ok(Step::Executed(Some(Draw { from: 0, to: 1, kind: MoveKind::Rapid, line: 1 })))
    );
    assert_eq!(emu.next_step(), Ok(Step::Executed(None)));
    assert_eq!(
        emu.next_step(),
        Ok(Step::Executed(Some(Draw { from: 1, to: 2, kind: MoveKind::Feed, line: 4 })))
    );
    assert_eq!(emu.next_step(), Ok(Step::Finished));
    assert_eq!(emu.next_step(), Ok(Step::Finished));
}

#[test]
fn step_reports_whether_a_line_ran() {
    let mut emu = GCodeEmulator::from_gcode(vec![line(Some(GCodeOp::M4), None)], 0).unwrap();
    assert_eq!(emu.step(), Ok(true));
    assert_eq!(emu.step(), Ok(false));
}

#[test]
fn run_fails_on_move_without_coordinate() {
    let lines = vec![line(Some(GCodeOp::G90), None), line(Some(GCodeOp::G0), None)];
    let mut emu = GCodeEmulator::from_gcode(lines, 0).unwrap();
    assert_eq!(emu.run(), Err(EmulatorError::MissingCoord(GCodeOp::G0)));
    let mut emu = GCodeEmulator::from_gcode(vec![line(Some(GCodeOp::G1), None)], 0).unwrap();
    assert_eq!(emu.run(), Err(EmulatorError::MissingCoord(GCodeOp::G1)));
}

#[test]
fn run_fails_on_unknown_code() {
    let lines = vec![line(None, None), line(Some(GCodeOp::UNKNOWN), Some(3))];
    let mut emu = GCodeEmulator::from_gcode(lines, 0).unwrap();
    assert_eq!(emu.run(), Err(EmulatorError::UnknownCode(1)));
}

#[test]
fn run_succeeds_on_a_good_program() {
    let lines = vec![
        line(Some(GCodeOp::G21), None),
        line(Some(GCodeOp::G90), None),
        line(Some(GCodeOp::G0), Some(3)),
        line(Some(GCodeOp::M4), None),
        line(Some(GCodeOp::G1), Some(7)),
        line(Some(GCodeOp::M5), None),
    ];
    let mut emu = GCodeEmulator::from_gcode(lines, 0).unwrap();
    assert_eq!(emu.run(), Ok(()));
    assert_eq!(emu.to_img_url(), Ok("Invalid Renderer".to_string()));
    assert_eq!(emu.save("out.svg"), Ok(()));
}
