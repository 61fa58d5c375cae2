use laser_cutter::console::{menu, Tasks};
use laser_cutter::grid::{grid_layer, GridLine};
use laser_cutter::pixel_renderer::{png_data_url, PixelRenderer};
use laser_cutter::renderer::MoveKind;

#[test]
fn grid_has_major_lines_every_fifty() {
    let g = grid_layer();
    assert_eq!(g.major.len(), 30);
    assert_eq!(g.minor.len(), 112);
    assert_eq!(g.major[0], GridLine { x1: 0, y1: 0, x2: 0, y2: 700 });
    assert_eq!(g.major[1], GridLine { x1: 50, y1: 0, x2: 50, y2: 700 });
    assert_eq!(g.minor[0], GridLine { x1: 10, y1: 0, x2: 10, y2: 700 });
    assert_eq!(g.major[15], GridLine { x1: 0, y1: 0, x2: 700, y2: 0 });
    assert_eq!(g.minor[111], GridLine { x1: 0, y1: 690, x2: 700, y2: 690 });
}

#[test]
fn menu_depends_on_workspace() {
    assert_eq!(menu(false), vec![Tasks::LOAD, Tasks::NEW, Tasks::QUIT]);
    let m = menu(true);
    assert_eq!(m.len(), 8);
    assert_eq!(m[0], Tasks::SAVE);
    assert_eq!(m[7], Tasks::GENERATE);
    assert_eq!(Tasks::GENERATE.name(), "GENERATE");
    assert_eq!(Tasks::QUIT.name(), "QUIT");
}

#[test]
fn plot_paints_one_pixel() {
    let mut r = PixelRenderer::new();
    assert_eq!(r.width(), 700);
    assert_eq!(r.height(), 700);
    r.plot(2, 1, MoveKind::Feed);
    let i = (700 + 2) * 3;
    assert_eq!(&r.pixels()[i..i + 3], &[0, 255, 0]);
    assert_eq!(&r.pixels()[i + 3..i + 6], &[255, 255, 255]);
    r.plot(0, 0, MoveKind::Rapid);
    assert_eq!(&r.pixels()[0..3], &[255, 0, 0]);
}

#[test]
fn plot_outside_does_nothing() {
    let mut r = PixelRenderer::new();
    r.plot(-1, 0, MoveKind::Feed);
    r.plot(700, 3, MoveKind::Feed);
    r.plot(3, 700, MoveKind::Rapid);
    assert!(r.pixels().iter().all(|b| *b == 255));
}

#[test]
fn picture_as_data_url() {
    let mut r = PixelRenderer::new();
    let url = r.to_img_url().unwrap();
    assert!(url.starts_with("data:image/png;base64,iVBORw0KGgo"));
}

#[test]
fn data_url_is_base64_of_the_bytes() {
    assert_eq!(png_data_url(&vec![0, 1, 2, 255]), Ok("data:image/png;base64,AAEC/w==".to_string()));
    assert_eq!(png_data_url(&vec![b'M', b'a']), Ok("data:image/png;base64,TWE=".to_string()));
    assert_eq!(png_data_url(&vec![]), Ok("data:image/png;base64,".to_string()));
}
