use graph_buddy::Canvas;
use graph_buddy::WorkSheetBuilder;

const WHITE: (u8, u8, u8) = (255, 255, 255);
const AXIS: (u8, u8, u8) = (255, 0, 0);
const DOT: (u8, u8, u8) = (200, 0, 0);

#[test]
fn draw_two_points_on_default_canvas() {
    let ws = WorkSheetBuilder::new()
        .vec_data(vec![100, 100, 200, 300])
        .build()
        .unwrap();
    let mut canvas = Canvas::new(10, "foo.png", 600, ws);
    assert!(canvas.draw().is_ok());

    // the dot for (100, 100): device center (100, 500), offset by the border
    assert_eq!(canvas.pixel_at(110, 490), DOT);
    assert_eq!(canvas.pixel_at(108, 488), DOT);
    assert_eq!(canvas.pixel_at(112, 492), DOT);
    // the dot for (200, 300): device center (200, 300), offset by the border
    assert_eq!(canvas.pixel_at(210, 290), DOT);
    // the vertical axis line and a tick beside it on a tenth row
    assert_eq!(canvas.pixel_at(10, 300), AXIS);
    assert_eq!(canvas.pixel_at(11, 300), AXIS);
    assert_eq!(canvas.pixel_at(12, 300), AXIS);
    // the horizontal axis line and a tick above it on a tenth column
    assert_eq!(canvas.pixel_at(300, 590), AXIS);
    assert_eq!(canvas.pixel_at(300, 589), AXIS);
    assert_eq!(canvas.pixel_at(300, 588), AXIS);
    // plain background
    assert_eq!(canvas.pixel_at(55, 55), WHITE);
    assert_eq!(canvas.pixel_at(113, 490), WHITE);
}

#[test]
fn draw_twice_equals_draw_once() {
    let ws1 = WorkSheetBuilder::new()
        .vec_data(vec![20, 20, 30, 25])
        .build()
        .unwrap();
    let ws2 = WorkSheetBuilder::new()
        .vec_data(vec![20, 20, 30, 25])
        .build()
        .unwrap();
    let mut once = Canvas::new(5, "once.png", 50, ws1);
    let mut twice = Canvas::new(5, "twice.png", 50, ws2);
    assert!(once.draw().is_ok());
    assert!(twice.draw().is_ok());
    assert!(twice.draw().is_ok());
    for x in 0..50u32 {
        for y in 0..50u32 {
            assert_eq!(once.pixel_at(x, y), twice.pixel_at(x, y));
        }
    }
}

#[test]
fn fresh_canvas_is_zeroed_before_any_draw() {
    let ws = graph_buddy::WorkSheetBuilder::new().build().unwrap();
    let canvas = Canvas::new(5, "zero.png", 20, ws);
    assert_eq!(canvas.pixel_at(0, 0), (0, 0, 0));
    assert_eq!(canvas.pixel_at(19, 19), (0, 0, 0));
}

#[test]
fn draw_through_the_drawable_trait() {
    let ws = WorkSheetBuilder::new()
        .vec_data(vec![20, 20])
        .build()
        .unwrap();
    let mut canvas = Canvas::new(5, "trait.png", 50, ws);
    assert!(graph_buddy::Drawable::draw(&mut canvas).is_ok());
    assert_eq!(canvas.pixel_at(5, 25), AXIS);
    assert_eq!(canvas.pixel_at(25, 25), DOT);
}

#[test]
fn draw_fails_when_a_point_falls_outside() {
    let ws = WorkSheetBuilder::new()
        .vec_data(vec![100, 100])
        .build()
        .unwrap();
    let mut canvas = Canvas::new(5, "out.png", 50, ws);
    assert!(canvas.draw().is_err());
}

#[test]
fn draw_fails_when_axis_does_not_fit() {
    let ws = WorkSheetBuilder::new().build().unwrap();
    let mut canvas = Canvas::new(1, "thin.png", 3, ws);
    assert!(canvas.draw().is_err());
}

#[test]
fn failed_draw_leaves_the_buffer_untouched() {
    let ws_good = WorkSheetBuilder::new()
        .vec_data(vec![20, 20])
        .build()
        .unwrap();
    let ws_bad = WorkSheetBuilder::new()
        .vec_data(vec![1000, 1000])
        .build()
        .unwrap();
    let mut canvas = Canvas::new(5, "kept.png", 50, ws_good);
    assert!(canvas.draw().is_ok());
    canvas.worksheet = ws_bad;
    assert!(canvas.draw().is_err());
    // still exactly the first rendering
    assert_eq!(canvas.pixel_at(5, 25), AXIS);
    assert_eq!(canvas.pixel_at(25, 25), DOT);
    assert_eq!(canvas.pixel_at(40, 10), WHITE);
}

#[test]
fn empty_dataset_draws_only_axis_on_white() {
    let ws = WorkSheetBuilder::new().build().unwrap();
    let mut canvas = Canvas::new(10, "axis.png", 60, ws);
    assert!(canvas.draw().is_ok());
    for x in 0..60u32 {
        for y in 0..60u32 {
            let c = canvas.pixel_at(x, y);
            let tick_v = y % 10 == 0 && (x == 11 || x == 12);
            let tick_h = x % 10 == 0 && (y == 49 || y == 48);
            if x == 10 || y == 50 || tick_v || tick_h {
                assert_eq!(c, AXIS);
            } else {
                assert_eq!(c, WHITE);
            }
        }
    }
}
