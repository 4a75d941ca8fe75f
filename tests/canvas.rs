use ray_tracer::Canvas;

type Color = (f64, f64, f64);

const BLACK: Color = (0., 0., 0.);

#[test]
fn it_creates_a_canvas() {
    let width = 10;
    let height = 10;
    let c = Canvas::new(width, height, BLACK);
    assert_eq!(c.width(), 10);
    assert_eq!(c.height(), 10);
    for y in 0..height {
        for x in 0..width {
            assert_eq!(c.get(x, y), BLACK);
        }
    }
}

#[test]
fn it_writes_a_pixel() {
    let mut c = Canvas::new(10, 10, BLACK);
    let red = (1., 0., 0.);
    c.set(2, 3, red);
    assert_eq!(c.get(2, 3), red);
    assert_eq!(c.get(3, 2), BLACK);
}

#[test]
fn rows_land_at_their_own_index() {
    let rows = vec![vec![1, 2, 3], vec![4, 5, 6]];
    let c = Canvas::from_rows(3, &rows);
    assert_eq!(c.width(), 3);
    assert_eq!(c.height(), 2);
    assert_eq!(c.get(0, 0), 1);
    assert_eq!(c.get(2, 0), 3);
    assert_eq!(c.get(0, 1), 4);
    assert_eq!(c.get(2, 1), 6);
}

#[test]
fn an_empty_canvas_has_no_pixels() {
    let c: Canvas<u8> = Canvas::from_rows(4, &vec![]);
    assert_eq!(c.width(), 4);
    assert_eq!(c.height(), 0);
}
