use threechess::{draw_polygon, fill_quadrilateral, point_is_in_quadrilateral, point_is_in_triangle, sign};
use threechess::{Backend, Color, Event};

#[test]
fn sign_is_twice_the_signed_area() {
    assert_eq!(sign((0, 0), (4, 0), (0, 3)), 12);
    assert_eq!(sign((4, 0), (0, 0), (0, 3)), -12);
    assert_eq!(sign((1, 1), (2, 2), (3, 3)), 0);
}

#[test]
fn triangle_contains_inside_and_border_only() {
    let t = [(0, 0), (10, 0), (0, 10)];
    assert!(point_is_in_triangle((2, 2), &t));
    assert!(point_is_in_triangle((5, 5), &t));
    assert!(point_is_in_triangle((0, 0), &t));
    assert!(!point_is_in_triangle((6, 6), &t));
    assert!(!point_is_in_triangle((-1, 2), &t));
}

#[test]
fn quadrilateral_is_two_triangles() {
    let q = [(0, 0), (10, 0), (0, 10), (10, 10)];
    assert!(point_is_in_quadrilateral((9, 9), &q));
    assert!(point_is_in_quadrilateral((1, 1), &q));
    assert!(point_is_in_quadrilateral((5, 5), &q));
    assert!(!point_is_in_quadrilateral((11, 5), &q));
    assert!(!point_is_in_quadrilateral((5, -1), &q));
}

#[derive(Default)]
struct Recorder {
    lines: Vec<((i32, i32), (i32, i32))>,
    points: Vec<(i32, i32)>,
}

impl Backend for Recorder {
    fn draw_line(&mut self, a: (i32, i32), b: (i32, i32)) {
        self.lines.push((a, b));
    }
    fn set_draw_color(&mut self, _color: Color) {}
    fn clear(&mut self) {}
    fn win_size(&self) -> (u32, u32) {
        (0, 0)
    }
    fn poll_event(&mut self) -> Vec<Event> {
        vec![]
    }
    fn draw_point(&mut self, x: i32, y: i32) {
        self.points.push((x, y));
    }
    fn text_size(&self, _string: &str) -> (u32, u32) {
        (0, 0)
    }
    fn render_text(&mut self, _text: &str, _x: i32, _y: i32, _color: Color) {}
    fn render_png_data(&mut self, _data: &[u8], _x: i32, _y: i32, _w: i32, _h: i32) {}
    fn present(&mut self) {}
    fn read_file(&self, _path: &str) -> Vec<u8> {
        vec![]
    }
    fn log(_string: String) {}
    fn elog(_string: String) {}
}

#[test]
fn polygon_outline_order() {
    let mut r = Recorder::default();
    let pts = [(0, 0), (4, 0), (0, 4), (4, 4)];
    draw_polygon(&mut r, &pts);
    assert_eq!(r.lines, vec![((0, 0), (0, 4)), ((0, 4), (4, 4)), ((4, 4), (4, 0)), ((4, 0), (0, 0))]);
}

#[test]
fn filled_square_covers_its_box() {
    let mut r = Recorder::default();
    fill_quadrilateral(&mut r, &[(0, 0), (2, 0), (0, 2), (2, 2)]);
    assert_eq!(r.points.len(), 9);
    assert!(r.points.contains(&(1, 1)));
    assert!(r.points.contains(&(2, 2)));
    let mut r = Recorder::default();
    fill_quadrilateral(&mut r, &[(0, 0), (4, 0), (0, 4), (0, 4)]);
    assert_eq!(r.points.len(), 15);
    assert!(!r.points.contains(&(4, 4)));
}
