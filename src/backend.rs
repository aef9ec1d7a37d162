use vstd::prelude::*;

verus! {

/// A colour by its red, green and blue intensities.
#[derive(Clone, Copy, Debug, PartialEq, Eq, Structural)]
pub struct Color(pub u8, pub u8, pub u8);

impl Color {
    /// Pure white.
    pub fn white() -> (c: Color)
        ensures
            c == Color(0xff, 0xff, 0xff),
    {
        Color(0xff, 0xff, 0xff)
    }

    /// Pure red.
    pub fn red() -> (c: Color)
        ensures
            c == Color(0xff, 0x00, 0x00),
    {
        Color(0xff, 0x00, 0x00)
    }

    /// Pure green.
    pub fn green() -> (c: Color)
        ensures
            c == Color(0x00, 0xff, 0x00),
    {
        Color(0x00, 0xff, 0x00)
    }

    /// Pure yellow.
    pub fn yellow() -> (c: Color)
        ensures
            c == Color(0xff, 0xff, 0x00),
    {
        Color(0xff, 0xff, 0x00)
    }

    /// Pure black.
    pub fn black() -> (c: Color)
        ensures
            c == Color(0x00, 0x00, 0x00),
    {
        Color(0x00, 0x00, 0x00)
    }
}

/// A mouse button.
#[derive(Clone, Copy, Debug, PartialEq, Eq, Structural)]
pub enum MouseButton {
    Left,
    Unknown,
}

/// An input event: the window closing, or a mouse button released at a
/// point of the window.
#[derive(Clone, Copy, Debug, PartialEq, Eq, Structural)]
pub enum Event {
    Quit,
    MouseButtonUp(MouseButton, i32, i32),
}

/// Raw image data, as read from a file.
#[derive(Clone, Debug)]
pub struct Image {
    pub data: Vec<u8>,
}

/// What a presentation layer offers the game: drawing, text, images, input
/// events, file reading and logging.
pub trait Backend {
    fn draw_line(&mut self, a: (i32, i32), b: (i32, i32));

    fn set_draw_color(&mut self, color: Color);

    fn clear(&mut self);

    fn win_size(&self) -> (u32, u32);

    fn poll_event(&mut self) -> Vec<Event>;

    fn draw_point(&mut self, x: i32, y: i32);

    fn text_size(&self, string: &str) -> (u32, u32);

    fn render_text(&mut self, text: &str, x: i32, y: i32, color: Color);

    fn render_png_data(&mut self, data: &[u8], x: i32, y: i32, w: i32, h: i32);

    fn present(&mut self);

    fn read_file(&self, path: &str) -> Vec<u8>;

    fn log(string: String);

    fn elog(string: String);
}

} // verus!
