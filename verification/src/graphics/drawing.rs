use vstd::prelude::*;

use embedded_graphics::{
    framebuffer::Framebuffer,
    geometry::Point,
    mono_font::{
        ascii::{FONT_6X10, FONT_9X15_BOLD},
        MonoTextStyle,
    },
    pixelcolor::raw::{BigEndian, RawU1},
    pixelcolor::BinaryColor as EgColor,
    prelude::Primitive,
    primitives::{Line, PrimitiveStyle},
    text::{Alignment, Text},
    Drawable,
};

use crate::graphics::framebuffer::{
    in_bounds, or_frames, pixel_on, EpdFramebuffer,
};

verus! {

/// Font of a text on screen.
#[derive(Clone, Copy, PartialEq, Eq, Debug, Structural)]
pub enum Font {
    /// The 6 x 10 ASCII font.
    Small,
    /// The 9 x 15 bold ASCII font.
    Bold,
}

/// Which point of a text its position gives.
#[derive(Clone, Copy, PartialEq, Eq, Debug, Structural)]
pub enum TextAlign {
    Left,
    Center,
    Right,
}

/// One thing drawn on a screen, in the "on" colour.
#[derive(Debug)]
pub enum ScreenElement {
    /// A text whose baseline point (left end, middle or right end) is at `(x, y)`.
    Text { text: String, x: i32, y: i32, font: Font, align: TextAlign },
    /// A line one pixel wide from `(x0, y0)` to `(x1, y1)`.
    Line { x0: i32, y0: i32, x1: i32, y1: i32 },
}

/// What a `ScreenElement` draws, with its text as characters.
pub enum ScreenShape {
    Text { text: Seq<char>, x: i32, y: i32, font: Font, align: TextAlign },
    Line { x0: i32, y0: i32, x1: i32, y1: i32 },
}

impl View for ScreenElement {
    type V = ScreenShape;

    open spec fn view(&self) -> ScreenShape {
        match self {
            ScreenElement::Text { text, x, y, font, align } => ScreenShape::Text {
                text: text@,
                x: *x,
                y: *y,
                font: *font,
                align: *align,
            },
            ScreenElement::Line { x0, y0, x1, y1 } => ScreenShape::Line {
                x0: *x0,
                y0: *y0,
                x1: *x1,
                y1: *y1,
            },
        }
    }
}

/// What a list of elements draws.
pub open spec fn shapes_of(elements: Seq<ScreenElement>) -> Seq<ScreenShape> {
    elements.map_values(|e: ScreenElement| e@)
}

/// A coordinate small enough that embedded-graphics' arithmetic on it
/// (adding line heights, text widths and line lengths) cannot overflow.
pub open spec fn coordinate_ok(v: i32) -> bool {
    -0x10_0000 <= v <= 0x10_0000
}

/// An end point coordinate of a line small enough for embedded-graphics'
/// stroke arithmetic: it squares sums of twice the line's extents in `i32`
/// (up to about 4.83 times the longer extent, squared), which stays below
/// 2^31 when each coordinate lies within ±4095.
pub open spec fn line_coordinate_ok(v: i32) -> bool {
    -4095 <= v <= 4095
}

/// A shape that embedded-graphics can draw: a text with coordinates within
/// `coordinate_ok` and at most 1024 characters, or a line with end points
/// within `line_coordinate_ok`.
pub open spec fn shape_ok(shape: ScreenShape) -> bool {
    match shape {
        ScreenShape::Text { text, x, y, .. } => text.len() <= 1024 && coordinate_ok(x)
            && coordinate_ok(y),
        ScreenShape::Line { x0, y0, x1, y1 } => line_coordinate_ok(x0) && line_coordinate_ok(y0)
            && line_coordinate_ok(x1) && line_coordinate_ok(y1),
    }
}

/// Every element of a list can be drawn.
pub open spec fn shapes_ok(shapes: Seq<ScreenShape>) -> bool {
    forall|i: int| 0 <= i < shapes.len() ==> #[trigger] shape_ok(shapes[i])
}

/// The 200 x 200 frame, laid out as `EpdFramebuffer`, that embedded-graphics
/// draws `text` into in the given font and alignment, in the "on" colour and
/// with no background, starting from a blank frame.
pub uninterp spec fn text_mask(text: Seq<char>, x: i32, y: i32, font: Font, align: TextAlign) -> Seq<u8>;

/// The 200 x 200 frame, laid out as `EpdFramebuffer`, that embedded-graphics
/// draws a one-pixel "on" line from `(x0, y0)` to `(x1, y1)` into, starting
/// from a blank frame.
pub uninterp spec fn line_mask(x0: i32, y0: i32, x1: i32, y1: i32) -> Seq<u8>;

/// `Text::with_alignment(..).draw` with a `MonoTextStyle` in the "on" colour,
/// into an embedded-graphics `Framebuffer` of one bit per pixel, most
/// significant bit first, 200 x 200: the frame's bytes are what the name
/// `text_mask` stands for. Coordinates and text length are bounded because
/// the drawing adds line heights and text widths to the position, which
/// overflows (and so panics where overflow is checked) near the ends of `i32`.
#[verifier::external_body]
fn render_text(text: &str, x: i32, y: i32, font: Font, align: TextAlign) -> (mask: [u8; 5000])
    requires
        coordinate_ok(x),
        coordinate_ok(y),
        text@.len() <= 1024,
    ensures
        mask@ == text_mask(text@, x, y, font, align),
{
    let mut fb = Framebuffer::<EgColor, RawU1, BigEndian, 200, 200, 5000>::new();
    let style = match font {
        Font::Small => MonoTextStyle::new(&FONT_6X10, EgColor::On),
        Font::Bold => MonoTextStyle::new(&FONT_9X15_BOLD, EgColor::On),
    };
    let alignment = match align {
        TextAlign::Left => Alignment::Left,
        TextAlign::Center => Alignment::Center,
        TextAlign::Right => Alignment::Right,
    };
    let _ = Text::with_alignment(text, Point::new(x, y), style, alignment).draw(&mut fb);
    *fb.data()
}

/// `Line::new(..).into_styled(PrimitiveStyle::with_stroke(On, 1)).draw` into
/// an embedded-graphics `Framebuffer` of one bit per pixel, most significant
/// bit first, 200 x 200: the frame's bytes are what the name `line_mask`
/// stands for. Coordinates are bounded because the stroke is drawn through
/// embedded-graphics' parallels iterator, which multiplies the line's squared
/// length by four and squares a running sum of twice its extents, in `i32`;
/// long lines overflow there (and so panic where overflow is checked).
#[verifier::external_body]
fn render_line(x0: i32, y0: i32, x1: i32, y1: i32) -> (mask: [u8; 5000])
    requires
        line_coordinate_ok(x0),
        line_coordinate_ok(y0),
        line_coordinate_ok(x1),
        line_coordinate_ok(y1),
    ensures
        mask@ == line_mask(x0, y0, x1, y1),
{
    let mut fb = Framebuffer::<EgColor, RawU1, BigEndian, 200, 200, 5000>::new();
    let _ = Line::new(Point::new(x0, y0), Point::new(x1, y1))
        .into_styled(PrimitiveStyle::with_stroke(EgColor::On, 1))
        .draw(&mut fb);
    *fb.data()
}

/// The pixels a shape turns on.
pub open spec fn shape_mask(shape: ScreenShape) -> Seq<u8> {
    match shape {
        ScreenShape::Text { text, x, y, font, align } => text_mask(text, x, y, font, align),
        ScreenShape::Line { x0, y0, x1, y1 } => line_mask(x0, y0, x1, y1),
    }
}

/// The frame `base` with `shapes` drawn over it in order.
pub open spec fn drawn_over(base: Seq<u8>, shapes: Seq<ScreenShape>) -> Seq<u8>
    decreases shapes.len(),
{
    if shapes.len() == 0 {
        base
    } else {
        or_frames(drawn_over(base, shapes.drop_last()), shape_mask(shapes.last()))
    }
}

/// Drawing only turns pixels on: a pixel is on after drawing `shapes` over
/// `base` exactly when it was on in `base` or one of the shapes draws it.
pub proof fn lemma_drawn_over_pixels(base: Seq<u8>, shapes: Seq<ScreenShape>, x: int, y: int)
    requires
        base.len() == 5000,
        in_bounds(x, y),
    ensures
        drawn_over(base, shapes).len() == 5000,
        pixel_on(drawn_over(base, shapes), x, y) == (pixel_on(base, x, y) || exists|i: int|
            0 <= i < shapes.len() && #[trigger] pixel_on(shape_mask(shapes[i]), x, y)),
    decreases shapes.len(),
{
    if shapes.len() > 0 {
        let rest = shapes.drop_last();
        lemma_drawn_over_pixels(base, rest, x, y);
        crate::graphics::framebuffer::lemma_or_frames_pixel(
            drawn_over(base, rest),
            shape_mask(shapes.last()),
            x,
            y,
        );
        if pixel_on(shape_mask(shapes.last()), x, y) {
            assert(pixel_on(shape_mask(shapes[shapes.len() - 1]), x, y));
        }
        if exists|i: int| 0 <= i < rest.len() && #[trigger] pixel_on(shape_mask(rest[i]), x, y) {
            let i = choose|i: int| 0 <= i < rest.len() && #[trigger] pixel_on(shape_mask(rest[i]), x, y);
            assert(shapes[i] == rest[i]);
        }
        if exists|i: int| 0 <= i < shapes.len() && #[trigger] pixel_on(shape_mask(shapes[i]), x, y) {
            let i = choose|i: int| 0 <= i < shapes.len() && #[trigger] pixel_on(shape_mask(shapes[i]), x, y);
            if i < rest.len() {
                assert(rest[i] == shapes[i]);
            }
        }
    }
}

/// Drawing a text over a frame turns on the pixels that embedded-graphics
/// draws for that text with the text's own alignment (starting at its `x`,
/// centred on it, or ending at it), and leaves the other pixels as they were.
pub proof fn lemma_text_drawn_with_its_alignment(
    base: Seq<u8>,
    text: Seq<char>,
    x: i32,
    y: i32,
    font: Font,
    align: TextAlign,
    px: int,
    py: int,
)
    requires
        base.len() == 5000,
        in_bounds(px, py),
    ensures
        pixel_on(
            drawn_over(base, seq![ScreenShape::Text { text, x, y, font, align }]),
            px,
            py,
        ) == (pixel_on(base, px, py) || pixel_on(text_mask(text, x, y, font, align), px, py)),
{
    let shapes = seq![ScreenShape::Text { text, x, y, font, align }];
    lemma_drawn_over_pixels(base, shapes, px, py);
    assert(shapes[0] == ScreenShape::Text { text, x, y, font, align });
    if exists|i: int| 0 <= i < shapes.len() && #[trigger] pixel_on(shape_mask(shapes[i]), px, py) {
        let i = choose|i: int|
            0 <= i < shapes.len() && #[trigger] pixel_on(shape_mask(shapes[i]), px, py);
        assert(i == 0);
    }
}

/// Drawing a line over a frame turns on the pixels of the line between its
/// two end points that embedded-graphics draws, and leaves the other pixels
/// as they were.
pub proof fn lemma_line_drawn_between_its_ends(
    base: Seq<u8>,
    x0: i32,
    y0: i32,
    x1: i32,
    y1: i32,
    px: int,
    py: int,
)
    requires
        base.len() == 5000,
        in_bounds(px, py),
    ensures
        pixel_on(drawn_over(base, seq![ScreenShape::Line { x0, y0, x1, y1 }]), px, py) == (
        pixel_on(base, px, py) || pixel_on(line_mask(x0, y0, x1, y1), px, py)),
{
    let shapes = seq![ScreenShape::Line { x0, y0, x1, y1 }];
    lemma_drawn_over_pixels(base, shapes, px, py);
    assert(shapes[0] == ScreenShape::Line { x0, y0, x1, y1 });
    if exists|i: int| 0 <= i < shapes.len() && #[trigger] pixel_on(shape_mask(shapes[i]), px, py) {
        let i = choose|i: int|
            0 <= i < shapes.len() && #[trigger] pixel_on(shape_mask(shapes[i]), px, py);
        assert(i == 0);
    }
}

/// Draws `elements` over the frame, in order, with embedded-graphics: a
/// pixel is on afterwards exactly when it was on before or one of the
/// elements draws it, each text with its own font and alignment.
pub fn draw_elements(fb: &mut EpdFramebuffer, elements: &[ScreenElement])
    requires
        shapes_ok(shapes_of(elements@)),
    ensures
        final(fb)@ == drawn_over(old(fb)@, shapes_of(elements@)),
        forall|px: int, py: int|
            in_bounds(px, py) ==> #[trigger] pixel_on(final(fb)@, px, py) == (pixel_on(
                old(fb)@,
                px,
                py,
            ) || exists|i: int|
                #![trigger elements@[i]]
                0 <= i < elements@.len() && pixel_on(
                    match elements@[i] {
                        ScreenElement::Text { text, x, y, font, align } => text_mask(
                            text@,
                            x,
                            y,
                            font,
                            align,
                        ),
                        ScreenElement::Line { x0, y0, x1, y1 } => line_mask(x0, y0, x1, y1),
                    },
                    px,
                    py,
                )),
{
    let n = elements.len();
    let mut i: usize = 0;
    while i < n
        invariant
            n == elements@.len(),
            i <= n,
            shapes_ok(shapes_of(elements@)),
            fb@ == drawn_over(old(fb)@, shapes_of(elements@).take(i as int)),
        decreases n - i,
    {
        assert(shape_ok(shapes_of(elements@)[i as int]));
        let mask = match &elements[i] {
            ScreenElement::Text { text, x, y, font, align } => render_text(
                text.as_str(),
                *x,
                *y,
                *font,
                *align,
            ),
            ScreenElement::Line { x0, y0, x1, y1 } => render_line(*x0, *y0, *x1, *y1),
        };
        assert(mask@ == shape_mask(elements@[i as int]@));
        fb.overlay(&mask);
        assert(shapes_of(elements@).take(i + 1).drop_last() =~= shapes_of(elements@).take(
            i as int,
        ));
        i = i + 1;
    }
    assert(shapes_of(elements@).take(n as int) =~= shapes_of(elements@));
    proof {
        let shapes = shapes_of(elements@);
        assert forall|px: int, py: int| in_bounds(px, py) implies #[trigger] pixel_on(
            fb@,
            px,
            py,
        ) == (pixel_on(old(fb)@, px, py) || exists|i: int|
            #![trigger elements@[i]]
            0 <= i < elements@.len() && pixel_on(
                match elements@[i] {
                    ScreenElement::Text { text, x, y, font, align } => text_mask(
                        text@,
                        x,
                        y,
                        font,
                        align,
                    ),
                    ScreenElement::Line { x0, y0, x1, y1 } => line_mask(x0, y0, x1, y1),
                },
                px,
                py,
            )) by {
            lemma_drawn_over_pixels(old(fb)@, shapes, px, py);
            if exists|i: int|
                0 <= i < shapes.len() && #[trigger] pixel_on(shape_mask(shapes[i]), px, py) {
                let i = choose|i: int|
                    0 <= i < shapes.len() && #[trigger] pixel_on(shape_mask(shapes[i]), px, py);
                assert(shapes[i] == elements@[i]@);
            }
            if exists|i: int|
                #![trigger elements@[i]]
                0 <= i < elements@.len() && pixel_on(
                    match elements@[i] {
                        ScreenElement::Text { text, x, y, font, align } => text_mask(
                            text@,
                            x,
                            y,
                            font,
                            align,
                        ),
                        ScreenElement::Line { x0, y0, x1, y1 } => line_mask(x0, y0, x1, y1),
                    },
                    px,
                    py,
                ) {
                let i = choose|i: int|
                    #![trigger elements@[i]]
                    0 <= i < elements@.len() && pixel_on(
                        match elements@[i] {
                            ScreenElement::Text { text, x, y, font, align } => text_mask(
                                text@,
                                x,
                                y,
                                font,
                                align,
                            ),
                            ScreenElement::Line { x0, y0, x1, y1 } => line_mask(x0, y0, x1, y1),
                        },
                        px,
                        py,
                    );
                assert(shapes[i] == elements@[i]@);
                assert(pixel_on(shape_mask(shapes[i]), px, py));
            }
        }
    }
}

} // verus!
