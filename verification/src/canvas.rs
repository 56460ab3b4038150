//! Marking detections on a picture.
//!
//! The picture itself is an `image::RgbImage`. What is put where is worked out
//! here, for every coordinate, inside the picture or not.

use vstd::prelude::*;

use crate::error::{DetectError, ErrorView};
use crate::text::owned;

verus! {

broadcast use vstd::string::group_string_axioms;

/// An `image::RgbImage`. Its contents are known through [`samples`],
/// [`width_of`] and [`height_of`].
#[verifier::external_body]
pub struct Picture {
    img: image::RgbImage,
}

/// The samples of a picture, row by row, three per pixel.
pub uninterp spec fn samples(img: Picture) -> Seq<u8>;

/// How wide a picture is.
pub uninterp spec fn width_of(img: Picture) -> u32;

/// How high a picture is.
pub uninterp spec fn height_of(img: Picture) -> u32;

/// A colour.
#[derive(Debug, Clone, Copy, PartialEq, Eq)]
pub struct Colour {
    pub red: u8,
    pub green: u8,
    pub blue: u8,
}

impl Colour {
    /// What a face's box and its eyes are marked with.
    #[verifier::allow_in_spec]
    pub fn green() -> Colour
        returns
            (Colour { red: 0, green: 255, blue: 0 }),
    {
        Colour { red: 0, green: 255, blue: 0 }
    }

    /// What a nose is marked with.
    #[verifier::allow_in_spec]
    pub fn yellow() -> Colour
        returns
            (Colour { red: 255, green: 255, blue: 0 }),
    {
        Colour { red: 255, green: 255, blue: 0 }
    }

    /// What the corners of a mouth are marked with.
    #[verifier::allow_in_spec]
    pub fn red() -> Colour
        returns
            (Colour { red: 255, green: 0, blue: 0 }),
    {
        Colour { red: 255, green: 0, blue: 0 }
    }
}

/// Where a face's keypoints are, in whole pixels.
#[derive(Debug, Clone, Copy, PartialEq, Eq)]
pub struct KeypointMarks {
    pub right_eye: (i64, i64),
    pub left_eye: (i64, i64),
    pub nose: (i64, i64),
    pub right_mouth: (i64, i64),
    pub left_mouth: (i64, i64),
}

/// Where a face is, in whole pixels.
#[derive(Debug, Clone, Copy, PartialEq, Eq)]
pub struct FaceMarks {
    pub top_left: (i64, i64),
    pub bottom_right: (i64, i64),
    pub keypoints: Option<KeypointMarks>,
}

/// Whether a point can be drawn around: it is not at the very end of the numbers.
pub open spec fn has_room(p: (i64, i64)) -> bool {
    i64::MIN + 3 <= p.0 <= i64::MAX - 3 && i64::MIN + 3 <= p.1 <= i64::MAX - 3
}

fn roomy(p: (i64, i64)) -> (r: bool)
    ensures
        r == has_room(p),
{
    i64::MIN + 3 <= p.0 && p.0 <= i64::MAX - 3 && i64::MIN + 3 <= p.1 && p.1 <= i64::MAX - 3
}

impl FaceMarks {
    /// Whether every mark can be drawn.
    pub open spec fn drawable(self) -> bool {
        &&& has_room(self.top_left)
        &&& has_room(self.bottom_right)
        &&& self.keypoints matches Some(k) ==> has_room(k.right_eye) && has_room(k.left_eye) && has_room(k.nose)
            && has_room(k.right_mouth) && has_room(k.left_mouth)
    }

    /// Check that every mark can be drawn.
    pub fn is_drawable(&self) -> (r: bool)
        ensures
            r == self.drawable(),
    {
        let keypoints = match &self.keypoints {
            Some(k) => roomy(k.right_eye) && roomy(k.left_eye) && roomy(k.nose) && roomy(k.right_mouth) && roomy(
                k.left_mouth,
            ),
            None => true,
        };
        roomy(self.top_left) && roomy(self.bottom_right) && keypoints
    }
}

/// Where the samples of a pixel begin.
pub open spec fn place(width: u32, x: int, y: int) -> int {
    (y * width + x) * 3
}

/// Samples with one pixel's worth replaced.
pub open spec fn replaced(s: Seq<u8>, at: int, c: Colour) -> Seq<u8> {
    s.update(at, c.red).update(at + 1, c.green).update(at + 2, c.blue)
}

/// `image::ImageBuffer::from_raw`: the buffer becomes a picture of that size,
/// unchanged, if it is long enough for three samples per pixel. A buffer may be
/// longer. The length is worked out in `usize`, and a row that does not fit
/// there is refused.
#[verifier::external_body]
fn from_raw(width: u32, height: u32, data: Vec<u8>) -> (r: Option<Picture>)
    ensures
        match r {
            Some(img) => 3 * width <= usize::MAX && 3 * width * height <= data@.len() && samples(img) == data@
                && width_of(img) == width && height_of(img) == height,
            None => !(3 * width <= usize::MAX && 3 * width * height <= data@.len()),
        },
{
    image::RgbImage::from_raw(width, height, data).map(|img| Picture { img })
}

/// `image::ImageBuffer::width`: the width the picture was made with.
#[verifier::external_body]
fn width(picture: &Picture) -> (r: u32)
    ensures
        r == width_of(*picture),
{
    picture.img.width()
}

/// `image::ImageBuffer::height`: the height the picture was made with.
#[verifier::external_body]
fn height(picture: &Picture) -> (r: u32)
    ensures
        r == height_of(*picture),
{
    picture.img.height()
}

/// `image::ImageBuffer::put_pixel`: replaces the three samples of one pixel and
/// nothing else. It panics outside the picture.
#[verifier::external_body]
fn put_pixel(picture: &mut Picture, x: u32, y: u32, c: Colour)
    requires
        x < width_of(*old(picture)),
        y < height_of(*old(picture)),
        place(width_of(*old(picture)), x as int, y as int) + 3 <= samples(*old(picture)).len(),
    ensures
        samples(*final(picture)) == replaced(
            samples(*old(picture)),
            place(width_of(*old(picture)), x as int, y as int),
            c,
        ),
        width_of(*final(picture)) == width_of(*old(picture)),
        height_of(*final(picture)) == height_of(*old(picture)),
{
    picture.img.put_pixel(x, y, image::Rgb([c.red, c.green, c.blue]));
}

/// `image::ImageBuffer::into_raw`: hands the buffer back as it is.
#[verifier::external_body]
fn into_raw(picture: Picture) -> (r: Vec<u8>)
    ensures
        r@ == samples(picture),
{
    picture.img.into_raw()
}

/// A picture that can be marked.
pub struct Canvas {
    img: Picture,
}

/// What a [`Canvas`] shows.
pub ghost struct CanvasState {
    pub width: u32,
    pub height: u32,
    pub samples: Seq<u8>,
}

impl View for Canvas {
    type V = CanvasState;

    closed spec fn view(&self) -> CanvasState {
        CanvasState {
            width: width_of(self.img),
            height: height_of(self.img),
            samples: samples(self.img),
        }
    }
}

impl CanvasState {
    /// The samples cover the picture.
    pub open spec fn inv(self) -> bool {
        3 * self.width * self.height <= self.samples.len()
    }

    /// Whether a coordinate is on the picture. Only its low 32 bits count.
    pub open spec fn holds(self, x: i64, y: i64) -> bool {
        x >= 0 && y >= 0 && (x as u32) < self.width && (y as u32) < self.height
    }

    /// The picture with one point marked, if it is on it.
    pub open spec fn dotted(self, x: i64, y: i64, c: Colour) -> CanvasState {
        if self.holds(x, y) {
            CanvasState {
                samples: replaced(self.samples, place(self.width, (x as u32) as int, (y as u32) as int), c),
                ..self
            }
        } else {
            self
        }
    }

    /// The picture with a series of points marked, one after the other.
    pub open spec fn dotted_all(self, points: Seq<(i64, i64)>, c: Colour) -> CanvasState
        decreases points.len(),
    {
        if points.len() == 0 {
            self
        } else {
            self.dotted_all(points.drop_last(), c).dotted(points.last().0, points.last().1, c)
        }
    }

    /// The picture with a small cross on it.
    pub open spec fn crossed(self, p: (i64, i64), c: Colour) -> CanvasState {
        self.dotted_all(cross_points(p.0, p.1, 7), c)
    }

    /// The picture with a face marked: a green box, and enough colour at the
    /// keypoints to tell at a glance whether they land where they should. Eyes
    /// are green, the nose is yellow, the corners of the mouth are red.
    pub open spec fn face_marked(self, f: FaceMarks) -> CanvasState {
        let boxed = self.dotted_all(
            rect_points(f.top_left.0, f.top_left.1, f.bottom_right.0, f.bottom_right.1),
            Colour::green(),
        );
        match f.keypoints {
            Some(k) => boxed.crossed(k.right_eye, Colour::green()).crossed(k.left_eye, Colour::green()).crossed(
                k.nose,
                Colour::yellow(),
            ).crossed(k.right_mouth, Colour::red()).crossed(k.left_mouth, Colour::red()),
            None => boxed,
        }
    }

    /// The colour of a pixel.
    pub open spec fn pixel(self, i: int, j: int) -> Colour {
        let at = place(self.width, i, j);
        Colour { red: self.samples[at], green: self.samples[at + 1], blue: self.samples[at + 2] }
    }
}

/// The top and the bottom edge of a frame, left to right.
pub open spec fn level_points(x0: i64, top: int, bottom: int, n: nat) -> Seq<(i64, i64)>
    decreases n,
{
    if n == 0 {
        Seq::empty()
    } else {
        let x = (x0 + n - 1) as i64;
        level_points(x0, top, bottom, (n - 1) as nat).push((x, top as i64)).push((x, bottom as i64))
    }
}

/// The left and the right edge of a frame, top to bottom.
pub open spec fn upright_points(y0: i64, left: int, right: int, n: nat) -> Seq<(i64, i64)>
    decreases n,
{
    if n == 0 {
        Seq::empty()
    } else {
        let y = (y0 + n - 1) as i64;
        upright_points(y0, left, right, (n - 1) as nat).push((left as i64, y)).push((right as i64, y))
    }
}

/// How many whole numbers there are from `a` to `b`.
pub open spec fn span(a: i64, b: i64) -> nat {
    if a <= b {
        (b - a + 1) as nat
    } else {
        0
    }
}

/// A frame `t` pixels inside its outline.
pub open spec fn frame_points(x0: i64, y0: i64, x1: i64, y1: i64, t: int) -> Seq<(i64, i64)> {
    level_points(x0, y0 + t, y1 - t, span(x0, x1)) + upright_points(y0, x0 + t, x1 - t, span(y0, y1))
}

/// The points of a frame two pixels thick.
pub open spec fn rect_points(x0: i64, y0: i64, x1: i64, y1: i64) -> Seq<(i64, i64)> {
    frame_points(x0, y0, x1, y1, 0) + frame_points(x0, y0, x1, y1, 1)
}

/// The points of a cross that reaches three pixels each way.
pub open spec fn cross_points(cx: i64, cy: i64, n: nat) -> Seq<(i64, i64)>
    decreases n,
{
    if n == 0 {
        Seq::empty()
    } else {
        let d = n - 4;
        cross_points(cx, cy, (n - 1) as nat).push(((cx + d) as i64, cy)).push((cx, (cy + d) as i64))
    }
}

proof fn lemma_place(width: u32, height: u32, x: int, y: int)
    requires
        0 <= x < width,
        0 <= y < height,
    ensures
        0 <= place(width, x, y),
        place(width, x, y) + 3 <= 3 * width * height,
{
    assert(y * width + x + 1 <= width * height && 0 <= y * width) by (nonlinear_arith)
        requires
            0 <= x < width,
            0 <= y < height,
    ;
    assert(3 * width * height == 3 * (width * height)) by (nonlinear_arith);
}

proof fn lemma_dotted_concat(s: CanvasState, a: Seq<(i64, i64)>, b: Seq<(i64, i64)>, c: Colour)
    ensures
        s.dotted_all(a + b, c) == s.dotted_all(a, c).dotted_all(b, c),
    decreases b.len(),
{
    if b.len() == 0 {
        assert(a + b =~= a);
    } else {
        lemma_dotted_concat(s, a, b.drop_last(), c);
        assert((a + b).drop_last() =~= a + b.drop_last());
    }
}

proof fn lemma_dotted_pair(s: CanvasState, a: Seq<(i64, i64)>, p: (i64, i64), q: (i64, i64), c: Colour)
    ensures
        s.dotted_all(a.push(p).push(q), c) == s.dotted_all(a, c).dotted(p.0, p.1, c).dotted(q.0, q.1, c),
{
    assert(a.push(p).push(q).drop_last() =~= a.push(p));
    assert(a.push(p).drop_last() =~= a);
    assert(s.dotted_all(a.push(p), c) == s.dotted_all(a, c).dotted(p.0, p.1, c));
}

impl Canvas {
    /// Make a picture of a packed buffer. One that is too short for its size is
    /// refused.
    pub fn new(width: u32, height: u32, data: Vec<u8>) -> (r: Result<Canvas, DetectError>)
        ensures
            match r {
                Ok(canvas) => canvas@.inv() && canvas@ == (CanvasState { width, height, samples: data@ }),
                Err(e) => !(3 * width <= usize::MAX && 3 * width * height <= data@.len()) && e@ == ErrorView::Config(
                    "frame buffer did not match its dimensions"@,
                ),
            },
    {
        match from_raw(width, height, data) {
            Some(img) => Ok(Canvas { img }),
            None => Err(DetectError::Config(owned("frame buffer did not match its dimensions"))),
        }
    }

    /// Hand the buffer back.
    pub fn into_samples(self) -> (r: Vec<u8>)
        ensures
            r@ == self@.samples,
    {
        into_raw(self.img)
    }

    /// Mark one point, if it is on the picture.
    pub fn put(&mut self, x: i64, y: i64, c: Colour)
        requires
            old(self)@.inv(),
        ensures
            final(self)@ == old(self)@.dotted(x, y, c),
            final(self)@.inv(),
    {
        if x >= 0 && y >= 0 {
            let i: u32 = #[verifier::truncate] (x as u32);
            let j: u32 = #[verifier::truncate] (y as u32);
            if i < width(&self.img) && j < height(&self.img) {
                proof {
                    lemma_place(self@.width, self@.height, i as int, j as int);
                }
                put_pixel(&mut self.img, i, j, c);
            }
        }
    }

    /// Draw the two level edges of a frame.
    fn draw_level(&mut self, x0: i64, x1: i64, top: i64, bottom: i64, c: Colour)
        requires
            old(self)@.inv(),
            x1 < i64::MAX,
        ensures
            final(self)@.inv(),
            final(self)@ == old(self)@.dotted_all(
                level_points(x0, top as int, bottom as int, span(x0, x1)),
                c,
            ),
    {
        let ghost first = self@;
        let mut x: i64 = x0;
        while x <= x1
            invariant
                x0 <= x,
                x <= x1 + 1 || x == x0,
                x1 < i64::MAX,
                self@.inv(),
                self@ == first.dotted_all(
                    level_points(x0, top as int, bottom as int, (x - x0) as nat),
                    c,
                ),
            decreases x1 - x + 1,
        {
            self.put(x, top, c);
            self.put(x, bottom, c);
            proof {
                lemma_dotted_pair(
                    first,
                    level_points(x0, top as int, bottom as int, (x - x0) as nat),
                    (x, top),
                    (x, bottom),
                    c,
                );
            }
            x = x + 1;
        }
    }

    /// Draw the two upright edges of a frame.
    fn draw_upright(&mut self, y0: i64, y1: i64, left: i64, right: i64, c: Colour)
        requires
            old(self)@.inv(),
            y1 < i64::MAX,
        ensures
            final(self)@.inv(),
            final(self)@ == old(self)@.dotted_all(
                upright_points(y0, left as int, right as int, span(y0, y1)),
                c,
            ),
    {
        let ghost first = self@;
        let mut y: i64 = y0;
        while y <= y1
            invariant
                y0 <= y,
                y <= y1 + 1 || y == y0,
                y1 < i64::MAX,
                self@.inv(),
                self@ == first.dotted_all(
                    upright_points(y0, left as int, right as int, (y - y0) as nat),
                    c,
                ),
            decreases y1 - y + 1,
        {
            self.put(left, y, c);
            self.put(right, y, c);
            proof {
                lemma_dotted_pair(
                    first,
                    upright_points(y0, left as int, right as int, (y - y0) as nat),
                    (left, y),
                    (right, y),
                    c,
                );
            }
            y = y + 1;
        }
    }

    /// Draw a frame two pixels thick, so that it survives compression.
    pub fn draw_rect(&mut self, x0: i64, y0: i64, x1: i64, y1: i64, c: Colour)
        requires
            old(self)@.inv(),
            x0 < i64::MAX && y0 < i64::MAX,
            i64::MIN < x1 < i64::MAX && i64::MIN < y1 < i64::MAX,
        ensures
            final(self)@.inv(),
            final(self)@ == old(self)@.dotted_all(rect_points(x0, y0, x1, y1), c),
    {
        let ghost first = self@;
        self.draw_level(x0, x1, y0, y1, c);
        self.draw_upright(y0, y1, x0, x1, c);
        self.draw_level(x0, x1, y0 + 1, y1 - 1, c);
        self.draw_upright(y0, y1, x0 + 1, x1 - 1, c);
        proof {
            let a = level_points(x0, y0 + 0, y1 - 0, span(x0, x1));
            let b = upright_points(y0, x0 + 0, x1 - 0, span(y0, y1));
            let d = level_points(x0, y0 + 1, y1 - 1, span(x0, x1));
            let e = upright_points(y0, x0 + 1, x1 - 1, span(y0, y1));
            lemma_dotted_concat(first, a, b, c);
            lemma_dotted_concat(first.dotted_all(a + b, c), d, e, c);
            lemma_dotted_concat(first, a + b, d + e, c);
        }
    }

    /// Draw a small cross.
    pub fn draw_cross(&mut self, cx: i64, cy: i64, c: Colour)
        requires
            old(self)@.inv(),
            i64::MIN + 3 <= cx <= i64::MAX - 3,
            i64::MIN + 3 <= cy <= i64::MAX - 3,
        ensures
            final(self)@.inv(),
            final(self)@ == old(self)@.dotted_all(cross_points(cx, cy, 7), c),
    {
        let ghost first = self@;
        let mut d: i64 = -3;
        while d <= 3
            invariant
                -3 <= d <= 4,
                i64::MIN + 3 <= cx <= i64::MAX - 3,
                i64::MIN + 3 <= cy <= i64::MAX - 3,
                self@.inv(),
                self@ == first.dotted_all(cross_points(cx, cy, (d + 3) as nat), c),
            decreases 4 - d,
        {
            self.put(cx + d, cy, c);
            self.put(cx, cy + d, c);
            proof {
                lemma_dotted_pair(
                    first,
                    cross_points(cx, cy, (d + 3) as nat),
                    ((cx + d) as i64, cy),
                    (cx, (cy + d) as i64),
                    c,
                );
            }
            d = d + 1;
        }
    }
}

impl Canvas {
    /// Mark a face and its keypoints.
    pub fn mark_face(&mut self, f: &FaceMarks)
        requires
            old(self)@.inv(),
            f.drawable(),
        ensures
            final(self)@.inv(),
            final(self)@ == old(self)@.face_marked(*f),
    {
        self.draw_rect(f.top_left.0, f.top_left.1, f.bottom_right.0, f.bottom_right.1, Colour::green());
        if let Some(k) = &f.keypoints {
            self.draw_cross(k.right_eye.0, k.right_eye.1, Colour::green());
            self.draw_cross(k.left_eye.0, k.left_eye.1, Colour::green());
            self.draw_cross(k.nose.0, k.nose.1, Colour::yellow());
            self.draw_cross(k.right_mouth.0, k.right_mouth.1, Colour::red());
            self.draw_cross(k.left_mouth.0, k.left_mouth.1, Colour::red());
        }
    }
}

/// Marking points changes exactly the pixels they fall on: a pixel has the
/// marking colour if one of the points is there, and its old colour if none is.
pub proof fn law_marking_changes_only_what_is_marked(
    s: CanvasState,
    points: Seq<(i64, i64)>,
    c: Colour,
    i: int,
    j: int,
)
    requires
        s.inv(),
        0 <= i < s.width,
        0 <= j < s.height,
    ensures
        ({
            let after = s.dotted_all(points, c);
            &&& after.width == s.width && after.height == s.height
            &&& after.samples.len() == s.samples.len()
            &&& after.pixel(i, j) == (if exists|k: int|
                0 <= k < points.len() && s.holds((#[trigger] points[k]).0, points[k].1) && (points[k].0 as u32) == i
                    && (points[k].1 as u32) == j {
                c
            } else {
                s.pixel(i, j)
            })
        }),
    decreases points.len(),
{
    if points.len() > 0 {
        let rest = points.drop_last();
        law_marking_changes_only_what_is_marked(s, rest, c, i, j);
        let before = s.dotted_all(rest, c);
        let p = points.last();
        let after = s.dotted_all(points, c);
        lemma_place(s.width, s.height, i, j);
        if s.holds(p.0, p.1) {
            let x = (p.0 as u32) as int;
            let y = (p.1 as u32) as int;
            lemma_place(s.width, s.height, x, y);
            if x == i && y == j {
                assert(after.pixel(i, j) == c);
                assert(points[points.len() - 1] == p);
            } else {
                lemma_places_apart(s.width, i, j, x, y);
                assert(after.pixel(i, j) == before.pixel(i, j));
            }
        }
        if exists|k: int|
            0 <= k < rest.len() && s.holds((#[trigger] rest[k]).0, rest[k].1) && (rest[k].0 as u32) == i && (
            rest[k].1 as u32) == j {
            let k = choose|k: int|
                0 <= k < rest.len() && s.holds((#[trigger] rest[k]).0, rest[k].1) && (rest[k].0 as u32) == i && (
                rest[k].1 as u32) == j;
            assert(points[k] == rest[k]);
        } else {
            assert forall|k: int| 0 <= k < rest.len() implies !(s.holds((#[trigger] points[k]).0, points[k].1) && (
            points[k].0 as u32) == i && (points[k].1 as u32) == j) by {
                assert(rest[k] == points[k]);
            }
        }
    }
}

proof fn lemma_places_apart(width: u32, i: int, j: int, x: int, y: int)
    requires
        0 <= i < width,
        0 <= x < width,
        i != x || j != y,
    ensures
        place(width, i, j) + 3 <= place(width, x, y) || place(width, x, y) + 3 <= place(width, i, j),
{
    if j < y {
        assert(j * width + i + 1 <= y * width + x) by (nonlinear_arith)
            requires
                j + 1 <= y,
                0 <= i < width,
                0 <= x,
        ;
    } else if y < j {
        assert(y * width + x + 1 <= j * width + i) by (nonlinear_arith)
            requires
                y + 1 <= j,
                0 <= x < width,
                0 <= i,
        ;
    }
}

/// A point is on the canvas if it lies within its width and its height.
pub proof fn law_a_point_is_on_the_canvas(s: CanvasState, x: i64, y: i64)
    ensures
        x < 0 || y < 0 ==> !s.holds(x, y),
        0 <= x <= u32::MAX && 0 <= y <= u32::MAX ==> (s.holds(x, y) <==> x < s.width && y < s.height),
        place(s.width, x as int, y as int) == 3 * (y * s.width + x),
{
}

proof fn lemma_level_points(x0: i64, top: int, bottom: int, n: nat, p: (i64, i64))
    requires
        x0 + n - 1 <= i64::MAX,
        i64::MIN <= top <= i64::MAX,
        i64::MIN <= bottom <= i64::MAX,
    ensures
        level_points(x0, top, bottom, n).contains(p) <==> x0 <= p.0 < x0 + n && (p.1 == top || p.1 == bottom),
    decreases n,
{
    let all = level_points(x0, top, bottom, n);
    if n > 0 {
        let m = (n - 1) as nat;
        let rest = level_points(x0, top, bottom, m);
        lemma_level_points(x0, top, bottom, m, p);
        let x = (x0 + n - 1) as i64;
        assert(all[rest.len() as int] == (x, top as i64) && all[rest.len() as int + 1] == (x, bottom as i64));
        if rest.contains(p) {
            let i = choose|i: int| 0 <= i < rest.len() && rest[i] == p;
            assert(all[i] == p);
        }
        if all.contains(p) {
            let i = choose|i: int| 0 <= i < all.len() && all[i] == p;
            if i < rest.len() {
                assert(rest[i] == p);
                assert(rest.contains(p));
            }
        }
    } else {
        assert(!all.contains(p));
    }
}

proof fn lemma_upright_points(y0: i64, left: int, right: int, n: nat, p: (i64, i64))
    requires
        y0 + n - 1 <= i64::MAX,
        i64::MIN <= left <= i64::MAX,
        i64::MIN <= right <= i64::MAX,
    ensures
        upright_points(y0, left, right, n).contains(p) <==> y0 <= p.1 < y0 + n && (p.0 == left || p.0 == right),
    decreases n,
{
    let all = upright_points(y0, left, right, n);
    if n > 0 {
        let m = (n - 1) as nat;
        let rest = upright_points(y0, left, right, m);
        lemma_upright_points(y0, left, right, m, p);
        let y = (y0 + n - 1) as i64;
        assert(all[rest.len() as int] == (left as i64, y) && all[rest.len() as int + 1] == (right as i64, y));
        if rest.contains(p) {
            let i = choose|i: int| 0 <= i < rest.len() && rest[i] == p;
            assert(all[i] == p);
        }
        if all.contains(p) {
            let i = choose|i: int| 0 <= i < all.len() && all[i] == p;
            if i < rest.len() {
                assert(rest[i] == p);
                assert(rest.contains(p));
            }
        }
    } else {
        assert(!all.contains(p));
    }
}

proof fn lemma_contains_concat(a: Seq<(i64, i64)>, b: Seq<(i64, i64)>, p: (i64, i64))
    ensures
        (a + b).contains(p) <==> a.contains(p) || b.contains(p),
{
    let all = a + b;
    if a.contains(p) {
        let i = choose|i: int| 0 <= i < a.len() && a[i] == p;
        assert(all[i] == p);
    }
    if b.contains(p) {
        let i = choose|i: int| 0 <= i < b.len() && b[i] == p;
        assert(all[a.len() + i] == p);
    }
    if all.contains(p) {
        let i = choose|i: int| 0 <= i < all.len() && all[i] == p;
        if i < a.len() {
            assert(a[i] == p);
        } else {
            assert(b[i - a.len()] == p);
        }
    }
}

/// A box is drawn as its four edges, corner to corner, and the lines next to
/// them on the inside: no other point is marked, and none of those is left out.
pub proof fn law_a_box_is_its_four_edges(x0: i64, y0: i64, x1: i64, y1: i64, p: (i64, i64))
    requires
        x0 < i64::MAX && y0 < i64::MAX,
        i64::MIN < x1 < i64::MAX && i64::MIN < y1 < i64::MAX,
    ensures
        rect_points(x0, y0, x1, y1).contains(p) <==> {
            ||| x0 <= p.0 <= x1 && (p.1 == y0 || p.1 == y1 || p.1 == y0 + 1 || p.1 == y1 - 1)
            ||| y0 <= p.1 <= y1 && (p.0 == x0 || p.0 == x1 || p.0 == x0 + 1 || p.0 == x1 - 1)
        },
{
    let (w, h) = (span(x0, x1), span(y0, y1));
    lemma_level_points(x0, y0 as int, y1 as int, w, p);
    lemma_upright_points(y0, x0 as int, x1 as int, h, p);
    lemma_level_points(x0, y0 + 1, y1 - 1, w, p);
    lemma_upright_points(y0, x0 + 1, x1 - 1, h, p);
    lemma_contains_concat(
        level_points(x0, y0 as int, y1 as int, w),
        upright_points(y0, x0 as int, x1 as int, h),
        p,
    );
    lemma_contains_concat(level_points(x0, y0 + 1, y1 - 1, w), upright_points(y0, x0 + 1, x1 - 1, h), p);
    lemma_contains_concat(frame_points(x0, y0, x1, y1, 0), frame_points(x0, y0, x1, y1, 1), p);
}

proof fn lemma_cross_points(cx: i64, cy: i64, n: nat, p: (i64, i64))
    requires
        n <= 7,
        i64::MIN + 3 <= cx <= i64::MAX - 3,
        i64::MIN + 3 <= cy <= i64::MAX - 3,
    ensures
        cross_points(cx, cy, n).contains(p) <==> {
            ||| p.1 == cy && cx - 3 <= p.0 < cx - 3 + n
            ||| p.0 == cx && cy - 3 <= p.1 < cy - 3 + n
        },
    decreases n,
{
    let all = cross_points(cx, cy, n);
    if n > 0 {
        let m = (n - 1) as nat;
        let rest = cross_points(cx, cy, m);
        lemma_cross_points(cx, cy, m, p);
        let d = n - 4;
        assert(all[rest.len() as int] == ((cx + d) as i64, cy) && all[rest.len() as int + 1] == (cx, (cy + d) as i64));
        if rest.contains(p) {
            let i = choose|i: int| 0 <= i < rest.len() && rest[i] == p;
            assert(all[i] == p);
        }
        if all.contains(p) {
            let i = choose|i: int| 0 <= i < all.len() && all[i] == p;
            if i < rest.len() {
                assert(rest[i] == p);
                assert(rest.contains(p));
            }
        }
    } else {
        assert(!all.contains(p));
    }
}

/// A cross reaches three pixels each way from its centre, level and upright, and
/// no further.
pub proof fn law_a_cross_reaches_three_pixels_each_way(cx: i64, cy: i64, p: (i64, i64))
    requires
        i64::MIN + 3 <= cx <= i64::MAX - 3,
        i64::MIN + 3 <= cy <= i64::MAX - 3,
    ensures
        cross_points(cx, cy, 7).contains(p) <==> {
            ||| p.1 == cy && cx - 3 <= p.0 <= cx + 3
            ||| p.0 == cx && cy - 3 <= p.1 <= cy + 3
        },
{
    lemma_cross_points(cx, cy, 7, p);
}

/// A face is marked by its box and, where they are known, by a cross on each of
/// its keypoints: green for the box and the eyes, yellow for the nose and red
/// for the corners of the mouth, the later ones over the earlier.
pub proof fn law_a_face_is_marked_by_colour(s: CanvasState, f: FaceMarks)
    ensures
        ({
            let green = Colour { red: 0, green: 255, blue: 0 };
            let yellow = Colour { red: 255, green: 255, blue: 0 };
            let red = Colour { red: 255, green: 0, blue: 0 };
            let boxed = s.dotted_all(
                rect_points(f.top_left.0, f.top_left.1, f.bottom_right.0, f.bottom_right.1),
                green,
            );
            &&& f.keypoints is None ==> s.face_marked(f) == boxed
            &&& f.keypoints matches Some(k) ==> {
                let a = boxed.dotted_all(cross_points(k.right_eye.0, k.right_eye.1, 7), green);
                let b = a.dotted_all(cross_points(k.left_eye.0, k.left_eye.1, 7), green);
                let c = b.dotted_all(cross_points(k.nose.0, k.nose.1, 7), yellow);
                let d = c.dotted_all(cross_points(k.right_mouth.0, k.right_mouth.1, 7), red);
                s.face_marked(f) == d.dotted_all(cross_points(k.left_mouth.0, k.left_mouth.1, 7), red)
            }
        }),
{
}

/// A face can be marked where every point has room for its cross.
pub proof fn law_a_face_needs_room(f: FaceMarks, p: (i64, i64))
    ensures
        has_room(p) <==> i64::MIN + 3 <= p.0 <= i64::MAX - 3 && i64::MIN + 3 <= p.1 <= i64::MAX - 3,
        f.drawable() <==> has_room(f.top_left) && has_room(f.bottom_right) && (f.keypoints matches Some(k) ==> has_room(
            k.right_eye,
        ) && has_room(k.left_eye) && has_room(k.nose) && has_room(k.right_mouth) && has_room(k.left_mouth)),
{
}

} // verus!
