//! A picture as an image of one pixel per cell.

use crate::game_of_life::{lemma_index_in_bounds, lemma_position_in_bounds};
use crate::grid_view::{Color, GridViewModel, Scene};
use vstd::prelude::*;

verus! {

/// An image of four bytes per pixel, kept in an `image::RgbaImage`.
#[verifier::external_body]
pub struct Canvas {
    image: image::RgbaImage,
}

/// The pixels of a canvas, row after row from the top, each row from the
/// left.
pub uninterp spec fn canvas_pixels(canvas: Canvas) -> Seq<Color>;

/// The number of pixels in a row of a canvas.
pub uninterp spec fn canvas_width(canvas: Canvas) -> nat;

/// The channel `channel` of `color`, in the order red, green, blue, alpha.
pub open spec fn channel_of(color: Color, channel: int) -> u8 {
    if channel == 0 {
        color.red
    } else if channel == 1 {
        color.green
    } else if channel == 2 {
        color.blue
    } else {
        color.alpha
    }
}

/// The bytes of `pixels`: four to a pixel, one per channel.
pub open spec fn bytes_of(pixels: Seq<Color>) -> Seq<u8> {
    Seq::new(4 * pixels.len(), |i: int| channel_of(pixels[i / 4], i % 4))
}

impl Canvas {
    /// `ImageBuffer::from_pixel`: an image of `height` rows of `width`
    /// pixels, each of them `color`. The call panics where the buffer of
    /// four bytes per pixel is longer than a vector can be, which the
    /// condition excludes.
    #[verifier::external_body]
    fn from_pixel(width: u32, height: u32, color: Color) -> (canvas: Canvas)
        requires
            4 * (width * height) <= isize::MAX,
        ensures
            canvas_width(canvas) == width,
            canvas_pixels(canvas) == Seq::new((width * height) as nat, |i: int| color),
    {
        let pixel = image::Rgba([color.red, color.green, color.blue, color.alpha]);
        Canvas { image: image::ImageBuffer::from_pixel(width, height, pixel) }
    }

    /// `ImageBuffer::put_pixel`: the pixel in column `x` of row `y` becomes
    /// `color` and no other pixel changes. The call panics for a position
    /// outside the image, which the condition excludes.
    #[verifier::external_body]
    fn put_pixel(&mut self, x: u32, y: u32, color: Color)
        requires
            x < canvas_width(*old(self)),
            y * canvas_width(*old(self)) + x < canvas_pixels(*old(self)).len(),
        ensures
            canvas_width(*final(self)) == canvas_width(*old(self)),
            canvas_pixels(*final(self)) == canvas_pixels(*old(self)).update(
                y * canvas_width(*old(self)) + x,
                color,
            ),
    {
        let pixel = image::Rgba([color.red, color.green, color.blue, color.alpha]);
        self.image.put_pixel(x, y, pixel);
    }

    /// `ImageBuffer::into_raw`: the bytes of the image, pixel after pixel,
    /// each pixel as its four channels.
    #[verifier::external_body]
    fn into_raw(self) -> (bytes: Vec<u8>)
        ensures
            bytes@ == bytes_of(canvas_pixels(self)),
    {
        self.image.into_raw()
    }
}

/// `scene` can be drawn as an image: both extents fit the coordinates of
/// an image, and its bytes fit a vector.
pub open spec fn drawable(scene: Scene) -> bool {
    &&& scene.rows <= u32::MAX
    &&& scene.cols <= u32::MAX
    &&& 4 * (scene.rows * scene.cols) <= isize::MAX
}

/// The pixels that show `scene` once its first `n` entities are painted.
pub open spec fn scene_pixels(scene: Scene, n: nat) -> Seq<Color> {
    Seq::new(
        scene.rows * scene.cols,
        |i: int| scene.painted(n, i / (scene.cols as int), i % (scene.cols as int)),
    )
}

/// Whether `model` can be drawn as an image.
pub fn is_drawable(model: &GridViewModel) -> (fits: bool)
    ensures
        fits == drawable(model@),
{
    if model.rows > u32::MAX as usize || model.cols > u32::MAX as usize {
        return false;
    }
    assert(model.rows * model.cols <= 0xffff_ffff * 0xffff_ffff) by (nonlinear_arith)
        requires
            model.rows <= 0xffff_ffff,
            model.cols <= 0xffff_ffff,
    ;
    let area = model.rows as u64 * model.cols as u64;
    area <= (isize::MAX as u64) / 4
}

/// The image of `model` as bytes: one pixel per cell, row after row, in the
/// colour of the last entity at that cell or else in the background
/// colour, each pixel as its red, green, blue and alpha.
pub fn render_view_model(model: &GridViewModel) -> (bytes: Vec<u8>)
    requires
        model@.in_bounds(),
        drawable(model@),
    ensures
        bytes@ == bytes_of(scene_pixels(model@, model@.entities.len())),
{
    let ghost scene = model@;
    assert(model.cols * model.rows == scene.rows * scene.cols) by (nonlinear_arith)
        requires
            model.cols == scene.cols,
            model.rows == scene.rows,
    ;
    let mut canvas = Canvas::from_pixel(
        model.cols as u32,
        model.rows as u32,
        model.background_color,
    );
    assert(canvas_pixels(canvas) == scene_pixels(scene, 0));
    let mut k: usize = 0;
    while k < model.entities.len()
        invariant
            scene == model@,
            k <= scene.entities.len(),
            scene.in_bounds(),
            drawable(scene),
            canvas_width(canvas) == scene.cols,
            canvas_pixels(canvas) == scene_pixels(scene, k as nat),
        decreases scene.entities.len() - k,
    {
        let entity = model.entities[k];
        let ghost at = entity.row * scene.cols + entity.col;
        proof {
            lemma_index_in_bounds(
                entity.row as int,
                entity.col as int,
                scene.rows as int,
                scene.cols as int,
            );
        }
        canvas.put_pixel(entity.col as u32, entity.row as u32, entity.color);
        assert(canvas_pixels(canvas) == scene_pixels(scene, (k + 1) as nat)) by {
            let after = scene_pixels(scene, (k + 1) as nat);
            assert forall|i: int| 0 <= i < after.len() implies canvas_pixels(canvas)[i]
                == after[i] by {
                lemma_position_in_bounds(i, scene.rows as int, scene.cols as int);
            }
        }
        k += 1;
    }
    canvas.into_raw()
}

} // verus!
