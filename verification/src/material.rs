//! Surface materials: a flat colour, or a texture with the colour it averages to.

use crate::display::Rgb;
use vstd::prelude::*;

verus! {

/// A decoded image: its pixels, row by row, each as red, green, blue and alpha.
#[derive(Debug)]
pub struct RgbaImage {
    pub pixels: Vec<[u8; 4]>,
}

/// Whether a pixel counts towards the average of its image: it is neither
/// black nor fully transparent.
pub open spec fn counts(pixel: [u8; 4]) -> bool {
    !((pixel[0] == 0 && pixel[1] == 0 && pixel[2] == 0) || pixel[3] == 0)
}

/// The number of pixels that count.
pub open spec fn counted(pixels: Seq<[u8; 4]>) -> nat
    decreases pixels.len(),
{
    if pixels.len() == 0 {
        0
    } else {
        counted(pixels.drop_last()) + if counts(pixels.last()) {
            1nat
        } else {
            0nat
        }
    }
}

/// The sum of one channel over the pixels that count.
pub open spec fn channel_sum(pixels: Seq<[u8; 4]>, channel: int) -> nat
    decreases pixels.len(),
{
    if pixels.len() == 0 {
        0
    } else {
        channel_sum(pixels.drop_last(), channel) + if counts(pixels.last()) {
            pixels.last()[channel] as nat
        } else {
            0nat
        }
    }
}

/// The colour that the pixels which count average to, each channel rounded down.
pub open spec fn average_color(pixels: Seq<[u8; 4]>) -> Rgb {
    let n = counted(pixels);
    Rgb(
        (channel_sum(pixels, 0) / n) as u8,
        (channel_sum(pixels, 1) / n) as u8,
        (channel_sum(pixels, 2) / n) as u8,
    )
}

/// A channel's sum is at most 255 for each pixel that counts, and no more
/// pixels count than there are.
pub proof fn lemma_channel_sum_bound(pixels: Seq<[u8; 4]>, channel: int)
    requires
        0 <= channel < 4,
    ensures
        channel_sum(pixels, channel) <= 255 * counted(pixels),
        counted(pixels) <= pixels.len(),
    decreases pixels.len(),
{
    if pixels.len() > 0 {
        lemma_channel_sum_bound(pixels.drop_last(), channel);
    }
}

/// The average of the pixels that count, or nothing where none counts.
pub fn average(image: &RgbaImage) -> (color: Option<Rgb>)
    ensures
        color == if counted(image.pixels@) > 0 {
            Some(average_color(image.pixels@))
        } else {
            None
        },
{
    let mut n: u128 = 0;
    let mut red: u128 = 0;
    let mut green: u128 = 0;
    let mut blue: u128 = 0;
    let mut i: usize = 0;
    assert(image.pixels@.take(0) == Seq::<[u8; 4]>::empty());
    while i < image.pixels.len()
        invariant
            i <= image.pixels.len(),
            n == counted(image.pixels@.take(i as int)),
            red == channel_sum(image.pixels@.take(i as int), 0),
            green == channel_sum(image.pixels@.take(i as int), 1),
            blue == channel_sum(image.pixels@.take(i as int), 2),
        decreases image.pixels.len() - i,
    {
        let pixel = image.pixels[i];
        proof {
            let before = image.pixels@.take(i as int);
            lemma_channel_sum_bound(before, 0);
            lemma_channel_sum_bound(before, 1);
            lemma_channel_sum_bound(before, 2);
            assert(image.pixels@.take(i + 1).drop_last() == before);
            assert(image.pixels@.take(i + 1).last() == pixel);
        }
        if !((pixel[0] == 0 && pixel[1] == 0 && pixel[2] == 0) || pixel[3] == 0) {
            n += 1;
            red += pixel[0] as u128;
            green += pixel[1] as u128;
            blue += pixel[2] as u128;
        }
        i += 1;
    }
    proof {
        assert(image.pixels@.take(i as int) == image.pixels@);
        lemma_channel_sum_bound(image.pixels@, 0);
        lemma_channel_sum_bound(image.pixels@, 1);
        lemma_channel_sum_bound(image.pixels@, 2);
    }
    if n == 0 {
        None
    } else {
        assert(red / n <= 255 && green / n <= 255 && blue / n <= 255) by (nonlinear_arith)
            requires
                n > 0,
                0 <= red <= 255 * n,
                0 <= green <= 255 * n,
                0 <= blue <= 255 * n,
        ;
        Some(Rgb((red / n) as u8, (green / n) as u8, (blue / n) as u8))
    }
}

#[verifier::external_type_specification]
#[verifier::external_body]
pub struct ExImageError(image::ImageError);

/// Decodes an image file. This calls `image::load_from_memory`, turns the
/// result into RGBA with `DynamicImage::into_rgba8`, and copies the pixels of
/// `ImageBuffer::pixels` out, one for one. Nothing is claimed of what comes
/// back: which pixels a file decodes to, and whether it decodes at all, is up
/// to the decoder and to the hooks that a process may have registered with it.
#[verifier::external_body]
pub(crate) fn decode_image(bytes: &[u8]) -> Result<RgbaImage, image::ImageError> {
    match image::load_from_memory(bytes) {
        Ok(image) => Ok(RgbaImage { pixels: image.into_rgba8().pixels().map(|p| p.0).collect() }),
        Err(e) => Err(e),
    }
}

/// A texture, together with the colour that its pixels average to.
#[derive(Debug)]
pub struct MaterialGenericTexture {
    image: RgbaImage,
    avg_color: Rgb,
}

impl MaterialGenericTexture {
    #[verifier::type_invariant]
    pub closed spec fn inv(self) -> bool {
        counted(self.image.pixels@) > 0 && self.avg_color == average_color(self.image.pixels@)
    }

    /// The pixels of the texture.
    pub closed spec fn pixels(self) -> Seq<[u8; 4]> {
        self.image.pixels@
    }

    /// The colour that the texture shows.
    pub closed spec fn color(self) -> Rgb {
        self.avg_color
    }

    /// What holds of every texture: some pixel counts, and the colour is the average.
    pub proof fn lemma_inv(self)
        requires
            self.inv(),
        ensures
            counted(self.pixels()) > 0,
            self.color() == average_color(self.pixels()),
    {
    }

    /// The texture of an image in which at least one pixel counts.
    pub fn new(image: RgbaImage) -> (texture: Self)
        requires
            counted(image.pixels@) > 0,
        ensures
            texture.pixels() == image.pixels@,
            texture.color() == average_color(image.pixels@),
    {
        let avg_color = match average(&image) {
            Some(color) => color,
            None => Rgb(0, 0, 0),
        };
        Self { image, avg_color }
    }

    /// The texture of an image, or nothing where no pixel of it counts.
    pub fn try_new(image: RgbaImage) -> (texture: Option<Self>)
        ensures
            match texture {
                Some(texture) => {
                    &&& counted(image.pixels@) > 0
                    &&& texture.pixels() == image.pixels@
                    &&& texture.color() == average_color(image.pixels@)
                },
                None => counted(image.pixels@) == 0,
            },
    {
        match average(&image) {
            Some(avg_color) => Some(Self { image, avg_color }),
            None => None,
        }
    }

    /// The colour at any place of the texture: its average.
    pub fn sample(&self) -> (color: Rgb)
        ensures
            color == self.color(),
    {
        self.avg_color
    }
}

/// A material of one colour.
#[derive(Debug, Clone, Copy)]
pub struct MaterialGenericColor {
    color: Rgb,
}

impl MaterialGenericColor {
    /// The colour of the material.
    pub closed spec fn color(self) -> Rgb {
        self.color
    }

    pub fn new(color: Rgb) -> (material: Self)
        ensures
            material.color() == color,
    {
        Self { color }
    }

    /// The colour at any place of the material.
    pub fn sample(&self) -> (color: Rgb)
        ensures
            color == self.color(),
    {
        self.color
    }
}

/// What a surface is made of.
#[derive(Debug)]
pub enum Material {
    Texture(MaterialGenericTexture),
    Color(MaterialGenericColor),
}

impl Material {
    /// The colour that the material shows.
    pub open spec fn color(self) -> Rgb {
        match self {
            Material::Texture(texture) => texture.color(),
            Material::Color(flat) => flat.color(),
        }
    }

    /// The colour at any place of the material.
    pub fn sample(&self) -> (color: Rgb)
        ensures
            color == self.color(),
    {
        match self {
            Material::Texture(texture) => texture.sample(),
            Material::Color(flat) => flat.sample(),
        }
    }
}

/// A material as a mathematical value.
pub enum MaterialModel {
    Texture { pixels: Seq<[u8; 4]> },
    Color(Rgb),
}

impl View for Material {
    type V = MaterialModel;

    open spec fn view(&self) -> MaterialModel {
        match *self {
            Material::Texture(texture) => MaterialModel::Texture { pixels: texture.pixels() },
            Material::Color(flat) => MaterialModel::Color(flat.color()),
        }
    }
}

} // verus!
