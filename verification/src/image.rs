//! Raster images held in memory.

use vstd::prelude::*;

verus! {

/// Layout of one pixel.
#[derive(Copy, Clone, PartialEq, Eq, Structural, Debug)]
pub enum PixelFormat {
    Mono8,
    RGB8,
    RGBA8,
    Mono16,
    RGB16,
    RGBA16,
    RGB32f,
}

impl PixelFormat {
    pub open spec fn spec_bytes_per_pixel(self) -> nat {
        match self {
            PixelFormat::Mono8 => 1,
            PixelFormat::RGB8 => 3,
            PixelFormat::RGBA8 => 4,
            PixelFormat::Mono16 => 2,
            PixelFormat::RGB16 => 6,
            PixelFormat::RGBA16 => 8,
            PixelFormat::RGB32f => 12,
        }
    }

    /// Whether every channel of a pixel is one byte.
    pub open spec fn spec_is_8bit(self) -> bool {
        self == PixelFormat::Mono8 || self == PixelFormat::RGB8 || self == PixelFormat::RGBA8
    }

    pub fn bytes_per_pixel(&self) -> (bytes: usize)
        ensures
            bytes == self.spec_bytes_per_pixel(),
    {
        match self {
            PixelFormat::Mono8 => 1,
            PixelFormat::RGB8 => 3,
            PixelFormat::RGBA8 => 4,
            PixelFormat::Mono16 => 2,
            PixelFormat::RGB16 => 6,
            PixelFormat::RGBA16 => 8,
            PixelFormat::RGB32f => 12,
        }
    }

    pub fn is_8bit(&self) -> (yes: bool)
        ensures
            yes == self.spec_is_8bit(),
    {
        match self {
            PixelFormat::Mono8 => true,
            PixelFormat::RGB8 => true,
            PixelFormat::RGBA8 => true,
            _ => false,
        }
    }

    /// The name of the format, as it appears in messages.
    pub fn name(&self) -> (name: &'static str)
        ensures
            name@ == self.spec_name(),
    {
        match self {
            PixelFormat::Mono8 => "Mono8",
            PixelFormat::RGB8 => "RGB8",
            PixelFormat::RGBA8 => "RGBA8",
            PixelFormat::Mono16 => "Mono16",
            PixelFormat::RGB16 => "RGB16",
            PixelFormat::RGBA16 => "RGBA16",
            PixelFormat::RGB32f => "RGB32f",
        }
    }

    pub open spec fn spec_name(self) -> Seq<char> {
        match self {
            PixelFormat::Mono8 => "Mono8"@,
            PixelFormat::RGB8 => "RGB8"@,
            PixelFormat::RGBA8 => "RGBA8"@,
            PixelFormat::Mono16 => "Mono16"@,
            PixelFormat::RGB16 => "RGB16"@,
            PixelFormat::RGBA16 => "RGBA16"@,
            PixelFormat::RGB32f => "RGB32f"@,
        }
    }
}

/// Intensity of one pixel of `pixels`, which holds `format` pixels one after
/// the other: the sample itself, or the mean of red, green and blue.
pub open spec fn intensity_at(format: PixelFormat, pixels: Seq<u8>, index: int) -> int
    recommends
        format.spec_is_8bit(),
{
    if format == PixelFormat::Mono8 {
        pixels[index] as int
    } else {
        let first = index * format.spec_bytes_per_pixel();
        (pixels[first] + pixels[first + 1] + pixels[first + 2]) / 3
    }
}

/// What a gray image holds: its size and its samples, row after row, left to
/// right.
pub struct Raster {
    pub width: int,
    pub height: int,
    pub samples: Seq<u8>,
}

impl Raster {
    /// There is exactly one sample for each pixel.
    pub open spec fn wf(self) -> bool {
        &&& 0 <= self.width <= u32::MAX
        &&& 0 <= self.height <= u32::MAX
        &&& self.samples.len() == self.width * self.height
    }

    /// Whether column `x` of row `y` lies in the image.
    pub open spec fn contains(self, x: int, y: int) -> bool {
        0 <= x < self.width && 0 <= y < self.height
    }

    /// The sample at column `x` of row `y`; zero outside the image.
    pub open spec fn pixel(self, x: int, y: int) -> int {
        if self.contains(x, y) {
            self.samples[y * self.width + x] as int
        } else {
            0
        }
    }
}

/// An image of one 8-bit intensity sample per pixel, stored row after row
/// without padding.
pub struct GrayImage {
    width: u32,
    height: u32,
    pixels: Vec<u8>,
}

impl GrayImage {
    pub closed spec fn view(&self) -> Raster {
        Raster { width: self.width as int, height: self.height as int, samples: self.pixels@ }
    }

    #[verifier::type_invariant]
    pub closed spec fn wf(&self) -> bool {
        self.pixels@.len() == self.width * self.height
    }

    /// Every gray image holds one sample for each of its pixels.
    pub proof fn lemma_wf(&self)
        requires
            self.wf(),
        ensures
            self@.wf(),
    {
    }

    /// An image of `width` by `height` samples; `None` unless `pixels` holds
    /// exactly that many.
    pub fn new(width: u32, height: u32, pixels: Vec<u8>) -> (image: Option<GrayImage>)
        ensures
            image is Some <==> pixels@.len() == width * height,
            image matches Some(img) ==> img.wf() && img@ == (Raster {
                width: width as int,
                height: height as int,
                samples: pixels@,
            }),
    {
        assert(width * height <= u64::MAX) by (nonlinear_arith)
            requires
                width <= u32::MAX,
                height <= u32::MAX,
        ;
        if pixels.len() as u128 == width as u128 * height as u128 {
            Some(GrayImage { width, height, pixels })
        } else {
            None
        }
    }

    pub fn width(&self) -> (width: u32)
        ensures
            width == self@.width,
    {
        self.width
    }

    pub fn height(&self) -> (height: u32)
        ensures
            height == self@.height,
    {
        self.height
    }

    /// The samples, row after row.
    pub fn pixels(&self) -> (pixels: &Vec<u8>)
        ensures
            pixels@ == self@.samples,
            self@.wf(),
    {
        proof {
            use_type_invariant(self);
        }
        &self.pixels
    }

    /// An image of the same size with other samples.
    pub fn with_pixels(&self, pixels: Vec<u8>) -> (image: GrayImage)
        requires
            pixels@.len() == self@.samples.len(),
        ensures
            image.wf(),
            image@ == (Raster { width: self@.width, height: self@.height, samples: pixels@ }),
    {
        proof {
            use_type_invariant(self);
        }
        GrayImage { width: self.width, height: self.height, pixels }
    }

    /// The sample at column `x` of row `y`.
    pub fn get(&self, x: u32, y: u32) -> (value: u8)
        requires
            self@.contains(x as int, y as int),
        ensures
            value == self@.pixel(x as int, y as int),
    {
        let len: usize = self.pixels.len();
        proof {
            use_type_invariant(self);
            lemma_index_in_bounds(x as int, y as int, self.width as int, self.height as int);
            assert(len == self.width as int * self.height as int);
        }
        self.pixels[y as usize * self.width as usize + x as usize]
    }
}

/// A row-major index of a pixel inside the image stays inside the buffer.
pub proof fn lemma_index_in_bounds(x: int, y: int, width: int, height: int)
    requires
        0 <= x < width,
        0 <= y < height,
    ensures
        0 <= y * width <= y * width + x < width * height,
        (y + 1) * width <= width * height,
{
    assert(0 <= y * width && (y + 1) * width <= width * height && (y + 1) * width == y * width
        + width) by (nonlinear_arith)
        requires
            0 <= y < height,
            0 < width,
    ;
}

/// An image in one of the pixel formats, stored row after row without
/// padding.
pub struct Image {
    width: u32,
    height: u32,
    pixel_format: PixelFormat,
    pixels: Vec<u8>,
}

impl Image {
    pub closed spec fn spec_width(&self) -> int {
        self.width as int
    }

    pub closed spec fn spec_height(&self) -> int {
        self.height as int
    }

    pub closed spec fn spec_pixel_format(&self) -> PixelFormat {
        self.pixel_format
    }

    /// The bytes of the pixels.
    pub closed spec fn view(&self) -> Seq<u8> {
        self.pixels@
    }

    /// Every pixel has all the bytes of its format.
    #[verifier::type_invariant]
    pub closed spec fn wf(&self) -> bool {
        self.pixels@.len() == self.width * self.height * self.pixel_format.spec_bytes_per_pixel()
    }

    /// The intensity image of an image with 8-bit channels.
    pub open spec fn spec_mono8(&self) -> Seq<u8> {
        Seq::new(
            (self.spec_width() * self.spec_height()) as nat,
            |i: int| intensity_at(self.spec_pixel_format(), self@, i) as u8,
        )
    }

    /// The image as single-channel intensity, where its channels are 8 bits
    /// wide.
    pub open spec fn spec_gray(&self) -> Option<Raster> {
        if self.spec_pixel_format().spec_is_8bit() {
            Some(
                Raster {
                    width: self.spec_width(),
                    height: self.spec_height(),
                    samples: self.spec_mono8(),
                },
            )
        } else {
            None
        }
    }

    /// An image of `width` by `height` pixels; `None` unless `pixels` holds
    /// exactly the bytes of that many pixels.
    pub fn new(width: u32, height: u32, pixel_format: PixelFormat, pixels: Vec<u8>) -> (image:
        Option<Image>)
        ensures
            image is Some <==> pixels@.len() == width * height
                * pixel_format.spec_bytes_per_pixel(),
            image matches Some(img) ==> {
                &&& img.wf()
                &&& img.spec_width() == width
                &&& img.spec_height() == height
                &&& img.spec_pixel_format() == pixel_format
                &&& img@ == pixels@
            },
    {
        assert(width * height <= u64::MAX) by (nonlinear_arith)
            requires
                width <= u32::MAX,
                height <= u32::MAX,
        ;
        let expected: u128 = width as u128 * height as u128;
        assert(width * height * pixel_format.spec_bytes_per_pixel() == expected
            * pixel_format.spec_bytes_per_pixel());
        let bytes: u128 = pixel_format.bytes_per_pixel() as u128;
        assert(expected * bytes <= u128::MAX) by (nonlinear_arith)
            requires
                expected <= u64::MAX,
                bytes <= 12,
        ;
        if pixels.len() as u128 == expected * bytes {
            Some(Image { width, height, pixel_format, pixels })
        } else {
            None
        }
    }

    pub fn width(&self) -> (width: u32)
        ensures
            width == self.spec_width(),
    {
        self.width
    }

    pub fn height(&self) -> (height: u32)
        ensures
            height == self.spec_height(),
    {
        self.height
    }

    pub fn pixel_format(&self) -> (pixel_format: PixelFormat)
        ensures
            pixel_format == self.spec_pixel_format(),
    {
        self.pixel_format
    }

    /// The bytes of the pixels, row after row.
    pub fn pixels(&self) -> (pixels: &Vec<u8>)
        ensures
            pixels@ == self@,
    {
        &self.pixels
    }

    /// The image as single-channel intensity; `None` for the formats whose
    /// channels are wider than a byte.
    pub fn to_mono8(&self) -> (gray: Option<GrayImage>)
        ensures
            gray is Some <==> self.spec_pixel_format().spec_is_8bit(),
            match gray {
                Some(g) => g.wf() && self.spec_gray() == Some(g@),
                None => self.spec_gray() is None,
            },
    {
        proof {
            use_type_invariant(self);
        }
        if !self.pixel_format.is_8bit() {
            return None;
        }
        let step: usize = self.pixel_format.bytes_per_pixel();
        let ghost count: int = self.width * self.height;
        assert(self.pixels@.len() == count * step);
        let mut gray: Vec<u8> = Vec::new();
        let mut first: usize = 0;
        while first < self.pixels.len()
            invariant
                self.pixel_format.spec_is_8bit(),
                step == self.pixel_format.spec_bytes_per_pixel(),
                self.pixels@.len() == count * step,
                first == gray@.len() * step,
                gray@.len() <= count,
                forall|i: int|
                    0 <= i < gray@.len() ==> gray@[i] == intensity_at(
                        self.pixel_format,
                        self.pixels@,
                        i,
                    ) as u8,
            decreases self.pixels.len() - first,
        {
            let ghost i: int = gray@.len() as int;
            assert(i < count && (i + 1) * step <= count * step && (i + 1) * step == i * step
                + step) by (nonlinear_arith)
                requires
                    i * step < count * step,
                    step > 0,
                    0 <= i,
            ;
            let value: u8 = if step == 1 {
                self.pixels[first]
            } else {
                let sum: u16 = self.pixels[first] as u16 + self.pixels[first + 1] as u16
                    + self.pixels[first + 2] as u16;
                (sum / 3) as u8
            };
            gray.push(value);
            first = first + step;
        }
        assert(gray@.len() == count) by (nonlinear_arith)
            requires
                gray@.len() * step >= count * step,
                gray@.len() <= count,
                step > 0,
        ;
        assert(gray@ =~= self.spec_mono8());
        Some(GrayImage { width: self.width, height: self.height, pixels: gray })
    }
}

} // verus!
