use vstd::prelude::*;

verus! {

/// Image dimensions in pixels.
#[derive(Debug, Clone, Copy, PartialEq, Eq, Structural)]
pub struct Size {
    /// Image width in pixels.
    pub width: usize,
    /// Image height in pixels.
    pub height: usize,
}

/// An image as a mathematical value: its dimensions and its pixels, row by row
/// from the top, each row from the left.
#[verifier::ext_equal]
pub struct Raster<P> {
    /// Width in pixels.
    pub width: nat,
    /// Height in pixels.
    pub height: nat,
    /// The pixels in row-major order.
    pub pixels: Seq<P>,
}

impl<P> Raster<P> {
    /// The pixels fill the dimensions exactly.
    pub open spec fn wf(self) -> bool {
        self.pixels.len() == self.width * self.height
    }

    /// The pixel in column `x` of row `y`.
    pub open spec fn at(self, x: int, y: int) -> P {
        self.pixels[y * self.width + x]
    }

    /// The image of the given dimensions whose pixel in column `x` of row `y`
    /// is `f(x, y)`.
    pub open spec fn tabulate(width: nat, height: nat, f: spec_fn(int, int) -> P) -> Raster<P> {
        Raster {
            width,
            height,
            pixels: Seq::new(
                width * height,
                |i: int| f(i % (width as int), i / (width as int)),
            ),
        }
    }
}

/// An image: a rectangle of pixels of type `P`.
#[derive(PartialEq, Eq)]
pub struct Image<P> {
    width: usize,
    height: usize,
    pixels: Vec<P>,
}

impl<P> View for Image<P> {
    type V = Raster<P>;

    closed spec fn view(&self) -> Raster<P> {
        Raster { width: self.width as nat, height: self.height as nat, pixels: self.pixels@ }
    }
}

impl<P> Image<P> {
    #[verifier::type_invariant]
    pub closed spec fn fills_dimensions(self) -> bool {
        self.pixels@.len() == self.width * self.height
    }

    /// An image from its pixels in row-major order. `None` unless there are
    /// exactly `width * height` of them.
    pub fn from_vec(width: usize, height: usize, pixels: Vec<P>) -> (image: Option<Self>)
        ensures
            image is Some <==> pixels@.len() == width * height,
            image matches Some(i) ==> i@ == (Raster {
                width: width as nat,
                height: height as nat,
                pixels: pixels@,
            }),
    {
        let count: usize = pixels.len();
        match width.checked_mul(height) {
            Some(area) => {
                if count == area {
                    Some(Image { width, height, pixels })
                } else {
                    None
                }
            },
            None => None,
        }
    }

    /// Width in pixels.
    pub fn width(&self) -> (w: usize)
        ensures
            w == self@.width,
    {
        self.width
    }

    /// Height in pixels.
    pub fn height(&self) -> (h: usize)
        ensures
            h == self@.height,
    {
        self.height
    }

    /// The dimensions.
    pub fn size(&self) -> (s: Size)
        ensures
            s.width == self@.width,
            s.height == self@.height,
    {
        Size { width: self.width, height: self.height }
    }

    /// The pixels in row-major order.
    pub fn as_slice(&self) -> (s: &[P])
        ensures
            s@ == self@.pixels,
            self@.wf(),
    {
        proof {
            use_type_invariant(self);
        }
        self.pixels.as_slice()
    }
}

impl<P: Copy> Image<P> {
    /// An image of the given dimensions in which every pixel is `value`.
    pub fn fill(width: usize, height: usize, value: P) -> (image: Self)
        requires
            width * height <= usize::MAX,
        ensures
            image@ == Raster::tabulate(width as nat, height as nat, |x: int, y: int| value),
    {
        let area: usize = width * height;
        let mut pixels: Vec<P> = Vec::new();
        let mut i: usize = 0;
        while i < area
            invariant
                i <= area,
                pixels@ =~= Seq::new(i as nat, |k: int| value),
            decreases area - i,
        {
            pixels.push(value);
            i += 1;
        }
        let image = Image { width, height, pixels };
        assert(image@.pixels =~= Raster::tabulate(
            width as nat,
            height as nat,
            |x: int, y: int| value,
        ).pixels);
        image
    }

    /// The pixel in column `x` of row `y`.
    pub fn pixel_at(&self, x: usize, y: usize) -> (p: P)
        requires
            x < self@.width,
            y < self@.height,
        ensures
            p == self@.at(x as int, y as int),
    {
        let count: usize = self.pixels.len();
        proof {
            use_type_invariant(self);
            assert(count == self.width * self.height);
            lemma_index_in_area(x as int, y as int, self.width as int, self.height as int);
        }
        self.pixels[y * self.width + x]
    }

    /// The pixel in column `x` of row `y`, or `None` outside the image.
    pub fn get(&self, x: usize, y: usize) -> (p: Option<P>)
        ensures
            p == if x < self@.width && y < self@.height {
                Some(self@.at(x as int, y as int))
            } else {
                None
            },
    {
        if x < self.width && y < self.height {
            Some(self.pixel_at(x, y))
        } else {
            None
        }
    }
}

/// The row-major index of a position inside a rectangle lies inside its area,
/// and the position is the remainder and the quotient of that index.
pub proof fn lemma_index_in_area(x: int, y: int, width: int, height: int)
    requires
        0 <= x < width,
        0 <= y < height,
    ensures
        0 <= y * width,
        y * width + width <= width * height,
        0 <= y * width + x < width * height,
        (y * width + x) % width == x,
        (y * width + x) / width == y,
{
    assert(y * width + width <= width * height) by (nonlinear_arith)
        requires
            0 <= y < height,
            0 < width,
    ;
    assert(0 <= y * width) by (nonlinear_arith)
        requires
            0 <= y,
            0 < width,
    ;
    vstd::arithmetic::div_mod::lemma_fundamental_div_mod_converse(y * width + x, width, y, x);
}

/// Conversely, an index inside the area of a rectangle is the row-major index
/// of a position inside it.
pub proof fn lemma_position_of_index(i: int, width: int, height: int)
    requires
        0 <= i < width * height,
        0 <= width,
        0 <= height,
    ensures
        0 < width,
        0 <= i % width < width,
        0 <= i / width < height,
        i == (i / width) * width + i % width,
{
    assert(0 < width) by (nonlinear_arith)
        requires
            0 <= i < width * height,
            0 <= width,
    ;
    vstd::arithmetic::div_mod::lemma_fundamental_div_mod(i, width);
    assert(i == (i / width) * width + i % width) by (nonlinear_arith)
        requires
            i == width * (i / width) + i % width,
    ;
    assert(0 <= i / width < height) by (nonlinear_arith)
        requires
            0 <= i < width * height,
            i == (i / width) * width + i % width,
            0 <= i % width < width,
    ;
}

/// An image is the tabulation of a function exactly if each of its pixels is
/// the function's value at the pixel's position.
pub proof fn lemma_tabulated<P>(raster: Raster<P>, f: spec_fn(int, int) -> P)
    requires
        raster.wf(),
        forall|x: int, y: int|
            0 <= x < raster.width && 0 <= y < raster.height ==> #[trigger] raster.at(x, y) == f(
                x,
                y,
            ),
    ensures
        raster == Raster::tabulate(raster.width, raster.height, f),
{
    let t = Raster::tabulate(raster.width, raster.height, f);
    assert forall|i: int| 0 <= i < raster.pixels.len() implies raster.pixels[i] == t.pixels[i] by {
        lemma_position_of_index(i, raster.width as int, raster.height as int);
        let w = raster.width as int;
        assert(raster.at(i % w, i / w) == f(i % w, i / w));
    }
    assert(raster.pixels =~= t.pixels);
}

/// The pixel of a tabulation at a position is the function's value there.
pub proof fn lemma_tabulate_at<P>(
    width: nat,
    height: nat,
    f: spec_fn(int, int) -> P,
    x: int,
    y: int,
)
    requires
        0 <= x < width,
        0 <= y < height,
    ensures
        Raster::tabulate(width, height, f).at(x, y) == f(x, y),
        Raster::tabulate(width, height, f).wf(),
{
    lemma_index_in_area(x, y, width as int, height as int);
}

} // verus!
