//! Finding the planetary disk in an image.
//!
//! The image is reduced to disk and background by a threshold, the centroid
//! of the disk gives its centre, and a bisection over circles around the
//! centre gives its radius.

use vstd::prelude::*;
use vstd::arithmetic::div_mod::lemma_fundamental_div_mod;
use crate::circle::{
    circle, circle_around, coords, lemma_circle_around, lemma_circle_points, rasterize_circle,
    sq_norm, Point,
};
use crate::image::{lemma_index_in_bounds, GrayImage, Raster};

verus! {

/// No disk of at least two pixels in radius lies wholly inside the image.
#[derive(Copy, Clone, PartialEq, Eq, Structural, Debug)]
pub struct DiskNotFound;

/// Smallest radius, in pixels, of a disk that can be found.
pub const MIN_RADIUS: u32 = 2;

/// The sum of `f` over the integers from `from` up to, not including, `to`.
pub open spec fn sum_over(f: spec_fn(int) -> int, from: int, to: int) -> int
    decreases to - from,
{
    if to <= from {
        0
    } else {
        sum_over(f, from, to - 1) + f(to - 1)
    }
}

/// The largest sample; zero if there is none.
pub open spec fn largest_sample(samples: Seq<u8>) -> int
    decreases samples.len(),
{
    if samples.len() == 0 {
        0
    } else {
        let before = largest_sample(samples.drop_last());
        if samples.last() > before {
            samples.last() as int
        } else {
            before
        }
    }
}

/// `largest_sample` is an upper bound of the samples, and one of them.
pub proof fn lemma_largest_sample(samples: Seq<u8>)
    ensures
        0 <= largest_sample(samples) <= 255,
        forall|i: int| 0 <= i < samples.len() ==> #[trigger] samples[i] <= largest_sample(samples),
        samples.len() > 0 ==> exists|i: int|
            0 <= i < samples.len() && #[trigger] samples[i] == largest_sample(samples),
    decreases samples.len(),
{
    if samples.len() > 0 {
        let before = samples.drop_last();
        lemma_largest_sample(before);
        assert forall|i: int| 0 <= i < samples.len() implies #[trigger] samples[i]
            <= largest_sample(samples) by {
            if i < before.len() {
                assert(before[i] == samples[i]);
            }
        }
        if samples.last() > largest_sample(before) {
            assert(samples[samples.len() - 1] == largest_sample(samples));
        } else if before.len() == 0 {
            assert(samples[0] == largest_sample(samples));
        } else {
            let i = choose|i: int|
                0 <= i < before.len() && #[trigger] before[i] == largest_sample(before);
            assert(samples[i] == before[i]);
        }
    }
}

/// A sample of at most 2% of the largest belongs to the background.
pub open spec fn is_background(sample: int, largest: int) -> bool {
    100 * sample <= 2 * largest
}

/// The image with its background set to zero and the rest to full intensity.
pub open spec fn binarized(raster: Raster) -> Raster {
    Raster {
        width: raster.width,
        height: raster.height,
        samples: Seq::new(
            raster.samples.len(),
            |i: int|
                if is_background(raster.samples[i] as int, largest_sample(raster.samples)) {
                    0u8
                } else {
                    255u8
                },
        ),
    }
}

/// The samples of row `y`, by column.
pub open spec fn row_samples(raster: Raster, y: int) -> spec_fn(int) -> int {
    |x: int| raster.pixel(x, y)
}

/// The samples of row `y`, each weighted by its column.
pub open spec fn row_weighted(raster: Raster, y: int) -> spec_fn(int) -> int {
    |x: int| x * raster.pixel(x, y)
}

/// Total intensity of row `y`.
pub open spec fn row_mass(raster: Raster, y: int) -> int {
    sum_over(row_samples(raster, y), 0, raster.width)
}

/// First moment of row `y` about the left edge.
pub open spec fn row_moment(raster: Raster, y: int) -> int {
    sum_over(row_weighted(raster, y), 0, raster.width)
}

pub open spec fn row_masses(raster: Raster) -> spec_fn(int) -> int {
    |y: int| row_mass(raster, y)
}

pub open spec fn row_moments(raster: Raster) -> spec_fn(int) -> int {
    |y: int| row_moment(raster, y)
}

pub open spec fn weighted_row_masses(raster: Raster) -> spec_fn(int) -> int {
    |y: int| y * row_mass(raster, y)
}

/// Total intensity of the image.
pub open spec fn mass(raster: Raster) -> int {
    sum_over(row_masses(raster), 0, raster.height)
}

/// First moment of the image about its left edge: the sum of the samples,
/// each weighted by its column.
pub open spec fn moment_x(raster: Raster) -> int {
    sum_over(row_moments(raster), 0, raster.height)
}

/// First moment of the image about its top edge: the sum of the samples,
/// each weighted by its row.
pub open spec fn moment_y(raster: Raster) -> int {
    sum_over(weighted_row_masses(raster), 0, raster.height)
}

/// The pixel that holds the intensity centroid of an image that is not all
/// black.
pub open spec fn centroid_pixel(raster: Raster) -> (int, int) {
    (moment_x(raster) / mass(raster), moment_y(raster) / mass(raster))
}

/// Whether all of `points` lie on background. Outside the image everything
/// is background.
pub open spec fn all_background(raster: Raster, points: Seq<(int, int)>) -> bool {
    forall|i: int| 0 <= i < points.len() ==> raster.pixel((#[trigger] points[i]).0, points[i].1) == 0
}

/// Whether the circle of radius `r` around `center` misses the disk.
pub open spec fn outside(raster: Raster, center: (int, int), r: int) -> bool {
    all_background(raster, circle_around(center, r))
}

/// The largest radius at which a circle around `center` stays in the image:
/// the distance from `center` to the nearest edge.
pub open spec fn radius_limit(raster: Raster, center: (int, int)) -> int {
    let to_right = raster.width - 1 - center.0;
    let to_bottom = raster.height - 1 - center.1;
    let horizontal = if center.0 < to_right {
        center.0
    } else {
        to_right
    };
    let vertical = if center.1 < to_bottom {
        center.1
    } else {
        to_bottom
    };
    if horizontal < vertical {
        horizontal
    } else {
        vertical
    }
}

/// The radius that bisection settles on between `inside`, whose circle meets
/// the disk, and `outside`, whose circle misses it: the interval is halved
/// until the two are neighbours, and the inner one is taken.
pub open spec fn bisected(raster: Raster, center: (int, int), inside: int, outside: int) -> int
    decreases outside - inside,
{
    let half = (outside - inside) / 2;
    if half <= 0 {
        inside
    } else if self::outside(raster, center, inside + half) {
        bisected(raster, center, inside, inside + half)
    } else {
        bisected(raster, center, inside + half, outside)
    }
}

/// The radius of the disk around `center`, if there is one: none where the
/// smallest circle already misses the disk, and none where the largest circle
/// that fits in the image still meets it.
pub open spec fn disk_radius(raster: Raster, center: (int, int)) -> Option<int> {
    let limit = radius_limit(raster, center);
    if limit < MIN_RADIUS || outside(raster, center, MIN_RADIUS as int) || !outside(
        raster,
        center,
        limit,
    ) {
        None
    } else {
        Some(bisected(raster, center, MIN_RADIUS as int, limit))
    }
}

/// Bisection ends on a radius whose circle meets the disk while the next
/// larger circle misses it.
pub proof fn lemma_bisected(raster: Raster, center: (int, int), inside: int, outside: int)
    requires
        inside < outside,
        !self::outside(raster, center, inside),
        self::outside(raster, center, outside),
    ensures
        inside <= bisected(raster, center, inside, outside) < outside,
        !self::outside(raster, center, bisected(raster, center, inside, outside)),
        self::outside(raster, center, bisected(raster, center, inside, outside) + 1),
    decreases outside - inside,
{
    let half = (outside - inside) / 2;
    if half > 0 {
        if self::outside(raster, center, inside + half) {
            lemma_bisected(raster, center, inside, inside + half);
        } else {
            lemma_bisected(raster, center, inside + half, outside);
        }
    }
}

/// The intensity centroid of an image, kept exact: the two first moments and
/// the total intensity they are divided by.
#[derive(Copy, Clone, PartialEq, Eq, Structural, Debug)]
pub struct Centroid {
    moment_x: u128,
    moment_y: u128,
    mass: u128,
}

impl Centroid {
    pub closed spec fn spec_moment_x(&self) -> int {
        self.moment_x as int
    }

    pub closed spec fn spec_moment_y(&self) -> int {
        self.moment_y as int
    }

    pub closed spec fn spec_mass(&self) -> int {
        self.mass as int
    }

    /// The centroid is that of some image: the mass is positive, and the
    /// centroid lies within the reach of image coordinates.
    #[verifier::type_invariant]
    pub closed spec fn wf(&self) -> bool {
        &&& self.mass > 0
        &&& self.moment_x <= u32::MAX * self.mass
        &&& self.moment_y <= u32::MAX * self.mass
    }

    /// Whether this is the centroid of `raster`.
    pub open spec fn is_centroid_of(&self, raster: Raster) -> bool {
        &&& self.spec_mass() == mass(raster)
        &&& self.spec_moment_x() == moment_x(raster)
        &&& self.spec_moment_y() == moment_y(raster)
    }

    /// Sum of the samples, each weighted by its column.
    pub fn moment_x(&self) -> (moment: u128)
        ensures
            moment == self.spec_moment_x(),
    {
        self.moment_x
    }

    /// Sum of the samples, each weighted by its row.
    pub fn moment_y(&self) -> (moment: u128)
        ensures
            moment == self.spec_moment_y(),
    {
        self.moment_y
    }

    /// Sum of the samples; not zero.
    pub fn mass(&self) -> (mass: u128)
        ensures
            mass == self.spec_mass(),
            mass > 0,
    {
        proof {
            use_type_invariant(self);
        }
        self.mass
    }

    /// The pixel that holds the centroid.
    pub fn pixel(&self) -> (pixel: Point)
        ensures
            pixel@ == (self.spec_moment_x() / self.spec_mass(), self.spec_moment_y()
                / self.spec_mass()),
    {
        proof {
            use_type_invariant(self);
            lemma_quotient_bound(self.moment_x as int, self.mass as int, u32::MAX as int);
            lemma_quotient_bound(self.moment_y as int, self.mass as int, u32::MAX as int);
        }
        Point { x: (self.moment_x / self.mass) as i64, y: (self.moment_y / self.mass) as i64 }
    }
}

/// A sum of weighted parts, divided by the sum of the parts, is no more than
/// the largest weight.
pub proof fn lemma_quotient_bound(moment: int, mass: int, bound: int)
    requires
        mass > 0,
        0 <= moment <= bound * mass,
    ensures
        0 <= moment / mass <= bound,
{
    assert(0 <= moment / mass <= bound) by (nonlinear_arith)
        requires
            mass > 0,
            0 <= moment <= bound * mass,
    ;
}

/// Where the disk is.
#[derive(Copy, Clone, PartialEq, Eq, Structural, Debug)]
pub struct DiskInfo {
    /// The intensity centroid of the disk.
    pub center: Centroid,
    /// In pixels; even, and at least 4.
    pub diameter: u32,
}

/// The largest sample of the image.
pub fn max_value(image: &GrayImage) -> (largest: u8)
    ensures
        largest == largest_sample(image@.samples),
{
    let pixels = image.pixels();
    let mut largest: u8 = 0;
    let mut i: usize = 0;
    while i < pixels.len()
        invariant
            i <= pixels.len(),
            largest == largest_sample(pixels@.subrange(0, i as int)),
        decreases pixels.len() - i,
    {
        assert(pixels@.subrange(0, i + 1).drop_last() =~= pixels@.subrange(0, i as int));
        if pixels[i] > largest {
            largest = pixels[i];
        }
        i = i + 1;
    }
    assert(pixels@.subrange(0, i as int) =~= pixels@);
    largest
}

/// Cuts the lower 2% of the signal, so that a bright background does not
/// pull on the centroid: what is left of the image is either 0 or 255.
pub fn binarize(image: &GrayImage) -> (binary: GrayImage)
    ensures
        binary.wf(),
        binary@ == binarized(image@),
{
    let largest = max_value(image);
    let pixels = image.pixels();
    let mut samples: Vec<u8> = Vec::new();
    let mut i: usize = 0;
    while i < pixels.len()
        invariant
            i <= pixels.len(),
            samples@.len() == i,
            largest == largest_sample(pixels@),
            forall|j: int|
                0 <= j < i ==> samples@[j] == if is_background(pixels@[j] as int, largest as int) {
                    0u8
                } else {
                    255u8
                },
        decreases pixels.len() - i,
    {
        if 100 * (pixels[i] as u32) <= 2 * (largest as u32) {
            samples.push(0);
        } else {
            samples.push(255);
        }
        i = i + 1;
    }
    assert(samples@ =~= binarized(image@).samples);
    image.with_pixels(samples)
}

/// The intensity centroid of the image; none if the image is all black.
pub fn centroid(image: &GrayImage) -> (found: Option<Centroid>)
    ensures
        found is Some <==> mass(image@) > 0,
        found matches Some(c) ==> c.is_centroid_of(image@),
        mass(image@) >= 0,
{
    let ghost raster = image@;
    let width = image.width();
    let height = image.height();
    let mut mass: u128 = 0;
    let mut moment_x: u128 = 0;
    let mut moment_y: u128 = 0;
    let mut y: u32 = 0;
    while y < height
        invariant
            y <= height,
            raster == image@,
            width == raster.width,
            height == raster.height,
            mass == sum_over(row_masses(raster), 0, y as int),
            moment_x == sum_over(row_moments(raster), 0, y as int),
            moment_y == sum_over(weighted_row_masses(raster), 0, y as int),
            mass <= y * 0x100_0000_0000,
            moment_x <= u32::MAX * mass,
            moment_y <= u32::MAX * mass,
        decreases height - y,
    {
        let mut in_row: u64 = 0;
        let mut row_first: u128 = 0;
        let mut x: u32 = 0;
        while x < width
            invariant
                x <= width,
                y < height,
                raster == image@,
                width == raster.width,
                height == raster.height,
                in_row == sum_over(row_samples(raster, y as int), 0, x as int),
                row_first == sum_over(row_weighted(raster, y as int), 0, x as int),
                in_row <= x * 255,
                row_first <= u32::MAX * in_row,
            decreases width - x,
        {
            let sample = image.get(x, y);
            assert(x * sample <= u32::MAX * sample && u32::MAX * (in_row + sample) == u32::MAX
                * in_row + u32::MAX * sample && u32::MAX * (in_row + sample) <= 0x1_0000_0000
                * 0x100_0000_0000) by (nonlinear_arith)
                requires
                    x <= u32::MAX,
                    0 <= sample <= 255,
                    0 <= in_row <= 0xffff_ffff * 255,
            ;
            in_row = in_row + sample as u64;
            row_first = row_first + (x as u128) * (sample as u128);
            x = x + 1;
        }
        assert(in_row == row_mass(raster, y as int));
        assert(row_first == row_moment(raster, y as int));
        assert(y * in_row <= u32::MAX * in_row && u32::MAX * (mass + in_row) == u32::MAX * mass
            + u32::MAX * in_row && u32::MAX * (mass + in_row) <= 0x1_0000_0000
            * 0x1_0000_0000_0000_0000_0000) by (nonlinear_arith)
            requires
                y <= u32::MAX,
                0 <= in_row <= 0xffff_ffff * 255,
                0 <= mass <= 0xffff_ffff * 0x100_0000_0000,
        ;
        mass = mass + in_row as u128;
        moment_x = moment_x + row_first;
        moment_y = moment_y + (y as u128) * (in_row as u128);
        y = y + 1;
    }
    if mass == 0 {
        None
    } else {
        Some(Centroid { moment_x, moment_y, mass })
    }
}

/// Checks whether every point of `circle` lies on background. Points outside
/// the image do.
pub fn is_outside_disk(image: &GrayImage, circle: &Vec<Point>) -> (outside: bool)
    ensures
        outside == all_background(image@, coords(circle@)),
{
    let width = image.width();
    let height = image.height();
    let mut i: usize = 0;
    while i < circle.len()
        invariant
            i <= circle.len(),
            width == image@.width,
            height == image@.height,
            forall|j: int|
                0 <= j < i ==> image@.pixel((#[trigger] coords(circle@)[j]).0, coords(circle@)[j].1)
                    == 0,
        decreases circle.len() - i,
    {
        let point = circle[i];
        assert(coords(circle@)[i as int] == point@);
        if 0 <= point.x && point.x < width as i64 && 0 <= point.y && point.y < height as i64 {
            if image.get(point.x as u32, point.y as u32) != 0 {
                return false;
            }
        }
        i = i + 1;
    }
    true
}

/// Finds the radius of the disk around `center` in an image that is zero on
/// the background.
pub fn find_disk_radius(image: &GrayImage, center: Point) -> (result: Result<u32, DiskNotFound>)
    ensures
        match disk_radius(image@, center@) {
            Some(radius) => result matches Ok(found) && found == radius,
            None => result is Err,
        },
        result matches Ok(radius) ==> {
            &&& MIN_RADIUS <= radius < radius_limit(image@, center@)
            &&& !outside(image@, center@, radius as int)
            &&& outside(image@, center@, radius + 1)
        },
{
    let width = image.width();
    let height = image.height();
    if center.x < 0 || center.y < 0 || center.x >= width as i64 || center.y >= height as i64 {
        return Err(DiskNotFound);
    }
    let to_right: i64 = width as i64 - 1 - center.x;
    let to_bottom: i64 = height as i64 - 1 - center.y;
    let horizontal: i64 = if center.x < to_right {
        center.x
    } else {
        to_right
    };
    let vertical: i64 = if center.y < to_bottom {
        center.y
    } else {
        to_bottom
    };
    let limit: i64 = if horizontal < vertical {
        horizontal
    } else {
        vertical
    };
    assert(limit == radius_limit(image@, center@));
    if limit < MIN_RADIUS as i64 {
        return Err(DiskNotFound);
    }
    let mut r_lower_bound: u32 = MIN_RADIUS;
    let mut r_upper_bound: u32 = limit as u32;

    let min_circle = rasterize_circle(center, r_lower_bound);
    if is_outside_disk(image, &min_circle) {
        // the disk is less than 2 pixels in radius
        return Err(DiskNotFound);
    }
    let max_circle = rasterize_circle(center, r_upper_bound);
    if !is_outside_disk(image, &max_circle) {
        // the disk extends outside the image
        return Err(DiskNotFound);
    }
    proof {
        lemma_bisected(image@, center@, MIN_RADIUS as int, limit as int);
    }
    loop
        invariant
            0 <= center.x < 0x1_0000_0000,
            0 <= center.y < 0x1_0000_0000,
            MIN_RADIUS <= r_lower_bound < r_upper_bound <= limit,
            limit == radius_limit(image@, center@),
            !outside(image@, center@, MIN_RADIUS as int),
            outside(image@, center@, limit as int),
            !outside(image@, center@, r_lower_bound as int),
            outside(image@, center@, r_upper_bound as int),
            bisected(image@, center@, r_lower_bound as int, r_upper_bound as int) == bisected(
                image@,
                center@,
                MIN_RADIUS as int,
                limit as int,
            ),
        decreases r_upper_bound - r_lower_bound,
    {
        let r_delta = (r_upper_bound - r_lower_bound) / 2;
        if r_delta == 0 {
            return Ok(r_lower_bound);
        }
        let r_mid = r_lower_bound + r_delta;
        let mid_circle = rasterize_circle(center, r_mid);
        if !is_outside_disk(image, &mid_circle) {
            r_lower_bound = r_mid;
        } else {
            r_upper_bound = r_mid;
        }
    }
}

/// What `find_planetary_disk` finds in an image: the centroid pixel of the
/// thresholded image and the radius of the disk around it.
pub open spec fn located_disk(raster: Raster) -> Option<((int, int), int)> {
    let binary = binarized(raster);
    if mass(binary) <= 0 {
        None
    } else {
        match disk_radius(binary, centroid_pixel(binary)) {
            Some(radius) => Some((centroid_pixel(binary), radius)),
            None => None,
        }
    }
}

/// What `find_planetary_disk` returns for an image, where it finds a disk.
pub closed spec fn detected(raster: Raster) -> Option<DiskInfo> {
    match located_disk(raster) {
        Some((center, radius)) => Some(
            DiskInfo {
                center: Centroid {
                    moment_x: moment_x(binarized(raster)) as u128,
                    moment_y: moment_y(binarized(raster)) as u128,
                    mass: mass(binarized(raster)) as u128,
                },
                diameter: (2 * radius) as u32,
            },
        ),
        None => None,
    }
}

/// Locates the planetary disk: returns its centre, as the centroid of the
/// thresholded image, and its diameter.
pub fn find_planetary_disk(image: &GrayImage) -> (result: Result<DiskInfo, DiskNotFound>)
    ensures
        result == match detected(image@) {
            Some(info) => Ok::<DiskInfo, DiskNotFound>(info),
            None => Err::<DiskInfo, DiskNotFound>(DiskNotFound),
        },
        match located_disk(image@) {
            Some((center, radius)) => {
                &&& result matches Ok(info)
                &&& info.center.is_centroid_of(binarized(image@))
                &&& info.diameter == 2 * radius
            },
            None => result is Err,
        },
        result matches Ok(info) ==> {
            let center = centroid_pixel(binarized(image@));
            &&& info.diameter >= 2 * MIN_RADIUS
            &&& info.diameter % 2 == 0
            &&& image@.contains(center.0 - info.diameter / 2, center.1 - info.diameter / 2)
            &&& image@.contains(center.0 + info.diameter / 2, center.1 + info.diameter / 2)
        },
{
    let binary = binarize(image);
    match centroid(&binary) {
        None => Err(DiskNotFound),
        Some(center) => {
            let center_pixel = center.pixel();
            match find_disk_radius(&binary, center_pixel) {
                Err(e) => Err(e),
                Ok(radius) => {
                    assert(radius < 0x8000_0000u64) by {
                        assert(radius < radius_limit(binary@, center_pixel@));
                        binary.lemma_wf();
                    }
                    Ok(DiskInfo { center, diameter: radius * 2 })
                },
            }
        },
    }
}

/// A sum over a range is the sum over its lower part plus the sum over its
/// upper part.
pub proof fn lemma_sum_split(f: spec_fn(int) -> int, from: int, mid: int, to: int)
    requires
        from <= mid <= to,
    ensures
        sum_over(f, from, to) == sum_over(f, from, mid) + sum_over(f, mid, to),
    decreases to - mid,
{
    if mid < to {
        lemma_sum_split(f, from, mid, to - 1);
    }
}

/// A sum of zeros is zero.
pub proof fn lemma_sum_zero(f: spec_fn(int) -> int, from: int, to: int)
    requires
        forall|x: int| from <= x < to ==> #[trigger] f(x) == 0,
    ensures
        sum_over(f, from, to) == 0,
    decreases to - from,
{
    if from < to {
        lemma_sum_zero(f, from, to - 1);
    }
}

/// Sums of equal terms are equal.
pub proof fn lemma_sum_equal(f: spec_fn(int) -> int, g: spec_fn(int) -> int, from: int, to: int)
    requires
        forall|x: int| from <= x < to ==> #[trigger] f(x) == #[trigger] g(x),
    ensures
        sum_over(f, from, to) == sum_over(g, from, to),
    decreases to - from,
{
    if from < to {
        lemma_sum_equal(f, g, from, to - 1);
    }
}

/// A common factor can be taken out of a sum.
pub proof fn lemma_sum_scaled(
    f: spec_fn(int) -> int,
    g: spec_fn(int) -> int,
    factor: int,
    from: int,
    to: int,
)
    requires
        forall|x: int| from <= x < to ==> #[trigger] g(x) == factor * #[trigger] f(x),
    ensures
        sum_over(g, from, to) == factor * sum_over(f, from, to),
    decreases to - from,
{
    if from < to {
        lemma_sum_scaled(f, g, factor, from, to - 1);
        let rest = sum_over(f, from, to - 1);
        let last = f(to - 1);
        assert(factor * rest + factor * last == factor * (rest + last)) by (nonlinear_arith);
    } else {
        assert(factor * 0 == 0) by (nonlinear_arith);
    }
}

/// A sum of terms that are not negative is no less than any one of them.
pub proof fn lemma_sum_nonnegative(f: spec_fn(int) -> int, from: int, to: int, at: int)
    requires
        forall|x: int| from <= x < to ==> #[trigger] f(x) >= 0,
    ensures
        sum_over(f, from, to) >= 0,
        from <= at < to ==> sum_over(f, from, to) >= f(at),
    decreases to - from,
{
    if from < to {
        lemma_sum_nonnegative(f, from, to - 1, at);
    }
}

/// The first term can be taken off a sum as well as the last.
pub proof fn lemma_sum_first(f: spec_fn(int) -> int, from: int, to: int)
    requires
        from < to,
    ensures
        sum_over(f, from, to) == f(from) + sum_over(f, from + 1, to),
    decreases to - from,
{
    if from + 1 < to {
        lemma_sum_first(f, from, to - 1);
    } else {
        assert(sum_over(f, from, to - 1) == 0);
        assert(sum_over(f, from + 1, to) == 0);
    }
}

/// Over a range that reaches equally far to both sides of `center`, the
/// first moment of values that are mirrored at `center` is `center` times
/// their sum.
pub proof fn lemma_mirrored_moment(
    f: spec_fn(int) -> int,
    g: spec_fn(int) -> int,
    center: int,
    reach: int,
)
    requires
        reach >= 0,
        forall|x: int, z: int|
            center - reach <= x <= center + reach && x + z == 2 * center ==> #[trigger] f(x)
                == #[trigger] f(z),
        forall|x: int|
            center - reach <= x <= center + reach ==> #[trigger] g(x) == x * #[trigger] f(x),
    ensures
        sum_over(g, center - reach, center + reach + 1) == center * sum_over(
            f,
            center - reach,
            center + reach + 1,
        ),
    decreases reach,
{
    let from = center - reach;
    let to = center + reach + 1;
    if reach == 0 {
        assert(sum_over(g, from, to - 1) == 0);
        assert(sum_over(f, from, to - 1) == 0);
        assert(g(center) == center * f(center));
    } else {
        lemma_mirrored_moment(f, g, center, reach - 1);
        lemma_sum_first(f, from, to - 1);
        lemma_sum_first(g, from, to - 1);
        let inner_f = sum_over(f, from + 1, to - 1);
        let inner_g = sum_over(g, from + 1, to - 1);
        let a = f(from);
        assert(f(to - 1) == a);
        assert(g(from) == from * f(from));
        assert(g(to - 1) == (to - 1) * f(to - 1));
        assert(sum_over(f, from, to) == a + inner_f + a);
        assert(sum_over(g, from, to) == from * a + inner_g + (to - 1) * a);
        assert(from * a + center * inner_f + (to - 1) * a == center * (a + inner_f + a))
            by (nonlinear_arith)
            requires
                from == center - reach,
                to == center + reach + 1,
        ;
    }
}

/// The same over a wider range, with nothing but zeros beyond the reach.
pub proof fn lemma_mirrored_moment_within(
    f: spec_fn(int) -> int,
    g: spec_fn(int) -> int,
    center: int,
    reach: int,
    from: int,
    to: int,
)
    requires
        reach >= 0,
        from <= center - reach,
        center + reach < to,
        forall|x: int, z: int|
            center - reach <= x <= center + reach && x + z == 2 * center ==> #[trigger] f(x)
                == #[trigger] f(z),
        forall|x: int|
            from <= x < to && (x < center - reach || x > center + reach) ==> #[trigger] f(x) == 0,
        forall|x: int| from <= x < to ==> #[trigger] g(x) == x * #[trigger] f(x),
    ensures
        sum_over(g, from, to) == center * sum_over(f, from, to),
{
    let a = center - reach;
    let b = center + reach + 1;
    lemma_mirrored_moment(f, g, center, reach);
    lemma_sum_split(f, from, a, to);
    lemma_sum_split(f, a, b, to);
    lemma_sum_split(g, from, a, to);
    lemma_sum_split(g, a, b, to);
    lemma_sum_zero(f, from, a);
    lemma_sum_zero(f, b, to);
    assert forall|x: int| from <= x < a implies #[trigger] g(x) == 0 by {
        assert(f(x) == 0);
        assert(x * 0 == 0) by (nonlinear_arith);
    }
    assert forall|x: int| b <= x < to implies #[trigger] g(x) == 0 by {
        assert(f(x) == 0);
        assert(x * 0 == 0) by (nonlinear_arith);
    }
    lemma_sum_zero(g, from, a);
    lemma_sum_zero(g, b, to);
}

/// Whether the image shows a disk of one intensity on black: the pixels no
/// farther than `radius` from `center` have the value `value`, all others
/// are zero.
pub open spec fn is_uniform_disk(raster: Raster, center: (int, int), radius: int, value: int) -> bool {
    forall|x: int, y: int|
        raster.contains(x, y) ==> #[trigger] raster.pixel(x, y) == if sq_norm(
            (x - center.0, y - center.1),
        ) <= radius * radius {
            value
        } else {
            0
        }
}

/// Squares grow with the distance from zero, and do not tell left from
/// right.
pub proof fn lemma_squares(a: int, b: int)
    ensures
        a * a >= 0,
        (-a) * (-a) == a * a,
        0 <= a <= b ==> a * a <= b * b,
        0 <= a < b ==> a * a < b * b,
        (a > b >= 0 || -a > b >= 0) ==> a * a > b * b,
{
    assert(a * a >= 0 && (-a) * (-a) == a * a) by (nonlinear_arith);
    assert(0 <= a <= b ==> a * a <= b * b) by (nonlinear_arith);
    assert(0 <= a < b ==> a * a < b * b) by (nonlinear_arith);
    assert((a > b >= 0 || -a > b >= 0) ==> a * a > b * b) by (nonlinear_arith);
}

/// Around the centre of a uniform disk, a circle misses the disk exactly if
/// its radius is larger than that of the disk.
pub proof fn lemma_circle_misses_disk(
    raster: Raster,
    center: (int, int),
    radius: int,
    value: int,
    r: int,
)
    requires
        is_uniform_disk(raster, center, radius, value),
        value > 0,
        0 <= radius,
        0 <= r,
        raster.contains(center.0 - r, center.1),
    ensures
        outside(raster, center, r) <==> r > radius,
{
    let path = circle_around(center, r);
    lemma_circle_around(center, r);
    lemma_squares(r, radius);
    lemma_squares(radius, r);
    if r > radius {
        assert forall|i: int| 0 <= i < path.len() implies raster.pixel(
            (#[trigger] path[i]).0,
            path[i].1,
        ) == 0 by {
            lemma_circle_points(r, i);
            let p = circle(r)[i];
            assert(path[i] == (p.0 + center.0, p.1 + center.1));
            assert(sq_norm((path[i].0 - center.0, path[i].1 - center.1)) == sq_norm(p));
        }
    } else {
        assert(path[0] == (center.0 - r, center.1));
        assert(sq_norm((path[0].0 - center.0, path[0].1 - center.1)) == r * r) by {
            lemma_squares(r, 0);
            assert(0int * 0int == 0) by (nonlinear_arith);
        }
        assert(raster.pixel(path[0].0, path[0].1) == value);
    }
}

/// Around the centre of a uniform disk, bisection between a circle that
/// meets the disk and one that misses it ends on the radius of the disk.
pub proof fn lemma_bisected_disk(
    raster: Raster,
    center: (int, int),
    radius: int,
    value: int,
    inside: int,
    outside: int,
)
    requires
        is_uniform_disk(raster, center, radius, value),
        value > 0,
        0 <= inside <= radius < outside <= radius_limit(raster, center),
    ensures
        bisected(raster, center, inside, outside) == radius,
    decreases outside - inside,
{
    let half = (outside - inside) / 2;
    if half > 0 {
        lemma_circle_misses_disk(raster, center, radius, value, inside + half);
        if self::outside(raster, center, inside + half) {
            lemma_bisected_disk(raster, center, radius, value, inside, inside + half);
        } else {
            lemma_bisected_disk(raster, center, radius, value, inside + half, outside);
        }
    }
}

/// Around the centre of a uniform disk that lies in the image with at least
/// a pixel to spare, the radius found is that of the disk.
pub proof fn lemma_uniform_disk_radius(raster: Raster, center: (int, int), radius: int, value: int)
    requires
        is_uniform_disk(raster, center, radius, value),
        value > 0,
        MIN_RADIUS <= radius < radius_limit(raster, center),
    ensures
        disk_radius(raster, center) == Some(radius),
{
    let limit = radius_limit(raster, center);
    lemma_circle_misses_disk(raster, center, radius, value, MIN_RADIUS as int);
    lemma_circle_misses_disk(raster, center, radius, value, limit);
    lemma_bisected_disk(raster, center, radius, value, MIN_RADIUS as int, limit);
}

/// In a row of a uniform disk the first moment is the column of the centre
/// times the total intensity, and a row that the disk does not reach is
/// black.
pub proof fn lemma_uniform_disk_row(
    raster: Raster,
    center: (int, int),
    radius: int,
    value: int,
    y: int,
)
    requires
        raster.wf(),
        is_uniform_disk(raster, center, radius, value),
        value >= 0,
        0 <= radius <= radius_limit(raster, center),
        0 <= y < raster.height,
    ensures
        row_moment(raster, y) == center.0 * row_mass(raster, y),
        row_mass(raster, y) >= 0,
        (y < center.1 - radius || y > center.1 + radius) ==> row_mass(raster, y) == 0,
        raster.contains(center.0, y),
        row_mass(raster, y) >= raster.pixel(center.0, y),
{
    let f = row_samples(raster, y);
    let g = row_weighted(raster, y);
    let dy = y - center.1;
    assert forall|x: int, z: int|
        center.0 - radius <= x <= center.0 + radius && x + z == 2 * center.0 implies #[trigger] f(
        x,
    ) == #[trigger] f(z) by {
        lemma_squares(x - center.0, 0);
        assert(z - center.0 == -(x - center.0));
        assert(raster.contains(x, y) && raster.contains(z, y));
        assert(sq_norm((x - center.0, dy)) == sq_norm((z - center.0, dy)));
        assert(f(x) == raster.pixel(x, y));
        assert(f(z) == raster.pixel(z, y));
    }
    assert forall|x: int|
        0 <= x < raster.width && (x < center.0 - radius || x > center.0 + radius) implies #[trigger] f(
        x,
    ) == 0 by {
        lemma_squares(x - center.0, radius);
        lemma_squares(dy, 0);
        assert(f(x) == raster.pixel(x, y));
    }
    assert forall|x: int| 0 <= x < raster.width implies #[trigger] g(x) == x * #[trigger] f(x) by {}
    lemma_mirrored_moment_within(f, g, center.0, radius, 0, raster.width);
    assert forall|x: int| 0 <= x < raster.width implies #[trigger] f(x) >= 0 by {
        assert(f(x) == raster.pixel(x, y));
    }
    lemma_sum_nonnegative(f, 0, raster.width, center.0);
    assert(f(center.0) == raster.pixel(center.0, y));
    if y < center.1 - radius || y > center.1 + radius {
        assert forall|x: int| 0 <= x < raster.width implies #[trigger] f(x) == 0 by {
            lemma_squares(dy, radius);
            lemma_squares(x - center.0, 0);
            assert(f(x) == raster.pixel(x, y));
        }
        lemma_sum_zero(f, 0, raster.width);
    }
}

/// The intensity centroid of a uniform disk that lies in the image is the
/// centre of the disk.
pub proof fn lemma_uniform_disk_centroid(
    raster: Raster,
    center: (int, int),
    radius: int,
    value: int,
)
    requires
        raster.wf(),
        is_uniform_disk(raster, center, radius, value),
        value > 0,
        0 <= radius <= radius_limit(raster, center),
    ensures
        mass(raster) > 0,
        moment_x(raster) == center.0 * mass(raster),
        moment_y(raster) == center.1 * mass(raster),
        centroid_pixel(raster) == center,
{
    let f = row_masses(raster);
    let gx = row_moments(raster);
    let gy = weighted_row_masses(raster);
    assert forall|y: int| 0 <= y < raster.height implies #[trigger] gx(y) == center.0
        * #[trigger] f(y) by {
        lemma_uniform_disk_row(raster, center, radius, value, y);
    }
    lemma_sum_scaled(f, gx, center.0, 0, raster.height);
    assert forall|y: int, z: int|
        center.1 - radius <= y <= center.1 + radius && y + z == 2 * center.1 implies #[trigger] f(
        y,
    ) == #[trigger] f(z) by {
        assert forall|x: int| 0 <= x < raster.width implies #[trigger] row_samples(raster, y)(x)
            == #[trigger] row_samples(raster, z)(x) by {
            lemma_squares(y - center.1, 0);
            assert(z - center.1 == -(y - center.1));
            assert(raster.contains(x, y) && raster.contains(x, z));
            assert(sq_norm((x - center.0, y - center.1)) == sq_norm((x - center.0, z - center.1)));
            assert(row_samples(raster, y)(x) == raster.pixel(x, y));
            assert(row_samples(raster, z)(x) == raster.pixel(x, z));
        }
        lemma_sum_equal(row_samples(raster, y), row_samples(raster, z), 0, raster.width);
    }
    assert forall|y: int|
        0 <= y < raster.height && (y < center.1 - radius || y > center.1 + radius) implies #[trigger] f(
        y,
    ) == 0 by {
        lemma_uniform_disk_row(raster, center, radius, value, y);
    }
    assert forall|y: int| 0 <= y < raster.height implies #[trigger] gy(y) == y * #[trigger] f(y) by {}
    lemma_mirrored_moment_within(f, gy, center.1, radius, 0, raster.height);
    assert forall|y: int| 0 <= y < raster.height implies #[trigger] f(y) >= 0 by {
        lemma_uniform_disk_row(raster, center, radius, value, y);
    }
    lemma_sum_nonnegative(f, 0, raster.height, center.1);
    lemma_uniform_disk_row(raster, center, radius, value, center.1);
    assert(raster.pixel(center.0, center.1) == value) by {
        lemma_squares(radius, 0);
        assert(0int * 0int == 0) by (nonlinear_arith);
    }
    let m = mass(raster);
    assert(m >= f(center.1));
    assert((center.0 * m) / m == center.0 && (center.1 * m) / m == center.1) by (nonlinear_arith)
        requires
            m > 0,
    ;
}

/// Thresholding a uniform disk leaves the disk, at full intensity.
pub proof fn lemma_binarized_uniform_disk(
    raster: Raster,
    center: (int, int),
    radius: int,
    value: int,
)
    requires
        raster.wf(),
        is_uniform_disk(raster, center, radius, value),
        0 < value <= 255,
        0 <= radius <= radius_limit(raster, center),
    ensures
        binarized(raster).wf(),
        is_uniform_disk(binarized(raster), center, radius, 255),
        radius_limit(binarized(raster), center) == radius_limit(raster, center),
{
    let samples = raster.samples;
    let largest = largest_sample(samples);
    lemma_largest_sample(samples);
    let width = raster.width;
    // the centre of the disk has the value of the disk
    lemma_index_in_bounds(center.0, center.1, width, raster.height);
    assert(raster.pixel(center.0, center.1) == value) by {
        lemma_squares(radius, 0);
        assert(0int * 0int == 0) by (nonlinear_arith);
    }
    assert(samples[center.1 * width + center.0] == value);
    // and no sample is larger
    let top = choose|i: int| 0 <= i < samples.len() && #[trigger] samples[i] == largest;
    lemma_fundamental_div_mod(top, width);
    assert(0 <= top % width < width && 0 <= top / width < raster.height) by (nonlinear_arith)
        requires
            0 <= top < width * raster.height,
            width > 0,
            top == width * (top / width) + top % width,
    ;
    assert((top / width) * width + top % width == top) by (nonlinear_arith)
        requires
            top == width * (top / width) + top % width,
    ;
    assert(raster.pixel(top % width, top / width) == samples[top]);
    assert(largest == value);
    let binary = binarized(raster);
    assert forall|x: int, y: int| binary.contains(x, y) implies #[trigger] binary.pixel(x, y)
        == if sq_norm((x - center.0, y - center.1)) <= radius * radius {
        255int
    } else {
        0int
    } by {
        lemma_index_in_bounds(x, y, width, raster.height);
        assert(raster.contains(x, y));
        assert(raster.pixel(x, y) == samples[y * width + x]);
        assert(binary.samples[y * width + x] == if is_background(
            samples[y * width + x] as int,
            largest,
        ) {
            0u8
        } else {
            255u8
        });
    }
}

/// In an image of a disk of one intensity on black, the disk is found where
/// it is: if the disk has a radius of at least two pixels and lies in the
/// image with a pixel to spare on every side, the centre found is the centre
/// of the disk, exactly, and the radius found is its radius.
pub proof fn lemma_uniform_disk_located(
    raster: Raster,
    center: (int, int),
    radius: int,
    value: int,
)
    requires
        raster.wf(),
        is_uniform_disk(raster, center, radius, value),
        0 < value <= 255,
        MIN_RADIUS <= radius < radius_limit(raster, center),
    ensures
        located_disk(raster) == Some((center, radius)),
        moment_x(binarized(raster)) == center.0 * mass(binarized(raster)),
        moment_y(binarized(raster)) == center.1 * mass(binarized(raster)),
        mass(binarized(raster)) > 0,
{
    let binary = binarized(raster);
    lemma_binarized_uniform_disk(raster, center, radius, value);
    lemma_uniform_disk_centroid(binary, center, radius, 255);
    lemma_uniform_disk_radius(binary, center, radius, 255);
}

/// What is found in an image is what `located_disk` says of it: the
/// centroid of the thresholded image, and twice the radius of the disk
/// around the pixel that holds the centroid.
pub proof fn lemma_detected(raster: Raster)
    requires
        raster.wf(),
    ensures
        match located_disk(raster) {
            Some((center, radius)) => {
                &&& detected(raster) matches Some(info)
                &&& info.center.is_centroid_of(binarized(raster))
                &&& info.diameter == 2 * radius
                &&& MIN_RADIUS <= radius < radius_limit(binarized(raster), center)
            },
            None => detected(raster) is None,
        },
{
    let binary = binarized(raster);
    if located_disk(raster) is Some {
        let center = centroid_pixel(binary);
        lemma_bisected(binary, center, MIN_RADIUS as int, radius_limit(binary, center));
        lemma_moments_bounded(binary);
    }
}

/// In an image of a disk of one intensity on black, with a radius of at
/// least two pixels and a pixel to spare on every side, `find_planetary_disk`
/// returns the centre of the disk, exactly, and twice its radius.
pub proof fn lemma_uniform_disk_detected(
    raster: Raster,
    center: (int, int),
    radius: int,
    value: int,
)
    requires
        raster.wf(),
        is_uniform_disk(raster, center, radius, value),
        0 < value <= 255,
        MIN_RADIUS <= radius < radius_limit(raster, center),
    ensures
        detected(raster) matches Some(info) && {
            &&& info.diameter == 2 * radius
            &&& info.center.spec_mass() > 0
            &&& info.center.spec_moment_x() == center.0 * info.center.spec_mass()
            &&& info.center.spec_moment_y() == center.1 * info.center.spec_mass()
        },
{
    lemma_uniform_disk_located(raster, center, radius, value);
    lemma_detected(raster);
}

/// The moments of an image fit the integers that hold them.
pub proof fn lemma_moments_bounded(raster: Raster)
    requires
        raster.wf(),
    ensures
        0 <= mass(raster) <= raster.height * (raster.width * 255),
        0 <= moment_x(raster) <= raster.width * mass(raster),
        0 <= moment_y(raster) <= raster.height * mass(raster),
        mass(raster) <= u128::MAX,
        moment_x(raster) <= u128::MAX,
        moment_y(raster) <= u128::MAX,
{
    lemma_moments_bounded_upto(raster, raster.height);
    let m = mass(raster);
    assert(raster.height * (raster.width * 255) <= 0x1_0000_0000 * (0x1_0000_0000 * 255)
        && raster.width * m <= 0x1_0000_0000 * (0x1_0000_0000 * (0x1_0000_0000 * 255))
        && raster.height * m <= 0x1_0000_0000 * (0x1_0000_0000 * (0x1_0000_0000 * 255)))
        by (nonlinear_arith)
        requires
            0 <= raster.width <= 0xffff_ffff,
            0 <= raster.height <= 0xffff_ffff,
            0 <= m <= raster.height * (raster.width * 255),
    ;
}

/// Bounds of the sums over the first `rows` rows.
proof fn lemma_moments_bounded_upto(raster: Raster, rows: int)
    requires
        raster.wf(),
        0 <= rows <= raster.height,
    ensures
        0 <= sum_over(row_masses(raster), 0, rows) <= rows * (raster.width * 255),
        0 <= sum_over(row_moments(raster), 0, rows) <= raster.width * sum_over(
            row_masses(raster),
            0,
            rows,
        ),
        0 <= sum_over(weighted_row_masses(raster), 0, rows) <= raster.height * sum_over(
            row_masses(raster),
            0,
            rows,
        ),
    decreases rows,
{
    if rows > 0 {
        lemma_moments_bounded_upto(raster, rows - 1);
        let y = rows - 1;
        lemma_row_bounded_upto(raster, y, raster.width);
        let in_row = row_mass(raster, y);
        let before = sum_over(row_masses(raster), 0, rows - 1);
        assert(row_masses(raster)(y) == in_row);
        assert(row_moments(raster)(y) == row_moment(raster, y));
        assert(weighted_row_masses(raster)(y) == y * in_row);
        assert((rows - 1) * (raster.width * 255) + raster.width * 255 == rows * (raster.width
            * 255) && raster.width * before + raster.width * in_row == raster.width * (before
            + in_row) && raster.height * before + raster.height * in_row == raster.height * (
        before + in_row) && 0 <= y * in_row <= raster.height * in_row) by (nonlinear_arith)
            requires
                0 <= y < raster.height,
                0 <= in_row,
        ;
    } else {
        assert(0 * (raster.width * 255) == 0 && raster.width * 0 == 0 && raster.height * 0 == 0)
            by (nonlinear_arith);
    }
}

/// Bounds of the sums over the first `columns` pixels of a row.
proof fn lemma_row_bounded_upto(raster: Raster, y: int, columns: int)
    requires
        raster.wf(),
        0 <= y < raster.height,
        0 <= columns <= raster.width,
    ensures
        0 <= sum_over(row_samples(raster, y), 0, columns) <= columns * 255,
        0 <= sum_over(row_weighted(raster, y), 0, columns) <= raster.width * sum_over(
            row_samples(raster, y),
            0,
            columns,
        ),
    decreases columns,
{
    if columns > 0 {
        lemma_row_bounded_upto(raster, y, columns - 1);
        let x = columns - 1;
        let sample = raster.pixel(x, y);
        let before = sum_over(row_samples(raster, y), 0, columns - 1);
        assert(row_samples(raster, y)(x) == sample);
        assert(row_weighted(raster, y)(x) == x * sample);
        assert(0 <= sample <= 255);
        assert(raster.width * before + raster.width * sample == raster.width * (before + sample)
            && 0 <= x * sample <= raster.width * sample) by (nonlinear_arith)
            requires
                0 <= x < raster.width,
                0 <= sample,
        ;
    } else {
        assert(raster.width * 0 == 0) by (nonlinear_arith);
    }
}

} // verus!
