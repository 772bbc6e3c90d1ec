use vislumino::circle::{rasterize_circle, Point};
use vislumino::disk::{
    binarize, centroid, find_disk_radius, find_planetary_disk, is_outside_disk, max_value, DiskNotFound,
};
use vislumino::image::GrayImage;

fn disk_image(width: u32, height: u32, cx: i64, cy: i64, radius: i64, value: u8, background: u8) -> GrayImage {
    let mut pixels = vec![background; (width * height) as usize];
    for y in 0..height as i64 {
        for x in 0..width as i64 {
            if (x - cx) * (x - cx) + (y - cy) * (y - cy) <= radius * radius {
                pixels[(y * width as i64 + x) as usize] = value;
            }
        }
    }
    GrayImage::new(width, height, pixels).unwrap()
}

#[test]
fn finds_filled_disk_center_and_diameter() {
    let image = disk_image(64, 48, 30, 20, 10, 200, 0);
    let info = find_planetary_disk(&image).unwrap();
    assert_eq!(info.diameter, 20);
    assert_eq!(info.center.pixel(), Point { x: 30, y: 20 });
    assert_eq!(info.center.moment_x(), 30 * info.center.mass());
    assert_eq!(info.center.moment_y(), 20 * info.center.mass());
}

#[test]
fn finds_disks_of_every_radius_that_fits() {
    for radius in 2..=20i64 {
        let image = disk_image(50, 60, 24, 28, radius, 255, 0);
        let info = find_planetary_disk(&image).unwrap();
        assert_eq!(info.diameter as i64, 2 * radius, "radius {}", radius);
        assert_eq!(info.center.pixel(), Point { x: 24, y: 28 });
    }
}

#[test]
fn centroid_mass_counts_full_intensity_pixels() {
    // a disk of radius 2 has 13 pixels
    let image = disk_image(20, 20, 9, 10, 2, 7, 0);
    let info = find_planetary_disk(&image).unwrap();
    assert_eq!(info.center.mass(), 13 * 255);
    assert_eq!(info.center.moment_x(), 9 * 13 * 255);
    assert_eq!(info.center.moment_y(), 10 * 13 * 255);
    assert_eq!(info.diameter, 4);
}

#[test]
fn faint_background_is_cut_before_the_centroid_is_taken() {
    // 2% of 200 is 4: a background of 4 is cut, one of 5 is not
    let image = disk_image(64, 48, 40, 20, 8, 200, 4);
    let info = find_planetary_disk(&image).unwrap();
    assert_eq!(info.diameter, 16);
    assert_eq!(info.center.pixel(), Point { x: 40, y: 20 });
    let image = disk_image(64, 48, 40, 20, 8, 200, 5);
    assert_eq!(find_planetary_disk(&image), Err(DiskNotFound));
}

#[test]
fn black_image_has_no_disk() {
    let image = GrayImage::new(32, 32, vec![0; 32 * 32]).unwrap();
    assert_eq!(find_planetary_disk(&image), Err(DiskNotFound));
    assert!(centroid(&image).is_none());
}

#[test]
fn empty_image_has_no_disk() {
    let image = GrayImage::new(0, 0, vec![]).unwrap();
    assert_eq!(find_planetary_disk(&image), Err(DiskNotFound));
    let image = GrayImage::new(0, 5, vec![]).unwrap();
    assert_eq!(find_planetary_disk(&image), Err(DiskNotFound));
}

#[test]
fn disk_of_less_than_two_pixels_in_radius_is_not_found() {
    let image = disk_image(32, 32, 16, 16, 1, 255, 0);
    assert_eq!(find_planetary_disk(&image), Err(DiskNotFound));
    let image = disk_image(32, 32, 16, 16, 0, 255, 0);
    assert_eq!(find_planetary_disk(&image), Err(DiskNotFound));
}

#[test]
fn disk_that_reaches_the_edge_is_not_found() {
    // the largest circle around (10, 16) has radius 10 and still meets the disk
    let image = disk_image(32, 32, 10, 16, 10, 255, 0);
    assert_eq!(find_planetary_disk(&image), Err(DiskNotFound));
    // one pixel to spare is enough
    let image = disk_image(32, 32, 11, 16, 10, 255, 0);
    assert_eq!(find_planetary_disk(&image).unwrap().diameter, 20);
}

#[test]
fn white_image_has_no_disk() {
    let image = GrayImage::new(16, 16, vec![255; 256]).unwrap();
    assert_eq!(find_planetary_disk(&image), Err(DiskNotFound));
}

#[test]
fn center_too_close_to_the_edge_gives_no_radius() {
    let image = disk_image(32, 32, 16, 16, 5, 255, 0);
    assert_eq!(find_disk_radius(&image, Point { x: 1, y: 16 }), Err(DiskNotFound));
    assert_eq!(find_disk_radius(&image, Point { x: -4, y: 16 }), Err(DiskNotFound));
    assert_eq!(find_disk_radius(&image, Point { x: 16, y: 32 }), Err(DiskNotFound));
    assert_eq!(find_disk_radius(&image, Point { x: 16, y: 16 }), Ok(5));
}

#[test]
fn largest_sample_of_an_image() {
    let image = GrayImage::new(3, 2, vec![1, 9, 3, 200, 5, 6]).unwrap();
    assert_eq!(max_value(&image), 200);
    let image = GrayImage::new(0, 0, vec![]).unwrap();
    assert_eq!(max_value(&image), 0);
}

#[test]
fn threshold_is_two_percent_of_the_largest_sample() {
    let image = GrayImage::new(4, 2, vec![0, 1, 2, 3, 100, 50, 2, 150]).unwrap();
    // 2% of 150 is 3
    let binary = binarize(&image);
    assert_eq!(binary.pixels(), &vec![0, 0, 0, 0, 255, 255, 0, 255]);
    assert_eq!(binary.width(), 4);
    assert_eq!(binary.height(), 2);
    // 2% of 149 is 2.98: a sample of 3 stays
    let image = GrayImage::new(2, 1, vec![3, 149]).unwrap();
    assert_eq!(binarize(&image).pixels(), &vec![255, 255]);
}

#[test]
fn centroid_of_two_pixels_lies_between_them() {
    let image = GrayImage::new(4, 3, vec![0, 0, 0, 0, 0, 10, 0, 30, 0, 0, 0, 0]).unwrap();
    let c = centroid(&image).unwrap();
    assert_eq!(c.mass(), 40);
    assert_eq!(c.moment_x(), 1 * 10 + 3 * 30);
    assert_eq!(c.moment_y(), 40);
    assert_eq!(c.pixel(), Point { x: 2, y: 1 });
}

#[test]
fn circle_outside_the_disk_lies_on_background() {
    let image = disk_image(40, 40, 20, 20, 6, 255, 0);
    let center = Point { x: 20, y: 20 };
    assert!(!is_outside_disk(&image, &rasterize_circle(center, 2)));
    assert!(!is_outside_disk(&image, &rasterize_circle(center, 6)));
    assert!(is_outside_disk(&image, &rasterize_circle(center, 7)));
    assert!(is_outside_disk(&image, &rasterize_circle(center, 19)));
    // points outside the image are background
    assert!(is_outside_disk(&image, &rasterize_circle(center, 30)));
    assert!(is_outside_disk(&image, &vec![]));
}
