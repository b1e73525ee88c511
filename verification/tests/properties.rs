use biscuiting_lib::borders::flatten_contours;
use biscuiting_lib::raster::Raster;
use biscuiting_lib::region_labelling::turtle::{Heading, Turtle};
use biscuiting_lib::region_labelling::{
    find_contour, find_contours, find_contours_in_luma, Point,
};

fn raster(width: u32, height: u32, pixels: Vec<u32>) -> Raster {
    Raster::from_pixels(width, height, pixels).unwrap()
}

fn two_region_image() -> Raster {
    raster(
        4,
        4,
        vec![
            0, 0, 100, 100, //
            0, 0, 100, 100, //
            0, 255, 255, 0, //
            0, 255, 255, 0,
        ],
    )
}

#[test]
fn contour_count_matches_distinct_foreground_colors() {
    let image = raster(
        4,
        3,
        vec![
            7, 0, 9, 9, //
            7, 0, 0, 0, //
            0, 0, 3, 0,
        ],
    );
    let contours = find_contours(0, &image);
    assert_eq!(3, contours.len());
}

#[test]
fn all_background_image_yields_empty_contour_set() {
    let image = raster(3, 2, vec![5, 5, 5, 5, 5, 5]);
    assert_eq!(0, find_contours(5, &image).len());
    assert_eq!(None, find_contour(9, &image));
}

#[test]
fn repeated_calls_return_identical_contour_lists() {
    let image = two_region_image();
    let first = find_contours(0, &image);
    let second = find_contours(0, &image);
    assert_eq!(first, second);
    let single_first = find_contour(255, &image);
    let single_second = find_contour(255, &image);
    assert_eq!(single_first, single_second);
}

#[test]
fn generic_and_label_variants_agree() {
    let image = two_region_image();
    let generic = find_contours(0, &image);
    let labelled = find_contours_in_luma(0, &image);
    assert_eq!(generic, labelled);
}

#[test]
fn no_contour_point_holds_the_background_color() {
    let image = two_region_image();
    let background_color = 0u32;
    let contours = find_contours(background_color, &image);
    assert_eq!(2, contours.len());
    for contour in &contours {
        assert!(!contour.is_empty());
        for point in contour {
            assert_ne!(background_color, image.get_pixel(point.x, point.y));
        }
    }
}

#[test]
fn contour_points_are_pairwise_distinct() {
    let image = raster(
        4,
        4,
        vec![
            0, 0, 0, 0, //
            0, 255, 255, 255, //
            0, 255, 0, 255, //
            0, 255, 255, 255,
        ],
    );
    let contours = find_contours(0, &image);
    assert_eq!(1, contours.len());
    let contour = &contours[0];
    for a in 0..contour.len() {
        for b in (a + 1)..contour.len() {
            assert_ne!(contour[a], contour[b]);
        }
    }
}

#[test]
fn label_variant_traces_each_label_once() {
    // Two disjoint pixels of one label: only the first discovered
    // component is traced — the known, deliberate limitation.
    let image = raster(
        3,
        3,
        vec![
            4, 0, 0, //
            0, 0, 0, //
            0, 0, 4,
        ],
    );
    let contours = find_contours_in_luma(0, &image);
    assert_eq!(vec![vec![Point::new(0, 0)]], contours);
    assert_eq!(contours, find_contours(0, &image));
}

#[test]
fn mismatched_buffer_is_rejected() {
    assert!(Raster::from_pixels(3, 2, vec![0, 0, 0, 0, 0]).is_none());
    assert!(Raster::from_pixels(3, 2, vec![0; 7]).is_none());
    assert!(Raster::from_pixels(3, 2, vec![0; 6]).is_some());
    assert!(Raster::from_pixels(0, 0, vec![]).is_some());
}

#[test]
fn raster_exposes_dimensions_and_pixels() {
    let image = raster(2, 3, vec![1, 2, 3, 4, 5, 6]);
    assert_eq!(2, image.width());
    assert_eq!(3, image.height());
    assert_eq!(1, image.get_pixel(0, 0));
    assert_eq!(2, image.get_pixel(1, 0));
    assert_eq!(3, image.get_pixel(0, 1));
    assert_eq!(6, image.get_pixel(1, 2));
}

#[test]
fn lookup_covers_the_whole_raster() {
    // The lookup scans every cell, so it finds a pixel anywhere on a
    // non-square raster, and absence is an explicit None.
    let image = raster(1, 3, vec![0, 0, 255]);
    assert_eq!(Some(vec![Point::new(0, 2)]), find_contour(255, &image));
    assert_eq!(None, find_contour(9, &image));
    let contours = find_contours(0, &image);
    assert_eq!(vec![vec![Point::new(0, 2)]], contours);
}

#[test]
fn lookup_order_is_column_outer_unlike_the_driver() {
    // Matches at (1, 0) and (0, 1): the lookup's column-outer scan finds
    // (0, 1) first, while the driver's row-major scan seeds at (1, 0).
    let image = raster(
        2,
        2,
        vec![
            0, 255, //
            255, 0,
        ],
    );
    assert_eq!(
        Some(vec![Point::new(0, 1), Point::new(1, 0)]),
        find_contour(255, &image)
    );
    let contours = find_contours(0, &image);
    assert_eq!(vec![vec![Point::new(1, 0), Point::new(0, 1)]], contours);
}

#[test]
fn turtle_starts_facing_east() {
    let turtle = Turtle::new(2, 3);
    assert_eq!(2, turtle.x);
    assert_eq!(3, turtle.y);
    assert_eq!(Heading::East, turtle.heading);
}

#[test]
fn preferred_candidate_turns_a_quarter_left_and_steps() {
    let turtle = Turtle::new(2, 3);
    let preferred = turtle.candidate_preferred();
    assert_eq!(2, preferred.x);
    assert_eq!(2, preferred.y);
    assert_eq!(Heading::North, preferred.heading);
}

#[test]
fn fallback_candidate_turns_a_quarter_right_and_steps() {
    let turtle = Turtle::new(2, 3);
    let fallback = turtle.candidate_fallback();
    assert_eq!(2, fallback.x);
    assert_eq!(4, fallback.y);
    assert_eq!(Heading::South, fallback.heading);
}

#[test]
fn cursor_equality_needs_position_and_heading() {
    let turtle = Turtle::new(1, 1);
    let around = turtle
        .candidate_preferred()
        .candidate_fallback()
        .candidate_fallback()
        .candidate_fallback();
    // Back on the start cell, but arrived with the opposite heading.
    assert_eq!(turtle.x, around.x);
    assert_eq!(turtle.y, around.y);
    assert!(turtle != around);
}

#[test]
fn flatten_interleaves_points_and_accumulates_offsets() {
    let contours = vec![
        vec![Point::new(1u32, 1u32)],
        vec![
            Point::new(1, 1),
            Point::new(2, 1),
            Point::new(2, 2),
            Point::new(1, 2),
        ],
    ];
    let (border_indexes, border_points) = flatten_contours(&contours).unwrap();
    assert_eq!(vec![2, 10], border_indexes);
    assert_eq!(vec![1, 1, 1, 1, 2, 1, 2, 2, 1, 2], border_points);
}

#[test]
fn flatten_of_no_contours_is_empty() {
    let contours: Vec<Vec<Point<u32>>> = vec![];
    let (border_indexes, border_points) = flatten_contours(&contours).unwrap();
    assert!(border_indexes.is_empty());
    assert!(border_points.is_empty());
}

#[test]
fn flatten_of_four_single_pixel_regions() {
    let image = raster(
        5,
        5,
        vec![
            0, 0, 0, 0, 0, //
            0, 1, 0, 2, 0, //
            0, 0, 0, 0, 0, //
            0, 3, 0, 4, 0, //
            0, 0, 0, 0, 0,
        ],
    );
    let contours = find_contours(0, &image);
    let (border_indexes, border_points) = flatten_contours(&contours).unwrap();
    assert_eq!(vec![2, 4, 6, 8], border_indexes);
    assert_eq!(vec![1, 1, 3, 1, 1, 3, 3, 3], border_points);
}
