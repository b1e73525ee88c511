use biscuiting_lib::raster::Raster;
use biscuiting_lib::region_labelling::{find_contour, find_contours, Point};

fn raster(width: u32, height: u32, pixels: Vec<u32>) -> Raster {
    Raster::from_pixels(width, height, pixels).unwrap()
}

#[test]
fn test_with_single_pixel() {
    let image = raster(
        3,
        3,
        vec![
            0, 0, 0, //
            0, 255, 0, //
            0, 0, 0,
        ],
    );

    let foreground_color = 255u32;
    let background_color = 0u32;

    let expected_contour = vec![Point::new(1, 1)];

    let contour = find_contour(foreground_color, &image);

    assert_eq!(Some(expected_contour.clone()), contour);

    let contours = find_contours(background_color, &image);

    assert_eq!(vec![expected_contour.clone()], contours);
}

#[test]
fn test_with_centered_square() {
    let image = raster(
        4,
        4,
        vec![
            0, 0, 0, 0, //
            0, 255, 255, 0, //
            0, 255, 255, 0, //
            0, 0, 0, 0,
        ],
    );

    let foreground_color = 255u32;
    let background_color = 0u32;

    let expected_contour = vec![
        Point::new(1, 1),
        Point::new(2, 1),
        Point::new(2, 2),
        Point::new(1, 2),
    ];

    let contour = find_contour(foreground_color, &image);

    assert_eq!(Some(expected_contour.clone()), contour);

    let contours = find_contours(background_color, &image);

    assert_eq!(vec![expected_contour.clone()], contours);
}

#[test]
fn test_with_hole() {
    let image = raster(
        4,
        4,
        vec![
            0, 0, 0, 0, //
            0, 255, 255, 255, //
            0, 255, 0, 255, //
            0, 255, 255, 255,
        ],
    );

    let foreground_color = 255u32;
    let background_color = 0u32;

    let expected_contour = vec![
        Point::new(1, 1),
        Point::new(2, 1),
        Point::new(3, 1),
        Point::new(3, 2),
        Point::new(3, 3),
        Point::new(2, 3),
        Point::new(1, 3),
        Point::new(1, 2),
    ];

    let contour = find_contour(foreground_color, &image);

    assert_eq!(Some(expected_contour.clone()), contour);

    let contours = find_contours(background_color, &image);

    assert_eq!(vec![expected_contour.clone()], contours);
}

#[test]
fn test_with_l_shape_example_1() {
    let image = raster(
        4,
        4,
        vec![
            0, 0, 0, 0, //
            0, 255, 255, 0, //
            0, 0, 255, 0, //
            0, 0, 0, 0,
        ],
    );

    let foreground_color = 255u32;
    let background_color = 0u32;

    let expected_contour = vec![Point::new(1, 1), Point::new(2, 1), Point::new(2, 2)];

    let contour = find_contour(foreground_color, &image);

    assert_eq!(Some(expected_contour.clone()), contour);

    let contours = find_contours(background_color, &image);

    assert_eq!(vec![expected_contour.clone()], contours);
}

#[test]
fn test_with_l_shape_example_2() {
    let image = raster(
        4,
        4,
        vec![
            0, 0, 0, 0, //
            0, 255, 255, 0, //
            0, 255, 0, 0, //
            0, 0, 0, 0,
        ],
    );

    let foreground_color = 255u32;
    let background_color = 0u32;

    let expected_contour = vec![Point::new(1, 1), Point::new(2, 1), Point::new(1, 2)];

    let contour = find_contour(foreground_color, &image);

    assert_eq!(Some(expected_contour.clone()), contour);

    let contours = find_contours(background_color, &image);

    assert_eq!(vec![expected_contour.clone()], contours);
}

#[test]
fn test_with_l_shape_example_3() {
    let image = raster(
        4,
        4,
        vec![
            0, 0, 0, 0, //
            0, 255, 0, 0, //
            0, 255, 255, 0, //
            0, 0, 0, 0,
        ],
    );

    let foreground_color = 255u32;
    let background_color = 0u32;

    let expected_contour = vec![Point::new(1, 1), Point::new(1, 2), Point::new(2, 2)];

    let contour = find_contour(foreground_color, &image);

    assert_eq!(Some(expected_contour.clone()), contour);

    let contours = find_contours(background_color, &image);

    assert_eq!(vec![expected_contour.clone()], contours);
}

#[test]
fn test_with_l_shape_example_4() {
    let image = raster(
        4,
        4,
        vec![
            0, 0, 0, 0, //
            0, 0, 255, 0, //
            0, 255, 255, 0, //
            0, 0, 0, 0,
        ],
    );

    let foreground_color = 255u32;
    let background_color = 0u32;

    // The lookup's column-outer scan reaches (1, 2) before (2, 1), so the
    // single-contour trace starts there; the row-major driver still seeds
    // its trace at (2, 1).
    let expected_lookup_contour = vec![Point::new(1, 2), Point::new(2, 1), Point::new(2, 2)];

    let contour = find_contour(foreground_color, &image);

    assert_eq!(Some(expected_lookup_contour.clone()), contour);

    let expected_contour = vec![Point::new(2, 1), Point::new(2, 2), Point::new(1, 2)];

    let contours = find_contours(background_color, &image);

    assert_eq!(vec![expected_contour.clone()], contours);
}

#[test]
fn test_with_x_offset_square() {
    let image = raster(
        4,
        4,
        vec![
            0, 0, 0, 0, //
            0, 0, 255, 255, //
            0, 0, 255, 255, //
            0, 0, 0, 0,
        ],
    );

    let foreground_color = 255u32;
    let background_color = 0u32;

    let expected_contour = vec![
        Point::new(2, 1),
        Point::new(3, 1),
        Point::new(3, 2),
        Point::new(2, 2),
    ];

    let contour = find_contour(foreground_color, &image);

    assert_eq!(Some(expected_contour.clone()), contour);

    let contours = find_contours(background_color, &image);

    assert_eq!(vec![expected_contour.clone()], contours);
}

#[test]
fn test_with_y_offset_square() {
    let image = raster(
        4,
        4,
        vec![
            0, 0, 0, 0, //
            0, 0, 0, 0, //
            0, 255, 255, 0, //
            0, 255, 255, 0,
        ],
    );

    let foreground_color = 255u32;
    let background_color = 0u32;

    let expected_contour = vec![
        Point::new(1, 2),
        Point::new(2, 2),
        Point::new(2, 3),
        Point::new(1, 3),
    ];

    let contour = find_contour(foreground_color, &image);

    assert_eq!(Some(expected_contour.clone()), contour);

    let contours = find_contours(background_color, &image);

    assert_eq!(vec![expected_contour.clone()], contours);
}

#[test]
fn test_with_single_pixel_in_top_left_corner() {
    let image = raster(
        2,
        2,
        vec![
            255, 0, //
            0, 0,
        ],
    );

    let foreground_color = 255u32;
    let background_color = 0u32;

    let expected_contour = vec![Point::new(0, 0)];

    let contour = find_contour(foreground_color, &image);

    assert_eq!(Some(expected_contour.clone()), contour);

    let contours = find_contours(background_color, &image);

    assert_eq!(vec![expected_contour.clone()], contours);
}

#[test]
fn test_find_contours_with_multiple_contours_in_large_example() {
    let image = raster(
        4,
        4,
        vec![
            0, 0, 100, 100, //
            0, 0, 100, 100, //
            0, 255, 255, 0, //
            0, 255, 255, 0,
        ],
    );

    let background_color = 0u32;

    let contours = find_contours(background_color, &image);

    assert_eq!(
        vec![
            Point::new(2, 0),
            Point::new(3, 0),
            Point::new(3, 1),
            Point::new(2, 1)
        ],
        contours[0]
    );

    assert_eq!(
        vec![
            Point::new(1, 2),
            Point::new(2, 2),
            Point::new(2, 3),
            Point::new(1, 3)
        ],
        contours[1]
    );

    assert_eq!(2, contours.len());
}

#[test]
fn test_find_contours_with_multiple_contours_in_minimal_example() {
    let image = raster(
        4,
        4,
        vec![
            0, 0, 0, 100, //
            0, 0, 0, 0, //
            0, 0, 0, 0, //
            255, 0, 0, 0,
        ],
    );

    let background_color = 0u32;

    let contours = find_contours(background_color, &image);

    assert_eq!(vec![Point::new(3, 0)], contours[0]);
    assert_eq!(vec![Point::new(0, 3)], contours[1]);

    assert_eq!(2, contours.len());
}
