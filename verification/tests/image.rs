use logo_fractal::fractal::Image;

#[test]
fn new_image_is_black() {
    let img = Image::new(3, 2);
    assert_eq!(img.width(), 3);
    assert_eq!(img.height(), 2);
    for y in 0..2 {
        for x in 0..3 {
            assert_eq!(img.pixel(x, y), (0, 0, 0));
        }
    }
}

#[test]
fn set_pixel_paints_one_pixel() {
    let mut img = Image::new(3, 2);
    assert!(img.set_pixel(2, 1, (1, 2, 3)));
    assert_eq!(img.pixel(2, 1), (1, 2, 3));
    assert_eq!(img.pixel(1, 1), (0, 0, 0));
    assert_eq!(img.pixel(2, 0), (0, 0, 0));
}

#[test]
fn set_pixel_outside_changes_nothing() {
    let mut img = Image::new(2, 2);
    assert!(!img.set_pixel(2, 0, (9, 9, 9)));
    assert!(!img.set_pixel(0, 5, (9, 9, 9)));
    assert_eq!(img.to_ppm(), Image::new(2, 2).to_ppm());
}

#[test]
fn ppm_text() {
    let mut img = Image::new(2, 1);
    img.set_pixel(1, 0, (255, 10, 0));
    assert_eq!(img.to_ppm(), "P3\n 2 1 \n 255\n0 0 0\n255 10 0\n");
}

#[test]
fn empty_image_ppm() {
    assert_eq!(Image::new(0, 0).to_ppm(), "P3\n 0 0 \n 255\n");
}

#[test]
fn painting_leaves_other_pixels() {
    let mut img = Image::new(4, 3);
    img.set_pixel(1, 2, (7, 7, 7));
    img.set_pixel(3, 0, (1, 1, 1));
    for y in 0..3 {
        for x in 0..4 {
            let expected = if (x, y) == (1, 2) {
                (7, 7, 7)
            } else if (x, y) == (3, 0) {
                (1, 1, 1)
            } else {
                (0, 0, 0)
            };
            assert_eq!(img.pixel(x, y), expected);
        }
    }
}
