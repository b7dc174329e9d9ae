use rt::Image;

#[test]
fn new_image_is_filled() {
    let img: Image<u32> = Image::new(3, 2, 7);
    assert_eq!(img.width(), 3);
    assert_eq!(img.height(), 2);
    for y in 0..2 {
        for x in 0..3 {
            assert_eq!(img.get_pixel(x, y), Some(7));
        }
    }
}

#[test]
fn set_pixel_writes_one_cell() {
    let mut img: Image<u32> = Image::new(3, 2, 0);
    img.set_pixel(2, 1, 9);
    assert_eq!(img.get_pixel(2, 1), Some(9));
    assert_eq!(img.get_pixel(1, 2), None);
    assert_eq!(img.get_pixel(1, 1), Some(0));
    assert_eq!(img.get_pixel(2, 0), Some(0));
}

#[test]
fn set_pixel_outside_is_ignored() {
    let mut img: Image<u32> = Image::new(2, 2, 1);
    img.set_pixel(2, 0, 5);
    img.set_pixel(0, 2, 5);
    for y in 0..2 {
        for x in 0..2 {
            assert_eq!(img.get_pixel(x, y), Some(1));
        }
    }
}

#[test]
fn get_pixel_outside_is_none() {
    let img: Image<u32> = Image::new(4, 3, 2);
    assert_eq!(img.get_pixel(4, 0), None);
    assert_eq!(img.get_pixel(0, 3), None);
    assert_eq!(img.get_pixel(usize::MAX, usize::MAX), None);
}

#[test]
fn empty_image_has_no_pixels() {
    let img: Image<u32> = Image::new(0, 5, 1);
    assert_eq!(img.get_pixel(0, 0), None);
}
