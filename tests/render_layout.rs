use rt::render::render;
use rt::Image;

#[test]
fn pixel_gets_shade_of_its_viewport_row() {
    let mut img: Image<(u32, u32)> = Image::new(3, 2, (99, 99));
    render(&mut img, &|x: u32, v: u32| (x, v));
    assert_eq!(img.width(), 3);
    assert_eq!(img.height(), 2);
    for y in 0..2usize {
        for x in 0..3usize {
            assert_eq!(img.get_pixel(x, y), Some((x as u32, 1 - y as u32)));
        }
    }
}

#[test]
fn render_covers_every_cell() {
    let mut img: Image<u64> = Image::new(17, 9, 0);
    render(&mut img, &|x: u32, v: u32| 1000 * v as u64 + x as u64 + 1);
    for y in 0..9usize {
        for x in 0..17usize {
            assert_eq!(img.get_pixel(x, y), Some(1000 * (8 - y as u64) + x as u64 + 1));
        }
    }
}

#[test]
fn uniform_shade_gives_background_everywhere() {
    let background = (0.7f64, 0.8f64, 1.0f64);
    let mut img: Image<(f64, f64, f64)> = Image::new(8, 6, (0.0, 0.0, 0.0));
    render(&mut img, &|_x: u32, _v: u32| background);
    for y in 0..6usize {
        for x in 0..8usize {
            assert_eq!(img.get_pixel(x, y), Some(background));
        }
    }
}

#[test]
fn rendering_twice_is_identical() {
    let shade = |x: u32, v: u32| {
        let u = x as f64 / 9.0;
        let w = v as f64 / 4.0;
        (u * w, u + w, (u - w).abs())
    };
    let mut a: Image<(f64, f64, f64)> = Image::new(10, 5, (0.0, 0.0, 0.0));
    let mut b: Image<(f64, f64, f64)> = Image::new(10, 5, (1.0, 1.0, 1.0));
    render(&mut a, &shade);
    render(&mut b, &shade);
    for y in 0..5usize {
        for x in 0..10usize {
            let pa = a.get_pixel(x, y).unwrap();
            let pb = b.get_pixel(x, y).unwrap();
            assert_eq!(pa.0.to_bits(), pb.0.to_bits());
            assert_eq!(pa.1.to_bits(), pb.1.to_bits());
            assert_eq!(pa.2.to_bits(), pb.2.to_bits());
        }
    }
}

#[test]
fn render_of_empty_image() {
    let mut img: Image<u32> = Image::new(0, 3, 5);
    render(&mut img, &|x: u32, v: u32| x + v);
    assert_eq!(img.width(), 0);
    assert_eq!(img.height(), 3);
    assert_eq!(img.get_pixel(0, 0), None);
}
