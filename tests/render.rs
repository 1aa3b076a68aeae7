use raytracer::color::Color;
use raytracer::renderer::{pixel_color, render};
use raytracer::scene::ImagePlane;

#[test]
fn pixel_color_misses_are_background() {
    assert_eq!(pixel_color(None), Color::black());
    assert_eq!(pixel_color(Some(Color::white())), Color::white());
    assert_eq!(pixel_color(Some(Color::new(3, 4, 5))), Color::new(3, 4, 5));
}

#[test]
fn render_empty_scene_is_background() {
    let plane = ImagePlane { width: 5, height: 4, pixel_density: 1 };
    let image = render(&plane, |_x, _y| None);
    assert_eq!(image.width(), 5);
    assert_eq!(image.height(), 4);
    for y in 0..4 {
        for x in 0..5 {
            assert_eq!(image.get_pixel(x, y), Color::black());
        }
    }
    assert_eq!(image.into_bytes(), vec![0u8; 60]);
}

#[test]
fn render_writes_hits_and_misses() {
    let plane = ImagePlane { width: 3, height: 2, pixel_density: 1 };
    let image = render(&plane, |x, y| if x == y { Some(Color::white()) } else { None });
    assert_eq!(image.get_pixel(0, 0), Color::white());
    assert_eq!(image.get_pixel(1, 1), Color::white());
    assert_eq!(image.get_pixel(1, 0), Color::black());
    assert_eq!(image.get_pixel(2, 1), Color::black());
    let bytes = image.into_bytes();
    assert_eq!(&bytes[0..3], &[255, 255, 255]);
    assert_eq!(&bytes[3..6], &[0, 0, 0]);
    // pixel (1, 1) sits at (1 * 3 + 1) * 3 = 12
    assert_eq!(&bytes[12..15], &[255, 255, 255]);
}

#[test]
fn render_passes_pixel_coordinates() {
    let plane = ImagePlane { width: 4, height: 3, pixel_density: 2 };
    let image = render(&plane, |x, y| Some(Color::new(x as u8, y as u8, 9)));
    for y in 0..3 {
        for x in 0..4 {
            assert_eq!(image.get_pixel(x, y), Color::new(x as u8, y as u8, 9));
        }
    }
}

#[test]
fn render_zero_sized_plane() {
    let plane = ImagePlane { width: 0, height: 0, pixel_density: 1 };
    let image = render(&plane, |_x, _y| Some(Color::white()));
    assert_eq!(image.into_bytes().len(), 0);
}
