use raytracer::canvas::{ppm_from_rgb, Canvas};

type Rgb = (u8, u8, u8);

const BLACK: Rgb = (0, 0, 0);
const RED: Rgb = (255, 0, 0);
const GREEN: Rgb = (0, 255, 0);
const BLUE: Rgb = (0, 0, 255);

#[test]
fn creating_a_canvas() {
    let c = Canvas::new(10, 20, BLACK);

    assert_eq!(c.width(), 10);
    assert_eq!(c.height(), 20);

    for y in 0..20 {
        for x in 0..10 {
            assert_eq!(c.get_pixel(x, y), BLACK);
        }
    }

    let c = Canvas::with_vec(3, 3, vec![RED, GREEN, BLUE, RED, GREEN, BLUE, RED, GREEN, BLUE]);

    assert_eq!(c.width(), 3);
    assert_eq!(c.height(), 3);
    assert_eq!(c.get_pixel(0, 0), RED);
    assert_eq!(c.get_pixel(1, 1), GREEN);
    assert_eq!(c.get_pixel(2, 2), BLUE);
}

#[test]
fn writing_pixels_to_a_canvas() {
    let mut c = Canvas::new(10, 20, BLACK);
    c.write_pixel(2, 3, RED);

    assert_eq!(c.get_pixel(2, 3), RED);
    assert_eq!(c.get_pixel(3, 2), BLACK);
}

#[test]
fn getting_pixels_from_a_canvas() {
    let mut c = Canvas::new(10, 20, BLACK);
    c.write_pixel(4, 4, RED);

    assert_eq!(c.get_pixel(4, 4), RED);
    assert_eq!(c.get_pixel(3, 4), BLACK);
    assert_eq!(c.get_pixel(4, 3), BLACK);
}

#[test]
fn generating_ppm_data_from_a_canvas() {
    let mut pixels = vec![BLACK; 15];
    pixels[0] = (255, 0, 0);
    pixels[7] = (0, 128, 0);
    pixels[14] = (0, 0, 255);

    assert_eq!(
        ppm_from_rgb(5, 3, &pixels),
        "\
P3
5 3
255
255 0 0
0 0 0
0 0 0
0 0 0
0 0 0
0 0 0
0 0 0
0 128 0
0 0 0
0 0 0
0 0 0
0 0 0
0 0 0
0 0 0
0 0 255\n"
    );

    let pixels = vec![(255, 204, 153); 20];
    let text = ppm_from_rgb(10, 2, &pixels);
    let mut expected = String::from("P3\n10 2\n255\n");
    for _ in 0..20 {
        expected.push_str("255 204 153\n");
    }
    assert_eq!(text, expected);
}

#[test]
fn ppm_of_an_empty_image() {
    assert_eq!(ppm_from_rgb(0, 0, &Vec::new()), "P3\n0 0\n255\n");
    assert_eq!(ppm_from_rgb(4294967295, 1, &Vec::new()), "P3\n4294967295 1\n255\n");
}
