use raytracer::ppm_image::{Pixel, PpmImage, PpmImageType};
use raytracer::renderer::{
    calculate_single_image_line, calculate_single_pixel, viewport_span, write_lines,
};
use raytracer::scanline::Line;

/// A stream of numbers in `[0, 1)` that follows from its seed alone.
struct Stream(u64);

impl Stream {
    fn next(&mut self) -> f64 {
        self.0 = self
            .0
            .wrapping_mul(6364136223846793005)
            .wrapping_add(1442695040888963407);
        (self.0 >> 11) as f64 / (1u64 << 53) as f64
    }
}

/// The colours of scanline `j`, each the sum of `samples` draws from the
/// stream that belongs to that scanline.
fn scanline(j: usize, width: usize, samples: usize) -> Line<[f64; 3]> {
    let mut stream = Stream(977 + j as u64);
    calculate_single_image_line(j, width, |_| {
        calculate_single_pixel(samples, [0.0, 0.0, 0.0], |sum: [f64; 3]| {
            [sum[0] + stream.next(), sum[1] + stream.next(), sum[2] + stream.next()]
        })
    })
}

fn tone(color: [f64; 3], samples: usize) -> Pixel {
    let channel = |c: f64| (256.0 * (c / samples as f64).sqrt().min(0.999)) as u8;
    (channel(color[0]), channel(color[1]), channel(color[2]))
}

#[test]
fn pixel_without_samples_is_black() {
    let sum = calculate_single_pixel(0, 1.5, |_: f64| panic!("no sample is to be drawn"));
    assert_eq!(sum, 1.5);
}

#[test]
fn pixel_sums_its_samples_in_the_order_drawn() {
    let mut next = 0.0;
    let sum = calculate_single_pixel(4, 0.0, |sum: f64| {
        next += 1.0;
        sum * 10.0 + next
    });
    assert_eq!(sum, 1234.0);
    let mut drawn = 0;
    let sum = calculate_single_pixel(100, 0.0, |sum: f64| {
        drawn += 1;
        sum + 0.25
    });
    assert_eq!(drawn, 100);
    assert_eq!(sum, 25.0);
}

#[test]
fn line_holds_one_value_for_each_column() {
    let line = calculate_single_image_line(7, 5, |i| i * i);
    assert_eq!(line, (7, vec![0, 1, 4, 9, 16]));
    let line = calculate_single_image_line(0, 0, |_| -> u8 { panic!("there is no column") });
    assert_eq!(line, (0, Vec::new()));
}

#[test]
fn line_asks_for_the_columns_from_left_to_right() {
    let mut asked = Vec::new();
    let line = calculate_single_image_line(3, 4, |i| {
        asked.push(i);
        0.5 * i as f64
    });
    assert_eq!(asked, vec![0, 1, 2, 3]);
    assert_eq!(line, (3, vec![0.0, 0.5, 1.0, 1.5]));
}

#[test]
fn write_lines_puts_each_scanline_in_its_row() {
    let (width, height, samples) = (6, 11, 4);
    // the workers finish in a scrambled order
    let lines: Vec<Line<[f64; 3]>> = (0..height)
        .map(|k| scanline((k * 4 + 7) % height, width, samples))
        .collect();
    let mut image = PpmImage::new(width, height, PpmImageType::PlainPpm);
    assert!(write_lines(&mut image, lines, |c| tone(c, samples)));
    for j in 0..height {
        // a single-threaded reference with the same seed
        let reference: Vec<Pixel> = scanline(j, width, samples)
            .1
            .into_iter()
            .map(|c| tone(c, samples))
            .collect();
        let start = (height - 1 - j) * width;
        assert_eq!(&image.pixels()[start..start + width], &reference[..]);
    }
}

#[test]
fn write_lines_twice_gives_the_same_file() {
    let (width, height, samples) = (5, 4, 3);
    let render = |order: &[usize]| {
        let lines: Vec<Line<[f64; 3]>> =
            order.iter().map(|j| scanline(*j, width, samples)).collect();
        let mut image = PpmImage::new(width, height, PpmImageType::PlainPpm);
        assert!(write_lines(&mut image, lines, |c| tone(c, samples)));
        image.encode()
    };
    let first = render(&[0, 1, 2, 3]);
    assert_eq!(render(&[0, 1, 2, 3]), first);
    assert_eq!(render(&[3, 1, 0, 2]), first);
    assert_eq!(render(&[2, 3, 1, 0]), first);
    assert!(first.starts_with(b"P3\n5 4\n255\n"));
}

#[test]
fn write_lines_refuses_a_frame_with_a_row_missing() {
    let mut image = PpmImage::new(2, 3, PpmImageType::PlainPpm);
    image.set_value(0, (1, 1, 1));
    let lines = vec![(0, vec![5u8, 5]), (2, vec![6u8, 6])];
    assert!(!write_lines(&mut image, lines, |v| (v, v, v)));
    assert_eq!(image.pixels()[0], (1, 1, 1));
    assert!(image.pixels()[1..].iter().all(|p| *p == (0, 0, 0)));
}

#[test]
fn write_lines_refuses_a_row_twice_or_out_of_place() {
    let mut image = PpmImage::new(1, 2, PpmImageType::PlainPpm);
    assert!(!write_lines(&mut image, vec![(0, vec![5u8]), (0, vec![6u8])], |v| (v, v, v)));
    assert!(!write_lines(&mut image, vec![(0, vec![5u8]), (2, vec![6u8])], |v| (v, v, v)));
    assert!(!write_lines(&mut image, vec![(0, vec![5u8]), (1, vec![6u8, 7u8])], |v| (v, v, v)));
    assert!(!write_lines(
        &mut image,
        vec![(0, vec![5u8]), (1, vec![6u8]), (1, vec![6u8])],
        |v| (v, v, v)
    ));
    assert!(image.pixels().iter().all(|p| *p == (0, 0, 0)));
    assert!(write_lines(&mut image, vec![(0, vec![5u8]), (1, vec![6u8])], |v| (v, v, v)));
    assert_eq!(image.pixels(), &vec![(6, 6, 6), (5, 5, 5)]);
}

#[test]
fn write_lines_of_an_empty_image_stores_nothing() {
    let mut image = PpmImage::new(3, 0, PpmImageType::PlainPpm);
    assert!(write_lines(&mut image, Vec::<Line<u8>>::new(), |v| (v, v, v)));
    assert!(image.pixels().is_empty());
}

#[test]
fn viewport_span_is_one_less_than_the_pixels() {
    assert_eq!(viewport_span(400), 399);
    assert_eq!(viewport_span(2), 1);
    assert_eq!(viewport_span(usize::MAX), usize::MAX - 1);
}

#[test]
fn viewport_span_is_never_zero() {
    assert_eq!(viewport_span(1), 1);
    assert_eq!(viewport_span(0), 1);
}
