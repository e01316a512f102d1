use ray_kernel::canvas::{canvas, pixel_at, write_pixel};
use ray_kernel::color::{color, Color};
use ray_kernel::ppm::canvas_to_ppm;

fn rgb(red: f64, green: f64, blue: f64) -> Color {
    color(red.to_bits(), green.to_bits(), blue.to_bits())
}

#[test]
fn test_colors() {
    let c = rgb(-0.5, 0.4, 1.7);
    assert_eq!(f64::from_bits(c.red), -0.5);
    assert_eq!(f64::from_bits(c.green), 0.4);
    assert_eq!(f64::from_bits(c.blue), 1.7);
}

#[test]
fn test_canvas() {
    let c = canvas(10, 20);
    assert_eq!(c.width, 10);
    assert_eq!(c.height, 20);
    for x in 0..c.pixels.len() {
        for y in 0..c.pixels[x].len() {
            assert_eq!(c.pixels[x as usize][y as usize], rgb(0.0, 0.0, 0.0));
        }
    }
}

#[test]
fn test_writing_pixels() {
    let mut c = canvas(10, 20);
    let red = rgb(1.0, 0.0, 0.0);
    write_pixel(&mut c, 2, 3, red);
    assert_eq!(pixel_at(&mut c, 2, 3), red);
}

#[test]
fn test_costructing_the_ppm_header() {
    let c = canvas(5, 3);
    let ppm = canvas_to_ppm(c);
    let want = "P3\n5 3\n255\n";
    let mut first_four = String::new();
    for line in ppm.lines().take(3) {
        first_four.push_str(line);
        first_four.push('\n');
    }

    assert_eq!(first_four, want)
}

#[test]
fn test_ppm_pixel_data() {
    let mut c = canvas(5, 3);
    let c1 = rgb(1.5, 0.0, 0.0);
    let c2 = rgb(0.0, 0.5, 0.0);
    let c3 = rgb(-0.5, 0.0, 1.0);
    write_pixel(&mut c, 0, 0, c1);
    write_pixel(&mut c, 2, 1, c2);
    write_pixel(&mut c, 4, 2, c3);
    let ppm = canvas_to_ppm(c);
    let mut four_to_six = String::new();
    let want = "255 0 0 0 0 0 0 0 0 0 0 0 0 0 0\n\
0 0 0 0 0 0 0 128 0 0 0 0 0 0 0\n\
0 0 0 0 0 0 0 0 0 0 0 0 0 0 255\n";
    for line in ppm.lines().skip(3).take(4) {
        four_to_six.push_str(line);
        four_to_six.push('\n');
    }
    assert_eq!(four_to_six, want)
}

#[test]
fn test_splitting_long_lines_in_ppm() {
    let mut c = canvas(10, 2);
    let col = rgb(1.0, 0.8, 0.6);
    for x in 0..c.pixels.len() {
        for y in 0..c.pixels[x].len() {
            write_pixel(&mut c, x as i64, y as i64, col);
        }
    }
    let want = "255 204 153 255 204 153 255 204 153 255 204 153 255 204 153 255 204\n\
153 255 204 153 255 204 153 255 204 153 255 204 153\n\
255 204 153 255 204 153 255 204 153 255 204 153 255 204 153 255 204\n\
153 255 204 153 255 204 153 255 204 153 255 204 153\n";
    let ppm = canvas_to_ppm(c);
    let mut four_to_seven = String::new();
    for line in ppm.lines().skip(3).take(4) {
        four_to_seven.push_str(line);
        four_to_seven.push('\n');
    }
    assert_eq!(four_to_seven, want)
}

#[test]
fn no_line_of_the_text_is_longer_than_seventy_characters() {
    let mut c = canvas(40, 3);
    for x in 0..40 {
        for y in 0..3 {
            let shade = ((x * 7 + y * 13) % 11) as f64 / 10.0;
            write_pixel(&mut c, x, y, rgb(shade, 1.0 - shade, 0.004 * x as f64));
        }
    }
    let ppm = canvas_to_ppm(c);
    assert!(ppm.ends_with('\n'));
    let mut values = 0;
    for line in ppm.lines().skip(3) {
        assert!(line.len() <= 70);
        assert!(!line.is_empty());
        assert!(!line.starts_with(' ') && !line.ends_with(' '));
        values += line.split(' ').count();
    }
    assert_eq!(values, 40 * 3 * 3);
}

#[test]
fn a_line_is_broken_only_where_the_next_value_does_not_fit() {
    let mut c = canvas(24, 1);
    for x in 0..24 {
        write_pixel(&mut c, x, 0, rgb(1.0, 1.0, 1.0));
    }
    let ppm = canvas_to_ppm(c);
    let lines: Vec<&str> = ppm.lines().skip(3).collect();
    assert_eq!(lines.len(), 5);
    assert_eq!(lines[0].len(), 67);
    assert_eq!(lines[4], "255 255 255 255");
    let mut c = canvas(23, 1);
    for x in 0..23 {
        write_pixel(&mut c, x, 0, rgb(0.0, 0.0, 0.0));
    }
    let ppm = canvas_to_ppm(c);
    let lines: Vec<&str> = ppm.lines().skip(3).collect();
    assert_eq!(lines.len(), 2);
    assert_eq!(lines[0].len(), 69);
    assert_eq!(lines[1].len(), 67);
}

#[test]
fn a_canvas_without_cells_has_only_its_header_and_empty_rows() {
    assert_eq!(canvas_to_ppm(canvas(0, 0)), "P3\n0 0\n255\n");
    assert_eq!(canvas_to_ppm(canvas(0, 2)), "P3\n0 2\n255\n\n\n");
    assert_eq!(canvas_to_ppm(canvas(2, 0)), "P3\n2 0\n255\n");
    assert_eq!(canvas_to_ppm(canvas(-3, 1)), "P3\n-3 1\n255\n\n");
    let c = canvas(-3, -4);
    assert_eq!(c.pixels.len(), 0);
    assert_eq!(canvas_to_ppm(c), "P3\n-3 -4\n255\n");
    assert_eq!(
        canvas_to_ppm(canvas(1, 1)),
        "P3\n1 1\n255\n0 0 0\n"
    );
}

#[test]
fn write_pixel_changes_one_pixel_only() {
    let mut c = canvas(3, 2);
    let red = rgb(1.0, 0.0, 0.0);
    write_pixel(&mut c, 2, 1, red);
    for x in 0..3 {
        for y in 0..2 {
            let want = if x == 2 && y == 1 { red } else { rgb(0.0, 0.0, 0.0) };
            assert_eq!(pixel_at(&mut c, x, y), want);
        }
    }
    assert_eq!(c.width, 3);
    assert_eq!(c.height, 2);
}
