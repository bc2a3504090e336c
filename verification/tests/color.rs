use raytracer::color::write_color;

fn line(rgb: (u8, u8, u8)) -> String {
    let mut out = Vec::new();
    write_color(&mut out, rgb);
    String::from_utf8(out).unwrap()
}

#[test]
fn black_is_three_zeros() {
    assert_eq!(line((0, 0, 0)), "0 0 0\n");
}

#[test]
fn channels_of_every_width() {
    assert_eq!(line((255, 128, 7)), "255 128 7\n");
    assert_eq!(line((9, 10, 99)), "9 10 99\n");
    assert_eq!(line((100, 101, 200)), "100 101 200\n");
}

#[test]
fn lines_are_appended() {
    let mut out = b"255\n".to_vec();
    write_color(&mut out, (1, 2, 3));
    write_color(&mut out, (40, 50, 60));
    assert_eq!(out, b"255\n1 2 3\n40 50 60\n".to_vec());
}

#[test]
fn every_channel_value_is_written_as_the_number_reads() {
    for n in 0..=255u8 {
        assert_eq!(line((n, 0, n)), format!("{n} 0 {n}\n"));
    }
}
