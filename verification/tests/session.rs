use raytracer::render::{
    batch_worker_count, divide_into_ranges, output_row, scanlines_remaining, worker_count,
    workers_for_batch, Pixel, ThreadedRenderer,
};

fn four_pixels() -> Vec<Pixel> {
    vec![
        (0, 0, [10, 20, 30]),
        (1, 0, [40, 50, 60]),
        (0, 1, [70, 80, 90]),
        (1, 1, [100, 110, 120]),
    ]
}

#[test]
fn a_new_session_is_idle_and_empty() {
    let renderer = ThreadedRenderer::default();
    assert!(!renderer.is_render_in_progress());
    assert_eq!(renderer.get_image_size(), [0, 0]);
    assert!(renderer.get_pixels().is_empty());
    assert_eq!(renderer.pixels_received(), 0);
    assert_eq!(renderer.threads_to_use, 1);
    assert!(renderer.is_render_finished());
}

#[test]
fn starting_clears_the_buffer() {
    let mut renderer = ThreadedRenderer::default();
    let workers = renderer.start_render(3, 2);
    assert_eq!(workers, Some(1));
    assert!(renderer.is_render_in_progress());
    assert!(!renderer.is_render_finished());
    assert_eq!(renderer.get_image_size(), [3, 2]);
    assert_eq!(renderer.get_pixels(), &[0u8; 24][..]);
}

#[test]
fn a_second_start_is_refused_while_rendering() {
    let mut renderer = ThreadedRenderer::default();
    assert!(renderer.start_render(2, 2).is_some());
    renderer.check_progress(&vec![(1, 1, [1, 2, 3])]);
    let before = renderer.get_pixels().to_vec();
    assert_eq!(renderer.start_render(5, 5), None);
    assert_eq!(renderer.get_image_size(), [2, 2]);
    assert_eq!(renderer.get_pixels(), &before[..]);
    assert_eq!(renderer.pixels_received(), 1);
    assert!(renderer.is_render_in_progress());
}

#[test]
fn pixels_land_at_their_offsets() {
    let mut renderer = ThreadedRenderer::default();
    renderer.start_render(2, 2);
    assert!(renderer.check_progress(&four_pixels()));
    assert_eq!(
        renderer.get_pixels(),
        &[10, 20, 30, 255, 40, 50, 60, 255, 70, 80, 90, 255, 100, 110, 120, 255][..]
    );
    assert_eq!(renderer.pixels_received(), 4);
}

#[test]
fn a_single_pixel_leaves_the_rest_untouched() {
    let mut renderer = ThreadedRenderer::default();
    renderer.start_render(3, 2);
    renderer.set_pixel(&(2, 1, [9, 8, 7]));
    let mut expected = [0u8; 24];
    expected[20..24].copy_from_slice(&[9, 8, 7, 255]);
    assert_eq!(renderer.get_pixels(), &expected[..]);
    assert_eq!(renderer.pixels_received(), 0);
}

#[test]
fn a_later_pixel_overwrites_an_earlier_one() {
    let mut renderer = ThreadedRenderer::default();
    renderer.start_render(1, 1);
    renderer.check_progress(&vec![(0, 0, [1, 1, 1]), (0, 0, [2, 3, 4])]);
    assert_eq!(renderer.get_pixels(), &[2, 3, 4, 255][..]);
    assert_eq!(renderer.pixels_received(), 2);
}

#[test]
fn no_new_pixels_is_no_progress() {
    let mut renderer = ThreadedRenderer::default();
    renderer.start_render(2, 2);
    assert!(!renderer.check_progress(&Vec::new()));
    assert_eq!(renderer.pixels_received(), 0);
    assert!(renderer.is_render_in_progress());
}

#[test]
fn the_render_ends_on_the_call_after_the_last_pixel() {
    let mut renderer = ThreadedRenderer::default();
    renderer.start_render(2, 2);
    let pixels = four_pixels();
    assert!(renderer.check_progress(&pixels[..3].to_vec()));
    assert!(!renderer.is_render_finished());
    assert!(renderer.check_progress(&pixels[3..].to_vec()));
    assert!(renderer.is_render_finished());
    assert!(renderer.is_render_in_progress());
    assert!(!renderer.check_progress(&Vec::new()));
    assert!(!renderer.is_render_in_progress());
    assert!(renderer.is_render_finished());
}

#[test]
fn a_finished_session_can_render_again() {
    let mut renderer = ThreadedRenderer::default();
    renderer.start_render(1, 1);
    renderer.check_progress(&vec![(0, 0, [5, 5, 5])]);
    renderer.check_progress(&Vec::new());
    assert!(renderer.start_render(2, 1).is_some());
    assert_eq!(renderer.pixels_received(), 0);
    assert_eq!(renderer.get_pixels(), &[0u8; 8][..]);
}

#[test]
fn an_empty_image_is_finished_at_once() {
    let mut renderer = ThreadedRenderer::default();
    assert!(renderer.start_render(0, 7).is_some());
    assert!(renderer.get_pixels().is_empty());
    assert!(renderer.is_render_finished());
    renderer.check_progress(&Vec::new());
    assert!(!renderer.is_render_in_progress());
}

#[test]
fn the_same_pixels_give_the_same_bytes() {
    let mut first = ThreadedRenderer::default();
    let mut second = ThreadedRenderer::default();
    first.start_render(2, 2);
    second.start_render(2, 2);
    first.check_progress(&four_pixels());
    second.check_progress(&four_pixels());
    assert_eq!(first.get_pixels(), second.get_pixels());
}

#[test]
fn the_order_of_distinct_pixels_does_not_matter() {
    let mut first = ThreadedRenderer::default();
    let mut second = ThreadedRenderer::default();
    first.start_render(2, 2);
    second.start_render(2, 2);
    let mut reversed = four_pixels();
    reversed.reverse();
    first.check_progress(&four_pixels());
    second.check_progress(&reversed);
    assert_eq!(first.get_pixels(), second.get_pixels());
}

#[test]
fn holds_tells_pixels_inside_from_pixels_outside() {
    let mut renderer = ThreadedRenderer::default();
    renderer.start_render(3, 2);
    assert!(renderer.holds(&(0, 0, [0, 0, 0])));
    assert!(renderer.holds(&(2, 1, [0, 0, 0])));
    assert!(!renderer.holds(&(0, 2, [0, 0, 0])));
    assert!(!renderer.holds(&(3, 1, [0, 0, 0])));
    assert!(!renderer.holds(&(u32::MAX, u32::MAX, [0, 0, 0])));
}

#[test]
fn workers_follow_the_request_within_the_machine() {
    assert_eq!(worker_count(0, 8), 1);
    assert_eq!(worker_count(1, 8), 1);
    assert_eq!(worker_count(5, 8), 5);
    assert_eq!(worker_count(8, 8), 8);
    assert_eq!(worker_count(9, 8), 8);
    assert_eq!(worker_count(usize::MAX, 1), 1);
}

#[test]
fn start_render_asks_for_at_least_one_worker() {
    let mut renderer = ThreadedRenderer::default();
    renderer.threads_to_use = 0;
    assert_eq!(renderer.start_render(1, 1), Some(1));
    let mut renderer = ThreadedRenderer::default();
    renderer.threads_to_use = 3;
    let workers = renderer.start_render(1, 1).unwrap();
    assert!((1..=3).contains(&workers));
    assert_eq!(renderer.threads_to_use, 3);
}

#[test]
fn pixels_taken_in_by_parts_give_the_same_buffer() {
    let mut at_once = ThreadedRenderer::default();
    let mut by_parts = ThreadedRenderer::default();
    at_once.start_render(2, 2);
    by_parts.start_render(2, 2);
    let mut pixels = four_pixels();
    pixels.push((0, 0, [200, 201, 202]));
    at_once.check_progress(&pixels);
    by_parts.check_progress(&pixels[..2].to_vec());
    by_parts.check_progress(&pixels[2..].to_vec());
    assert_eq!(at_once.get_pixels(), by_parts.get_pixels());
    assert_eq!(at_once.pixels_received(), by_parts.pixels_received());
    assert_eq!(&at_once.get_pixels()[..4], &[200, 201, 202, 255][..]);
}

#[test]
fn rows_are_counted_from_the_bottom() {
    assert_eq!(output_row(1, 0), 0);
    assert_eq!(output_row(225, 0), 224);
    assert_eq!(output_row(225, 224), 0);
    assert_eq!(output_row(225, 100), 124);
    assert_eq!(output_row(u32::MAX, 0), u32::MAX - 1);
}

#[test]
fn every_pixel_of_every_band_fits_and_the_render_finishes() {
    let (width, height) = (5u32, 7u32);
    let mut renderer = ThreadedRenderer::default();
    renderer.start_render(width, height);
    let mut seen = vec![false; (width * height) as usize];
    for band in divide_into_ranges(height, 3) {
        let mut sent: Vec<Pixel> = Vec::new();
        for j in band.rev() {
            for i in 0..width {
                let y = output_row(height, j);
                let pixel = (i, y, [i as u8, y as u8, j as u8]);
                assert!(renderer.holds(&pixel));
                assert!(!seen[(y * width + i) as usize]);
                seen[(y * width + i) as usize] = true;
                sent.push(pixel);
            }
        }
        assert!(!renderer.is_render_finished());
        renderer.check_progress(&sent);
    }
    assert!(seen.iter().all(|&s| s));
    assert!(renderer.is_render_finished());
    assert_eq!(renderer.pixels_received(), 35);
    let bytes = renderer.get_pixels();
    for y in 0..height {
        for x in 0..width {
            let at = ((y * width + x) * 4) as usize;
            assert_eq!(&bytes[at..at + 4], &[x as u8, y as u8, (height - 1 - y) as u8, 255][..]);
        }
    }
}

#[test]
fn a_line_is_reported_with_its_first_pixel() {
    assert_eq!(scanlines_remaining(4, 3, 0), Some(2));
    assert_eq!(scanlines_remaining(4, 3, 1), None);
    assert_eq!(scanlines_remaining(4, 3, 3), None);
    assert_eq!(scanlines_remaining(4, 3, 4), Some(1));
    assert_eq!(scanlines_remaining(4, 3, 8), Some(0));
    assert_eq!(scanlines_remaining(4, 3, 11), None);
    assert_eq!(scanlines_remaining(1, 5, 4), Some(0));
    assert_eq!(scanlines_remaining(400, 225, 400 * 100), Some(124));
}

#[test]
fn lines_count_down_over_a_whole_image() {
    let (width, height) = (7u32, 5u32);
    let mut reported = Vec::new();
    for i in 0..width * height {
        if let Some(lines) = scanlines_remaining(width, height, i) {
            reported.push(lines);
        }
    }
    assert_eq!(reported, vec![4, 3, 2, 1, 0]);
}

#[test]
fn a_batch_leaves_one_processor_free() {
    let workers = batch_worker_count();
    assert!(workers < usize::MAX);
}

#[test]
fn the_image_holds_the_buffer_and_the_size() {
    let mut renderer = ThreadedRenderer::default();
    renderer.start_render(2, 2);
    renderer.check_progress(&four_pixels()[..3]);
    let picture = renderer.get_image().expect("the buffer fits its image");
    assert_eq!(picture.image.width(), 2);
    assert_eq!(picture.image.height(), 2);
    assert_eq!(picture.image.get_pixel(1, 0).0, [40, 50, 60, 255]);
    assert_eq!(picture.image.get_pixel(0, 1).0, [70, 80, 90, 255]);
    assert_eq!(picture.image.get_pixel(1, 1).0, [0, 0, 0, 0]);
    assert_eq!(picture.image.into_raw(), renderer.get_pixels().to_vec());
}

#[test]
fn a_wide_image_keeps_width_and_height_apart() {
    let mut renderer = ThreadedRenderer::default();
    renderer.start_render(3, 1);
    renderer.check_progress(&[(2, 0, [1, 2, 3])]);
    let picture = renderer.get_image().unwrap();
    assert_eq!(picture.image.dimensions(), (3, 1));
    assert_eq!(picture.image.get_pixel(2, 0).0, [1, 2, 3, 255]);
}

#[test]
fn an_idle_session_has_an_empty_image() {
    let renderer = ThreadedRenderer::default();
    let picture = renderer.get_image().unwrap();
    assert_eq!(picture.image.dimensions(), (0, 0));
    assert!(picture.image.into_raw().is_empty());
}

#[test]
fn a_second_start_is_refused_whatever_the_size() {
    let mut renderer = ThreadedRenderer::default();
    assert!(renderer.start_render(2, 1).is_some());
    renderer.check_progress(&[(0, 0, [9, 9, 9])]);
    let before = renderer.get_pixels().to_vec();
    assert_eq!(renderer.start_render(u32::MAX, u32::MAX), None);
    assert_eq!(renderer.start_render(u32::MAX, 0), None);
    assert_eq!(renderer.get_pixels(), &before[..]);
    assert_eq!(renderer.get_image_size(), [2, 1]);
    assert_eq!(renderer.pixels_received(), 1);
    assert!(renderer.is_render_in_progress());
}

#[test]
fn an_image_without_rows_can_be_wide() {
    let mut renderer = ThreadedRenderer::default();
    assert!(renderer.start_render(1000, 0).is_some());
    let picture = renderer.get_image().expect("four bytes for a row of 1000 can be counted");
    assert_eq!(picture.image.dimensions(), (1000, 0));
    assert!(picture.image.into_raw().is_empty());
}

#[test]
fn a_batch_on_a_given_machine_leaves_one_processor_free() {
    assert_eq!(workers_for_batch(1), 0);
    assert_eq!(workers_for_batch(2), 1);
    assert_eq!(workers_for_batch(8), 7);
    assert_eq!(workers_for_batch(usize::MAX), usize::MAX - 1);
}
