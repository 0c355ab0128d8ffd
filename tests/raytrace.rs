use mulambda::raytrace::{encode_ppm, progress_report, ProgressReport, RenderingParams, RGB};

/// The encoded file, split into its magic number and the text after it.
fn encode(params: &RenderingParams, image: &Vec<Vec<RGB>>) -> (Vec<u8>, String) {
    let bytes = encode_ppm(params, image);
    assert!(bytes.len() >= 2);
    (bytes[..2].to_vec(), String::from_utf8(bytes[2..].to_vec()).unwrap())
}

const MAGIC: [u8; 2] = [b'P', b'3'];

#[test]
fn ppm_writes_rows_bottom_index_first() {
    let params = RenderingParams { samples_per_pixel: 10, image_height: 2, image_width: 2 };
    let image: Vec<Vec<RGB>> = vec![vec![(1, 2, 3), (4, 5, 6)], vec![(255, 0, 10), (0, 0, 0)]];
    let (magic, text) = encode(&params, &image);
    assert_eq!(magic, MAGIC);
    assert_eq!(text, "\n2 2\n255\n255 0 10\n0 0 0\n1 2 3\n4 5 6\n");
}

#[test]
fn ppm_of_an_empty_image_is_its_header() {
    let params = RenderingParams { samples_per_pixel: 1, image_height: 0, image_width: 400 };
    let (magic, text) = encode(&params, &vec![]);
    assert_eq!(magic, MAGIC);
    assert_eq!(text, "\n400 0\n255\n");
}

#[test]
fn ppm_writes_any_channel_value() {
    let params = RenderingParams { samples_per_pixel: 1, image_height: 1, image_width: 1 };
    let image: Vec<Vec<RGB>> = vec![vec![(-7, i32::MIN, i32::MAX)]];
    let (magic, text) = encode(&params, &image);
    assert_eq!(magic, MAGIC);
    assert_eq!(text, "\n1 1\n255\n-7 -2147483648 2147483647\n");
}

#[test]
fn progress_done_when_nothing_remains() {
    assert_eq!(progress_report(0, 100, 0, 0), ProgressReport::Done);
    assert_eq!(progress_report(0, 100, 5000, 10), ProgressReport::Done);
}

#[test]
fn progress_reports_after_the_interval() {
    assert_eq!(progress_report(25, 100, 1000, 600), ProgressReport::Remaining(25));
    assert_eq!(progress_report(1, 3, 301, 0), ProgressReport::Remaining(33));
    assert_eq!(progress_report(3, 3, 400, 0), ProgressReport::Remaining(100));
}

#[test]
fn progress_is_silent_too_soon() {
    assert_eq!(progress_report(25, 100, 900, 600), ProgressReport::Silent);
    assert_eq!(progress_report(25, 100, 300, 0), ProgressReport::Silent);
    assert_eq!(progress_report(25, 100, 100, 600), ProgressReport::Silent);
}
