use rayforge::settings::CameraSettings;
use rayforge::Config;

fn config_of(lines: &[&str]) -> Config {
    let lines: Vec<String> = lines.iter().map(|l| l.to_string()).collect();
    Config::from_lines(&lines)
}

#[test]
fn default_settings() {
    let s = CameraSettings::default();
    assert_eq!(s.output_name, "render.ppm");
    assert_eq!(s.image_width_pixels, 1920);
    assert_eq!(s.image_height_pixels, 1080);
    assert_eq!(s.samples_per_pixel, 100);
    assert_eq!(s.max_depth, 50);
    assert_eq!(s.num_threads, None);
}

#[test]
fn config_overrides_present_keys_only() {
    let config = config_of(&[
        "image_width_pixels = 640",
        "image_height_pixels = 480",
        "output_name = small.ppm",
        "num_threads = 4",
    ]);
    let s = CameraSettings::from_config(&config);
    assert_eq!(s.image_width_pixels, 640);
    assert_eq!(s.image_height_pixels, 480);
    assert_eq!(s.output_name, "small.ppm");
    assert_eq!(s.num_threads, Some(4));
    assert_eq!(s.samples_per_pixel, 100);
    assert_eq!(s.max_depth, 50);
}

#[test]
fn malformed_values_keep_the_defaults() {
    let config = config_of(&[
        "image_width_pixels = wide",
        "max_depth = -3",
        "samples_per_pixel = 12",
        "num_threads = ",
    ]);
    let s = CameraSettings::from_config(&config);
    assert_eq!(s.image_width_pixels, 1920);
    assert_eq!(s.max_depth, 50);
    assert_eq!(s.samples_per_pixel, 12);
    assert_eq!(s.num_threads, None);
}
