//! The camera settings that are whole numbers or text, with their defaults
//! and how a configuration overrides them key by key.

use vstd::prelude::*;
use vstd::string::StringExecFns;
use crate::config::Config;
use crate::text::{parses_within, spec_parse_unsigned};

verus! {

/// The render settings of a camera other than its floating-point geometry.
pub struct CameraSettings {
    pub output_name: String,
    pub image_width_pixels: usize,
    pub image_height_pixels: usize,
    pub samples_per_pixel: usize,
    pub max_depth: usize,
    pub num_threads: Option<usize>,
}

/// The value that `key` sets in `m` when it holds a number that fits in
/// `usize`.
pub open spec fn usize_setting(m: Map<Seq<char>, Seq<char>>, key: Seq<char>) -> Option<usize> {
    if m.contains_key(key) && parses_within(m[key], usize::MAX as nat) {
        Some(spec_parse_unsigned(m[key]).unwrap() as usize)
    } else {
        None
    }
}

/// The value that `key` sets in `m`, or `default`.
pub open spec fn usize_or(m: Map<Seq<char>, Seq<char>>, key: Seq<char>, default: usize) -> usize {
    match usize_setting(m, key) {
        Some(v) => v,
        None => default,
    }
}

impl Default for CameraSettings {
    /// Full HD into `render.ppm`, 100 samples per pixel, depth 50, and as
    /// many threads as the machine offers.
    fn default() -> (r: Self)
        ensures
            r.output_name@ == "render.ppm"@,
            r.image_width_pixels == 1920,
            r.image_height_pixels == 1080,
            r.samples_per_pixel == 100,
            r.max_depth == 50,
            r.num_threads is None,
    {
        CameraSettings {
            output_name: String::from_str("render.ppm"),
            image_width_pixels: 1920,
            image_height_pixels: 1080,
            samples_per_pixel: 100,
            max_depth: 50,
            num_threads: None,
        }
    }
}

impl CameraSettings {
    /// The defaults, each replaced by the configuration's value where its key
    /// is present and well formed; an absent or malformed key keeps the
    /// default.
    pub fn from_config(config: &Config) -> (r: Self)
        ensures
            r.image_width_pixels == usize_or(config@, "image_width_pixels"@, 1920),
            r.image_height_pixels == usize_or(config@, "image_height_pixels"@, 1080),
            r.output_name@ == (if config@.contains_key("output_name"@) {
                config@["output_name"@]
            } else {
                "render.ppm"@
            }),
            r.samples_per_pixel == usize_or(config@, "samples_per_pixel"@, 100),
            r.max_depth == usize_or(config@, "max_depth"@, 50),
            r.num_threads == usize_setting(config@, "num_threads"@),
    {
        let mut settings = CameraSettings::default();
        if let Ok(v) = config.get_usize("image_width_pixels") {
            settings.image_width_pixels = v;
        }
        if let Ok(v) = config.get_usize("image_height_pixels") {
            settings.image_height_pixels = v;
        }
        if let Ok(v) = config.get_string("output_name") {
            settings.output_name = v.clone();
        }
        if let Ok(v) = config.get_usize("samples_per_pixel") {
            settings.samples_per_pixel = v;
        }
        if let Ok(v) = config.get_usize("max_depth") {
            settings.max_depth = v;
        }
        if let Ok(v) = config.get_usize("num_threads") {
            settings.num_threads = Some(v);
        }
        settings
    }
}

/// A key that is present and holds a number fitting in `usize` sets exactly
/// that number, whatever the default; an absent or malformed key leaves the
/// default.
pub proof fn lemma_setting_overrides_default(m: Map<Seq<char>, Seq<char>>, key: Seq<char>, default: usize, n: nat)
    ensures
        m.contains_key(key) && spec_parse_unsigned(m[key]) == Some(n) && n <= usize::MAX
            ==> usize_or(m, key, default) == n && usize_setting(m, key) == Some(n as usize),
        !(m.contains_key(key) && parses_within(m[key], usize::MAX as nat)) ==> usize_or(
            m,
            key,
            default,
        ) == default && usize_setting(m, key) is None,
{
}

} // verus!
