use raytracer::args::{Args, USAGE};

fn run(args: &[&str]) -> Result<Args, String> {
    let args: Vec<String> = args.iter().map(|s| s.to_string()).collect();
    let numeric: Vec<bool> = args.iter().map(|a| a.parse::<f64>().is_ok()).collect();
    Args::parse(&args, &numeric)
}

#[test]
fn parse_config_only() {
    let a = run(&["raytracer", "scene.toml"]).unwrap();
    assert_eq!(a.config, "scene.toml");
    assert_eq!(a.output, None);
    assert_eq!(a.width, None);
    assert_eq!(a.height, None);
    assert_eq!(a.samples_per_pixel, None);
    assert_eq!(a.variance_threshold, None);
}

#[test]
fn parse_all_options() {
    let a = run(&[
        "raytracer",
        "-o",
        "out.ppm",
        "--width",
        "400",
        "--height",
        "300",
        "scene.toml",
        "--samples",
        "32",
        "--variance-threshold",
        "0.005",
    ])
    .unwrap();
    assert_eq!(a.config, "scene.toml");
    assert_eq!(a.output.as_deref(), Some("out.ppm"));
    assert_eq!(a.width, Some(400));
    assert_eq!(a.height, Some(300));
    assert_eq!(a.samples_per_pixel, Some(32));
    assert_eq!(a.variance_threshold.as_deref(), Some("0.005"));
}

#[test]
fn parse_long_output_option() {
    let a = run(&["raytracer", "scene.toml", "--output", "x.ppm"]).unwrap();
    assert_eq!(a.output.as_deref(), Some("x.ppm"));
}

#[test]
fn parse_help_and_no_arguments() {
    assert_eq!(run(&["raytracer"]).unwrap_err(), USAGE);
    assert_eq!(run(&["raytracer", "-h"]).unwrap_err(), USAGE);
    assert_eq!(run(&["raytracer", "a.toml", "--help"]).unwrap_err(), USAGE);
    assert_eq!(Args::help(), USAGE);
}

#[test]
fn parse_errors() {
    assert_eq!(run(&["raytracer", "a.toml", "--width"]).unwrap_err(), "--width requires a value");
    assert_eq!(run(&["raytracer", "-o"]).unwrap_err(), "-o requires a value");
    assert_eq!(run(&["raytracer", "--width", "abc"]).unwrap_err(), "Invalid width: abc");
    assert_eq!(run(&["raytracer", "--height", "-1"]).unwrap_err(), "Invalid height: -1");
    assert_eq!(run(&["raytracer", "--samples", "1.5"]).unwrap_err(), "Invalid samples: 1.5");
    assert_eq!(
        run(&["raytracer", "--variance-threshold", "low"]).unwrap_err(),
        "Invalid variance threshold: low"
    );
    assert_eq!(run(&["raytracer", "--fast"]).unwrap_err(), "Unknown option: --fast");
    assert_eq!(run(&["raytracer", "a.toml", "b.toml"]).unwrap_err(), "Multiple config files specified");
    assert_eq!(run(&["raytracer", "--width", "3"]).unwrap_err(), "Config file is required");
}

#[test]
fn parse_first_error_wins() {
    assert_eq!(
        run(&["raytracer", "--variance-threshold", "x", "--width", "y"]).unwrap_err(),
        "Invalid variance threshold: x"
    );
}

#[test]
fn help_text_starts_with_usage() {
    assert!(USAGE.starts_with("Usage: raytracer [OPTIONS] <CONFIG>"));
}
