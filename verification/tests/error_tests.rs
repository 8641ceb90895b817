use rayforge::{AppError, ConfigError};

#[test]
fn config_error_messages() {
    let e = ConfigError::FileNotFound("config.env".to_string());
    assert_eq!(e.message(), "Configuration file 'config.env' not found");
    let e = ConfigError::KeyNotFound("vfov".to_string());
    assert_eq!(e.message(), "Configuration key 'vfov' not found");
    let e = ConfigError::ParseU32("x".parse::<u32>().unwrap_err());
    assert_eq!(e.message(), "Failed to parse integer: invalid digit found in string");
    let e = ConfigError::ParseBool("x".parse::<bool>().unwrap_err());
    assert_eq!(e.message(), "Failed to parse boolean: provided string was not `true` or `false`");
    let e = ConfigError::ParseF64("x".parse::<f64>().unwrap_err());
    assert_eq!(e.message(), "Failed to parse float: invalid float literal");
    let e = ConfigError::Io(std::io::Error::new(std::io::ErrorKind::Other, "disk gone"));
    assert_eq!(e.message(), "I/O error reading config: disk gone");
}

#[test]
fn app_error_messages() {
    let e = AppError::Config(ConfigError::KeyNotFound("k".to_string()));
    assert_eq!(e.message(), "[Config Failure] Configuration key 'k' not found");
    let e = AppError::Io(std::io::Error::new(std::io::ErrorKind::Other, "full"));
    assert_eq!(e.message(), "[I/O Failure] full");
    let e = AppError::Thread(std::io::Error::new(std::io::ErrorKind::Other, "boom"));
    assert_eq!(e.message(), "[Thread Failure] A rendering thread panicked boom");
}

#[test]
fn conversions_pick_the_matching_variant() {
    let io = std::io::Error::new(std::io::ErrorKind::Other, "x");
    assert!(matches!(AppError::from(io), AppError::Io(_)));
    let cfg = ConfigError::KeyNotFound("k".to_string());
    assert!(matches!(AppError::from(cfg), AppError::Config(ConfigError::KeyNotFound(_))));
    let io = std::io::Error::new(std::io::ErrorKind::Other, "x");
    assert!(matches!(ConfigError::from(io), ConfigError::Io(_)));
    assert!(matches!(ConfigError::from("x".parse::<u64>().unwrap_err()), ConfigError::ParseU32(_)));
    assert!(matches!(ConfigError::from("x".parse::<bool>().unwrap_err()), ConfigError::ParseBool(_)));
    assert!(matches!(ConfigError::from("x".parse::<f64>().unwrap_err()), ConfigError::ParseF64(_)));
}
