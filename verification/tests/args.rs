use fcpy::args::CliArgs;

#[test]
fn test_default_args() {
    let args = CliArgs::parse_from(&["fcpy", "path"]).unwrap();
    assert_eq!(args.paths, vec!["path"]);
    assert!(args.output.is_none());
    assert!(args.ignore.is_empty());
}

#[test]
fn test_multiple_paths() {
    let args = CliArgs::parse_from(&["fcpy", "path1", "path2"]).unwrap();
    assert_eq!(args.paths, vec!["path1", "path2"]);
}

#[test]
fn test_output_flag_with_value() {
    let args = CliArgs::parse_from(&["fcpy", "path", "-o", "output.txt"]).unwrap();
    assert_eq!(args.output, Some("output.txt".to_string()));
}

#[test]
fn test_output_flag_without_value() {
    let args = CliArgs::parse_from(&["fcpy", "path", "-o"]).unwrap();
    assert_eq!(args.output, Some("paste.txt".to_string()));
}

#[test]
fn args_test_ignore_patterns() {
    let args = CliArgs::parse_from(&["fcpy", "path", "-i", "*.log", "*.tmp"]).unwrap();
    assert_eq!(args.ignore, vec!["*.log", "*.tmp"]);
}

#[test]
fn long_flags_are_understood() {
    let args =
        CliArgs::parse_from(&["fcpy", "a", "--ignore", "target", "--output", "out.txt"]).unwrap();
    assert_eq!(args.paths, vec!["a"]);
    assert_eq!(args.ignore, vec!["target"]);
    assert_eq!(args.output, Some("out.txt".to_string()));
}

#[test]
fn missing_paths_are_an_error() {
    let err = CliArgs::parse_from(&["fcpy"]).unwrap_err();
    assert!(err.is_error);
    assert!(!err.message.is_empty());
}

#[test]
fn unknown_flag_is_an_error() {
    let err = CliArgs::parse_from(&["fcpy", "path", "--nope"]).unwrap_err();
    assert!(err.is_error);
}

#[test]
fn help_is_no_error() {
    let err = CliArgs::parse_from(&["fcpy", "--help"]).unwrap_err();
    assert!(!err.is_error);
    assert!(err.message.contains("--ignore"));
    assert!(err.message.contains("PATTERN"));
    assert!(err.message.contains("FILE"));
}

#[test]
fn version_is_no_error() {
    let err = CliArgs::parse_from(&["fcpy", "--version"]).unwrap_err();
    assert!(!err.is_error);
    assert!(err.message.contains("fcpy"));
}
