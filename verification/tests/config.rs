use fcpy::config::{
    build_ignore_set, clean, contains_char, default_ignore_globs, expand_patterns,
    push_pattern_rules, ConfigError,
};

#[test]
fn test_build_ignore_set() -> Result<(), ConfigError> {
    // Built-in rules
    let default_set = build_ignore_set(&[])?;
    assert!(default_set.is_match("file.exe"));
    assert!(default_set.is_match("path/to/file.jpg"));
    assert!(!default_set.is_match("file.txt"));

    // User patterns
    let custom_set = build_ignore_set(&["*.txt".to_string()])?;
    assert!(custom_set.is_match("file.txt"));
    assert!(custom_set.is_match("path/to/file.txt"));
    assert!(custom_set.is_match("file.exe"));

    // Directory names
    let dir_set = build_ignore_set(&["node_modules".to_string()])?;
    assert!(dir_set.is_match("node_modules"));
    assert!(dir_set.is_match("path/to/node_modules"));
    assert!(dir_set.is_match("node_modules/file.txt"));

    Ok(())
}

#[test]
fn test_build_ignore_set_invalid_pattern() {
    let result = build_ignore_set(&["[".to_string()]);
    assert!(result.is_err());
}

#[test]
fn invalid_pattern_is_named_in_the_error() {
    let err = build_ignore_set(&["ok".to_string(), " [ ".to_string()]).unwrap_err();
    match &err {
        ConfigError::InvalidGlobPattern { pattern, message } => {
            assert_eq!(pattern.as_deref(), Some("["));
            assert!(message.contains("["));
        }
    }
    assert!(err.message().starts_with("Invalid glob pattern: "));
    assert!(err.message().contains("error parsing glob '['"));
}

#[test]
fn literal_name_matches_itself_and_its_subtree() {
    let set = build_ignore_set(&["target".to_string()]).unwrap();
    assert!(set.is_match("target"));
    assert!(set.is_match("path/to/target"));
    assert!(set.is_match("target/file.txt"));
    assert!(set.is_match("path/target/deep/file.txt"));
    assert!(!set.is_match("targets"));
    assert!(!set.is_match("src/main.rs"));
}

#[test]
fn default_rules_match_binary_extensions_only() {
    let set = build_ignore_set(&[]).unwrap();
    assert!(set.is_match("file.exe"));
    assert!(set.is_match("a/b/image.jpg"));
    assert!(!set.is_match("file.txt"));
}

#[test]
fn same_patterns_give_the_same_answers() {
    let patterns = vec!["*.log".to_string(), "build/".to_string()];
    let a = build_ignore_set(&patterns).unwrap();
    let b = build_ignore_set(&patterns).unwrap();
    for path in ["x.log", "build", "build/out.txt", "a/build/b", "src/lib.rs", "a.exe", ""] {
        assert_eq!(a.is_match(path), b.is_match(path));
    }
    assert!(a.is_match("x.log"));
    assert!(a.is_match("a/build/b"));
    assert!(!a.is_match("src/lib.rs"));
}

#[test]
fn there_are_forty_nine_default_rules() {
    let defaults = default_ignore_globs();
    assert_eq!(defaults.len(), 49);
    assert_eq!(defaults[0], "*.exe");
    assert_eq!(defaults[11], "*.tar*");
    assert_eq!(defaults[48], "*.cab");
}

#[test]
fn clean_trims_then_strips_one_separator() {
    assert_eq!(clean("target"), "target");
    assert_eq!(clean("  target/ \n"), "target");
    assert_eq!(clean("target//"), "target/");
    assert_eq!(clean("a /"), "a ");
    assert_eq!(clean("/"), "");
    assert_eq!(clean(" \t "), "");
    assert_eq!(clean(""), "");
    assert_eq!(clean("\u{3000}x\u{a0}"), "x");
}

#[test]
fn contains_char_finds_characters() {
    assert!(contains_char("a/b", '/'));
    assert!(!contains_char("ab", '/'));
    assert!(contains_char("é*", '*'));
    assert!(!contains_char("", '*'));
}

#[test]
fn pattern_rules_by_shape() {
    let mut rules: Vec<String> = vec!["first".to_string()];
    push_pattern_rules(&mut rules, "  ");
    assert_eq!(rules, vec!["first"]);
    push_pattern_rules(&mut rules, "src/gen/");
    assert_eq!(rules, vec!["first", "src/gen"]);

    let mut wild: Vec<String> = Vec::new();
    push_pattern_rules(&mut wild, "*.log");
    assert_eq!(wild, vec!["*.log", "**/*.log"]);
    push_pattern_rules(&mut wild, "file?");
    push_pattern_rules(&mut wild, "[ab]");
    assert_eq!(wild, vec!["*.log", "**/*.log", "file?", "**/file?", "[ab]", "**/[ab]"]);

    let mut literal: Vec<String> = Vec::new();
    push_pattern_rules(&mut literal, " target/ ");
    assert_eq!(literal, vec!["target", "**/target", "**/target/**"]);
}

#[test]
fn expanded_rules_start_with_the_defaults() {
    let rules = expand_patterns(&["".to_string(), "a/b".to_string(), "node_modules".to_string()]);
    assert_eq!(rules.len(), 98 + 1 + 3);
    assert_eq!(rules[0], "*.exe");
    assert_eq!(rules[1], "**/*.exe");
    assert_eq!(rules[22], "*.tar*");
    assert_eq!(rules[23], "**/*.tar*");
    assert_eq!(rules[96], "*.cab");
    assert_eq!(rules[97], "**/*.cab");
    assert_eq!(rules[98], "a/b");
    assert_eq!(rules[99], "node_modules");
    assert_eq!(rules[100], "**/node_modules");
    assert_eq!(rules[101], "**/node_modules/**");
    assert_eq!(expand_patterns(&[]).len(), 98);
}

#[test]
fn wildcards_stay_within_a_component() {
    let m = build_ignore_set(&["docs/*.md".to_string()]).unwrap();
    assert!(m.is_match("docs/a.md"));
    assert!(!m.is_match("docs/x/a.md"));
    assert!(!m.is_match("x/docs/a.md"));
    let q = build_ignore_set(&["a?c/x".to_string()]).unwrap();
    assert!(q.is_match("abc/x"));
    assert!(!q.is_match("a/c/x"));
    let deep = build_ignore_set(&["src/**/gen".to_string()]).unwrap();
    assert!(deep.is_match("src/gen"));
    assert!(deep.is_match("src/a/b/gen"));
    assert!(!deep.is_match("src/a/b/gen.rs"));
    let class = build_ignore_set(&["log[0-9]".to_string()]).unwrap();
    assert!(class.is_match("log1"));
    assert!(class.is_match("var/log7"));
    assert!(!class.is_match("logs"));
}

#[test]
fn built_in_rules_match_at_any_depth() {
    let set = build_ignore_set(&[]).unwrap();
    assert!(set.is_match("run.exe"));
    assert!(set.is_match("a/b/c/archive.tar.gz"));
    assert!(set.is_match("deck.pptx"));
    assert!(!set.is_match("a.exe/readme.txt"));
    assert!(!set.is_match("notes.md"));
}
