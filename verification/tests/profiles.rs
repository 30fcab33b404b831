use crosshair::{profile_name, profile_names_from, valid_profile_name};

#[test]
fn profile_names_are_letters_digits_dash_underscore() {
    assert!(valid_profile_name("Competitive"));
    assert!(valid_profile_name("a-b_9"));
    assert!(!valid_profile_name(""));
    assert!(!valid_profile_name("../config"));
    assert!(!valid_profile_name("a b"));
    assert!(!valid_profile_name("é"));
}

#[test]
fn typed_profile_names_are_trimmed() {
    assert_eq!(profile_name("  Comp \t"), Some(String::from("Comp")));
    assert_eq!(profile_name("\u{3000}x\u{2028}"), Some(String::from("x")));
    assert_eq!(profile_name("   "), None);
    assert_eq!(profile_name(" a/b "), None);
}

#[test]
fn profile_files_are_listed_by_lower_case_name() {
    let files = vec![
        String::from("beta.config"),
        String::from("Alpha.config"),
        String::from(".config"),
        String::from("notes.txt"),
        String::from("alpha.config"),
        String::from("x.y.config"),
        String::from("config"),
        String::from("gamma.config.bak"),
    ];
    assert_eq!(
        profile_names_from(&files),
        vec![
            String::from("Alpha"),
            String::from("alpha"),
            String::from("beta"),
            String::from("x.y"),
        ]
    );
}
