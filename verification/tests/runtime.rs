use qtx::runtime::{contains_nul, Runtime, RuntimeError};

fn args(list: &[&str]) -> Vec<Vec<u8>> {
    list.iter().map(|s| s.as_bytes().to_vec()).collect()
}

#[test]
fn launch_appends_nul_to_each_argument() {
    let rt = Runtime::new();
    let launch = rt.launch(&args(&["widget-gallery", "--verbose"])).unwrap();
    assert_eq!(launch.argv, vec![b"widget-gallery\0".to_vec(), b"--verbose\0".to_vec()]);
    assert_eq!(launch.argc, 2);
    assert!(launch.style.is_none());
    assert!(launch.organization_name.is_none());
    assert!(launch.application_name.is_none());
}

#[test]
fn launch_keeps_empty_argument() {
    let launch = Runtime::new().launch(&args(&["a", ""])).unwrap();
    assert_eq!(launch.argv, vec![b"a\0".to_vec(), b"\0".to_vec()]);
}

#[test]
fn launch_reports_first_argument_with_nul() {
    let bad = vec![b"ok".to_vec(), b"b\0ad".to_vec(), b"\0".to_vec()];
    match Runtime::new().launch(&bad) {
        Err(RuntimeError::ArgContainsNul(i)) => assert_eq!(i, 1),
        _ => panic!("expected ArgContainsNul"),
    }
    let first = vec![b"\0".to_vec()];
    match Runtime::new().launch(&first) {
        Err(RuntimeError::ArgContainsNul(i)) => assert_eq!(i, 0),
        _ => panic!("expected ArgContainsNul"),
    }
}

#[test]
fn launch_without_argument_fails() {
    match Runtime::new().launch(&Vec::new()) {
        Err(RuntimeError::ZeroArg) => {}
        _ => panic!("expected ZeroArg"),
    }
}

#[test]
fn settings_are_handed_over() {
    let mut rt = Runtime::new();
    rt.set_style("Fusion".to_string());
    rt.set_organization_name("Qtx".to_string());
    rt.set_application_name("Gallery".to_string());
    rt.set_style("Windows".to_string());
    let launch = rt.launch(&args(&["app"])).unwrap();
    assert_eq!(launch.style.as_deref(), Some("Windows"));
    assert_eq!(launch.organization_name.as_deref(), Some("Qtx"));
    assert_eq!(launch.application_name.as_deref(), Some("Gallery"));
    assert_eq!(launch.argc, 1);
}

#[test]
fn refused_style_is_unknown_style() {
    assert!(Runtime::style_outcome("Fusion".to_string(), true).is_ok());
    match Runtime::style_outcome("Nope".to_string(), false) {
        Err(RuntimeError::UnknownStyle(s)) => assert_eq!(s, "Nope"),
        _ => panic!("expected UnknownStyle"),
    }
}

#[test]
fn nul_is_found_anywhere() {
    assert!(!contains_nul(b"abc"));
    assert!(!contains_nul(b""));
    assert!(contains_nul(b"\0abc"));
    assert!(contains_nul(b"abc\0"));
}

#[test]
fn check_arg_reports_its_index() {
    assert!(qtx::runtime::check_arg(3, b"fine").is_ok());
    match qtx::runtime::check_arg(3, b"no\0pe") {
        Err(RuntimeError::ArgContainsNul(i)) => assert_eq!(i, 3),
        _ => panic!("expected ArgContainsNul"),
    }
}
