use rologlyphex::xerror::error_code_name;

#[test]
fn x_error_names() {
    assert_eq!(error_code_name(10), "BadAccess");
    assert_eq!(error_code_name(3), "BadWindow");
    assert_eq!(error_code_name(18), "BadImplementation");
    assert_eq!(error_code_name(12), "X error");
    assert_eq!(error_code_name(0), "X error");
    assert_eq!(error_code_name(255), "X error");
}
