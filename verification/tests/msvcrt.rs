use mwemu_core::msvcrt::is_native_section;

#[test]
fn native_sections_match_exact_loader_names() {
    assert!(is_native_section("msvcrt.text"));
    assert!(is_native_section("msvcrtfothk"));
    assert!(!is_native_section("msvcrt.rdata"));
    assert!(!is_native_section("msvcrt.data"));
    assert!(!is_native_section(""));
    assert!(!is_native_section("MSVCRT.TEXT"));
    assert!(!is_native_section("msvcrt.text "));
    assert!(!is_native_section("kernel32.text"));
}
