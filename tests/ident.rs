use wrpc_dynamic::ident::{is_go_keyword, to_go_ident, to_package_ident, to_upper_camel_case, Opts};

#[test]
fn package_idents() {
    assert_eq!(to_package_ident("type"), "type_");
    assert_eq!(to_package_ident("exports"), "exports_");
    assert_eq!(to_package_ident("foo-bar"), "foo_bar");
    assert_eq!(to_package_ident("HttpTypes"), "http_types");
}

#[test]
fn go_idents() {
    assert_eq!(to_go_ident("map"), "map_");
    assert_eq!(to_go_ident("exports"), "exports");
    assert_eq!(to_go_ident("foo-bar"), "fooBar");
    assert!(is_go_keyword("fallthrough"));
    assert!(!is_go_keyword("fall"));
}

#[test]
fn type_idents() {
    assert_eq!(to_upper_camel_case("handler"), "Handler_");
    assert_eq!(to_upper_camel_case("foo-bar"), "FooBar");
}

#[test]
fn default_opts() {
    let opts = Opts::default();
    assert!(opts.gofmt);
    assert_eq!(opts.package, "");
}
