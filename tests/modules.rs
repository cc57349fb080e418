use wrpc_dynamic::modules::{package_module_name, versions_with_same_name, PackageName};
use wrpc_dynamic::modules::{
    compute_module_path, import_name, import_path, join, name_package_module, InterfaceKey,
};

#[test]
fn package_module_names() {
    assert_eq!(name_package_module("wasi-http", Some("0.2.0"), 1), "wasi_http");
    assert_eq!(name_package_module("wasi-http", None, 2), "wasi_http");
    assert_eq!(name_package_module("foo", Some("0.1.0"), 2), "foo0_1_0");
    assert_eq!(name_package_module("wasi-http", Some("0.2.0-rc.1+x"), 3), "wasi_http0_2_0_rc_1_x");
}

#[test]
fn module_paths() {
    let key = InterfaceKey::Interface {
        namespace: "wasi".to_string(),
        package_module: "http".to_string(),
        name: "type".to_string(),
    };
    assert_eq!(compute_module_path(true, &key), vec!["exports", "wasi", "http", "type_"]);
    assert_eq!(compute_module_path(false, &key), vec!["wasi", "http", "type_"]);
    let plain = InterfaceKey::Name("my-iface".to_string());
    assert_eq!(compute_module_path(false, &plain), vec!["my_iface"]);
    assert_eq!(compute_module_path(true, &plain), vec!["exports", "my_iface"]);
}

#[test]
fn import_names_and_paths() {
    let path = vec!["wasi".to_string(), "http".to_string(), "types".to_string()];
    assert_eq!(import_name(&path), "wasi__http__types");
    assert_eq!(import_path("", &path), "wasi/http/types");
    assert_eq!(import_path("github.com/x/y", &path), "github.com/x/y/wasi/http/types");
    assert_eq!(join(&vec![], "/"), "");
    assert_eq!(join(&vec!["a".to_string()], "/"), "a");
}

#[test]
fn same_named_packages_get_versioned_modules() {
    let pkg = |ns: &str, name: &str, version: Option<&str>| PackageName {
        namespace: ns.to_string(),
        name: name.to_string(),
        version: version.map(|v| v.to_string()),
    };
    let packages = vec![
        pkg("wasi", "http", Some("0.2.0")),
        pkg("wasi", "http", Some("0.2.1")),
        pkg("wasi", "io", Some("0.2.0")),
        pkg("other", "http", None),
    ];
    assert_eq!(versions_with_same_name(&packages, 0), 2);
    assert_eq!(versions_with_same_name(&packages, 2), 1);
    assert_eq!(versions_with_same_name(&packages, 3), 1);
    assert_eq!(package_module_name(&packages, 0), "http0_2_0");
    assert_eq!(package_module_name(&packages, 1), "http0_2_1");
    assert_eq!(package_module_name(&packages, 2), "io");
    assert_eq!(package_module_name(&packages, 3), "http");
}
