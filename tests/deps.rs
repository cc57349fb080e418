use wrpc_dynamic::deps::Deps;

#[test]
fn standard_imports() {
    let mut deps = Deps::new("example.com/bindings".to_string());
    assert_eq!(deps.binary(), "binary");
    assert_eq!(deps.errgroup(), "errgroup");
    assert_eq!(deps.wrpc(), "wrpc");
    assert_eq!(deps.binary(), "binary");
    assert_eq!(deps.len(), 3);
    assert_eq!(deps.get("binary"), Some("encoding/binary".to_string()));
    assert_eq!(deps.get("errgroup"), Some("golang.org/x/sync/errgroup".to_string()));
    assert_eq!(deps.get("wrpc"), Some("github.com/wrpc/wrpc/go".to_string()));
    assert_eq!(deps.get("fmt"), None);
    assert_eq!(deps.package(), "example.com/bindings");
}

#[test]
fn every_standard_import() {
    let mut deps = Deps::new(String::new());
    let names = [
        deps.bytes(),
        deps.context(),
        deps.errors(),
        deps.fmt(),
        deps.io(),
        deps.math(),
        deps.slog(),
        deps.strings(),
        deps.utf8(),
    ];
    assert_eq!(
        names,
        ["bytes", "context", "errors", "fmt", "io", "math", "slog", "strings", "utf8"]
    );
    assert_eq!(deps.len(), 9);
    assert_eq!(deps.get("slog"), Some("log/slog".to_string()));
    assert_eq!(deps.get("utf8"), Some("unicode/utf8".to_string()));
}

#[test]
fn import_and_insert() {
    let mut deps = Deps::new(String::new());
    let name = deps.import("foo__bar".to_string(), "example.com/foo/bar".to_string());
    assert_eq!(name, "foo__bar");
    let again = deps.import("foo__bar".to_string(), "example.com/foo/bar".to_string());
    assert_eq!(again, "foo__bar");
    assert_eq!(deps.len(), 1);
    assert_eq!(
        deps.insert("foo__bar".to_string(), "example.com/other".to_string()),
        Some("example.com/foo/bar".to_string())
    );
    assert_eq!(deps.get("foo__bar"), Some("example.com/other".to_string()));
    assert_eq!(deps.insert("x".to_string(), "y".to_string()), None);
}

#[test]
fn import_block_in_name_order() {
    let mut deps = Deps::new(String::new());
    deps.wrpc();
    deps.fmt();
    deps.binary();
    deps.import("a__b".to_string(), "example.com/a/b".to_string());
    assert_eq!(
        deps.render(),
        "import (\na__b \"example.com/a/b\"\nbinary \"encoding/binary\"\nfmt \"fmt\"\nwrpc \"github.com/wrpc/wrpc/go\"\n)\n"
    );
    assert_eq!(Deps::new(String::new()).render(), "import (\n)\n");
}
