use wrpc_dynamic::exports::Exports;
use wrpc_dynamic::deps::Deps;
use wrpc_dynamic::serve::{decimal_string, serve_function};

#[test]
fn decimal_numbers() {
    assert_eq!(decimal_string(0), "0");
    assert_eq!(decimal_string(7), "7");
    assert_eq!(decimal_string(1234), "1234");
    assert_eq!(decimal_string(u64::MAX), "18446744073709551615");
}

#[test]
fn serve_function_for_two_exports() {
    let mut deps = Deps::new(String::new());
    let src = serve_function(&mut deps, &vec!["foo".to_string(), String::new()]);
    let expected = "\nfunc Serve(c wrpc.Client, h interface{ foo.Handler; Handler }) (stop func() error, err error) {\n\
stops := make([]func() error, 0, 2)\n\
stop = func() error {\nfor _, stop := range stops {\nif err := stop(); err != nil {\nreturn err\n}\n}\nreturn nil\n}\n\
stop0, err := foo.ServeInterface(c, h)\nif err != nil { return }\nstops = append(stops, stop0)\n\
stop1, err := ServeInterface(c, h)\nif err != nil { return }\nstops = append(stops, stop1)\n\
stop = func() error {\nif err := stop0(); err != nil { return err }\nif err := stop1(); err != nil { return err }\nreturn nil\n}\nreturn\n}\n";
    assert_eq!(src, expected);
    assert_eq!(deps.get("wrpc"), Some("github.com/wrpc/wrpc/go".to_string()));
}

#[test]
fn no_serve_function_without_exports() {
    let mut deps = Deps::new(String::new());
    assert_eq!(serve_function(&mut deps, &vec![]), "");
    assert_eq!(deps.len(), 0);
}

#[test]
fn export_bookkeeping_feeds_serve() {

    let mut deps = Deps::new("example.com/b".to_string());
    let mut ex = Exports::new();
    let path = vec!["exports".to_string(), "wasi".to_string(), "http".to_string()];
    ex.name_interface(3, "example.com/b", &path);
    assert_eq!(
        ex.interface_name(3),
        Some(("exports__wasi__http".to_string(), "example.com/b/exports/wasi/http".to_string()))
    );
    assert_eq!(ex.interface_name(4), None);
    assert!(!ex.add_interface_export(&mut deps, 4));
    assert!(ex.add_interface_export(&mut deps, 3));
    ex.add_world_export();
    assert_eq!(ex.export_paths(), &vec!["exports__wasi__http".to_string(), String::new()]);
    assert_eq!(deps.get("exports__wasi__http"), Some("example.com/b/exports/wasi/http".to_string()));
    let src = serve_function(&mut deps, ex.export_paths());
    assert!(src.contains("h interface{ exports__wasi__http.Handler; Handler }"));
    ex.name_interface(3, "", &vec!["x".to_string()]);
    assert_eq!(ex.interface_name(3), Some(("x".to_string(), "x".to_string())));
}
