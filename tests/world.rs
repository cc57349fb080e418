use wrpc_dynamic::deps::Deps;
use wrpc_dynamic::world::{generated_preamble, module_file, world_file, world_source};

#[test]
fn file_names() {
    let path = vec!["exports".to_string(), "wasi".to_string(), "http".to_string()];
    assert_eq!(module_file(&path), "exports/wasi/http/bindings.wrpc.go");
    assert_eq!(world_file("my-world"), "my_world.wrpc.go");
    assert_eq!(world_file("go"), "go_.wrpc.go");
}

#[test]
fn world_file_source() {
    let mut deps = Deps::new(String::new());
    deps.context();
    let src = world_source("my-world", &deps, "func F() {}\n");
    assert_eq!(
        src,
        "// my_world package contains wRPC bindings for `my-world` world\npackage my_world\n\nimport (\ncontext \"context\"\n)\n\n\nfunc F() {}\n"
    );
}

#[test]
fn preamble() {
    assert_eq!(
        generated_preamble("0.1.0"),
        "// Generated by `wit-bindgen-wrpc-go` 0.1.0. DO NOT EDIT!\n"
    );
}
