//! The files of the Go bindings of a world: their names, and the world's
//! own file with its package clause and imports.
use crate::deps::{import_block, Deps};
use crate::ident::{package_ident, to_package_ident};
use crate::modules::{join, joined, views};
use vstd::prelude::*;
use vstd::string::StringExecFns;

verus! {

/// The file that holds the bindings of the interface at `path`.
pub fn module_file(path: &Vec<String>) -> (r: String)
    ensures
        r@ == joined(views(path@), "/"@) + "/bindings.wrpc.go"@,
{
    let mut r = join(path, "/");
    r.append("/bindings.wrpc.go");
    r
}

/// The file that holds the bindings of the world `name` itself.
pub fn world_file(name: &str) -> (r: String)
    ensures
        r@ == package_ident(name@) + ".wrpc.go"@,
{
    let mut r = to_package_ident(name);
    r.append(".wrpc.go");
    r
}

/// The source of the world `name`'s own file: a comment naming the world,
/// the package clause, the import block of `deps`, then `body`.
pub fn world_source(name: &str, deps: &Deps, body: &str) -> (r: String)
    requires
        deps.wf(),
    ensures
        r@ == "// "@ + package_ident(name@) + " package contains wRPC bindings for `"@ + name@
            + "` world\npackage "@ + package_ident(name@) + "\n\n"@ + import_block(deps.listing())
            + "\n\n"@ + body@,
{
    let go_name = to_package_ident(name);
    let mut r = String::from_str("// ");
    r.append(go_name.as_str());
    r.append(" package contains wRPC bindings for `");
    r.append(name);
    r.append("` world\npackage ");
    r.append(go_name.as_str());
    r.append("\n\n");
    r.append(deps.render().as_str());
    r.append("\n\n");
    r.append(body);
    r
}

/// The comment that heads every file of the bindings, naming the version
/// of the binding generator.
pub fn generated_preamble(version: &str) -> (r: String)
    ensures
        r@ == "// Generated by `wit-bindgen-wrpc-go` "@ + version@ + ". DO NOT EDIT!\n"@,
{
    let mut r = String::from_str("// Generated by `wit-bindgen-wrpc-go` ");
    r.append(version);
    r.append(". DO NOT EDIT!\n");
    r
}

} // verus!
