//! Where the Go bindings of an interface live: the module path of an
//! interface, the name of a package's module, and the names under which
//! other generated files import it.
use crate::ident::{package_ident, same_text, snake_case, snake_of, to_package_ident};
use vstd::prelude::*;
use vstd::string::{StrSliceExecFns, StringExecFns};

verus! {

/// `s` with every `from` replaced by `to`.
pub open spec fn replaced(s: Seq<char>, from: char, to: char) -> Seq<char> {
    s.map_values(|c: char| if c == from { to } else { c })
}

/// `s` with every `from` replaced by the one character of `to`.
fn replace_char(s: &str, from: char, to: &str) -> (r: String)
    requires
        to@.len() == 1,
    ensures
        r@ == replaced(s@, from, to@[0]),
{
    let n = s.unicode_len();
    let mut out = String::new();
    let mut i: usize = 0;
    while i < n
        invariant
            n == s@.len(),
            i <= n,
            to@.len() == 1,
            out@ == replaced(s@.subrange(0, i as int), from, to@[0]),
        decreases n - i,
    {
        let c = s.get_char(i);
        if c == from {
            out.append(to);
        } else {
            out.append(s.substring_char(i, i + 1));
        }
        assert(out@ =~= replaced(s@.subrange(0, i + 1), from, to@[0]));
        i = i + 1;
    }
    assert(s@.subrange(0, n as int) =~= s@);
    out
}

/// A version with its separators (`.`, `-` and `+`) made underscores.
pub open spec fn version_suffix(v: Seq<char>) -> Seq<char> {
    replaced(replaced(replaced(v, '.', '_'), '-', '_'), '+', '_')
}

/// The module name of a package named `name`, of version `version`, of
/// which `same_name` packages (counting itself) share namespace and name.
pub open spec fn package_module(name: Seq<char>, version: Option<Seq<char>>, same_name: nat) -> Seq<char> {
    if same_name == 1 || version is None {
        snake_of(name)
    } else {
        snake_of(name) + snake_of(version_suffix(version->Some_0))
    }
}

/// The module name of a package. A package that is the only one with its
/// namespace and name, or that has no version, gets its name in snake case;
/// otherwise its version, with separators made underscores, is appended so
/// that the versions get modules of their own.
pub fn name_package_module(name: &str, version: Option<&str>, same_name: usize) -> (r: String)
    ensures
        r@ == package_module(
            name@,
            match version {
                Some(v) => Some(v@),
                None => None,
            },
            same_name as nat,
        ),
{
    let base = snake_case(name);
    if same_name == 1 {
        return base;
    }
    match version {
        None => base,
        Some(v) => {
            proof {
                reveal_strlit("_");
            }
            let a = replace_char(v, '.', "_");
            let b = replace_char(a.as_str(), '-', "_");
            let c = replace_char(b.as_str(), '+', "_");
            let suffix = snake_case(c.as_str());
            let mut out = base;
            out.append(suffix.as_str());
            out
        },
    }
}

/// A package of a schema: its namespace, its name and its version, if any.
pub struct PackageName {
    pub namespace: String,
    pub name: String,
    pub version: Option<String>,
}

/// Whether two packages share namespace and name.
pub open spec fn same_name(a: PackageName, b: PackageName) -> bool {
    a.namespace@ == b.namespace@ && a.name@ == b.name@
}

/// The number of the first `n` packages that share namespace and name
/// with `p`.
pub open spec fn same_name_count(packages: Seq<PackageName>, p: PackageName, n: nat) -> nat
    decreases n,
{
    if n == 0 || n > packages.len() {
        0
    } else {
        same_name_count(packages, p, (n - 1) as nat) + if same_name(packages[n - 1], p) {
            1nat
        } else {
            0nat
        }
    }
}

/// The number of packages that share namespace and name with package `id`,
/// itself included.
pub fn versions_with_same_name(packages: &Vec<PackageName>, id: usize) -> (r: usize)
    requires
        id < packages@.len(),
    ensures
        r == same_name_count(packages@, packages@[id as int], packages@.len()),
{
    let p = &packages[id];
    let mut count: usize = 0;
    let mut i: usize = 0;
    while i < packages.len()
        invariant
            i <= packages@.len(),
            id < packages@.len(),
            *p == packages@[id as int],
            count == same_name_count(packages@, *p, i as nat),
            count <= i,
        decreases packages@.len() - i,
    {
        let q = &packages[i];
        if same_text(q.namespace.as_str(), p.namespace.as_str()) && same_text(
            q.name.as_str(),
            p.name.as_str(),
        ) {
            count = count + 1;
        }
        i = i + 1;
    }
    count
}

/// The module name of package `id` among `packages` (see
/// [`name_package_module`]).
pub fn package_module_name(packages: &Vec<PackageName>, id: usize) -> (r: String)
    requires
        id < packages@.len(),
    ensures
        r@ == package_module(
            packages@[id as int].name@,
            match packages@[id as int].version {
                Some(v) => Some(v@),
                None => None,
            },
            same_name_count(packages@, packages@[id as int], packages@.len()),
        ),
{
    let same = versions_with_same_name(packages, id);
    let p = &packages[id];
    let version = match &p.version {
        Some(v) => Some(v.as_str()),
        None => None,
    };
    name_package_module(p.name.as_str(), version, same)
}

/// What an interface is known by in a world.
pub enum InterfaceKey {
    /// An interface declared inline in the world, under a plain name.
    Name(String),
    /// An interface of a package: the package's namespace, the module name
    /// of the package (see [`name_package_module`]), and the interface's
    /// name.
    Interface { namespace: String, package_module: String, name: String },
}

/// The module path of an interface's bindings, under `exports` for an
/// exported one.
pub open spec fn interface_path(is_export: bool, key: InterfaceKey) -> Seq<Seq<char>> {
    let head: Seq<Seq<char>> = if is_export {
        seq!["exports"@]
    } else {
        Seq::empty()
    };
    head + match key {
        InterfaceKey::Name(n) => seq![package_ident(n@)],
        InterfaceKey::Interface { namespace, package_module, name } => seq![
            package_ident(namespace@),
            package_module@,
            package_ident(name@),
        ],
    }
}

/// The views of strings.
pub open spec fn views(v: Seq<String>) -> Seq<Seq<char>> {
    v.map_values(|s: String| s@)
}

/// The module path of an interface's bindings: `exports` first for an
/// exported interface, then the package identifier of a plain name, or the
/// namespace, the package's module and the interface's name.
pub fn compute_module_path(is_export: bool, key: &InterfaceKey) -> (r: Vec<String>)
    ensures
        views(r@) == interface_path(is_export, *key),
{
    let mut path: Vec<String> = Vec::new();
    if is_export {
        path.push(String::from_str("exports"));
    }
    match key {
        InterfaceKey::Name(n) => {
            path.push(to_package_ident(n.as_str()));
        },
        InterfaceKey::Interface { namespace, package_module, name } => {
            path.push(to_package_ident(namespace.as_str()));
            path.push(String::from_str(package_module.as_str()));
            path.push(to_package_ident(name.as_str()));
        },
    }
    assert(views(path@) =~= interface_path(is_export, *key));
    path
}

/// The parts joined, with `sep` between each two.
pub open spec fn joined(parts: Seq<Seq<char>>, sep: Seq<char>) -> Seq<char>
    decreases parts.len(),
{
    if parts.len() == 0 {
        Seq::empty()
    } else if parts.len() == 1 {
        parts[0]
    } else {
        joined(parts.drop_last(), sep) + sep + parts.last()
    }
}

/// The parts joined, with `sep` between each two.
pub fn join(parts: &Vec<String>, sep: &str) -> (r: String)
    ensures
        r@ == joined(views(parts@), sep@),
{
    let mut out = String::new();
    let mut i: usize = 0;
    while i < parts.len()
        invariant
            i <= parts@.len(),
            out@ == joined(views(parts@.subrange(0, i as int)), sep@),
        decreases parts@.len() - i,
    {
        let ghost before = parts@.subrange(0, i as int);
        let ghost after = parts@.subrange(0, i + 1);
        assert(views(after).drop_last() =~= views(before));
        if i > 0 {
            out.append(sep);
        }
        out.append(parts[i].as_str());
        proof {
            if i == 0 {
                assert(out@ =~= views(after)[0]);
            }
        }
        i = i + 1;
    }
    assert(parts@.subrange(0, i as int) =~= parts@);
    out
}

/// The name under which generated Go files import the bindings at `path`:
/// its parts joined by `__`.
pub fn import_name(path: &Vec<String>) -> (r: String)
    ensures
        r@ == joined(views(path@), "__"@),
{
    join(path, "__")
}

/// The import path of the bindings at `path`: its parts joined by `/`,
/// below the Go package `package` unless that is empty.
pub fn import_path(package: &str, path: &Vec<String>) -> (r: String)
    ensures
        r@ == if package@.len() == 0 {
            joined(views(path@), "/"@)
        } else {
            package@ + "/"@ + joined(views(path@), "/"@)
        },
{
    let rest = join(path, "/");
    if package.unicode_len() == 0 {
        rest
    } else {
        let mut out = String::from_str(package);
        out.append("/");
        out.append(rest.as_str());
        out
    }
}

} // verus!
