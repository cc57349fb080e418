//! Naming of generated Go items: reserved words are escaped with a trailing
//! underscore, everything else goes through the usual case conversions.
use heck::{ToLowerCamelCase, ToSnakeCase, ToUpperCamelCase};
use vstd::prelude::*;
use vstd::string::StringExecFns;

verus! {

/// What `heck` makes of a name in snake case.
pub uninterp spec fn snake_of(s: Seq<char>) -> Seq<char>;

/// What `heck` makes of a name in lower camel case.
pub uninterp spec fn lower_camel_of(s: Seq<char>) -> Seq<char>;

/// What `heck` makes of a name in upper camel case.
pub uninterp spec fn upper_camel_of(s: Seq<char>) -> Seq<char>;

/// Relies on heck's `ToSnakeCase::to_snake_case` for `str`: the result
/// depends on the characters of the name alone.
#[verifier::external_body]
pub(crate) fn snake_case(s: &str) -> (r: String)
    ensures
        r@ == snake_of(s@),
{
    s.to_snake_case()
}

/// Relies on heck's `ToLowerCamelCase::to_lower_camel_case` for `str`: the
/// result depends on the characters of the name alone.
#[verifier::external_body]
fn lower_camel_case(s: &str) -> (r: String)
    ensures
        r@ == lower_camel_of(s@),
{
    s.to_lower_camel_case()
}

/// Relies on heck's `ToUpperCamelCase::to_upper_camel_case` for `str`: the
/// result depends on the characters of the name alone.
#[verifier::external_body]
fn upper_camel_case(s: &str) -> (r: String)
    ensures
        r@ == upper_camel_of(s@),
{
    s.to_upper_camel_case()
}

/// The reserved words of Go.
pub open spec fn go_keywords() -> Seq<Seq<char>> {
    seq![
        "break"@, "case"@, "chan"@, "const"@, "continue"@, "default"@, "defer"@,
        "else"@, "enum"@, "fallthrough"@, "false"@, "for"@, "func"@, "go"@,
        "goto"@, "if"@, "import"@, "interface"@, "map"@, "package"@, "range"@,
        "return"@, "select"@, "struct"@, "switch"@, "true"@, "type"@, "var"@,
    ]
}

/// Names that a package identifier must not take verbatim: the reserved
/// words, and the directory that holds exported interfaces.
pub open spec fn package_reserved() -> Seq<Seq<char>> {
    go_keywords().push("exports"@)
}

/// A name with an underscore appended.
pub open spec fn escaped(s: Seq<char>) -> Seq<char> {
    s.push('_')
}

/// The package identifier of a name.
pub open spec fn package_ident(s: Seq<char>) -> Seq<char> {
    if package_reserved().contains(s) {
        escaped(s)
    } else {
        snake_of(s)
    }
}

/// The Go identifier of a name.
pub open spec fn go_ident(s: Seq<char>) -> Seq<char> {
    if go_keywords().contains(s) {
        escaped(s)
    } else {
        lower_camel_of(s)
    }
}

/// The exported Go type name of a name; `handler` is kept free for the
/// interfaces that exported packages declare.
pub open spec fn type_ident(s: Seq<char>) -> Seq<char> {
    if s == "handler"@ {
        "Handler_"@
    } else {
        upper_camel_of(s)
    }
}

fn keyword_table() -> (r: Vec<&'static str>)
    ensures
        r@.len() == go_keywords().len(),
        forall|i: int| 0 <= i < r@.len() ==> (#[trigger] r@[i])@ == go_keywords()[i],
{
    let r = vec![
        "break", "case", "chan", "const", "continue", "default", "defer",
        "else", "enum", "fallthrough", "false", "for", "func", "go",
        "goto", "if", "import", "interface", "map", "package", "range",
        "return", "select", "struct", "switch", "true", "type", "var",
    ];
    assert(r@.len() == go_keywords().len());
    r
}

/// Whether two strings hold the same characters.
pub fn same_text(a: &str, b: &str) -> (r: bool)
    ensures
        r == (a@ == b@),
{
    let x = String::from_str(a);
    let y = String::from_str(b);
    x == y
}

/// Whether `name` is a reserved word of Go.
pub fn is_go_keyword(name: &str) -> (r: bool)
    ensures
        r == go_keywords().contains(name@),
{
    let table = keyword_table();
    let mut i: usize = 0;
    while i < table.len()
        invariant
            0 <= i <= table@.len(),
            table@.len() == go_keywords().len(),
            forall|k: int| 0 <= k < table@.len() ==> (#[trigger] table@[k])@ == go_keywords()[k],
            forall|k: int| 0 <= k < i ==> go_keywords()[k] != name@,
        decreases table@.len() - i,
    {
        if same_text(table[i], name) {
            assert(go_keywords()[i as int] == name@);
            return true;
        }
        i = i + 1;
    }
    false
}

fn escape(name: &str) -> (r: String)
    ensures
        r@ == escaped(name@),
{
    let mut s = String::from_str(name);
    s.append("_");
    proof {
        reveal_strlit("_");
    }
    assert(s@ =~= name@.push('_'));
    s
}

/// The Go package identifier of a name: reserved words and `exports` get
/// a trailing underscore, anything else is put in snake case.
pub fn to_package_ident(name: &str) -> (r: String)
    ensures
        r@ == package_ident(name@),
{
    let reserved = if is_go_keyword(name) {
        true
    } else {
        same_text(name, "exports")
    };
    proof {
        if !go_keywords().contains(name@) {
            if package_reserved().contains(name@) {
                let k = choose|k: int| 0 <= k < package_reserved().len() && package_reserved()[k] == name@;
                if k < go_keywords().len() {
                    assert(go_keywords()[k] == name@);
                }
            }
        } else {
            let k = choose|k: int| 0 <= k < go_keywords().len() && go_keywords()[k] == name@;
            assert(package_reserved()[k] == name@);
        }
        assert(package_reserved()[go_keywords().len() as int] == "exports"@);
    }
    if reserved {
        escape(name)
    } else {
        snake_case(name)
    }
}

/// The Go identifier of a name: reserved words get a trailing underscore,
/// anything else is put in lower camel case.
pub fn to_go_ident(name: &str) -> (r: String)
    ensures
        r@ == go_ident(name@),
{
    if is_go_keyword(name) {
        escape(name)
    } else {
        lower_camel_case(name)
    }
}

/// The exported Go type name of a name: `handler` becomes `Handler_`,
/// anything else is put in upper camel case.
pub fn to_upper_camel_case(name: &str) -> (r: String)
    ensures
        r@ == type_ident(name@),
{
    if same_text(name, "handler") {
        String::from_str("Handler_")
    } else {
        upper_camel_case(name)
    }
}

/// Options of the Go binding generator.
#[derive(Clone, Debug)]
pub struct Opts {
    /// Whether `gofmt` is run over the generated code.
    pub gofmt: bool,
    /// The Go package path that holds the generated bindings.
    pub package: String,
}

impl Default for Opts {
    fn default() -> (r: Opts)
        ensures
            r.gofmt,
            r.package@ == Seq::<char>::empty(),
    {
        Opts { gofmt: true, package: String::new() }
    }
}

} // verus!
