//! The world-level Go `Serve` function, which serves every exported
//! interface and stops them all together.
use crate::deps::Deps;
use crate::modules::{join, joined, views};
use vstd::prelude::*;
use vstd::string::StringExecFns;

verus! {

/// The decimal digits.
pub open spec fn digits() -> Seq<char> {
    seq!['0', '1', '2', '3', '4', '5', '6', '7', '8', '9']
}

/// `n` written in decimal.
pub open spec fn decimal(n: nat) -> Seq<char>
    decreases n,
{
    if n < 10 {
        seq![digits()[n as int]]
    } else {
        decimal(n / 10).push(digits()[(n % 10) as int])
    }
}

fn digit(d: u64) -> (r: &'static str)
    requires
        d < 10,
    ensures
        r@ == seq![digits()[d as int]],
{
    proof {
        reveal_strlit("0");
        reveal_strlit("1");
        reveal_strlit("2");
        reveal_strlit("3");
        reveal_strlit("4");
        reveal_strlit("5");
        reveal_strlit("6");
        reveal_strlit("7");
        reveal_strlit("8");
        reveal_strlit("9");
    }
    if d == 0 {
        "0"
    } else if d == 1 {
        "1"
    } else if d == 2 {
        "2"
    } else if d == 3 {
        "3"
    } else if d == 4 {
        "4"
    } else if d == 5 {
        "5"
    } else if d == 6 {
        "6"
    } else if d == 7 {
        "7"
    } else if d == 8 {
        "8"
    } else {
        "9"
    }
}

/// `n` written in decimal.
pub fn decimal_string(n: u64) -> (r: String)
    ensures
        r@ == decimal(n as nat),
    decreases n,
{
    if n < 10 {
        String::from_str(digit(n))
    } else {
        let mut s = decimal_string(n / 10);
        s.append(digit(n % 10));
        assert(s@ =~= decimal(n as nat));
        s
    }
}

/// The interface that the handler of the bindings at `path` implements.
pub open spec fn handler_of(path: Seq<char>) -> Seq<char> {
    if path.len() == 0 {
        "Handler"@
    } else {
        path + ".Handler"@
    }
}

/// The lines that start serving the `n` first exported interfaces.
pub open spec fn start_lines(paths: Seq<Seq<char>>, n: nat) -> Seq<char>
    decreases n,
{
    if n == 0 || n > paths.len() {
        Seq::empty()
    } else {
        let i = (n - 1) as nat;
        let p = paths[i as int];
        start_lines(paths, i) + "stop"@ + decimal(i) + ", err := "@ + (if p.len() == 0 {
            Seq::empty()
        } else {
            p + "."@
        }) + "ServeInterface(c, h)\n"@ + "if err != nil { return }\n"@ + "stops = append(stops, stop"@
            + decimal(i) + ")\n"@
    }
}

/// The lines that stop the `n` first exported interfaces.
pub open spec fn stop_lines(n: nat) -> Seq<char>
    decreases n,
{
    if n == 0 {
        Seq::empty()
    } else {
        stop_lines((n - 1) as nat) + "if err := stop"@ + decimal((n - 1) as nat)
            + "(); err != nil { return err }\n"@
    }
}

/// The loop of the first `stop` function, which stops whatever has been
/// started when starting another fails.
pub open spec fn stop_started() -> Seq<char> {
    "stop = func() error {\nfor _, stop := range stops {\nif err := stop(); err != nil {\nreturn err\n}\n}\nreturn nil\n}\n"@
}

/// The Go source of the `Serve` function for the exported interfaces at
/// `paths` (an empty path for the world's own exports), with the wRPC
/// package imported as `wrpc`.
pub open spec fn serve_source(paths: Seq<Seq<char>>, wrpc: Seq<char>) -> Seq<char> {
    if paths.len() == 0 {
        Seq::empty()
    } else {
        "\nfunc Serve(c "@ + wrpc + ".Client, h interface{ "@ + joined(
            paths.map_values(|p: Seq<char>| handler_of(p)),
            "; "@,
        ) + " }) (stop func() error, err error) {\n"@ + "stops := make([]func() error, 0, "@
            + decimal(paths.len()) + ")\n"@ + stop_started() + start_lines(paths, paths.len())
            + "stop = func() error {\n"@ + stop_lines(paths.len()) + "return nil\n}\nreturn\n}\n"@
    }
}

/// The Go source of the `Serve` function for the exported interfaces at
/// `export_paths` (an empty path for the world's own exports); empty where
/// nothing is exported. The wRPC package is added to `deps` where it is
/// needed.
pub fn serve_function(deps: &mut Deps, export_paths: &Vec<String>) -> (r: String)
    requires
        old(deps).wf(),
        export_paths@.len() < u64::MAX,
    ensures
        final(deps).wf(),
        final(deps).package_view() == old(deps).package_view(),
        export_paths@.len() == 0 ==> r@.len() == 0 && final(deps).map() == old(deps).map(),
        export_paths@.len() > 0 ==> r@ == serve_source(views(export_paths@), "wrpc"@)
            && final(deps).map() == old(deps).map().insert("wrpc"@, "github.com/wrpc/wrpc/go"@),
{
    let ghost paths = views(export_paths@);
    let n = export_paths.len();
    if n == 0 {
        return String::new();
    }
    let mut bounds: Vec<String> = Vec::new();
    let mut i: usize = 0;
    while i < n
        invariant
            n == export_paths@.len(),
            i <= n,
            paths == views(export_paths@),
            views(bounds@) == paths.subrange(0, i as int).map_values(
                |p: Seq<char>| handler_of(p),
            ),
        decreases n - i,
    {
        let p = &export_paths[i];
        let b = if p.unicode_len() == 0 {
            String::from_str("Handler")
        } else {
            let mut b = String::from_str(p.as_str());
            b.append(".Handler");
            b
        };
        assert(p@ == paths[i as int]);
        assert(b@ == handler_of(paths[i as int]));
        let ghost old_bounds = views(bounds@);
        bounds.push(b);
        assert(views(bounds@) =~= old_bounds.push(handler_of(paths[i as int])));
        i = i + 1;
        assert(views(bounds@) =~= paths.subrange(0, i as int).map_values(
            |p: Seq<char>| handler_of(p),
        ));
    }
    assert(paths.subrange(0, n as int) =~= paths);
    let wrpc = deps.wrpc();
    let mut src = String::from_str("\nfunc Serve(c ");
    src.append(wrpc);
    src.append(".Client, h interface{ ");
    src.append(join(&bounds, "; ").as_str());
    src.append(" }) (stop func() error, err error) {\n");
    src.append("stops := make([]func() error, 0, ");
    src.append(decimal_string(n as u64).as_str());
    src.append(")\n");
    src.append(
        "stop = func() error {\nfor _, stop := range stops {\nif err := stop(); err != nil {\nreturn err\n}\n}\nreturn nil\n}\n",
    );
    let ghost head = src@;
    let mut i: usize = 0;
    while i < n
        invariant
            n == export_paths@.len(),
            i <= n,
            paths == views(export_paths@),
            src@ == head + start_lines(paths, i as nat),
        decreases n - i,
    {
        let ghost before = src@;
        let p = &export_paths[i];
        src.append("stop");
        src.append(decimal_string(i as u64).as_str());
        src.append(", err := ");
        if p.unicode_len() != 0 {
            src.append(p.as_str());
            src.append(".");
        }
        src.append("ServeInterface(c, h)\n");
        src.append("if err != nil { return }\n");
        src.append("stops = append(stops, stop");
        src.append(decimal_string(i as u64).as_str());
        src.append(")\n");
        assert(src@ =~= head + start_lines(paths, (i + 1) as nat));
        i = i + 1;
    }
    src.append("stop = func() error {\n");
    let ghost mid = src@;
    let mut i: usize = 0;
    while i < n
        invariant
            n == export_paths@.len(),
            i <= n,
            src@ == mid + stop_lines(i as nat),
        decreases n - i,
    {
        src.append("if err := stop");
        src.append(decimal_string(i as u64).as_str());
        src.append("(); err != nil { return err }\n");
        assert(src@ =~= mid + stop_lines((i + 1) as nat));
        i = i + 1;
    }
    src.append("return nil\n}\nreturn\n}\n");
    assert(src@ =~= serve_source(paths, "wrpc"@));
    src
}

} // verus!
