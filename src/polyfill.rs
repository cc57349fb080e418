//! Which imported interfaces get a dynamically synthesized implementation:
//! all but those for which static bindings are linked.
use crate::ident::same_text;
use vstd::prelude::*;

verus! {

/// The instances for which static bindings are linked, and which are
/// therefore never polyfilled.
pub open spec fn statically_bound() -> Seq<Seq<char>> {
    seq![
        "wasi:cli/environment@0.2.0"@,
        "wasi:cli/exit@0.2.0"@,
        "wasi:cli/stderr@0.2.0"@,
        "wasi:cli/stdin@0.2.0"@,
        "wasi:cli/stdout@0.2.0"@,
        "wasi:cli/terminal-input@0.2.0"@,
        "wasi:cli/terminal-output@0.2.0"@,
        "wasi:cli/terminal-stderr@0.2.0"@,
        "wasi:cli/terminal-stdin@0.2.0"@,
        "wasi:cli/terminal-stdout@0.2.0"@,
        "wasi:clocks/monotonic-clock@0.2.0"@,
        "wasi:clocks/wall-clock@0.2.0"@,
        "wasi:filesystem/preopens@0.2.0"@,
        "wasi:filesystem/types@0.2.0"@,
        "wasi:http/incoming-handler@0.2.0"@,
        "wasi:http/outgoing-handler@0.2.0"@,
        "wasi:http/types@0.2.0"@,
        "wasi:io/error@0.2.0"@,
        "wasi:io/poll@0.2.0"@,
        "wasi:io/streams@0.2.0"@,
        "wasi:keyvalue/store@0.2.0-draft"@,
        "wasi:random/random@0.2.0"@,
        "wasi:sockets/instance-network@0.2.0"@,
        "wasi:sockets/network@0.2.0"@,
        "wasi:sockets/tcp-create-socket@0.2.0"@,
        "wasi:sockets/tcp@0.2.0"@,
        "wasi:sockets/udp-create-socket@0.2.0"@,
        "wasi:sockets/udp@0.2.0"@,
    ]
}

fn static_table() -> (r: Vec<&'static str>)
    ensures
        r@.len() == statically_bound().len(),
        forall|i: int| 0 <= i < r@.len() ==> (#[trigger] r@[i])@ == statically_bound()[i],
{
    let r = vec![
        "wasi:cli/environment@0.2.0",
        "wasi:cli/exit@0.2.0",
        "wasi:cli/stderr@0.2.0",
        "wasi:cli/stdin@0.2.0",
        "wasi:cli/stdout@0.2.0",
        "wasi:cli/terminal-input@0.2.0",
        "wasi:cli/terminal-output@0.2.0",
        "wasi:cli/terminal-stderr@0.2.0",
        "wasi:cli/terminal-stdin@0.2.0",
        "wasi:cli/terminal-stdout@0.2.0",
        "wasi:clocks/monotonic-clock@0.2.0",
        "wasi:clocks/wall-clock@0.2.0",
        "wasi:filesystem/preopens@0.2.0",
        "wasi:filesystem/types@0.2.0",
        "wasi:http/incoming-handler@0.2.0",
        "wasi:http/outgoing-handler@0.2.0",
        "wasi:http/types@0.2.0",
        "wasi:io/error@0.2.0",
        "wasi:io/poll@0.2.0",
        "wasi:io/streams@0.2.0",
        "wasi:keyvalue/store@0.2.0-draft",
        "wasi:random/random@0.2.0",
        "wasi:sockets/instance-network@0.2.0",
        "wasi:sockets/network@0.2.0",
        "wasi:sockets/tcp-create-socket@0.2.0",
        "wasi:sockets/tcp@0.2.0",
        "wasi:sockets/udp-create-socket@0.2.0",
        "wasi:sockets/udp@0.2.0",
    ];
    assert(r@.len() == statically_bound().len());
    r
}

/// Whether static bindings are linked for the instance `name`, so that it
/// must not be polyfilled.
pub fn is_statically_bound(name: &str) -> (r: bool)
    ensures
        r == statically_bound().contains(name@),
{
    let table = static_table();
    let mut i: usize = 0;
    while i < table.len()
        invariant
            0 <= i <= table@.len(),
            table@.len() == statically_bound().len(),
            forall|k: int| 0 <= k < table@.len() ==> (#[trigger] table@[k])@ == statically_bound()[k],
            forall|k: int| 0 <= k < i ==> statically_bound()[k] != name@,
        decreases table@.len() - i,
    {
        if same_text(table[i], name) {
            assert(statically_bound()[i as int] == name@);
            return true;
        }
        i = i + 1;
    }
    false
}

/// For each imported instance, in order, whether it gets polyfilled: each
/// one but those with static bindings.
pub fn polyfill_selection(names: &Vec<String>) -> (r: Vec<bool>)
    ensures
        r@.len() == names@.len(),
        forall|i: int| 0 <= i < names@.len() ==> #[trigger] r@[i] == !statically_bound().contains(names@[i]@),
{
    let mut r: Vec<bool> = Vec::new();
    let mut i: usize = 0;
    while i < names.len()
        invariant
            i <= names@.len(),
            r@.len() == i,
            forall|k: int| 0 <= k < i ==> #[trigger] r@[k] == !statically_bound().contains(names@[k]@),
        decreases names@.len() - i,
    {
        r.push(!is_statically_bound(names[i].as_str()));
        i = i + 1;
    }
    r
}

} // verus!
