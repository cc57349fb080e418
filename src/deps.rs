//! The Go packages that generated bindings import, by the name they are
//! imported under.
use crate::ident::same_text;
use crate::order::{lemma_text_lt_irreflexive, lemma_text_lt_total, lemma_text_lt_transitive, str_lt, text_lt};
use vstd::prelude::*;
use vstd::string::StringExecFns;

verus! {

/// The imports of one generated Go file, in the order of their names.
pub struct Deps {
    entries: Vec<(String, String)>,
    package: String,
}

/// The imports held in `entries`: their paths, by the name they are
/// imported under.
pub open spec fn map_of(entries: Seq<(String, String)>) -> Map<Seq<char>, Seq<char>> {
    Map::new(
        |k: Seq<char>| exists|i: int| 0 <= i < entries.len() && #[trigger] entries[i].0@ == k,
        |k: Seq<char>|
            entries[choose|i: int| 0 <= i < entries.len() && #[trigger] entries[i].0@ == k].1@,
    )
}

/// No name is imported twice.
pub open spec fn unique(entries: Seq<(String, String)>) -> bool {
    forall|i: int, j: int|
        0 <= i < j < entries.len() ==> #[trigger] entries[i].0@ != #[trigger] entries[j].0@
}

/// The names come in increasing order.
pub open spec fn sorted(entries: Seq<(String, String)>) -> bool {
    forall|i: int, j: int|
        0 <= i < j < entries.len() ==> text_lt(#[trigger] entries[i].0@, #[trigger] entries[j].0@)
}

/// The names and paths of `entries`.
pub open spec fn listing_of(entries: Seq<(String, String)>) -> Seq<(Seq<char>, Seq<char>)> {
    entries.map_values(|e: (String, String)| (e.0@, e.1@))
}

/// The line that imports `path` under `name`.
pub open spec fn import_line(name: Seq<char>, path: Seq<char>) -> Seq<char> {
    name + " \""@ + path + "\"\n"@
}

/// The lines that import the first `n` packages of `listing`.
pub open spec fn import_lines(listing: Seq<(Seq<char>, Seq<char>)>, n: nat) -> Seq<char>
    decreases n,
{
    if n == 0 || n > listing.len() {
        Seq::empty()
    } else {
        import_lines(listing, (n - 1) as nat) + import_line(
            listing[n - 1].0,
            listing[n - 1].1,
        )
    }
}

/// The Go import block of `listing`.
pub open spec fn import_block(listing: Seq<(Seq<char>, Seq<char>)>) -> Seq<char> {
    "import (\n"@ + import_lines(listing, listing.len()) + ")\n"@
}

proof fn lemma_sorted_unique(entries: Seq<(String, String)>)
    requires
        sorted(entries),
    ensures
        unique(entries),
{
    assert forall|i: int, j: int|
        0 <= i < j < entries.len() implies #[trigger] entries[i].0@ != #[trigger] entries[j].0@ by {
        if entries[i].0@ == entries[j].0@ {
            lemma_text_lt_irreflexive(entries[i].0@);
        }
    }
}

/// Inserting an entry whose name is new adds exactly that import.
proof fn lemma_insert_new(old: Seq<(String, String)>, k: int, x: (String, String))
    requires
        0 <= k <= old.len(),
        unique(old),
        unique(old.insert(k, x)),
        !map_of(old).contains_key(x.0@),
    ensures
        map_of(old.insert(k, x)) == map_of(old).insert(x.0@, x.1@),
{
    let new = old.insert(k, x);
    let before = map_of(old);
    let after = map_of(new);
    assert forall|key: Seq<char>| #[trigger] after.contains_key(key) == before.insert(x.0@, x.1@).contains_key(key) by {
        if before.contains_key(key) {
            let j = choose|j: int| 0 <= j < old.len() && #[trigger] old[j].0@ == key;
            if j < k {
                assert(new[j].0@ == key);
            } else {
                assert(new[j + 1].0@ == key);
            }
        }
        if key == x.0@ {
            assert(new[k].0@ == key);
        }
        if after.contains_key(key) && key != x.0@ {
            let j = choose|j: int| 0 <= j < new.len() && #[trigger] new[j].0@ == key;
            if j < k {
                assert(old[j].0@ == key);
            } else {
                assert(j != k);
                assert(old[j - 1].0@ == key);
            }
        }
    }
    assert forall|key: Seq<char>| #[trigger] after.contains_key(key) implies after[key] == before.insert(x.0@, x.1@)[key] by {
        let j = choose|j: int| 0 <= j < new.len() && #[trigger] new[j].0@ == key;
        if key == x.0@ {
            if j != k {
                if j < k {
                    assert(new[j].0@ != new[k].0@);
                } else {
                    assert(new[k].0@ != new[j].0@);
                }
            }
        } else {
            let j0 = choose|j0: int| 0 <= j0 < old.len() && #[trigger] old[j0].0@ == key;
            let jn = if j0 < k { j0 } else { j0 + 1 };
            assert(new[jn] == old[j0]);
            if j != jn {
                if j < jn {
                    assert(new[j].0@ != new[jn].0@);
                } else {
                    assert(new[jn].0@ != new[j].0@);
                }
            }
        }
    }
    assert(after =~= before.insert(x.0@, x.1@));
}

/// Replacing the path of an entry keeps its name and changes just that
/// import.
proof fn lemma_replace(old: Seq<(String, String)>, i: int, x: (String, String))
    requires
        0 <= i < old.len(),
        unique(old),
        old[i].0@ == x.0@,
    ensures
        unique(old.update(i, x)),
        map_of(old.update(i, x)) == map_of(old).insert(x.0@, x.1@),
{
    let new = old.update(i, x);
    let before = map_of(old);
    let after = map_of(new);
    assert forall|a: int, b: int| 0 <= a < b < new.len() implies #[trigger] new[a].0@ != #[trigger] new[b].0@ by {
        assert(old[a].0@ != old[b].0@);
    }
    assert forall|key: Seq<char>| #[trigger] after.contains_key(key) == before.insert(x.0@, x.1@).contains_key(key) by {
        if before.contains_key(key) {
            let j = choose|j: int| 0 <= j < old.len() && #[trigger] old[j].0@ == key;
            assert(new[j].0@ == key);
        }
        if after.contains_key(key) {
            let j = choose|j: int| 0 <= j < new.len() && #[trigger] new[j].0@ == key;
            assert(old[j].0@ == key);
        }
        if key == x.0@ {
            assert(new[i].0@ == key);
        }
    }
    assert forall|key: Seq<char>| #[trigger] after.contains_key(key) implies after[key] == before.insert(x.0@, x.1@)[key] by {
        let j = choose|j: int| 0 <= j < new.len() && #[trigger] new[j].0@ == key;
        if key == x.0@ {
            if j != i {
                if j < i {
                    assert(new[j].0@ != new[i].0@);
                } else {
                    assert(new[i].0@ != new[j].0@);
                }
            }
        } else {
            let j0 = choose|j0: int| 0 <= j0 < old.len() && #[trigger] old[j0].0@ == key;
            assert(new[j0] == old[j0]);
            if j != j0 {
                if j < j0 {
                    assert(new[j].0@ != new[j0].0@);
                } else {
                    assert(new[j0].0@ != new[j].0@);
                }
            }
        }
    }
    assert(after =~= before.insert(x.0@, x.1@));
}

impl Deps {
    /// The imported packages: their paths, by the name they are imported
    /// under.
    pub closed spec fn map(&self) -> Map<Seq<char>, Seq<char>> {
        map_of(self.entries@)
    }

    /// The imports, in the order of their names.
    pub closed spec fn listing(&self) -> Seq<(Seq<char>, Seq<char>)> {
        listing_of(self.entries@)
    }

    /// The names come in order, so none is imported twice.
    pub closed spec fn wf(&self) -> bool {
        sorted(self.entries@)
    }

    /// The listing holds each import once, in increasing order of names.
    pub proof fn lemma_listing(&self)
        requires
            self.wf(),
        ensures
            self.listing().len() == self.map().len(),
            forall|i: int, j: int|
                0 <= i < j < self.listing().len() ==> text_lt(
                    #[trigger] self.listing()[i].0,
                    #[trigger] self.listing()[j].0,
                ),
            forall|i: int|
                0 <= i < self.listing().len() ==> self.map().contains_key(
                    #[trigger] self.listing()[i].0,
                ) && self.map()[self.listing()[i].0] == self.listing()[i].1,
    {
        self.lemma_len();
        lemma_sorted_unique(self.entries@);
        assert forall|i: int| 0 <= i < self.listing().len() implies self.map().contains_key(
            #[trigger] self.listing()[i].0,
        ) && self.map()[self.listing()[i].0] == self.listing()[i].1 by {
            let k = self.entries@[i].0@;
            assert(self.map().contains_key(k));
            let j = choose|j: int| 0 <= j < self.entries@.len() && #[trigger] self.entries@[j].0@ == k;
            if j != i {
                if j < i {
                    assert(self.entries@[j].0@ != self.entries@[i].0@);
                } else {
                    assert(self.entries@[i].0@ != self.entries@[j].0@);
                }
            }
        }
    }

    /// The Go package path that holds the generated bindings.
    pub closed spec fn package_view(&self) -> Seq<char> {
        self.package@
    }

    /// The Go package path that holds the generated bindings.
    pub fn package(&self) -> (r: &String)
        ensures
            r@ == self.package_view(),
    {
        &self.package
    }

    /// No imports yet, for bindings in `package`.
    pub fn new(package: String) -> (r: Deps)
        ensures
            r.wf(),
            r.map() == Map::<Seq<char>, Seq<char>>::empty(),
            r.package_view() == package@,
    {
        let r = Deps { entries: Vec::new(), package };
        assert(r.map() =~= Map::<Seq<char>, Seq<char>>::empty());
        r
    }

    /// The number of imported packages.
    pub fn len(&self) -> (r: usize)
        requires
            self.wf(),
        ensures
            r == self.map().len(),
    {
        proof {
            self.lemma_len();
        }
        self.entries.len()
    }

    proof fn lemma_len(&self)
        requires
            self.wf(),
        ensures
            self.map().len() == self.entries@.len(),
    {
        lemma_sorted_unique(self.entries@);
        let keys = Seq::new(self.entries@.len(), |i: int| self.entries@[i].0@);
        assert forall|k: Seq<char>| self.map().dom().contains(k) <==> keys.to_set().contains(k) by {
            if self.map().dom().contains(k) {
                let i = choose|i: int| 0 <= i < self.entries@.len() && #[trigger] self.entries@[i].0@ == k;
                assert(keys[i] == k);
            }
            if keys.to_set().contains(k) {
                let i = choose|i: int| 0 <= i < keys.len() && keys[i] == k;
                assert(self.entries@[i].0@ == k);
            }
        }
        assert(self.map().dom() =~= keys.to_set());
        assert forall|i: int, j: int| 0 <= i < keys.len() && 0 <= j < keys.len() && i != j implies keys[i] != keys[j] by {
            if i < j {
                assert(self.entries@[i].0@ != self.entries@[j].0@);
            } else {
                assert(self.entries@[j].0@ != self.entries@[i].0@);
            }
        }
        assert(keys.no_duplicates());
        keys.unique_seq_to_set();
    }

    /// The path imported under `name`, if any.
    pub fn get(&self, name: &str) -> (r: Option<String>)
        requires
            self.wf(),
        ensures
            match r {
                Some(p) => self.map().contains_key(name@) && p@ == self.map()[name@],
                None => !self.map().contains_key(name@),
            },
    {
        match self.find(name) {
            Some(i) => Some(String::from_str(self.entries[i].1.as_str())),
            None => None,
        }
    }

    fn find(&self, name: &str) -> (r: Option<usize>)
        requires
            self.wf(),
        ensures
            match r {
                Some(i) => i < self.entries@.len() && self.entries@[i as int].0@ == name@
                    && self.map().contains_key(name@) && self.map()[name@]
                    == self.entries@[i as int].1@,
                None => !self.map().contains_key(name@),
            },
    {
        proof {
            lemma_sorted_unique(self.entries@);
        }
        let mut i: usize = 0;
        while i < self.entries.len()
            invariant
                i <= self.entries@.len(),
                unique(self.entries@),
                forall|k: int| 0 <= k < i ==> self.entries@[k].0@ != name@,
            decreases self.entries@.len() - i,
        {
            if same_text(self.entries[i].0.as_str(), name) {
                let ghost j = choose|j: int|
                    0 <= j < self.entries@.len() && #[trigger] self.entries@[j].0@ == name@;
                assert(self.map().contains_key(name@));
                assert(j == i) by {
                    if j < i {
                        assert(self.entries@[j].0@ != self.entries@[i as int].0@);
                    } else if j > i {
                        assert(self.entries@[i as int].0@ != self.entries@[j].0@);
                    }
                }
                return Some(i);
            }
            i = i + 1;
        }
        None
    }

    /// Where an import under the new name `name` goes: after every name
    /// before it, and before every name after it.
    fn position(&self, name: &str) -> (k: usize)
        requires
            self.wf(),
            !self.map().contains_key(name@),
        ensures
            k <= self.entries@.len(),
            forall|j: int| 0 <= j < k ==> text_lt(#[trigger] self.entries@[j].0@, name@),
            forall|j: int| k <= j < self.entries@.len() ==> text_lt(name@, #[trigger] self.entries@[j].0@),
    {
        let mut i: usize = 0;
        while i < self.entries.len()
            invariant
                i <= self.entries@.len(),
                sorted(self.entries@),
                !self.map().contains_key(name@),
                forall|j: int| 0 <= j < i ==> text_lt(#[trigger] self.entries@[j].0@, name@),
            decreases self.entries@.len() - i,
        {
            if !str_lt(self.entries[i].0.as_str(), name) {
                proof {
                    let ki = self.entries@[i as int].0@;
                    if ki == name@ {
                        assert(self.map().contains_key(name@));
                    }
                    lemma_text_lt_total(ki, name@);
                    assert forall|j: int| i <= j < self.entries@.len() implies text_lt(name@, #[trigger] self.entries@[j].0@) by {
                        if j > i {
                            lemma_text_lt_transitive(name@, ki, self.entries@[j].0@);
                        }
                    }
                }
                return i;
            }
            i = i + 1;
        }
        i
    }

    /// Imports `path` under `name`, and hands back the path that `name`
    /// stood for before, if any.
    pub fn insert(&mut self, name: String, path: String) -> (r: Option<String>)
        requires
            old(self).wf(),
        ensures
            final(self).wf(),
            final(self).package_view() == old(self).package_view(),
            final(self).map() == old(self).map().insert(name@, path@),
            match r {
                Some(p) => old(self).map().contains_key(name@) && p@ == old(self).map()[name@],
                None => !old(self).map().contains_key(name@),
            },
    {
        proof {
            lemma_sorted_unique(self.entries@);
        }
        match self.find(name.as_str()) {
            Some(i) => {
                let previous = String::from_str(self.entries[i].1.as_str());
                let ghost old_entries = self.entries@;
                self.entries.set(i, (name, path));
                proof {
                    lemma_replace(old_entries, i as int, self.entries@[i as int]);
                    assert(self.entries@ == old_entries.update(i as int, self.entries@[i as int]));
                    assert forall|a: int, b: int| 0 <= a < b < self.entries@.len() implies text_lt(
                        #[trigger] self.entries@[a].0@,
                        #[trigger] self.entries@[b].0@,
                    ) by {
                        assert(self.entries@[a].0@ == old_entries[a].0@);
                        assert(self.entries@[b].0@ == old_entries[b].0@);
                    }
                }
                Some(previous)
            },
            None => {
                let k = self.position(name.as_str());
                let ghost old_entries = self.entries@;
                let ghost x = (name, path);
                self.entries.insert(k, (name, path));
                proof {
                    let new = self.entries@;
                    assert(new == old_entries.insert(k as int, new[k as int]));
                    assert forall|a: int, b: int| 0 <= a < b < new.len() implies text_lt(
                        #[trigger] new[a].0@,
                        #[trigger] new[b].0@,
                    ) by {
                        if a < k && b < k {
                            assert(new[a] == old_entries[a] && new[b] == old_entries[b]);
                        } else if a < k && b == k {
                            assert(new[a] == old_entries[a]);
                        } else if a < k {
                            assert(new[a] == old_entries[a] && new[b] == old_entries[b - 1]);
                        } else if a == k {
                            assert(new[b] == old_entries[b - 1]);
                        } else {
                            assert(new[a] == old_entries[a - 1] && new[b] == old_entries[b - 1]);
                        }
                    }
                    lemma_sorted_unique(new);
                    lemma_insert_new(old_entries, k as int, new[k as int]);
                }
                None
            },
        }
    }

    /// The Go import block: one line per import, in the order of names.
    pub fn render(&self) -> (r: String)
        requires
            self.wf(),
        ensures
            r@ == import_block(self.listing()),
    {
        let mut out = String::from_str("import (\n");
        let ghost listing = self.listing();
        let ghost head = out@;
        let mut i: usize = 0;
        while i < self.entries.len()
            invariant
                i <= self.entries@.len(),
                listing == listing_of(self.entries@),
                out@ == head + import_lines(listing, i as nat),
            decreases self.entries@.len() - i,
        {
            out.append(self.entries[i].0.as_str());
            out.append(" \"");
            out.append(self.entries[i].1.as_str());
            out.append("\"\n");
            assert(out@ =~= head + import_lines(listing, (i + 1) as nat));
            i = i + 1;
        }
        out.append(")\n");
        out
    }

    /// Imports the package `path` under `name`, and hands back `name`.
    fn import_static(&mut self, name: &'static str, path: &'static str) -> (r: &'static str)
        requires
            old(self).wf(),
        ensures
            final(self).wf(),
            final(self).package_view() == old(self).package_view(),
            final(self).map() == old(self).map().insert(name@, path@),
            r == name,
    {
        self.insert(String::from_str(name), String::from_str(path));
        name
    }

    /// Imports `path` under `name`, which must not stand for another path
    /// already, and hands back `name`.
    pub fn import(&mut self, name: String, path: String) -> (r: String)
        requires
            old(self).wf(),
            old(self).map().contains_key(name@) ==> old(self).map()[name@] == path@,
        ensures
            final(self).wf(),
            final(self).package_view() == old(self).package_view(),
            final(self).map() == old(self).map().insert(name@, path@),
            r@ == name@,
    {
        let r = String::from_str(name.as_str());
        self.insert(name, path);
        r
    }

    /// Imports `encoding/binary` as `binary`, and hands back `binary`.
    pub fn binary(&mut self) -> (r: &'static str)
        requires
            old(self).wf(),
        ensures
            final(self).wf(),
            final(self).package_view() == old(self).package_view(),
            final(self).map() == old(self).map().insert("binary"@, "encoding/binary"@),
            r@ == "binary"@,
    {
        self.import_static("binary", "encoding/binary")
    }

    /// Imports `bytes` as `bytes`, and hands back `bytes`.
    pub fn bytes(&mut self) -> (r: &'static str)
        requires
            old(self).wf(),
        ensures
            final(self).wf(),
            final(self).package_view() == old(self).package_view(),
            final(self).map() == old(self).map().insert("bytes"@, "bytes"@),
            r@ == "bytes"@,
    {
        self.import_static("bytes", "bytes")
    }

    /// Imports `context` as `context`, and hands back `context`.
    pub fn context(&mut self) -> (r: &'static str)
        requires
            old(self).wf(),
        ensures
            final(self).wf(),
            final(self).package_view() == old(self).package_view(),
            final(self).map() == old(self).map().insert("context"@, "context"@),
            r@ == "context"@,
    {
        self.import_static("context", "context")
    }

    /// Imports `errors` as `errors`, and hands back `errors`.
    pub fn errors(&mut self) -> (r: &'static str)
        requires
            old(self).wf(),
        ensures
            final(self).wf(),
            final(self).package_view() == old(self).package_view(),
            final(self).map() == old(self).map().insert("errors"@, "errors"@),
            r@ == "errors"@,
    {
        self.import_static("errors", "errors")
    }

    /// Imports `fmt` as `fmt`, and hands back `fmt`.
    pub fn fmt(&mut self) -> (r: &'static str)
        requires
            old(self).wf(),
        ensures
            final(self).wf(),
            final(self).package_view() == old(self).package_view(),
            final(self).map() == old(self).map().insert("fmt"@, "fmt"@),
            r@ == "fmt"@,
    {
        self.import_static("fmt", "fmt")
    }

    /// Imports `golang.org/x/sync/errgroup` as `errgroup`, and hands back `errgroup`.
    pub fn errgroup(&mut self) -> (r: &'static str)
        requires
            old(self).wf(),
        ensures
            final(self).wf(),
            final(self).package_view() == old(self).package_view(),
            final(self).map() == old(self).map().insert("errgroup"@, "golang.org/x/sync/errgroup"@),
            r@ == "errgroup"@,
    {
        self.import_static("errgroup", "golang.org/x/sync/errgroup")
    }

    /// Imports `io` as `io`, and hands back `io`.
    pub fn io(&mut self) -> (r: &'static str)
        requires
            old(self).wf(),
        ensures
            final(self).wf(),
            final(self).package_view() == old(self).package_view(),
            final(self).map() == old(self).map().insert("io"@, "io"@),
            r@ == "io"@,
    {
        self.import_static("io", "io")
    }

    /// Imports `math` as `math`, and hands back `math`.
    pub fn math(&mut self) -> (r: &'static str)
        requires
            old(self).wf(),
        ensures
            final(self).wf(),
            final(self).package_view() == old(self).package_view(),
            final(self).map() == old(self).map().insert("math"@, "math"@),
            r@ == "math"@,
    {
        self.import_static("math", "math")
    }

    /// Imports `log/slog` as `slog`, and hands back `slog`.
    pub fn slog(&mut self) -> (r: &'static str)
        requires
            old(self).wf(),
        ensures
            final(self).wf(),
            final(self).package_view() == old(self).package_view(),
            final(self).map() == old(self).map().insert("slog"@, "log/slog"@),
            r@ == "slog"@,
    {
        self.import_static("slog", "log/slog")
    }

    /// Imports `strings` as `strings`, and hands back `strings`.
    pub fn strings(&mut self) -> (r: &'static str)
        requires
            old(self).wf(),
        ensures
            final(self).wf(),
            final(self).package_view() == old(self).package_view(),
            final(self).map() == old(self).map().insert("strings"@, "strings"@),
            r@ == "strings"@,
    {
        self.import_static("strings", "strings")
    }

    /// Imports `unicode/utf8` as `utf8`, and hands back `utf8`.
    pub fn utf8(&mut self) -> (r: &'static str)
        requires
            old(self).wf(),
        ensures
            final(self).wf(),
            final(self).package_view() == old(self).package_view(),
            final(self).map() == old(self).map().insert("utf8"@, "unicode/utf8"@),
            r@ == "utf8"@,
    {
        self.import_static("utf8", "unicode/utf8")
    }

    /// Imports `github.com/wrpc/wrpc/go` as `wrpc`, and hands back `wrpc`.
    pub fn wrpc(&mut self) -> (r: &'static str)
        requires
            old(self).wf(),
        ensures
            final(self).wf(),
            final(self).package_view() == old(self).package_view(),
            final(self).map() == old(self).map().insert("wrpc"@, "github.com/wrpc/wrpc/go"@),
            r@ == "wrpc"@,
    {
        self.import_static("wrpc", "github.com/wrpc/wrpc/go")
    }
}

} // verus!
