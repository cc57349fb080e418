//! What the Go generator keeps while it walks a world: the import name and
//! path of each interface it named, and the paths of the bindings whose
//! handlers the world's `Serve` function takes.
use crate::deps::Deps;
use crate::modules::{import_name, import_path, joined, views};
use vstd::prelude::*;
use vstd::string::StringExecFns;

verus! {

/// The import path of the bindings at `path` below the Go package
/// `package` (see [`import_path`]).
pub open spec fn import_path_of(package: Seq<char>, path: Seq<Seq<char>>) -> Seq<char> {
    if package.len() == 0 {
        joined(path, "/"@)
    } else {
        package + "/"@ + joined(path, "/"@)
    }
}

/// Interface names and export paths of one world.
pub struct Exports {
    names: Vec<(u64, String, String)>,
    paths: Vec<String>,
}

/// The names held in `names`: import name and path, by interface id.
pub open spec fn names_of(names: Seq<(u64, String, String)>) -> Map<u64, (Seq<char>, Seq<char>)> {
    Map::new(
        |id: u64| exists|i: int| 0 <= i < names.len() && #[trigger] names[i].0 == id,
        |id: u64|
            {
                let e = names[choose|i: int| 0 <= i < names.len() && #[trigger] names[i].0 == id];
                (e.1@, e.2@)
            },
    )
}

/// No interface is named twice.
pub open spec fn distinct_ids(names: Seq<(u64, String, String)>) -> bool {
    forall|i: int, j: int| 0 <= i < j < names.len() ==> #[trigger] names[i].0 != #[trigger] names[j].0
}

impl Exports {
    /// The import name and path of each named interface, by id.
    pub closed spec fn names(&self) -> Map<u64, (Seq<char>, Seq<char>)> {
        names_of(self.names@)
    }

    /// The paths of the exported bindings, in the order they were added.
    pub closed spec fn export_paths_view(&self) -> Seq<Seq<char>> {
        views(self.paths@)
    }

    pub closed spec fn wf(&self) -> bool {
        distinct_ids(self.names@)
    }

    /// Nothing named or exported yet.
    pub fn new() -> (r: Exports)
        ensures
            r.wf(),
            r.names() == Map::<u64, (Seq<char>, Seq<char>)>::empty(),
            r.export_paths_view() == Seq::<Seq<char>>::empty(),
    {
        let r = Exports { names: Vec::new(), paths: Vec::new() };
        assert(r.names() =~= Map::<u64, (Seq<char>, Seq<char>)>::empty());
        assert(r.export_paths_view() =~= Seq::<Seq<char>>::empty());
        r
    }

    fn find(&self, id: u64) -> (r: Option<usize>)
        requires
            self.wf(),
        ensures
            match r {
                Some(i) => i < self.names@.len() && self.names@[i as int].0 == id
                    && self.names().contains_key(id) && self.names()[id] == (
                    self.names@[i as int].1@,
                    self.names@[i as int].2@,
                ),
                None => !self.names().contains_key(id),
            },
    {
        let mut i: usize = 0;
        while i < self.names.len()
            invariant
                i <= self.names@.len(),
                self.wf(),
                forall|k: int| 0 <= k < i ==> self.names@[k].0 != id,
            decreases self.names@.len() - i,
        {
            if self.names[i].0 == id {
                let ghost j = choose|j: int| 0 <= j < self.names@.len() && #[trigger] self.names@[j].0 == id;
                assert(self.names().contains_key(id));
                assert(j == i) by {
                    if j < i {
                        assert(self.names@[j].0 != self.names@[i as int].0);
                    } else if j > i {
                        assert(self.names@[i as int].0 != self.names@[j].0);
                    }
                }
                return Some(i);
            }
            i = i + 1;
        }
        None
    }

    /// Names interface `id` after its module path `path`: its parts joined
    /// by `__` to import it under, and by `/` below `package` to import it
    /// from.
    pub fn name_interface(&mut self, id: u64, package: &str, path: &Vec<String>)
        requires
            old(self).wf(),
        ensures
            final(self).wf(),
            final(self).export_paths_view() == old(self).export_paths_view(),
            final(self).names() == old(self).names().insert(
                id,
                (joined(views(path@), "__"@), import_path_of(package@, views(path@))),
            ),
    {
        let entry = (id, import_name(path), import_path(package, path));
        let ghost value = (entry.1@, entry.2@);
        let ghost before = self.names();
        let ghost old_names = self.names@;
        match self.find(id) {
            Some(i) => {
                self.names.set(i, entry);
                let ghost new = self.names@;
                assert forall|a: int, b: int| 0 <= a < b < new.len() implies #[trigger] new[a].0 != #[trigger] new[b].0 by {
                    assert(old_names[a].0 != old_names[b].0);
                }
                assert forall|k: u64| #[trigger] self.names().contains_key(k) == before.insert(id, value).contains_key(k) by {
                    if before.contains_key(k) {
                        let j = choose|j: int| 0 <= j < old_names.len() && #[trigger] old_names[j].0 == k;
                        assert(new[j].0 == k);
                    }
                    if self.names().contains_key(k) {
                        let j = choose|j: int| 0 <= j < new.len() && #[trigger] new[j].0 == k;
                        assert(old_names[j].0 == k);
                    }
                }
                assert forall|k: u64| #[trigger] self.names().contains_key(k) implies self.names()[k] == before.insert(id, value)[k] by {
                    let j = choose|j: int| 0 <= j < new.len() && #[trigger] new[j].0 == k;
                    if k == id {
                        if j != i {
                            if j < i { assert(new[j].0 != new[i as int].0); } else { assert(new[i as int].0 != new[j].0); }
                        }
                    } else {
                        let j0 = choose|j0: int| 0 <= j0 < old_names.len() && #[trigger] old_names[j0].0 == k;
                        assert(new[j0] == old_names[j0]);
                        if j != j0 {
                            if j < j0 { assert(new[j].0 != new[j0].0); } else { assert(new[j0].0 != new[j].0); }
                        }
                    }
                }
                assert(self.names() =~= before.insert(id, value));
            },
            None => {
                self.names.push(entry);
                let ghost new = self.names@;
                let ghost n = old_names.len() as int;
                assert forall|a: int, b: int| 0 <= a < b < new.len() implies #[trigger] new[a].0 != #[trigger] new[b].0 by {
                    if b == n {
                        if old_names[a].0 == id {
                            assert(before.contains_key(id));
                        }
                    } else {
                        assert(old_names[a].0 != old_names[b].0);
                    }
                }
                assert forall|k: u64| #[trigger] self.names().contains_key(k) == before.insert(id, value).contains_key(k) by {
                    if before.contains_key(k) {
                        let j = choose|j: int| 0 <= j < old_names.len() && #[trigger] old_names[j].0 == k;
                        assert(new[j].0 == k);
                    }
                    if k == id {
                        assert(new[n].0 == k);
                    }
                    if self.names().contains_key(k) && k != id {
                        let j = choose|j: int| 0 <= j < new.len() && #[trigger] new[j].0 == k;
                        assert(j != n);
                        assert(old_names[j].0 == k);
                    }
                }
                assert forall|k: u64| #[trigger] self.names().contains_key(k) implies self.names()[k] == before.insert(id, value)[k] by {
                    let j = choose|j: int| 0 <= j < new.len() && #[trigger] new[j].0 == k;
                    if k == id {
                        if j != n { assert(new[j].0 != new[n].0); }
                    } else {
                        let j0 = choose|j0: int| 0 <= j0 < old_names.len() && #[trigger] old_names[j0].0 == k;
                        assert(new[j0] == old_names[j0]);
                        if j != j0 {
                            if j < j0 { assert(new[j].0 != new[j0].0); } else { assert(new[j0].0 != new[j].0); }
                        }
                    }
                }
                assert(self.names() =~= before.insert(id, value));
            },
        }
    }

    /// The import name and path of interface `id`, if it was named.
    pub fn interface_name(&self, id: u64) -> (r: Option<(String, String)>)
        requires
            self.wf(),
        ensures
            match r {
                Some(p) => self.names().contains_key(id) && (p.0@, p.1@) == self.names()[id],
                None => !self.names().contains_key(id),
            },
    {
        match self.find(id) {
            Some(i) => Some(
                (
                    String::from_str(self.names[i].1.as_str()),
                    String::from_str(self.names[i].2.as_str()),
                ),
            ),
            None => None,
        }
    }

    /// Records that the bindings of the named interface `id` export
    /// handlers: its package is imported into `deps` under its import name,
    /// and that name becomes an export path. `false`, with nothing changed,
    /// where `id` was never named.
    pub fn add_interface_export(&mut self, deps: &mut Deps, id: u64) -> (r: bool)
        requires
            old(self).wf(),
            old(deps).wf(),
            old(self).names().contains_key(id) && old(deps).map().contains_key(
                old(self).names()[id].0,
            ) ==> old(deps).map()[old(self).names()[id].0] == old(self).names()[id].1,
        ensures
            final(self).wf(),
            final(deps).wf(),
            final(self).names() == old(self).names(),
            final(deps).package_view() == old(deps).package_view(),
            r == old(self).names().contains_key(id),
            r ==> final(self).export_paths_view() == old(self).export_paths_view().push(
                old(self).names()[id].0,
            ) && final(deps).map() == old(deps).map().insert(
                old(self).names()[id].0,
                old(self).names()[id].1,
            ),
            !r ==> final(self).export_paths_view() == old(self).export_paths_view(),
            !r ==> final(deps).map() == old(deps).map(),
    {
        match self.interface_name(id) {
            Some((name, path)) => {
                let ghost before = self.export_paths_view();
                let imported = deps.import(name, path);
                self.paths.push(imported);
                assert(self.export_paths_view() =~= before.push(imported@));
                true
            },
            None => false,
        }
    }

    /// Records that the world itself exports handlers: an empty export path.
    pub fn add_world_export(&mut self)
        requires
            old(self).wf(),
        ensures
            final(self).wf(),
            final(self).names() == old(self).names(),
            final(self).export_paths_view() == old(self).export_paths_view().push(
                Seq::<char>::empty(),
            ),
    {
        let ghost before = self.export_paths_view();
        self.paths.push(String::new());
        assert(self.export_paths_view() =~= before.push(Seq::<char>::empty()));
    }

    /// The export paths, in the order they were added, for
    /// [`crate::serve::serve_function`].
    pub fn export_paths(&self) -> (r: &Vec<String>)
        ensures
            views(r@) == self.export_paths_view(),
    {
        &self.paths
    }
}

} // verus!
