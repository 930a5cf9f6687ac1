//! The crates of a Cargo workspace and the lookup of the crate that a file
//! belongs to.

use vstd::prelude::*;
use crate::text::{
    chars_of, is_prefix, lemma_text_le_total, lemma_text_le_transitive, same_text, starts_with_text,
    text_le, text_le_exec, views,
};

verus! {

broadcast use vstd::string::group_string_axioms;

/// The map that a list of key/value pairs describes, later pairs winning.
pub open spec fn pairs_map(s: Seq<(String, String)>) -> Map<Seq<char>, Seq<char>>
    decreases s.len(),
{
    if s.len() == 0 {
        Map::empty()
    } else {
        pairs_map(s.drop_last()).insert(s.last().0@, s.last().1@)
    }
}

/// No key occurs twice in a list of pairs.
pub open spec fn unique_keys(s: Seq<(String, String)>) -> bool {
    forall|i: int, j: int| 0 <= i < s.len() && 0 <= j < s.len() && i != j ==> s[i].0@ != s[j].0@
}

proof fn lemma_pairs_map_keys(s: Seq<(String, String)>)
    ensures
        forall|k: Seq<char>| #[trigger]
            pairs_map(s).contains_key(k) <==> exists|i: int| 0 <= i < s.len() && s[i].0@ == k,
    decreases s.len(),
{
    if s.len() > 0 {
        lemma_pairs_map_keys(s.drop_last());
        assert forall|k: Seq<char>| #[trigger]
            pairs_map(s).contains_key(k) implies exists|i: int| 0 <= i < s.len() && s[i].0@ == k by {
            if k != s.last().0@ {
                assert(pairs_map(s.drop_last()).contains_key(k));
                let i = choose|i: int| 0 <= i < s.drop_last().len() && s.drop_last()[i].0@ == k;
                assert(s[i].0@ == k);
            } else {
                assert(s[s.len() - 1].0@ == k);
            }
        }
        assert forall|k: Seq<char>|
            (exists|i: int| 0 <= i < s.len() && s[i].0@ == k) implies #[trigger] pairs_map(
            s,
        ).contains_key(k) by {
            let i = choose|i: int| 0 <= i < s.len() && s[i].0@ == k;
            if i < s.len() - 1 {
                assert(s.drop_last()[i].0@ == k);
                assert(pairs_map(s.drop_last()).contains_key(k));
            }
        }
    }
}

proof fn lemma_pairs_map_values(s: Seq<(String, String)>)
    requires
        unique_keys(s),
    ensures
        forall|i: int| 0 <= i < s.len() ==> #[trigger] pairs_map(s)[s[i].0@] == s[i].1@,
    decreases s.len(),
{
    if s.len() > 0 {
        let t = s.drop_last();
        assert(unique_keys(t)) by {
            assert forall|i: int, j: int| 0 <= i < t.len() && 0 <= j < t.len() && i != j implies t[i].0@
                != t[j].0@ by {
                assert(s[i].0@ != s[j].0@);
            }
        }
        lemma_pairs_map_values(t);
        assert forall|i: int| 0 <= i < s.len() implies #[trigger] pairs_map(s)[s[i].0@] == s[i].1@ by {
            if i < s.len() - 1 {
                assert(s[i].0@ != s[s.len() - 1].0@);
                assert(t[i] == s[i]);
                assert(pairs_map(t)[t[i].0@] == t[i].1@);
            }
        }
    }
}

proof fn lemma_pairs_map_remove(s: Seq<(String, String)>, i: int)
    requires
        unique_keys(s),
        0 <= i < s.len(),
    ensures
        pairs_map(s.remove(i)) == pairs_map(s).remove(s[i].0@),
        unique_keys(s.remove(i)),
    decreases s.len(),
{
    let t = s.drop_last();
    assert(unique_keys(t)) by {
        assert forall|a: int, b: int| 0 <= a < t.len() && 0 <= b < t.len() && a != b implies t[a].0@
            != t[b].0@ by {
            assert(s[a].0@ != s[b].0@);
        }
    }
    assert(unique_keys(s.remove(i))) by {
        let r = s.remove(i);
        assert forall|a: int, b: int| 0 <= a < r.len() && 0 <= b < r.len() && a != b implies r[a].0@
            != r[b].0@ by {
            let a2 = if a < i { a } else { a + 1 };
            let b2 = if b < i { b } else { b + 1 };
            assert(r[a] == s[a2]);
            assert(r[b] == s[b2]);
        }
    }
    lemma_pairs_map_keys(t);
    if i == s.len() - 1 {
        assert(s.remove(i) =~= t);
        assert(!pairs_map(t).contains_key(s[i].0@)) by {
            if pairs_map(t).contains_key(s[i].0@) {
                let j = choose|j: int| 0 <= j < t.len() && t[j].0@ == s[i].0@;
                assert(s[j].0@ != s[i].0@);
            }
        }
        assert(pairs_map(s).remove(s[i].0@) =~= pairs_map(t));
    } else {
        lemma_pairs_map_remove(t, i);
        assert(s.remove(i) =~= t.remove(i).push(s.last()));
        assert(s.remove(i).drop_last() =~= t.remove(i));
        assert(s[i].0@ != s.last().0@);
        assert(pairs_map(s.remove(i)) =~= pairs_map(s).remove(s[i].0@));
    }
}

/// A map from strings to strings, keyed by the text of the key.
#[derive(Debug)]
pub struct PathIndex {
    entries: Vec<(String, String)>,
}

impl Clone for PathIndex {
    fn clone(&self) -> (c: Self)
        ensures
            c@ == self@,
    {
        proof {
            use_type_invariant(self);
        }
        let mut entries: Vec<(String, String)> = Vec::new();
        let n = self.entries.len();
        for i in 0..n
            invariant
                n == self.entries@.len(),
                entries@ == self.entries@.take(i as int),
        {
            let (k, v) = &self.entries[i];
            entries.push((k.clone(), v.clone()));
            assert(self.entries@.take(i + 1) == self.entries@.take(i as int).push(self.entries@[i as int]));
        }
        assert(self.entries@.take(n as int) == self.entries@);
        PathIndex { entries }
    }
}

impl View for PathIndex {
    type V = Map<Seq<char>, Seq<char>>;

    closed spec fn view(&self) -> Map<Seq<char>, Seq<char>> {
        pairs_map(self.entries@)
    }
}

impl PathIndex {
    /// The internal list holds each key once.
    #[verifier::type_invariant]
    closed spec fn wf(&self) -> bool {
        unique_keys(self.entries@)
    }

    /// An empty map.
    pub fn new() -> (m: PathIndex)
        ensures
            m@ == Map::<Seq<char>, Seq<char>>::empty(),
    {
        PathIndex { entries: Vec::new() }
    }

    /// Maps `key` to `value`, and returns what `key` was mapped to before.
    pub fn insert(&mut self, key: String, value: String) -> (previous: Option<String>)
        ensures
            final(self)@ == old(self)@.insert(key@, value@),
            match previous {
                Some(p) => old(self)@.contains_key(key@) && old(self)@[key@] == p@,
                None => !old(self)@.contains_key(key@),
            },
    {
        proof {
            use_type_invariant(&*self);
        }
        let mut entries: Vec<(String, String)> = Vec::new();
        std::mem::swap(&mut entries, &mut self.entries);
        let n = entries.len();
        let mut found: Option<usize> = None;
        for i in 0..n
            invariant
                n == entries@.len(),
                found matches Some(j) ==> j < n && entries@[j as int].0@ == key@,
                found is None ==> forall|j: int| 0 <= j < i ==> entries@[j].0@ != key@,
        {
            if found.is_none() && same_text(entries[i].0.as_str(), key.as_str()) {
                found = Some(i);
            }
        }
        proof {
            lemma_pairs_map_keys(entries@);
            lemma_pairs_map_values(entries@);
        }
        let ghost before = entries@;
        let previous = match found {
            Some(j) => {
                let (_, old_value) = entries.remove(j);
                proof {
                    lemma_pairs_map_remove(before, j as int);
                    lemma_pairs_map_keys(entries@);
                }
                let ghost removed = entries@;
                entries.push((key, value));
                assert(entries@.drop_last() == removed);
                assert(unique_keys(entries@)) by {
                    let s = entries@;
                    assert forall|a: int, b: int| 0 <= a < s.len() && 0 <= b < s.len() && a != b implies s[a].0@
                        != s[b].0@ by {
                        if a == s.len() - 1 {
                            assert(removed[b].0@ != key@) by {
                                assert(!pairs_map(removed).contains_key(key@));
                            }
                        } else if b == s.len() - 1 {
                            assert(!pairs_map(removed).contains_key(key@));
                            assert(removed[a] == s[a]);
                        }
                    }
                }
                assert(pairs_map(entries@) =~= pairs_map(before).insert(key@, value@));
                Some(old_value)
            },
            None => {
                entries.push((key, value));
                assert(entries@.drop_last() == before);
                assert(unique_keys(entries@)) by {
                    let s = entries@;
                    assert forall|a: int, b: int| 0 <= a < s.len() && 0 <= b < s.len() && a != b implies s[a].0@
                        != s[b].0@ by {
                        if a == s.len() - 1 {
                            assert(before[b] == s[b]);
                        } else if b == s.len() - 1 {
                            assert(before[a] == s[a]);
                        }
                    }
                }
                None
            },
        };
        self.entries = entries;
        previous
    }
}


#[verifier::external_type_specification]
#[verifier::external_body]
pub struct ExPathBuf(std::path::PathBuf);

/// `PathBuf::clone`: a copy of the path. Nothing is stated of it, the path
/// being opaque here.
pub assume_specification[ <std::path::PathBuf as Clone>::clone ](p: &std::path::PathBuf) -> (c: std::path::PathBuf);

/// The crates of a workspace and the directory of each.
#[derive(Debug, Clone)]
pub struct WorkspaceInfo {
    pub root: std::path::PathBuf,
    pub crates: Vec<WorkspaceCrate>,
    pub crate_by_path: PathIndex,
}

/// One crate of a workspace.
#[derive(Debug, Clone)]
pub struct WorkspaceCrate {
    pub name: String,
    pub manifest_path: std::path::PathBuf,
    pub publish: bool,
}

/// `k` is a directory of `m` that holds the file at `path`.
pub open spec fn owns(m: Map<Seq<char>, Seq<char>>, path: Seq<char>, k: Seq<char>) -> bool {
    m.contains_key(k) && is_prefix(k, path)
}

/// `k` is the longest directory of `m` that holds the file at `path`.
pub open spec fn longest_owner(m: Map<Seq<char>, Seq<char>>, path: Seq<char>, k: Seq<char>) -> bool {
    owns(m, path, k) && forall|k2: Seq<char>| #[trigger] owns(m, path, k2) ==> k2.len() <= k.len()
}

/// The names of a list of crates.
pub open spec fn crate_names_of(crates: Seq<WorkspaceCrate>) -> Seq<Seq<char>> {
    crates.map_values(|c: WorkspaceCrate| c.name@)
}

/// A list of texts in lexicographic order.
pub open spec fn sorted_texts(s: Seq<Seq<char>>) -> bool {
    forall|i: int, j: int| 0 <= i < j < s.len() ==> text_le(#[trigger] s[i], #[trigger] s[j])
}

impl WorkspaceInfo {
    /// The crate whose directory is the longest prefix of `file_path`, if
    /// any directory is a prefix of it.
    pub fn find_crate_for_path(&self, file_path: &str) -> (r: Option<String>)
        ensures
            r is None <==> forall|k: Seq<char>| !owns(self.crate_by_path@, file_path@, k),
            r matches Some(name) ==> exists|k: Seq<char>|
                longest_owner(self.crate_by_path@, file_path@, k) && self.crate_by_path@[k]
                    == name@,
    {
        proof {
            use_type_invariant(&self.crate_by_path);
        }
        let entries = &self.crate_by_path.entries;
        let ghost m = self.crate_by_path@;
        let n = entries.len();
        let mut best: Option<usize> = None;
        let mut best_len: usize = 0;
        for i in 0..n
            invariant
                n == entries@.len(),
                best is None ==> forall|j: int| 0 <= j < i ==> !is_prefix(#[trigger] entries@[j].0@, file_path@),
                best matches Some(b) ==> {
                    &&& b < i
                    &&& is_prefix(entries@[b as int].0@, file_path@)
                    &&& best_len == entries@[b as int].0@.len()
                    &&& forall|j: int| 0 <= j < i && is_prefix(#[trigger] entries@[j].0@, file_path@) ==> entries@[j].0@.len() <= best_len
                },
        {
            let key = entries[i].0.as_str();
            if starts_with_text(file_path, key) {
                let len = chars_of(key).len();
                let better = match best {
                    Some(_) => len > best_len,
                    None => true,
                };
                if better {
                    best = Some(i);
                    best_len = len;
                }
            }
        }
        proof {
            lemma_pairs_map_keys(entries@);
            lemma_pairs_map_values(entries@);
        }
        match best {
            Some(b) => {
                let name = entries[b].1.clone();
                let ghost k = entries@[b as int].0@;
                assert(m[k] == entries@[b as int].1@);
                assert forall|k2: Seq<char>| #[trigger] owns(m, file_path@, k2) implies k2.len() <= k.len() by {
                    let j = choose|j: int| 0 <= j < entries@.len() && entries@[j].0@ == k2;
                    assert(is_prefix(entries@[j].0@, file_path@));
                }
                assert(longest_owner(m, file_path@, k));
                Some(name)
            },
            None => {
                assert forall|k: Seq<char>| !owns(m, file_path@, k) by {
                    if owns(m, file_path@, k) {
                        let j = choose|j: int| 0 <= j < entries@.len() && entries@[j].0@ == k;
                        assert(is_prefix(entries@[j].0@, file_path@));
                    }
                }
                None
            },
        }
    }

    /// The names of the workspace's crates, in lexicographic order.
    pub fn crate_names(&self) -> (names: Vec<String>)
        ensures
            views(names@).to_multiset() == crate_names_of(self.crates@).to_multiset(),
            sorted_texts(views(names@)),
    {
        broadcast use vstd::seq_lib::to_multiset_insert, vstd::seq_lib::to_multiset_build, vstd::seq_lib::group_to_multiset_ensures;
        let mut names: Vec<String> = Vec::new();
        let n = self.crates.len();
        assert(views(names@) =~= crate_names_of(self.crates@).take(0));
        for i in 0..n
            invariant
                n == self.crates@.len(),
                views(names@).to_multiset() == crate_names_of(self.crates@).take(i as int).to_multiset(),
                sorted_texts(views(names@)),
        {
            let x = self.crates[i].name.clone();
            assert(x@ == crate_names_of(self.crates@)[i as int]);
            let xc = chars_of(x.as_str());
            let mut pos: usize = 0;
            while pos < names.len() && text_le_exec(chars_of(names[pos].as_str()).as_slice(), xc.as_slice())
                invariant
                    pos <= names@.len(),
                    xc@ == x@,
                    forall|j: int| 0 <= j < pos ==> text_le(#[trigger] names@[j]@, x@),
                decreases names.len() - pos,
            {
                pos = pos + 1;
            }
            let ghost before = views(names@);
            names.insert(pos, x);
            proof {
                assert(views(names@) =~= before.insert(pos as int, x@));
                let s = views(names@);
                assert forall|a: int, b: int| 0 <= a < b < s.len() implies text_le(#[trigger] s[a], #[trigger] s[b]) by {
                    if pos < before.len() {
                        lemma_text_le_total(before[pos as int], x@);
                    }
                    if a < pos && b == pos {
                    } else if a == pos && b > pos {
                        if b > pos + 1 {
                            lemma_text_le_transitive(x@, before[pos as int], before[b - 1]);
                        }
                    } else if a < pos && b > pos {
                    } else if a > pos {
                    }
                }
                assert(crate_names_of(self.crates@).take(i + 1) =~= crate_names_of(self.crates@).take(i as int).push(x@));
                vstd::seq_lib::to_multiset_insert(before, pos as int, x@);
                vstd::seq_lib::to_multiset_build(crate_names_of(self.crates@).take(i as int), x@);
            }
        }
        assert(crate_names_of(self.crates@).take(n as int) =~= crate_names_of(self.crates@));
        names
    }
}

/// What the workspace metadata says of one package: its name, manifest,
/// `publish` registries, and its directory relative to the workspace root.
#[derive(Debug)]
pub struct WorkspacePackage {
    pub name: String,
    pub manifest_path: std::path::PathBuf,
    pub publish: Option<Vec<String>>,
    pub dir: String,
}

/// `s` without its leading `/` characters.
pub open spec fn strip_leading_slashes(s: Seq<char>) -> Seq<char>
    decreases s.len(),
{
    if s.len() > 0 && s[0] == '/' {
        strip_leading_slashes(s.drop_first())
    } else {
        s
    }
}

/// A package is published unless its `publish` list is present and empty.
pub open spec fn is_published(publish: Option<Vec<String>>) -> bool {
    match publish {
        Some(v) => v@.len() > 0,
        None => true,
    }
}

/// The directory index of a list of packages: each package's directory,
/// without leading slashes, mapped to its name; later packages win.
pub open spec fn package_dirs(pkgs: Seq<WorkspacePackage>) -> Map<Seq<char>, Seq<char>>
    decreases pkgs.len(),
{
    if pkgs.len() == 0 {
        Map::empty()
    } else {
        package_dirs(pkgs.drop_last()).insert(
            strip_leading_slashes(pkgs.last().dir@),
            pkgs.last().name@,
        )
    }
}

fn strip_leading_slashes_exec(s: &str) -> (r: String)
    ensures
        r@ == strip_leading_slashes(s@),
{
    let v = chars_of(s);
    let mut i: usize = 0;
    assert(v@.skip(0) == v@);
    while i < v.len() && v[i] == '/'
        invariant
            i <= v@.len(),
            strip_leading_slashes(v@) == strip_leading_slashes(v@.skip(i as int)),
        decreases v.len() - i,
    {
        assert(v@.skip(i as int).drop_first() == v@.skip(i + 1));
        i = i + 1;
    }
    let rest = crate::text::slice_chars(v.as_slice(), i, v.len());
    assert(rest@ == v@.skip(i as int));
    crate::text::string_of(rest.as_slice())
}

impl WorkspaceInfo {
    /// The workspace described by the metadata of its packages, in order.
    pub fn from_packages(root: std::path::PathBuf, packages: Vec<WorkspacePackage>) -> (w:
        WorkspaceInfo)
        ensures
            w.root == root,
            w.crates@.len() == packages@.len(),
            forall|i: int|
                0 <= i < packages@.len() ==> {
                    &&& (#[trigger] w.crates@[i]).name@ == packages@[i].name@
                    &&& w.crates@[i].manifest_path == packages@[i].manifest_path
                    &&& w.crates@[i].publish == is_published(packages@[i].publish)
                },
            w.crate_by_path@ == package_dirs(packages@),
    {
        let ghost all = packages@;
        let mut packages = packages;
        let mut crates: Vec<WorkspaceCrate> = Vec::new();
        let mut index = PathIndex::new();
        let n = packages.len();
        let mut i: usize = 0;
        assert(all.skip(0) == all);
        assert(all.take(0) =~= Seq::<WorkspacePackage>::empty());
        while i < n
            invariant
                n == all.len(),
                i <= n,
                packages@ == all.skip(i as int),
                crates@.len() == i,
                forall|j: int|
                    0 <= j < i ==> {
                        &&& (#[trigger] crates@[j]).name@ == all[j].name@
                        &&& crates@[j].manifest_path == all[j].manifest_path
                        &&& crates@[j].publish == is_published(all[j].publish)
                    },
                index@ == package_dirs(all.take(i as int)),
            decreases n - i,
        {
            let pkg = packages.remove(0);
            assert(pkg == all[i as int]);
            assert(packages@ =~= all.skip(i + 1));
            let publish = match &pkg.publish {
                Some(v) => v.len() > 0,
                None => true,
            };
            let dir = strip_leading_slashes_exec(pkg.dir.as_str());
            let name = pkg.name;
            index.insert(dir, name.clone());
            crates.push(WorkspaceCrate { name, manifest_path: pkg.manifest_path, publish });
            assert(all.take(i + 1).drop_last() =~= all.take(i as int));
            i = i + 1;
        }
        assert(all.take(n as int) =~= all);
        WorkspaceInfo { root, crates, crate_by_path: index }
    }
}

/// At most one directory is the longest one holding a given file.
pub proof fn longest_owner_unique(m: Map<Seq<char>, Seq<char>>, path: Seq<char>, k1: Seq<char>, k2: Seq<char>)
    requires
        longest_owner(m, path, k1),
        longest_owner(m, path, k2),
    ensures
        k1 == k2,
{
    assert(k1.len() == k2.len());
    assert(k1 =~= path.subrange(0, k1.len() as int));
    assert(k2 =~= path.subrange(0, k2.len() as int));
}


/// A file at the very path of a crate's directory belongs to that crate:
/// the directory is then the longest one holding it, so
/// `find_crate_for_path` gives back the name stored for that directory.
pub proof fn directory_owns_itself(m: Map<Seq<char>, Seq<char>>, k: Seq<char>)
    requires
        m.contains_key(k),
    ensures
        longest_owner(m, k, k),
        forall|k2: Seq<char>| longest_owner(m, k, k2) ==> k2 == k,
{
    assert(k.subrange(0, k.len() as int) =~= k);
    assert forall|k2: Seq<char>| longest_owner(m, k, k2) implies k2 == k by {
        longest_owner_unique(m, k, k, k2);
    }
}


/// Every package's directory, without leading slashes, is indexed, whether
/// the package is published or not; it maps to the name of the last package
/// with that directory; and nothing else is indexed.
pub proof fn every_package_directory_is_indexed(pkgs: Seq<WorkspacePackage>)
    ensures
        forall|i: int| 0 <= i < pkgs.len() ==> package_dirs(pkgs).contains_key(
            strip_leading_slashes((#[trigger] pkgs[i]).dir@),
        ),
        forall|i: int|
            0 <= i < pkgs.len() && (forall|j: int| i < j < pkgs.len() ==> strip_leading_slashes(
                (#[trigger] pkgs[j]).dir@,
            ) != strip_leading_slashes(pkgs[i].dir@)) ==> package_dirs(pkgs)[strip_leading_slashes(
                (#[trigger] pkgs[i]).dir@,
            )] == pkgs[i].name@,
        forall|k: Seq<char>| #[trigger]
            package_dirs(pkgs).contains_key(k) ==> exists|i: int|
                0 <= i < pkgs.len() && strip_leading_slashes(pkgs[i].dir@) == k,
    decreases pkgs.len(),
{
    if pkgs.len() > 0 {
        let t = pkgs.drop_last();
        every_package_directory_is_indexed(t);
        let last = pkgs.len() - 1;
        assert forall|i: int| 0 <= i < pkgs.len() implies package_dirs(pkgs).contains_key(
            strip_leading_slashes((#[trigger] pkgs[i]).dir@),
        ) by {
            if i < last {
                assert(t[i] == pkgs[i]);
            }
        }
        assert forall|i: int|
            0 <= i < pkgs.len() && (forall|j: int| i < j < pkgs.len() ==> strip_leading_slashes(
                (#[trigger] pkgs[j]).dir@,
            ) != strip_leading_slashes(pkgs[i].dir@)) implies package_dirs(pkgs)[strip_leading_slashes(
            (#[trigger] pkgs[i]).dir@,
        )] == pkgs[i].name@ by {
            if i < last {
                assert(t[i] == pkgs[i]);
                assert(strip_leading_slashes(pkgs[last].dir@) != strip_leading_slashes(pkgs[i].dir@));
                assert forall|j: int| i < j < t.len() implies strip_leading_slashes(
                    (#[trigger] t[j]).dir@,
                ) != strip_leading_slashes(t[i].dir@) by {
                    assert(t[j] == pkgs[j]);
                    assert(strip_leading_slashes(pkgs[j].dir@) != strip_leading_slashes(pkgs[i].dir@));
                }
            }
        }
        assert forall|k: Seq<char>| #[trigger]
            package_dirs(pkgs).contains_key(k) implies exists|i: int|
                0 <= i < pkgs.len() && strip_leading_slashes(pkgs[i].dir@) == k by {
            if k == strip_leading_slashes(pkgs[last].dir@) {
            } else {
                assert(package_dirs(t).contains_key(k));
                let i = choose|i: int| 0 <= i < t.len() && strip_leading_slashes(t[i].dir@) == k;
                assert(t[i] == pkgs[i]);
            }
        }
    }
}

} // verus!
