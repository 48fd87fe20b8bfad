//! The decisions of package management: what to do with each dependency,
//! which entries of the packages directory are installed packages, and which
//! are left over. The program around them reads and changes the directory.
use crate::config::{spec_path, PackageSpec, HASH_FILE};
use crate::names::PackageName;
use vstd::prelude::*;
use vstd::string::*;

verus! {

/// The extension of the file that records where an installed package came from.
pub const EXTENSION_SPEC: &'static str = "spec";

/// The position of the last `.` of a file name, if it has one.
pub open spec fn last_dot(name: Seq<char>, n: nat) -> Option<int>
    decreases n,
{
    if n == 0 || n > name.len() {
        None
    } else if name[n - 1] == '.' {
        Some(n - 1)
    } else {
        last_dot(name, (n - 1) as nat)
    }
}

proof fn lemma_last_dot_range(name: Seq<char>, n: nat)
    ensures
        match last_dot(name, n) {
            Some(i) => 0 <= i < n && i < name.len() && name[i] == '.',
            None => true,
        },
    decreases n,
{
    if n > 0 && n <= name.len() && name[n - 1] != '.' {
        lemma_last_dot_range(name, (n - 1) as nat);
    }
}

/// The extension of a file name, as `Path::extension` documents it: the part
/// after the last `.`, unless there is none or the only one begins the name.
pub open spec fn file_extension(name: Seq<char>) -> Option<Seq<char>> {
    match last_dot(name, name.len()) {
        Some(i) => if i > 0 {
            Some(name.subrange(i + 1, name.len() as int))
        } else {
            None
        },
        None => None,
    }
}

/// The stem of a file name, as `Path::file_stem` documents it: the part
/// before the last `.`, or the whole name where it has no extension.
pub open spec fn file_stem(name: Seq<char>) -> Seq<char> {
    match last_dot(name, name.len()) {
        Some(i) => if i > 0 {
            name.subrange(0, i)
        } else {
            name
        },
        None => name,
    }
}

/// Where the last `.` of a file name is, if it has one.
fn find_last_dot(name: &str) -> (r: Option<usize>)
    ensures
        match r {
            Some(k) => last_dot(name@, name@.len()) == Some(k as int),
            None => last_dot(name@, name@.len()) is None,
        },
{
    let n = name.unicode_len();
    let mut k: usize = n;
    while k > 0
        invariant
            k <= n,
            n == name@.len(),
            last_dot(name@, n as nat) == last_dot(name@, k as nat),
        decreases k,
    {
        if name.get_char(k - 1) == '.' {
            return Some(k - 1);
        }
        k = k - 1;
    }
    None
}

/// The characters `from..to` of `s`.
fn chars_between(s: &str, from: usize, to: usize) -> (r: String)
    requires
        from <= to <= s@.len(),
    ensures
        r@ == s@.subrange(from as int, to as int),
{
    let mut out = String::new();
    let mut k: usize = from;
    while k < to
        invariant
            from <= k <= to,
            to <= s@.len(),
            out@ == s@.subrange(from as int, k as int),
        decreases to - k,
    {
        crate::text::push_char(&mut out, s.get_char(k));
        proof {
            assert(out@ =~= s@.subrange(from as int, k + 1));
        }
        k = k + 1;
    }
    out
}

/// The extension of a file name.
pub fn extension_of(name: &str) -> (r: Option<String>)
    ensures
        match r {
            Some(e) => file_extension(name@) == Some(e@),
            None => file_extension(name@) is None,
        },
{
    proof {
        lemma_last_dot_range(name@, name@.len());
    }
    let n = name.unicode_len();
    match find_last_dot(name) {
        Some(i) => if i > 0 {
            Some(chars_between(name, i + 1, n))
        } else {
            None
        },
        None => None,
    }
}

/// The stem of a file name.
pub fn stem_of(name: &str) -> (r: String)
    ensures
        r@ == file_stem(name@),
{
    proof {
        lemma_last_dot_range(name@, name@.len());
    }
    match find_last_dot(name) {
        Some(i) => if i > 0 {
            chars_between(name, 0, i)
        } else {
            name.to_owned()
        },
        None => name.to_owned(),
    }
}

/// Whether two texts are the same.
fn same_text(a: &str, b: &str) -> (r: bool)
    ensures
        r == (a@ == b@),
{
    let n = a.unicode_len();
    if n != b.unicode_len() {
        return false;
    }
    let mut k: usize = 0;
    while k < n
        invariant
            n == a@.len(),
            n == b@.len(),
            k <= n,
            forall|j: int| 0 <= j < k ==> a@[j] == b@[j],
        decreases n - k,
    {
        if a.get_char(k) != b.get_char(k) {
            return false;
        }
        k = k + 1;
    }
    proof {
        assert(a@ =~= b@);
    }
    true
}

/// Whether an entry of the packages directory, by its file name, is an
/// installed package: neither the hash file nor a spec file.
pub fn is_package_entry(name: &str) -> (r: bool)
    ensures
        r == (name@ != HASH_FILE@ && file_extension(name@) != Some(EXTENSION_SPEC@)),
{
    if same_text(name, HASH_FILE) {
        return false;
    }
    match extension_of(name) {
        Some(e) => !same_text(e.as_str(), EXTENSION_SPEC),
        None => true,
    }
}

/// The views of some strings.
pub open spec fn texts(v: Seq<String>) -> Seq<Seq<char>> {
    v.map_values(|s: String| s@)
}

/// The first of the first `n` names that is `name`.
pub open spec fn first_named(names: Seq<Seq<char>>, name: Seq<char>, n: nat) -> Option<int>
    decreases n,
{
    if n == 0 || n > names.len() {
        None
    } else {
        match first_named(names, name, (n - 1) as nat) {
            Some(k) => Some(k),
            None => if names[n - 1] == name {
                Some(n - 1)
            } else {
                None
            },
        }
    }
}

proof fn lemma_first_named_range(names: Seq<Seq<char>>, name: Seq<char>, n: nat)
    ensures
        match first_named(names, name, n) {
            Some(k) => 0 <= k < n && k < names.len() && names[k] == name,
            None => true,
        },
    decreases n,
{
    if n > 0 && n <= names.len() {
        lemma_first_named_range(names, name, (n - 1) as nat);
    }
}

/// The package entry that the spec entry `i` records, if `i` is a spec entry
/// and a package entry of its stem is there.
pub open spec fn package_of_spec(names: Seq<Seq<char>>, i: int) -> Option<int> {
    if file_extension(names[i]) == Some(EXTENSION_SPEC@) {
        first_named(names, file_stem(names[i]), names.len())
    } else {
        None
    }
}

/// The installed packages among the first `n` entries: each spec entry with
/// its package entry, by the package's name, in the order of the spec entries.
pub open spec fn installed_pairs(names: Seq<Seq<char>>, n: nat) -> Seq<(Seq<char>, int, int)>
    decreases n,
{
    if n == 0 || n > names.len() {
        Seq::empty()
    } else {
        installed_pairs(names, (n - 1) as nat) + match package_of_spec(names, n - 1) {
            Some(j) => seq![(file_stem(names[n - 1]), n - 1, j)],
            None => Seq::empty(),
        }
    }
}

/// The view of the installed packages found.
pub open spec fn pairs_view(v: Seq<(String, usize, usize)>) -> Seq<(Seq<char>, int, int)> {
    v.map_values(|p: (String, usize, usize)| (p.0@, p.1 as int, p.2 as int))
}

/// The entry `x` is the spec or the package of one of the installed packages.
pub open spec fn in_some_pair(pairs: Seq<(String, usize, usize)>, x: int) -> bool {
    exists|k: int| 0 <= k < pairs.len() && (pairs[k].1 == x || pairs[k].2 == x)
}

/// The entries of the packages directory, by their file names, sorted out:
/// the installed packages, each with the entries of its spec and of itself;
/// and, for each entry, whether it belongs to an installed package (the
/// others are left over, to be tidied away).
pub fn installed_entries(entries: &Vec<String>) -> (r: (Vec<(String, usize, usize)>, Vec<bool>))
    ensures
        pairs_view(r.0@) == installed_pairs(texts(entries@), entries@.len()),
        r.1@.len() == entries@.len(),
        forall|i: int| 0 <= i < entries@.len() ==> (#[trigger] r.1@[i] <==> in_some_pair(r.0@, i)),
{
    let ghost names = texts(entries@);
    let n = entries.len();
    let mut pairs: Vec<(String, usize, usize)> = Vec::new();
    let mut i: usize = 0;
    while i < n
        invariant
            n == entries@.len(),
            names == texts(entries@),
            i <= n,
            pairs_view(pairs@) == installed_pairs(names, i as nat),
            forall|k: int| 0 <= k < pairs@.len() ==> (#[trigger] pairs@[k]).1 < n && pairs@[k].2 < n,
        decreases n - i,
    {
        let name = entries[i].as_str();
        let ghost before = pairs@;
        let is_spec = match extension_of(name) {
            Some(e) => same_text(e.as_str(), EXTENSION_SPEC),
            None => false,
        };
        if is_spec {
            let stem = stem_of(name);
            let mut found: Option<usize> = None;
            let mut j: usize = 0;
            while j < n
                invariant
                    n == entries@.len(),
                    names == texts(entries@),
                    j <= n,
                    match found {
                        Some(f) => first_named(names, stem@, j as nat) == Some(f as int),
                        None => first_named(names, stem@, j as nat) is None,
                    },
                decreases n - j,
            {
                if found.is_none() && same_text(entries[j].as_str(), stem.as_str()) {
                    found = Some(j);
                }
                proof {
                    assert(names[j as int] == entries@[j as int]@);
                }
                j = j + 1;
            }
            proof {
                lemma_first_named_range(names, stem@, n as nat);
            }
            match found {
                Some(f) => {
                    pairs.push((stem, i, f));
                    proof {
                        assert(names[i as int] == entries@[i as int]@);
                        assert(pairs_view(pairs@) =~= installed_pairs(names, (i + 1) as nat));
                    }
                },
                None => {
                    proof {
                        assert(names[i as int] == entries@[i as int]@);
                        assert(pairs_view(pairs@) =~= installed_pairs(names, (i + 1) as nat));
                    }
                },
            }
        } else {
            proof {
                assert(names[i as int] == entries@[i as int]@);
                assert(pairs_view(pairs@) =~= installed_pairs(names, (i + 1) as nat));
            }
        }
        i = i + 1;
    }
    let mut keep: Vec<bool> = Vec::new();
    let mut b: usize = 0;
    while b < n
        invariant
            n == entries@.len(),
            b <= n,
            keep@.len() == b,
            forall|x: int| 0 <= x < b ==> (#[trigger] keep@[x] <==> in_some_pair(pairs@, x)),
        decreases n - b,
    {
        let mut hit = false;
        let mut k: usize = 0;
        while k < pairs.len()
            invariant
                k <= pairs@.len(),
                hit <==> exists|q: int| 0 <= q < k && (pairs@[q].1 == b || pairs@[q].2 == b),
            decreases pairs@.len() - k,
        {
            if pairs[k].1 == b || pairs[k].2 == b {
                hit = true;
            }
            k = k + 1;
        }
        proof {
            assert(hit == in_some_pair(pairs@, b as int));
        }
        keep.push(hit);
        b = b + 1;
    }
    (pairs, keep)
}

/// What to do with a dependency.
#[derive(Clone, Copy, PartialEq, Eq, Structural)]
pub enum DependencyAction {
    /// It was seen to already.
    Skip,
    /// It is installed as the package set has it.
    Keep,
    /// It is installed otherwise than the package set has it: remove it and
    /// install it again.
    Reinstall,
    /// It is not installed: install it.
    Install,
    /// It is installed but no longer in the package set: an error.
    NoLongerInSet,
    /// It is neither installed nor in the package set: an error.
    NotInSet,
}

/// The spec of the first of the first `n` packages named `name`.
pub open spec fn lookup_package(v: Seq<(PackageName, PackageSpec)>, name: Seq<char>, n: nat) -> Option<Seq<char>>
    decreases n,
{
    if n == 0 || n > v.len() {
        None
    } else {
        match lookup_package(v, name, (n - 1) as nat) {
            Some(p) => Some(p),
            None => if v[n - 1].0@ == name {
                Some(spec_path(v[n - 1].1))
            } else {
                None
            },
        }
    }
}

/// What to do with a dependency, given what was seen to already, what is
/// installed and what the package set has. A dependency is kept where it is
/// installed from where the package set says, and installed again where from
/// elsewhere.
pub open spec fn dependency_action_spec(
    dependency: Seq<char>,
    updated: Seq<Seq<char>>,
    installed: Seq<(PackageName, PackageSpec)>,
    available: Seq<(PackageName, PackageSpec)>,
) -> DependencyAction {
    if updated.contains(dependency) {
        DependencyAction::Skip
    } else {
        match (
            lookup_package(installed, dependency, installed.len()),
            lookup_package(available, dependency, available.len()),
        ) {
            (Some(i), Some(a)) => if i == a {
                DependencyAction::Keep
            } else {
                DependencyAction::Reinstall
            },
            (None, Some(_)) => DependencyAction::Install,
            (Some(_), None) => DependencyAction::NoLongerInSet,
            (None, None) => DependencyAction::NotInSet,
        }
    }
}

/// The spec of the first package named `name`.
fn find_package<'a>(v: &'a Vec<(PackageName, PackageSpec)>, name: &PackageName) -> (r: Option<&'a PackageSpec>)
    ensures
        match r {
            Some(s) => lookup_package(v@, name@, v@.len()) == Some(spec_path(*s)),
            None => lookup_package(v@, name@, v@.len()) is None,
        },
{
    let mut i: usize = 0;
    while i < v.len()
        invariant
            i <= v@.len(),
            lookup_package(v@, name@, i as nat) is None,
        decreases v@.len() - i,
    {
        if v[i].0.eq(name) {
            proof {
                assert(lookup_package(v@, name@, (i + 1) as nat) == Some(spec_path(v@[i as int].1)));
                lemma_lookup_found(v@, name@, (i + 1) as nat, v@.len());
            }
            return Some(&v[i].1);
        }
        i = i + 1;
    }
    None
}

proof fn lemma_lookup_found(v: Seq<(PackageName, PackageSpec)>, name: Seq<char>, m: nat, n: nat)
    requires
        m <= n <= v.len(),
        lookup_package(v, name, m) is Some,
    ensures
        lookup_package(v, name, n) == lookup_package(v, name, m),
    decreases n - m,
{
    if m < n {
        lemma_lookup_found(v, name, m, (n - 1) as nat);
    }
}

/// What to do with a dependency; see [dependency_action_spec].
pub fn dependency_action(
    dependency: &PackageName,
    updated: &Vec<PackageName>,
    installed: &Vec<(PackageName, PackageSpec)>,
    available: &Vec<(PackageName, PackageSpec)>,
) -> (r: DependencyAction)
    ensures
        r == dependency_action_spec(
            dependency@,
            updated@.map_values(|p: PackageName| p@),
            installed@,
            available@,
        ),
{
    let ghost seen = updated@.map_values(|p: PackageName| p@);
    let mut k: usize = 0;
    while k < updated.len()
        invariant
            k <= updated@.len(),
            seen == updated@.map_values(|p: PackageName| p@),
            forall|j: int| 0 <= j < k ==> seen[j] != dependency@,
        decreases updated@.len() - k,
    {
        if updated[k].eq(dependency) {
            proof {
                assert(seen[k as int] == dependency@);
            }
            return DependencyAction::Skip;
        }
        k = k + 1;
    }
    proof {
        assert(!seen.contains(dependency@));
    }
    match (find_package(installed, dependency), find_package(available, dependency)) {
        (Some(i), Some(a)) => {
            let same = match (i, a) {
                (PackageSpec::Path { path: p }, PackageSpec::Path { path: q }) => same_text(p.as_str(), q.as_str()),
            };
            if same {
                DependencyAction::Keep
            } else {
                DependencyAction::Reinstall
            }
        },
        (None, Some(_)) => DependencyAction::Install,
        (Some(_), None) => DependencyAction::NoLongerInSet,
        (None, None) => DependencyAction::NotInSet,
    }
}

} // verus!
