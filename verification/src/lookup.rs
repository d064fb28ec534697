//! Where a package or a file is looked for, and what is made of what is
//! found there.
use vstd::prelude::*;
use vstd::string::*;
use crate::error::{ResolveError, ResolveErrorView};
use crate::package::{PackageReq, PackageReqView};
use crate::req::{req_admits, req_is_tag};
use crate::text::{chars_of, ends_with, has_suffix_from, substring};
use crate::version::Version;

verus! {

/// The position of the last `c` in `s`, or -1 if there is none.
pub open spec fn last_index(s: Seq<char>, c: char) -> int
    decreases s.len(),
{
    if s.len() == 0 {
        -1
    } else if s.last() == c {
        s.len() - 1
    } else {
        last_index(s.drop_last(), c)
    }
}

/// The last `c` stands before the end, and behind it stands none.
pub proof fn lemma_last_index(s: Seq<char>, c: char)
    ensures
        -1 <= last_index(s, c) < s.len(),
        last_index(s, c) >= 0 ==> s[last_index(s, c)] == c,
        forall|j: int| last_index(s, c) < j < s.len() ==> s[j] != c,
    decreases s.len(),
{
    if s.len() > 0 && s.last() != c {
        lemma_last_index(s.drop_last(), c);
        assert forall|j: int| last_index(s, c) < j < s.len() implies s[j] != c by {
            if j < s.len() - 1 {
                assert(s.drop_last()[j] == s[j]);
            }
        }
    }
}

fn find_last(chars: &Vec<char>, c: char) -> (r: Option<usize>)
    ensures
        match r {
            Some(i) => i == last_index(chars@, c),
            None => last_index(chars@, c) == -1,
        },
{
    let mut i: usize = chars.len();
    assert(chars@.take(i as int) =~= chars@);
    while i > 0
        invariant
            i <= chars@.len(),
            last_index(chars@, c) == last_index(chars@.take(i as int), c),
        decreases i,
    {
        i -= 1;
        assert(chars@.take(i + 1).drop_last() =~= chars@.take(i as int));
        if chars[i] == c {
            return Some(i);
        }
    }
    None
}

/// The directory that holds `dir`: what stands before the last `/`, or the
/// root for what stands directly under it.
pub open spec fn parent_of(dir: Seq<char>) -> Seq<char> {
    let slash = last_index(dir, '/');
    if slash <= 0 {
        seq!['/']
    } else {
        dir.take(slash)
    }
}

/// Where a package of the name may stand in a `node_modules` directory.
pub open spec fn in_node_modules(dir: Seq<char>, name: Seq<char>) -> Seq<char> {
    if dir == seq!['/'] {
        "/node_modules/"@ + name
    } else {
        dir + "/node_modules/"@ + name
    }
}

/// Whether the directory is the root, beyond which nothing is looked for: `/`
/// itself, and what holds no `/` at all.
pub open spec fn is_root(dir: Seq<char>) -> bool {
    dir.len() <= 1 || last_index(dir, '/') < 0
}

/// The places where a package is looked for from a directory, the nearest
/// first: `node_modules` in the directory itself, then in each directory
/// above it up to the root. A directory that is itself called `node_modules`
/// is passed over.
pub open spec fn lookup_places(dir: Seq<char>, name: Seq<char>) -> Seq<Seq<char>>
    decreases dir.len(),
    via lookup_places_decreases
{
    if is_root(dir) {
        seq![in_node_modules(seq!['/'], name)]
    } else {
        let here = if ends_with(dir, "/node_modules"@) {
            Seq::<Seq<char>>::empty()
        } else {
            seq![in_node_modules(dir, name)]
        };
        here + lookup_places(parent_of(dir), name)
    }
}

#[via_fn]
proof fn lookup_places_decreases(dir: Seq<char>, name: Seq<char>) {
    lemma_last_index(dir, '/');
}

fn place(dir: &str, name: &str, root: bool) -> (p: String)
    ensures
        p@ == (if root {
            "/node_modules/"@ + name@
        } else {
            dir@ + "/node_modules/"@ + name@
        }),
{
    let mut p = if root {
        String::new()
    } else {
        String::from_str(dir)
    };
    p.append("/node_modules/");
    p.append(name);
    proof {
        assert(Seq::<char>::empty() + "/node_modules/"@ =~= "/node_modules/"@);
    }
    p
}

/// The places where a package is looked for from a directory, the nearest
/// first.
pub fn lookup_dirs(dir: &str, name: &str) -> (places: Vec<String>)
    ensures
        places.deep_view() == lookup_places(dir@, name@),
    decreases dir@.len(),
{
    let chars = chars_of(dir);
    let slash = find_last(&chars, '/');
    proof {
        lemma_last_index(dir@, '/');
    }
    if chars.len() <= 1 || slash.is_none() {
        let mut places: Vec<String> = Vec::new();
        places.push(place(dir, name, true));
        assert(places.deep_view() =~~= seq![in_node_modules(seq!['/'], name@)]);
        return places;
    }
    let k = slash.unwrap();
    let suffix = chars_of("/node_modules");
    assert(suffix@.skip(0) =~= suffix@);
    let mut places: Vec<String> = Vec::new();
    let single = chars.len() == 1;
    if !has_suffix_from(&chars, &suffix, 0) {
        places.push(place(dir, name, false));
        proof {
            if dir@ == seq!['/'] {
                assert(dir@.len() == 1);
            }
        }
    }
    let ghost here = places.deep_view();
    assert(here =~~= (if ends_with(dir@, "/node_modules"@) {
        Seq::<Seq<char>>::empty()
    } else {
        seq![in_node_modules(dir@, name@)]
    }));
    let parent = if k == 0 {
        String::from_str("/")
    } else {
        substring(dir, 0, k)
    };
    proof {
        reveal_strlit("/");
        assert("/"@ =~= seq!['/']);
        assert(parent@ =~= parent_of(dir@));
    }
    let mut above = lookup_dirs(parent.as_str(), name);
    let ghost rest = above.deep_view();
    places.append(&mut above);
    assert(places.deep_view() =~~= here + rest);
    places
}

/// Where the `package.json` of the package that holds a directory is looked
/// for, the nearest first: in the directory itself, then in each directory
/// above it up to the root.
pub open spec fn manifest_places_of(dir: Seq<char>) -> Seq<Seq<char>>
    decreases dir.len(),
    via manifest_places_decreases
{
    if is_root(dir) {
        seq!["/package.json"@]
    } else {
        seq![dir + "/package.json"@] + manifest_places_of(parent_of(dir))
    }
}

#[via_fn]
proof fn manifest_places_decreases(dir: Seq<char>) {
    lemma_last_index(dir, '/');
}

/// Where the `package.json` of the package that holds a directory is looked
/// for, the nearest first.
pub fn manifest_places(dir: &str) -> (places: Vec<String>)
    ensures
        places.deep_view() == manifest_places_of(dir@),
    decreases dir@.len(),
{
    let chars = chars_of(dir);
    let slash = find_last(&chars, '/');
    proof {
        lemma_last_index(dir@, '/');
    }
    let mut places: Vec<String> = Vec::new();
    if chars.len() <= 1 || slash.is_none() {
        places.push(String::from_str("/package.json"));
        assert(places.deep_view() =~~= seq!["/package.json"@]);
        return places;
    }
    let k = slash.unwrap();
    let mut here = String::from_str(dir);
    here.append("/package.json");
    places.push(here);
    let ghost first = places.deep_view();
    assert(first =~~= seq![dir@ + "/package.json"@]);
    let parent = if k == 0 {
        String::from_str("/")
    } else {
        substring(dir, 0, k)
    };
    proof {
        reveal_strlit("/");
        assert("/"@ =~= seq!['/']);
        assert(parent@ =~= parent_of(dir@));
    }
    let mut above = manifest_places(parent.as_str());
    let ghost rest = above.deep_view();
    places.append(&mut above);
    assert(places.deep_view() =~~= first + rest);
    places
}

/// What stands at a place of the file system.
#[derive(Debug, PartialEq, Eq, Structural, Clone, Copy)]
pub enum Entry {
    Missing,
    File,
    Directory,
}

/// What was found at the places where a path may lead: at the path itself,
/// at the path with each extension, and at each index file of the directory
/// of that path.
#[derive(Debug, PartialEq, Eq, Structural, Clone, Copy)]
pub struct Probes {
    pub itself: Entry,
    pub js: Entry,
    pub json: Entry,
    pub node: Entry,
    pub index_js: Entry,
    pub index_json: Entry,
    pub index_node: Entry,
}

/// The index file of the directory at `path`, if it holds one: `index.js`
/// before `index.json` before `index.node`.
pub open spec fn index_of(path: Seq<char>, probes: Probes) -> Option<Seq<char>> {
    if probes.index_js is File {
        Some(path + "/index.js"@)
    } else if probes.index_json is File {
        Some(path + "/index.json"@)
    } else if probes.index_node is File {
        Some(path + "/index.node"@)
    } else {
        None
    }
}

/// The file that a path which names no extension leads to: the path itself
/// where it is a file, else the path with `.js`, `.json` or `.node`.
pub open spec fn file_of(path: Seq<char>, probes: Probes) -> Option<Seq<char>> {
    if probes.itself is File {
        Some(path)
    } else if probes.js is File {
        Some(path + ".js"@)
    } else if probes.json is File {
        Some(path + ".json"@)
    } else if probes.node is File {
        Some(path + ".node"@)
    } else {
        None
    }
}

/// The file that `require` of a path leads to: the file of the path, else
/// the index file of the directory at the path. A directory without index
/// file is told apart from a path where nothing stands.
pub open spec fn required_file(path: Seq<char>, probes: Probes) -> Result<
    Seq<char>,
    ResolveErrorView,
> {
    match file_of(path, probes) {
        Some(file) => Ok(file),
        None => if probes.itself is Directory {
            match index_of(path, probes) {
                Some(file) => Ok(file),
                None => Err(ResolveErrorView::DirectoryNoIndex { path }),
            }
        } else {
            Err(ResolveErrorView::ModuleNotFound { path })
        },
    }
}

/// The file that an import of a path leads to: the path itself where it is a
/// file, the index file where it is a directory. No extension is tried.
pub open spec fn imported_file(path: Seq<char>, probes: Probes) -> Result<
    Seq<char>,
    ResolveErrorView,
> {
    match probes.itself {
        Entry::File => Ok(path),
        Entry::Directory => match index_of(path, probes) {
            Some(file) => Ok(file),
            None => Err(ResolveErrorView::DirectoryNoIndex { path }),
        },
        Entry::Missing => Err(ResolveErrorView::ModuleNotFound { path }),
    }
}

fn with_suffix(path: &str, suffix: &str) -> (out: String)
    ensures
        out@ == path@ + suffix@,
{
    let mut out = String::from_str(path);
    out.append(suffix);
    out
}

fn index_file(path: &str, probes: &Probes) -> (r: Option<String>)
    ensures
        r.deep_view() == index_of(path@, *probes),
{
    match (probes.index_js, probes.index_json, probes.index_node) {
        (Entry::File, _, _) => Some(with_suffix(path, "/index.js")),
        (_, Entry::File, _) => Some(with_suffix(path, "/index.json")),
        (_, _, Entry::File) => Some(with_suffix(path, "/index.node")),
        _ => None,
    }
}

fn plain_file(path: &str, probes: &Probes) -> (r: Option<String>)
    ensures
        r.deep_view() == file_of(path@, *probes),
{
    match (probes.itself, probes.js, probes.json, probes.node) {
        (Entry::File, _, _, _) => Some(String::from_str(path)),
        (_, Entry::File, _, _) => Some(with_suffix(path, ".js")),
        (_, _, Entry::File, _) => Some(with_suffix(path, ".json")),
        (_, _, _, Entry::File) => Some(with_suffix(path, ".node")),
        _ => None,
    }
}

/// The seven places that are probed for a path, in the order of `Probes`.
pub fn probe_places(path: &str) -> (places: Vec<String>)
    ensures
        places.deep_view() == seq![
            path@,
            path@ + ".js"@,
            path@ + ".json"@,
            path@ + ".node"@,
            path@ + "/index.js"@,
            path@ + "/index.json"@,
            path@ + "/index.node"@,
        ],
{
    let mut places: Vec<String> = Vec::new();
    places.push(String::from_str(path));
    places.push(with_suffix(path, ".js"));
    places.push(with_suffix(path, ".json"));
    places.push(with_suffix(path, ".node"));
    places.push(with_suffix(path, "/index.js"));
    places.push(with_suffix(path, "/index.json"));
    places.push(with_suffix(path, "/index.node"));
    assert(places.deep_view() =~~= seq![
        path@,
        path@ + ".js"@,
        path@ + ".json"@,
        path@ + ".node"@,
        path@ + "/index.js"@,
        path@ + "/index.json"@,
        path@ + "/index.node"@,
    ]);
    places
}

/// The file that `require` of a path leads to.
pub fn choose_required(path: &str, probes: &Probes) -> (r: Result<String, ResolveError>)
    ensures
        match r {
            Ok(file) => required_file(path@, *probes) == Ok::<Seq<char>, ResolveErrorView>(file@),
            Err(e) => required_file(path@, *probes) == Err::<Seq<char>, ResolveErrorView>(e@),
        },
{
    match plain_file(path, probes) {
        Some(file) => Ok(file),
        None => match probes.itself {
            Entry::Directory => match index_file(path, probes) {
                Some(file) => Ok(file),
                None => Err(ResolveError::DirectoryNoIndex { path: String::from_str(path) }),
            },
            _ => Err(ResolveError::ModuleNotFound { path: String::from_str(path) }),
        },
    }
}

/// The file that an import of a path leads to.
pub fn choose_imported(path: &str, probes: &Probes) -> (r: Result<String, ResolveError>)
    ensures
        match r {
            Ok(file) => imported_file(path@, *probes) == Ok::<Seq<char>, ResolveErrorView>(file@),
            Err(e) => imported_file(path@, *probes) == Err::<Seq<char>, ResolveErrorView>(e@),
        },
{
    match probes.itself {
        Entry::File => Ok(String::from_str(path)),
        Entry::Directory => match index_file(path, probes) {
            Some(file) => Ok(file),
            None => Err(ResolveError::DirectoryNoIndex { path: String::from_str(path) }),
        },
        Entry::Missing => Err(ResolveError::ModuleNotFound { path: String::from_str(path) }),
    }
}

/// A dependency that the project's `package.json` declares, with the version
/// that `node_modules` holds of it, if it holds any.
pub struct Declared {
    pub name: String,
    pub installed: Option<Version>,
}

pub struct DeclaredView {
    pub name: Seq<char>,
    pub installed: Option<Version>,
}

impl View for Declared {
    type V = DeclaredView;

    open spec fn view(&self) -> DeclaredView {
        DeclaredView { name: self.name@, installed: self.installed }
    }
}

impl DeepView for Declared {
    type V = DeclaredView;

    open spec fn deep_view(&self) -> DeclaredView {
        self@
    }
}

/// The dependency at place `i` is the first of the name.
pub open spec fn is_declared_at(declared: Seq<DeclaredView>, name: Seq<char>, i: int) -> bool {
    &&& 0 <= i < declared.len()
    &&& declared[i].name == name
    &&& forall|j: int| 0 <= j < i ==> (#[trigger] declared[j]).name != name
}

/// Whether the project declares a dependency of the name.
pub open spec fn is_declared(declared: Seq<DeclaredView>, name: Seq<char>) -> bool {
    exists|i: int| is_declared_at(declared, name, i)
}

/// What a bare specifier for a package comes to where another package
/// manager owns `node_modules`: the directory where the package was found. A
/// package that was not found but is declared has not been installed; one
/// that is not declared either is not there.
pub open spec fn external_package(
    name: Seq<char>,
    found: Option<Seq<char>>,
    declared: Seq<DeclaredView>,
) -> Result<Seq<char>, ResolveErrorView> {
    match found {
        Some(dir) => Ok(dir),
        None => if is_declared(declared, name) {
            Err(ResolveErrorView::PackageJsonMissingDependency { name })
        } else {
            Err(ResolveErrorView::ModuleNotFound { path: name })
        },
    }
}

/// What an `npm:` specifier comes to where another package manager owns
/// `node_modules`: the name of the package, to be found from the project,
/// where the project declares the package and the version installed answers
/// the request. A declared package that is not installed asks for an
/// install; anything else is a request that the project does not match.
pub open spec fn external_request(
    specifier: Seq<char>,
    package_json: Seq<char>,
    req: PackageReqView,
    declared: Seq<DeclaredView>,
) -> Result<Seq<char>, ResolveErrorView> {
    if is_declared(declared, req.name) {
        let d = declared[choose|i: int| is_declared_at(declared, req.name, i)];
        match d.installed {
            None => Err(ResolveErrorView::PackageJsonMissingDependency { name: req.name }),
            Some(v) => if req_is_tag(req.req) || req_admits(req.req, v) {
                Ok(req.name)
            } else {
                Err(ResolveErrorView::NoMatchingPackage { specifier, package_json })
            },
        }
    } else {
        Err(ResolveErrorView::NoMatchingPackage { specifier, package_json })
    }
}

/// Where the first declared dependency of the name stands.
pub fn find_declared(declared: &Vec<Declared>, name: &String) -> (r: Option<usize>)
    ensures
        match r {
            Some(i) => is_declared_at(declared.deep_view(), name@, i as int) && i < declared@.len()
                && (choose|j: int| is_declared_at(declared.deep_view(), name@, j)) == i,
            None => !is_declared(declared.deep_view(), name@),
        },
{
    let ghost d = declared.deep_view();
    let mut i: usize = 0;
    while i < declared.len()
        invariant
            i <= declared@.len(),
            d == declared.deep_view(),
            forall|j: int| 0 <= j < i ==> (#[trigger] d[j]).name != name@,
        decreases declared.len() - i,
    {
        assert(d[i as int] == declared@[i as int]@);
        if declared[i].name == *name {
            proof {
                assert(is_declared_at(d, name@, i as int));
                let j = choose|j: int| is_declared_at(d, name@, j);
                if j < i {
                    assert(d[j].name != name@);
                }
                if i < j {
                    assert(d[i as int].name != name@);
                }
            }
            return Some(i);
        }
        i += 1;
    }
    proof {
        if is_declared(d, name@) {
            let j = choose|j: int| is_declared_at(d, name@, j);
            assert(d[j].name != name@);
        }
    }
    None
}

/// What a bare specifier for a package comes to where another package
/// manager owns `node_modules`.
pub fn resolve_external_package(name: &str, found: Option<String>, declared: &Vec<Declared>) -> (r:
    Result<String, ResolveError>)
    ensures
        match r {
            Ok(dir) => external_package(name@, found.deep_view(), declared.deep_view()) == Ok::<
                Seq<char>,
                ResolveErrorView,
            >(dir@),
            Err(e) => external_package(name@, found.deep_view(), declared.deep_view()) == Err::<
                Seq<char>,
                ResolveErrorView,
            >(e@),
        },
{
    match found {
        Some(dir) => Ok(dir),
        None => {
            let wanted = String::from_str(name);
            match find_declared(declared, &wanted) {
                Some(_) => Err(ResolveError::PackageJsonMissingDependency { name: wanted }),
                None => Err(ResolveError::ModuleNotFound { path: wanted }),
            }
        },
    }
}

/// What an `npm:` specifier comes to where another package manager owns
/// `node_modules`.
pub fn resolve_external_request(
    specifier: &str,
    package_json: &str,
    req: &PackageReq,
    declared: &Vec<Declared>,
) -> (r: Result<String, ResolveError>)
    ensures
        match r {
            Ok(name) => external_request(specifier@, package_json@, req@, declared.deep_view())
                == Ok::<Seq<char>, ResolveErrorView>(name@),
            Err(e) => external_request(specifier@, package_json@, req@, declared.deep_view())
                == Err::<Seq<char>, ResolveErrorView>(e@),
        },
{
    let mismatch = ResolveError::NoMatchingPackage {
        specifier: String::from_str(specifier),
        package_json: String::from_str(package_json),
    };
    match find_declared(declared, &req.name) {
        None => Err(mismatch),
        Some(i) => {
            assert(declared.deep_view()[i as int] == declared@[i as int]@);
            match declared[i].installed {
                None => Err(ResolveError::PackageJsonMissingDependency { name: req.name.clone() }),
                Some(v) => if req.req.is_tag() || req.req.admits(&v) {
                    Ok(req.name.clone())
                } else {
                    Err(mismatch)
                },
            }
        },
    }
}

/// A package that the project declares is found once it is installed, and
/// asked to be installed as long as it is not: no other answer is given for
/// it.
pub proof fn lemma_declared_package(
    name: Seq<char>,
    found: Option<Seq<char>>,
    declared: Seq<DeclaredView>,
)
    requires
        is_declared(declared, name),
    ensures
        found is None ==> external_package(name, found, declared) == Err::<
            Seq<char>,
            ResolveErrorView,
        >(ResolveErrorView::PackageJsonMissingDependency { name }),
        found matches Some(dir) ==> external_package(name, found, declared) == Ok::<
            Seq<char>,
            ResolveErrorView,
        >(dir),
{
}

} // verus!
