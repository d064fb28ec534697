//! Where packages stand on disk: in the cache that all projects share, and in
//! the `node_modules` directory of a project.
use vstd::prelude::*;
use vstd::string::*;
use crate::decimal::{append_decimal, decimal_text};
use crate::flight::{initialize_line, download_line, uses_disk, Circumstances};
use crate::package::id_text;
use crate::registry::{tarball_url, tarball_url_of};
use crate::package::{PackageId, PackageIdView};
use crate::snapshot::{Snapshot, SnapshotPackage, SnapshotPackageView, SnapshotView};
use crate::text::{chars_of, first_index, first_index_in, substring};
use crate::version::version_text;

verus! {

/// The text with every `from` replaced by `to`.
pub open spec fn replaced(s: Seq<char>, from: char, to: char) -> Seq<char> {
    Seq::new(
        s.len(),
        |i: int|
            if s[i] == from {
                to
            } else {
                s[i]
            },
    )
}

/// What tells the copies of a package apart: nothing for the first, `_1`,
/// `_2` and so on for the others.
pub open spec fn copy_suffix(copy: nat) -> Seq<char> {
    if copy == 0 {
        Seq::empty()
    } else {
        seq!['_'] + decimal_text(copy)
    }
}

/// The name of the directory of a package in a project: the name of the
/// package with `+` for `/`, `@`, the version, and the mark of the copy.
pub open spec fn folder_name_of(id: PackageIdView, copy: nat) -> Seq<char> {
    replaced(id.name, '/', '+') + seq!['@'] + version_text(id.version) + copy_suffix(copy)
}

/// Where the contents of a package stand in a project, from the root of the
/// project.
pub open spec fn local_folder_of(id: PackageIdView, copy: nat) -> Seq<char> {
    "node_modules/.deno/"@ + folder_name_of(id, copy) + "/node_modules/"@ + id.name
}

/// Where the contents of a package stand in the cache, from the directory of
/// its registry: the name, a slash, the version, and the mark of the copy.
pub open spec fn cache_folder_of(id: PackageIdView, copy: nat) -> Seq<char> {
    id.name + seq!['/'] + version_text(id.version) + copy_suffix(copy)
}

/// What follows `://` in an address, or the address where it holds none.
pub open spec fn after_scheme(url: Seq<char>) -> Seq<char> {
    let colon = first_index(url, ':');
    if colon + 2 < url.len() && url[colon + 1] == '/' && url[colon + 2] == '/' {
        url.skip(colon + 3)
    } else {
        url
    }
}

/// The text without the `/` at its end, if it has one.
pub open spec fn without_last_slash(s: Seq<char>) -> Seq<char> {
    if s.len() > 0 && s.last() == '/' {
        s.drop_last()
    } else {
        s
    }
}

/// The directory of a registry in the cache: its address without the scheme
/// and without a slash at the end, with `_` for `:`.
pub open spec fn registry_folder_of(url: Seq<char>) -> Seq<char> {
    replaced(without_last_slash(after_scheme(url)), ':', '_')
}

/// The text with every `from` replaced by `to`.
fn replace_char(s: &str, from: char, to: &str, to_char: char) -> (out: String)
    requires
        to@ == seq![to_char],
    ensures
        out@ == replaced(s@, from, to_char),
{
    let chars = chars_of(s);
    let mut out = String::new();
    let mut i: usize = 0;
    assert(out@ =~= replaced(s@.take(0), from, to_char));
    while i < chars.len()
        invariant
            i <= chars@.len(),
            chars@ == s@,
            to@ == seq![to_char],
            out@ == replaced(s@.take(i as int), from, to_char),
        decreases chars.len() - i,
    {
        let ghost before = out@;
        if chars[i] == from {
            out.append(to);
        } else {
            out.append(s.substring_char(i, i + 1));
            assert(s@.subrange(i as int, i + 1) =~= seq![s@.index(i as int)]);
        }
        assert(out@ =~= replaced(s@.take(i + 1), from, to_char));
        i += 1;
    }
    assert(s@.take(i as int) =~= s@);
    out
}

fn append_copy(out: &mut String, copy: usize)
    ensures
        final(out)@ == old(out)@ + copy_suffix(copy as nat),
{
    if copy > 0 {
        out.append("_");
        append_decimal(out, copy as u64);
        proof {
            reveal_strlit("_");
            assert("_"@ =~= seq!['_']);
            assert(final(out)@ =~= old(out)@ + copy_suffix(copy as nat));
        }
    } else {
        assert(old(out)@ + Seq::<char>::empty() =~= old(out)@);
    }
}

/// The name of the directory of a package in a project.
pub fn folder_name(id: &PackageId, copy: usize) -> (name: String)
    ensures
        name@ == folder_name_of(id@, copy as nat),
{
    proof {
        reveal_strlit("+");
        reveal_strlit("@");
        assert("+"@ =~= seq!['+']);
        assert("@"@ =~= seq!['@']);
    }
    let mut name = replace_char(id.name.as_str(), '/', "+", '+');
    name.append("@");
    id.version.append_to(&mut name);
    append_copy(&mut name, copy);
    name
}

/// Where the contents of a package stand in a project, from the root of the
/// project.
pub fn local_folder(id: &PackageId, copy: usize) -> (path: String)
    ensures
        path@ == local_folder_of(id@, copy as nat),
{
    let mut path = String::from_str("node_modules/.deno/");
    path.append(folder_name(id, copy).as_str());
    path.append("/node_modules/");
    path.append(id.name.as_str());
    path
}

/// Where the contents of a package stand in the cache, from the directory of
/// its registry.
pub fn cache_folder(id: &PackageId, copy: usize) -> (path: String)
    ensures
        path@ == cache_folder_of(id@, copy as nat),
{
    let mut path = id.name.clone();
    path.append("/");
    id.version.append_to(&mut path);
    append_copy(&mut path, copy);
    proof {
        reveal_strlit("/");
        assert("/"@ =~= seq!['/']);
    }
    path
}

/// The directory of a registry in the cache.
pub fn registry_folder(url: &str) -> (folder: String)
    ensures
        folder@ == registry_folder_of(url@),
{
    let chars = chars_of(url);
    let n = chars.len();
    assert(chars@.subrange(0, n as int) =~= chars@);
    let colon = first_index_in(&chars, ':', 0, n);
    let from: usize = if n >= 3 && colon < n - 2 && chars[colon + 1] == '/' && chars[colon + 2]
        == '/' {
        colon + 3
    } else {
        0
    };
    let to: usize = if n > from && chars[n - 1] == '/' {
        n - 1
    } else {
        n
    };
    let middle = substring(url, from, to);
    proof {
        let after = after_scheme(url@);
        assert(after =~= url@.skip(from as int));
        assert(middle@ =~= without_last_slash(after));
        reveal_strlit("_");
        assert("_"@ =~= seq!['_']);
    }
    replace_char(middle.as_str(), ':', "_", '_')
}

/// A link in the `node_modules` of a package: the name under which a
/// dependency is found, and where the contents of the dependency stand.
pub struct Link {
    pub name: String,
    pub target: String,
}

pub struct LinkView {
    pub name: Seq<char>,
    pub target: Seq<char>,
}

impl View for Link {
    type V = LinkView;

    open spec fn view(&self) -> LinkView {
        LinkView { name: self.name@, target: self.target@ }
    }
}

impl DeepView for Link {
    type V = LinkView;

    open spec fn deep_view(&self) -> LinkView {
        self@
    }
}

/// What is laid out for one package: its directory, and the links to its
/// dependencies.
pub struct Placement {
    pub folder: String,
    pub links: Vec<Link>,
}

pub struct PlacementView {
    pub folder: Seq<char>,
    pub links: Seq<LinkView>,
}

impl View for Placement {
    type V = PlacementView;

    open spec fn view(&self) -> PlacementView {
        PlacementView { folder: self.folder@, links: self.links.deep_view() }
    }
}

impl DeepView for Placement {
    type V = PlacementView;

    open spec fn deep_view(&self) -> PlacementView {
        self@
    }
}

/// The links of a package: one for each of its dependencies in the snapshot,
/// and no other.
pub open spec fn links_of(p: SnapshotPackageView) -> Seq<LinkView> {
    Seq::new(
        p.dependencies.len(),
        |j: int|
            LinkView { name: p.dependencies[j].0, target: local_folder_of(p.dependencies[j].1, 0) },
    )
}

/// What is laid out for a package.
pub open spec fn placement_of(p: SnapshotPackageView) -> PlacementView {
    PlacementView { folder: local_folder_of(p.id, 0), links: links_of(p) }
}

/// What is laid out in a project for a snapshot: one directory for each
/// package of the snapshot, and no other.
pub open spec fn placements_of(s: SnapshotView) -> Seq<PlacementView> {
    Seq::new(s.packages.len(), |i: int| placement_of(s.packages[i]))
}

/// What is laid out for a package.
pub fn place_package(p: &SnapshotPackage) -> (placement: Placement)
    ensures
        placement@ == placement_of(p@),
{
    let mut links: Vec<Link> = Vec::new();
    let mut j: usize = 0;
    while j < p.dependencies.len()
        invariant
            j <= p.dependencies@.len(),
            links@.len() == j,
            forall|k: int| 0 <= k < j ==> (#[trigger] links@[k])@ == links_of(p@)[k],
        decreases p.dependencies.len() - j,
    {
        assert(p@.dependencies[j as int] == (
            p.dependencies@[j as int].0@,
            p.dependencies@[j as int].1@,
        ));
        links.push(
            Link {
                name: p.dependencies[j].0.clone(),
                target: local_folder(&p.dependencies[j].1, 0),
            },
        );
        j += 1;
    }
    assert(links.deep_view() =~= links_of(p@));
    Placement { folder: local_folder(&p.id, 0), links }
}

/// What is laid out in a project for a snapshot.
pub fn place_all(snapshot: &Snapshot) -> (placements: Vec<Placement>)
    ensures
        placements.deep_view() == placements_of(snapshot@),
{
    let mut placements: Vec<Placement> = Vec::new();
    let mut i: usize = 0;
    while i < snapshot.packages.len()
        invariant
            i <= snapshot.packages@.len(),
            placements@.len() == i,
            forall|k: int| 0 <= k < i ==> (#[trigger] placements@[k])@ == placements_of(snapshot@)[k],
        decreases snapshot.packages.len() - i,
    {
        assert(snapshot@.packages[i as int] == snapshot.packages@[i as int]@);
        placements.push(place_package(&snapshot.packages[i]));
        i += 1;
    }
    assert(placements.deep_view() =~= placements_of(snapshot@));
    placements
}

/// What is done to have a package in the `node_modules` of a project.
#[derive(Debug, PartialEq, Eq, Structural, Clone, Copy)]
pub enum LocalSetup {
    /// Nothing: the project holds the package, and needs the cache no more.
    Nothing,
    /// The package is set up from the cache, without a download.
    Initialize,
    /// The package is downloaded into the cache and then set up.
    FetchThenInitialize,
    /// The package cannot be had: the cache does not hold it and the
    /// network is not to be used.
    Unavailable,
}

/// What is done to have a package in the `node_modules` of a project. What
/// the project holds stands, unless it is to be fetched anew and the network
/// may be used. What the project lacks is set up from the cache where the
/// cache may be used as it is, and fetched first where not.
pub open spec fn local_setup_of(in_node_modules: bool, c: Circumstances) -> LocalSetup {
    if in_node_modules && (c.cached_only || !c.reload) {
        LocalSetup::Nothing
    } else if uses_disk(c) {
        LocalSetup::Initialize
    } else if c.cached_only {
        LocalSetup::Unavailable
    } else {
        LocalSetup::FetchThenInitialize
    }
}

/// What is done to have a package in the `node_modules` of a project.
pub fn local_setup(in_node_modules: bool, c: Circumstances) -> (setup: LocalSetup)
    ensures
        setup == local_setup_of(in_node_modules, c),
        c.cached_only ==> setup != LocalSetup::FetchThenInitialize,
{
    if in_node_modules && (c.cached_only || !c.reload) {
        LocalSetup::Nothing
    } else if c.on_disk && (c.cached_only || !c.reload) {
        LocalSetup::Initialize
    } else if c.cached_only {
        LocalSetup::Unavailable
    } else {
        LocalSetup::FetchThenInitialize
    }
}

/// What a run tells of the setup of a package: a line for the download,
/// where there is one, and a line for the setup, where there is one.
pub open spec fn setup_lines_of(setup: LocalSetup, registry: Seq<char>, id: PackageIdView) -> Seq<
    Seq<char>,
> {
    match setup {
        LocalSetup::Initialize => seq!["Initialize "@ + id_text(id)],
        LocalSetup::FetchThenInitialize => seq![
            "Download "@ + tarball_url_of(registry, id),
            "Initialize "@ + id_text(id),
        ],
        _ => Seq::empty(),
    }
}

/// What a run tells of the setup of a package.
pub fn setup_lines(setup: LocalSetup, registry: &str, id: &PackageId) -> (lines: Vec<String>)
    ensures
        lines.deep_view() == setup_lines_of(setup, registry@, id@),
{
    let mut lines: Vec<String> = Vec::new();
    match setup {
        LocalSetup::Initialize => {
            let line = initialize_line(id);
            lines.push(line);
            assert(lines.deep_view() =~= seq![line@]);
        },
        LocalSetup::FetchThenInitialize => {
            let first = download_line(tarball_url(registry, id).as_str());
            let second = initialize_line(id);
            lines.push(first);
            lines.push(second);
            assert(lines.deep_view() =~= seq![first@, second@]);
        },
        _ => {
            assert(lines.deep_view() =~= Seq::empty());
        },
    }
    lines
}

} // verus!
