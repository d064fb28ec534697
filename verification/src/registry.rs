//! What the registry tells of a package: its versions, what each depends on,
//! and the tags that name versions.
use vstd::prelude::*;
use vstd::string::*;
use crate::package::{req_of_text, PackageId, PackageIdView, PackageReq, PackageReqView};
use crate::platform::{Constraints, ConstraintsView};
use crate::req::{req_admits, req_is_tag, req_kind_of, ReqKind, VersionReq};
use crate::snapshot::{Snapshot, SnapshotView};
use crate::version::{version_text, Version};

verus! {

/// What a version of a package depends on. An optional dependency is left
/// out where it cannot be had or does not suit the machine.
pub struct Dependency {
    pub req: PackageReq,
    pub optional: bool,
}

pub struct DependencyView {
    pub req: PackageReqView,
    pub optional: bool,
}

impl View for Dependency {
    type V = DependencyView;

    open spec fn view(&self) -> DependencyView {
        DependencyView { req: self.req@, optional: self.optional }
    }
}

impl DeepView for Dependency {
    type V = DependencyView;

    open spec fn deep_view(&self) -> DependencyView {
        self@
    }
}

/// One version of a package.
pub struct VersionInfo {
    pub version: Version,
    pub integrity: String,
    pub dependencies: Vec<Dependency>,
    pub constraints: Constraints,
}

pub struct VersionInfoView {
    pub version: Version,
    pub integrity: Seq<char>,
    pub dependencies: Seq<DependencyView>,
    pub constraints: ConstraintsView,
}

impl View for VersionInfo {
    type V = VersionInfoView;

    open spec fn view(&self) -> VersionInfoView {
        VersionInfoView {
            version: self.version,
            integrity: self.integrity@,
            dependencies: self.dependencies.deep_view(),
            constraints: self.constraints@,
        }
    }
}

impl DeepView for VersionInfo {
    type V = VersionInfoView;

    open spec fn deep_view(&self) -> VersionInfoView {
        self@
    }
}

/// A package as the registry lists it.
pub struct PackageInfo {
    pub name: String,
    pub versions: Vec<VersionInfo>,
    pub dist_tags: Vec<(String, Version)>,
}

pub struct PackageInfoView {
    pub name: Seq<char>,
    pub versions: Seq<VersionInfoView>,
    pub dist_tags: Seq<(Seq<char>, Version)>,
}

impl View for PackageInfo {
    type V = PackageInfoView;

    open spec fn view(&self) -> PackageInfoView {
        PackageInfoView {
            name: self.name@,
            versions: self.versions.deep_view(),
            dist_tags: self.dist_tags.deep_view(),
        }
    }
}

impl DeepView for PackageInfo {
    type V = PackageInfoView;

    open spec fn deep_view(&self) -> PackageInfoView {
        self@
    }
}

/// The tag names the version: the first entry under the tag's name holds it.
pub open spec fn is_tagged(tags: Seq<(Seq<char>, Version)>, tag: Seq<char>, v: Version) -> bool {
    exists|k: int|
        0 <= k < tags.len() && (#[trigger] tags[k]) == (tag, v) && forall|j: int|
            0 <= j < k ==> (#[trigger] tags[j]).0 != tag
}

/// Whether the version answers the requirement: a range asks that it lie in
/// the range, a tag that the registry list it under the tag.
pub open spec fn answers(info: PackageInfoView, req: Seq<char>, v: Version) -> bool {
    if req_is_tag(req) {
        is_tagged(info.dist_tags, req, v)
    } else {
        req_admits(req, v)
    }
}

/// The version at place `i` is the one to take for the requirement: the
/// highest of those listed that answer it, at the first place where it is
/// listed.
pub open spec fn is_best_match(info: PackageInfoView, req: Seq<char>, i: int) -> bool {
    &&& 0 <= i < info.versions.len()
    &&& answers(info, req, info.versions[i].version)
    &&& forall|j: int|
        0 <= j < info.versions.len() && answers(info, req, (#[trigger] info.versions[j]).version)
            ==> info.versions[j].version.le(info.versions[i].version)
    &&& forall|j: int|
        0 <= j < i ==> (#[trigger] info.versions[j]).version != info.versions[i].version
}

/// No listed version answers the requirement.
pub open spec fn no_match(info: PackageInfoView, req: Seq<char>) -> bool {
    forall|j: int|
        0 <= j < info.versions.len() ==> !answers(info, req, (#[trigger] info.versions[j]).version)
}

/// The place of the version to take for the requirement, if a listed version
/// answers it.
pub open spec fn best_of(info: PackageInfoView, req: Seq<char>) -> Option<int> {
    if exists|i: int| is_best_match(info, req, i) {
        Some(choose|i: int| is_best_match(info, req, i))
    } else {
        None
    }
}

/// The version is listed at place `i`, and at no place before it.
pub open spec fn is_listed_at(info: PackageInfoView, v: Version, i: int) -> bool {
    &&& 0 <= i < info.versions.len()
    &&& info.versions[i].version == v
    &&& forall|j: int| 0 <= j < i ==> (#[trigger] info.versions[j]).version != v
}

/// The first place at which the version is listed, if it is listed.
pub open spec fn listed_at(info: PackageInfoView, v: Version) -> Option<int> {
    if exists|i: int| is_listed_at(info, v, i) {
        Some(choose|i: int| is_listed_at(info, v, i))
    } else {
        None
    }
}

/// The package is the one at place `k`: the first of its name.
pub open spec fn is_info_at(infos: Seq<PackageInfoView>, name: Seq<char>, k: int) -> bool {
    &&& 0 <= k < infos.len()
    &&& infos[k].name == name
    &&& forall|j: int| 0 <= j < k ==> (#[trigger] infos[j]).name != name
}

/// The place of what is known of the package, if anything is.
pub open spec fn info_at(infos: Seq<PackageInfoView>, name: Seq<char>) -> Option<int> {
    if exists|k: int| is_info_at(infos, name, k) {
        Some(choose|k: int| is_info_at(infos, name, k))
    } else {
        None
    }
}

/// A package is known at one place at most.
pub proof fn lemma_info_at(infos: Seq<PackageInfoView>, name: Seq<char>, k: int)
    requires
        is_info_at(infos, name, k),
    ensures
        info_at(infos, name) == Some(k),
{
    let m = choose|m: int| is_info_at(infos, name, m);
    if m < k {
        assert(infos[m].name != name);
    }
    if k < m {
        assert(infos[k].name != name);
    }
}

/// Where nothing of the name is listed, nothing is known of the package.
pub proof fn lemma_info_unknown(infos: Seq<PackageInfoView>, name: Seq<char>)
    requires
        forall|j: int| 0 <= j < infos.len() ==> (#[trigger] infos[j]).name != name,
    ensures
        info_at(infos, name) is None,
{
    if exists|k: int| is_info_at(infos, name, k) {
        let k = choose|k: int| is_info_at(infos, name, k);
        assert(infos[k].name != name);
    }
}

/// The best match is the one place that is a best match.
pub proof fn lemma_best_of(info: PackageInfoView, req: Seq<char>, i: int)
    requires
        is_best_match(info, req, i),
    ensures
        best_of(info, req) == Some(i),
{
    let j = choose|j: int| is_best_match(info, req, j);
    lemma_best_match_unique(info, req, i, j);
}

/// Where no version answers, there is no best match.
pub proof fn lemma_no_best(info: PackageInfoView, req: Seq<char>)
    requires
        no_match(info, req),
    ensures
        best_of(info, req) is None,
{
    if exists|i: int| is_best_match(info, req, i) {
        let i = choose|i: int| is_best_match(info, req, i);
        assert(answers(info, req, info.versions[i].version));
    }
}

/// The place of what is known of the package, if anything is.
pub fn find_info(infos: &Vec<PackageInfo>, name: &String) -> (r: Option<usize>)
    ensures
        match r {
            Some(k) => info_at(infos.deep_view(), name@) == Some(k as int) && k < infos@.len(),
            None => info_at(infos.deep_view(), name@) is None,
        },
{
    let ghost v = infos.deep_view();
    let mut k: usize = 0;
    while k < infos.len()
        invariant
            k <= infos@.len(),
            v == infos.deep_view(),
            forall|j: int| 0 <= j < k ==> (#[trigger] v[j]).name != name@,
        decreases infos.len() - k,
    {
        assert(v[k as int] == infos@[k as int]@);
        if infos[k].name == *name {
            proof {
                lemma_info_at(v, name@, k as int);
            }
            return Some(k);
        }
        k += 1;
    }
    proof {
        lemma_info_unknown(v, name@);
    }
    None
}

/// Whether what is known of the package does not list its version: the
/// package is known, and its version is not among those listed.
pub open spec fn is_unlisted(infos: Seq<PackageInfoView>, id: PackageIdView) -> bool {
    info_at(infos, id.name) matches Some(k) && listed_at(infos[k], id.version) is None
}

/// The package at place `i` of the snapshot is the first whose version what
/// is known does not list.
pub open spec fn is_first_unlisted(s: SnapshotView, infos: Seq<PackageInfoView>, i: int) -> bool {
    &&& 0 <= i < s.packages.len()
    &&& is_unlisted(infos, s.packages[i].id)
    &&& forall|j: int| 0 <= j < i ==> !is_unlisted(infos, (#[trigger] s.packages[j]).id)
}

/// The first package of the snapshot, in its order, whose version what is
/// known of the package does not list: a version that a lockfile vouches
/// for and that the cache does not hold. None where every package that is
/// known lists its version.
pub fn first_unlisted(snapshot: &Snapshot, infos: &Vec<PackageInfo>) -> (r: Option<usize>)
    ensures
        match r {
            Some(i) => is_first_unlisted(snapshot@, infos.deep_view(), i as int),
            None => forall|j: int|
                0 <= j < snapshot@.packages.len() ==> !is_unlisted(
                    infos.deep_view(),
                    (#[trigger] snapshot@.packages[j]).id,
                ),
        },
{
    let ghost s = snapshot@;
    let ghost known = infos.deep_view();
    let mut i: usize = 0;
    while i < snapshot.packages.len()
        invariant
            i <= snapshot.packages@.len(),
            s == snapshot@,
            known == infos.deep_view(),
            forall|j: int| 0 <= j < i ==> !is_unlisted(known, (#[trigger] s.packages[j]).id),
        decreases snapshot.packages.len() - i,
    {
        assert(s.packages[i as int] == snapshot.packages@[i as int]@);
        let id = &snapshot.packages[i].id;
        match find_info(infos, &id.name) {
            Some(k) => {
                assert(known[k as int] == infos@[k as int]@);
                if infos[k].position_of(&id.version).is_none() {
                    return Some(i);
                }
            },
            None => {},
        }
        i += 1;
    }
    None
}

/// There is at most one best match.
pub proof fn lemma_best_match_unique(info: PackageInfoView, req: Seq<char>, i: int, j: int)
    requires
        is_best_match(info, req, i),
        is_best_match(info, req, j),
    ensures
        i == j,
{
    let a = info.versions[i].version;
    let b = info.versions[j].version;
    assert(a.le(b) && b.le(a));
    assert(a == b);
}

impl PackageInfo {
    /// The version that the tag names, if the registry lists the tag.
    pub fn tagged(&self, tag: &str) -> (r: Option<Version>)
        ensures
            match r {
                Some(v) => is_tagged(self@.dist_tags, tag@, v),
                None => forall|v: Version| !is_tagged(self@.dist_tags, tag@, v),
            },
    {
        let wanted = String::from_str(tag);
        let ghost tags = self@.dist_tags;
        let mut k: usize = 0;
        while k < self.dist_tags.len()
            invariant
                k <= self.dist_tags@.len(),
                tags == self@.dist_tags,
                wanted@ == tag@,
                forall|j: int| 0 <= j < k ==> (#[trigger] tags[j]).0 != tag@,
            decreases self.dist_tags.len() - k,
        {
            assert(tags[k as int] == (self.dist_tags@[k as int].0@, self.dist_tags@[k as int].1));
            if self.dist_tags[k].0 == wanted {
                let v = self.dist_tags[k].1;
                assert(tags[k as int] == (tag@, v));
                return Some(v);
            }
            k += 1;
        }
        None
    }

    /// Whether the version answers what a requirement of the text asks for.
    fn answers_kind(&self, kind: &ReqKind, text: &str, v: &Version) -> (b: bool)
        requires
            req_kind_of(text@) == Some(kind@),
        ensures
            b == answers(self@, text@, *v),
    {
        match kind {
            ReqKind::Tag => match self.tagged(text) {
                Some(tagged) => {
                    proof {
                        if is_tagged(self@.dist_tags, text@, *v) {
                            lemma_tag_unique(self@.dist_tags, text@, tagged, *v);
                        }
                    }
                    tagged == *v
                },
                None => false,
            },
            ReqKind::Ranges(_) => kind.admits(v),
        }
    }

    /// Whether the version answers the requirement.
    pub fn is_answer(&self, req: &VersionReq, v: &Version) -> (b: bool)
        ensures
            b == answers(self@, req@, *v),
    {
        let kind = req.kind();
        self.answers_kind(&kind, req.text(), v)
    }

    /// The place of the version to take for the requirement, if a listed
    /// version answers it.
    pub fn best_match(&self, req: &VersionReq) -> (r: Option<usize>)
        ensures
            match r {
                Some(i) => is_best_match(self@, req@, i as int) && best_of(self@, req@) == Some(
                    i as int,
                ),
                None => no_match(self@, req@) && best_of(self@, req@) is None,
            },
    {
        let ghost info = self@;
        let kind = req.kind();
        let mut best: Option<usize> = None;
        let mut j: usize = 0;
        while j < self.versions.len()
            invariant
                j <= self.versions@.len(),
                info == self@,
                req_kind_of(req@) == Some(kind@),
                match best {
                    Some(i) => {
                        &&& i < j
                        &&& answers(info, req@, info.versions[i as int].version)
                        &&& forall|k: int|
                            0 <= k < j && answers(info, req@, (#[trigger] info.versions[k]).version)
                                ==> info.versions[k].version.le(info.versions[i as int].version)
                        &&& forall|k: int|
                            0 <= k < i ==> (#[trigger] info.versions[k]).version
                                != info.versions[i as int].version
                    },
                    None => forall|k: int|
                        0 <= k < j ==> !answers(info, req@, (#[trigger] info.versions[k]).version),
                },
            decreases self.versions.len() - j,
        {
            assert(info.versions[j as int] == self.versions@[j as int]@);
            let v = self.versions[j].version;
            if self.answers_kind(&kind, req.text(), &v) {
                match best {
                    Some(i) => {
                        assert(info.versions[i as int] == self.versions@[i as int]@);
                        if self.versions[i].version.is_before(&v) {
                            best = Some(j);
                        }
                    },
                    None => {
                        best = Some(j);
                    },
                }
            }
            j += 1;
        }
        proof {
            match best {
                Some(i) => lemma_best_of(info, req@, i as int),
                None => lemma_no_best(info, req@),
            }
        }
        best
    }

    /// The first place at which the version is listed, if it is listed.
    pub fn position_of(&self, v: &Version) -> (r: Option<usize>)
        ensures
            match r {
                Some(i) => listed_at(self@, *v) == Some(i as int) && i < self@.versions.len()
                    && is_listed_at(self@, *v, i as int),
                None => listed_at(self@, *v) is None,
            },
    {
        let ghost info = self@;
        let mut i: usize = 0;
        while i < self.versions.len()
            invariant
                i <= self.versions@.len(),
                info == self@,
                forall|j: int| 0 <= j < i ==> (#[trigger] info.versions[j]).version != *v,
            decreases self.versions.len() - i,
        {
            assert(info.versions[i as int] == self.versions@[i as int]@);
            if self.versions[i].version == *v {
                proof {
                    assert(is_listed_at(info, *v, i as int));
                    let c = choose|c: int| is_listed_at(info, *v, c);
                    if c < i {
                        assert(info.versions[c].version != *v);
                    }
                    if i < c {
                        assert(info.versions[i as int].version != *v);
                    }
                }
                return Some(i);
            }
            i += 1;
        }
        proof {
            if exists|c: int| is_listed_at(info, *v, c) {
                let c = choose|c: int| is_listed_at(info, *v, c);
                assert(info.versions[c].version != *v);
            }
        }
        None
    }

    /// The package at the version listed at place `i`, if a version is
    /// listed there.
    pub fn id_at(&self, i: usize) -> (r: Option<PackageId>)
        ensures
            r is Some <==> i < self@.versions.len(),
            r matches Some(id) ==> id@ == (PackageIdView {
                name: self@.name,
                version: self@.versions[i as int].version,
            }),
    {
        if i < self.versions.len() {
            assert(self@.versions[i as int] == self.versions@[i as int]@);
            Some(PackageId { name: self.name.clone(), version: self.versions[i].version })
        } else {
            None
        }
    }
}

/// A tag names at most one version.
pub proof fn lemma_tag_unique(tags: Seq<(Seq<char>, Version)>, tag: Seq<char>, v: Version, w: Version)
    requires
        is_tagged(tags, tag, v),
        is_tagged(tags, tag, w),
    ensures
        v == w,
{
    let k = choose|k: int|
        0 <= k < tags.len() && (#[trigger] tags[k]) == (tag, v) && forall|j: int|
            0 <= j < k ==> (#[trigger] tags[j]).0 != tag;
    let m = choose|m: int|
        0 <= m < tags.len() && (#[trigger] tags[m]) == (tag, w) && forall|j: int|
            0 <= j < m ==> (#[trigger] tags[j]).0 != tag;
    if k < m {
        assert(tags[k].0 != tag);
    }
    if m < k {
        assert(tags[m].0 != tag);
    }
}

/// Where the registry serves what it knows of a package: the registry's
/// address, a slash, the name.
pub open spec fn package_url_of(registry: Seq<char>, name: Seq<char>) -> Seq<char> {
    registry + seq!['/'] + name
}

/// Where the registry serves the contents of a package at a version: the
/// package's address, a slash, the version, `.tgz`.
pub open spec fn tarball_url_of(registry: Seq<char>, id: PackageIdView) -> Seq<char> {
    package_url_of(registry, id.name) + seq!['/'] + version_text(id.version) + seq![
        '.',
        't',
        'g',
        'z',
    ]
}

/// Where the registry serves what it knows of a package.
pub fn package_url(registry: &str, name: &str) -> (url: String)
    ensures
        url@ == package_url_of(registry@, name@),
{
    let mut url = String::from_str(registry);
    url.append("/");
    url.append(name);
    proof {
        reveal_strlit("/");
        assert("/"@ =~= seq!['/']);
    }
    url
}

/// Where the registry serves the contents of a package at a version.
pub fn tarball_url(registry: &str, id: &PackageId) -> (url: String)
    ensures
        url@ == tarball_url_of(registry@, id@),
{
    let mut url = package_url(registry, id.name.as_str());
    url.append("/");
    id.version.append_to(&mut url);
    url.append(".tgz");
    proof {
        reveal_strlit("/");
        reveal_strlit(".tgz");
        assert("/"@ =~= seq!['/']);
        assert(".tgz"@ =~= seq!['.', 't', 'g', 'z']);
    }
    url
}

/// The text of the request that an entry of a list of dependencies stands
/// for: the name, and behind an `@` the range where one is given.
pub open spec fn listed_text(entry: (Seq<char>, Seq<char>)) -> Seq<char> {
    if entry.1.len() == 0 {
        entry.0
    } else {
        entry.0 + seq!['@'] + entry.1
    }
}

/// Whether one of the entries has the name.
pub open spec fn lists(entries: Seq<(Seq<char>, Seq<char>)>, name: Seq<char>) -> bool {
    exists|i: int| 0 <= i < entries.len() && (#[trigger] entries[i]).0 == name
}

/// The dependencies that the entries stand for, in their order. An entry
/// that is no request is passed over, and so is one whose name `skip`
/// lists.
pub open spec fn dependencies_of(
    entries: Seq<(Seq<char>, Seq<char>)>,
    optional: bool,
    skip: Seq<(Seq<char>, Seq<char>)>,
) -> Seq<DependencyView>
    decreases entries.len(),
{
    if entries.len() == 0 {
        Seq::empty()
    } else {
        let before = dependencies_of(entries.drop_last(), optional, skip);
        match req_of_text(listed_text(entries.last())) {
            Some(req) => if lists(skip, entries.last().0) {
                before
            } else {
                before.push(DependencyView { req, optional })
            },
            None => before,
        }
    }
}

/// What a version depends on, as the registry lists it in two lists: the
/// dependencies it must have, then the optional ones. A package that both
/// lists name is optional.
pub open spec fn merged_dependencies(
    required: Seq<(Seq<char>, Seq<char>)>,
    optional: Seq<(Seq<char>, Seq<char>)>,
) -> Seq<DependencyView> {
    dependencies_of(required, false, optional) + dependencies_of(optional, true, Seq::empty())
}

fn listed(entries: &Vec<(String, String)>, name: &String) -> (b: bool)
    ensures
        b == lists(entries.deep_view(), name@),
{
    let ghost e = entries.deep_view();
    let mut i: usize = 0;
    while i < entries.len()
        invariant
            i <= entries@.len(),
            e == entries.deep_view(),
            forall|j: int| 0 <= j < i ==> (#[trigger] e[j]).0 != name@,
        decreases entries.len() - i,
    {
        assert(e[i as int] == (entries@[i as int].0@, entries@[i as int].1@));
        if entries[i].0 == *name {
            return true;
        }
        i += 1;
    }
    false
}

fn read_dependencies(
    entries: &Vec<(String, String)>,
    optional: bool,
    skip: &Vec<(String, String)>,
) -> (out: Vec<Dependency>)
    ensures
        out.deep_view() == dependencies_of(entries.deep_view(), optional, skip.deep_view()),
{
    let ghost e = entries.deep_view();
    let mut out: Vec<Dependency> = Vec::new();
    let mut i: usize = 0;
    assert(e.take(0) =~= Seq::empty());
    assert(out.deep_view() =~= Seq::empty());
    while i < entries.len()
        invariant
            i <= entries@.len(),
            e == entries.deep_view(),
            out.deep_view() == dependencies_of(e.take(i as int), optional, skip.deep_view()),
        decreases entries.len() - i,
    {
        assert(e[i as int] == (entries@[i as int].0@, entries@[i as int].1@));
        proof {
            let now = e.take(i + 1);
            assert(now.drop_last() =~= e.take(i as int));
            assert(now.last() == e[i as int]);
        }
        let mut text = entries[i].0.clone();
        if entries[i].1.as_str().unicode_len() > 0 {
            text.append("@");
            text.append(entries[i].1.as_str());
            proof {
                reveal_strlit("@");
                assert("@"@ =~= seq!['@']);
            }
        }
        match PackageReq::parse(text.as_str()) {
            Some(req) => {
                if !listed(skip, &entries[i].0) {
                    let ghost before = out.deep_view();
                    let d = Dependency { req, optional };
                    out.push(d);
                    assert(out.deep_view() =~= before.push(d@));
                }
            },
            None => {},
        }
        i += 1;
    }
    assert(e.take(i as int) =~= e);
    out
}

/// What a version depends on, as the registry lists it in two lists.
pub fn merge_dependencies(required: &Vec<(String, String)>, optional: &Vec<(String, String)>) -> (out:
    Vec<Dependency>)
    ensures
        out.deep_view() == merged_dependencies(required.deep_view(), optional.deep_view()),
{
    let mut out = read_dependencies(required, false, optional);
    let ghost first = out.deep_view();
    let none: Vec<(String, String)> = Vec::new();
    assert(none.deep_view() =~= Seq::empty());
    let mut rest = read_dependencies(optional, true, &none);
    let ghost second = rest.deep_view();
    out.append(&mut rest);
    assert(out.deep_view() =~= first + second);
    out
}

} // verus!
