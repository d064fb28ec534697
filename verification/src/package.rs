//! Names of packages, packages at a version, and requests for a package.
use vstd::prelude::*;
use vstd::string::*;
use crate::req::{req_kind_of, VersionReq};
use crate::text::{
    chars_of, contains_in, find_in, first_index, first_index_in, lemma_occurs_in_part, occurs_in,
    substring,
};
use crate::version::{lemma_version_text_injective, parse_version_in, version_text, Version};

verus! {

/// A name is `name` or `@scope/name`: it holds `@` only in front, and one `/`
/// exactly where it has a scope, with something on both sides of it.
pub open spec fn is_package_name(s: Seq<char>) -> bool {
    &&& s.len() >= 1
    &&& !occurs_in(s, '@', 1, s.len() as int)
    &&& if s[0] == '@' {
        let d = first_index(s, '/');
        2 <= d && d + 1 < s.len() && !occurs_in(s, '/', d + 1, s.len() as int)
    } else {
        !occurs_in(s, '/', 0, s.len() as int)
    }
}

/// Whether `chars[from..to]` is the name of a package.
pub(crate) fn is_name_in(chars: &Vec<char>, from: usize, to: usize) -> (b: bool)
    requires
        from <= to <= chars@.len(),
    ensures
        b == is_package_name(chars@.subrange(from as int, to as int)),
{
    if from == to {
        return false;
    }
    proof {
        lemma_occurs_in_part(chars@, '@', from as int, to as int, from as int + 1, to as int);
        lemma_occurs_in_part(chars@, '/', from as int, to as int, from as int, to as int);
    }
    if contains_in(chars, '@', from + 1, to) {
        return false;
    }
    if chars[from] == '@' {
        let d = first_index_in(chars, '/', from, to);
        if d - from < 2 || d >= to || d + 1 >= to {
            return false;
        }
        proof {
            lemma_occurs_in_part(chars@, '/', from as int, to as int, d as int + 1, to as int);
        }
        !contains_in(chars, '/', d + 1, to)
    } else {
        !contains_in(chars, '/', from, to)
    }
}

/// Whether `s` is the name of a package.
pub fn is_name(s: &str) -> (b: bool)
    ensures
        b == is_package_name(s@),
{
    let chars = chars_of(s);
    assert(chars@.subrange(0, chars@.len() as int) =~= s@);
    is_name_in(&chars, 0, chars.len())
}

/// In `name@rest` the first `@` behind the first character ends the name.
pub proof fn lemma_name_ends_at(name: Seq<char>, rest: Seq<char>, p: int)
    requires
        is_package_name(name),
        1 <= p <= (name + seq!['@'] + rest).len(),
        !occurs_in(name + seq!['@'] + rest, '@', 1, p),
        p < (name + seq!['@'] + rest).len() ==> (name + seq!['@'] + rest)[p] == '@',
    ensures
        p == name.len(),
        (name + seq!['@'] + rest).take(p) == name,
        (name + seq!['@'] + rest).skip(p + 1) == rest,
{
    let s = name + seq!['@'] + rest;
    let n = name.len() as int;
    assert(s[n] == '@');
    if p < n {
        assert(name[p] == s[p]);
        assert(1 <= p < n && name[p] == '@');
    }
    if p > n {
        assert(1 <= n < p && s[n] == '@');
    }
    assert(s.take(p) =~= name);
    assert(s.skip(p + 1) =~= rest);
}

/// A package at a version.
pub struct PackageId {
    pub name: String,
    pub version: Version,
}

pub struct PackageIdView {
    pub name: Seq<char>,
    pub version: Version,
}

impl View for PackageId {
    type V = PackageIdView;

    open spec fn view(&self) -> PackageIdView {
        PackageIdView { name: self.name@, version: self.version }
    }
}

impl DeepView for PackageId {
    type V = PackageIdView;

    open spec fn deep_view(&self) -> PackageIdView {
        self@
    }
}

impl Clone for PackageId {
    fn clone(&self) -> (r: Self)
        ensures
            r@ == self@,
    {
        PackageId { name: self.name.clone(), version: self.version }
    }
}

/// The text `name@major.minor.patch`.
pub open spec fn id_text(id: PackageIdView) -> Seq<char> {
    id.name + seq!['@'] + version_text(id.version)
}

/// The package with a proper name whose text is `t`, if there is one.
pub open spec fn id_of_text(t: Seq<char>) -> Option<PackageIdView> {
    if exists|id: PackageIdView| is_package_name(id.name) && #[trigger] id_text(id) == t {
        Some(choose|id: PackageIdView| is_package_name(id.name) && #[trigger] id_text(id) == t)
    } else {
        None
    }
}

impl PackageId {
    pub fn new(name: &str, version: Version) -> (id: PackageId)
        ensures
            id@ == (PackageIdView { name: name@, version }),
    {
        PackageId { name: String::from_str(name), version }
    }

    /// Whether both are the same package at the same version.
    pub fn same(&self, other: &PackageId) -> (b: bool)
        ensures
            b == (self@ == other@),
    {
        self.name == other.name && self.version == other.version
    }

    /// The text `name@major.minor.patch`.
    pub fn to_text(&self) -> (text: String)
        ensures
            text@ == id_text(self@),
    {
        let mut text = self.name.clone();
        text.append("@");
        self.version.append_to(&mut text);
        proof {
            reveal_strlit("@");
            assert("@"@ =~= seq!['@']);
        }
        text
    }

    /// Reads `name@major.minor.patch`. Only the text that `to_text` writes of
    /// a package with a proper name is accepted.
    pub fn parse(s: &str) -> (r: Option<PackageId>)
        ensures
            match r {
                Some(id) => is_package_name(id@.name) && id_text(id@) == s@,
                None => forall|id: PackageIdView|
                    is_package_name(id.name) ==> #[trigger] id_text(id) != s@,
            },
            r.deep_view() == id_of_text(s@),
    {
        let chars = chars_of(s);
        let n = chars.len();
        if n == 0 {
            return None;
        }
        let p = find_in(&chars, '@', 1, n);
        let ok = p < n && is_name_in(&chars, 0, p);
        let version = if ok {
            parse_version_in(&chars, p + 1, n)
        } else {
            None
        };
        proof {
            assert(s@.take(p as int) =~= chars@.subrange(0, p as int));
            if p < n {
                assert(s@.skip(p + 1) =~= chars@.subrange(p + 1, n as int));
            }
            assert forall|id: PackageIdView|
                is_package_name(id.name) && #[trigger] id_text(id) == s@ implies ok
                && version_text(id.version) == s@.skip(p + 1) by {
                lemma_name_ends_at(id.name, version_text(id.version), p as int);
            }
        }
        match version {
            Some(version) => {
                let name = substring(s, 0, p);
                let id = PackageId { name, version };
                proof {
                    assert(name@ + seq!['@'] + version_text(version) =~= s@);
                    lemma_id_of_text(id@);
                }
                Some(id)
            },
            None => None,
        }
    }
}

/// Two packages with proper names and one text are one package.
pub proof fn lemma_id_text_injective(a: PackageIdView, b: PackageIdView)
    requires
        is_package_name(a.name),
        is_package_name(b.name),
        id_text(a) == id_text(b),
    ensures
        a == b,
{
    let s = id_text(a);
    let p = a.name.len() as int;
    assert(s[p] == '@');
    assert(!occurs_in(s, '@', 1, p)) by {
        if occurs_in(s, '@', 1, p) {
            let j = choose|j: int| 1 <= j < p && s[j] == '@';
            assert(a.name[j] == '@');
        }
    }
    lemma_name_ends_at(a.name, version_text(a.version), p);
    lemma_name_ends_at(b.name, version_text(b.version), p);
    lemma_version_text_injective(a.version, b.version);
}

/// Reading the text of a package with a proper name gives that package.
pub proof fn lemma_id_of_text(id: PackageIdView)
    requires
        is_package_name(id.name),
    ensures
        id_of_text(id_text(id)) == Some(id),
{
    let t = id_text(id);
    let other = choose|other: PackageIdView|
        is_package_name(other.name) && #[trigger] id_text(other) == t;
    lemma_id_text_injective(id, other);
}

/// What was read from a text is a package with a proper name, and the text is
/// its text.
pub proof fn lemma_id_of_text_is_text(t: Seq<char>)
    requires
        id_of_text(t) is Some,
    ensures
        is_package_name(id_of_text(t).unwrap().name),
        id_text(id_of_text(t).unwrap()) == t,
{
}

/// A request for a package: its name and a requirement on its version.
pub struct PackageReq {
    pub name: String,
    pub req: VersionReq,
}

pub struct PackageReqView {
    pub name: Seq<char>,
    pub req: Seq<char>,
}

impl View for PackageReq {
    type V = PackageReqView;

    open spec fn view(&self) -> PackageReqView {
        PackageReqView { name: self.name@, req: self.req@ }
    }
}

impl DeepView for PackageReq {
    type V = PackageReqView;

    open spec fn deep_view(&self) -> PackageReqView {
        self@
    }
}

impl Clone for PackageReq {
    fn clone(&self) -> (r: Self)
        ensures
            r@ == self@,
    {
        PackageReq { name: self.name.clone(), req: self.req.clone() }
    }
}

/// A request names a package properly and holds a requirement.
pub open spec fn is_package_req(q: PackageReqView) -> bool {
    is_package_name(q.name) && req_kind_of(q.req) is Some
}

/// The text `name@requirement`, or the name alone where the requirement is
/// empty.
pub open spec fn req_text(q: PackageReqView) -> Seq<char> {
    if q.req.len() == 0 {
        q.name
    } else {
        q.name + seq!['@'] + q.req
    }
}

/// The request whose text is `t`, if there is one.
pub open spec fn req_of_text(t: Seq<char>) -> Option<PackageReqView> {
    if exists|q: PackageReqView| is_package_req(q) && #[trigger] req_text(q) == t {
        Some(choose|q: PackageReqView| is_package_req(q) && #[trigger] req_text(q) == t)
    } else {
        None
    }
}

impl PackageReq {
    /// Whether both ask for the same package with the same requirement text.
    pub fn same(&self, other: &PackageReq) -> (b: bool)
        ensures
            b == (self@ == other@),
    {
        self.name == other.name && self.req.same(&other.req)
    }

    /// The text `name@requirement`, or the name alone.
    pub fn to_text(&self) -> (text: String)
        ensures
            text@ == req_text(self@),
    {
        let mut text = self.name.clone();
        let req = self.req.text();
        if req.unicode_len() > 0 {
            text.append("@");
            text.append(req);
            proof {
                reveal_strlit("@");
                assert("@"@ =~= seq!['@']);
            }
        }
        text
    }

    /// Reads `name@requirement` or `name`. Only the text that `to_text` writes
    /// of a request with a proper name is accepted.
    pub fn parse(s: &str) -> (r: Option<PackageReq>)
        ensures
            match r {
                Some(q) => is_package_req(q@) && req_text(q@) == s@,
                None => forall|q: PackageReqView|
                    is_package_req(q) ==> #[trigger] req_text(q) != s@,
            },
            r.deep_view() == req_of_text(s@),
    {
        let chars = chars_of(s);
        let n = chars.len();
        if n == 0 {
            return None;
        }
        let p = find_in(&chars, '@', 1, n);
        let name_ok = is_name_in(&chars, 0, p);
        let tail = if p < n {
            substring(s, p + 1, n)
        } else {
            String::new()
        };
        let req = VersionReq::parse(tail.as_str());
        proof {
            assert(s@.take(p as int) =~= chars@.subrange(0, p as int));
            assert(p < n ==> tail@ =~= s@.skip(p + 1));
            assert forall|q: PackageReqView| is_package_req(q) && #[trigger] req_text(q) == s@ implies {
                &&& name_ok
                &&& req is Some
                &&& (p < n ==> p + 1 < n)
            } by {
                lemma_req_text_parts(q, p as int);
            }
        }
        if !name_ok || (p < n && p + 1 >= n) {
            return None;
        }
        match req {
            Some(req) => {
                let name = substring(s, 0, p);
                let q = PackageReq { name, req };
                proof {
                    if p < n {
                        assert(name@ + seq!['@'] + req@ =~= s@);
                    } else {
                        assert(s@.take(n as int) =~= s@);
                    }
                    lemma_req_of_text(q@);
                }
                Some(q)
            },
            None => None,
        }
    }
}

/// In the text of a request the first `@` behind the first character, if
/// there is one, parts the name from a requirement that is not empty.
pub proof fn lemma_req_text_parts(q: PackageReqView, p: int)
    requires
        is_package_req(q),
        1 <= p <= req_text(q).len(),
        !occurs_in(req_text(q), '@', 1, p),
        p < req_text(q).len() ==> req_text(q)[p] == '@',
    ensures
        q.name == req_text(q).take(p),
        p < req_text(q).len() ==> q.req == req_text(q).skip(p + 1) && q.req.len() > 0,
        p == req_text(q).len() ==> q.req == Seq::<char>::empty(),
{
    let s = req_text(q);
    if q.req.len() == 0 {
        if p < s.len() {
            assert(1 <= p < q.name.len() && q.name[p] == '@');
        }
        assert(s.take(p) =~= q.name);
        assert(q.req =~= Seq::<char>::empty());
    } else {
        lemma_name_ends_at(q.name, q.req, p);
    }
}

/// Two requests with one text are one request.
pub proof fn lemma_req_text_injective(a: PackageReqView, b: PackageReqView)
    requires
        is_package_req(a),
        is_package_req(b),
        req_text(a) == req_text(b),
    ensures
        a == b,
{
    let s = req_text(a);
    let p = a.name.len() as int;
    if a.req.len() == 0 {
        if b.req.len() == 0 {
        } else {
            let q = b.name.len() as int;
            assert(s[q] == '@');
            assert(1 <= q < a.name.len() && a.name[q] == '@');
        }
        assert(a.req =~= b.req);
    } else {
        assert(s[p] == '@');
        assert(!occurs_in(s, '@', 1, p)) by {
            if occurs_in(s, '@', 1, p) {
                let j = choose|j: int| 1 <= j < p && s[j] == '@';
                assert(a.name[j] == '@');
            }
        }
        if b.req.len() == 0 {
            assert(1 <= p < b.name.len() && b.name[p] == '@');
        } else {
            lemma_name_ends_at(a.name, a.req, p);
            lemma_name_ends_at(b.name, b.req, p);
        }
    }
}

/// Reading the text of a request gives that request.
pub proof fn lemma_req_of_text(q: PackageReqView)
    requires
        is_package_req(q),
    ensures
        req_of_text(req_text(q)) == Some(q),
{
    let t = req_text(q);
    let other = choose|other: PackageReqView| is_package_req(other) && #[trigger] req_text(other) == t;
    lemma_req_text_injective(q, other);
}

/// What was read from a text is a request, and the text is its text.
pub proof fn lemma_req_of_text_is_text(t: Seq<char>)
    requires
        req_of_text(t) is Some,
    ensures
        is_package_req(req_of_text(t).unwrap()),
        req_text(req_of_text(t).unwrap()) == t,
{
}

} // verus!
