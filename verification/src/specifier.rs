//! What an import or require asks for, read off the text of its specifier.
use vstd::prelude::*;
use vstd::string::*;
use crate::package::{is_name_in, is_package_name, req_of_text, PackageReq, PackageReqView};
use crate::req::is_letter;
use crate::text::{chars_of, first_index, first_index_in, has_prefix, starts_with, substring};

verus! {

/// The kinds of specifier.
#[derive(Debug, PartialEq, Eq, Structural, Clone, Copy)]
pub enum SpecifierKind {
    /// `./x`, `../x`, `.`, `..`: a path from the file that imports.
    Relative,
    /// `/x`: a path from the root.
    Absolute,
    /// `#x`: an alias out of the `imports` of the package that imports.
    Imports,
    /// `npm:x`: a package of the registry.
    Npm,
    /// `node:x`: a module that the runtime brings along.
    Builtin,
    /// `scheme:x` with any other scheme.
    Url,
    /// `x`, `x/y`, `@s/x`: a package found from the file that imports.
    Bare,
}

/// Whether what stands before the first `:` is a scheme: letters, at least
/// one.
pub open spec fn has_scheme(s: Seq<char>) -> bool {
    let colon = first_index(s, ':');
    &&& 0 < colon < s.len()
    &&& forall|i: int| 0 <= i < colon ==> is_letter(#[trigger] s[i])
}

/// The kind of a specifier.
pub open spec fn kind_of(s: Seq<char>) -> SpecifierKind {
    if starts_with(s, "./"@) || starts_with(s, "../"@) || s == "."@ || s == ".."@ {
        SpecifierKind::Relative
    } else if starts_with(s, "/"@) {
        SpecifierKind::Absolute
    } else if starts_with(s, "#"@) {
        SpecifierKind::Imports
    } else if starts_with(s, "npm:"@) {
        SpecifierKind::Npm
    } else if starts_with(s, "node:"@) {
        SpecifierKind::Builtin
    } else if has_scheme(s) {
        SpecifierKind::Url
    } else {
        SpecifierKind::Bare
    }
}

fn begins(chars: &Vec<char>, prefix: &str) -> (b: bool)
    ensures
        b == starts_with(chars@, prefix@),
{
    let p = chars_of(prefix);
    has_prefix(chars, &p)
}

fn is_text(chars: &Vec<char>, text: &str) -> (b: bool)
    ensures
        b == (chars@ == text@),
{
    let t = chars_of(text);
    let b = chars.len() == t.len() && has_prefix(chars, &t);
    proof {
        if chars@.len() == t@.len() {
            assert(chars@.take(t@.len() as int) =~= chars@);
        }
    }
    b
}

fn scheme(chars: &Vec<char>) -> (b: bool)
    ensures
        b == has_scheme(chars@),
{
    let n = chars.len();
    assert(chars@.subrange(0, n as int) =~= chars@);
    let colon = first_index_in(chars, ':', 0, n);
    if colon == 0 || colon >= n {
        return false;
    }
    let mut i: usize = 0;
    while i < colon
        invariant
            i <= colon < chars@.len(),
            colon == first_index(chars@, ':'),
            forall|k: int| 0 <= k < i ==> is_letter(#[trigger] chars@[k]),
        decreases colon - i,
    {
        let c = chars[i];
        if !((c >= 'a' && c <= 'z') || (c >= 'A' && c <= 'Z')) {
            assert(!is_letter(chars@[i as int]));
            return false;
        }
        i += 1;
    }
    true
}

/// The kind of a specifier.
pub fn classify(specifier: &str) -> (kind: SpecifierKind)
    ensures
        kind == kind_of(specifier@),
{
    let chars = chars_of(specifier);
    if begins(&chars, "./") || begins(&chars, "../") || is_text(&chars, ".") || is_text(
        &chars,
        "..",
    ) {
        SpecifierKind::Relative
    } else if begins(&chars, "/") {
        SpecifierKind::Absolute
    } else if begins(&chars, "#") {
        SpecifierKind::Imports
    } else if begins(&chars, "npm:") {
        SpecifierKind::Npm
    } else if begins(&chars, "node:") {
        SpecifierKind::Builtin
    } else if scheme(&chars) {
        SpecifierKind::Url
    } else {
        SpecifierKind::Bare
    }
}

/// Where the part that names the package ends: at the first `/`, or, where a
/// scope stands in front, at the second.
pub open spec fn head_end(s: Seq<char>) -> int {
    let slash = first_index(s, '/');
    if s.len() > 0 && s[0] == '@' && slash < s.len() {
        slash + 1 + first_index(s.skip(slash + 1), '/')
    } else {
        slash
    }
}

/// The subpath that what follows the name of the package stands for: `.` for
/// the package itself, else `./` and the rest.
pub open spec fn subpath_of(tail: Seq<char>) -> Seq<char> {
    seq!['.'] + tail
}

/// A package, and a subpath within it.
pub struct BareSpecifier {
    pub name: String,
    pub subpath: String,
}

pub struct BareSpecifierView {
    pub name: Seq<char>,
    pub subpath: Seq<char>,
}

impl View for BareSpecifier {
    type V = BareSpecifierView;

    open spec fn view(&self) -> BareSpecifierView {
        BareSpecifierView { name: self.name@, subpath: self.subpath@ }
    }
}

/// What a bare specifier asks for, if it begins with the name of a package.
pub open spec fn bare_of(s: Seq<char>) -> Option<BareSpecifierView> {
    let end = head_end(s);
    if is_package_name(s.take(end)) {
        Some(BareSpecifierView { name: s.take(end), subpath: subpath_of(s.skip(end)) })
    } else {
        None
    }
}

/// A request for a package of the registry, and a subpath within it.
pub struct NpmReference {
    pub req: PackageReq,
    pub subpath: String,
}

pub struct NpmReferenceView {
    pub req: PackageReqView,
    pub subpath: Seq<char>,
}

impl View for NpmReference {
    type V = NpmReferenceView;

    open spec fn view(&self) -> NpmReferenceView {
        NpmReferenceView { req: self.req@, subpath: self.subpath@ }
    }
}

/// What follows `npm:` in a specifier; a `/` in front of it is passed over.
pub open spec fn npm_body(s: Seq<char>) -> Seq<char> {
    let body = s.skip(4);
    if body.len() > 0 && body[0] == '/' {
        body.skip(1)
    } else {
        body
    }
}

/// What an `npm:` specifier asks for: `npm:`, a request, and a subpath where
/// a `/` follows the request.
pub open spec fn npm_reference_of(s: Seq<char>) -> Option<NpmReferenceView> {
    if !starts_with(s, "npm:"@) {
        None
    } else {
        let body = npm_body(s);
        let end = head_end(body);
        match req_of_text(body.take(end)) {
            Some(req) => Some(NpmReferenceView { req, subpath: subpath_of(body.skip(end)) }),
            None => None,
        }
    }
}

fn head_end_in(chars: &Vec<char>, from: usize) -> (end: usize)
    requires
        from <= chars@.len(),
    ensures
        from <= end <= chars@.len(),
        end - from == head_end(chars@.skip(from as int)),
{
    let n = chars.len();
    let ghost s = chars@.skip(from as int);
    assert(s =~= chars@.subrange(from as int, n as int));
    let slash = first_index_in(chars, '/', from, n);
    if from < n && chars[from] == '@' && slash < n {
        assert(s.skip(slash - from + 1) =~= chars@.subrange(slash + 1, n as int));
        first_index_in(chars, '/', slash + 1, n)
    } else {
        slash
    }
}

fn subpath_from(specifier: &str, from: usize, len: usize) -> (subpath: String)
    requires
        from <= len == specifier@.len(),
    ensures
        subpath@ == subpath_of(specifier@.skip(from as int)),
{
    let mut subpath = String::from_str(".");
    subpath.append(specifier.substring_char(from, len));
    proof {
        reveal_strlit(".");
        assert("."@ =~= seq!['.']);
        assert(specifier@.skip(from as int) =~= specifier@.subrange(from as int, len as int));
    }
    subpath
}

/// What a bare specifier asks for.
pub fn parse_bare(specifier: &str) -> (r: Option<BareSpecifier>)
    ensures
        match r {
            Some(bare) => bare_of(specifier@) == Some(bare@),
            None => bare_of(specifier@) is None,
        },
{
    let chars = chars_of(specifier);
    assert(chars@.skip(0) =~= chars@);
    let end = head_end_in(&chars, 0);
    assert(specifier@.take(end as int) =~= chars@.subrange(0, end as int));
    if is_name_in(&chars, 0, end) {
        Some(
            BareSpecifier {
                name: substring(specifier, 0, end),
                subpath: subpath_from(specifier, end, chars.len()),
            },
        )
    } else {
        None
    }
}

/// What an `npm:` specifier asks for.
pub fn parse_npm(specifier: &str) -> (r: Option<NpmReference>)
    ensures
        match r {
            Some(reference) => npm_reference_of(specifier@) == Some(reference@),
            None => npm_reference_of(specifier@) is None,
        },
{
    let chars = chars_of(specifier);
    if !begins(&chars, "npm:") {
        return None;
    }
    proof {
        reveal_strlit("npm:");
    }
    let n = chars.len();
    let from: usize = if n > 4 && chars[4] == '/' {
        5
    } else {
        4
    };
    let ghost body = npm_body(specifier@);
    assert(body =~= chars@.skip(from as int)) by {
        assert(specifier@.skip(4).len() == n - 4);
        if n > 4 {
            assert(specifier@.skip(4)[0] == chars@[4]);
        }
        if from == 5 {
            assert(specifier@.skip(4).skip(1) =~= chars@.skip(5));
        }
    }
    let end = head_end_in(&chars, from);
    let head = substring(specifier, from, end);
    assert(head@ =~= body.take(end - from));
    assert(body.skip(end - from) =~= specifier@.skip(end as int));
    match PackageReq::parse(head.as_str()) {
        Some(req) => Some(NpmReference { req, subpath: subpath_from(specifier, end, n) }),
        None => None,
    }
}

} // verus!
