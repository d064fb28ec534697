//! Requirements on versions: `^1.2`, `~1`, `>=2.0.0`, `1.x`-style prefixes,
//! and tags such as `latest`.
use vstd::prelude::*;
use vstd::string::*;
use crate::decimal::{number_of, parse_u64};
use crate::text::{chars_of, split, split_seq, substring};
use crate::version::Version;

verus! {

/// A version of which the last numbers may be left open: `1`, `1.2`, `1.2.3`.
#[derive(Debug, PartialEq, Eq, Clone, Copy)]
pub struct Partial {
    pub major: u64,
    pub minor: Option<u64>,
    pub patch: Option<u64>,
}

/// How a requirement relates to the version it names.
#[derive(Debug, PartialEq, Eq, Structural, Clone, Copy)]
pub enum Operator {
    /// No operator, or `=`.
    Exact,
    /// `^`: changes that leave the first number other than zero alone.
    Caret,
    /// `~`: changes of the patch number, or of the minor one where none is named.
    Tilde,
    /// `>=`
    GreaterEq,
    /// `>`
    Greater,
    /// `<=`
    LessEq,
    /// `<`
    Less,
}

/// The versions from `min` on, up to but not including `max` where there is
/// one.
#[derive(Debug, PartialEq, Eq, Clone, Copy)]
pub struct VersionRange {
    pub min: Version,
    pub max: Option<Version>,
}

impl VersionRange {
    pub open spec fn contains(self, v: Version) -> bool {
        &&& self.min.le(v)
        &&& (self.max matches Some(max) ==> v.lt(max))
    }

    /// Whether `v` lies in the range.
    pub fn includes(&self, v: &Version) -> (b: bool)
        ensures
            b == self.contains(*v),
    {
        self.min.is_at_most(v) && match &self.max {
            Some(max) => v.is_before(max),
            None => true,
        }
    }
}

pub open spec fn lowest() -> Version {
    Version { major: 0, minor: 0, patch: 0 }
}

pub open spec fn highest() -> Version {
    Version { major: u64::MAX, minor: u64::MAX, patch: u64::MAX }
}

/// Every version.
pub open spec fn any_version() -> VersionRange {
    VersionRange { min: lowest(), max: None }
}

/// The first version with a greater first number, if there is one.
pub open spec fn next_major(major: u64) -> Option<Version> {
    if major < u64::MAX {
        Some(Version { major: (major + 1) as u64, minor: 0, patch: 0 })
    } else {
        None
    }
}

/// The first version after those that begin with `major.minor`, if there is
/// one.
pub open spec fn next_minor(major: u64, minor: u64) -> Option<Version> {
    if minor < u64::MAX {
        Some(Version { major, minor: (minor + 1) as u64, patch: 0 })
    } else {
        next_major(major)
    }
}

/// The first version after `v`, if there is one.
pub open spec fn next_patch(v: Version) -> Option<Version> {
    if v.patch < u64::MAX {
        Some(Version { major: v.major, minor: v.minor, patch: (v.patch + 1) as u64 })
    } else {
        next_minor(v.major, v.minor)
    }
}

impl Partial {
    /// The least version that begins as `self` does.
    pub open spec fn floor(self) -> Version {
        Version {
            major: self.major,
            minor: match self.minor {
                Some(m) => m,
                None => 0,
            },
            patch: match self.patch {
                Some(p) => p,
                None => 0,
            },
        }
    }

    /// The first version after those that begin as `self` does, if there is
    /// one.
    pub open spec fn ceiling(self) -> Option<Version> {
        match self.minor {
            None => next_major(self.major),
            Some(minor) => match self.patch {
                None => next_minor(self.major, minor),
                Some(_) => next_patch(self.floor()),
            },
        }
    }

    /// The first version that `^self` no longer admits: the one that changes
    /// the leftmost number of `self` that is not zero, or the last number
    /// named where all are zero.
    pub open spec fn caret_ceiling(self) -> Option<Version> {
        match self.minor {
            None => next_major(self.major),
            Some(minor) => if self.major > 0 {
                next_major(self.major)
            } else {
                match self.patch {
                    None => next_minor(self.major, minor),
                    Some(_) => if minor > 0 {
                        next_minor(self.major, minor)
                    } else {
                        next_patch(self.floor())
                    },
                }
            },
        }
    }

    /// The first version that `~self` no longer admits.
    pub open spec fn tilde_ceiling(self) -> Option<Version> {
        match self.minor {
            None => next_major(self.major),
            Some(minor) => next_minor(self.major, minor),
        }
    }
}

/// The versions that `op` admits when applied to `p`.
pub open spec fn range_of(op: Operator, p: Partial) -> VersionRange {
    match op {
        Operator::Exact => VersionRange { min: p.floor(), max: p.ceiling() },
        Operator::Caret => VersionRange { min: p.floor(), max: p.caret_ceiling() },
        Operator::Tilde => VersionRange { min: p.floor(), max: p.tilde_ceiling() },
        Operator::GreaterEq => VersionRange { min: p.floor(), max: None },
        Operator::Greater => match p.ceiling() {
            Some(next) => VersionRange { min: next, max: None },
            None => VersionRange { min: highest(), max: Some(highest()) },
        },
        Operator::LessEq => VersionRange { min: lowest(), max: p.ceiling() },
        Operator::Less => VersionRange { min: lowest(), max: Some(p.floor()) },
    }
}

/// Whether a segment stands for any number: `*`, `x`, `X`.
pub open spec fn is_wild(s: Seq<char>) -> bool {
    s.len() == 1 && (s[0] == '*' || s[0] == 'x' || s[0] == 'X')
}

/// What a segment behind the first says: a number, or nothing where it
/// stands for any number. What is neither is no segment.
pub open spec fn segment_of(s: Seq<char>) -> Option<Option<u64>> {
    if is_wild(s) {
        Some(None)
    } else {
        match number_of(s) {
            Some(n) => Some(Some(n)),
            None => None,
        }
    }
}

/// The partial version written in `s`: one, two or three segments with dots
/// between them. The first is a number; one behind it may stand for any
/// number, and then so must the one behind that.
pub open spec fn partial_of(s: Seq<char>) -> Option<Partial> {
    let parts = split_seq(s, '.');
    if parts.len() == 1 {
        match number_of(parts[0]) {
            Some(major) => Some(Partial { major, minor: None, patch: None }),
            None => None,
        }
    } else if parts.len() == 2 {
        match (number_of(parts[0]), segment_of(parts[1])) {
            (Some(major), Some(minor)) => Some(Partial { major, minor, patch: None }),
            _ => None,
        }
    } else if parts.len() == 3 {
        match (number_of(parts[0]), segment_of(parts[1]), segment_of(parts[2])) {
            (Some(major), Some(minor), Some(patch)) => if minor is None && patch is Some {
                None
            } else {
                Some(Partial { major, minor, patch })
            },
            _ => None,
        }
    } else {
        None
    }
}

/// The operator at the head of `s`, and how many characters it takes.
pub open spec fn operator_of(s: Seq<char>) -> (Operator, int) {
    if s.len() >= 2 && s[0] == '>' && s[1] == '=' {
        (Operator::GreaterEq, 2)
    } else if s.len() >= 2 && s[0] == '<' && s[1] == '=' {
        (Operator::LessEq, 2)
    } else if s.len() >= 1 && s[0] == '>' {
        (Operator::Greater, 1)
    } else if s.len() >= 1 && s[0] == '<' {
        (Operator::Less, 1)
    } else if s.len() >= 1 && s[0] == '^' {
        (Operator::Caret, 1)
    } else if s.len() >= 1 && s[0] == '~' {
        (Operator::Tilde, 1)
    } else if s.len() >= 1 && s[0] == '=' {
        (Operator::Exact, 1)
    } else {
        (Operator::Exact, 0)
    }
}

pub open spec fn is_letter(c: char) -> bool {
    ('a' <= c && c <= 'z') || ('A' <= c && c <= 'Z')
}

pub open spec fn is_tag_char(c: char) -> bool {
    is_letter(c) || ('0' <= c && c <= '9') || c == '-' || c == '_' || c == '.'
}

/// A tag begins with a letter and goes on with letters, digits, `-`, `_`, `.`.
pub open spec fn is_tag(s: Seq<char>) -> bool {
    &&& s.len() >= 1
    &&& is_letter(s[0])
    &&& forall|i: int| 0 <= i < s.len() ==> is_tag_char(#[trigger] s[i])
}

/// The versions that one comparator admits: all of them for `*`, `x` and
/// `X`, else those that its operator admits of its partial version.
pub open spec fn comparator_of(c: Seq<char>) -> Option<VersionRange> {
    if is_wild(c) {
        Some(any_version())
    } else {
        let (op, n) = operator_of(c);
        match partial_of(c.skip(n)) {
            Some(p) => Some(range_of(op, p)),
            None => None,
        }
    }
}

/// The pieces that are not empty, in their order.
pub open spec fn nonempty(pieces: Seq<Seq<char>>) -> Seq<Seq<char>>
    decreases pieces.len(),
{
    if pieces.len() == 0 {
        Seq::empty()
    } else {
        let before = nonempty(pieces.drop_last());
        if pieces.last().len() == 0 {
            before
        } else {
            before.push(pieces.last())
        }
    }
}

/// The comparators of one alternative: what stands between its blanks.
pub open spec fn words_of(alternative: Seq<char>) -> Seq<Seq<char>> {
    nonempty(split_seq(alternative, ' '))
}

/// What the comparators admit, one range for each, if each is a comparator.
pub open spec fn ranges_of(words: Seq<Seq<char>>) -> Option<Seq<VersionRange>>
    decreases words.len(),
{
    if words.len() == 0 {
        Some(Seq::empty())
    } else {
        match (ranges_of(words.drop_last()), comparator_of(words.last())) {
            (Some(before), Some(range)) => Some(before.push(range)),
            _ => None,
        }
    }
}

/// The alternatives of a requirement: what stands between its `||`. A `|`
/// that stands alone parts nothing.
pub open spec fn alternatives_of(raw: Seq<char>) -> Option<Seq<Seq<char>>> {
    let pieces = split_seq(raw, '|');
    if pieces.len() % 2 == 1 && forall|i: int|
        0 <= i < pieces.len() && i % 2 == 1 ==> (#[trigger] pieces[i]).len() == 0 {
        Some(Seq::new((pieces.len() + 1) / 2, |k: int| pieces[2 * k]))
    } else {
        None
    }
}

/// What the alternatives admit, one set of ranges for each, if each is made
/// of comparators.
pub open spec fn sets_of(alternatives: Seq<Seq<char>>) -> Option<Seq<Seq<VersionRange>>>
    decreases alternatives.len(),
{
    if alternatives.len() == 0 {
        Some(Seq::empty())
    } else {
        match (sets_of(alternatives.drop_last()), ranges_of(words_of(alternatives.last()))) {
            (Some(before), Some(set)) => Some(before.push(set)),
            _ => None,
        }
    }
}

/// What a requirement asks for.
pub enum ReqKindView {
    /// A version that lies in every range of one of the sets.
    Ranges(Seq<Seq<VersionRange>>),
    /// The version that the registry lists under the requirement's text.
    Tag,
}

/// What the requirement written in `raw` asks for, if `raw` is a
/// requirement: alternatives with `||` between them, each a row of
/// comparators with blanks between them; or a tag.
pub open spec fn req_kind_of(raw: Seq<char>) -> Option<ReqKindView> {
    let sets = match alternatives_of(raw) {
        Some(alternatives) => sets_of(alternatives),
        None => None,
    };
    match sets {
        Some(sets) => Some(ReqKindView::Ranges(sets)),
        None => if is_tag(raw) {
            Some(ReqKindView::Tag)
        } else {
            None
        },
    }
}

/// Whether the version lies in every range of the set.
pub open spec fn set_admits(set: Seq<VersionRange>, v: Version) -> bool {
    forall|i: int| 0 <= i < set.len() ==> (#[trigger] set[i]).contains(v)
}

/// Whether one of the sets admits the version.
pub open spec fn sets_admit(sets: Seq<Seq<VersionRange>>, v: Version) -> bool {
    exists|a: int| 0 <= a < sets.len() && set_admits(#[trigger] sets[a], v)
}

/// Whether the requirement written in `raw` is one of ranges, and admits
/// `v`.
pub open spec fn req_admits(raw: Seq<char>, v: Version) -> bool {
    req_kind_of(raw) matches Some(ReqKindView::Ranges(sets)) && sets_admit(sets, v)
}

/// Whether the requirement written in `raw` names a tag.
pub open spec fn req_is_tag(raw: Seq<char>) -> bool {
    req_kind_of(raw) is Some && req_kind_of(raw).unwrap() is Tag
}

impl View for VersionRange {
    type V = VersionRange;

    open spec fn view(&self) -> VersionRange {
        *self
    }
}

impl DeepView for VersionRange {
    type V = VersionRange;

    open spec fn deep_view(&self) -> VersionRange {
        *self
    }
}

/// What a requirement asks for.
pub enum ReqKind {
    /// A version that lies in every range of one of the sets.
    Ranges(Vec<Vec<VersionRange>>),
    /// The version that the registry lists under the requirement's text.
    Tag,
}

impl View for ReqKind {
    type V = ReqKindView;

    open spec fn view(&self) -> ReqKindView {
        match self {
            ReqKind::Ranges(sets) => ReqKindView::Ranges(sets.deep_view()),
            ReqKind::Tag => ReqKindView::Tag,
        }
    }
}

/// A requirement on the version of a package, kept with the text it was read
/// from.
pub struct VersionReq {
    raw: String,
}

impl View for VersionReq {
    type V = Seq<char>;

    closed spec fn view(&self) -> Seq<char> {
        self.raw@
    }
}

impl DeepView for VersionReq {
    type V = Seq<char>;

    open spec fn deep_view(&self) -> Seq<char> {
        self@
    }
}

impl Clone for VersionReq {
    fn clone(&self) -> (r: Self)
        ensures
            r@ == self@,
    {
        proof {
            use_type_invariant(self);
        }
        VersionReq { raw: self.raw.clone() }
    }
}

impl Clone for ReqKind {
    fn clone(&self) -> (r: Self)
        ensures
            r@ == self@,
    {
        match self {
            ReqKind::Tag => ReqKind::Tag,
            ReqKind::Ranges(sets) => {
                let mut copy: Vec<Vec<VersionRange>> = Vec::new();
                let mut a: usize = 0;
                while a < sets.len()
                    invariant
                        a <= sets@.len(),
                        copy@.len() == a,
                        forall|k: int| 0 <= k < a ==> (#[trigger] copy@[k])@ == sets@[k]@,
                    decreases sets.len() - a,
                {
                    let mut set: Vec<VersionRange> = Vec::new();
                    let from = &sets[a];
                    let mut i: usize = 0;
                    while i < from.len()
                        invariant
                            i <= from@.len(),
                            set@ == from@.take(i as int),
                        decreases from.len() - i,
                    {
                        set.push(from[i]);
                        assert(set@ =~= from@.take(i + 1));
                        i += 1;
                    }
                    assert(from@.take(i as int) =~= from@);
                    copy.push(set);
                    a += 1;
                }
                assert(copy.deep_view() =~~= sets.deep_view());
                ReqKind::Ranges(copy)
            },
        }
    }
}

impl VersionReq {
    #[verifier::type_invariant]
    spec fn holds_parsed_text(self) -> bool {
        req_kind_of(self.raw@) is Some
    }

    /// Reads a requirement. Its text is kept as it stands.
    pub fn parse(raw: &str) -> (r: Option<VersionReq>)
        ensures
            r is Some <==> req_kind_of(raw@) is Some,
            r matches Some(req) ==> req@ == raw@,
    {
        match parse_req_kind(raw) {
            Some(_) => Some(VersionReq { raw: String::from_str(raw) }),
            None => None,
        }
    }

    /// What the requirement asks for, read off its text. The text of a
    /// requirement is always one that can be read as a requirement.
    pub fn kind(&self) -> (k: ReqKind)
        ensures
            req_kind_of(self@) == Some(k@),
    {
        proof {
            use_type_invariant(self);
        }
        match parse_req_kind(self.raw.as_str()) {
            Some(kind) => kind,
            None => {
                assert(false);
                ReqKind::Tag
            },
        }
    }

    /// The text that the requirement was read from.
    pub fn text(&self) -> (t: &str)
        ensures
            t@ == self@,
    {
        self.raw.as_str()
    }

    /// Whether the requirement is one of ranges, and admits `v`.
    pub fn admits(&self, v: &Version) -> (b: bool)
        ensures
            b == req_admits(self@, *v),
    {
        self.kind().admits(v)
    }

    /// Whether the requirement names a tag.
    pub fn is_tag(&self) -> (b: bool)
        ensures
            b == req_is_tag(self@),
    {
        match self.kind() {
            ReqKind::Ranges(_) => false,
            ReqKind::Tag => true,
        }
    }

    /// Whether both requirements have one text.
    pub fn same(&self, other: &VersionReq) -> (b: bool)
        ensures
            b == (self@ == other@),
    {
        self.raw == other.raw
    }
}

impl ReqKind {
    /// Whether what is asked for is a version in ranges, and `v` is one.
    pub fn admits(&self, v: &Version) -> (b: bool)
        ensures
            b == (self@ matches ReqKindView::Ranges(sets) && sets_admit(sets, *v)),
    {
        match self {
            ReqKind::Ranges(sets) => admitted(sets, v),
            ReqKind::Tag => false,
        }
    }
}

fn set_admitted(set: &Vec<VersionRange>, v: &Version) -> (b: bool)
    ensures
        b == set_admits(set.deep_view(), *v),
{
    let mut i: usize = 0;
    while i < set.len()
        invariant
            i <= set@.len(),
            forall|k: int| 0 <= k < i ==> (#[trigger] set.deep_view()[k]).contains(*v),
        decreases set.len() - i,
    {
        assert(set.deep_view()[i as int] == set@[i as int]);
        if !set[i].includes(v) {
            return false;
        }
        i += 1;
    }
    true
}

fn admitted(sets: &Vec<Vec<VersionRange>>, v: &Version) -> (b: bool)
    ensures
        b == sets_admit(sets.deep_view(), *v),
{
    let mut a: usize = 0;
    while a < sets.len()
        invariant
            a <= sets@.len(),
            forall|k: int| 0 <= k < a ==> !set_admits(#[trigger] sets.deep_view()[k], *v),
        decreases sets.len() - a,
    {
        assert(sets.deep_view()[a as int] == sets@[a as int].deep_view());
        if set_admitted(&sets[a], v) {
            return true;
        }
        a += 1;
    }
    false
}

fn next_major_of(major: u64) -> (r: Option<Version>)
    ensures
        r == next_major(major),
{
    if major < u64::MAX {
        Some(Version { major: major + 1, minor: 0, patch: 0 })
    } else {
        None
    }
}

fn next_minor_of(major: u64, minor: u64) -> (r: Option<Version>)
    ensures
        r == next_minor(major, minor),
{
    if minor < u64::MAX {
        Some(Version { major, minor: minor + 1, patch: 0 })
    } else {
        next_major_of(major)
    }
}

fn next_patch_of(v: Version) -> (r: Option<Version>)
    ensures
        r == next_patch(v),
{
    if v.patch < u64::MAX {
        Some(Version { major: v.major, minor: v.minor, patch: v.patch + 1 })
    } else {
        next_minor_of(v.major, v.minor)
    }
}

impl Partial {
    /// The least version that begins as `self` does.
    pub fn lower(&self) -> (v: Version)
        ensures
            v == self.floor(),
    {
        Version {
            major: self.major,
            minor: match self.minor {
                Some(m) => m,
                None => 0,
            },
            patch: match self.patch {
                Some(p) => p,
                None => 0,
            },
        }
    }

    fn upper(&self) -> (r: Option<Version>)
        ensures
            r == self.ceiling(),
    {
        match self.minor {
            None => next_major_of(self.major),
            Some(minor) => match self.patch {
                None => next_minor_of(self.major, minor),
                Some(_) => next_patch_of(self.lower()),
            },
        }
    }

    fn caret_upper(&self) -> (r: Option<Version>)
        ensures
            r == self.caret_ceiling(),
    {
        match self.minor {
            None => next_major_of(self.major),
            Some(minor) => if self.major > 0 {
                next_major_of(self.major)
            } else {
                match self.patch {
                    None => next_minor_of(self.major, minor),
                    Some(_) => if minor > 0 {
                        next_minor_of(self.major, minor)
                    } else {
                        next_patch_of(self.lower())
                    },
                }
            },
        }
    }

    fn tilde_upper(&self) -> (r: Option<Version>)
        ensures
            r == self.tilde_ceiling(),
    {
        match self.minor {
            None => next_major_of(self.major),
            Some(minor) => next_minor_of(self.major, minor),
        }
    }
}

fn wild(s: &String) -> (b: bool)
    ensures
        b == is_wild(s@),
{
    let chars = chars_of(s.as_str());
    chars.len() == 1 && (chars[0] == '*' || chars[0] == 'x' || chars[0] == 'X')
}

fn segment(s: &String) -> (r: Option<Option<u64>>)
    ensures
        r == segment_of(s@),
{
    if wild(s) {
        Some(None)
    } else {
        match parse_u64(s.as_str()) {
            Some(n) => Some(Some(n)),
            None => None,
        }
    }
}

impl Partial {
    /// Reads a partial version.
    pub fn parse(s: &str) -> (r: Option<Partial>)
        ensures
            r == partial_of(s@),
    {
        let parts = split(s, '.');
        let ghost p = parts.deep_view();
        if parts.len() == 0 || parts.len() > 3 {
            return None;
        }
        assert(p[0] == parts@[0]@);
        let major = match parse_u64(parts[0].as_str()) {
            Some(major) => major,
            None => {
                return None;
            },
        };
        if parts.len() == 1 {
            return Some(Partial { major, minor: None, patch: None });
        }
        assert(p[1] == parts@[1]@);
        let minor = match segment(&parts[1]) {
            Some(minor) => minor,
            None => {
                return None;
            },
        };
        if parts.len() == 2 {
            return Some(Partial { major, minor, patch: None });
        }
        assert(p[2] == parts@[2]@);
        match segment(&parts[2]) {
            Some(patch) => if minor.is_none() && patch.is_some() {
                None
            } else {
                Some(Partial { major, minor, patch })
            },
            None => None,
        }
    }
}

/// The versions that `op` admits when applied to `p`.
pub fn range_for(op: Operator, p: &Partial) -> (r: VersionRange)
    ensures
        r == range_of(op, *p),
{
    let bottom = Version { major: 0, minor: 0, patch: 0 };
    let top = Version { major: u64::MAX, minor: u64::MAX, patch: u64::MAX };
    match op {
        Operator::Exact => VersionRange { min: p.lower(), max: p.upper() },
        Operator::Caret => VersionRange { min: p.lower(), max: p.caret_upper() },
        Operator::Tilde => VersionRange { min: p.lower(), max: p.tilde_upper() },
        Operator::GreaterEq => VersionRange { min: p.lower(), max: None },
        Operator::Greater => match p.upper() {
            Some(next) => VersionRange { min: next, max: None },
            None => VersionRange { min: top, max: Some(top) },
        },
        Operator::LessEq => VersionRange { min: bottom, max: p.upper() },
        Operator::Less => VersionRange { min: bottom, max: Some(p.lower()) },
    }
}

fn parse_operator(chars: &Vec<char>) -> (r: (Operator, usize))
    ensures
        (r.0, r.1 as int) == operator_of(chars@),
        r.1 <= chars@.len(),
{
    let n = chars.len();
    if n >= 2 && chars[0] == '>' && chars[1] == '=' {
        (Operator::GreaterEq, 2)
    } else if n >= 2 && chars[0] == '<' && chars[1] == '=' {
        (Operator::LessEq, 2)
    } else if n >= 1 && chars[0] == '>' {
        (Operator::Greater, 1)
    } else if n >= 1 && chars[0] == '<' {
        (Operator::Less, 1)
    } else if n >= 1 && chars[0] == '^' {
        (Operator::Caret, 1)
    } else if n >= 1 && chars[0] == '~' {
        (Operator::Tilde, 1)
    } else if n >= 1 && chars[0] == '=' {
        (Operator::Exact, 1)
    } else {
        (Operator::Exact, 0)
    }
}

fn letter(c: char) -> (b: bool)
    ensures
        b == is_letter(c),
{
    (c >= 'a' && c <= 'z') || (c >= 'A' && c <= 'Z')
}

fn tag_text(chars: &Vec<char>) -> (b: bool)
    ensures
        b == is_tag(chars@),
{
    if chars.len() == 0 || !letter(chars[0]) {
        return false;
    }
    let mut i: usize = 0;
    while i < chars.len()
        invariant
            i <= chars@.len(),
            forall|j: int| 0 <= j < i ==> is_tag_char(#[trigger] chars@[j]),
        decreases chars.len() - i,
    {
        let c = chars[i];
        if !(letter(c) || (c >= '0' && c <= '9') || c == '-' || c == '_' || c == '.') {
            return false;
        }
        i += 1;
    }
    true
}

/// The versions that one comparator admits.
pub fn parse_comparator(word: &String) -> (r: Option<VersionRange>)
    ensures
        r == comparator_of(word@),
{
    if wild(word) {
        return Some(VersionRange { min: Version { major: 0, minor: 0, patch: 0 }, max: None });
    }
    let chars = chars_of(word.as_str());
    let (op, skip) = parse_operator(&chars);
    let rest = substring(word.as_str(), skip, chars.len());
    assert(rest@ =~= word@.skip(skip as int));
    match Partial::parse(rest.as_str()) {
        Some(p) => Some(range_for(op, &p)),
        None => None,
    }
}

fn parse_set(alternative: &String) -> (r: Option<Vec<VersionRange>>)
    ensures
        r.deep_view() == ranges_of(words_of(alternative@)),
{
    let pieces = split(alternative.as_str(), ' ');
    let ghost p = pieces.deep_view();
    let mut set: Vec<VersionRange> = Vec::new();
    let mut i: usize = 0;
    assert(p.take(0) =~= Seq::empty());
    assert(set.deep_view() =~= Seq::empty());
    while i < pieces.len()
        invariant
            i <= pieces@.len(),
            p == pieces.deep_view(),
            p == split_seq(alternative@, ' '),
            ranges_of(nonempty(p.take(i as int))) == Some(set.deep_view()),
        decreases pieces.len() - i,
    {
        assert(p[i as int] == pieces@[i as int]@);
        proof {
            let now = p.take(i + 1);
            assert(now.drop_last() =~= p.take(i as int));
            assert(now.last() == p[i as int]);
        }
        if pieces[i].as_str().unicode_len() > 0 {
            let ghost words = nonempty(p.take(i as int));
            assert(nonempty(p.take(i + 1)) == words.push(p[i as int]));
            assert(words.push(p[i as int]).drop_last() =~= words);
            match parse_comparator(&pieces[i]) {
                Some(range) => {
                    let ghost before = set.deep_view();
                    set.push(range);
                    assert(set.deep_view() =~= before.push(range));
                },
                None => {
                    proof {
                        let next = words.push(p[i as int]);
                        assert(next.last() == p[i as int]);
                        assert(ranges_of(next) is None);
                        lemma_ranges_stay_none(next, p, i + 1);
                    }
                    return None;
                },
            }
        }
        i += 1;
    }
    assert(p.take(i as int) =~= p);
    Some(set)
}

/// Once the comparators of the first pieces are not all comparators, those
/// of more pieces are not either.
proof fn lemma_ranges_stay_none(words: Seq<Seq<char>>, pieces: Seq<Seq<char>>, k: int)
    requires
        0 <= k <= pieces.len(),
        words == nonempty(pieces.take(k)),
        ranges_of(words) is None,
    ensures
        ranges_of(nonempty(pieces)) is None,
    decreases pieces.len() - k,
{
    if k == pieces.len() {
        assert(pieces.take(k) =~= pieces);
    } else {
        let now = pieces.take(k + 1);
        assert(now.drop_last() =~= pieces.take(k));
        let next = nonempty(now);
        if now.last().len() != 0 {
            assert(next.drop_last() =~= words);
        }
        lemma_ranges_stay_none(next, pieces, k + 1);
    }
}

/// Once the sets of the first alternatives are not all sets, those of more
/// alternatives are not either.
proof fn lemma_sets_stay_none(alternatives: Seq<Seq<char>>, k: int)
    requires
        0 <= k <= alternatives.len(),
        sets_of(alternatives.take(k)) is None,
    ensures
        sets_of(alternatives) is None,
    decreases alternatives.len() - k,
{
    if k == alternatives.len() {
        assert(alternatives.take(k) =~= alternatives);
    } else {
        let now = alternatives.take(k + 1);
        assert(now.drop_last() =~= alternatives.take(k));
        lemma_sets_stay_none(alternatives, k + 1);
    }
}

fn parse_sets(raw: &str) -> (r: Option<Vec<Vec<VersionRange>>>)
    ensures
        r.deep_view() == (match alternatives_of(raw@) {
            Some(alternatives) => sets_of(alternatives),
            None => None,
        }),
{
    let pieces = split(raw, '|');
    let ghost p = pieces.deep_view();
    let n = pieces.len();
    if n % 2 != 1 {
        return None;
    }
    let mut i: usize = 1;
    while i < n
        invariant
            i <= n + 1,
            i % 2 == 1,
            n % 2 == 1,
            n == pieces@.len(),
            p == pieces.deep_view(),
            p == split_seq(raw@, '|'),
            forall|k: int| 0 <= k < i && k % 2 == 1 ==> (#[trigger] p[k]).len() == 0,
        decreases n + 1 - i,
    {
        assert(p[i as int] == pieces@[i as int]@);
        if pieces[i].as_str().unicode_len() > 0 {
            assert(p[i as int].len() != 0);
            return None;
        }
        i += 2;
    }
    let ghost alternatives = Seq::new((p.len() + 1) / 2, |k: int| p[2 * k]);
    assert(alternatives_of(raw@) == Some(alternatives));
    let mut sets: Vec<Vec<VersionRange>> = Vec::new();
    let mut a: usize = 0;
    let count = (n - 1) / 2 + 1;
    assert(alternatives.take(0) =~= Seq::empty());
    assert(sets.deep_view() =~= Seq::empty());
    while a < count
        invariant
            n == pieces@.len(),
            n % 2 == 1,
            count == (n - 1) / 2 + 1,
            a <= count,
            p == pieces.deep_view(),
            alternatives == Seq::new((p.len() + 1) / 2, |k: int| p[2 * k]),
            alternatives_of(raw@) == Some(alternatives),
            sets_of(alternatives.take(a as int)) == Some(sets.deep_view()),
        decreases count - a,
    {
        assert(p[2 * a] == pieces@[2 * a]@);
        proof {
            let now = alternatives.take(a + 1);
            assert(now.drop_last() =~= alternatives.take(a as int));
            assert(now.last() == p[2 * a]);
        }
        match parse_set(&pieces[2 * a]) {
            Some(set) => {
                let ghost before = sets.deep_view();
                sets.push(set);
                assert(sets.deep_view() =~= before.push(set.deep_view()));
            },
            None => {
                proof {
                    lemma_sets_stay_none(alternatives, a + 1);
                }
                return None;
            },
        }
        a += 1;
    }
    assert(alternatives.take(a as int) =~= alternatives);
    Some(sets)
}

/// What the requirement written in `raw` asks for.
pub fn parse_req_kind(raw: &str) -> (r: Option<ReqKind>)
    ensures
        match r {
            Some(kind) => req_kind_of(raw@) == Some(kind@),
            None => req_kind_of(raw@) is None,
        },
{
    match parse_sets(raw) {
        Some(sets) => Some(ReqKind::Ranges(sets)),
        None => {
            let chars = chars_of(raw);
            if tag_text(&chars) {
                Some(ReqKind::Tag)
            } else {
                None
            }
        },
    }
}

} // verus!
