//! The modules of a run, each kept once under its path, and the names that
//! a module exports once the modules it re-exports are taken in.
use vstd::prelude::*;
use vstd::string::*;
use crate::cjs::{Item, ItemView};
use crate::text::{chars_of, ends_with, has_suffix_from, holds_text};

verus! {

/// The kinds of module.
#[derive(Debug, PartialEq, Eq, Structural, Clone, Copy)]
pub enum ModuleKind {
    /// An ECMAScript module.
    Esm,
    /// A CommonJS module.
    Cjs,
    /// A JSON file: its value is all that it exports.
    Json,
    /// A module that the runtime brings along.
    Builtin,
}

/// The kind of the module in a file: `.mjs` is an ECMAScript module, `.cjs`
/// and `.node` are CommonJS, `.json` is JSON; any other file is what the
/// `type` of its package says, CommonJS where it says nothing.
pub open spec fn kind_of_file(path: Seq<char>, package_is_module: bool) -> ModuleKind {
    if ends_with(path, ".mjs"@) {
        ModuleKind::Esm
    } else if ends_with(path, ".cjs"@) || ends_with(path, ".node"@) {
        ModuleKind::Cjs
    } else if ends_with(path, ".json"@) {
        ModuleKind::Json
    } else if package_is_module {
        ModuleKind::Esm
    } else {
        ModuleKind::Cjs
    }
}

fn ends(chars: &Vec<char>, suffix: &str) -> (b: bool)
    ensures
        b == ends_with(chars@, suffix@),
{
    let s = chars_of(suffix);
    assert(s@.skip(0) =~= s@);
    has_suffix_from(chars, &s, 0)
}

/// The kind of the module in a file.
pub fn module_kind(path: &str, package_is_module: bool) -> (kind: ModuleKind)
    ensures
        kind == kind_of_file(path@, package_is_module),
{
    let chars = chars_of(path);
    if ends(&chars, ".mjs") {
        ModuleKind::Esm
    } else if ends(&chars, ".cjs") || ends(&chars, ".node") {
        ModuleKind::Cjs
    } else if ends(&chars, ".json") {
        ModuleKind::Json
    } else if package_is_module {
        ModuleKind::Esm
    } else {
        ModuleKind::Cjs
    }
}

/// A module of the run.
pub struct ModuleRecord {
    /// The real path of the file.
    pub path: String,
    pub kind: ModuleKind,
    /// For a CommonJS module, what its text shows of its exports.
    pub items: Vec<Item>,
    /// For each item, the place of the module that it re-exports, once that
    /// module is known.
    pub targets: Vec<Option<usize>>,
}

pub struct ModuleRecordView {
    pub path: Seq<char>,
    pub kind: ModuleKind,
    pub items: Seq<ItemView>,
    pub targets: Seq<Option<usize>>,
}

impl View for ModuleRecord {
    type V = ModuleRecordView;

    open spec fn view(&self) -> ModuleRecordView {
        ModuleRecordView {
            path: self.path@,
            kind: self.kind,
            items: self.items.deep_view(),
            targets: self.targets@,
        }
    }
}

impl DeepView for ModuleRecord {
    type V = ModuleRecordView;

    open spec fn deep_view(&self) -> ModuleRecordView {
        self@
    }
}

/// A name that a module exports, with the place of the module that defines
/// it.
pub struct Binding {
    pub name: String,
    pub module: usize,
}

pub struct BindingView {
    pub name: Seq<char>,
    pub module: int,
}

impl View for Binding {
    type V = BindingView;

    open spec fn view(&self) -> BindingView {
        BindingView { name: self.name@, module: self.module as int }
    }
}

impl DeepView for Binding {
    type V = BindingView;

    open spec fn deep_view(&self) -> BindingView {
        self@
    }
}

/// The module at place `i` is the first under the path.
pub open spec fn is_module_at(records: Seq<ModuleRecordView>, path: Seq<char>, i: int) -> bool {
    &&& 0 <= i < records.len()
    &&& records[i].path == path
    &&& forall|j: int| 0 <= j < i ==> (#[trigger] records[j]).path != path
}

/// Whether a module is kept under the path.
pub open spec fn has_module(records: Seq<ModuleRecordView>, path: Seq<char>) -> bool {
    exists|i: int| 0 <= i < records.len() && (#[trigger] records[i]).path == path
}

/// No two modules are kept under one path.
pub open spec fn unique_paths(records: Seq<ModuleRecordView>) -> bool {
    forall|i: int, j: int|
        0 <= i < j < records.len() ==> (#[trigger] records[i]).path != (#[trigger] records[j]).path
}

/// What the module at place `t` hands to one that re-exports it, looking
/// `depth` re-exports deep: a JSON file its value under the name `default`,
/// a CommonJS module its bindings, any other module nothing.
pub open spec fn handed_on(records: Seq<ModuleRecordView>, t: int, depth: nat) -> Seq<BindingView>
    decreases depth, 1nat, 0nat,
{
    if t < 0 || t >= records.len() {
        Seq::empty()
    } else {
        match records[t].kind {
            ModuleKind::Json => seq![BindingView { name: "default"@, module: t }],
            ModuleKind::Cjs => bindings_upto(records, t, records[t].items.len() as int, depth),
            _ => Seq::empty(),
        }
    }
}

/// The bindings that the first `k` items of the module at place `m` come to,
/// in the order of the items: an export binds its name to the module, a
/// re-export brings the bindings that its target hands on. A re-export whose
/// target is not known, or that lies deeper than `depth`, brings nothing.
pub open spec fn bindings_upto(records: Seq<ModuleRecordView>, m: int, k: int, depth: nat) -> Seq<
    BindingView,
>
    decreases depth, 0nat, k,
{
    if m < 0 || m >= records.len() || k <= 0 || k > records[m].items.len() {
        Seq::empty()
    } else {
        let before = bindings_upto(records, m, k - 1, depth);
        let here = match records[m].items[k - 1] {
            ItemView::Export(name) => seq![BindingView { name, module: m }],
            ItemView::Reexport(_) => if depth > 0 && k - 1 < records[m].targets.len() {
                match records[m].targets[k - 1] {
                    Some(t) => handed_on(records, t as int, (depth - 1) as nat),
                    None => Seq::empty(),
                }
            } else {
                Seq::empty()
            },
        };
        before + here
    }
}

/// The bindings of the module at place `m`, in the order in which they are
/// merged. Among as many modules as are kept no chain of re-exports that
/// does not run in a circle is longer than their number.
pub open spec fn bindings_of(records: Seq<ModuleRecordView>, m: int) -> Seq<BindingView> {
    handed_on(records, m, records.len())
}

/// The binding at place `i` is the one that counts for the name: the last of
/// that name.
pub open spec fn is_winner(bindings: Seq<BindingView>, name: Seq<char>, i: int) -> bool {
    &&& 0 <= i < bindings.len()
    &&& bindings[i].name == name
    &&& forall|j: int| i < j < bindings.len() ==> (#[trigger] bindings[j]).name != name
}

/// The names of the bindings, each once, in the order in which they first
/// occur.
pub open spec fn distinct_names(bindings: Seq<BindingView>) -> Seq<Seq<char>>
    decreases bindings.len(),
{
    if bindings.len() == 0 {
        Seq::empty()
    } else {
        let before = distinct_names(bindings.drop_last());
        if before.contains(bindings.last().name) {
            before
        } else {
            before.push(bindings.last().name)
        }
    }
}

/// Where the binding stands that counts for the name: where two bindings
/// have one name, the later one counts.
pub fn winner(bindings: &Vec<Binding>, name: &str) -> (r: Option<usize>)
    ensures
        match r {
            Some(i) => is_winner(bindings.deep_view(), name@, i as int),
            None => forall|j: int|
                0 <= j < bindings@.len() ==> (#[trigger] bindings.deep_view()[j]).name != name@,
        },
{
    let wanted = String::from_str(name);
    let ghost b = bindings.deep_view();
    let mut i: usize = bindings.len();
    while i > 0
        invariant
            i <= bindings@.len(),
            b == bindings.deep_view(),
            wanted@ == name@,
            forall|j: int| i <= j < b.len() ==> (#[trigger] b[j]).name != name@,
        decreases i,
    {
        i -= 1;
        assert(b[i as int] == bindings@[i as int]@);
        if bindings[i].name == wanted {
            return Some(i);
        }
    }
    None
}

/// The names that the bindings export, each once, in the order in which
/// they first occur.
pub fn export_names(bindings: &Vec<Binding>) -> (names: Vec<String>)
    ensures
        names.deep_view() == distinct_names(bindings.deep_view()),
{
    let ghost b = bindings.deep_view();
    let mut names: Vec<String> = Vec::new();
    let mut i: usize = 0;
    assert(b.take(0) =~= Seq::empty());
    assert(names.deep_view() =~= distinct_names(b.take(0)));
    while i < bindings.len()
        invariant
            i <= bindings@.len(),
            b == bindings.deep_view(),
            names.deep_view() == distinct_names(b.take(i as int)),
        decreases bindings.len() - i,
    {
        assert(b[i as int] == bindings@[i as int]@);
        proof {
            let now = b.take(i + 1);
            assert(now.drop_last() =~= b.take(i as int));
            assert(now.last() == b[i as int]);
        }
        if !holds_text(&names, &bindings[i].name) {
            let ghost before = names.deep_view();
            names.push(bindings[i].name.clone());
            assert(names.deep_view() =~= before.push(b[i as int].name));
        }
        i += 1;
    }
    assert(b.take(i as int) =~= b);
    names
}

/// The modules of a run.
pub struct Session {
    pub records: Vec<ModuleRecord>,
}

impl View for Session {
    type V = Seq<ModuleRecordView>;

    open spec fn view(&self) -> Seq<ModuleRecordView> {
        self.records.deep_view()
    }
}

impl Session {
    /// A run without modules.
    pub fn new() -> (s: Session)
        ensures
            s@ == Seq::<ModuleRecordView>::empty(),
            unique_paths(s@),
    {
        let s = Session { records: Vec::new() };
        assert(s@ =~= Seq::empty());
        s
    }

    /// Where the module of the path is kept, if it is.
    pub fn find(&self, path: &str) -> (r: Option<usize>)
        ensures
            match r {
                Some(i) => is_module_at(self@, path@, i as int),
                None => !has_module(self@, path@),
            },
    {
        let wanted = String::from_str(path);
        let mut i: usize = 0;
        while i < self.records.len()
            invariant
                i <= self.records@.len(),
                wanted@ == path@,
                forall|j: int| 0 <= j < i ==> (#[trigger] self@[j]).path != path@,
            decreases self.records.len() - i,
        {
            assert(self@[i as int] == self.records@[i as int]@);
            if self.records[i].path == wanted {
                return Some(i);
            }
            i += 1;
        }
        None
    }

    /// Keeps a module, unless one is kept under its path already: a module
    /// is made once and stands for the rest of the run. The place of the
    /// module that is kept under the path is handed back.
    pub fn keep(&mut self, record: ModuleRecord) -> (place: usize)
        ensures
            has_module(old(self)@, record@.path) ==> final(self)@ == old(self)@ && is_module_at(
                final(self)@,
                record@.path,
                place as int,
            ),
            !has_module(old(self)@, record@.path) ==> final(self)@ == old(self)@.push(record@)
                && place == old(self)@.len(),
            unique_paths(old(self)@) ==> unique_paths(final(self)@),
    {
        match self.find(record.path.as_str()) {
            Some(i) => i,
            None => {
                let place = self.records.len();
                self.records.push(record);
                proof {
                    assert(self@ =~= old(self)@.push(record@));
                    if unique_paths(old(self)@) {
                        assert forall|i: int, j: int| 0 <= i < j < self@.len() implies (
                        #[trigger] self@[i]).path != (#[trigger] self@[j]).path by {
                            if j < old(self)@.len() {
                                assert(self@[i] == old(self)@[i] && self@[j] == old(self)@[j]);
                            } else {
                                assert(self@[i] == old(self)@[i]);
                            }
                        }
                    }
                }
                place
            },
        }
    }

    fn handed(&self, t: usize, depth: usize) -> (out: Vec<Binding>)
        ensures
            out.deep_view() == handed_on(self@, t as int, depth as nat),
        decreases depth, 1nat, 0nat,
    {
        if t >= self.records.len() {
            return Vec::new();
        }
        assert(self@[t as int] == self.records@[t as int]@);
        match self.records[t].kind {
            ModuleKind::Json => {
                let mut out: Vec<Binding> = Vec::new();
                let b = Binding { name: String::from_str("default"), module: t };
                out.push(b);
                assert(out.deep_view() =~= seq![b@]);
                out
            },
            ModuleKind::Cjs => self.collect(t, depth),
            _ => Vec::new(),
        }
    }

    fn collect(&self, m: usize, depth: usize) -> (out: Vec<Binding>)
        requires
            m < self@.len(),
        ensures
            out.deep_view() == bindings_upto(
                self@,
                m as int,
                self@[m as int].items.len() as int,
                depth as nat,
            ),
        decreases depth, 0nat, 0nat,
    {
        let ghost records = self@;
        assert(records[m as int] == self.records@[m as int]@);
        let record = &self.records[m];
        let mut out: Vec<Binding> = Vec::new();
        let mut k: usize = 0;
        assert(out.deep_view() =~= bindings_upto(records, m as int, 0, depth as nat));
        while k < record.items.len()
            invariant
                k <= record.items@.len(),
                m < records.len(),
                records == self@,
                records[m as int] == record@,
                out.deep_view() == bindings_upto(records, m as int, k as int, depth as nat),
            decreases record.items.len() - k,
        {
            let ghost before = out.deep_view();
            assert(record@.items[k as int] == record.items@[k as int]@);
            match &record.items[k] {
                Item::Export(name) => {
                    let b = Binding { name: name.clone(), module: m };
                    out.push(b);
                    assert(out.deep_view() =~= before + seq![b@]);
                },
                Item::Reexport(_) => {
                    if depth > 0 && k < record.targets.len() {
                        match record.targets[k] {
                            Some(t) => {
                                let mut more = self.handed(t, depth - 1);
                                let ghost added = more.deep_view();
                                out.append(&mut more);
                                assert(out.deep_view() =~= before + added);
                            },
                            None => {
                                assert(before + Seq::<BindingView>::empty() =~= before);
                            },
                        }
                    } else {
                        assert(before + Seq::<BindingView>::empty() =~= before);
                    }
                },
            }
            k += 1;
        }
        out
    }

    /// The bindings of the module at place `m`, in the order in which they
    /// are merged: where two have one name, the later one counts.
    pub fn bindings(&self, m: usize) -> (out: Vec<Binding>)
        ensures
            out.deep_view() == bindings_of(self@, m as int),
    {
        self.handed(m, self.records.len())
    }
}

} // verus!
