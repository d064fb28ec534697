//! At most one download and one extraction per package: who asks first
//! fetches, who asks meanwhile waits, who asks later finds it ready.
use vstd::prelude::*;
use vstd::string::*;
use crate::error::{ResolveError, ResolveErrorView};
use crate::package::{id_text, PackageId, PackageIdView};
use crate::policy::{info_source_of, InfoSource};
use crate::version::version_text;

verus! {

/// What one who asks for a package is told.
#[derive(Debug, PartialEq, Eq, Structural, Clone, Copy)]
pub enum Claim {
    /// The package is on disk.
    Ready,
    /// The package is yours to download and extract; report back with
    /// `finished` or `failed`.
    Fetch,
    /// Another has the package in hand: wait for it.
    Wait,
    /// The package is not on disk and the network is not to be used.
    Unavailable,
}

/// The circumstances of a claim, as the caller found them.
#[derive(Debug, PartialEq, Eq, Structural, Clone, Copy)]
pub struct Circumstances {
    /// The package's directory exists in the cache.
    pub on_disk: bool,
    /// The package is to be fetched anew even where it is on disk.
    pub reload: bool,
    /// Only what is on disk may be used.
    pub cached_only: bool,
}

/// The packages that are on disk for the rest of the run, and those that
/// someone is fetching.
pub struct FlightsView {
    pub settled: Set<PackageIdView>,
    pub in_flight: Set<PackageIdView>,
}

/// No package is settled and none in flight.
pub open spec fn no_flights() -> FlightsView {
    FlightsView { settled: Set::empty(), in_flight: Set::empty() }
}

/// Whether what is on disk is used as it is. The rule is that of the
/// information of a package: always where only the cache may be used, else
/// unless the package is to be fetched anew.
pub open spec fn uses_disk(c: Circumstances) -> bool {
    info_source_of(c.on_disk, c.reload, c.cached_only) == InfoSource::Cache
}

/// What a claim is answered, and what it leaves behind. A package in some
/// hand is waited for, a settled one is ready. Otherwise one found on disk
/// is settled, unless it is to be fetched anew and the network may be used;
/// else it is fetched, unless only the cache may be used.
pub open spec fn claim_of(f: FlightsView, id: PackageIdView, c: Circumstances) -> (
    FlightsView,
    Claim,
) {
    if f.in_flight.contains(id) {
        (f, Claim::Wait)
    } else if f.settled.contains(id) {
        (f, Claim::Ready)
    } else if uses_disk(c) {
        (FlightsView { settled: f.settled.insert(id), in_flight: f.in_flight }, Claim::Ready)
    } else if c.cached_only {
        (f, Claim::Unavailable)
    } else {
        (FlightsView { settled: f.settled, in_flight: f.in_flight.insert(id) }, Claim::Fetch)
    }
}

/// A package that was fetched is settled.
pub open spec fn finished_of(f: FlightsView, id: PackageIdView) -> FlightsView {
    if f.in_flight.contains(id) {
        FlightsView { settled: f.settled.insert(id), in_flight: f.in_flight.remove(id) }
    } else {
        f
    }
}

/// A package whose fetch failed is in nobody's hand: the next to ask tries
/// again.
pub open spec fn failed_of(f: FlightsView, id: PackageIdView) -> FlightsView {
    FlightsView { settled: f.settled, in_flight: f.in_flight.remove(id) }
}

/// The book of who fetches what.
pub struct Flights {
    settled: Vec<PackageId>,
    in_flight: Vec<PackageId>,
}

impl View for Flights {
    type V = FlightsView;

    closed spec fn view(&self) -> FlightsView {
        FlightsView {
            settled: Set::new(|id: PackageIdView| self.settled.deep_view().contains(id)),
            in_flight: Set::new(|id: PackageIdView| self.in_flight.deep_view().contains(id)),
        }
    }
}

fn holds(list: &Vec<PackageId>, id: &PackageId) -> (b: bool)
    ensures
        b == list.deep_view().contains(id@),
{
    let mut i: usize = 0;
    while i < list.len()
        invariant
            i <= list@.len(),
            forall|k: int| 0 <= k < i ==> (#[trigger] list.deep_view()[k]) != id@,
        decreases list.len() - i,
    {
        assert(list.deep_view()[i as int] == list@[i as int]@);
        if list[i].same(id) {
            return true;
        }
        i += 1;
    }
    false
}

fn without(list: &Vec<PackageId>, id: &PackageId) -> (out: Vec<PackageId>)
    ensures
        forall|x: PackageIdView|
            #![trigger out.deep_view().contains(x)]
            out.deep_view().contains(x) == (list.deep_view().contains(x) && x != id@),
{
    let mut out: Vec<PackageId> = Vec::new();
    let ghost l = list.deep_view();
    let mut i: usize = 0;
    while i < list.len()
        invariant
            i <= list@.len(),
            l == list.deep_view(),
            forall|x: PackageIdView|
                #![trigger out.deep_view().contains(x)]
                out.deep_view().contains(x) == (l.take(i as int).contains(x) && x != id@),
        decreases list.len() - i,
    {
        assert(l[i as int] == list@[i as int]@);
        let ghost before = out.deep_view();
        proof {
            lemma_take_next_contains(l, i as int);
        }
        if !list[i].same(id) {
            out.push(list[i].clone());
            proof {
                assert(out.deep_view() =~= before.push(l[i as int]));
                lemma_push_contains(before, l[i as int]);
            }
        }
        i += 1;
    }
    assert(l.take(i as int) =~= l);
    out
}

/// What a list holds after one more was put at its end.
pub proof fn lemma_push_contains<T>(s: Seq<T>, x: T)
    ensures
        forall|y: T| #![trigger s.push(x).contains(y)] s.push(x).contains(y) == (s.contains(y) || y == x),
{
    assert forall|y: T| #![trigger s.push(x).contains(y)] s.push(x).contains(y) == (s.contains(y) || y == x) by {
        let t = s.push(x);
        if s.contains(y) {
            let k = choose|k: int| 0 <= k < s.len() && s[k] == y;
            assert(t[k] == y);
        }
        if y == x {
            assert(t[s.len() as int] == y);
        }
        if t.contains(y) {
            let k = choose|k: int| 0 <= k < t.len() && t[k] == y;
            if k < s.len() {
                assert(s[k] == y);
            }
        }
    }
}

/// What the first `i + 1` of a list hold.
pub proof fn lemma_take_next_contains<T>(s: Seq<T>, i: int)
    requires
        0 <= i < s.len(),
    ensures
        forall|y: T|
            #![trigger s.take(i + 1).contains(y)]
            s.take(i + 1).contains(y) == (s.take(i).contains(y) || y == s[i]),
{
    assert(s.take(i + 1) =~= s.take(i).push(s[i]));
    lemma_push_contains(s.take(i), s[i]);
}

impl Flights {
    /// A book in which no package is settled and none in flight.
    pub fn new() -> (f: Flights)
        ensures
            f@ == no_flights(),
    {
        let f = Flights { settled: Vec::new(), in_flight: Vec::new() };
        assert(f@.settled =~= Set::empty());
        assert(f@.in_flight =~= Set::empty());
        f
    }

    /// Asks for a package.
    pub fn claim(&mut self, id: &PackageId, c: Circumstances) -> (claim: Claim)
        ensures
            (final(self)@, claim) == claim_of(old(self)@, id@, c),
    {
        if holds(&self.in_flight, id) {
            Claim::Wait
        } else if holds(&self.settled, id) {
            Claim::Ready
        } else if c.on_disk && (c.cached_only || !c.reload) {
            proof {
                lemma_push_contains(self.settled.deep_view(), id@);
            }
            let ghost before = self.settled.deep_view();
            self.settled.push(id.clone());
            assert(self.settled.deep_view() =~= before.push(id@));
            assert(self@.settled =~= old(self)@.settled.insert(id@));
            Claim::Ready
        } else if c.cached_only {
            Claim::Unavailable
        } else {
            proof {
                lemma_push_contains(self.in_flight.deep_view(), id@);
            }
            let ghost before = self.in_flight.deep_view();
            self.in_flight.push(id.clone());
            assert(self.in_flight.deep_view() =~= before.push(id@));
            assert(self@.in_flight =~= old(self)@.in_flight.insert(id@));
            Claim::Fetch
        }
    }

    /// Reports that a package that was claimed has been fetched.
    pub fn finished(&mut self, id: &PackageId)
        ensures
            final(self)@ == finished_of(old(self)@, id@),
    {
        if holds(&self.in_flight, id) {
            let remaining = without(&self.in_flight, id);
            let ghost before = self.settled.deep_view();
            self.settled.push(id.clone());
            self.in_flight = remaining;
            proof {
                lemma_push_contains(before, id@);
                assert(self.settled.deep_view() =~= before.push(id@));
                assert forall|x: PackageIdView|
                    self@.settled.contains(x) == old(self)@.settled.insert(id@).contains(x) by {
                    assert(self@.settled.contains(x) == before.push(id@).contains(x));
                }
                assert(self@.settled =~= old(self)@.settled.insert(id@));
                assert forall|x: PackageIdView|
                    self@.in_flight.contains(x) == old(self)@.in_flight.remove(id@).contains(x) by {
                    assert(self@.in_flight.contains(x) == remaining.deep_view().contains(x));
                }
                assert(self@.in_flight =~= old(self)@.in_flight.remove(id@));
            }
        }
    }

    /// Reports that the fetch of a package that was claimed has failed.
    pub fn failed(&mut self, id: &PackageId)
        ensures
            final(self)@ == failed_of(old(self)@, id@),
    {
        let remaining = without(&self.in_flight, id);
        self.in_flight = remaining;
        proof {
            assert forall|x: PackageIdView|
                self@.in_flight.contains(x) == old(self)@.in_flight.remove(id@).contains(x) by {
                assert(self@.in_flight.contains(x) == remaining.deep_view().contains(x));
            }
            assert(self@.in_flight =~= old(self)@.in_flight.remove(id@));
        }
    }
}

/// The error of one who is told that a package is unavailable: no version
/// at hand is the one asked for. It names the package and the version.
pub fn unavailable(id: &PackageId) -> (e: ResolveError)
    ensures
        e@ == (ResolveErrorView::VersionNotFound {
            name: id@.name,
            req: version_text(id@.version),
        }),
{
    ResolveError::VersionNotFound {
        name: id.name.clone(),
        req: id.version.to_text(),
    }
}

/// What is told when something is fetched over the network.
pub fn download_line(url: &str) -> (line: String)
    ensures
        line@ == "Download "@ + url@,
{
    let mut line = String::from_str("Download ");
    line.append(url);
    line
}

/// What is told when a package is extracted for the first time.
pub fn initialize_line(id: &PackageId) -> (line: String)
    ensures
        line@ == "Initialize "@ + id_text(id@),
{
    let mut line = String::from_str("Initialize ");
    line.append(id.to_text().as_str());
    line
}

/// What happens to the book in a run.
pub enum Event {
    /// Someone asks for a package.
    Claim(PackageIdView, Circumstances),
    /// Someone reports a package as fetched.
    Finished(PackageIdView),
}

/// The book after an event.
pub open spec fn after(f: FlightsView, e: Event) -> FlightsView {
    match e {
        Event::Claim(id, c) => claim_of(f, id, c).0,
        Event::Finished(id) => finished_of(f, id),
    }
}

/// Whether the event is a claim for the package that is answered `Fetch`.
pub open spec fn is_fetch(f: FlightsView, e: Event, id: PackageIdView) -> bool {
    e matches Event::Claim(asked, c) && asked == id && claim_of(f, asked, c).1 == Claim::Fetch
}

/// How often, in a run of events that begins with the book `f`, a claim for
/// the package is answered `Fetch`.
pub open spec fn fetches(f: FlightsView, events: Seq<Event>, id: PackageIdView) -> nat
    decreases events.len(),
{
    if events.len() == 0 {
        0
    } else {
        let rest = fetches(after(f, events[0]), events.drop_first(), id);
        if is_fetch(f, events[0], id) {
            1 + rest
        } else {
            rest
        }
    }
}

/// Whether the event is a claim for the package.
pub open spec fn asks_for(e: Event, id: PackageIdView) -> bool {
    e matches Event::Claim(asked, _) && asked == id
}

/// Whether the event, if it is a claim for the package, finds it missing from
/// the disk and may use the network.
pub open spec fn must_fetch(e: Event, id: PackageIdView) -> bool {
    e matches Event::Claim(asked, c) ==> asked == id ==> !c.on_disk && !c.cached_only
}

/// Whether the run holds a claim for the package.
pub open spec fn asked_for(events: Seq<Event>, id: PackageIdView) -> bool {
    exists|i: int| 0 <= i < events.len() && asks_for(#[trigger] events[i], id)
}

/// Single flight: in a run in which no fetch fails, however many ask for a
/// package and in whatever order, at most one of them is told to fetch it; and
/// once the package is settled or in some hand, none is.
pub proof fn lemma_single_flight(f: FlightsView, events: Seq<Event>, id: PackageIdView)
    ensures
        fetches(f, events, id) <= 1,
        f.settled.contains(id) || f.in_flight.contains(id) ==> fetches(f, events, id) == 0,
    decreases events.len(),
{
    if events.len() > 0 {
        lemma_single_flight(after(f, events[0]), events.drop_first(), id);
    }
}

/// Single flight, from an empty book: where every claim for the package finds
/// it missing from the disk and may use the network, exactly one of them is
/// told to fetch it.
pub proof fn lemma_exactly_one_fetch(f: FlightsView, events: Seq<Event>, id: PackageIdView)
    requires
        !f.settled.contains(id),
        !f.in_flight.contains(id),
        asked_for(events, id),
        forall|i: int| 0 <= i < events.len() ==> must_fetch(#[trigger] events[i], id),
    ensures
        fetches(f, events, id) == 1,
    decreases events.len(),
{
    let i = choose|i: int| 0 <= i < events.len() && asks_for(#[trigger] events[i], id);
    assert(must_fetch(events[0], id));
    let rest = events.drop_first();
    let next = after(f, events[0]);
    if is_fetch(f, events[0], id) {
        lemma_single_flight(next, rest, id);
    } else {
        assert(!next.settled.contains(id) && !next.in_flight.contains(id));
        assert(i > 0);
        assert(rest[i - 1] == events[i]);
        assert forall|k: int| 0 <= k < rest.len() implies must_fetch(#[trigger] rest[k], id) by {
            assert(rest[k] == events[k + 1]);
        }
        lemma_exactly_one_fetch(next, rest, id);
    }
}

/// With the cache alone to go by, nobody is ever told to fetch.
pub proof fn lemma_cached_only_never_fetches(f: FlightsView, id: PackageIdView, c: Circumstances)
    requires
        c.cached_only,
    ensures
        claim_of(f, id, c).1 != Claim::Fetch,
        claim_of(f, id, c).1 == Claim::Unavailable <==> !f.in_flight.contains(id)
            && !f.settled.contains(id) && !c.on_disk,
{
}

/// The contents of a package and the information of a package go by one
/// rule. A package that no claim has touched is ready where the cache
/// answers, fetched where the registry answers, and cannot be had where
/// nothing answers.
pub proof fn lemma_contents_as_information(f: FlightsView, id: PackageIdView, c: Circumstances)
    requires
        !f.in_flight.contains(id),
        !f.settled.contains(id),
    ensures
        claim_of(f, id, c).1 == (match info_source_of(c.on_disk, c.reload, c.cached_only) {
            InfoSource::Cache => Claim::Ready,
            InfoSource::Registry => Claim::Fetch,
            InfoSource::Nowhere => Claim::Unavailable,
        }),
{
}

} // verus!
