//! The refresh coordinator: owner of the published snapshot. A refresh
//! builds a fresh filter set from whatever sources could be fetched,
//! compiles it, and only then swaps the published snapshot; readers always
//! see either the old snapshot or the new one, never a mix.
//!
//! Fetching itself is the caller's edge: the coordinator is handed the
//! per-source outcomes and decides. Policy on overlapping refreshes: a
//! second refresh started while one is in flight is rejected with
//! `AlreadyInProgress`, never coalesced, so no duplicate fetch storm can
//! start silently.

use vstd::prelude::*;

use crate::engine::{Engine, MatchOutcome, Request, SpecEngine};
use crate::host::host_of;
use crate::filter_set::{spec_add_lines, spec_engine_of, FilterSet, SpecFilterSet};

verus! {

/// Why one source failed to yield lines.
#[derive(Clone, Copy, PartialEq, Eq, Structural, Debug)]
pub enum FetchError {
    /// The transport failed: connection, resolution, timeout.
    Network,
    /// The server answered outside the 2xx range.
    HttpStatus(u16),
    /// The body could not be decoded as text.
    Decode,
}

/// Why a refresh attempt failed as a whole.
#[derive(Clone, Copy, PartialEq, Eq, Structural, Debug)]
pub enum RefreshError {
    /// Not one source could be fetched; the prior snapshot stays published.
    AllSourcesFailed,
    /// A refresh was already in flight.
    AlreadyInProgress,
}

/// What one source handed back: its raw lines, or the error that kept it
/// from doing so.
pub enum SourceFetch {
    Fetched(Vec<Vec<u8>>),
    Failed(FetchError),
}

/// The mathematical shape of a `SourceFetch`.
pub enum SpecSourceFetch {
    Fetched(Seq<Seq<u8>>),
    Failed(FetchError),
}

impl View for SourceFetch {
    type V = SpecSourceFetch;

    open spec fn view(&self) -> SpecSourceFetch {
        match self {
            SourceFetch::Fetched(lines) => SpecSourceFetch::Fetched(lines.deep_view()),
            SourceFetch::Failed(e) => SpecSourceFetch::Failed(*e),
        }
    }
}

impl DeepView for SourceFetch {
    type V = SpecSourceFetch;

    open spec fn deep_view(&self) -> SpecSourceFetch {
        self@
    }
}

/// Whether a refresh is in flight.
#[derive(Clone, Copy, PartialEq, Eq, Structural, Debug)]
pub enum RefreshState {
    Idle,
    Refreshing,
}

/// The empty filter set a refresh starts from.
pub open spec fn spec_empty_set(debug: bool) -> SpecFilterSet {
    SpecFilterSet {
        debug,
        blocks: Seq::empty(),
        exceptions: Seq::empty(),
        unsupported: Seq::empty(),
    }
}

/// The filter set after the fetched sources are folded in, in order;
/// failed sources contribute nothing.
pub open spec fn spec_merge(results: Seq<SpecSourceFetch>, fs: SpecFilterSet) -> SpecFilterSet
    decreases results.len(),
{
    if results.len() == 0 {
        fs
    } else {
        match results[0] {
            SpecSourceFetch::Fetched(lines) => spec_merge(
                results.drop_first(),
                spec_add_lines(fs, lines),
            ),
            SpecSourceFetch::Failed(_) => spec_merge(results.drop_first(), fs),
        }
    }
}

/// At least one source was fetched.
pub open spec fn spec_any_fetched(results: Seq<SpecSourceFetch>) -> bool {
    exists|i: int| 0 <= i < results.len() && results[i] is Fetched
}

/// Only the fetched sources, kept in their order.
pub open spec fn spec_fetched_only(results: Seq<SpecSourceFetch>) -> Seq<SpecSourceFetch>
    decreases results.len(),
{
    if results.len() == 0 {
        Seq::empty()
    } else if results[0] is Fetched {
        seq![results[0]] + spec_fetched_only(results.drop_first())
    } else {
        spec_fetched_only(results.drop_first())
    }
}

/// Law: partial fetch tolerance. Failed sources contribute nothing: the
/// set built from all per-source outcomes is the set built from the
/// fetched ones alone, so a snapshot published after k of N sources
/// failed holds exactly the rules of the N - k that succeeded.
pub proof fn lemma_merge_ignores_failures(results: Seq<SpecSourceFetch>, fs: SpecFilterSet)
    ensures
        spec_merge(results, fs) == spec_merge(spec_fetched_only(results), fs),
    decreases results.len(),
{
    if results.len() > 0 {
        if results[0] is Fetched {
            let merged = spec_add_lines(fs, results[0]->Fetched_0);
            lemma_merge_ignores_failures(results.drop_first(), merged);
            let s = seq![results[0]] + spec_fetched_only(results.drop_first());
            assert(s[0] == results[0]);
            assert(s.drop_first() =~= spec_fetched_only(results.drop_first()));
        } else {
            lemma_merge_ignores_failures(results.drop_first(), fs);
        }
    }
}

/// Build a fresh filter set from per-source outcomes. Sources are
/// independent: one failure never invalidates another source's lines.
/// Only a refresh in which not one source was fetched fails.
pub fn build_filter_set(results: &Vec<SourceFetch>, debug: bool) -> (r: Result<
    FilterSet,
    RefreshError,
>)
    ensures
        spec_any_fetched(results.deep_view()) ==> (r matches Ok(fs) && fs@ == spec_merge(
            results.deep_view(),
            spec_empty_set(debug),
        )),
        !spec_any_fetched(results.deep_view()) ==> r == Err::<
            FilterSet,
            RefreshError,
        >(RefreshError::AllSourcesFailed),
{
    let ghost rv = results.deep_view();
    let mut fs = FilterSet::new(debug);
    let mut found = false;
    let mut k: usize = 0;
    proof {
        assert(rv.skip(0) =~= rv);
    }
    while k < results.len()
        invariant
            0 <= k <= results@.len(),
            rv == results.deep_view(),
            rv.len() == results@.len(),
            fs@.debug == debug,
            spec_merge(rv, spec_empty_set(debug)) == spec_merge(rv.skip(k as int), fs@),
            found <==> exists|i: int| 0 <= i < k && rv[i] is Fetched,
        decreases results@.len() - k,
    {
        let ghost rem = rv.skip(k as int);
        proof {
            assert(rem[0] == rv[k as int]);
            assert(rv[k as int] == results@[k as int]@);
            assert(rem.drop_first() =~= rv.skip(k + 1));
        }
        match &results[k] {
            SourceFetch::Fetched(lines) => {
                let ghost pre = fs@;
                fs.add_filters(lines);
                found = true;
                proof {
                    crate::filter_set::lemma_add_lines_append_only(pre, lines.deep_view());
                    assert(rv[k as int] is Fetched);
                }
            },
            SourceFetch::Failed(_) => {},
        }
        k = k + 1;
    }
    proof {
        assert(rv.skip(rv.len() as int).len() == 0);
    }
    if found {
        Ok(fs)
    } else {
        Err(RefreshError::AllSourcesFailed)
    }
}

/// The coordinator: the one owner of the published snapshot.
pub struct RefreshCoordinator {
    state: RefreshState,
    debug: bool,
    epoch: u64,
    current: Engine,
}

/// The mathematical shape of a `RefreshCoordinator`.
pub struct SpecCoordinator {
    pub state: RefreshState,
    pub debug: bool,
    pub epoch: u64,
    pub engine: SpecEngine,
}

impl View for RefreshCoordinator {
    type V = SpecCoordinator;

    closed spec fn view(&self) -> SpecCoordinator {
        SpecCoordinator {
            state: self.state,
            debug: self.debug,
            epoch: self.epoch,
            engine: self.current@,
        }
    }
}

/// The publish step as a relation: what `finish_refresh` does to the
/// coordinator. Either every fetched source's rules are published together
/// under a new epoch, or nothing changes but the state returning to idle.
pub open spec fn spec_finish_transition(
    pre: SpecCoordinator,
    post: SpecCoordinator,
    results: Seq<SpecSourceFetch>,
    r: Result<(), RefreshError>,
) -> bool {
    &&& post.state is Idle
    &&& post.debug == pre.debug
    &&& (spec_any_fetched(results) ==> {
        &&& r is Ok
        &&& post.engine == spec_engine_of(spec_merge(results, spec_empty_set(pre.debug)))
        &&& post.epoch == if pre.epoch < u64::MAX {
            pre.epoch + 1
        } else {
            u64::MAX as int
        }
    })
    &&& (!spec_any_fetched(results) ==> {
        &&& r == Err::<(), RefreshError>(RefreshError::AllSourcesFailed)
        &&& post.engine == pre.engine
        &&& post.epoch == pre.epoch
    })
}

impl RefreshCoordinator {
    /// A coordinator publishing the empty snapshot, idle, at epoch zero.
    pub fn new(debug: bool) -> (c: RefreshCoordinator)
        ensures
            c@.state is Idle,
            c@.debug == debug,
            c@.epoch == 0,
            c@.engine.blocks.len() == 0,
            c@.engine.exceptions.len() == 0,
    {
        RefreshCoordinator { state: RefreshState::Idle, debug, epoch: 0, current: Engine::empty() }
    }

    /// The latest fully-built snapshot. Cheap; never blocks on a refresh
    /// in flight.
    pub fn current(&self) -> (e: &Engine)
        ensures
            e@ == self@.engine,
    {
        &self.current
    }

    /// The publish count: grows exactly when a snapshot is published.
    pub fn epoch(&self) -> (n: u64)
        ensures
            n == self@.epoch,
    {
        self.epoch
    }

    /// Whether a refresh is in flight.
    pub fn is_refreshing(&self) -> (b: bool)
        ensures
            b == (self@.state is Refreshing),
    {
        matches!(self.state, RefreshState::Refreshing)
    }

    /// Claim the one refresh slot. A second refresh while one is in
    /// flight is rejected with `AlreadyInProgress` and changes nothing.
    pub fn begin_refresh(&mut self) -> (r: Result<(), RefreshError>)
        ensures
            old(self)@.state is Idle ==> r is Ok && final(self)@ == (SpecCoordinator {
                state: RefreshState::Refreshing,
                ..old(self)@
            }),
            old(self)@.state is Refreshing ==> r == Err::<
                (),
                RefreshError,
            >(RefreshError::AlreadyInProgress) && final(self)@ == old(self)@,
    {
        match self.state {
            RefreshState::Idle => {
                self.state = RefreshState::Refreshing;
                Ok(())
            },
            RefreshState::Refreshing => Err(RefreshError::AlreadyInProgress),
        }
    }

    /// Finish the refresh in flight: build a fresh set from the per-source
    /// outcomes, compile it, and atomically swap the published snapshot.
    /// When not one source was fetched, the prior snapshot stays published
    /// and the error says so.
    pub fn finish_refresh(&mut self, results: &Vec<SourceFetch>) -> (r: Result<(), RefreshError>)
        requires
            old(self)@.state is Refreshing,
        ensures
            spec_finish_transition(old(self)@, final(self)@, results.deep_view(), r),
    {
        let built = build_filter_set(results, self.debug);
        self.state = RefreshState::Idle;
        match built {
            Ok(fs) => {
                self.current = Engine::from_filter_set(fs);
                if self.epoch < u64::MAX {
                    self.epoch = self.epoch + 1;
                }
                Ok(())
            },
            Err(e) => Err(e),
        }
    }

    /// Evaluate one outgoing request against the published snapshot. Pure
    /// and synchronous: it never blocks on a refresh in flight, and a URL
    /// with no resolvable host fails open to `NoMatch`.
    pub fn evaluate_request(&self, request: &Request) -> (o: MatchOutcome)
        ensures
            o@ == crate::engine::spec_evaluate(
                self@.engine,
                request.url@,
                host_of(request.url@),
                request.initiating_domain@,
                request.resource_type,
            ),
            host_of(request.url@) is None ==> o is NoMatch,
    {
        self.current.evaluate(request)
    }

    /// One whole refresh against already-fetched outcomes: claim the slot,
    /// build, publish, release. Rejected with `AlreadyInProgress` when a
    /// refresh is in flight.
    pub fn refresh(&mut self, results: &Vec<SourceFetch>) -> (r: Result<(), RefreshError>)
        ensures
            old(self)@.state is Refreshing ==> r == Err::<
                (),
                RefreshError,
            >(RefreshError::AlreadyInProgress) && final(self)@ == old(self)@,
            old(self)@.state is Idle ==> spec_finish_transition(
                old(self)@,
                final(self)@,
                results.deep_view(),
                r,
            ),
    {
        match self.begin_refresh() {
            Err(e) => Err(e),
            Ok(()) => self.finish_refresh(results),
        }
    }
}

/// Law: atomic publish. Whatever a finished refresh did, an evaluation
/// against the published snapshot sees either the full pre-refresh
/// snapshot or the full merged snapshot of the fetched sources — never a
/// mix of the two.
pub proof fn lemma_atomic_publish(
    pre: SpecCoordinator,
    post: SpecCoordinator,
    results: Seq<SpecSourceFetch>,
    r: Result<(), RefreshError>,
    url: Seq<u8>,
    host: Option<Seq<u8>>,
    init: Seq<u8>,
    rt: crate::rule::ResourceType,
)
    requires
        spec_finish_transition(pre, post, results, r),
    ensures
        crate::engine::spec_evaluate(post.engine, url, host, init, rt)
            == crate::engine::spec_evaluate(pre.engine, url, host, init, rt)
            || crate::engine::spec_evaluate(post.engine, url, host, init, rt)
            == crate::engine::spec_evaluate(
            spec_engine_of(spec_merge(results, spec_empty_set(pre.debug))),
            url,
            host,
            init,
            rt,
        ),
{
}

} // verus!
