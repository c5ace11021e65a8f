//! The fetch-verify-store pipeline, one record at a time.
//!
//! A `RecordFetch` decides; the caller acts. Each decision is a
//! `FetchAction` (download from a mirror into staging, publish the staged
//! file into the store, discard it, or finish), and the caller reports what
//! came of it as a `FetchEvent`. Attempt `k` of the record at position `i`
//! goes to mirror `(i + k) % n`; there are as many attempts as mirrors. A
//! download is published only when its SHA-256 digest equals the record's
//! content hash; otherwise it is discarded before the next attempt. A
//! failed transfer, or a failed move into the store, also ends the attempt.

use vstd::prelude::*;

verus! {

/// The lowercase hex SHA-256 digest of `data`.
pub uninterp spec fn sha256_hex(data: Seq<u8>) -> Seq<char>;

/// Relies on `sha256::digest` (sha256 1.6): the lowercase hex encoding of
/// the SHA-256 digest of the bytes, a function of the bytes alone.
#[verifier::external_body]
fn sha256_digest(data: &[u8]) -> (r: String)
    ensures
        r@ == sha256_hex(data@),
{
    sha256::digest(data)
}

/// How the fetch of one record ended.
#[derive(Clone, Copy, Debug, PartialEq, Eq, Structural)]
pub enum FetchOutcome {
    /// The store held the blob already; nothing was fetched.
    AlreadyPresent,
    /// A verified download was published into the store.
    Published,
    /// Every attempt failed.
    Failed,
}

/// What a record's fetch waits for.
#[derive(Clone, Copy, Debug, PartialEq, Eq, Structural)]
pub enum Phase {
    /// Whether the store holds the blob.
    Lookup,
    /// The outcome of a download into staging.
    Transferring,
    /// The removal of a staged file that failed verification.
    Discarding,
    /// The move of the verified staged file into the store.
    Publishing,
    /// Nothing: the fetch is over.
    Finished(FetchOutcome),
}

/// What the caller is to do next.
#[derive(Clone, Copy, Debug, PartialEq, Eq, Structural)]
pub enum FetchAction {
    /// Download the record's path from the mirror at this position in the
    /// mirror list into the record's staged path.
    Download { mirror: usize },
    /// Rename the staged file to the record's blob path in the store.
    Publish,
    /// Delete the staged file.
    DiscardStaged,
    /// Stop: the fetch ended so.
    Finish(FetchOutcome),
}

/// What came of the last action.
#[derive(Clone, Debug)]
pub enum FetchEvent {
    /// The store holds the blob.
    Present,
    /// The store does not hold the blob.
    Absent,
    /// The download failed; nothing was staged.
    TransferFailed,
    /// The download was staged; this is the hex SHA-256 digest of its bytes.
    Digest(String),
    /// The staged file was removed.
    Discarded,
    /// The staged file is now in the store.
    Published,
    /// The staged file could not be moved into the store.
    PublishFailed,
}

/// A fetch event as values.
pub enum EventView {
    Present,
    Absent,
    TransferFailed,
    Digest(Seq<char>),
    Discarded,
    Published,
    PublishFailed,
}

impl View for FetchEvent {
    type V = EventView;

    open spec fn view(&self) -> EventView {
        match self {
            FetchEvent::Present => EventView::Present,
            FetchEvent::Absent => EventView::Absent,
            FetchEvent::TransferFailed => EventView::TransferFailed,
            FetchEvent::Digest(d) => EventView::Digest(d@),
            FetchEvent::Discarded => EventView::Discarded,
            FetchEvent::Published => EventView::Published,
            FetchEvent::PublishFailed => EventView::PublishFailed,
        }
    }
}

/// The fetch of one record: its position in the record list, the number
/// of mirrors, the attempts begun so far, what it waits for, and the
/// content hash the download must have.
#[derive(Clone, Debug)]
pub struct RecordFetch {
    pub index: usize,
    pub mirrors: usize,
    pub attempts: usize,
    pub phase: Phase,
    pub expected: String,
}

/// A record fetch as values.
pub struct FetchView {
    pub index: nat,
    pub mirrors: nat,
    pub attempts: nat,
    pub phase: Phase,
    pub expected: Seq<char>,
}

impl View for RecordFetch {
    type V = FetchView;

    open spec fn view(&self) -> FetchView {
        FetchView {
            index: self.index as nat,
            mirrors: self.mirrors as nat,
            attempts: self.attempts as nat,
            phase: self.phase,
            expected: self.expected@,
        }
    }
}

/// The mirror of attempt `attempt` of the record at `index`.
pub open spec fn mirror_for(index: nat, attempt: nat, mirrors: nat) -> nat
    recommends
        mirrors > 0,
{
    ((index + attempt) % mirrors) as nat
}

/// A fresh fetch of the record at `index` with content hash `expected`.
pub open spec fn initial_fetch(index: nat, mirrors: nat, expected: Seq<char>) -> FetchView {
    FetchView { index, mirrors, attempts: 0, phase: Phase::Lookup, expected }
}

/// The next attempt, or the end of the fetch when every mirror was tried.
pub open spec fn next_attempt(s: FetchView) -> (FetchView, FetchAction) {
    if s.attempts < s.mirrors {
        (
            FetchView { attempts: s.attempts + 1, phase: Phase::Transferring, ..s },
            FetchAction::Download {
                mirror: mirror_for(s.index, s.attempts, s.mirrors) as usize,
            },
        )
    } else {
        finish(s, FetchOutcome::Failed)
    }
}

pub open spec fn finish(s: FetchView, outcome: FetchOutcome) -> (FetchView, FetchAction) {
    (FetchView { phase: Phase::Finished(outcome), ..s }, FetchAction::Finish(outcome))
}

/// The decision on an event: the new fetch and the next action, or `None`
/// where the fetch does not wait for that event.
pub open spec fn next(s: FetchView, e: EventView) -> Option<(FetchView, FetchAction)> {
    match (s.phase, e) {
        (Phase::Lookup, EventView::Present) => Some(finish(s, FetchOutcome::AlreadyPresent)),
        (Phase::Lookup, EventView::Absent) => Some(next_attempt(s)),
        (Phase::Transferring, EventView::TransferFailed) => Some(next_attempt(s)),
        (Phase::Transferring, EventView::Digest(d)) => {
            if d == s.expected {
                Some((FetchView { phase: Phase::Publishing, ..s }, FetchAction::Publish))
            } else {
                Some((FetchView { phase: Phase::Discarding, ..s }, FetchAction::DiscardStaged))
            }
        },
        (Phase::Discarding, EventView::Discarded) => Some(next_attempt(s)),
        (Phase::Publishing, EventView::Published) => Some(finish(s, FetchOutcome::Published)),
        (Phase::Publishing, EventView::PublishFailed) => Some(next_attempt(s)),
        _ => None,
    }
}

/// The number of download workers for a number of mirrors: one with no
/// mirror, four with one, eight with more.
pub open spec fn workers_for(mirrors: nat) -> nat {
    if mirrors == 0 {
        1
    } else if mirrors == 1 {
        4
    } else {
        8
    }
}

/// Records claimed at once by a download worker.
pub const FETCH_BATCH: usize = 2;

/// The number of download workers for `mirrors` mirrors.
pub fn fetch_workers(mirrors: usize) -> (r: usize)
    ensures
        r == workers_for(mirrors as nat),
{
    if mirrors == 0 {
        1
    } else if mirrors == 1 {
        4
    } else {
        8
    }
}

/// How many of the outcomes are failures.
pub open spec fn failures(outcomes: Seq<FetchOutcome>) -> nat
    decreases outcomes.len(),
{
    if outcomes.len() == 0 {
        0
    } else {
        failures(outcomes.drop_last()) + if outcomes.last() == FetchOutcome::Failed {
            1nat
        } else {
            0nat
        }
    }
}

/// The number of failed fetches among `outcomes`, for the report at the
/// end of a run.
pub fn count_failures(outcomes: &Vec<FetchOutcome>) -> (r: usize)
    ensures
        r == failures(outcomes@),
{
    let mut n: usize = 0;
    let mut i: usize = 0;
    assert(outcomes@.take(0) =~= Seq::<FetchOutcome>::empty());
    while i < outcomes.len()
        invariant
            i <= outcomes@.len(),
            n <= i,
            n == failures(outcomes@.take(i as int)),
        decreases outcomes@.len() - i,
    {
        assert(outcomes@.take(i + 1).drop_last() =~= outcomes@.take(i as int));
        if outcomes[i] == FetchOutcome::Failed {
            n = n + 1;
        }
        i = i + 1;
    }
    assert(outcomes@.take(i as int) =~= outcomes@);
    n
}

impl RecordFetch {
    /// A fresh fetch of the record at `index`, whose content hash is
    /// `expected`, over `mirrors` mirrors. It waits for the store lookup.
    pub fn new(index: usize, mirrors: usize, expected: String) -> (r: RecordFetch)
        ensures
            r@ == initial_fetch(index as nat, mirrors as nat, expected@),
    {
        RecordFetch { index, mirrors, attempts: 0, phase: Phase::Lookup, expected }
    }

    fn attempt(&mut self) -> (a: FetchAction)
        ensures
            (final(self)@, a) == next_attempt(old(self)@),
    {
        if self.attempts < self.mirrors {
            let sum: u128 = self.index as u128 + self.attempts as u128;
            let mirror = (sum % (self.mirrors as u128)) as usize;
            self.attempts = self.attempts + 1;
            self.phase = Phase::Transferring;
            FetchAction::Download { mirror }
        } else {
            self.finish(FetchOutcome::Failed)
        }
    }

    fn finish(&mut self, outcome: FetchOutcome) -> (a: FetchAction)
        ensures
            (final(self)@, a) == finish(old(self)@, outcome),
    {
        self.phase = Phase::Finished(outcome);
        FetchAction::Finish(outcome)
    }

    /// Takes in what came of the last action and decides the next one;
    /// `None`, with the fetch unchanged, where the fetch does not wait for
    /// that event.
    pub fn step(&mut self, event: FetchEvent) -> (r: Option<FetchAction>)
        ensures
            match next(old(self)@, event@) {
                Some((s, a)) => r == Some(a) && final(self)@ == s,
                None => r is None && final(self)@ == old(self)@,
            },
    {
        match (self.phase, event) {
            (Phase::Lookup, FetchEvent::Present) => Some(self.finish(FetchOutcome::AlreadyPresent)),
            (Phase::Lookup, FetchEvent::Absent) => Some(self.attempt()),
            (Phase::Transferring, FetchEvent::TransferFailed) => Some(self.attempt()),
            (Phase::Transferring, FetchEvent::Digest(d)) => {
                if d == self.expected {
                    self.phase = Phase::Publishing;
                    Some(FetchAction::Publish)
                } else {
                    self.phase = Phase::Discarding;
                    Some(FetchAction::DiscardStaged)
                }
            },
            (Phase::Discarding, FetchEvent::Discarded) => Some(self.attempt()),
            (Phase::Publishing, FetchEvent::Published) => Some(
                self.finish(FetchOutcome::Published),
            ),
            (Phase::Publishing, FetchEvent::PublishFailed) => Some(self.attempt()),
            _ => None,
        }
    }

    /// Takes in the bytes of a staged download: digests them and decides as
    /// `step` does on that digest.
    pub fn downloaded(&mut self, staged: &[u8]) -> (r: Option<FetchAction>)
        ensures
            match next(old(self)@, EventView::Digest(sha256_hex(staged@))) {
                Some((s, a)) => r == Some(a) && final(self)@ == s,
                None => r is None && final(self)@ == old(self)@,
            },
    {
        let digest = sha256_digest(staged);
        self.step(FetchEvent::Digest(digest))
    }
}

/// The store and staging directories, each as a map from content hash to
/// the bytes of the file under that name.
pub struct Disk {
    pub store: Map<Seq<char>, Seq<u8>>,
    pub staging: Map<Seq<char>, Seq<u8>>,
}

/// Every blob in the store has its own name as digest.
pub open spec fn content_addressed(store: Map<Seq<char>, Seq<u8>>) -> bool {
    forall|h: Seq<char>| #[trigger] store.contains_key(h) ==> sha256_hex(store[h]) == h
}

/// What attempt `k` (from 0) of a record gets from its mirror: nothing, when
/// the transfer fails, or the bytes served.
pub type Serve = spec_fn(nat) -> Option<Seq<u8>>;

/// A caller carrying out action `a` of fetch `s`: the event it reports and
/// the directories after it. A publish is the rename of the staged file.
pub open spec fn perform(s: FetchView, a: FetchAction, disk: Disk, serve: Serve) -> (
    EventView,
    Disk,
) {
    let h = s.expected;
    match a {
        FetchAction::Download { .. } => match serve((s.attempts - 1) as nat) {
            None => (EventView::TransferFailed, disk),
            Some(bytes) => (
                EventView::Digest(sha256_hex(bytes)),
                Disk { staging: disk.staging.insert(h, bytes), ..disk },
            ),
        },
        FetchAction::Publish => (
            EventView::Published,
            Disk { store: disk.store.insert(h, disk.staging[h]), staging: disk.staging.remove(h) },
        ),
        FetchAction::DiscardStaged => (
            EventView::Discarded,
            Disk { staging: disk.staging.remove(h), ..disk },
        ),
        // a drive stops at `Finish`: nothing is performed
        FetchAction::Finish(_) => (EventView::Present, disk),
    }
}

/// Fetch `s`, whose pending action is `a`, driven by such a caller for at
/// most `fuel` actions: the fetch, its pending action and the directories.
pub open spec fn drive(s: FetchView, a: FetchAction, disk: Disk, serve: Serve, fuel: nat) -> (
    FetchView,
    FetchAction,
    Disk,
)
    decreases fuel,
{
    if fuel == 0 || a is Finish {
        (s, a, disk)
    } else {
        let (e, after) = perform(s, a, disk, serve);
        match next(s, e) {
            Some((s2, a2)) => drive(s2, a2, after, serve, (fuel - 1) as nat),
            None => (s, a, disk),
        }
    }
}

/// The fetch of the record at `index` with content hash `hash`: the store
/// lookup, then at most `fuel` actions.
pub open spec fn run_fetch(
    index: nat,
    mirrors: nat,
    hash: Seq<char>,
    disk: Disk,
    serve: Serve,
    fuel: nat,
) -> (FetchView, FetchAction, Disk) {
    let lookup = if disk.store.contains_key(hash) {
        EventView::Present
    } else {
        EventView::Absent
    };
    match next(initial_fetch(index, mirrors, hash), lookup) {
        Some((s, a)) => drive(s, a, disk, serve, fuel),
        None => (initial_fetch(index, mirrors, hash), FetchAction::Finish(FetchOutcome::Failed), disk),
    }
}

/// How a fetch ended; one that has not ended counts as failed.
pub open spec fn outcome_of(s: FetchView) -> FetchOutcome {
    match s.phase {
        Phase::Finished(o) => o,
        _ => FetchOutcome::Failed,
    }
}

pub open spec fn succeeded(o: FetchOutcome) -> bool {
    o == FetchOutcome::AlreadyPresent || o == FetchOutcome::Published
}

/// What holds of a fetch, its pending action and the directories at every
/// step of a drive.
pub open spec fn consistent(s: FetchView, a: FetchAction, disk: Disk) -> bool {
    let h = s.expected;
    &&& content_addressed(disk.store)
    &&& match a {
        FetchAction::Download { .. } => s.phase == Phase::Transferring && s.attempts >= 1,
        FetchAction::Publish => {
            &&& s.phase == Phase::Publishing
            &&& disk.staging.contains_key(h)
            &&& sha256_hex(disk.staging[h]) == h
        },
        FetchAction::DiscardStaged => s.phase == Phase::Discarding,
        FetchAction::Finish(o) => s.phase == Phase::Finished(o),
    }
    &&& (s.phase == Phase::Transferring || s.phase == Phase::Discarding || s.phase
        == Phase::Publishing) ==> !disk.store.contains_key(h)
    &&& s.phase == Phase::Finished(FetchOutcome::AlreadyPresent) || s.phase == Phase::Finished(
        FetchOutcome::Published,
    ) ==> disk.store.contains_key(h)
}

/// `after` keeps every blob of `before`.
pub open spec fn keeps_blobs(before: Map<Seq<char>, Seq<u8>>, after: Map<Seq<char>, Seq<u8>>) -> bool {
    forall|k: Seq<char>| #[trigger] before.contains_key(k) ==> after.contains_key(k) && after[k] == before[k]
}

proof fn lemma_next_attempt_consistent(s: FetchView, disk: Disk)
    requires
        content_addressed(disk.store),
        !disk.store.contains_key(s.expected),
    ensures
        consistent(next_attempt(s).0, next_attempt(s).1, disk),
{
}

proof fn lemma_drive_consistent(s: FetchView, a: FetchAction, disk: Disk, serve: Serve, fuel: nat)
    requires
        consistent(s, a, disk),
    ensures
        ({
            let (s2, a2, d2) = drive(s, a, disk, serve, fuel);
            &&& consistent(s2, a2, d2)
            &&& s2.expected == s.expected
            &&& keeps_blobs(disk.store, d2.store)
        }),
    decreases fuel,
{
    if fuel == 0 || a is Finish {
    } else {
        let h = s.expected;
        let (e, after) = perform(s, a, disk, serve);
        match next(s, e) {
            Some((s2, a2)) => {
                match a {
                    FetchAction::Publish => {
                        assert forall|k: Seq<char>| #[trigger]
                            after.store.contains_key(k) implies sha256_hex(after.store[k]) == k by {
                            if k != h {
                                assert(disk.store.contains_key(k));
                            }
                        }
                    },
                    FetchAction::Download { .. } => {
                        match serve((s.attempts - 1) as nat) {
                            None => {
                                lemma_next_attempt_consistent(s, after);
                            },
                            Some(bytes) => {},
                        }
                    },
                    FetchAction::DiscardStaged => {
                        lemma_next_attempt_consistent(s, after);
                    },
                    FetchAction::Finish(_) => {},
                }
                assert(consistent(s2, a2, after));
                lemma_drive_consistent(s2, a2, after, serve, (fuel - 1) as nat);
            },
            None => {},
        }
    }
}

proof fn lemma_run_fetch_consistent(
    index: nat,
    mirrors: nat,
    hash: Seq<char>,
    disk: Disk,
    serve: Serve,
    fuel: nat,
)
    requires
        content_addressed(disk.store),
    ensures
        ({
            let (s, a, d) = run_fetch(index, mirrors, hash, disk, serve, fuel);
            &&& consistent(s, a, d)
            &&& s.expected == hash
            &&& keeps_blobs(disk.store, d.store)
        }),
{
    let s0 = initial_fetch(index, mirrors, hash);
    if disk.store.contains_key(hash) {
        let (s, a) = finish(s0, FetchOutcome::AlreadyPresent);
        lemma_drive_consistent(s, a, disk, serve, fuel);
    } else {
        lemma_next_attempt_consistent(s0, disk);
        let (s, a) = next_attempt(s0);
        lemma_drive_consistent(s, a, disk, serve, fuel);
    }
}

/// Content addressing: whatever the mirrors serve, the fetch of a record
/// keeps every blob the store held, and the store it leaves has, for every
/// key, a blob whose SHA-256 digest is that key.
pub proof fn lemma_fetch_keeps_content_addressing(
    index: nat,
    mirrors: nat,
    hash: Seq<char>,
    disk: Disk,
    serve: Serve,
    fuel: nat,
)
    requires
        content_addressed(disk.store),
    ensures
        content_addressed(run_fetch(index, mirrors, hash, disk, serve, fuel).2.store),
        keeps_blobs(disk.store, run_fetch(index, mirrors, hash, disk, serve, fuel).2.store),
{
    lemma_run_fetch_consistent(index, mirrors, hash, disk, serve, fuel);
}

/// A fetch that succeeds leaves the record's blob in the store.
pub proof fn lemma_success_leaves_blob(
    index: nat,
    mirrors: nat,
    hash: Seq<char>,
    disk: Disk,
    serve: Serve,
    fuel: nat,
)
    requires
        content_addressed(disk.store),
    ensures
        succeeded(outcome_of(run_fetch(index, mirrors, hash, disk, serve, fuel).0))
            ==> run_fetch(index, mirrors, hash, disk, serve, fuel).2.store.contains_key(hash),
{
    lemma_run_fetch_consistent(index, mirrors, hash, disk, serve, fuel);
}

/// A record whose blob is in the store already is not fetched: its fetch
/// ends at once as `AlreadyPresent` and changes neither directory.
pub proof fn lemma_present_blob_untouched(
    index: nat,
    mirrors: nat,
    hash: Seq<char>,
    disk: Disk,
    serve: Serve,
    fuel: nat,
)
    requires
        disk.store.contains_key(hash),
    ensures
        run_fetch(index, mirrors, hash, disk, serve, fuel) == (
            FetchView {
                phase: Phase::Finished(FetchOutcome::AlreadyPresent),
                ..initial_fetch(index, mirrors, hash)
            },
            FetchAction::Finish(FetchOutcome::AlreadyPresent),
            disk,
        ),
{
}

/// A mirror that serves wrong bytes on the first attempt and right bytes
/// on the second: the wrong download is removed from staging before the
/// second attempt begins, and the fetch ends with the right bytes published
/// under the hash and nothing left in staging.
pub proof fn lemma_mismatch_then_match(
    index: nat,
    mirrors: nat,
    hash: Seq<char>,
    disk: Disk,
    serve: Serve,
    bad: Seq<u8>,
    good: Seq<u8>,
    fuel: nat,
)
    requires
        mirrors >= 2,
        !disk.store.contains_key(hash),
        serve(0) == Some(bad),
        sha256_hex(bad) != hash,
        serve(1) == Some(good),
        sha256_hex(good) == hash,
        fuel >= 4,
    ensures
        ({
            let (s, a, d) = run_fetch(index, mirrors, hash, disk, serve, 2);
            &&& a == FetchAction::Download { mirror: mirror_for(index, 1, mirrors) as usize }
            &&& s.attempts == 2
            &&& !d.staging.contains_key(hash)
        }),
        ({
            let (s, a, d) = run_fetch(index, mirrors, hash, disk, serve, fuel);
            &&& s.phase == Phase::Finished(FetchOutcome::Published)
            &&& a == FetchAction::Finish(FetchOutcome::Published)
            &&& d.store.contains_key(hash)
            &&& d.store[hash] == good
            &&& !d.staging.contains_key(hash)
        }),
{
    let s0 = initial_fetch(index, mirrors, hash);
    let (s1, a1) = next_attempt(s0);
    assert(a1 == FetchAction::Download { mirror: mirror_for(index, 0, mirrors) as usize });
    // first download: wrong bytes
    let d1 = Disk { staging: disk.staging.insert(hash, bad), ..disk };
    assert(perform(s1, a1, disk, serve) == (EventView::Digest(sha256_hex(bad)), d1));
    let s2 = FetchView { phase: Phase::Discarding, ..s1 };
    assert(next(s1, EventView::Digest(sha256_hex(bad))) == Some((s2, FetchAction::DiscardStaged)));
    // discard
    let d2 = Disk { staging: d1.staging.remove(hash), ..d1 };
    assert(perform(s2, FetchAction::DiscardStaged, d1, serve) == (EventView::Discarded, d2));
    let (s3, a3) = next_attempt(s2);
    assert(next(s2, EventView::Discarded) == Some((s3, a3)));
    assert(s3.attempts == 2);
    assert(drive(s3, a3, d2, serve, 0) == (s3, a3, d2));
    assert(drive(s2, FetchAction::DiscardStaged, d1, serve, 1) == (s3, a3, d2));
    assert(drive(s1, a1, disk, serve, 2) == (s3, a3, d2));
    // second download: right bytes
    let d3 = Disk { staging: d2.staging.insert(hash, good), ..d2 };
    assert(perform(s3, a3, d2, serve) == (EventView::Digest(sha256_hex(good)), d3));
    let s4 = FetchView { phase: Phase::Publishing, ..s3 };
    assert(next(s3, EventView::Digest(sha256_hex(good))) == Some((s4, FetchAction::Publish)));
    // publish
    let d4 = Disk { store: d3.store.insert(hash, d3.staging[hash]), staging: d3.staging.remove(hash) };
    assert(perform(s4, FetchAction::Publish, d3, serve) == (EventView::Published, d4));
    let (s5, a5) = finish(s4, FetchOutcome::Published);
    assert(next(s4, EventView::Published) == Some((s5, a5)));
    let f = fuel;
    assert(drive(s5, a5, d4, serve, (f - 4) as nat) == (s5, a5, d4));
    assert(drive(s4, FetchAction::Publish, d3, serve, (f - 3) as nat) == (s5, a5, d4));
    assert(drive(s3, a3, d2, serve, (f - 2) as nat) == (s5, a5, d4));
    assert(drive(s2, FetchAction::DiscardStaged, d1, serve, (f - 1) as nat) == (s5, a5, d4));
    assert(drive(s1, a1, disk, serve, f) == (s5, a5, d4));
}

/// What the mirrors serve to each attempt `k` of the record at position
/// `i`, as `serve_all(i, k)`.
pub type ServeAll = spec_fn(nat, nat) -> Option<Seq<u8>>;

/// The pipeline over records with these content hashes, one after another
/// (any order gives the same store, records being independent): the outcome
/// of each and the directories after all.
pub open spec fn run_all(
    hashes: Seq<Seq<char>>,
    mirrors: nat,
    disk: Disk,
    serve_all: ServeAll,
    fuel: nat,
) -> (Seq<FetchOutcome>, Disk)
    decreases hashes.len(),
{
    if hashes.len() == 0 {
        (Seq::empty(), disk)
    } else {
        let (outcomes, before) = run_all(hashes.drop_last(), mirrors, disk, serve_all, fuel);
        let i = (hashes.len() - 1) as nat;
        let (s, _, after) = run_fetch(
            i,
            mirrors,
            hashes.last(),
            before,
            |k: nat| serve_all(i, k),
            fuel,
        );
        (outcomes.push(outcome_of(s)), after)
    }
}

/// After a run, every record whose fetch succeeded has its blob in the
/// store; the store stays content-addressed and keeps every earlier blob.
pub proof fn lemma_run_all_succeeded_present(
    hashes: Seq<Seq<char>>,
    mirrors: nat,
    disk: Disk,
    serve_all: ServeAll,
    fuel: nat,
)
    requires
        content_addressed(disk.store),
    ensures
        ({
            let (outcomes, d) = run_all(hashes, mirrors, disk, serve_all, fuel);
            &&& outcomes.len() == hashes.len()
            &&& content_addressed(d.store)
            &&& keeps_blobs(disk.store, d.store)
            &&& forall|i: int|
                0 <= i < hashes.len() && succeeded(#[trigger] outcomes[i])
                    ==> d.store.contains_key(hashes[i])
        }),
    decreases hashes.len(),
{
    if hashes.len() > 0 {
        let rest = hashes.drop_last();
        lemma_run_all_succeeded_present(rest, mirrors, disk, serve_all, fuel);
        let (outcomes, before) = run_all(rest, mirrors, disk, serve_all, fuel);
        let i = (hashes.len() - 1) as nat;
        let serve = |k: nat| serve_all(i, k);
        lemma_run_fetch_consistent(i, mirrors, hashes.last(), before, serve, fuel);
        lemma_success_leaves_blob(i, mirrors, hashes.last(), before, serve, fuel);
        let (s, _, after) = run_fetch(i, mirrors, hashes.last(), before, serve, fuel);
        let all = outcomes.push(outcome_of(s));
        assert forall|j: int|
            0 <= j < hashes.len() && succeeded(#[trigger] all[j]) implies after.store.contains_key(
            hashes[j],
        ) by {
            if j < hashes.len() - 1 {
                assert(all[j] == outcomes[j]);
                assert(hashes[j] == rest[j]);
                assert(before.store.contains_key(rest[j]));
            }
        }
    }
}

proof fn lemma_run_all_all_present(
    hashes: Seq<Seq<char>>,
    mirrors: nat,
    disk: Disk,
    serve_all: ServeAll,
    fuel: nat,
)
    requires
        forall|i: int| 0 <= i < hashes.len() ==> disk.store.contains_key(#[trigger] hashes[i]),
    ensures
        run_all(hashes, mirrors, disk, serve_all, fuel).1 == disk,
        run_all(hashes, mirrors, disk, serve_all, fuel).0 == Seq::new(
            hashes.len(),
            |i: int| FetchOutcome::AlreadyPresent,
        ),
    decreases hashes.len(),
{
    if hashes.len() > 0 {
        let rest = hashes.drop_last();
        assert forall|i: int| 0 <= i < rest.len() implies disk.store.contains_key(
            #[trigger] rest[i],
        ) by {
            assert(rest[i] == hashes[i]);
        }
        lemma_run_all_all_present(rest, mirrors, disk, serve_all, fuel);
        assert(disk.store.contains_key(hashes[hashes.len() - 1]));
        let i = (hashes.len() - 1) as nat;
        lemma_present_blob_untouched(
            i,
            mirrors,
            hashes.last(),
            disk,
            |k: nat| serve_all(i, k),
            fuel,
        );
        assert(run_all(hashes, mirrors, disk, serve_all, fuel).0 =~= Seq::new(
            hashes.len(),
            |i: int| FetchOutcome::AlreadyPresent,
        ));
    }
}

/// Idempotence: once a run has fetched every record, running the pipeline
/// again on the same records, whatever the mirrors serve then, fetches
/// nothing and leaves both directories as they were.
pub proof fn lemma_second_run_changes_nothing(
    hashes: Seq<Seq<char>>,
    mirrors: nat,
    disk: Disk,
    first: ServeAll,
    second: ServeAll,
    fuel: nat,
)
    requires
        content_addressed(disk.store),
        forall|i: int|
            0 <= i < hashes.len() ==> succeeded(
                #[trigger] run_all(hashes, mirrors, disk, first, fuel).0[i],
            ),
    ensures
        ({
            let after = run_all(hashes, mirrors, disk, first, fuel).1;
            run_all(hashes, mirrors, after, second, fuel).1 == after
        }),
{
    lemma_run_all_succeeded_present(hashes, mirrors, disk, first, fuel);
    let (outcomes, after) = run_all(hashes, mirrors, disk, first, fuel);
    assert forall|i: int| 0 <= i < hashes.len() implies after.store.contains_key(
        #[trigger] hashes[i],
    ) by {
        assert(succeeded(outcomes[i]));
    }
    lemma_run_all_all_present(hashes, mirrors, after, second, fuel);
}

} // verus!
