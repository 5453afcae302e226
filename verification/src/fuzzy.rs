//! The scoring engine behind every channel.
//!
//! The engine is `nucleo`: a matcher that scores candidates on a pool of
//! worker threads and publishes, at each tick, a snapshot of the matches it has
//! ranked so far. Verus cannot look inside it. This module declares its types,
//! gives names to what an engine holds, and wraps each call that the channels
//! make. The contracts of those wrappers are taken from the source of `nucleo`
//! and are believed, not proved; everything that the channels build on them is
//! proved.

use crate::utils::strings::{byte_len, lemma_chars_within_bytes};
use nucleo::pattern::{CaseMatching, Normalization};
use nucleo::{Config, Matcher, Nucleo, Utf32String};
use std::sync::Arc;
use vstd::prelude::*;

verus! {

/// The engine of `nucleo`, over items of any type.
#[verifier::external_type_specification]
#[verifier::external_body]
#[verifier::reject_recursive_types(T)]
pub struct ExNucleo<T: Sync + Send + 'static>(Nucleo<T>);

/// The matcher of `nucleo` that computes the matched positions of one text. It
/// holds the scratch memory of the computation.
#[verifier::external_type_specification]
#[verifier::external_body]
pub struct ExMatcher(Matcher);

/// The most candidates an engine holds: `nucleo` counts no further, and
/// refuses a push past it.
pub const HAYSTACK_LIMIT: u32 = 0xFFFF_FFDF;

/// Whether a name and a value are short enough to be matched: together they
/// take at most `u32::MAX` bytes.
pub open spec fn fits(name: Seq<char>, value: Option<Seq<char>>) -> bool {
    byte_len(name) + match value {
        Some(value) => byte_len(value),
        None => 0,
    } <= u32::MAX
}

/// The characters of a value, where there is one.
pub open spec fn text_of(value: Option<String>) -> Option<Seq<char>> {
    match value {
        Some(value) => Some(value@),
        None => None,
    }
}

/// The text a candidate is matched against: its name directly followed by its
/// value.
pub open spec fn column_text(item: (Seq<char>, Option<Seq<char>>)) -> Seq<char> {
    match item.1 {
        Some(value) => item.0 + value,
        None => item.0,
    }
}

/// One item of a haystack: a name and, where the source has two parts, a
/// value. Every candidate is short enough to be matched.
#[derive(Debug)]
pub struct Candidate {
    name: String,
    value: Option<String>,
}

impl View for Candidate {
    type V = (Seq<char>, Option<Seq<char>>);

    closed spec fn view(&self) -> (Seq<char>, Option<Seq<char>>) {
        (self.name@, text_of(self.value))
    }
}

impl Clone for Candidate {
    fn clone(&self) -> (r: Self)
        ensures
            r@ == self@,
    {
        proof {
            use_type_invariant(self);
        }
        Candidate { name: self.name.clone(), value: self.value.clone() }
    }
}

impl Candidate {
    #[verifier::type_invariant]
    spec fn short_enough(self) -> bool {
        fits(self@.0, self@.1)
    }

    /// A candidate of `name` and `value`, unless the two are too long to be
    /// matched.
    pub fn new(name: String, value: Option<String>) -> (r: Option<Candidate>)
        ensures
            match r {
                Some(candidate) => fits(name@, text_of(value)) && candidate@ == (
                    name@,
                    text_of(value),
                ),
                None => !fits(name@, text_of(value)),
            },
    {
        let name_len: usize = name.as_str().as_bytes().len();
        let value_len: usize = match &value {
            Some(value) => value.as_str().as_bytes().len(),
            None => 0,
        };
        if name_len <= 0xFFFF_FFFF && value_len <= 0xFFFF_FFFF - name_len {
            Some(Candidate { name, value })
        } else {
            None
        }
    }

    /// The name.
    pub fn name(&self) -> (r: &String)
        ensures
            r@ == self@.0,
    {
        &self.name
    }

    /// The value, if the candidate has one.
    pub fn value(&self) -> (r: &Option<String>)
        ensures
            text_of(*r) == self@.1,
    {
        &self.value
    }

    /// The number of bytes of the name.
    pub fn name_len(&self) -> (r: u32)
        ensures
            r == byte_len(self@.0),
            fits(self@.0, self@.1),
    {
        proof {
            use_type_invariant(self);
        }
        self.name.as_str().as_bytes().len() as u32
    }

    /// The text the candidate is matched against.
    pub fn column(&self) -> (r: String)
        ensures
            r@ == column_text(self@),
            r@.len() <= u32::MAX,
    {
        proof {
            use_type_invariant(self);
            lemma_chars_within_bytes(self@.0);
            if let Some(value) = self@.1 {
                lemma_chars_within_bytes(value);
            }
        }
        match &self.value {
            Some(value) => self.name.clone().concat(value.as_str()),
            None => self.name.clone(),
        }
    }
}

/// What a tick reports.
#[derive(Clone, Copy, Debug, PartialEq, Eq)]
pub struct Status {
    /// Whether the snapshot changed.
    pub changed: bool,
    /// Whether the workers still have work to do.
    pub running: bool,
}

/// The candidates pushed into the engine so far, in the order of the pushes.
pub uninterp spec fn haystack(engine: Nucleo<Candidate>) -> Seq<(Seq<char>, Option<Seq<char>>)>;

/// The text of the pattern that the engine was last given.
pub uninterp spec fn pattern_text(engine: Nucleo<Candidate>) -> Seq<char>;

/// Whether the workers, when they next take up work, may narrow the matches
/// they have instead of scoring every candidate again.
pub uninterp spec fn narrowing_permitted(engine: Nucleo<Candidate>) -> bool;

/// Whether the workers, when they next take up work, must score every
/// candidate again because of a pattern that the engine was given.
pub uninterp spec fn rescan_pending(engine: Nucleo<Candidate>) -> bool;

/// Whether the last word of `pattern`, as `nucleo` reads it, is a negated
/// one: a word that candidates must not match.
pub uninterp spec fn ends_negated(pattern: Seq<char>) -> bool;

/// The matched candidates of the engine's snapshot, best first.
pub uninterp spec fn snapshot_matches(engine: Nucleo<Candidate>) -> Seq<
    (Seq<char>, Option<Seq<char>>),
>;

/// The number of candidates that the engine's snapshot has looked at.
pub uninterp spec fn snapshot_item_count(engine: Nucleo<Candidate>) -> nat;

/// The text of the pattern that the engine's snapshot was matched against.
pub uninterp spec fn snapshot_pattern(engine: Nucleo<Candidate>) -> Seq<char>;

/// The positions of `text` that `pattern` matches, as `nucleo` reports them:
/// one run of positions for each word of the pattern, in no particular order.
pub uninterp spec fn match_indices(pattern: Seq<char>, text: Seq<char>) -> Seq<u32>;

/// The snapshot matches no more candidates than it has looked at, it has
/// looked at no more than were pushed, and every match is a pushed candidate.
pub open spec fn snapshot_within_haystack(engine: Nucleo<Candidate>) -> bool {
    &&& snapshot_matches(engine).len() <= snapshot_item_count(engine) <= haystack(engine).len()
    &&& forall|i: int|
        0 <= i < snapshot_matches(engine).len() ==> haystack(engine).contains(
            #[trigger] snapshot_matches(engine)[i],
        )
}

/// The snapshot is up to date: it was matched against the pattern that the
/// engine was last given, it has looked at every candidate, and for the empty
/// pattern, which every candidate matches, it lists the candidates in the
/// order they were pushed.
pub open spec fn snapshot_settled(engine: Nucleo<Candidate>) -> bool {
    &&& snapshot_pattern(engine) == pattern_text(engine)
    &&& snapshot_item_count(engine) == haystack(engine).len()
    &&& pattern_text(engine).len() == 0 ==> snapshot_matches(engine) == haystack(engine)
}

/// The snapshots of two engines hold the same.
pub open spec fn same_snapshot(a: Nucleo<Candidate>, b: Nucleo<Candidate>) -> bool {
    &&& snapshot_matches(a) == snapshot_matches(b)
    &&& snapshot_item_count(a) == snapshot_item_count(b)
    &&& snapshot_pattern(a) == snapshot_pattern(b)
}

/// Calls `Nucleo::new` for an engine with one comparison column, the default
/// configuration and `threads` workers. The engine starts with no candidate,
/// an empty pattern and an empty snapshot.
#[verifier::external_body]
pub(crate) fn new_engine(threads: usize) -> (engine: Nucleo<Candidate>)
    requires
        threads > 0,
    ensures
        haystack(engine) == Seq::<(Seq<char>, Option<Seq<char>>)>::empty(),
        pattern_text(engine) == Seq::<char>::empty(),
        snapshot_matches(engine) == Seq::<(Seq<char>, Option<Seq<char>>)>::empty(),
        snapshot_item_count(engine) == 0,
        snapshot_pattern(engine) == Seq::<char>::empty(),
        !narrowing_permitted(engine),
        !rescan_pending(engine),
{
    Nucleo::new(Config::DEFAULT, Arc::new(|| {}), Some(threads), 1)
}

/// Calls `Injector::push` on a fresh injector of the engine. The candidate is
/// added behind those already there, with `Candidate::column` as its one
/// comparison column; the pattern and the snapshot stay as they are. `nucleo`
/// panics on a push past `HAYSTACK_LIMIT` candidates, and its workers on a
/// column of more than `u32::MAX` characters.
#[verifier::external_body]
fn inject(engine: &mut Nucleo<Candidate>, item: Candidate)
    requires
        haystack(*old(engine)).len() < HAYSTACK_LIMIT,
        column_text(item@).len() <= u32::MAX,
    ensures
        haystack(*final(engine)) == haystack(*old(engine)).push(item@),
        pattern_text(*final(engine)) == pattern_text(*old(engine)),
        narrowing_permitted(*final(engine)) == narrowing_permitted(*old(engine)),
        rescan_pending(*final(engine)) == rescan_pending(*old(engine)),
        same_snapshot(*final(engine), *old(engine)),
{
    engine.injector().push(item, |candidate, columns| { columns[0] = candidate.column().into(); });
}

/// Pushes `item` into the engine, behind the candidates already there. The
/// pattern and the snapshot stay as they are.
pub(crate) fn ingest(engine: &mut Nucleo<Candidate>, item: Candidate)
    requires
        haystack(*old(engine)).len() < HAYSTACK_LIMIT,
    ensures
        haystack(*final(engine)) == haystack(*old(engine)).push(item@),
        pattern_text(*final(engine)) == pattern_text(*old(engine)),
        narrowing_permitted(*final(engine)) == narrowing_permitted(*old(engine)),
        rescan_pending(*final(engine)) == rescan_pending(*old(engine)),
        same_snapshot(*final(engine), *old(engine)),
{
    proof {
        use_type_invariant(&item);
        lemma_chars_within_bytes(item@.0);
        if let Some(value) = item@.1 {
            lemma_chars_within_bytes(value);
        }
    }
    inject(engine, item);
}

/// Calls `MultiPattern::reparse` on the engine's pattern, for column 0, with
/// smart case matching and smart normalization. The engine's pattern becomes
/// `pattern`; the candidates and the snapshot stay as they are. The workers
/// may narrow the matches they have where `append` permits it, unless a
/// rescan is pending already or the pattern that is replaced ends in a
/// negated word; otherwise they must score every candidate again. Nothing is
/// claimed of what they then arrive at.
#[verifier::external_body]
pub(crate) fn reparse(engine: &mut Nucleo<Candidate>, pattern: &str, append: bool)
    ensures
        pattern_text(*final(engine)) == pattern@,
        narrowing_permitted(*final(engine)) == (append && !rescan_pending(*old(engine))
            && !ends_negated(pattern_text(*old(engine)))),
        rescan_pending(*final(engine)) == !narrowing_permitted(*final(engine)),
        haystack(*final(engine)) == haystack(*old(engine)),
        same_snapshot(*final(engine), *old(engine)),
{
    engine.pattern.reparse(0, pattern, CaseMatching::Smart, Normalization::Smart, append);
}

/// Calls `Nucleo::tick`, which waits up to `timeout` milliseconds for the
/// workers and then publishes what they have. How far the workers got depends
/// on time, so the contract states only what holds whatever they did: the
/// candidates and the pattern are untouched; a tick that reports no change
/// leaves the snapshot as it was; a snapshot never looks at fewer candidates
/// than the one before; it stays within the haystack; a tick that reports no
/// work left has published a snapshot that is up to date; and a permission
/// to narrow, or a pending rescan, is used up.
#[verifier::external_body]
pub(crate) fn tick(engine: &mut Nucleo<Candidate>, timeout: u64) -> (status: Status)
    ensures
        haystack(*final(engine)) == haystack(*old(engine)),
        pattern_text(*final(engine)) == pattern_text(*old(engine)),
        !status.changed ==> same_snapshot(*final(engine), *old(engine)),
        snapshot_item_count(*old(engine)) <= snapshot_item_count(*final(engine)),
        snapshot_within_haystack(*final(engine)),
        !status.running ==> snapshot_settled(*final(engine)),
        !narrowing_permitted(*final(engine)),
        !rescan_pending(*final(engine)),
{
    let status = engine.tick(timeout);
    Status { changed: status.changed, running: status.running }
}

/// Calls `Snapshot::matched_item_count` on the engine's snapshot.
#[verifier::external_body]
pub(crate) fn matched_item_count(engine: &Nucleo<Candidate>) -> (count: u32)
    ensures
        count == snapshot_matches(*engine).len(),
{
    engine.snapshot().matched_item_count()
}

/// Calls `Snapshot::item_count` on the engine's snapshot.
#[verifier::external_body]
pub(crate) fn item_count(engine: &Nucleo<Candidate>) -> (count: u32)
    ensures
        count == snapshot_item_count(*engine),
{
    engine.snapshot().item_count()
}

/// Calls `Snapshot::matched_items` on the engine's snapshot and copies out
/// the candidates of the ranks `start` to `end`, the last one left out.
/// `nucleo` panics where the range leaves the matches.
#[verifier::external_body]
pub(crate) fn matched_items(engine: &Nucleo<Candidate>, start: u32, end: u32) -> (items: Vec<
    Candidate,
>)
    requires
        start <= end <= snapshot_matches(*engine).len(),
    ensures
        items@.len() == end - start,
        forall|i: int|
            0 <= i < items@.len() ==> (#[trigger] items@[i])@ == snapshot_matches(*engine)[start
                + i],
{
    engine.snapshot().matched_items(start..end).map(|item| item.data.clone()).collect()
}

/// Calls `Snapshot::get_matched_item` on the engine's snapshot and copies out
/// the candidate of rank `rank`, if the snapshot has that many matches.
#[verifier::external_body]
pub(crate) fn matched_item(engine: &Nucleo<Candidate>, rank: u32) -> (item: Option<Candidate>)
    ensures
        match item {
            Some(candidate) => rank < snapshot_matches(*engine).len() && candidate@
                == snapshot_matches(*engine)[rank as int],
            None => rank >= snapshot_matches(*engine).len(),
        },
{
    engine.snapshot().get_matched_item(rank).map(|item| item.data.clone())
}

/// Calls `Pattern::indices` with the pattern of the engine's snapshot on
/// `text`. The result is the list named `match_indices`; each position in it
/// is the index of a character of `text`, and the empty pattern gives no
/// position. `scorer` lends its scratch memory. `nucleo` panics on a text of
/// more than `u32::MAX` characters.
#[verifier::external_body]
pub(crate) fn highlight_indices(engine: &Nucleo<Candidate>, scorer: &mut Matcher, text: &str) -> (
    indices: Vec<u32>
)
    requires
        text@.len() <= u32::MAX,
    ensures
        indices@ == match_indices(snapshot_pattern(*engine), text@),
        forall|i: int| 0 <= i < indices@.len() ==> indices@[i] < text@.len(),
        snapshot_pattern(*engine).len() == 0 ==> indices@.len() == 0,
{
    let mut indices = Vec::new();
    let haystack = Utf32String::from(text);
    engine.snapshot().pattern().column_pattern(0).indices(haystack.slice(..), scorer, &mut indices);
    indices
}

/// Calls `Matcher::default`: a matcher with the default configuration, the one
/// the engine's workers score with.
#[verifier::external_body]
pub(crate) fn new_scorer() -> Matcher {
    Matcher::default()
}

/// Calls `Nucleo::restart`, clearing the snapshot at once. The workers are
/// told to stop, the candidates are let go and the snapshot is emptied; the
/// pattern stays.
#[verifier::external_body]
pub(crate) fn restart(engine: &mut Nucleo<Candidate>)
    ensures
        haystack(*final(engine)) == Seq::<(Seq<char>, Option<Seq<char>>)>::empty(),
        snapshot_matches(*final(engine)) == Seq::<(Seq<char>, Option<Seq<char>>)>::empty(),
        snapshot_item_count(*final(engine)) == 0,
        snapshot_pattern(*final(engine)) == snapshot_pattern(*old(engine)),
        pattern_text(*final(engine)) == pattern_text(*old(engine)),
        narrowing_permitted(*final(engine)) == narrowing_permitted(*old(engine)),
        rescan_pending(*final(engine)) == rescan_pending(*old(engine)),
{
    engine.restart(true);
}

} // verus!
