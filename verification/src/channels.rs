//! Channels: the sources a picker searches, and what each of them owes its
//! caller.

use crate::channels::alias::Channel;
use crate::entry::{Entry, EntryView, PreviewType};
use crate::fuzzy::{ends_negated, Candidate};
use crate::utils::strings::{lemma_bytes_within_four, lowercase, lowercase_is};
use vstd::pervasive::unreached;
use vstd::prelude::*;

pub mod alias;

verus! {

/// What the entries of a list hold, as plain values.
pub open spec fn views(entries: Seq<Entry>) -> Seq<EntryView> {
    entries.map_values(|entry: Entry| entry@)
}

/// The window of `num_entries` items of `ranked` that starts at `offset`: cut
/// short where the list ends, and empty where `offset` lies past its end.
pub open spec fn page<A>(ranked: Seq<A>, num_entries: nat, offset: nat) -> Seq<A> {
    if offset < ranked.len() {
        ranked.subrange(
            offset as int,
            if offset + num_entries < ranked.len() {
                (offset + num_entries) as int
            } else {
                ranked.len() as int
            },
        )
    } else {
        Seq::empty()
    }
}

/// The first `count` windows of `num_entries` items, one behind the other.
pub open spec fn pages<A>(ranked: Seq<A>, num_entries: nat, count: nat) -> Seq<A>
    decreases count,
{
    if count == 0 {
        Seq::empty()
    } else {
        pages(ranked, num_entries, (count - 1) as nat) + page(
            ranked,
            num_entries,
            (count - 1) as nat * num_entries,
        )
    }
}

/// A window holds `num_entries` items, or what is left of the list behind
/// `offset` where that is less, or nothing where `offset` lies past the end.
pub proof fn lemma_page_len<A>(ranked: Seq<A>, num_entries: nat, offset: nat)
    ensures
        offset < ranked.len() && num_entries <= ranked.len() - offset ==> page(
            ranked,
            num_entries,
            offset,
        ).len() == num_entries,
        offset < ranked.len() && num_entries > ranked.len() - offset ==> page(
            ranked,
            num_entries,
            offset,
        ).len() == ranked.len() - offset,
        offset >= ranked.len() ==> page(ranked, num_entries, offset).len() == 0,
{
}

/// Windows taken one behind the other rebuild the list: the first `count`
/// windows are the first `count * num_entries` items, with no gap and nothing
/// twice, and they are the whole list once they reach its end.
pub proof fn lemma_pages_rebuild<A>(ranked: Seq<A>, num_entries: nat, count: nat)
    ensures
        count * num_entries <= ranked.len() ==> pages(ranked, num_entries, count) == ranked.take(
            (count * num_entries) as int,
        ),
        count * num_entries >= ranked.len() ==> pages(ranked, num_entries, count) == ranked,
    decreases count,
{
    if count == 0 {
        assert(count * num_entries == 0) by (nonlinear_arith)
            requires
                count == 0,
        ;
        assert(ranked.take(0) =~= Seq::<A>::empty());
        if ranked.len() == 0 {
            assert(ranked =~= Seq::<A>::empty());
        }
    } else {
        let before = (count - 1) as nat;
        let offset = before * num_entries;
        assert(count * num_entries == offset + num_entries) by (nonlinear_arith)
            requires
                count > 0,
                before == count - 1,
                offset == before * num_entries,
        ;
        lemma_pages_rebuild(ranked, num_entries, before);
        let front = pages(ranked, num_entries, before);
        let last = page(ranked, num_entries, offset);
        if offset >= ranked.len() {
            assert(front + last =~= ranked);
        } else if offset + num_entries < ranked.len() {
            assert(front + last =~= ranked.take((offset + num_entries) as int));
        } else {
            assert(front + last =~= ranked);
            if count * num_entries <= ranked.len() {
                assert(ranked.take((count * num_entries) as int) =~= ranked);
            }
        }
    }
}

/// What every channel owes its caller, whatever its source.
///
/// A channel is described by what it holds: the pattern it was last asked to
/// find, the candidates it has ingested, and the listing, which is the ranked
/// and highlight-annotated view of the matches that its engine last
/// published. `find` only hands the engine a pattern; the engine scores in the
/// background, and `results` publishes what it has got so far.
pub trait OnAir: Send + Sized {
    /// What holds of a channel between any two calls.
    spec fn inv(&self) -> bool;

    /// The pattern the channel was last asked to find.
    spec fn pattern(&self) -> Seq<char>;

    /// The candidates the channel has ingested, in the order they came.
    spec fn haystack(&self) -> Seq<(Seq<char>, Option<Seq<char>>)>;

    /// The matches that were last published, best first, as entries.
    spec fn listing(&self) -> Seq<EntryView>;

    /// The number of candidates that the last published matches were chosen
    /// from.
    spec fn looked_at(&self) -> nat;

    /// The pattern that the listing was matched against.
    spec fn matched_against(&self) -> Seq<char>;

    /// Whether the engine has work to do: it had when matches were last
    /// published, or it was handed a pattern or a candidate since.
    spec fn busy(&self) -> bool;

    /// Whether the engine may, when it next takes up work, narrow the matches
    /// it has instead of scoring every candidate again.
    spec fn narrowing(&self) -> bool;

    /// Whether the engine must, when it next takes up work, score every
    /// candidate again because of a pattern it was handed.
    spec fn rescanning(&self) -> bool;

    /// Of the candidates ingested, some were looked at, and of those, some
    /// matched.
    proof fn lemma_counts(&self)
        requires
            self.inv(),
        ensures
            self.listing().len() <= self.looked_at() <= self.haystack().len(),
            self.haystack().len() <= u32::MAX,
    ;

    /// Asks the channel to find `pattern`. Nothing is published by this call,
    /// and a pattern that the channel already looks for leaves the channel
    /// exactly as it is.
    ///
    /// A new pattern is handed to the engine together with the hint whether
    /// it begins with the pattern it replaces. With the hint the engine may
    /// narrow the matches it has, unless it has a rescan pending or the
    /// pattern that is replaced ends in a negated word; without it, and in
    /// those two cases, it scores every candidate again. What the engine
    /// arrives at by narrowing is the engine's to say: it is what scoring
    /// every candidate again arrives at wherever every match of the new
    /// pattern matched the old one, which a pattern that goes on behind a
    /// closing `$` does not keep to.
    fn find(&mut self, pattern: &str)
        requires
            old(self).inv(),
        ensures
            final(self).inv(),
            final(self).pattern() == pattern@,
            final(self).haystack() == old(self).haystack(),
            final(self).listing() == old(self).listing(),
            final(self).looked_at() == old(self).looked_at(),
            final(self).busy() == (old(self).busy() || pattern@ != old(self).pattern()),
            pattern@ != old(self).pattern() ==> {
                &&& final(self).narrowing() == {
                    &&& old(self).pattern().is_prefix_of(pattern@)
                    &&& !old(self).rescanning()
                    &&& !ends_negated(old(self).pattern())
                }
                &&& final(self).rescanning() == !final(self).narrowing()
            },
            pattern@ == old(self).pattern() ==> *final(self) == *old(self),
    ;

    /// Publishes what the engine has got and returns the window of
    /// `num_entries` entries of the listing that starts at rank `offset`.
    ///
    /// The call waits a moment for the engine, not until it is done: what is
    /// published may still be matched against an earlier pattern, or miss
    /// candidates. Once the channel is no longer busy, the listing is matched
    /// against the current pattern and chosen from the whole haystack; and for
    /// the empty pattern it is the haystack itself, in the order it was
    /// ingested and without highlights.
    fn results(&mut self, num_entries: u32, offset: u32) -> (entries: Vec<Entry>)
        requires
            old(self).inv(),
        ensures
            final(self).inv(),
            final(self).pattern() == old(self).pattern(),
            final(self).haystack() == old(self).haystack(),
            !final(self).narrowing(),
            !final(self).rescanning(),
            old(self).looked_at() <= final(self).looked_at(),
            final(self).listing().len() <= final(self).looked_at() <= final(self).haystack().len(),
            views(entries@) == page(final(self).listing(), num_entries as nat, offset as nat),
            entries@.len() == if offset >= final(self).listing().len() {
                0
            } else if num_entries <= final(self).listing().len() - offset {
                num_entries as int
            } else {
                final(self).listing().len() - offset
            },
            forall|i: int|
                0 <= i < entries@.len() ==> (#[trigger] entries@[i])@.highlights_valid()
                    && final(self).haystack().contains((entries@[i]@.name, entries@[i]@.value)),
            !final(self).busy() ==> final(self).matched_against() == final(self).pattern()
                && final(self).looked_at() == final(self).haystack().len(),
            !final(self).busy() && final(self).pattern().len() == 0 ==> {
                &&& final(self).listing().len() == final(self).haystack().len()
                &&& forall|i: int|
                    0 <= i < entries@.len() ==> {
                        &&& (#[trigger] entries@[i])@.name == final(self).haystack()[offset + i].0
                        &&& entries@[i]@.value == final(self).haystack()[offset + i].1
                        &&& entries@[i]@.name_match_ranges is None
                        &&& entries@[i]@.value_match_ranges is None
                    }
            },
    ;

    /// The entry of rank `index` in the listing, with its highlights; none
    /// where the listing is shorter.
    fn get_result(&self, index: u32) -> (entry: Option<Entry>)
        requires
            self.inv(),
        ensures
            match entry {
                Some(entry) => {
                    &&& index < self.listing().len()
                    &&& entry@ == self.listing()[index as int]
                    &&& entry@.highlights_valid()
                    &&& self.haystack().contains((entry@.name, entry@.value))
                },
                None => index >= self.listing().len(),
            },
    ;

    /// The number of matches that were last published.
    fn result_count(&self) -> (count: u32)
        requires
            self.inv(),
        ensures
            count == self.listing().len(),
    ;

    /// The number of candidates the last published matches were chosen from.
    fn total_count(&self) -> (count: u32)
        requires
            self.inv(),
        ensures
            count == self.looked_at(),
    ;

    /// Whether the engine has work to do.
    fn running(&self) -> (busy: bool)
        ensures
            busy == self.busy(),
    ;

    /// Turns the channel off: the workers are told to stop and the candidates
    /// are let go. What is left is an empty channel, so a second call changes
    /// nothing that a caller can see.
    fn shutdown(&mut self)
        requires
            old(self).inv(),
        ensures
            final(self).inv(),
            final(self).pattern() == old(self).pattern(),
            final(self).haystack() == Seq::<(Seq<char>, Option<Seq<char>>)>::empty(),
            final(self).listing() == Seq::<EntryView>::empty(),
            final(self).looked_at() == 0,
            !final(self).busy(),
            final(self).narrowing() == old(self).narrowing(),
            final(self).rescanning() == old(self).rescanning(),
    ;
}

/// The kinds of channel, without a channel's state.
#[derive(Clone, Copy, Debug, PartialEq, Eq, Hash, Structural)]
pub enum UnitChannel {
    Env,
    Files,
    GitRepos,
    Text,
    Stdin,
    Alias,
    RemoteControl,
}

/// The kind that a key selects. Keys are written in small letters; the remote
/// control has no key, since it is the channel that selects.
pub open spec fn kind_of_key(key: Seq<char>) -> Option<UnitChannel> {
    if key == "env"@ {
        Some(UnitChannel::Env)
    } else if key == "files"@ {
        Some(UnitChannel::Files)
    } else if key == "gitrepos"@ {
        Some(UnitChannel::GitRepos)
    } else if key == "text"@ {
        Some(UnitChannel::Text)
    } else if key == "stdin"@ {
        Some(UnitChannel::Stdin)
    } else if key == "alias"@ {
        Some(UnitChannel::Alias)
    } else {
        None
    }
}

/// The keys that select a kind, in the order the remote control lists them.
pub open spec fn channel_keys() -> Seq<Seq<char>> {
    seq!["env"@, "files"@, "gitrepos"@, "text"@, "stdin"@, "alias"@]
}

/// Every key that the remote control lists selects a kind, and each its own.
pub proof fn lemma_keys_select()
    ensures
        forall|i: int|
            0 <= i < channel_keys().len() ==> kind_of_key(
                lowercase(#[trigger] channel_keys()[i]),
            ) is Some,
        kind_of_key("env"@) == Some(UnitChannel::Env),
        kind_of_key("files"@) == Some(UnitChannel::Files),
        kind_of_key("gitrepos"@) == Some(UnitChannel::GitRepos),
        kind_of_key("text"@) == Some(UnitChannel::Text),
        kind_of_key("stdin"@) == Some(UnitChannel::Stdin),
        kind_of_key("alias"@) == Some(UnitChannel::Alias),
{
    reveal_strlit("env");
    reveal_strlit("files");
    reveal_strlit("gitrepos");
    reveal_strlit("text");
    reveal_strlit("stdin");
    reveal_strlit("alias");
    assert(lowercase("env"@) =~= "env"@);
    assert(lowercase("files"@) =~= "files"@);
    assert(lowercase("gitrepos"@) =~= "gitrepos"@);
    assert(lowercase("text"@) =~= "text"@);
    assert(lowercase("stdin"@) =~= "stdin"@);
    assert(lowercase("alias"@) =~= "alias"@);
    assert("files"@[0] != "env"@[0]);
    assert("gitrepos"@[0] != "env"@[0]);
    assert("gitrepos"@[0] != "files"@[0]);
    assert("text"@[0] != "env"@[0]);
    assert("text"@[0] != "files"@[0]);
    assert("text"@[0] != "gitrepos"@[0]);
    assert("stdin"@[0] != "env"@[0]);
    assert("stdin"@[0] != "files"@[0]);
    assert("stdin"@[0] != "gitrepos"@[0]);
    assert("stdin"@[0] != "text"@[0]);
    assert("alias"@[0] != "env"@[0]);
    assert("alias"@[0] != "files"@[0]);
    assert("alias"@[0] != "gitrepos"@[0]);
    assert("alias"@[0] != "text"@[0]);
    assert("alias"@[0] != "stdin"@[0]);
}

/// The candidate that stands for a key in the haystack of the remote control.
fn key_candidate(key: &str) -> (candidate: Candidate)
    requires
        4 * key@.len() <= u32::MAX,
    ensures
        candidate@ == (key@, None::<Seq<char>>),
{
    proof {
        lemma_bytes_within_four(key@);
    }
    match Candidate::new(key.to_owned(), None) {
        Some(candidate) => candidate,
        None => unreached(),
    }
}

/// The message for a key that selects no kind.
pub open spec fn unknown_channel(key: Seq<char>) -> Seq<char> {
    "Unknown channel: "@ + key
}

impl UnitChannel {
    /// The preview tag that the entries of a channel of this kind carry.
    pub open spec fn preview(self) -> PreviewType {
        match self {
            UnitChannel::Env => PreviewType::EnvVar,
            UnitChannel::Files => PreviewType::Files,
            UnitChannel::GitRepos => PreviewType::Directory,
            UnitChannel::Text => PreviewType::Files,
            UnitChannel::Stdin => PreviewType::Basic,
            UnitChannel::Alias => PreviewType::EnvVar,
            UnitChannel::RemoteControl => PreviewType::Basic,
        }
    }

    /// The preview tag that the entries of a channel of this kind carry.
    pub fn preview_type(self) -> (preview_type: PreviewType)
        ensures
            preview_type == self.preview(),
    {
        match self {
            UnitChannel::Env => PreviewType::EnvVar,
            UnitChannel::Files => PreviewType::Files,
            UnitChannel::GitRepos => PreviewType::Directory,
            UnitChannel::Text => PreviewType::Files,
            UnitChannel::Stdin => PreviewType::Basic,
            UnitChannel::Alias => PreviewType::EnvVar,
            UnitChannel::RemoteControl => PreviewType::Basic,
        }
    }

    /// The kind that `key` selects, whatever the case of its letters.
    pub fn from_key(key: &str) -> (kind: Option<UnitChannel>)
        ensures
            kind == kind_of_key(lowercase(key@)),
    {
        if lowercase_is(key, "env") {
            Some(UnitChannel::Env)
        } else if lowercase_is(key, "files") {
            Some(UnitChannel::Files)
        } else if lowercase_is(key, "gitrepos") {
            Some(UnitChannel::GitRepos)
        } else if lowercase_is(key, "text") {
            Some(UnitChannel::Text)
        } else if lowercase_is(key, "stdin") {
            Some(UnitChannel::Stdin)
        } else if lowercase_is(key, "alias") {
            Some(UnitChannel::Alias)
        } else {
            None
        }
    }
}

/// The channels a picker can be tuned to. Each case holds a channel of its
/// own, with a haystack and an engine that no other case shares.
pub enum TelevisionChannel {
    /// Environment variables.
    Env(Channel),
    /// Files.
    Files(Channel),
    /// Git repositories.
    GitRepos(Channel),
    /// The lines of text files.
    Text(Channel),
    /// What came in on standard input.
    Stdin(Channel),
    /// Shell aliases.
    Alias(Channel),
    /// The channel over the keys of the other channels: to switch is to pick
    /// one of its entries.
    RemoteControl(Channel),
}

impl TelevisionChannel {
    /// The kind of the channel.
    pub open spec fn kind(&self) -> UnitChannel {
        match self {
            TelevisionChannel::Env(_) => UnitChannel::Env,
            TelevisionChannel::Files(_) => UnitChannel::Files,
            TelevisionChannel::GitRepos(_) => UnitChannel::GitRepos,
            TelevisionChannel::Text(_) => UnitChannel::Text,
            TelevisionChannel::Stdin(_) => UnitChannel::Stdin,
            TelevisionChannel::Alias(_) => UnitChannel::Alias,
            TelevisionChannel::RemoteControl(_) => UnitChannel::RemoteControl,
        }
    }

    /// The channel that the case holds.
    pub open spec fn channel(&self) -> Channel {
        match self {
            TelevisionChannel::Env(channel) => *channel,
            TelevisionChannel::Files(channel) => *channel,
            TelevisionChannel::GitRepos(channel) => *channel,
            TelevisionChannel::Text(channel) => *channel,
            TelevisionChannel::Stdin(channel) => *channel,
            TelevisionChannel::Alias(channel) => *channel,
            TelevisionChannel::RemoteControl(channel) => *channel,
        }
    }

    /// The kind of the channel.
    pub fn unit(&self) -> (kind: UnitChannel)
        ensures
            kind == self.kind(),
    {
        match self {
            TelevisionChannel::Env(_) => UnitChannel::Env,
            TelevisionChannel::Files(_) => UnitChannel::Files,
            TelevisionChannel::GitRepos(_) => UnitChannel::GitRepos,
            TelevisionChannel::Text(_) => UnitChannel::Text,
            TelevisionChannel::Stdin(_) => UnitChannel::Stdin,
            TelevisionChannel::Alias(_) => UnitChannel::Alias,
            TelevisionChannel::RemoteControl(_) => UnitChannel::RemoteControl,
        }
    }

    /// A channel of kind `kind` over `candidates`.
    pub fn new(kind: UnitChannel, candidates: Vec<Candidate>) -> (channel: TelevisionChannel)
        requires
            candidates@.len() <= crate::fuzzy::HAYSTACK_LIMIT,
        ensures
            channel.kind() == kind,
            channel.inv(),
            channel.haystack() == candidates@.map_values(|candidate: Candidate| candidate@),
            channel.pattern() == Seq::<char>::empty(),
            channel.listing() == Seq::<EntryView>::empty(),
            channel.looked_at() == 0,
            channel.busy() == (candidates@.len() > 0),
            channel.channel().preview() == kind.preview(),
    {
        let channel = Channel::with_preview(candidates, kind.preview_type());
        match kind {
            UnitChannel::Env => TelevisionChannel::Env(channel),
            UnitChannel::Files => TelevisionChannel::Files(channel),
            UnitChannel::GitRepos => TelevisionChannel::GitRepos(channel),
            UnitChannel::Text => TelevisionChannel::Text(channel),
            UnitChannel::Stdin => TelevisionChannel::Stdin(channel),
            UnitChannel::Alias => TelevisionChannel::Alias(channel),
            UnitChannel::RemoteControl => TelevisionChannel::RemoteControl(channel),
        }
    }

    /// The remote control: the channel whose haystack is the keys of the
    /// channels that can be selected.
    pub fn remote_control() -> (channel: TelevisionChannel)
        ensures
            channel.kind() == UnitChannel::RemoteControl,
            channel.inv(),
            channel.haystack() == channel_keys().map_values(
                |key: Seq<char>| (key, None::<Seq<char>>),
            ),
            channel.pattern() == Seq::<char>::empty(),
            channel.listing() == Seq::<EntryView>::empty(),
            channel.looked_at() == 0,
            channel.busy(),
            channel.channel().preview() == UnitChannel::RemoteControl.preview(),
    {
        proof {
            reveal_strlit("env");
            reveal_strlit("files");
            reveal_strlit("gitrepos");
            reveal_strlit("text");
            reveal_strlit("stdin");
            reveal_strlit("alias");
        }
        let mut keys: Vec<Candidate> = Vec::new();
        keys.push(key_candidate("env"));
        keys.push(key_candidate("files"));
        keys.push(key_candidate("gitrepos"));
        keys.push(key_candidate("text"));
        keys.push(key_candidate("stdin"));
        keys.push(key_candidate("alias"));
        let channel = TelevisionChannel::new(UnitChannel::RemoteControl, keys);
        assert(channel.haystack() =~= channel_keys().map_values(
            |key: Seq<char>| (key, None::<Seq<char>>),
        ));
        channel
    }

    /// Takes `candidate` into the haystack of the channel, unless it is full.
    pub fn push(&mut self, candidate: Candidate) -> (taken: bool)
        requires
            old(self).inv(),
        ensures
            final(self).inv(),
            final(self).kind() == old(self).kind(),
            taken == old(self).channel().has_room(),
            taken ==> final(self).haystack() == old(self).haystack().push(candidate@),
            !taken ==> final(self).haystack() == old(self).haystack(),
            final(self).pattern() == old(self).pattern(),
            final(self).listing() == old(self).listing(),
            final(self).looked_at() == old(self).looked_at(),
            final(self).busy() == (old(self).busy() || taken),
            final(self).narrowing() == old(self).narrowing(),
            final(self).rescanning() == old(self).rescanning(),
            final(self).channel().preview() == old(self).channel().preview(),
    {
        match self {
            TelevisionChannel::Env(channel) => channel.push(candidate),
            TelevisionChannel::Files(channel) => channel.push(candidate),
            TelevisionChannel::GitRepos(channel) => channel.push(candidate),
            TelevisionChannel::Text(channel) => channel.push(candidate),
            TelevisionChannel::Stdin(channel) => channel.push(candidate),
            TelevisionChannel::Alias(channel) => channel.push(candidate),
            TelevisionChannel::RemoteControl(channel) => channel.push(candidate),
        }
    }
}

impl TryFrom<&Entry> for TelevisionChannel {
    type Error = String;

    /// The channel that the name of `entry` selects, with nothing in its
    /// haystack yet; for a name that selects none, the message that says so.
    /// The case of the letters of the name does not count.
    fn try_from(entry: &Entry) -> (r: Result<TelevisionChannel, String>)
        ensures
            match r {
                Ok(channel) => {
                    &&& kind_of_key(lowercase(entry@.name)) == Some(channel.kind())
                    &&& channel.inv()
                    &&& channel.haystack() == Seq::<(Seq<char>, Option<Seq<char>>)>::empty()
                    &&& channel.pattern() == Seq::<char>::empty()
                    &&& channel.listing() == Seq::<EntryView>::empty()
                    &&& channel.looked_at() == 0
                    &&& !channel.busy()
                    &&& channel.channel().preview() == channel.kind().preview()
                },
                Err(message) => {
                    &&& kind_of_key(lowercase(entry@.name)) is None
                    &&& message@ == unknown_channel(entry@.name)
                },
            },
    {
        match UnitChannel::from_key(entry.name.as_str()) {
            Some(kind) => {
                let channel = TelevisionChannel::new(kind, Vec::new());
                assert(channel.haystack() =~= Seq::<(Seq<char>, Option<Seq<char>>)>::empty());
                Ok(channel)
            },
            None => Err("Unknown channel: ".to_owned().concat(entry.name.as_str())),
        }
    }
}

/// A channel holds an engine of its own, so the channel that `try_from` gives
/// is no function of the entry: what `try_from` owes is stated on `try_from`.
impl vstd::std_specs::convert::TryFromSpecImpl<&Entry> for TelevisionChannel {
    open spec fn obeys_try_from_spec() -> bool {
        false
    }

    open spec fn try_from_spec(entry: &Entry) -> Result<TelevisionChannel, String> {
        arbitrary()
    }
}

impl OnAir for TelevisionChannel {
    open spec fn inv(&self) -> bool {
        self.channel().inv()
    }

    open spec fn pattern(&self) -> Seq<char> {
        self.channel().pattern()
    }

    open spec fn haystack(&self) -> Seq<(Seq<char>, Option<Seq<char>>)> {
        self.channel().haystack()
    }

    open spec fn listing(&self) -> Seq<EntryView> {
        self.channel().listing()
    }

    open spec fn looked_at(&self) -> nat {
        self.channel().looked_at()
    }

    open spec fn busy(&self) -> bool {
        self.channel().busy()
    }

    open spec fn narrowing(&self) -> bool {
        self.channel().narrowing()
    }

    open spec fn rescanning(&self) -> bool {
        self.channel().rescanning()
    }

    open spec fn matched_against(&self) -> Seq<char> {
        self.channel().matched_against()
    }

    proof fn lemma_counts(&self) {
        self.channel().lemma_counts();
    }

    fn find(&mut self, pattern: &str)
        ensures
            final(self).kind() == old(self).kind(),
    {
        match self {
            TelevisionChannel::Env(channel) => channel.find(pattern),
            TelevisionChannel::Files(channel) => channel.find(pattern),
            TelevisionChannel::GitRepos(channel) => channel.find(pattern),
            TelevisionChannel::Text(channel) => channel.find(pattern),
            TelevisionChannel::Stdin(channel) => channel.find(pattern),
            TelevisionChannel::Alias(channel) => channel.find(pattern),
            TelevisionChannel::RemoteControl(channel) => channel.find(pattern),
        }
    }

    fn results(&mut self, num_entries: u32, offset: u32) -> (entries: Vec<Entry>)
        ensures
            final(self).kind() == old(self).kind(),
    {
        match self {
            TelevisionChannel::Env(channel) => channel.results(num_entries, offset),
            TelevisionChannel::Files(channel) => channel.results(num_entries, offset),
            TelevisionChannel::GitRepos(channel) => channel.results(num_entries, offset),
            TelevisionChannel::Text(channel) => channel.results(num_entries, offset),
            TelevisionChannel::Stdin(channel) => channel.results(num_entries, offset),
            TelevisionChannel::Alias(channel) => channel.results(num_entries, offset),
            TelevisionChannel::RemoteControl(channel) => channel.results(num_entries, offset),
        }
    }

    fn get_result(&self, index: u32) -> (entry: Option<Entry>) {
        match self {
            TelevisionChannel::Env(channel) => channel.get_result(index),
            TelevisionChannel::Files(channel) => channel.get_result(index),
            TelevisionChannel::GitRepos(channel) => channel.get_result(index),
            TelevisionChannel::Text(channel) => channel.get_result(index),
            TelevisionChannel::Stdin(channel) => channel.get_result(index),
            TelevisionChannel::Alias(channel) => channel.get_result(index),
            TelevisionChannel::RemoteControl(channel) => channel.get_result(index),
        }
    }

    fn result_count(&self) -> (count: u32) {
        match self {
            TelevisionChannel::Env(channel) => channel.result_count(),
            TelevisionChannel::Files(channel) => channel.result_count(),
            TelevisionChannel::GitRepos(channel) => channel.result_count(),
            TelevisionChannel::Text(channel) => channel.result_count(),
            TelevisionChannel::Stdin(channel) => channel.result_count(),
            TelevisionChannel::Alias(channel) => channel.result_count(),
            TelevisionChannel::RemoteControl(channel) => channel.result_count(),
        }
    }

    fn total_count(&self) -> (count: u32) {
        match self {
            TelevisionChannel::Env(channel) => channel.total_count(),
            TelevisionChannel::Files(channel) => channel.total_count(),
            TelevisionChannel::GitRepos(channel) => channel.total_count(),
            TelevisionChannel::Text(channel) => channel.total_count(),
            TelevisionChannel::Stdin(channel) => channel.total_count(),
            TelevisionChannel::Alias(channel) => channel.total_count(),
            TelevisionChannel::RemoteControl(channel) => channel.total_count(),
        }
    }

    fn running(&self) -> (busy: bool) {
        match self {
            TelevisionChannel::Env(channel) => channel.running(),
            TelevisionChannel::Files(channel) => channel.running(),
            TelevisionChannel::GitRepos(channel) => channel.running(),
            TelevisionChannel::Text(channel) => channel.running(),
            TelevisionChannel::Stdin(channel) => channel.running(),
            TelevisionChannel::Alias(channel) => channel.running(),
            TelevisionChannel::RemoteControl(channel) => channel.running(),
        }
    }

    fn shutdown(&mut self)
        ensures
            final(self).kind() == old(self).kind(),
    {
        match self {
            TelevisionChannel::Env(channel) => channel.shutdown(),
            TelevisionChannel::Files(channel) => channel.shutdown(),
            TelevisionChannel::GitRepos(channel) => channel.shutdown(),
            TelevisionChannel::Text(channel) => channel.shutdown(),
            TelevisionChannel::Stdin(channel) => channel.shutdown(),
            TelevisionChannel::Alias(channel) => channel.shutdown(),
            TelevisionChannel::RemoteControl(channel) => channel.shutdown(),
        }
    }
}

} // verus!
