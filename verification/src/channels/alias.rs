//! The channel of shell aliases, and with it the one kind of channel the
//! library has: a haystack of candidates behind a scoring engine.

use crate::channels::{page, views, OnAir};
use crate::entry::{Entry, EntryView, PreviewType};
use crate::fuzzy::{
    column_text, fits, haystack, highlight_indices, ingest, item_count, match_indices,
    matched_item, matched_item_count, matched_items, narrowing_permitted, new_engine,
    new_scorer, pattern_text, rescan_pending,
    reparse, restart, snapshot_item_count, snapshot_matches, snapshot_pattern,
    snapshot_within_haystack, tick, Candidate, HAYSTACK_LIMIT,
};
use crate::utils::indices::{
    indices_to_ranges, lemma_filter_increasing, lemma_highlight_ranges_valid, name_ranges,
    sep_name_and_value_indices, sort_dedup, value_ranges,
};
use crate::utils::strings::{
    after_last, byte_len, last_segment, lemma_chars_within_bytes, position, same_text, starts_with,
    until,
};
use devicons::FileIcon;
use nucleo::{Matcher, Nucleo};
use vstd::prelude::*;

verus! {

/// The number of workers that score for one channel.
pub const NUM_THREADS: usize = 1;

/// The name under which the icon of a channel is looked up.
pub const FILE_ICON_STR: &'static str = "nu";

/// The longest a caller waits for the workers at one tick, in milliseconds.
pub const MATCHER_TICK_TIMEOUT: u64 = 10;

/// The name of a shell, given the path of its program: what stands behind the
/// last `/`.
pub fn shell_name(raw_shell: &str) -> (shell: String)
    ensures
        shell@ == after_last(raw_shell@, '/'),
{
    last_segment(raw_shell, '/')
}

/// Whether `shell` is one of the shells that list their aliases when run
/// with the arguments `-i -c alias`: `bash` and `zsh`.
pub fn lists_aliases(shell: &str) -> (listed: bool)
    ensures
        listed == (shell@ == "bash"@ || shell@ == "zsh"@),
{
    same_text(shell, "bash") || same_text(shell, "zsh")
}

/// Whether a line of an alias listing holds an alias: a name, `=`, and what
/// the name stands for.
pub open spec fn is_alias(line: Seq<char>) -> bool {
    until(line, '=') < line.len()
}

/// The name of the alias on `line`: what stands before the first `=`.
pub open spec fn alias_name(line: Seq<char>) -> Seq<char> {
    line.take(until(line, '=') as int)
}

/// What the alias on `line` stands for: what stands behind the first `=`, up
/// to the next `=` if there is one.
pub open spec fn alias_value(line: Seq<char>) -> Seq<char> {
    line.skip(until(line, '=') as int + 1).take(
        until(line.skip(until(line, '=') as int + 1), '=') as int,
    )
}

/// The candidate for the alias on `line`; none where the line holds no `=`
/// or the alias is too long to be matched.
pub fn parse_alias(line: &str) -> (alias: Option<Candidate>)
    ensures
        match alias {
            Some(alias) => {
                &&& is_alias(line@)
                &&& fits(alias_name(line@), Some(alias_value(line@)))
                &&& alias@ == (alias_name(line@), Some(alias_value(line@)))
            },
            None => !is_alias(line@) || !fits(alias_name(line@), Some(alias_value(line@))),
        },
{
    let len: usize = line.unicode_len();
    let first: usize = position(line, '=', 0);
    proof {
        assert(line@.skip(0) =~= line@);
    }
    if first == len {
        return None;
    }
    let second: usize = position(line, '=', first + 1);
    let name = line.substring_char(0, first).to_owned();
    let value = line.substring_char(first + 1, second).to_owned();
    proof {
        assert(name@ =~= alias_name(line@));
        assert(value@ =~= alias_value(line@));
    }
    Candidate::new(name, Some(value))
}

/// The candidates for the aliases on `lines`, in the order of the lines; or,
/// where a line gives none, the place of the first such line.
pub fn parse_aliases(lines: &Vec<String>) -> (aliases: Result<Vec<Candidate>, usize>)
    ensures
        match aliases {
            Ok(aliases) => {
                &&& aliases@.len() == lines@.len()
                &&& forall|i: int|
                    0 <= i < lines@.len() ==> is_alias(#[trigger] lines@[i]@) && aliases@[i]@ == (
                        alias_name(lines@[i]@),
                        Some(alias_value(lines@[i]@)),
                    )
            },
            Err(at) => {
                &&& at < lines@.len()
                &&& !is_alias(lines@[at as int]@) || !fits(
                    alias_name(lines@[at as int]@),
                    Some(alias_value(lines@[at as int]@)),
                )
                &&& forall|i: int|
                    0 <= i < at ==> is_alias(#[trigger] lines@[i]@) && fits(
                        alias_name(lines@[i]@),
                        Some(alias_value(lines@[i]@)),
                    )
            },
        },
{
    let mut aliases: Vec<Candidate> = Vec::new();
    let mut k: usize = 0;
    while k < lines.len()
        invariant
            k <= lines.len(),
            aliases@.len() == k,
            forall|i: int|
                0 <= i < k ==> is_alias(#[trigger] lines@[i]@) && fits(
                    alias_name(lines@[i]@),
                    Some(alias_value(lines@[i]@)),
                ) && aliases@[i]@ == (alias_name(lines@[i]@), Some(alias_value(lines@[i]@))),
        decreases lines.len() - k,
    {
        match parse_alias(lines[k].as_str()) {
            Some(alias) => {
                aliases.push(alias);
            },
            None => {
                return Err(k);
            },
        }
        k += 1;
    }
    Ok(aliases)
}

/// Calls `FileIcon::from` of `devicons`, which looks the icon up by name.
/// Nothing is claimed of the icon that comes back.
#[verifier::external_body]
fn file_icon(name: &str) -> FileIcon {
    FileIcon::from(name)
}

/// A highlight is attached to an entry only where it holds a range.
pub open spec fn attached(ranges: Seq<(u32, u32)>) -> Option<Seq<(u32, u32)>> {
    if ranges.len() > 0 {
        Some(ranges)
    } else {
        None
    }
}

/// The entry for a matched candidate: its name and value, the icon and the
/// preview tag of its channel, and the highlights that the raw positions
/// `raw` of its comparison column give, cut at the byte length of the name.
pub open spec fn materialize(
    item: (Seq<char>, Option<Seq<char>>),
    icon: FileIcon,
    preview_type: PreviewType,
    raw: Seq<u32>,
) -> EntryView {
    EntryView {
        name: item.0,
        value: item.1,
        icon: Some(icon),
        name_match_ranges: attached(name_ranges(raw, byte_len(item.0) as u32)),
        value_match_ranges: attached(value_ranges(raw, byte_len(item.0) as u32)),
        preview_type,
    }
}

/// Builds the entry for a matched candidate from the raw positions that the
/// engine reported for its comparison column.
pub fn make_entry(
    candidate: &Candidate,
    icon: FileIcon,
    preview_type: PreviewType,
    indices: Vec<u32>,
) -> (entry: Entry)
    requires
        forall|i: int| 0 <= i < indices@.len() ==> indices@[i] < u32::MAX,
    ensures
        entry@ == materialize(candidate@, icon, preview_type, indices@),
        (forall|i: int| 0 <= i < indices@.len() ==> indices@[i] < column_text(candidate@).len())
            ==> entry@.highlights_valid(),
        indices@.len() == 0 ==> entry@.name_match_ranges is None && entry@.value_match_ranges
            is None,
{
    let name_len: u32 = candidate.name_len();
    let mut col_indices = indices;
    sort_dedup(&mut col_indices);
    let ghost sorted = col_indices@;
    proof {
        if indices@.len() == 0 && sorted.len() > 0 {
            assert(sorted.contains(sorted[0]));
        }
    }
    let (name_indices, value_indices, should_add_name_indices, should_add_value_indices) =
        sep_name_and_value_indices(&mut col_indices, name_len);
    proof {
        lemma_filter_increasing(sorted, |p: u32| p < name_len);
        lemma_filter_increasing(sorted, |p: u32| p >= name_len);
        assert forall|i: int| 0 <= i < name_indices@.len() implies name_indices@[i]
            < u32::MAX by {
            assert(name_indices@.contains(name_indices@[i]));
            assert(sorted.contains(name_indices@[i]));
            assert(indices@.contains(name_indices@[i]));
        }
        let on_value = sorted.filter(|p: u32| p >= name_len);
        assert forall|i: int| 0 <= i < value_indices@.len() implies value_indices@[i]
            < u32::MAX by {
            assert(value_indices@[i] == (on_value[i] - name_len) as u32);
            assert(on_value.contains(on_value[i]));
            assert(sorted.contains(on_value[i]));
            assert(indices@.contains(on_value[i]));
        }
    }
    let mut entry = Entry::new(candidate.name().clone(), preview_type);
    match candidate.value() {
        Some(value) => {
            entry = entry.with_value(value.clone());
        },
        None => {},
    }
    entry = entry.with_icon(icon);
    if should_add_name_indices {
        entry = entry.with_name_match_ranges(indices_to_ranges(&name_indices));
    }
    if should_add_value_indices {
        entry = entry.with_value_match_ranges(indices_to_ranges(&value_indices));
    }
    proof {
        if forall|i: int| 0 <= i < indices@.len() ==> indices@[i] < column_text(candidate@).len() {
            lemma_entry_valid(candidate@, icon, preview_type, indices@);
        }
    }
    entry
}

/// The highlights of an entry are valid whenever the raw positions lie within
/// the comparison column of a candidate that is short enough to be matched.
pub proof fn lemma_entry_valid(
    item: (Seq<char>, Option<Seq<char>>),
    icon: FileIcon,
    preview_type: PreviewType,
    raw: Seq<u32>,
)
    requires
        fits(item.0, item.1),
        forall|i: int| 0 <= i < raw.len() ==> raw[i] < column_text(item).len(),
    ensures
        materialize(item, icon, preview_type, raw).highlights_valid(),
{
    let value_len = match item.1 {
        Some(value) => byte_len(value),
        None => 0,
    };
    lemma_chars_within_bytes(item.0);
    if let Some(value) = item.1 {
        lemma_chars_within_bytes(value);
    }
    lemma_highlight_ranges_valid(raw, byte_len(item.0) as u32, value_len);
    let on_value = value_ranges(raw, byte_len(item.0) as u32);
    if item.1 is None && on_value.len() > 0 {
        assert(on_value[0].0 < on_value[0].1 <= 0);
    }
}

/// A channel: a haystack of candidates behind a scoring engine of its own.
pub struct Channel {
    matcher: Nucleo<Candidate>,
    scorer: Matcher,
    last_pattern: String,
    file_icon: FileIcon,
    preview_type: PreviewType,
    ingested: u32,
    result_count: u32,
    total_count: u32,
    running: bool,
}

impl Channel {
    /// The channel of the shell aliases `aliases`: the name of an alias is
    /// the name of its candidate, what the alias stands for is the value.
    pub fn new(aliases: Vec<Candidate>) -> (channel: Channel)
        requires
            aliases@.len() <= HAYSTACK_LIMIT,
        ensures
            channel.inv(),
            channel.haystack() == aliases@.map_values(|alias: Candidate| alias@),
            channel.pattern() == Seq::<char>::empty(),
            channel.listing() == Seq::<EntryView>::empty(),
            channel.looked_at() == 0,
            channel.busy() == (aliases@.len() > 0),
            channel.preview() == PreviewType::EnvVar,
    {
        Channel::with_preview(aliases, PreviewType::EnvVar)
    }

    /// A channel over `candidates` whose entries carry `preview_type`.
    pub fn with_preview(candidates: Vec<Candidate>, preview_type: PreviewType) -> (channel:
        Channel)
        requires
            candidates@.len() <= HAYSTACK_LIMIT,
        ensures
            channel.inv(),
            channel.haystack() == candidates@.map_values(|candidate: Candidate| candidate@),
            channel.pattern() == Seq::<char>::empty(),
            channel.listing() == Seq::<EntryView>::empty(),
            channel.looked_at() == 0,
            channel.busy() == (candidates@.len() > 0),
            channel.preview() == preview_type,
    {
        let mut channel = Channel {
            matcher: new_engine(NUM_THREADS),
            scorer: new_scorer(),
            last_pattern: String::new(),
            file_icon: file_icon(FILE_ICON_STR),
            preview_type,
            ingested: 0,
            result_count: 0,
            total_count: 0,
            running: false,
        };
        assert(channel.listing() =~= Seq::<EntryView>::empty());
        let ghost all = candidates@.map_values(|candidate: Candidate| candidate@);
        let mut k: usize = 0;
        while k < candidates.len()
            invariant
                k <= candidates.len(),
                candidates@.len() <= HAYSTACK_LIMIT,
                all == candidates@.map_values(|candidate: Candidate| candidate@),
                channel.inv(),
                channel.haystack() == all.take(k as int),
                channel.pattern() == Seq::<char>::empty(),
                channel.listing() == Seq::<EntryView>::empty(),
                channel.looked_at() == 0,
                channel.busy() == (k > 0),
                channel.preview() == preview_type,
            decreases candidates.len() - k,
        {
            let taken = channel.push(candidates[k].clone());
            assert(taken);
            assert(all.take(k + 1) =~= all.take(k as int).push(candidates@[k as int]@));
            k += 1;
        }
        assert(all.take(k as int) =~= all);
        channel
    }

    /// The preview tag that the entries of the channel carry.
    pub closed spec fn preview(&self) -> PreviewType {
        self.preview_type
    }

    /// The icon that the entries of the channel carry.
    pub closed spec fn icon(&self) -> FileIcon {
        self.file_icon
    }

    /// Whether the channel has room for one more candidate.
    pub open spec fn has_room(&self) -> bool {
        self.haystack().len() < HAYSTACK_LIMIT
    }

    /// Takes `candidate` into the haystack, behind those already there, unless
    /// the haystack is full. Nothing is published by this call.
    pub fn push(&mut self, candidate: Candidate) -> (taken: bool)
        requires
            old(self).inv(),
        ensures
            final(self).inv(),
            taken == old(self).has_room(),
            taken ==> final(self).haystack() == old(self).haystack().push(candidate@),
            !taken ==> final(self).haystack() == old(self).haystack(),
            final(self).pattern() == old(self).pattern(),
            final(self).listing() == old(self).listing(),
            final(self).looked_at() == old(self).looked_at(),
            final(self).busy() == (old(self).busy() || taken),
            final(self).narrowing() == old(self).narrowing(),
            final(self).rescanning() == old(self).rescanning(),
            final(self).preview() == old(self).preview(),
            final(self).icon() == old(self).icon(),
    {
        if self.ingested >= HAYSTACK_LIMIT {
            return false;
        }
        let ghost before = haystack(self.matcher);
        ingest(&mut self.matcher, candidate);
        self.ingested = self.ingested + 1;
        self.running = true;
        proof {
            let after = haystack(self.matcher);
            assert forall|i: int| 0 <= i < snapshot_matches(self.matcher).len() implies after.contains(
                #[trigger] snapshot_matches(self.matcher)[i],
            ) by {
                let found = snapshot_matches(self.matcher)[i];
                assert(before.contains(found));
                let at = choose|at: int| 0 <= at < before.len() && before[at] == found;
                assert(after[at] == found);
            }
        }
        true
    }
}

impl OnAir for Channel {
    closed spec fn inv(&self) -> bool {
        &&& self.last_pattern@ == pattern_text(self.matcher)
        &&& self.ingested == haystack(self.matcher).len()
        &&& self.ingested <= HAYSTACK_LIMIT
        &&& self.result_count == snapshot_matches(self.matcher).len()
        &&& self.total_count == snapshot_item_count(self.matcher)
        &&& snapshot_within_haystack(self.matcher)
    }

    closed spec fn pattern(&self) -> Seq<char> {
        self.last_pattern@
    }

    closed spec fn haystack(&self) -> Seq<(Seq<char>, Option<Seq<char>>)> {
        haystack(self.matcher)
    }

    closed spec fn listing(&self) -> Seq<EntryView> {
        snapshot_matches(self.matcher).map_values(
            |item: (Seq<char>, Option<Seq<char>>)|
                materialize(
                    item,
                    self.file_icon,
                    self.preview_type,
                    match_indices(snapshot_pattern(self.matcher), column_text(item)),
                ),
        )
    }

    closed spec fn looked_at(&self) -> nat {
        snapshot_item_count(self.matcher)
    }

    closed spec fn busy(&self) -> bool {
        self.running
    }

    closed spec fn narrowing(&self) -> bool {
        narrowing_permitted(self.matcher)
    }

    closed spec fn rescanning(&self) -> bool {
        rescan_pending(self.matcher)
    }

    closed spec fn matched_against(&self) -> Seq<char> {
        snapshot_pattern(self.matcher)
    }

    proof fn lemma_counts(&self) {
    }

    fn find(&mut self, pattern: &str)
        ensures
            final(self).preview() == old(self).preview(),
            final(self).icon() == old(self).icon(),
    {
        if !same_text(pattern, self.last_pattern.as_str()) {
            let append = starts_with(pattern, self.last_pattern.as_str());
            reparse(&mut self.matcher, pattern, append);
            self.last_pattern = pattern.to_owned();
            self.running = true;
        }
    }

    fn results(&mut self, num_entries: u32, offset: u32) -> (entries: Vec<Entry>)
        ensures
            final(self).preview() == old(self).preview(),
            final(self).icon() == old(self).icon(),
    {
        let status = tick(&mut self.matcher, MATCHER_TICK_TIMEOUT);
        if status.changed {
            self.result_count = matched_item_count(&self.matcher);
            self.total_count = item_count(&self.matcher);
        }
        self.running = status.running;
        let count: u32 = self.result_count;
        let start: u32 = if offset < count {
            offset
        } else {
            count
        };
        let end: u32 = if num_entries < count - start {
            start + num_entries
        } else {
            count
        };
        let items = matched_items(&self.matcher, start, end);
        let ghost listing = self.listing();
        let ghost published = *self;
        assert(listing.len() == count);
        assert(page(listing, num_entries as nat, offset as nat) =~= listing.subrange(
            start as int,
            end as int,
        ));
        let mut entries: Vec<Entry> = Vec::new();
        let mut k: usize = 0;
        while k < items.len()
            invariant
                k <= items.len(),
                items@.len() == end - start,
                start <= end <= listing.len(),
                listing == published.listing(),
                self.matcher == published.matcher,
                self.file_icon == published.file_icon,
                self.preview_type == published.preview_type,
                self.last_pattern == published.last_pattern,
                self.ingested == published.ingested,
                self.result_count == published.result_count,
                self.total_count == published.total_count,
                self.running == published.running,
                published.inv(),
                forall|i: int|
                    0 <= i < items@.len() ==> (#[trigger] items@[i])@ == snapshot_matches(
                        published.matcher,
                    )[start + i],
                entries@.len() == k,
                views(entries@) == listing.subrange(start as int, start + k),
                forall|i: int|
                    0 <= i < entries@.len() ==> (#[trigger] entries@[i])@.highlights_valid()
                        && haystack(published.matcher).contains(
                        (entries@[i]@.name, entries@[i]@.value),
                    ),
                snapshot_pattern(published.matcher).len() == 0 ==> forall|i: int|
                    0 <= i < entries@.len() ==> (#[trigger] entries@[i])@.name_match_ranges
                        is None && entries@[i]@.value_match_ranges is None,
            decreases items.len() - k,
        {
            let item = &items[k];
            let text = item.column();
            let indices = highlight_indices(&self.matcher, &mut self.scorer, text.as_str());
            let entry = make_entry(item, self.file_icon, self.preview_type, indices);
            proof {
                assert(item@ == snapshot_matches(published.matcher)[start + k]);
                assert(entry@ == listing[start + k]);
                let grown = views(entries@.push(entry));
                let window = listing.subrange(start as int, start + k + 1);
                assert(grown.len() == window.len());
                assert forall|i: int| 0 <= i < grown.len() implies grown[i] == window[i] by {
                    if i < k {
                        assert(views(entries@)[i] == listing.subrange(start as int, start + k)[i]);
                    }
                }
                assert(grown =~= window);
                assert(haystack(published.matcher).contains(
                    snapshot_matches(published.matcher)[start + k],
                ));
            }
            entries.push(entry);
            k += 1;
        }
        proof {
            if !self.busy() && self.pattern().len() == 0 {
                assert forall|i: int| 0 <= i < entries@.len() implies (#[trigger] entries@[i])@.name
                    == self.haystack()[offset + i].0 && entries@[i]@.value
                    == self.haystack()[offset + i].1 by {
                    assert(views(entries@)[i] == listing.subrange(start as int, end as int)[i]);
                }
            }
        }
        entries
    }

    fn get_result(&self, index: u32) -> (entry: Option<Entry>) {
        match matched_item(&self.matcher, index) {
            Some(item) => {
                let mut scorer = new_scorer();
                let text = item.column();
                let indices = highlight_indices(&self.matcher, &mut scorer, text.as_str());
                let entry = make_entry(&item, self.file_icon, self.preview_type, indices);
                proof {
                    assert(haystack(self.matcher).contains(
                        snapshot_matches(self.matcher)[index as int],
                    ));
                }
                Some(entry)
            },
            None => None,
        }
    }

    fn result_count(&self) -> (count: u32) {
        self.result_count
    }

    fn total_count(&self) -> (count: u32) {
        self.total_count
    }

    fn running(&self) -> (busy: bool) {
        self.running
    }

    fn shutdown(&mut self) {
        restart(&mut self.matcher);
        self.ingested = 0;
        self.result_count = 0;
        self.total_count = 0;
        self.running = false;
        assert(self.listing() =~= Seq::<EntryView>::empty());
    }
}

} // verus!
