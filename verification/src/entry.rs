//! The record a channel hands out for each match.

use crate::utils::indices::ranges_valid;
use crate::utils::strings::byte_len;
use devicons::FileIcon;
use vstd::prelude::*;

verus! {

/// The icon type of `devicons`. An icon is carried through as it is: nothing
/// in the library looks inside one.
#[verifier::external_type_specification]
#[verifier::external_body]
pub struct ExFileIcon(FileIcon);

/// How a previewer should render an entry. The library only passes the tag on.
#[derive(Clone, Copy, Debug, PartialEq, Eq, Hash, Structural)]
pub enum PreviewType {
    Basic,
    Directory,
    EnvVar,
    Files,
}

/// A match as a channel hands it out.
///
/// An entry is built once and not changed afterwards: each `with_*` method
/// takes the entry and gives back a new one.
#[derive(Debug, PartialEq, Eq)]
pub struct Entry {
    /// What is shown and matched first.
    pub name: String,
    /// The second field, for channels whose candidates have two parts.
    pub value: Option<String>,
    /// An icon to show beside the name.
    pub icon: Option<FileIcon>,
    /// The ranges of the name to highlight, as half-open `(start, end)` pairs.
    pub name_match_ranges: Option<Vec<(u32, u32)>>,
    /// The ranges of the value to highlight, as half-open `(start, end)` pairs.
    pub value_match_ranges: Option<Vec<(u32, u32)>>,
    /// How a previewer should render the entry.
    pub preview_type: PreviewType,
}

/// What an entry holds, as plain values.
pub struct EntryView {
    pub name: Seq<char>,
    pub value: Option<Seq<char>>,
    pub icon: Option<FileIcon>,
    pub name_match_ranges: Option<Seq<(u32, u32)>>,
    pub value_match_ranges: Option<Seq<(u32, u32)>>,
    pub preview_type: PreviewType,
}

impl EntryView {
    /// The highlights are in order. A list of ranges is attached only where
    /// it holds a range, and one for the value only where there is a value.
    /// The ranges of the name lie within the bytes of the name, those of the
    /// value within the bytes of the value, counted from the start of the
    /// value; and each list is sorted and free of overlap.
    pub open spec fn highlights_valid(self) -> bool {
        &&& self.name_match_ranges matches Some(ranges) ==> ranges.len() > 0 && ranges_valid(
            ranges,
            byte_len(self.name),
        )
        &&& self.value_match_ranges matches Some(ranges) ==> ranges.len() > 0 && self.value
            is Some && ranges_valid(ranges, byte_len(self.value->0))
    }
}

impl View for Entry {
    type V = EntryView;

    open spec fn view(&self) -> EntryView {
        EntryView {
            name: self.name@,
            value: match self.value {
                Some(value) => Some(value@),
                None => None,
            },
            icon: self.icon,
            name_match_ranges: match self.name_match_ranges {
                Some(ranges) => Some(ranges@),
                None => None,
            },
            value_match_ranges: match self.value_match_ranges {
                Some(ranges) => Some(ranges@),
                None => None,
            },
            preview_type: self.preview_type,
        }
    }
}

fn copy_ranges(ranges: &Option<Vec<(u32, u32)>>) -> (r: Option<Vec<(u32, u32)>>)
    ensures
        match (ranges, r) {
            (Some(from), Some(to)) => to@ == from@,
            (None, None) => true,
            _ => false,
        },
{
    match ranges {
        Some(from) => {
            let mut to: Vec<(u32, u32)> = Vec::new();
            let mut k: usize = 0;
            while k < from.len()
                invariant
                    k <= from.len(),
                    to@ == from@.take(k as int),
                decreases from.len() - k,
            {
                to.push(from[k]);
                assert(from@.take(k + 1) =~= from@.take(k as int).push(from@[k as int]));
                k += 1;
            }
            assert(from@.take(k as int) =~= from@);
            Some(to)
        },
        None => None,
    }
}

impl Clone for Entry {
    fn clone(&self) -> (r: Self)
        ensures
            r@ == self@,
    {
        Entry {
            name: self.name.clone(),
            value: self.value.clone(),
            icon: self.icon,
            name_match_ranges: copy_ranges(&self.name_match_ranges),
            value_match_ranges: copy_ranges(&self.value_match_ranges),
            preview_type: self.preview_type,
        }
    }
}

impl Entry {
    /// An entry with a name and nothing else.
    pub fn new(name: String, preview_type: PreviewType) -> (r: Entry)
        ensures
            r@ == (EntryView {
                name: name@,
                value: None,
                icon: None,
                name_match_ranges: None,
                value_match_ranges: None,
                preview_type,
            }),
            r@.highlights_valid(),
    {
        Entry {
            name,
            value: None,
            icon: None,
            name_match_ranges: None,
            value_match_ranges: None,
            preview_type,
        }
    }

    /// The entry with `value` as its value.
    pub fn with_value(self, value: String) -> (r: Entry)
        ensures
            r@ == (EntryView { value: Some(value@), ..self@ }),
            self@.highlights_valid() && self@.value_match_ranges is None
                ==> r@.highlights_valid(),
    {
        Entry { value: Some(value), ..self }
    }

    /// The entry with `icon` as its icon.
    pub fn with_icon(self, icon: FileIcon) -> (r: Entry)
        ensures
            r@ == (EntryView { icon: Some(icon), ..self@ }),
            self@.highlights_valid() ==> r@.highlights_valid(),
    {
        Entry { icon: Some(icon), ..self }
    }

    /// The entry with `ranges` as the highlight of its name.
    pub fn with_name_match_ranges(self, ranges: Vec<(u32, u32)>) -> (r: Entry)
        ensures
            r@ == (EntryView { name_match_ranges: Some(ranges@), ..self@ }),
            self@.highlights_valid() && ranges@.len() > 0 && ranges_valid(
                ranges@,
                byte_len(self@.name),
            ) ==> r@.highlights_valid(),
    {
        Entry { name_match_ranges: Some(ranges), ..self }
    }

    /// The entry with `ranges` as the highlight of its value.
    pub fn with_value_match_ranges(self, ranges: Vec<(u32, u32)>) -> (r: Entry)
        ensures
            r@ == (EntryView { value_match_ranges: Some(ranges@), ..self@ }),
            self@.highlights_valid() && ranges@.len() > 0 && self@.value is Some
                && ranges_valid(ranges@, byte_len(self@.value->0)) ==> r@.highlights_valid(),
    {
        Entry { value_match_ranges: Some(ranges), ..self }
    }
}

} // verus!
