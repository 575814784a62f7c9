//! Resolving a day to its file: where the file is, and whether it is there.
//!
//! A day's entry is `<base>/<YYYY-MM-DD>.org` or `<base>/<YYYY-MM-DD>.md`.
//! The `.org` file wins when both are present; an entry that does not exist
//! yet is created as `.md`.

use crate::calendar::{iso_string, iso_text, CalendarDate, Day};
use vstd::prelude::*;
use vstd::string::StringExecFns;

verus! {

/// What the preview shows for a day without a file.
pub open spec fn placeholder_text() -> Seq<char> {
    "No entry for this date."@
}

/// Extension of the candidate that is tried first.
pub open spec fn org_suffix() -> Seq<char> {
    seq!['.', 'o', 'r', 'g']
}

/// Extension of the candidate that is tried second and that new entries get.
pub open spec fn md_suffix() -> Seq<char> {
    seq!['.', 'm', 'd']
}

/// Path of a day's file under `base` with the given suffix.
pub open spec fn candidate_path(base: Seq<char>, date: Day, suffix: Seq<char>) -> Seq<char> {
    base + seq!['/'] + iso_text(date) + suffix
}

/// What was found on disk for the two candidates of one day.
#[derive(Clone, Copy, Debug, PartialEq, Eq, Structural)]
pub struct Presence {
    pub org: bool,
    pub md: bool,
}

/// The mathematical value of an entry.
pub ghost struct EntryView {
    pub path: Seq<char>,
    pub date: Day,
    pub exists: bool,
}

/// The entry that a day resolves to under `base`, given what is on disk.
pub open spec fn resolved(base: Seq<char>, date: Day, found: Presence) -> EntryView {
    if found.org {
        EntryView { path: candidate_path(base, date, org_suffix()), date, exists: true }
    } else {
        EntryView { path: candidate_path(base, date, md_suffix()), date, exists: found.md }
    }
}

/// One day of the journal: its file's path, and whether the file was there
/// when the day was resolved.
#[derive(Debug, Clone)]
pub struct DiaryEntry {
    pub path: String,
    pub date: CalendarDate,
    pub exists: bool,
}

impl View for DiaryEntry {
    type V = EntryView;

    open spec fn view(&self) -> EntryView {
        EntryView { path: self.path@, date: self.date@, exists: self.exists }
    }
}

/// The two paths at which a day's file may be, `.org` first.
pub fn candidate_paths(base_path: &str, date: &CalendarDate) -> (r: (String, String))
    requires
        date.wf(),
    ensures
        r.0@ == candidate_path(base_path@, date@, org_suffix()),
        r.1@ == candidate_path(base_path@, date@, md_suffix()),
{
    proof {
        reveal_strlit("/");
        reveal_strlit(".org");
        reveal_strlit(".md");
    }
    let stem = String::from_str(base_path).concat("/").concat(iso_string(*date).as_str());
    let org = stem.clone().concat(".org");
    let md = stem.concat(".md");
    assert("/"@ =~= seq!['/']);
    assert(".org"@ =~= org_suffix());
    assert(".md"@ =~= md_suffix());
    (org, md)
}

/// The path of a day's file and whether it exists, given what was found at
/// the day's two candidates: the `.org` file if it is there, else the `.md`
/// file, which is also where a missing entry will be created.
pub fn get_entry_path(base_path: &str, date: &CalendarDate, org_exists: bool, md_exists: bool) -> (r:
    (String, bool))
    requires
        date.wf(),
    ensures
        r.0@ == resolved(base_path@, date@, Presence { org: org_exists, md: md_exists }).path,
        r.1 == resolved(base_path@, date@, Presence { org: org_exists, md: md_exists }).exists,
        r.1 == (org_exists || md_exists),
{
    let (filename_org, filename_md) = candidate_paths(base_path, date);
    if org_exists {
        (filename_org, true)
    } else if md_exists {
        (filename_md, true)
    } else {
        (filename_md, false)
    }
}

/// The entry of a day, given what was found at its two candidates.
pub fn resolve(base_path: &str, date: CalendarDate, found: Presence) -> (r: DiaryEntry)
    requires
        date.wf(),
    ensures
        r@ == resolved(base_path@, date@, found),
        r.date == date,
{
    let (path, exists) = get_entry_path(base_path, &date, found.org, found.md);
    DiaryEntry { path, date, exists }
}

/// The text to preview for an entry: what its file holds, or a fixed
/// placeholder when there is no file.
pub fn read_entry(content: Option<String>) -> (r: String)
    ensures
        match content {
            Some(text) => r@ == text@,
            None => r@ == placeholder_text(),
        },
{
    match content {
        Some(text) => text,
        None => String::from_str("No entry for this date."),
    }
}

} // verus!
