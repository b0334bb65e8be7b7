//! The decisions of the registry's directory-scan operations, taken over a
//! listing of entry files: which files are managed, which are listed, which
//! one a name selects, which ones a command fragment selects.
use vstd::prelude::*;
use vstd::string::*;
use crate::entry::{
    DesktopEntry, parse_desktop_entry, chars_of, key_starts, parses, exec_of, name_of, icon_of,
};

verus! {

/// Whether `pat` occurs in `t` as a contiguous piece.
pub open spec fn occurs_in(pat: Seq<char>, t: Seq<char>) -> bool {
    exists|i: int| 0 <= i && i + pat.len() <= t.len() && #[trigger] t.subrange(i, i + pat.len()) == pat
}

/// The text whose presence marks an entry file as managed by this library.
pub open spec fn marker() -> Seq<char> {
    "X-AppHub=true"@
}

/// Whether the entry text `t` carries the managed marker.
pub open spec fn has_marker(t: Seq<char>) -> bool {
    occurs_in(marker(), t)
}

/// Whether the entry text `t` parses with display name `q`.
pub open spec fn named(t: Seq<char>, q: Seq<char>) -> bool {
    parses(t) && name_of(t) == q
}

/// One file of the applications directory: its path and its text.
#[derive(Clone, Debug)]
pub struct EntryFile {
    pub path: String,
    pub content: String,
}

/// What listing the registry shows of one managed entry.
#[derive(Clone, Debug, PartialEq, Eq)]
pub struct App {
    pub name: String,
    pub icon_base64: Option<String>,
    pub app_path: String,
}

/// The failures of the registry's operations.
#[derive(Clone, Debug, PartialEq, Eq)]
pub enum RegistryError {
    /// The applications directory could not be listed.
    Directory(String),
    /// No entry has the display name asked for; carries that name.
    NotFound(String),
    /// Reading or removing one entry file failed.
    Io(String),
}

/// The texts of the files that the listing shows: managed, and parsed, in order.
pub open spec fn listed_texts(files: Seq<EntryFile>) -> Seq<Seq<char>>
    decreases files.len(),
{
    if files.len() == 0 {
        Seq::<Seq<char>>::empty()
    } else {
        let t = files.last().content@;
        let prev = listed_texts(files.drop_last());
        if has_marker(t) && parses(t) {
            prev.push(t)
        } else {
            prev
        }
    }
}

/// The paths of the files that parse and whose `Exec` value holds `pat`, in order.
pub open spec fn exec_matches(files: Seq<EntryFile>, pat: Seq<char>) -> Seq<Seq<char>>
    decreases files.len(),
{
    if files.len() == 0 {
        Seq::<Seq<char>>::empty()
    } else {
        let f = files.last();
        let prev = exec_matches(files.drop_last(), pat);
        if parses(f.content@) && occurs_in(pat, exec_of(f.content@)) {
            prev.push(f.path@)
        } else {
            prev
        }
    }
}

/// `k` is the first position in `files` whose text parses with name `q`.
pub open spec fn first_named_at(files: Seq<EntryFile>, q: Seq<char>, k: int) -> bool {
    &&& 0 <= k < files.len()
    &&& named(files[k].content@, q)
    &&& forall|j: int| 0 <= j < k ==> !named(#[trigger] files[j].content@, q)
}

/// No text in `files` parses with name `q`.
pub open spec fn none_named(files: Seq<EntryFile>, q: Seq<char>) -> bool {
    forall|j: int| 0 <= j < files.len() ==> !named(#[trigger] files[j].content@, q)
}

/// Whether `pat` occurs in `t`.
pub fn contains_text(t: &str, pat: &str) -> (r: bool)
    ensures
        r == occurs_in(pat@, t@),
{
    let text = chars_of(t);
    let p = chars_of(pat);
    let n = text.len();
    let m = p.len();
    if m > n {
        return false;
    }
    let mut i: usize = 0;
    while i <= n - m
        invariant
            text@ == t@,
            p@ == pat@,
            n == text@.len(),
            m == p@.len(),
            m <= n,
            i <= n - m + 1,
            forall|j: int| 0 <= j < i ==> #[trigger] t@.subrange(j, j + m) != pat@,
        decreases n - m + 1 - i,
    {
        if key_starts(&text, i, i + m, &p) {
            assert(t@.subrange(i as int, i + m) =~= pat@);
            return true;
        }
        i += 1;
    }
    assert forall|j: int| 0 <= j && j + pat@.len() <= t@.len() implies #[trigger] t@.subrange(
        j,
        j + pat@.len(),
    ) != pat@ by {
        assert(j < i);
    }
    false
}

/// Whether the entry text carries the managed marker.
pub fn is_managed(content: &str) -> (r: bool)
    ensures
        r == has_marker(content@),
{
    contains_text(content, "X-AppHub=true")
}


/// The entries that the listing shows: one for each file that carries the
/// marker and parses, in the order of `files`. Files without the marker are
/// never parsed; files that fail to parse are left out.
pub fn managed_entries(files: &Vec<EntryFile>) -> (r: Vec<DesktopEntry>)
    ensures
        r@.len() == listed_texts(files@).len(),
        forall|k: int| 0 <= k < r@.len() ==> #[trigger] r@[k].parsed_from(listed_texts(files@)[k]),
{
    let mut r: Vec<DesktopEntry> = Vec::new();
    let mut i: usize = 0;
    while i < files.len()
        invariant
            i <= files@.len(),
            r@.len() == listed_texts(files@.take(i as int)).len(),
            forall|k: int|
                0 <= k < r@.len() ==> #[trigger] r@[k].parsed_from(
                    listed_texts(files@.take(i as int))[k],
                ),
        decreases files@.len() - i,
    {
        proof {
            assert(files@.take(i + 1).drop_last() =~= files@.take(i as int));
        }
        let content = files[i].content.as_str();
        if is_managed(content) {
            match parse_desktop_entry(content) {
                Ok(e) => {
                    r.push(e);
                },
                Err(_) => {},
            }
        }
        i += 1;
    }
    proof {
        assert(files@.take(i as int) =~= files@);
    }
    r
}

/// The listing: each entry becomes an `App` whose icon is what resolving its
/// icon path gave (`icons[k]` for `entries[k]`), absent where that failed.
/// No entry is left out on account of its icon.
pub fn apps_from_entries(entries: &Vec<DesktopEntry>, icons: &Vec<Option<String>>) -> (r: Vec<App>)
    requires
        icons@.len() == entries@.len(),
    ensures
        r@.len() == entries@.len(),
        forall|k: int|
            0 <= k < r@.len() ==> {
                &&& (#[trigger] r@[k]).name@ == entries@[k].name@
                &&& r@[k].app_path@ == entries@[k].exec_path@
                &&& r@[k].icon_base64 == icons@[k]
            },
{
    let mut r: Vec<App> = Vec::new();
    let mut i: usize = 0;
    while i < entries.len()
        invariant
            i <= entries@.len(),
            icons@.len() == entries@.len(),
            r@.len() == i,
            forall|k: int|
                0 <= k < i ==> {
                    &&& (#[trigger] r@[k]).name@ == entries@[k].name@
                    &&& r@[k].app_path@ == entries@[k].exec_path@
                    &&& r@[k].icon_base64 == icons@[k]
                },
        decreases entries@.len() - i,
    {
        let icon_base64 = match &icons[i] {
            Some(s) => Some(s.clone()),
            None => None,
        };
        r.push(App { name: entries[i].name.clone(), icon_base64, app_path: entries[i].exec_path.clone() });
        i += 1;
    }
    r
}

/// The position of the first file whose text parses with display name
/// `app_name` (exact equality), or `None` where there is none.
pub fn first_index_by_name(files: &Vec<EntryFile>, app_name: &str) -> (r: Option<usize>)
    ensures
        r matches Some(k) ==> first_named_at(files@, app_name@, k as int),
        r is None <==> none_named(files@, app_name@),
{
    let q = app_name.to_owned();
    let mut i: usize = 0;
    while i < files.len()
        invariant
            i <= files@.len(),
            q@ == app_name@,
            forall|j: int| 0 <= j < i ==> !named(#[trigger] files@[j].content@, app_name@),
        decreases files@.len() - i,
    {
        match parse_desktop_entry(files[i].content.as_str()) {
            Ok(e) => {
                if e.name == q {
                    return Some(i);
                }
            },
            Err(_) => {},
        }
        i += 1;
    }
    None
}

/// Looks up the entry whose display name is `app_name` (exact equality):
/// the first such file of `files`; `NotFound` with the name where none parses with it.
pub fn find_desktop_entry(files: &Vec<EntryFile>, app_name: &str) -> (r: Result<DesktopEntry, RegistryError>)
    ensures
        r is Err <==> none_named(files@, app_name@),
        r matches Err(err) ==> err matches RegistryError::NotFound(n) && n@ == app_name@,
        r matches Ok(e) ==> exists|k: int|
            #[trigger] first_named_at(files@, app_name@, k) && e.parsed_from(files@[k].content@),
{
    match first_index_by_name(files, app_name) {
        Some(k) => {
            match parse_desktop_entry(files[k].content.as_str()) {
                Ok(e) => {
                    Ok(e)
                },
                Err(_) => Err(RegistryError::NotFound(app_name.to_owned())),
            }
        },
        None => Err(RegistryError::NotFound(app_name.to_owned())),
    }
}

/// The paths of the files whose text parses and whose `Exec` value holds
/// `contains_exec`, in the order of `files`, managed or not.
pub fn find_desktop_entries_by_exec_contains(files: &Vec<EntryFile>, contains_exec: &str) -> (r: Vec<
    String,
>)
    ensures
        r@.len() == exec_matches(files@, contains_exec@).len(),
        forall|k: int| 0 <= k < r@.len() ==> #[trigger] r@[k]@ == exec_matches(files@, contains_exec@)[k],
{
    let mut r: Vec<String> = Vec::new();
    let mut i: usize = 0;
    while i < files.len()
        invariant
            i <= files@.len(),
            r@.len() == exec_matches(files@.take(i as int), contains_exec@).len(),
            forall|k: int|
                0 <= k < r@.len() ==> #[trigger] r@[k]@ == exec_matches(files@.take(i as int), contains_exec@)[k],
        decreases files@.len() - i,
    {
        proof {
            assert(files@.take(i + 1).drop_last() =~= files@.take(i as int));
        }
        match parse_desktop_entry(files[i].content.as_str()) {
            Ok(e) => {
                if contains_text(e.exec_path.as_str(), contains_exec) {
                    r.push(files[i].path.clone());
                }
            },
            Err(_) => {},
        }
        i += 1;
    }
    proof {
        assert(files@.take(i as int) =~= files@);
    }
    r
}

/// Removes from the listing the first file whose text parses with display
/// name `app_name` and returns its path; where there is none, `NotFound`
/// with the name, and the listing stays as it was.
pub fn delete_desktop_file_by_name(files: &mut Vec<EntryFile>, app_name: &str) -> (r: Result<String, RegistryError>)
    ensures
        r is Err <==> none_named(old(files)@, app_name@),
        r matches Err(err) ==> err matches RegistryError::NotFound(n) && n@ == app_name@
            && final(files)@ == old(files)@,
        r matches Ok(p) ==> exists|k: int|
            #[trigger] first_named_at(old(files)@, app_name@, k) && p@ == old(files)@[k].path@
                && final(files)@ == old(files)@.remove(k),
{
    match first_index_by_name(files, app_name) {
        Some(k) => {
            let removed = files.remove(k);
            Ok(removed.path)
        },
        None => Err(RegistryError::NotFound(app_name.to_owned())),
    }
}

} // verus!
