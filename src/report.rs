//! Which files a run processes, and the report it gathers from their outcomes.

use vstd::prelude::*;
use vstd::string::*;
use crate::normalize::string_views;

verus! {

/// Why a file could not be processed.
#[derive(Debug, Clone, Copy, PartialEq, Eq, Structural)]
pub enum LinemanFileError {
    /// The file could not be opened or read as text.
    FileNotOpened,
    /// The file could not be created or written back.
    FileNotCleaned,
}

/// Whether a file with the given extension is processed: every file when no
/// list of extensions is configured, else only one whose extension is listed.
pub open spec fn spec_should_process(extension: Option<Seq<char>>, extensions: Option<Seq<Seq<char>>>) -> bool {
    match extensions {
        None => true,
        Some(list) => match extension {
            None => false,
            Some(e) => list.contains(e),
        },
    }
}

/// Decides whether a file is processed, from its extension (`None` where it
/// has none) and the configured extensions (`None` where all files are).
pub fn should_process(extension: Option<&str>, extensions: &Option<Vec<String>>) -> (r: bool)
    ensures
        r == spec_should_process(
            match extension {
                None => None,
                Some(e) => Some(e@),
            },
            match extensions {
                None => None,
                Some(v) => Some(string_views(v@)),
            },
        ),
{
    match extensions {
        None => true,
        Some(list) => match extension {
            None => false,
            Some(e) => {
                let wanted: String = e.to_owned();
                let ghost views = string_views(list@);
                let mut i: usize = 0;
                while i < list.len()
                    invariant
                        i <= list@.len(),
                        views == string_views(list@),
                        wanted@ == e@,
                        *extensions == Some(*list),
                        extension == Some(e),
                        forall|j: int| 0 <= j < i ==> views[j] != e@,
                    decreases list.len() - i,
                {
                    if list[i] == wanted {
                        assert(views[i as int] == e@);
                        assert(views.contains(e@));
                        return true;
                    }
                    i = i + 1;
                }
                assert(!views.contains(e@));
                false
            },
        },
    }
}

/// The indentation put before each entry of the report.
pub open spec fn indent() -> Seq<char> {
    seq![' ', ' ', ' ', ' ']
}

/// One section of the report: nothing for no entries, else a header line
/// followed by each entry, indented.
pub open spec fn section(header: Seq<char>, entries: Seq<Seq<char>>) -> Seq<Seq<char>> {
    if entries.len() == 0 {
        Seq::empty()
    } else {
        seq![header] + entries.map_values(|p: Seq<char>| indent() + p)
    }
}

/// The outcomes gathered over a run: the files that were rewritten, those
/// that were skipped on an error, and the directory entries that could not
/// be visited. A file that needed no change is in neither list.
pub struct Report {
    pub cleaned: Vec<String>,
    pub skipped: Vec<String>,
    pub walk_errors: Vec<String>,
}

impl Report {
    /// The report's lines: the cleaned files, the skipped files and the walk
    /// errors, each section present only when it has entries.
    pub open spec fn spec_lines(&self) -> Seq<Seq<char>> {
        section("Cleaned Files:"@, string_views(self.cleaned@)) + section(
            "Skipped Files:"@,
            string_views(self.skipped@),
        ) + section("Walkdir Errors:"@, string_views(self.walk_errors@))
    }

    /// A report with nothing in it.
    pub fn new() -> (r: Report)
        ensures
            r.cleaned@.len() == 0,
            r.skipped@.len() == 0,
            r.walk_errors@.len() == 0,
    {
        Report { cleaned: Vec::new(), skipped: Vec::new(), walk_errors: Vec::new() }
    }

    /// Records what processing the file at `path` gave: it is listed as
    /// cleaned when it was rewritten, as skipped on an error, and not at all
    /// when it needed no change.
    pub fn record_file(&mut self, path: String, outcome: Result<bool, LinemanFileError>)
        ensures
            final(self).walk_errors@ == old(self).walk_errors@,
            final(self).cleaned@ == (if outcome == Ok::<bool, LinemanFileError>(true) {
                old(self).cleaned@.push(path)
            } else {
                old(self).cleaned@
            }),
            final(self).skipped@ == (if outcome is Err {
                old(self).skipped@.push(path)
            } else {
                old(self).skipped@
            }),
    {
        match outcome {
            Ok(true) => self.cleaned.push(path),
            Ok(false) => {},
            Err(_) => self.skipped.push(path),
        }
    }

    /// Records a directory entry that could not be visited.
    pub fn record_walk_error(&mut self, detail: String)
        ensures
            final(self).cleaned@ == old(self).cleaned@,
            final(self).skipped@ == old(self).skipped@,
            final(self).walk_errors@ == old(self).walk_errors@.push(detail),
    {
        self.walk_errors.push(detail);
    }

    /// The lines of the report, in order, without line terminators.
    pub fn lines(&self) -> (r: Vec<String>)
        ensures
            string_views(r@) == self.spec_lines(),
    {
        let mut out: Vec<String> = Vec::new();
        push_section(&mut out, "Cleaned Files:", &self.cleaned);
        push_section(&mut out, "Skipped Files:", &self.skipped);
        push_section(&mut out, "Walkdir Errors:", &self.walk_errors);
        proof {
            assert(string_views(out@) =~= self.spec_lines());
        }
        out
    }
}

/// Appends one section of the report to `out`.
fn push_section(out: &mut Vec<String>, header: &str, entries: &Vec<String>)
    ensures
        string_views(final(out)@) == string_views(old(out)@) + section(header@, string_views(entries@)),
{
    if entries.len() == 0 {
        proof {
            assert(string_views(out@) + section(header@, string_views(entries@)) =~= string_views(out@));
        }
        return;
    }
    let ghost start = string_views(out@);
    let ghost items = string_views(entries@);
    out.push(header.to_owned());
    assert(string_views(out@) =~= start.push(header@));
    let mut i: usize = 0;
    while i < entries.len()
        invariant
            i <= entries@.len(),
            items == string_views(entries@),
            items.len() > 0,
            string_views(out@) =~= start + seq![header@] + items.subrange(0, i as int).map_values(
                |p: Seq<char>| indent() + p,
            ),
        decreases entries.len() - i,
    {
        let line: String = String::from_str("    ").concat(entries[i].as_str());
        proof {
            reveal_strlit("    ");
            assert(line@ =~= indent() + items[i as int]);
            assert(items.subrange(0, i + 1).map_values(|p: Seq<char>| indent() + p)
                =~= items.subrange(0, i as int).map_values(|p: Seq<char>| indent() + p).push(line@));
        }
        let ghost before = string_views(out@);
        let ghost pushed = line@;
        out.push(line);
        proof {
            assert(string_views(out@) =~= before.push(pushed));
        }
        i = i + 1;
    }
    assert(items.subrange(0, i as int) =~= items);
}

} // verus!
