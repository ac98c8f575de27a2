//! Change records: one file of one commit, with its category and extension.
use vstd::prelude::*;
use crate::line::{Header, PathStat};
use crate::text::{chars_of, rfind_char, rfind_char_before, slice_string};

verus! {

/// A coarse grouping of changed paths.
#[derive(PartialEq, Eq, Structural, Debug, Clone, Copy)]
pub enum Category {
    Test,
    Default,
}

/// The output record.
pub struct Change {
    pub repo: String,
    pub sha: String,
    pub author: String,
    pub timestamp: String,
    pub path: String,
    pub ext: Option<String>,
    pub category: Category,
    pub additions: usize,
    pub deletions: usize,
}

/// A change record as plain values.
pub struct ChangeView {
    pub repo: Seq<char>,
    pub sha: Seq<char>,
    pub author: Seq<char>,
    pub timestamp: Seq<char>,
    pub path: Seq<char>,
    pub ext: Option<Seq<char>>,
    pub category: Category,
    pub additions: nat,
    pub deletions: nat,
}

impl View for Change {
    type V = ChangeView;

    open spec fn view(&self) -> ChangeView {
        ChangeView {
            repo: self.repo@,
            sha: self.sha@,
            author: self.author@,
            timestamp: self.timestamp@,
            path: self.path@,
            ext: match self.ext {
                Some(e) => Some(e@),
                None => None,
            },
            category: self.category,
            additions: self.additions as nat,
            deletions: self.deletions as nat,
        }
    }
}

/// `test` starts at index `i`.
pub open spec fn test_at(s: Seq<char>, i: int) -> bool {
    0 <= i && i + 4 <= s.len() && s[i] == 't' && s[i + 1] == 'e' && s[i + 2] == 's' && s[i + 3]
        == 't'
}

/// `test` occurs somewhere in `s`.
pub open spec fn contains_test(s: Seq<char>) -> bool {
    exists|i: int| #[trigger] test_at(s, i)
}

/// Test when the path contains `test` (case-sensitive), Default otherwise.
pub open spec fn category_of(path: Seq<char>) -> Category {
    if contains_test(path) {
        Category::Test
    } else {
        Category::Default
    }
}

/// The text after the last `.` of the last `/`-separated component, unless that component
/// has no `.` or only a leading one.
pub open spec fn extension_of(path: Seq<char>) -> Option<Seq<char>> {
    let start = rfind_char(path, '/', path.len() as int) + 1;
    let dot = rfind_char(path, '.', path.len() as int);
    if dot > start {
        Some(path.subrange(dot + 1, path.len() as int))
    } else {
        None
    }
}

/// The record that `repo`, a header's fields and a statistics line's fields make.
pub open spec fn change_of(
    repo: Seq<char>,
    h: (Seq<char>, Seq<char>, Seq<char>),
    p: (nat, nat, Seq<char>),
) -> ChangeView {
    ChangeView {
        repo,
        sha: h.0,
        author: h.1,
        timestamp: h.2,
        path: p.2,
        ext: extension_of(p.2),
        category: category_of(p.2),
        additions: p.0,
        deletions: p.1,
    }
}

impl Change {
    pub fn categorize(path: &str) -> (r: Category)
        ensures
            r == category_of(path@),
    {
        let cs = chars_of(path);
        let n = cs.len();
        let mut i: usize = 0;
        while n >= 4 && i <= n - 4
            invariant
                n == cs@.len(),
                i <= n,
                cs@ == path@,
                forall|u: int| 0 <= u < i ==> !#[trigger] test_at(cs@, u),
            decreases n - i,
        {
            if cs[i] == 't' && cs[i + 1] == 'e' && cs[i + 2] == 's' && cs[i + 3] == 't' {
                assert(test_at(cs@, i as int));
                return Category::Test;
            }
            i += 1;
        }
        Category::Default
    }
}

/// The extension of a path; see `extension_of`.
pub fn extension(path: &str) -> (r: Option<String>)
    ensures
        match r {
            Some(e) => extension_of(path@) == Some(e@),
            None => extension_of(path@) is None,
        },
{
    let cs = chars_of(path);
    let n = cs.len();
    let start: usize = match rfind_char_before(&cs, '/', n) {
        Some(k) => k + 1,
        None => 0,
    };
    match rfind_char_before(&cs, '.', n) {
        Some(dot) => {
            if dot > start {
                Some(slice_string(path, dot + 1, n))
            } else {
                None
            }
        },
        None => None,
    }
}

/// Combines the run's repository label, a header and a statistics line into one record.
pub fn assemble(repo: String, header: Header, stat: PathStat) -> (r: Change)
    ensures
        r@ == change_of(
            repo@,
            (header.sha@, header.author@, header.timestamp@),
            (stat.additions as nat, stat.deletions as nat, stat.path@),
        ),
{
    let category = Change::categorize(stat.path.as_str());
    let ext = extension(stat.path.as_str());
    Change {
        repo,
        sha: header.sha,
        author: header.author,
        timestamp: header.timestamp,
        path: stat.path,
        ext,
        category,
        additions: stat.additions,
        deletions: stat.deletions,
    }
}

} // verus!
