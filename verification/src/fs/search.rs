//! File search by glob patterns and directory listings. Walking the tree and
//! reading directories are I/O; the caller hands in what it found.

use vstd::prelude::*;
use crate::text::{chars_of, lowercase, sort_strings, sorted_lex, string_of, string_views, to_lowercase};

verus! {

#[verifier::external_type_specification]
#[verifier::external_body]
pub struct ExGlob(globset::Glob);

#[verifier::external_type_specification]
#[verifier::external_body]
pub struct ExGlobSet(globset::GlobSet);

/// Whether `globset::Glob::new` accepts `pattern`.
pub uninterp spec fn glob_valid(pattern: Seq<char>) -> bool;

/// Whether `globset::GlobSet::new` builds a set from the globs of `patterns`.
pub uninterp spec fn glob_set_builds(patterns: Seq<Seq<char>>) -> bool;

/// Whether the glob of `pattern` matches `path`.
pub uninterp spec fn glob_matches(pattern: Seq<char>, path: Seq<char>) -> bool;

/// A glob and the pattern text it was parsed from (`compile` is the only
/// constructor).
pub struct CompiledGlob {
    source: String,
    glob: globset::Glob,
}

impl CompiledGlob {
    pub closed spec fn source(&self) -> Seq<char> {
        self.source@
    }

    /// Parses `pattern` with `globset::Glob::new`.
    /// Trusted: present exactly when `glob_valid(pattern)`, remembering `pattern`.
    #[verifier::external_body]
    fn compile(pattern: &str) -> (r: Option<CompiledGlob>)
        ensures
            r is Some <==> glob_valid(pattern@),
            r matches Some(g) ==> g.source() == pattern@,
    {
        match globset::Glob::new(pattern) {
            Ok(glob) => Some(CompiledGlob { source: pattern.to_string(), glob }),
            Err(_) => None,
        }
    }
}

/// A set of globs matched together, with the pattern texts of its members
/// (`build` is the only constructor).
pub struct GlobList {
    sources: Vec<String>,
    set: globset::GlobSet,
}

pub open spec fn glob_sources(globs: Seq<CompiledGlob>) -> Seq<Seq<char>> {
    globs.map_values(|g: CompiledGlob| g.source())
}

impl GlobList {
    pub closed spec fn sources(&self) -> Seq<Seq<char>> {
        self.sources@.map_values(|s: String| s@)
    }

    /// Some member glob matches `path`.
    pub open spec fn matches_spec(&self, path: Seq<char>) -> bool {
        exists|i: int| 0 <= i < self.sources().len() && glob_matches(#[trigger] self.sources()[i], path)
    }

    /// Builds the set with `globset::GlobSet::new`.
    /// Trusted: present exactly when `glob_set_builds(sources)` (which the source
    /// shows for an empty list), and then its members are those globs.
    #[verifier::external_body]
    fn build(globs: Vec<CompiledGlob>) -> (r: Option<GlobList>)
        ensures
            r is Some <==> glob_set_builds(glob_sources(globs@)),
            globs@.len() == 0 ==> r is Some,
            r matches Some(l) ==> l.sources() == glob_sources(globs@),
    {
        let sources = globs.iter().map(|g| g.source.clone()).collect();
        match globset::GlobSet::new(globs.iter().map(|g| &g.glob)) {
            Ok(set) => Some(GlobList { sources, set }),
            Err(_) => None,
        }
    }

    /// Runs `globset::GlobSet::is_match` on `path`.
    /// Trusted: true exactly when some member glob matches (as its documentation
    /// states).
    #[verifier::external_body]
    pub(crate) fn is_match(&self, path: &str) -> (r: bool)
        ensures
            r == (exists|i: int|
                0 <= i < self.sources().len() && glob_matches(#[trigger] self.sources()[i], path@)),
    {
        self.set.is_match(path)
    }
}

/// Why the search patterns could not be built.
pub enum PatternError {
    InvalidPattern(String),
    InvalidExclude(String),
    PatternSetFailed,
    ExcludeSetFailed,
}

/// The search glob and the exclude globs of a search.
pub struct Patterns {
    pub wanted: GlobList,
    pub unwanted: GlobList,
}

impl Patterns {
    /// A file name is selected when the search glob matches it and no exclude
    /// glob does.
    pub open spec fn selects_spec(&self, name: Seq<char>) -> bool {
        self.wanted.matches_spec(name) && !self.unwanted.matches_spec(name)
    }

    pub fn selects(&self, name: &str) -> (r: bool)
        ensures
            r == self.selects_spec(name@),
    {
        self.wanted.is_match(name) && !self.unwanted.is_match(name)
    }
}

pub open spec fn lowered(ps: Seq<String>) -> Seq<Seq<char>> {
    ps.map_values(|p: String| lowercase(p@))
}

/// The index of the first exclude pattern whose lowercase form is no valid glob.
pub open spec fn first_invalid(ps: Seq<Seq<char>>, i: int) -> bool {
    0 <= i < ps.len() && !glob_valid(ps[i]) && forall|j: int| 0 <= j < i ==> glob_valid(#[trigger] ps[j])
}

/// Builds the lowercase search glob and the lowercase exclude globs. The
/// search glob is parsed first, then the excludes in order, then the search
/// set and the exclude set are built; the first failure is reported.
pub fn build_patterns(pattern: &str, exclude_patterns: Vec<String>) -> (r: Result<Patterns, PatternError>)
    ensures
        match r {
            Ok(p) => {
                &&& glob_valid(lowercase(pattern@))
                &&& forall|i: int| 0 <= i < exclude_patterns@.len() ==> glob_valid(#[trigger] lowered(exclude_patterns@)[i])
                &&& p.wanted.sources() == seq![lowercase(pattern@)]
                &&& p.unwanted.sources() == lowered(exclude_patterns@)
            },
            Err(PatternError::InvalidPattern(s)) => s@ == pattern@ && !glob_valid(lowercase(pattern@)),
            Err(PatternError::InvalidExclude(s)) => glob_valid(lowercase(pattern@)) && exists|i: int|
                first_invalid(lowered(exclude_patterns@), i) && s@ == exclude_patterns@[i]@,
            Err(PatternError::PatternSetFailed) => {
                &&& glob_valid(lowercase(pattern@))
                &&& forall|i: int| 0 <= i < exclude_patterns@.len() ==> glob_valid(#[trigger] lowered(exclude_patterns@)[i])
                &&& !glob_set_builds(seq![lowercase(pattern@)])
            },
            Err(PatternError::ExcludeSetFailed) => {
                &&& glob_valid(lowercase(pattern@))
                &&& forall|i: int| 0 <= i < exclude_patterns@.len() ==> glob_valid(#[trigger] lowered(exclude_patterns@)[i])
                &&& glob_set_builds(seq![lowercase(pattern@)])
                &&& !glob_set_builds(lowered(exclude_patterns@))
            },
        },
        (glob_valid(lowercase(pattern@)) && (forall|i: int| 0 <= i < exclude_patterns@.len() ==> glob_valid(#[trigger] lowered(exclude_patterns@)[i]))
            && glob_set_builds(seq![lowercase(pattern@)]) && glob_set_builds(lowered(exclude_patterns@))) ==> r is Ok,
{
    let inc_text = to_lowercase(pattern);
    let inc = match CompiledGlob::compile(inc_text.as_str()) {
        Some(g) => g,
        None => {
            return Err(PatternError::InvalidPattern(pattern.to_owned()));
        },
    };
    assert(glob_valid(lowercase(pattern@)));
    let ghost lows = lowered(exclude_patterns@);
    let mut excludes: Vec<CompiledGlob> = Vec::new();
    for i in 0..exclude_patterns.len()
        invariant
            lows == lowered(exclude_patterns@),
            glob_valid(lowercase(pattern@)),
            excludes.len() == i,
            glob_sources(excludes@) == lows.take(i as int),
            forall|j: int| 0 <= j < i ==> glob_valid(#[trigger] lows[j]),
    {
        let low = to_lowercase(exclude_patterns[i].as_str());
        assert(low@ == lows[i as int]);
        match CompiledGlob::compile(low.as_str()) {
            Some(g) => {
                let ghost before = glob_sources(excludes@);
                excludes.push(g);
                assert(glob_sources(excludes@) =~= lows.take(i + 1));
            },
            None => {
                assert(first_invalid(lows, i as int));
                let e = exclude_patterns[i].clone();
                assert(e@ == exclude_patterns@[i as int]@);
                return Err(PatternError::InvalidExclude(e));
            },
        }
    }
    assert(lows.take(exclude_patterns.len() as int) == lows);
    let ghost inc_src = inc.source();
    let mut incs: Vec<CompiledGlob> = Vec::new();
    incs.push(inc);
    assert(glob_sources(incs@) =~= seq![inc_src]);
    let wanted = match GlobList::build(incs) {
        Some(l) => l,
        None => {
            return Err(PatternError::PatternSetFailed);
        },
    };
    let unwanted = match GlobList::build(excludes) {
        Some(l) => l,
        None => {
            return Err(PatternError::ExcludeSetFailed);
        },
    };
    Ok(Patterns { wanted, unwanted })
}

/// A tree entry met by the search walk: whether it is a regular file, its file
/// name, its path, and the names of the directories between the search root
/// and the entry (outermost first; the root itself is not among them).
pub struct WalkEntry {
    pub is_file: bool,
    pub file_name: String,
    pub path: String,
    pub dirs: Vec<String>,
}

impl Patterns {
    /// Some exclude glob matches the lowercase name of one of `dirs`.
    pub open spec fn excludes_some_dir(&self, dirs: Seq<String>) -> bool {
        exists|i: int| 0 <= i < dirs.len() && self.unwanted.matches_spec(lowercase((#[trigger] dirs[i])@))
    }

    /// An entry is selected when it is a regular file, the search glob matches
    /// its lowercase name, and no exclude glob matches that name or the name of
    /// a directory on its way down from the search root.
    pub open spec fn entry_selected(&self, e: WalkEntry) -> bool {
        e.is_file && self.selects_spec(lowercase(e.file_name@)) && !self.excludes_some_dir(e.dirs@)
    }

    /// Whether some exclude glob matches the lowercase name of one of `dirs`.
    pub fn excludes_dir(&self, dirs: &Vec<String>) -> (r: bool)
        ensures
            r == self.excludes_some_dir(dirs@),
    {
        for i in 0..dirs.len()
            invariant
                forall|j: int| 0 <= j < i ==> !self.unwanted.matches_spec(lowercase((#[trigger] dirs@[j])@)),
        {
            let name = to_lowercase(dirs[i].as_str());
            if self.unwanted.is_match(name.as_str()) {
                return true;
            }
        }
        false
    }
}

/// The paths of the selected entries, in walk order.
pub open spec fn selected_paths(p: Patterns, entries: Seq<WalkEntry>) -> Seq<Seq<char>>
    decreases entries.len(),
{
    if entries.len() == 0 {
        Seq::empty()
    } else {
        let init = selected_paths(p, entries.drop_last());
        let e = entries.last();
        if p.entry_selected(e) {
            init.push(e.path@)
        } else {
            init
        }
    }
}

impl Patterns {
    /// The paths of the selected files, sorted.
    pub fn select_files(&self, entries: Vec<WalkEntry>) -> (r: Vec<String>)
        ensures
            sorted_lex(string_views(r@)),
            string_views(r@).to_multiset() == selected_paths(*self, entries@).to_multiset(),
    {
        let mut found: Vec<String> = Vec::new();
        for i in 0..entries.len()
            invariant
                string_views(found@) == selected_paths(*self, entries@.take(i as int)),
        {
            assert(entries@.take(i + 1).drop_last() == entries@.take(i as int));
            let e = &entries[i];
            if e.is_file {
                let name = to_lowercase(e.file_name.as_str());
                if self.selects(name.as_str()) && !self.excludes_dir(&e.dirs) {
                    let ghost before = string_views(found@);
                    found.push(e.path.clone());
                    assert(string_views(found@) =~= before.push(e.path@));
                }
            }
        }
        assert(entries@.take(entries.len() as int) == entries@);
        sort_strings(found)
    }
}

/// A directory entry: its name and whether it is a directory.
pub struct DirEntryInfo {
    pub name: String,
    pub is_dir: bool,
}

/// How a directory entry is listed: directories get a trailing `/`.
pub open spec fn listed_name(e: DirEntryInfo) -> Seq<char> {
    if e.is_dir {
        e.name@.push('/')
    } else {
        e.name@
    }
}

/// The listing of a directory: every entry's listed name, sorted.
pub fn format_listing(entries: Vec<DirEntryInfo>) -> (r: Vec<String>)
    ensures
        sorted_lex(string_views(r@)),
        string_views(r@).to_multiset() == entries@.map_values(|e: DirEntryInfo| listed_name(e)).to_multiset(),
{
    let mut names: Vec<String> = Vec::new();
    let ghost want = entries@.map_values(|e: DirEntryInfo| listed_name(e));
    for i in 0..entries.len()
        invariant
            want == entries@.map_values(|e: DirEntryInfo| listed_name(e)),
            string_views(names@) == want.take(i as int),
    {
        let mut n = chars_of(entries[i].name.as_str());
        if entries[i].is_dir {
            n.push('/');
        }
        let s = string_of(n.as_slice());
        assert(want[i as int] == listed_name(entries@[i as int]));
        assert(s@ == want[i as int]);
        let ghost before = string_views(names@);
        names.push(s);
        assert(string_views(names@) =~= before.push(s@));
        assert(want.take(i + 1) =~= want.take(i as int).push(want[i as int]));
    }
    assert(want.take(entries.len() as int) == want);
    sort_strings(names)
}

} // verus!
