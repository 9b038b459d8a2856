//! The sandbox: a list of canonical root directories, and the containment
//! decisions made against it. Canonicalisation and metadata reads are I/O; the
//! caller performs them and hands their outcomes in.

use vstd::prelude::*;
use crate::fs::path::{path_starts_with, starts_with};

verus! {

/// What was learnt about one configured root: its canonical form (`None` when
/// it could not be canonicalised) and whether it is a directory (`None` when its
/// metadata could not be read).
pub struct RootProbe {
    pub root: String,
    pub canonical: Option<String>,
    pub is_dir: Option<bool>,
}

/// Errors of the sandbox operations; each names the path it is about.
pub enum SandboxError {
    CannotCanonicalizeRoot(String),
    RootMetadataUnreadable(String),
    RootNotDirectory(String),
    CannotCanonicalize(String),
    OutsideRoots(String),
}

pub enum SandboxErrorModel {
    CannotCanonicalizeRoot(Seq<char>),
    RootMetadataUnreadable(Seq<char>),
    RootNotDirectory(Seq<char>),
    CannotCanonicalize(Seq<char>),
    OutsideRoots(Seq<char>),
}

impl View for SandboxError {
    type V = SandboxErrorModel;

    open spec fn view(&self) -> SandboxErrorModel {
        match self {
            SandboxError::CannotCanonicalizeRoot(s) => SandboxErrorModel::CannotCanonicalizeRoot(s@),
            SandboxError::RootMetadataUnreadable(s) => SandboxErrorModel::RootMetadataUnreadable(s@),
            SandboxError::RootNotDirectory(s) => SandboxErrorModel::RootNotDirectory(s@),
            SandboxError::CannotCanonicalize(s) => SandboxErrorModel::CannotCanonicalize(s@),
            SandboxError::OutsideRoots(s) => SandboxErrorModel::OutsideRoots(s@),
        }
    }
}

pub open spec fn error_message(e: SandboxErrorModel) -> Seq<char> {
    match e {
        SandboxErrorModel::CannotCanonicalizeRoot(r) => "Could use path '"@ + r
            + "'. Please check if path is correct"@,
        SandboxErrorModel::RootMetadataUnreadable(r) => "Could not read metadata for root '"@ + r
            + "'"@,
        SandboxErrorModel::RootNotDirectory(r) => "Root path '"@ + r + "' is not a directory"@,
        SandboxErrorModel::CannotCanonicalize(p) => "Could not canonicalize path '"@ + p + "'"@,
        SandboxErrorModel::OutsideRoots(p) => "Path '"@ + p + "' is outside sandbox roots"@,
    }
}

fn concat3(a: &str, b: &str, c: &str) -> (r: String)
    ensures
        r@ == a@ + b@ + c@,
{
    let mut r = a.to_owned();
    r.append(b);
    r.append(c);
    r
}

impl SandboxError {
    /// The human-readable message of the error.
    pub fn message(&self) -> (m: String)
        ensures
            m@ == error_message(self@),
    {
        match self {
            SandboxError::CannotCanonicalizeRoot(r) => concat3(
                "Could use path '",
                r.as_str(),
                "'. Please check if path is correct",
            ),
            SandboxError::RootMetadataUnreadable(r) => concat3(
                "Could not read metadata for root '",
                r.as_str(),
                "'",
            ),
            SandboxError::RootNotDirectory(r) => concat3(
                "Root path '",
                r.as_str(),
                "' is not a directory",
            ),
            SandboxError::CannotCanonicalize(p) => concat3(
                "Could not canonicalize path '",
                p.as_str(),
                "'",
            ),
            SandboxError::OutsideRoots(p) => concat3(
                "Path '",
                p.as_str(),
                "' is outside sandbox roots",
            ),
        }
    }
}

/// The probe is of a usable root: canonicalised, and a directory.
pub open spec fn probe_ok(p: RootProbe) -> bool {
    p.canonical is Some && p.is_dir == Some(true)
}

/// The error for a failed probe.
pub open spec fn probe_error(p: RootProbe) -> SandboxErrorModel {
    if p.canonical is None {
        SandboxErrorModel::CannotCanonicalizeRoot(p.root@)
    } else if p.is_dir is None {
        SandboxErrorModel::RootMetadataUnreadable(p.root@)
    } else {
        SandboxErrorModel::RootNotDirectory(p.root@)
    }
}

pub struct Sandbox {
    roots: Vec<String>,
}

impl Sandbox {
    /// The canonical root directories.
    pub closed spec fn roots_view(&self) -> Seq<Seq<char>> {
        self.roots@.map_values(|r: String| r@)
    }

    /// `p` lies in one of the roots (component-wise).
    pub open spec fn contains_spec(&self, p: Seq<char>) -> bool {
        exists|i: int| 0 <= i < self.roots_view().len() && path_starts_with(p, #[trigger] self.roots_view()[i])
    }

    /// Builds the sandbox from the probes of the configured roots, in order. The
    /// first probe that failed decides the error; otherwise the roots are the
    /// canonical forms.
    pub fn new(probes: Vec<RootProbe>) -> (r: Result<Sandbox, SandboxError>)
        ensures
            match r {
                Ok(s) => (forall|i: int| 0 <= i < probes@.len() ==> #[trigger] probe_ok(probes@[i]))
                    && s.roots_view() == probes@.map_values(|p: RootProbe| p.canonical.unwrap()@),
                Err(e) => exists|i: int|
                    0 <= i < probes@.len() && !probe_ok(#[trigger] probes@[i]) && (forall|j: int|
                        0 <= j < i ==> probe_ok(#[trigger] probes@[j])) && e@ == probe_error(
                        probes@[i],
                    ),
            },
    {
        let mut roots: Vec<String> = Vec::new();
        let ghost ps = probes@;
        for i in 0..probes.len()
            invariant
                ps == probes@,
                forall|k: int| 0 <= k < i ==> #[trigger] probe_ok(ps[k]),
                roots@.map_values(|r: String| r@) == ps.take(i as int).map_values(
                    |p: RootProbe| p.canonical.unwrap()@,
                ),
        {
            let p = &probes[i];
            match &p.canonical {
                None => {
                    assert(!probe_ok(ps[i as int]));
                    return Err(SandboxError::CannotCanonicalizeRoot(p.root.clone()));
                },
                Some(c) => {
                    match p.is_dir {
                        None => {
                            assert(!probe_ok(ps[i as int]));
                            return Err(SandboxError::RootMetadataUnreadable(p.root.clone()));
                        },
                        Some(false) => {
                            assert(!probe_ok(ps[i as int]));
                            return Err(SandboxError::RootNotDirectory(p.root.clone()));
                        },
                        Some(true) => {
                            let ghost before = roots@.map_values(|r: String| r@);
                            let cc = c.clone();
                            assert(cc@ == ps[i as int].canonical.unwrap()@);
                            roots.push(cc);
                            assert(roots@.map_values(|r: String| r@) =~= before.push(cc@));
                            assert(ps.take(i + 1).drop_last() == ps.take(i as int));
                            assert(roots@.map_values(|r: String| r@) =~= ps.take(i + 1).map_values(
                                |p: RootProbe| p.canonical.unwrap()@,
                            ));
                        },
                    }
                },
            }
        }
        assert(ps.take(probes.len() as int) == ps);
        Ok(Sandbox { roots })
    }

    /// The canonical root directories, as text.
    pub fn get_roots(&self) -> (r: Vec<String>)
        ensures
            r@.map_values(|s: String| s@) == self.roots_view(),
    {
        self.roots.clone()
    }

    /// Whether the canonical path `canon` lies in one of the roots.
    pub fn contains(&self, canon: &str) -> (r: bool)
        ensures
            r == self.contains_spec(canon@),
    {
        for i in 0..self.roots.len()
            invariant
                forall|j: int| 0 <= j < i ==> !path_starts_with(canon@, #[trigger] self.roots_view()[j]),
        {
            assert(self.roots_view()[i as int] == self.roots@[i as int]@);
            if starts_with(canon, self.roots[i].as_str()) {
                return true;
            }
        }
        false
    }

    /// Resolves `path`, whose canonical form is `canonical` (`None` when it could
    /// not be canonicalised): the canonical path when it lies in a root.
    pub fn resolve_path(&self, path: &str, canonical: Option<String>) -> (r: Result<String, SandboxError>)
        ensures
            match canonical {
                None => r matches Err(e) && e@ == SandboxErrorModel::CannotCanonicalize(path@),
                Some(c) => if self.contains_spec(c@) {
                    r matches Ok(p) && p@ == c@
                } else {
                    r matches Err(e) && e@ == SandboxErrorModel::OutsideRoots(path@)
                },
            },
    {
        match canonical {
            None => Err(SandboxError::CannotCanonicalize(path.to_owned())),
            Some(c) => {
                if self.contains(c.as_str()) {
                    Ok(c)
                } else {
                    Err(SandboxError::OutsideRoots(path.to_owned()))
                }
            },
        }
    }
}

/// The first canonicalised ancestor, if any.
pub open spec fn first_resolved(rs: Seq<Option<String>>) -> Option<Seq<char>>
    decreases rs.len(),
{
    if rs.len() == 0 {
        None
    } else {
        match rs[0] {
            Some(c) => Some(c@),
            None => first_resolved(rs.drop_first()),
        }
    }
}

impl Sandbox {
    /// Decides whether a new folder may be created at a path, given the
    /// canonicalisation outcomes of its ancestors, nearest first: the nearest
    /// ancestor that exists must lie in a root.
    pub fn check_new_folders(&self, resolved_ancestors: &[Option<String>]) -> (r: bool)
        ensures
            r == match first_resolved(resolved_ancestors@) {
                Some(c) => self.contains_spec(c),
                None => false,
            },
    {
        let ghost all = resolved_ancestors@;
        assert(all.skip(0) == all);
        for i in 0..resolved_ancestors.len()
            invariant
                all == resolved_ancestors@,
                first_resolved(all.skip(i as int)) == first_resolved(all),
        {
            assert(all.skip(i as int)[0] == all[i as int]);
            assert(all.skip(i as int).drop_first() == all.skip(i + 1));
            match &resolved_ancestors[i] {
                Some(c) => {
                    return self.contains(c.as_str());
                },
                None => {},
            }
        }
        assert(all.skip(all.len() as int).len() == 0);
        false
    }
}

} // verus!
