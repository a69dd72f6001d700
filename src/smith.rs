//! The git loader: which declared keys it claims, the remote it fetches from, the
//! version lock it resolves to, and the decisions taken while materializing a package.
use vstd::prelude::*;
use crate::text::{
    cut_at, first_pos, rsplit_once, rsplit_once_char, same_text, split_once, split_once_char,
};

verus! {

/// Why resolving a declared package failed.
#[derive(Debug, Clone, Copy, PartialEq, Eq, Structural)]
pub enum ResolveCause {
    /// No loader claims the declared key.
    NoLoaderFound,
    /// The key names a loader's scheme but its path is not in the loader's form.
    MalformedKey,
    /// More than one of tag, branch and commit was set.
    MultipleLocks,
    /// The remote could not be reached, or the locked ref does not exist there.
    Remote,
}

/// An error that can occur when resolving a package: the offending declared key and the cause.
#[derive(Debug, Clone)]
pub struct ResolveError {
    pub key: String,
    pub cause: ResolveCause,
}

/// Why materializing a package failed.
#[derive(Debug, Clone, Copy, PartialEq, Eq, Structural)]
pub enum LoadCause {
    /// The descriptor was produced by another loader than the one invoked.
    WrongLoader,
    /// Clone, fetch or checkout failed.
    Git,
}

/// An error that can occur when loading a package: the package's name and the cause.
#[derive(Debug, Clone)]
pub struct LoadError {
    pub name: String,
    pub cause: LoadCause,
}

/// The way to clone a git repository.
#[derive(Debug, Clone, Copy, PartialEq, Eq, Structural)]
pub enum CloneType {
    /// Clone using the ssh protocol
    Ssh,
    /// Clone using the https protocol
    Https,
}

impl Default for CloneType {
    fn default() -> (r: CloneType)
        ensures
            r == CloneType::Https,
    {
        CloneType::Https
    }
}

/// The git loader.
#[derive(Debug, Clone, Copy)]
pub struct Git {
    /// The method to use when cloning the repository
    pub clone_type: CloneType,
}

/// The lock a git package is resolved against.
#[derive(Debug, Clone, PartialEq, Eq)]
pub enum LockType {
    /// Lock to a specific tag
    Tag(String),
    /// Lock to a specific commit
    Commit(String),
    /// Lock to a specific branch
    Branch(String),
    /// Lock to the default branch
    Default,
}

/// The lock as plain values.
pub enum LockModel {
    Tag(Seq<char>),
    Commit(Seq<char>),
    Branch(Seq<char>),
    Default,
}

impl View for LockType {
    type V = LockModel;

    open spec fn view(&self) -> LockModel {
        match self {
            LockType::Tag(t) => LockModel::Tag(t@),
            LockType::Commit(c) => LockModel::Commit(c@),
            LockType::Branch(b) => LockModel::Branch(b@),
            LockType::Default => LockModel::Default,
        }
    }
}

/// The locked reference the git loader resolves a package to: a commit and the remote
/// that holds it.
#[derive(Debug, Clone)]
pub struct LoaderType {
    /// The commit hash to lock to
    pub commit_hash: String,
    /// The remote to use
    pub remote: String,
}

/// What the installer sees of a package directory before it materializes a descriptor there.
#[derive(Debug, Clone)]
pub enum RepoState {
    /// Nothing exists at the target path.
    Absent,
    /// A repository exists: its checked-out commit, if any, and whether the locked
    /// commit is present in its object store.
    Present { head: Option<String>, has_commit: bool },
}

/// The next step of materializing a descriptor.
#[derive(Debug, Clone, Copy, PartialEq, Eq, Structural)]
pub enum MaterializeStep {
    /// Clone the remote into the (absent) target path.
    Clone,
    /// Fetch the locked commit from the remote.
    Fetch,
    /// Reset the work tree hard to the locked commit.
    Reset,
    /// The work tree is at the locked commit.
    Done,
}

/// Whether a declared key starts with one of the git loader's schemes and a colon.
pub open spec fn has_known_scheme(key: Seq<char>) -> bool {
    match split_once(key, ':') {
        None => false,
        Some(p) => p.0 == "git"@ || p.0 == "github"@ || p.0 == "gitlab"@ || p.0 == "srht"@,
    }
}

/// The bare install name that the git loader derives from a declared key, if it claims it.
pub open spec fn package_name_of(key: Seq<char>) -> Option<Seq<char>> {
    match split_once(key, ':') {
        None => None,
        Some(p) => if p.0 == "git"@ {
            match rsplit_once(p.1, '/') {
                Some(q) => Some(q.1),
                None => None,
            }
        } else if p.0 == "github"@ || p.0 == "gitlab"@ || p.0 == "srht"@ {
            match split_once(p.1, '/') {
                Some(q) => Some(q.1),
                None => None,
            }
        } else {
            None
        },
    }
}

/// The remote URL of a declared key, for the given clone type; `None` for a key of no
/// known scheme, or a `git` key over https whose path has no host.
pub open spec fn remote_url_of(clone_type: CloneType, key: Seq<char>) -> Option<Seq<char>> {
    match split_once(key, ':') {
        None => None,
        Some(p) => {
            let path = p.1;
            if p.0 == "git"@ {
                match clone_type {
                    CloneType::Ssh => Some("git@"@ + path + ".git"@),
                    CloneType::Https => match split_once(path, ':') {
                        Some(q) => Some("https://"@ + q.0 + "/"@ + q.1 + ".git"@),
                        None => None,
                    },
                }
            } else if p.0 == "github"@ {
                match clone_type {
                    CloneType::Ssh => Some("git@github.com:"@ + path + ".git"@),
                    CloneType::Https => Some("https://github.com/"@ + path + ".git"@),
                }
            } else if p.0 == "gitlab"@ {
                match clone_type {
                    CloneType::Ssh => Some("git@gitlab.com:"@ + path + ".git"@),
                    CloneType::Https => Some("https://gitlab.com/"@ + path + ".git"@),
                }
            } else if p.0 == "srht"@ {
                match clone_type {
                    CloneType::Ssh => Some("git@git.sr.ht:"@ + path),
                    CloneType::Https => Some("https://git.sr.ht/"@ + path),
                }
            } else {
                None
            }
        },
    }
}

/// The lock that a version locator `<kind>:<value>` asks for; an absent field, or a kind
/// other than tag, commit and branch, locks to the default branch.
pub open spec fn lock_of(version: Option<Seq<char>>) -> LockModel {
    match version {
        None => LockModel::Default,
        Some(v) => match split_once(v, ':') {
            None => LockModel::Default,
            Some(p) => if p.0 == "tag"@ {
                LockModel::Tag(p.1)
            } else if p.0 == "commit"@ {
                LockModel::Commit(p.1)
            } else if p.0 == "branch"@ {
                LockModel::Branch(p.1)
            } else {
                LockModel::Default
            },
        },
    }
}

/// The refspec fetched for a lock; the default branch has none until the remote names it.
pub open spec fn refspec_of(lock: LockModel) -> Option<Seq<char>> {
    match lock {
        LockModel::Tag(t) => Some("refs/tags/"@ + t + ":refs/tags/"@ + t),
        LockModel::Commit(c) => Some("refs/heads/"@ + c + ":refs/heads/"@ + c),
        LockModel::Branch(b) => Some("refs/heads/"@ + b + ":refs/heads/"@ + b),
        LockModel::Default => None,
    }
}

/// The lock chosen from the three kinds a spec may set: at most one may be set.
pub open spec fn select_lock_of(
    tag: Option<Seq<char>>,
    branch: Option<Seq<char>>,
    commit: Option<Seq<char>>,
) -> Option<LockModel> {
    let n = (if tag is Some { 1int } else { 0 }) + (if branch is Some { 1int } else { 0 }) + (
    if commit is Some { 1int } else { 0 });
    if n > 1 {
        None
    } else if tag is Some {
        Some(LockModel::Tag(tag->0))
    } else if branch is Some {
        Some(LockModel::Branch(branch->0))
    } else if commit is Some {
        Some(LockModel::Commit(commit->0))
    } else {
        Some(LockModel::Default)
    }
}

/// The next step of materializing a commit into a directory in the given state.
pub open spec fn materialize_step_of(state: RepoState, commit: Seq<char>) -> MaterializeStep {
    match state {
        RepoState::Absent => MaterializeStep::Clone,
        RepoState::Present { head, has_commit } => {
            if head is Some && head->0@ == commit {
                MaterializeStep::Done
            } else if has_commit {
                MaterializeStep::Reset
            } else {
                MaterializeStep::Fetch
            }
        },
    }
}

fn owned(s: &str) -> (r: String)
    ensures
        r@ == s@,
{
    s.to_owned()
}

fn join3(a: &str, b: &str, c: &str) -> (r: String)
    ensures
        r@ == a@ + b@ + c@,
{
    owned(a).concat(b).concat(c)
}

impl Git {
    /// Create a new git smith with the default clone type
    pub fn new() -> (r: Git)
        ensures
            r.clone_type == CloneType::Https,
    {
        Git::new_with_type(CloneType::default())
    }

    /// Create a new git smith with the given clone type
    pub fn new_with_type(clone_type: CloneType) -> (r: Git)
        ensures
            r.clone_type == clone_type,
    {
        Git { clone_type }
    }

    /// The loader's name, as recorded in each plugin it resolves.
    pub fn name(&self) -> (r: String)
        ensures
            r@ == "git"@,
    {
        owned("git")
    }

    /// The bare install name a declared key implies, or `None` if this loader does not
    /// claim the key.
    pub fn get_package_name(&self, name: &str) -> (r: Option<String>)
        ensures
            match r {
                Some(n) => package_name_of(name@) == Some(n@),
                None => package_name_of(name@) is None,
            },
    {
        match split_once_char(name, ':') {
            None => None,
            Some((scheme, path)) => {
                if same_text(scheme.as_str(), "git") {
                    match rsplit_once_char(path.as_str(), '/') {
                        Some((_, n)) => Some(n),
                        None => None,
                    }
                } else if same_text(scheme.as_str(), "github") || same_text(
                    scheme.as_str(),
                    "gitlab",
                ) || same_text(scheme.as_str(), "srht") {
                    match split_once_char(path.as_str(), '/') {
                        Some((_, n)) => Some(n),
                        None => None,
                    }
                } else {
                    None
                }
            },
        }
    }

    /// Whether this loader claims the declared key.
    pub fn claims(&self, name: &str) -> (r: bool)
        ensures
            r == package_name_of(name@) is Some,
    {
        self.get_package_name(name).is_some()
    }

    /// The remote URL a declared key is fetched from.
    pub fn remote_url(&self, key: &str) -> (r: Result<String, ResolveError>)
        ensures
            match r {
                Ok(u) => remote_url_of(self.clone_type, key@) == Some(u@),
                Err(e) => remote_url_of(self.clone_type, key@) is None && e.key@ == key@ && (
                if has_known_scheme(key@) {
                    e.cause == ResolveCause::MalformedKey
                } else {
                    e.cause == ResolveCause::NoLoaderFound
                }),
            },
    {
        let no_loader = ResolveError { key: owned(key), cause: ResolveCause::NoLoaderFound };
        let (scheme, path) = match split_once_char(key, ':') {
            None => return Err(no_loader),
            Some(p) => p,
        };
        let ssh = match self.clone_type {
            CloneType::Ssh => true,
            CloneType::Https => false,
        };
        let p = path.as_str();
        if same_text(scheme.as_str(), "git") {
            if ssh {
                Ok(join3("git@", p, ".git"))
            } else {
                match split_once_char(p, ':') {
                    Some((host, rest)) => Ok(
                        join3("https://", host.as_str(), "/").concat(rest.as_str()).concat(".git"),
                    ),
                    None => Err(ResolveError { key: owned(key), cause: ResolveCause::MalformedKey }),
                }
            }
        } else if same_text(scheme.as_str(), "github") {
            if ssh {
                Ok(join3("git@github.com:", p, ".git"))
            } else {
                Ok(join3("https://github.com/", p, ".git"))
            }
        } else if same_text(scheme.as_str(), "gitlab") {
            if ssh {
                Ok(join3("git@gitlab.com:", p, ".git"))
            } else {
                Ok(join3("https://gitlab.com/", p, ".git"))
            }
        } else if same_text(scheme.as_str(), "srht") {
            if ssh {
                Ok(owned("git@git.sr.ht:").concat(p))
            } else {
                Ok(owned("https://git.sr.ht/").concat(p))
            }
        } else {
            Err(no_loader)
        }
    }
}

/// The view of an optional string.
pub open spec fn opt_view(v: Option<String>) -> Option<Seq<char>> {
    match v {
        Some(s) => Some(s@),
        None => None,
    }
}

/// Parse a version locator `<kind>:<value>` into the lock it asks for.
pub fn parse_version(version: &Option<String>) -> (r: LockType)
    ensures
        r@ == lock_of(opt_view(*version)),
{
    let v = match version {
        None => return LockType::Default,
        Some(v) => v,
    };
    match split_once_char(v.as_str(), ':') {
        None => LockType::Default,
        Some((kind, value)) => {
            if same_text(kind.as_str(), "tag") {
                LockType::Tag(value)
            } else if same_text(kind.as_str(), "commit") {
                LockType::Commit(value)
            } else if same_text(kind.as_str(), "branch") {
                LockType::Branch(value)
            } else {
                LockType::Default
            }
        },
    }
}

/// Choose the lock of a package from the kinds it sets. Setting more than one is an
/// error: no kind takes precedence over another.
pub fn select_lock(
    key: &str,
    tag: Option<String>,
    branch: Option<String>,
    commit: Option<String>,
) -> (r: Result<LockType, ResolveError>)
    ensures
        match r {
            Ok(l) => select_lock_of(opt_view(tag), opt_view(branch), opt_view(commit)) == Some(
                l@,
            ),
            Err(e) => select_lock_of(opt_view(tag), opt_view(branch), opt_view(commit)) is None
                && e.key@ == key@ && e.cause == ResolveCause::MultipleLocks,
        },
{
    let n: u8 = (if tag.is_some() { 1u8 } else { 0u8 }) + (if branch.is_some() { 1u8 } else { 0u8 })
        + (if commit.is_some() { 1u8 } else { 0u8 });
    if n > 1 {
        return Err(ResolveError { key: owned(key), cause: ResolveCause::MultipleLocks });
    }
    match tag {
        Some(t) => return Ok(LockType::Tag(t)),
        None => {},
    }
    match branch {
        Some(b) => return Ok(LockType::Branch(b)),
        None => {},
    }
    match commit {
        Some(c) => Ok(LockType::Commit(c)),
        None => Ok(LockType::Default),
    }
}

/// The refspec to fetch for a lock; `None` for the default branch, whose name the
/// remote gives (see [`default_branch_refspec`]).
pub fn refspec(lock: &LockType) -> (r: Option<String>)
    ensures
        opt_view(r) == refspec_of(lock@),
{
    match lock {
        LockType::Tag(t) => Some(join3("refs/tags/", t.as_str(), ":refs/tags/").concat(t.as_str())),
        LockType::Commit(c) => Some(
            join3("refs/heads/", c.as_str(), ":refs/heads/").concat(c.as_str()),
        ),
        LockType::Branch(b) => Some(
            join3("refs/heads/", b.as_str(), ":refs/heads/").concat(b.as_str()),
        ),
        LockType::Default => None,
    }
}

/// The refspec that fetches the remote's default branch, given the name the remote
/// reports for it.
pub fn default_branch_refspec(branch: &str) -> (r: String)
    ensures
        r@ == branch@ + ":"@ + branch@,
{
    join3(branch, ":", branch)
}

/// Finish resolving a declared key from what the fetch gave: the commit that the fetched
/// head peels to, or `None` when the locked ref was not found or could not be fetched.
pub fn resolved_descriptor(key: &str, remote: String, fetched_commit: Option<String>) -> (r:
    Result<LoaderType, ResolveError>)
    ensures
        match fetched_commit {
            Some(c) => r matches Ok(d) && d.commit_hash@ == c@ && d.remote@ == remote@,
            None => r matches Err(e) && e.key@ == key@ && e.cause == ResolveCause::Remote,
        },
{
    match fetched_commit {
        Some(c) => Ok(LoaderType { commit_hash: c, remote }),
        None => Err(ResolveError { key: owned(key), cause: ResolveCause::Remote }),
    }
}

/// The next step of materializing a descriptor into a directory in the given state:
/// clone when nothing is there, nothing when the work tree is already at the locked
/// commit, a fetch only when the commit is missing locally, and otherwise a hard reset.
pub fn materialize_step(state: &RepoState, descriptor: &LoaderType) -> (r: MaterializeStep)
    ensures
        r == materialize_step_of(*state, descriptor.commit_hash@),
{
    match state {
        RepoState::Absent => MaterializeStep::Clone,
        RepoState::Present { head, has_commit } => {
            let at_commit = match head {
                Some(h) => same_text(h.as_str(), descriptor.commit_hash.as_str()),
                None => false,
            };
            if at_commit {
                MaterializeStep::Done
            } else if *has_commit {
                MaterializeStep::Reset
            } else {
                MaterializeStep::Fetch
            }
        },
    }
}

/// The last `/`-separated component of a path.
pub open spec fn last_segment(s: Seq<char>) -> Seq<char> {
    match rsplit_once(s, '/') {
        Some(p) => p.1,
        None => s,
    }
}

/// `s` without a trailing `.git`.
pub open spec fn strip_git(s: Seq<char>) -> Seq<char> {
    if s.len() >= 4 && s.subrange(s.len() - 4, s.len() as int) == ".git"@ {
        s.subrange(0, s.len() - 4)
    } else {
        s
    }
}

/// The directory name of a package cloned from `remote`: its rename, or else the last
/// component of the remote's path without `.git`.
pub open spec fn repo_name_of(rename: Option<Seq<char>>, remote: Seq<char>) -> Seq<char> {
    match rename {
        Some(r) => r,
        None => strip_git(last_segment(remote)),
    }
}

/// Names a package's directory after its remote.
#[derive(Debug)]
pub struct GitLoader;

impl GitLoader {
    /// Get the package directory name
    pub fn get_repo_name(package: &crate::package::PackageSpec, remote_path: &str) -> (r: String)
        ensures
            r@ == repo_name_of(opt_view(package.rename), remote_path@),
    {
        match &package.rename {
            Some(renamed) => return renamed.clone(),
            None => {},
        }
        let seg = match rsplit_once_char(remote_path, '/') {
            Some((_, last)) => last,
            None => owned(remote_path),
        };
        let n = seg.unicode_len();
        if n >= 4 && same_text(crate::text::slice_chars(seg.as_str(), n - 4, n).as_str(), ".git") {
            crate::text::slice_chars(seg.as_str(), 0, n - 4)
        } else {
            seg
        }
    }
}

} // verus!
