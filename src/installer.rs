//! The installer's decisions: where each plugin goes, what its build step runs, how
//! its build output is reported, and the progress events of a materialization.
//!
//! No order is imposed between the plugins of a manifest: a plugin's dependencies are
//! carried as names and are not installed first.
use vstd::prelude::*;
use crate::manifest::{LoaderData, Plugin};
use crate::smith::{Git, LoadCause, LoadError, LoaderType, MaterializeStep};
use crate::text::same_text;

verus! {

/// A filesystem path held as a string.
#[derive(Debug, Clone, PartialEq, Eq)]
pub struct StringPathBuf {
    inner: String,
}

impl View for StringPathBuf {
    type V = Seq<char>;

    closed spec fn view(&self) -> Seq<char> {
        self.inner@
    }
}

impl StringPathBuf {
    pub fn new(inner: String) -> (r: StringPathBuf)
        ensures
            r@ == inner@,
    {
        StringPathBuf { inner }
    }

    /// The path's text.
    pub fn as_str(&self) -> (r: &str)
        ensures
            r@ == self@,
    {
        self.inner.as_str()
    }

    /// This path with one more component.
    pub fn join(&self, part: &str) -> (r: StringPathBuf)
        ensures
            r@ == join_of(self@, part@),
    {
        let n = self.inner.unicode_len();
        let inner = if n > 0 && self.inner.as_str().get_char(n - 1) == '/' {
            self.inner.clone().concat(part)
        } else if n == 0 {
            part.to_owned()
        } else {
            self.inner.clone().concat("/").concat(part)
        };
        StringPathBuf { inner }
    }
}

/// `base` with `part` appended as one more component.
pub open spec fn join_of(base: Seq<char>, part: Seq<char>) -> Seq<char> {
    if base.len() == 0 {
        part
    } else if base.last() == '/' {
        base + part
    } else {
        base + "/"@ + part
    }
}

/// The directory a plugin is installed in: under the data root, in `opt` for an
/// optional plugin and `start` otherwise, named by its rename or else its install name.
pub open spec fn target_of(root: Seq<char>, optional: bool, rename: Option<Seq<char>>, name: Seq<char>) -> Seq<char> {
    join_of(
        join_of(root, if optional { "opt"@ } else { "start"@ }),
        match rename {
            Some(r) => r,
            None => name,
        },
    )
}

/// The directory a plugin is installed in.
pub fn install_target(data_root: &StringPathBuf, plugin: &Plugin) -> (r: StringPathBuf)
    ensures
        r@ == target_of(data_root@, plugin@.optional, plugin@.rename, plugin@.name),
{
    let dir = data_root.join(if plugin.optional { "opt" } else { "start" });
    match &plugin.rename {
        Some(r) => dir.join(r.as_str()),
        None => dir.join(plugin.name.as_str()),
    }
}

/// Whitespace as `char::is_whitespace` defines it (Unicode's White_Space property).
pub open spec fn is_ws(c: char) -> bool {
    let u = c as u32;
    (0x09 <= u <= 0x0d) || u == 0x20 || u == 0x85 || u == 0xa0 || u == 0x1680 || (0x2000 <= u
        <= 0x200a) || u == 0x2028 || u == 0x2029 || u == 0x202f || u == 0x205f || u == 0x3000
}

pub fn is_whitespace(c: char) -> (r: bool)
    ensures
        r == is_ws(c),
{
    let u = c as u32;
    (0x09 <= u && u <= 0x0d) || u == 0x20 || u == 0x85 || u == 0xa0 || u == 0x1680 || (0x2000
        <= u && u <= 0x200a) || u == 0x2028 || u == 0x2029 || u == 0x202f || u == 0x205f || u
        == 0x3000
}

/// The words of `s`: its maximal runs of characters other than whitespace, in order.
pub open spec fn words(s: Seq<char>) -> Seq<Seq<char>>
    decreases s.len(),
{
    if s.len() == 0 {
        Seq::empty()
    } else {
        let w = words(s.drop_last());
        let c = s.last();
        if is_ws(c) {
            w
        } else if s.len() >= 2 && !is_ws(s[s.len() - 2]) {
            w.drop_last().push(w.last().push(c))
        } else {
            w.push(seq![c])
        }
    }
}

/// Split a string into its whitespace-separated words.
pub fn split_words(s: &str) -> (r: Vec<String>)
    ensures
        r@.map_values(|w: String| w@) == words(s@),
{
    let n = s.unicode_len();
    let mut out: Vec<String> = Vec::new();
    let mut start: usize = 0;
    let mut i: usize = 0;
    while i < n
        invariant
            n == s@.len(),
            start <= i <= n,
            forall|k: int| start <= k < i ==> !is_ws(#[trigger] s@[k]),
            start == i || start == 0 || is_ws(s@[start - 1]),
            start < i ==> words(s@.subrange(0, i as int)) == out@.map_values(|w: String| w@).push(
                s@.subrange(start as int, i as int),
            ),
            start == i ==> words(s@.subrange(0, i as int)) == out@.map_values(|w: String| w@),
            start == i && i > 0 ==> is_ws(s@[i - 1]),
        decreases n - i,
    {
        let c = s.get_char(i);
        let ghost pre = s@.subrange(0, i as int + 1);
        proof {
            assert(pre.drop_last() =~= s@.subrange(0, i as int));
            assert(pre.last() == c);
        }
        if is_whitespace(c) {
            if start < i {
                let w = crate::text::slice_chars(s, start, i);
                out.push(w);
                assert(out@.map_values(|w: String| w@) =~= words(s@.subrange(0, i as int)));
            }
            start = i + 1;
        } else {
            proof {
                if start < i {
                    assert(pre[pre.len() - 2] == s@[i - 1]);
                    let w = words(s@.subrange(0, i as int));
                    assert(words(pre) == w.drop_last().push(w.last().push(c)));
                    assert(w.drop_last() =~= out@.map_values(|w: String| w@));
                    assert(w.last().push(c) =~= s@.subrange(start as int, i as int + 1));
                } else {
                    if i > 0 {
                        assert(pre[pre.len() - 2] == s@[i - 1]);
                    }
                    assert(words(pre) == words(s@.subrange(0, i as int)).push(seq![c]));
                    assert(s@.subrange(start as int, i as int + 1) =~= seq![c]);
                }
            }
        }
        i = i + 1;
    }
    if start < n {
        let w = crate::text::slice_chars(s, start, n);
        out.push(w);
    }
    assert(s@.subrange(0, n as int) =~= s@);
    proof {
        if start < n {
            assert(out@.map_values(|w: String| w@) =~= words(s@));
        }
    }
    out
}

/// The process a build step runs: a program and its arguments.
#[derive(Debug, Clone)]
pub struct BuildCommand {
    pub program: String,
    pub args: Vec<String>,
}

/// The process a plugin's build step spawns, in the plugin's directory: the first word
/// of the build string runs with the others as arguments. A build string without words
/// (empty, or only whitespace) spawns nothing.
pub fn build_command(build: &str) -> (r: Option<BuildCommand>)
    ensures
        words(build@).len() == 0 <==> r is None,
        r matches Some(c) ==> c.program@ == words(build@)[0] && c.args@.map_values(
            |w: String| w@,
        ) == words(build@).drop_first(),
{
    let mut ws = split_words(build);
    if ws.len() == 0 {
        return None;
    }
    let ghost all = ws@.map_values(|w: String| w@);
    let program = ws.remove(0);
    assert(ws@.map_values(|w: String| w@) =~= all.drop_first());
    Some(BuildCommand { program, args: ws })
}

/// Which stream of a build process a line came from.
#[derive(Debug, Clone, Copy, PartialEq, Eq, Structural)]
pub enum OutputStream {
    Stdout,
    Stderr,
}

/// How a line of build output is reported.
#[derive(Debug, Clone, Copy, PartialEq, Eq, Structural)]
pub enum Severity {
    Info,
    Warning,
}

/// A line of build output, tagged with the plugin it came from.
#[derive(Debug, Clone)]
pub struct BuildLine {
    pub plugin: String,
    pub stream: OutputStream,
    pub text: String,
}

impl BuildLine {
    pub fn new(plugin: &str, stream: OutputStream, text: String) -> (r: BuildLine)
        ensures
            r.plugin@ == plugin@,
            r.stream == stream,
            r.text == text,
    {
        BuildLine { plugin: plugin.to_owned(), stream, text }
    }

    /// Standard output is informational; standard error is a warning.
    pub fn severity(&self) -> (r: Severity)
        ensures
            r == match self.stream {
                OutputStream::Stdout => Severity::Info,
                OutputStream::Stderr => Severity::Warning,
            },
    {
        match self.stream {
            OutputStream::Stdout => Severity::Info,
            OutputStream::Stderr => Severity::Warning,
        }
    }

    /// The report of the line: its stream, the plugin's name and the text.
    pub fn message(&self) -> (r: String)
        ensures
            r@ == match self.stream {
                OutputStream::Stdout => "STDOUT from "@,
                OutputStream::Stderr => "STDERR from "@,
            } + self.plugin@ + ": "@ + self.text@,
    {
        let head = match self.stream {
            OutputStream::Stdout => "STDOUT from ".to_owned(),
            OutputStream::Stderr => "STDERR from ".to_owned(),
        };
        head.concat(self.plugin.as_str()).concat(": ").concat(self.text.as_str())
    }
}

/// The descriptor of a plugin, for the git loader to materialize. A plugin recorded for
/// another loader, or with another loader's descriptor, is refused.
pub fn git_descriptor<'a>(git: &Git, plugin: &'a Plugin) -> (r: Result<&'a LoaderType, LoadError>)
    ensures
        match r {
            Ok(d) => plugin.smith@ == "git"@ && plugin.loader_data == LoaderData::Git(*d),
            Err(e) => plugin.smith@ != "git"@ && e.cause == LoadCause::WrongLoader && e.name@
                == plugin.name@,
        },
{
    let name = git.name();
    if !same_text(plugin.smith.as_str(), name.as_str()) {
        return Err(LoadError { name: plugin.name.clone(), cause: LoadCause::WrongLoader });
    }
    match &plugin.loader_data {
        LoaderData::Git(d) => Ok(d),
    }
}

/// The states a package goes through while it is installed or updated.
#[derive(Debug, Clone, PartialEq, Eq)]
pub enum StateEventKind {
    Installing,
    Installed,
    Updating,
    Updated,
    UpToDate,
    Removed,
    Failed(String),
}

impl StateEventKind {
    /// The label shown for the state, right-aligned to twelve columns.
    pub fn label(&self) -> (r: String)
        ensures
            r@ == match self {
                StateEventKind::Installing => "  Installing"@,
                StateEventKind::Installed => "   Installed"@,
                StateEventKind::Updating => "    Updating"@,
                StateEventKind::Updated => "     Updated"@,
                StateEventKind::UpToDate => "  Up to date"@,
                StateEventKind::Removed => "     Removed"@,
                StateEventKind::Failed(e) => "Error occured: "@ + e@,
            },
    {
        match self {
            StateEventKind::Installing => "  Installing".to_owned(),
            StateEventKind::Installed => "   Installed".to_owned(),
            StateEventKind::Updating => "    Updating".to_owned(),
            StateEventKind::Updated => "     Updated".to_owned(),
            StateEventKind::UpToDate => "  Up to date".to_owned(),
            StateEventKind::Removed => "     Removed".to_owned(),
            StateEventKind::Failed(e) => "Error occured: ".to_owned().concat(e.as_str()),
        }
    }
}

/// A package's change of state.
#[derive(Debug, Clone)]
pub struct StateEvent {
    pub name: String,
    pub kind: StateEventKind,
}

impl StateEvent {
    pub fn new(name: &str, kind: StateEventKind) -> (r: StateEvent)
        ensures
            r.name@ == name@,
            r.kind == kind,
    {
        StateEvent { name: name.to_owned(), kind }
    }
}

/// What the installer reports: a state change, or the end of the run.
#[derive(Debug, Clone)]
pub enum Message {
    Close,
    StateEvent(StateEvent),
}

/// The state a package enters when its materialization starts with `first`: cloning
/// installs, fetching or resetting updates, and nothing to do is up to date.
pub fn starting_state(first: MaterializeStep) -> (r: StateEventKind)
    ensures
        r == match first {
            MaterializeStep::Clone => StateEventKind::Installing,
            MaterializeStep::Fetch => StateEventKind::Updating,
            MaterializeStep::Reset => StateEventKind::Updating,
            MaterializeStep::Done => StateEventKind::UpToDate,
        },
{
    match first {
        MaterializeStep::Clone => StateEventKind::Installing,
        MaterializeStep::Fetch => StateEventKind::Updating,
        MaterializeStep::Reset => StateEventKind::Updating,
        MaterializeStep::Done => StateEventKind::UpToDate,
    }
}

/// The state a package ends in once its materialization, started in `started`,
/// succeeded.
pub fn finished_state(started: &StateEventKind) -> (r: StateEventKind)
    ensures
        r == match started {
            StateEventKind::Installing => StateEventKind::Installed,
            StateEventKind::Updating => StateEventKind::Updated,
            _ => StateEventKind::UpToDate,
        },
{
    match started {
        StateEventKind::Installing => StateEventKind::Installed,
        StateEventKind::Updating => StateEventKind::Updated,
        _ => StateEventKind::UpToDate,
    }
}

} // verus!
