//! The resolver: flattens the package tree into one resolution job per declared
//! package (every nested dependency included, once per occurrence), refusing keys that
//! no loader claims before any network access, and then turns the jobs and the commits
//! that fetching gave into a manifest.
use vstd::prelude::*;
use crate::manifest::{LoaderData, Manifest, Plugin, PluginView};
use crate::package::{Config, Package};
use crate::smith::{
    Git, LockModel, LockType, ResolveCause, ResolveError, lock_of, package_name_of, parse_version,
    remote_url_of, resolved_descriptor, opt_view,
};
use crate::text::same_text;

verus! {

/// One package to resolve: what its plugin records, and where and what to fetch.
#[derive(Debug)]
pub struct ResolveJob {
    /// The declared key
    pub key: String,
    /// The owning loader's name
    pub smith: String,
    /// The install name the loader derives from the key
    pub name: String,
    pub rename: Option<String>,
    pub optional: bool,
    /// The build command; empty for none
    pub build: String,
    /// The declared keys of the package's dependencies
    pub dependencies: Vec<String>,
    /// The remote to fetch from
    pub remote: String,
    /// The ref to lock to
    pub lock: LockType,
}

pub struct JobView {
    pub key: Seq<char>,
    pub smith: Seq<char>,
    pub name: Seq<char>,
    pub rename: Option<Seq<char>>,
    pub optional: bool,
    pub build: Seq<char>,
    pub dependencies: Seq<Seq<char>>,
    pub remote: Seq<char>,
    pub lock: LockModel,
}

impl View for ResolveJob {
    type V = JobView;

    open spec fn view(&self) -> JobView {
        JobView {
            key: self.key@,
            smith: self.smith@,
            name: self.name@,
            rename: opt_view(self.rename),
            optional: self.optional,
            build: self.build@,
            dependencies: self.dependencies@.map_values(|d: String| d@),
            remote: self.remote@,
            lock: self.lock@,
        }
    }
}

/// Every node of the tree, each node after its own dependencies, siblings in order.
pub open spec fn flat(ds: Seq<Package>, n: nat) -> Seq<Package>
    decreases ds, n,
{
    if n == 0 || n > ds.len() {
        Seq::empty()
    } else {
        let d = ds[n - 1];
        let c = d.config_package.dependencies@;
        flat(ds, (n - 1) as nat) + flat(c, c.len()) + seq![d]
    }
}

/// The declared keys of a list of packages.
pub open spec fn names_of(ds: Seq<Package>) -> Seq<Seq<char>> {
    ds.map_values(|d: Package| d.name@)
}

/// The job for one declared package, or the cause that stops it.
pub open spec fn job_of(git: Git, p: Package) -> Result<JobView, ResolveCause> {
    match package_name_of(p.name@) {
        None => Err(ResolveCause::NoLoaderFound),
        Some(name) => match remote_url_of(git.clone_type, p.name@) {
            None => Err(ResolveCause::MalformedKey),
            Some(url) => Ok(
                JobView {
                    key: p.name@,
                    smith: "git"@,
                    name,
                    rename: opt_view(p.config_package.rename),
                    optional: p.config_package.optional == Some(true),
                    build: match p.config_package.build {
                        Some(b) => b@,
                        None => Seq::empty(),
                    },
                    dependencies: names_of(p.config_package.dependencies@),
                    remote: url,
                    lock: lock_of(opt_view(p.config_package.version)),
                },
            ),
        },
    }
}

/// The jobs for a list of nodes, in order; the first node that cannot be resolved
/// stops the plan, with its key.
pub open spec fn plan_of(git: Git, nodes: Seq<Package>) -> Result<Seq<JobView>, (Seq<char>, ResolveCause)>
    decreases nodes.len(),
{
    if nodes.len() == 0 {
        Ok(Seq::empty())
    } else {
        match plan_of(git, nodes.drop_last()) {
            Err(e) => Err(e),
            Ok(js) => match job_of(git, nodes.last()) {
                Err(c) => Err((nodes.last().name@, c)),
                Ok(j) => Ok(js.push(j)),
            },
        }
    }
}

pub proof fn lemma_plan_concat(git: Git, a: Seq<Package>, b: Seq<Package>)
    ensures
        plan_of(git, a + b) == match plan_of(git, a) {
            Err(e) => Err(e),
            Ok(x) => match plan_of(git, b) {
                Err(e) => Err(e),
                Ok(y) => Ok(x + y),
            },
        },
    decreases b.len(),
{
    if b.len() == 0 {
        assert(a + b =~= a);
        if let Ok(x) = plan_of(git, a) {
            assert(x + Seq::<JobView>::empty() =~= x);
        }
    } else {
        lemma_plan_concat(git, a, b.drop_last());
        assert((a + b).drop_last() =~= a + b.drop_last());
        assert((a + b).last() == b.last());
        if let Ok(x) = plan_of(git, a) {
            if let Ok(y) = plan_of(git, b.drop_last()) {
                if let Ok(j) = job_of(git, b.last()) {
                    assert((x + y).push(j) =~= x + y.push(j));
                }
            }
        }
    }
}

pub proof fn lemma_plan_single(git: Git, d: Package)
    ensures
        plan_of(git, seq![d]) == match job_of(git, d) {
            Err(c) => Err((d.name@, c)),
            Ok(j) => Ok::<Seq<JobView>, (Seq<char>, ResolveCause)>(seq![j]),
        },
{
    let s = seq![d];
    assert(s.drop_last() =~= Seq::<Package>::empty());
    assert(plan_of(git, Seq::<Package>::empty()) == Ok::<Seq<JobView>, (Seq<char>, ResolveCause)>(Seq::empty()));
    if let Ok(j) = job_of(git, d) {
        assert(Seq::<JobView>::empty().push(j) =~= seq![j]);
    }
}

pub proof fn lemma_flat_prefix(ds: Seq<Package>, n: nat, m: nat)
    requires
        n <= m <= ds.len(),
    ensures
        flat(ds, m) == flat(ds, n) + flat(ds, m).subrange(flat(ds, n).len() as int, flat(ds, m).len() as int),
    decreases m,
{
    if n < m {
        lemma_flat_prefix(ds, n, (m - 1) as nat);
        assert(flat(ds, m) =~= flat(ds, n) + flat(ds, m).subrange(flat(ds, n).len() as int, flat(ds, m).len() as int));
    } else {
        assert(flat(ds, m) =~= flat(ds, n) + flat(ds, m).subrange(flat(ds, n).len() as int, flat(ds, m).len() as int));
    }
}

/// The error for a failed plan.
pub open spec fn err_view(e: ResolveError) -> (Seq<char>, ResolveCause) {
    (e.key@, e.cause)
}

fn clone_opt(o: &Option<String>) -> (r: Option<String>)
    ensures
        opt_view(r) == opt_view(*o),
{
    match o {
        Some(s) => Some(s.clone()),
        None => None,
    }
}

fn dependency_names(ds: &Vec<Package>) -> (r: Vec<String>)
    ensures
        r@.map_values(|d: String| d@) == names_of(ds@),
{
    let mut out: Vec<String> = Vec::new();
    let mut i: usize = 0;
    while i < ds.len()
        invariant
            i <= ds@.len(),
            out@.len() == i,
            forall|k: int| 0 <= k < i ==> (#[trigger] out@[k])@ == ds@[k].name@,
        decreases ds@.len() - i,
    {
        out.push(ds[i].name.clone());
        i = i + 1;
    }
    assert(out@.map_values(|d: String| d@) =~= names_of(ds@));
    out
}

/// The resolution job for one declared package.
pub fn job_for(git: &Git, p: &Package) -> (r: Result<ResolveJob, ResolveError>)
    ensures
        match r {
            Ok(j) => job_of(*git, *p) == Ok::<JobView, ResolveCause>(j@),
            Err(e) => job_of(*git, *p) == Err::<JobView, ResolveCause>(e.cause) && e.key@ == p.name@,
        },
{
    let name = match git.get_package_name(p.name.as_str()) {
        None => return Err(ResolveError { key: p.name.clone(), cause: ResolveCause::NoLoaderFound }),
        Some(n) => n,
    };
    let remote = match git.remote_url(p.name.as_str()) {
        Err(_) => return Err(ResolveError { key: p.name.clone(), cause: ResolveCause::MalformedKey }),
        Ok(u) => u,
    };
    let spec = &p.config_package;
    let build = match &spec.build {
        Some(b) => b.clone(),
        None => String::new(),
    };
    let job = ResolveJob {
        key: p.name.clone(),
        smith: git.name(),
        name,
        rename: clone_opt(&spec.rename),
        optional: spec.is_optional(),
        build,
        dependencies: dependency_names(&spec.dependencies),
        remote,
        lock: parse_version(&spec.version),
    };
    Ok(job)
}

fn plan_forest(git: &Git, ds: &Vec<Package>, out: &mut Vec<ResolveJob>) -> (r: Result<(), ResolveError>)
    ensures
        match r {
            Ok(_) => plan_of(*git, flat(ds@, ds@.len())) matches Ok(js) && final(out)@.map_values(
                |j: ResolveJob| j@,
            ) == old(out)@.map_values(|j: ResolveJob| j@) + js,
            Err(e) => plan_of(*git, flat(ds@, ds@.len())) == Err::<Seq<JobView>, (Seq<char>, ResolveCause)>(err_view(e)),
        },
    decreases ds@,
{
    let ghost start = out@.map_values(|j: ResolveJob| j@);
    let mut i: usize = 0;
    while i < ds.len()
        invariant
            i <= ds@.len(),
            plan_of(*git, flat(ds@, i as nat)) matches Ok(js) && out@.map_values(
                |j: ResolveJob| j@,
            ) == start + js,
        decreases ds@.len() - i,
    {
        let d = &ds[i];
        let ghost c = d.config_package.dependencies@;
        let ghost prefix = flat(ds@, i as nat);
        proof {
            assert(decreases_to!(ds@ => ds@[i as int]));
            assert(decreases_to!(ds@[i as int].config_package.dependencies => ds@[i as int].config_package.dependencies@));
            assert(ds@[i as int] == *d);
            assert(flat(ds@, (i + 1) as nat) == prefix + flat(c, c.len()) + seq![*d]);
            lemma_plan_concat(*git, prefix, flat(c, c.len()));
            lemma_plan_concat(*git, prefix + flat(c, c.len()), seq![*d]);
            lemma_plan_single(*git, *d);
        }
        let ghost before = out@.map_values(|j: ResolveJob| j@);
        let ghost whole = flat(ds@, ds@.len());
        let ghost upto = flat(ds@, (i + 1) as nat);
        proof {
            lemma_flat_prefix(ds@, (i + 1) as nat, ds@.len());
            lemma_plan_concat(*git, upto, whole.subrange(upto.len() as int, whole.len() as int));
        }
        match plan_forest(git, &d.config_package.dependencies, out) {
            Err(e) => {
                return Err(e);
            },
            Ok(_) => {},
        }
        match job_for(git, d) {
            Err(e) => {
                return Err(e);
            },
            Ok(j) => {
                let ghost jv = j@;
                let ghost mid = out@.map_values(|j: ResolveJob| j@);
                out.push(j);
                assert(out@.map_values(|j: ResolveJob| j@) =~= mid.push(jv));
            },
        }
        proof {
            let js = plan_of(*git, prefix)->Ok_0;
            let ks = plan_of(*git, flat(c, c.len()))->Ok_0;
            let jv = job_of(*git, *d)->Ok_0;
            assert(js + ks + seq![jv] =~= (js + ks).push(jv));
            assert(plan_of(*git, upto) == Ok::<Seq<JobView>, (Seq<char>, ResolveCause)>((js + ks).push(jv)));
            assert(out@.map_values(|j: ResolveJob| j@) =~= start + (js + ks).push(jv));
        }
        i = i + 1;
    }
    Ok(())
}

/// Plan the resolution of a configuration: one job per node of the package tree, each
/// node after its dependencies. A key that no loader claims, or whose path is not in
/// the loader's form, stops the plan with that key; nothing has been fetched then.
pub fn plan_resolution(git: &Git, config: &Config) -> (r: Result<Vec<ResolveJob>, ResolveError>)
    ensures
        match r {
            Ok(js) => plan_of(*git, flat(config.packages@, config.packages@.len())) == Ok::<Seq<JobView>, (Seq<char>, ResolveCause)>(
                js@.map_values(|j: ResolveJob| j@),
            ),
            Err(e) => plan_of(*git, flat(config.packages@, config.packages@.len())) == Err::<Seq<JobView>, (Seq<char>, ResolveCause)>(err_view(e)),
        },
{
    let mut out: Vec<ResolveJob> = Vec::new();
    match plan_forest(git, &config.packages, &mut out) {
        Err(e) => Err(e),
        Ok(_) => {
            assert(Seq::<JobView>::empty() + out@.map_values(|j: ResolveJob| j@) =~= out@.map_values(|j: ResolveJob| j@));
            Ok(out)
        },
    }
}

/// The plugin a job becomes once its ref resolved to `commit`.
pub open spec fn plugin_of(j: JobView, commit: Seq<char>) -> PluginView {
    PluginView {
        name: j.name,
        unresolved_name: j.key,
        rename: j.rename,
        optional: j.optional,
        dependencies: j.dependencies,
        smith: j.smith,
        build: j.build,
        loader_data: crate::manifest::LoaderDataView { loader: "git"@, commit, remote: j.remote },
    }
}

fn copy_strings(v: &Vec<String>) -> (r: Vec<String>)
    ensures
        r@.map_values(|d: String| d@) == v@.map_values(|d: String| d@),
{
    let mut out: Vec<String> = Vec::new();
    let mut i: usize = 0;
    while i < v.len()
        invariant
            i <= v@.len(),
            out@.len() == i,
            forall|k: int| 0 <= k < i ==> (#[trigger] out@[k])@ == v@[k]@,
        decreases v@.len() - i,
    {
        out.push(v[i].clone());
        i = i + 1;
    }
    assert(out@.map_values(|d: String| d@) =~= v@.map_values(|d: String| d@));
    out
}

/// Build the manifest from the jobs and the commit each job's fetch resolved to, in the
/// same order (`None` where the remote could not be reached or the locked ref does not
/// exist there). The first job without a commit fails the whole resolution with its key.
pub fn build_manifest(host_version: String, jobs: &Vec<ResolveJob>, commits: &Vec<Option<String>>) -> (r: Result<Manifest, ResolveError>)
    requires
        jobs@.len() == commits@.len(),
    ensures
        r is Ok <==> forall|i: int| 0 <= i < commits@.len() ==> (#[trigger] commits@[i]) is Some,
        r matches Ok(m) ==> m@.host_version == host_version@ && m@.plugins.len() == jobs@.len()
            && forall|i: int|
            0 <= i < jobs@.len() ==> #[trigger] m@.plugins[i] == plugin_of(jobs@[i]@, commits@[i]->0@),
        r matches Err(e) ==> e.cause == ResolveCause::Remote && exists|i: int|
            0 <= i < jobs@.len() && commits@[i] is None && e.key@ == jobs@[i].key@ && forall|k: int|
                0 <= k < i ==> (#[trigger] commits@[k]) is Some,
{
    let mut plugins: Vec<Plugin> = Vec::new();
    let mut i: usize = 0;
    while i < jobs.len()
        invariant
            i <= jobs@.len(),
            jobs@.len() == commits@.len(),
            plugins@.len() == i,
            forall|k: int| 0 <= k < i ==> (#[trigger] commits@[k]) is Some,
            forall|k: int| 0 <= k < i ==> (#[trigger] plugins@[k])@ == plugin_of(jobs@[k]@, commits@[k]->0@),
        decreases jobs@.len() - i,
    {
        let j = &jobs[i];
        let commit = match &commits[i] {
            Some(c) => Some(c.clone()),
            None => None,
        };
        let d = match resolved_descriptor(j.key.as_str(), j.remote.clone(), commit) {
            Err(e) => {
                return Err(e);
            },
            Ok(d) => d,
        };
        let plugin = Plugin {
            name: j.name.clone(),
            unresolved_name: j.key.clone(),
            rename: clone_opt(&j.rename),
            optional: j.optional,
            dependencies: copy_strings(&j.dependencies),
            smith: j.smith.clone(),
            build: j.build.clone(),
            loader_data: LoaderData::Git(d),
        };
        plugins.push(plugin);
        i = i + 1;
    }
    let m = Manifest { neovim_version: host_version, plugins };
    assert forall|k: int| 0 <= k < jobs@.len() implies #[trigger] m@.plugins[k] == plugin_of(jobs@[k]@, commits@[k]->0@) by {
        assert(m@.plugins[k] == plugins@[k]@);
    }
    Ok(m)
}

} // verus!
