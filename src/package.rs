//! The declared package tree and its hash.
//!
//! A spec's dependencies, like the configuration's packages, are kept sorted by name
//! with each name once, so a tree has one form whatever order its entries were
//! added in, and the hash, taken over that form, does not depend on that order.
use vstd::prelude::*;
use crate::smith::opt_view;
use crate::codec::{enc_opt_bool, enc_opt_str, enc_str, enc_u64, put_opt_bool, put_opt_str, put_str, put_u64};

verus! {

/// Strict lexicographic order on strings, by code point.
pub open spec fn lex_lt(a: Seq<char>, b: Seq<char>) -> bool
    decreases a.len(),
{
    if a.len() == 0 {
        b.len() > 0
    } else if b.len() == 0 {
        false
    } else if a[0] != b[0] {
        (a[0] as u32) < (b[0] as u32)
    } else {
        lex_lt(a.drop_first(), b.drop_first())
    }
}

pub proof fn lemma_lex_irreflexive(a: Seq<char>)
    ensures
        !lex_lt(a, a),
    decreases a.len(),
{
    if a.len() > 0 {
        lemma_lex_irreflexive(a.drop_first());
    }
}

pub proof fn lemma_lex_transitive(a: Seq<char>, b: Seq<char>, c: Seq<char>)
    requires
        lex_lt(a, b),
        lex_lt(b, c),
    ensures
        lex_lt(a, c),
    decreases a.len(),
{
    if a.len() > 0 && b.len() > 0 && c.len() > 0 && a[0] == b[0] && b[0] == c[0] {
        lemma_lex_transitive(a.drop_first(), b.drop_first(), c.drop_first());
    }
}

pub proof fn lemma_lex_total(a: Seq<char>, b: Seq<char>)
    requires
        a != b,
    ensures
        lex_lt(a, b) || lex_lt(b, a),
    decreases a.len(),
{
    if a.len() > 0 && b.len() > 0 && a[0] == b[0] {
        if a.drop_first() == b.drop_first() {
            assert(a =~= seq![a[0]] + a.drop_first());
            assert(b =~= seq![b[0]] + b.drop_first());
        }
        lemma_lex_total(a.drop_first(), b.drop_first());
    }
    if a.len() > 0 && b.len() > 0 && a[0] != b[0] {
        vstd::utf8::char_u32_cast(a[0], a[0] as u32);
        vstd::utf8::char_u32_cast(b[0], b[0] as u32);
    }
    if a.len() == 0 && b.len() == 0 {
        assert(a =~= b);
    }
}

/// Whether `a` comes strictly before `b`.
pub fn text_lt(a: &str, b: &str) -> (r: bool)
    ensures
        r == lex_lt(a@, b@),
{
    let na = a.unicode_len();
    let nb = b.unicode_len();
    let mut i: usize = 0;
    assert(a@.skip(0) =~= a@ && b@.skip(0) =~= b@);
    while i < na && i < nb
        invariant
            na == a@.len(),
            nb == b@.len(),
            i <= na,
            i <= nb,
            lex_lt(a@, b@) == lex_lt(a@.skip(i as int), b@.skip(i as int)),
        decreases na - i,
    {
        let x = a.get_char(i);
        let y = b.get_char(i);
        if x != y {
            assert(a@.skip(i as int)[0] == x && b@.skip(i as int)[0] == y);
            return (x as u32) < (y as u32);
        }
        assert(a@.skip(i as int).drop_first() =~= a@.skip(i as int + 1));
        assert(b@.skip(i as int).drop_first() =~= b@.skip(i as int + 1));
        i = i + 1;
    }
    i < nb && i == na
}

/// A package declaration, as found in a config file.
#[derive(Debug)]
pub struct PackageSpec {
    /// Don't load the package on startup
    pub optional: Option<bool>,
    /// The version locator: `tag:<name>`, `branch:<name>` or `commit:<id>`
    pub version: Option<String>,
    /// Rename the package to something else
    pub rename: Option<String>,
    /// A command to build the package. This is run in the package directory
    pub build: Option<String>,
    /// The dependencies, sorted by name, each name once
    pub dependencies: Vec<Package>,
}

/// A declared key and the spec declared under it.
#[derive(Debug)]
pub struct Package {
    /// The declared key
    pub name: String,
    /// The package's config, as found in the config file
    pub config_package: PackageSpec,
}

/// The configuration: all the declared packages, sorted by name, each name once.
#[derive(Debug)]
pub struct Config {
    pub packages: Vec<Package>,
}

/// Names strictly increase along the entries.
pub open spec fn names_sorted(ds: Seq<Package>) -> bool {
    forall|i: int, j: int|
        0 <= i < j < ds.len() ==> lex_lt(#[trigger] ds[i].name@, #[trigger] ds[j].name@)
}

/// Where an entry named `k` goes: after the entries whose name is below `k`.
pub open spec fn dep_pos(ds: Seq<Package>, k: Seq<char>) -> int
    decreases ds.len(),
{
    if ds.len() == 0 {
        0
    } else if lex_lt(ds.last().name@, k) {
        ds.len() as int
    } else {
        dep_pos(ds.drop_last(), k)
    }
}

/// The entries with `x` added in name order; `x` replaces an entry of the same name.
pub open spec fn insert_dep(ds: Seq<Package>, x: Package) -> Seq<Package> {
    let i = dep_pos(ds, x.name@);
    if i < ds.len() && ds[i].name@ == x.name@ {
        ds.update(i, x)
    } else {
        ds.insert(i, x)
    }
}

/// The entries after adding each of `xs`, in order.
pub open spec fn insert_all(ds: Seq<Package>, xs: Seq<Package>) -> Seq<Package>
    decreases xs.len(),
{
    if xs.len() == 0 {
        ds
    } else {
        insert_dep(insert_all(ds, xs.drop_last()), xs.last())
    }
}

pub proof fn lemma_dep_pos(ds: Seq<Package>, k: Seq<char>)
    requires
        names_sorted(ds),
    ensures
        0 <= dep_pos(ds, k) <= ds.len(),
        forall|j: int| 0 <= j < dep_pos(ds, k) ==> lex_lt((#[trigger] ds[j]).name@, k),
        forall|j: int| dep_pos(ds, k) <= j < ds.len() ==> !lex_lt((#[trigger] ds[j]).name@, k),
    decreases ds.len(),
{
    if ds.len() > 0 {
        let p = ds.drop_last();
        if lex_lt(ds.last().name@, k) {
            assert forall|j: int| 0 <= j < ds.len() implies lex_lt((#[trigger] ds[j]).name@, k) by {
                if j < ds.len() - 1 {
                    lemma_lex_transitive(ds[j].name@, ds[ds.len() - 1].name@, k);
                }
            }
        } else {
            assert forall|i: int, j: int| 0 <= i < j < p.len() implies lex_lt(
                #[trigger] p[i].name@,
                #[trigger] p[j].name@,
            ) by {
                assert(lex_lt(ds[i].name@, ds[j].name@));
            }
            lemma_dep_pos(p, k);
            assert forall|j: int| 0 <= j < dep_pos(ds, k) implies lex_lt(
                (#[trigger] ds[j]).name@,
                k,
            ) by {
                assert(ds[j] == p[j]);
            }
            assert forall|j: int| dep_pos(ds, k) <= j < ds.len() implies !lex_lt(
                (#[trigger] ds[j]).name@,
                k,
            ) by {
                if j < ds.len() - 1 {
                    assert(ds[j] == p[j]);
                }
            }
        }
    }
}

/// Adding an entry keeps the names sorted; the entries afterwards are `x` and the old
/// entries of other names.
pub proof fn lemma_insert_dep(ds: Seq<Package>, x: Package)
    requires
        names_sorted(ds),
    ensures
        names_sorted(insert_dep(ds, x)),
        forall|y: Package|
            insert_dep(ds, x).contains(y) <==> (y == x || (ds.contains(y) && y.name@ != x.name@)),
{
    lemma_dep_pos(ds, x.name@);
    let i = dep_pos(ds, x.name@);
    let t = insert_dep(ds, x);
    let k = x.name@;
    if i < ds.len() && ds[i].name@ == k {
        assert forall|a: int, b: int| 0 <= a < b < t.len() implies lex_lt(
            #[trigger] t[a].name@,
            #[trigger] t[b].name@,
        ) by {
            assert(lex_lt(ds[a].name@, ds[b].name@));
        }
        assert forall|y: Package| t.contains(y) <==> (y == x || (ds.contains(y) && y.name@ != k)) by {
            if t.contains(y) {
                let a = choose|a: int| 0 <= a < t.len() && t[a] == y;
                if a != i {
                    assert(ds[a] == y);
                    if a < i {
                        assert(lex_lt(ds[a].name@, ds[i].name@));
                    } else {
                        assert(lex_lt(ds[i].name@, ds[a].name@));
                    }
                    lemma_lex_irreflexive(k);
                }
            }
            if y == x {
                assert(t[i] == y);
            }
            if ds.contains(y) && y.name@ != k {
                let a = choose|a: int| 0 <= a < ds.len() && ds[a] == y;
                assert(a != i);
                assert(t[a] == y);
            }
        }
    } else {
        assert forall|j: int| i <= j < ds.len() implies lex_lt(k, (#[trigger] ds[j]).name@) by {
            if ds[j].name@ == k {
                assert(j != i);
                assert(lex_lt(ds[i].name@, ds[j].name@));
            }
            lemma_lex_total(ds[j].name@, k);
        }
        assert forall|a: int, b: int| 0 <= a < b < t.len() implies lex_lt(
            #[trigger] t[a].name@,
            #[trigger] t[b].name@,
        ) by {
            if a < i && b < i {
                assert(lex_lt(ds[a].name@, ds[b].name@));
            } else if a < i && b == i {
            } else if a < i {
                assert(lex_lt(k, ds[b - 1].name@));
                lemma_lex_transitive(ds[a].name@, k, ds[b - 1].name@);
            } else if a == i {
                assert(lex_lt(k, ds[b - 1].name@));
            } else {
                assert(lex_lt(ds[a - 1].name@, ds[b - 1].name@));
            }
        }
        assert forall|y: Package| t.contains(y) <==> (y == x || (ds.contains(y) && y.name@ != k)) by {
            if t.contains(y) {
                let a = choose|a: int| 0 <= a < t.len() && t[a] == y;
                if a < i {
                    assert(ds[a] == y);
                    lemma_lex_irreflexive(k);
                } else if a > i {
                    assert(ds[a - 1] == y);
                    assert(lex_lt(k, ds[a - 1].name@));
                    lemma_lex_irreflexive(k);
                }
            }
            if y == x {
                assert(t[i] == y);
            }
            if ds.contains(y) && y.name@ != k {
                let a = choose|a: int| 0 <= a < ds.len() && ds[a] == y;
                if a < i {
                    assert(t[a] == y);
                } else {
                    assert(t[a + 1] == y);
                }
            }
        }
    }
}

/// In a sorted list, the entries after the first are the others.
proof fn lemma_drop_first_contents(s: Seq<Package>)
    requires
        names_sorted(s),
        s.len() > 0,
    ensures
        names_sorted(s.drop_first()),
        forall|y: Package| s.drop_first().contains(y) <==> (s.contains(y) && y != s[0]),
{
    let d = s.drop_first();
    assert forall|i: int, j: int| 0 <= i < j < d.len() implies lex_lt(
        #[trigger] d[i].name@,
        #[trigger] d[j].name@,
    ) by {
        assert(lex_lt(s[i + 1].name@, s[j + 1].name@));
    }
    assert forall|y: Package| d.contains(y) <==> (s.contains(y) && y != s[0]) by {
        if d.contains(y) {
            let a = choose|a: int| 0 <= a < d.len() && d[a] == y;
            assert(s[a + 1] == y);
            assert(lex_lt(s[0].name@, s[a + 1].name@));
            lemma_lex_irreflexive(y.name@);
        }
        if s.contains(y) && y != s[0] {
            let a = choose|a: int| 0 <= a < s.len() && s[a] == y;
            assert(d[a - 1] == y);
        }
    }
}

/// Two name-sorted lists with the same entries are the same list.
pub proof fn lemma_sorted_unique(s: Seq<Package>, t: Seq<Package>)
    requires
        names_sorted(s),
        names_sorted(t),
        forall|y: Package| s.contains(y) <==> t.contains(y),
    ensures
        s == t,
    decreases s.len(),
{
    if s.len() == 0 {
        if t.len() > 0 {
            assert(t.contains(t[0]));
        }
        assert(t =~= s);
    } else if t.len() == 0 {
        assert(s.contains(s[0]));
    } else {
        assert(s.contains(s[0]));
        assert(t.contains(t[0]));
        let j = choose|j: int| 0 <= j < t.len() && t[j] == s[0];
        let i = choose|i: int| 0 <= i < s.len() && s[i] == t[0];
        if j > 0 {
            assert(lex_lt(t[0].name@, t[j].name@));
            if i == 0 {
                lemma_lex_irreflexive(t[0].name@);
            } else {
                assert(lex_lt(s[0].name@, s[i].name@));
                lemma_lex_transitive(s[0].name@, t[0].name@, s[0].name@);
                lemma_lex_irreflexive(s[0].name@);
            }
        }
        assert(s[0] == t[0]);
        lemma_drop_first_contents(s);
        lemma_drop_first_contents(t);
        assert forall|y: Package| s.drop_first().contains(y) <==> t.drop_first().contains(y) by {
            assert(s.contains(y) <==> t.contains(y));
        }
        lemma_sorted_unique(s.drop_first(), t.drop_first());
        assert(s =~= seq![s[0]] + s.drop_first());
        assert(t =~= seq![t[0]] + t.drop_first());
    }
}

/// Names are pairwise distinct along the list.
pub open spec fn names_distinct(xs: Seq<Package>) -> bool {
    forall|i: int, j: int| 0 <= i < j < xs.len() ==> (#[trigger] xs[i]).name@ != (#[trigger] xs[j]).name@
}

/// Some entry of the list has this name.
pub open spec fn has_name(xs: Seq<Package>, k: Seq<char>) -> bool {
    exists|i: int| 0 <= i < xs.len() && (#[trigger] xs[i]).name@ == k
}

/// After adding entries of distinct names, the list holds those entries and the old
/// entries of other names.
pub proof fn lemma_insert_all(ds: Seq<Package>, xs: Seq<Package>)
    requires
        names_sorted(ds),
        names_distinct(xs),
    ensures
        names_sorted(insert_all(ds, xs)),
        forall|y: Package|
            insert_all(ds, xs).contains(y) <==> (xs.contains(y) || (ds.contains(y) && !has_name(
                xs,
                y.name@,
            ))),
    decreases xs.len(),
{
    if xs.len() > 0 {
        let p = xs.drop_last();
        let x = xs.last();
        assert forall|i: int, j: int| 0 <= i < j < p.len() implies (#[trigger] p[i]).name@ != (
        #[trigger] p[j]).name@ by {
            assert(xs[i] == p[i] && xs[j] == p[j]);
        }
        lemma_insert_all(ds, p);
        lemma_insert_dep(insert_all(ds, p), x);
        assert forall|y: Package|
            insert_all(ds, xs).contains(y) <==> (xs.contains(y) || (ds.contains(y) && !has_name(
                xs,
                y.name@,
            ))) by {
            if p.contains(y) {
                let a = choose|a: int| 0 <= a < p.len() && p[a] == y;
                assert(xs[a] == y);
                assert(xs[xs.len() - 1] == x);
                assert(y.name@ != x.name@);
            }
            if xs.contains(y) && y != x {
                let a = choose|a: int| 0 <= a < xs.len() && xs[a] == y;
                assert(p[a] == y);
            }
            if y == x {
                assert(xs[xs.len() - 1] == y);
            }
            if has_name(p, y.name@) {
                let a = choose|a: int| 0 <= a < p.len() && (#[trigger] p[a]).name@ == y.name@;
                assert(xs[a] == p[a]);
            }
            if has_name(xs, y.name@) && y.name@ != x.name@ {
                let a = choose|a: int| 0 <= a < xs.len() && (#[trigger] xs[a]).name@ == y.name@;
                assert(p[a] == xs[a]);
            }
            if y.name@ == x.name@ {
                assert(xs[xs.len() - 1].name@ == y.name@);
            }
        }
    }
}

/// The order in which entries of distinct names are added does not matter: adding the
/// same entries in any two orders gives the same list.
pub proof fn lemma_insertion_order(ds: Seq<Package>, xs: Seq<Package>, ys: Seq<Package>)
    requires
        names_sorted(ds),
        names_distinct(xs),
        names_distinct(ys),
        forall|y: Package| xs.contains(y) <==> ys.contains(y),
    ensures
        insert_all(ds, xs) == insert_all(ds, ys),
{
    lemma_insert_all(ds, xs);
    lemma_insert_all(ds, ys);
    assert forall|k: Seq<char>| has_name(xs, k) <==> has_name(ys, k) by {
        if has_name(xs, k) {
            let a = choose|a: int| 0 <= a < xs.len() && (#[trigger] xs[a]).name@ == k;
            assert(xs.contains(xs[a]));
            let b = choose|b: int| 0 <= b < ys.len() && ys[b] == xs[a];
            assert(ys[b].name@ == k);
        }
        if has_name(ys, k) {
            let a = choose|a: int| 0 <= a < ys.len() && (#[trigger] ys[a]).name@ == k;
            assert(ys.contains(ys[a]));
            let b = choose|b: int| 0 <= b < xs.len() && xs[b] == ys[a];
            assert(xs[b].name@ == k);
        }
    }
    assert forall|y: Package| insert_all(ds, xs).contains(y) <==> insert_all(ds, ys).contains(y) by {
        assert(has_name(xs, y.name@) <==> has_name(ys, y.name@));
        assert(xs.contains(y) <==> ys.contains(y));
        assert(insert_all(ds, xs).contains(y) <==> (xs.contains(y) || (ds.contains(y) && !has_name(xs, y.name@))));
        assert(insert_all(ds, ys).contains(y) <==> (ys.contains(y) || (ds.contains(y) && !has_name(ys, y.name@))));
    }
    lemma_sorted_unique(insert_all(ds, xs), insert_all(ds, ys));
}

/// The scalar fields of a spec, as hashed.
pub open spec fn enc_head(p: PackageSpec) -> Seq<u8> {
    enc_opt_bool(p.optional) + enc_opt_str(opt_view(p.version)) + enc_opt_str(
        opt_view(p.rename),
    ) + enc_opt_str(opt_view(p.build))
}

/// The first `n` entries of a dependency list, as hashed: for each entry its name, its
/// scalar fields, the number of its dependencies, and those, in turn.
pub open spec fn enc_forest(ds: Seq<Package>, n: nat) -> Seq<u8>
    decreases ds, n,
{
    if n == 0 || n > ds.len() {
        Seq::empty()
    } else {
        let d = ds[n - 1];
        let c = d.config_package.dependencies@;
        enc_forest(ds, (n - 1) as nat) + enc_str(d.name@) + enc_head(d.config_package) + enc_u64(
            c.len() as u64,
        ) + enc_forest(c, c.len())
    }
}

/// The bytes a configuration's hash is taken over.
pub open spec fn enc_config(packages: Seq<Package>) -> Seq<u8> {
    enc_u64(packages.len() as u64) + enc_forest(packages, packages.len())
}

/// What std's default hasher gives for a byte string.
pub uninterp spec fn default_hash_of(b: Seq<u8>) -> u64;

/// The hash of a configuration with these packages.
pub open spec fn config_hash_of(packages: Seq<Package>) -> u64 {
    default_hash_of(enc_config(packages))
}

/// Relies on std's `DefaultHasher` (fixed keys, bytes read in little-endian words):
/// `Hasher::write` then `Hasher::finish` give a value that depends on the bytes alone.
#[verifier::external_body]
fn hash_bytes(b: &[u8]) -> (r: u64)
    ensures
        r == default_hash_of(b@),
{
    let mut hasher = std::collections::hash_map::DefaultHasher::new();
    std::hash::Hasher::write(&mut hasher, b);
    std::hash::Hasher::finish(&hasher)
}

fn put_head(out: &mut Vec<u8>, p: &PackageSpec)
    ensures
        final(out)@ == old(out)@ + enc_head(*p),
{
    put_opt_bool(out, p.optional);
    put_opt_str(out, p.version.as_ref());
    put_opt_str(out, p.rename.as_ref());
    put_opt_str(out, p.build.as_ref());
    assert(final(out)@ =~= old(out)@ + enc_head(*p));
}

proof fn lemma_enc_forest_step(ds: Seq<Package>, i: nat)
    requires
        i < ds.len(),
    ensures
        enc_forest(ds, i + 1) == enc_forest(ds, i) + enc_str(ds[i as int].name@) + enc_head(
            ds[i as int].config_package,
        ) + enc_u64(ds[i as int].config_package.dependencies@.len() as u64) + enc_forest(
            ds[i as int].config_package.dependencies@,
            ds[i as int].config_package.dependencies@.len(),
        ),
{
}

fn put_forest(out: &mut Vec<u8>, ds: &Vec<Package>)
    ensures
        final(out)@ == old(out)@ + enc_forest(ds@, ds@.len()),
    decreases ds@,
{
    let ghost start = out@;
    let mut i: usize = 0;
    while i < ds.len()
        invariant
            i <= ds@.len(),
            out@ == start + enc_forest(ds@, i as nat),
        decreases ds@.len() - i,
    {
        let d = &ds[i];
        let ghost before = out@;
        put_str(out, d.name.as_str());
        put_head(out, &d.config_package);
        put_u64(out, d.config_package.dependencies.len() as u64);
        let ghost mid = out@;
        proof {
            assert(decreases_to!(ds@ => ds@[i as int]));
            assert(decreases_to!(ds@[i as int].config_package.dependencies => ds@[i as int].config_package.dependencies@));
        }
        put_forest(out, &d.config_package.dependencies);
        proof {
            lemma_enc_forest_step(ds@, i as nat);
            let c = d.config_package.dependencies@;
            assert(mid == before + enc_str(d.name@) + enc_head(d.config_package) + enc_u64(c.len() as u64));
            assert(out@ == mid + enc_forest(c, c.len()));
            assert(out@ =~= start + enc_forest(ds@, (i + 1) as nat));
        }
        i = i + 1;
    }
}

impl PackageSpec {
    /// A spec with the given fields and no dependencies.
    pub fn new(
        optional: Option<bool>,
        version: Option<String>,
        rename: Option<String>,
        build: Option<String>,
    ) -> (r: PackageSpec)
        ensures
            r.optional == optional,
            r.version == version,
            r.rename == rename,
            r.build == build,
            r.dependencies@.len() == 0,
    {
        PackageSpec { optional, version, rename, build, dependencies: Vec::new() }
    }

    /// Whether the package is optional; absent means no.
    pub fn is_optional(&self) -> (r: bool)
        ensures
            r == (self.optional == Some(true)),
    {
        match self.optional {
            Some(b) => b,
            None => false,
        }
    }

    /// Add a dependency under a declared key, in name order; a dependency already
    /// declared under that key is replaced.
    pub fn insert_dependency(&mut self, name: String, spec: PackageSpec)
        requires
            names_sorted(old(self).dependencies@),
        ensures
            final(self).dependencies@ == insert_dep(
                old(self).dependencies@,
                (Package { name: name, config_package: spec }),
            ),
            names_sorted(final(self).dependencies@),
            final(self).optional == old(self).optional,
            final(self).version == old(self).version,
            final(self).rename == old(self).rename,
            final(self).build == old(self).build,
    {
        insert_sorted(&mut self.dependencies, Package { name, config_package: spec });
    }
}

fn insert_sorted(ds: &mut Vec<Package>, x: Package)
    requires
        names_sorted(old(ds)@),
    ensures
        final(ds)@ == insert_dep(old(ds)@, x),
        names_sorted(final(ds)@),
{
    let ghost s = ds@;
    proof {
        lemma_dep_pos(s, x.name@);
        lemma_insert_dep(s, x);
    }
    let mut i: usize = 0;
    while i < ds.len()
        invariant
            ds@ == s,
            i <= s.len(),
            forall|j: int| 0 <= j < i ==> lex_lt((#[trigger] s[j]).name@, x.name@),
        ensures
            i <= s.len(),
            forall|j: int| 0 <= j < i ==> lex_lt((#[trigger] s[j]).name@, x.name@),
            i == s.len() || !lex_lt(s[i as int].name@, x.name@),
        decreases s.len() - i,
    {
        if !text_lt(ds[i].name.as_str(), x.name.as_str()) {
            break;
        }
        i = i + 1;
    }
    proof {
        let pos = dep_pos(s, x.name@);
        if (i as int) < pos {
            assert(lex_lt(s[i as int].name@, x.name@));
        }
        if (i as int) > pos {
            assert(lex_lt(s[pos].name@, x.name@));
        }
    }
    if i < ds.len() && crate::text::same_text(ds[i].name.as_str(), x.name.as_str()) {
        ds.remove(i);
        ds.insert(i, x);
        assert(ds@ =~= s.update(i as int, x));
    } else {
        ds.insert(i, x);
    }
}

impl Config {
    /// A configuration with no packages.
    pub fn new() -> (r: Config)
        ensures
            r.packages@.len() == 0,
    {
        Config { packages: Vec::new() }
    }

    /// Declare a package under a key, in name order; a package already declared under
    /// that key is replaced.
    pub fn insert_package(&mut self, name: String, spec: PackageSpec)
        requires
            names_sorted(old(self).packages@),
        ensures
            final(self).packages@ == insert_dep(
                old(self).packages@,
                (Package { name: name, config_package: spec }),
            ),
            names_sorted(final(self).packages@),
    {
        insert_sorted(&mut self.packages, Package { name, config_package: spec });
    }

    /// The configuration's hash: std's default hasher over the packages' canonical bytes.
    pub fn hash(&self) -> (r: u64)
        ensures
            r == config_hash_of(self.packages@),
    {
        let mut out: Vec<u8> = Vec::new();
        put_u64(&mut out, self.packages.len() as u64);
        put_forest(&mut out, &self.packages);
        assert(out@ =~= enc_config(self.packages@));
        hash_bytes(out.as_slice())
    }
}

/// The hash does not depend on the order in which packages were declared: declaring
/// the same packages, of distinct keys, in any two orders gives the same hash. The same
/// holds of each spec's dependencies, which are kept the same way.
pub proof fn lemma_hash_ignores_order(xs: Seq<Package>, ys: Seq<Package>)
    requires
        names_distinct(xs),
        names_distinct(ys),
        forall|y: Package| xs.contains(y) <==> ys.contains(y),
    ensures
        config_hash_of(insert_all(Seq::empty(), xs)) == config_hash_of(insert_all(Seq::empty(), ys)),
{
    lemma_insertion_order(Seq::empty(), xs, ys);
}

} // verus!
