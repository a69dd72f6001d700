//! The generation store's file format: a magic tag, a format version, then every
//! generation in key order, each with its manifest. Decoding an encoded store gives
//! the same store back.
use vstd::prelude::*;
use vstd::bytes::*;
use crate::codec::{
    enc_bool, enc_counted, enc_list, enc_opt_str, enc_str, enc_u64, holds_at, lemma_holds_split,
    lemma_parse_bool, lemma_parse_list, lemma_parse_opt_str, lemma_parse_str, lemma_parse_strs,
    lemma_parse_list_stops, lemma_parse_u64, parse_bool, parse_counted, parse_list, parse_opt_str, parse_str, parse_u64,
    put_bool, put_opt_str, put_str, put_strs, put_u64, str_encoder, str_ok, str_parser, strs_ok,
    take_bool, take_opt_str, take_str, take_strs, take_u64,
};
use crate::manifest::{
    GenerationHash, GenerationsFile, LoaderData, LoaderDataView, Manifest, ManifestView, Plugin,
    PluginView, StoreView, sorted_keys,
};
use crate::smith::LoaderType;
use crate::text::same_text;

verus! {

/// The version of the file format that this library writes and reads.
pub const FORMAT_VERSION: u64 = 1;

/// The four bytes every store file starts with.
pub open spec fn magic() -> Seq<u8> {
    seq![0x61u8, 0x6cu8, 0x70u8, 0x6bu8]
}

pub open spec fn enc_descriptor(d: LoaderDataView) -> Seq<u8> {
    enc_str(d.loader) + enc_str(d.commit) + enc_str(d.remote)
}

pub open spec fn descriptor_ok(d: LoaderDataView) -> bool {
    d.loader == "git"@ && str_ok(d.loader) && str_ok(d.commit) && str_ok(d.remote)
}

pub open spec fn parse_descriptor(b: Seq<u8>, pos: int) -> Option<(LoaderDataView, int)> {
    match parse_str(b, pos) {
        None => None,
        Some(a) => if a.0 != "git"@ {
            None
        } else {
            match parse_str(b, a.1) {
                None => None,
                Some(c) => match parse_str(b, c.1) {
                    None => None,
                    Some(r) => Some((LoaderDataView { loader: a.0, commit: c.0, remote: r.0 }, r.1)),
                },
            }
        },
    }
}

pub open spec fn enc_plugin(p: PluginView) -> Seq<u8> {
    enc_str(p.name) + enc_str(p.unresolved_name) + enc_opt_str(p.rename) + enc_bool(p.optional)
        + enc_counted(p.dependencies, str_encoder()) + enc_str(p.smith) + enc_str(p.build)
        + enc_descriptor(p.loader_data)
}

pub open spec fn plugin_ok(p: PluginView) -> bool {
    &&& str_ok(p.name)
    &&& str_ok(p.unresolved_name)
    &&& (p.rename is Some ==> str_ok(p.rename->0))
    &&& strs_ok(p.dependencies)
    &&& str_ok(p.smith)
    &&& str_ok(p.build)
    &&& descriptor_ok(p.loader_data)
}

pub open spec fn parse_plugin(b: Seq<u8>, pos: int) -> Option<(PluginView, int)> {
    match parse_str(b, pos) {
        None => None,
        Some(name) => match parse_str(b, name.1) {
            None => None,
            Some(un) => match parse_opt_str(b, un.1) {
                None => None,
                Some(rn) => match parse_bool(b, rn.1) {
                    None => None,
                    Some(opt) => match parse_counted(b, opt.1, str_parser()) {
                        None => None,
                        Some(deps) => match parse_str(b, deps.1) {
                            None => None,
                            Some(smith) => match parse_str(b, smith.1) {
                                None => None,
                                Some(build) => match parse_descriptor(b, build.1) {
                                    None => None,
                                    Some(d) => Some(
                                        (
                                            PluginView {
                                                name: name.0,
                                                unresolved_name: un.0,
                                                rename: rn.0,
                                                optional: opt.0,
                                                dependencies: deps.0,
                                                smith: smith.0,
                                                build: build.0,
                                                loader_data: d.0,
                                            },
                                            d.1,
                                        ),
                                    ),
                                },
                            },
                        },
                    },
                },
            },
        },
    }
}

pub open spec fn plugin_encoder() -> spec_fn(PluginView) -> Seq<u8> {
    |p: PluginView| enc_plugin(p)
}

pub open spec fn plugin_parser() -> spec_fn(Seq<u8>, int) -> Option<(PluginView, int)> {
    |b: Seq<u8>, pos: int| parse_plugin(b, pos)
}

pub open spec fn enc_manifest(m: ManifestView) -> Seq<u8> {
    enc_str(m.host_version) + enc_counted(m.plugins, plugin_encoder())
}

pub open spec fn manifest_ok(m: ManifestView) -> bool {
    &&& str_ok(m.host_version)
    &&& m.plugins.len() < 0x1_0000_0000_0000_0000
    &&& forall|i: int| 0 <= i < m.plugins.len() ==> plugin_ok(#[trigger] m.plugins[i])
}

pub open spec fn parse_manifest(b: Seq<u8>, pos: int) -> Option<(ManifestView, int)> {
    match parse_str(b, pos) {
        None => None,
        Some(h) => match parse_counted(b, h.1, plugin_parser()) {
            None => None,
            Some(ps) => Some((ManifestView { host_version: h.0, plugins: ps.0 }, ps.1)),
        },
    }
}

/// A key: the hash, then the generation number.
pub open spec fn enc_key(k: GenerationHash) -> Seq<u8> {
    enc_u64(k.0) + enc_u64(k.1)
}

pub open spec fn enc_entry(e: (GenerationHash, ManifestView)) -> Seq<u8> {
    enc_key(e.0) + enc_manifest(e.1)
}

pub open spec fn parse_entry(b: Seq<u8>, pos: int) -> Option<((GenerationHash, ManifestView), int)> {
    match parse_u64(b, pos) {
        None => None,
        Some(h) => match parse_u64(b, h.1) {
            None => None,
            Some(n) => match parse_manifest(b, n.1) {
                None => None,
                Some(m) => Some(((GenerationHash(h.0, n.0), m.0), m.1)),
            },
        },
    }
}

pub open spec fn entry_encoder() -> spec_fn((GenerationHash, ManifestView)) -> Seq<u8> {
    |e: (GenerationHash, ManifestView)| enc_entry(e)
}

pub open spec fn entry_parser() -> spec_fn(Seq<u8>, int) -> Option<
    ((GenerationHash, ManifestView), int),
> {
    |b: Seq<u8>, pos: int| parse_entry(b, pos)
}

/// The bytes of a store file.
pub open spec fn enc_store(s: StoreView) -> Seq<u8> {
    magic() + enc_u64(FORMAT_VERSION) + enc_counted(s, entry_encoder())
}

/// A store whose every length the format can record.
pub open spec fn store_ok(s: StoreView) -> bool {
    &&& s.len() < 0x1_0000_0000_0000_0000
    &&& forall|i: int| 0 <= i < s.len() ==> manifest_ok((#[trigger] s[i]).1)
}

/// The store a file holds: the magic tag, this format's version, the entries, nothing
/// after them, and keys in strictly increasing order.
pub open spec fn parse_store(b: Seq<u8>) -> Option<StoreView> {
    if b.len() >= 4 && b.subrange(0, 4) == magic() {
        match parse_u64(b, 4) {
            None => None,
            Some(v) => if v.0 != FORMAT_VERSION {
                None
            } else {
                match parse_counted(b, v.1, entry_parser()) {
                    None => None,
                    Some(es) => if es.1 == b.len() && sorted_keys(es.0) {
                        Some(es.0)
                    } else {
                        None
                    },
                }
            },
        }
    } else {
        None
    }
}

pub proof fn lemma_parse_descriptor(b: Seq<u8>, pos: int, d: LoaderDataView)
    requires
        holds_at(b, pos, enc_descriptor(d)),
        descriptor_ok(d),
    ensures
        parse_descriptor(b, pos) == Some((d, pos + enc_descriptor(d).len())),
{
    let e1 = enc_str(d.loader);
    let e2 = enc_str(d.commit);
    let e3 = enc_str(d.remote);
    lemma_holds_split(b, pos, e1 + e2, e3);
    lemma_holds_split(b, pos, e1, e2);
    lemma_parse_str(b, pos, d.loader);
    lemma_parse_str(b, pos + e1.len(), d.commit);
    lemma_parse_str(b, pos + e1.len() + e2.len(), d.remote);
}

pub proof fn lemma_parse_plugin(b: Seq<u8>, pos: int, p: PluginView)
    requires
        holds_at(b, pos, enc_plugin(p)),
        plugin_ok(p),
    ensures
        parse_plugin(b, pos) == Some((p, pos + enc_plugin(p).len())),
{
    let e1 = enc_str(p.name);
    let e2 = enc_str(p.unresolved_name);
    let e3 = enc_opt_str(p.rename);
    let e4 = enc_bool(p.optional);
    let e5 = enc_counted(p.dependencies, str_encoder());
    let e6 = enc_str(p.smith);
    let e7 = enc_str(p.build);
    let e8 = enc_descriptor(p.loader_data);
    lemma_holds_split(b, pos, e1 + e2 + e3 + e4 + e5 + e6 + e7, e8);
    lemma_holds_split(b, pos, e1 + e2 + e3 + e4 + e5 + e6, e7);
    lemma_holds_split(b, pos, e1 + e2 + e3 + e4 + e5, e6);
    lemma_holds_split(b, pos, e1 + e2 + e3 + e4, e5);
    lemma_holds_split(b, pos, e1 + e2 + e3, e4);
    lemma_holds_split(b, pos, e1 + e2, e3);
    lemma_holds_split(b, pos, e1, e2);
    let p1 = pos + e1.len();
    let p2 = p1 + e2.len();
    let p3 = p2 + e3.len();
    let p4 = p3 + e4.len();
    let p5 = p4 + e5.len();
    let p6 = p5 + e6.len();
    let p7 = p6 + e7.len();
    lemma_parse_str(b, pos, p.name);
    lemma_parse_str(b, p1, p.unresolved_name);
    lemma_parse_opt_str(b, p2, p.rename);
    lemma_parse_bool(b, p3, p.optional);
    lemma_parse_strs(b, p4, p.dependencies);
    lemma_parse_str(b, p5, p.smith);
    lemma_parse_str(b, p6, p.build);
    lemma_parse_descriptor(b, p7, p.loader_data);
}

pub proof fn lemma_parse_manifest(b: Seq<u8>, pos: int, m: ManifestView)
    requires
        holds_at(b, pos, enc_manifest(m)),
        manifest_ok(m),
    ensures
        parse_manifest(b, pos) == Some((m, pos + enc_manifest(m).len())),
{
    let e1 = enc_str(m.host_version);
    let e2 = enc_counted(m.plugins, plugin_encoder());
    lemma_holds_split(b, pos, e1, e2);
    lemma_parse_str(b, pos, m.host_version);
    let p1 = pos + e1.len();
    lemma_auto_spec_u64_to_from_le_bytes();
    lemma_holds_split(b, p1, enc_u64(m.plugins.len() as u64), enc_list(m.plugins, plugin_encoder()));
    lemma_parse_u64(b, p1, m.plugins.len() as u64);
    assert forall|x: PluginView, q: int|
        plugin_ok(x) && #[trigger] holds_at(b, q, plugin_encoder()(x)) implies plugin_parser()(
        b,
        q,
    ) == Some((x, q + plugin_encoder()(x).len())) by {
        lemma_parse_plugin(b, q, x);
    }
    lemma_parse_list(b, p1 + 8, m.plugins, plugin_encoder(), plugin_parser(), |x: PluginView| plugin_ok(x));
}

pub proof fn lemma_parse_entry(b: Seq<u8>, pos: int, e: (GenerationHash, ManifestView))
    requires
        holds_at(b, pos, enc_entry(e)),
        manifest_ok(e.1),
    ensures
        parse_entry(b, pos) == Some((e, pos + enc_entry(e).len())),
{
    let h = e.0.0;
    let n = e.0.1;
    lemma_u64_len(h);
    lemma_u64_len(n);
    lemma_holds_split(b, pos, enc_key(e.0), enc_manifest(e.1));
    lemma_holds_split(b, pos, enc_u64(h), enc_u64(n));
    lemma_parse_u64(b, pos, h);
    lemma_parse_u64(b, pos + 8, n);
    lemma_parse_manifest(b, pos + 16, e.1);
    let q = parse_manifest(b, pos + 16)->0;
    assert(parse_entry(b, pos) == Some(((GenerationHash(h, n), q.0), q.1)));
}

proof fn lemma_u64_len(x: u64)
    ensures
        enc_u64(x).len() == 8,
{
    lemma_auto_spec_u64_to_from_le_bytes();
}

/// Round trip: reading the bytes written for a well-formed store gives that store back,
/// with the same keys and the same manifests.
pub proof fn lemma_store_round_trip(s: StoreView)
    requires
        sorted_keys(s),
        store_ok(s),
    ensures
        parse_store(enc_store(s)) == Some(s),
{
    let b = enc_store(s);
    lemma_auto_spec_u64_to_from_le_bytes();
    let body = enc_list(s, entry_encoder());
    assert(b =~= magic() + enc_u64(FORMAT_VERSION) + enc_u64(s.len() as u64) + body);
    assert(b.subrange(0, 4) =~= magic());
    assert(b.subrange(0, b.len() as int) =~= b);
    assert(holds_at(b, 0, b));
    lemma_holds_split(b, 0, magic() + enc_u64(FORMAT_VERSION) + enc_u64(s.len() as u64), body);
    lemma_holds_split(b, 0, magic() + enc_u64(FORMAT_VERSION), enc_u64(s.len() as u64));
    lemma_holds_split(b, 0, magic(), enc_u64(FORMAT_VERSION));
    lemma_parse_u64(b, 4, FORMAT_VERSION);
    lemma_parse_u64(b, 12, s.len() as u64);
    assert forall|x: (GenerationHash, ManifestView), q: int|
        manifest_ok(x.1) && #[trigger] holds_at(b, q, entry_encoder()(x)) implies entry_parser()(
        b,
        q,
    ) == Some((x, q + entry_encoder()(x).len())) by {
        lemma_parse_entry(b, q, x);
    }
    assert forall|i: int| 0 <= i < s.len() implies (|x: (GenerationHash, ManifestView)|
        manifest_ok(x.1))(#[trigger] s[i]) by {}
    lemma_parse_list(b, 20, s, entry_encoder(), entry_parser(), |x: (GenerationHash, ManifestView)| manifest_ok(x.1));
}

fn put_descriptor(out: &mut Vec<u8>, d: &LoaderData)
    ensures
        final(out)@ == old(out)@ + enc_descriptor(d@),
        descriptor_ok(d@),
{
    match d {
        LoaderData::Git(g) => {
            put_str(out, "git");
            put_str(out, g.commit_hash.as_str());
            put_str(out, g.remote.as_str());
        },
    }
    assert(final(out)@ =~= old(out)@ + enc_descriptor(d@));
}

fn take_descriptor(b: &[u8], pos: usize) -> (r: Option<(LoaderData, usize)>)
    ensures
        match r {
            Some(p) => parse_descriptor(b@, pos as int) == Some((p.0@, p.1 as int)),
            None => parse_descriptor(b@, pos as int) is None,
        },
{
    let (tag, p1) = match take_str(b, pos) {
        None => return None,
        Some(x) => x,
    };
    if !same_text(tag.as_str(), "git") {
        return None;
    }
    let (commit_hash, p2) = match take_str(b, p1) {
        None => return None,
        Some(x) => x,
    };
    let (remote, p3) = match take_str(b, p2) {
        None => return None,
        Some(x) => x,
    };
    Some((LoaderData::Git(LoaderType { commit_hash, remote }), p3))
}

/// Append the encoding of a plugin.
pub fn put_plugin(out: &mut Vec<u8>, p: &Plugin)
    ensures
        final(out)@ == old(out)@ + enc_plugin(p@),
        plugin_ok(p@),
{
    put_str(out, p.name.as_str());
    put_str(out, p.unresolved_name.as_str());
    put_opt_str(out, p.rename.as_ref());
    put_bool(out, p.optional);
    put_strs(out, &p.dependencies);
    put_str(out, p.smith.as_str());
    put_str(out, p.build.as_str());
    put_descriptor(out, &p.loader_data);
    assert(final(out)@ =~= old(out)@ + enc_plugin(p@));
}

/// Read a plugin at `pos`.
pub fn take_plugin(b: &[u8], pos: usize) -> (r: Option<(Plugin, usize)>)
    ensures
        match r {
            Some(p) => parse_plugin(b@, pos as int) == Some((p.0@, p.1 as int)),
            None => parse_plugin(b@, pos as int) is None,
        },
{
    let (name, p1) = match take_str(b, pos) {
        None => return None,
        Some(x) => x,
    };
    let (unresolved_name, p2) = match take_str(b, p1) {
        None => return None,
        Some(x) => x,
    };
    let (rename, p3) = match take_opt_str(b, p2) {
        None => return None,
        Some(x) => x,
    };
    let (optional, p4) = match take_bool(b, p3) {
        None => return None,
        Some(x) => x,
    };
    let (dependencies, p5) = match take_strs(b, p4) {
        None => return None,
        Some(x) => x,
    };
    let (smith, p6) = match take_str(b, p5) {
        None => return None,
        Some(x) => x,
    };
    let (build, p7) = match take_str(b, p6) {
        None => return None,
        Some(x) => x,
    };
    let (loader_data, p8) = match take_descriptor(b, p7) {
        None => return None,
        Some(x) => x,
    };
    let plugin = Plugin {
        name,
        unresolved_name,
        rename,
        optional,
        dependencies,
        smith,
        build,
        loader_data,
    };
    Some((plugin, p8))
}

/// Append the encoding of a manifest.
pub fn put_manifest(out: &mut Vec<u8>, m: &Manifest)
    ensures
        final(out)@ == old(out)@ + enc_manifest(m@),
        manifest_ok(m@),
{
    let ghost w = m@.plugins;
    let ghost start = out@;
    put_str(out, m.neovim_version.as_str());
    put_u64(out, m.plugins.len() as u64);
    let ghost head = out@;
    let mut i: usize = 0;
    while i < m.plugins.len()
        invariant
            i <= w.len(),
            w == m@.plugins,
            w.len() == m.plugins@.len(),
            out@ == head + enc_list(w.subrange(0, i as int), plugin_encoder()),
            forall|j: int| 0 <= j < i ==> plugin_ok(#[trigger] w[j]),
        decreases w.len() - i,
    {
        put_plugin(out, &m.plugins[i]);
        proof {
            assert(w[i as int] == m.plugins@[i as int]@);
            assert(w.subrange(0, i as int + 1).drop_last() =~= w.subrange(0, i as int));
        }
        i = i + 1;
    }
    assert(w.subrange(0, w.len() as int) =~= w);
    assert(final(out)@ =~= old(out)@ + enc_manifest(m@));
}

/// Read a manifest at `pos`.
pub fn take_manifest(b: &[u8], pos: usize) -> (r: Option<(Manifest, usize)>)
    ensures
        match r {
            Some(p) => parse_manifest(b@, pos as int) == Some((p.0@, p.1 as int)),
            None => parse_manifest(b@, pos as int) is None,
        },
{
    let (host, p1) = match take_str(b, pos) {
        None => return None,
        Some(x) => x,
    };
    let (n, start) = match take_u64(b, p1) {
        None => return None,
        Some(x) => x,
    };
    let mut plugins: Vec<Plugin> = Vec::new();
    let mut at = start;
    let mut i: u64 = 0;
    while i < n
        invariant
            i <= n,
            parse_str(b@, pos as int) == Some((host@, p1 as int)),
            parse_u64(b@, p1 as int) == Some((n, start as int)),
            parse_list(b@, start as int, i as nat, plugin_parser()) == Some(
                (plugins@.map_values(|p: Plugin| p@), at as int),
            ),
        decreases n - i,
    {
        let ghost before = plugins@.map_values(|p: Plugin| p@);
        match take_plugin(b, at) {
            None => {
                proof {
                    lemma_parse_list_stops(b@, start as int, (i + 1) as nat, n as nat, plugin_parser());
                }
                return None;
            },
            Some((p, next)) => {
                plugins.push(p);
                at = next;
                assert(plugins@.map_values(|p: Plugin| p@) =~= before.push(p@));
            },
        }
        i = i + 1;
    }
    Some((Manifest { neovim_version: host, plugins }, at))
}

/// Read an entry (key and manifest) at `pos`.
fn take_entry(b: &[u8], pos: usize) -> (r: Option<((GenerationHash, Manifest), usize)>)
    ensures
        match r {
            Some(p) => parse_entry(b@, pos as int) == Some(((p.0.0, p.0.1@), p.1 as int)),
            None => parse_entry(b@, pos as int) is None,
        },
{
    let (h, p1) = match take_u64(b, pos) {
        None => return None,
        Some(x) => x,
    };
    let (n, p2) = match take_u64(b, p1) {
        None => return None,
        Some(x) => x,
    };
    let (m, p3) = match take_manifest(b, p2) {
        None => return None,
        Some(x) => x,
    };
    Some(((GenerationHash(h, n), m), p3))
}

fn put_entry(out: &mut Vec<u8>, e: &(GenerationHash, Manifest))
    ensures
        final(out)@ == old(out)@ + enc_entry((e.0, e.1@)),
        manifest_ok(e.1@),
{
    put_u64(out, e.0.0);
    put_u64(out, e.0.1);
    put_manifest(out, &e.1);
    assert(final(out)@ =~= old(out)@ + enc_entry((e.0, e.1@)));
}

/// The bytes of the store file for a store.
pub fn encode_store(g: &GenerationsFile) -> (r: Vec<u8>)
    ensures
        r@ == enc_store(g@),
        store_ok(g@),
{
    let mut out: Vec<u8> = Vec::new();
    out.push(0x61u8);
    out.push(0x6cu8);
    out.push(0x70u8);
    out.push(0x6bu8);
    assert(out@ =~= magic());
    put_u64(&mut out, FORMAT_VERSION);
    let entries = g.entries();
    let ghost w = g@;
    put_u64(&mut out, entries.len() as u64);
    let ghost head = out@;
    let mut i: usize = 0;
    while i < entries.len()
        invariant
            i <= w.len(),
            w == g@,
            w == entries@.map_values(|e: (GenerationHash, Manifest)| (e.0, e.1@)),
            out@ == head + enc_list(w.subrange(0, i as int), entry_encoder()),
            forall|j: int| 0 <= j < i ==> manifest_ok((#[trigger] w[j]).1),
        decreases w.len() - i,
    {
        put_entry(&mut out, &entries[i]);
        proof {
            assert(w[i as int] == (entries@[i as int].0, entries@[i as int].1@));
            assert(w.subrange(0, i as int + 1).drop_last() =~= w.subrange(0, i as int));
        }
        i = i + 1;
    }
    assert(w.subrange(0, w.len() as int) =~= w);
    assert(out@ =~= enc_store(g@));
    out
}

/// The store that a store file holds; `None` for bytes that are not a store file of
/// this format version, or that are corrupt.
pub fn decode_store(b: &[u8]) -> (r: Option<GenerationsFile>)
    ensures
        match r {
            Some(g) => g.wf() && parse_store(b@) == Some(g@),
            None => parse_store(b@) is None,
        },
{
    if b.len() < 4 || b[0] != 0x61u8 || b[1] != 0x6cu8 || b[2] != 0x70u8 || b[3] != 0x6bu8 {
        proof {
            if b@.len() >= 4 && b@.subrange(0, 4) == magic() {
                assert(b@[0] == b@.subrange(0, 4)[0]);
                assert(b@[1] == b@.subrange(0, 4)[1]);
                assert(b@[2] == b@.subrange(0, 4)[2]);
                assert(b@[3] == b@.subrange(0, 4)[3]);
            }
        }
        return None;
    }
    assert(b@.subrange(0, 4) =~= magic());
    let (version, p1) = match take_u64(b, 4) {
        None => return None,
        Some(x) => x,
    };
    if version != FORMAT_VERSION {
        return None;
    }
    let (n, start) = match take_u64(b, p1) {
        None => return None,
        Some(x) => x,
    };
    let mut entries: Vec<(GenerationHash, Manifest)> = Vec::new();
    let mut at = start;
    let mut i: u64 = 0;
    while i < n
        invariant
            i <= n,
            b@.len() >= 4 && b@.subrange(0, 4) == magic(),
            parse_u64(b@, 4) == Some((FORMAT_VERSION, p1 as int)),
            parse_u64(b@, p1 as int) == Some((n, start as int)),
            parse_list(b@, start as int, i as nat, entry_parser()) == Some(
                (entries@.map_values(|e: (GenerationHash, Manifest)| (e.0, e.1@)), at as int),
            ),
        decreases n - i,
    {
        let ghost before = entries@.map_values(|e: (GenerationHash, Manifest)| (e.0, e.1@));
        match take_entry(b, at) {
            None => {
                proof {
                    lemma_parse_list_stops(b@, start as int, (i + 1) as nat, n as nat, entry_parser());
                }
                return None;
            },
            Some((e, next)) => {
                let ghost ev = (e.0, e.1@);
                entries.push(e);
                at = next;
                assert(entries@.map_values(|e: (GenerationHash, Manifest)| (e.0, e.1@)) =~= before.push(ev));
            },
        }
        i = i + 1;
    }
    if at != b.len() {
        return None;
    }
    GenerationsFile::from_entries(entries)
}

impl GenerationHash {
    /// The sixteen bytes of this key: the hash, then the generation number, each little-endian.
    pub fn to_bytes(&self) -> (r: Vec<u8>)
        ensures
            r@ == enc_key(*self),
    {
        let mut out: Vec<u8> = Vec::new();
        put_u64(&mut out, self.0);
        put_u64(&mut out, self.1);
        assert(out@ =~= enc_key(*self));
        out
    }

    /// The key sixteen bytes hold; reading the bytes of a key gives that key back.
    pub fn from_bytes(b: &[u8]) -> (r: Option<GenerationHash>)
        ensures
            b@.len() != 16 ==> r is None,
            forall|k: GenerationHash| b@ == enc_key(k) ==> r == Some(k),
    {
        if b.len() != 16 {
            proof {
                assert forall|k: GenerationHash| b@ != enc_key(k) by {
                    lemma_u64_len(k.0);
                    lemma_u64_len(k.1);
                }
            }
            return None;
        }
        let (h, p1) = match take_u64(b, 0) {
            None => return None,
            Some(x) => x,
        };
        let (n, _) = match take_u64(b, p1) {
            None => return None,
            Some(x) => x,
        };
        proof {
            assert forall|k: GenerationHash| b@ == enc_key(k) implies GenerationHash(h, n) == k by {
                lemma_u64_len(k.0);
                assert(b@.subrange(0, b@.len() as int) =~= b@);
                lemma_holds_split(b@, 0, enc_u64(k.0), enc_u64(k.1));
                lemma_parse_u64(b@, 0, k.0);
                lemma_parse_u64(b@, 8, k.1);
            }
        }
        Some(GenerationHash(h, n))
    }
}

} // verus!
