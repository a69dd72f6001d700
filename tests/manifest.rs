use alpacka::manifest::{
    get_latest, get_latest_generation_number, get_next_generation_number, GenerationHash,
    GenerationsFile, LoaderData, Manifest, Plugin,
};
use alpacka::smith::LoaderType;
use alpacka::store::{decode_store, encode_store};

fn manifest(version: &str) -> Manifest {
    Manifest::new(version.to_string(), vec![])
}

fn plugin(name: &str, commit: &str) -> Plugin {
    Plugin {
        name: name.to_string(),
        unresolved_name: format!("github:someone/{name}"),
        rename: Some(format!("{name}-renamed")),
        optional: true,
        dependencies: vec!["github:x/y".to_string(), "gitlab:z/w".to_string()],
        smith: "git".to_string(),
        build: "make all".to_string(),
        loader_data: LoaderData::Git(LoaderType {
            commit_hash: commit.to_string(),
            remote: format!("https://github.com/someone/{name}.git"),
        }),
    }
}

#[test]
fn test_generation_hash_serialize_deserialize() {
    let generation = GenerationHash(123_125_124, 32);

    let bytes = generation.to_bytes();
    let deserialized = GenerationHash::from_bytes(&bytes).unwrap();
    assert_eq!(generation, deserialized);
}

#[test]
fn test_generations_file_serialize_deserialize() {
    let mut generations_file = GenerationsFile::new();
    let manifest = Manifest {
        neovim_version: "0.5.0".to_string(),
        plugins: vec![],
    };

    let hash = generations_file.add_to_generations(1, manifest);

    let bytes = encode_store(&generations_file);
    let deserialized = decode_store(&bytes).unwrap();

    let generations_file_manifest = generations_file.get(hash).unwrap();
    let deserialized_manifest = deserialized.get(hash).unwrap();

    assert_eq!(
        generations_file_manifest.neovim_version,
        deserialized_manifest.neovim_version
    );
}

#[test]
fn test_get_next_generation_number() {
    let mut generations_file = GenerationsFile::new();
    let manifest = Manifest {
        neovim_version: "0.5.0".to_string(),
        plugins: vec![],
    };

    assert_eq!(generations_file.get_next_generation_number(0), 1);

    generations_file.add_to_generations(0, manifest);

    assert_eq!(generations_file.get_next_generation_number(0), 2);
}

#[test]
fn generation_hash_bytes_are_little_endian() {
    let bytes = GenerationHash(1, 2).to_bytes();
    assert_eq!(bytes, vec![1, 0, 0, 0, 0, 0, 0, 0, 2, 0, 0, 0, 0, 0, 0, 0]);
    assert_eq!(GenerationHash::from_bytes(&bytes[..15]), None);
}

#[test]
fn first_generation_is_one_and_counts_up() {
    let mut g = GenerationsFile::new();
    assert_eq!(g.get_latest_generation_number(7), None);
    assert_eq!(g.add_to_generations(7, manifest("a")), GenerationHash(7, 1));
    assert_eq!(g.add_to_generations(7, manifest("b")), GenerationHash(7, 2));
    assert_eq!(g.add_to_generations(7, manifest("c")), GenerationHash(7, 3));
    assert_eq!(g.get_latest_generation_number(7), Some(3));
    assert_eq!(get_next_generation_number(&g, 7), 4);
}

#[test]
fn hashes_keep_separate_numbering() {
    let mut g = GenerationsFile::new();
    g.add_to_generations(9, manifest("a"));
    g.add_to_generations(3, manifest("b"));
    g.add_to_generations(9, manifest("c"));
    assert_eq!(g.add_to_generations(3, manifest("d")), GenerationHash(3, 2));
    assert_eq!(get_latest_generation_number(&g, 9), Some(2));
    assert_eq!(get_latest_generation_number(&g, 3), Some(2));
    assert_eq!(get_latest_generation_number(&g, 4), None);
    let keys: Vec<GenerationHash> = g.entries().iter().map(|e| e.0).collect();
    assert_eq!(
        keys,
        vec![
            GenerationHash(3, 1),
            GenerationHash(3, 2),
            GenerationHash(9, 1),
            GenerationHash(9, 2)
        ]
    );
}

#[test]
fn latest_manifest_is_the_highest_generation() {
    let mut g = GenerationsFile::new();
    g.add_to_generations(5, manifest("old"));
    g.add_to_generations(5, manifest("new"));
    assert_eq!(get_latest(&g, 5).unwrap().neovim_version, "new");
    assert!(get_latest(&g, 6).is_none());
}

#[test]
fn second_run_with_same_hash_mints_nothing() {
    let mut g = GenerationsFile::new();
    let first = g.lookup_or_record(11, manifest("first"));
    assert_eq!(first, GenerationHash(11, 1));
    let second = g.lookup_or_record(11, manifest("second"));
    assert_eq!(second, first);
    assert_eq!(g.len(), 1);
    assert_eq!(g.get_latest_manifest(11).unwrap().neovim_version, "first");
}

#[test]
fn store_round_trip_keeps_everything() {
    let mut g = GenerationsFile::new();
    g.add_to_generations(
        42,
        Manifest::new("0.9.0".to_string(), vec![plugin("a", "abc"), plugin("é✓", "def")]),
    );
    g.add_to_generations(1, manifest("0.8.0"));
    g.add_to_generations(42, manifest("0.10.0"));
    let bytes = encode_store(&g);
    assert_eq!(&bytes[..4], b"alpk");
    let back = decode_store(&bytes).unwrap();
    assert_eq!(back.len(), 3);
    let m = back.get(GenerationHash(42, 1)).unwrap();
    assert_eq!(m.neovim_version, "0.9.0");
    assert_eq!(m.plugins.len(), 2);
    let p = &m.plugins[1];
    assert_eq!(p.name, "é✓");
    assert_eq!(p.rename.as_deref(), Some("é✓-renamed"));
    assert!(p.optional);
    assert_eq!(p.dependencies, vec!["github:x/y".to_string(), "gitlab:z/w".to_string()]);
    assert_eq!(p.build, "make all");
    match &p.loader_data {
        LoaderData::Git(d) => {
            assert_eq!(d.commit_hash, "def");
            assert_eq!(d.remote, "https://github.com/someone/é✓.git");
        }
    }
    assert_eq!(encode_store(&back), bytes);
}

#[test]
fn corrupt_store_is_refused() {
    let mut g = GenerationsFile::new();
    g.add_to_generations(2, manifest("x"));
    let bytes = encode_store(&g);
    assert!(decode_store(&bytes[..bytes.len() - 1]).is_none());
    let mut longer = bytes.clone();
    longer.push(0);
    assert!(decode_store(&longer).is_none());
    let mut wrong_version = bytes.clone();
    wrong_version[4] = 2;
    assert!(decode_store(&wrong_version).is_none());
    assert!(decode_store(b"nope").is_none());
    assert!(decode_store(&[]).is_none());
}

#[test]
fn unsorted_entries_are_refused() {
    let entries = vec![(GenerationHash(2, 1), manifest("a")), (GenerationHash(1, 1), manifest("b"))];
    assert!(GenerationsFile::from_entries(entries).is_none());
    let sorted = vec![(GenerationHash(1, 1), manifest("a")), (GenerationHash(1, 2), manifest("b"))];
    assert_eq!(GenerationsFile::from_entries(sorted).unwrap().len(), 2);
}
