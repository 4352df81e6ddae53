use std::sync::Arc;

use ldraw::alias::PartAlias;
use ldraw::alias_map::AliasMap;
use ldraw::document::{
    BfcCertification, ColorReference, Command, Document, MultipartDocument, PartReference,
};
use ldraw::error::ResolutionError;
use ldraw::library::{
    partition_resolver_map, retain_in_use, CacheCollectionStrategy, DependencyResolver, FileLocation, PartCache,
    PartKind, ResolutionResult, ResolutionState, TransientDocumentCache,
};

/// The 4x4 identity, as the bit patterns of single-precision numbers.
const IDENTITY: [u32; 16] = [
    0x3f80_0000, 0, 0, 0, 0, 0x3f80_0000, 0, 0, 0, 0, 0x3f80_0000, 0, 0, 0, 0, 0x3f80_0000,
];

fn document(name: &str, references: &[&str]) -> Document {
    Document {
        name: name.to_string(),
        author: "test".to_string(),
        description: format!("{} for tests", name),
        bfc: BfcCertification::NoCertify,
        headers: vec![],
        commands: references
            .iter()
            .map(|r| {
                Command::PartReference(PartReference {
                    color: ColorReference::Current,
                    matrix: IDENTITY,
                    name: PartAlias::new(r.to_string()),
                })
            })
            .collect(),
    }
}

fn multipart(name: &str, references: &[&str]) -> MultipartDocument {
    MultipartDocument { body: document(name, references), subparts: AliasMap::new() }
}

fn alias(name: &str) -> PartAlias {
    PartAlias::new(name.to_string())
}

#[test]
fn test_part_cache_query_existing() {
    let document = MultipartDocument {
        body: Document {
            name: "Doc".to_string(),
            author: "Author".to_string(),
            description: "Description".to_string(),
            bfc: BfcCertification::NoCertify,
            headers: vec![],
            commands: vec![],
        },
        subparts: AliasMap::new(),
    };

    let mut cache = PartCache::new();

    let existing_key = PartAlias::new("existing".to_string());
    let document = Arc::new(document);

    cache.register(PartKind::Primitive, existing_key.clone(), document.clone());

    assert_eq!(cache.query(&existing_key).unwrap(), document);
}

#[test]
fn test_part_cache_query_missing() {
    let cache = PartCache::new();
    let missing_key = PartAlias::new("missing".to_string());

    assert!(cache.query(&missing_key).is_none());
}

#[test]
fn part_cache_prefers_parts_and_ignores_case() {
    let mut cache = PartCache::new();
    let primitive = Arc::new(multipart("primitive", &[]));
    let part = Arc::new(multipart("part", &[]));
    cache.register(PartKind::Primitive, alias("3001.dat"), primitive.clone());
    assert_eq!(cache.query(&alias(" 3001.DAT ")).unwrap(), primitive);
    cache.register(PartKind::Part, alias("3001.dat"), part.clone());
    assert_eq!(cache.query(&alias("3001.dat")).unwrap(), part);
}

#[test]
fn collection_drops_only_unused_documents() {
    let mut cache = PartCache::new();
    let kept = Arc::new(multipart("kept", &[]));
    cache.register(PartKind::Part, alias("kept.dat"), kept.clone());
    cache.register(PartKind::Part, alias("dropped.dat"), Arc::new(multipart("dropped", &[])));
    cache.register(PartKind::Primitive, alias("stud.dat"), Arc::new(multipart("stud", &[])));
    assert_eq!(cache.collect_round(CacheCollectionStrategy::Parts), 1);
    assert!(cache.query(&alias("kept.dat")).is_some());
    assert!(cache.query(&alias("dropped.dat")).is_none());
    assert!(cache.query(&alias("stud.dat")).is_some());
    assert_eq!(cache.collect(CacheCollectionStrategy::PartsAndPrimitives), 1);
    assert!(cache.query(&alias("stud.dat")).is_none());
    assert!(cache.query(&alias("kept.dat")).is_some());
    drop(kept);
    assert_eq!(cache.collect(CacheCollectionStrategy::Primitives), 0);
    assert_eq!(cache.collect(CacheCollectionStrategy::Parts), 1);
}

#[test]
fn retaining_keeps_documents_in_use_in_order() {
    let mut map: AliasMap<Arc<MultipartDocument>> = AliasMap::new();
    map.insert(alias("a.dat"), Arc::new(multipart("a", &[])));
    map.insert(alias("b.dat"), Arc::new(multipart("b", &[])));
    map.insert(alias("c.dat"), Arc::new(multipart("c", &[])));
    map.insert(alias("d.dat"), Arc::new(multipart("d", &[])));
    let dropped = retain_in_use(&mut map, &vec![(1, 0), (3, 0), (1, 2), (1, 0)]);
    assert_eq!(dropped, 2);
    assert_eq!(map.len(), 2);
    assert_eq!(map.entry(0).0.normalized, "b.dat");
    assert_eq!(map.entry(1).0.normalized, "c.dat");
    assert!(!map.contains_key(&alias("a.dat")));
    assert!(!map.contains_key(&alias("d.dat")));
}

#[test]
fn retaining_documents_all_in_use_drops_nothing() {
    let mut map: AliasMap<Arc<MultipartDocument>> = AliasMap::new();
    map.insert(alias("a.dat"), Arc::new(multipart("a", &[])));
    map.insert(alias("b.dat"), Arc::new(multipart("b", &[])));
    assert_eq!(retain_in_use(&mut map, &vec![(2, 0), (1, 1)]), 0);
    assert_eq!(map.len(), 2);
    assert_eq!(map.entry(0).0.normalized, "a.dat");
    assert_eq!(map.entry(1).0.normalized, "b.dat");
}

#[test]
fn a_second_collection_drops_nothing() {
    let mut cache = PartCache::new();
    let held = Arc::new(multipart("held", &[]));
    cache.register(PartKind::Part, alias("held.dat"), held.clone());
    cache.register(PartKind::Primitive, alias("free.dat"), Arc::new(multipart("free", &[])));
    assert_eq!(cache.collect(CacheCollectionStrategy::PartsAndPrimitives), 1);
    assert_eq!(cache.collect(CacheCollectionStrategy::PartsAndPrimitives), 0);
    assert!(cache.query(&alias("held.dat")).is_some());
}

#[test]
fn transient_cache_finds_what_was_registered() {
    let mut cache = TransientDocumentCache::new();
    let doc = Arc::new(multipart("local", &[]));
    assert!(cache.query(&alias("local.ldr")).is_none());
    cache.register(alias("Local.ldr"), doc.clone());
    assert_eq!(cache.query(&alias("local.ldr")).unwrap(), doc);
}

#[test]
fn resolver_states_per_map() {
    let mut resolver = DependencyResolver::new();
    assert!(!resolver.contains_state(&alias("a.dat"), false));
    resolver.put_state(alias("a.dat"), false, ResolutionState::Pending);
    assert!(resolver.contains_state(&alias("A.DAT"), false));
    assert!(!resolver.contains_state(&alias("a.dat"), true));
    resolver.put_state(alias("a.dat"), true, ResolutionState::Subpart);
    resolver.clear_state(&alias("a.dat"), false);
    assert!(!resolver.contains_state(&alias("a.dat"), false));
    assert!(resolver.contains_state(&alias("a.dat"), true));
}

#[test]
fn scanning_marks_references_pending() {
    let cache = PartCache::new();
    let mut resolver = DependencyResolver::new();
    resolver.scan_dependencies(&cache, &document("root", &["a.dat", "b.dat", "a.dat"]), false);
    let pending = resolver.pending_dependencies();
    let names: Vec<(String, bool)> = pending.iter().map(|(a, l)| (a.normalized.clone(), *l)).collect();
    assert_eq!(names, vec![("a.dat".to_string(), false), ("b.dat".to_string(), false)]);
}

#[test]
fn scanning_finds_cached_documents() {
    let mut cache = PartCache::new();
    cache.register(PartKind::Part, alias("a.dat"), Arc::new(multipart("a", &["b.dat"])));
    let mut resolver = DependencyResolver::new();
    resolver.scan_dependencies(&cache, &document("root", &["a.dat"]), false);
    let pending = resolver.pending_dependencies();
    assert_eq!(pending.len(), 1);
    assert_eq!(pending[0].0.normalized, "b.dat");
    let result = resolver.finish();
    assert!(result.query(&alias("a.dat"), false).is_some());
}

#[test]
fn scanning_with_parent_resolves_subparts() {
    let cache = PartCache::new();
    let mut root = multipart("root", &["sub.ldr", "c.dat"]);
    root.subparts.insert(alias("sub.ldr"), document("sub.ldr", &["d.dat"]));
    let mut resolver = DependencyResolver::new();
    resolver.scan_dependencies_with_parent(&cache, None, &root, true);
    let pending: Vec<(String, bool)> = resolver
        .pending_dependencies()
        .iter()
        .map(|(a, l)| (a.normalized.clone(), *l))
        .collect();
    assert_eq!(pending, vec![("d.dat".to_string(), true), ("c.dat".to_string(), true)]);
    assert!(resolver.contains_state(&alias("sub.ldr"), true));
}

#[test]
fn scanning_keeps_states_already_known() {
    let mut cache = PartCache::new();
    cache.register(PartKind::Part, alias("a.dat"), Arc::new(multipart("a", &["b.dat"])));
    let mut resolver = DependencyResolver::new();
    resolver.put_state(alias("a.dat"), false, ResolutionState::Subpart);
    resolver.scan_dependencies(&cache, &document("root", &["a.dat", "c.dat"]), false);
    assert!(matches!(resolver.map.get(&alias("a.dat")), Some(ResolutionState::Subpart)));
    assert!(!resolver.contains_state(&alias("b.dat"), false));
    assert!(matches!(resolver.map.get(&alias("c.dat")), Some(ResolutionState::Pending)));
}

#[test]
fn scanning_prefers_subparts_then_local_then_cache() {
    let mut cache = PartCache::new();
    cache.register(PartKind::Part, alias("sub.ldr"), Arc::new(multipart("library sub", &[])));
    cache.register(PartKind::Part, alias("near.ldr"), Arc::new(multipart("library near", &[])));
    cache.register(PartKind::Part, alias("lib.dat"), Arc::new(multipart("lib", &[])));
    let near = Arc::new(multipart("near", &[]));
    let mut root = multipart("root", &["sub.ldr", "near.ldr", "lib.dat", "gone.dat"]);
    root.subparts.insert(alias("sub.ldr"), document("sub.ldr", &[]));
    let mut resolver = DependencyResolver::new();
    resolver.local_cache.register(alias("near.ldr"), near.clone());
    resolver.scan_dependencies_with_parent(&cache, None, &root, true);
    assert!(matches!(resolver.local_map.get(&alias("sub.ldr")), Some(ResolutionState::Subpart)));
    match resolver.local_map.get(&alias("near.ldr")) {
        Some(ResolutionState::Associated(d)) => assert_eq!(d.body.name, "near"),
        _ => panic!("near.ldr is not associated with the local document"),
    }
    assert!(!resolver.contains_state(&alias("lib.dat"), true));
    match resolver.map.get(&alias("lib.dat")) {
        Some(ResolutionState::Associated(d)) => assert_eq!(d.body.name, "lib"),
        _ => panic!("lib.dat is not associated with the cached document"),
    }
    assert!(matches!(resolver.local_map.get(&alias("gone.dat")), Some(ResolutionState::Pending)));
    assert!(!resolver.contains_state(&alias("sub.ldr"), false));
}

#[test]
fn subparts_of_local_documents_are_scanned_locally() {
    let cache = PartCache::new();
    let mut near = multipart("near", &["sub.ldr"]);
    near.subparts.insert(alias("sub.ldr"), document("sub.ldr", &["inner.ldr", "gone.dat"]));
    let inner = Arc::new(multipart("inner", &[]));
    let mut resolver = DependencyResolver::new();
    resolver.local_cache.register(alias("near.ldr"), Arc::new(near));
    resolver.local_cache.register(alias("inner.ldr"), inner.clone());
    resolver.scan_dependencies(&cache, &document("root", &["near.ldr"]), true);
    assert!(matches!(resolver.local_map.get(&alias("near.ldr")), Some(ResolutionState::Associated(_))));
    assert!(matches!(resolver.local_map.get(&alias("sub.ldr")), Some(ResolutionState::Subpart)));
    match resolver.local_map.get(&alias("inner.ldr")) {
        Some(ResolutionState::Associated(d)) => assert_eq!(d.body.name, "inner"),
        _ => panic!("inner.ldr is not associated with the local document"),
    }
    assert!(matches!(resolver.local_map.get(&alias("gone.dat")), Some(ResolutionState::Pending)));
    assert!(resolver.map.is_empty());
}

#[test]
fn a_loaded_local_document_is_scanned_locally() {
    let mut cache = PartCache::new();
    let mut resolver = DependencyResolver::new();
    resolver.local_cache.register(alias("other.ldr"), Arc::new(multipart("other", &[])));
    resolver.put_state(alias("model.ldr"), true, ResolutionState::Pending);
    resolver.apply_resolution(
        &mut cache,
        alias("model.ldr"),
        true,
        Ok((FileLocation::Local, multipart("model", &["other.ldr", "brick.dat"]))),
    );
    match resolver.local_map.get(&alias("other.ldr")) {
        Some(ResolutionState::Associated(d)) => assert_eq!(d.body.name, "other"),
        _ => panic!("other.ldr is not associated with the local document"),
    }
    assert!(matches!(resolver.local_map.get(&alias("brick.dat")), Some(ResolutionState::Pending)));
    assert!(matches!(resolver.local_map.get(&alias("model.ldr")), Some(ResolutionState::Associated(_))));
    assert!(!resolver.contains_state(&alias("other.ldr"), false));
}

#[test]
fn failures_keep_the_first_spelling_and_the_local_error() {
    let mut resolver = DependencyResolver::new();
    resolver.put_state(alias("Brick.DAT"), false, ResolutionState::Missing(ResolutionError::FileNotFound));
    resolver.put_state(alias("plate.dat"), false, ResolutionState::Missing(ResolutionError::NoLDrawDir));
    resolver.put_state(
        alias("brick.dat"),
        true,
        ResolutionState::Missing(ResolutionError::ParseError("bad line".to_string())),
    );
    let result = resolver.finish();
    let failures = result.failures();
    assert_eq!(failures.len(), 2);
    assert_eq!(failures.entry(0).0.original, "Brick.DAT");
    assert_eq!(failures.entry(0).1, ResolutionError::ParseError("bad line".to_string()));
    assert_eq!(failures.entry(1).0.original, "plate.dat");
    assert_eq!(failures.entry(1).1, ResolutionError::NoLDrawDir);
}

#[test]
fn scanning_locally_gives_library_keys_the_cached_document() {
    let mut cache = PartCache::new();
    cache.register(PartKind::Part, alias("a.dat"), Arc::new(multipart("a", &[])));
    let mut resolver = DependencyResolver::new();
    resolver.put_state(alias("a.dat"), false, ResolutionState::Pending);
    resolver.scan_dependencies(&cache, &document("root", &["a.dat"]), true);
    match resolver.map.get(&alias("a.dat")) {
        Some(ResolutionState::Associated(d)) => assert_eq!(d.body.name, "a"),
        _ => panic!("a.dat keeps a stale state"),
    }
}

#[test]
fn resolution_result_surfaces_missing_subpart_with_noop_callback() {
    let doc = multipart("root", &["does-not-exist.dat"]);
    let mut cache = PartCache::new();
    let mut resolver = DependencyResolver::new();
    resolver.scan_dependencies_with_parent(&cache, None, &doc, true);
    loop {
        let pending = resolver.pending_dependencies();
        if pending.is_empty() {
            break;
        }
        for (name, local) in pending {
            resolver.apply_resolution(&mut cache, name, local, Err(ResolutionError::FileNotFound));
        }
    }
    let result: ResolutionResult = resolver.finish();

    assert!(result.has_failures(), "missing sub-part must surface even with a no-op callback");
    assert!(
        result.failures().contains_key(&PartAlias::new("does-not-exist.dat".to_string())),
        "the specific missing alias should appear in failures()"
    );
    assert!(
        matches!(result.failures().entry(0).1, ResolutionError::FileNotFound),
        "the error from load_ref should be preserved verbatim"
    );
}

#[test]
fn resolution_loads_library_and_local_documents() {
    let doc = multipart("root", &["part.dat", "local.ldr"]);
    let mut cache = PartCache::new();
    let mut resolver = DependencyResolver::new();
    resolver.scan_dependencies_with_parent(&cache, None, &doc, true);
    let mut rounds = 0;
    loop {
        let pending = resolver.pending_dependencies();
        if pending.is_empty() {
            break;
        }
        rounds += 1;
        for (name, local) in pending {
            let loaded = match name.normalized.as_str() {
                "part.dat" => Ok((FileLocation::Library(PartKind::Part), multipart("part", &["stud.dat"]))),
                "local.ldr" => Ok((FileLocation::Local, multipart("local", &[]))),
                "stud.dat" => Ok((FileLocation::Library(PartKind::Primitive), multipart("stud", &[]))),
                _ => Err(ResolutionError::FileNotFound),
            };
            resolver.apply_resolution(&mut cache, name, local, loaded);
        }
    }
    assert_eq!(rounds, 2);
    let result = resolver.finish();
    assert!(!result.has_failures());
    assert_eq!(result.query(&alias("local.ldr"), true).unwrap().1, true);
    assert!(result.query(&alias("local.ldr"), false).is_none());
    assert_eq!(result.query(&alias("part.dat"), true).unwrap().1, false);
    assert_eq!(result.query(&alias("stud.dat"), false).unwrap().0.body.name, "stud");
    let mut deps: Vec<String> = result.list_dependencies().iter().map(|a| a.normalized.clone()).collect();
    deps.sort();
    assert_eq!(deps, vec!["local.ldr", "part.dat", "stud.dat"]);
    assert!(cache.query(&alias("part.dat")).is_some());
    assert!(cache.query(&alias("stud.dat")).is_some());
    assert!(cache.query(&alias("local.ldr")).is_none());
}

#[test]
fn empty_resolution_result() {
    let result = ResolutionResult::new();
    assert!(!result.has_failures());
    assert!(result.list_dependencies().is_empty());
    assert!(result.query(&alias("a.dat"), true).is_none());
}

#[test]
fn partition_keeps_documents_and_failures() {
    let mut map = AliasMap::new();
    let doc = Arc::new(multipart("a", &[]));
    map.insert(alias("a.dat"), ResolutionState::Associated(doc.clone()));
    map.insert(alias("b.dat"), ResolutionState::Missing(ResolutionError::ParseError("bad".to_string())));
    map.insert(alias("c.dat"), ResolutionState::Pending);
    map.insert(alias("d.dat"), ResolutionState::Subpart);
    map.insert(alias("f.dat"), ResolutionState::Missing(ResolutionError::IoError("denied".to_string())));
    let mut failures = AliasMap::new();
    failures.insert(alias("b.dat"), ResolutionError::FileNotFound);
    failures.insert(alias("e.dat"), ResolutionError::NoLDrawDir);
    let entries = partition_resolver_map(map, &mut failures);
    assert_eq!(entries.len(), 1);
    assert_eq!(*entries.get(&alias("a.dat")).unwrap(), doc);
    assert_eq!(failures.len(), 3);
    assert_eq!(*failures.get(&alias("f.dat")).unwrap(), ResolutionError::IoError("denied".to_string()));
    assert_eq!(
        *failures.get(&alias("b.dat")).unwrap(),
        ResolutionError::ParseError("bad".to_string())
    );
    assert_eq!(*failures.get(&alias("e.dat")).unwrap(), ResolutionError::NoLDrawDir);
}

#[test]
fn test_ir_library_feature_disabled() {
    // Runs when the test library of LDraw files is not at hand.
    assert!(true);
}

#[test]
fn test_library_feature_disabled() {
    // Runs when the test library of LDraw files is not at hand; keeps the
    // suite running.
    assert!(true);
}
