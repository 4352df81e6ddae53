use ldraw::loader::{alias_with_default_suffix, suffixed_alias, PartLoader};
use std::collections::HashMap;

#[test]
fn alias_with_default_suffix_appends_dat() {
    assert_eq!(alias_with_default_suffix("3001").original, "3001.dat");
    assert_eq!(
        alias_with_default_suffix("  3001 ").original,
        "3001.dat",
        "whitespace should be trimmed before suffix check",
    );
}

#[test]
fn alias_with_default_suffix_preserves_existing_extension() {
    for input in ["3001.dat", "model.ldr", "scene.mpd", "3001.DAT"] {
        assert_eq!(
            alias_with_default_suffix(input).original,
            input.trim(),
            "should not add .dat to {input}",
        );
    }
}

#[test]
fn default_suffix_alias_is_normalized() {
    let alias = alias_with_default_suffix(" Parts\\3001 ");
    assert_eq!(alias.original, "Parts\\3001.dat");
    assert_eq!(alias.normalized, "parts/3001.dat");
    let kept = alias_with_default_suffix("Model.LDR");
    assert_eq!(kept.original, "Model.LDR");
    assert_eq!(kept.normalized, "model.ldr");
}

#[test]
fn suffix_is_judged_on_the_lowered_name() {
    assert_eq!(suffixed_alias("3001".to_string(), "3001").original, "3001.dat");
    assert_eq!(suffixed_alias("3001.DAT".to_string(), "3001.dat").original, "3001.DAT");
    assert_eq!(suffixed_alias("a.mpd".to_string(), "a.mpd").original, "a.mpd");
    assert_eq!(suffixed_alias("a.MPD".to_string(), "a.MPD").original, "a.MPD.dat");
    assert_eq!(suffixed_alias("dat".to_string(), "dat").original, "dat.dat");
}

#[test]
fn part_loader_keeps_its_loader_and_colors() {
    let loader = PartLoader::new("library root", HashMap::new());
    assert_eq!(*loader.inner(), "library root");
    assert!(loader.colors().is_empty());
}

#[test]
fn default_suffix_applied_twice_changes_nothing() {
    for input in ["3001", "  3001 ", "Model.LDR", "x.Mpd", "", "a b", "3001.DAT.txt"] {
        let once = alias_with_default_suffix(input).original;
        let twice = alias_with_default_suffix(&once).original;
        assert_eq!(twice, once, "input {:?}", input);
    }
    assert_eq!(alias_with_default_suffix("").original, ".dat");
    assert_eq!(alias_with_default_suffix("3001.DAT.txt").original, "3001.DAT.txt.dat");
}
