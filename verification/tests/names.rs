use hwrng::matching::{
    first_match, first_preferred_match, format_query_list, resolve_preferred, resolve_with_notice,
    try_resolve,
};
use hwrng::naming::{normalize_root, parse_trailing_index};

fn queries(xs: &[&str]) -> Vec<String> {
    xs.iter().map(|s| s.to_string()).collect()
}

#[test]
fn normalize_aligns_rng_and_driver_names() {
    // virtio: rng is "virtio_rng.N", driver is "virtio_rng".
    assert_eq!(normalize_root("virtio_rng.0"), "virtio");
    assert_eq!(normalize_root("virtio_rng"), "virtio");
    // platform: rng is "bcm2835", driver is "bcm2835-rng".
    assert_eq!(normalize_root("bcm2835"), "bcm2835");
    assert_eq!(normalize_root("bcm2835-rng"), "bcm2835");
    // pci: rng "intel-rng" / driver "intel-rng".
    assert_eq!(normalize_root("intel-rng"), "intel");
    // omap uses underscore in driver name.
    assert_eq!(normalize_root("omap_rng"), "omap");
    // -trng / -hwrng variants.
    assert_eq!(normalize_root("ingenic-trng"), "ingenic");
    assert_eq!(normalize_root("foo-hwrng"), "foo");
    // tpm path is short-circuited elsewhere; just make sure it normalizes sanely.
    assert_eq!(normalize_root("tpm-rng-0"), "tpm");
}

#[test]
fn trailing_index_is_extracted_from_dot_or_dash() {
    assert_eq!(parse_trailing_index("virtio_rng.0"), Some(0));
    assert_eq!(parse_trailing_index("virtio_rng.3"), Some(3));
    assert_eq!(parse_trailing_index("tpm-rng-2"), Some(2));
    assert_eq!(parse_trailing_index("bcm2835"), None);
    assert_eq!(parse_trailing_index("intel-rng"), None);
}

#[test]
fn first_match_prefers_exact_then_first_prefix() {
    let names = vec!["infnoise-1-1:1.0", "infnoise-2-1:1.0", "tpm-rng-0"];
    assert_eq!(first_match(&names, "infnoise"), Some("infnoise-1-1:1.0"));
    assert_eq!(first_match(&names, "tpm-rng-0"), Some("tpm-rng-0"));
    assert_eq!(first_match(&names, "nope"), None);
}

#[test]
fn resolve_preferred_picks_first_on_ambiguous_prefix() {
    let names = vec!["infnoise-1-1:1.0", "infnoise-2-1:1.0", "tpm-rng-0"];
    let q = |s: &str| vec![s.to_string()];
    // single-match prefix.
    assert_eq!(resolve_preferred(&names, &q("tpm")).unwrap(), "tpm-rng-0");
    // ambiguous prefix → first match.
    assert_eq!(
        resolve_preferred(&names, &q("infnoise")).unwrap(),
        "infnoise-1-1:1.0"
    );
    // exact match wins even when it'd also be a prefix.
    let names2 = vec!["foo", "foobar"];
    assert_eq!(resolve_preferred(&names2, &q("foo")).unwrap(), "foo");
    // no match → error.
    assert!(resolve_preferred(&names, &q("nope")).is_err());
}

#[test]
fn resolve_preferred_falls_back_in_cli_order() {
    let names = vec!["infnoise-1-1:1.0", "tpm-rng-0"];
    // first preference unavailable → fall back to second.
    assert_eq!(
        resolve_preferred(&names, &queries(&["nonsense", "tpm"])).unwrap(),
        "tpm-rng-0"
    );
    // first preference available → wins even if later ones also match.
    assert_eq!(
        resolve_preferred(&names, &queries(&["infnoise", "tpm"])).unwrap(),
        "infnoise-1-1:1.0"
    );
    // none match → error.
    assert!(resolve_preferred(&names, &queries(&["x", "y"])).is_err());
}

#[test]
fn first_preferred_match_respects_cli_order() {
    let names = vec!["infnoise-1-1:1.0", "tpm-rng-0"];
    // skips unavailable, picks next.
    assert_eq!(
        first_preferred_match(&names, &queries(&["nope", "tpm", "infnoise"])),
        Some("tpm-rng-0")
    );
    // first available wins regardless of later entries.
    assert_eq!(
        first_preferred_match(&names, &queries(&["infnoise", "tpm"])),
        Some("infnoise-1-1:1.0")
    );
    // nothing matches.
    assert_eq!(first_preferred_match(&names, &queries(&["a", "b"])), None);
}

#[test]
fn exact_match_wins_behind_a_longer_name() {
    let names = vec!["foobar", "foo"];
    assert_eq!(first_match(&names, "foo"), Some("foo"));
    assert_eq!(first_match(&names, "fo"), Some("foobar"));
    assert_eq!(first_match(&names, ""), Some("foobar"));
    assert_eq!(first_match(&[], "foo"), None);
}

#[test]
fn query_lists_are_quoted_or_bracketed() {
    assert_eq!(format_query_list(&queries(&["tpm"])), "'tpm'");
    assert_eq!(format_query_list(&queries(&["tpm", "intel", "x"])), "[tpm, intel, x]");
    assert_eq!(format_query_list(&[]), "[]");
}

#[test]
fn unmatched_queries_are_reported_with_what_is_available() {
    let names = vec!["tpm-rng-0", "intel-rng"];
    assert_eq!(
        resolve_preferred(&names, &queries(&["x"])).unwrap_err(),
        "no rng matches 'x'. available: tpm-rng-0, intel-rng"
    );
    assert_eq!(
        resolve_preferred(&names, &queries(&["x", "y"])).unwrap_err(),
        "no rng matches [x, y]. available: tpm-rng-0, intel-rng"
    );
}

#[test]
fn ambiguous_prefix_comes_with_a_notice() {
    let names = vec!["infnoise-1", "tpm-rng-0", "infnoise-2"];
    let found = try_resolve(&names, "infnoise").unwrap();
    assert_eq!(found.name, "infnoise-1");
    assert_eq!(
        found.notice.as_deref(),
        Some("hwrng: 'infnoise' matches infnoise-1, infnoise-2, picking infnoise-1")
    );
    assert_eq!(try_resolve(&names, "tpm").unwrap().notice, None);
    assert_eq!(try_resolve(&names, "infnoise-2").unwrap().notice, None);
    assert!(try_resolve(&names, "nope").is_none());
    let found = resolve_with_notice(&names, &queries(&["nope", "inf"])).unwrap();
    assert_eq!(found.name, "infnoise-1");
    assert_eq!(
        found.notice.as_deref(),
        Some("hwrng: 'inf' matches infnoise-1, infnoise-2, picking infnoise-1")
    );
}

#[test]
fn later_queries_do_not_change_a_match() {
    let names = vec!["a-1", "b-1"];
    for more in [&["b"][..], &["a-1", "b"][..], &[][..]] {
        let mut list = queries(&["a"]);
        list.extend(queries(more));
        assert_eq!(first_preferred_match(&names, &list), Some("a-1"));
    }
}

#[test]
fn roots_ignore_case_separators_and_repeated_suffixes() {
    assert_eq!(normalize_root("OMAP_RNG"), "omap");
    assert_eq!(normalize_root("omap.rng"), "omap");
    assert_eq!(normalize_root("foo-hwrng-trng-rng"), "foo");
    assert_eq!(normalize_root("foo-rng.12"), "foo");
    assert_eq!(normalize_root("Übung_rng"), "Übung");
    assert_eq!(normalize_root(""), "");
    assert_eq!(normalize_root("-rng"), "");
    assert_eq!(normalize_root("rng"), "rng");
}

#[test]
fn only_one_index_is_removed_from_a_root() {
    assert_eq!(normalize_root("a-1-2"), "a-1");
    assert_eq!(normalize_root("a-1"), "a");
    assert_eq!(normalize_root("a-"), "a");
    assert_eq!(normalize_root("a-1x"), "a-1x");
    // Nothing stands before the dash.
    assert_eq!(normalize_root("-1"), "-1");
    assert_eq!(normalize_root("12"), "12");
    assert_eq!(normalize_root("a-1-rng"), "a-1");
}

#[test]
fn trailing_index_handles_the_edges() {
    assert_eq!(parse_trailing_index("42"), Some(42));
    assert_eq!(parse_trailing_index("a-007"), Some(7));
    assert_eq!(parse_trailing_index("a."), None);
    assert_eq!(parse_trailing_index(""), None);
    assert_eq!(parse_trailing_index("a_3"), None);
    assert_eq!(parse_trailing_index("a-+3"), None);
    assert_eq!(parse_trailing_index("a-3.x"), None);
    let most = usize::MAX.to_string();
    assert_eq!(parse_trailing_index(&format!("a-{most}")), Some(usize::MAX));
    assert_eq!(parse_trailing_index(&format!("a-{most}0")), None);
    let above = (usize::MAX as u128 + 1).to_string();
    assert_eq!(parse_trailing_index(&format!("a-{above}")), None);
}
