use fontsource_downloader::css_url_map;
use fontsource_downloader::error::FontSourceError;
use fontsource_downloader::responses::{
    join_path, FontSourceFamily, FontSourceStyles, FontSourceSubsets, FontSourceVariantSubset,
    FontSourceVariants, FontUrls, TextMap,
};
use fontsource_downloader::{FontFileType, QueryBuilder, Weight};

fn urls(entries: &[(FontFileType, &str)]) -> FontUrls {
    let mut url = FontUrls::new();
    for (t, u) in entries {
        url.insert(*t, u.to_string());
    }
    url
}

fn family_with(subsets: &[&str], variant_subsets: &[&str], url: FontUrls) -> FontSourceFamily {
    let mut subset_map = FontSourceSubsets::new();
    for s in variant_subsets {
        let copy = FontUrls::new();
        let mut copy = copy;
        for (t, u) in url.entries() {
            copy.insert(*t, u.clone());
        }
        subset_map.insert(s.to_string(), FontSourceVariantSubset { url: copy });
    }
    let mut style_map = FontSourceStyles::new();
    style_map.insert("normal".to_string(), subset_map);
    let mut variant_map = FontSourceVariants::new();
    variant_map.insert(400, style_map);
    FontSourceFamily {
        id: "roboto".to_string(),
        family: "Roboto".to_string(),
        subsets: subsets.iter().map(|s| s.to_string()).collect(),
        weights: vec![400],
        styles: vec!["normal".to_string()],
        default_subset: "latin".to_string(),
        unicode_range: TextMap::new(),
        variable: false,
        variants: variant_map,
    }
}

fn test_family(ttf_url: &str) -> FontSourceFamily {
    family_with(&["latin"], &["latin"], urls(&[(FontFileType::Ttf, ttf_url)]))
}

#[test]
fn css_url_maps_to_empty_list() {
    let empty = FontUrls::new();
    assert!(css_url_map(empty.entries(), None).is_empty());
    assert!(css_url_map(empty.entries(), Some(((400, "normal", "latin"), "../roboto"))).is_empty());
}

#[test]
fn css_url_map_cdn_order_and_formats() {
    let map = urls(&[
        (FontFileType::Ttf, "https://cdn/x.ttf"),
        (FontFileType::Woff2, "https://cdn/x.woff2"),
        (FontFileType::Woff, ""),
    ]);
    assert_eq!(
        css_url_map(map.entries(), None),
        vec![
            r#"url("https://cdn/x.woff2") format("woff2")"#.to_string(),
            r#"url("https://cdn/x.ttf") format("truetype")"#.to_string(),
        ]
    );
}

#[test]
fn css_url_map_self_hosted_paths() {
    let map = urls(&[
        (FontFileType::Woff, "https://cdn/x.woff"),
        (FontFileType::Woff2, "https://cdn/x.woff2"),
        (FontFileType::Ttf, "https://cdn/x.ttf"),
    ]);
    assert_eq!(
        css_url_map(map.entries(), Some(((700, "italic", "greek"), "..\\fonts"))),
        vec![
            r#"url("../fonts/greek-700-italic.woff2") format("woff2")"#.to_string(),
            r#"url("../fonts/greek-700-italic.woff") format("woff")"#.to_string(),
            r#"url("../fonts/greek-700-italic.ttf") format("truetype")"#.to_string(),
        ]
    );
    assert_eq!(
        css_url_map(map.entries(), Some(((400, "normal", "latin"), ""))),
        vec![
            r#"url("latin-400-normal.woff2") format("woff2")"#.to_string(),
            r#"url("latin-400-normal.woff") format("woff")"#.to_string(),
            r#"url("latin-400-normal.ttf") format("truetype")"#.to_string(),
        ]
    );
}

#[test]
fn path_joining() {
    assert_eq!(join_path("", "roboto"), "roboto");
    assert_eq!(join_path("../", "roboto"), "../roboto");
    assert_eq!(join_path("..", "roboto"), "../roboto");
    assert_eq!(join_path("a/b", "/abs"), "/abs");
}

#[test]
fn variant_selection_default_query() {
    let family = test_family("http://example.com/dummy.ttf");
    let query = QueryBuilder::new("Roboto").build();
    let choices = family.get_variant_subsets(&query).unwrap();
    assert_eq!(choices.len(), 1);
    let (weight, style, subset, variant) = choices[0];
    assert_eq!(weight, 400);
    assert_eq!(style, "normal");
    assert_eq!(subset, "latin");
    assert_eq!(
        variant.url.get(FontFileType::Ttf).map(|s| s.as_str()),
        Some("http://example.com/dummy.ttf")
    );
}

#[test]
fn unavailable_subset_falls_back_to_default() {
    let family = test_family("http://example.com/dummy.ttf");
    let query = QueryBuilder::new("Test Family").with_subset("french").build();
    let choices = family.get_variant_subsets(&query).unwrap();
    assert_eq!(choices.len(), 1);
    assert_eq!(choices[0].2, "latin");
}

#[test]
fn weight_not_available() {
    let family = test_family("http://example.com/dummy.ttf");
    let query = QueryBuilder::new("Test Family").with_weight(Weight::Bold).build();
    let Err(FontSourceError::FontVariantNotAvailable {
        family,
        field,
        requested_value,
    }) = family.get_variant_subsets(&query)
    else {
        panic!("expected FontVariantNotAvailable");
    };
    assert_eq!(family, "Test Family");
    assert_eq!(field, "weight");
    assert_eq!(requested_value.as_str(), "700");
}

#[test]
fn weights_reported_together() {
    let family = test_family("http://example.com/dummy.ttf");
    let query = QueryBuilder::new("Roboto")
        .with_weight(Weight::Bold)
        .with_weight(Weight::Thin)
        .build();
    let Err(FontSourceError::FontVariantNotAvailable { requested_value, .. }) =
        family.get_variant_subsets(&query)
    else {
        panic!("expected FontVariantNotAvailable");
    };
    assert_eq!(requested_value, "700, 100");
}

#[test]
fn style_not_available() {
    let family = test_family("http://example.com/dummy.ttf");
    let query = QueryBuilder::new("Test Family").with_style("italic").build();
    let Err(FontSourceError::FontVariantNotAvailable {
        field,
        requested_value,
        ..
    }) = family.get_variant_subsets(&query)
    else {
        panic!("expected FontVariantNotAvailable");
    };
    assert_eq!(field, "style");
    assert_eq!(requested_value.as_str(), "italic");
}

#[test]
fn subset_not_available_in_variants() {
    let family = family_with(
        &["latin", "cyrillic"],
        &["latin"],
        urls(&[(FontFileType::Ttf, "http://example.com/dummy.ttf")]),
    );
    let query = QueryBuilder::new("Test Family").with_subset("cyrillic").build();
    let Err(FontSourceError::FontVariantNotAvailable {
        family,
        field,
        requested_value,
    }) = family.get_variant_subsets(&query)
    else {
        panic!("expected FontVariantNotAvailable");
    };
    // The subset error names the family's own display name.
    assert_eq!(family, "Roboto");
    assert_eq!(field, "subset");
    assert_eq!(requested_value.as_str(), "cyrillic");
}

#[test]
fn weight_missing_from_variants() {
    let mut family = test_family("http://example.com/dummy.ttf");
    family.weights.push(700);
    let query = QueryBuilder::new("Roboto")
        .with_weight(Weight::Normal)
        .with_weight(Weight::Bold)
        .build();
    let Err(FontSourceError::FontVariantNotAvailable {
        field,
        requested_value,
        ..
    }) = family.get_variant_subsets(&query)
    else {
        panic!("expected FontVariantNotAvailable");
    };
    assert_eq!(field, "weight");
    assert_eq!(requested_value, "700");
}

#[test]
fn cdn_css_rule() {
    let mut family = test_family("http://example.com/dummy.ttf");
    family
        .unicode_range
        .insert("latin".to_string(), "U+0000-00FF".to_string());
    let query = QueryBuilder::new("Roboto").build();
    let css = family.css(&query, None).unwrap();
    assert_eq!(
        css,
        "\n@font-face {\n  font-family: 'Roboto';\n  font-style: normal;\n  font-weight: 400;\n  src:\n    url(\"http://example.com/dummy.ttf\") format(\"truetype\");\n  unicode-range: U+0000-00FF;\n}\n"
    );
}

#[test]
fn self_hosted_css_rule() {
    let family = family_with(
        &["latin"],
        &["latin"],
        urls(&[
            (FontFileType::Ttf, "http://example.com/dummy.ttf"),
            (FontFileType::Woff2, "http://example.com/dummy.woff2"),
        ]),
    );
    let query = QueryBuilder::new("Roboto")
        .with_file_type(FontFileType::Woff2)
        .with_file_type(FontFileType::Ttf)
        .build();
    let css = family.css(&query, Some("../")).unwrap();
    assert!(css.contains(r#"url("../roboto/latin-400-normal.woff2") format("woff2")"#));
    assert!(css.contains(r#"url("../roboto/latin-400-normal.ttf") format("truetype")"#));
    assert!(css.contains(",\n    "));
    let css = family.css(&query, Some("")).unwrap();
    assert!(css.contains(r#"url("roboto/latin-400-normal.woff2") format("woff2")"#));
    // Only the requested file types are used.
    let ttf_only = QueryBuilder::new("Roboto").build();
    let css = family.css(&ttf_only, None).unwrap();
    assert!(!css.contains("woff2"));
}

#[test]
fn css_reports_selection_errors() {
    let family = test_family("http://example.com/dummy.ttf");
    let query = QueryBuilder::new("Roboto").with_style("italic").build();
    assert!(matches!(
        family.css(&query, None),
        Err(FontSourceError::FontVariantNotAvailable { field: "style", .. })
    ));
}

#[test]
fn font_files_of_query() {
    let family = family_with(
        &["latin"],
        &["latin"],
        urls(&[
            (FontFileType::Ttf, "http://example.com/dummy.ttf"),
            (FontFileType::Woff, "http://example.com/dummy.woff"),
        ]),
    );
    let query = QueryBuilder::new("Roboto")
        .with_file_type(FontFileType::Woff)
        .with_file_type(FontFileType::Woff2)
        .build();
    let files = family.font_files(&query).unwrap();
    assert_eq!(files.len(), 1);
    assert_eq!(files[0].file_name, "latin-400-normal.woff");
    assert_eq!(files[0].url, "http://example.com/dummy.woff");
}

#[test]
fn keyed_insert_replaces() {
    let mut map = FontUrls::new();
    map.insert(FontFileType::Ttf, "a".to_string());
    map.insert(FontFileType::Woff, "b".to_string());
    map.insert(FontFileType::Ttf, "c".to_string());
    assert_eq!(map.entries().len(), 2);
    assert_eq!(map.get(FontFileType::Ttf).map(|s| s.as_str()), Some("c"));
    assert_eq!(map.get(FontFileType::Woff).map(|s| s.as_str()), Some("b"));
    assert_eq!(map.get(FontFileType::Woff2), None);

    let mut text = TextMap::new();
    text.insert("latin".to_string(), "x".to_string());
    text.insert("latin".to_string(), "y".to_string());
    assert_eq!(text.entries().len(), 1);
    assert_eq!(text.get(&"latin".to_string()).map(|s| s.as_str()), Some("y"));
}

fn two_by_two_family() -> FontSourceFamily {
    let mut variants = FontSourceVariants::new();
    for w in [400u16, 700] {
        let mut styles = FontSourceStyles::new();
        for st in ["normal", "italic"] {
            let mut subsets = FontSourceSubsets::new();
            for sub in ["latin", "greek"] {
                subsets.insert(
                    sub.to_string(),
                    FontSourceVariantSubset {
                        url: urls(&[(
                            FontFileType::Woff2,
                            format!("https://cdn/{sub}-{w}-{st}.woff2").as_str(),
                        )]),
                    },
                );
            }
            styles.insert(st.to_string(), subsets);
        }
        variants.insert(w, styles);
    }
    FontSourceFamily {
        id: "inter".to_string(),
        family: "Inter".to_string(),
        subsets: vec!["latin".to_string(), "greek".to_string()],
        weights: vec![400, 700],
        styles: vec!["normal".to_string(), "italic".to_string()],
        default_subset: "latin".to_string(),
        unicode_range: TextMap::new(),
        variable: false,
        variants,
    }
}

#[test]
fn selection_is_every_requested_combination() {
    let family = two_by_two_family();
    let query = QueryBuilder::new("Inter")
        .with_weight(Weight::Bold)
        .with_weight(Weight::Normal)
        .with_weight(Weight::Black)
        .with_style("italic")
        .with_style("normal")
        .with_subset("greek")
        .with_subset("latin")
        .build();
    let choices = family.get_variant_subsets(&query).unwrap();
    let keys: Vec<(u16, &str, &str)> = choices
        .iter()
        .map(|c| (c.0, c.1.as_str(), c.2.as_str()))
        .collect();
    assert_eq!(
        keys,
        vec![
            (700, "italic", "greek"),
            (700, "italic", "latin"),
            (700, "normal", "greek"),
            (700, "normal", "latin"),
            (400, "italic", "greek"),
            (400, "italic", "latin"),
            (400, "normal", "greek"),
            (400, "normal", "latin"),
        ]
    );
    for c in &choices {
        assert_eq!(
            c.3.url.get(FontFileType::Woff2).unwrap(),
            &format!("https://cdn/{}-{}-{}.woff2", c.2, c.0, c.1)
        );
    }
}

#[test]
fn self_hosted_css_names_the_fetched_files() {
    let family = two_by_two_family();
    let query = QueryBuilder::new("Inter")
        .with_style("italic")
        .with_file_type(FontFileType::Woff2)
        .build();
    let css = family.css(&query, Some("static")).unwrap();
    let files = family.font_files(&query).unwrap();
    assert_eq!(files.len(), 1);
    assert_eq!(files[0].file_name, "latin-400-italic.woff2");
    assert_eq!(files[0].url, "https://cdn/latin-400-italic.woff2");
    assert!(css.contains(&format!("url(\"static/inter/{}\")", files[0].file_name)));
}

#[test]
fn css_has_one_rule_per_selected_variant() {
    let mut family = two_by_two_family();
    family
        .unicode_range
        .insert("greek".to_string(), "U+0370-03FF".to_string());
    let query = QueryBuilder::new("Inter")
        .with_weight(Weight::Bold)
        .with_weight(Weight::Normal)
        .with_style("normal")
        .with_subset("latin")
        .with_subset("greek")
        .with_file_type(FontFileType::Woff2)
        .build();
    let css = family.css(&query, None).unwrap();
    assert_eq!(css.matches("@font-face").count(), 4);
    assert_eq!(css.matches("font-family: 'Inter';").count(), 4);
    assert_eq!(css.matches("unicode-range: U+0370-03FF;").count(), 2);
    let first = "\n@font-face {\n  font-family: 'Inter';\n  font-style: normal;\n  font-weight: 700;\n  src:\n    url(\"https://cdn/latin-700-normal.woff2\") format(\"woff2\");\n}\n";
    assert!(css.starts_with(first));
}

#[test]
fn self_hosted_css_urls_are_under_the_family_directory() {
    let family = two_by_two_family();
    let query = QueryBuilder::new("Inter")
        .with_weight(Weight::Bold)
        .with_style("italic")
        .with_subset("greek")
        .with_file_type(FontFileType::Woff2)
        .build();
    let css = family.css(&query, Some("../")).unwrap();
    assert!(css.contains("url(\"../inter/greek-700-italic.woff2\") format(\"woff2\")"));
    let css = family.css(&query, Some("")).unwrap();
    assert!(css.contains("url(\"inter/greek-700-italic.woff2\") format(\"woff2\")"));
}

#[test]
fn selected_variants_are_distinct() {
    let mut family = two_by_two_family();
    family.weights = vec![400, 700, 400];
    family.styles = vec!["normal".to_string(), "normal".to_string(), "italic".to_string()];
    let query = QueryBuilder::new("Inter")
        .with_weight(Weight::Normal)
        .with_weight(Weight::Bold)
        .with_style("normal")
        .with_style("italic")
        .with_subset("latin")
        .build();
    let choices = family.get_variant_subsets(&query).unwrap();
    assert_eq!(choices.len(), 4);
    for (i, a) in choices.iter().enumerate() {
        for b in &choices[i + 1..] {
            assert!((a.0, a.1, a.2) != (b.0, b.1, b.2));
        }
    }
}

#[test]
fn cloned_family_has_the_same_contents() {
    let mut family = two_by_two_family();
    family
        .unicode_range
        .insert("greek".to_string(), "U+0370-03FF".to_string());
    let copy = family.clone();
    let query = QueryBuilder::new("Inter")
        .with_weight(Weight::Bold)
        .with_style("italic")
        .with_subset("greek")
        .with_subset("latin")
        .with_file_type(FontFileType::Woff2)
        .build();
    assert_eq!(copy.css(&query, None).unwrap(), family.css(&query, None).unwrap());
    assert_eq!(copy.id, family.id);
    assert_eq!(copy.weights, family.weights);
    assert_eq!(copy.unicode_range.entries(), family.unicode_range.entries());
    let urls = copy.variants.entries()[0].1.entries()[0].1.entries()[0].1.url.clone();
    assert_eq!(
        urls.get(FontFileType::Woff2).map(|u| u.as_str()),
        Some("https://cdn/latin-400-normal.woff2")
    );
}

#[test]
fn default_maps_are_empty() {
    assert!(FontSourceVariants::default().entries().is_empty());
    assert!(FontSourceStyles::default().entries().is_empty());
    assert!(FontSourceSubsets::default().entries().is_empty());
}
