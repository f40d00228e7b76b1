use fontsource_downloader::query::FontQuery;
use fontsource_downloader::{FontFileType, QueryBuilder, Weight};

#[test]
fn weight_conversion() {
    assert_eq!(Weight::from(50), Weight::Thin); // Clamped to 100
    assert_eq!(Weight::from(256), Weight::ExtraLight);
    assert_eq!(Weight::from(322), Weight::Light);
    assert_eq!(Weight::from(404), Weight::Normal);
    assert_eq!(Weight::from(555), Weight::Medium);
    assert_eq!(Weight::from(666), Weight::SemiBold);
    assert_eq!(Weight::from(750), Weight::Bold);
    assert_eq!(Weight::from(888), Weight::ExtraBold);
    assert_eq!(Weight::from(950), Weight::Black); // Clamped to 900

    assert_eq!(u16::from(Weight::Thin), 100);
    assert_eq!(u16::from(Weight::ExtraLight), 200);
    assert_eq!(u16::from(Weight::Light), 300);
    assert_eq!(u16::from(Weight::Normal), 400);
    assert_eq!(u16::from(Weight::Medium), 500);
    assert_eq!(u16::from(Weight::SemiBold), 600);
    assert_eq!(u16::from(Weight::Bold), 700);
    assert_eq!(u16::from(Weight::ExtraBold), 800);
    assert_eq!(u16::from(Weight::Black), 900);

    let weight_ref = &Weight::Medium;
    assert_eq!(u16::from(weight_ref), 500);
}

#[test]
fn font_query_defaults() {
    let mut query = QueryBuilder::new("Roboto")
        .with_subset("") // Override default subset to test normalized_subset method
        .with_style(" Italic  ")
        .build(); // Test trimming and case insensitivity
    assert_eq!(query.family(), "Roboto");
    assert_eq!(query.styles().iter().collect::<Vec<&String>>(), vec!["italic"]);
    assert_eq!(
        query.weights().iter().collect::<Vec<&Weight>>(),
        vec![&Weight::Normal]
    );
    assert_eq!(
        query.file_types().iter().collect::<Vec<&FontFileType>>(),
        vec![&FontFileType::Ttf]
    );
    assert_eq!(query.subsets().iter().collect::<Vec<&String>>(), vec!["latin"]);

    query = QueryBuilder::from(query)
        .with_subset(" cyrillic ")
        .with_style("Oblique")
        .build();
    let subsets = query.subsets().iter().map(|v| v.as_str()).collect::<Vec<&str>>();
    assert!(subsets.contains(&"latin"));
    assert!(subsets.contains(&"cyrillic"));
    let styles = query.styles().iter().map(|v| v.as_str()).collect::<Vec<&str>>();
    assert!(styles.contains(&"italic"));
    assert!(styles.contains(&"oblique"));

    let default_query = QueryBuilder::new(query.family()).build();
    assert_eq!(default_query.family(), "Roboto");
    assert_eq!(
        default_query.styles().iter().collect::<Vec<&String>>(),
        vec!["normal"]
    );
    assert_eq!(
        default_query.weights().iter().collect::<Vec<&Weight>>(),
        vec![&Weight::Normal]
    );
    assert_eq!(
        default_query.file_types().iter().collect::<Vec<&FontFileType>>(),
        vec![&FontFileType::Ttf]
    );
    assert_eq!(
        default_query.subsets().iter().collect::<Vec<&String>>(),
        vec!["latin"]
    );
}

#[test]
fn builder_doc_example() {
    let query = QueryBuilder::new("Roboto")
        .with_weight(Weight::from(400))
        .with_weight(Weight::from(700))
        .with_file_type(FontFileType::Woff2)
        .with_file_type(FontFileType::Ttf)
        .build();
    assert_eq!(query.family(), "Roboto");
    assert!(query.weights().iter().any(|w| *w == Weight::Normal));
    assert!(query.weights().iter().any(|w| *w == Weight::Bold));
    assert!(query.file_types().iter().any(|t| *t == FontFileType::Woff2));
    assert!(query.file_types().iter().any(|t| *t == FontFileType::Ttf));
}

#[test]
fn builder_collections_are_sets() {
    let query = QueryBuilder::new("  Open Sans ")
        .with_style("ITALIC")
        .with_style("italic")
        .with_style(" italic")
        .with_weight(Weight::Bold)
        .with_weight(Weight::from(777))
        .with_subset("latin-ext")
        .with_subset(" latin-ext ")
        .with_file_type(FontFileType::Woff)
        .with_file_type(FontFileType::Woff)
        .build();
    assert_eq!(query.family(), "Open Sans");
    assert_eq!(query.styles(), &["italic".to_string()]);
    assert_eq!(query.weights(), &[Weight::Bold]);
    assert_eq!(query.subsets(), &["latin-ext".to_string()]);
    assert_eq!(query.file_types(), &[FontFileType::Woff]);
}

#[test]
fn builder_keeps_insertion_order() {
    let query = QueryBuilder::new("Roboto")
        .with_weight(Weight::Black)
        .with_weight(Weight::Thin)
        .with_weight(Weight::Black)
        .build();
    assert_eq!(query.weights(), &[Weight::Black, Weight::Thin]);
}

#[test]
fn style_normalization() {
    assert_eq!(QueryBuilder::normalized_style("Italic"), "italic");
    assert_eq!(QueryBuilder::normalized_style("\t OBLIQUE \n"), "oblique");
    assert_eq!(QueryBuilder::normalized_style("bold"), "normal");
    assert_eq!(QueryBuilder::normalized_style(""), "normal");
    assert_eq!(QueryBuilder::normalized_style("ital ic"), "normal");
    // Unicode whitespace is trimmed too.
    assert_eq!(QueryBuilder::normalized_style("\u{3000}italic\u{a0}"), "italic");
    // Only ASCII letters are compared without case.
    assert_eq!(QueryBuilder::normalized_style("\u{130}talic"), "normal");
}

#[test]
fn subset_normalization() {
    assert_eq!(QueryBuilder::normalized_subset("  cyrillic "), "cyrillic");
    assert_eq!(QueryBuilder::normalized_subset("   "), "latin");
    assert_eq!(QueryBuilder::normalized_subset(""), "latin");
    assert_eq!(QueryBuilder::normalized_subset("Greek"), "Greek");
}

#[test]
fn weight_new_clamps() {
    assert_eq!(Weight::new(-5), Weight::Thin);
    assert_eq!(Weight::new(-7), Weight::Thin);
    assert_eq!(Weight::new(0), Weight::Thin);
    assert_eq!(Weight::new(5000), Weight::Black);
    assert_eq!(Weight::new(100_000), Weight::Black);
    assert_eq!(Weight::default(), Weight::Normal);
}

#[test]
fn weight_new_rounds_to_nearest() {
    assert_eq!(Weight::new(880), Weight::Black);
    assert_eq!(Weight::new(149), Weight::Thin);
    assert_eq!(Weight::new(150), Weight::ExtraLight);
    assert_eq!(Weight::new(199), Weight::ExtraLight);
    assert_eq!(Weight::new(200), Weight::ExtraLight);
    assert_eq!(Weight::new(449).__int__(), 400);
    assert_eq!(Weight::new(450).__int__(), 500);
    assert_eq!(Weight::new(849), Weight::ExtraBold);
    assert_eq!(Weight::new(850), Weight::Black);
    assert_eq!(Weight::new(899), Weight::Black);
    // `From<u16>` keeps rounding down.
    assert_eq!(Weight::from(880u16), Weight::ExtraBold);
}

#[test]
fn weight_round_trip() {
    for w in [
        Weight::Thin,
        Weight::ExtraLight,
        Weight::Light,
        Weight::Normal,
        Weight::Medium,
        Weight::SemiBold,
        Weight::Bold,
        Weight::ExtraBold,
        Weight::Black,
    ] {
        assert_eq!(Weight::from(u16::from(w)), w);
    }
}

#[test]
fn file_type_extensions() {
    assert_eq!(FontFileType::Woff2.extension(), "woff2");
    assert_eq!(FontFileType::Woff.extension(), "woff");
    assert_eq!(FontFileType::Ttf.extension(), "ttf");
    assert_eq!(FontFileType::Woff2.__str__(), "woff2");
    assert_eq!(FontFileType::default(), FontFileType::Ttf);
}

#[test]
fn font_query_default_values() {
    let query = FontQuery::default();
    assert_eq!(query.family(), "Roboto");
    assert_eq!(query.get_family(), "Roboto");
    assert_eq!(query.get_styles(), vec!["normal".to_string()]);
    assert_eq!(query.get_weights(), vec![Weight::Normal]);
    assert_eq!(query.get_subsets(), vec!["latin".to_string()]);
    assert_eq!(query.get_file_types(), vec![FontFileType::Ttf]);
}

#[test]
fn font_query_from_lists() {
    let query = FontQuery::new_py(
        " Inter ".to_string(),
        Some(vec!["Italic".to_string(), "weird".to_string()]),
        Some(vec![Weight::Bold, Weight::Bold]),
        None,
        Some(vec![FontFileType::Woff2, FontFileType::Ttf]),
    );
    assert_eq!(query.family(), "Inter");
    assert_eq!(query.get_styles(), vec!["italic".to_string(), "normal".to_string()]);
    assert_eq!(query.get_weights(), vec![Weight::Bold]);
    assert_eq!(query.get_subsets(), vec!["latin".to_string()]);
    assert_eq!(query.get_file_types(), vec![FontFileType::Woff2, FontFileType::Ttf]);

    let empty = FontQuery::new_py("Roboto".to_string(), Some(vec![]), None, Some(vec![]), None);
    assert_eq!(empty.get_styles(), vec!["normal".to_string()]);
    assert_eq!(empty.get_subsets(), vec!["latin".to_string()]);
}

#[test]
fn query_round_trips_through_builder() {
    let query = QueryBuilder::new("Roboto")
        .with_style("italic")
        .with_weight(Weight::Light)
        .build();
    let copy = QueryBuilder::from(&query).build();
    assert_eq!(copy.family(), query.family());
    assert_eq!(copy.styles(), query.styles());
    assert_eq!(copy.weights(), query.weights());
    assert_eq!(copy.subsets(), query.subsets());
    assert_eq!(copy.file_types(), query.file_types());

    let filtered = query.filter_weights(&[300, 400]);
    assert_eq!(filtered, vec![300]);
    let available = vec!["latin".to_string(), "greek".to_string()];
    assert_eq!(query.filter_subsets(&available), vec![&"latin".to_string()]);
    assert!(query.filter_styles(&["normal".to_string()]).is_empty());
}
