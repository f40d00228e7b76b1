//! Fontsource family metadata, the selection of the variants that a query
//! asks for, and the `@font-face` rules synthesized from them.

use crate::error::{FontSourceError, Missing};
use crate::keyed::{
    by_text, distinct_keys, find_file_type, find_text, find_u16, lookup, store_file_type,
    store_text, store_u16, stored,
};
use crate::query::{extension_of, kept, weight_value, FontFileType, FontQuery, QueryView, Weight};
use crate::query::string_refs_view;
use crate::text::{decimal, decimal_string, forward_slashes, join_strings, joined, strings_view};
use vstd::prelude::*;

verus! {

/// A specific font variant's download URLs, by file type; a variant may
/// not provide every file type.
#[derive(Debug)]
pub struct FontUrls(Vec<(FontFileType, String)>);

impl View for FontUrls {
    type V = Seq<(FontFileType, String)>;

    closed spec fn view(&self) -> Seq<(FontFileType, String)> {
        self.0@
    }
}

impl FontUrls {
    #[verifier::type_invariant]
    spec fn inv(self) -> bool {
        distinct_keys(self.0@)
    }

    /// No URLs.
    pub fn new() -> (r: FontUrls)
        ensures
            r@ == Seq::<(FontFileType, String)>::empty(),
    {
        FontUrls(Vec::new())
    }

    /// Stores `url` for `file_type`, replacing an earlier one.
    pub fn insert(&mut self, file_type: FontFileType, url: String)
        ensures
            stored(old(self)@, final(self)@, file_type, url),
    {
        proof {
            use_type_invariant(&*self);
        }
        let mut es = Vec::new();
        std::mem::swap(&mut es, &mut self.0);
        store_file_type(&mut es, file_type, url);
        self.0 = es;
    }

    /// The URL stored for `file_type`.
    pub fn get(&self, file_type: FontFileType) -> (r: Option<&String>)
        ensures
            match r {
                Some(v) => lookup(self@, file_type) == Some(*v),
                None => lookup(self@, file_type) is None,
            },
    {
        match find_file_type(&self.0, file_type) {
            Some(i) => Some(&self.0[i].1),
            None => None,
        }
    }

    /// The entries, each file type once.
    pub fn entries(&self) -> (r: &[(FontFileType, String)])
        ensures
            r@ == self@,
            distinct_keys(r@),
    {
        proof {
            use_type_invariant(self);
        }
        self.0.as_slice()
    }
}

/// A specific font variant's download URLs.
#[derive(Debug)]
pub struct FontSourceVariantSubset {
    /// The URL of each file type that the variant provides.
    pub url: FontUrls,
}

/// The mapping of a font variant's subsets to their download URLs.
#[derive(Debug)]
pub struct FontSourceSubsets(Vec<(String, FontSourceVariantSubset)>);

impl View for FontSourceSubsets {
    type V = Seq<(Seq<char>, FontSourceVariantSubset)>;

    closed spec fn view(&self) -> Seq<(Seq<char>, FontSourceVariantSubset)> {
        by_text(self.0@)
    }
}

impl FontSourceSubsets {
    #[verifier::type_invariant]
    spec fn inv(self) -> bool {
        distinct_keys(by_text(self.0@))
    }

    /// No subsets.
    pub fn new() -> (r: FontSourceSubsets)
        ensures
            r@ == Seq::<(Seq<char>, FontSourceVariantSubset)>::empty(),
    {
        let r = FontSourceSubsets(Vec::new());
        assert(r@ =~= Seq::<(Seq<char>, FontSourceVariantSubset)>::empty());
        r
    }

    /// Stores the URLs of `subset`, replacing earlier ones.
    pub fn insert(&mut self, subset: String, urls: FontSourceVariantSubset)
        ensures
            stored(old(self)@, final(self)@, subset@, urls),
    {
        proof {
            use_type_invariant(&*self);
        }
        let mut es = Vec::new();
        std::mem::swap(&mut es, &mut self.0);
        store_text(&mut es, subset, urls);
        self.0 = es;
    }

    /// The URLs stored for `subset`.
    pub fn subset(&self, subset: &String) -> (r: Option<&FontSourceVariantSubset>)
        ensures
            match r {
                Some(v) => lookup(self@, subset@) == Some(*v),
                None => lookup(self@, subset@) is None,
            },
    {
        match find_text(&self.0, subset) {
            Some(i) => Some(&self.0[i].1),
            None => None,
        }
    }

    /// The entries, each subset once.
    pub fn entries(&self) -> (r: &[(String, FontSourceVariantSubset)])
        ensures
            by_text(r@) == self@,
            distinct_keys(by_text(r@)),
    {
        proof {
            use_type_invariant(self);
        }
        self.0.as_slice()
    }
}

/// The mapping of font styles to their subsets.
#[derive(Debug)]
pub struct FontSourceStyles(Vec<(String, FontSourceSubsets)>);

impl View for FontSourceStyles {
    type V = Seq<(Seq<char>, FontSourceSubsets)>;

    closed spec fn view(&self) -> Seq<(Seq<char>, FontSourceSubsets)> {
        by_text(self.0@)
    }
}

impl FontSourceStyles {
    #[verifier::type_invariant]
    spec fn inv(self) -> bool {
        distinct_keys(by_text(self.0@))
    }

    /// No styles.
    pub fn new() -> (r: FontSourceStyles)
        ensures
            r@ == Seq::<(Seq<char>, FontSourceSubsets)>::empty(),
    {
        let r = FontSourceStyles(Vec::new());
        assert(r@ =~= Seq::<(Seq<char>, FontSourceSubsets)>::empty());
        r
    }

    /// Stores the subsets of `style`, replacing earlier ones.
    pub fn insert(&mut self, style: String, subsets: FontSourceSubsets)
        ensures
            stored(old(self)@, final(self)@, style@, subsets),
    {
        proof {
            use_type_invariant(&*self);
        }
        let mut es = Vec::new();
        std::mem::swap(&mut es, &mut self.0);
        store_text(&mut es, style, subsets);
        self.0 = es;
    }

    /// The subsets stored for `style`.
    pub fn style(&self, style: &String) -> (r: Option<&FontSourceSubsets>)
        ensures
            match r {
                Some(v) => lookup(self@, style@) == Some(*v),
                None => lookup(self@, style@) is None,
            },
    {
        match find_text(&self.0, style) {
            Some(i) => Some(&self.0[i].1),
            None => None,
        }
    }

    /// The entries, each style once.
    pub fn entries(&self) -> (r: &[(String, FontSourceSubsets)])
        ensures
            by_text(r@) == self@,
            distinct_keys(by_text(r@)),
    {
        proof {
            use_type_invariant(self);
        }
        self.0.as_slice()
    }
}

/// The mapping of font weights to their styles.
#[derive(Debug)]
pub struct FontSourceVariants(Vec<(u16, FontSourceStyles)>);

impl View for FontSourceVariants {
    type V = Seq<(u16, FontSourceStyles)>;

    closed spec fn view(&self) -> Seq<(u16, FontSourceStyles)> {
        self.0@
    }
}

impl FontSourceVariants {
    #[verifier::type_invariant]
    spec fn inv(self) -> bool {
        distinct_keys(self.0@)
    }

    /// No weights.
    pub fn new() -> (r: FontSourceVariants)
        ensures
            r@ == Seq::<(u16, FontSourceStyles)>::empty(),
    {
        FontSourceVariants(Vec::new())
    }

    /// Stores the styles of `weight`, replacing earlier ones.
    pub fn insert(&mut self, weight: u16, styles: FontSourceStyles)
        ensures
            stored(old(self)@, final(self)@, weight, styles),
    {
        proof {
            use_type_invariant(&*self);
        }
        let mut es = Vec::new();
        std::mem::swap(&mut es, &mut self.0);
        store_u16(&mut es, weight, styles);
        self.0 = es;
    }

    /// The styles stored for `weight`.
    pub fn weight(&self, weight: u16) -> (r: Option<&FontSourceStyles>)
        ensures
            match r {
                Some(v) => lookup(self@, weight) == Some(*v),
                None => lookup(self@, weight) is None,
            },
    {
        match find_u16(&self.0, weight) {
            Some(i) => Some(&self.0[i].1),
            None => None,
        }
    }

    /// The entries, each weight once.
    pub fn entries(&self) -> (r: &[(u16, FontSourceStyles)])
        ensures
            r@ == self@,
            distinct_keys(r@),
    {
        proof {
            use_type_invariant(self);
        }
        self.0.as_slice()
    }
}

/// A map from strings to strings (such as the Unicode range of each subset,
/// or the display name of each family ID).
#[derive(Debug)]
pub struct TextMap(Vec<(String, String)>);

impl View for TextMap {
    type V = Seq<(Seq<char>, String)>;

    closed spec fn view(&self) -> Seq<(Seq<char>, String)> {
        by_text(self.0@)
    }
}

impl TextMap {
    #[verifier::type_invariant]
    spec fn inv(self) -> bool {
        distinct_keys(by_text(self.0@))
    }

    /// An empty map.
    pub fn new() -> (r: TextMap)
        ensures
            r@ == Seq::<(Seq<char>, String)>::empty(),
    {
        let r = TextMap(Vec::new());
        assert(r@ =~= Seq::<(Seq<char>, String)>::empty());
        r
    }

    /// Stores `value` under `key`, replacing an earlier value.
    pub fn insert(&mut self, key: String, value: String)
        ensures
            stored(old(self)@, final(self)@, key@, value),
    {
        proof {
            use_type_invariant(&*self);
        }
        let mut es = Vec::new();
        std::mem::swap(&mut es, &mut self.0);
        store_text(&mut es, key, value);
        self.0 = es;
    }

    /// The value stored under `key`.
    pub fn get(&self, key: &String) -> (r: Option<&String>)
        ensures
            match r {
                Some(v) => lookup(self@, key@) == Some(*v),
                None => lookup(self@, key@) is None,
            },
    {
        match find_text(&self.0, key) {
            Some(i) => Some(&self.0[i].1),
            None => None,
        }
    }

    /// The entries, each key once.
    pub fn entries(&self) -> (r: &[(String, String)])
        ensures
            by_text(r@) == self@,
            distinct_keys(by_text(r@)),
    {
        proof {
            use_type_invariant(self);
        }
        self.0.as_slice()
    }
}

/// The metadata for a single font family.
#[derive(Debug)]
pub struct FontSourceFamily {
    /// The unique identifier of the family (e.g. "roboto").
    pub id: String,
    /// The display name of the family (e.g. "Roboto").
    pub family: String,
    /// The available subsets (e.g. "latin", "latin-ext").
    pub subsets: Vec<String>,
    /// The available weights (e.g. 400, 700).
    pub weights: Vec<u16>,
    /// The available styles (e.g. "normal", "italic").
    pub styles: Vec<String>,
    /// The default subset (e.g. "latin").
    pub default_subset: String,
    /// The Unicode range of each supported subset.
    pub unicode_range: TextMap,
    /// Whether the family provides variable fonts.
    pub variable: bool,
    /// The URLs of each variant, by weight, style and subset.
    pub variants: FontSourceVariants,
}

/// Two lists of subset entries with the same subsets, in the same order,
/// and the same URLs for each.
pub open spec fn same_subsets(a: Seq<(Seq<char>, FontSourceVariantSubset)>, b: Seq<(Seq<char>, FontSourceVariantSubset)>) -> bool {
    &&& a.len() == b.len()
    &&& forall|i: int| 0 <= i < a.len() ==> #[trigger] a[i].0 == b[i].0 && a[i].1.url@ == b[i].1.url@
}

/// Two lists of style entries with the same styles, in the same order, and
/// the same subsets for each.
pub open spec fn same_styles(a: Seq<(Seq<char>, FontSourceSubsets)>, b: Seq<(Seq<char>, FontSourceSubsets)>) -> bool {
    &&& a.len() == b.len()
    &&& forall|i: int| 0 <= i < a.len() ==> #[trigger] a[i].0 == b[i].0 && same_subsets(a[i].1@, b[i].1@)
}

/// Two lists of weight entries with the same weights, in the same order,
/// and the same styles for each.
pub open spec fn same_variants(a: Seq<(u16, FontSourceStyles)>, b: Seq<(u16, FontSourceStyles)>) -> bool {
    &&& a.len() == b.len()
    &&& forall|i: int| 0 <= i < a.len() ==> #[trigger] a[i].0 == b[i].0 && same_styles(a[i].1@, b[i].1@)
}

/// Two family metadata with the same contents.
pub open spec fn same_family(a: FontSourceFamily, b: FontSourceFamily) -> bool {
    &&& a.id == b.id
    &&& a.family == b.family
    &&& a.subsets@ == b.subsets@
    &&& a.weights@ == b.weights@
    &&& a.styles@ == b.styles@
    &&& a.default_subset == b.default_subset
    &&& a.unicode_range@ == b.unicode_range@
    &&& a.variable == b.variable
    &&& same_variants(a.variants@, b.variants@)
}

impl Clone for FontUrls {
    fn clone(&self) -> (r: FontUrls)
        ensures
            r@ == self@,
    {
        proof {
            use_type_invariant(self);
        }
        let mut v: Vec<(FontFileType, String)> = Vec::new();
        let mut i: usize = 0;
        while i < self.0.len()
            invariant
                i <= self.0.len(),
                v@ == self.0@.take(i as int),
            decreases self.0.len() - i,
        {
            let t = self.0[i].0;
            let u = self.0[i].1.clone();
            v.push((t, u));
            assert(v@ =~= self.0@.take(i + 1));
            i = i + 1;
        }
        assert(v@ =~= self.0@);
        FontUrls(v)
    }
}

impl Clone for FontSourceVariantSubset {
    fn clone(&self) -> (r: FontSourceVariantSubset)
        ensures
            r.url@ == self.url@,
    {
        FontSourceVariantSubset { url: self.url.clone() }
    }
}

impl Clone for FontSourceSubsets {
    fn clone(&self) -> (r: FontSourceSubsets)
        ensures
            same_subsets(r@, self@),
    {
        proof {
            use_type_invariant(self);
        }
        let mut v: Vec<(String, FontSourceVariantSubset)> = Vec::new();
        let mut i: usize = 0;
        while i < self.0.len()
            invariant
                i <= self.0.len(),
                v.len() == i,
                same_subsets(by_text(v@), by_text(self.0@.take(i as int))),
            decreases self.0.len() - i,
        {
            let k = self.0[i].0.clone();
            let x = self.0[i].1.clone();
            let ghost before = by_text(v@);
            let ghost done = by_text(self.0@.take(i as int));
            v.push((k, x));
            let ghost now = by_text(v@);
            let ghost want = by_text(self.0@.take(i + 1));
            assert forall|j: int| 0 <= j < now.len() implies #[trigger] now[j].0 == want[j].0 && now[j].1.url@
                == want[j].1.url@ by {
                if j < i {
                    assert(now[j] == before[j]);
                    assert(want[j] == done[j]);
                    assert(before[j].0 == done[j].0);
                } else {
                    assert(want[j] == (self.0@[j].0@, self.0@[j].1));
                }
            }
            assert(same_subsets(now, want));
            i = i + 1;
        }
        assert(self.0@.take(i as int) =~= self.0@);
        assert(distinct_keys(by_text(v@))) by {
            assert forall|a: int, b: int| 0 <= a < b < by_text(v@).len() implies by_text(v@)[a].0 != by_text(v@)[b].0 by {
                assert(by_text(v@)[a].0 == by_text(self.0@)[a].0);
                assert(by_text(v@)[b].0 == by_text(self.0@)[b].0);
            }
        }
        FontSourceSubsets(v)
    }
}


impl Clone for FontSourceStyles {
    fn clone(&self) -> (r: FontSourceStyles)
        ensures
            same_styles(r@, self@),
    {
        proof {
            use_type_invariant(self);
        }
        let mut v: Vec<(String, FontSourceSubsets)> = Vec::new();
        let mut i: usize = 0;
        while i < self.0.len()
            invariant
                i <= self.0.len(),
                v.len() == i,
                same_styles(by_text(v@), by_text(self.0@.take(i as int))),
            decreases self.0.len() - i,
        {
            let k = self.0[i].0.clone();
            let x = self.0[i].1.clone();
            let ghost before = by_text(v@);
            let ghost done = by_text(self.0@.take(i as int));
            v.push((k, x));
            let ghost now = by_text(v@);
            let ghost want = by_text(self.0@.take(i + 1));
            assert forall|j: int| 0 <= j < now.len() implies #[trigger] now[j].0 == want[j].0 && same_subsets(
                now[j].1@,
                want[j].1@,
            ) by {
                if j < i {
                    assert(now[j] == before[j]);
                    assert(want[j] == done[j]);
                    assert(before[j].0 == done[j].0);
                } else {
                    assert(want[j] == (self.0@[j].0@, self.0@[j].1));
                }
            }
            assert(same_styles(now, want));
            i = i + 1;
        }
        assert(self.0@.take(i as int) =~= self.0@);
        assert(distinct_keys(by_text(v@))) by {
            assert forall|a: int, b: int| 0 <= a < b < by_text(v@).len() implies by_text(v@)[a].0 != by_text(v@)[b].0 by {
                assert(by_text(v@)[a].0 == by_text(self.0@)[a].0);
                assert(by_text(v@)[b].0 == by_text(self.0@)[b].0);
            }
        }
        FontSourceStyles(v)
    }
}

impl Clone for FontSourceVariants {
    fn clone(&self) -> (r: FontSourceVariants)
        ensures
            same_variants(r@, self@),
    {
        proof {
            use_type_invariant(self);
        }
        let mut v: Vec<(u16, FontSourceStyles)> = Vec::new();
        let mut i: usize = 0;
        while i < self.0.len()
            invariant
                i <= self.0.len(),
                v.len() == i,
                same_variants(v@, self.0@.take(i as int)),
            decreases self.0.len() - i,
        {
            let k = self.0[i].0;
            let x = self.0[i].1.clone();
            let ghost before = v@;
            let ghost done = self.0@.take(i as int);
            v.push((k, x));
            let ghost want = self.0@.take(i + 1);
            assert forall|j: int| 0 <= j < v@.len() implies #[trigger] v@[j].0 == want[j].0 && same_styles(
                v@[j].1@,
                want[j].1@,
            ) by {
                if j < i {
                    assert(v@[j] == before[j]);
                    assert(want[j] == done[j]);
                    assert(before[j].0 == done[j].0);
                } else {
                    assert(want[j] == self.0@[j]);
                }
            }
            assert(same_variants(v@, want));
            i = i + 1;
        }
        assert(self.0@.take(i as int) =~= self.0@);
        assert(distinct_keys(v@)) by {
            assert forall|a: int, b: int| 0 <= a < b < v@.len() implies v@[a].0 != v@[b].0 by {
                assert(v@[a].0 == self.0@[a].0);
                assert(v@[b].0 == self.0@[b].0);
            }
        }
        FontSourceVariants(v)
    }
}

impl Clone for TextMap {
    fn clone(&self) -> (r: TextMap)
        ensures
            r@ == self@,
    {
        proof {
            use_type_invariant(self);
        }
        let mut v: Vec<(String, String)> = Vec::new();
        let mut i: usize = 0;
        while i < self.0.len()
            invariant
                i <= self.0.len(),
                v@ == self.0@.take(i as int),
            decreases self.0.len() - i,
        {
            let k = self.0[i].0.clone();
            let x = self.0[i].1.clone();
            v.push((k, x));
            assert(v@ =~= self.0@.take(i + 1));
            i = i + 1;
        }
        assert(v@ =~= self.0@);
        TextMap(v)
    }
}

impl Clone for FontSourceFamily {
    fn clone(&self) -> (r: FontSourceFamily)
        ensures
            same_family(r, *self),
    {
        let subsets = self.subsets.clone();
        let weights = self.weights.clone();
        let styles = self.styles.clone();
        assert(subsets@ =~= self.subsets@);
        assert(weights@ =~= self.weights@);
        assert(styles@ =~= self.styles@);
        FontSourceFamily {
            id: self.id.clone(),
            family: self.family.clone(),
            subsets,
            weights,
            styles,
            default_subset: self.default_subset.clone(),
            unicode_range: self.unicode_range.clone(),
            variable: self.variable,
            variants: self.variants.clone(),
        }
    }
}

impl Default for FontSourceSubsets {
    fn default() -> (r: FontSourceSubsets)
        ensures
            r@ == Seq::<(Seq<char>, FontSourceVariantSubset)>::empty(),
    {
        FontSourceSubsets::new()
    }
}

impl Default for FontSourceStyles {
    fn default() -> (r: FontSourceStyles)
        ensures
            r@ == Seq::<(Seq<char>, FontSourceSubsets)>::empty(),
    {
        FontSourceStyles::new()
    }
}

impl Default for FontSourceVariants {
    fn default() -> (r: FontSourceVariants)
        ensures
            r@ == Seq::<(u16, FontSourceStyles)>::empty(),
    {
        FontSourceVariants::new()
    }
}

/// A selected variant: its weight, style and subset, and its URLs.
pub type VariantChoice<'a> = (u16, &'a String, &'a String, &'a FontSourceVariantSubset);

/// The contents of a selected variant.
pub type ChoiceView = (u16, Seq<char>, Seq<char>, FontSourceVariantSubset);

/// The contents of selected variants.
pub open spec fn choices_view<'a>(v: Seq<VariantChoice<'a>>) -> Seq<ChoiceView> {
    v.map_values(|c: VariantChoice<'a>| (c.0, c.1@, c.2@, *c.3))
}

/// The outcome of a selection: the selected variants, or the first variant
/// found missing.
pub type Selection = Result<Seq<ChoiceView>, Missing>;

/// The selection `r` with `a` put before its variants.
pub open spec fn after(a: Seq<ChoiceView>, r: Selection) -> Selection {
    match r {
        Ok(b) => Ok(a + b),
        Err(m) => Err(m),
    }
}

/// The variants of `subsets` in the subsets of `weight` and `style`, or the
/// first subset that is missing (reported with the family's own name).
pub open spec fn select_subsets(
    weight: u16,
    style: Seq<char>,
    entry: FontSourceSubsets,
    subsets: Seq<Seq<char>>,
    family: Seq<char>,
) -> Selection
    decreases subsets.len(),
{
    if subsets.len() == 0 {
        Ok(seq![])
    } else {
        match lookup(entry@, subsets[0]) {
            None => Err(Missing { family, field: "subset"@, requested: subsets[0] }),
            Some(v) => after(
                seq![(weight, style, subsets[0], v)],
                select_subsets(weight, style, entry, subsets.drop_first(), family),
            ),
        }
    }
}

/// The variants of `styles` x `subsets` in the styles of `weight`, or the
/// first style or subset that is missing.
pub open spec fn select_styles(
    weight: u16,
    entry: FontSourceStyles,
    styles: Seq<Seq<char>>,
    subsets: Seq<Seq<char>>,
    query_family: Seq<char>,
    family: Seq<char>,
) -> Selection
    decreases styles.len(),
{
    if styles.len() == 0 {
        Ok(seq![])
    } else {
        match lookup(entry@, styles[0]) {
            None => Err(Missing { family: query_family, field: "style"@, requested: styles[0] }),
            Some(se) => match select_subsets(weight, styles[0], se, subsets, family) {
                Err(m) => Err(m),
                Ok(a) => after(
                    a,
                    select_styles(weight, entry, styles.drop_first(), subsets, query_family, family),
                ),
            },
        }
    }
}

/// The variants of `weights` x `styles` x `subsets`, or the first weight,
/// style or subset that is missing, in that order of traversal.
pub open spec fn select_weights(
    variants: FontSourceVariants,
    weights: Seq<u16>,
    styles: Seq<Seq<char>>,
    subsets: Seq<Seq<char>>,
    query_family: Seq<char>,
    family: Seq<char>,
) -> Selection
    decreases weights.len(),
{
    if weights.len() == 0 {
        Ok(seq![])
    } else {
        match lookup(variants@, weights[0]) {
            None => Err(
                Missing {
                    family: query_family,
                    field: "weight"@,
                    requested: decimal(weights[0] as nat),
                },
            ),
            Some(st) => match select_styles(weights[0], st, styles, subsets, query_family, family) {
                Err(m) => Err(m),
                Ok(a) => after(
                    a,
                    select_weights(
                        variants,
                        weights.drop_first(),
                        styles,
                        subsets,
                        query_family,
                        family,
                    ),
                ),
            },
        }
    }
}

/// The requested subsets that the family has, in query order, or else the
/// family's default subset.
pub open spec fn chosen_subsets(fam: FontSourceFamily, q: QueryView) -> Seq<Seq<char>> {
    let s = kept(q.subsets, strings_view(fam.subsets@));
    if s.len() == 0 {
        seq![fam.default_subset@]
    } else {
        s
    }
}

/// The requested weights that the family has, in query order.
pub open spec fn chosen_weights(fam: FontSourceFamily, q: QueryView) -> Seq<u16> {
    kept(q.weights.map_values(|w: Weight| weight_value(w)), fam.weights@)
}

/// The requested styles that the family has, in query order.
pub open spec fn chosen_styles(fam: FontSourceFamily, q: QueryView) -> Seq<Seq<char>> {
    kept(q.styles, strings_view(fam.styles@))
}

/// The requested weights, as text: their values joined by ", ".
pub open spec fn weights_text(ws: Seq<Weight>) -> Seq<char> {
    joined(ws.map_values(|w: Weight| decimal(weight_value(w) as nat)), ", "@)
}

/// The variants that a query selects from a family: every combination of
/// the chosen weights, styles and subsets, or the reason why the family
/// cannot serve the query.
pub open spec fn variant_selection(fam: FontSourceFamily, q: QueryView) -> Selection {
    if chosen_weights(fam, q).len() == 0 {
        Err(Missing { family: q.family, field: "weight"@, requested: weights_text(q.weights) })
    } else if chosen_styles(fam, q).len() == 0 {
        Err(Missing { family: q.family, field: "style"@, requested: joined(q.styles, ", "@) })
    } else {
        select_weights(
            fam.variants,
            chosen_weights(fam, q),
            chosen_styles(fam, q),
            chosen_subsets(fam, q),
            q.family,
            fam.family@,
        )
    }
}

/// The executable outcome `r` is the selection `s`.
pub open spec fn selects<'a>(r: Result<Vec<VariantChoice<'a>>, FontSourceError>, s: Selection) -> bool {
    match (r, s) {
        (Ok(v), Ok(c)) => choices_view(v@) == c,
        (Err(e), Err(m)) => e.reports(m),
        _ => false,
    }
}

/// Putting `a` and then `b` before a selection is putting `a + b` before it.
pub proof fn lemma_after_after(a: Seq<ChoiceView>, b: Seq<ChoiceView>, r: Selection)
    ensures
        after(a, after(b, r)) == after(a + b, r),
{
    if let Ok(c) = r {
        assert(a + (b + c) =~= (a + b) + c);
    }
}

/// Nothing put before a selection leaves it unchanged.
pub proof fn lemma_after_empty(r: Selection)
    ensures
        after(seq![], r) == r,
{
    if let Ok(c) = r {
        assert(Seq::<ChoiceView>::empty() + c =~= c);
    }
}

fn not_available(family: &str, field: &'static str, requested: String) -> (r: FontSourceError)
    ensures
        r.reports(Missing { family: family@, field: field@, requested: requested@ }),
{
    FontSourceError::FontVariantNotAvailable {
        family: family.to_owned(),
        field,
        requested_value: requested,
    }
}

fn select_subsets_exec<'a>(
    weight: u16,
    style: &'a String,
    entry: &'a FontSourceSubsets,
    subsets: &Vec<&'a String>,
    family: &String,
) -> (r: Result<Vec<VariantChoice<'a>>, FontSourceError>)
    ensures
        selects(r, select_subsets(weight, style@, *entry, string_refs_view(subsets@), family@)),
{
    let ghost subs = string_refs_view(subsets@);
    let ghost whole = select_subsets(weight, style@, *entry, subs, family@);
    let mut out: Vec<VariantChoice<'a>> = Vec::new();
    proof {
        assert(subs.skip(0) =~= subs);
        assert(choices_view(out@) =~= seq![]);
        lemma_after_empty(whole);
    }
    let mut j: usize = 0;
    while j < subsets.len()
        invariant
            j <= subsets.len(),
            subs == string_refs_view(subsets@),
            whole == select_subsets(weight, style@, *entry, subs, family@),
            whole == after(
                choices_view(out@),
                select_subsets(weight, style@, *entry, subs.skip(j as int), family@),
            ),
        decreases subsets.len() - j,
    {
        let ghost rest = subs.skip(j as int);
        assert(rest.drop_first() =~= subs.skip(j + 1));
        assert(rest[0] == subsets@[j as int]@);
        match entry.subset(subsets[j]) {
            None => {
                return Err(not_available(family.as_str(), "subset", subsets[j].clone()));
            },
            Some(v) => {
                let ghost before = choices_view(out@);
                let ghost c = (weight, style@, rest[0], *v);
                out.push((weight, style, subsets[j], v));
                proof {
                    assert(choices_view(out@) =~= before + seq![c]);
                    lemma_after_after(before, seq![c], select_subsets(weight, style@, *entry, subs.skip(j + 1), family@));
                }
            },
        }
        j = j + 1;
    }
    proof {
        assert(subs.skip(j as int) =~= Seq::<Seq<char>>::empty());
        assert(choices_view(out@) + Seq::<ChoiceView>::empty() =~= choices_view(out@));
    }
    Ok(out)
}

fn select_styles_exec<'a>(
    weight: u16,
    entry: &'a FontSourceStyles,
    styles: &Vec<&'a String>,
    subsets: &Vec<&'a String>,
    query_family: &str,
    family: &String,
) -> (r: Result<Vec<VariantChoice<'a>>, FontSourceError>)
    ensures
        selects(
            r,
            select_styles(
                weight,
                *entry,
                string_refs_view(styles@),
                string_refs_view(subsets@),
                query_family@,
                family@,
            ),
        ),
{
    let ghost sts = string_refs_view(styles@);
    let ghost subs = string_refs_view(subsets@);
    let ghost whole = select_styles(weight, *entry, sts, subs, query_family@, family@);
    let mut out: Vec<VariantChoice<'a>> = Vec::new();
    proof {
        assert(sts.skip(0) =~= sts);
        assert(choices_view(out@) =~= seq![]);
        lemma_after_empty(whole);
    }
    let mut i: usize = 0;
    while i < styles.len()
        invariant
            i <= styles.len(),
            sts == string_refs_view(styles@),
            subs == string_refs_view(subsets@),
            whole == select_styles(weight, *entry, sts, subs, query_family@, family@),
            whole == after(
                choices_view(out@),
                select_styles(weight, *entry, sts.skip(i as int), subs, query_family@, family@),
            ),
        decreases styles.len() - i,
    {
        let ghost rest = sts.skip(i as int);
        assert(rest.drop_first() =~= sts.skip(i + 1));
        assert(rest[0] == styles@[i as int]@);
        match entry.style(styles[i]) {
            None => {
                return Err(not_available(query_family, "style", styles[i].clone()));
            },
            Some(se) => {
                match select_subsets_exec(weight, styles[i], se, subsets, family) {
                    Err(e) => {
                        return Err(e);
                    },
                    Ok(mut a) => {
                        let ghost before = choices_view(out@);
                        let ghost av = choices_view(a@);
                        out.append(&mut a);
                        proof {
                            assert(choices_view(out@) =~= before + av);
                            lemma_after_after(
                                before,
                                av,
                                select_styles(weight, *entry, sts.skip(i + 1), subs, query_family@, family@),
                            );
                        }
                    },
                }
            },
        }
        i = i + 1;
    }
    proof {
        assert(sts.skip(i as int) =~= Seq::<Seq<char>>::empty());
        assert(choices_view(out@) + Seq::<ChoiceView>::empty() =~= choices_view(out@));
    }
    Ok(out)
}

fn select_weights_exec<'a>(
    variants: &'a FontSourceVariants,
    weights: &Vec<u16>,
    styles: &Vec<&'a String>,
    subsets: &Vec<&'a String>,
    query_family: &str,
    family: &String,
) -> (r: Result<Vec<VariantChoice<'a>>, FontSourceError>)
    ensures
        selects(
            r,
            select_weights(
                *variants,
                weights@,
                string_refs_view(styles@),
                string_refs_view(subsets@),
                query_family@,
                family@,
            ),
        ),
{
    let ghost sts = string_refs_view(styles@);
    let ghost subs = string_refs_view(subsets@);
    let ghost whole = select_weights(*variants, weights@, sts, subs, query_family@, family@);
    let mut out: Vec<VariantChoice<'a>> = Vec::new();
    proof {
        assert(weights@.skip(0) =~= weights@);
        assert(choices_view(out@) =~= seq![]);
        lemma_after_empty(whole);
    }
    let mut i: usize = 0;
    while i < weights.len()
        invariant
            i <= weights.len(),
            sts == string_refs_view(styles@),
            subs == string_refs_view(subsets@),
            whole == select_weights(*variants, weights@, sts, subs, query_family@, family@),
            whole == after(
                choices_view(out@),
                select_weights(*variants, weights@.skip(i as int), sts, subs, query_family@, family@),
            ),
        decreases weights.len() - i,
    {
        let ghost rest = weights@.skip(i as int);
        assert(rest.drop_first() =~= weights@.skip(i + 1));
        let w = weights[i];
        match variants.weight(w) {
            None => {
                return Err(not_available(query_family, "weight", decimal_string(w as u64)));
            },
            Some(st) => {
                match select_styles_exec(w, st, styles, subsets, query_family, family) {
                    Err(e) => {
                        return Err(e);
                    },
                    Ok(mut a) => {
                        let ghost before = choices_view(out@);
                        let ghost av = choices_view(a@);
                        out.append(&mut a);
                        proof {
                            assert(choices_view(out@) =~= before + av);
                            lemma_after_after(
                                before,
                                av,
                                select_weights(*variants, weights@.skip(i + 1), sts, subs, query_family@, family@),
                            );
                        }
                    },
                }
            },
        }
        i = i + 1;
    }
    proof {
        assert(weights@.skip(i as int) =~= Seq::<u16>::empty());
        assert(choices_view(out@) + Seq::<ChoiceView>::empty() =~= choices_view(out@));
    }
    Ok(out)
}

/// The requested weights as text: their values joined by ", ".
fn weights_as_text(ws: &[Weight]) -> (r: String)
    ensures
        r@ == weights_text(ws@),
{
    let mut parts: Vec<String> = Vec::new();
    let mut i: usize = 0;
    while i < ws.len()
        invariant
            i <= ws.len(),
            strings_view(parts@) == ws@.take(i as int).map_values(|w: Weight| decimal(weight_value(w) as nat)),
        decreases ws.len() - i,
    {
        let ghost before = strings_view(parts@);
        parts.push(decimal_string(ws[i].value() as u64));
        assert(strings_view(parts@) =~= before.push(decimal(weight_value(ws@[i as int]) as nat)));
        assert(ws@.take(i + 1).map_values(|w: Weight| decimal(weight_value(w) as nat)) =~= ws@.take(
            i as int,
        ).map_values(|w: Weight| decimal(weight_value(w) as nat)).push(decimal(weight_value(ws@[i as int]) as nat)));
        i = i + 1;
    }
    assert(ws@.take(ws.len() as int) =~= ws@);
    join_strings(parts.as_slice(), ", ")
}

impl FontSourceFamily {
    /// The variants that `query` selects: for each requested weight, style
    /// and subset that the family lists (in query order; the default subset
    /// where no requested subset is listed), the variant's URLs. Fails with
    /// `FontVariantNotAvailable` where no requested weight or style is listed,
    /// or where the variants lack a listed combination. No two selected
    /// variants have the same weight, style and subset.
    pub fn get_variant_subsets<'a>(&'a self, query: &'a FontQuery) -> (r: Result<
        Vec<VariantChoice<'a>>,
        FontSourceError,
    >)
        ensures
            selects(r, variant_selection(*self, query@)),
            r matches Ok(v) ==> distinct_choices(choices_view(v@)),
            r matches Ok(v) ==> forall|i: int|
                0 <= i < v.len() ==> {
                    &&& query@.styles.contains((#[trigger] v@[i]).1@)
                    &&& self.weights@.contains(v@[i].0)
                    &&& requests_listed_subset(*self, query@) ==> query@.subsets.contains(v@[i].2@)
                        && strings_view(self.subsets@).contains(v@[i].2@)
                    &&& !requests_listed_subset(*self, query@) ==> v@[i].2@ == self.default_subset@
                },
    {
        proof {
            use_type_invariant(query);
            lemma_selection_distinct(*self, query@);
            lemma_selection_members(*self, query@);
        }
        let mut subsets = query.filter_subsets(self.subsets.as_slice());
        if subsets.len() == 0 {
            subsets.push(&self.default_subset);
            assert(string_refs_view(subsets@) =~= seq![self.default_subset@]);
        }
        let weights = query.filter_weights(self.weights.as_slice());
        if weights.len() == 0 {
            let text = weights_as_text(query.weights());
            return Err(not_available(query.family(), "weight", text));
        }
        let styles = query.filter_styles(self.styles.as_slice());
        if styles.len() == 0 {
            let text = join_strings(query.styles(), ", ");
            return Err(not_available(query.family(), "style", text));
        }
        let res = select_weights_exec(&self.variants, &weights, &styles, &subsets, query.family(), &self.family);
        proof {
            if res is Ok {
                let v = res->Ok_0;
                let cs = choices_view(v@);
                assert forall|i: int| 0 <= i < v.len() implies {
                    &&& query@.styles.contains((#[trigger] v@[i]).1@)
                    &&& self.weights@.contains(v@[i].0)
                    &&& requests_listed_subset(*self, query@) ==> query@.subsets.contains(v@[i].2@)
                        && strings_view(self.subsets@).contains(v@[i].2@)
                    &&& !requests_listed_subset(*self, query@) ==> v@[i].2@ == self.default_subset@
                } by {
                    assert(cs[i] == (v@[i].0, v@[i].1@, v@[i].2@, *v@[i].3));
                }
            }
        }
        res
    }
}

/// The CSS `format(..)` name of each file type.
pub open spec fn format_name(t: FontFileType) -> Seq<char> {
    match t {
        FontFileType::Woff2 => "woff2"@,
        FontFileType::Woff => "woff"@,
        FontFileType::Ttf => "truetype"@,
    }
}

/// A CSS `src` entry: `url("<url>") format("<format>")`.
pub open spec fn src_text(url: Seq<char>, t: FontFileType) -> Seq<char> {
    "url(\""@ + url + "\") format(\""@ + format_name(t) + "\")"@
}

/// The file name of a variant: `<subset>-<weight>-<style>.<extension>`.
pub open spec fn font_file_name(subset: Seq<char>, weight: u16, style: Seq<char>, t: FontFileType) -> Seq<
    char,
> {
    subset + "-"@ + decimal(weight as nat) + "-"@ + style + "."@ + extension_of(t)
}

/// `name` appended to the path `prefix` as `Path::join` does with `/` as
/// separator: an absolute `name` replaces the prefix, and a separator is put
/// between them unless the prefix is empty or already ends with one.
pub open spec fn path_join(prefix: Seq<char>, name: Seq<char>) -> Seq<char> {
    if name.len() > 0 && name[0] == '/' {
        name
    } else if prefix.len() == 0 || prefix[prefix.len() - 1] == '/' {
        prefix + name
    } else {
        prefix + "/"@ + name
    }
}

/// A self-hosted variant: its weight, style and subset, and the path prefix
/// of its files.
pub type SelfHostedView = ((u16, Seq<char>, Seq<char>), Seq<char>);

/// The `src` entry of file type `t`: present where the map has a non-empty
/// URL for `t`, pointing at the URL itself, or at the self-hosted file.
pub open spec fn src_entry(map: Seq<(FontFileType, String)>, t: FontFileType, self_hosted: Option<
    SelfHostedView,
>) -> Seq<Seq<char>> {
    match lookup(map, t) {
        Some(u) => if u@.len() > 0 {
            match self_hosted {
                Some(((w, st, sub), prefix)) => seq![
                    src_text(forward_slashes(path_join(prefix, font_file_name(sub, w, st, t))), t),
                ],
                None => seq![src_text(u@, t)],
            }
        } else {
            seq![]
        },
        None => seq![],
    }
}

/// The CSS `src` entries of a variant, in the order WOFF2, WOFF, TrueType.
pub open spec fn css_src_list(map: Seq<(FontFileType, String)>, self_hosted: Option<SelfHostedView>) -> Seq<
    Seq<char>,
> {
    src_entry(map, FontFileType::Woff2, self_hosted) + src_entry(map, FontFileType::Woff, self_hosted)
        + src_entry(map, FontFileType::Ttf, self_hosted)
}

/// The contents of an optional self-hosted variant.
pub open spec fn self_hosted_view(sh: Option<((u16, &str, &str), &str)>) -> Option<SelfHostedView> {
    match sh {
        Some(((w, st, sub), prefix)) => Some(((w, st@, sub@), prefix@)),
        None => None,
    }
}

/// The file name `<subset>-<weight>-<style>.<extension>` of a variant.
pub fn file_name_of(subset: &str, weight: u16, style: &str, t: FontFileType) -> (r: String)
    ensures
        r@ == font_file_name(subset@, weight, style@, t),
{
    let mut r = subset.to_owned();
    r.append("-");
    r.append(decimal_string(weight as u64).as_str());
    r.append("-");
    r.append(style);
    r.append(".");
    r.append(t.extension());
    r
}

/// Appends `name` to the path `prefix` as `Path::join` does with `/` as
/// separator.
pub fn join_path(prefix: &str, name: &str) -> (r: String)
    ensures
        r@ == path_join(prefix@, name@),
{
    let n = name.unicode_len();
    if n > 0 && name.get_char(0) == '/' {
        return name.to_owned();
    }
    let m = prefix.unicode_len();
    let mut r = prefix.to_owned();
    if m > 0 && prefix.get_char(m - 1) != '/' {
        r.append("/");
    }
    r.append(name);
    r
}

fn src_text_of(url: &str, t: FontFileType) -> (r: String)
    ensures
        r@ == src_text(url@, t),
{
    let mut r = String::new();
    r.append("url(\"");
    r.append(url);
    r.append("\") format(\"");
    match t {
        FontFileType::Woff2 => r.append("woff2"),
        FontFileType::Woff => r.append("woff"),
        FontFileType::Ttf => r.append("truetype"),
    }
    r.append("\")");
    r
}

fn src_entry_of(
    map: &[(FontFileType, String)],
    t: FontFileType,
    self_hosted: Option<((u16, &str, &str), &str)>,
    out: &mut Vec<String>,
)
    ensures
        strings_view(final(out)@) == strings_view(old(out)@) + src_entry(
            map@,
            t,
            self_hosted_view(self_hosted),
        ),
{
    let ghost before = strings_view(out@);
    let mut i: usize = 0;
    while i < map.len()
        invariant
            i <= map.len(),
            out@ == old(out)@,
            before == strings_view(old(out)@),
            forall|j: int| 0 <= j < i ==> map@[j].0 != t,
        decreases map.len() - i,
    {
        if map[i].0 == t {
            proof {
                crate::keyed::lemma_lookup_first(map@, t, i as int);
            }
            let u = &map[i].1;
            assert(lookup(map@, t) == Some(*u));
            if !u.as_str().is_empty() {
                let entry = match self_hosted {
                    Some(((w, st, sub), prefix)) => {
                        let name = file_name_of(sub, w, st, t);
                        let path = join_path(prefix, name.as_str());
                        let path = crate::text::to_forward_slashes(path.as_str());
                        let e = src_text_of(path.as_str(), t);
                        assert(seq![e@] == src_entry(map@, t, self_hosted_view(self_hosted)));
                        e
                    },
                    None => {
                        let e = src_text_of(u.as_str(), t);
                        assert(seq![e@] == src_entry(map@, t, self_hosted_view(self_hosted)));
                        e
                    },
                };
                out.push(entry);
                assert(strings_view(out@) =~= before + seq![entry@]);
            } else {
                assert(src_entry(map@, t, self_hosted_view(self_hosted)) =~= seq![]);
            }
            assert(strings_view(out@) =~= before + src_entry(map@, t, self_hosted_view(self_hosted)));
            return;
        }
        i = i + 1;
    }
    proof {
        crate::keyed::lemma_lookup_absent(map@, t);
    }
    assert(strings_view(out@) =~= before + src_entry(map@, t, self_hosted_view(self_hosted)));
}

/// The CSS `src` entries of a variant's URLs, in the order WOFF2, WOFF,
/// TrueType, one for each file type with a non-empty URL. With
/// `self_hosted` (the weight, style and subset of the variant, and a path
/// prefix) each entry points at the self-hosted file
/// `<prefix>/<subset>-<weight>-<style>.<extension>`, with forward slashes;
/// without it, at the URL itself.
pub fn css_url_map(map: &[(FontFileType, String)], self_hosted: Option<((u16, &str, &str), &str)>) -> (r:
    Vec<String>)
    ensures
        strings_view(r@) == css_src_list(map@, self_hosted_view(self_hosted)),
        self_hosted is None ==> strings_view(r@) == cdn_entries(map@, FontFileType::Woff2) + cdn_entries(
            map@,
            FontFileType::Woff,
        ) + cdn_entries(map@, FontFileType::Ttf),
{
    proof {
        lemma_cdn_src_list(map@);
    }
    let mut parts: Vec<String> = Vec::new();
    assert(strings_view(parts@) =~= seq![]);
    src_entry_of(map, FontFileType::Woff2, self_hosted, &mut parts);
    src_entry_of(map, FontFileType::Woff, self_hosted, &mut parts);
    src_entry_of(map, FontFileType::Ttf, self_hosted, &mut parts);
    assert(strings_view(parts@) =~= css_src_list(map@, self_hosted_view(self_hosted)));
    parts
}

/// The entries of `es` whose file type is one of `types`, in order.
pub open spec fn of_types(es: Seq<(FontFileType, String)>, types: Seq<FontFileType>) -> Seq<
    (FontFileType, String),
> {
    es.filter(|e: (FontFileType, String)| types.contains(e.0))
}

fn contains_file_type(types: &[FontFileType], t: FontFileType) -> (r: bool)
    ensures
        r == types@.contains(t),
{
    let mut i: usize = 0;
    while i < types.len()
        invariant
            i <= types.len(),
            forall|k: int| 0 <= k < i ==> types@[k] != t,
        decreases types.len() - i,
    {
        if types[i] == t {
            return true;
        }
        i = i + 1;
    }
    false
}

impl FontUrls {
    /// The entries whose file type is one of `types`, in order.
    pub fn of_types(&self, types: &[FontFileType]) -> (r: Vec<(FontFileType, String)>)
        ensures
            r@ == of_types(self@, types@),
    {
        let ghost whole = self@;
        let ghost pred = |e: (FontFileType, String)| types@.contains(e.0);
        let mut r: Vec<(FontFileType, String)> = Vec::new();
        let mut i: usize = 0;
        while i < self.0.len()
            invariant
                i <= self.0.len(),
                whole == self@,
                whole == self.0@,
                pred == (|e: (FontFileType, String)| types@.contains(e.0)),
                r@ == whole.take(i as int).filter(pred),
            decreases self.0.len() - i,
        {
            reveal_with_fuel(Seq::<_>::filter, 1);
            assert(whole.take(i + 1).drop_last() =~= whole.take(i as int));
            let t = self.0[i].0;
            if contains_file_type(types, t) {
                let u = self.0[i].1.clone();
                r.push((t, u));
                assert(r@.last() == whole[i as int]);
            }
            i = i + 1;
        }
        assert(whole.take(self.0.len() as int) =~= whole);
        r
    }
}

/// An `@font-face` rule.
pub open spec fn css_rule(
    family: Seq<char>,
    style: Seq<char>,
    weight: u16,
    urls: Seq<Seq<char>>,
    range: Option<String>,
) -> Seq<char> {
    "\n@font-face {\n  font-family: '"@ + family + "';\n  font-style: "@ + style
        + ";\n  font-weight: "@ + decimal(weight as nat) + ";\n  src:\n    "@ + joined(
        urls,
        ",\n    "@,
    ) + ";"@ + match range {
        Some(r) => "\n  unicode-range: "@ + r@ + ";"@,
        None => Seq::<char>::empty(),
    } + "\n}\n"@
}

/// Writes an `@font-face` rule.
pub fn font_face_rule(
    family: &str,
    style: &str,
    weight: u16,
    urls: &[String],
    range: Option<&String>,
) -> (r: String)
    ensures
        r@ == css_rule(
            family@,
            style@,
            weight,
            strings_view(urls@),
            match range {
                Some(x) => Some(*x),
                None => None,
            },
        ),
        has_part(r@, "font-family: '"@ + family@ + "';"@),
        has_part(r@, "font-style: "@ + style@ + ";"@),
        has_part(r@, "font-weight: "@ + decimal(weight as nat) + ";"@),
        has_part(r@, "src:\n    "@ + joined(strings_view(urls@), ",\n    "@) + ";"@),
        range matches Some(x) ==> has_part(r@, "unicode-range: "@ + x@ + ";"@),
{
    proof {
        lemma_css_rule_declares(
            family@,
            style@,
            weight,
            strings_view(urls@),
            match range {
                Some(x) => Some(*x),
                None => None,
            },
        );
    }
    let mut css = String::new();
    css.append("\n@font-face {\n  font-family: '");
    css.append(family);
    css.append("';\n  font-style: ");
    css.append(style);
    css.append(";\n  font-weight: ");
    css.append(decimal_string(weight as u64).as_str());
    css.append(";\n  src:\n    ");
    css.append(join_strings(urls, ",\n    ").as_str());
    css.append(";");
    let ghost head = css@;
    match range {
        Some(x) => {
            css.append("\n  unicode-range: ");
            css.append(x.as_str());
            css.append(";");
        },
        None => {
            assert(css@ =~= head + Seq::<char>::empty());
        },
    }
    css.append("\n}\n");
    css
}

/// The optional prefix of self-hosted files, as seen by one variant.
pub open spec fn variant_self_hosted(c: ChoiceView, prefix: Option<Seq<char>>) -> Option<SelfHostedView> {
    match prefix {
        Some(p) => Some(((c.0, c.1, c.2), p)),
        None => None,
    }
}

/// The `@font-face` rule of one selected variant.
pub open spec fn choice_rule(fam: FontSourceFamily, q: QueryView, c: ChoiceView, prefix: Option<Seq<char>>) -> Seq<
    char,
> {
    css_rule(
        fam.family@,
        c.1,
        c.0,
        css_src_list(of_types(c.3.url@, q.file_types), variant_self_hosted(c, prefix)),
        lookup(fam.unicode_range@, c.2),
    )
}

/// The rules of the selected variants, in order.
pub open spec fn rules_text(fam: FontSourceFamily, q: QueryView, cs: Seq<ChoiceView>, prefix: Option<Seq<char>>) -> Seq<
    char,
>
    decreases cs.len(),
{
    if cs.len() == 0 {
        seq![]
    } else {
        rules_text(fam, q, cs.drop_last(), prefix) + choice_rule(fam, q, cs.last(), prefix)
    }
}

/// The path prefix of a family's self-hosted files: the family ID appended
/// to the relative prefix, where one is given.
pub open spec fn family_prefix(fam: FontSourceFamily, rel_prefix: Option<Seq<char>>) -> Option<Seq<char>> {
    match rel_prefix {
        Some(p) => Some(path_join(p, fam.id@)),
        None => None,
    }
}

/// The CSS of a family for a query: one `@font-face` rule per selected
/// variant, or the reason why the family cannot serve the query.
pub open spec fn family_css(fam: FontSourceFamily, q: QueryView, rel_prefix: Option<Seq<char>>) -> Result<
    Seq<char>,
    Missing,
> {
    match variant_selection(fam, q) {
        Ok(cs) => Ok(rules_text(fam, q, cs, family_prefix(fam, rel_prefix))),
        Err(m) => Err(m),
    }
}

/// The files of a selected variant: for each of its URLs of a requested file
/// type, the file name and the URL.
pub open spec fn choice_files(c: ChoiceView, types: Seq<FontFileType>) -> Seq<(Seq<char>, Seq<char>)> {
    of_types(c.3.url@, types).map_values(
        |e: (FontFileType, String)| (font_file_name(c.2, c.0, c.1, e.0), e.1@),
    )
}

/// The files of the selected variants, in order.
pub open spec fn files_of(cs: Seq<ChoiceView>, types: Seq<FontFileType>) -> Seq<(Seq<char>, Seq<char>)>
    decreases cs.len(),
{
    if cs.len() == 0 {
        seq![]
    } else {
        files_of(cs.drop_last(), types) + choice_files(cs.last(), types)
    }
}

/// A font file to fetch: its name in the family's cache directory and its URL.
#[derive(Debug)]
pub struct FontFile {
    /// `<subset>-<weight>-<style>.<extension>`.
    pub file_name: String,
    /// Where the file is downloaded from.
    pub url: String,
}

/// The contents of font files.
pub open spec fn font_files_view(v: Seq<FontFile>) -> Seq<(Seq<char>, Seq<char>)> {
    v.map_values(|f: FontFile| (f.file_name@, f.url@))
}

impl FontSourceFamily {
    /// Synthesizes the `@font-face` CSS for `query` from this family's
    /// metadata: a rule per selected variant, with the variant's URLs of the
    /// requested file types. With `rel_prefix`, the URLs point at self-hosted
    /// files under `<rel_prefix>/<family id>`; without it, at Fontsource's CDN.
    pub fn css(&self, query: &FontQuery, rel_prefix: Option<&str>) -> (r: Result<String, FontSourceError>)
        ensures
            match (
                r,
                family_css(
                    *self,
                    query@,
                    match rel_prefix {
                        Some(p) => Some(p@),
                        None => None,
                    },
                ),
            ) {
                (Ok(text), Ok(t)) => text@ == t,
                (Err(e), Err(m)) => e.reports(m),
                _ => false,
            },
    {
        let choices = match self.get_variant_subsets(query) {
            Ok(c) => c,
            Err(e) => {
                return Err(e);
            },
        };
        let ghost cs = choices_view(choices@);
        let ghost rp = match rel_prefix {
            Some(p) => Some(p@),
            None => None,
        };
        let prefix: Option<String> = match rel_prefix {
            Some(p) => Some(join_path(p, self.id.as_str())),
            None => None,
        };
        let ghost pv = family_prefix(*self, rp);
        assert(match prefix {
            Some(x) => pv == Some(x@),
            None => pv is None,
        });
        let mut result = String::new();
        let mut i: usize = 0;
        while i < choices.len()
            invariant
                i <= choices.len(),
                cs == choices_view(choices@),
                match prefix {
                    Some(x) => pv == Some(x@),
                    None => pv is None,
                },
                result@ == rules_text(*self, query@, cs.take(i as int), pv),
            decreases choices.len() - i,
        {
            assert(cs.take(i + 1).drop_last() =~= cs.take(i as int));
            let c = choices[i];
            let urls = c.3.url.of_types(query.file_types());
            let sh: Option<((u16, &str, &str), &str)> = match &prefix {
                Some(p) => Some(((c.0, c.1.as_str(), c.2.as_str()), p.as_str())),
                None => None,
            };
            assert(self_hosted_view(sh) == variant_self_hosted(cs[i as int], pv));
            let parts = css_url_map(urls.as_slice(), sh);
            let rule = font_face_rule(
                self.family.as_str(),
                c.1.as_str(),
                c.0,
                parts.as_slice(),
                self.unicode_range.get(c.2),
            );
            assert(rule@ == choice_rule(*self, query@, cs[i as int], pv));
            result.append(rule.as_str());
            i = i + 1;
        }
        assert(cs.take(choices.len() as int) =~= cs);
        Ok(result)
    }

    /// The font files that `query` selects: for each selected variant (see
    /// [`FontSourceFamily::get_variant_subsets`]) and each of its URLs of a
    /// requested file type, the file name
    /// `<subset>-<weight>-<style>.<extension>` and the URL.
    pub fn font_files(&self, query: &FontQuery) -> (r: Result<Vec<FontFile>, FontSourceError>)
        ensures
            match (r, variant_selection(*self, query@)) {
                (Ok(v), Ok(cs)) => font_files_view(v@) == files_of(cs, query@.file_types),
                (Err(e), Err(m)) => e.reports(m),
                _ => false,
            },
    {
        let choices = match self.get_variant_subsets(query) {
            Ok(c) => c,
            Err(e) => {
                return Err(e);
            },
        };
        let ghost cs = choices_view(choices@);
        let ghost types = query@.file_types;
        let mut files: Vec<FontFile> = Vec::new();
        let mut i: usize = 0;
        while i < choices.len()
            invariant
                i <= choices.len(),
                cs == choices_view(choices@),
                types == query@.file_types,
                font_files_view(files@) == files_of(cs.take(i as int), types),
            decreases choices.len() - i,
        {
            assert(cs.take(i + 1).drop_last() =~= cs.take(i as int));
            let c = choices[i];
            let urls = c.3.url.of_types(query.file_types());
            let ghost before = font_files_view(files@);
            let ghost mine = choice_files(cs[i as int], types);
            let mut j: usize = 0;
            while j < urls.len()
                invariant
                    j <= urls.len(),
                    urls@ == of_types(c.3.url@, types),
                    mine == choice_files(cs[i as int], types),
                    cs[i as int] == (c.0, c.1@, c.2@, *c.3),
                    font_files_view(files@) == before + mine.take(j as int),
                decreases urls.len() - j,
            {
                let name = file_name_of(c.2.as_str(), c.0, c.1.as_str(), urls[j].0);
                let url = urls[j].1.clone();
                let ghost prev = font_files_view(files@);
                files.push(FontFile { file_name: name, url });
                assert(mine.take(j + 1) =~= mine.take(j as int).push(mine[j as int]));
                assert(font_files_view(files@) =~= prev.push(mine[j as int]));
                j = j + 1;
            }
            assert(mine.take(urls.len() as int) =~= mine);
            i = i + 1;
        }
        assert(cs.take(choices.len() as int) =~= cs);
        Ok(files)
    }
}

/// The subsets `e` give the URLs of `c` for its subset.
pub open spec fn serves_subset(e: FontSourceSubsets, c: ChoiceView) -> bool {
    lookup(e@, c.2) == Some(c.3)
}

/// The styles `e` lead, through the style and subset of `c`, to its URLs.
pub open spec fn serves_style(e: FontSourceStyles, c: ChoiceView) -> bool {
    match lookup(e@, c.1) {
        Some(se) => serves_subset(se, c),
        None => false,
    }
}

/// The variants lead, through the weight, style and subset of `c`, to its
/// URLs.
pub open spec fn serves(v: FontSourceVariants, c: ChoiceView) -> bool {
    match lookup(v@, c.0) {
        Some(st) => serves_style(st, c),
        None => false,
    }
}

/// The styles `e` have URLs for style `s` and subset `b`.
pub open spec fn has_style_subset(e: FontSourceStyles, s: Seq<char>, b: Seq<char>) -> bool {
    match lookup(e@, s) {
        Some(se) => lookup(se@, b) is Some,
        None => false,
    }
}

/// The variants have URLs for weight `w`, style `s` and subset `b`.
pub open spec fn has_variant(v: FontSourceVariants, w: u16, s: Seq<char>, b: Seq<char>) -> bool {
    match lookup(v@, w) {
        Some(st) => has_style_subset(st, s, b),
        None => false,
    }
}

/// The subsets level of a selection: one variant per subset, in order, each
/// with the URLs stored for it; it succeeds where every subset is stored.
pub proof fn lemma_select_subsets(
    w: u16,
    st: Seq<char>,
    e: FontSourceSubsets,
    subs: Seq<Seq<char>>,
    f: Seq<char>,
)
    ensures
        select_subsets(w, st, e, subs, f) matches Ok(cs) ==> {
            &&& cs.len() == subs.len()
            &&& forall|i: int|
                0 <= i < cs.len() ==> {
                    &&& (#[trigger] cs[i]).0 == w
                    &&& cs[i].1 == st
                    &&& cs[i].2 == subs[i]
                    &&& serves_subset(e, cs[i])
                }
        },
        (forall|j: int| 0 <= j < subs.len() ==> (#[trigger] lookup(e@, subs[j])) is Some) ==> select_subsets(
            w,
            st,
            e,
            subs,
            f,
        ) is Ok,
    decreases subs.len(),
{
    if subs.len() > 0 {
        lemma_select_subsets(w, st, e, subs.drop_first(), f);
        if (forall|j: int| 0 <= j < subs.len() ==> (#[trigger] lookup(e@, subs[j])) is Some) {
            assert forall|j: int| 0 <= j < subs.drop_first().len() implies (#[trigger] lookup(
                e@,
                subs.drop_first()[j],
            )) is Some by {
                assert(subs.drop_first()[j] == subs[j + 1]);
            }
            assert(lookup(e@, subs[0]) is Some);
        }
        if let Ok(cs) = select_subsets(w, st, e, subs, f) {
            let v = lookup(e@, subs[0])->0;
            let b = select_subsets(w, st, e, subs.drop_first(), f)->Ok_0;
            assert(cs == seq![(w, st, subs[0], v)] + b);
            assert forall|i: int| 0 <= i < cs.len() implies {
                &&& (#[trigger] cs[i]).0 == w
                &&& cs[i].1 == st
                &&& cs[i].2 == subs[i]
                &&& serves_subset(e, cs[i])
            } by {
                if i > 0 {
                    assert(cs[i] == b[i - 1]);
                    assert(subs.drop_first()[i - 1] == subs[i]);
                }
            }
        }
    }
}

/// The styles level of a selection: every variant is of a listed style and
/// subset and served by `e`; every listed style and subset has a variant; it
/// succeeds where every combination is stored.
pub proof fn lemma_select_styles(
    w: u16,
    e: FontSourceStyles,
    sts: Seq<Seq<char>>,
    subs: Seq<Seq<char>>,
    qf: Seq<char>,
    f: Seq<char>,
)
    ensures
        select_styles(w, e, sts, subs, qf, f) matches Ok(cs) ==> {
            &&& forall|i: int|
                0 <= i < cs.len() ==> {
                    &&& (#[trigger] cs[i]).0 == w
                    &&& sts.contains(cs[i].1)
                    &&& subs.contains(cs[i].2)
                    &&& serves_style(e, cs[i])
                }
            &&& forall|k: int, j: int|
                #![trigger sts[k], subs[j]]
                0 <= k < sts.len() && 0 <= j < subs.len() ==> exists|i: int|
                    0 <= i < cs.len() && (#[trigger] cs[i]).1 == sts[k] && cs[i].2 == subs[j]
        },
        subs.len() > 0 && (forall|k: int, j: int|
            #![trigger sts[k], subs[j]]
            0 <= k < sts.len() && 0 <= j < subs.len() ==> has_style_subset(e, sts[k], subs[j]))
            ==> select_styles(w, e, sts, subs, qf, f) is Ok,
    decreases sts.len(),
{
    if sts.len() > 0 {
        let rest = sts.drop_first();
        lemma_select_styles(w, e, rest, subs, qf, f);
        if (forall|k: int, j: int|
            #![trigger sts[k], subs[j]]
            0 <= k < sts.len() && 0 <= j < subs.len() ==> has_style_subset(e, sts[k], subs[j])) {
            assert forall|k: int, j: int|
                #![trigger rest[k], subs[j]]
                0 <= k < rest.len() && 0 <= j < subs.len() implies has_style_subset(e, rest[k], subs[j]) by {
                assert(rest[k] == sts[k + 1]);
            }
            if subs.len() > 0 {
                assert(has_style_subset(e, sts[0], subs[0]));
            }
            if lookup(e@, sts[0]) is Some {
                let se = lookup(e@, sts[0])->0;
                assert forall|j: int| 0 <= j < subs.len() implies (#[trigger] lookup(se@, subs[j])) is Some by {
                    assert(has_style_subset(e, sts[0], subs[j]));
                }
                lemma_select_subsets(w, sts[0], se, subs, f);
            }
        }
        if let Ok(cs) = select_styles(w, e, sts, subs, qf, f) {
            let se = lookup(e@, sts[0])->0;
            lemma_select_subsets(w, sts[0], se, subs, f);
            let a = select_subsets(w, sts[0], se, subs, f)->Ok_0;
            let b = select_styles(w, e, rest, subs, qf, f)->Ok_0;
            assert(cs == a + b);
            assert forall|i: int| 0 <= i < cs.len() implies {
                &&& (#[trigger] cs[i]).0 == w
                &&& sts.contains(cs[i].1)
                &&& subs.contains(cs[i].2)
                &&& serves_style(e, cs[i])
            } by {
                if i < a.len() {
                    assert(cs[i] == a[i]);
                    assert(sts[0] == cs[i].1);
                    assert(subs[i] == cs[i].2);
                } else {
                    assert(cs[i] == b[i - a.len()]);
                    let k = choose|k: int| 0 <= k < rest.len() && rest[k] == cs[i].1;
                    assert(sts[k + 1] == cs[i].1);
                }
            }
            assert forall|k: int, j: int|
                #![trigger sts[k], subs[j]]
                0 <= k < sts.len() && 0 <= j < subs.len() implies exists|i: int|
                    0 <= i < cs.len() && (#[trigger] cs[i]).1 == sts[k] && cs[i].2 == subs[j] by {
                if k == 0 {
                    assert(cs[j] == a[j]);
                } else {
                    assert(rest[k - 1] == sts[k]);
                    let i0 = choose|i: int|
                        0 <= i < b.len() && (#[trigger] b[i]).1 == rest[k - 1] && b[i].2 == subs[j];
                    assert(cs[a.len() + i0] == b[i0]);
                }
            }
        }
    }
}

/// The weights level of a selection: every variant is of a listed weight,
/// style and subset and served by the variants; every listed combination
/// has a variant; it succeeds where every combination is stored.
pub proof fn lemma_select_weights(
    v: FontSourceVariants,
    ws: Seq<u16>,
    sts: Seq<Seq<char>>,
    subs: Seq<Seq<char>>,
    qf: Seq<char>,
    f: Seq<char>,
)
    ensures
        select_weights(v, ws, sts, subs, qf, f) matches Ok(cs) ==> {
            &&& forall|i: int|
                0 <= i < cs.len() ==> {
                    &&& ws.contains((#[trigger] cs[i]).0)
                    &&& sts.contains(cs[i].1)
                    &&& subs.contains(cs[i].2)
                    &&& serves(v, cs[i])
                }
            &&& forall|a: int, k: int, j: int|
                #![trigger ws[a], sts[k], subs[j]]
                0 <= a < ws.len() && 0 <= k < sts.len() && 0 <= j < subs.len() ==> exists|i: int|
                    0 <= i < cs.len() && (#[trigger] cs[i]).0 == ws[a] && cs[i].1 == sts[k] && cs[i].2
                        == subs[j]
        },
        sts.len() > 0 && subs.len() > 0 && (forall|a: int, k: int, j: int|
            #![trigger ws[a], sts[k], subs[j]]
            0 <= a < ws.len() && 0 <= k < sts.len() && 0 <= j < subs.len() ==> has_variant(
                v,
                ws[a],
                sts[k],
                subs[j],
            )) ==> select_weights(v, ws, sts, subs, qf, f) is Ok,
    decreases ws.len(),
{
    if ws.len() > 0 {
        let rest = ws.drop_first();
        lemma_select_weights(v, rest, sts, subs, qf, f);
        if sts.len() > 0 && subs.len() > 0 && (forall|a: int, k: int, j: int|
            #![trigger ws[a], sts[k], subs[j]]
            0 <= a < ws.len() && 0 <= k < sts.len() && 0 <= j < subs.len() ==> has_variant(
                v,
                ws[a],
                sts[k],
                subs[j],
            )) {
            assert forall|a: int, k: int, j: int|
                #![trigger rest[a], sts[k], subs[j]]
                0 <= a < rest.len() && 0 <= k < sts.len() && 0 <= j < subs.len() implies has_variant(
                v,
                rest[a],
                sts[k],
                subs[j],
            ) by {
                assert(rest[a] == ws[a + 1]);
            }
            assert(has_variant(v, ws[0], sts[0], subs[0]));
            let st = lookup(v@, ws[0])->0;
            assert forall|k: int, j: int|
                #![trigger sts[k], subs[j]]
                0 <= k < sts.len() && 0 <= j < subs.len() implies has_style_subset(st, sts[k], subs[j]) by {
                assert(has_variant(v, ws[0], sts[k], subs[j]));
            }
            lemma_select_styles(ws[0], st, sts, subs, qf, f);
        }
        if let Ok(cs) = select_weights(v, ws, sts, subs, qf, f) {
            let st = lookup(v@, ws[0])->0;
            lemma_select_styles(ws[0], st, sts, subs, qf, f);
            let a = select_styles(ws[0], st, sts, subs, qf, f)->Ok_0;
            let b = select_weights(v, rest, sts, subs, qf, f)->Ok_0;
            assert(cs == a + b);
            assert forall|i: int| 0 <= i < cs.len() implies {
                &&& ws.contains((#[trigger] cs[i]).0)
                &&& sts.contains(cs[i].1)
                &&& subs.contains(cs[i].2)
                &&& serves(v, cs[i])
            } by {
                if i < a.len() {
                    assert(cs[i] == a[i]);
                    assert(ws[0] == cs[i].0);
                } else {
                    assert(cs[i] == b[i - a.len()]);
                    let m = choose|m: int| 0 <= m < rest.len() && rest[m] == cs[i].0;
                    assert(ws[m + 1] == cs[i].0);
                }
            }
            assert forall|x: int, k: int, j: int|
                #![trigger ws[x], sts[k], subs[j]]
                0 <= x < ws.len() && 0 <= k < sts.len() && 0 <= j < subs.len() implies exists|i: int|
                    0 <= i < cs.len() && (#[trigger] cs[i]).0 == ws[x] && cs[i].1 == sts[k] && cs[i].2
                        == subs[j] by {
                if x == 0 {
                    let i0 = choose|i: int|
                        0 <= i < a.len() && (#[trigger] a[i]).1 == sts[k] && a[i].2 == subs[j];
                    assert(cs[i0] == a[i0]);
                } else {
                    assert(rest[x - 1] == ws[x]);
                    let i0 = choose|i: int|
                        0 <= i < b.len() && (#[trigger] b[i]).0 == rest[x - 1] && b[i].1 == sts[k]
                            && b[i].2 == subs[j];
                    assert(cs[a.len() + i0] == b[i0]);
                }
            }
        }
    }
}

/// What a query selects from a family is exactly the requested
/// combinations that the family lists: every selected variant has a
/// requested and listed weight, style and subset (the default subset where
/// no requested one is listed) and the URLs stored for them; every such
/// combination is selected; and the selection fails exactly when no
/// requested weight or style is listed, or a combination is not stored.
pub proof fn lemma_variant_selection(fam: FontSourceFamily, q: QueryView)
    ensures
        variant_selection(fam, q) matches Ok(cs) ==> forall|i: int|
            0 <= i < cs.len() ==> {
                &&& chosen_weights(fam, q).contains((#[trigger] cs[i]).0)
                &&& chosen_styles(fam, q).contains(cs[i].1)
                &&& chosen_subsets(fam, q).contains(cs[i].2)
                &&& serves(fam.variants, cs[i])
            },
        variant_selection(fam, q) matches Ok(cs) ==> forall|w: u16, s: Seq<char>, b: Seq<char>|
            chosen_weights(fam, q).contains(w) && chosen_styles(fam, q).contains(s)
                && chosen_subsets(fam, q).contains(b) ==> exists|i: int|
                0 <= i < cs.len() && (#[trigger] cs[i]).0 == w && cs[i].1 == s && cs[i].2 == b,
        variant_selection(fam, q) is Ok <==> {
            &&& chosen_weights(fam, q).len() > 0
            &&& chosen_styles(fam, q).len() > 0
            &&& forall|w: u16, s: Seq<char>, b: Seq<char>|
                chosen_weights(fam, q).contains(w) && chosen_styles(fam, q).contains(s)
                    && chosen_subsets(fam, q).contains(b) ==> #[trigger] has_variant(fam.variants, w, s, b)
        },
{
    let ws = chosen_weights(fam, q);
    let sts = chosen_styles(fam, q);
    let subs = chosen_subsets(fam, q);
    assert(subs.len() > 0);
    lemma_select_weights(fam.variants, ws, sts, subs, q.family, fam.family@);
    if let Ok(cs) = variant_selection(fam, q) {
        assert forall|w: u16, s: Seq<char>, b: Seq<char>|
            ws.contains(w) && sts.contains(s) && subs.contains(b) implies exists|i: int|
                0 <= i < cs.len() && (#[trigger] cs[i]).0 == w && cs[i].1 == s && cs[i].2 == b by {
            let x = choose|x: int| 0 <= x < ws.len() && ws[x] == w;
            let k = choose|k: int| 0 <= k < sts.len() && sts[k] == s;
            let j = choose|j: int| 0 <= j < subs.len() && subs[j] == b;
            assert(ws[x] == w && sts[k] == s && subs[j] == b);
        }
        assert forall|w: u16, s: Seq<char>, b: Seq<char>|
            ws.contains(w) && sts.contains(s) && subs.contains(b) implies #[trigger] has_variant(
            fam.variants,
            w,
            s,
            b,
        ) by {
            let x = choose|x: int| 0 <= x < ws.len() && ws[x] == w;
            let k = choose|k: int| 0 <= k < sts.len() && sts[k] == s;
            let j = choose|j: int| 0 <= j < subs.len() && subs[j] == b;
            assert(ws[x] == w && sts[k] == s && subs[j] == b);
            let i = choose|i: int|
                0 <= i < cs.len() && (#[trigger] cs[i]).0 == ws[x] && cs[i].1 == sts[k] && cs[i].2 == subs[j];
            assert(serves(fam.variants, cs[i]));
        }
    }
    if ws.len() > 0 && sts.len() > 0 && (forall|w: u16, s: Seq<char>, b: Seq<char>|
        ws.contains(w) && sts.contains(s) && subs.contains(b) ==> #[trigger] has_variant(
            fam.variants,
            w,
            s,
            b,
        )) {
        assert forall|a: int, k: int, j: int|
            #![trigger ws[a], sts[k], subs[j]]
            0 <= a < ws.len() && 0 <= k < sts.len() && 0 <= j < subs.len() implies has_variant(
            fam.variants,
            ws[a],
            sts[k],
            subs[j],
        ) by {
            assert(ws.contains(ws[a]) && sts.contains(sts[k]) && subs.contains(subs[j]));
        }
    }
}

/// Self-hosted CSS points at the files that are fetched: for a selected
/// variant and a requested file type with a non-empty URL, the `src` entry
/// names `<prefix>/<file name>` and the variant's files include that file
/// name with that URL.
pub proof fn lemma_self_hosted_files_agree(
    c: ChoiceView,
    types: Seq<FontFileType>,
    t: FontFileType,
    prefix: Seq<char>,
)
    requires
        lookup(of_types(c.3.url@, types), t) matches Some(u) && u@.len() > 0,
    ensures
        ({
            let u = lookup(of_types(c.3.url@, types), t)->0;
            let name = font_file_name(c.2, c.0, c.1, t);
            &&& src_entry(of_types(c.3.url@, types), t, Some(((c.0, c.1, c.2), prefix))) == seq![
                src_text(forward_slashes(path_join(prefix, name)), t),
            ]
            &&& choice_files(c, types).contains((name, u@))
        }),
{
    let es = of_types(c.3.url@, types);
    let i = crate::keyed::lemma_lookup_index(es, t);
    let name = font_file_name(c.2, c.0, c.1, t);
    assert(choice_files(c, types)[i] == (name, es[i].1@));
}

/// The `@font-face` rules of the selected variants, one per variant.
pub open spec fn variant_rules(
    fam: FontSourceFamily,
    q: QueryView,
    cs: Seq<ChoiceView>,
    prefix: Option<Seq<char>>,
) -> Seq<Seq<char>> {
    cs.map_values(|c: ChoiceView| choice_rule(fam, q, c, prefix))
}

/// The text of the rules is the rules of the variants one after another.
proof fn lemma_rules_text_concat(fam: FontSourceFamily, q: QueryView, cs: Seq<ChoiceView>, prefix: Option<Seq<char>>)
    ensures
        rules_text(fam, q, cs, prefix) == variant_rules(fam, q, cs, prefix).flatten_alt(),
    decreases cs.len(),
{
    if cs.len() > 0 {
        lemma_rules_text_concat(fam, q, cs.drop_last(), prefix);
        assert(variant_rules(fam, q, cs, prefix).drop_last() =~= variant_rules(fam, q, cs.drop_last(), prefix));
    }
}

/// The CSS of a family is one `@font-face` rule per selected variant, in
/// the order of the selection, and nothing else: the rule of a variant of
/// weight `w`, style `s` and subset `b` names the family's display name,
/// `s` and `w`, lists the `src` entries of the variant's URLs of the
/// requested file types, and has a `unicode-range` exactly where the family
/// gives one for `b`. Where no variant can be selected the CSS fails with
/// the same report as the selection.
pub proof fn lemma_family_css_structure(fam: FontSourceFamily, q: QueryView, rel_prefix: Option<Seq<char>>)
    ensures
        family_css(fam, q, rel_prefix) matches Ok(text) ==> (variant_selection(fam, q) matches Ok(cs) && {
            let prefix = family_prefix(fam, rel_prefix);
            let rules = variant_rules(fam, q, cs, prefix);
            &&& rules.len() == cs.len()
            &&& text == rules.flatten()
            &&& forall|i: int|
                0 <= i < cs.len() ==> #[trigger] rules[i] == css_rule(
                    fam.family@,
                    cs[i].1,
                    cs[i].0,
                    css_src_list(of_types(cs[i].3.url@, q.file_types), variant_self_hosted(cs[i], prefix)),
                    lookup(fam.unicode_range@, cs[i].2),
                )
        }),
        family_css(fam, q, rel_prefix) matches Err(m) ==> variant_selection(fam, q) == Selection::Err(m),
        family_css(fam, q, rel_prefix) is Ok <==> variant_selection(fam, q) is Ok,
{
    if let Ok(cs) = variant_selection(fam, q) {
        let prefix = family_prefix(fam, rel_prefix);
        lemma_rules_text_concat(fam, q, cs, prefix);
        variant_rules(fam, q, cs, prefix).lemma_flatten_and_flatten_alt_are_equivalent();
    }
}

/// The `src` entry of a self-hosted file of type `t` of variant `c`:
/// `url("<prefix>/<subset>-<weight>-<style>.<extension>") format(..)`, with
/// forward slashes.
pub open spec fn self_hosted_src(c: ChoiceView, prefix: Seq<char>, t: FontFileType) -> Seq<char> {
    src_text(forward_slashes(path_join(prefix, font_file_name(c.2, c.0, c.1, t))), t)
}

/// The URLs give a non-empty URL for file type `t`.
pub open spec fn provides(map: Seq<(FontFileType, String)>, t: FontFileType) -> bool {
    lookup(map, t) matches Some(u) && u@.len() > 0
}

/// The `src` entries of variant `c` self-hosted under `prefix`, for the
/// requested file types `types`.
pub open spec fn hosted_srcs(c: ChoiceView, types: Seq<FontFileType>, prefix: Seq<char>) -> Seq<Seq<char>> {
    css_src_list(of_types(c.3.url@, types), variant_self_hosted(c, Some(prefix)))
}

/// The file type of the `j`-th self-hosted entry of variant `c`: entries
/// come in the order WOFF2, WOFF, TrueType.
pub open spec fn entry_type(c: ChoiceView, types: Seq<FontFileType>, prefix: Seq<char>, j: int) -> FontFileType {
    let m = of_types(c.3.url@, types);
    let sh = variant_self_hosted(c, Some(prefix));
    let n1 = src_entry(m, FontFileType::Woff2, sh).len();
    let n2 = src_entry(m, FontFileType::Woff, sh).len();
    if j < n1 {
        FontFileType::Woff2
    } else if j < n1 + n2 {
        FontFileType::Woff
    } else {
        FontFileType::Ttf
    }
}

/// `x` is the self-hosted entry of variant `c` for file type `t`, a
/// requested type for which the variant has a non-empty URL.
pub open spec fn hosted_entry(
    c: ChoiceView,
    types: Seq<FontFileType>,
    prefix: Seq<char>,
    t: FontFileType,
    x: Seq<char>,
) -> bool {
    &&& types.contains(t)
    &&& provides(of_types(c.3.url@, types), t)
    &&& self_hosted_src(c, prefix, t) == x
}

/// A file type with a URL among a variant's URLs of the requested types is
/// a requested type.
proof fn lemma_of_types_requested(es: Seq<(FontFileType, String)>, types: Seq<FontFileType>, t: FontFileType)
    requires
        lookup(of_types(es, types), t) is Some,
    ensures
        types.contains(t),
{
    let f = of_types(es, types);
    let i = crate::keyed::lemma_lookup_index(f, t);
    es.lemma_filter_pred(|e: (FontFileType, String)| types.contains(e.0), i);
}

/// One self-hosted `src` entry of a variant points at its file of a
/// requested type that the variant provides.
proof fn lemma_self_hosted_entry(c: ChoiceView, types: Seq<FontFileType>, prefix: Seq<char>, j: int)
    requires
        0 <= j < hosted_srcs(c, types, prefix).len(),
    ensures
        hosted_entry(c, types, prefix, entry_type(c, types, prefix, j), hosted_srcs(c, types, prefix)[j]),
{
    let m = of_types(c.3.url@, types);
    let sh = variant_self_hosted(c, Some(prefix));
    let e1 = src_entry(m, FontFileType::Woff2, sh);
    let e2 = src_entry(m, FontFileType::Woff, sh);
    let e3 = src_entry(m, FontFileType::Ttf, sh);
    let list = hosted_srcs(c, types, prefix);
    assert(list == e1 + e2 + e3);
    let t = entry_type(c, types, prefix, j);
    if j < e1.len() {
        assert(list[j] == e1[j]);
    } else if j < e1.len() + e2.len() {
        assert(list[j] == e2[j - e1.len()]);
    } else {
        assert(list[j] == e3[j - e1.len() - e2.len()]);
    }
    assert(provides(m, t));
    lemma_of_types_requested(c.3.url@, types, t);
    assert(hosted_entry(c, types, prefix, t, list[j]));
}

/// Every `src` entry of the self-hosted rule of each selected variant `cs[i]`
/// points at its file under `<rel>/<family id>`, of a requested file type
/// for which the variant has a non-empty URL.
pub open spec fn self_hosted_srcs(fam: FontSourceFamily, q: QueryView, rel: Seq<char>, cs: Seq<ChoiceView>) -> bool {
    forall|i: int, j: int|
        #![trigger hosted_srcs(cs[i], q.file_types, path_join(rel, fam.id@))[j]]
        0 <= i < cs.len() && 0 <= j < hosted_srcs(cs[i], q.file_types, path_join(rel, fam.id@)).len()
            ==> hosted_entry(
            cs[i],
            q.file_types,
            path_join(rel, fam.id@),
            entry_type(cs[i], q.file_types, path_join(rel, fam.id@), j),
            hosted_srcs(cs[i], q.file_types, path_join(rel, fam.id@))[j],
        )
}

/// Self-hosted CSS points at the family's files: with a relative prefix
/// `rel`, the rule of each selected variant (of weight `w`, style `s` and
/// subset `b`) lists the entries `hosted_srcs(..)` under
/// `<rel>/<family id>`, and each of them is
/// `url("<rel>/<family id>/<b>-<w>-<s>.<extension>") format(..)` (joined as
/// paths, with forward slashes) for a requested file type for which the
/// variant has a non-empty URL.
pub proof fn lemma_self_hosted_urls(fam: FontSourceFamily, q: QueryView, rel: Seq<char>)
    ensures
        family_css(fam, q, Some(rel)) is Ok ==> variant_selection(fam, q) is Ok,
        variant_selection(fam, q) matches Ok(cs) ==> {
            &&& forall|i: int|
                0 <= i < cs.len() ==> #[trigger] choice_rule(fam, q, cs[i], family_prefix(fam, Some(rel)))
                    == css_rule(
                    fam.family@,
                    cs[i].1,
                    cs[i].0,
                    hosted_srcs(cs[i], q.file_types, path_join(rel, fam.id@)),
                    lookup(fam.unicode_range@, cs[i].2),
                )
            &&& self_hosted_srcs(fam, q, rel, cs)
        },
{
    if let Ok(cs) = variant_selection(fam, q) {
        assert forall|i: int, j: int|
            #![trigger hosted_srcs(cs[i], q.file_types, path_join(rel, fam.id@))[j]]
            0 <= i < cs.len() && 0 <= j < hosted_srcs(cs[i], q.file_types, path_join(rel, fam.id@)).len()
                implies hosted_entry(
                cs[i],
                q.file_types,
                path_join(rel, fam.id@),
                entry_type(cs[i], q.file_types, path_join(rel, fam.id@), j),
                hosted_srcs(cs[i], q.file_types, path_join(rel, fam.id@))[j],
            ) by {
            lemma_self_hosted_entry(cs[i], q.file_types, path_join(rel, fam.id@), j);
        }
        assert(self_hosted_srcs(fam, q, rel, cs));
        assert(family_prefix(fam, Some(rel)) == Some(path_join(rel, fam.id@)));
        assert forall|i: int| 0 <= i < cs.len() implies #[trigger] choice_rule(
            fam,
            q,
            cs[i],
            family_prefix(fam, Some(rel)),
        ) == css_rule(
            fam.family@,
            cs[i].1,
            cs[i].0,
            hosted_srcs(cs[i], q.file_types, path_join(rel, fam.id@)),
            lookup(fam.unicode_range@, cs[i].2),
        ) by {
            assert(variant_self_hosted(cs[i], family_prefix(fam, Some(rel))) == variant_self_hosted(
                cs[i],
                Some(path_join(rel, fam.id@)),
            ));
        }
    }
}

/// No two selected variants have the same weight, style and subset.
pub open spec fn distinct_choices(cs: Seq<ChoiceView>) -> bool {
    forall|i: int, j: int|
        0 <= i < j < cs.len() ==> (#[trigger] cs[i]).0 != (#[trigger] cs[j]).0 || cs[i].1 != cs[j].1
            || cs[i].2 != cs[j].2
}

/// Keeping the items that satisfy a predicate keeps them distinct.
proof fn lemma_filter_no_duplicates<A>(s: Seq<A>, p: spec_fn(A) -> bool)
    requires
        s.no_duplicates(),
    ensures
        s.filter(p).no_duplicates(),
    decreases s.len(),
{
    if s.len() > 0 {
        let t = s.drop_last();
        assert(s =~= t.push(s.last()));
        assert(t.no_duplicates());
        lemma_filter_no_duplicates(t, p);
        t.lemma_filter_push(s.last(), p);
        if p(s.last()) {
            if t.filter(p).contains(s.last()) {
                t.lemma_filter_contains_rev(p, s.last());
                let k = choose|k: int| 0 <= k < t.len() && t[k] == s.last();
                assert(s[k] == s[s.len() - 1]);
            }
            let f = t.filter(p);
            assert forall|a: int, b: int| 0 <= a < b < f.push(s.last()).len() implies f.push(s.last())[a]
                != f.push(s.last())[b] by {
                if b == f.len() {
                    assert(f.contains(f[a]));
                }
            }
        }
    }
}

/// The chosen weights, styles and subsets of a query with distinct items
/// are distinct.
proof fn lemma_chosen_distinct(fam: FontSourceFamily, q: QueryView)
    requires
        q.distinct(),
    ensures
        chosen_weights(fam, q).no_duplicates(),
        chosen_styles(fam, q).no_duplicates(),
        chosen_subsets(fam, q).no_duplicates(),
{
    let f = |w: Weight| weight_value(w);
    assert(vstd::relations::injective(f)) by {
        assert forall|x1: Weight, x2: Weight| #[trigger] f(x1) == #[trigger] f(x2) implies x1 == x2 by {
            crate::query::lemma_weight_roundtrip(x1);
            crate::query::lemma_weight_roundtrip(x2);
        }
    }
    q.weights.lemma_no_duplicates_injective(f);
    assert(q.weights.map_values(f) == q.weights.map_values(|w: Weight| weight_value(w)));
    lemma_filter_no_duplicates(q.weights.map_values(|w: Weight| weight_value(w)), |x: u16| fam.weights@.contains(x));
    lemma_filter_no_duplicates(q.styles, |x: Seq<char>| strings_view(fam.styles@).contains(x));
    lemma_filter_no_duplicates(q.subsets, |x: Seq<char>| strings_view(fam.subsets@).contains(x));
}

/// Distinct subsets give distinct variants.
proof fn lemma_select_subsets_distinct(
    w: u16,
    st: Seq<char>,
    e: FontSourceSubsets,
    subs: Seq<Seq<char>>,
    f: Seq<char>,
)
    requires
        subs.no_duplicates(),
    ensures
        select_subsets(w, st, e, subs, f) matches Ok(cs) ==> distinct_choices(cs),
{
    lemma_select_subsets(w, st, e, subs, f);
}

/// Distinct styles and subsets give distinct variants.
proof fn lemma_select_styles_distinct(
    w: u16,
    e: FontSourceStyles,
    sts: Seq<Seq<char>>,
    subs: Seq<Seq<char>>,
    qf: Seq<char>,
    f: Seq<char>,
)
    requires
        sts.no_duplicates(),
        subs.no_duplicates(),
    ensures
        select_styles(w, e, sts, subs, qf, f) matches Ok(cs) ==> distinct_choices(cs),
    decreases sts.len(),
{
    if sts.len() > 0 {
        if let Ok(cs) = select_styles(w, e, sts, subs, qf, f) {
            let rest = sts.drop_first();
            assert(rest.no_duplicates()) by {
                assert forall|a: int, b: int| 0 <= a < b < rest.len() implies rest[a] != rest[b] by {
                    assert(rest[a] == sts[a + 1] && rest[b] == sts[b + 1]);
                }
            }
            assert(!rest.contains(sts[0])) by {
                if rest.contains(sts[0]) {
                    let k = choose|k: int| 0 <= k < rest.len() && rest[k] == sts[0];
                    assert(sts[k + 1] == sts[0]);
                }
            }
            lemma_select_styles_distinct(w, e, rest, subs, qf, f);
            lemma_select_styles(w, e, rest, subs, qf, f);
            let se = lookup(e@, sts[0])->0;
            lemma_select_subsets(w, sts[0], se, subs, f);
            lemma_select_subsets_distinct(w, sts[0], se, subs, f);
            let a = select_subsets(w, sts[0], se, subs, f)->Ok_0;
            let b = select_styles(w, e, rest, subs, qf, f)->Ok_0;
            assert(cs == a + b);
            assert forall|i: int, j: int| 0 <= i < j < cs.len() implies (#[trigger] cs[i]).0 != (
            #[trigger] cs[j]).0 || cs[i].1 != cs[j].1 || cs[i].2 != cs[j].2 by {
                if j < a.len() {
                    assert(cs[i] == a[i] && cs[j] == a[j]);
                } else if i >= a.len() {
                    assert(cs[i] == b[i - a.len()] && cs[j] == b[j - a.len()]);
                } else {
                    assert(cs[i] == a[i] && cs[j] == b[j - a.len()]);
                    assert(rest.contains(b[j - a.len()].1));
                }
            }
        }
    }
}

/// Distinct weights, styles and subsets give distinct variants.
proof fn lemma_select_weights_distinct(
    v: FontSourceVariants,
    ws: Seq<u16>,
    sts: Seq<Seq<char>>,
    subs: Seq<Seq<char>>,
    qf: Seq<char>,
    f: Seq<char>,
)
    requires
        ws.no_duplicates(),
        sts.no_duplicates(),
        subs.no_duplicates(),
    ensures
        select_weights(v, ws, sts, subs, qf, f) matches Ok(cs) ==> distinct_choices(cs),
    decreases ws.len(),
{
    if ws.len() > 0 {
        if let Ok(cs) = select_weights(v, ws, sts, subs, qf, f) {
            let rest = ws.drop_first();
            assert(rest.no_duplicates()) by {
                assert forall|a: int, b: int| 0 <= a < b < rest.len() implies rest[a] != rest[b] by {
                    assert(rest[a] == ws[a + 1] && rest[b] == ws[b + 1]);
                }
            }
            assert(!rest.contains(ws[0])) by {
                if rest.contains(ws[0]) {
                    let k = choose|k: int| 0 <= k < rest.len() && rest[k] == ws[0];
                    assert(ws[k + 1] == ws[0]);
                }
            }
            lemma_select_weights_distinct(v, rest, sts, subs, qf, f);
            lemma_select_weights(v, rest, sts, subs, qf, f);
            let st = lookup(v@, ws[0])->0;
            lemma_select_styles(ws[0], st, sts, subs, qf, f);
            lemma_select_styles_distinct(ws[0], st, sts, subs, qf, f);
            let a = select_styles(ws[0], st, sts, subs, qf, f)->Ok_0;
            let b = select_weights(v, rest, sts, subs, qf, f)->Ok_0;
            assert(cs == a + b);
            assert forall|i: int, j: int| 0 <= i < j < cs.len() implies (#[trigger] cs[i]).0 != (
            #[trigger] cs[j]).0 || cs[i].1 != cs[j].1 || cs[i].2 != cs[j].2 by {
                if j < a.len() {
                    assert(cs[i] == a[i] && cs[j] == a[j]);
                } else if i >= a.len() {
                    assert(cs[i] == b[i - a.len()] && cs[j] == b[j - a.len()]);
                } else {
                    assert(cs[i] == a[i] && cs[j] == b[j - a.len()]);
                    assert(rest.contains(b[j - a.len()].0));
                }
            }
        }
    }
}

/// The variants that a query selects are distinct: no two of them have the
/// same weight, style and subset.
pub proof fn lemma_selection_distinct(fam: FontSourceFamily, q: QueryView)
    requires
        q.distinct(),
    ensures
        variant_selection(fam, q) matches Ok(cs) ==> distinct_choices(cs),
{
    lemma_chosen_distinct(fam, q);
    lemma_select_weights_distinct(
        fam.variants,
        chosen_weights(fam, q),
        chosen_styles(fam, q),
        chosen_subsets(fam, q),
        q.family,
        fam.family@,
    );
}

/// The CDN `src` entry (not self-hosted) of the URL `u` of file type `t`:
/// `url("<u>") format("woff2")`, `format("woff")` or
/// `format("truetype")`.
pub open spec fn cdn_src(u: Seq<char>, t: FontFileType) -> Seq<char> {
    match t {
        FontFileType::Woff2 => "url(\""@ + u + "\") format(\"woff2\")"@,
        FontFileType::Woff => "url(\""@ + u + "\") format(\"woff\")"@,
        FontFileType::Ttf => "url(\""@ + u + "\") format(\"truetype\")"@,
    }
}

/// The CDN entry of file type `t`: one where the URLs give a non-empty URL
/// for `t`, none otherwise.
pub open spec fn cdn_entries(map: Seq<(FontFileType, String)>, t: FontFileType) -> Seq<Seq<char>> {
    match lookup(map, t) {
        Some(u) => if u@.len() > 0 {
            seq![cdn_src(u@, t)]
        } else {
            seq![]
        },
        None => seq![],
    }
}

/// Without self-hosting, the `src` entries of a variant's URLs are, in the
/// order WOFF2, WOFF, TrueType, `url("<u>") format("<format>")` for each
/// file type with a non-empty URL `u`, with the format `woff2`, `woff` or
/// `truetype` of that same file type.
pub proof fn lemma_cdn_src_list(map: Seq<(FontFileType, String)>)
    ensures
        css_src_list(map, None) == cdn_entries(map, FontFileType::Woff2) + cdn_entries(
            map,
            FontFileType::Woff,
        ) + cdn_entries(map, FontFileType::Ttf),
{
    reveal_strlit("url(\"");
    reveal_strlit("\") format(\"");
    reveal_strlit("\")");
    reveal_strlit("woff2");
    reveal_strlit("woff");
    reveal_strlit("truetype");
    reveal_strlit("\") format(\"woff2\")");
    reveal_strlit("\") format(\"woff\")");
    reveal_strlit("\") format(\"truetype\")");
    assert forall|t: FontFileType| #[trigger] src_entry(map, t, None) == cdn_entries(map, t) by {
        if let Some(u) = lookup(map, t) {
            if u@.len() > 0 {
                assert(src_text(u@, t) =~= cdn_src(u@, t));
            }
        }
    }
    assert(src_entry(map, FontFileType::Woff2, None) == cdn_entries(map, FontFileType::Woff2));
    assert(src_entry(map, FontFileType::Woff, None) == cdn_entries(map, FontFileType::Woff));
    assert(src_entry(map, FontFileType::Ttf, None) == cdn_entries(map, FontFileType::Ttf));
}

/// An item is kept exactly when it is in `s` and in `avail`.
proof fn lemma_kept_contains<A>(s: Seq<A>, avail: Seq<A>, x: A)
    ensures
        kept(s, avail).contains(x) <==> (s.contains(x) && avail.contains(x)),
{
    let pred = |y: A| avail.contains(y);
    assert(kept(s, avail) == s.filter(pred));
    if s.filter(pred).contains(x) {
        s.lemma_filter_contains_rev(pred, x);
        let i = choose|i: int| 0 <= i < s.filter(pred).len() && s.filter(pred)[i] == x;
        s.lemma_filter_pred(pred, i);
    }
    if s.contains(x) && avail.contains(x) {
        let i = choose|i: int| 0 <= i < s.len() && s[i] == x;
        s.lemma_filter_contains(pred, i);
    }
}

/// Some selected variant has weight `w`, style `s` and subset `b`.
pub open spec fn is_selected(cs: Seq<ChoiceView>, w: u16, s: Seq<char>, b: Seq<char>) -> bool {
    exists|i: int| 0 <= i < cs.len() && (#[trigger] cs[i]).0 == w && cs[i].1 == s && cs[i].2 == b
}

/// Some subset that the query requests is listed by the family.
pub open spec fn requests_listed_subset(fam: FontSourceFamily, q: QueryView) -> bool {
    exists|k: int| 0 <= k < q.subsets.len() && strings_view(fam.subsets@).contains(#[trigger] q.subsets[k])
}

/// What a query selects from a family, in terms of the query and the
/// family's lists: every selected variant has a requested weight, style and
/// subset that the family lists, except that its subset is the family's
/// default subset exactly when the family lists none of the requested
/// subsets; and every such combination is selected.
pub proof fn lemma_selection_members(fam: FontSourceFamily, q: QueryView)
    ensures
        variant_selection(fam, q) matches Ok(cs) ==> forall|i: int|
            0 <= i < cs.len() ==> {
                &&& exists|w: Weight| q.weights.contains(w) && weight_value(w) == (#[trigger] cs[i]).0
                &&& fam.weights@.contains(cs[i].0)
                &&& q.styles.contains(cs[i].1)
                &&& strings_view(fam.styles@).contains(cs[i].1)
                &&& requests_listed_subset(fam, q) ==> q.subsets.contains(cs[i].2) && strings_view(
                    fam.subsets@,
                ).contains(cs[i].2)
                &&& !requests_listed_subset(fam, q) ==> cs[i].2 == fam.default_subset@
            },
        variant_selection(fam, q) matches Ok(cs) ==> forall|w: Weight, s: Seq<char>, b: Seq<char>|
            q.weights.contains(w) && fam.weights@.contains(weight_value(w)) && q.styles.contains(s)
                && strings_view(fam.styles@).contains(s) && (if requests_listed_subset(fam, q) {
                q.subsets.contains(b) && strings_view(fam.subsets@).contains(b)
            } else {
                b == fam.default_subset@
            }) ==> is_selected(cs, weight_value(w), s, b),
{
    lemma_variant_selection(fam, q);
    let f = |w: Weight| weight_value(w);
    let ws = q.weights.map_values(f);
    assert(ws == q.weights.map_values(|w: Weight| weight_value(w)));
    let subs_kept = kept(q.subsets, strings_view(fam.subsets@));
    assert(requests_listed_subset(fam, q) <==> subs_kept.len() > 0) by {
        if requests_listed_subset(fam, q) {
            let k = choose|k: int| 0 <= k < q.subsets.len() && strings_view(fam.subsets@).contains(
                #[trigger] q.subsets[k],
            );
            lemma_kept_contains(q.subsets, strings_view(fam.subsets@), q.subsets[k]);
        }
        if subs_kept.len() > 0 {
            lemma_kept_contains(q.subsets, strings_view(fam.subsets@), subs_kept[0]);
            let k = choose|k: int| 0 <= k < q.subsets.len() && q.subsets[k] == subs_kept[0];
            assert(strings_view(fam.subsets@).contains(q.subsets[k]));
        }
    }
    if let Ok(cs) = variant_selection(fam, q) {
        assert forall|i: int| 0 <= i < cs.len() implies {
            &&& exists|w: Weight| q.weights.contains(w) && weight_value(w) == (#[trigger] cs[i]).0
            &&& fam.weights@.contains(cs[i].0)
            &&& q.styles.contains(cs[i].1)
            &&& strings_view(fam.styles@).contains(cs[i].1)
            &&& requests_listed_subset(fam, q) ==> q.subsets.contains(cs[i].2) && strings_view(
                fam.subsets@,
            ).contains(cs[i].2)
            &&& !requests_listed_subset(fam, q) ==> cs[i].2 == fam.default_subset@
        } by {
            lemma_kept_contains(ws, fam.weights@, cs[i].0);
            let k = choose|k: int| 0 <= k < ws.len() && ws[k] == cs[i].0;
            assert(q.weights.contains(q.weights[k]));
            lemma_kept_contains(q.styles, strings_view(fam.styles@), cs[i].1);
            lemma_kept_contains(q.subsets, strings_view(fam.subsets@), cs[i].2);
        }
        assert forall|w: Weight, s: Seq<char>, b: Seq<char>|
            q.weights.contains(w) && fam.weights@.contains(weight_value(w)) && q.styles.contains(s)
                && strings_view(fam.styles@).contains(s) && (if requests_listed_subset(fam, q) {
                q.subsets.contains(b) && strings_view(fam.subsets@).contains(b)
            } else {
                b == fam.default_subset@
            }) implies is_selected(cs, weight_value(w), s, b) by {
            let k = choose|k: int| 0 <= k < q.weights.len() && q.weights[k] == w;
            assert(ws[k] == weight_value(w));
            lemma_kept_contains(ws, fam.weights@, weight_value(w));
            lemma_kept_contains(q.styles, strings_view(fam.styles@), s);
            lemma_kept_contains(q.subsets, strings_view(fam.subsets@), b);
            assert(chosen_subsets(fam, q).contains(b)) by {
                if !requests_listed_subset(fam, q) {
                    assert(chosen_subsets(fam, q)[0] == b);
                }
            }
            assert(chosen_weights(fam, q).contains(weight_value(w)));
            assert(chosen_styles(fam, q).contains(s));
        }
    }
}

/// `text` contains `part` somewhere.
pub open spec fn has_part(text: Seq<char>, part: Seq<char>) -> bool {
    exists|k: int| 0 <= k && k + part.len() <= text.len() && #[trigger] text.subrange(k, k + part.len()) == part
}

proof fn lemma_part_of(a: Seq<char>, p: Seq<char>, b: Seq<char>)
    ensures
        has_part(a + p + b, p),
{
    assert((a + p + b).subrange(a.len() as int, (a.len() + p.len()) as int) =~= p);
}

proof fn lemma_rule_literals()
    ensures
        "\n@font-face {\n  font-family: '"@ == "\n@font-face {\n  "@ + "font-family: '"@,
        "\n@font-face {\n  font-family: '"@.subrange(0, 13) == "\n@font-face {"@,
        "\n@font-face {\n  font-family: '"@.len() == 30,
        "';\n  font-style: "@ == "';"@ + "\n  font-style: "@,
        "';\n  font-style: "@ == "';\n  "@ + "font-style: "@,
        ";\n  font-weight: "@ == ";"@ + "\n  font-weight: "@,
        ";\n  font-weight: "@ == ";\n  "@ + "font-weight: "@,
        ";\n  src:\n    "@ == ";"@ + "\n  src:\n    "@,
        ";\n  src:\n    "@ == ";\n  "@ + "src:\n    "@,
        "\n  unicode-range: "@ == "\n  "@ + "unicode-range: "@,
        "\n}\n"@.len() == 3,
{
    reveal_strlit("\n@font-face {\n  font-family: '");
    reveal_strlit("\n@font-face {\n  ");
    reveal_strlit("font-family: '");
    reveal_strlit("\n@font-face {");
    reveal_strlit("';\n  font-style: ");
    reveal_strlit("';");
    reveal_strlit("\n  font-style: ");
    reveal_strlit("';\n  ");
    reveal_strlit("font-style: ");
    reveal_strlit(";\n  font-weight: ");
    reveal_strlit(";");
    reveal_strlit("\n  font-weight: ");
    reveal_strlit(";\n  ");
    reveal_strlit("font-weight: ");
    reveal_strlit(";\n  src:\n    ");
    reveal_strlit("\n  src:\n    ");
    reveal_strlit("src:\n    ");
    reveal_strlit("\n  unicode-range: ");
    reveal_strlit("\n  ");
    reveal_strlit("unicode-range: ");
    reveal_strlit("\n}\n");
    assert("\n@font-face {\n  font-family: '"@ =~= "\n@font-face {\n  "@ + "font-family: '"@);
    assert("\n@font-face {\n  font-family: '"@.subrange(0, 13) =~= "\n@font-face {"@);
    assert("';\n  font-style: "@ =~= "';"@ + "\n  font-style: "@);
    assert("';\n  font-style: "@ =~= "';\n  "@ + "font-style: "@);
    assert(";\n  font-weight: "@ =~= ";"@ + "\n  font-weight: "@);
    assert(";\n  font-weight: "@ =~= ";\n  "@ + "font-weight: "@);
    assert(";\n  src:\n    "@ =~= ";"@ + "\n  src:\n    "@);
    assert(";\n  src:\n    "@ =~= ";\n  "@ + "src:\n    "@);
    assert("\n  unicode-range: "@ =~= "\n  "@ + "unicode-range: "@);
}

proof fn lemma_part_ext(x: Seq<char>, y: Seq<char>, p: Seq<char>)
    requires
        has_part(x, p),
    ensures
        has_part(x + y, p),
{
    let k = choose|k: int| 0 <= k && k + p.len() <= x.len() && #[trigger] x.subrange(k, k + p.len()) == p;
    assert((x + y).subrange(k, k + p.len()) =~= x.subrange(k, k + p.len()));
}

/// The `@font-face` rule of a variant declares what it is given: it
/// contains `font-family: '<family>';`, `font-style: <style>;`,
/// `font-weight: <weight>;`, the `src` entries joined by commas, and
/// `unicode-range: <range>;` where a range is given; it opens with
/// `@font-face {` and closes with `}`.
pub proof fn lemma_css_rule_declares(
    family: Seq<char>,
    style: Seq<char>,
    weight: u16,
    urls: Seq<Seq<char>>,
    range: Option<String>,
)
    ensures
        ({
            let rule = css_rule(family, style, weight, urls, range);
            &&& has_part(rule, "font-family: '"@ + family + "';"@)
            &&& has_part(rule, "font-style: "@ + style + ";"@)
            &&& has_part(rule, "font-weight: "@ + decimal(weight as nat) + ";"@)
            &&& has_part(rule, "src:\n    "@ + joined(urls, ",\n    "@) + ";"@)
            &&& range matches Some(r) ==> has_part(rule, "unicode-range: "@ + r@ + ";"@)
            &&& rule.subrange(0, 13) == "\n@font-face {"@
            &&& rule.subrange(rule.len() - 3, rule.len() as int) == "\n}\n"@
        }),
{
    lemma_rule_literals();
    let c0 = "\n@font-face {\n  font-family: '"@;
    let c1 = "';\n  font-style: "@;
    let c2 = ";\n  font-weight: "@;
    let c3 = ";\n  src:\n    "@;
    let sc = ";"@;
    let end = "\n}\n"@;
    let d = decimal(weight as nat);
    let j = joined(urls, ",\n    "@);
    let tail = match range {
        Some(r) => "\n  unicode-range: "@ + r@ + ";"@,
        None => Seq::<char>::empty(),
    };
    let r0 = c0 + family;
    let r1 = r0 + c1;
    let r2 = r1 + style;
    let r3 = r2 + c2;
    let r4 = r3 + d;
    let r5 = r4 + c3;
    let r6 = r5 + j;
    let r7 = r6 + sc;
    let r8 = r7 + tail;
    let rule = css_rule(family, style, weight, urls, range);
    assert(rule == r8 + end);
    // font-family
    let pf = "font-family: '"@ + family + "';"@;
    assert(r1 =~= "\n@font-face {\n  "@ + pf + "\n  font-style: "@);
    lemma_part_of("\n@font-face {\n  "@, pf, "\n  font-style: "@);
    lemma_part_ext(r1, style, pf);
    lemma_part_ext(r2, c2, pf);
    lemma_part_ext(r3, d, pf);
    lemma_part_ext(r4, c3, pf);
    lemma_part_ext(r5, j, pf);
    lemma_part_ext(r6, sc, pf);
    lemma_part_ext(r7, tail, pf);
    lemma_part_ext(r8, end, pf);
    // font-style
    let ps = "font-style: "@ + style + ";"@;
    assert(r3 =~= (r0 + "';\n  "@) + ps + "\n  font-weight: "@);
    lemma_part_of(r0 + "';\n  "@, ps, "\n  font-weight: "@);
    lemma_part_ext(r3, d, ps);
    lemma_part_ext(r4, c3, ps);
    lemma_part_ext(r5, j, ps);
    lemma_part_ext(r6, sc, ps);
    lemma_part_ext(r7, tail, ps);
    lemma_part_ext(r8, end, ps);
    // font-weight
    let pw = "font-weight: "@ + d + ";"@;
    assert(r5 =~= (r2 + ";\n  "@) + pw + "\n  src:\n    "@);
    lemma_part_of(r2 + ";\n  "@, pw, "\n  src:\n    "@);
    lemma_part_ext(r5, j, pw);
    lemma_part_ext(r6, sc, pw);
    lemma_part_ext(r7, tail, pw);
    lemma_part_ext(r8, end, pw);
    // src
    let pu = "src:\n    "@ + j + ";"@;
    assert(r7 =~= (r4 + ";\n  "@) + pu + Seq::<char>::empty());
    lemma_part_of(r4 + ";\n  "@, pu, Seq::<char>::empty());
    lemma_part_ext(r7, tail, pu);
    lemma_part_ext(r8, end, pu);
    // unicode-range
    if let Some(r) = range {
        let pr = "unicode-range: "@ + r@ + ";"@;
        assert(r8 =~= (r7 + "\n  "@) + pr + Seq::<char>::empty());
        lemma_part_of(r7 + "\n  "@, pr, Seq::<char>::empty());
        lemma_part_ext(r8, end, pr);
    }
    assert(rule.subrange(0, 13) =~= c0.subrange(0, 13));
    assert(rule.subrange(rule.len() - 3, rule.len() as int) =~= end);
}

} // verus!
