//! Font queries: weights, file types, and the builder that normalizes them.

use crate::text::{
    eq_ignore_ascii_case, lemma_trim_idempotent, lower_code, str_eq_ignore_ascii_case, strings_view, trim,
    trim_str,
};
use vstd::prelude::*;

verus! {

/// An enum representing the standard font weights.
#[derive(Debug, Clone, Copy, PartialEq, Eq, Hash, Structural)]
pub enum Weight {
    Thin,
    ExtraLight,
    Light,
    Normal,
    Medium,
    SemiBold,
    Bold,
    ExtraBold,
    Black,
}

/// The numeric CSS weight of each variant.
pub open spec fn weight_value(w: Weight) -> u16 {
    match w {
        Weight::Thin => 100,
        Weight::ExtraLight => 200,
        Weight::Light => 300,
        Weight::Normal => 400,
        Weight::Medium => 500,
        Weight::SemiBold => 600,
        Weight::Bold => 700,
        Weight::ExtraBold => 800,
        Weight::Black => 900,
    }
}

/// `v` clamped to `[100, 900]` and rounded down to a multiple of 100.
pub open spec fn rounded_weight(v: int) -> int {
    let c = if v < 100 { 100 } else if v > 900 { 900 } else { v };
    (c / 100) * 100
}

/// The weight whose numeric value is `rounded_weight(v)`.
pub open spec fn weight_of(v: int) -> Weight {
    let r = rounded_weight(v);
    if r == 100 {
        Weight::Thin
    } else if r == 200 {
        Weight::ExtraLight
    } else if r == 300 {
        Weight::Light
    } else if r == 500 {
        Weight::Medium
    } else if r == 600 {
        Weight::SemiBold
    } else if r == 700 {
        Weight::Bold
    } else if r == 800 {
        Weight::ExtraBold
    } else if r == 900 {
        Weight::Black
    } else {
        Weight::Normal
    }
}

impl Weight {
    /// The numeric CSS weight of this variant.
    pub fn value(&self) -> (r: u16)
        ensures
            r == weight_value(*self),
    {
        match self {
            Weight::Thin => 100,
            Weight::ExtraLight => 200,
            Weight::Light => 300,
            Weight::Normal => 400,
            Weight::Medium => 500,
            Weight::SemiBold => 600,
            Weight::Bold => 700,
            Weight::ExtraBold => 800,
            Weight::Black => 900,
        }
    }

    /// Rounds `value` down to a standard weight, after clamping it to `[100, 900]`.
    pub fn from_u16(value: u16) -> (r: Weight)
        ensures
            r == weight_of(value as int),
            weight_value(r) == rounded_weight(value as int),
    {
        let clamped: u16 = if value < 100 {
            100
        } else if value > 900 {
            900
        } else {
            value
        };
        let rounded: u16 = (clamped / 100) * 100;
        match rounded {
            100 => Weight::Thin,
            200 => Weight::ExtraLight,
            300 => Weight::Light,
            500 => Weight::Medium,
            600 => Weight::SemiBold,
            700 => Weight::Bold,
            800 => Weight::ExtraBold,
            900 => Weight::Black,
            _ => Weight::Normal,
        }
    }
}

impl From<u16> for Weight {
    fn from(value: u16) -> (r: Weight) {
        Weight::from_u16(value)
    }
}

impl vstd::std_specs::convert::FromSpecImpl<u16> for Weight {
    open spec fn obeys_from_spec() -> bool {
        true
    }

    open spec fn from_spec(v: u16) -> Weight {
        weight_of(v as int)
    }
}

/// `v` clamped to `[100, 900]` and rounded to the nearest multiple of 100,
/// halves rounded up.
pub open spec fn nearest_rounded_weight(v: int) -> int {
    let c = if v < 100 { 100 } else if v > 900 { 900 } else { v };
    ((c + 50) / 100) * 100
}

/// The standard weight nearest to `v` (after clamping to `[100, 900]`).
pub open spec fn nearest_weight(v: int) -> Weight {
    weight_of(nearest_rounded_weight(v))
}

impl Weight {
    /// Creates a weight from any integer: the value is clamped to `[100, 900]`
    /// and rounded to the nearest standard weight (100, 200, ..., 900), a
    /// value halfway between two of them to the higher one.
    pub fn new(value: i32) -> (r: Weight)
        ensures
            r == nearest_weight(value as int),
            weight_value(r) == nearest_rounded_weight(value as int),
    {
        let clamped: u16 = if value < 100 {
            100
        } else if value > 900 {
            900
        } else {
            value as u16
        };
        Weight::from_u16(clamped + 50)
    }

    /// The integer value of this weight.
    pub fn __int__(&self) -> (r: u16)
        ensures
            r == weight_value(*self),
    {
        self.value()
    }
}

impl Default for Weight {
    fn default() -> (r: Weight)
        ensures
            r == Weight::Normal,
    {
        Weight::Normal
    }
}

impl From<Weight> for u16 {
    fn from(value: Weight) -> (r: u16) {
        value.value()
    }
}

impl vstd::std_specs::convert::FromSpecImpl<Weight> for u16 {
    open spec fn obeys_from_spec() -> bool {
        true
    }

    open spec fn from_spec(v: Weight) -> u16 {
        weight_value(v)
    }
}

impl<'a> From<&'a Weight> for u16 {
    fn from(value: &'a Weight) -> (r: u16) {
        value.value()
    }
}

impl<'a> vstd::std_specs::convert::FromSpecImpl<&'a Weight> for u16 {
    open spec fn obeys_from_spec() -> bool {
        true
    }

    open spec fn from_spec(v: &'a Weight) -> u16 {
        weight_value(*v)
    }
}

/// An enum representing supported downloadable font file types.
#[derive(Debug, Clone, Copy, PartialEq, Eq, Hash, Structural)]
pub enum FontFileType {
    Woff2,
    Woff,
    Ttf,
}

/// The file extension of each file type (also its lower-case name).
pub open spec fn extension_of(t: FontFileType) -> Seq<char> {
    match t {
        FontFileType::Woff2 => seq!['w', 'o', 'f', 'f', '2'],
        FontFileType::Woff => seq!['w', 'o', 'f', 'f'],
        FontFileType::Ttf => seq!['t', 't', 'f'],
    }
}

impl FontFileType {
    /// The file extension for this file type.
    pub fn extension(&self) -> (r: &'static str)
        ensures
            r@ == extension_of(*self),
    {
        proof {
            reveal_strlit("woff2");
            reveal_strlit("woff");
            reveal_strlit("ttf");
        }
        match self {
            FontFileType::Woff2 => "woff2",
            FontFileType::Woff => "woff",
            FontFileType::Ttf => "ttf",
        }
    }

    /// The file-extension representation of this file type.
    pub fn __str__(&self) -> (r: &'static str)
        ensures
            r@ == extension_of(*self),
    {
        self.extension()
    }
}

impl Default for FontFileType {
    fn default() -> (r: FontFileType)
        ensures
            r == FontFileType::Ttf,
    {
        FontFileType::Ttf
    }
}

/// The style `"normal"`.
pub open spec fn normal_style() -> Seq<char> {
    seq!['n', 'o', 'r', 'm', 'a', 'l']
}

/// The style `"italic"`.
pub open spec fn italic_style() -> Seq<char> {
    seq!['i', 't', 'a', 'l', 'i', 'c']
}

/// The style `"oblique"`.
pub open spec fn oblique_style() -> Seq<char> {
    seq!['o', 'b', 'l', 'i', 'q', 'u', 'e']
}

/// The subset `"latin"`.
pub open spec fn latin_subset() -> Seq<char> {
    seq!['l', 'a', 't', 'i', 'n']
}

/// The family `"Roboto"`.
pub open spec fn roboto_family() -> Seq<char> {
    seq!['R', 'o', 'b', 'o', 't', 'o']
}

/// A style, trimmed and matched without regard to ASCII case against
/// `"italic"` and `"oblique"`; anything else is `"normal"`.
pub open spec fn normalized_style_of(s: Seq<char>) -> Seq<char> {
    let t = trim(s);
    if eq_ignore_ascii_case(t, italic_style()) {
        italic_style()
    } else if eq_ignore_ascii_case(t, oblique_style()) {
        oblique_style()
    } else {
        normal_style()
    }
}

/// A subset, trimmed; `"latin"` where nothing is left.
pub open spec fn normalized_subset_of(s: Seq<char>) -> Seq<char> {
    if trim(s).len() > 0 {
        trim(s)
    } else {
        latin_subset()
    }
}

/// `s` with `x` added at the end unless it is already there (a set insertion
/// that remembers the order of first insertion).
pub open spec fn with_item<A>(s: Seq<A>, x: A) -> Seq<A> {
    if s.contains(x) {
        s
    } else {
        s.push(x)
    }
}

/// `s` itself, or the single item `d` where `s` is empty.
pub open spec fn or_default<A>(s: Seq<A>, d: A) -> Seq<A> {
    if s.len() == 0 {
        seq![d]
    } else {
        s
    }
}

/// The contents of borrowed strings.
pub open spec fn string_refs_view<'a>(v: Seq<&'a String>) -> Seq<Seq<char>> {
    v.map_values(|s: &'a String| s@)
}

/// The contents of a query (or of a builder): the family name and, in the
/// order of first insertion, the distinct styles, weights, subsets and file
/// types.
#[verifier::ext_equal]
pub struct QueryView {
    pub family: Seq<char>,
    pub styles: Seq<Seq<char>>,
    pub weights: Seq<Weight>,
    pub subsets: Seq<Seq<char>>,
    pub file_types: Seq<FontFileType>,
}

impl QueryView {
    /// No style, weight, subset or file type occurs twice.
    pub open spec fn distinct(self) -> bool {
        &&& self.styles.no_duplicates()
        &&& self.weights.no_duplicates()
        &&& self.subsets.no_duplicates()
        &&& self.file_types.no_duplicates()
    }

    /// What every built query satisfies: each collection is a non-empty set.
    pub open spec fn wf(self) -> bool {
        &&& self.distinct()
        &&& self.styles.len() > 0
        &&& self.weights.len() > 0
        &&& self.subsets.len() > 0
        &&& self.file_types.len() > 0
    }

    /// The query that `build` makes of a builder with these contents.
    pub open spec fn built(self) -> QueryView {
        QueryView {
            family: self.family,
            styles: or_default(self.styles, normal_style()),
            weights: or_default(self.weights, Weight::Normal),
            subsets: or_default(self.subsets, latin_subset()),
            file_types: or_default(self.file_types, FontFileType::Ttf),
        }
    }
}

/// The default query: Roboto, normal, weight 400, latin, TTF.
pub open spec fn default_query() -> QueryView {
    QueryView {
        family: roboto_family(),
        styles: seq![normal_style()],
        weights: seq![Weight::Normal],
        subsets: seq![latin_subset()],
        file_types: seq![FontFileType::Ttf],
    }
}

/// Adds `x` to a list of distinct strings unless it is already there.
fn insert_string(v: &mut Vec<String>, x: String)
    ensures
        strings_view(final(v)@) == with_item(strings_view(old(v)@), x@),
        strings_view(old(v)@).no_duplicates() ==> strings_view(final(v)@).no_duplicates(),
{
    let mut i: usize = 0;
    while i < v.len()
        invariant
            i <= v.len(),
            forall|k: int| 0 <= k < i ==> v@[k]@ != x@,
        decreases v.len() - i,
    {
        if v[i] == x {
            assert(strings_view(v@)[i as int] == x@);
            return;
        }
        i = i + 1;
    }
    let ghost before = v@;
    assert(!strings_view(before).contains(x@)) by {
        if strings_view(before).contains(x@) {
            let k = choose|k: int| 0 <= k < strings_view(before).len() && strings_view(before)[k] == x@;
            assert(before[k]@ == x@);
        }
    }
    v.push(x);
    assert(strings_view(v@) =~= strings_view(before).push(x@));
}

/// Adds `w` to a list of distinct weights unless it is already there.
fn insert_weight(v: &mut Vec<Weight>, w: Weight)
    ensures
        final(v)@ == with_item(old(v)@, w),
        old(v)@.no_duplicates() ==> final(v)@.no_duplicates(),
{
    let mut i: usize = 0;
    while i < v.len()
        invariant
            i <= v.len(),
            forall|k: int| 0 <= k < i ==> v@[k] != w,
        decreases v.len() - i,
    {
        if v[i] == w {
            return;
        }
        i = i + 1;
    }
    v.push(w);
}

/// Adds `t` to a list of distinct file types unless it is already there.
fn insert_file_type(v: &mut Vec<FontFileType>, t: FontFileType)
    ensures
        final(v)@ == with_item(old(v)@, t),
        old(v)@.no_duplicates() ==> final(v)@.no_duplicates(),
{
    let mut i: usize = 0;
    while i < v.len()
        invariant
            i <= v.len(),
            forall|k: int| 0 <= k < i ==> v@[k] != t,
        decreases v.len() - i,
    {
        if v[i] == t {
            return;
        }
        i = i + 1;
    }
    v.push(t);
}

/// A builder for constructing a [`FontQuery`].
#[derive(Debug)]
pub struct QueryBuilder {
    family: String,
    style: Vec<String>,
    weight: Vec<Weight>,
    subset: Vec<String>,
    file_type: Vec<FontFileType>,
}

impl View for QueryBuilder {
    type V = QueryView;

    closed spec fn view(&self) -> QueryView {
        QueryView {
            family: self.family@,
            styles: strings_view(self.style@),
            weights: self.weight@,
            subsets: strings_view(self.subset@),
            file_types: self.file_type@,
        }
    }
}

impl QueryBuilder {
    #[verifier::type_invariant]
    spec fn inv(self) -> bool {
        self@.distinct()
    }

    /// Creates a builder for the given font family (display name), trimmed.
    pub fn new(family: &str) -> (r: QueryBuilder)
        ensures
            r@ == (QueryView {
                family: trim(family@),
                styles: seq![],
                weights: seq![],
                subsets: seq![],
                file_types: seq![],
            }),
    {
        let f = trim_str(family).to_owned();
        let r = QueryBuilder {
            family: f,
            style: Vec::new(),
            weight: Vec::new(),
            subset: Vec::new(),
            file_type: Vec::new(),
        };
        assert(strings_view(r.style@) =~= seq![]);
        assert(strings_view(r.subset@) =~= seq![]);
        r
    }

    /// Adds a style, normalized to `"normal"`, `"italic"` or `"oblique"`.
    pub fn with_style(self, style: &str) -> (r: QueryBuilder)
        ensures
            r@ == (QueryView { styles: with_item(self@.styles, normalized_style_of(style@)), ..self@ }),
    {
        proof {
            use_type_invariant(&self);
        }
        let QueryBuilder { family, style: mut styles, weight, subset, file_type } = self;
        insert_string(&mut styles, Self::normalized_style(style).to_owned());
        QueryBuilder { family, style: styles, weight, subset, file_type }
    }

    /// The style normalized to `"normal"`, `"italic"` or `"oblique"`
    /// (case-insensitive, with surrounding whitespace stripped).
    pub fn normalized_style(style: &str) -> (r: &'static str)
        ensures
            r@ == normalized_style_of(style@),
    {
        proof {
            reveal_strlit("italic");
            reveal_strlit("oblique");
            reveal_strlit("normal");
        }
        let style = trim_str(style);
        if str_eq_ignore_ascii_case(style, "italic") {
            return "italic";
        } else if str_eq_ignore_ascii_case(style, "oblique") {
            return "oblique";
        }
        "normal"
    }

    /// Adds a weight.
    pub fn with_weight(self, weight: Weight) -> (r: QueryBuilder)
        ensures
            r@ == (QueryView { weights: with_item(self@.weights, weight), ..self@ }),
    {
        proof {
            use_type_invariant(&self);
        }
        let QueryBuilder { family, style, weight: mut weights, subset, file_type } = self;
        insert_weight(&mut weights, weight);
        QueryBuilder { family, style, weight: weights, subset, file_type }
    }

    /// Adds a subset, trimmed; an empty one becomes `"latin"`.
    pub fn with_subset(self, subset: &str) -> (r: QueryBuilder)
        ensures
            r@ == (QueryView { subsets: with_item(self@.subsets, normalized_subset_of(subset@)), ..self@ }),
    {
        proof {
            use_type_invariant(&self);
        }
        let QueryBuilder { family, style, weight, subset: mut subsets, file_type } = self;
        insert_string(&mut subsets, Self::normalized_subset(subset).to_owned());
        QueryBuilder { family, style, weight, subset: subsets, file_type }
    }

    /// The subset trimmed; `"latin"` where nothing is left.
    pub fn normalized_subset(subset: &str) -> (r: &str)
        ensures
            r@ == normalized_subset_of(subset@),
    {
        proof {
            reveal_strlit("latin");
        }
        let result = trim_str(subset);
        if !result.is_empty() {
            result
        } else {
            "latin"
        }
    }

    /// Adds a file type.
    pub fn with_file_type(self, file_type: FontFileType) -> (r: QueryBuilder)
        ensures
            r@ == (QueryView { file_types: with_item(self@.file_types, file_type), ..self@ }),
    {
        proof {
            use_type_invariant(&self);
        }
        let QueryBuilder { family, style, weight, subset, file_type: mut file_types } = self;
        insert_file_type(&mut file_types, file_type);
        QueryBuilder { family, style, weight, subset, file_type: file_types }
    }
}

impl Default for QueryBuilder {
    fn default() -> (r: QueryBuilder)
        ensures
            r@ == (QueryView {
                family: seq![],
                styles: seq![],
                weights: seq![],
                subsets: seq![],
                file_types: seq![],
            }),
    {
        let r = QueryBuilder {
            family: String::new(),
            style: Vec::new(),
            weight: Vec::new(),
            subset: Vec::new(),
            file_type: Vec::new(),
        };
        assert(strings_view(r.style@) =~= seq![]);
        assert(strings_view(r.subset@) =~= seq![]);
        r
    }
}

impl QueryBuilder {
    /// Builds the query, putting the default value into each collection that
    /// is still empty (see [`FontQuery::default`]).
    pub fn build(self) -> (r: FontQuery)
        ensures
            r@ == self@.built(),
            r@.wf(),
    {
        proof {
            use_type_invariant(&self);
            reveal_strlit("normal");
            reveal_strlit("latin");
        }
        let QueryBuilder { family, style, weight, subset, file_type } = self;
        let style = if style.len() == 0 {
            let mut v = Vec::new();
            let d = "normal".to_owned();
            assert(d@ == normal_style());
            v.push(d);
            assert(strings_view(v@) =~= seq![normal_style()]);
            v
        } else {
            style
        };
        let weight = if weight.len() == 0 {
            let mut v = Vec::new();
            v.push(Weight::Normal);
            v
        } else {
            weight
        };
        let subset = if subset.len() == 0 {
            let mut v = Vec::new();
            let d = "latin".to_owned();
            assert(d@ == latin_subset());
            v.push(d);
            assert(strings_view(v@) =~= seq![latin_subset()]);
            v
        } else {
            subset
        };
        let file_type = if file_type.len() == 0 {
            let mut v = Vec::new();
            v.push(FontFileType::Ttf);
            v
        } else {
            file_type
        };
        let r = FontQuery { family, style, weight, subset, file_type };
        assert(r@ =~= self@.built());
        r
    }
}

/// A description of the desired font(s); build one with [`QueryBuilder`].
#[derive(Debug)]
pub struct FontQuery {
    family: String,
    style: Vec<String>,
    weight: Vec<Weight>,
    subset: Vec<String>,
    pub(crate) file_type: Vec<FontFileType>,
}

impl View for FontQuery {
    type V = QueryView;

    closed spec fn view(&self) -> QueryView {
        QueryView {
            family: self.family@,
            styles: strings_view(self.style@),
            weights: self.weight@,
            subsets: strings_view(self.subset@),
            file_types: self.file_type@,
        }
    }
}

impl Clone for FontQuery {
    fn clone(&self) -> (r: FontQuery)
        ensures
            r@ == self@,
    {
        proof {
            use_type_invariant(self);
        }
        let r = FontQuery {
            family: self.family.clone(),
            style: self.style.clone(),
            weight: self.weight.clone(),
            subset: self.subset.clone(),
            file_type: self.file_type.clone(),
        };
        assert(strings_view(r.style@) =~= strings_view(self.style@));
        assert(strings_view(r.subset@) =~= strings_view(self.subset@));
        assert(r.weight@ =~= self.weight@);
        assert(r.file_type@ =~= self.file_type@);
        r
    }
}

/// The items of `s` that also occur in `avail`, in the order of `s`.
pub open spec fn kept<A>(s: Seq<A>, avail: Seq<A>) -> Seq<A> {
    s.filter(|x: A| avail.contains(x))
}

/// Whether `x` is one of the strings of `avail`.
fn contains_string(avail: &[String], x: &String) -> (r: bool)
    ensures
        r == strings_view(avail@).contains(x@),
{
    let mut i: usize = 0;
    while i < avail.len()
        invariant
            i <= avail.len(),
            forall|k: int| 0 <= k < i ==> avail@[k]@ != x@,
        decreases avail.len() - i,
    {
        if avail[i] == *x {
            assert(strings_view(avail@)[i as int] == x@);
            return true;
        }
        i = i + 1;
    }
    proof {
        if strings_view(avail@).contains(x@) {
            let k = choose|k: int| 0 <= k < strings_view(avail@).len() && strings_view(avail@)[k] == x@;
            assert(avail@[k]@ == x@);
        }
    }
    false
}

/// Whether `x` is one of the values of `avail`.
fn contains_u16(avail: &[u16], x: u16) -> (r: bool)
    ensures
        r == avail@.contains(x),
{
    let mut i: usize = 0;
    while i < avail.len()
        invariant
            i <= avail.len(),
            forall|k: int| 0 <= k < i ==> avail@[k] != x,
        decreases avail.len() - i,
    {
        if avail[i] == x {
            return true;
        }
        i = i + 1;
    }
    false
}

/// The strings of `v` that also occur in `avail`, borrowed, in the order of `v`.
fn kept_strings<'a>(v: &'a Vec<String>, avail: &[String]) -> (r: Vec<&'a String>)
    ensures
        string_refs_view(r@) == kept(strings_view(v@), strings_view(avail@)),
{
    let ghost whole = strings_view(v@);
    let ghost av = strings_view(avail@);
    let ghost pred = |x: Seq<char>| av.contains(x);
    let mut r: Vec<&'a String> = Vec::new();
    let mut i: usize = 0;
    while i < v.len()
        invariant
            i <= v.len(),
            whole == strings_view(v@),
            av == strings_view(avail@),
            pred == (|x: Seq<char>| av.contains(x)),
            string_refs_view(r@) == whole.take(i as int).filter(pred),
        decreases v.len() - i,
    {
        reveal_with_fuel(Seq::<_>::filter, 1);
        assert(whole.take(i + 1).drop_last() =~= whole.take(i as int));
        let ghost before = r@;
        if contains_string(avail, &v[i]) {
            r.push(&v[i]);
            assert(string_refs_view(r@) =~= string_refs_view(before).push(v@[i as int]@));
        }
        i = i + 1;
    }
    assert(whole.take(v.len() as int) =~= whole);
    r
}

impl FontQuery {
    #[verifier::type_invariant]
    pub(crate) open spec fn inv(self) -> bool {
        self@.wf()
    }

    /// The font family's display name.
    pub fn family(&self) -> (r: &str)
        ensures
            r@ == self@.family,
    {
        self.family.as_str()
    }

    /// The styles of this query.
    pub fn styles(&self) -> (r: &[String])
        ensures
            strings_view(r@) == self@.styles,
    {
        self.style.as_slice()
    }

    /// The weights of this query.
    pub fn weights(&self) -> (r: &[Weight])
        ensures
            r@ == self@.weights,
    {
        self.weight.as_slice()
    }

    /// The subsets of this query.
    pub fn subsets(&self) -> (r: &[String])
        ensures
            strings_view(r@) == self@.subsets,
    {
        self.subset.as_slice()
    }

    /// The file types of this query.
    pub fn file_types(&self) -> (r: &[FontFileType])
        ensures
            r@ == self@.file_types,
    {
        self.file_type.as_slice()
    }

    /// The requested subsets that are among `available`, in query order.
    pub fn filter_subsets<'a>(&'a self, available: &[String]) -> (r: Vec<&'a String>)
        ensures
            string_refs_view(r@) == kept(self@.subsets, strings_view(available@)),
    {
        kept_strings(&self.subset, available)
    }

    /// The requested styles that are among `available`, in query order.
    pub fn filter_styles<'a>(&'a self, available: &[String]) -> (r: Vec<&'a String>)
        ensures
            string_refs_view(r@) == kept(self@.styles, strings_view(available@)),
    {
        kept_strings(&self.style, available)
    }

    /// The numeric values of the requested weights that are among `available`,
    /// in query order.
    pub fn filter_weights(&self, available: &[u16]) -> (r: Vec<u16>)
        ensures
            r@ == kept(self@.weights.map_values(|w: Weight| weight_value(w)), available@),
    {
        let ghost whole = self@.weights.map_values(|w: Weight| weight_value(w));
        let ghost pred = |x: u16| available@.contains(x);
        let mut r: Vec<u16> = Vec::new();
        let mut i: usize = 0;
        while i < self.weight.len()
            invariant
                i <= self.weight.len(),
                whole == self@.weights.map_values(|w: Weight| weight_value(w)),
                whole.len() == self.weight.len(),
                pred == (|x: u16| available@.contains(x)),
                r@ == whole.take(i as int).filter(pred),
            decreases self.weight.len() - i,
        {
            reveal_with_fuel(Seq::<_>::filter, 1);
            assert(whole.take(i + 1).drop_last() =~= whole.take(i as int));
            let w = self.weight[i].value();
            assert(w == whole[i as int]);
            if contains_u16(available, w) {
                r.push(w);
            }
            i = i + 1;
        }
        assert(whole.take(self.weight.len() as int) =~= whole);
        r
    }
}

/// `s` after adding each item of `xs`, in order, as [`with_item`] does.
pub open spec fn with_items<A>(s: Seq<A>, xs: Seq<A>) -> Seq<A>
    decreases xs.len(),
{
    if xs.len() == 0 {
        s
    } else {
        with_item(with_items(s, xs.drop_last()), xs.last())
    }
}

/// The values of an optional list; an absent list adds nothing.
pub open spec fn opt_items<A>(xs: Option<Seq<A>>) -> Seq<A> {
    match xs {
        Some(v) => v,
        None => seq![],
    }
}

/// The contents of an optional list of strings.
pub open spec fn opt_strings(xs: Option<Vec<String>>) -> Option<Seq<Seq<char>>> {
    match xs {
        Some(v) => Some(strings_view(v@)),
        None => None,
    }
}

/// The contents of an optional list.
pub open spec fn opt_seq<A>(xs: Option<Vec<A>>) -> Option<Seq<A>> {
    match xs {
        Some(v) => Some(v@),
        None => None,
    }
}

/// The query that [`FontQuery::new_py`] makes: each given value added
/// through the builder, in order, then the defaults for what is left empty.
pub open spec fn query_from_lists(
    family: Seq<char>,
    styles: Option<Seq<Seq<char>>>,
    weights: Option<Seq<Weight>>,
    subsets: Option<Seq<Seq<char>>>,
    file_types: Option<Seq<FontFileType>>,
) -> QueryView {
    QueryView {
        family: trim(family),
        styles: with_items(seq![], opt_items(styles).map_values(|s: Seq<char>| normalized_style_of(s))),
        weights: with_items(seq![], opt_items(weights)),
        subsets: with_items(seq![], opt_items(subsets).map_values(|s: Seq<char>| normalized_subset_of(s))),
        file_types: with_items(seq![], opt_items(file_types)),
    }.built()
}

impl Default for FontQuery {
    /// The query for Roboto, style `"normal"`, [`Weight::Normal`], subset
    /// `"latin"` and [`FontFileType::Ttf`].
    fn default() -> (r: FontQuery)
        ensures
            r@ == default_query(),
            r@.wf(),
    {
        proof {
            reveal_strlit("Roboto");
        }
        let r = QueryBuilder::new("Roboto").build();
        assert(trim(roboto_family()) == roboto_family()) by {
            assert(roboto_family().drop_last() =~= seq!['R', 'o', 'b', 'o', 't']);
        }
        assert(r@.styles =~= seq![normal_style()]);
        assert(r@.subsets =~= seq![latin_subset()]);
        assert(r@ =~= default_query());
        r
    }
}

impl FontQuery {
    /// Creates a query from optional lists of styles, weights, subsets and
    /// file types, each added through the [`QueryBuilder`] in order.
    pub fn new_py(
        family: String,
        styles: Option<Vec<String>>,
        weights: Option<Vec<Weight>>,
        subsets: Option<Vec<String>>,
        file_types: Option<Vec<FontFileType>>,
    ) -> (r: FontQuery)
        ensures
            r@ == query_from_lists(
                family@,
                opt_strings(styles),
                opt_seq(weights),
                opt_strings(subsets),
                opt_seq(file_types),
            ),
            r@.wf(),
            r@.family == trim(family@),
            holds_given(
                r@.styles,
                given(opt_strings(styles)).map_values(|s: Seq<char>| normalized_style_of(s)),
                seq!['n', 'o', 'r', 'm', 'a', 'l'],
            ),
            holds_given(r@.weights, given(opt_seq(weights)), Weight::Normal),
            holds_given(
                r@.subsets,
                given(opt_strings(subsets)).map_values(|s: Seq<char>| normalized_subset_of(s)),
                seq!['l', 'a', 't', 'i', 'n'],
            ),
            holds_given(r@.file_types, given(opt_seq(file_types)), FontFileType::Ttf),
    {
        proof {
            lemma_query_from_lists(
                family@,
                opt_strings(styles),
                opt_seq(weights),
                opt_strings(subsets),
                opt_seq(file_types),
            );
        }
        let mut result = QueryBuilder::new(family.as_str());
        let ghost fam = trim(family@);
        if let Some(styles) = styles {
            let ghost xs = strings_view(styles@).map_values(|s: Seq<char>| normalized_style_of(s));
            let mut i: usize = 0;
            while i < styles.len()
                invariant
                    i <= styles.len(),
                    xs == strings_view(styles@).map_values(|s: Seq<char>| normalized_style_of(s)),
                    result@ == (QueryView {
                        family: fam,
                        styles: with_items(seq![], xs.take(i as int)),
                        weights: seq![],
                        subsets: seq![],
                        file_types: seq![],
                    }),
                decreases styles.len() - i,
            {
                assert(xs.take(i + 1).drop_last() =~= xs.take(i as int));
                result = result.with_style(styles[i].as_str());
                i = i + 1;
            }
            assert(xs.take(styles.len() as int) =~= xs);
        }
        let ghost st = result@.styles;
        if let Some(weights) = weights {
            let mut i: usize = 0;
            while i < weights.len()
                invariant
                    i <= weights.len(),
                    result@ == (QueryView {
                        family: fam,
                        styles: st,
                        weights: with_items(seq![], weights@.take(i as int)),
                        subsets: seq![],
                        file_types: seq![],
                    }),
                decreases weights.len() - i,
            {
                assert(weights@.take(i + 1).drop_last() =~= weights@.take(i as int));
                result = result.with_weight(weights[i]);
                i = i + 1;
            }
            assert(weights@.take(weights.len() as int) =~= weights@);
        }
        let ghost wt = result@.weights;
        if let Some(subsets) = subsets {
            let ghost xs = strings_view(subsets@).map_values(|s: Seq<char>| normalized_subset_of(s));
            let mut i: usize = 0;
            while i < subsets.len()
                invariant
                    i <= subsets.len(),
                    xs == strings_view(subsets@).map_values(|s: Seq<char>| normalized_subset_of(s)),
                    result@ == (QueryView {
                        family: fam,
                        styles: st,
                        weights: wt,
                        subsets: with_items(seq![], xs.take(i as int)),
                        file_types: seq![],
                    }),
                decreases subsets.len() - i,
            {
                assert(xs.take(i + 1).drop_last() =~= xs.take(i as int));
                result = result.with_subset(subsets[i].as_str());
                i = i + 1;
            }
            assert(xs.take(subsets.len() as int) =~= xs);
        }
        let ghost sb = result@.subsets;
        if let Some(file_types) = file_types {
            let mut i: usize = 0;
            while i < file_types.len()
                invariant
                    i <= file_types.len(),
                    result@ == (QueryView {
                        family: fam,
                        styles: st,
                        weights: wt,
                        subsets: sb,
                        file_types: with_items(seq![], file_types@.take(i as int)),
                    }),
                decreases file_types.len() - i,
            {
                assert(file_types@.take(i + 1).drop_last() =~= file_types@.take(i as int));
                result = result.with_file_type(file_types[i]);
                i = i + 1;
            }
            assert(file_types@.take(file_types.len() as int) =~= file_types@);
        }
        result.build()
    }

    /// The font family's display name.
    pub fn get_family(&self) -> (r: &str)
        ensures
            r@ == self@.family,
    {
        self.family.as_str()
    }

    /// A copy of the styles of this query.
    pub fn get_styles(&self) -> (r: Vec<String>)
        ensures
            strings_view(r@) == self@.styles,
    {
        let r = self.style.clone();
        assert(strings_view(r@) =~= strings_view(self.style@));
        r
    }

    /// A copy of the weights of this query.
    pub fn get_weights(&self) -> (r: Vec<Weight>)
        ensures
            r@ == self@.weights,
    {
        let r = self.weight.clone();
        assert(r@ =~= self.weight@);
        r
    }

    /// A copy of the subsets of this query.
    pub fn get_subsets(&self) -> (r: Vec<String>)
        ensures
            strings_view(r@) == self@.subsets,
    {
        let r = self.subset.clone();
        assert(strings_view(r@) =~= strings_view(self.subset@));
        r
    }

    /// A copy of the file types of this query.
    pub fn get_file_types(&self) -> (r: Vec<FontFileType>)
        ensures
            r@ == self@.file_types,
    {
        let r = self.file_type.clone();
        assert(r@ =~= self.file_type@);
        r
    }
}

impl From<FontQuery> for QueryBuilder {
    fn from(value: FontQuery) -> (r: QueryBuilder)
        ensures
            r@ == value@,
    {
        proof {
            use_type_invariant(&value);
        }
        let FontQuery { family, style, weight, subset, file_type } = value;
        QueryBuilder { family, style, weight, subset, file_type }
    }
}

impl vstd::std_specs::convert::FromSpecImpl<FontQuery> for QueryBuilder {
    open spec fn obeys_from_spec() -> bool {
        true
    }

    closed spec fn from_spec(v: FontQuery) -> QueryBuilder {
        QueryBuilder {
            family: v.family,
            style: v.style,
            weight: v.weight,
            subset: v.subset,
            file_type: v.file_type,
        }
    }
}

impl<'a> From<&'a FontQuery> for QueryBuilder {
    fn from(value: &'a FontQuery) -> (r: QueryBuilder)
        ensures
            r@ == value@,
    {
        QueryBuilder::from(value.clone())
    }
}

impl<'a> vstd::std_specs::convert::FromSpecImpl<&'a FontQuery> for QueryBuilder {
    /// A copy of a query is equal to it in content only, which the `from`
    /// above states through the views.
    open spec fn obeys_from_spec() -> bool {
        false
    }

    closed spec fn from_spec(v: &'a FontQuery) -> QueryBuilder {
        QueryBuilder {
            family: v.family,
            style: v.style,
            weight: v.weight,
            subset: v.subset,
            file_type: v.file_type,
        }
    }
}

/// Converting a weight to its value and back gives the same weight.
pub proof fn lemma_weight_roundtrip(w: Weight)
    ensures
        weight_of(weight_value(w) as int) == w,
{
}

/// An integer becomes the standard weight at or below it, after clamping to
/// `[100, 900]`: a multiple of 100 in that range, less than 100 below the
/// clamped value.
pub proof fn lemma_weight_rounding(v: int)
    ensures
        100 <= weight_value(weight_of(v)) <= 900,
        weight_value(weight_of(v)) % 100 == 0,
        weight_value(weight_of(v)) == rounded_weight(v),
        100 <= v <= 900 ==> weight_value(weight_of(v)) <= v < weight_value(weight_of(v)) + 100,
        v < 100 ==> weight_of(v) == Weight::Thin,
        v > 900 ==> weight_of(v) == Weight::Black,
{
}

/// `Weight::new` gives the standard weight nearest to the clamped value: a
/// multiple of 100 in `[100, 900]` at most 50 away from it, the higher one
/// where two are equally near.
pub proof fn lemma_weight_nearest(v: int)
    ensures
        ({
            let c = if v < 100 { 100 } else if v > 900 { 900 } else { v };
            let w = weight_value(nearest_weight(v)) as int;
            &&& 100 <= w <= 900
            &&& w % 100 == 0
            &&& c - 50 < w <= c + 50
            &&& w == nearest_rounded_weight(v)
        }),
        v < 100 ==> nearest_weight(v) == Weight::Thin,
        v > 900 ==> nearest_weight(v) == Weight::Black,
{
    let c = if v < 100 { 100 } else if v > 900 { 900 } else { v };
    let q = (c + 50) / 100;
    assert(1 <= q <= 9);
    assert(q * 100 <= c + 50 < q * 100 + 100);
    assert(nearest_rounded_weight(v) == q * 100);
    assert(rounded_weight(q * 100) == q * 100);
}

/// Normalizing a normalized style changes nothing.
pub proof fn lemma_normalized_style_idempotent(s: Seq<char>)
    ensures
        normalized_style_of(normalized_style_of(s)) == normalized_style_of(s),
{
    let n = normalized_style_of(s);
    lemma_trim_literal(n);
    if n == italic_style() {
        assert(eq_ignore_ascii_case(n, italic_style()));
    } else if n == oblique_style() {
        assert(!eq_ignore_ascii_case(n, italic_style()));
        assert(eq_ignore_ascii_case(n, oblique_style()));
    } else {
        assert(n == normal_style());
        assert(lower_code(n[0]) != lower_code(italic_style()[0]));
        assert(!eq_ignore_ascii_case(n, italic_style()));
        assert(!eq_ignore_ascii_case(n, oblique_style()));
    }
}

/// A style name has no surrounding whitespace.
proof fn lemma_trim_literal(n: Seq<char>)
    requires
        n == italic_style() || n == oblique_style() || n == normal_style(),
    ensures
        trim(n) == n,
{
}

/// Normalizing a normalized subset changes nothing.
pub proof fn lemma_normalized_subset_idempotent(s: Seq<char>)
    ensures
        normalized_subset_of(normalized_subset_of(s)) == normalized_subset_of(s),
{
    lemma_trim_idempotent(s);
    assert(trim(latin_subset()) == latin_subset());
}

/// Adding an item to a collection of the query is a set insertion: the set
/// of items gains the item, nothing repeats, and adding it again changes
/// nothing.
pub proof fn lemma_with_item_set<A>(s: Seq<A>, x: A)
    ensures
        with_item(s, x).to_set() == s.to_set().insert(x),
        s.no_duplicates() ==> with_item(s, x).no_duplicates(),
        with_item(with_item(s, x), x) == with_item(s, x),
        with_item(s, x).contains(x),
{
    if s.contains(x) {
        assert(s.to_set().insert(x) =~= s.to_set());
    } else {
        assert(s.push(x).to_set() =~= s.to_set().insert(x)) by {
            assert forall|y: A| s.push(x).to_set().contains(y) <==> s.to_set().insert(x).contains(y) by {
                if y == x {
                    assert(s.push(x)[s.len() as int] == x);
                }
                if s.push(x).contains(y) && y != x {
                    let i = choose|i: int| 0 <= i < s.push(x).len() && s.push(x)[i] == y;
                    assert(s[i] == y);
                }
                if s.contains(y) {
                    let i = choose|i: int| 0 <= i < s.len() && s[i] == y;
                    assert(s.push(x)[i] == y);
                }
            }
        }
        assert(s.push(x)[s.len() as int] == x);
    }
}

/// Building a well-formed query again changes nothing: a query converted to
/// a builder and built back is the same query.
pub proof fn lemma_rebuild(q: QueryView)
    requires
        q.wf(),
    ensures
        q.built() == q,
{
    assert(q.built() =~= q);
}

/// Adding the items of `xs` one by one to an empty collection gives a
/// collection that holds exactly the items of `xs`.
proof fn lemma_with_items_contains<A>(xs: Seq<A>)
    ensures
        forall|x: A| with_items(seq![], xs).contains(x) <==> xs.contains(x),
    decreases xs.len(),
{
    if xs.len() > 0 {
        let init = xs.drop_last();
        lemma_with_items_contains(init);
        let w = with_items(seq![], init);
        assert forall|x: A| with_items(seq![], xs).contains(x) <==> xs.contains(x) by {
            if init.contains(x) {
                let k = choose|k: int| 0 <= k < init.len() && init[k] == x;
                assert(xs[k] == x);
            }
            if xs.contains(x) && x != xs.last() {
                let k = choose|k: int| 0 <= k < xs.len() && xs[k] == x;
                assert(init[k] == x);
            }
            if !w.contains(xs.last()) {
                if w.push(xs.last()).contains(x) && x != xs.last() {
                    let k = choose|k: int| 0 <= k < w.push(xs.last()).len() && w.push(xs.last())[k] == x;
                    assert(w[k] == x);
                }
                if w.contains(x) {
                    let k = choose|k: int| 0 <= k < w.len() && w[k] == x;
                    assert(w.push(xs.last())[k] == x);
                }
                assert(w.push(xs.last())[w.len() as int] == xs.last());
            }
            assert(xs[xs.len() - 1] == xs.last());
        }
    }
}

/// The items of an optional list, as given.
pub open spec fn given<A>(xs: Option<Seq<A>>) -> Seq<A> {
    match xs {
        Some(v) => v,
        None => seq![],
    }
}

/// The collection built from the given items `xs` (each normalized by `f`)
/// holds exactly the normalized given items, or only the default `d` where
/// no item is given.
pub open spec fn holds_given<A>(built: Seq<A>, xs: Seq<A>, d: A) -> bool {
    &&& xs.len() > 0 ==> forall|x: A| built.contains(x) <==> xs.contains(x)
    &&& xs.len() == 0 ==> built == seq![d]
}

proof fn lemma_built_holds_given<A>(xs: Seq<A>, d: A)
    ensures
        holds_given(or_default(with_items(seq![], xs), d), xs, d),
{
    lemma_with_items_contains(xs);
    if xs.len() > 0 {
        assert(xs.contains(xs[0]));
        assert(with_items(seq![], xs).contains(xs[0]));
        assert(with_items(seq![], xs).len() > 0);
    }
}

/// A query made from lists holds the trimmed family name and, in each
/// collection, exactly the given items (styles and subsets normalized),
/// or only the default (`"normal"`, `Weight::Normal`, `"latin"`,
/// `FontFileType::Ttf`) where the list is absent or empty.
pub proof fn lemma_query_from_lists(
    family: Seq<char>,
    styles: Option<Seq<Seq<char>>>,
    weights: Option<Seq<Weight>>,
    subsets: Option<Seq<Seq<char>>>,
    file_types: Option<Seq<FontFileType>>,
)
    ensures
        ({
            let r = query_from_lists(family, styles, weights, subsets, file_types);
            let st = given(styles).map_values(|s: Seq<char>| normalized_style_of(s));
            let sb = given(subsets).map_values(|s: Seq<char>| normalized_subset_of(s));
            &&& r.family == trim(family)
            &&& holds_given(r.styles, st, seq!['n', 'o', 'r', 'm', 'a', 'l'])
            &&& holds_given(r.weights, given(weights), Weight::Normal)
            &&& holds_given(r.subsets, sb, seq!['l', 'a', 't', 'i', 'n'])
            &&& holds_given(r.file_types, given(file_types), FontFileType::Ttf)
        }),
{
    assert(opt_items(styles) == given(styles));
    assert(opt_items(weights) == given(weights));
    assert(opt_items(subsets) == given(subsets));
    assert(opt_items(file_types) == given(file_types));
    lemma_built_holds_given(given(styles).map_values(|s: Seq<char>| normalized_style_of(s)), normal_style());
    lemma_built_holds_given(given(weights), Weight::Normal);
    lemma_built_holds_given(given(subsets).map_values(|s: Seq<char>| normalized_subset_of(s)), latin_subset());
    lemma_built_holds_given(given(file_types), FontFileType::Ttf);
}

} // verus!
