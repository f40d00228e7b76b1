//! Cached metadata: the list of font families and each family's metadata,
//! with the expiry decisions and the `Cache-Control: max-age` parser.

use crate::error::FontSourceError;
use crate::keyed::by_text;
use crate::responses::{FontSourceFamily, TextMap};
use crate::text::{has_prefix, parse_u64, parsed_u64, str_has_prefix, trim, trim_str};
use vstd::prelude::*;

verus! {

/// How long cached metadata stays valid when a response does not say
/// (24 hours, in seconds).
pub const DEFAULT_METADATA_TTL_SECS: u64 = 86400;

/// The cache file of the list of font families, under the cache root.
pub const FONT_LIST_CACHE_FILE: &'static str = "fontsource-family-list-cache.json";

/// The directory under the cache root that holds a directory per family.
pub const FAMILIES_DIR: &'static str = "families";

/// The cache file of a family's metadata, in the family's directory.
pub const FAMILY_CACHE_FILE: &'static str = "family-metadata-cache.json";

/// The extension of the lock file beside each cached file.
pub const CACHE_LOCK_EXT: &'static str = "lock";

/// The cached list of font families.
#[derive(Debug)]
pub struct FontListCacheInfo {
    /// The Unix timestamp (in seconds) when this cache entry expires.
    pub expiration: u64,
    /// The display name of each family ID.
    pub families: TextMap,
}

/// The cached metadata of a single font family.
#[derive(Debug)]
pub struct FamilyCacheInfo {
    /// The Unix timestamp (in seconds) when this cache entry expires.
    pub expiration: u64,
    /// The metadata of the font family.
    pub family: FontSourceFamily,
}

/// The ID of the first entry (in the order of the entries) whose display
/// name is `name`.
pub open spec fn first_id_named(es: Seq<(Seq<char>, String)>, name: Seq<char>) -> Option<Seq<char>>
    decreases es.len(),
{
    if es.len() == 0 {
        None
    } else if es[0].1@ == name {
        Some(es[0].0)
    } else {
        first_id_named(es.drop_first(), name)
    }
}

/// `first_id_named` finds nothing exactly when no entry has the name.
pub proof fn lemma_first_id_named(es: Seq<(Seq<char>, String)>, name: Seq<char>)
    ensures
        first_id_named(es, name) is None <==> forall|j: int| 0 <= j < es.len() ==> es[j].1@ != name,
        first_id_named(es, name) matches Some(id) ==> exists|j: int|
            0 <= j < es.len() && es[j].0 == id && es[j].1@ == name,
    decreases es.len(),
{
    if es.len() > 0 {
        lemma_first_id_named(es.drop_first(), name);
        if es[0].1@ != name {
            assert forall|j: int| 0 <= j < es.len() && j > 0 implies es[j] == es.drop_first()[j - 1] by {}
            if first_id_named(es.drop_first(), name) is Some {
                let id = first_id_named(es.drop_first(), name)->0;
                let j = choose|j: int|
                    0 <= j < es.drop_first().len() && es.drop_first()[j].0 == id
                        && es.drop_first()[j].1@ == name;
                assert(es[j + 1] == es.drop_first()[j]);
            }
        }
    }
}

impl FontListCacheInfo {
    /// The ID of the family whose display name is `family` (trimmed): the
    /// first such entry, in the order of the entries; `None` where no family
    /// has that name.
    pub fn get_id_for_family<'a>(&'a self, family: &str) -> (r: Option<&'a str>)
        ensures
            match r {
                Some(id) => first_id_named(self.families@, trim(family@)) == Some(id@),
                None => first_id_named(self.families@, trim(family@)) is None,
            },
    {
        let name = trim_str(family);
        let entries = self.families.entries();
        let ghost es = self.families@;
        let mut i: usize = 0;
        assert(es.skip(0) =~= es);
        while i < entries.len()
            invariant
                i <= entries.len(),
                by_text(entries@) == es,
                es == self.families@,
                name@ == trim(family@),
                first_id_named(es, name@) == first_id_named(es.skip(i as int), name@),
            decreases entries.len() - i,
        {
            assert(es.skip(i as int).drop_first() =~= es.skip(i + 1));
            assert(es.skip(i as int)[0] == (entries@[i as int].0@, entries@[i as int].1));
            if crate::text::str_eq(entries[i].1.as_str(), name) {
                return Some(entries[i].0.as_str());
            }
            i = i + 1;
        }
        assert(es.skip(i as int) =~= Seq::<(Seq<char>, String)>::empty());
        None
    }

    /// Whether this cache has not expired at `now`.
    pub fn is_fresh(&self, now: u64) -> (r: bool)
        ensures
            r == (self.expiration > now),
    {
        self.expiration > now
    }
}

impl FamilyCacheInfo {
    /// Whether this cache has not expired at `now`.
    pub fn is_fresh(&self, now: u64) -> (r: bool)
        ensures
            r == (self.expiration > now),
    {
        self.expiration > now
    }
}

/// `now + ttl`, or `u64::MAX` where that does not fit.
pub open spec fn expiry(now: u64, ttl: u64) -> u64 {
    if now + ttl > u64::MAX {
        u64::MAX
    } else {
        (now + ttl) as u64
    }
}

/// The expiration time of an entry cached at `now` for `ttl` seconds
/// (saturating at `u64::MAX`).
pub fn expires_at(now: u64, ttl: u64) -> (r: u64)
    ensures
        r == expiry(now, ttl),
{
    now.saturating_add(ttl)
}

/// The part of `s` before its first comma, and what follows that comma (if
/// there is one): the first step of `str::split(',')`.
pub open spec fn split_first(s: Seq<char>) -> (Seq<char>, Option<Seq<char>>)
    decreases s.len(),
{
    if s.len() == 0 {
        (seq![], None)
    } else if s[0] == ',' {
        (seq![], Some(s.drop_first()))
    } else {
        let (a, r) = split_first(s.drop_first());
        (seq![s[0]] + a, r)
    }
}

/// The split of `s` at its first comma, at index `k`.
pub proof fn lemma_split_at(s: Seq<char>, k: int)
    requires
        0 <= k < s.len(),
        s[k] == ',',
        forall|j: int| 0 <= j < k ==> s[j] != ',',
    ensures
        split_first(s) == (s.subrange(0, k), Some(s.subrange(k + 1, s.len() as int))),
    decreases k,
{
    if k == 0 {
        assert(s.subrange(0, 0) =~= Seq::<char>::empty());
        assert(s.subrange(1, s.len() as int) =~= s.drop_first());
    } else {
        lemma_split_at(s.drop_first(), k - 1);
        assert(seq![s[0]] + s.drop_first().subrange(0, k - 1) =~= s.subrange(0, k));
        assert(s.drop_first().subrange(k, s.len() - 1) =~= s.subrange(k + 1, s.len() as int));
    }
}

/// A string without a comma is a single part.
pub proof fn lemma_split_none(s: Seq<char>)
    requires
        forall|j: int| 0 <= j < s.len() ==> s[j] != ',',
    ensures
        split_first(s) == (s, Option::<Seq<char>>::None),
    decreases s.len(),
{
    if s.len() > 0 {
        lemma_split_none(s.drop_first());
        assert(seq![s[0]] + s.drop_first() =~= s);
    }
}

/// What follows the comma is shorter than the whole.
pub proof fn lemma_split_shorter(s: Seq<char>)
    ensures
        split_first(s).1 matches Some(r) ==> r.len() < s.len(),
    decreases s.len(),
{
    if s.len() > 0 && s[0] != ',' {
        lemma_split_shorter(s.drop_first());
    }
}

/// The seconds of a `max-age=<seconds>` directive (trimmed); `None` for any
/// other directive or a value that does not parse as a `u64`.
pub open spec fn max_age_directive(part: Seq<char>) -> Option<u64> {
    let d = trim(part);
    if has_prefix(d, "max-age="@) {
        parsed_u64(d.subrange(8, d.len() as int))
    } else {
        None
    }
}

/// The `max-age` of a `Cache-Control` value: the first comma-separated
/// directive that is a valid `max-age=<seconds>`.
pub open spec fn max_age_of(s: Seq<char>) -> Option<u64>
    decreases s.len(),
{
    let (part, rest) = split_first(s);
    match max_age_directive(part) {
        Some(v) => Some(v),
        None => match rest {
            Some(r) => {
                proof {
                    lemma_split_shorter(s);
                }
                max_age_of(r)
            },
            None => None,
        },
    }
}

fn directive_seconds(part: &str) -> (r: Option<u64>)
    ensures
        r == max_age_directive(part@),
{
    proof {
        reveal_strlit("max-age=");
    }
    let d = trim_str(part);
    if str_has_prefix(d, "max-age=") {
        parse_u64(d.substring_char(8, d.unicode_len()))
    } else {
        None
    }
}

/// The `max-age` (in seconds) of the text of a `Cache-Control` header: the
/// first comma-separated directive, trimmed, of the form `max-age=<u64>`;
/// `None` without such a directive.
pub fn max_age_seconds(s: &str) -> (r: Option<u64>)
    ensures
        r == max_age_of(s@),
{
    let n = s.unicode_len();
    let mut start: usize = 0;
    let mut i: usize = 0;
    assert(s@.subrange(0, n as int) =~= s@);
    while i < n
        invariant
            start <= i <= n,
            n == s@.len(),
            max_age_of(s@) == max_age_of(s@.subrange(start as int, n as int)),
            forall|j: int| start <= j < i ==> s@[j] != ',',
        decreases n - i,
    {
        if s.get_char(i) == ',' {
            let ghost t = s@.subrange(start as int, n as int);
            proof {
                lemma_split_at(t, i - start);
                assert(t.subrange(0, i - start) =~= s@.subrange(start as int, i as int));
                assert(t.subrange(i - start + 1, t.len() as int) =~= s@.subrange(i + 1, n as int));
            }
            let found = directive_seconds(s.substring_char(start, i));
            assert(max_age_of(t) == (match found {
                Some(v) => Some(v),
                None => max_age_of(s@.subrange(i + 1, n as int)),
            }));
            if found.is_some() {
                return found;
            }
            start = i + 1;
        }
        i = i + 1;
    }
    proof {
        lemma_split_none(s@.subrange(start as int, n as int));
    }
    directive_seconds(s.substring_char(start, n))
}

/// Whether a header byte is visible ASCII or a tab.
pub open spec fn is_visible_ascii(b: u8) -> bool {
    (32 <= b && b < 127) || b == 9
}

/// The text of a header value: its bytes as characters where each of them is
/// visible ASCII or a tab; `None` otherwise.
pub open spec fn header_text(bytes: Seq<u8>) -> Option<Seq<char>> {
    if forall|i: int| 0 <= i < bytes.len() ==> is_visible_ascii(#[trigger] bytes[i]) {
        Some(bytes.map_values(|b: u8| b as char))
    } else {
        None
    }
}

/// The text of the header value with the given bytes, through
/// `reqwest::header::HeaderValue::from_bytes` and `HeaderValue::to_str`.
/// Claimed: the text exists exactly when every byte is visible ASCII
/// (32 to 126) or a tab, and then is those bytes as characters (`to_str`
/// accepts exactly such bytes, and `from_bytes` accepts every one of them).
#[verifier::external_body]
fn header_value_text(bytes: &[u8]) -> (r: Option<String>)
    ensures
        match r {
            Some(s) => header_text(bytes@) == Some(s@),
            None => header_text(bytes@) is None,
        },
{
    match reqwest::header::HeaderValue::from_bytes(bytes) {
        Ok(value) => match value.to_str() {
            Ok(text) => Some(text.to_owned()),
            Err(_) => None,
        },
        Err(_) => None,
    }
}

/// Parses the `max-age` directive (in seconds) of a `Cache-Control` header
/// value, given by its bytes: `None` without a header, for a value that is
/// not visible ASCII text, or without a directive `max-age=<u64>` (see
/// [`max_age_seconds`]).
pub fn parse_max_age(cache_control: Option<&[u8]>) -> (r: Option<u64>)
    ensures
        r == match cache_control {
            Some(b) => match header_text(b@) {
                Some(t) => max_age_of(t),
                None => None,
            },
            None => None,
        },
{
    match cache_control {
        Some(bytes) => match header_value_text(bytes) {
            Some(text) => max_age_seconds(text.as_str()),
            None => None,
        },
        None => None,
    }
}

/// The time to live of a fetched entry: the response's `max-age`, or the
/// default of 24 hours.
pub open spec fn ttl_of(max_age: Option<u64>) -> u64 {
    match max_age {
        Some(a) => a,
        None => DEFAULT_METADATA_TTL_SECS,
    }
}

/// The cache of a family list fetched at `now`.
pub open spec fn list_cache_of(families: TextMap, now: u64, max_age: Option<u64>) -> FontListCacheInfo {
    FontListCacheInfo { expiration: expiry(now, ttl_of(max_age)), families }
}

/// The cache of a family's metadata fetched at `now`.
pub open spec fn family_cache_of(family: FontSourceFamily, now: u64, max_age: Option<u64>) -> FamilyCacheInfo {
    FamilyCacheInfo { expiration: expiry(now, ttl_of(max_age)), family }
}

/// What a family list cache answers at `now` for the name `family`: the ID
/// of the first family with that (trimmed) name, or `None` where no family
/// has it, while the cache has not expired; nothing (the list must be
/// fetched) without a cache or after it expired.
pub open spec fn list_cache_answer(cache: Option<FontListCacheInfo>, now: u64, family: Seq<char>) -> Option<
    Option<Seq<char>>,
> {
    match cache {
        Some(c) => if c.expiration > now {
            Some(first_id_named(c.families@, trim(family)))
        } else {
            None
        },
        None => None,
    }
}

/// What a family metadata cache gives at `now`: the metadata while it has
/// not expired; nothing (it must be fetched) otherwise.
pub open spec fn family_cache_answer(cache: Option<FamilyCacheInfo>, now: u64) -> Option<FontSourceFamily> {
    match cache {
        Some(c) => if c.expiration > now {
            Some(c.family)
        } else {
            None
        },
        None => None,
    }
}

/// The contents of an optional optional string.
pub open spec fn opt_opt_view(r: Option<Option<String>>) -> Option<Option<Seq<char>>> {
    match r {
        Some(Some(s)) => Some(Some(s@)),
        Some(None) => Some(None),
        None => None,
    }
}

/// The value behind an optional reference.
pub open spec fn deref_opt<'a, T>(r: Option<&'a T>) -> Option<T> {
    match r {
        Some(x) => Some(*x),
        None => None,
    }
}

/// The cache of the family list fetched at `now`, valid for the response's
/// `max_age` (or the default of 24 hours).
pub fn font_list_cache(families: TextMap, now: u64, max_age: Option<u64>) -> (r: FontListCacheInfo)
    ensures
        r == list_cache_of(families, now, max_age),
        r.families == families,
        max_age matches Some(a) ==> (now + a <= u64::MAX ==> r.expiration == now + a),
        max_age matches Some(a) ==> (now + a > u64::MAX ==> r.expiration == u64::MAX),
        max_age is None && now + 86400 <= u64::MAX ==> r.expiration == now + 86400,
        max_age is None && now + 86400 > u64::MAX ==> r.expiration == u64::MAX,
{
    let ttl = match max_age {
        Some(a) => a,
        None => DEFAULT_METADATA_TTL_SECS,
    };
    FontListCacheInfo { expiration: expires_at(now, ttl), families }
}

/// The cache of a family's metadata fetched at `now`, valid for the
/// response's `max_age` (or the default of 24 hours).
pub fn family_cache(family: FontSourceFamily, now: u64, max_age: Option<u64>) -> (r: FamilyCacheInfo)
    ensures
        r == family_cache_of(family, now, max_age),
        r.family == family,
        max_age matches Some(a) ==> (now + a <= u64::MAX ==> r.expiration == now + a),
        max_age matches Some(a) ==> (now + a > u64::MAX ==> r.expiration == u64::MAX),
        max_age is None && now + 86400 <= u64::MAX ==> r.expiration == now + 86400,
        max_age is None && now + 86400 > u64::MAX ==> r.expiration == u64::MAX,
{
    let ttl = match max_age {
        Some(a) => a,
        None => DEFAULT_METADATA_TTL_SECS,
    };
    FamilyCacheInfo { expiration: expires_at(now, ttl), family }
}

/// The answer that a cached family list gives at `now` for `family`: the
/// family's ID (or `None` where no family has that name) where the cache has
/// not expired; nothing where the list must be fetched.
pub fn cached_family_id(cache: Option<&FontListCacheInfo>, now: u64, family: &str) -> (r: Option<
    Option<String>,
>)
    ensures
        opt_opt_view(r) == list_cache_answer(deref_opt(cache), now, family@),
{
    match cache {
        Some(c) => {
            if c.is_fresh(now) {
                match c.get_id_for_family(family) {
                    Some(id) => Some(Some(id.to_owned())),
                    None => Some(None),
                }
            } else {
                None
            }
        },
        None => None,
    }
}

/// The family metadata that a cache gives at `now`: the metadata where the
/// cache has not expired; nothing where it must be fetched.
pub fn cached_family(cache: Option<FamilyCacheInfo>, now: u64) -> (r: Option<FontSourceFamily>)
    ensures
        r == family_cache_answer(cache, now),
{
    match cache {
        Some(c) => {
            if c.is_fresh(now) {
                Some(c.family)
            } else {
                None
            }
        },
        None => None,
    }
}

/// `expiry` grows with the time the entry was written.
proof fn lemma_expiry_monotone(b: u64, a: u64, ttl: u64)
    requires
        b <= a,
    ensures
        expiry(b, ttl) <= expiry(a, ttl),
{
}

/// A fetched family list is cached as fetched: the cache written at `now`
/// (read from a clock between `b` and `a`) holds the fetched list, expires
/// between `b` and `a` plus the time to live, and answers every name, at
/// every time from `now` until it expires, with the ID of the first family
/// of that name in the fetched list; from then on it answers nothing.
pub proof fn lemma_font_list_cache_round_trip(
    families: TextMap,
    b: u64,
    now: u64,
    a: u64,
    max_age: Option<u64>,
    t: u64,
    family: Seq<char>,
)
    requires
        b <= now <= a,
    ensures
        ({
            let c = list_cache_of(families, now, max_age);
            &&& c.families == families
            &&& expiry(b, ttl_of(max_age)) <= c.expiration <= expiry(a, ttl_of(max_age))
            &&& b + ttl_of(max_age) <= u64::MAX ==> b + ttl_of(max_age) <= c.expiration
            &&& a + ttl_of(max_age) <= u64::MAX ==> c.expiration <= a + ttl_of(max_age)
            &&& now <= t < c.expiration ==> list_cache_answer(Some(c), t, family) == Some(
                first_id_named(families@, trim(family)),
            )
            &&& t >= c.expiration ==> list_cache_answer(Some(c), t, family) is None
        }),
{
    lemma_expiry_monotone(b, now, ttl_of(max_age));
    lemma_expiry_monotone(now, a, ttl_of(max_age));
}

/// A fetched family's metadata is cached as fetched: the cache written at
/// `now` (read from a clock between `b` and `a`) holds the metadata,
/// expires between `b` and `a` plus the time to live, and gives the
/// metadata back at every time from `now` until it expires; from then on it
/// gives nothing.
pub proof fn lemma_family_cache_round_trip(
    family: FontSourceFamily,
    b: u64,
    now: u64,
    a: u64,
    max_age: Option<u64>,
    t: u64,
)
    requires
        b <= now <= a,
    ensures
        ({
            let c = family_cache_of(family, now, max_age);
            &&& c.family == family
            &&& expiry(b, ttl_of(max_age)) <= c.expiration <= expiry(a, ttl_of(max_age))
            &&& b + ttl_of(max_age) <= u64::MAX ==> b + ttl_of(max_age) <= c.expiration
            &&& a + ttl_of(max_age) <= u64::MAX ==> c.expiration <= a + ttl_of(max_age)
            &&& now <= t < c.expiration ==> family_cache_answer(Some(c), t) == Some(family)
            &&& t >= c.expiration ==> family_cache_answer(Some(c), t) is None
        }),
{
    lemma_expiry_monotone(b, now, ttl_of(max_age));
    lemma_expiry_monotone(now, a, ttl_of(max_age));
}

/// The error for a family name that no Fontsource family has.
pub fn family_not_found(family: &str) -> (r: FontSourceError)
    ensures
        r matches FontSourceError::FontFamilyNotFound { family: f } && f@ == trim(family@),
{
    FontSourceError::FontFamilyNotFound { family: trim_str(family).to_owned() }
}

/// In a `Cache-Control` value, the first directive that is a valid
/// `max-age` wins: a value made of a directive `a` (without a comma), a
/// comma and the rest `b` gives the seconds of `a`, or else those of `b`;
/// a single directive gives its own seconds.
pub proof fn lemma_max_age_first(a: Seq<char>, b: Seq<char>)
    requires
        forall|j: int| 0 <= j < a.len() ==> a[j] != ',',
    ensures
        max_age_of(a + ","@ + b) == match max_age_directive(a) {
            Some(v) => Some(v),
            None => max_age_of(b),
        },
        max_age_of(a) == max_age_directive(a),
{
    reveal_strlit(",");
    let s = a + ","@ + b;
    assert forall|j: int| 0 <= j < a.len() implies s[j] != ',' by {
        assert(s[j] == a[j]);
    }
    lemma_split_at(s, a.len() as int);
    assert(s.subrange(0, a.len() as int) =~= a);
    assert(s.subrange(a.len() as int + 1, s.len() as int) =~= b);
    lemma_split_none(a);
}

/// A cache entry written at `now` for `ttl` seconds expires no earlier than
/// `now`, exactly `ttl` seconds later where that fits in a `u64`, and so
/// stays fresh at every time before then.
pub proof fn lemma_expiry(now: u64, ttl: u64, t: u64)
    ensures
        expiry(now, ttl) >= now,
        now + ttl <= u64::MAX ==> expiry(now, ttl) == now + ttl,
        now + ttl <= u64::MAX && t < now + ttl ==> expiry(now, ttl) > t,
{
}

/// The expiration of a fetched entry is the time of the fetch plus the
/// response's `max-age` where one is given, and plus 24 hours (86400
/// seconds) otherwise, saturating at `u64::MAX`; the entry holds what was
/// fetched.
pub proof fn lemma_cache_expiration(families: TextMap, family: FontSourceFamily, now: u64, max_age: Option<u64>)
    ensures
        list_cache_of(families, now, max_age).families == families,
        family_cache_of(family, now, max_age).family == family,
        max_age matches Some(a) ==> (now + a <= u64::MAX ==> {
            &&& list_cache_of(families, now, max_age).expiration == now + a
            &&& family_cache_of(family, now, max_age).expiration == now + a
        }),
        max_age matches Some(a) ==> (now + a > u64::MAX ==> {
            &&& list_cache_of(families, now, max_age).expiration == u64::MAX
            &&& family_cache_of(family, now, max_age).expiration == u64::MAX
        }),
        max_age is None && now + 86400 <= u64::MAX ==> {
            &&& list_cache_of(families, now, max_age).expiration == now + 86400
            &&& family_cache_of(family, now, max_age).expiration == now + 86400
        },
        max_age is None && now + 86400 > u64::MAX ==> {
            &&& list_cache_of(families, now, max_age).expiration == u64::MAX
            &&& family_cache_of(family, now, max_age).expiration == u64::MAX
        },
{
}

} // verus!
