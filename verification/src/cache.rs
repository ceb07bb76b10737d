//! The resource cache: a per-process registry that parses each
//! (language, resource, stemmed-or-not) identity at most once. A request
//! for an identity already handled returns the stored outcome without
//! re-reading or re-parsing; building is deterministic, so every request
//! for one identity observes the same result. A failed build is cached
//! like a success and returned on every later request: the sources are
//! compiled in, so a failure is a packaging defect, never transient.
//! The registry is held by `&mut`, so exclusive access makes the
//! build-then-store transition of a slot a single uninterrupted step.

use vstd::prelude::*;
use crate::error::Error;
use crate::gazetteer::{GazetteerSet, parse_gazetteer, gazetteer_build_post, stems_view};
use crate::records::{source_error, source_ok};
use crate::stems::{
    stem_table,
    parse_lexemes,
    stem_table_spec,
    lexeme_table_spec,
    STEM_DELIMITER,
};
use crate::word_clusters::{parse_clusters, cluster_build_post};
use crate::word_map::WordMap;

verus! {

/// A supported language.
#[derive(PartialEq, Eq, Structural, Clone, Copy, Debug)]
pub enum Lang {
    En,
    Fr,
    Es,
    De,
}

/// A resource family.
#[derive(PartialEq, Eq, Structural, Clone, Copy, Debug)]
pub enum ResourceKind {
    Stems,
    Clusters,
    Gazetteer,
}

/// The name of one source file inside a resource family. Gazetteer names
/// form a fixed catalogue per language (see [`gazetteer_catalogue`]); a
/// family with a single source uses its family name.
#[derive(PartialEq, Eq, Structural, Clone, Copy, Debug)]
pub enum ResourceName {
    StemTable,
    BrownClusters,
    Top10000Nouns,
    CitiesUs,
    CitiesWorld,
    Countries,
    StatesUs,
    StopWords,
    StreetIdentifier,
    Top10000Words,
    CitiesFrance,
    DepartementsFrance,
    RegionsFrance,
    CitiesGermany,
    LanderGermany,
}

/// What identifies one cached resource: the language, the family, the
/// name of the source file inside the family, and whether its entries are
/// stemmed.
#[derive(PartialEq, Eq, Structural, Clone, Copy, Debug)]
pub struct ResourceId {
    pub lang: Lang,
    pub kind: ResourceKind,
    pub name: ResourceName,
    pub stemmed: bool,
}

/// The fixed gazetteer catalogue of a language: the names of its bundled
/// word lists. Each name stands for one source text; the unstemmed set and
/// the stemmed set of that text are two distinct cached identities.
pub open spec fn gazetteer_catalogue_spec(lang: Lang) -> Seq<ResourceName> {
    match lang {
        Lang::En => seq![
            ResourceName::Top10000Nouns,
            ResourceName::CitiesUs,
            ResourceName::CitiesWorld,
            ResourceName::Countries,
            ResourceName::StatesUs,
            ResourceName::StopWords,
            ResourceName::StreetIdentifier,
            ResourceName::Top10000Words,
        ],
        Lang::Fr => seq![
            ResourceName::CitiesFrance,
            ResourceName::CitiesWorld,
            ResourceName::Countries,
            ResourceName::DepartementsFrance,
            ResourceName::RegionsFrance,
            ResourceName::StopWords,
            ResourceName::StreetIdentifier,
            ResourceName::Top10000Words,
        ],
        Lang::Es => Seq::empty(),
        Lang::De => seq![
            ResourceName::CitiesGermany,
            ResourceName::CitiesWorld,
            ResourceName::Countries,
            ResourceName::LanderGermany,
            ResourceName::StopWords,
            ResourceName::StreetIdentifier,
        ],
    }
}

/// The fixed gazetteer catalogue of a language, as a list the caller can
/// walk to wire every name to its byte source.
pub fn gazetteer_catalogue(lang: Lang) -> (r: Vec<ResourceName>)
    ensures
        r@ == gazetteer_catalogue_spec(lang),
{
    let r: Vec<ResourceName> = match lang {
        Lang::En => vec![
            ResourceName::Top10000Nouns,
            ResourceName::CitiesUs,
            ResourceName::CitiesWorld,
            ResourceName::Countries,
            ResourceName::StatesUs,
            ResourceName::StopWords,
            ResourceName::StreetIdentifier,
            ResourceName::Top10000Words,
        ],
        Lang::Fr => vec![
            ResourceName::CitiesFrance,
            ResourceName::CitiesWorld,
            ResourceName::Countries,
            ResourceName::DepartementsFrance,
            ResourceName::RegionsFrance,
            ResourceName::StopWords,
            ResourceName::StreetIdentifier,
            ResourceName::Top10000Words,
        ],
        Lang::Es => Vec::new(),
        Lang::De => vec![
            ResourceName::CitiesGermany,
            ResourceName::CitiesWorld,
            ResourceName::Countries,
            ResourceName::LanderGermany,
            ResourceName::StopWords,
            ResourceName::StreetIdentifier,
        ],
    };
    proof {
        assert(r@ =~= gazetteer_catalogue_spec(lang));
    }
    r
}

/// The binding a slot list denotes, later slots winning.
pub open spec fn slots_map<V>(slots: Seq<(ResourceId, V)>) -> Map<ResourceId, V>
    decreases slots.len(),
{
    if slots.len() == 0 {
        Map::empty()
    } else {
        slots_map(slots.drop_last()).insert(slots.last().0, slots.last().1)
    }
}

/// A registry of built resources, one slot per identity.
pub struct ResourceCache<V> {
    slots: Vec<(ResourceId, V)>,
}

impl<V> View for ResourceCache<V> {
    type V = Map<ResourceId, V>;

    closed spec fn view(&self) -> Map<ResourceId, V> {
        slots_map(self.slots@)
    }
}

impl<V> ResourceCache<V> {
    /// An empty registry: nothing has been built yet.
    pub fn new() -> (r: ResourceCache<V>)
        ensures
            r@ == Map::<ResourceId, V>::empty(),
    {
        ResourceCache { slots: Vec::new() }
    }

    /// The stored structure of an identity, if it was built before.
    pub fn lookup(&self, id: ResourceId) -> (r: Option<&V>)
        ensures
            match r {
                Some(v) => self@.contains_key(id) && *v == self@[id],
                None => !self@.contains_key(id),
            },
    {
        let mut j = self.slots.len();
        proof {
            assert(self.slots@.take(j as int) =~= self.slots@);
        }
        while j > 0
            invariant
                j <= self.slots@.len(),
                self@.contains_key(id) <==> slots_map(self.slots@.take(j as int)).contains_key(
                    id,
                ),
                self@.contains_key(id) ==> self@[id] == slots_map(
                    self.slots@.take(j as int),
                )[id],
            decreases j,
        {
            j -= 1;
            proof {
                assert(self.slots@.take(j + 1 as int).drop_last() =~= self.slots@.take(j as int));
                assert(self.slots@.take(j + 1 as int).last() == self.slots@[j as int]);
            }
            let slot = &self.slots[j];
            if slot.0 == id {
                return Some(&slot.1);
            }
        }
        proof {
            assert(self.slots@.take(0) =~= Seq::<(ResourceId, V)>::empty());
        }
        None
    }

    /// Stores the built structure of an identity.
    pub fn store(&mut self, id: ResourceId, value: V)
        ensures
            final(self)@ == old(self)@.insert(id, value),
    {
        self.slots.push((id, value));
        proof {
            assert(self.slots@.drop_last() =~= old(self).slots@);
        }
    }
}

/// The identity of a language's stem table.
pub open spec fn stem_id(lang: Lang) -> ResourceId {
    ResourceId { lang, kind: ResourceKind::Stems, name: ResourceName::StemTable, stemmed: false }
}

/// Whether a language's stem sources are well formed: the lexeme source
/// always, the inflection source where the language has one.
pub open spec fn stem_sources_ok(infl: Option<Seq<u8>>, lex: Seq<u8>) -> bool {
    match infl {
        Some(b) => source_ok(b, STEM_DELIMITER) && source_ok(lex, STEM_DELIMITER),
        None => source_ok(lex, STEM_DELIMITER),
    }
}

/// The table a language's stem sources denote.
pub open spec fn stem_sources_table(infl: Option<Seq<u8>>, lex: Seq<u8>) -> Map<
    Seq<char>,
    Seq<char>,
> {
    match infl {
        Some(b) => stem_table_spec(b, lex),
        None => lexeme_table_spec(lex),
    }
}

/// A failed stem build is classified against the source it came from.
pub open spec fn stem_sources_err(e: Error, infl: Option<Seq<u8>>, lex: Seq<u8>) -> bool {
    match infl {
        Some(b) => source_error(e, b, STEM_DELIMITER) || source_error(e, lex, STEM_DELIMITER),
        None => source_error(e, lex, STEM_DELIMITER),
    }
}

/// The spec view of an optional byte source.
pub open spec fn bytes_view(b: Option<&[u8]>) -> Option<Seq<u8>> {
    match b {
        Some(s) => Some(s@),
        None => None,
    }
}

/// How a returned outcome relates to a cached slot: same success or
/// failure, a returned table a structurally equal copy of the stored one,
/// a returned failure equal to the stored one.
pub open spec fn result_matches<V: View>(r: Result<V, Error>, stored: Result<V, Error>) -> bool {
    match (r, stored) {
        (Ok(a), Ok(b)) => a@ == b@,
        (Err(x), Err(y)) => x == y,
        _ => false,
    }
}

fn duplicate_table_result(r: &Result<WordMap, Error>) -> (out: Result<WordMap, Error>)
    ensures
        result_matches(out, *r),
{
    match r {
        Ok(m) => Ok(m.duplicate()),
        Err(e) => Err(e.duplicate()),
    }
}

fn duplicate_set_result(r: &Result<GazetteerSet, Error>) -> (out: Result<GazetteerSet, Error>)
    ensures
        result_matches(out, *r),
        (r matches Ok(g) && g.wf()) ==> (out matches Ok(g2) && g2.wf()),
{
    match r {
        Ok(g) => Ok(g.duplicate()),
        Err(e) => Err(e.duplicate()),
    }
}

/// A language's stem table, handled at most once per registry: a request
/// for an identity already handled returns a copy of the stored outcome,
/// success or failure, and parses nothing; the first request builds the
/// table from the sources (the inflection source first where the language
/// has one, the lexeme rows merged on top) and stores the outcome.
pub fn stems_cached(
    cache: &mut ResourceCache<Result<WordMap, Error>>,
    lang: Lang,
    inflections: Option<&[u8]>,
    lexemes: &[u8],
) -> (r: Result<WordMap, Error>)
    ensures
        old(cache)@.contains_key(stem_id(lang)) ==> final(cache)@ == old(cache)@
            && result_matches(r, old(cache)@[stem_id(lang)]),
        !old(cache)@.contains_key(stem_id(lang)) ==> match r {
            Ok(m) => stem_sources_ok(bytes_view(inflections), lexemes@) && m@
                == stem_sources_table(bytes_view(inflections), lexemes@),
            Err(e) => !stem_sources_ok(bytes_view(inflections), lexemes@) && stem_sources_err(
                e,
                bytes_view(inflections),
                lexemes@,
            ),
        },
        !old(cache)@.contains_key(stem_id(lang)) ==> (exists|stored: Result<WordMap, Error>|
            final(cache)@ == #[trigger] old(cache)@.insert(stem_id(lang), stored)
                && result_matches(r, stored)),
{
    let id = ResourceId {
        lang,
        kind: ResourceKind::Stems,
        name: ResourceName::StemTable,
        stemmed: false,
    };
    if let Some(found) = cache.lookup(id) {
        return duplicate_table_result(found);
    }
    let built = match inflections {
        Some(infl) => stem_table(infl, lexemes),
        None => parse_lexemes(lexemes),
    };
    let out = duplicate_table_result(&built);
    cache.store(id, built);
    out
}

/// The identity of a cluster table.
pub open spec fn cluster_id(lang: Lang, name: ResourceName) -> ResourceId {
    ResourceId { lang, kind: ResourceKind::Clusters, name, stemmed: false }
}

/// A cluster table, handled at most once per registry; as
/// [`stems_cached`], with a cluster source.
pub fn clusters_cached(
    cache: &mut ResourceCache<Result<WordMap, Error>>,
    lang: Lang,
    name: ResourceName,
    bytes: &[u8],
) -> (r: Result<WordMap, Error>)
    ensures
        old(cache)@.contains_key(cluster_id(lang, name)) ==> final(cache)@ == old(cache)@
            && result_matches(r, old(cache)@[cluster_id(lang, name)]),
        !old(cache)@.contains_key(cluster_id(lang, name)) ==> cluster_build_post(r, bytes@) && (
        exists|stored: Result<WordMap, Error>|
            final(cache)@ == #[trigger] old(cache)@.insert(cluster_id(lang, name), stored)
                && result_matches(r, stored)),
{
    let id = ResourceId { lang, kind: ResourceKind::Clusters, name, stemmed: false };
    if let Some(found) = cache.lookup(id) {
        return duplicate_table_result(found);
    }
    let built = parse_clusters(bytes);
    let out = duplicate_table_result(&built);
    cache.store(id, built);
    out
}

/// The identity of a gazetteer: stemmed when a stem table is supplied.
pub open spec fn gazetteer_id(lang: Lang, name: ResourceName, stemmed: bool) -> ResourceId {
    ResourceId { lang, kind: ResourceKind::Gazetteer, name, stemmed }
}

/// A gazetteer set, handled at most once per registry; the same source
/// with and without a stem table is two identities, built and cached
/// independently.
pub fn gazetteer_cached(
    cache: &mut ResourceCache<Result<GazetteerSet, Error>>,
    lang: Lang,
    name: ResourceName,
    bytes: &[u8],
    stems: Option<&WordMap>,
) -> (r: Result<GazetteerSet, Error>)
    ensures
        old(cache)@.contains_key(gazetteer_id(lang, name, stems is Some)) ==> final(cache)@ == old(
            cache,
        )@ && result_matches(r, old(cache)@[gazetteer_id(lang, name, stems is Some)]),
        !old(cache)@.contains_key(gazetteer_id(lang, name, stems is Some))
            ==> gazetteer_build_post(r, bytes@, stems_view(stems)) && (exists|
            stored: Result<GazetteerSet, Error>,
        |
            final(cache)@ == #[trigger] old(cache)@.insert(
                gazetteer_id(lang, name, stems is Some),
                stored,
            ) && result_matches(r, stored)),
{
    let id = ResourceId { lang, kind: ResourceKind::Gazetteer, name, stemmed: stems.is_some() };
    if let Some(found) = cache.lookup(id) {
        return duplicate_set_result(found);
    }
    let built = parse_gazetteer(bytes, stems);
    let out = duplicate_set_result(&built);
    cache.store(id, built);
    out
}

} // verus!
