//! The stem builder: per-language maps from normalized word form to
//! normalized base form, merged from two source shapes.
//!
//! An inflection source has rows `inflected;base`; a lexeme source has rows
//! `base;key1,key2,...`. A language's table takes the inflection rows
//! first, then merges the lexeme rows on top, so a lexeme entry wins on a
//! repeated key.

use vstd::prelude::*;
use crate::error::Error;
use crate::records::{parse_delimited, pair_views, source_ok, source_pairs, source_error};
use crate::text::{normalize, norm_seq, split_on, split_str, views_of};
use crate::word_map::WordMap;

verus! {

/// The column delimiter of inflection and lexeme sources: a semicolon.
pub const STEM_DELIMITER: u8 = 59;

/// The separator between the keys of one lexeme row.
pub const KEY_SEPARATOR: char = ',';

/// Returns its input unchanged: the stemming used by the unstemmed
/// gazetteers.
pub fn no_stem(input: String) -> (r: String)
    ensures
        r@ == input@,
{
    input
}

/// Inflection rows added to a map: each row (inflected, base) binds the
/// normalized inflected form to the normalized base form, later rows
/// winning.
pub open spec fn with_inflections(
    m: Map<Seq<char>, Seq<char>>,
    rows: Seq<(Seq<char>, Seq<char>)>,
) -> Map<Seq<char>, Seq<char>>
    decreases rows.len(),
{
    if rows.len() == 0 {
        m
    } else {
        with_inflections(m, rows.drop_last()).insert(
            norm_seq(rows.last().0),
            norm_seq(rows.last().1),
        )
    }
}

/// One lexeme row added to a map: every key binds, normalized, to the
/// normalized base form.
pub open spec fn with_lexeme_keys(
    m: Map<Seq<char>, Seq<char>>,
    base: Seq<char>,
    keys: Seq<Seq<char>>,
) -> Map<Seq<char>, Seq<char>>
    decreases keys.len(),
{
    if keys.len() == 0 {
        m
    } else {
        with_lexeme_keys(m, base, keys.drop_last()).insert(
            norm_seq(keys.last()),
            norm_seq(base),
        )
    }
}

/// Lexeme rows added to a map: each row is (base, comma-joined key list),
/// later rows winning.
pub open spec fn with_lexemes(
    m: Map<Seq<char>, Seq<char>>,
    rows: Seq<(Seq<char>, Seq<char>)>,
) -> Map<Seq<char>, Seq<char>>
    decreases rows.len(),
{
    if rows.len() == 0 {
        m
    } else {
        with_lexeme_keys(
            with_lexemes(m, rows.drop_last()),
            rows.last().0,
            split_on(rows.last().1, KEY_SEPARATOR),
        )
    }
}

/// The table an inflection source alone denotes.
pub open spec fn inflection_table_spec(bytes: Seq<u8>) -> Map<Seq<char>, Seq<char>> {
    with_inflections(Map::empty(), source_pairs(bytes, STEM_DELIMITER))
}

/// The table a lexeme source alone denotes.
pub open spec fn lexeme_table_spec(bytes: Seq<u8>) -> Map<Seq<char>, Seq<char>> {
    with_lexemes(Map::empty(), source_pairs(bytes, STEM_DELIMITER))
}

/// The table of a language with both sources: inflection rows first, then
/// the lexeme rows merged on top.
pub open spec fn stem_table_spec(infl: Seq<u8>, lex: Seq<u8>) -> Map<Seq<char>, Seq<char>> {
    with_lexemes(
        with_inflections(Map::empty(), source_pairs(infl, STEM_DELIMITER)),
        source_pairs(lex, STEM_DELIMITER),
    )
}

/// What building from one source guarantees: success exactly when the
/// source is well formed, and then the denoted table.
pub open spec fn inflection_build_post(r: Result<WordMap, Error>, bytes: Seq<u8>) -> bool {
    match r {
        Ok(m) => source_ok(bytes, STEM_DELIMITER) && m@ == inflection_table_spec(bytes),
        Err(e) => !source_ok(bytes, STEM_DELIMITER) && source_error(e, bytes, STEM_DELIMITER),
    }
}

/// As above, for a lexeme source.
pub open spec fn lexeme_build_post(r: Result<WordMap, Error>, bytes: Seq<u8>) -> bool {
    match r {
        Ok(m) => source_ok(bytes, STEM_DELIMITER) && m@ == lexeme_table_spec(bytes),
        Err(e) => !source_ok(bytes, STEM_DELIMITER) && source_error(e, bytes, STEM_DELIMITER),
    }
}

/// What building from both sources guarantees: success exactly when both
/// sources are well formed, and then the merged table; a failure is
/// classified against the source it came from.
pub open spec fn stem_build_post(r: Result<WordMap, Error>, infl: Seq<u8>, lex: Seq<u8>) -> bool {
    match r {
        Ok(m) => source_ok(infl, STEM_DELIMITER) && source_ok(lex, STEM_DELIMITER) && m@
            == stem_table_spec(infl, lex),
        Err(e) => !(source_ok(infl, STEM_DELIMITER) && source_ok(lex, STEM_DELIMITER)) && (
        source_error(e, infl, STEM_DELIMITER) || source_error(e, lex, STEM_DELIMITER)),
    }
}

fn add_inflection_rows(m: &mut WordMap, rows: &Vec<(String, String)>)
    ensures
        final(m)@ == with_inflections(old(m)@, pair_views(rows@)),
{
    let n = rows.len();
    let mut i: usize = 0;
    while i < n
        invariant
            i <= n,
            n == rows@.len(),
            m@ == with_inflections(old(m)@, pair_views(rows@).take(i as int)),
        decreases n - i,
    {
        let row = &rows[i];
        let key = normalize(row.0.as_str());
        let value = normalize(row.1.as_str());
        m.insert(key, value);
        i += 1;
        proof {
            let pv = pair_views(rows@);
            assert(pv.take(i as int).drop_last() =~= pv.take(i - 1 as int));
            assert(pv.take(i as int).last() == pv[i - 1]);
        }
    }
    proof {
        assert(pair_views(rows@).take(n as int) =~= pair_views(rows@));
    }
}

fn add_lexeme_rows(m: &mut WordMap, rows: &Vec<(String, String)>)
    ensures
        final(m)@ == with_lexemes(old(m)@, pair_views(rows@)),
{
    let n = rows.len();
    let mut i: usize = 0;
    while i < n
        invariant
            i <= n,
            n == rows@.len(),
            m@ == with_lexemes(old(m)@, pair_views(rows@).take(i as int)),
        decreases n - i,
    {
        let row = &rows[i];
        let base = normalize(row.0.as_str());
        let keys = split_str(row.1.as_str(), KEY_SEPARATOR);
        let ghost row_start = m@;
        let ghost key_views = views_of(keys@);
        let kn = keys.len();
        let mut k: usize = 0;
        while k < kn
            invariant
                k <= kn,
                kn == keys@.len(),
                key_views == views_of(keys@),
                key_views == split_on(rows@[i as int].1@, KEY_SEPARATOR),
                base@ == norm_seq(rows@[i as int].0@),
                i < rows@.len(),
                m@ == with_lexeme_keys(row_start, rows@[i as int].0@, key_views.take(k as int)),
            decreases kn - k,
        {
            let key = normalize(keys[k].as_str());
            m.insert(key, base.clone());
            k += 1;
            proof {
                assert(key_views.take(k as int).drop_last() =~= key_views.take(k - 1 as int));
                assert(key_views.take(k as int).last() == keys@[k - 1]@);
            }
        }
        i += 1;
        proof {
            let pv = pair_views(rows@);
            assert(key_views.take(kn as int) =~= key_views);
            assert(pv.take(i as int).drop_last() =~= pv.take(i - 1 as int));
            assert(pv.take(i as int).last() == pv[i - 1]);
        }
    }
    proof {
        assert(pair_views(rows@).take(n as int) =~= pair_views(rows@));
    }
}

/// Builds the table of an inflection source: rows `inflected;base`, both
/// sides normalized, later rows winning.
pub fn parse_inflections(bytes: &[u8]) -> (r: Result<WordMap, Error>)
    ensures
        inflection_build_post(r, bytes@),
{
    let pairs = match parse_delimited(bytes, STEM_DELIMITER) {
        Ok(p) => p,
        Err(e) => return Err(e),
    };
    let mut m = WordMap::new();
    add_inflection_rows(&mut m, &pairs);
    Ok(m)
}

/// Builds the table of a lexeme source: rows `base;key1,key2,...`, every
/// key bound, normalized, to the normalized base.
pub fn parse_lexemes(bytes: &[u8]) -> (r: Result<WordMap, Error>)
    ensures
        lexeme_build_post(r, bytes@),
{
    let pairs = match parse_delimited(bytes, STEM_DELIMITER) {
        Ok(p) => p,
        Err(e) => return Err(e),
    };
    let mut m = WordMap::new();
    add_lexeme_rows(&mut m, &pairs);
    Ok(m)
}

/// Builds a language's stem table from its inflection source and its
/// lexeme source: inflection rows first, lexeme rows merged on top.
pub fn stem_table(inflections: &[u8], lexemes: &[u8]) -> (r: Result<WordMap, Error>)
    ensures
        stem_build_post(r, inflections@, lexemes@),
{
    let infl_pairs = match parse_delimited(inflections, STEM_DELIMITER) {
        Ok(p) => p,
        Err(e) => return Err(e),
    };
    let lex_pairs = match parse_delimited(lexemes, STEM_DELIMITER) {
        Ok(p) => p,
        Err(e) => return Err(e),
    };
    let mut m = WordMap::new();
    add_inflection_rows(&mut m, &infl_pairs);
    add_lexeme_rows(&mut m, &lex_pairs);
    Ok(m)
}

/// The English stem table, from its two sources.
pub fn en(inflections: &[u8], lexemes: &[u8]) -> (r: Result<WordMap, Error>)
    ensures
        stem_build_post(r, inflections@, lexemes@),
{
    stem_table(inflections, lexemes)
}

/// The French stem table, from its two sources.
pub fn fr(inflections: &[u8], lexemes: &[u8]) -> (r: Result<WordMap, Error>)
    ensures
        stem_build_post(r, inflections@, lexemes@),
{
    stem_table(inflections, lexemes)
}

/// The Spanish stem table, from its two sources.
pub fn es(inflections: &[u8], lexemes: &[u8]) -> (r: Result<WordMap, Error>)
    ensures
        stem_build_post(r, inflections@, lexemes@),
{
    stem_table(inflections, lexemes)
}

/// The German stem table: the language has no inflection source, so its
/// table is built from the lexeme source alone.
pub fn de(lexemes: &[u8]) -> (r: Result<WordMap, Error>)
    ensures
        lexeme_build_post(r, lexemes@),
{
    parse_lexemes(lexemes)
}

/// An inflection row's word binds, normalized, to its normalized base
/// form, when no later row of the source has the same normalized word.
pub proof fn lemma_inflections_bind(
    m: Map<Seq<char>, Seq<char>>,
    rows: Seq<(Seq<char>, Seq<char>)>,
    i: int,
)
    requires
        0 <= i < rows.len(),
        forall|j: int| i < j < rows.len() ==> norm_seq((#[trigger] rows[j]).0) != norm_seq(
            rows[i].0,
        ),
    ensures
        with_inflections(m, rows).contains_key(norm_seq(rows[i].0)),
        with_inflections(m, rows)[norm_seq(rows[i].0)] == norm_seq(rows[i].1),
    decreases rows.len(),
{
    if i < rows.len() - 1 {
        lemma_inflections_bind(m, rows.drop_last(), i);
    }
}

/// Every key of one lexeme row binds, normalized, to the row's normalized
/// base form (a repeated key within the row rebinds it to the same value).
pub proof fn lemma_lexeme_keys_bind(
    m: Map<Seq<char>, Seq<char>>,
    base: Seq<char>,
    keys: Seq<Seq<char>>,
    k: int,
)
    requires
        0 <= k < keys.len(),
    ensures
        with_lexeme_keys(m, base, keys).contains_key(norm_seq(keys[k])),
        with_lexeme_keys(m, base, keys)[norm_seq(keys[k])] == norm_seq(base),
    decreases keys.len(),
{
    if k < keys.len() - 1 {
        lemma_lexeme_keys_bind(m, base, keys.drop_last(), k);
    }
}

/// A key that no key of the row normalizes to keeps its binding through
/// the row.
pub proof fn lemma_lexeme_keys_preserve(
    m: Map<Seq<char>, Seq<char>>,
    base: Seq<char>,
    keys: Seq<Seq<char>>,
    x: Seq<char>,
)
    requires
        forall|t: int| 0 <= t < keys.len() ==> norm_seq(#[trigger] keys[t]) != x,
    ensures
        with_lexeme_keys(m, base, keys).contains_key(x) == m.contains_key(x),
        m.contains_key(x) ==> with_lexeme_keys(m, base, keys)[x] == m[x],
    decreases keys.len(),
{
    if keys.len() > 0 {
        lemma_lexeme_keys_preserve(m, base, keys.drop_last(), x);
    }
}

/// A key of a lexeme row binds, normalized, to that row's normalized base
/// form, when no key of a later row has the same normalized form.
pub proof fn lemma_lexemes_bind(
    m: Map<Seq<char>, Seq<char>>,
    rows: Seq<(Seq<char>, Seq<char>)>,
    i: int,
    k: int,
)
    requires
        0 <= i < rows.len(),
        0 <= k < split_on(rows[i].1, KEY_SEPARATOR).len(),
        forall|j: int, t: int|
            #![trigger split_on(rows[j].1, KEY_SEPARATOR)[t]]
            i < j < rows.len() && 0 <= t < split_on(rows[j].1, KEY_SEPARATOR).len()
                ==> norm_seq(split_on(rows[j].1, KEY_SEPARATOR)[t]) != norm_seq(
                split_on(rows[i].1, KEY_SEPARATOR)[k],
            ),
    ensures
        with_lexemes(m, rows).contains_key(norm_seq(split_on(rows[i].1, KEY_SEPARATOR)[k])),
        with_lexemes(m, rows)[norm_seq(split_on(rows[i].1, KEY_SEPARATOR)[k])] == norm_seq(
            rows[i].0,
        ),
    decreases rows.len(),
{
    let key = norm_seq(split_on(rows[i].1, KEY_SEPARATOR)[k]);
    if i == rows.len() - 1 {
        lemma_lexeme_keys_bind(
            with_lexemes(m, rows.drop_last()),
            rows[i].0,
            split_on(rows[i].1, KEY_SEPARATOR),
            k,
        );
    } else {
        lemma_lexemes_bind(m, rows.drop_last(), i, k);
        lemma_lexeme_keys_preserve(
            with_lexemes(m, rows.drop_last()),
            rows.last().0,
            split_on(rows.last().1, KEY_SEPARATOR),
            key,
        );
    }
}

/// A key that no lexeme key normalizes to keeps its binding through the
/// whole lexeme merge.
pub proof fn lemma_lexemes_preserve(
    m: Map<Seq<char>, Seq<char>>,
    rows: Seq<(Seq<char>, Seq<char>)>,
    x: Seq<char>,
)
    requires
        forall|j: int, t: int|
            #![trigger split_on(rows[j].1, KEY_SEPARATOR)[t]]
            0 <= j < rows.len() && 0 <= t < split_on(rows[j].1, KEY_SEPARATOR).len()
                ==> norm_seq(split_on(rows[j].1, KEY_SEPARATOR)[t]) != x,
    ensures
        with_lexemes(m, rows).contains_key(x) == m.contains_key(x),
        m.contains_key(x) ==> with_lexemes(m, rows)[x] == m[x],
    decreases rows.len(),
{
    if rows.len() > 0 {
        lemma_lexemes_preserve(m, rows.drop_last(), x);
        lemma_lexeme_keys_preserve(
            with_lexemes(m, rows.drop_last()),
            rows.last().0,
            split_on(rows.last().1, KEY_SEPARATOR),
            x,
        );
    }
}

/// A word of the inflection source whose normalized form no later
/// inflection row repeats and no lexeme key rebinds is stemmed to its
/// normalized base form by the language's table; the identity fallback
/// never applies to it.
pub proof fn lemma_stem_table_inflection_binding(infl: Seq<u8>, lex: Seq<u8>, i: int)
    requires
        0 <= i < source_pairs(infl, STEM_DELIMITER).len(),
        forall|j: int|
            i < j < source_pairs(infl, STEM_DELIMITER).len() ==> norm_seq(
                (#[trigger] source_pairs(infl, STEM_DELIMITER)[j]).0,
            ) != norm_seq(source_pairs(infl, STEM_DELIMITER)[i].0),
        forall|j: int, t: int|
            #![trigger split_on(source_pairs(lex, STEM_DELIMITER)[j].1, KEY_SEPARATOR)[t]]
            0 <= j < source_pairs(lex, STEM_DELIMITER).len() && 0 <= t < split_on(
                source_pairs(lex, STEM_DELIMITER)[j].1,
                KEY_SEPARATOR,
            ).len() ==> norm_seq(split_on(source_pairs(lex, STEM_DELIMITER)[j].1, KEY_SEPARATOR)[t])
                != norm_seq(source_pairs(infl, STEM_DELIMITER)[i].0),
    ensures
        stem_table_spec(infl, lex).contains_key(norm_seq(source_pairs(infl, STEM_DELIMITER)[i].0)),
        crate::word_map::stem_lookup(
            stem_table_spec(infl, lex),
            norm_seq(source_pairs(infl, STEM_DELIMITER)[i].0),
        ) == norm_seq(source_pairs(infl, STEM_DELIMITER)[i].1),
{
    let irows = source_pairs(infl, STEM_DELIMITER);
    let lrows = source_pairs(lex, STEM_DELIMITER);
    let key = norm_seq(irows[i].0);
    lemma_inflections_bind(Map::empty(), irows, i);
    lemma_lexemes_preserve(with_inflections(Map::empty(), irows), lrows, key);
}

/// A key of the lexeme source whose normalized form no key of a later
/// lexeme row repeats is stemmed to its row's normalized base form by the
/// language's table, whatever the inflection source said about it.
pub proof fn lemma_stem_table_lexeme_binding(infl: Seq<u8>, lex: Seq<u8>, i: int, k: int)
    requires
        0 <= i < source_pairs(lex, STEM_DELIMITER).len(),
        0 <= k < split_on(source_pairs(lex, STEM_DELIMITER)[i].1, KEY_SEPARATOR).len(),
        forall|j: int, t: int|
            #![trigger split_on(source_pairs(lex, STEM_DELIMITER)[j].1, KEY_SEPARATOR)[t]]
            i < j < source_pairs(lex, STEM_DELIMITER).len() && 0 <= t < split_on(
                source_pairs(lex, STEM_DELIMITER)[j].1,
                KEY_SEPARATOR,
            ).len() ==> norm_seq(split_on(source_pairs(lex, STEM_DELIMITER)[j].1, KEY_SEPARATOR)[t])
                != norm_seq(
                split_on(source_pairs(lex, STEM_DELIMITER)[i].1, KEY_SEPARATOR)[k],
            ),
    ensures
        stem_table_spec(infl, lex).contains_key(
            norm_seq(split_on(source_pairs(lex, STEM_DELIMITER)[i].1, KEY_SEPARATOR)[k]),
        ),
        crate::word_map::stem_lookup(
            stem_table_spec(infl, lex),
            norm_seq(split_on(source_pairs(lex, STEM_DELIMITER)[i].1, KEY_SEPARATOR)[k]),
        ) == norm_seq(source_pairs(lex, STEM_DELIMITER)[i].0),
{
    lemma_lexemes_bind(
        with_inflections(Map::empty(), source_pairs(infl, STEM_DELIMITER)),
        source_pairs(lex, STEM_DELIMITER),
        i,
        k,
    );
}

/// Inflection rows only add canonical keys and values.
proof fn lemma_with_inflections_canonical(
    m: Map<Seq<char>, Seq<char>>,
    rows: Seq<(Seq<char>, Seq<char>)>,
)
    requires
        crate::word_map::map_canonical(m),
    ensures
        crate::word_map::map_canonical(with_inflections(m, rows)),
    decreases rows.len(),
{
    if rows.len() > 0 {
        lemma_with_inflections_canonical(m, rows.drop_last());
        crate::text::lemma_norm_seq_canonical(rows.last().0);
        crate::text::lemma_norm_seq_canonical(rows.last().1);
    }
}

/// One lexeme row only adds canonical keys and values.
proof fn lemma_with_lexeme_keys_canonical(
    m: Map<Seq<char>, Seq<char>>,
    base: Seq<char>,
    keys: Seq<Seq<char>>,
)
    requires
        crate::word_map::map_canonical(m),
    ensures
        crate::word_map::map_canonical(with_lexeme_keys(m, base, keys)),
    decreases keys.len(),
{
    if keys.len() > 0 {
        lemma_with_lexeme_keys_canonical(m, base, keys.drop_last());
        crate::text::lemma_norm_seq_canonical(keys.last());
        crate::text::lemma_norm_seq_canonical(base);
    }
}

/// Lexeme rows only add canonical keys and values.
proof fn lemma_with_lexemes_canonical(
    m: Map<Seq<char>, Seq<char>>,
    rows: Seq<(Seq<char>, Seq<char>)>,
)
    requires
        crate::word_map::map_canonical(m),
    ensures
        crate::word_map::map_canonical(with_lexemes(m, rows)),
    decreases rows.len(),
{
    if rows.len() > 0 {
        lemma_with_lexemes_canonical(m, rows.drop_last());
        lemma_with_lexeme_keys_canonical(
            with_lexemes(m, rows.drop_last()),
            rows.last().0,
            split_on(rows.last().1, KEY_SEPARATOR),
        );
    }
}

/// Every key and value of a language's stem table is an output of the
/// normalizer: normalizing either again changes nothing, so a normalized
/// query can never miss for want of further normalization.
pub proof fn lemma_stem_table_canonical(infl: Seq<u8>, lex: Seq<u8>)
    ensures
        crate::word_map::map_canonical(stem_table_spec(infl, lex)),
        crate::word_map::map_canonical(lexeme_table_spec(lex)),
        crate::word_map::map_canonical(inflection_table_spec(infl)),
{
    lemma_with_inflections_canonical(Map::empty(), source_pairs(infl, STEM_DELIMITER));
    lemma_with_lexemes_canonical(Map::empty(), source_pairs(lex, STEM_DELIMITER));
    lemma_with_lexemes_canonical(
        with_inflections(Map::empty(), source_pairs(infl, STEM_DELIMITER)),
        source_pairs(lex, STEM_DELIMITER),
    );
}

/// Building a stem table twice from the same sources succeeds or fails
/// the same way, and two successes are structurally equal: the result is
/// a function of the sources alone.
pub proof fn lemma_stem_build_deterministic(
    r1: Result<WordMap, Error>,
    r2: Result<WordMap, Error>,
    infl: Seq<u8>,
    lex: Seq<u8>,
)
    requires
        stem_build_post(r1, infl, lex),
        stem_build_post(r2, infl, lex),
    ensures
        r1 is Ok <==> r2 is Ok,
        r1 is Ok ==> r1.unwrap()@ == r2.unwrap()@,
{
}

} // verus!
