//! The gazetteer builder: a line-oriented source becomes a set of
//! canonical entries. Each line is normalized; an empty normalized line
//! contributes nothing; otherwise the line is tokenized, every token is
//! rewritten by the chosen stemming (identity for the unstemmed variant,
//! a language's stem table with identity fallback for the stemmed one),
//! and the tokens are joined by single spaces into one entry.

use vstd::prelude::*;
use vstd::utf8::{valid_utf8, decode_utf8};
use crate::error::Error;
use crate::text::{
    normalize,
    norm_seq,
    lines_of,
    split_lines,
    tokenize_light,
    join_with_space,
    light_tokens,
    join_spaced,
    views_of,
};
use crate::word_map::{WordMap, stem_lookup};

verus! {

/// The set of texts an entry list holds.
pub open spec fn set_of(entries: Seq<String>) -> Set<Seq<char>>
    decreases entries.len(),
{
    if entries.len() == 0 {
        Set::empty()
    } else {
        set_of(entries.drop_last()).insert(entries.last()@)
    }
}

/// An entry list holds a text exactly when one of its entries is that
/// text.
proof fn lemma_set_of_membership(entries: Seq<String>, x: Seq<char>)
    ensures
        set_of(entries).contains(x) <==> (exists|i: int|
            0 <= i < entries.len() && (#[trigger] entries[i])@ == x),
    decreases entries.len(),
{
    if entries.len() > 0 {
        lemma_set_of_membership(entries.drop_last(), x);
        if set_of(entries).contains(x) {
            if entries.last()@ == x {
                assert(entries[entries.len() - 1]@ == x);
            } else {
                let i = choose|i: int|
                    0 <= i < entries.drop_last().len() && (#[trigger] entries.drop_last()[i])@
                        == x;
                assert(entries[i]@ == x);
            }
        }
        if exists|i: int| 0 <= i < entries.len() && (#[trigger] entries[i])@ == x {
            let i = choose|i: int| 0 <= i < entries.len() && (#[trigger] entries[i])@ == x;
            if i < entries.len() - 1 {
                assert(entries.drop_last()[i]@ == x);
            }
        }
    }
}

/// An entry list without repeated texts holds as many texts as it has
/// entries.
proof fn lemma_set_of_len(entries: Seq<String>)
    requires
        forall|i: int, j: int|
            0 <= i < j < entries.len() ==> (#[trigger] entries[i])@ != (#[trigger] entries[j])@,
    ensures
        set_of(entries).finite(),
        set_of(entries).len() == entries.len(),
    decreases entries.len(),
{
    if entries.len() > 0 {
        lemma_set_of_len(entries.drop_last());
        lemma_set_of_membership(entries.drop_last(), entries.last()@);
        assert(!set_of(entries.drop_last()).contains(entries.last()@));
    }
}

/// A set of canonical gazetteer entries: each the tokens of one source
/// line, stemmed and joined by single spaces; no duplicates, order
/// irrelevant. Its view is the set of entry texts.
#[derive(Debug)]
pub struct GazetteerSet {
    entries: Vec<String>,
}

impl View for GazetteerSet {
    type V = Set<Seq<char>>;

    closed spec fn view(&self) -> Set<Seq<char>> {
        set_of(self.entries@)
    }
}

impl GazetteerSet {
    /// Well-formedness: no entry text repeats, so the entry count is the
    /// set's size. Constructors establish it and insertion preserves it.
    pub closed spec fn wf(self) -> bool {
        forall|i: int, j: int|
            0 <= i < j < self.entries@.len() ==> (#[trigger] self.entries@[i])@ != (
            #[trigger] self.entries@[j])@
    }

    /// An empty set.
    pub fn new() -> (r: GazetteerSet)
        ensures
            r@ == Set::<Seq<char>>::empty(),
            r.wf(),
    {
        GazetteerSet { entries: Vec::new() }
    }

    /// Whether an entry is in the set.
    pub fn contains(&self, entry: &String) -> (r: bool)
        ensures
            r == self@.contains(entry@),
    {
        proof {
            lemma_set_of_membership(self.entries@, entry@);
        }
        let n = self.entries.len();
        let mut i: usize = 0;
        while i < n
            invariant
                i <= n,
                n == self.entries@.len(),
                forall|j: int| 0 <= j < i ==> (#[trigger] self.entries@[j])@ != entry@,
            decreases n - i,
        {
            if self.entries[i] == *entry {
                proof {
                    assert(self.entries@[i as int]@ == entry@);
                    assert(exists|j: int|
                        0 <= j < self.entries@.len() && (#[trigger] self.entries@[j])@ == entry@);
                    lemma_set_of_membership(self.entries@, entry@);
                    assert(self@.contains(entry@));
                }
                return true;
            }
            i += 1;
        }
        false
    }

    /// Adds an entry; adding one already present changes nothing.
    pub fn insert(&mut self, entry: String)
        requires
            old(self).wf(),
        ensures
            final(self)@ == old(self)@.insert(entry@),
            final(self).wf(),
    {
        if !self.contains(&entry) {
            proof {
                lemma_set_of_membership(self.entries@, entry@);
            }
            self.entries.push(entry);
            proof {
                assert(self.entries@.drop_last() =~= old(self).entries@);
            }
        } else {
            proof {
                assert(old(self)@.insert(entry@) =~= old(self)@);
            }
        }
    }

    /// A structurally equal copy of the set.
    pub fn duplicate(&self) -> (r: GazetteerSet)
        ensures
            r@ == self@,
            self.wf() ==> r.wf(),
    {
        let mut entries: Vec<String> = Vec::new();
        let n = self.entries.len();
        let mut i: usize = 0;
        while i < n
            invariant
                i <= n,
                n == self.entries@.len(),
                entries@.len() == i,
                forall|j: int| 0 <= j < i ==> (#[trigger] entries@[j])@ == self.entries@[j]@,
            decreases n - i,
        {
            let entry = &self.entries[i];
            entries.push(entry.clone());
            i += 1;
        }
        let r = GazetteerSet { entries };
        proof {
            lemma_set_of_depends_on_views(r.entries@, self.entries@);
        }
        r
    }

    /// How many entries the set holds.
    pub fn len(&self) -> (r: usize)
        requires
            self.wf(),
        ensures
            r == self@.len(),
    {
        proof {
            lemma_set_of_len(self.entries@);
        }
        self.entries.len()
    }
}

/// Two entry lists whose texts agree characterwise hold the same set.
proof fn lemma_set_of_depends_on_views(a: Seq<String>, b: Seq<String>)
    requires
        a.len() == b.len(),
        forall|j: int| 0 <= j < a.len() ==> (#[trigger] a[j])@ == b[j]@,
    ensures
        set_of(a) == set_of(b),
    decreases a.len(),
{
    if a.len() > 0 {
        lemma_set_of_depends_on_views(a.drop_last(), b.drop_last());
        assert(set_of(a) =~= set_of(b));
    } else {
        assert(set_of(a) =~= set_of(b));
    }
}

/// The spec view of an optional stem table.
pub open spec fn stems_view(stems: Option<&WordMap>) -> Option<Map<Seq<char>, Seq<char>>> {
    match stems {
        None => None,
        Some(m) => Some(m@),
    }
}

/// Tokens rewritten by the chosen stemming: unchanged without a table,
/// each token's stem (identity fallback) with one.
pub open spec fn stemmed_tokens(
    tokens: Seq<Seq<char>>,
    stems: Option<Map<Seq<char>, Seq<char>>>,
) -> Seq<Seq<char>> {
    match stems {
        None => tokens,
        Some(m) => tokens.map_values(|t: Seq<char>| stem_lookup(m, t)),
    }
}

/// The canonical entry one line denotes: the line normalized, tokenized,
/// every token stemmed, the tokens joined by single spaces.
pub open spec fn entry_of(line: Seq<char>, stems: Option<Map<Seq<char>, Seq<char>>>) -> Seq<
    char,
> {
    join_spaced(stemmed_tokens(light_tokens(norm_seq(line)), stems))
}

/// The set of entries a list of lines denotes: one canonical entry per
/// line whose normalized text is nonempty.
pub open spec fn gazetteer_spec(
    lines: Seq<Seq<char>>,
    stems: Option<Map<Seq<char>, Seq<char>>>,
) -> Set<Seq<char>>
    decreases lines.len(),
{
    if lines.len() == 0 {
        Set::empty()
    } else {
        let rest = gazetteer_spec(lines.drop_last(), stems);
        if norm_seq(lines.last()).len() == 0 {
            rest
        } else {
            rest.insert(entry_of(lines.last(), stems))
        }
    }
}

fn stem_all(tokens: &Vec<String>, stems: &WordMap) -> (r: Vec<String>)
    ensures
        views_of(r@) == views_of(tokens@).map_values(|t: Seq<char>| stem_lookup(stems@, t)),
{
    let n = tokens.len();
    let mut out: Vec<String> = Vec::new();
    let mut i: usize = 0;
    while i < n
        invariant
            i <= n,
            n == tokens@.len(),
            views_of(out@) == views_of(tokens@).take(i as int).map_values(
                |t: Seq<char>| stem_lookup(stems@, t),
            ),
        decreases n - i,
    {
        let stemmed = stems.stem_of(tokens[i].clone());
        out.push(stemmed);
        i += 1;
        proof {
            let tv = views_of(tokens@);
            assert(views_of(out@) =~= views_of(out@.drop_last()).push(out@.last()@));
            assert(tv.take(i as int).drop_last() =~= tv.take(i - 1 as int));
            assert(tv.take(i as int).map_values(|t: Seq<char>| stem_lookup(stems@, t)) =~= tv.take(
                i - 1 as int,
            ).map_values(|t: Seq<char>| stem_lookup(stems@, t)).push(
                stem_lookup(stems@, tv[i - 1]),
            ));
        }
    }
    proof {
        assert(views_of(tokens@).take(n as int) =~= views_of(tokens@));
    }
    out
}

/// Builds the set that the given lines denote under the chosen stemming.
pub fn build_gazetteer(lines: &Vec<String>, stems: Option<&WordMap>) -> (r: GazetteerSet)
    ensures
        r@ == gazetteer_spec(views_of(lines@), stems_view(stems)),
        r.wf(),
{
    let mut set = GazetteerSet::new();
    let n = lines.len();
    let mut i: usize = 0;
    while i < n
        invariant
            i <= n,
            n == lines@.len(),
            stems_view(stems) == match stems {
                None => None::<Map<Seq<char>, Seq<char>>>,
                Some(m) => Some(m@),
            },
            set@ == gazetteer_spec(views_of(lines@).take(i as int), stems_view(stems)),
            set.wf(),
        decreases n - i,
    {
        let line = &lines[i];
        let normalized = normalize(line.as_str());
        if !normalized.as_str().is_empty() {
            let tokens = tokenize_light(normalized.as_str());
            let entry = match stems {
                None => join_with_space(&tokens),
                Some(m) => join_with_space(&stem_all(&tokens, m)),
            };
            set.insert(entry);
        }
        i += 1;
        proof {
            let lv = views_of(lines@);
            assert(lv.take(i as int).drop_last() =~= lv.take(i - 1 as int));
            assert(lv.take(i as int).last() == lines@[i - 1]@);
        }
    }
    proof {
        assert(views_of(lines@).take(n as int) =~= views_of(lines@));
    }
    set
}

/// Relies on core::str::from_utf8: succeeds exactly on valid UTF-8 and
/// then yields those bytes' decoded characters.
#[verifier::external_body]
fn utf8_to_string(bytes: &[u8]) -> (r: Option<String>)
    ensures
        match r {
            Some(s) => valid_utf8(bytes@) && s@ == decode_utf8(bytes@),
            None => !valid_utf8(bytes@),
        },
{
    match core::str::from_utf8(bytes) {
        Ok(s) => Some(s.to_string()),
        Err(_) => None,
    }
}

/// What parsing a gazetteer source guarantees: success exactly when the
/// bytes are text, and then the set its lines denote; a malformed line is
/// not an error, only a stream that is not text is.
pub open spec fn gazetteer_build_post(
    r: Result<GazetteerSet, Error>,
    bytes: Seq<u8>,
    stems: Option<Map<Seq<char>, Seq<char>>>,
) -> bool {
    match r {
        Ok(g) => valid_utf8(bytes) && g@ == gazetteer_spec(lines_of(decode_utf8(bytes)), stems)
            && g.wf(),
        Err(e) => !valid_utf8(bytes) && e is Source,
    }
}

/// Builds a gazetteer set from a line-oriented byte source: each line
/// normalized, tokenized, stemmed by the given table (or left as is
/// without one) and joined by single spaces; blank lines contribute no
/// entry.
pub fn parse_gazetteer(bytes: &[u8], stems: Option<&WordMap>) -> (r: Result<GazetteerSet, Error>)
    ensures
        gazetteer_build_post(r, bytes@, stems_view(stems)),
{
    let text = match utf8_to_string(bytes) {
        Some(t) => t,
        None => {
            return Err(Error::Source("gazetteer source is not text".to_owned()));
        },
    };
    let lines = split_lines(text.as_str());
    Ok(build_gazetteer(&lines, stems))
}

/// A line whose normalized text is nonempty puts exactly its canonical
/// entry in the set: normalized, tokenized, stemmed, space-joined.
pub proof fn lemma_gazetteer_membership(
    lines: Seq<Seq<char>>,
    stems: Option<Map<Seq<char>, Seq<char>>>,
    i: int,
)
    requires
        0 <= i < lines.len(),
        norm_seq(lines[i]).len() != 0,
    ensures
        gazetteer_spec(lines, stems).contains(entry_of(lines[i], stems)),
    decreases lines.len(),
{
    if i < lines.len() - 1 {
        lemma_gazetteer_membership(lines.drop_last(), stems, i);
    }
}

/// A blank line contributes no entry: appending a line whose normalized
/// text is empty leaves the set, and so its size, unchanged.
pub proof fn lemma_blank_line_ignored(
    lines: Seq<Seq<char>>,
    stems: Option<Map<Seq<char>, Seq<char>>>,
    blank: Seq<char>,
)
    requires
        norm_seq(blank).len() == 0,
    ensures
        gazetteer_spec(lines.push(blank), stems) == gazetteer_spec(lines, stems),
{
    assert(lines.push(blank).drop_last() =~= lines);
}

/// Stemmed-gazetteer consistency: for a line that contributes an entry,
/// the unstemmed set holds its normalized tokens joined by spaces, and the
/// stemmed set holds the same tokens each rewritten through the stem table
/// (identity fallback), joined the same way.
pub proof fn lemma_stemmed_matches_unstemmed(
    lines: Seq<Seq<char>>,
    m: Map<Seq<char>, Seq<char>>,
    i: int,
)
    requires
        0 <= i < lines.len(),
        norm_seq(lines[i]).len() != 0,
    ensures
        gazetteer_spec(lines, None).contains(join_spaced(light_tokens(norm_seq(lines[i])))),
        gazetteer_spec(lines, Some(m)).contains(
            join_spaced(
                light_tokens(norm_seq(lines[i])).map_values(|t: Seq<char>| stem_lookup(m, t)),
            ),
        ),
{
    lemma_gazetteer_membership(lines, None, i);
    lemma_gazetteer_membership(lines, Some(m), i);
}

/// Every entry of a gazetteer set is an output of the normalizer: built
/// over a canonical stem table, entries are canonical texts, so a
/// normalized query can never miss for want of further normalization.
pub proof fn lemma_gazetteer_entries_canonical(
    lines: Seq<Seq<char>>,
    stems: Option<Map<Seq<char>, Seq<char>>>,
)
    requires
        stems matches Some(m) ==> crate::word_map::map_canonical(m),
    ensures
        forall|e: Seq<char>|
            gazetteer_spec(lines, stems).contains(e) ==> crate::text::canonical(e),
    decreases lines.len(),
{
    if lines.len() > 0 {
        lemma_gazetteer_entries_canonical(lines.drop_last(), stems);
        let line = lines.last();
        if norm_seq(line).len() != 0 {
            crate::text::lemma_norm_seq_canonical(line);
            crate::text::lemma_light_tokens_canonical(norm_seq(line));
            let tokens = light_tokens(norm_seq(line));
            let rewritten = stemmed_tokens(tokens, stems);
            assert forall|i: int|
                0 <= i < rewritten.len() implies crate::text::canonical(
                #[trigger] rewritten[i],
            ) by {
                match stems {
                    None => {},
                    Some(m) => {
                        assert(rewritten[i] == stem_lookup(m, tokens[i]));
                    },
                }
            }
            crate::text::lemma_join_canonical(rewritten);
        }
    }
}

/// Building a gazetteer twice from the same source and the same stemming
/// succeeds or fails the same way, and two successes hold the same set:
/// the result is a function of the source and the stemming alone.
pub proof fn lemma_gazetteer_build_deterministic(
    r1: Result<GazetteerSet, Error>,
    r2: Result<GazetteerSet, Error>,
    bytes: Seq<u8>,
    stems: Option<Map<Seq<char>, Seq<char>>>,
)
    requires
        gazetteer_build_post(r1, bytes, stems),
        gazetteer_build_post(r2, bytes, stems),
    ensures
        r1 is Ok <==> r2 is Ok,
        r1 is Ok ==> r1.unwrap()@ == r2.unwrap()@,
{
}

} // verus!
