//! The cluster builder: a map from raw word to cluster label, tab
//! delimited. Keys and values are inserted verbatim: case and form are
//! preserved exactly as authored, with no normalization.

use vstd::prelude::*;
use crate::error::Error;
use crate::records::{parse_delimited, pair_views, source_ok, source_pairs, source_error};
use crate::word_map::WordMap;

verus! {

/// The column delimiter of cluster sources: a tab.
pub const CLUSTER_DELIMITER: u8 = 9;

/// Rows added to a map verbatim: each row (word, label) binds the word
/// exactly as authored, later rows winning.
pub open spec fn with_verbatim(
    m: Map<Seq<char>, Seq<char>>,
    rows: Seq<(Seq<char>, Seq<char>)>,
) -> Map<Seq<char>, Seq<char>>
    decreases rows.len(),
{
    if rows.len() == 0 {
        m
    } else {
        with_verbatim(m, rows.drop_last()).insert(rows.last().0, rows.last().1)
    }
}

/// The table a cluster source denotes.
pub open spec fn cluster_table_spec(bytes: Seq<u8>) -> Map<Seq<char>, Seq<char>> {
    with_verbatim(Map::empty(), source_pairs(bytes, CLUSTER_DELIMITER))
}

/// What building a cluster table guarantees: success exactly when the
/// source is well formed, and then the denoted table.
pub open spec fn cluster_build_post(r: Result<WordMap, Error>, bytes: Seq<u8>) -> bool {
    match r {
        Ok(m) => source_ok(bytes, CLUSTER_DELIMITER) && m@ == cluster_table_spec(bytes),
        Err(e) => !source_ok(bytes, CLUSTER_DELIMITER) && source_error(
            e,
            bytes,
            CLUSTER_DELIMITER,
        ),
    }
}

fn add_verbatim_rows(m: &mut WordMap, rows: &Vec<(String, String)>)
    ensures
        final(m)@ == with_verbatim(old(m)@, pair_views(rows@)),
{
    let n = rows.len();
    let mut i: usize = 0;
    while i < n
        invariant
            i <= n,
            n == rows@.len(),
            m@ == with_verbatim(old(m)@, pair_views(rows@).take(i as int)),
        decreases n - i,
    {
        let row = &rows[i];
        m.insert(row.0.clone(), row.1.clone());
        i += 1;
        proof {
            let pv = pair_views(rows@);
            assert(pv.take(i as int).drop_last() =~= pv.take(i - 1 as int));
            assert(pv.take(i as int).last() == pv[i - 1]);
        }
    }
    proof {
        assert(pair_views(rows@).take(n as int) =~= pair_views(rows@));
    }
}

/// Builds a cluster table: rows `word<TAB>label`, inserted verbatim.
pub fn parse_clusters(bytes: &[u8]) -> (r: Result<WordMap, Error>)
    ensures
        cluster_build_post(r, bytes@),
{
    let pairs = match parse_delimited(bytes, CLUSTER_DELIMITER) {
        Ok(p) => p,
        Err(e) => return Err(e),
    };
    let mut m = WordMap::new();
    add_verbatim_rows(&mut m, &pairs);
    Ok(m)
}

/// A row's word binds verbatim to its label when no later row has the
/// same word: no normalization touches a cluster key.
pub proof fn lemma_clusters_bind(
    m: Map<Seq<char>, Seq<char>>,
    rows: Seq<(Seq<char>, Seq<char>)>,
    i: int,
)
    requires
        0 <= i < rows.len(),
        forall|j: int| i < j < rows.len() ==> (#[trigger] rows[j]).0 != rows[i].0,
    ensures
        with_verbatim(m, rows).contains_key(rows[i].0),
        with_verbatim(m, rows)[rows[i].0] == rows[i].1,
    decreases rows.len(),
{
    if i < rows.len() - 1 {
        lemma_clusters_bind(m, rows.drop_last(), i);
    }
}

/// Building a cluster table twice from the same source succeeds or fails
/// the same way, and two successes are structurally equal: the result is
/// a function of the source alone.
pub proof fn lemma_cluster_build_deterministic(
    r1: Result<WordMap, Error>,
    r2: Result<WordMap, Error>,
    bytes: Seq<u8>,
)
    requires
        cluster_build_post(r1, bytes),
        cluster_build_post(r2, bytes),
    ensures
        r1 is Ok <==> r2 is Ok,
        r1 is Ok ==> r1.unwrap()@ == r2.unwrap()@,
{
}

/// The English Brown-cluster table.
pub fn brown_clusters(bytes: &[u8]) -> (r: Result<WordMap, Error>)
    ensures
        cluster_build_post(r, bytes@),
{
    parse_clusters(bytes)
}

} // verus!
