//! Text canonicalization: case folding and light tokenization.
//!
//! Every key stored in a stem map and every gazetteer entry is the output
//! of [`normalize`]; lookups must normalize the query side the same way.

use vstd::prelude::*;

verus! {

/// Case-folds one character: ASCII upper case becomes lower case,
/// everything else is unchanged.
pub open spec fn fold_char(c: char) -> char {
    if 65 <= c as u32 && c as u32 <= 90 {
        ((c as u32 + 32) as u8) as char
    } else {
        c
    }
}

/// The canonical form of a text: every character case-folded.
pub open spec fn norm_seq(s: Seq<char>) -> Seq<char> {
    s.map_values(|c: char| fold_char(c))
}

fn fold_char_exec(c: char) -> (r: char)
    ensures
        r == fold_char(c),
{
    let u = c as u32;
    if 65 <= u && u <= 90 {
        ((c as u8) + 32) as char
    } else {
        c
    }
}

/// Relies on String::push: appends exactly one character at the end.
#[verifier::external_body]
fn push_char(s: &mut String, c: char)
    ensures
        final(s)@ == old(s)@.push(c),
{
    s.push(c);
}

/// Canonicalizes a text: deterministic case folding, so that equal words
/// compare equal whatever their authored case.
pub fn normalize(s: &str) -> (r: String)
    ensures
        r@ == norm_seq(s@),
{
    let n = s.unicode_len();
    let mut out = String::new();
    let mut i: usize = 0;
    while i < n
        invariant
            i <= n,
            n == s@.len(),
            out@ == norm_seq(s@.take(i as int)),
        decreases n - i,
    {
        let c = s.get_char(i);
        push_char(&mut out, fold_char_exec(c));
        i += 1;
        proof {
            assert(s@.take(i as int).map_values(|c: char| fold_char(c)) =~= s@.take(
                i - 1 as int,
            ).map_values(|c: char| fold_char(c)).push(fold_char(s@[i - 1])));
        }
    }
    proof {
        assert(s@.take(n as int) =~= s@);
    }
    out
}

/// Per-string views of a list of strings.
pub open spec fn views_of(ss: Seq<String>) -> Seq<Seq<char>> {
    ss.map_values(|s: String| s@)
}

/// Whether a character separates word tokens.
pub open spec fn is_space(c: char) -> bool {
    c == ' ' || c == '\t' || c == '\r' || c == '\n'
}

/// Splitting a text at a separator, read left to right: the finished parts
/// and the part being read.
pub open spec fn split_run(s: Seq<char>, sep: char) -> (Seq<Seq<char>>, Seq<char>)
    decreases s.len(),
{
    if s.len() == 0 {
        (Seq::<Seq<char>>::empty(), Seq::<char>::empty())
    } else {
        let prev = split_run(s.drop_last(), sep);
        if s.last() == sep {
            (prev.0.push(prev.1), Seq::<char>::empty())
        } else {
            (prev.0, prev.1.push(s.last()))
        }
    }
}

/// The parts of a text split at a separator: empty parts are kept, and the
/// empty text has one empty part.
pub open spec fn split_on(s: Seq<char>, sep: char) -> Seq<Seq<char>> {
    split_run(s, sep).0.push(split_run(s, sep).1)
}

/// Splits a text at every occurrence of a separator character, keeping
/// empty parts.
pub fn split_str(s: &str, sep: char) -> (r: Vec<String>)
    ensures
        views_of(r@) == split_on(s@, sep),
{
    let n = s.unicode_len();
    let mut parts: Vec<String> = Vec::new();
    let mut start: usize = 0;
    let mut i: usize = 0;
    while i < n
        invariant
            start <= i <= n,
            n == s@.len(),
            views_of(parts@) == split_run(s@.take(i as int), sep).0,
            split_run(s@.take(i as int), sep).1 == s@.subrange(start as int, i as int),
        decreases n - i,
    {
        let c = s.get_char(i);
        proof {
            assert(s@.take(i + 1 as int).drop_last() =~= s@.take(i as int));
            assert(s@.take(i + 1 as int).last() == s@[i as int]);
        }
        if c == sep {
            let part = s.substring_char(start, i);
            parts.push(part.to_owned());
            start = i + 1;
            proof {
                assert(views_of(parts@) =~= views_of(parts@.drop_last()).push(
                    parts@.last()@,
                ));
                assert(s@.subrange(start as int, i + 1 as int) =~= Seq::<char>::empty());
            }
        } else {
            proof {
                assert(s@.subrange(start as int, i + 1 as int) =~= s@.subrange(
                    start as int,
                    i as int,
                ).push(s@[i as int]));
            }
        }
        i += 1;
    }
    let part = s.substring_char(start, n);
    parts.push(part.to_owned());
    proof {
        assert(s@.take(n as int) =~= s@);
        assert(views_of(parts@) =~= views_of(parts@.drop_last()).push(parts@.last()@));
    }
    parts
}

/// Light tokenization, read left to right: the finished tokens and the
/// token being read.
pub open spec fn token_run(s: Seq<char>) -> (Seq<Seq<char>>, Seq<char>)
    decreases s.len(),
{
    if s.len() == 0 {
        (Seq::<Seq<char>>::empty(), Seq::<char>::empty())
    } else {
        let prev = token_run(s.drop_last());
        if is_space(s.last()) {
            if prev.1.len() == 0 {
                prev
            } else {
                (prev.0.push(prev.1), Seq::<char>::empty())
            }
        } else {
            (prev.0, prev.1.push(s.last()))
        }
    }
}

/// The word tokens of a text: its maximal runs of non-separator characters,
/// in order.
pub open spec fn light_tokens(s: Seq<char>) -> Seq<Seq<char>> {
    let run = token_run(s);
    if run.1.len() == 0 {
        run.0
    } else {
        run.0.push(run.1)
    }
}

fn is_space_exec(c: char) -> (r: bool)
    ensures
        r == is_space(c),
{
    c == ' ' || c == '\t' || c == '\r' || c == '\n'
}

/// Splits a text into its word tokens: maximal runs of non-separator
/// characters, punctuation left attached to its word.
pub fn tokenize_light(s: &str) -> (r: Vec<String>)
    ensures
        views_of(r@) == light_tokens(s@),
{
    let n = s.unicode_len();
    let mut tokens: Vec<String> = Vec::new();
    let mut start: usize = 0;
    let mut i: usize = 0;
    while i < n
        invariant
            start <= i <= n,
            n == s@.len(),
            views_of(tokens@) == token_run(s@.take(i as int)).0,
            token_run(s@.take(i as int)).1 == s@.subrange(start as int, i as int),
        decreases n - i,
    {
        let c = s.get_char(i);
        proof {
            assert(s@.take(i + 1 as int).drop_last() =~= s@.take(i as int));
            assert(s@.take(i + 1 as int).last() == s@[i as int]);
        }
        if is_space_exec(c) {
            if start < i {
                let token = s.substring_char(start, i);
                tokens.push(token.to_owned());
                proof {
                    assert(views_of(tokens@) =~= views_of(tokens@.drop_last()).push(
                        tokens@.last()@,
                    ));
                }
            }
            start = i + 1;
            proof {
                assert(s@.subrange(start as int, i + 1 as int) =~= Seq::<char>::empty());
            }
        } else {
            proof {
                assert(s@.subrange(start as int, i + 1 as int) =~= s@.subrange(
                    start as int,
                    i as int,
                ).push(s@[i as int]));
            }
        }
        i += 1;
    }
    proof {
        assert(s@.take(n as int) =~= s@);
    }
    if start < n {
        let token = s.substring_char(start, n);
        tokens.push(token.to_owned());
        proof {
            assert(views_of(tokens@) =~= views_of(tokens@.drop_last()).push(tokens@.last()@));
        }
    }
    tokens
}

/// Tokens joined by a single space.
pub open spec fn join_spaced(tokens: Seq<Seq<char>>) -> Seq<char>
    decreases tokens.len(),
{
    if tokens.len() == 0 {
        Seq::<char>::empty()
    } else if tokens.len() == 1 {
        tokens[0]
    } else {
        join_spaced(tokens.drop_last()).push(' ') + tokens.last()
    }
}

/// Joins tokens into one text with a single space between neighbours.
pub fn join_with_space(tokens: &Vec<String>) -> (r: String)
    ensures
        r@ == join_spaced(views_of(tokens@)),
{
    let mut out = String::new();
    let n = tokens.len();
    let mut i: usize = 0;
    while i < n
        invariant
            i <= n,
            n == tokens@.len(),
            out@ == join_spaced(views_of(tokens@).take(i as int)),
        decreases n - i,
    {
        if i > 0 {
            push_char(&mut out, ' ');
        }
        let tok: &String = &tokens[i];
        out.append(tok.as_str());
        i += 1;
        proof {
            let vs = views_of(tokens@);
            assert(vs.take(i as int).drop_last() =~= vs.take(i - 1 as int));
            assert(vs.take(i as int).last() == tokens@[i - 1]@);
            if i == 1 {
                assert(out@ =~= vs.take(1)[0]);
            } else {
                assert(out@ =~= join_spaced(vs.take(i - 1 as int)).push(' ') + tokens@[i - 1]@);
            }
        }
    }
    proof {
        assert(views_of(tokens@).take(n as int) =~= views_of(tokens@));
    }
    out
}

/// One line, its trailing carriage return removed.
pub open spec fn strip_cr(t: Seq<char>) -> Seq<char> {
    if t.len() > 0 && t.last() == '\r' {
        t.drop_last()
    } else {
        t
    }
}

/// The lines of a text: the parts split at newlines, a trailing carriage
/// return removed from each, and no final empty line for a text that ends
/// with a newline.
pub open spec fn lines_of(s: Seq<char>) -> Seq<Seq<char>> {
    let parts = split_on(s, '\n');
    let kept = if parts.last().len() == 0 {
        parts.drop_last()
    } else {
        parts
    };
    kept.map_values(|t: Seq<char>| strip_cr(t))
}

/// Splits a text into lines, newline-terminated or newline-separated,
/// tolerating carriage returns before the newlines.
pub fn split_lines(s: &str) -> (r: Vec<String>)
    ensures
        views_of(r@) == lines_of(s@),
{
    let mut parts = split_str(s, '\n');
    let ghost whole = parts@;
    proof {
        assert(views_of(parts@).last() == parts@.last()@);
        assert(views_of(parts@).len() > 0);
    }
    if parts[parts.len() - 1].as_str().is_empty() {
        parts.pop();
        proof {
            assert(views_of(parts@) =~= views_of(whole).drop_last());
        }
    }
    let ghost kept = views_of(parts@);
    let n = parts.len();
    let mut lines: Vec<String> = Vec::new();
    let mut i: usize = 0;
    while i < n
        invariant
            i <= n,
            n == parts@.len(),
            kept == views_of(parts@),
            views_of(lines@) == kept.take(i as int).map_values(|t: Seq<char>| strip_cr(t)),
        decreases n - i,
    {
        let part = &parts[i];
        let len = part.as_str().unicode_len();
        let line = if len > 0 && part.as_str().get_char(len - 1) == '\r' {
            part.as_str().substring_char(0, len - 1)
        } else {
            part.as_str().substring_char(0, len)
        };
        lines.push(line.to_owned());
        i += 1;
        proof {
            assert(part@.subrange(0, part@.len() as int) =~= part@);
            if part@.len() > 0 && part@.last() == '\r' {
                assert(part@.subrange(0, part@.len() - 1) =~= part@.drop_last());
            }
            assert(kept.take(i as int).drop_last() =~= kept.take(i - 1 as int));
            assert(views_of(lines@) =~= views_of(lines@.drop_last()).push(lines@.last()@));
            assert(lines@.last()@ == strip_cr(parts@[i - 1]@));
            assert(kept.take(i as int).map_values(|t: Seq<char>| strip_cr(t)) =~= kept.take(
                i - 1 as int,
            ).map_values(|t: Seq<char>| strip_cr(t)).push(strip_cr(kept[i - 1])));
        }
    }
    proof {
        assert(kept.take(n as int) =~= kept);
        assert(views_of(lines@) =~= lines_of(s@));
    }
    lines
}

/// A text is canonical when it is an output of the normalizer: every
/// character is already folded, so normalizing it changes nothing.
pub open spec fn canonical(s: Seq<char>) -> bool {
    forall|i: int| 0 <= i < s.len() ==> fold_char(#[trigger] s[i]) == s[i]
}

/// Folding a character twice is folding it once.
pub proof fn lemma_fold_char_idempotent(c: char)
    ensures
        fold_char(fold_char(c)) == fold_char(c),
{
    if 65 <= c as u32 && c as u32 <= 90 {
        assert(fold_char(c) as u32 == c as u32 + 32);
    }
}

/// The normalizer's output is canonical.
pub proof fn lemma_norm_seq_canonical(s: Seq<char>)
    ensures
        canonical(norm_seq(s)),
{
    assert forall|i: int| 0 <= i < norm_seq(s).len() implies fold_char(#[trigger] norm_seq(s)[i])
        == norm_seq(s)[i] by {
        lemma_fold_char_idempotent(s[i]);
    }
}

/// A canonical text normalizes to itself.
pub proof fn lemma_canonical_fixed(s: Seq<char>)
    requires
        canonical(s),
    ensures
        norm_seq(s) == s,
{
    assert(norm_seq(s) =~= s);
}

/// Normalization is idempotent: canonicalizing a canonical text changes
/// nothing.
pub proof fn lemma_normalize_idempotent(s: Seq<char>)
    ensures
        norm_seq(norm_seq(s)) == norm_seq(s),
{
    lemma_norm_seq_canonical(s);
    lemma_canonical_fixed(norm_seq(s));
}

/// Every token of a canonical text is canonical.
pub proof fn lemma_light_tokens_canonical(s: Seq<char>)
    requires
        canonical(s),
    ensures
        forall|i: int|
            0 <= i < light_tokens(s).len() ==> canonical(#[trigger] light_tokens(s)[i]),
{
    lemma_token_run_canonical(s);
}

proof fn lemma_token_run_canonical(s: Seq<char>)
    requires
        canonical(s),
    ensures
        forall|i: int|
            0 <= i < token_run(s).0.len() ==> canonical(#[trigger] token_run(s).0[i]),
        canonical(token_run(s).1),
    decreases s.len(),
{
    if s.len() > 0 {
        assert(canonical(s.drop_last()));
        lemma_token_run_canonical(s.drop_last());
        let prev = token_run(s.drop_last());
        if is_space(s.last()) {
        } else {
            assert(canonical(prev.1.push(s.last())));
        }
    }
}

/// Tokens that are all canonical join into a canonical text.
pub proof fn lemma_join_canonical(tokens: Seq<Seq<char>>)
    requires
        forall|i: int| 0 <= i < tokens.len() ==> canonical(#[trigger] tokens[i]),
    ensures
        canonical(join_spaced(tokens)),
    decreases tokens.len(),
{
    if tokens.len() > 1 {
        lemma_join_canonical(tokens.drop_last());
        assert(canonical(join_spaced(tokens.drop_last()).push(' ')));
        assert(canonical(join_spaced(tokens.drop_last()).push(' ') + tokens.last()));
    }
}

} // verus!
