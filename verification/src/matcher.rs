//! The pattern matcher: which records of a word list a wildcard query
//! selects.
//!
//! A query is normalized to lowercase character by character, then a record
//! matches when its recorded length equals the query's character count and,
//! at every position both strings have, the query character is either the
//! wildcard `?` or the lowercase form of the word's character. Matches come
//! out in source order, in their original casing.

use vstd::prelude::*;
use crate::lowercase::{lower_char, lower_chars, lower_seq, to_lower_char};
use crate::record::WordRecord;
use crate::text::{chars_of, string_from_chars};

verus! {

/// One query character against one word character: the wildcard accepts any
/// character; any other query character must be the word character's
/// lowercase form.
pub open spec fn char_matches(qc: char, wc: char) -> bool {
    qc == '?' || qc == lower_char(wc)
}

/// Position-wise agreement of a lowered query with a word, over the
/// positions both of them have.
pub open spec fn positions_match(q: Seq<char>, w: Seq<char>) -> bool {
    forall|i: int| 0 <= i < q.len() && i < w.len() ==> char_matches(q[i], w[i])
}

/// Whether a record — a word and its recorded length — matches the lowered
/// query `lq`: the recorded length equals the query's character count and
/// the word agrees with the query at every fixed position.
pub open spec fn record_matches(lq: Seq<char>, r: (Seq<char>, nat)) -> bool {
    r.1 == lq.len() && positions_match(lq, r.0)
}

/// The words of `rs` whose records match the query `q`, in source order.
pub open spec fn spec_find_words(q: Seq<char>, rs: Seq<(Seq<char>, nat)>) -> Seq<Seq<char>> {
    rs.filter_map(
        |r: (Seq<char>, nat)|
            if record_matches(lower_seq(q), r) {
                Some(r.0)
            } else {
                None
            },
    )
}

/// Whether `word` agrees with the already-lowered query `search_text` at
/// every position both strings have. Length is not compared here; the
/// caller checks the recorded length separately.
pub fn matches_search_text(word: &str, search_text: &str) -> (r: bool)
    ensures
        r == positions_match(search_text@, word@),
{
    let w = chars_of(word);
    let q = chars_of(search_text);
    let n = if w.len() < q.len() {
        w.len()
    } else {
        q.len()
    };
    let mut i: usize = 0;
    while i < n
        invariant
            w@ == word@,
            q@ == search_text@,
            n <= w.len() && n <= q.len(),
            n == w.len() || n == q.len(),
            i <= n,
            forall|j: int| 0 <= j < i ==> char_matches(q@[j], w@[j]),
        decreases n - i,
    {
        let qc = q[i];
        if qc != '?' {
            let lwc = to_lower_char(w[i]);
            if qc != lwc {
                proof {
                    assert(!char_matches(search_text@[i as int], word@[i as int]));
                }
                return false;
            }
        }
        i += 1;
    }
    true
}

/// The words of `records` that match the query `search_text`, in source
/// order and in their original casing. The query is lowered before the
/// comparison, so matching is case-insensitive; matching itself never fails.
pub fn find_words(search_text: &str, records: &Vec<WordRecord>) -> (r: Vec<String>)
    ensures
        r@.map_values(|w: String| w@) == spec_find_words(
            search_text@,
            records@.map_values(|rec: WordRecord| rec@),
        ),
{
    let lq = lower_chars(&chars_of(search_text));
    let lq_str = string_from_chars(&lq);
    let ghost rs = records@.map_values(|rec: WordRecord| rec@);
    let ghost f = |r: (Seq<char>, nat)|
        if record_matches(lower_seq(search_text@), r) {
            Some(r.0)
        } else {
            None
        };
    let mut out: Vec<String> = Vec::new();
    let mut i: usize = 0;
    while i < records.len()
        invariant
            i <= records.len(),
            lq@ == lower_seq(search_text@),
            lq_str@ == lq@,
            rs == records@.map_values(|rec: WordRecord| rec@),
            f == (|r: (Seq<char>, nat)|
                if record_matches(lower_seq(search_text@), r) {
                    Some(r.0)
                } else {
                    None
                }),
            out@.map_values(|w: String| w@) == rs.take(i as int).filter_map(f),
        decreases records.len() - i,
    {
        let rec = &records[i];
        proof {
            rs.lemma_filter_map_take_succ(f, i as int);
        }
        let ghost prev = out@.map_values(|w: String| w@);
        if rec.length == lq.len() && matches_search_text(rec.word.as_str(), lq_str.as_str()) {
            proof {
                assert(record_matches(lower_seq(search_text@), rs[i as int]));
            }
            out.push(rec.word.clone());
            proof {
                assert(out@.map_values(|w: String| w@) =~= prev + seq![rec.word@]);
            }
        } else {
            proof {
                assert(!record_matches(lower_seq(search_text@), rs[i as int]));
            }
        }
        i += 1;
    }
    proof {
        assert(rs.take(records@.len() as int) =~= rs);
    }
    out
}

/// `filter_map` only looks at what the function returns on the sequence's
/// elements: two functions that agree there filter alike.
proof fn lemma_filter_map_congruence<A, B>(
    s: Seq<A>,
    f1: spec_fn(A) -> Option<B>,
    f2: spec_fn(A) -> Option<B>,
)
    requires
        forall|i: int| 0 <= i < s.len() ==> #[trigger] f1(s[i]) == f2(s[i]),
    ensures
        s.filter_map(f1) == s.filter_map(f2),
    decreases s.len(),
{
    if s.len() > 0 {
        assert(forall|i: int|
            0 <= i < s.drop_last().len() ==> #[trigger] f1(s.drop_last()[i]) == f2(
                s.drop_last()[i],
            ));
        lemma_filter_map_congruence(s.drop_last(), f1, f2);
        assert(f1(s.last()) == f2(s.last()));
    }
}

/// Every matched word has exactly the query's character count, provided each
/// record's recorded length is its word's actual character count.
pub proof fn lemma_matches_have_query_length(q: Seq<char>, rs: Seq<(Seq<char>, nat)>)
    requires
        forall|i: int| 0 <= i < rs.len() ==> #[trigger] rs[i].1 == rs[i].0.len(),
    ensures
        forall|j: int|
            0 <= j < spec_find_words(q, rs).len() ==> #[trigger] spec_find_words(
                q,
                rs,
            )[j].len() == q.len(),
{
    let f = |r: (Seq<char>, nat)|
        if record_matches(lower_seq(q), r) {
            Some(r.0)
        } else {
            None
        };
    let out = spec_find_words(q, rs);
    assert forall|j: int| 0 <= j < out.len() implies #[trigger] out[j].len() == q.len() by {
        assert(out.contains(out[j]));
        rs.lemma_filter_map_contains(f, out[j]);
        let t = choose|t: (Seq<char>, nat)| #[trigger] rs.contains(t) && f(t) == Some(out[j]);
        let i = choose|i: int| 0 <= i < rs.len() && rs[i] == t;
        assert(rs[i].1 == rs[i].0.len());
        assert(record_matches(lower_seq(q), t));
    }
}

/// Every matched word agrees with the lowered query wherever the query is
/// fixed: at every position both have, the query character is the wildcard
/// or the lowercase form of the word's character.
pub proof fn lemma_matches_fit_pattern(q: Seq<char>, rs: Seq<(Seq<char>, nat)>)
    ensures
        forall|j: int|
            0 <= j < spec_find_words(q, rs).len() ==> positions_match(
                lower_seq(q),
                #[trigger] spec_find_words(q, rs)[j],
            ),
{
    let f = |r: (Seq<char>, nat)|
        if record_matches(lower_seq(q), r) {
            Some(r.0)
        } else {
            None
        };
    let out = spec_find_words(q, rs);
    assert forall|j: int|
        0 <= j < out.len() implies positions_match(lower_seq(q), #[trigger] out[j]) by {
        assert(out.contains(out[j]));
        rs.lemma_filter_map_contains(f, out[j]);
        let t = choose|t: (Seq<char>, nat)| #[trigger] rs.contains(t) && f(t) == Some(out[j]);
        assert(record_matches(lower_seq(q), t));
    }
}

/// Matching is a pure function of its inputs: any two results of the same
/// query against the same records are the same sequence, in the same order.
pub proof fn lemma_find_words_deterministic(
    q: Seq<char>,
    rs: Seq<(Seq<char>, nat)>,
    r1: Seq<Seq<char>>,
    r2: Seq<Seq<char>>,
)
    requires
        r1 == spec_find_words(q, rs),
        r2 == spec_find_words(q, rs),
    ensures
        r1 == r2,
{
}

/// An all-wildcard query of length L selects exactly the words of the
/// records whose recorded length is L, in source order.
pub proof fn lemma_all_wildcards_select_by_length(q: Seq<char>, rs: Seq<(Seq<char>, nat)>)
    requires
        forall|i: int| 0 <= i < q.len() ==> q[i] == '?',
    ensures
        spec_find_words(q, rs) == rs.filter_map(
            |r: (Seq<char>, nat)|
                if r.1 == q.len() {
                    Some(r.0)
                } else {
                    None
                },
        ),
{
    let lq = lower_seq(q);
    assert(lower_char('?') == '?');
    assert(forall|i: int| 0 <= i < lq.len() ==> lq[i] == '?');
    let f1 = |r: (Seq<char>, nat)|
        if record_matches(lq, r) {
            Some(r.0)
        } else {
            None
        };
    let f2 = |r: (Seq<char>, nat)|
        if r.1 == q.len() {
            Some(r.0)
        } else {
            None
        };
    assert forall|i: int| 0 <= i < rs.len() implies #[trigger] f1(rs[i]) == f2(rs[i]) by {
        assert(positions_match(lq, rs[i].0));
    }
    lemma_filter_map_congruence(rs, f1, f2);
}

/// Matching is case-insensitive in the query: two queries with the same
/// lowered form select the same words.
pub proof fn lemma_case_insensitive(q1: Seq<char>, q2: Seq<char>, rs: Seq<(Seq<char>, nat)>)
    requires
        lower_seq(q1) == lower_seq(q2),
    ensures
        spec_find_words(q1, rs) == spec_find_words(q2, rs),
{
    let f1 = |r: (Seq<char>, nat)|
        if record_matches(lower_seq(q1), r) {
            Some(r.0)
        } else {
            None
        };
    let f2 = |r: (Seq<char>, nat)|
        if record_matches(lower_seq(q2), r) {
            Some(r.0)
        } else {
            None
        };
    lemma_filter_map_congruence(rs, f1, f2);
}

} // verus!
