//! The word-list loader: from delimited text to records.
//!
//! The accepted text is a simple CSV dialect, stated precisely by the spec
//! functions below:
//!
//! - records are lines, separated by `\n`; a `\r` directly before a `\n` (or
//!   at the very end of the text) is dropped, so CRLF line endings work;
//! - fully empty lines are skipped; the first remaining line is a header and
//!   is skipped as data (its fields are not examined);
//! - a line holds fields separated by commas; a field that starts with `"`
//!   is quoted: it runs to the matching closing quote, a doubled `""` inside
//!   stands for one `"`, and after the closing quote only a comma or the end
//!   of the line may follow; any other field runs to the next comma and is
//!   taken literally;
//! - a record must have exactly two fields: the word, and its recorded
//!   length as a run of decimal digits whose value fits `usize`.
//!
//! The first line that breaks these rules fails the whole load with
//! [`LoadError::MalformedRecord`]; nothing read so far is returned.

use vstd::prelude::*;
use crate::matcher::{find_words, spec_find_words};
use crate::record::{LoadError, WordRecord};
use crate::text::{chars_of, string_from_chars};

verus! {

// --- Lines ---

/// `l` with one trailing carriage return removed, if it has one.
pub open spec fn strip_cr(l: Seq<char>) -> Seq<char> {
    if l.len() > 0 && l.last() == '\r' {
        l.drop_last()
    } else {
        l
    }
}

/// The lines of `s` after the characters of `cur` have already been read
/// into the current line: splitting is on `\n`, and each finished line loses
/// a trailing `\r`.
pub open spec fn spec_lines_from(s: Seq<char>, cur: Seq<char>) -> Seq<Seq<char>>
    decreases s.len(),
{
    if s.len() == 0 {
        seq![strip_cr(cur)]
    } else if s.first() == '\n' {
        seq![strip_cr(cur)] + spec_lines_from(s.drop_first(), seq![])
    } else {
        spec_lines_from(s.drop_first(), cur.push(s.first()))
    }
}

/// The lines of `s`. Text without a final `\n` still ends its last line;
/// text ending in `\n` ends with one empty line, which later stages skip.
pub open spec fn spec_lines(s: Seq<char>) -> Seq<Seq<char>> {
    spec_lines_from(s, seq![])
}

/// `cur` finished as a line: its trailing carriage return, if any, dropped.
fn take_line(cur: Vec<char>) -> (r: Vec<char>)
    ensures
        r@ == strip_cr(cur@),
{
    let mut cur = cur;
    if cur.len() > 0 && cur[cur.len() - 1] == '\r' {
        cur.pop();
    }
    cur
}

/// The lines of `cs`, as [`spec_lines`] states them.
fn split_lines(cs: &Vec<char>) -> (r: Vec<Vec<char>>)
    ensures
        r@.map_values(|l: Vec<char>| l@) == spec_lines(cs@),
{
    let mut out: Vec<Vec<char>> = Vec::new();
    let mut cur: Vec<char> = Vec::new();
    let mut i: usize = 0;
    proof {
        assert(cs@.skip(0) =~= cs@);
        assert(cur@ =~= Seq::<char>::empty());
    }
    while i < cs.len()
        invariant
            i <= cs.len(),
            spec_lines(cs@) == out@.map_values(|l: Vec<char>| l@) + spec_lines_from(
                cs@.skip(i as int),
                cur@,
            ),
        decreases cs.len() - i,
    {
        let c = cs[i];
        let ghost suffix = cs@.skip(i as int);
        proof {
            assert(suffix.first() == cs@[i as int]);
            assert(suffix.drop_first() =~= cs@.skip(i as int + 1));
        }
        if c == '\n' {
            let ghost cur_old = cur@;
            let line = take_line(cur);
            cur = Vec::new();
            let ghost out_views = out@.map_values(|l: Vec<char>| l@);
            out.push(line);
            proof {
                assert(spec_lines_from(suffix, cur_old) == seq![strip_cr(cur_old)]
                    + spec_lines_from(cs@.skip(i as int + 1), seq![]));
                assert(out@.map_values(|l: Vec<char>| l@) =~= out_views + seq![line@]);
                assert(out_views + (seq![line@] + spec_lines_from(cs@.skip(i as int + 1), seq![]))
                    =~= (out_views + seq![line@]) + spec_lines_from(
                    cs@.skip(i as int + 1),
                    seq![],
                ));
                assert(cur@ =~= Seq::<char>::empty());
            }
        } else {
            proof {
                assert(spec_lines_from(suffix, cur@) == spec_lines_from(
                    cs@.skip(i as int + 1),
                    cur@.push(c),
                ));
            }
            cur.push(c);
        }
        i += 1;
    }
    proof {
        assert(cs@.skip(cs@.len() as int) =~= Seq::<char>::empty());
    }
    let ghost cur_old = cur@;
    let line = take_line(cur);
    let ghost out_views = out@.map_values(|l: Vec<char>| l@);
    out.push(line);
    proof {
        assert(spec_lines_from(Seq::<char>::empty(), cur_old) == seq![strip_cr(cur_old)]);
        assert(out@.map_values(|l: Vec<char>| l@) =~= out_views + seq![line@]);
        assert(out_views + seq![line@] =~= spec_lines(cs@));
    }
    out
}

// --- Fields of one line ---

/// An unquoted field read from position `i` of line `l`: its characters run
/// to the next comma or to the end of the line, taken literally. Yields the
/// field and the position of the comma (or the line's end).
pub open spec fn spec_unquoted(l: Seq<char>, i: int) -> (Seq<char>, int)
    recommends
        0 <= i <= l.len(),
    decreases l.len() - i,
{
    if i < 0 || i >= l.len() || l[i] == ',' {
        (seq![], i)
    } else {
        let (f, j) = spec_unquoted(l, i + 1);
        (seq![l[i]] + f, j)
    }
}

/// The inside of a quoted field, read from position `i` of line `l` (just
/// past the opening quote): a doubled `""` stands for one `"`, a single `"`
/// closes the field, and a line that ends first is malformed. Yields the
/// field and the position just past the closing quote.
pub open spec fn spec_quoted(l: Seq<char>, i: int) -> Option<(Seq<char>, int)>
    recommends
        0 <= i <= l.len(),
    decreases l.len() - i,
{
    if i < 0 || i >= l.len() {
        None
    } else if l[i] == '"' {
        if i + 1 < l.len() && l[i + 1] == '"' {
            match spec_quoted(l, i + 2) {
                Some((f, j)) => Some((seq!['"'] + f, j)),
                None => None,
            }
        } else {
            Some((seq![], i + 1))
        }
    } else {
        match spec_quoted(l, i + 1) {
            Some((f, j)) => Some((seq![l[i]] + f, j)),
            None => None,
        }
    }
}

/// Position `i` of [`spec_unquoted`]'s result is between `i` and the line's
/// end.
pub proof fn lemma_unquoted_bounds(l: Seq<char>, i: int)
    requires
        0 <= i <= l.len(),
    ensures
        i <= spec_unquoted(l, i).1 <= l.len(),
    decreases l.len() - i,
{
    if !(i >= l.len() || l[i] == ',') {
        lemma_unquoted_bounds(l, i + 1);
    }
}

/// When [`spec_quoted`] succeeds, it has consumed at least the closing quote
/// and has not run past the line's end.
pub proof fn lemma_quoted_bounds(l: Seq<char>, i: int)
    requires
        0 <= i <= l.len(),
    ensures
        (match spec_quoted(l, i) {
            Some(fj) => i < fj.1 <= l.len(),
            None => true,
        }),
    decreases l.len() - i,
{
    if i < l.len() {
        if l[i] == '"' {
            if i + 1 < l.len() && l[i + 1] == '"' {
                lemma_quoted_bounds(l, i + 2);
            }
        } else {
            lemma_quoted_bounds(l, i + 1);
        }
    }
}

/// The fields of line `l` from position `i` on: fields separated by commas,
/// a field starting with `"` quoted as [`spec_quoted`] states, any other
/// field literal as [`spec_unquoted`] states. After a quoted field only a
/// comma or the end of the line may follow. `None` means the line is
/// malformed.
pub open spec fn spec_fields(l: Seq<char>, i: int) -> Option<Seq<Seq<char>>>
    recommends
        0 <= i <= l.len(),
    decreases l.len() - i,
{
    if i < 0 || i > l.len() {
        None
    } else if i < l.len() && l[i] == '"' {
        match spec_quoted(l, i + 1) {
            None => None,
            Some((f, j)) => if j == l.len() {
                Some(seq![f])
            } else if l[j] == ',' {
                proof {
                    lemma_quoted_bounds(l, i + 1);
                }
                match spec_fields(l, j + 1) {
                    None => None,
                    Some(rest) => Some(seq![f] + rest),
                }
            } else {
                None
            },
        }
    } else {
        let (f, j) = spec_unquoted(l, i);
        if j >= l.len() {
            Some(seq![f])
        } else {
            proof {
                lemma_unquoted_bounds(l, i);
            }
            match spec_fields(l, j + 1) {
                None => None,
                Some(rest) => Some(seq![f] + rest),
            }
        }
    }
}

/// An unquoted field, as [`spec_unquoted`] states it.
fn parse_unquoted(l: &Vec<char>, i: usize) -> (r: (Vec<char>, usize))
    requires
        i <= l.len(),
    ensures
        spec_unquoted(l@, i as int) == (r.0@, r.1 as int),
        i <= r.1 <= l.len(),
    decreases l.len() - i,
{
    if i == l.len() || l[i] == ',' {
        (Vec::new(), i)
    } else {
        let (mut f, j) = parse_unquoted(l, i + 1);
        let ghost oldf = f@;
        f.insert(0, l[i]);
        proof {
            assert(f@ =~= seq![l@[i as int]] + oldf);
        }
        (f, j)
    }
}

/// The inside of a quoted field, as [`spec_quoted`] states it.
fn parse_quoted(l: &Vec<char>, i: usize) -> (r: Option<(Vec<char>, usize)>)
    requires
        i <= l.len(),
    ensures
        (match r {
            Some(fj) => spec_quoted(l@, i as int) == Some((fj.0@, fj.1 as int)) && i < fj.1
                <= l.len(),
            None => spec_quoted(l@, i as int) is None,
        }),
    decreases l.len() - i,
{
    if i == l.len() {
        None
    } else if l[i] == '"' {
        if i + 1 < l.len() && l[i + 1] == '"' {
            match parse_quoted(l, i + 2) {
                None => None,
                Some((mut f, j)) => {
                    let ghost oldf = f@;
                    f.insert(0, '"');
                    proof {
                        assert(f@ =~= seq!['"'] + oldf);
                    }
                    Some((f, j))
                },
            }
        } else {
            Some((Vec::new(), i + 1))
        }
    } else {
        match parse_quoted(l, i + 1) {
            None => None,
            Some((mut f, j)) => {
                let ghost oldf = f@;
                f.insert(0, l[i]);
                proof {
                    assert(f@ =~= seq![l@[i as int]] + oldf);
                }
                Some((f, j))
            },
        }
    }
}

/// The fields of line `l` from position `i` on, as [`spec_fields`] states
/// them; `None` when the line is malformed.
fn parse_fields(l: &Vec<char>, i: usize) -> (r: Option<Vec<Vec<char>>>)
    requires
        i <= l.len(),
    ensures
        (match r {
            Some(fs) => spec_fields(l@, i as int) == Some(fs@.map_values(|f: Vec<char>| f@)),
            None => spec_fields(l@, i as int) is None,
        }),
    decreases l.len() - i,
{
    if i < l.len() && l[i] == '"' {
        match parse_quoted(l, i + 1) {
            None => None,
            Some((f, j)) => {
                if j == l.len() {
                    let mut fs: Vec<Vec<char>> = Vec::new();
                    let ghost fv = f@;
                    fs.push(f);
                    proof {
                        assert(fs@.map_values(|x: Vec<char>| x@) =~= seq![fv]);
                    }
                    Some(fs)
                } else if l[j] == ',' {
                    match parse_fields(l, j + 1) {
                        None => None,
                        Some(mut rest) => {
                            let ghost restv = rest@.map_values(|x: Vec<char>| x@);
                            let ghost fv = f@;
                            rest.insert(0, f);
                            proof {
                                assert(rest@.map_values(|x: Vec<char>| x@) =~= seq![fv] + restv);
                            }
                            Some(rest)
                        },
                    }
                } else {
                    None
                }
            },
        }
    } else {
        let (f, j) = parse_unquoted(l, i);
        if j == l.len() {
            let mut fs: Vec<Vec<char>> = Vec::new();
            let ghost fv = f@;
            fs.push(f);
            proof {
                assert(fs@.map_values(|x: Vec<char>| x@) =~= seq![fv]);
            }
            Some(fs)
        } else {
            match parse_fields(l, j + 1) {
                None => None,
                Some(mut rest) => {
                    let ghost restv = rest@.map_values(|x: Vec<char>| x@);
                    let ghost fv = f@;
                    rest.insert(0, f);
                    proof {
                        assert(rest@.map_values(|x: Vec<char>| x@) =~= seq![fv] + restv);
                    }
                    Some(rest)
                },
            }
        }
    }
}

// --- The recorded length: a run of decimal digits ---

/// Whether `c` is a decimal digit.
pub open spec fn is_digit(c: char) -> bool {
    ('0' as u32) <= (c as u32) && (c as u32) <= ('9' as u32)
}

/// The value of one decimal digit.
pub open spec fn digit_val(c: char) -> int {
    (c as u32) - ('0' as u32)
}

/// The value of `s` read as a decimal numeral.
pub open spec fn digits_val(s: Seq<char>) -> int
    decreases s.len(),
{
    if s.len() == 0 {
        0
    } else {
        digits_val(s.drop_last()) * 10 + digit_val(s.last())
    }
}

/// Whether every character of `s` is a decimal digit.
pub open spec fn all_digits(s: Seq<char>) -> bool {
    forall|i: int| 0 <= i < s.len() ==> is_digit(#[trigger] s[i])
}

/// The recorded length a field denotes: a non-empty run of decimal digits
/// whose value fits `usize`; anything else is malformed.
pub open spec fn spec_parse_len(f: Seq<char>) -> Option<int> {
    if f.len() > 0 && all_digits(f) && digits_val(f) <= usize::MAX as int {
        Some(digits_val(f))
    } else {
        None
    }
}

/// A numeral of digits is non-negative.
proof fn lemma_digits_val_nonneg(s: Seq<char>)
    requires
        all_digits(s),
    ensures
        digits_val(s) >= 0,
    decreases s.len(),
{
    if s.len() > 0 {
        assert(all_digits(s.drop_last()));
        lemma_digits_val_nonneg(s.drop_last());
    }
}

/// Reading more digits never shrinks the value: a prefix of a numeral is at
/// most the whole numeral.
proof fn lemma_digits_val_prefix(s: Seq<char>, i: int)
    requires
        all_digits(s),
        0 <= i <= s.len(),
    ensures
        digits_val(s.take(i)) <= digits_val(s),
    decreases s.len(),
{
    if i == s.len() {
        assert(s.take(i) =~= s);
    } else {
        let dl = s.drop_last();
        assert(all_digits(dl));
        lemma_digits_val_nonneg(dl);
        lemma_digits_val_prefix(dl, i);
        assert(s.take(i) =~= dl.take(i));
        assert(digits_val(dl) * 10 >= digits_val(dl));
    }
}

/// The recorded length read from field `f`, as [`spec_parse_len`] states it.
fn parse_len(f: &Vec<char>) -> (r: Option<usize>)
    ensures
        (match r {
            Some(n) => spec_parse_len(f@) == Some(n as int),
            None => spec_parse_len(f@) is None,
        }),
{
    if f.len() == 0 {
        return None;
    }
    let mut val: usize = 0;
    let mut i: usize = 0;
    while i < f.len()
        invariant
            i <= f.len(),
            all_digits(f@.take(i as int)),
            val as int == digits_val(f@.take(i as int)),
        decreases f.len() - i,
    {
        let u = f[i] as u32;
        if u < 48 || u > 57 {
            proof {
                assert(!is_digit(f@[i as int]));
            }
            return None;
        }
        let d = (u - 48) as usize;
        proof {
            assert(f@.take(i as int + 1).drop_last() =~= f@.take(i as int));
            assert(f@.take(i as int + 1).last() == f@[i as int]);
            assert(all_digits(f@.take(i as int + 1)));
            assert(digits_val(f@.take(i as int + 1)) == (val as int) * 10 + d as int);
        }
        let next = match val.checked_mul(10) {
            Some(v10) => v10.checked_add(d),
            None => None,
        };
        match next {
            Some(v) => {
                val = v;
            },
            None => {
                proof {
                    assert(digits_val(f@.take(i as int + 1)) > usize::MAX as int);
                    if all_digits(f@) {
                        lemma_digits_val_prefix(f@, i as int + 1);
                        assert(digits_val(f@) > usize::MAX as int);
                    }
                }
                return None;
            },
        }
        i += 1;
    }
    proof {
        assert(f@.take(f@.len() as int) =~= f@);
    }
    Some(val)
}

// --- Records and the whole load ---

/// The record one line denotes: exactly two fields, the word and its
/// recorded length; `None` when the line is malformed.
pub open spec fn spec_parse_record(l: Seq<char>) -> Option<(Seq<char>, nat)> {
    match spec_fields(l, 0) {
        None => None,
        Some(fs) => if fs.len() == 2 {
            match spec_parse_len(fs[1]) {
                None => None,
                Some(n) => Some((fs[0], n as nat)),
            }
        } else {
            None
        },
    }
}

/// The records a sequence of lines denotes, in order; `None` as soon as one
/// line is malformed.
pub open spec fn spec_parse_lines(ls: Seq<Seq<char>>) -> Option<Seq<(Seq<char>, nat)>>
    decreases ls.len(),
{
    if ls.len() == 0 {
        Some(seq![])
    } else {
        match spec_parse_record(ls.first()) {
            None => None,
            Some(r) => match spec_parse_lines(ls.drop_first()) {
                None => None,
                Some(rest) => Some(seq![r] + rest),
            },
        }
    }
}

/// The data lines of the text: its lines without the fully empty ones and
/// without the first remaining line, which is the header.
pub open spec fn spec_content_lines(s: Seq<char>) -> Seq<Seq<char>> {
    let nonempty = spec_lines(s).filter(|l: Seq<char>| l.len() > 0);
    if nonempty.len() == 0 {
        nonempty
    } else {
        nonempty.drop_first()
    }
}

/// The records the whole text denotes, or `None` when any data line is
/// malformed.
pub open spec fn spec_load(s: Seq<char>) -> Option<Seq<(Seq<char>, nat)>> {
    spec_parse_lines(spec_content_lines(s))
}

/// The record one line denotes, as [`spec_parse_record`] states it.
fn parse_record(l: &Vec<char>) -> (r: Option<WordRecord>)
    ensures
        (match r {
            Some(rec) => spec_parse_record(l@) == Some(rec@),
            None => spec_parse_record(l@) is None,
        }),
{
    match parse_fields(l, 0) {
        None => None,
        Some(fs) => {
            if fs.len() == 2 {
                proof {
                    assert(fs@.map_values(|f: Vec<char>| f@)[0] == fs@[0]@);
                    assert(fs@.map_values(|f: Vec<char>| f@)[1] == fs@[1]@);
                }
                match parse_len(&fs[1]) {
                    None => None,
                    Some(n) => {
                        let word = string_from_chars(&fs[0]);
                        Some(WordRecord { word, length: n })
                    },
                }
            } else {
                None
            }
        },
    }
}

/// The word list read from `data`, a text of the dialect this module
/// states: all records in file order on success, or the error
/// [`LoadError::MalformedRecord`] as soon as one data line is malformed.
/// The loader itself never touches a file; reading `data` from disk is its
/// caller's concern, as is reporting [`LoadError::FileNotFound`] when that
/// read fails.
pub fn load_records(data: &str) -> (r: Result<Vec<WordRecord>, LoadError>)
    ensures
        r is Ok <==> spec_load(data@) is Some,
        (match r {
            Ok(recs) => spec_load(data@) == Some(recs@.map_values(|rec: WordRecord| rec@)),
            Err(e) => e == LoadError::MalformedRecord,
        }),
{
    let cs = chars_of(data);
    let lines = split_lines(&cs);
    let ghost p = |l: Seq<char>| l.len() > 0;
    let ghost lv = lines@.map_values(|l: Vec<char>| l@);

    let mut content: Vec<&Vec<char>> = Vec::new();
    let mut i: usize = 0;
    proof {
        assert(lv.take(0) =~= Seq::<Seq<char>>::empty());
        reveal(Seq::filter);
        assert(Seq::<Seq<char>>::empty().filter(p) =~= Seq::<Seq<char>>::empty());
    }
    while i < lines.len()
        invariant
            i <= lines.len(),
            lv == lines@.map_values(|l: Vec<char>| l@),
            content@.map_values(|l: &Vec<char>| l@) == lv.take(i as int).filter(p),
            p == (|l: Seq<char>| l.len() > 0),
        decreases lines.len() - i,
    {
        proof {
            assert(lv.take(i as int + 1) =~= lv.take(i as int) + seq![lv[i as int]]);
            Seq::filter_distributes_over_add(lv.take(i as int), seq![lv[i as int]], p);
            reveal_with_fuel(Seq::<_>::filter, 2);
            assert(seq![lv[i as int]].drop_last() =~= Seq::<Seq<char>>::empty());
            assert(seq![lv[i as int]].filter(p) == if p(lv[i as int]) {
                seq![lv[i as int]]
            } else {
                Seq::<Seq<char>>::empty()
            });
        }
        let ghost cv = content@.map_values(|l: &Vec<char>| l@);
        if lines[i].len() > 0 {
            content.push(&lines[i]);
            proof {
                assert(content@.map_values(|l: &Vec<char>| l@) =~= cv + seq![lv[i as int]]);
            }
        } else {
            proof {
                assert(cv + Seq::<Seq<char>>::empty() =~= cv);
            }
        }
        i += 1;
    }
    proof {
        assert(lv.take(lv.len() as int) =~= lv);
    }
    let ghost cv = content@.map_values(|l: &Vec<char>| l@);
    let ghost cls = spec_content_lines(cs@);

    let start: usize = if content.len() > 0 {
        1
    } else {
        0
    };
    proof {
        if cv.len() == 0 {
            assert(cls == cv);
        } else {
            assert(cls == cv.drop_first());
        }
        assert(cls =~= cv.skip(start as int));
    }

    let mut out: Vec<WordRecord> = Vec::new();
    let mut k: usize = start;
    proof {
        assert(cls.skip(0) =~= cls);
        assert(out@.map_values(|rec: WordRecord| rec@) =~= Seq::<(Seq<char>, nat)>::empty());
    }
    while k < content.len()
        invariant
            start <= k <= content.len(),
            cv == content@.map_values(|l: &Vec<char>| l@),
            cls == cv.skip(start as int),
            cls == spec_content_lines(data@),
            (match spec_parse_lines(cls.skip(k - start)) {
                Some(rest) => spec_parse_lines(cls) == Some(
                    out@.map_values(|rec: WordRecord| rec@) + rest,
                ),
                None => spec_parse_lines(cls) is None,
            }),
        decreases content.len() - k,
    {
        let ghost suffix = cls.skip(k - start);
        proof {
            assert(suffix.len() == cv.len() - k);
            assert(suffix.first() == cv[k as int]);
            assert(suffix.drop_first() =~= cls.skip(k + 1 - start));
        }
        match parse_record(content[k]) {
            None => {
                proof {
                    assert(spec_parse_lines(suffix) is None);
                }
                return Err(LoadError::MalformedRecord);
            },
            Some(rec) => {
                let ghost ov = out@.map_values(|r: WordRecord| r@);
                out.push(rec);
                proof {
                    assert(out@.map_values(|r: WordRecord| r@) =~= ov + seq![rec@]);
                    match spec_parse_lines(cls.skip(k + 1 - start)) {
                        Some(rest) => {
                            assert(spec_parse_lines(suffix) == Some(seq![rec@] + rest));
                            assert(ov + (seq![rec@] + rest) =~= (ov + seq![rec@]) + rest);
                        },
                        None => {
                        },
                    }
                }
            },
        }
        k += 1;
    }
    proof {
        assert(cls.skip(content@.len() - start) =~= Seq::<Seq<char>>::empty());
        assert(spec_parse_lines(Seq::<Seq<char>>::empty()) == Some(
            Seq::<(Seq<char>, nat)>::empty(),
        ));
        assert(out@.map_values(|rec: WordRecord| rec@) + Seq::<(Seq<char>, nat)>::empty()
            =~= out@.map_values(|rec: WordRecord| rec@));
    }
    Ok(out)
}

/// One full search: read the word list out of `data`, then match it against
/// `search_text`. The text is parsed fresh on every call; a malformed data
/// line fails the whole search, and matching itself never fails.
pub fn search(data: &str, search_text: &str) -> (r: Result<Vec<String>, LoadError>)
    ensures
        r is Ok <==> spec_load(data@) is Some,
        (match r {
            Ok(words) => spec_load(data@) matches Some(rs) && words@.map_values(|w: String| w@)
                == spec_find_words(search_text@, rs),
            Err(e) => e == LoadError::MalformedRecord,
        }),
{
    match load_records(data) {
        Err(e) => Err(e),
        Ok(records) => Ok(find_words(search_text, &records)),
    }
}

} // verus!
