//! The durable form of the step log.
//!
//! A history is written as one record per line: the target branch, the
//! original commit, and the comma-separated list of created tags,
//! separated by single spaces and closed by a newline. The decoder
//! accepts exactly the texts this grammar produces, and a history whose
//! fields avoid the delimiters round-trips field for field.

use vstd::prelude::*;
use crate::step::{MergeStep, StepModel};

verus! {

/// The position of the first occurrence of `c` in `s`, or `s.len()`
/// when `c` does not occur.
pub open spec fn find_idx(s: Seq<char>, c: char) -> int
    decreases s.len(),
{
    if s.len() == 0 {
        0
    } else if s[0] == c {
        0
    } else {
        1 + find_idx(s.drop_first(), c)
    }
}

pub proof fn lemma_find_idx(s: Seq<char>, c: char)
    ensures
        0 <= find_idx(s, c) <= s.len(),
        find_idx(s, c) < s.len() ==> s[find_idx(s, c)] == c,
        forall|j: int| 0 <= j < find_idx(s, c) ==> s[j] != c,
    decreases s.len(),
{
    if s.len() > 0 && s[0] != c {
        lemma_find_idx(s.drop_first(), c);
        assert forall|j: int| 0 <= j < find_idx(s, c) implies s[j] != c by {
            if j > 0 {
                assert(s.drop_first()[j - 1] == s[j]);
            }
        }
    }
}

/// `find_idx` is the unique position with nothing equal to `c` before
/// it and `c` at it (or the length when `c` is absent).
pub proof fn lemma_find_idx_is(s: Seq<char>, c: char, i: int)
    requires
        0 <= i <= s.len(),
        forall|j: int| 0 <= j < i ==> s[j] != c,
        i < s.len() ==> s[i] == c,
    ensures
        find_idx(s, c) == i,
{
    lemma_find_idx(s, c);
}

/// A tag name the record format can carry: non-empty and free of the
/// list and line delimiters.
pub open spec fn tag_wf(t: Seq<char>) -> bool {
    t.len() > 0 && !t.contains(',') && !t.contains('\n')
}

/// A record whose fields avoid the delimiters of the format; only such
/// records are guaranteed to round-trip.
pub open spec fn step_wf(s: StepModel) -> bool {
    &&& !s.target.contains(' ')
    &&& !s.target.contains('\n')
    &&& !s.sha.contains(' ')
    &&& !s.sha.contains('\n')
    &&& forall|i: int| 0 <= i < s.tags.len() ==> tag_wf(#[trigger] s.tags[i])
}

pub open spec fn history_wf(h: Seq<StepModel>) -> bool {
    forall|i: int| 0 <= i < h.len() ==> step_wf(#[trigger] h[i])
}

/// The text of a tag list: tags joined by commas.
pub open spec fn tags_text(ts: Seq<Seq<char>>) -> Seq<char>
    decreases ts.len(),
{
    if ts.len() == 0 {
        Seq::empty()
    } else if ts.len() == 1 {
        ts[0]
    } else {
        ts[0] + seq![','] + tags_text(ts.drop_first())
    }
}

/// The text of one record, without its closing newline.
pub open spec fn line_text(s: StepModel) -> Seq<char> {
    s.target + seq![' '] + s.sha + seq![' '] + tags_text(s.tags)
}

/// The text of one record, newline included.
pub open spec fn step_text(s: StepModel) -> Seq<char> {
    line_text(s) + seq!['\n']
}

/// The durable text of a whole history.
pub open spec fn history_text(h: Seq<StepModel>) -> Seq<char>
    decreases h.len(),
{
    if h.len() == 0 {
        Seq::empty()
    } else {
        step_text(h[0]) + history_text(h.drop_first())
    }
}

/// Parses a non-empty comma-separated tag list; an empty segment
/// anywhere refuses the text.
pub open spec fn parse_tags_some(t: Seq<char>) -> Option<Seq<Seq<char>>>
    decreases t.len() via parse_tags_some_decreases
{
    let k = find_idx(t, ',');
    if k == 0 {
        None
    } else if k == t.len() {
        Some(seq![t])
    } else {
        match parse_tags_some(t.subrange(k + 1, t.len() as int)) {
            None => None,
            Some(r) => Some(seq![t.subrange(0, k)] + r),
        }
    }
}

#[via_fn]
proof fn parse_tags_some_decreases(t: Seq<char>) {
    lemma_find_idx(t, ',');
}

/// Parses a tag-list field: empty means no tags.
pub open spec fn parse_tags(t: Seq<char>) -> Option<Seq<Seq<char>>> {
    if t.len() == 0 {
        Some(Seq::empty())
    } else {
        parse_tags_some(t)
    }
}

/// Parses one record line (no newline inside).
pub open spec fn parse_line(l: Seq<char>) -> Option<StepModel> {
    let p1 = find_idx(l, ' ');
    if p1 == l.len() {
        None
    } else {
        let rest = l.subrange(p1 + 1, l.len() as int);
        let p2 = find_idx(rest, ' ');
        if p2 == rest.len() {
            None
        } else {
            match parse_tags(rest.subrange(p2 + 1, rest.len() as int)) {
                None => None,
                Some(ts) => Some(
                    StepModel { target: l.subrange(0, p1), sha: rest.subrange(0, p2), tags: ts },
                ),
            }
        }
    }
}

/// Parses a whole durable text: a sequence of newline-closed records.
pub open spec fn parse_history(s: Seq<char>) -> Option<Seq<StepModel>>
    decreases s.len() via parse_history_decreases
{
    if s.len() == 0 {
        Some(Seq::empty())
    } else {
        let k = find_idx(s, '\n');
        if k == s.len() {
            None
        } else {
            match parse_line(s.subrange(0, k)) {
                None => None,
                Some(m) => match parse_history(s.subrange(k + 1, s.len() as int)) {
                    None => None,
                    Some(r) => Some(seq![m] + r),
                },
            }
        }
    }
}

#[via_fn]
proof fn parse_history_decreases(s: Seq<char>) {
    lemma_find_idx(s, '\n');
}

/// A character that a text does not contain occurs at none of its
/// positions.
proof fn lemma_absent(s: Seq<char>, c: char)
    requires
        !s.contains(c),
    ensures
        forall|j: int| 0 <= j < s.len() ==> s[j] != c,
{
    assert forall|j: int| 0 <= j < s.len() implies s[j] != c by {
        if s[j] == c {
            assert(s.contains(c));
        }
    }
}

/// A well-formed tag list's text is empty only for the empty list.
proof fn lemma_tags_text_len(ts: Seq<Seq<char>>)
    requires
        forall|i: int| 0 <= i < ts.len() ==> tag_wf(#[trigger] ts[i]),
        ts.len() > 0,
    ensures
        tags_text(ts).len() > 0,
{
    assert(ts[0].len() > 0);
}

/// A well-formed tag list's text carries no newline.
proof fn lemma_tags_text_no_nl(ts: Seq<Seq<char>>)
    requires
        forall|i: int| 0 <= i < ts.len() ==> tag_wf(#[trigger] ts[i]),
    ensures
        forall|j: int| 0 <= j < tags_text(ts).len() ==> tags_text(ts)[j] != '\n',
    decreases ts.len(),
{
    if ts.len() == 0 {
    } else if ts.len() == 1 {
        lemma_absent(ts[0], '\n');
    } else {
        let rest = ts.drop_first();
        assert(forall|i: int| 0 <= i < rest.len() ==> tag_wf(#[trigger] rest[i]));
        lemma_tags_text_no_nl(rest);
        lemma_absent(ts[0], '\n');
        let t = tags_text(ts);
        assert forall|j: int| 0 <= j < t.len() implies t[j] != '\n' by {
            if j < ts[0].len() {
                assert(t[j] == ts[0][j]);
            } else if j == ts[0].len() {
                assert(t[j] == ',');
            } else {
                assert(t[j] == tags_text(rest)[j - ts[0].len() - 1]);
            }
        }
    }
}

/// A well-formed record's line carries no newline.
proof fn lemma_line_no_nl(s: StepModel)
    requires
        step_wf(s),
    ensures
        forall|j: int| 0 <= j < line_text(s).len() ==> line_text(s)[j] != '\n',
{
    lemma_tags_text_no_nl(s.tags);
    lemma_absent(s.target, '\n');
    lemma_absent(s.sha, '\n');
    let l = line_text(s);
    let a = s.target.len() as int;
    let b = a + 1 + s.sha.len();
    assert forall|j: int| 0 <= j < l.len() implies l[j] != '\n' by {
        if j < a {
            assert(l[j] == s.target[j]);
        } else if j == a {
            assert(l[j] == ' ');
        } else if j < b {
            assert(l[j] == s.sha[j - a - 1]);
        } else if j == b {
            assert(l[j] == ' ');
        } else {
            assert(l[j] == tags_text(s.tags)[j - b - 1]);
        }
    }
}

/// Parsing undoes writing for a well-formed tag list.
proof fn lemma_parse_tags_round(ts: Seq<Seq<char>>)
    requires
        forall|i: int| 0 <= i < ts.len() ==> tag_wf(#[trigger] ts[i]),
    ensures
        parse_tags(tags_text(ts)) == Some(ts),
    decreases ts.len(),
{
    let t = tags_text(ts);
    if ts.len() == 0 {
        assert(ts =~= Seq::<Seq<char>>::empty());
    } else if ts.len() == 1 {
        lemma_absent(ts[0], ',');
        lemma_find_idx_is(t, ',', t.len() as int);
        assert(seq![t] =~= ts);
    } else {
        let rest = ts.drop_first();
        assert(forall|i: int| 0 <= i < rest.len() ==> tag_wf(#[trigger] rest[i]));
        lemma_parse_tags_round(rest);
        lemma_tags_text_len(rest);
        lemma_absent(ts[0], ',');
        let k = ts[0].len() as int;
        assert forall|j: int| 0 <= j < k implies t[j] != ',' by {
            assert(t[j] == ts[0][j]);
        }
        assert(t[k] == ',');
        lemma_find_idx_is(t, ',', k);
        assert(t.subrange(k + 1, t.len() as int) =~= tags_text(rest));
        assert(t.subrange(0, k) =~= ts[0]);
        assert(parse_tags_some(tags_text(rest)) == Some(rest));
        assert(seq![ts[0]] + rest =~= ts);
    }
}

/// Parsing undoes writing for a well-formed record line.
proof fn lemma_parse_line_round(s: StepModel)
    requires
        step_wf(s),
    ensures
        parse_line(line_text(s)) == Some(s),
{
    let l = line_text(s);
    let a = s.target.len() as int;
    lemma_absent(s.target, ' ');
    assert forall|j: int| 0 <= j < a implies l[j] != ' ' by {
        assert(l[j] == s.target[j]);
    }
    assert(l[a] == ' ');
    lemma_find_idx_is(l, ' ', a);
    let rest = l.subrange(a + 1, l.len() as int);
    assert(rest =~= s.sha + seq![' '] + tags_text(s.tags));
    let b = s.sha.len() as int;
    lemma_absent(s.sha, ' ');
    assert forall|j: int| 0 <= j < b implies rest[j] != ' ' by {
        assert(rest[j] == s.sha[j]);
    }
    assert(rest[b] == ' ');
    lemma_find_idx_is(rest, ' ', b);
    assert(rest.subrange(b + 1, rest.len() as int) =~= tags_text(s.tags));
    lemma_parse_tags_round(s.tags);
    assert(l.subrange(0, a) =~= s.target);
    assert(rest.subrange(0, b) =~= s.sha);
    let m = StepModel { target: l.subrange(0, a), sha: rest.subrange(0, b), tags: s.tags };
    assert(m =~= s);
}

/// Writing a well-formed history and parsing the text gives the same
/// records back, field for field.
pub proof fn lemma_log_round_trip(h: Seq<StepModel>)
    requires
        history_wf(h),
    ensures
        parse_history(history_text(h)) == Some(h),
    decreases h.len(),
{
    let s = history_text(h);
    if h.len() == 0 {
        assert(h =~= Seq::<StepModel>::empty());
    } else {
        let rest = h.drop_first();
        assert(forall|i: int| 0 <= i < rest.len() ==> step_wf(#[trigger] rest[i]));
        lemma_log_round_trip(rest);
        lemma_line_no_nl(h[0]);
        let line = line_text(h[0]);
        let k = line.len() as int;
        assert forall|j: int| 0 <= j < k implies s[j] != '\n' by {
            assert(s[j] == line[j]);
        }
        assert(s[k] == '\n');
        lemma_find_idx_is(s, '\n', k);
        assert(s.subrange(0, k) =~= line);
        lemma_parse_line_round(h[0]);
        assert(s.subrange(k + 1, s.len() as int) =~= history_text(rest));
        assert(seq![h[0]] + rest =~= h);
    }
}

/// Appending one tag to a non-empty list appends a comma and the tag
/// to the list's text.
proof fn lemma_tags_text_snoc(ts: Seq<Seq<char>>, t: Seq<char>)
    requires
        ts.len() >= 1,
    ensures
        tags_text(ts.push(t)) == tags_text(ts) + seq![','] + t,
    decreases ts.len(),
{
    if ts.len() == 1 {
        assert(ts.push(t).drop_first() =~= seq![t]);
        assert(tags_text(seq![t]) == t);
        assert(tags_text(ts.push(t)) =~= tags_text(ts) + seq![','] + t);
    } else {
        lemma_tags_text_snoc(ts.drop_first(), t);
        assert(ts.push(t).drop_first() =~= ts.drop_first().push(t));
        assert(tags_text(ts.push(t)) =~= tags_text(ts) + seq![','] + t);
    }
}

/// Appending one record appends its text to the history's text.
proof fn lemma_history_text_snoc(h: Seq<StepModel>, s: StepModel)
    ensures
        history_text(h.push(s)) == history_text(h) + step_text(s),
    decreases h.len(),
{
    if h.len() == 0 {
        assert(h.push(s).drop_first() =~= Seq::<StepModel>::empty());
        assert(h.push(s)[0] == s);
        assert(history_text(Seq::<StepModel>::empty()) == Seq::<char>::empty());
        assert(history_text(h) == Seq::<char>::empty());
        assert(history_text(h.push(s)) =~= history_text(h) + step_text(s));
    } else {
        lemma_history_text_snoc(h.drop_first(), s);
        assert(h.push(s).drop_first() =~= h.drop_first().push(s));
        assert(h.push(s)[0] == h[0]);
        assert(history_text(h.push(s)) == step_text(h[0]) + history_text(h.drop_first().push(s)));
        assert(history_text(h.push(s)) =~= history_text(h) + step_text(s));
    }
}

/// Appends the record's line and newline to the text written so far.
fn append_step(out: &mut String, s: &MergeStep)
    ensures
        final(out)@ == old(out)@ + step_text(s@),
{
    proof {
        reveal_strlit(" ");
        reveal_strlit(",");
        reveal_strlit("\n");
        assert(" "@ =~= seq![' ']);
        assert(","@ =~= seq![',']);
        assert("\n"@ =~= seq!['\n']);
    }
    let ghost base: Seq<char> = out@;
    out.append(s.target_branch.as_str());
    out.append(" ");
    out.append(s.original_sha.as_str());
    out.append(" ");
    let ghost mid: Seq<char> = base + s@.target + seq![' '] + s@.sha + seq![' '];
    assert(out@ =~= mid);
    let mut j: usize = 0;
    while j < s.tags_created.len()
        invariant
            j <= s.tags_created.len(),
            out@ =~= mid + tags_text(s@.tags.take(j as int)),
        decreases s.tags_created.len() - j,
    {
        if j > 0 {
            out.append(",");
        }
        out.append(s.tags_created[j].as_str());
        proof {
            reveal_strlit(",");
            assert(","@ =~= seq![',']);
            let ts = s@.tags;
            assert(ts[j as int] == s.tags_created@[j as int]@);
            assert(tags_text(ts.take(0 as int)) == Seq::<char>::empty());
            assert(ts.take(j as int).push(ts[j as int]) =~= ts.take(j + 1 as int));
            if j > 0 {
                lemma_tags_text_snoc(ts.take(j as int), ts[j as int]);
            } else {
                assert(tags_text(seq![ts[0]]) == ts[0]);
                assert(ts.take(1) =~= seq![ts[0]]);
            }
            assert(out@ =~= mid + tags_text(ts.take(j + 1 as int)));
        }
        j = j + 1;
    }
    assert(s@.tags.take(s.tags_created.len() as int) =~= s@.tags);
    out.append("\n");
    assert(out@ =~= old(out)@ + step_text(s@));
}

/// Writes a history in its durable form: one line per record.
pub fn encode_history(h: &Vec<MergeStep>) -> (r: String)
    ensures
        r@ == history_text(h.deep_view()),
{
    let mut out = String::new();
    let mut i: usize = 0;
    while i < h.len()
        invariant
            i <= h.len(),
            out@ =~= history_text(h.deep_view().take(i as int)),
        decreases h.len() - i,
    {
        append_step(&mut out, &h[i]);
        proof {
            let hv = h.deep_view();
            assert(h[i as int]@ == hv[i as int]);
            assert(hv.take(i as int).push(hv[i as int]) =~= hv.take(i + 1 as int));
            lemma_history_text_snoc(hv.take(i as int), hv[i as int]);
        }
        i = i + 1;
    }
    assert(h.deep_view().take(h.len() as int) =~= h.deep_view());
    out
}

/// The durable text could not be read back as a history.
#[derive(Debug, PartialEq, Eq)]
pub enum LogError {
    Malformed,
}

/// The position of the first occurrence of `c` in `s` within
/// `[from, to)`, or `to` when `c` does not occur there.
fn find_range(s: &str, from: usize, to: usize, c: char) -> (r: usize)
    requires
        from <= to <= s@.len(),
    ensures
        from <= r <= to,
        r < to ==> s@[r as int] == c,
        forall|j: int| from <= j < r ==> s@[j] != c,
{
    let mut i: usize = from;
    while i < to
        invariant
            from <= i <= to,
            to <= s@.len(),
            forall|j: int| from <= j < i ==> s@[j] != c,
        decreases to - i,
    {
        if s.get_char(i) == c {
            return i;
        }
        i = i + 1;
    }
    to
}

/// Reads a comma-separated tag-list field out of `s[from..to]`.
fn decode_tags(s: &str, from: usize, to: usize) -> (r: Result<Vec<String>, LogError>)
    requires
        from <= to <= s@.len(),
    ensures
        match r {
            Ok(v) => parse_tags(s@.subrange(from as int, to as int)) == Some(v.deep_view()),
            Err(_) => parse_tags(s@.subrange(from as int, to as int)) is None,
        },
{
    let ghost whole: Seq<char> = s@.subrange(from as int, to as int);
    let mut out: Vec<String> = Vec::new();
    if from == to {
        assert(whole.len() == 0);
        assert(out.deep_view() =~= Seq::<Seq<char>>::empty());
        return Ok(out);
    }
    let mut pos: usize = from;
    while pos < to
        invariant
            from <= pos <= to,
            to <= s@.len(),
            whole == s@.subrange(from as int, to as int),
            whole.len() > 0,
            pos < to ==> parse_tags(whole) == (match parse_tags_some(
                s@.subrange(pos as int, to as int),
            ) {
                None => None,
                Some(r) => Some(out.deep_view() + r),
            }),
            pos == to ==> parse_tags(whole) == Some(out.deep_view()),
        decreases to - pos,
    {
        let k = find_range(s, pos, to, ',');
        proof {
            let t = s@.subrange(pos as int, to as int);
            lemma_find_idx_is(t, ',', k - pos);
        }
        if k == pos {
            return Err(LogError::Malformed);
        }
        let ghost old_out: Seq<Seq<char>> = out.deep_view();
        out.push(String::from_str(s.substring_char(pos, k)));
        proof {
            let t = s@.subrange(pos as int, to as int);
            let seg = t.subrange(0, k - pos);
            assert(seg =~= s@.subrange(pos as int, k as int));
            assert(out.deep_view() =~= old_out.push(seg));
            if k == to {
                assert(parse_tags_some(t) == Some(seq![t]));
                assert(t =~= seg);
                assert(old_out + seq![seg] =~= out.deep_view());
            } else {
                let rest = t.subrange(k - pos + 1, t.len() as int);
                assert(rest =~= s@.subrange(k + 1 as int, to as int));
                assert(old_out + (seq![seg] + parse_tags_some(rest)->Some_0) =~= out.deep_view()
                    + parse_tags_some(rest)->Some_0);
                if k + 1 == to {
                    assert(rest.len() == 0);
                    assert(parse_tags_some(rest) is None);
                }
            }
        }
        if k == to {
            pos = to;
        } else if k + 1 == to {
            return Err(LogError::Malformed);
        } else {
            pos = k + 1;
        }
    }
    Ok(out)
}

/// Reads one record out of the line `s[start..end]`.
fn decode_line(s: &str, start: usize, end: usize) -> (r: Result<MergeStep, LogError>)
    requires
        start <= end <= s@.len(),
    ensures
        match r {
            Ok(m) => parse_line(s@.subrange(start as int, end as int)) == Some(m@),
            Err(_) => parse_line(s@.subrange(start as int, end as int)) is None,
        },
{
    let ghost l: Seq<char> = s@.subrange(start as int, end as int);
    let p1 = find_range(s, start, end, ' ');
    proof {
        lemma_find_idx_is(l, ' ', p1 - start);
    }
    if p1 == end {
        return Err(LogError::Malformed);
    }
    let target = String::from_str(s.substring_char(start, p1));
    let ghost rest: Seq<char> = l.subrange(p1 - start + 1, l.len() as int);
    assert(rest =~= s@.subrange(p1 + 1 as int, end as int));
    let p2 = find_range(s, p1 + 1, end, ' ');
    proof {
        lemma_find_idx_is(rest, ' ', p2 - p1 - 1);
    }
    if p2 == end {
        return Err(LogError::Malformed);
    }
    let sha = String::from_str(s.substring_char(p1 + 1, p2));
    assert(rest.subrange(p2 - p1 - 1 + 1, rest.len() as int) =~= s@.subrange(
        p2 + 1 as int,
        end as int,
    ));
    match decode_tags(s, p2 + 1, end) {
        Err(e) => Err(e),
        Ok(tags) => {
            let m = MergeStep { target_branch: target, original_sha: sha, tags_created: tags };
            proof {
                assert(l.subrange(0, p1 - start) =~= s@.subrange(start as int, p1 as int));
                assert(rest.subrange(0, p2 - p1 - 1) =~= s@.subrange(p1 + 1 as int, p2 as int));
                assert(parse_line(l)->Some_0 =~= m@);
            }
            Ok(m)
        },
    }
}

/// Reads a durable text back into a history. Succeeds exactly on the
/// texts of the record grammar, and returns the records it carries.
pub fn decode_history(s: &str) -> (r: Result<Vec<MergeStep>, LogError>)
    ensures
        match r {
            Ok(v) => parse_history(s@) == Some(v.deep_view()),
            Err(_) => parse_history(s@) is None,
        },
{
    let n = s.unicode_len();
    let mut out: Vec<MergeStep> = Vec::new();
    let mut pos: usize = 0;
    assert(s@.subrange(0, n as int) =~= s@);
    while pos < n
        invariant
            pos <= n,
            n == s@.len(),
            parse_history(s@) == (match parse_history(s@.subrange(pos as int, n as int)) {
                None => None,
                Some(r) => Some(out.deep_view() + r),
            }),
        decreases n - pos,
    {
        let ghost t: Seq<char> = s@.subrange(pos as int, n as int);
        let k = find_range(s, pos, n, '\n');
        proof {
            lemma_find_idx_is(t, '\n', k - pos);
        }
        if k == n {
            return Err(LogError::Malformed);
        }
        let ghost old_out: Seq<StepModel> = out.deep_view();
        match decode_line(s, pos, k) {
            Err(e) => {
                proof {
                    assert(t.subrange(0, k - pos) =~= s@.subrange(pos as int, k as int));
                }
                return Err(e);
            },
            Ok(m) => {
                proof {
                    assert(t.subrange(0, k - pos) =~= s@.subrange(pos as int, k as int));
                    assert(t.subrange(k - pos + 1, t.len() as int) =~= s@.subrange(
                        k + 1 as int,
                        n as int,
                    ));
                }
                out.push(m);
                proof {
                    assert(out.deep_view() =~= old_out.push(m@));
                    assert forall|r2: Seq<StepModel>|
                        true implies old_out + (seq![m@] + r2) =~= out.deep_view() + r2 by {}
                }
                pos = k + 1;
            },
        }
    }
    assert(s@.subrange(n as int, n as int) =~= Seq::<char>::empty());
    assert(parse_history(Seq::<char>::empty()) == Some(Seq::<StepModel>::empty()));
    assert(out.deep_view() + Seq::<StepModel>::empty() =~= out.deep_view());
    Ok(out)
}

} // verus!
