//! The two output parsers: the port-listing parser over the socket query
//! tool's tabular output, and the name-search parser over the global process
//! listing, with the laws that govern them.

use vstd::prelude::*;
use vstd::string::*;
use crate::records::ProcessInfo;
use crate::scan::{
    chars_of, contains_sub, eq_string, extract, line_ranges, range_is_blank, ranges_model,
    token_ranges,
};
use crate::text::{
    all_ascii, body_lines, contains_key, contains_seq, dedup_by_key, is_blank,
    lemma_dedup_by_key_complete, lemma_dedup_by_key_first, lemma_dedup_by_key_unique,
    lemma_filter_map_all_none, lemma_filter_map_push, lemma_filter_map_skip_none, lines_of,
    lower_of, lower_seq, tokens_of,
};

verus! {

/// The (pid, name) pairs of a record list.
pub open spec fn pid_name_pairs(ps: Seq<ProcessInfo>) -> Seq<(Seq<char>, Seq<char>)> {
    ps.map_values(|p: ProcessInfo| (p.pid@, p.name@))
}

/// The (name, pid) pairs of a record list.
pub open spec fn name_pid_pairs(ps: Seq<ProcessInfo>) -> Seq<(Seq<char>, Seq<char>)> {
    ps.map_values(|p: ProcessInfo| (p.name@, p.pid@))
}

/// Relies on `str::to_lowercase`: the result is the Unicode lowercase
/// folding of the characters, a function of them alone; on ASCII characters
/// it folds exactly `A`-`Z` to `a`-`z`, as `lower_seq` writes out.
#[verifier::external_body]
fn lowercase(s: &str) -> (r: String)
    ensures
        r@ == lower_of(s@),
        all_ascii(s@) ==> r@ == lower_seq(s@),
{
    s.to_lowercase()
}

/// What one process-listing line contributes to a search: its (pid, name),
/// provided it has at least two fields and the case-folded name contains the
/// case-folded search string.
pub open spec fn ps_line_rec(line: Seq<char>, search: Seq<char>) -> Option<(Seq<char>, Seq<char>)> {
    let toks = tokens_of(line);
    if toks.len() >= 2 && contains_seq(lower_of(toks[1]), lower_of(search)) {
        Some((toks[0], toks[1]))
    } else {
        None
    }
}

pub open spec fn ps_line_fn(search: Seq<char>) -> spec_fn(Seq<char>) -> Option<
    (Seq<char>, Seq<char>),
> {
    |l: Seq<char>| ps_line_rec(l, search)
}

/// The (pid, name) records of a name search over the whole listing.  A blank
/// search string matches nothing.
pub open spec fn ps_records(output: Seq<char>, search: Seq<char>) -> Seq<(Seq<char>, Seq<char>)> {
    if is_blank(search) {
        Seq::empty()
    } else {
        lines_of(output).filter_map(ps_line_fn(search))
    }
}

/// What one socket-listing body line contributes: its (name, pid), provided
/// it has at least two fields.
pub open spec fn lsof_line_rec(line: Seq<char>) -> Option<(Seq<char>, Seq<char>)> {
    let toks = tokens_of(line);
    if toks.len() >= 2 {
        Some((toks[0], toks[1]))
    } else {
        None
    }
}

pub open spec fn lsof_line_fn() -> spec_fn(Seq<char>) -> Option<(Seq<char>, Seq<char>)> {
    |l: Seq<char>| lsof_line_rec(l)
}

/// The (name, pid) records of the lines after the header, before
/// deduplication.
pub open spec fn lsof_raw_records(output: Seq<char>) -> Seq<(Seq<char>, Seq<char>)> {
    body_lines(output).filter_map(lsof_line_fn())
}

/// The deduplication key of a raw (name, pid) record: the process id.
pub open spec fn rec_pid_key() -> spec_fn((Seq<char>, Seq<char>)) -> Seq<char> {
    |r: (Seq<char>, Seq<char>)| r.1
}

/// The (name, pid) records of a port listing: raw records with every
/// repeated process id dropped, first occurrence kept.
pub open spec fn lsof_records(output: Seq<char>) -> Seq<(Seq<char>, Seq<char>)> {
    dedup_by_key(lsof_raw_records(output), rec_pid_key())
}

/// Parse the process-listing output of a name search: one record per line
/// with at least two fields whose case-folded name contains the case-folded
/// search string, in line order; the port of every record is "Unknown".
pub fn parse_ps_output(output: &str, search_name: &str) -> (res: Vec<ProcessInfo>)
    ensures
        pid_name_pairs(res@) == ps_records(output@, search_name@),
        forall|h: int| 0 <= h < res@.len() ==> (#[trigger] res@[h]).port@ == "Unknown"@,
{
    let mut res: Vec<ProcessInfo> = Vec::new();
    let search = chars_of(search_name);
    let ns = search.len();
    if range_is_blank(&search, 0, ns) {
        proof {
            assert(search@.subrange(0, ns as int) =~= search_name@);
            assert(pid_name_pairs(res@) =~= Seq::<(Seq<char>, Seq<char>)>::empty());
        }
        return res;
    }
    proof {
        assert(search@.subrange(0, ns as int) =~= search_name@);
    }
    let low_search = lowercase(search_name);
    let low_search_chars = chars_of(low_search.as_str());
    let chars = chars_of(output);
    let lines = line_ranges(&chars);
    let ghost lmodel = ranges_model(chars@, lines@);
    let ghost f = ps_line_fn(search_name@);
    proof {
        assert(lmodel.take(0) =~= Seq::<Seq<char>>::empty());
        assert(pid_name_pairs(res@) =~= Seq::<(Seq<char>, Seq<char>)>::empty());
    }
    let nl = lines.len();
    let mut i: usize = 0;
    while i < nl
        invariant
            i <= nl,
            nl == lines@.len(),
            chars@ == output@,
            low_search_chars@ == lower_of(search_name@),
            lmodel == ranges_model(chars@, lines@),
            lmodel == lines_of(output@),
            f == ps_line_fn(search_name@),
            forall|k: int| 0 <= k < lines@.len() ==> (#[trigger] lines@[k]).0 <= lines@[k].1
                <= chars@.len(),
            pid_name_pairs(res@) == lmodel.take(i as int).filter_map(f),
            forall|h: int| 0 <= h < res@.len() ==> (#[trigger] res@[h]).port@ == "Unknown"@,
        decreases nl - i,
    {
        let r = lines[i];
        let toks = token_ranges(&chars, r.0, r.1);
        let ghost line = chars@.subrange(r.0 as int, r.1 as int);
        proof {
            assert(lmodel[i as int] == line);
            assert(lmodel.take(i + 1) =~= lmodel.take(i as int).push(line));
            lemma_filter_map_push(lmodel.take(i as int), line, f);
            assert(f(line) == ps_line_rec(line, search_name@));
            assert(ranges_model(chars@, toks@).len() == toks@.len());
        }
        if toks.len() >= 2 {
            let t0 = toks[0];
            let t1 = toks[1];
            proof {
                assert(tokens_of(line)[0] == ranges_model(chars@, toks@)[0]);
                assert(tokens_of(line)[1] == ranges_model(chars@, toks@)[1]);
                assert(tokens_of(line)[0] == chars@.subrange(t0.0 as int, t0.1 as int));
                assert(tokens_of(line)[1] == chars@.subrange(t1.0 as int, t1.1 as int));
            }
            let name_sub = output.substring_char(t1.0, t1.1);
            let low_name = lowercase(name_sub);
            let low_name_chars = chars_of(low_name.as_str());
            proof {
                assert(low_name_chars@ == lower_of(tokens_of(line)[1]));
            }
            if contains_sub(&low_name_chars, &low_search_chars) {
                let pid = extract(output, t0.0, t0.1);
                let name = extract(output, t1.0, t1.1);
                proof {
                    assert(contains_seq(lower_of(tokens_of(line)[1]), lower_of(search_name@)));
                    assert(f(line) == Some((pid@, name@)));
                }
                let ghost old_res = res@;
                res.push(ProcessInfo { pid, name, port: String::from_str("Unknown") });
                proof {
                    assert(pid_name_pairs(res@) =~= pid_name_pairs(old_res).push((pid@, name@)));
                }
            } else {
                proof {
                    assert(!contains_seq(lower_of(tokens_of(line)[1]), lower_of(search_name@)));
                    assert(f(line) is None);
                }
            }
        } else {
            proof {
                assert(tokens_of(line).len() < 2);
                assert(f(line) is None);
            }
        }
        i = i + 1;
    }
    proof {
        assert(lmodel.take(nl as int) =~= lmodel);
    }
    res
}

/// Parse the socket-listing output of a port query: skip the header line,
/// take (name, pid) from every line with at least two fields, drop lines
/// repeating an already seen pid, and stamp every record with the queried
/// port label.
pub fn parse_lsof_output(output: &str, port: &str) -> (res: Vec<ProcessInfo>)
    ensures
        name_pid_pairs(res@) == lsof_records(output@),
        forall|h: int| 0 <= h < res@.len() ==> (#[trigger] res@[h]).port@ == port@,
{
    let mut res: Vec<ProcessInfo> = Vec::new();
    let chars = chars_of(output);
    let lines = line_ranges(&chars);
    let ghost lmodel = ranges_model(chars@, lines@);
    let ghost bm = body_lines(output@);
    let ghost f = lsof_line_fn();
    let ghost key = rec_pid_key();
    proof {
        if lmodel.len() >= 1 {
            assert(bm =~= lmodel.drop_first());
        }
        assert(bm.take(0) =~= Seq::<Seq<char>>::empty());
        assert(name_pid_pairs(res@) =~= Seq::<(Seq<char>, Seq<char>)>::empty());
    }
    let nl = lines.len();
    let mut i: usize = 1;
    while i < nl
        invariant
            1 <= i,
            nl == lines@.len(),
            nl > 0 ==> i <= nl,
            nl == 0 ==> i == 1,
            chars@ == output@,
            lmodel == ranges_model(chars@, lines@),
            lmodel == lines_of(output@),
            bm == body_lines(output@),
            f == lsof_line_fn(),
            key == rec_pid_key(),
            nl >= 1 ==> bm == lmodel.drop_first(),
            nl == 0 ==> bm.len() == 0,
            forall|k: int| 0 <= k < lines@.len() ==> (#[trigger] lines@[k]).0 <= lines@[k].1
                <= chars@.len(),
            name_pid_pairs(res@) == dedup_by_key(bm.take(i - 1).filter_map(f), key),
            forall|h: int| 0 <= h < res@.len() ==> (#[trigger] res@[h]).port@ == port@,
        decreases nl - i,
    {
        let r = lines[i];
        let toks = token_ranges(&chars, r.0, r.1);
        let ghost line = chars@.subrange(r.0 as int, r.1 as int);
        let ghost raw_pre = bm.take(i - 1).filter_map(f);
        proof {
            assert(lmodel[i as int] == line);
            assert(bm[i - 1] == line);
            assert(bm.take(i as int) =~= bm.take(i - 1).push(line));
            lemma_filter_map_push(bm.take(i - 1), line, f);
            assert(f(line) == lsof_line_rec(line));
        }
        if toks.len() >= 2 {
            let t0 = toks[0];
            let t1 = toks[1];
            proof {
                assert(ranges_model(chars@, toks@).len() == toks@.len());
                assert(tokens_of(line)[0] == ranges_model(chars@, toks@)[0]);
                assert(tokens_of(line)[1] == ranges_model(chars@, toks@)[1]);
                assert(tokens_of(line)[0] == chars@.subrange(t0.0 as int, t0.1 as int));
                assert(tokens_of(line)[1] == chars@.subrange(t1.0 as int, t1.1 as int));
            }
            let name = extract(output, t0.0, t0.1);
            let pid = extract(output, t1.0, t1.1);
            let ghost rec = (name@, pid@);
            proof {
                assert(f(line) == Some(rec));
                assert(bm.take(i as int).filter_map(f) == raw_pre.push(rec));
                assert(raw_pre.push(rec).drop_last() =~= raw_pre);
                assert(raw_pre.push(rec).last() == rec);
                assert(key(rec) == pid@);
            }
            let seen = vec_has_pid(&res, &pid);
            proof {
                let model = name_pid_pairs(res@);
                assert(model.len() == res@.len());
                if seen {
                    let j = choose|j: int|
                        0 <= j < res@.len() && (#[trigger] res@[j]).pid@ == pid@;
                    assert(key(model[j]) == pid@);
                    assert(contains_key(model, key, pid@));
                } else {
                    assert forall|w: int| 0 <= w < model.len() implies #[trigger] key(model[w])
                        != pid@ by {
                        assert(model[w] == (res@[w].name@, res@[w].pid@));
                        assert(res@[w].pid@ != pid@);
                    }
                    assert(!contains_key(model, key, pid@));
                }
            }
            if !seen {
                let ghost old_res = res@;
                let port_label = String::from_str(port);
                res.push(ProcessInfo { pid, name, port: port_label });
                proof {
                    assert(name_pid_pairs(res@) =~= name_pid_pairs(old_res).push(rec));
                }
            }
        } else {
            proof {
                assert(tokens_of(line).len() == ranges_model(chars@, toks@).len());
                assert(tokens_of(line).len() < 2);
                assert(f(line) is None);
            }
        }
        i = i + 1;
    }
    proof {
        if nl == 0 {
            assert(bm.take(0) =~= bm);
        } else {
            assert(bm.take(nl - 1) =~= bm);
        }
    }
    res
}

fn vec_has_pid(res: &Vec<ProcessInfo>, pid: &String) -> (r: bool)
    ensures
        r == exists|j: int| 0 <= j < res@.len() && (#[trigger] res@[j]).pid@ == pid@,
{
    let mut j: usize = 0;
    while j < res.len()
        invariant
            j <= res@.len(),
            forall|h: int| 0 <= h < j ==> (#[trigger] res@[h]).pid@ != pid@,
        decreases res@.len() - j,
    {
        if eq_string(&res[j].pid, pid) {
            return true;
        }
        j = j + 1;
    }
    false
}

/// The port-listing parse is idempotent by identity under multi-family
/// duplication: among raw records sharing a process id exactly one survives
/// — pids in the result are pairwise distinct, every raw pid is represented,
/// and each surviving record is the earliest raw record with its pid, so the
/// first-seen name is the one retained.
pub proof fn lemma_lsof_dedup_by_identity(output: Seq<char>)
    ensures
        forall|i: int, j: int|
            0 <= i < j < lsof_records(output).len() ==> lsof_records(output)[i].1 != lsof_records(
                output,
            )[j].1,
        forall|i: int|
            0 <= i < lsof_raw_records(output).len() ==> contains_key(
                lsof_records(output),
                rec_pid_key(),
                lsof_raw_records(output)[i].1,
            ),
        forall|j: int|
            0 <= j < lsof_records(output).len() ==> exists|i: int|
                0 <= i < lsof_raw_records(output).len() && lsof_raw_records(output)[i]
                    == #[trigger] lsof_records(output)[j] && forall|h: int|
                    0 <= h < i ==> (#[trigger] lsof_raw_records(output)[h]).1 != lsof_raw_records(
                        output,
                    )[i].1,
{
    let raw = lsof_raw_records(output);
    let key = rec_pid_key();
    lemma_dedup_by_key_unique(raw, key);
    lemma_dedup_by_key_complete(raw, key);
    lemma_dedup_by_key_first(raw, key);
    assert forall|i: int, j: int|
        0 <= i < j < lsof_records(output).len() implies lsof_records(output)[i].1 != lsof_records(
        output,
    )[j].1 by {
        assert(key(lsof_records(output)[i]) != key(lsof_records(output)[j]));
    }
    assert forall|i: int| 0 <= i < raw.len() implies contains_key(
        lsof_records(output),
        key,
        raw[i].1,
    ) by {
        assert(contains_key(dedup_by_key(raw, key), key, key(raw[i])));
    }
    assert forall|j: int| 0 <= j < lsof_records(output).len() implies exists|i: int|
        0 <= i < raw.len() && raw[i] == #[trigger] lsof_records(output)[j] && forall|h: int|
            0 <= h < i ==> (#[trigger] raw[h]).1 != raw[i].1 by {
        let d = dedup_by_key(raw, key);
        let i = choose|i: int|
            0 <= i < raw.len() && raw[i] == #[trigger] d[j] && forall|h: int|
                0 <= h < i ==> #[trigger] key(raw[h]) != key(raw[i]);
        assert forall|h: int| 0 <= h < i implies (#[trigger] raw[h]).1 != raw[i].1 by {
            assert(key(raw[h]) != key(raw[i]));
        }
        assert(0 <= i < raw.len() && raw[i] == lsof_records(output)[j] && forall|h: int|
            0 <= h < i ==> (#[trigger] raw[h]).1 != raw[i].1);
    }
}

/// A line with fewer than two fields never changes the parsed records,
/// wherever in the body it stands.
pub proof fn lemma_malformed_line_ignored(ls: Seq<Seq<char>>, k: int, bad: Seq<char>)
    requires
        0 <= k <= ls.len(),
        tokens_of(bad).len() < 2,
    ensures
        ls.insert(k, bad).filter_map(lsof_line_fn()) == ls.filter_map(lsof_line_fn()),
{
    assert(lsof_line_fn()(bad) is None);
    lemma_filter_map_skip_none(ls, k, bad, lsof_line_fn());
}

/// The same for the name search: a line with fewer than two fields never
/// changes its records either.
pub proof fn lemma_malformed_ps_line_ignored(
    ls: Seq<Seq<char>>,
    k: int,
    bad: Seq<char>,
    search: Seq<char>,
)
    requires
        0 <= k <= ls.len(),
        tokens_of(bad).len() < 2,
    ensures
        ls.insert(k, bad).filter_map(ps_line_fn(search)) == ls.filter_map(ps_line_fn(search)),
{
    assert(ps_line_fn(search)(bad) is None);
    lemma_filter_map_skip_none(ls, k, bad, ps_line_fn(search));
}

/// Output whose body has no line with two fields — a lone header, or nothing
/// at all — parses to zero records.
pub proof fn lemma_no_qualifying_lines(output: Seq<char>)
    requires
        forall|i: int|
            0 <= i < body_lines(output).len() ==> tokens_of(
                #[trigger] body_lines(output)[i],
            ).len() < 2,
    ensures
        lsof_records(output).len() == 0,
{
    let bm = body_lines(output);
    let f = lsof_line_fn();
    assert forall|i: int| 0 <= i < bm.len() implies (#[trigger] f(bm[i])) is None by {
        assert(tokens_of(bm[i]).len() < 2);
    }
    lemma_filter_map_all_none(bm, f);
    assert(lsof_raw_records(output).len() == 0);
    assert(lsof_raw_records(output) =~= Seq::<(Seq<char>, Seq<char>)>::empty());
}

/// Name-search matching is case-insensitive: two search strings, blank
/// alike, whose case foldings agree select the same records.  (Blankness is
/// a hypothesis because it is decided on the raw string, while the folding
/// is the named result of `str::to_lowercase`; the folding maps whitespace
/// to itself, so the two always agree in fact.)
pub proof fn lemma_ps_records_case_insensitive(output: Seq<char>, s1: Seq<char>, s2: Seq<char>)
    requires
        lower_of(s1) == lower_of(s2),
        is_blank(s1) == is_blank(s2),
    ensures
        ps_records(output, s1) == ps_records(output, s2),
{
    if !is_blank(s1) {
        assert(ps_line_fn(s1) =~= ps_line_fn(s2));
    }
}

} // verus!
