//! The detail enricher: merging the outputs of three single-process
//! introspection calls into one detail record, and the secondary port lookup
//! that annotates it.

use vstd::prelude::*;
use vstd::string::*;
use crate::numbers::{
    dec_str_of, dec_val, is_numeral_up_to, parse_dec_chars, u16_to_string, unsigned_digits,
};
use crate::records::{invoked, out_text, succeeded, ProcessDetail, ToolOutcome};
use crate::scan::{
    chars_of, copy_range, eq_string, extract, line_ranges, ranges_model, token_ranges,
    trim_bounds,
};
use crate::text::{
    body_lines, contains_key, dedup_by_key, first_index_of, join_with, last_index_of,
    lemma_filter_map_push, lemma_first_index_of, lemma_last_index_of, lines_of, tokens_of,
    trim_of,
};

verus! {

/// The identity fields (pid, name, user, command line) of the basic output:
/// its first three fields and the remaining fields joined with single
/// spaces; absent when the output has fewer than four fields.
pub open spec fn identity_fields(out: Seq<char>) -> Option<
    (Seq<char>, Seq<char>, Seq<char>, Seq<char>),
> {
    let toks = tokens_of(out);
    if toks.len() >= 4 {
        Some((toks[0], toks[1], toks[2], join_with(toks.skip(3), " "@)))
    } else {
        None
    }
}

/// The cpu and memory percentages of the resource output: fields one and
/// two, each with a percent sign appended; absent when the output comes up
/// short.
pub open spec fn resource_fields(out: Seq<char>) -> Option<(Seq<char>, Seq<char>)> {
    let toks = tokens_of(out);
    if toks.len() >= 3 {
        Some((toks[1] + "%"@, toks[2] + "%"@))
    } else {
        None
    }
}

/// The start-time field: everything after the first space of the trimmed
/// output; absent when the trimmed output has no space.
pub open spec fn start_time_of(out: Seq<char>) -> Option<Seq<char>> {
    let t = trim_of(out);
    let k = first_index_of(t, ' ');
    if k < t.len() {
        Some(t.skip(k + 1))
    } else {
        None
    }
}

/// The cpu and memory fields the resource sub-query yields: present only
/// when the call was launched, exited with success, and printed its fields;
/// in every other case the fields stay absent, and the detail call goes on.
pub open spec fn resource_outcome_fields(o: ToolOutcome) -> Option<(Seq<char>, Seq<char>)> {
    if succeeded(o) {
        resource_fields(out_text(o))
    } else {
        None
    }
}

/// The start-time field the time sub-query yields, under the same rule.
pub open spec fn start_time_outcome(o: ToolOutcome) -> Option<Seq<char>> {
    if succeeded(o) {
        start_time_of(out_text(o))
    } else {
        None
    }
}

/// The port one socket line contributes: the characters after the last colon
/// of its ninth field, when they parse as a 16-bit port, rendered
/// canonically.
pub open spec fn line_port(line: Seq<char>) -> Option<Seq<char>> {
    let toks = tokens_of(line);
    if toks.len() >= 9 {
        let f = toks[8];
        let k = last_index_of(f, ':');
        if k >= 0 && is_numeral_up_to(f.skip(k + 1), u16::MAX as nat) {
            Some(dec_str_of(dec_val(unsigned_digits(f.skip(k + 1)))))
        } else {
            None
        }
    } else {
        None
    }
}

pub open spec fn line_port_fn() -> spec_fn(Seq<char>) -> Option<Seq<char>> {
    |l: Seq<char>| line_port(l)
}

/// The deduplication key of a port entry: the entry itself.
pub open spec fn val_key() -> spec_fn(Seq<char>) -> Seq<char> {
    |v: Seq<char>| v
}

/// The distinct ports of the per-process socket listing, first-seen order.
pub open spec fn port_entries(out: Seq<char>) -> Seq<Seq<char>> {
    dedup_by_key(body_lines(out).filter_map(line_port_fn()), val_key())
}

/// The views of a list of strings.
pub open spec fn string_views(items: Seq<String>) -> Seq<Seq<char>> {
    items.map_values(|s: String| s@)
}

/// Merge the three single-process introspection outcomes into a detail
/// record.  Only the identity sub-query is load-bearing: it must have been
/// launched, exited with success, and printed at least four fields, or the
/// whole operation fails naming the stage.  A resource or time sub-query
/// that failed or came up short leaves its optional fields absent, never
/// failing the call.  The port is "Unknown" until the secondary lookup runs.
pub fn assemble_detail(
    pid: &str,
    basic: &ToolOutcome,
    resource: &ToolOutcome,
    time: &ToolOutcome,
) -> (r: Result<ProcessDetail, String>)
    ensures
        !invoked(*basic) ==> (r matches Err(m) && m@ == "Failed to execute ps commands"@),
        invoked(*basic) && !succeeded(*basic) ==> (r matches Err(m) && m@
            == "Failed to get process information for PID: "@ + pid@),
        succeeded(*basic) ==> (match identity_fields(out_text(*basic)) {
            Option::None => r matches Err(m) && m@ == "Unable to parse basic process info"@,
            Option::Some(idf) => r matches Ok(d) && {
                &&& d.pid@ == idf.0
                &&& d.name@ == idf.1
                &&& d.user matches Some(u) && u@ == idf.2
                &&& d.command matches Some(c) && c@ == idf.3
                &&& (match resource_outcome_fields(*resource) {
                    Option::Some(rf) => (d.cpu_usage matches Some(cu) && cu@ == rf.0) && (
                    d.memory_usage matches Some(mu) && mu@ == rf.1),
                    Option::None => d.cpu_usage is None && d.memory_usage is None,
                })
                &&& (match start_time_outcome(*time) {
                    Option::Some(st) => d.start_time matches Some(t) && t@ == st,
                    Option::None => d.start_time is None,
                })
                &&& d.port@ == "Unknown"@
            },
        }),
{
    let (bs, bout) = match basic {
        ToolOutcome::Completed { success, stdout, .. } => (*success, stdout),
        ToolOutcome::NotInvoked { .. } => {
            return Err(String::from_str("Failed to execute ps commands"));
        },
    };
    if !bs {
        let mut m = String::from_str("Failed to get process information for PID: ");
        m.append(pid);
        return Err(m);
    }
    // identity fields
    let bstr = bout.as_str();
    let bchars = chars_of(bstr);
    let nb = bchars.len();
    let btoks = token_ranges(&bchars, 0, nb);
    proof {
        assert(bchars@.subrange(0, nb as int) =~= bout@);
        assert(out_text(*basic) == bout@);
        assert(ranges_model(bchars@, btoks@).len() == btoks@.len());
    }
    if btoks.len() < 4 {
        proof {
            assert(tokens_of(bout@).len() < 4);
        }
        return Err(String::from_str("Unable to parse basic process info"));
    }
    let t0 = btoks[0];
    let t1 = btoks[1];
    let t2 = btoks[2];
    proof {
        assert(tokens_of(bout@)[0] == ranges_model(bchars@, btoks@)[0]);
        assert(tokens_of(bout@)[1] == ranges_model(bchars@, btoks@)[1]);
        assert(tokens_of(bout@)[2] == ranges_model(bchars@, btoks@)[2]);
    }
    let pid_field = extract(bstr, t0.0, t0.1);
    let name_field = extract(bstr, t1.0, t1.1);
    let user_field = extract(bstr, t2.0, t2.1);
    let command_field = join_tokens_from(bstr, &btoks, 3);
    proof {
        assert(ranges_model(bstr@, btoks@.skip(3)) =~= ranges_model(bstr@, btoks@).skip(3));
        assert(command_field@ == join_with(tokens_of(bout@).skip(3), " "@));
    }
    let (cpu_usage, memory_usage) = resource_usage_fields(resource);
    let start_time = start_time_field(time);
    Ok(
        ProcessDetail {
            pid: pid_field,
            name: name_field,
            port: String::from_str("Unknown"),
            user: Some(user_field),
            command: Some(command_field),
            cpu_usage,
            memory_usage,
            start_time,
        },
    )
}

/// The optional cpu and memory fields of a resource sub-query outcome.
fn resource_usage_fields(resource: &ToolOutcome) -> (r: (Option<String>, Option<String>))
    ensures
        match resource_outcome_fields(*resource) {
            Option::Some(rf) => (r.0 matches Some(cu) && cu@ == rf.0) && (r.1 matches Some(mu)
                && mu@ == rf.1),
            Option::None => r.0 is None && r.1 is None,
        },
{
    let (rs, rout) = match resource {
        ToolOutcome::Completed { success, stdout, .. } => (*success, stdout),
        ToolOutcome::NotInvoked { .. } => {
            return (None, None);
        },
    };
    if !rs {
        return (None, None);
    }
    let rstr = rout.as_str();
    let rchars = chars_of(rstr);
    let nr = rchars.len();
    let rtoks = token_ranges(&rchars, 0, nr);
    proof {
        assert(rchars@.subrange(0, nr as int) =~= rout@);
        assert(out_text(*resource) == rout@);
        assert(ranges_model(rchars@, rtoks@).len() == rtoks@.len());
    }
    if rtoks.len() >= 3 {
        let r1 = rtoks[1];
        let r2 = rtoks[2];
        proof {
            assert(tokens_of(rout@)[1] == ranges_model(rchars@, rtoks@)[1]);
            assert(tokens_of(rout@)[2] == ranges_model(rchars@, rtoks@)[2]);
        }
        let mut cu = extract(rstr, r1.0, r1.1);
        cu.append("%");
        let mut mu = extract(rstr, r2.0, r2.1);
        mu.append("%");
        (Some(cu), Some(mu))
    } else {
        proof {
            assert(tokens_of(rout@).len() < 3);
        }
        (None, None)
    }
}

/// The optional start-time field of a time sub-query outcome.
fn start_time_field(time: &ToolOutcome) -> (r: Option<String>)
    ensures
        match start_time_outcome(*time) {
            Option::Some(st) => r matches Some(t) && t@ == st,
            Option::None => r is None,
        },
{
    let (ts, tout) = match time {
        ToolOutcome::Completed { success, stdout, .. } => (*success, stdout),
        ToolOutcome::NotInvoked { .. } => {
            return None;
        },
    };
    if !ts {
        return None;
    }
    let tstr = tout.as_str();
    let tchars = chars_of(tstr);
    let tb = trim_bounds(&tchars);
    let ghost tt = trim_of(tout@);
    proof {
        assert(out_text(*time) == tout@);
        assert(tt == tchars@.subrange(tb.0 as int, tb.1 as int));
        assert(forall|j: int| 0 <= j < tt.len() ==> tt[j] == tchars@[tb.0 + j]);
    }
    let mut k: usize = tb.0;
    while k < tb.1 && tchars[k] != ' '
        invariant
            tb.0 <= k <= tb.1 <= tchars@.len(),
            forall|j: int| tb.0 <= j < k ==> tchars@[j] != ' ',
        decreases tb.1 - k,
    {
        k = k + 1;
    }
    proof {
        lemma_first_index_of(tt, ' ');
        let fk = first_index_of(tt, ' ');
        assert(forall|j: int| 0 <= j < tt.len() ==> tt[j] == tchars@[tb.0 + j]);
        if fk < k - tb.0 {
            assert(tt[fk] == ' ');
            assert(tchars@[tb.0 + fk] != ' ');
        }
        if k - tb.0 < fk {
            assert(k < tb.1);
            assert(tt[k - tb.0] != ' ');
        }
        assert(fk == k - tb.0);
    }
    if k < tb.1 {
        proof {
            assert(tt.skip(k - tb.0 + 1) =~= tchars@.subrange(k + 1, tb.1 as int));
        }
        Some(extract(tstr, k + 1, tb.1))
    } else {
        None
    }
}

/// Parse the per-process TCP socket listing for ports: every distinct
/// `address:port` suffix that parses as a 16-bit port, joined with ", ";
/// `None` when no port parsed.
pub fn parse_port_list(output: &str) -> (r: Option<String>)
    ensures
        r is Some <==> port_entries(output@).len() > 0,
        r matches Some(s) ==> s@ == join_with(port_entries(output@), ", "@),
{
    let chars = chars_of(output);
    let lines = line_ranges(&chars);
    let ghost lmodel = ranges_model(chars@, lines@);
    let ghost bm = body_lines(output@);
    let ghost f = line_port_fn();
    let ghost key = val_key();
    let mut ports: Vec<String> = Vec::new();
    proof {
        if lmodel.len() >= 1 {
            assert(bm =~= lmodel.drop_first());
        }
        assert(bm.take(0) =~= Seq::<Seq<char>>::empty());
        assert(string_views(ports@) =~= Seq::<Seq<char>>::empty());
    }
    let nl = lines.len();
    let mut i: usize = 1;
    while i < nl
        invariant
            1 <= i,
            nl == lines@.len(),
            nl > 0 ==> i <= nl,
            nl == 0 ==> i == 1,
            chars@ == output@,
            lmodel == ranges_model(chars@, lines@),
            lmodel == lines_of(output@),
            bm == body_lines(output@),
            f == line_port_fn(),
            key == val_key(),
            nl >= 1 ==> bm == lmodel.drop_first(),
            nl == 0 ==> bm.len() == 0,
            forall|k2: int| 0 <= k2 < lines@.len() ==> (#[trigger] lines@[k2]).0 <= lines@[k2].1
                <= chars@.len(),
            string_views(ports@) == dedup_by_key(bm.take(i - 1).filter_map(f), key),
        decreases nl - i,
    {
        let r0 = lines[i];
        let toks = token_ranges(&chars, r0.0, r0.1);
        let ghost line = chars@.subrange(r0.0 as int, r0.1 as int);
        let ghost raw_pre = bm.take(i - 1).filter_map(f);
        proof {
            assert(lmodel[i as int] == line);
            assert(bm[i - 1] == line);
            assert(bm.take(i as int) =~= bm.take(i - 1).push(line));
            lemma_filter_map_push(bm.take(i - 1), line, f);
            assert(f(line) == line_port(line));
            assert(ranges_model(chars@, toks@).len() == toks@.len());
        }
        if toks.len() >= 9 {
            let t8 = toks[8];
            let ghost field = chars@.subrange(t8.0 as int, t8.1 as int);
            proof {
                assert(tokens_of(line)[8] == ranges_model(chars@, toks@)[8]);
                assert(tokens_of(line)[8] == field);
                assert(forall|j: int| 0 <= j < field.len() ==> field[j] == chars@[t8.0 + j]);
            }
            let mut k: usize = t8.1;
            while k > t8.0 && chars[k - 1] != ':'
                invariant
                    t8.0 <= k <= t8.1 <= chars@.len(),
                    forall|j: int| k <= j < t8.1 ==> chars@[j] != ':',
                decreases k,
            {
                k = k - 1;
            }
            proof {
                lemma_last_index_of(field, ':');
                let l = last_index_of(field, ':');
                assert(forall|j: int| 0 <= j < field.len() ==> field[j] == chars@[t8.0 + j]);
                if k > t8.0 {
                    assert(field[k - 1 - t8.0] == ':');
                    if l < k - 1 - t8.0 {
                        assert(field[k - 1 - t8.0] != ':');
                    }
                    if l > k - 1 - t8.0 {
                        assert(field[l] == ':');
                        assert(chars@[t8.0 + l] != ':');
                    }
                    assert(l == k - 1 - t8.0);
                } else {
                    if l >= 0 {
                        assert(field[l] == ':');
                        assert(chars@[t8.0 + l] != ':');
                    }
                    assert(l == -1);
                }
            }
            if k > t8.0 {
                let seg = copy_range(&chars, k, t8.1);
                proof {
                    assert(seg@ =~= field.skip(k - t8.0));
                    assert(last_index_of(field, ':') + 1 == k - t8.0);
                }
                match parse_dec_chars(&seg, 65535) {
                    Some(x) => {
                        let pstr = u16_to_string(x as u16);
                        proof {
                            assert((x as u16) as nat == dec_val(unsigned_digits(seg@)));
                            assert(f(line) == Some(pstr@));
                            assert(bm.take(i as int).filter_map(f) == raw_pre.push(pstr@));
                            assert(raw_pre.push(pstr@).drop_last() =~= raw_pre);
                            assert(raw_pre.push(pstr@).last() == pstr@);
                            assert(key(pstr@) == pstr@);
                        }
                        let seen = vec_has_string(&ports, &pstr);
                        proof {
                            let model = string_views(ports@);
                            assert(model.len() == ports@.len());
                            if seen {
                                let j = choose|j: int|
                                    0 <= j < ports@.len() && (#[trigger] ports@[j])@ == pstr@;
                                assert(key(model[j]) == pstr@);
                                assert(contains_key(model, key, pstr@));
                            } else {
                                assert forall|w: int|
                                    0 <= w < model.len() implies #[trigger] key(model[w])
                                    != pstr@ by {
                                    assert(model[w] == ports@[w]@);
                                }
                                assert(!contains_key(model, key, pstr@));
                            }
                        }
                        if !seen {
                            let ghost old_ports = ports@;
                            ports.push(pstr);
                            proof {
                                assert(string_views(ports@) =~= string_views(old_ports).push(
                                    bm.take(i as int).filter_map(f).last(),
                                ));
                            }
                        }
                    },
                    None => {
                        proof {
                            assert(!is_numeral_up_to(seg@, u16::MAX as nat));
                            assert(f(line) is None);
                        }
                    },
                }
            } else {
                proof {
                    assert(last_index_of(field, ':') == -1);
                    assert(f(line) is None);
                }
            }
        } else {
            proof {
                assert(tokens_of(line).len() < 9);
                assert(f(line) is None);
            }
        }
        i = i + 1;
    }
    proof {
        if nl == 0 {
            assert(bm.take(0) =~= bm);
        } else {
            assert(bm.take(nl - 1) =~= bm);
        }
        assert(string_views(ports@).len() == ports@.len());
    }
    if ports.len() > 0 {
        Some(join_strings_sep(&ports, ", "))
    } else {
        None
    }
}

/// Run the secondary port lookup over a detail record: when the listing
/// completed successfully and ports parsed, the record's port becomes their
/// ", "-joined list; in every other case the record is unchanged.
pub fn apply_port_lookup(detail: &mut ProcessDetail, outcome: &ToolOutcome)
    ensures
        final(detail).pid == old(detail).pid,
        final(detail).name == old(detail).name,
        final(detail).user == old(detail).user,
        final(detail).command == old(detail).command,
        final(detail).cpu_usage == old(detail).cpu_usage,
        final(detail).memory_usage == old(detail).memory_usage,
        final(detail).start_time == old(detail).start_time,
        final(detail).port@ == (if succeeded(*outcome) && port_entries(out_text(*outcome)).len()
            > 0 {
            join_with(port_entries(out_text(*outcome)), ", "@)
        } else {
            old(detail).port@
        }),
{
    match outcome {
        ToolOutcome::Completed { success, stdout, .. } => {
            if *success {
                match parse_port_list(stdout.as_str()) {
                    Some(s) => {
                        detail.port = s;
                    },
                    None => {},
                }
            }
        },
        ToolOutcome::NotInvoked { .. } => {},
    }
}

/// The tokens of `toks` from `start` on, read back from `src` and joined
/// with single spaces.
fn join_tokens_from(src: &str, toks: &Vec<(usize, usize)>, start: usize) -> (r: String)
    requires
        start <= toks@.len(),
        forall|k: int| 0 <= k < toks@.len() ==> (#[trigger] toks@[k]).0 <= toks@[k].1
            <= src@.len(),
    ensures
        r@ == join_with(ranges_model(src@, toks@.skip(start as int)), " "@),
{
    let ghost items = ranges_model(src@, toks@.skip(start as int));
    let nt = toks.len();
    if start >= nt {
        proof {
            assert(toks@.skip(start as int) =~= Seq::<(usize, usize)>::empty());
            assert(items =~= Seq::<Seq<char>>::empty());
        }
        return String::new();
    }
    let t = toks[start];
    let mut r = extract(src, t.0, t.1);
    proof {
        assert(items.len() == toks@.len() - start);
        assert(items[0] == src@.subrange(t.0 as int, t.1 as int));
        assert(items.take(1) =~= seq![items[0]]);
    }
    let mut i: usize = start + 1;
    while i < nt
        invariant
            start + 1 <= i <= nt,
            nt == toks@.len(),
            items == ranges_model(src@, toks@.skip(start as int)),
            items.len() == nt - start,
            forall|k: int| 0 <= k < toks@.len() ==> (#[trigger] toks@[k]).0 <= toks@[k].1
                <= src@.len(),
            r@ == join_with(items.take(i - start), " "@),
        decreases nt - i,
    {
        let t2 = toks[i];
        r.append(" ");
        r.append(src.substring_char(t2.0, t2.1));
        proof {
            let m = i - start;
            assert(items[m] == src@.subrange(t2.0 as int, t2.1 as int));
            assert(items.take(m + 1) =~= items.take(m).push(items[m]));
            assert(items.take(m + 1).drop_last() =~= items.take(m));
            assert(items.take(m + 1).last() == items[m]);
        }
        i = i + 1;
    }
    proof {
        assert(items.take(nt - start) =~= items);
    }
    r
}

/// The strings joined with `sep` between neighbours.
fn join_strings_sep(items: &Vec<String>, sep: &str) -> (r: String)
    requires
        items@.len() >= 1,
    ensures
        r@ == join_with(string_views(items@), sep@),
{
    let ghost views = string_views(items@);
    let mut r = items[0].clone();
    proof {
        assert(views[0] == items@[0]@);
        assert(views.take(1) =~= seq![views[0]]);
    }
    let n = items.len();
    let mut i: usize = 1;
    while i < n
        invariant
            1 <= i <= n,
            n == items@.len(),
            views == string_views(items@),
            views.len() == n,
            r@ == join_with(views.take(i as int), sep@),
        decreases n - i,
    {
        r.append(sep);
        r.append(items[i].as_str());
        proof {
            assert(views[i as int] == items@[i as int]@);
            assert(views.take(i + 1) =~= views.take(i as int).push(views[i as int]));
            assert(views.take(i + 1).drop_last() =~= views.take(i as int));
            assert(views.take(i + 1).last() == views[i as int]);
        }
        i = i + 1;
    }
    proof {
        assert(views.take(n as int) =~= views);
    }
    r
}

fn vec_has_string(items: &Vec<String>, x: &String) -> (r: bool)
    ensures
        r == exists|j: int| 0 <= j < items@.len() && (#[trigger] items@[j])@ == x@,
{
    let mut j: usize = 0;
    while j < items.len()
        invariant
            j <= items@.len(),
            forall|h: int| 0 <= h < j ==> (#[trigger] items@[h])@ != x@,
        decreases items@.len() - j,
    {
        if eq_string(&items[j], x) {
            return true;
        }
        j = j + 1;
    }
    false
}

} // verus!
