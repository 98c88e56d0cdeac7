//! What reading the log gives back of what was written to it.

use vstd::prelude::*;
use crate::text::{
    find_str, has_char, is_ws, lemma_find_char_after, lemma_find_str,
    lemma_split_concat, lemma_split_none, lemma_trim_end_concat, lemma_trim_end_shape,
    lemma_trim_space, lemma_trim_start_concat, lemma_trim_start_idem, lemma_trim_start_shape,
    lemma_trim_trim_end, occurs_at, split_char, starts_with, trim, trim_end, trim_start,
    trim_start_matches, contains_str,
};
use crate::log_format::{join_details, log_line_text, log_message};
use crate::log_parse::{
    all_ascii, ascii_upper, detail_pair, details_of, entries_of, has_date_prefix,
    info, line_body, line_header, line_readable, log_readable, na, parse_line, parse_log, path_details,
    upper_case, LogEntryView,
};
use crate::text::{strip_end, strip_start, trim_brackets};

verus! {

/// Text that fits in one field of a log line: free of line breaks.
pub open spec fn field_ok(s: Seq<char>) -> bool {
    !has_char(s, '\n')
}

/// The details with keys and values trimmed.
pub open spec fn trim_details(d: Seq<(Seq<char>, Seq<char>)>) -> Seq<(Seq<char>, Seq<char>)> {
    d.map_values(|p: (Seq<char>, Seq<char>)| (trim(p.0), trim(p.1)))
}

/// The map that the details give, a later key replacing an earlier one.
pub open spec fn details_map(d: Seq<(Seq<char>, Seq<char>)>) -> Map<Seq<char>, Seq<char>>
    decreases d.len(),
{
    if d.len() == 0 {
        Map::empty()
    } else {
        details_map(d.drop_last()).insert(d.last().0, d.last().1)
    }
}

/// Details that read back, trimmed: keys without `;` or `:`, values
/// without `;`, all on one line.
pub open spec fn details_ok(d: Seq<(Seq<char>, Seq<char>)>) -> bool {
    forall|i: int|
        0 <= i < d.len() ==> {
            &&& field_ok(#[trigger] d[i].0)
            &&& !has_char(d[i].0, ';')
            &&& !has_char(d[i].0, ':')
            &&& field_ok(d[i].1)
            &&& !has_char(d[i].1, ';')
        }
}

pub proof fn lemma_has_char_concat(a: Seq<char>, b: Seq<char>, c: char)
    ensures
        has_char(a + b, c) <==> (has_char(a, c) || has_char(b, c)),
{
    if has_char(a + b, c) {
        let i = choose|i: int| 0 <= i < (a + b).len() && (a + b)[i] == c;
        if i >= a.len() {
            assert(b[i - a.len()] == c);
        }
    }
    if has_char(a, c) {
        let i = choose|i: int| 0 <= i < a.len() && a[i] == c;
        assert((a + b)[i] == c);
    }
    if has_char(b, c) {
        let i = choose|i: int| 0 <= i < b.len() && b[i] == c;
        assert((a + b)[a.len() + i] == c);
    }
}

/// The detail that the piece `pre + k + ":" + w` gives, with `pre` empty
/// or a space.
proof fn lemma_piece_pair(pre: Seq<char>, k: Seq<char>, w: Seq<char>, v: Seq<char>)
    requires
        pre == Seq::<char>::empty() || pre == seq![' '],
        !has_char(k, ':'),
        trim(w) == v,
    ensures
        detail_pair(pre + k + seq![':'] + w) == Some((trim(k), v)),
{
    let p = pre + k + seq![':'] + w;
    lemma_has_char_concat(pre, k, ':');
    assert(!has_char(pre, ':'));
    lemma_find_char_after(pre + k, ':', w);
    assert(p.take((pre + k).len() as int) =~= pre + k);
    assert(p.skip((pre + k).len() as int + 1) =~= w);
    if pre.len() == 0 {
        assert(pre + k =~= k);
    } else {
        lemma_trim_space(k);
        assert(pre + k =~= seq![' '] + k);
    }
}

/// The details of the joined text, and of the joined text with trailing
/// whitespace trimmed, are the details written.
proof fn lemma_details_read_back(d: Seq<(Seq<char>, Seq<char>)>)
    requires
        d.len() > 0,
        details_ok(d),
    ensures
        details_of(split_char(join_details(d), ';')) == details_map(trim_details(d)),
        details_of(split_char(trim_end(join_details(d)), ';')) == details_map(trim_details(d)),
        !has_char(join_details(d), '\n'),
        has_char(join_details(d), ':'),
    decreases d.len(),
{
    reveal_strlit(": ");
    reveal_strlit("; ");
    let k = d.last().0;
    let v = d.last().1;
    assert(field_ok(d[d.len() - 1].0));
    let sv = seq![' '] + v;
    lemma_trim_space(v);
    lemma_trim_trim_end(sv);
    let td = trim_details(d);
    assert(td.last() == (trim(k), trim(v)));
    let pre = if d.len() == 1 {
        Seq::<char>::empty()
    } else {
        seq![' ']
    };
    let piece = pre + k + seq![':'] + sv;
    let tpiece = pre + k + seq![':'] + trim_end(sv);
    lemma_piece_pair(pre, k, sv, trim(v));
    lemma_piece_pair(pre, k, trim_end(sv), trim(v));
    assert(!has_char(pre, ';'));
    assert(!has_char(pre, '\n'));
    assert(!has_char(seq![':'], ';'));
    assert(!has_char(seq![':'], '\n'));
    assert(!has_char(sv, ';')) by {
        lemma_has_char_concat(seq![' '], v, ';');
    }
    assert(!has_char(sv, '\n')) by {
        lemma_has_char_concat(seq![' '], v, '\n');
    }
    lemma_trim_end_shape(sv);
    assert(!has_char(trim_end(sv), ';')) by {
        if has_char(trim_end(sv), ';') {
            let i = choose|i: int| 0 <= i < trim_end(sv).len() && trim_end(sv)[i] == ';';
            assert(sv[i] == ';');
        }
    }
    lemma_has_char_concat(pre, k, ';');
    lemma_has_char_concat(pre + k, seq![':'], ';');
    lemma_has_char_concat(pre + k + seq![':'], sv, ';');
    lemma_has_char_concat(pre + k + seq![':'], trim_end(sv), ';');
    lemma_has_char_concat(pre, k, '\n');
    lemma_has_char_concat(pre + k, seq![':'], '\n');
    lemma_has_char_concat(pre + k + seq![':'], sv, '\n');
    lemma_has_char_concat(pre + k + seq![':'], seq![':'], ':');
    assert(has_char(pre + k + seq![':'], ':')) by {
        lemma_has_char_concat(pre + k, seq![':'], ':');
        assert(seq![':'][0] == ':');
    }
    lemma_has_char_concat(pre + k + seq![':'], sv, ':');
    lemma_split_none(piece, ';');
    lemma_split_none(tpiece, ';');
    assert((pre + k + seq![':']).last() == ':');
    lemma_trim_end_concat(pre + k + seq![':'], sv);
    assert(trim_end(piece) == tpiece);
    if d.len() == 1 {
        assert(join_details(d) =~= piece);
        assert(d.drop_last().len() == 0);
        assert(td.drop_last().len() == 0);
        assert(details_map(td.drop_last()) == Map::<Seq<char>, Seq<char>>::empty());
        assert(details_map(td) =~= Map::<Seq<char>, Seq<char>>::empty().insert(trim(k), trim(v)));
        assert(seq![piece].drop_last().len() == 0);
        assert(seq![tpiece].drop_last().len() == 0);
        assert(details_of(seq![piece].drop_last()) == Map::<Seq<char>, Seq<char>>::empty());
        assert(details_of(seq![tpiece].drop_last()) == Map::<Seq<char>, Seq<char>>::empty());
        assert(seq![piece].last() == piece);
        assert(seq![tpiece].last() == tpiece);
        assert(details_of(seq![piece]) =~= Map::<Seq<char>, Seq<char>>::empty().insert(trim(k), trim(v)));
        assert(details_of(seq![tpiece]) =~= Map::<Seq<char>, Seq<char>>::empty().insert(trim(k), trim(v)));
    } else {
        let d0 = d.drop_last();
        assert(details_ok(d0)) by {
            assert forall|i: int| 0 <= i < d0.len() implies {
                &&& field_ok(#[trigger] d0[i].0)
                &&& !has_char(d0[i].0, ';')
                &&& !has_char(d0[i].0, ':')
                &&& field_ok(d0[i].1)
                &&& !has_char(d0[i].1, ';')
            } by {
                assert(d0[i] == d[i]);
            }
        }
        lemma_details_read_back(d0);
        assert(td.drop_last() =~= trim_details(d0));
        let j0 = join_details(d0);
        assert(join_details(d) =~= j0 + seq![';'] + piece);
        lemma_split_concat(j0, ';', piece);
        lemma_has_char_concat(j0, seq![';'], ':');
        assert((j0 + seq![';']).last() == ';');
        lemma_trim_end_concat(j0 + seq![';'], piece);
        assert(trim_end(join_details(d)) =~= j0 + seq![';'] + tpiece);
        lemma_split_concat(j0, ';', tpiece);
        let s0 = split_char(j0, ';');
        assert((s0 + seq![piece]).drop_last() =~= s0);
        assert((s0 + seq![tpiece]).drop_last() =~= s0);
        lemma_has_char_concat(j0, seq![';'], '\n');
        lemma_has_char_concat(j0 + seq![';'], piece, '\n');
        lemma_has_char_concat(j0 + seq![';'], piece, ':');
    }
}


/// A record that reads back: the timestamp without `]`, the event without
/// `;`, each field on one line, and details as [`details_ok`] asks.
pub open spec fn record_ok(ts: Seq<char>, ev: Seq<char>, d: Seq<(Seq<char>, Seq<char>)>) -> bool {
    &&& field_ok(ts)
    &&& !has_char(ts, ']')
    &&& field_ok(ev)
    &&& !has_char(ev, ';')
    &&& details_ok(d)
}

/// The entry that a written record reads back as: its timestamp trimmed,
/// level `INFO`, its event trimmed (when there are no details the message
/// ends in `"; "`, so the event is read with `;` appended and only its
/// start trimmed) and its details with keys and values trimmed.
pub open spec fn record_entry(ts: Seq<char>, ev: Seq<char>, d: Seq<(Seq<char>, Seq<char>)>) -> LogEntryView {
    LogEntryView {
        timestamp: trim(ts),
        level: "INFO"@,
        event: if d.len() == 0 {
            trim_start(ev) + ";"@
        } else {
            trim(ev)
        },
        details: details_map(trim_details(d)),
    }
}

proof fn lemma_info_level()
    ensures
        trim_brackets(upper_case(info())) == info(),
{
    reveal_strlit("INFO");
    let s = info();
    assert(all_ascii(s));
    assert(s.map_values(|c: char| ascii_upper(c)) =~= s);
    assert(strip_start(s, false) == s);
    assert(strip_end(s, false) == s);
}

/// The message's text without trailing whitespace: `EVENT: ev;`, then a
/// space and the details trimmed at the end when there are any.
pub open spec fn message_trimmed(ev: Seq<char>, d: Seq<(Seq<char>, Seq<char>)>) -> Seq<char> {
    "EVENT: "@ + ev + seq![';'] + if d.len() > 0 {
        seq![' '] + trim_end(join_details(d))
    } else {
        Seq::<char>::empty()
    }
}

proof fn lemma_message_trimmed(ev: Seq<char>, d: Seq<(Seq<char>, Seq<char>)>)
    requires
        field_ok(ev),
        details_ok(d),
    ensures
        trim_end(log_message(ev, d)) == message_trimmed(ev, d),
        message_trimmed(ev, d).len() > 7,
        !is_ws(message_trimmed(ev, d).last()),
        message_trimmed(ev, d)[0] == 'E',
        message_trimmed(ev, d).take(6) == "EVENT:"@,
        message_trimmed(ev, d).skip(6) == seq![' '] + ev + seq![';'] + if d.len() > 0 {
            seq![' '] + trim_end(join_details(d))
        } else {
            Seq::<char>::empty()
        },
        !has_char(log_message(ev, d), '\n'),
{
    reveal_strlit("EVENT: ");
    reveal_strlit("EVENT:");
    reveal_strlit("; ");
    let e7 = "EVENT: "@;
    let j = join_details(d);
    let m = log_message(ev, d);
    let a = e7 + ev + seq![';'];
    let mt = message_trimmed(ev, d);
    assert(a.last() == ';');
    if d.len() > 0 {
        lemma_details_read_back(d);
        assert(m =~= a + (seq![' '] + j));
        let w = choose|i: int| 0 <= i < j.len() && j[i] == ':';
        assert((seq![' '] + j)[w + 1] == ':');
        lemma_trim_end_concat(a, seq![' '] + j);
        lemma_trim_end_concat(seq![' '], j);
        assert(mt =~= a + (seq![' '] + trim_end(j)));
    } else {
        assert(j.len() == 0);
        assert(m =~= a + seq![' ']);
        lemma_trim_end_concat(a, seq![' ']);
        assert(trim_end(seq![' ']) == trim_end(seq![' '].drop_last()));
        assert(trim_end(seq![' ']).len() == 0);
        assert(mt =~= a);
    }
    lemma_trim_end_shape(m);
    assert(mt.take(6) =~= "EVENT:"@);
    assert(mt.skip(6) =~= seq![' '] + ev + seq![';'] + if d.len() > 0 {
        seq![' '] + trim_end(join_details(d))
    } else {
        Seq::<char>::empty()
    });
    lemma_has_char_concat(e7, ev, '\n');
    lemma_has_char_concat(e7 + ev, "; "@, '\n');
    lemma_has_char_concat(e7 + ev + "; "@, j, '\n');
    if d.len() == 0 {
        assert(!has_char(j, '\n'));
    }
}

proof fn lemma_line_trimmed(ts: Seq<char>, m: Seq<char>, mt: Seq<char>)
    requires
        field_ok(ts),
        !has_char(m, '\n'),
        trim_end(m) == mt,
        mt.len() > 0,
        m[0] == 'E',
    ensures
        trim(log_line_text(ts, m)) == seq!['['] + ts + seq![']'] + seq![' '] + mt,
        !has_char(log_line_text(ts, m), '\n'),
{
    reveal_strlit("[");
    reveal_strlit("] ");
    let l = log_line_text(ts, m);
    let br = seq!['['] + ts + seq![']'];
    assert(l =~= br + (seq![' '] + m));
    assert((seq![' '] + m)[1] == 'E');
    lemma_trim_end_concat(br, seq![' '] + m);
    lemma_trim_end_concat(seq![' '], m);
    assert(trim_start(l) == l);
    assert(trim(l) =~= br + seq![' '] + mt);
    lemma_has_char_concat(seq!['['], ts, '\n');
    lemma_has_char_concat(seq!['['] + ts, "] "@, '\n');
    lemma_has_char_concat(seq!['['] + ts + "] "@, m, '\n');
    assert(l =~= seq!['['] + ts + "] "@ + m);
}

proof fn lemma_header_read_back(ts: Seq<char>, mt: Seq<char>)
    requires
        field_ok(ts),
        !has_char(ts, ']'),
        mt.len() > 7,
        mt[0] == 'E',
        trim_end(mt) == mt,
        mt.take(6) == "EVENT:"@,
    ensures
        line_header(seq!['['] + ts + seq![']'] + seq![' '] + mt) == (trim(ts), info(), mt),
        !has_date_prefix(seq!['['] + ts + seq![']'] + seq![' '] + mt),
{
    reveal_strlit("EVENT:");
    let t = seq!['['] + ts + seq![']'] + seq![' '] + mt;
    assert(t[0] == '[');
    lemma_has_char_concat(seq!['['], ts, ']');
    assert(t =~= (seq!['['] + ts) + seq![']'] + (seq![' '] + mt));
    lemma_find_char_after(seq!['['] + ts, ']', seq![' '] + mt);
    let e = ts.len() as int + 1;
    assert(t.subrange(1, e) =~= ts);
    assert(t.skip(e + 1) =~= seq![' '] + mt);
    assert((seq![' '] + mt).drop_first() =~= mt);
    assert(trim_start(seq![' '] + mt) == trim_start(mt));
    assert(trim_start(mt) == mt);
    assert(trim(seq![' '] + mt) == mt);
    assert(starts_with(mt, "EVENT:"@));
}

proof fn lemma_body_read_back(ev: Seq<char>, d: Seq<(Seq<char>, Seq<char>)>)
    requires
        field_ok(ev),
        !has_char(ev, ';'),
        details_ok(d),
    ensures
        line_body(info(), message_trimmed(ev, d)) == (
            record_entry(Seq::empty(), ev, d).event,
            details_map(trim_details(d)),
            info(),
        ),
{
    reveal_strlit("EVENT:");
    reveal_strlit("; ");
    reveal_strlit(";");
    lemma_message_trimmed(ev, d);
    let mt = message_trimmed(ev, d);
    let j = join_details(d);
    let r = if d.len() > 0 {
        seq![' '] + trim_end(j)
    } else {
        Seq::<char>::empty()
    };
    let x = ev + seq![';'] + r;
    assert(mt.skip(6) =~= seq![' '] + x);
    assert("EVENT:"@.len() == 6);
    assert(mt.take(6) == "EVENT:"@);
    assert(starts_with(mt, "EVENT:"@));
    assert(!starts_with(mt.skip(6), "EVENT:"@)) by {
        let u = mt.skip(6);
        assert(u[0] == ' ');
        if starts_with(u, "EVENT:"@) {
            assert(u.take(6)[0] == ' ');
        }
    }
    assert(trim_start_matches(mt, "EVENT:"@) == trim_start_matches(mt.skip(6), "EVENT:"@));
    assert(trim_start_matches(mt, "EVENT:"@) == seq![' '] + x);
    let e1 = trim_start(ev);
    lemma_trim_start_shape(ev);
    let y = e1 + seq![';'] + r;
    assert(trim_start(seq![' '] + x) == y) by {
        lemma_trim_space(x);
        assert(x =~= ev + (seq![';'] + r));
        lemma_trim_start_concat(ev, seq![';'] + r);
        assert(y =~= e1 + (seq![';'] + r));
    }
    assert(y.len() > 0);
    assert(x.last() == mt.last());
    assert(y.last() == x.last());
    assert(trim_end(y) == y);
    assert(trim(seq![' '] + x) == y);
    let off = ev.len() - e1.len();
    assert(!has_char(e1, ';')) by {
        if has_char(e1, ';') {
            let i = choose|i: int| 0 <= i < e1.len() && e1[i] == ';';
            assert(e1[i] == ev[i + off]);
        }
    }
    lemma_find_str(y, "; "@);
    lemma_trim_start_idem(ev);
    if d.len() > 0 {
        lemma_details_read_back(d);
        assert(occurs_at(y, "; "@, e1.len() as int)) by {
            assert(y.subrange(e1.len() as int, e1.len() as int + 2) =~= "; "@);
        }
        let i = find_str(y, "; "@)->0;
        assert(i == e1.len()) by {
            if i < e1.len() {
                assert(y.subrange(i, i + 2)[0] == y[i]);
                assert(y[i] == e1[i]);
            }
        }
        assert(y.take(i) =~= e1);
        assert(y.skip(i + 2) =~= trim_end(j));
        assert(trim(e1) == trim(ev));
    } else {
        assert(y =~= e1 + seq![';']);
        assert(find_str(y, "; "@) is None) by {
            if find_str(y, "; "@) is Some {
                let i = find_str(y, "; "@)->0;
                assert(y.subrange(i, i + 2)[0] == y[i]);
                if i < e1.len() {
                    assert(y[i] == e1[i]);
                }
            }
        }
        assert(trim_start(y) == y) by {
            if e1.len() == 0 {
                assert(y[0] == ';');
            } else {
                assert(y[0] == e1[0]);
            }
        }
        assert(trim(y) == y);
        assert(";"@ =~= seq![';']);
        assert(trim_details(d).len() == 0);
        assert(details_map(trim_details(d)) == Map::<Seq<char>, Seq<char>>::empty());
    }
}

/// A record's line reads back as its entry.
proof fn lemma_line_read_back(ts: Seq<char>, ev: Seq<char>, d: Seq<(Seq<char>, Seq<char>)>)
    requires
        record_ok(ts, ev, d),
    ensures
        !has_char(log_line_text(ts, log_message(ev, d)), '\n'),
        trim(log_line_text(ts, log_message(ev, d))).len() > 0,
        !has_date_prefix(trim(log_line_text(ts, log_message(ev, d)))),
        parse_line(trim(log_line_text(ts, log_message(ev, d)))) == record_entry(ts, ev, d),
{
    reveal_strlit("EVENT: ");
    let m = log_message(ev, d);
    let mt = message_trimmed(ev, d);
    lemma_message_trimmed(ev, d);
    lemma_trim_end_shape(m);
    assert(m[0] == 'E');
    lemma_line_trimmed(ts, m, mt);
    lemma_header_read_back(ts, mt);
    lemma_body_read_back(ev, d);
    lemma_info_level();
    let t = seq!['['] + ts + seq![']'] + seq![' '] + mt;
    assert(parse_line(t) == record_entry(ts, ev, d));
}

/// The log file that the records make: each one's line followed by a line
/// break, in order.
pub open spec fn log_file(records: Seq<(Seq<char>, Seq<char>, Seq<(Seq<char>, Seq<char>)>)>) -> Seq<char>
    decreases records.len(),
{
    if records.len() == 0 {
        Seq::empty()
    } else {
        log_line_text(records[0].0, log_message(records[0].1, records[0].2)) + seq!['\n']
            + log_file(records.drop_first())
    }
}

/// The entries that the records read back as.
pub open spec fn record_entries(records: Seq<(Seq<char>, Seq<char>, Seq<(Seq<char>, Seq<char>)>)>) -> Seq<LogEntryView> {
    records.map_values(|r: (Seq<char>, Seq<char>, Seq<(Seq<char>, Seq<char>)>)| record_entry(r.0, r.1, r.2))
}

/// The lines of the records.
pub open spec fn record_lines(records: Seq<(Seq<char>, Seq<char>, Seq<(Seq<char>, Seq<char>)>)>) -> Seq<Seq<char>> {
    records.map_values(|r: (Seq<char>, Seq<char>, Seq<(Seq<char>, Seq<char>)>)| log_line_text(r.0, log_message(r.1, r.2)))
}

proof fn lemma_log_file_lines(records: Seq<(Seq<char>, Seq<char>, Seq<(Seq<char>, Seq<char>)>)>)
    requires
        forall|i: int| 0 <= i < records.len() ==> record_ok(#[trigger] records[i].0, records[i].1, records[i].2),
    ensures
        split_char(log_file(records), '\n') == record_lines(records) + seq![Seq::<char>::empty()],
    decreases records.len(),
{
    if records.len() == 0 {
        lemma_split_none(Seq::<char>::empty(), '\n');
        assert(record_lines(records) =~= Seq::<Seq<char>>::empty());
        assert(Seq::<Seq<char>>::empty() + seq![Seq::<char>::empty()] =~= seq![Seq::<char>::empty()]);
    } else {
        let r0 = records[0];
        let rest = records.drop_first();
        assert forall|i: int| 0 <= i < rest.len() implies record_ok(#[trigger] rest[i].0, rest[i].1, rest[i].2) by {
            assert(rest[i] == records[i + 1]);
        }
        lemma_log_file_lines(rest);
        let l0 = log_line_text(r0.0, log_message(r0.1, r0.2));
        lemma_line_read_back(r0.0, r0.1, r0.2);
        lemma_split_concat(l0, '\n', log_file(rest));
        lemma_split_none(l0, '\n');
        assert(record_lines(records) =~= seq![l0] + record_lines(rest));
        assert(split_char(log_file(records), '\n') =~= record_lines(records) + seq![Seq::<char>::empty()]);
    }
}

proof fn lemma_entries_of_lines(records: Seq<(Seq<char>, Seq<char>, Seq<(Seq<char>, Seq<char>)>)>)
    requires
        forall|i: int| 0 <= i < records.len() ==> record_ok(#[trigger] records[i].0, records[i].1, records[i].2),
    ensures
        entries_of(record_lines(records)) == record_entries(records),
    decreases records.len(),
{
    if records.len() > 0 {
        let init = records.drop_last();
        assert forall|i: int| 0 <= i < init.len() implies record_ok(#[trigger] init[i].0, init[i].1, init[i].2) by {
            assert(init[i] == records[i]);
        }
        lemma_entries_of_lines(init);
        let rl = record_lines(records);
        assert(rl.drop_last() =~= record_lines(init));
        let r = records.last();
        assert(record_ok(records[records.len() - 1].0, records[records.len() - 1].1, records[records.len() - 1].2));
        lemma_line_read_back(r.0, r.1, r.2);
        assert(record_entries(records) =~= record_entries(init).push(record_entry(r.0, r.1, r.2)));
    } else {
        assert(record_entries(records) =~= Seq::<LogEntryView>::empty());
    }
}

/// The entries of two runs of lines are those of each run in turn.
proof fn lemma_entries_of_concat(s1: Seq<Seq<char>>, s2: Seq<Seq<char>>)
    ensures
        entries_of(s1 + s2) == entries_of(s1) + entries_of(s2),
    decreases s2.len(),
{
    if s2.len() == 0 {
        assert(s1 + s2 =~= s1);
        assert(entries_of(s1) + entries_of(s2) =~= entries_of(s1));
    } else {
        lemma_entries_of_concat(s1, s2.drop_last());
        assert((s1 + s2).drop_last() =~= s1 + s2.drop_last());
        assert((s1 + s2).last() == s2.last());
        let t = trim(s2.last());
        if t.len() == 0 {
        } else {
            assert(entries_of(s1) + entries_of(s2) =~= (entries_of(s1) + entries_of(s2.drop_last())).push(
                parse_line(t),
            ));
        }
    }
}

/// A log is read line by line: the entries of two texts joined by a line
/// break are the entries of the first followed by those of the second.
pub proof fn law_log_lines(a: Seq<char>, b: Seq<char>)
    ensures
        parse_log(a + seq!['\n'] + b) == parse_log(a) + parse_log(b),
{
    lemma_split_concat(a, '\n', b);
    lemma_entries_of_concat(split_char(a, '\n'), split_char(b, '\n'));
}

/// A line gives one entry, the one parsed from its trimmed text, unless it
/// is blank; a blank line gives none. So inserting or removing blank lines
/// leaves what a log reads as unchanged.
pub proof fn law_log_single_line(l: Seq<char>)
    requires
        !has_char(l, '\n'),
    ensures
        trim(l).len() == 0 ==> parse_log(l) == Seq::<LogEntryView>::empty(),
        trim(l).len() > 0 ==> parse_log(l) == seq![parse_line(trim(l))],
{
    lemma_split_none(l, '\n');
    let lines = seq![l];
    assert(lines.drop_last() =~= Seq::<Seq<char>>::empty());
    assert(lines.last() == l);
    assert(entries_of(lines.drop_last()) == Seq::<LogEntryView>::empty());
    assert(parse_log(l) == entries_of(lines));
    if trim(l).len() > 0 {
        assert(entries_of(lines) =~= seq![parse_line(trim(l))]);
    }
}

/// The logger's start-up message names its log file between double quotes;
/// reading it gives the event `Logger Initialization` and the detail
/// `Path` holding the whole quoted text, whatever it holds (spaces
/// included) short of a quote.
pub proof fn law_startup_path(level: Seq<char>, pre: Seq<char>, p: Seq<char>, post: Seq<char>)
    requires
        !has_char(pre, '"'),
        !has_char(p, '"'),
        contains_str(pre + seq!['"'] + p + seq!['"'] + post, "Logger inicializiran na"@),
        !starts_with(pre + seq!['"'] + p + seq!['"'] + post, "EVENT:"@),
    ensures
        line_body(level, pre + seq!['"'] + p + seq!['"'] + post).0 == "Logger Initialization"@,
        line_body(level, pre + seq!['"'] + p + seq!['"'] + post).1 == Map::<Seq<char>, Seq<char>>::empty().insert(
            "Path"@,
            p,
        ),
{
    let msg = pre + seq!['"'] + p + seq!['"'] + post;
    assert(msg =~= pre + seq!['"'] + (p + seq!['"'] + post));
    lemma_find_char_after(pre, '"', p + seq!['"'] + post);
    let pr = msg.skip(pre.len() as int + 1);
    assert(pr =~= p + seq!['"'] + post);
    lemma_find_char_after(p, '"', post);
    assert(pr.take(p.len() as int) =~= p);
    assert(path_details(msg) == Map::<Seq<char>, Seq<char>>::empty().insert("Path"@, p));
}

/// Reading back a log file that the logger wrote gives, for each record
/// in order, its timestamp, level `INFO`, its event (with `;` appended when
/// it had no details) and its details as a map; and such a file can always
/// be read.
pub proof fn law_log_read_back(records: Seq<(Seq<char>, Seq<char>, Seq<(Seq<char>, Seq<char>)>)>)
    requires
        forall|i: int| 0 <= i < records.len() ==> record_ok(#[trigger] records[i].0, records[i].1, records[i].2),
    ensures
        log_readable(log_file(records)),
        parse_log(log_file(records)) == record_entries(records),
{
    lemma_log_file_lines(records);
    lemma_entries_of_lines(records);
    let lines = record_lines(records) + seq![Seq::<char>::empty()];
    assert(lines.drop_last() =~= record_lines(records));
    assert(trim(lines.last()).len() == 0);
    assert forall|i: int| 0 <= i < lines.len() implies line_readable(#[trigger] lines[i]) by {
        if i < records.len() {
            assert(record_ok(records[i].0, records[i].1, records[i].2));
            lemma_line_read_back(records[i].0, records[i].1, records[i].2);
        } else {
            assert(lines[i].len() == 0);
        }
    }
}

} // verus!
