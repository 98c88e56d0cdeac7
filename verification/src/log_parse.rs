//! Reading the log file back: each non-blank line becomes a [`LogEntry`]
//! with its timestamp, level, event and details.

use vstd::prelude::*;
use crate::text::{
    contains_str, find_char, find_char_in, find_str, find_str_in, lemma_find_char,
    lemma_find_str, opt_int, slice_chars, split_char, starts_with, starts_with_exec,
    string_from_chars, to_chars, trim, trim_brackets, trim_brackets_chars, trim_chars,
    trim_start_matches, trim_start_matches_exec,
};

verus! {

/// The bytes that `c` takes in UTF-8 (`char::len_utf8`).
pub open spec fn utf8_width(c: char) -> int {
    let u = c as u32;
    if u < 0x80 {
        1
    } else if u < 0x800 {
        2
    } else if u < 0x10000 {
        3
    } else {
        4
    }
}

/// The length of `s` in UTF-8 bytes (`str::len`).
pub open spec fn utf8_len(s: Seq<char>) -> int
    decreases s.len(),
{
    if s.len() == 0 {
        0
    } else {
        utf8_width(s[0]) + utf8_len(s.drop_first())
    }
}

/// The number of characters that make up exactly the first `b` bytes of
/// `s`, or none when byte `b` is not a character boundary of `s`.
pub open spec fn chars_for_bytes(s: Seq<char>, b: int) -> Option<int>
    decreases s.len(),
{
    if b == 0 {
        Some(0)
    } else if b < 0 || s.len() == 0 {
        None
    } else {
        match chars_for_bytes(s.drop_first(), b - utf8_width(s[0])) {
            Some(k) => Some(k + 1),
            None => None,
        }
    }
}

/// The byte length at which a `YYYY-MM-DD HH:MM:SS` timestamp ends.
pub open spec fn date_bytes() -> int {
    19
}

/// Whether a trimmed line is read as starting with a plain date and time:
/// it does not start with `[`, is at least 19 bytes long and has `-` as its
/// fifth character.
pub open spec fn has_date_prefix(t: Seq<char>) -> bool {
    !(t.len() > 0 && t[0] == '[') && utf8_len(t) >= date_bytes() && t.len() > 4 && t[4] == '-'
}

/// A line that can be read: when it starts with a plain date, its
/// nineteenth byte ends a character. (Reading a line where it does not
/// would slice a string inside a character.)
pub open spec fn line_readable(line: Seq<char>) -> bool {
    let t = trim(line);
    has_date_prefix(t) ==> chars_for_bytes(t, date_bytes()) is Some
}

/// Every line of `content` can be read.
pub open spec fn log_readable(content: Seq<char>) -> bool {
    forall|i: int|
        0 <= i < split_char(content, '\n').len() ==> line_readable(
            #[trigger] split_char(content, '\n')[i],
        )
}

/// What `date_prefix_chars` finds out about a trimmed line: `None` when the
/// line does not start with a plain date, else the characters that make
/// up its first 19 bytes, when they end on a character boundary.
pub open spec fn date_prefix_result(t: Seq<char>) -> Option<Option<int>> {
    if has_date_prefix(t) {
        Some(chars_for_bytes(t, date_bytes()))
    } else {
        None
    }
}

fn utf8_width_exec(c: char) -> (r: usize)
    ensures
        r == utf8_width(c),
{
    let u = c as u32;
    if u < 0x80 {
        1
    } else if u < 0x800 {
        2
    } else if u < 0x10000 {
        3
    } else {
        4
    }
}

proof fn lemma_utf8_width_pos(c: char)
    ensures
        1 <= utf8_width(c) <= 4,
{
}

proof fn lemma_utf8_len_nonneg(s: Seq<char>)
    ensures
        utf8_len(s) >= 0,
    decreases s.len(),
{
    if s.len() > 0 {
        lemma_utf8_len_nonneg(s.drop_first());
    }
}

/// Decides whether the trimmed line `t` starts with a plain date and, if it
/// does, how many characters make up its first 19 bytes.
fn date_prefix_chars(t: &Vec<char>) -> (r: Option<Option<usize>>)
    ensures
        match r {
            None => date_prefix_result(t@) is None,
            Some(o) => date_prefix_result(t@) == Some(opt_int(o)),
        },
{
    if t.len() > 0 && t[0] == '[' {
        return None;
    }
    let n = t.len();
    let mut acc: usize = 0;
    let mut k: usize = 0;
    assert(t@.skip(0) =~= t@);
    while k < n && acc < 19
        invariant
            k <= n == t.len(),
            acc <= 22,
            utf8_len(t@) == acc + utf8_len(t@.skip(k as int)),
            chars_for_bytes(t@, 19) == match chars_for_bytes(
                t@.skip(k as int),
                19 - acc,
            ) {
                Some(j) => Some(j + k),
                None => None,
            },
        decreases n - k,
    {
        let w = utf8_width_exec(t[k]);
        proof {
            lemma_utf8_width_pos(t@[k as int]);
            let s = t@.skip(k as int);
            assert(s.drop_first() =~= t@.skip(k + 1));
            assert(s[0] == t@[k as int]);
        }
        acc = acc + w;
        k = k + 1;
    }
    proof {
        lemma_utf8_len_nonneg(t@.skip(k as int));
        if k == n {
            assert(t@.skip(k as int).len() == 0);
        }
    }
    if acc < 19 {
        return None;
    }
    if !(t.len() > 4 && t[4] == '-') {
        return None;
    }
    if acc == 19 {
        Some(Some(k))
    } else {
        proof {
            let s = t@.skip(k as int);
            assert(19 - acc < 0);
        }
        Some(None)
    }
}


/// `"N/A"`, the placeholder for a field that a line does not give.
pub open spec fn na() -> Seq<char> {
    "N/A"@
}

/// `"INFO"`.
pub open spec fn info() -> Seq<char> {
    "INFO"@
}

/// The level written between brackets after a plain date, e.g. `INFO` in
/// `[INFO]`: cut at the first space once brackets and spaces are trimmed,
/// else the whole text trimmed.
pub open spec fn raw_level(raw: Seq<char>) -> Seq<char> {
    let tm = trim_brackets(raw);
    match find_char(tm, ' ') {
        Some(i) => tm.take(i),
        None => trim(raw),
    }
}

/// Timestamp, level and message of a line that starts with the plain date
/// `ts` followed by `after` (trimmed).
pub open spec fn date_header(ts: Seq<char>, after: Seq<char>) -> (Seq<char>, Seq<char>, Seq<char>) {
    match find_char(after, '[') {
        Some(ls) => match find_char(after.skip(ls), ']') {
            Some(le) => (ts, raw_level(after.subrange(ls + 1, ls + le)), trim(after.skip(ls + le + 1))),
            None => (ts, na(), after),
        },
        None => (ts, na(), after),
    }
}

/// Timestamp, level and message of a trimmed line: `[ts] message` gives
/// level `INFO` when the message starts with `EVENT:`; a line starting with
/// a plain date takes its level from brackets after it; any other line is
/// all message.
pub open spec fn line_header(t: Seq<char>) -> (Seq<char>, Seq<char>, Seq<char>) {
    if t.len() > 0 && t[0] == '[' {
        match find_char(t, ']') {
            Some(e) => {
                let msg = trim(t.skip(e + 1));
                (
                    trim(t.subrange(1, e)),
                    if starts_with(msg, "EVENT:"@) {
                        info()
                    } else {
                        na()
                    },
                    msg,
                )
            },
            None => (na(), na(), t),
        }
    } else {
        match date_prefix_result(t) {
            Some(Some(k)) => date_header(t.take(k), trim(t.skip(k))),
            _ => (na(), na(), t),
        }
    }
}

/// The detail that a piece `key: value` gives, both sides trimmed; none
/// without a `:`.
pub open spec fn detail_pair(p: Seq<char>) -> Option<(Seq<char>, Seq<char>)> {
    match find_char(p, ':') {
        Some(j) => Some((trim(p.take(j)), trim(p.skip(j + 1)))),
        None => None,
    }
}

/// The details that the pieces give, a later key replacing an earlier one.
pub open spec fn details_of(pieces: Seq<Seq<char>>) -> Map<Seq<char>, Seq<char>>
    decreases pieces.len(),
{
    if pieces.len() == 0 {
        Map::empty()
    } else {
        let m = details_of(pieces.drop_last());
        match detail_pair(pieces.last()) {
            Some(kv) => m.insert(kv.0, kv.1),
            None => m,
        }
    }
}

/// The path quoted in a logger start-up message, as the detail `Path`.
pub open spec fn path_details(msg: Seq<char>) -> Map<Seq<char>, Seq<char>> {
    match find_char(msg, '"') {
        Some(i) => {
            let pr = msg.skip(i + 1);
            match find_char(pr, '"') {
                Some(j) => Map::<Seq<char>, Seq<char>>::empty().insert("Path"@, pr.take(j)),
                None => Map::empty(),
            }
        },
        None => Map::empty(),
    }
}

/// Event, details and level that a message gives: an `EVENT: e; k: v; ...`
/// message splits into its event and details; a logger start-up message is
/// the event `Logger Initialization` (level `INFO` when none was read);
/// any other message is the event itself.
pub open spec fn line_body(level: Seq<char>, msg: Seq<char>) -> (
    Seq<char>,
    Map<Seq<char>, Seq<char>>,
    Seq<char>,
) {
    if starts_with(msg, "EVENT:"@) {
        let ed = trim(trim_start_matches(msg, "EVENT:"@));
        match find_str(ed, "; "@) {
            Some(i) => (trim(ed.take(i)), details_of(split_char(ed.skip(i + 2), ';')), level),
            None => (trim(ed), Map::empty(), level),
        }
    } else if contains_str(msg, "Logger inicializiran na"@) {
        (
            "Logger Initialization"@,
            path_details(msg),
            if level == na() {
                info()
            } else {
                level
            },
        )
    } else {
        (msg, Map::empty(), level)
    }
}

/// What `str::to_uppercase` returns for `s` (Unicode upper-case mapping).
pub uninterp spec fn uppercase(s: Seq<char>) -> Seq<char>;

/// Whether every character of `s` is ASCII.
pub open spec fn all_ascii(s: Seq<char>) -> bool {
    forall|i: int| 0 <= i < s.len() ==> (s[i] as u32) < 0x80
}

/// The ASCII upper-case of an ASCII character.
pub open spec fn ascii_upper(c: char) -> char {
    if 'a' <= c && c <= 'z' {
        ((c as u32) - 32) as char
    } else {
        c
    }
}

/// The upper case of `s`: letter by letter for ASCII text, else as
/// `str::to_uppercase` maps it.
pub open spec fn upper_case(s: Seq<char>) -> Seq<char> {
    if all_ascii(s) {
        s.map_values(|c: char| ascii_upper(c))
    } else {
        uppercase(s)
    }
}

/// `str::to_uppercase`. Of the result it states, besides naming it, only
/// that ASCII text maps letter by letter to ASCII upper case; the Unicode
/// mappings beyond ASCII are left unstated.
#[verifier::external_body]
fn to_uppercase(s: &str) -> (r: String)
    ensures
        r@ == uppercase(s@),
        r@ == upper_case(s@),
{
    s.to_uppercase()
}

/// A log line as read back.
pub struct LogEntryView {
    pub timestamp: Seq<char>,
    pub level: Seq<char>,
    pub event: Seq<char>,
    pub details: Map<Seq<char>, Seq<char>>,
}

/// The entry that a trimmed, non-blank line gives; the level is upper-cased
/// and trimmed of brackets and spaces.
pub open spec fn parse_line(t: Seq<char>) -> LogEntryView {
    let (ts, lvl, msg) = line_header(t);
    let (ev, det, lvl2) = line_body(lvl, msg);
    LogEntryView { timestamp: ts, level: trim_brackets(upper_case(lvl2)), event: ev, details: det }
}

/// The entries of the given lines: one for each line that is not blank
/// once trimmed, in order.
pub open spec fn entries_of(lines: Seq<Seq<char>>) -> Seq<LogEntryView>
    decreases lines.len(),
{
    if lines.len() == 0 {
        Seq::empty()
    } else {
        let rest = entries_of(lines.drop_last());
        let t = trim(lines.last());
        if t.len() == 0 {
            rest
        } else {
            rest.push(parse_line(t))
        }
    }
}

/// The entries of a whole log file.
pub open spec fn parse_log(content: Seq<char>) -> Seq<LogEntryView> {
    entries_of(split_char(content, '\n'))
}

/// A log entry: its timestamp, level, event name and details (a map from
/// key to value, each key once).
pub struct LogEntry {
    pub timestamp: String,
    pub level: String,
    pub event: String,
    pub details: Vec<(String, String)>,
}

/// The map that key/value pairs make, a later pair replacing an earlier
/// one with the same key.
pub open spec fn pairs_map(v: Seq<(String, String)>) -> Map<Seq<char>, Seq<char>>
    decreases v.len(),
{
    if v.len() == 0 {
        Map::empty()
    } else {
        pairs_map(v.drop_last()).insert(v.last().0@, v.last().1@)
    }
}

/// No key occurs twice.
pub open spec fn keys_distinct(v: Seq<(String, String)>) -> bool {
    forall|i: int, j: int| 0 <= i < j < v.len() ==> v[i].0@ != v[j].0@
}

impl View for LogEntry {
    type V = LogEntryView;

    open spec fn view(&self) -> LogEntryView {
        LogEntryView {
            timestamp: self.timestamp@,
            level: self.level@,
            event: self.event@,
            details: pairs_map(self.details@),
        }
    }
}

impl LogEntry {
    /// The entry's details hold each key once.
    pub open spec fn well_formed(&self) -> bool {
        keys_distinct(self.details@)
    }
}

proof fn lemma_pairs_map_dom(v: Seq<(String, String)>, k: Seq<char>)
    ensures
        pairs_map(v).dom().contains(k) <==> exists|i: int| 0 <= i < v.len() && v[i].0@ == k,
    decreases v.len(),
{
    if v.len() > 0 {
        lemma_pairs_map_dom(v.drop_last(), k);
        if pairs_map(v.drop_last()).dom().contains(k) {
            let i = choose|i: int| 0 <= i < v.len() - 1 && v.drop_last()[i].0@ == k;
            assert(v[i] == v.drop_last()[i]);
        }
        if exists|i: int| 0 <= i < v.len() && v[i].0@ == k {
            let i = choose|i: int| 0 <= i < v.len() && v[i].0@ == k;
            if i < v.len() - 1 {
                assert(v.drop_last()[i] == v[i]);
            }
        }
    }
}

proof fn lemma_pairs_map_update(v: Seq<(String, String)>, i: int, p: (String, String))
    requires
        keys_distinct(v),
        0 <= i < v.len(),
        v[i].0@ == p.0@,
    ensures
        pairs_map(v.update(i, p)) == pairs_map(v).insert(p.0@, p.1@),
        keys_distinct(v.update(i, p)),
    decreases v.len(),
{
    let u = v.update(i, p);
    if i == v.len() - 1 {
        assert(u.drop_last() =~= v.drop_last());
        assert(pairs_map(u) =~= pairs_map(v).insert(p.0@, p.1@));
    } else {
        let d = v.drop_last();
        assert(u.drop_last() =~= d.update(i, p));
        lemma_pairs_map_update(d, i, p);
        assert(v.last().0@ != p.0@);
        assert(pairs_map(u) =~= pairs_map(v).insert(p.0@, p.1@));
    }
}

/// Adds the detail `key: value`, replacing the value of an equal key.
fn insert_detail(details: &mut Vec<(String, String)>, key: String, value: String)
    requires
        keys_distinct(old(details)@),
    ensures
        keys_distinct(final(details)@),
        pairs_map(final(details)@) == pairs_map(old(details)@).insert(key@, value@),
{
    let mut i: usize = 0;
    while i < details.len()
        invariant
            i <= details.len(),
            details@ == old(details)@,
            keys_distinct(details@),
            forall|j: int| 0 <= j < i ==> details@[j].0@ != key@,
        decreases details.len() - i,
    {
        if details[i].0 == key {
            proof {
                lemma_pairs_map_update(details@, i as int, (key, value));
            }
            details.set(i, (key, value));
            return;
        }
        i = i + 1;
    }
    let ghost old_v = details@;
    details.push((key, value));
    proof {
        assert(details@.drop_last() =~= old_v);
        assert(details@.last() == (key, value));
    }
}


fn raw_level_exec(raw: &Vec<char>) -> (r: Vec<char>)
    ensures
        r@ == raw_level(raw@),
{
    let tm = trim_brackets_chars(raw);
    match find_char_in(&tm, ' ') {
        Some(i) => {
            proof {
                lemma_find_char(tm@, ' ');
            }
            slice_chars(&tm, 0, i)
        },
        None => trim_chars(raw),
    }
}

fn date_header_exec(ts: Vec<char>, after: Vec<char>) -> (r: (Vec<char>, Vec<char>, Vec<char>))
    ensures
        (r.0@, r.1@, r.2@) == date_header(ts@, after@),
{
    proof {
        lemma_find_char(after@, '[');
    }
    match find_char_in(&after, '[') {
        Some(ls) => {
            let tail = slice_chars(&after, ls, after.len());
            assert(tail@ =~= after@.skip(ls as int));
            proof {
                lemma_find_char(tail@, ']');
            }
            match find_char_in(&tail, ']') {
                Some(le) => {
                    assert(tail@[0] == '[');
                    let raw = slice_chars(&after, ls + 1, ls + le);
                    let level = raw_level_exec(&raw);
                    let rest = slice_chars(&after, ls + le + 1, after.len());
                    assert(rest@ =~= after@.skip(ls + le + 1));
                    (ts, level, trim_chars(&rest))
                },
                None => (ts, to_chars("N/A"), after),
            }
        },
        None => (ts, to_chars("N/A"), after),
    }
}

/// Timestamp, level and message of a trimmed line.
fn line_header_exec(t: &Vec<char>) -> (r: (Vec<char>, Vec<char>, Vec<char>))
    requires
        has_date_prefix(t@) ==> chars_for_bytes(t@, date_bytes()) is Some,
    ensures
        (r.0@, r.1@, r.2@) == line_header(t@),
{
    if t.len() > 0 && t[0] == '[' {
        proof {
            lemma_find_char(t@, ']');
        }
        match find_char_in(t, ']') {
            Some(e) => {
                let after = slice_chars(t, e + 1, t.len());
                assert(after@ =~= t@.skip(e + 1));
                let msg = trim_chars(&after);
                let ts_raw = slice_chars(t, 1, e);
                let ts = trim_chars(&ts_raw);
                let level = if starts_with_exec(&msg, &to_chars("EVENT:")) {
                    to_chars("INFO")
                } else {
                    to_chars("N/A")
                };
                (ts, level, msg)
            },
            None => (to_chars("N/A"), to_chars("N/A"), slice_chars(t, 0, t.len())),
        }
    } else {
        match date_prefix_chars(t) {
            Some(Some(k)) => {
                proof {
                    lemma_chars_for_bytes_range(t@, date_bytes());
                }
                let ts = slice_chars(t, 0, k);
                assert(ts@ =~= t@.take(k as int));
                let after_raw = slice_chars(t, k, t.len());
                assert(after_raw@ =~= t@.skip(k as int));
                let after = trim_chars(&after_raw);
                date_header_exec(ts, after)
            },
            _ => {
                let whole = slice_chars(t, 0, t.len());
                assert(whole@ =~= t@);
                (to_chars("N/A"), to_chars("N/A"), whole)
            },
        }
    }
}

proof fn lemma_chars_for_bytes_range(s: Seq<char>, b: int)
    ensures
        chars_for_bytes(s, b) matches Some(k) ==> 0 <= k <= s.len(),
    decreases s.len(),
{
    if b != 0 && !(b < 0 || s.len() == 0) {
        lemma_chars_for_bytes_range(s.drop_first(), b - utf8_width(s[0]));
    }
}

/// Adds the detail that `piece` gives, if any.
fn add_piece(details: &mut Vec<(String, String)>, piece: &Vec<char>)
    requires
        keys_distinct(old(details)@),
    ensures
        keys_distinct(final(details)@),
        pairs_map(final(details)@) == match detail_pair(piece@) {
            Some(kv) => pairs_map(old(details)@).insert(kv.0, kv.1),
            None => pairs_map(old(details)@),
        },
{
    proof {
        lemma_find_char(piece@, ':');
    }
    match find_char_in(piece, ':') {
        Some(j) => {
            let k = slice_chars(piece, 0, j);
            let v = slice_chars(piece, j + 1, piece.len());
            assert(v@ =~= piece@.skip(j + 1));
            let key = string_from_chars(&trim_chars(&k));
            let value = string_from_chars(&trim_chars(&v));
            insert_detail(details, key, value);
        },
        None => {},
    }
}

/// The details of the `;`-separated pieces of `rest`.
fn details_exec(rest: &Vec<char>) -> (r: Vec<(String, String)>)
    ensures
        keys_distinct(r@),
        pairs_map(r@) == details_of(split_char(rest@, ';')),
{
    let mut out: Vec<(String, String)> = Vec::new();
    let mut cur = slice_chars(rest, 0, rest.len());
    let ghost mut done: Seq<Seq<char>> = Seq::empty();
    assert(cur@ =~= rest@);
    assert(done + split_char(cur@, ';') =~= split_char(rest@, ';'));
    loop
        invariant_except_break
            split_char(rest@, ';') == done + split_char(cur@, ';'),
            pairs_map(out@) == details_of(done),
        invariant
            keys_distinct(out@),
        ensures
            pairs_map(out@) == details_of(split_char(rest@, ';')),
            keys_distinct(out@),
        decreases cur.len(),
    {
        proof {
            lemma_find_char(cur@, ';');
        }
        match find_char_in(&cur, ';') {
            Some(i) => {
                let piece = slice_chars(&cur, 0, i);
                assert(piece@ =~= cur@.take(i as int));
                add_piece(&mut out, &piece);
                let next = slice_chars(&cur, i + 1, cur.len());
                assert(next@ =~= cur@.skip(i + 1));
                proof {
                    let d2 = done.push(piece@);
                    assert(d2.drop_last() =~= done);
                    assert(split_char(cur@, ';') == seq![piece@] + split_char(next@, ';'));
                    assert(done + split_char(cur@, ';') =~= d2 + split_char(next@, ';'));
                    done = d2;
                }
                cur = next;
            },
            None => {
                add_piece(&mut out, &cur);
                proof {
                    let d2 = done.push(cur@);
                    assert(d2.drop_last() =~= done);
                    assert(split_char(cur@, ';') == seq![cur@]);
                    assert(done + split_char(cur@, ';') =~= d2);
                    done = d2;
                }
                break;
            },
        }
    }
    out
}

fn path_details_exec(msg: &Vec<char>) -> (r: Vec<(String, String)>)
    ensures
        keys_distinct(r@),
        pairs_map(r@) == path_details(msg@),
{
    let mut out: Vec<(String, String)> = Vec::new();
    proof {
        lemma_find_char(msg@, '"');
    }
    match find_char_in(msg, '"') {
        Some(i) => {
            assert(find_char(msg@, '"') == Some(i as int));
            assert(i < msg.len());
            let pr = slice_chars(msg, i + 1, msg.len());
            assert(pr@ =~= msg@.skip(i + 1));
            proof {
                lemma_find_char(pr@, '"');
            }
            match find_char_in(&pr, '"') {
                Some(j) => {
                    let val = slice_chars(&pr, 0, j);
                    assert(val@ =~= pr@.take(j as int));
                    insert_detail(&mut out, "Path".to_string(), string_from_chars(&val));
                    assert(pairs_map(out@) =~= path_details(msg@));
                },
                None => {
                    assert(pairs_map(out@) =~= path_details(msg@));
                },
            }
        },
        None => {
            assert(pairs_map(out@) =~= path_details(msg@));
        },
    }
    out
}

/// Event, details and level of a message.
fn line_body_exec(level: Vec<char>, msg: &Vec<char>) -> (r: (Vec<char>, Vec<(String, String)>, Vec<char>))
    ensures
        keys_distinct(r.1@),
        (r.0@, pairs_map(r.1@), r.2@) == line_body(level@, msg@),
{
    let ev_pat = to_chars("EVENT:");
    if starts_with_exec(msg, &ev_pat) {
        proof {
            reveal_strlit("EVENT:");
        }
        let stripped = trim_start_matches_exec(msg, &ev_pat);
        let ed = trim_chars(&stripped);
        let sep = to_chars("; ");
        proof {
            lemma_find_str(ed@, sep@);
            reveal_strlit("; ");
        }
        match find_str_in(&ed, &sep) {
            Some(i) => {
                let ev_raw = slice_chars(&ed, 0, i);
                assert(ev_raw@ =~= ed@.take(i as int));
                let rest = slice_chars(&ed, i + 2, ed.len());
                assert(rest@ =~= ed@.skip(i + 2));
                let det = details_exec(&rest);
                (trim_chars(&ev_raw), det, level)
            },
            None => {
                let det: Vec<(String, String)> = Vec::new();
                assert(pairs_map(det@) =~= Map::empty());
                (trim_chars(&ed), det, level)
            },
        }
    } else {
        let marker = to_chars("Logger inicializiran na");
        if find_str_in(msg, &marker).is_some() {
            let det = path_details_exec(msg);
            let na_chars = to_chars("N/A");
            let mut same = level.len() == na_chars.len();
            let mut i: usize = 0;
            while same && i < level.len()
                invariant
                    same ==> level@.len() == na_chars@.len(),
                    same ==> forall|j: int| 0 <= j < i ==> level@[j] == na_chars@[j],
                    !same ==> level@ != na_chars@,
                    i <= level.len(),
                decreases level.len() - i,
            {
                if level[i] != na_chars[i] {
                    same = false;
                }
                i = i + 1;
            }
            if same {
                assert(level@ =~= na_chars@);
            }
            let lvl = if same {
                to_chars("INFO")
            } else {
                level
            };
            (to_chars("Logger Initialization"), det, lvl)
        } else {
            let det: Vec<(String, String)> = Vec::new();
            assert(pairs_map(det@) =~= Map::empty());
            (slice_chars(msg, 0, msg.len()), det, level)
        }
    }
}


/// The entry that a trimmed, non-blank line gives.
fn parse_line_exec(t: &Vec<char>) -> (r: LogEntry)
    requires
        has_date_prefix(t@) ==> chars_for_bytes(t@, date_bytes()) is Some,
    ensures
        r@ == parse_line(t@),
        r.well_formed(),
{
    let (ts, lvl, msg) = line_header_exec(t);
    let (ev, details, lvl2) = line_body_exec(lvl, &msg);
    let upper = to_uppercase(string_from_chars(&lvl2).as_str());
    let upper_chars = to_chars(upper.as_str());
    let level = trim_brackets_chars(&upper_chars);
    LogEntry {
        timestamp: string_from_chars(&ts),
        level: string_from_chars(&level),
        event: string_from_chars(&ev),
        details,
    }
}

/// The views of a sequence of entries.
pub open spec fn entries_view(v: Seq<LogEntry>) -> Seq<LogEntryView> {
    v.map_values(|e: LogEntry| e@)
}

/// Reads the log file's content back into entries: one per line that is
/// not blank once trimmed, in order, each as [`parse_line`] gives it.
pub fn get_formatted_logs(content: &str) -> (r: Vec<LogEntry>)
    requires
        log_readable(content@),
    ensures
        entries_view(r@) == parse_log(content@),
        forall|i: int| 0 <= i < r@.len() ==> (#[trigger] r@[i]).well_formed(),
{
    let chars = to_chars(content);
    let mut out: Vec<LogEntry> = Vec::new();
    let mut cur = slice_chars(&chars, 0, chars.len());
    let ghost mut done: Seq<Seq<char>> = Seq::empty();
    assert(cur@ =~= content@);
    assert(done + split_char(cur@, '\n') =~= split_char(content@, '\n'));
    loop
        invariant_except_break
            split_char(content@, '\n') == done + split_char(cur@, '\n'),
            entries_view(out@) == entries_of(done),
        invariant
            log_readable(content@),
            forall|i: int| 0 <= i < out@.len() ==> (#[trigger] out@[i]).well_formed(),
        ensures
            entries_view(out@) == parse_log(content@),
            forall|i: int| 0 <= i < out@.len() ==> (#[trigger] out@[i]).well_formed(),
        decreases cur.len(),
    {
        proof {
            lemma_find_char(cur@, '\n');
        }
        let found = find_char_in(&cur, '\n');
        let line = match found {
            Some(i) => slice_chars(&cur, 0, i),
            None => slice_chars(&cur, 0, cur.len()),
        };
        proof {
            assert(split_char(cur@, '\n')[0] == line@);
            assert(split_char(content@, '\n')[done.len() as int] == line@);
            assert(line_readable(split_char(content@, '\n')[done.len() as int]));
        }
        let t = trim_chars(&line);
        let ghost before = out@;
        if t.len() > 0 {
            let e = parse_line_exec(&t);
            out.push(e);
        }
        proof {
            let d2 = done.push(line@);
            assert(d2.drop_last() =~= done);
            assert(d2.last() == line@);
            if t@.len() > 0 {
                assert(entries_view(out@) =~= entries_view(before).push(parse_line(t@)));
            } else {
                assert(out@ == before);
            }
            assert(entries_view(out@) == entries_of(d2));
        }
        match found {
            Some(i) => {
                let next = slice_chars(&cur, i + 1, cur.len());
                proof {
                    assert(next@ =~= cur@.skip(i + 1));
                    assert(line@ =~= cur@.take(i as int));
                    let d2 = done.push(line@);
                    assert(split_char(cur@, '\n') == seq![line@] + split_char(next@, '\n'));
                    assert(done + split_char(cur@, '\n') =~= d2 + split_char(next@, '\n'));
                    done = d2;
                }
                cur = next;
            },
            None => {
                proof {
                    let d2 = done.push(line@);
                    assert(line@ =~= cur@);
                    assert(split_char(cur@, '\n') == seq![cur@]);
                    assert(done + split_char(cur@, '\n') =~= d2);
                    done = d2;
                }
                break;
            },
        }
    }
    out
}

/// Whether every line of `content` can be read by [`get_formatted_logs`].
pub fn log_is_readable(content: &str) -> (r: bool)
    ensures
        r == log_readable(content@),
{
    let chars = to_chars(content);
    let mut cur = slice_chars(&chars, 0, chars.len());
    let ghost mut done: Seq<Seq<char>> = Seq::empty();
    assert(cur@ =~= content@);
    assert(done + split_char(cur@, '\n') =~= split_char(content@, '\n'));
    loop
        invariant_except_break
            split_char(content@, '\n') == done + split_char(cur@, '\n'),
        invariant
            forall|i: int| 0 <= i < done.len() ==> line_readable(#[trigger] done[i]),
        ensures
            log_readable(content@),
        decreases cur.len(),
    {
        proof {
            lemma_find_char(cur@, '\n');
        }
        let found = find_char_in(&cur, '\n');
        let line = match found {
            Some(i) => slice_chars(&cur, 0, i),
            None => slice_chars(&cur, 0, cur.len()),
        };
        proof {
            assert(split_char(cur@, '\n')[0] == line@);
            assert(split_char(content@, '\n')[done.len() as int] == line@);
        }
        let t = trim_chars(&line);
        match date_prefix_chars(&t) {
            Some(None) => {
                proof {
                    assert(!line_readable(split_char(content@, '\n')[done.len() as int]));
                }
                return false;
            },
            _ => {},
        }
        match found {
            Some(i) => {
                let next = slice_chars(&cur, i + 1, cur.len());
                proof {
                    assert(next@ =~= cur@.skip(i + 1));
                    assert(line@ =~= cur@.take(i as int));
                    let d2 = done.push(line@);
                    assert(split_char(cur@, '\n') == seq![line@] + split_char(next@, '\n'));
                    assert(done + split_char(cur@, '\n') =~= d2 + split_char(next@, '\n'));
                    assert forall|i: int| 0 <= i < d2.len() implies line_readable(#[trigger] d2[i]) by {
                        if i < done.len() {
                            assert(d2[i] == done[i]);
                        }
                    }
                    done = d2;
                }
                cur = next;
            },
            None => {
                proof {
                    let d2 = done.push(line@);
                    assert(line@ =~= cur@);
                    assert(split_char(cur@, '\n') == seq![cur@]);
                    assert(done + split_char(cur@, '\n') =~= d2);
                    assert forall|i: int| 0 <= i < d2.len() implies line_readable(#[trigger] d2[i]) by {
                        if i < done.len() {
                            assert(d2[i] == done[i]);
                        }
                    }
                    assert(split_char(content@, '\n') == d2);
                }
                break;
            },
        }
    }
    true
}

} // verus!
