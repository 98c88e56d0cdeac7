//! Character-sequence operations on text, modelled on the `str` methods the
//! library relies on (`trim`, `find`, `split`, `starts_with`, ...).

use vstd::prelude::*;

verus! {

/// Unicode `White_Space`, the property that `char::is_whitespace` tests.
pub open spec fn is_ws(c: char) -> bool {
    let u = c as u32;
    (0x09 <= u && u <= 0x0d) || u == 0x20 || u == 0x85 || u == 0xa0 || u == 0x1680 || (0x2000
        <= u && u <= 0x200a) || u == 0x2028 || u == 0x2029 || u == 0x202f || u == 0x205f || u
        == 0x3000
}

/// Whether `c` is whitespace in the sense of `char::is_whitespace`.
pub fn is_whitespace(c: char) -> (r: bool)
    ensures
        r == is_ws(c),
{
    let u = c as u32;
    (0x09 <= u && u <= 0x0d) || u == 0x20 || u == 0x85 || u == 0xa0 || u == 0x1680 || (0x2000
        <= u && u <= 0x200a) || u == 0x2028 || u == 0x2029 || u == 0x202f || u == 0x205f || u
        == 0x3000
}

/// `s` without its leading whitespace.
pub open spec fn trim_start(s: Seq<char>) -> Seq<char>
    decreases s.len(),
{
    if s.len() > 0 && is_ws(s[0]) {
        trim_start(s.drop_first())
    } else {
        s
    }
}

/// `s` without its trailing whitespace.
pub open spec fn trim_end(s: Seq<char>) -> Seq<char>
    decreases s.len(),
{
    if s.len() > 0 && is_ws(s.last()) {
        trim_end(s.drop_last())
    } else {
        s
    }
}

/// `s` without leading and trailing whitespace, as `str::trim` gives it.
pub open spec fn trim(s: Seq<char>) -> Seq<char> {
    trim_end(trim_start(s))
}

/// The characters of `s`, in order.
pub fn to_chars(s: &str) -> (r: Vec<char>)
    ensures
        r@ == s@,
{
    let mut r: Vec<char> = Vec::new();
    for c in it: s.chars()
        invariant
            it.seq() == s@,
            r@ == it.seq().take(it.index() as int),
    {
        r.push(c);
    }
    r
}


/// The first position of `c` in `s`, as `str::find` with a `char` pattern.
pub open spec fn find_char(s: Seq<char>, c: char) -> Option<int>
    decreases s.len(),
{
    if s.len() == 0 {
        None
    } else if s[0] == c {
        Some(0)
    } else {
        match find_char(s.drop_first(), c) {
            Some(i) => Some(i + 1),
            None => None,
        }
    }
}

/// What `find_char` gives: the least position holding `c`, or none.
pub proof fn lemma_find_char(s: Seq<char>, c: char)
    ensures
        match find_char(s, c) {
            Some(i) => 0 <= i < s.len() && s[i] == c && forall|j: int| 0 <= j < i ==> s[j] != c,
            None => forall|j: int| 0 <= j < s.len() ==> s[j] != c,
        },
    decreases s.len(),
{
    if s.len() > 0 && s[0] != c {
        lemma_find_char(s.drop_first(), c);
        match find_char(s.drop_first(), c) {
            Some(i) => {
                assert forall|j: int| 0 <= j < i + 1 implies s[j] != c by {
                    if j > 0 {
                        assert(s[j] == s.drop_first()[j - 1]);
                    }
                }
            },
            None => {
                assert forall|j: int| 0 <= j < s.len() implies s[j] != c by {
                    if j > 0 {
                        assert(s[j] == s.drop_first()[j - 1]);
                    }
                }
            },
        }
    }
}

/// Whether `s` begins with `p`, as `str::starts_with`.
pub open spec fn starts_with(s: Seq<char>, p: Seq<char>) -> bool {
    p.len() <= s.len() && s.take(p.len() as int) == p
}

/// The first position at which `p` occurs in `s`, as `str::find` with a
/// string pattern.
pub open spec fn find_str(s: Seq<char>, p: Seq<char>) -> Option<int>
    decreases s.len(),
{
    if s.len() < p.len() {
        None
    } else if starts_with(s, p) {
        Some(0)
    } else if s.len() == 0 {
        None
    } else {
        match find_str(s.drop_first(), p) {
            Some(i) => Some(i + 1),
            None => None,
        }
    }
}

/// Whether `p` occurs in `s`, as `str::contains`.
pub open spec fn contains_str(s: Seq<char>, p: Seq<char>) -> bool {
    find_str(s, p) is Some
}

/// Whether `p` occurs in `s` at position `i`.
pub open spec fn occurs_at(s: Seq<char>, p: Seq<char>, i: int) -> bool {
    0 <= i && i + p.len() <= s.len() && s.subrange(i, i + p.len()) == p
}

/// What `find_str` gives: the least position at which `p` occurs, or none.
pub proof fn lemma_find_str(s: Seq<char>, p: Seq<char>)
    ensures
        match find_str(s, p) {
            Some(i) => occurs_at(s, p, i) && forall|j: int| 0 <= j < i ==> !occurs_at(s, p, j),
            None => forall|j: int| !occurs_at(s, p, j),
        },
    decreases s.len(),
{
    if s.len() < p.len() {
    } else if starts_with(s, p) {
        assert(s.subrange(0, p.len() as int) == s.take(p.len() as int));
    } else if s.len() == 0 {
        assert(s.take(p.len() as int) =~= p);
    } else {
        let t = s.drop_first();
        lemma_find_str(t, p);
        assert(s.subrange(0, p.len() as int) == s.take(p.len() as int));
        assert forall|j: int| 0 < j && j + p.len() <= s.len() implies (occurs_at(s, p, j)
            <==> occurs_at(t, p, j - 1)) by {
            assert(s.subrange(j, j + p.len()) =~= t.subrange(j - 1, j - 1 + p.len()));
        }
        match find_str(t, p) {
            Some(i) => {
                assert forall|j: int| 0 <= j < i + 1 implies !occurs_at(s, p, j) by {
                    if j > 0 {
                        assert(!occurs_at(t, p, j - 1));
                    }
                }
            },
            None => {
                assert forall|j: int| !occurs_at(s, p, j) by {
                    if j > 0 && j + p.len() <= s.len() {
                        assert(!occurs_at(t, p, j - 1));
                    }
                }
            },
        }
    }
}

/// `s` with every leading copy of `p` removed, as `str::trim_start_matches`
/// with a string pattern.
pub open spec fn trim_start_matches(s: Seq<char>, p: Seq<char>) -> Seq<char>
    decreases s.len(),
{
    if p.len() > 0 && starts_with(s, p) {
        trim_start_matches(s.skip(p.len() as int), p)
    } else {
        s
    }
}

/// The pieces of `s` between the occurrences of `c`, as `str::split` with a
/// `char` pattern.
pub open spec fn split_char(s: Seq<char>, c: char) -> Seq<Seq<char>>
    decreases s.len(),
{
    match find_char(s, c) {
        Some(i) => {
            proof {
                lemma_find_char(s, c);
            }
            seq![s.take(i)] + split_char(s.skip(i + 1), c)
        },
        None => seq![s],
    }
}

/// `s` without the leading and trailing characters that are `[`, `]` or a
/// space, as `str::trim_matches` with that character set.
pub open spec fn is_bracket_or_space(c: char) -> bool {
    c == '[' || c == ']' || c == ' '
}

/// `s` without its leading characters of the class (whitespace, or the
/// bracket-or-space set).
pub open spec fn strip_start(s: Seq<char>, ws: bool) -> Seq<char>
    decreases s.len(),
{
    if s.len() > 0 && (if ws { is_ws(s[0]) } else { is_bracket_or_space(s[0]) }) {
        strip_start(s.drop_first(), ws)
    } else {
        s
    }
}

/// `s` without its trailing characters of the class.
pub open spec fn strip_end(s: Seq<char>, ws: bool) -> Seq<char>
    decreases s.len(),
{
    if s.len() > 0 && (if ws { is_ws(s.last()) } else { is_bracket_or_space(s.last()) }) {
        strip_end(s.drop_last(), ws)
    } else {
        s
    }
}

/// `s` without `[`, `]` and spaces at either end.
pub open spec fn trim_brackets(s: Seq<char>) -> Seq<char> {
    strip_end(strip_start(s, false), false)
}

/// Whether `c` belongs to the class that `strip_start` and `strip_end` remove.
pub open spec fn in_class(c: char, ws: bool) -> bool {
    if ws {
        is_ws(c)
    } else {
        is_bracket_or_space(c)
    }
}

proof fn lemma_strip_start_skip(s: Seq<char>, i: int, ws: bool)
    requires
        0 <= i <= s.len(),
        forall|j: int| 0 <= j < i ==> in_class(s[j], ws),
    ensures
        strip_start(s, ws) == strip_start(s.subrange(i, s.len() as int), ws),
    decreases i,
{
    if i == 0 {
        assert(s.subrange(0, s.len() as int) =~= s);
    } else {
        assert(in_class(s[0], ws));
        let t = s.drop_first();
        assert forall|j: int| 0 <= j < i - 1 implies in_class(t[j], ws) by {
            assert(t[j] == s[j + 1]);
        }
        lemma_strip_start_skip(t, i - 1, ws);
        assert(t.subrange(i - 1, t.len() as int) =~= s.subrange(i, s.len() as int));
    }
}

proof fn lemma_strip_end_take(s: Seq<char>, k: int, ws: bool)
    requires
        0 <= k <= s.len(),
        forall|j: int| k <= j < s.len() ==> in_class(s[j], ws),
    ensures
        strip_end(s, ws) == strip_end(s.subrange(0, k), ws),
    decreases s.len() - k,
{
    if k == s.len() {
        assert(s.subrange(0, k) =~= s);
    } else {
        assert(in_class(s.last(), ws));
        let t = s.drop_last();
        lemma_strip_end_take(t, k, ws);
        assert(t.subrange(0, k) =~= s.subrange(0, k));
    }
}

/// The characters `v[from..to]`.
pub fn slice_chars(v: &Vec<char>, from: usize, to: usize) -> (r: Vec<char>)
    requires
        from <= to <= v.len(),
    ensures
        r@ == v@.subrange(from as int, to as int),
{
    let mut r: Vec<char> = Vec::new();
    let mut i = from;
    while i < to
        invariant
            from <= i <= to <= v.len(),
            r@ == v@.subrange(from as int, i as int),
        decreases to - i,
    {
        r.push(v[i]);
        i = i + 1;
        assert(r@ =~= v@.subrange(from as int, i as int));
    }
    r
}

fn in_class_exec(c: char, ws: bool) -> (r: bool)
    ensures
        r == in_class(c, ws),
{
    if ws {
        is_whitespace(c)
    } else {
        c == '[' || c == ']' || c == ' '
    }
}

/// `v` without the leading and trailing characters of the class.
fn strip_both(v: &Vec<char>, ws: bool) -> (r: Vec<char>)
    ensures
        r@ == strip_end(strip_start(v@, ws), ws),
{
    let n = v.len();
    let mut i: usize = 0;
    while i < n && in_class_exec(v[i], ws)
        invariant
            i <= n == v.len(),
            forall|j: int| 0 <= j < i ==> in_class(v@[j], ws),
        decreases n - i,
    {
        i = i + 1;
    }
    proof {
        lemma_strip_start_skip(v@, i as int, ws);
    }
    let ghost t = v@.subrange(i as int, n as int);
    assert(t.len() == 0 || !in_class(t[0], ws));
    assert(strip_start(t, ws) == t);
    let mut k: usize = n;
    while k > i && in_class_exec(v[k - 1], ws)
        invariant
            i <= k <= n == v.len(),
            forall|j: int| k <= j < n ==> in_class(v@[j], ws),
        decreases k,
    {
        k = k - 1;
    }
    proof {
        assert forall|j: int| k - i <= j < t.len() implies in_class(t[j], ws) by {
            assert(t[j] == v@[j + i]);
        }
        lemma_strip_end_take(t, k - i, ws);
        let u = t.subrange(0, k - i);
        assert(u =~= v@.subrange(i as int, k as int));
        if u.len() > 0 {
            assert(u.last() == v@[k - 1]);
        }
        assert(strip_end(u, ws) == u);
    }
    slice_chars(v, i, k)
}

/// `str::trim` on characters.
pub fn trim_chars(v: &Vec<char>) -> (r: Vec<char>)
    ensures
        r@ == trim(v@),
{
    proof {
        lemma_strip_ws(v@);
    }
    strip_both(v, true)
}

/// `str::trim_matches` with the set `[`, `]`, space, on characters.
pub fn trim_brackets_chars(v: &Vec<char>) -> (r: Vec<char>)
    ensures
        r@ == trim_brackets(v@),
{
    strip_both(v, false)
}

/// With the whitespace class, `strip_start` and `strip_end` are `trim_start`
/// and `trim_end`.
pub proof fn lemma_strip_ws(s: Seq<char>)
    ensures
        strip_start(s, true) == trim_start(s),
        strip_end(s, true) == trim_end(s),
        strip_end(strip_start(s, true), true) == trim(s),
    decreases s.len(),
{
    if s.len() > 0 {
        lemma_strip_ws(s.drop_first());
        lemma_strip_ws(s.drop_last());
    }
    lemma_strip_end_ws(trim_start(s));
}

proof fn lemma_strip_end_ws(s: Seq<char>)
    ensures
        strip_end(s, true) == trim_end(s),
    decreases s.len(),
{
    if s.len() > 0 {
        lemma_strip_end_ws(s.drop_last());
    }
}


/// Converts an optional position to the spec's `Option<int>`.
pub open spec fn opt_int(o: Option<usize>) -> Option<int> {
    match o {
        Some(i) => Some(i as int),
        None => None,
    }
}

/// `str::find` with a `char` pattern, on characters.
pub fn find_char_in(v: &Vec<char>, c: char) -> (r: Option<usize>)
    ensures
        opt_int(r) == find_char(v@, c),
{
    proof {
        lemma_find_char(v@, c);
    }
    let mut i: usize = 0;
    while i < v.len()
        invariant
            i <= v.len(),
            forall|j: int| 0 <= j < i ==> v@[j] != c,
        decreases v.len() - i,
    {
        if v[i] == c {
            proof {
                lemma_find_char(v@, c);
                let k = find_char(v@, c)->0;
                assert(k == i as int) by {
                    if k < i {
                        assert(v@[k] != c);
                    }
                    if k > i {
                        assert(v@[i as int] != c);
                    }
                }
            }
            return Some(i);
        }
        i = i + 1;
    }
    None
}

/// Whether `p` occurs in `v` at position `i`.
pub fn occurs_at_exec(v: &Vec<char>, p: &Vec<char>, i: usize) -> (r: bool)
    requires
        i <= v.len(),
    ensures
        r == occurs_at(v@, p@, i as int),
{
    if p.len() > v.len() - i {
        return false;
    }
    let mut k: usize = 0;
    while k < p.len()
        invariant
            k <= p.len(),
            i + p.len() <= v.len(),
            forall|j: int| 0 <= j < k ==> v@[i + j] == p@[j],
        decreases p.len() - k,
    {
        if v[i + k] != p[k] {
            assert(v@.subrange(i as int, i + p.len())[k as int] != p@[k as int]);
            return false;
        }
        k = k + 1;
    }
    assert(v@.subrange(i as int, i + p.len()) =~= p@);
    true
}

/// `str::find` with a string pattern, on characters.
pub fn find_str_in(v: &Vec<char>, p: &Vec<char>) -> (r: Option<usize>)
    ensures
        opt_int(r) == find_str(v@, p@),
{
    proof {
        lemma_find_str(v@, p@);
    }
    if p.len() > v.len() {
        return None;
    }
    let mut i: usize = 0;
    loop
        invariant
            p.len() <= v.len(),
            i <= v.len() - p.len(),
            forall|j: int| 0 <= j < i ==> !occurs_at(v@, p@, j),
        ensures
            forall|j: int| 0 <= j <= v.len() - p.len() ==> !occurs_at(v@, p@, j),
        decreases v.len() - p.len() - i,
    {
        if occurs_at_exec(v, p, i) {
            proof {
                lemma_find_str(v@, p@);
                let k = find_str(v@, p@)->0;
                assert(k == i as int) by {
                    if k < i {
                        assert(!occurs_at(v@, p@, k));
                    }
                    if k > i {
                        assert(!occurs_at(v@, p@, i as int));
                    }
                }
            }
            return Some(i);
        }
        if i == v.len() - p.len() {
            break;
        }
        i = i + 1;
    }
    proof {
        lemma_find_str(v@, p@);
        if find_str(v@, p@) is Some {
            let k = find_str(v@, p@)->0;
            assert(occurs_at(v@, p@, k));
        }
    }
    None
}

/// `str::starts_with`, on characters.
pub fn starts_with_exec(v: &Vec<char>, p: &Vec<char>) -> (r: bool)
    ensures
        r == starts_with(v@, p@),
{
    let r = occurs_at_exec(v, p, 0);
    proof {
        if p@.len() <= v@.len() {
            assert(v@.subrange(0, p@.len() as int) == v@.take(p@.len() as int));
        }
    }
    r
}

/// `str::trim_start_matches` with a non-empty string pattern, on characters.
pub fn trim_start_matches_exec(v: &Vec<char>, p: &Vec<char>) -> (r: Vec<char>)
    requires
        p.len() > 0,
    ensures
        r@ == trim_start_matches(v@, p@),
{
    let mut cur = slice_chars(v, 0, v.len());
    assert(cur@ =~= v@);
    while starts_with_exec(&cur, p)
        invariant
            p.len() > 0,
            trim_start_matches(cur@, p@) == trim_start_matches(v@, p@),
        decreases cur.len(),
    {
        cur = slice_chars(&cur, p.len(), cur.len());
    }
    cur
}

/// Makes a `String` of the characters of `v` (`String: FromIterator<char>`).
#[verifier::external_body]
pub(crate) fn string_from_chars(v: &Vec<char>) -> (r: String)
    ensures
        r@ == v@,
{
    v.iter().collect()
}


/// Whether `c` occurs in `s`.
pub open spec fn has_char(s: Seq<char>, c: char) -> bool {
    exists|i: int| 0 <= i < s.len() && s[i] == c
}

/// The first `c` in `a + [c] + b` is the one after `a` when `a` has none.
pub proof fn lemma_find_char_after(a: Seq<char>, c: char, b: Seq<char>)
    requires
        !has_char(a, c),
    ensures
        find_char(a + seq![c] + b, c) == Some(a.len() as int),
{
    let s = a + seq![c] + b;
    lemma_find_char(s, c);
    assert(s[a.len() as int] == c);
    match find_char(s, c) {
        Some(i) => {
            if i < a.len() {
                assert(s[i] == a[i]);
            }
        },
        None => {},
    }
}

/// A sequence without `c` has no `c` to find.
pub proof fn lemma_find_char_none(a: Seq<char>, c: char)
    requires
        !has_char(a, c),
    ensures
        find_char(a, c) is None,
{
    lemma_find_char(a, c);
}

/// Splitting at `c` a sequence without `c` gives it whole.
pub proof fn lemma_split_none(a: Seq<char>, c: char)
    requires
        !has_char(a, c),
    ensures
        split_char(a, c) == seq![a],
{
    lemma_find_char_none(a, c);
}

/// Splitting `a + [c] + b` at `c` gives the pieces of `a` and then those of
/// `b`.
pub proof fn lemma_split_concat(a: Seq<char>, c: char, b: Seq<char>)
    ensures
        split_char(a + seq![c] + b, c) == split_char(a, c) + split_char(b, c),
    decreases a.len(),
{
    let s = a + seq![c] + b;
    if !has_char(a, c) {
        lemma_find_char_after(a, c, b);
        lemma_split_none(a, c);
        assert(s.take(a.len() as int) =~= a);
        assert(s.skip(a.len() as int + 1) =~= b);
    } else {
        lemma_find_char(a, c);
        let i = find_char(a, c)->0;
        lemma_find_char(s, c);
        let j = find_char(s, c)->0;
        assert(s[i] == c);
        assert(j == i) by {
            if j < i {
                assert(s[j] == a[j]);
            }
        }
        assert(s.take(i) =~= a.take(i));
        assert(s.skip(i + 1) =~= a.skip(i + 1) + seq![c] + b);
        lemma_split_concat(a.skip(i + 1), c, b);
        assert(split_char(a, c) == seq![a.take(i)] + split_char(a.skip(i + 1), c));
        assert(split_char(s, c) =~= split_char(a, c) + split_char(b, c));
    }
}

/// `trim_end(a + b)` keeps `a` when `b` holds a non-whitespace character
/// or `a` ends with one.
pub proof fn lemma_trim_end_concat(a: Seq<char>, b: Seq<char>)
    requires
        (a.len() > 0 && !is_ws(a.last())) || exists|i: int| 0 <= i < b.len() && !is_ws(b[i]),
    ensures
        trim_end(a + b) == a + trim_end(b),
    decreases b.len(),
{
    if b.len() == 0 {
        assert(a + b =~= a);
        if exists|i: int| 0 <= i < b.len() && !is_ws(b[i]) {
        }
        assert(trim_end(a) == a);
    } else if is_ws(b.last()) {
        assert((a + b).drop_last() =~= a + b.drop_last());
        assert((a + b).last() == b.last());
        if exists|i: int| 0 <= i < b.len() && !is_ws(b[i]) {
            let i = choose|i: int| 0 <= i < b.len() && !is_ws(b[i]);
            assert(b.drop_last()[i] == b[i]);
        }
        lemma_trim_end_concat(a, b.drop_last());
    } else {
        assert((a + b).last() == b.last());
    }
}

/// `trim_start(a + b)` is `a + b` when `a` starts with a non-whitespace
/// character.
pub proof fn lemma_trim_start_keep(s: Seq<char>)
    requires
        s.len() == 0 || !is_ws(s[0]),
    ensures
        trim_start(s) == s,
{
}

/// `trim_end` leaves a sequence that ends with a non-whitespace character,
/// or is empty.
pub proof fn lemma_trim_end_shape(s: Seq<char>)
    ensures
        trim_end(s).len() <= s.len(),
        trim_end(s) == s.take(trim_end(s).len() as int),
        trim_end(s).len() == 0 || !is_ws(trim_end(s).last()),
        trim_end(trim_end(s)) == trim_end(s),
        forall|i: int| trim_end(s).len() <= i < s.len() ==> is_ws(s[i]),
    decreases s.len(),
{
    if s.len() > 0 && is_ws(s.last()) {
        lemma_trim_end_shape(s.drop_last());
        let t = trim_end(s.drop_last());
        assert(s.take(t.len() as int) =~= s.drop_last().take(t.len() as int));
        assert forall|i: int| t.len() <= i < s.len() implies is_ws(s[i]) by {
            if i < s.len() - 1 {
                assert(s[i] == s.drop_last()[i]);
            }
        }
    } else {
        assert(s.take(s.len() as int) =~= s);
    }
}

/// `trim_start` leaves a sequence that starts with a non-whitespace
/// character, or is empty.
pub proof fn lemma_trim_start_shape(s: Seq<char>)
    ensures
        trim_start(s).len() <= s.len(),
        trim_start(s) == s.skip(s.len() - trim_start(s).len()),
        trim_start(s).len() == 0 || !is_ws(trim_start(s)[0]),
    decreases s.len(),
{
    if s.len() > 0 && is_ws(s[0]) {
        lemma_trim_start_shape(s.drop_first());
        let t = trim_start(s.drop_first());
        assert(s.skip(s.len() - t.len()) =~= s.drop_first().skip(s.drop_first().len() - t.len()));
    } else {
        assert(s.skip(0) =~= s);
    }
}

/// A trimmed sequence starts and ends with non-whitespace characters.
pub proof fn lemma_trimmed_ends(s: Seq<char>)
    requires
        trim(s) == s,
    ensures
        trim_start(s) == s,
        trim_end(s) == s,
        s.len() == 0 || (!is_ws(s[0]) && !is_ws(s.last())),
{
    lemma_trim_start_shape(s);
    lemma_trim_end_shape(trim_start(s));
    assert(trim_start(s).len() == s.len());
    assert(trim_start(s) =~= s);
}

/// A leading space makes no difference to trimming.
pub proof fn lemma_trim_space(x: Seq<char>)
    ensures
        trim_start(seq![' '] + x) == trim_start(x),
        trim(seq![' '] + x) == trim(x),
{
    assert((seq![' '] + x).drop_first() =~= x);
}

/// Trimming the start twice is trimming it once.
pub proof fn lemma_trim_start_idem(x: Seq<char>)
    ensures
        trim_start(trim_start(x)) == trim_start(x),
{
    lemma_trim_start_shape(x);
}

/// Trimming the start of `a + b`, where `b` starts with a non-whitespace
/// character, trims only `a`.
pub proof fn lemma_trim_start_concat(a: Seq<char>, b: Seq<char>)
    requires
        b.len() > 0,
        !is_ws(b[0]),
    ensures
        trim_start(a + b) == trim_start(a) + b,
    decreases a.len(),
{
    if a.len() == 0 {
        assert(a + b =~= b);
        assert(trim_start(a) + b =~= b);
    } else if is_ws(a[0]) {
        assert((a + b).drop_first() =~= a.drop_first() + b);
        lemma_trim_start_concat(a.drop_first(), b);
    } else {
        assert((a + b)[0] == a[0]);
    }
}

/// A trailing whitespace character makes no difference to trimming.
proof fn lemma_trim_drop_ws_last(x: Seq<char>)
    requires
        x.len() > 0,
        is_ws(x.last()),
    ensures
        trim(x) == trim(x.drop_last()),
    decreases x.len(),
{
    if x.len() == 1 {
        assert(x.drop_last().len() == 0);
        assert(x.drop_first().len() == 0);
        assert(trim_start(x) == trim_start(x.drop_first()));
    } else if is_ws(x[0]) {
        assert(x.drop_first().drop_last() =~= x.drop_last().drop_first());
        assert(x.drop_first().last() == x.last());
        lemma_trim_drop_ws_last(x.drop_first());
        assert(x.drop_last()[0] == x[0]);
    } else {
        assert(x.drop_last()[0] == x[0]);
    }
}

/// Trimming the end first makes no difference to trimming.
pub proof fn lemma_trim_trim_end(x: Seq<char>)
    ensures
        trim(trim_end(x)) == trim(x),
    decreases x.len(),
{
    if x.len() > 0 && is_ws(x.last()) {
        lemma_trim_trim_end(x.drop_last());
        lemma_trim_drop_ws_last(x);
    }
}

/// Trimming a space and a trimmed sequence gives the sequence.
pub proof fn lemma_trim_space_prefix(x: Seq<char>)
    requires
        trim(x) == x,
    ensures
        trim(seq![' '] + x) == x,
        trim(trim_end(seq![' '] + x)) == x,
{
    let s = seq![' '] + x;
    assert(s.drop_first() =~= x);
    assert(trim_start(s) == trim_start(x));
    lemma_trimmed_ends(x);
    if x.len() == 0 {
        assert(s =~= seq![' ']);
        assert(s.drop_last().len() == 0);
        assert(trim_end(s) == trim_end(s.drop_last()));
        assert(trim_end(s).len() == 0);
    } else {
        lemma_trim_end_concat(seq![' '], x);
    }
}

} // verus!
