//! Reading the share list out of the text that `net view \\host` prints.

use vstd::prelude::*;

use crate::subnet::{lemma_split_nonempty, split_on};

verus! {

/// One share of a remote host.
#[derive(Debug)]
pub struct SmbShare {
    pub name: String,
    pub path: String,
    pub description: String,
}

/// Unicode `White_Space`, the characters `char::is_whitespace` accepts.
pub open spec fn is_white(c: char) -> bool {
    ('\u{9}' <= c && c <= '\u{d}') || c == ' ' || c == '\u{85}' || c == '\u{a0}' || c == '\u{1680}'
        || ('\u{2000}' <= c && c <= '\u{200a}') || c == '\u{2028}' || c == '\u{2029}' || c
        == '\u{202f}' || c == '\u{205f}' || c == '\u{3000}'
}

fn is_whitespace(c: char) -> (r: bool)
    ensures
        r == is_white(c),
{
    ('\u{9}' <= c && c <= '\u{d}') || c == ' ' || c == '\u{85}' || c == '\u{a0}' || c == '\u{1680}'
        || ('\u{2000}' <= c && c <= '\u{200a}') || c == '\u{2028}' || c == '\u{2029}' || c
        == '\u{202f}' || c == '\u{205f}' || c == '\u{3000}'
}

/// `s` without leading whitespace.
pub open spec fn trim_start(s: Seq<char>) -> Seq<char>
    decreases s.len(),
{
    if s.len() > 0 && is_white(s[0]) {
        trim_start(s.drop_first())
    } else {
        s
    }
}

/// `s` without trailing whitespace.
pub open spec fn trim_end(s: Seq<char>) -> Seq<char>
    decreases s.len(),
{
    if s.len() > 0 && is_white(s.last()) {
        trim_end(s.drop_last())
    } else {
        s
    }
}

/// `s` without leading and trailing whitespace, as `str::trim` gives it.
pub open spec fn trim(s: Seq<char>) -> Seq<char> {
    trim_end(trim_start(s))
}

/// The bounds of `t[from..to]` once trimmed.
fn trim_range(t: &Vec<char>, from: usize, to: usize) -> (r: (usize, usize))
    requires
        from <= to <= t@.len(),
    ensures
        from <= r.0 <= r.1 <= to,
        t@.subrange(r.0 as int, r.1 as int) == trim(t@.subrange(from as int, to as int)),
{
    let mut a = from;
    while a < to && is_whitespace(t[a])
        invariant
            from <= a <= to <= t@.len(),
            trim_start(t@.subrange(from as int, to as int)) == trim_start(t@.subrange(a as int, to as int)),
        decreases to - a,
    {
        assert(t@.subrange(a as int, to as int).drop_first() =~= t@.subrange(a + 1, to as int));
        a = a + 1;
    }
    assert(trim_start(t@.subrange(a as int, to as int)) == t@.subrange(a as int, to as int));
    let mut b = to;
    while b > a && is_whitespace(t[b - 1])
        invariant
            from <= a <= b <= to <= t@.len(),
            trim_end(t@.subrange(a as int, to as int)) == trim_end(t@.subrange(a as int, b as int)),
        decreases b - a,
    {
        assert(t@.subrange(a as int, b as int).drop_last() =~= t@.subrange(a as int, b - 1));
        b = b - 1;
    }
    (a, b)
}

/// `p` occurs in `s` at position `i`.
pub open spec fn occurs_at(s: Seq<char>, p: Seq<char>, i: int) -> bool {
    0 <= i && i + p.len() <= s.len() && s.subrange(i, i + p.len()) == p
}

/// The first position at or after `i` where `p` occurs in `s`.
pub open spec fn find_from(s: Seq<char>, p: Seq<char>, i: int) -> Option<int>
    decreases s.len() + 1 - i,
{
    if i < 0 || i + p.len() > s.len() {
        None
    } else if occurs_at(s, p, i) {
        Some(i)
    } else {
        find_from(s, p, i + 1)
    }
}

/// The first position where `p` occurs in `s`, as `str::find` gives it.
pub open spec fn find(s: Seq<char>, p: Seq<char>) -> Option<int> {
    find_from(s, p, 0)
}

pub open spec fn starts_with(s: Seq<char>, p: Seq<char>) -> bool {
    occurs_at(s, p, 0)
}

pub open spec fn contains(s: Seq<char>, p: Seq<char>) -> bool {
    find(s, p) is Some
}

/// Whether `p` occurs in `t[from..to]` at relative position `i`.
fn occurs_in(t: &Vec<char>, from: usize, to: usize, p: &str, i: usize) -> (r: bool)
    requires
        from <= to <= t@.len(),
    ensures
        r == occurs_at(t@.subrange(from as int, to as int), p@, i as int),
{
    let ghost s = t@.subrange(from as int, to as int);
    let m = p.unicode_len();
    if i > to - from || m > to - from - i {
        return false;
    }
    let mut k: usize = 0;
    while k < m
        invariant
            m == p@.len(),
            from <= to <= t@.len(),
            i + m <= to - from,
            s == t@.subrange(from as int, to as int),
            k <= m,
            forall|j: int| 0 <= j < k ==> s[i + j] == p@[j],
        decreases m - k,
    {
        if t[from + i + k] != p.get_char(k) {
            assert(s.subrange(i as int, i + m)[k as int] != p@[k as int]);
            return false;
        }
        k = k + 1;
    }
    assert(s.subrange(i as int, i + m) =~= p@);
    true
}

/// The first position of `p` in `t[from..to]`, relative to `from`.
fn find_in(t: &Vec<char>, from: usize, to: usize, p: &str) -> (r: Option<usize>)
    requires
        from <= to <= t@.len(),
    ensures
        match r {
            Some(i) => find(t@.subrange(from as int, to as int), p@) == Some(i as int),
            None => find(t@.subrange(from as int, to as int), p@) is None,
        },
{
    let ghost s = t@.subrange(from as int, to as int);
    let m = p.unicode_len();
    if m > to - from {
        return None;
    }
    if m == 0 {
        assert(s.subrange(0, 0) =~= p@);
        return Some(0);
    }
    let mut i: usize = 0;
    while i <= to - from - m
        invariant
            m == p@.len(),
            1 <= m <= to - from,
            from <= to <= t@.len(),
            s == t@.subrange(from as int, to as int),
            i <= to - from - m + 1,
            find(s, p@) == find_from(s, p@, i as int),
        decreases to - from - m + 1 - i,
    {
        if occurs_in(t, from, to, p, i) {
            return Some(i);
        }
        i = i + 1;
    }
    None
}

/// The non-empty pieces of `s` between non-overlapping occurrences of `p`,
/// left to right: `str::split` followed by dropping empty pieces.
pub open spec fn fields(s: Seq<char>, p: Seq<char>) -> Seq<Seq<char>>
    decreases s.len(),
{
    if p.len() > 0 && find(s, p) is Some && 0 <= find(s, p)->Some_0 && find(s, p)->Some_0 + p.len()
        <= s.len() {
        let i = find(s, p)->Some_0;
        let rest = fields(s.skip(i + p.len()), p);
        if i > 0 {
            seq![s.take(i)] + rest
        } else {
            rest
        }
    } else if s.len() > 0 {
        seq![s]
    } else {
        Seq::empty()
    }
}

/// The pieces joined with `sep` between them, as `[T]::join` gives it.
pub open spec fn join(ps: Seq<Seq<char>>, sep: Seq<char>) -> Seq<char>
    decreases ps.len(),
{
    if ps.len() == 0 {
        Seq::empty()
    } else if ps.len() == 1 {
        ps[0]
    } else {
        join(ps.drop_last(), sep) + sep + ps.last()
    }
}

proof fn lemma_find_bounds(s: Seq<char>, p: Seq<char>, i: int)
    requires
        i >= 0,
        find_from(s, p, i) is Some,
    ensures
        i <= find_from(s, p, i)->Some_0,
        find_from(s, p, i)->Some_0 + p.len() <= s.len(),
        occurs_at(s, p, find_from(s, p, i)->Some_0),
    decreases s.len() + 1 - i,
{
    if i + p.len() <= s.len() && !occurs_at(s, p, i) {
        lemma_find_bounds(s, p, i + 1);
    }
}

/// The bounds of `fields(t[from..to], p)`.
fn field_ranges(t: &Vec<char>, from: usize, to: usize, p: &str) -> (r: Vec<(usize, usize)>)
    requires
        from <= to <= t@.len(),
        p@.len() > 0,
    ensures
        r@.len() == fields(t@.subrange(from as int, to as int), p@).len(),
        forall|k: int|
            0 <= k < r@.len() ==> from <= (#[trigger] r@[k]).0 <= r@[k].1 <= to && t@.subrange(
                r@[k].0 as int,
                r@[k].1 as int,
            ) == fields(t@.subrange(from as int, to as int), p@)[k],
{
    let ghost whole = fields(t@.subrange(from as int, to as int), p@);
    let m = p.unicode_len();
    let mut r: Vec<(usize, usize)> = Vec::new();
    let mut pos = from;
    loop
        invariant_except_break
            from <= pos <= to <= t@.len(),
            m == p@.len(),
            m > 0,
            whole == fields(t@.subrange(from as int, to as int), p@),
            whole == r@.map_values(|q: (usize, usize)| t@.subrange(q.0 as int, q.1 as int)) + fields(
                t@.subrange(pos as int, to as int),
                p@,
            ),
            forall|k: int| 0 <= k < r@.len() ==> from <= (#[trigger] r@[k]).0 <= r@[k].1 <= to,
        ensures
            whole == r@.map_values(|q: (usize, usize)| t@.subrange(q.0 as int, q.1 as int)),
            forall|k: int| 0 <= k < r@.len() ==> from <= (#[trigger] r@[k]).0 <= r@[k].1 <= to,
        decreases to - pos,
    {
        let ghost rest = t@.subrange(pos as int, to as int);
        let ghost before = r@;
        match find_in(t, pos, to, p) {
            Some(i) => {
                proof {
                    lemma_find_bounds(rest, p@, 0);
                }
                assert(rest.skip(i + m) =~= t@.subrange(pos + i + m, to as int));
                if i > 0 {
                    r.push((pos, pos + i));
                    assert(rest.take(i as int) =~= t@.subrange(pos as int, pos + i));
                    assert(r@.map_values(|q: (usize, usize)| t@.subrange(q.0 as int, q.1 as int))
                        =~= before.map_values(|q: (usize, usize)| t@.subrange(q.0 as int, q.1 as int)).push(
                        rest.take(i as int)));
                    assert(seq![rest.take(i as int)] + fields(rest.skip(i + m), p@) =~= fields(rest, p@));
                    assert(whole =~= r@.map_values(|q: (usize, usize)| t@.subrange(q.0 as int, q.1 as int))
                        + fields(t@.subrange(pos + i + m, to as int), p@));
                }
                pos = pos + i + m;
            },
            None => {
                if pos < to {
                    r.push((pos, to));
                    assert(r@.map_values(|q: (usize, usize)| t@.subrange(q.0 as int, q.1 as int))
                        =~= before.map_values(|q: (usize, usize)| t@.subrange(q.0 as int, q.1 as int)).push(
                        rest));
                    assert(whole =~= r@.map_values(|q: (usize, usize)| t@.subrange(q.0 as int, q.1 as int)));
                } else {
                    assert(fields(rest, p@) =~= Seq::<Seq<char>>::empty());
                    assert(whole =~= r@.map_values(|q: (usize, usize)| t@.subrange(q.0 as int, q.1 as int)));
                }
                break ;
            },
        }
    }
    assert forall|k: int| 0 <= k < r@.len() implies t@.subrange((#[trigger] r@[k]).0 as int, r@[k].1 as int)
        == whole[k] by {
        assert(whole[k] == r@.map_values(|q: (usize, usize)| t@.subrange(q.0 as int, q.1 as int))[k]);
    }
    r
}

fn chars_of(s: &str) -> (r: Vec<char>)
    ensures
        r@ == s@,
{
    let n = s.unicode_len();
    let mut r: Vec<char> = Vec::new();
    let mut i: usize = 0;
    while i < n
        invariant
            n == s@.len(),
            i <= n,
            r@ == s@.take(i as int),
        decreases n - i,
    {
        r.push(s.get_char(i));
        assert(r@ =~= s@.take(i + 1));
        i = i + 1;
    }
    assert(s@.take(n as int) =~= s@);
    r
}

/// The text of `t[from..to]`, where `t` holds the characters of `text`.
fn piece(text: &str, t: &Vec<char>, from: usize, to: usize) -> (r: String)
    requires
        t@ == text@,
        from <= to <= t@.len(),
    ensures
        r@ == t@.subrange(from as int, to as int),
{
    text.substring_char(from, to).to_owned()
}

pub open spec fn range_texts(t: Seq<char>, rs: Seq<(usize, usize)>) -> Seq<Seq<char>> {
    rs.map_values(|q: (usize, usize)| t.subrange(q.0 as int, q.1 as int))
}

/// The pieces `ranges[start..]` of `text` joined with single spaces.
fn join_ranges(text: &str, t: &Vec<char>, ranges: &Vec<(usize, usize)>, start: usize) -> (r: String)
    requires
        t@ == text@,
        start <= ranges@.len(),
        forall|k: int| 0 <= k < ranges@.len() ==> (#[trigger] ranges@[k]).0 <= ranges@[k].1 <= t@.len(),
    ensures
        r@ == join(range_texts(t@, ranges@).skip(start as int), " "@),
{
    let ghost ps = range_texts(t@, ranges@).skip(start as int);
    let sep = " ";
    if start == ranges.len() {
        assert(ps.len() == 0);
        return String::new();
    }
    let mut acc = piece(text, t, ranges[start].0, ranges[start].1);
    assert(ps.take(1).drop_last() =~= Seq::<Seq<char>>::empty());
    let mut k: usize = start + 1;
    while k < ranges.len()
        invariant
            t@ == text@,
            start < k <= ranges@.len(),
            ps == range_texts(t@, ranges@).skip(start as int),
            forall|j: int| 0 <= j < ranges@.len() ==> (#[trigger] ranges@[j]).0 <= ranges@[j].1 <= t@.len(),
            acc@ == join(ps.take(k - start), sep@),
        decreases ranges@.len() - k,
    {
        let next = piece(text, t, ranges[k].0, ranges[k].1);
        acc = acc.concat(sep).concat(next.as_str());
        assert(ps.take(k + 1 - start).drop_last() =~= ps.take(k - start));
        assert(ps.take(k + 1 - start).last() == ps[k - start]);
        k = k + 1;
    }
    assert(ps.take(k - start) =~= ps);
    acc
}

/// Where the type column (`Disk`, `Print` or `IPC`, after two spaces)
/// starts in a listing line, with the length of the marker found. The
/// markers are tried in that order.
pub open spec fn type_column(line: Seq<char>) -> Option<(int, int)> {
    if find(line, "  Disk"@) is Some {
        Some((find(line, "  Disk"@)->Some_0, "  Disk"@.len() as int))
    } else if find(line, "  Print"@) is Some {
        Some((find(line, "  Print"@)->Some_0, "  Print"@.len() as int))
    } else if find(line, "  IPC"@) is Some {
        Some((find(line, "  IPC"@)->Some_0, "  IPC"@.len() as int))
    } else {
        None
    }
}

/// Name and description read from one listing line: the text before and
/// after the type column. Without a name there, the line is cut at runs of
/// two spaces: the first piece is the name and the pieces from the third on,
/// joined by single spaces, the description. `None` when no name is found.
pub open spec fn share_of_line(line: Seq<char>) -> Option<(Seq<char>, Seq<char>)> {
    let (n1, d1) = match type_column(line) {
        Some((pos, len)) => (trim(line.take(pos)), trim(line.skip(pos + len))),
        None => (Seq::<char>::empty(), Seq::<char>::empty()),
    };
    let parts = fields(trim(line), "  "@);
    let (n2, d2) = if n1.len() == 0 && trim(line).len() > 0 && parts.len() > 0 {
        (trim(parts[0]), if parts.len() > 2 {
            trim(join(parts.skip(2), " "@))
        } else {
            d1
        })
    } else {
        (n1, d1)
    };
    if n2.len() > 0 {
        Some((n2, d2))
    } else {
        None
    }
}

/// `text[from..to]` trimmed, as a string.
fn trimmed_piece(text: &str, t: &Vec<char>, from: usize, to: usize) -> (r: String)
    requires
        t@ == text@,
        from <= to <= t@.len(),
    ensures
        r@ == trim(t@.subrange(from as int, to as int)),
{
    let (a, b) = trim_range(t, from, to);
    piece(text, t, a, b)
}

/// `s` trimmed.
pub(crate) fn trimmed_string(s: &str) -> (r: String)
    ensures
        r@ == trim(s@),
{
    let cs = chars_of(s);
    assert(cs@.subrange(0, cs@.len() as int) =~= s@);
    trimmed_piece(s, &cs, 0, cs.len())
}

/// Name and description from the listing line `t[from..to]`.
fn parse_share_line(text: &str, t: &Vec<char>, from: usize, to: usize) -> (r: Option<(String, String)>)
    requires
        t@ == text@,
        from <= to <= t@.len(),
    ensures
        match share_of_line(t@.subrange(from as int, to as int)) {
            Some((n, d)) => r is Some && r->Some_0.0@ == n && r->Some_0.1@ == d,
            None => r is None,
        },
{
    let ghost line = t@.subrange(from as int, to as int);
    let disk = "  Disk";
    let print = "  Print";
    let ipc = "  IPC";
    let column = match find_in(t, from, to, disk) {
        Some(pos) => Some((pos, disk.unicode_len())),
        None => match find_in(t, from, to, print) {
            Some(pos) => Some((pos, print.unicode_len())),
            None => match find_in(t, from, to, ipc) {
                Some(pos) => Some((pos, ipc.unicode_len())),
                None => None,
            },
        },
    };
    assert(column is Some ==> type_column(line) == Some((column->Some_0.0 as int, column->Some_0.1 as int)));
    assert(column is None ==> type_column(line) is None);
    let (mut name, mut description) = match column {
        Some((pos, len)) => {
            proof {
                if find(line, disk@) is Some {
                    lemma_find_bounds(line, disk@, 0);
                } else if find(line, print@) is Some {
                    lemma_find_bounds(line, print@, 0);
                } else {
                    lemma_find_bounds(line, ipc@, 0);
                }
            }
            assert(line.take(pos as int) =~= t@.subrange(from as int, from + pos));
            assert(line.skip(pos + len) =~= t@.subrange(from + pos + len, to as int));
            (
                trimmed_piece(text, t, from, from + pos),
                trimmed_piece(text, t, from + pos + len, to),
            )
        },
        None => (String::new(), String::new()),
    };
    let (a, b) = trim_range(t, from, to);
    if name.unicode_len() == 0 && a < b {
        let double_space = "  ";
        proof {
            reveal_strlit("  ");
        }
        let parts = field_ranges(t, a, b, double_space);
        if parts.len() > 0 {
            name = trimmed_piece(text, t, parts[0].0, parts[0].1);
            if parts.len() > 2 {
                let joined = join_ranges(text, t, &parts, 2);
                proof {
                    assert(range_texts(t@, parts@) =~= fields(trim(line), "  "@));
                }
                description = trimmed_string(joined.as_str());
            }
        }
    }
    if name.unicode_len() > 0 {
        Some((name, description))
    } else {
        None
    }
}

/// A header, footer or blank line of the listing (`t` is the trimmed line).
pub open spec fn skipped_line(t: Seq<char>) -> bool {
    t.len() == 0 || starts_with(t, "Shared resources"@) || starts_with(t, "Share name"@) || contains(
        t,
        "command completed"@,
    )
}

/// The rule under the column headers (`t` is the trimmed line).
pub open spec fn separator_line(t: Seq<char>) -> bool {
    starts_with(t, "---"@) || starts_with(t, "\u{2500}\u{2500}\u{2500}"@)
}

/// The scan state after one more line: whether the rule was seen, and the
/// (name, description) pairs read so far. Share lines count only after the
/// rule.
pub open spec fn scan_line(
    state: (bool, Seq<(Seq<char>, Seq<char>)>),
    line: Seq<char>,
) -> (bool, Seq<(Seq<char>, Seq<char>)>) {
    let t = trim(line);
    if skipped_line(t) {
        state
    } else if separator_line(t) {
        (true, state.1)
    } else if !state.0 {
        state
    } else {
        match share_of_line(line) {
            Some(share) => (state.0, state.1.push(share)),
            None => state,
        }
    }
}

pub open spec fn scan_lines(lines: Seq<Seq<char>>) -> (bool, Seq<(Seq<char>, Seq<char>)>)
    decreases lines.len(),
{
    if lines.len() == 0 {
        (false, Seq::empty())
    } else {
        scan_line(scan_lines(lines.drop_last()), lines.last())
    }
}

/// A line without its trailing carriage return.
pub open spec fn strip_cr(l: Seq<char>) -> Seq<char> {
    if l.len() > 0 && l.last() == '\r' {
        l.drop_last()
    } else {
        l
    }
}

/// The lines of `s`, as `str::lines` gives them: split at `\n`, each
/// without a trailing `\r`, and no empty last line after a final `\n`.
pub open spec fn text_lines(s: Seq<char>) -> Seq<Seq<char>> {
    let ps = split_on(s, '\n');
    let ps = if ps.last().len() == 0 {
        ps.drop_last()
    } else {
        ps
    };
    ps.map_values(|l: Seq<char>| strip_cr(l))
}

/// The (name, description) pairs that `net view` output lists.
pub open spec fn net_view_shares(output: Seq<char>) -> Seq<(Seq<char>, Seq<char>)> {
    scan_lines(text_lines(output)).1
}

/// The UNC path `\\host\name`.
pub open spec fn unc_path(host: Seq<char>, name: Seq<char>) -> Seq<char> {
    seq!['\\', '\\'] + host + seq!['\\'] + name
}

pub open spec fn share_views(v: Seq<SmbShare>) -> Seq<(Seq<char>, Seq<char>)> {
    v.map_values(|s: SmbShare| (s.name@, s.description@))
}

fn trimmed_starts_with(t: &Vec<char>, a: usize, b: usize, p: &str) -> (r: bool)
    requires
        a <= b <= t@.len(),
    ensures
        r == starts_with(t@.subrange(a as int, b as int), p@),
{
    occurs_in(t, a, b, p, 0)
}

/// Applies one listing line `t[from..to]` to the scan state.
fn scan_one_line(
    text: &str,
    t: &Vec<char>,
    from: usize,
    to: usize,
    host: &str,
    found: &mut bool,
    shares: &mut Vec<SmbShare>,
)
    requires
        t@ == text@,
        from <= to <= t@.len(),
        forall|k: int| 0 <= k < old(shares)@.len() ==> (#[trigger] old(shares)@[k]).path@ == unc_path(host@, old(shares)@[k].name@),
    ensures
        (*final(found), share_views(final(shares)@)) == scan_line(
            (*old(found), share_views(old(shares)@)),
            t@.subrange(from as int, to as int),
        ),
        forall|k: int| 0 <= k < final(shares)@.len() ==> (#[trigger] final(shares)@[k]).path@ == unc_path(host@, final(shares)@[k].name@),
{
    let ghost line = t@.subrange(from as int, to as int);
    let (a, b) = trim_range(t, from, to);
    let ghost tl = t@.subrange(a as int, b as int);
    if a == b || trimmed_starts_with(t, a, b, "Shared resources") || trimmed_starts_with(t, a, b, "Share name")
        || find_in(t, a, b, "command completed").is_some() {
        return;
    }
    if trimmed_starts_with(t, a, b, "---") || trimmed_starts_with(t, a, b, "\u{2500}\u{2500}\u{2500}") {
        *found = true;
        return;
    }
    if !*found {
        return;
    }
    match parse_share_line(text, t, from, to) {
        Some((name, description)) => {
            let path = String::from_str("\\\\").concat(host).concat("\\").concat(name.as_str());
            proof {
                reveal_strlit("\\\\");
                reveal_strlit("\\");
                assert(path@ =~= unc_path(host@, name@));
            }
            let ghost before = shares@;
            shares.push(SmbShare { name, path, description });
            assert(share_views(shares@) =~= share_views(before).push(
                (shares@.last().name@, shares@.last().description@),
            ));
        },
        None => {},
    }
}

/// The shares listed in the output of `net view \\host`: the lines after
/// the rule under the column headers, minus headers, blank lines and the
/// closing message. Each share's path is `\\host\name`.
pub fn parse_net_view(host: &str, output: &str) -> (r: Vec<SmbShare>)
    ensures
        share_views(r@) == net_view_shares(output@),
        forall|k: int| 0 <= k < r@.len() ==> (#[trigger] r@[k]).path@ == unc_path(host@, r@[k].name@),
{
    let t = chars_of(output);
    let n = t.len();
    let mut found = false;
    let mut shares: Vec<SmbShare> = Vec::new();
    let mut start: usize = 0;
    let mut i: usize = 0;
    while i < n
        invariant
            t@ == output@,
            n == t@.len(),
            start <= i <= n,
            split_on(t@.take(i as int), '\n').last() == t@.subrange(start as int, i as int),
            (found, share_views(shares@)) == scan_lines(
                split_on(t@.take(i as int), '\n').drop_last().map_values(|l: Seq<char>| strip_cr(l)),
            ),
            forall|k: int| 0 <= k < shares@.len() ==> (#[trigger] shares@[k]).path@ == unc_path(host@, shares@[k].name@),
        decreases n - i,
    {
        let ghost prev = split_on(t@.take(i as int), '\n');
        proof {
            lemma_split_nonempty(t@.take(i as int), '\n');
        }
        assert(t@.take(i + 1).drop_last() =~= t@.take(i as int));
        assert(t@.take(i + 1).last() == t@[i as int]);
        if t[i] == '\n' {
            let end = if start < i && t[i - 1] == '\r' {
                i - 1
            } else {
                i
            };
            assert(t@.subrange(start as int, end as int) == strip_cr(t@.subrange(start as int, i as int))) by {
                if start < i && t@[i - 1] == '\r' {
                    assert(t@.subrange(start as int, i as int).drop_last() =~= t@.subrange(start as int, i - 1));
                }
            }
            scan_one_line(output, &t, start, end, host, &mut found, &mut shares);
            let ghost next = split_on(t@.take(i + 1), '\n');
            assert(next == prev.push(Seq::empty()));
            assert(next.drop_last().map_values(|l: Seq<char>| strip_cr(l)) =~= prev.drop_last().map_values(
                |l: Seq<char>| strip_cr(l),
            ).push(strip_cr(prev.last())));
            assert(next.drop_last().map_values(|l: Seq<char>| strip_cr(l)).drop_last() =~= prev.drop_last().map_values(
                |l: Seq<char>| strip_cr(l),
            ));
            start = i + 1;
            assert(t@.subrange(start as int, i + 1) =~= Seq::<char>::empty());
        } else {
            let ghost next = split_on(t@.take(i + 1), '\n');
            assert(next == prev.update(prev.len() - 1, prev.last().push(t@[i as int])));
            assert(next.drop_last() =~= prev.drop_last());
            assert(t@.subrange(start as int, i + 1) =~= t@.subrange(start as int, i as int).push(t@[i as int]));
        }
        i = i + 1;
    }
    assert(t@.take(n as int) =~= t@);
    let ghost ps = split_on(t@, '\n');
    proof {
        lemma_split_nonempty(t@, '\n');
    }
    if start < n {
        let end = if t[n - 1] == '\r' {
            n - 1
        } else {
            n
        };
        assert(t@.subrange(start as int, end as int) == strip_cr(t@.subrange(start as int, n as int))) by {
            if t@[n - 1] == '\r' {
                assert(t@.subrange(start as int, n as int).drop_last() =~= t@.subrange(start as int, n - 1));
            }
        }
        scan_one_line(output, &t, start, end, host, &mut found, &mut shares);
        assert(ps.last().len() > 0);
        assert(ps.map_values(|l: Seq<char>| strip_cr(l)).drop_last() =~= ps.drop_last().map_values(
            |l: Seq<char>| strip_cr(l),
        ));
    } else {
        assert(ps.last().len() == 0);
    }
    shares
}

/// The UNC path of a server, or of one of its shares when a non-empty share
/// name is given; an empty server name is an error.
pub fn smb_unc_path(server: &str, share: Option<String>) -> (r: Result<String, String>)
    ensures
        server@.len() == 0 ==> r is Err && r->Err_0@ == "Server address is required"@,
        server@.len() > 0 ==> r is Ok && r->Ok_0@ == match share {
            Some(s) if s@.len() > 0 => unc_path(server@, s@),
            _ => seq!['\\', '\\'] + server@,
        },
{
    if server.unicode_len() == 0 {
        return Err(String::from_str("Server address is required"));
    }
    let root = String::from_str("\\\\").concat(server);
    proof {
        reveal_strlit("\\\\");
        reveal_strlit("\\");
    }
    match share {
        Some(s) => {
            if s.as_str().unicode_len() > 0 {
                let path = root.concat("\\").concat(s.as_str());
                assert(path@ =~= unc_path(server@, s@));
                Ok(path)
            } else {
                Ok(root)
            }
        },
        None => Ok(root),
    }
}

} // verus!
