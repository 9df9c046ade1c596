//! The high-score table: the five best `(name, score)` entries, best first,
//! kept in browser storage as one `name score` line per entry.

use vstd::prelude::*;

verus! {

/// The table keeps this many entries.
pub const HS_MAX: usize = 5;

pub struct ScoreEntry {
    pub name: Vec<char>,
    pub score: u32,
}

/// An entry as the contracts see it.
pub type Entry = (Seq<char>, u32);

pub open spec fn entry_view(e: ScoreEntry) -> Entry {
    (e.name@, e.score)
}

pub open spec fn table_view(t: Seq<ScoreEntry>) -> Seq<Entry> {
    t.map_values(|e: ScoreEntry| entry_view(e))
}

// ── Sorting ──────────────────────────────────────────────────────────────

/// Where an entry scoring `v` goes in a best-first table: after every entry
/// scoring at least as much.
pub open spec fn first_lower(t: Seq<Entry>, v: u32) -> nat
    decreases t.len(),
{
    if t.len() == 0 {
        0
    } else if t[0].1 < v {
        0
    } else {
        1 + first_lower(t.drop_first(), v)
    }
}

pub open spec fn insert_desc(t: Seq<Entry>, e: Entry) -> Seq<Entry> {
    t.insert(first_lower(t, e.1) as int, e)
}

/// Stable sort, best score first: equal scores keep their order.
pub open spec fn sort_desc(s: Seq<Entry>) -> Seq<Entry>
    decreases s.len(),
{
    if s.len() == 0 {
        seq![]
    } else {
        insert_desc(sort_desc(s.drop_last()), s.last())
    }
}

pub open spec fn sorted_desc(t: Seq<Entry>) -> bool {
    forall|i: int, j: int| 0 <= i < j < t.len() ==> t[i].1 >= t[j].1
}

/// The table after a sort and a cut to the best `HS_MAX`.
pub open spec fn best_of(s: Seq<Entry>) -> Seq<Entry> {
    let t = sort_desc(s);
    if t.len() <= HS_MAX {
        t
    } else {
        t.take(HS_MAX as int)
    }
}

// ── The stored text ──────────────────────────────────────────────────────

/// `char::is_whitespace`: the Unicode `White_Space` property.
pub open spec fn is_ws(c: char) -> bool {
    let u = c as u32;
    (0x09 <= u <= 0x0d) || u == 0x20 || u == 0x85 || u == 0xa0 || u == 0x1680 || (0x2000 <= u
        <= 0x200a) || u == 0x2028 || u == 0x2029 || u == 0x202f || u == 0x205f || u == 0x3000
}

pub open spec fn trim_start(s: Seq<char>) -> Seq<char>
    decreases s.len(),
{
    if s.len() > 0 && is_ws(s[0]) {
        trim_start(s.drop_first())
    } else {
        s
    }
}

pub open spec fn trim_end(s: Seq<char>) -> Seq<char>
    decreases s.len(),
{
    if s.len() > 0 && is_ws(s.last()) {
        trim_end(s.drop_last())
    } else {
        s
    }
}

/// `str::trim`: whitespace removed from both ends.
pub open spec fn trim(s: Seq<char>) -> Seq<char> {
    trim_end(trim_start(s))
}

/// Index of the first `c` in `s`, or `s.len()`.
pub open spec fn find_char(s: Seq<char>, c: char) -> nat
    decreases s.len(),
{
    if s.len() == 0 {
        0
    } else if s[0] == c {
        0
    } else {
        1 + find_char(s.drop_first(), c)
    }
}

/// Index of the last space in `s`, or -1.
pub open spec fn last_space(s: Seq<char>) -> int
    decreases s.len(),
{
    if s.len() == 0 {
        -1
    } else if s.last() == ' ' {
        s.len() - 1
    } else {
        last_space(s.drop_last())
    }
}

/// A line as `str::lines` gives it: a trailing `'\r'` goes with its `'\n'`.
pub open spec fn strip_cr(s: Seq<char>) -> Seq<char> {
    if s.len() > 0 && s.last() == '\r' {
        s.drop_last()
    } else {
        s
    }
}

/// `str::lines`: split at `"\n"` or `"\r\n"`; a final line ending is optional.
pub open spec fn lines(s: Seq<char>) -> Seq<Seq<char>>
    decreases s.len(),
{
    if s.len() == 0 {
        seq![]
    } else {
        let e = find_char(s, '\n');
        if e < s.len() {
            seq![strip_cr(s.take(e as int))] + lines(s.skip(e as int + 1))
        } else {
            seq![s]
        }
    }
}

pub open spec fn is_digit(c: char) -> bool {
    '0' <= c <= '9'
}

pub open spec fn digit_value(c: char) -> nat {
    (c as u32 - '0' as u32) as nat
}

pub open spec fn digits_value(s: Seq<char>) -> nat
    decreases s.len(),
{
    if s.len() == 0 {
        0
    } else {
        digits_value(s.drop_last()) * 10 + digit_value(s.last())
    }
}

pub open spec fn all_digits(s: Seq<char>) -> bool {
    forall|i: int| 0 <= i < s.len() ==> is_digit(#[trigger] s[i])
}

/// `u32::from_str`: an optional `'+'`, then one or more decimal digits whose
/// value fits.
pub open spec fn parse_u32(s: Seq<char>) -> Option<u32> {
    let body = if s.len() > 0 && s[0] == '+' {
        s.drop_first()
    } else {
        s
    };
    if body.len() > 0 && all_digits(body) && digits_value(body) <= u32::MAX {
        Some(digits_value(body) as u32)
    } else {
        None
    }
}

/// One stored line: the name (trimmed) before the last space, the score
/// after it.
pub open spec fn parse_line(l: Seq<char>) -> Option<Entry> {
    let p = last_space(l);
    if p < 0 {
        None
    } else {
        match parse_u32(l.subrange(p + 1, l.len() as int)) {
            Some(v) => Some((trim(l.take(p)), v)),
            None => None,
        }
    }
}

/// Every line that parses, in order.
pub open spec fn parse_lines(ls: Seq<Seq<char>>) -> Seq<Entry>
    decreases ls.len(),
{
    if ls.len() == 0 {
        seq![]
    } else {
        match parse_line(ls[0]) {
            Some(e) => seq![e] + parse_lines(ls.drop_first()),
            None => parse_lines(ls.drop_first()),
        }
    }
}

/// The table that stored text `raw` holds: lines that do not parse are
/// skipped, the rest sorted best first and cut to `HS_MAX`.
pub open spec fn load_spec(raw: Seq<char>) -> Seq<Entry> {
    best_of(parse_lines(lines(raw)))
}

pub open spec fn digit_char(d: nat) -> char {
    (d + '0' as u32) as char
}

/// A number in decimal, without leading zeros.
pub open spec fn decimal(v: nat) -> Seq<char>
    decreases v,
{
    if v < 10 {
        seq![digit_char(v)]
    } else {
        decimal(v / 10).push(digit_char(v % 10))
    }
}

pub open spec fn entry_line(e: Entry) -> Seq<char> {
    e.0 + seq![' '] + decimal(e.1 as nat)
}

/// The stored text of a table: one `name score` line per entry, joined by
/// newlines.
pub open spec fn save_spec(t: Seq<Entry>) -> Seq<char>
    decreases t.len(),
{
    if t.len() == 0 {
        seq![]
    } else if t.len() == 1 {
        entry_line(t[0])
    } else {
        entry_line(t[0]) + seq!['\n'] + save_spec(t.drop_first())
    }
}

// ── Parsing ──────────────────────────────────────────────────────────────

fn is_whitespace(c: char) -> (b: bool)
    ensures
        b == is_ws(c),
{
    let u = c as u32;
    (0x09 <= u && u <= 0x0d) || u == 0x20 || u == 0x85 || u == 0xa0 || u == 0x1680 || (0x2000 <= u
        && u <= 0x200a) || u == 0x2028 || u == 0x2029 || u == 0x202f || u == 0x205f || u == 0x3000
}

/// `s[lo..hi]` with whitespace trimmed from both ends.
fn trimmed(s: &Vec<char>, lo: usize, hi: usize) -> (r: Vec<char>)
    requires
        lo <= hi <= s@.len(),
    ensures
        r@ == trim(s@.subrange(lo as int, hi as int)),
{
    let mut i = lo;
    while i < hi && is_whitespace(s[i])
        invariant
            lo <= i <= hi <= s@.len(),
            trim_start(s@.subrange(lo as int, hi as int)) == trim_start(
                s@.subrange(i as int, hi as int),
            ),
        decreases hi - i,
    {
        assert(s@.subrange(i as int, hi as int).drop_first() =~= s@.subrange(
            i + 1,
            hi as int,
        ));
        i = i + 1;
    }
    let mut j = hi;
    while j > i && is_whitespace(s[j - 1])
        invariant
            lo <= i <= j <= hi <= s@.len(),
            trim_end(s@.subrange(i as int, hi as int)) == trim_end(s@.subrange(i as int, j as int)),
        decreases j - i,
    {
        assert(s@.subrange(i as int, j as int).drop_last() =~= s@.subrange(
            i as int,
            j - 1,
        ));
        j = j - 1;
    }
    let mut r: Vec<char> = Vec::new();
    let mut k = i;
    while k < j
        invariant
            i <= k <= j <= s@.len(),
            r@ == s@.subrange(i as int, k as int),
        decreases j - k,
    {
        r.push(s[k]);
        k = k + 1;
        assert(r@ =~= s@.subrange(i as int, k as int));
    }
    r
}

proof fn lemma_digits_value_grows(s: Seq<char>, d: char)
    requires
        is_digit(d),
    ensures
        digits_value(s.push(d)) == digits_value(s) * 10 + digit_value(d),
{
    assert(s.push(d).drop_last() =~= s);
}

/// `u32::from_str` on `s[lo..hi]`.
fn parse_score(s: &Vec<char>, lo: usize, hi: usize) -> (r: Option<u32>)
    requires
        lo <= hi <= s@.len(),
    ensures
        r == parse_u32(s@.subrange(lo as int, hi as int)),
{
    let ghost whole = s@.subrange(lo as int, hi as int);
    let mut start = lo;
    if lo < hi && s[lo] == '+' {
        start = lo + 1;
    }
    let ghost body = s@.subrange(start as int, hi as int);
    assert(body =~= (if whole.len() > 0 && whole[0] == '+' {
        whole.drop_first()
    } else {
        whole
    }));
    if start == hi {
        return None;
    }
    let mut acc: u64 = 0;
    let mut k = start;
    while k < hi
        invariant
            start <= k <= hi <= s@.len(),
            body == s@.subrange(start as int, hi as int),
            whole == s@.subrange(lo as int, hi as int),
            body.len() > 0,
            body == (if whole.len() > 0 && whole[0] == '+' {
                whole.drop_first()
            } else {
                whole
            }),
            all_digits(s@.subrange(start as int, k as int)),
            acc <= 42949672959,
            digits_value(s@.subrange(start as int, k as int)) <= u32::MAX ==> acc == digits_value(
                s@.subrange(start as int, k as int),
            ),
            digits_value(s@.subrange(start as int, k as int)) > u32::MAX ==> acc > u32::MAX,
        decreases hi - k,
    {
        let c = s[k];
        if !('0' <= c && c <= '9') {
            assert(!all_digits(body)) by {
                assert(body[k - start] == c);
            }
            return None;
        }
        proof {
            lemma_digits_value_grows(s@.subrange(start as int, k as int), c);
            assert(s@.subrange(start as int, k as int).push(c) =~= s@.subrange(
                start as int,
                k + 1,
            ));
        }
        let d = (c as u32 - '0' as u32) as u64;
        if acc <= 4294967295 {
            acc = acc * 10 + d;
        }
        k = k + 1;
    }
    assert(s@.subrange(start as int, k as int) =~= body);
    if acc <= 4294967295 {
        Some(acc as u32)
    } else {
        None
    }
}

/// Index of the last space in `s[lo..hi]`, if any.
fn find_last_space(s: &Vec<char>, lo: usize, hi: usize) -> (r: Option<usize>)
    requires
        lo <= hi <= s@.len(),
    ensures
        match r {
            Some(p) => lo <= p < hi && p - lo == last_space(s@.subrange(lo as int, hi as int)),
            None => last_space(s@.subrange(lo as int, hi as int)) < 0,
        },
{
    let mut j = hi;
    while j > lo
        invariant
            lo <= j <= hi <= s@.len(),
            last_space(s@.subrange(lo as int, hi as int)) == last_space(
                s@.subrange(lo as int, j as int),
            ),
        decreases j - lo,
    {
        if s[j - 1] == ' ' {
            return Some(j - 1);
        }
        assert(s@.subrange(lo as int, j as int).drop_last() =~= s@.subrange(lo as int, j - 1));
        j = j - 1;
    }
    None
}

/// One stored line `s[lo..hi]`, if it parses.
fn parse_entry(s: &Vec<char>, lo: usize, hi: usize) -> (r: Option<ScoreEntry>)
    requires
        lo <= hi <= s@.len(),
    ensures
        match r {
            Some(e) => parse_line(s@.subrange(lo as int, hi as int)) == Some(entry_view(e)),
            None => parse_line(s@.subrange(lo as int, hi as int)) is None,
        },
{
    let ghost l = s@.subrange(lo as int, hi as int);
    match find_last_space(s, lo, hi) {
        None => None,
        Some(p) => {
            assert(l.subrange(p - lo + 1, l.len() as int) =~= s@.subrange(p + 1, hi as int));
            assert(l.take(p - lo) =~= s@.subrange(lo as int, p as int));
            match parse_score(s, p + 1, hi) {
                None => None,
                Some(v) => {
                    let name = trimmed(s, lo, p);
                    Some(ScoreEntry { name, score: v })
                },
            }
        },
    }
}

proof fn lemma_table_push(t: Seq<ScoreEntry>, e: ScoreEntry)
    ensures
        table_view(t.push(e)) == table_view(t).push(entry_view(e)),
{
    assert(table_view(t.push(e)) =~= table_view(t).push(entry_view(e)));
}

proof fn lemma_parse_lines_cons(l: Seq<char>, rest: Seq<Seq<char>>)
    ensures
        parse_lines(seq![l] + rest) == match parse_line(l) {
            Some(e) => seq![e] + parse_lines(rest),
            None => parse_lines(rest),
        },
{
    assert((seq![l] + rest)[0] == l);
    assert((seq![l] + rest).drop_first() =~= rest);
}

/// Every line of `raw` that parses, in order.
fn parse_all(raw: &Vec<char>) -> (out: Vec<ScoreEntry>)
    ensures
        table_view(out@) == parse_lines(lines(raw@)),
{
    let n = raw.len();
    let mut out: Vec<ScoreEntry> = Vec::new();
    let mut start: usize = 0;
    assert(raw@.skip(0) =~= raw@);
    while start < n
        invariant
            n == raw@.len(),
            start <= n,
            parse_lines(lines(raw@)) == table_view(out@) + parse_lines(lines(raw@.skip(start as int))),
        decreases n - start,
    {
        let ghost rest = raw@.skip(start as int);
        let mut e = start;
        while e < n && raw[e] != '\n'
            invariant
                start <= e <= n,
                n == raw@.len(),
                rest == raw@.skip(start as int),
                find_char(rest, '\n') == (e - start) + find_char(raw@.skip(e as int), '\n'),
            decreases n - e,
        {
            assert(raw@.skip(e as int).drop_first() =~= raw@.skip(e + 1));
            e = e + 1;
        }
        let ghost before = table_view(out@);
        if e < n {
            let hi = if e > start && raw[e - 1] == '\r' {
                e - 1
            } else {
                e
            };
            proof {
                assert(find_char(raw@.skip(e as int), '\n') == 0);
                assert(rest.take(e - start) =~= raw@.subrange(start as int, e as int));
                assert(strip_cr(rest.take(e - start)) =~= raw@.subrange(start as int, hi as int));
                assert(rest.skip(e - start + 1) =~= raw@.skip(e + 1));
                lemma_parse_lines_cons(
                    raw@.subrange(start as int, hi as int),
                    lines(raw@.skip(e + 1)),
                );
            }
            match parse_entry(raw, start, hi) {
                Some(entry) => {
                    proof {
                        lemma_table_push(out@, entry);
                    }
                    out.push(entry);
                    assert(table_view(out@) + parse_lines(lines(raw@.skip(e + 1))) =~= before
                        + parse_lines(lines(rest)));
                },
                None => {
                    assert(before + parse_lines(lines(raw@.skip(e + 1))) =~= before
                        + parse_lines(lines(rest)));
                },
            }
            start = e + 1;
        } else {
            proof {
                assert(find_char(raw@.skip(e as int), '\n') == 0);
                assert(rest =~= raw@.subrange(start as int, n as int));
                assert(seq![rest] =~= seq![rest] + Seq::<Seq<char>>::empty());
                lemma_parse_lines_cons(rest, Seq::<Seq<char>>::empty());
                assert(raw@.skip(n as int) =~= Seq::<char>::empty());
            }
            match parse_entry(raw, start, n) {
                Some(entry) => {
                    proof {
                        lemma_table_push(out@, entry);
                    }
                    out.push(entry);
                    assert(table_view(out@) + parse_lines(lines(raw@.skip(n as int))) =~= before
                        + parse_lines(lines(rest)));
                },
                None => {
                    assert(before + parse_lines(lines(raw@.skip(n as int))) =~= before
                        + parse_lines(lines(rest)));
                },
            }
            start = n;
        }
    }
    assert(raw@.skip(n as int) =~= Seq::<char>::empty());
    assert(table_view(out@) + parse_lines(lines(raw@.skip(n as int))) =~= table_view(out@));
    out
}

// ── Sorting and storage ──────────────────────────────────────────────────

/// Stable sort, best score first.
fn sort_best_first(v: Vec<ScoreEntry>) -> (r: Vec<ScoreEntry>)
    ensures
        table_view(r@) == sort_desc(table_view(v@)),
{
    let ghost s0 = table_view(v@);
    let mut src = v;
    let mut out: Vec<ScoreEntry> = Vec::new();
    let ghost mut k: int = 0;
    assert(s0.take(0) =~= Seq::<Entry>::empty());
    assert(s0.skip(0) =~= s0);
    while src.len() > 0
        invariant
            0 <= k <= s0.len(),
            table_view(out@) == sort_desc(s0.take(k)),
            table_view(src@) == s0.skip(k),
        decreases src@.len(),
    {
        let ghost before = src@;
        assert(table_view(before).len() == before.len());
        assert(k < s0.len());
        assert(table_view(before)[0] == entry_view(before[0]));
        let e = src.remove(0);
        proof {
            assert(src@ =~= before.drop_first());
            assert forall|i: int| 0 <= i < src@.len() implies #[trigger] table_view(src@)[i]
                == s0.skip(k + 1)[i] by {
                assert(table_view(before)[i + 1] == entry_view(before[i + 1]));
                assert(s0.skip(k)[i + 1] == s0[k + i + 1]);
            }
            assert(table_view(src@) =~= s0.skip(k + 1));
            assert(entry_view(e) == s0[k]);
        }
        let ghost t = table_view(out@);
        let mut j: usize = 0;
        assert(t.skip(0) =~= t);
        while j < out.len() && out[j].score >= e.score
            invariant
                j <= out@.len(),
                t == table_view(out@),
                first_lower(t, e.score) == j + first_lower(t.skip(j as int), e.score),
            decreases out@.len() - j,
        {
            assert(t.skip(j as int).drop_first() =~= t.skip(j + 1));
            j = j + 1;
        }
        proof {
            assert(first_lower(t.skip(j as int), e.score) == 0);
            assert(s0.take(k + 1).drop_last() =~= s0.take(k));
            assert(table_view(out@.insert(j as int, e)) =~= t.insert(j as int, entry_view(e)));
            k = k + 1;
        }
        out.insert(j, e);
    }
    assert(s0.take(k) =~= s0);
    out
}

/// The best `HS_MAX` entries of `v`, best first.
fn best_five(v: Vec<ScoreEntry>) -> (r: Vec<ScoreEntry>)
    ensures
        table_view(r@) == best_of(table_view(v@)),
{
    let mut r = sort_best_first(v);
    if r.len() > HS_MAX {
        r.truncate(HS_MAX);
        assert(table_view(r@) =~= sort_desc(table_view(v@)).take(HS_MAX as int));
    }
    r
}

/// The table that stored text `raw` holds.
pub fn load_high_scores(raw: &Vec<char>) -> (t: Vec<ScoreEntry>)
    ensures
        table_view(t@) == load_spec(raw@),
{
    best_five(parse_all(raw))
}

/// Append `v` in decimal.
pub fn push_decimal(out: &mut Vec<char>, v: u32)
    ensures
        final(out)@ == old(out)@ + decimal(v as nat),
    decreases v,
{
    if v >= 10 {
        push_decimal(out, v / 10);
    }
    let d = (v % 10) as u8;
    let c = (48u8 + d) as char;
    assert(c == digit_char((v % 10) as nat));
    out.push(c);
    proof {
        if v >= 10 {
            assert(old(out)@ + decimal((v / 10) as nat) + seq![c] =~= old(out)@ + decimal(
                v as nat,
            ));
        } else {
            assert(old(out)@.push(c) =~= old(out)@ + decimal(v as nat));
        }
    }
}

/// The text that stores a table.
pub fn high_scores_text(t: &Vec<ScoreEntry>) -> (r: Vec<char>)
    ensures
        r@ == save_spec(table_view(t@)),
{
    let mut out: Vec<char> = Vec::new();
    let n = t.len();
    let mut k: usize = 0;
    assert(table_view(t@).take(0) =~= Seq::<Entry>::empty());
    while k < n
        invariant
            n == t@.len(),
            k <= n,
            out@ == save_spec(table_view(t@).take(k as int)),
        decreases n - k,
    {
        let ghost before = out@;
        if k > 0 {
            out.push('\n');
        }
        let name = &t[k].name;
        let mut i: usize = 0;
        while i < name.len()
            invariant
                i <= name@.len(),
                out@ == before + (if k > 0 {
                    seq!['\n']
                } else {
                    Seq::<char>::empty()
                }) + name@.take(i as int),
            decreases name@.len() - i,
        {
            out.push(name[i]);
            i = i + 1;
            assert(out@ =~= before + (if k > 0 {
                seq!['\n']
            } else {
                Seq::<char>::empty()
            }) + name@.take(i as int));
        }
        out.push(' ');
        push_decimal(&mut out, t[k].score);
        proof {
            let tv = table_view(t@);
            assert(name@.take(i as int) =~= name@);
            assert(tv[k as int] == entry_view(t@[k as int]));
            lemma_save_snoc(tv.take(k as int), tv[k as int]);
            assert(tv.take(k + 1) =~= tv.take(k as int).push(tv[k as int]));
            assert(out@ =~= before + (if k > 0 {
                seq!['\n']
            } else {
                Seq::<char>::empty()
            }) + entry_line(tv[k as int]));
        }
        k = k + 1;
    }
    assert(table_view(t@).take(n as int) =~= table_view(t@));
    out
}

/// Adding one more entry to stored text adds a newline (unless it was
/// empty) and the entry's line.
proof fn lemma_save_snoc(t: Seq<Entry>, e: Entry)
    ensures
        save_spec(t.push(e)) == save_spec(t) + (if t.len() > 0 {
            seq!['\n']
        } else {
            Seq::<char>::empty()
        }) + entry_line(e),
    decreases t.len(),
{
    if t.len() == 0 {
        assert(t.push(e) =~= seq![e]);
        assert(save_spec(seq![e]) == entry_line(e));
        assert(Seq::<char>::empty() + Seq::<char>::empty() + entry_line(e) =~= entry_line(e));
    } else if t.len() == 1 {
        assert(t.push(e).drop_first() =~= seq![e]);
        assert(save_spec(seq![e]) == entry_line(e));
    } else {
        lemma_save_snoc(t.drop_first(), e);
        assert(t.push(e).drop_first() =~= t.drop_first().push(e));
        assert(save_spec(t.push(e)) =~= save_spec(t) + seq!['\n'] + entry_line(e));
    }
}

/// Whether a score earns a place in the table.
pub open spec fn qualifies(t: Seq<Entry>, score: u32) -> bool {
    score != 0 && (t.len() < HS_MAX || score > t.last().1)
}

/// A nonzero score qualifies while the table has room, otherwise it must
/// beat the last entry.
pub fn score_qualifies(t: &Vec<ScoreEntry>, score: u32) -> (r: bool)
    ensures
        r == qualifies(table_view(t@), score),
{
    if score == 0 {
        return false;
    }
    if t.len() < HS_MAX {
        return true;
    }
    let last = t[t.len() - 1].score;
    assert(table_view(t@).last() == entry_view(t@[t@.len() - 1]));
    score > last
}

/// The table with one more entry, best first, cut to `HS_MAX`.
pub fn record_score(t: Vec<ScoreEntry>, name: Vec<char>, score: u32) -> (r: Vec<ScoreEntry>)
    ensures
        table_view(r@) == best_of(table_view(t@).push((name@, score))),
{
    let mut t = t;
    let ghost before = t@;
    let e = ScoreEntry { name, score };
    t.push(e);
    proof {
        lemma_table_push(before, e);
    }
    best_five(t)
}

} // verus!
