//! What the high-score table keeps: it is always sorted best first and at
//! most `HS_MAX` long, sorting only reorders entries, and storing a table
//! then loading it gives the same table back.

use vstd::prelude::*;
use crate::scores::{
    Entry, HS_MAX, first_lower, insert_desc, sort_desc, sorted_desc, best_of, is_ws, trim,
    trim_start, trim_end, find_char, last_space, strip_cr, lines, is_digit, digit_value,
    digits_value, all_digits, parse_u32, parse_line, parse_lines, load_spec, digit_char, decimal,
    entry_line, save_spec, qualifies,
};

verus! {

broadcast use vstd::seq_lib::group_to_multiset_ensures;

// ── Sorting ──────────────────────────────────────────────────────────────

proof fn lemma_first_lower(t: Seq<Entry>, v: u32)
    ensures
        first_lower(t, v) <= t.len(),
        forall|j: int| 0 <= j < first_lower(t, v) ==> #[trigger] t[j].1 >= v,
        first_lower(t, v) < t.len() ==> t[first_lower(t, v) as int].1 < v,
    decreases t.len(),
{
    if t.len() > 0 && t[0].1 >= v {
        lemma_first_lower(t.drop_first(), v);
        assert forall|j: int| 0 <= j < first_lower(t, v) implies #[trigger] t[j].1 >= v by {
            if j > 0 {
                assert(t[j] == t.drop_first()[j - 1]);
            }
        }
    }
}

proof fn lemma_insert_desc_sorted(t: Seq<Entry>, e: Entry)
    requires
        sorted_desc(t),
    ensures
        sorted_desc(insert_desc(t, e)),
        insert_desc(t, e).to_multiset() == t.to_multiset().insert(e),
        insert_desc(t, e).len() == t.len() + 1,
{
    lemma_first_lower(t, e.1);
    let p = first_lower(t, e.1) as int;
    let u = insert_desc(t, e);
    assert forall|i: int, j: int| 0 <= i < j < u.len() implies u[i].1 >= u[j].1 by {
        if i < p && j < p {
        } else if i < p && j == p {
        } else if i < p {
            assert(u[j] == t[j - 1]);
        } else if i == p {
            assert(u[j] == t[j - 1]);
            assert(t[p].1 < e.1);
        } else {
            assert(u[i] == t[i - 1] && u[j] == t[j - 1]);
        }
    }
    vstd::seq_lib::to_multiset_insert(t, p, e);
}

/// Sorting puts the best score first and only reorders the entries.
pub proof fn lemma_sort_desc(s: Seq<Entry>)
    ensures
        sorted_desc(sort_desc(s)),
        sort_desc(s).to_multiset() == s.to_multiset(),
        sort_desc(s).len() == s.len(),
    decreases s.len(),
{
    if s.len() > 0 {
        lemma_sort_desc(s.drop_last());
        lemma_insert_desc_sorted(sort_desc(s.drop_last()), s.last());
        vstd::seq_lib::to_multiset_build(s.drop_last(), s.last());
        assert(s.drop_last().push(s.last()) =~= s);
    } else {
        assert(sort_desc(s).to_multiset() =~= s.to_multiset());
    }
}

/// A table that is already best-first is left as it is.
proof fn lemma_sort_sorted(t: Seq<Entry>)
    requires
        sorted_desc(t),
    ensures
        sort_desc(t) == t,
    decreases t.len(),
{
    if t.len() > 0 {
        let init = t.drop_last();
        assert(sorted_desc(init));
        lemma_sort_sorted(init);
        lemma_first_lower(init, t.last().1);
        if first_lower(init, t.last().1) < init.len() {
            let p = first_lower(init, t.last().1) as int;
            assert(init[p] == t[p]);
        }
        assert(init.insert(init.len() as int, t.last()) =~= t);
    }
}

/// A loaded or updated table is sorted best first, holds at most `HS_MAX`
/// entries, and keeps the best of what it was given: it is the start of the
/// best-first ordering of all the entries.
pub proof fn lemma_best_of(s: Seq<Entry>)
    ensures
        sorted_desc(best_of(s)),
        best_of(s).len() == (if s.len() < HS_MAX { s.len() } else { HS_MAX as nat }),
        best_of(s) == sort_desc(s).take(best_of(s).len() as int),
        sort_desc(s).to_multiset() == s.to_multiset(),
{
    lemma_sort_desc(s);
    let t = sort_desc(s);
    if t.len() <= HS_MAX {
        assert(t.take(t.len() as int) =~= t);
    }
}

// ── Names that survive storage ───────────────────────────────────────────

/// A name stores cleanly: no line break, no whitespace at either end.
pub open spec fn clean_name(n: Seq<char>) -> bool {
    &&& !n.contains('\n')
    &&& n.len() > 0 ==> !is_ws(n[0]) && !is_ws(n.last())
}

/// A table as the game keeps it: best first, at most `HS_MAX` entries,
/// every name clean.
pub open spec fn clean_table(t: Seq<Entry>) -> bool {
    &&& sorted_desc(t)
    &&& t.len() <= HS_MAX
    &&& forall|i: int| 0 <= i < t.len() ==> clean_name(#[trigger] t[i].0)
}

proof fn lemma_trim_start(x: Seq<char>)
    ensures
        trim_start(x) =~= x.skip(x.len() - trim_start(x).len()),
        trim_start(x).len() <= x.len(),
        trim_start(x).len() > 0 ==> !is_ws(trim_start(x)[0]),
    decreases x.len(),
{
    if x.len() > 0 && is_ws(x[0]) {
        lemma_trim_start(x.drop_first());
        assert(x.drop_first().skip(x.drop_first().len() - trim_start(x).len()) =~= x.skip(
            x.len() - trim_start(x).len(),
        ));
    } else {
        assert(x.skip(0) =~= x);
    }
}

proof fn lemma_trim_end(x: Seq<char>)
    ensures
        trim_end(x) =~= x.take(trim_end(x).len() as int),
        trim_end(x).len() <= x.len(),
        trim_end(x).len() > 0 ==> !is_ws(trim_end(x).last()),
    decreases x.len(),
{
    if x.len() > 0 && is_ws(x.last()) {
        lemma_trim_end(x.drop_last());
        assert(x.drop_last().take(trim_end(x).len() as int) =~= x.take(trim_end(x).len() as int));
    } else {
        assert(x.take(x.len() as int) =~= x);
    }
}

/// Trimming gives a clean name from any text without line breaks.
proof fn lemma_trim_clean(x: Seq<char>)
    requires
        !x.contains('\n'),
    ensures
        clean_name(trim(x)),
{
    lemma_trim_start(x);
    let a = trim_start(x);
    lemma_trim_end(a);
    let b = trim_end(a);
    if b.len() > 0 {
        assert(b[0] == a[0]);
    }
    assert forall|i: int| 0 <= i < b.len() implies b[i] != '\n' by {
        assert(b[i] == a[i]);
        assert(a[i] == x[x.len() - a.len() + i]);
    }
}

/// A clean name trims to itself.
proof fn lemma_trim_of_clean(n: Seq<char>)
    requires
        clean_name(n),
    ensures
        trim(n) == n,
{
    assert(trim_start(n) == n);
    assert(trim_end(n) == n);
}

// ── Lines ────────────────────────────────────────────────────────────────

proof fn lemma_find_char_absent(x: Seq<char>, c: char)
    requires
        !x.contains(c),
    ensures
        find_char(x, c) == x.len(),
    decreases x.len(),
{
    if x.len() > 0 {
        assert(!x.drop_first().contains(c)) by {
            if x.drop_first().contains(c) {
                let j = choose|j: int| 0 <= j < x.drop_first().len() && x.drop_first()[j] == c;
                assert(x[j + 1] == c);
            }
        }
        assert(x[0] != c) by {
            if x[0] == c {
                assert(x.contains(c));
            }
        }
        lemma_find_char_absent(x.drop_first(), c);
    }
}

proof fn lemma_find_char_cat(x: Seq<char>, y: Seq<char>, c: char)
    requires
        !x.contains(c),
    ensures
        find_char(x + seq![c] + y, c) == x.len(),
    decreases x.len(),
{
    if x.len() == 0 {
        assert((x + seq![c] + y)[0] == c);
    } else {
        assert(!x.drop_first().contains(c)) by {
            if x.drop_first().contains(c) {
                let j = choose|j: int| 0 <= j < x.drop_first().len() && x.drop_first()[j] == c;
                assert(x[j + 1] == c);
            }
        }
        assert(x[0] != c) by {
            if x[0] == c {
                assert(x.contains(c));
            }
        }
        lemma_find_char_cat(x.drop_first(), y, c);
        assert((x + seq![c] + y).drop_first() =~= x.drop_first() + seq![c] + y);
    }
}

/// The positions inside a line hold no line break.
proof fn lemma_lines_no_newline(s: Seq<char>)
    ensures
        forall|i: int| 0 <= i < lines(s).len() ==> !(#[trigger] lines(s)[i]).contains('\n'),
    decreases s.len(),
{
    if s.len() > 0 {
        lemma_find_char_prefix(s);
        let e = find_char(s, '\n');
        if e < s.len() {
            lemma_lines_no_newline(s.skip(e as int + 1));
            let head = strip_cr(s.take(e as int));
            assert(!head.contains('\n')) by {
                if head.contains('\n') {
                    let j = choose|j: int| 0 <= j < head.len() && head[j] == '\n';
                    assert(s[j] == '\n');
                }
            }
            assert forall|i: int| 0 <= i < lines(s).len() implies !(#[trigger] lines(
                s,
            )[i]).contains('\n') by {
                if i > 0 {
                    assert(lines(s)[i] == lines(s.skip(e as int + 1))[i - 1]);
                }
            }
        } else {
            assert(!s.contains('\n')) by {
                if s.contains('\n') {
                    let j = choose|j: int| 0 <= j < s.len() && s[j] == '\n';
                    assert(j < e);
                }
            }
        }
    }
}

proof fn lemma_find_char_prefix(s: Seq<char>)
    ensures
        find_char(s, '\n') <= s.len(),
        forall|j: int| 0 <= j < find_char(s, '\n') ==> #[trigger] s[j] != '\n',
        find_char(s, '\n') < s.len() ==> s[find_char(s, '\n') as int] == '\n',
    decreases s.len(),
{
    if s.len() > 0 && s[0] != '\n' {
        lemma_find_char_prefix(s.drop_first());
        assert forall|j: int| 0 <= j < find_char(s, '\n') implies #[trigger] s[j] != '\n' by {
            if j > 0 {
                assert(s[j] == s.drop_first()[j - 1]);
            }
        }
    }
}

// ── Numbers ──────────────────────────────────────────────────────────────

proof fn lemma_digit_char(k: nat)
    requires
        k < 10,
    ensures
        is_digit(digit_char(k)),
        digit_value(digit_char(k)) == k,
        digit_char(k) != '+',
{
    assert(digit_char(k) as u32 == k + 48);
}

proof fn lemma_last_space_range(s: Seq<char>)
    ensures
        -1 <= last_space(s) < s.len(),
    decreases s.len(),
{
    if s.len() > 0 && s.last() != ' ' {
        lemma_last_space_range(s.drop_last());
    }
}

proof fn lemma_decimal(v: nat)
    ensures
        decimal(v).len() > 0,
        all_digits(decimal(v)),
        digits_value(decimal(v)) == v,
    decreases v,
{
    lemma_digit_char(v % 10);
    if v < 10 {
        assert(decimal(v).drop_last() =~= Seq::<char>::empty());
        assert(decimal(v).last() == digit_char(v));
        assert(digits_value(decimal(v)) == digits_value(Seq::<char>::empty()) * 10 + digit_value(
            digit_char(v),
        ));
    } else {
        lemma_decimal(v / 10);
        let d = decimal(v / 10);
        assert(decimal(v).drop_last() =~= d);
        assert(decimal(v).last() == digit_char(v % 10));
        assert(digits_value(decimal(v)) == digits_value(d) * 10 + digit_value(digit_char(v % 10)));
        assert forall|i: int| 0 <= i < decimal(v).len() implies is_digit(
            #[trigger] decimal(v)[i],
        ) by {
            if i < d.len() {
                assert(decimal(v)[i] == d[i]);
            }
        }
    }
}

proof fn lemma_parse_decimal(v: u32)
    ensures
        parse_u32(decimal(v as nat)) == Some(v),
{
    lemma_decimal(v as nat);
    assert(is_digit(decimal(v as nat)[0]));
}

proof fn lemma_last_space_digits(a: Seq<char>, b: Seq<char>)
    requires
        all_digits(b),
    ensures
        last_space(a + b) == last_space(a),
    decreases b.len(),
{
    if b.len() > 0 {
        assert(is_digit(b.last()));
        assert((a + b).last() == b.last());
        assert((a + b).drop_last() =~= a + b.drop_last());
        lemma_last_space_digits(a, b.drop_last());
    } else {
        assert(a + b =~= a);
    }
}

// ── Save then load ───────────────────────────────────────────────────────

proof fn lemma_parse_entry_line(e: Entry)
    requires
        clean_name(e.0),
    ensures
        parse_line(entry_line(e)) == Some(e),
        !entry_line(e).contains('\n'),
        entry_line(e).len() > 0,
        strip_cr(entry_line(e)) == entry_line(e),
{
    let name = e.0;
    let d = decimal(e.1 as nat);
    lemma_decimal(e.1 as nat);
    let l = entry_line(e);
    lemma_last_space_digits(name + seq![' '], d);
    assert((name + seq![' ']).last() == ' ');
    assert(last_space(name + seq![' ']) == name.len());
    assert(l.subrange(name.len() as int + 1, l.len() as int) =~= d);
    assert(l.take(name.len() as int) =~= name);
    lemma_parse_decimal(e.1);
    lemma_trim_of_clean(name);
    assert(!l.contains('\n')) by {
        if l.contains('\n') {
            let j = choose|j: int| 0 <= j < l.len() && l[j] == '\n';
            if j < name.len() {
                assert(name[j] == '\n');
            } else if j > name.len() {
                assert(l[j] == d[j - name.len() - 1]);
                assert(is_digit(d[j - name.len() - 1]));
            }
        }
    }
    assert(l.last() == d.last());
    assert(is_digit(d[d.len() - 1]));
}

proof fn lemma_load_lines(t: Seq<Entry>)
    requires
        forall|i: int| 0 <= i < t.len() ==> clean_name(#[trigger] t[i].0),
    ensures
        parse_lines(lines(save_spec(t))) == t,
    decreases t.len(),
{
    if t.len() == 0 {
        assert(save_spec(t) =~= Seq::<char>::empty());
    } else if t.len() == 1 {
        assert(clean_name(t[0].0));
        lemma_parse_entry_line(t[0]);
        let l = entry_line(t[0]);
        lemma_find_char_absent(l, '\n');
        assert(save_spec(t) == l);
        assert(lines(l) == seq![l]);
        assert(seq![l][0] == l);
        assert(seq![l].drop_first() =~= Seq::<Seq<char>>::empty());
        assert(parse_lines(seq![l]) == seq![t[0]] + parse_lines(Seq::<Seq<char>>::empty()));
        assert(seq![t[0]] + Seq::<Entry>::empty() =~= t);
    } else {
        assert(clean_name(t[0].0));
        lemma_parse_entry_line(t[0]);
        let l = entry_line(t[0]);
        let rest = save_spec(t.drop_first());
        let s = l + seq!['\n'] + rest;
        lemma_find_char_cat(l, rest, '\n');
        assert(s.take(l.len() as int) =~= l);
        assert(s.skip(l.len() as int + 1) =~= rest);
        assert(lines(s) == seq![l] + lines(rest));
        assert forall|i: int| 0 <= i < t.drop_first().len() implies clean_name(
            #[trigger] t.drop_first()[i].0,
        ) by {
            assert(t.drop_first()[i] == t[i + 1]);
        }
        lemma_load_lines(t.drop_first());
        assert(save_spec(t) == s);
        assert((seq![l] + lines(rest))[0] == l);
        assert((seq![l] + lines(rest)).drop_first() =~= lines(rest));
        assert(parse_lines(seq![l] + lines(rest)) == seq![t[0]] + parse_lines(lines(rest)));
        assert(seq![t[0]] + t.drop_first() =~= t);
    }
}

/// Storing a table the game keeps and loading it again gives the same
/// table back.
pub proof fn lemma_save_then_load(t: Seq<Entry>)
    requires
        clean_table(t),
    ensures
        load_spec(save_spec(t)) == t,
{
    lemma_load_lines(t);
    lemma_sort_sorted(t);
}

proof fn lemma_parse_lines_clean(ls: Seq<Seq<char>>)
    requires
        forall|i: int| 0 <= i < ls.len() ==> !(#[trigger] ls[i]).contains('\n'),
    ensures
        forall|i: int|
            0 <= i < parse_lines(ls).len() ==> clean_name(#[trigger] parse_lines(ls)[i].0),
    decreases ls.len(),
{
    if ls.len() > 0 {
        assert forall|i: int| 0 <= i < ls.drop_first().len() implies !(
        #[trigger] ls.drop_first()[i]).contains('\n') by {
            assert(ls.drop_first()[i] == ls[i + 1]);
        }
        lemma_parse_lines_clean(ls.drop_first());
        let l = ls[0];
        match parse_line(l) {
            Some(e) => {
                let p = last_space(l);
                lemma_last_space_range(l);
                assert(!l.take(p).contains('\n')) by {
                    if l.take(p).contains('\n') {
                        let j = choose|j: int| 0 <= j < l.take(p).len() && l.take(p)[j] == '\n';
                        assert(l[j] == '\n');
                    }
                }
                lemma_trim_clean(l.take(p));
                let r = parse_lines(ls);
                assert(e.0 == trim(l.take(p)));
                assert(r == seq![e] + parse_lines(ls.drop_first()));
                assert(r[0] == e);
                assert forall|i: int| 0 <= i < r.len() implies clean_name(#[trigger] r[i].0) by {
                    if i > 0 {
                        assert(r[i] == parse_lines(ls.drop_first())[i - 1]);
                    }
                }
            },
            None => {},
        }
    }
}

/// Every table that loading produces is one the game keeps, so storing it
/// and loading it again changes nothing.
pub proof fn lemma_load_clean(raw: Seq<char>)
    ensures
        clean_table(load_spec(raw)),
        load_spec(save_spec(load_spec(raw))) == load_spec(raw),
{
    let parsed = parse_lines(lines(raw));
    lemma_lines_no_newline(raw);
    lemma_parse_lines_clean(lines(raw));
    lemma_best_of(parsed);
    let t = load_spec(raw);
    assert forall|i: int| 0 <= i < t.len() implies clean_name(#[trigger] t[i].0) by {
        let sd = sort_desc(parsed);
        assert(t[i] == sd[i]);
        assert(sd.to_multiset().count(sd[i]) > 0) by {
            assert(sd.contains(sd[i]));
        }
        assert(parsed.contains(sd[i])) by {
            assert(parsed.to_multiset().count(sd[i]) > 0);
        }
        let j = choose|j: int| 0 <= j < parsed.len() && parsed[j] == sd[i];
        assert(clean_name(parsed[j].0));
    }
    lemma_save_then_load(t);
}

/// Recording a score under a clean name keeps the table one the game keeps.
pub proof fn lemma_record_clean(t: Seq<Entry>, name: Seq<char>, score: u32)
    requires
        clean_table(t),
        clean_name(name),
    ensures
        clean_table(best_of(t.push((name, score)))),
{
    let s = t.push((name, score));
    lemma_best_of(s);
    let b = best_of(s);
    assert forall|i: int| 0 <= i < b.len() implies clean_name(#[trigger] b[i].0) by {
        let sd = sort_desc(s);
        assert(b[i] == sd[i]);
        assert(sd.to_multiset().count(sd[i]) > 0) by {
            assert(sd.contains(sd[i]));
        }
        assert(s.contains(sd[i])) by {
            assert(s.to_multiset().count(sd[i]) > 0);
        }
        let j = choose|j: int| 0 <= j < s.len() && s[j] == sd[i];
        if j < t.len() {
            assert(s[j] == t[j]);
        }
    }
}

/// Recording a score in a table the game keeps: a qualifying score gets
/// its place among the five best; a nonzero score that does not qualify
/// leaves the table exactly as it was.
pub proof fn lemma_qualifies_means_recorded(t: Seq<Entry>, name: Seq<char>, score: u32)
    requires
        sorted_desc(t),
        t.len() <= HS_MAX,
    ensures
        qualifies(t, score) ==> best_of(t.push((name, score))).contains((name, score)),
        score != 0 && !qualifies(t, score) ==> best_of(t.push((name, score))) == t,
{
    let e = (name, score);
    let s = t.push(e);
    assert(s.drop_last() =~= t);
    lemma_sort_sorted(t);
    assert(sort_desc(s) == insert_desc(t, e));
    lemma_first_lower(t, score);
    let p = first_lower(t, score) as int;
    let ins = t.insert(p, e);
    assert(ins[p] == e);
    if qualifies(t, score) {
        if t.len() == HS_MAX {
            assert(score > t.last().1);
            assert(p < t.len()) by {
                if p == t.len() {
                    assert(t[t.len() - 1].1 >= score);
                }
            }
            assert(best_of(s) == ins.take(HS_MAX as int));
            assert(best_of(s)[p] == e);
        } else {
            assert(best_of(s) == ins);
        }
    } else if score != 0 {
        assert(t.len() == HS_MAX);
        assert(p == t.len()) by {
            if p < t.len() {
                assert(t[p].1 < score);
                assert(t[p].1 >= t[t.len() - 1].1);
            }
        }
        assert(ins.take(HS_MAX as int) =~= t);
    }
}

/// A number written in decimal reads back as the same number.
pub proof fn lemma_decimal_round_trip(v: u32)
    ensures
        parse_u32(decimal(v as nat)) == Some(v),
{
    lemma_parse_decimal(v);
}

} // verus!
