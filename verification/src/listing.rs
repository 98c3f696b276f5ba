//! Parsing of the process listings that the scanner collects: the
//! `PID<TAB>NAME` lines that the kernel module and the eBPF iterator emit,
//! the output of `ps -e -o pid,comm`, the names of `/proc` entries and the
//! content of `/proc/sys/kernel/pid_max`.
use vstd::prelude::*;
use std::collections::HashMap;
use std::collections::HashSet;
use crate::text::{
    chars_of, find_char, join_words, lemma_find_char, line_ranges, lines, parse_i32, parse_i32_range,
    range_text, string_from_chars, word_ranges, words, parse_pid, trim, trim_str, join_gap, lemma_lines_join,
};

verus! {

broadcast use vstd::std_specs::hash::group_hash_axioms;

/// The names of a PID-to-name table, as character sequences.
pub open spec fn names_view(m: Map<i32, String>) -> Map<i32, Seq<char>> {
    m.map_values(|v: String| v@)
}

/// One entry that a listing line contributes, if any.
pub type LineEntry = Option<(i32, Seq<char>)>;

/// A `PID<TAB>NAME` line: the text before the first tab must parse as an
/// `i32`; the name is everything after that tab.
pub open spec fn tab_entry(line: Seq<char>) -> LineEntry {
    let t = find_char(line, '\t');
    if t < line.len() && parse_i32(line.take(t as int)) is Some {
        Some((parse_i32(line.take(t as int))->0, line.skip(t as int + 1)))
    } else {
        None
    }
}

/// A `ps` line: at least two whitespace-separated words, the first of which
/// parses as an `i32`; the name is the other words joined by single spaces.
pub open spec fn ps_entry(line: Seq<char>) -> LineEntry {
    let ws = words(line);
    if ws.len() >= 2 && parse_i32(ws[0]) is Some {
        Some((parse_i32(ws[0])->0, join_words(ws.skip(1))))
    } else {
        None
    }
}

/// The table after inserting each entry in turn; a later entry for a PID
/// replaces an earlier one.
pub open spec fn apply_entries(m: Map<i32, Seq<char>>, es: Seq<LineEntry>) -> Map<
    i32,
    Seq<char>,
>
    decreases es.len(),
{
    if es.len() == 0 {
        m
    } else {
        apply_entries(apply_entry(m, es[0]), es.drop_first())
    }
}

/// The table after one entry.
pub open spec fn apply_entry(m: Map<i32, Seq<char>>, e: LineEntry) -> Map<i32, Seq<char>> {
    match e {
        Some((pid, name)) => m.insert(pid, name),
        None => m,
    }
}

/// The entries of a `PID<TAB>NAME` listing, one per line.
pub open spec fn tab_listing_entries(text: Seq<char>) -> Seq<LineEntry> {
    lines(text).map_values(|l: Seq<char>| tab_entry(l))
}

/// The entries of `ps` output, one per line after the header line.
pub open spec fn ps_listing_entries(text: Seq<char>) -> Seq<LineEntry> {
    let ls = lines(text);
    if ls.len() == 0 {
        seq![]
    } else {
        ls.drop_first().map_values(|l: Seq<char>| ps_entry(l))
    }
}

proof fn lemma_apply_entries_step(m: Map<i32, Seq<char>>, es: Seq<LineEntry>, k: int)
    requires
        0 <= k < es.len(),
    ensures
        apply_entries(m, es.skip(k)) == apply_entries(apply_entry(m, es[k]), es.skip(k + 1)),
{
    assert(es.skip(k).drop_first() =~= es.skip(k + 1));
}

proof fn lemma_names_insert(m: Map<i32, String>, pid: i32, name: String)
    ensures
        names_view(m.insert(pid, name)) == names_view(m).insert(pid, name@),
{
    assert(names_view(m.insert(pid, name)) =~= names_view(m).insert(pid, name@));
}

/// Position of the first tab in `chars[lo..hi]`, or `hi` when there is none.
fn find_tab(chars: &Vec<char>, lo: usize, hi: usize) -> (t: usize)
    requires
        lo <= hi <= chars@.len(),
    ensures
        lo <= t <= hi,
        t - lo == find_char(chars@.subrange(lo as int, hi as int), '\t'),
{
    let mut t = lo;
    while t < hi && chars[t] != '\t'
        invariant
            lo <= t <= hi <= chars@.len(),
            forall|k: int| lo <= k < t ==> chars@[k] != '\t',
        decreases hi - t,
    {
        t = t + 1;
    }
    proof {
        lemma_find_char(chars@.subrange(lo as int, hi as int), '\t', t - lo);
    }
    t
}

/// Adds the `PID<TAB>NAME` lines of `text` to `processes`: for each line in
/// order whose text before the first tab parses as an `i32`, the PID is
/// mapped to the rest of the line after that tab.
pub fn parse_proc_list(text: &str, processes: &mut HashMap<i32, String>)
    ensures
        names_view(final(processes)@) == apply_entries(
            names_view(old(processes)@),
            tab_listing_entries(text@),
        ),
{
    let chars = chars_of(text);
    let ranges = line_ranges(&chars);
    let ghost es = tab_listing_entries(text@);
    let mut k: usize = 0;
    assert(es.skip(0) =~= es);
    while k < ranges.len()
        invariant
            chars@ == text@,
            es == tab_listing_entries(text@),
            ranges@.len() == lines(chars@).len() == es.len(),
            forall|j: int| 0 <= j < ranges@.len() ==> #[trigger] ranges@[j].0 <= ranges@[j].1 <= chars@.len(),
            forall|j: int|
                0 <= j < ranges@.len() ==> #[trigger] range_text(chars@, ranges@[j]) == lines(
                    chars@,
                )[j],
            0 <= k <= ranges@.len(),
            apply_entries(names_view(old(processes)@), es) == apply_entries(
                names_view(processes@),
                es.skip(k as int),
            ),
        decreases ranges@.len() - k,
    {
        let (a, b) = ranges[k];
        let ghost line = range_text(chars@, ranges@[k as int]);
        assert(es[k as int] == tab_entry(line));
        proof {
            lemma_apply_entries_step(names_view(processes@), es, k as int);
        }
        let t = find_tab(&chars, a, b);
        assert(line =~= chars@.subrange(a as int, b as int));
        if t < b {
            assert(line.take(t - a) =~= chars@.subrange(a as int, t as int));
            let parsed = parse_i32_range(&chars, a, t);
            match parsed {
                Some(pid) => {
                    let name = string_from_chars(&chars[t + 1..b]);
                    assert(line.skip(t - a + 1) =~= chars@.subrange(t + 1, b as int));
                    proof {
                        lemma_names_insert(processes@, pid, name);
                    }
                    processes.insert(pid, name);
                },
                None => {},
            }
        }
        k = k + 1;
    }
    assert(es.skip(k as int) =~= Seq::<LineEntry>::empty());
}

/// The words `ranges[1..]` of `chars` joined with single spaces.
fn join_word_ranges(chars: &Vec<char>, ranges: &Vec<(usize, usize)>) -> (name: String)
    requires
        ranges@.len() >= 1,
        forall|j: int| 0 <= j < ranges@.len() ==> #[trigger] ranges@[j].0 <= ranges@[j].1 <= chars@.len(),
    ensures
        name@ == join_words(ranges@.map_values(|r: (usize, usize)| range_text(chars@, r)).skip(1)),
{
    let ghost ws = ranges@.map_values(|r: (usize, usize)| range_text(chars@, r)).skip(1);
    let mut out: Vec<char> = Vec::new();
    let mut w: usize = 1;
    while w < ranges.len()
        invariant
            ws == ranges@.map_values(|r: (usize, usize)| range_text(chars@, r)).skip(1),
            forall|j: int| 0 <= j < ranges@.len() ==> #[trigger] ranges@[j].0 <= ranges@[j].1 <= chars@.len(),
            1 <= w <= ranges@.len(),
            out@ == join_words(ws.take(w - 1)),
        decreases ranges@.len() - w,
    {
        let (a, b) = ranges[w];
        let ghost before = out@;
        if w > 1 {
            out.push(' ');
        }
        let mut c = a;
        while c < b
            invariant
                a <= c <= b <= chars@.len(),
                out@ == (if w > 1 { before + seq![' '] } else { before }) + chars@.subrange(a as int, c as int),
            decreases b - c,
        {
            out.push(chars[c]);
            assert(chars@.subrange(a as int, c + 1) =~= chars@.subrange(a as int, c as int).push(chars@[c as int]));
            c = c + 1;
        }
        proof {
            let prefix = ws.take(w as int);
            assert(prefix.drop_last() =~= ws.take(w - 1));
            assert(prefix.last() == range_text(chars@, ranges@[w as int]));
            if w == 1 {
                assert(ws.take(0) =~= Seq::<Seq<char>>::empty());
                assert(out@ =~= join_words(prefix));
            } else {
                assert(out@ =~= join_words(prefix));
            }
        }
        w = w + 1;
    }
    assert(ws.take(ranges@.len() - 1) =~= ws);
    string_from_chars(out.as_slice())
}

/// The PID-to-command table of `ps -e -o pid,comm` output: the header line
/// is skipped, and every later line whose first word parses as an `i32` and
/// that has a second word maps that PID to its remaining words joined by
/// single spaces; a later line for a PID replaces an earlier one.
#[verifier::spinoff_prover]
pub fn parse_ps_listing(text: &str) -> (table: HashMap<i32, String>)
    ensures
        names_view(table@) == apply_entries(Map::empty(), ps_listing_entries(text@)),
{
    let mut table: HashMap<i32, String> = HashMap::new();
    let chars = chars_of(text);
    let ranges = line_ranges(&chars);
    let ghost es = ps_listing_entries(text@);
    if ranges.len() == 0 {
        assert(names_view(table@) =~= Map::empty());
        return table;
    }
    let mut k: usize = 1;
    assert(es.skip(0) =~= es);
    assert(names_view(table@) =~= Map::empty());
    while k < ranges.len()
        invariant
            chars@ == text@,
            es == ps_listing_entries(text@),
            ranges@.len() == lines(chars@).len(),
            es.len() == ranges@.len() - 1,
            forall|j: int| 0 <= j < ranges@.len() ==> #[trigger] ranges@[j].0 <= ranges@[j].1 <= chars@.len(),
            forall|j: int|
                0 <= j < ranges@.len() ==> #[trigger] range_text(chars@, ranges@[j]) == lines(
                    chars@,
                )[j],
            1 <= k <= ranges@.len(),
            apply_entries(Map::empty(), es) == apply_entries(
                names_view(table@),
                es.skip(k - 1),
            ),
        decreases ranges@.len() - k,
    {
        let (a, b) = ranges[k];
        let ghost line = range_text(chars@, ranges@[k as int]);
        assert(es[k - 1] == ps_entry(line));
        proof {
            lemma_apply_entries_step(names_view(table@), es, k - 1);
            assert(es.skip(k - 1 + 1) == es.skip(k as int));
        }
        let wr = word_ranges(&chars, a, b);
        assert(forall|j: int| 0 <= j < wr@.len() ==> #[trigger] wr@[j].0 <= wr@[j].1 <= chars@.len());
        assert(line =~= chars@.subrange(a as int, b as int));
        let ghost ws = words(line);
        assert(wr@.map_values(|r: (usize, usize)| range_text(chars@, r)) =~= ws);
        if wr.len() >= 2 {
            let (w0, w1) = wr[0];
            assert(range_text(chars@, wr@[0]) == ws[0]);
            let parsed = parse_i32_range(&chars, w0, w1);
            match parsed {
                Some(pid) => {
                    assert(forall|j: int|
                        0 <= j < wr@.len() ==> #[trigger] wr@[j].0 <= wr@[j].1 <= chars@.len());
                    let name = join_word_ranges(&chars, &wr);
                    proof {
                        lemma_names_insert(table@, pid, name);
                    }
                    table.insert(pid, name);
                },
                None => {},
            }
        }
        k = k + 1;
    }
    assert(es.skip(k - 1) =~= Seq::<LineEntry>::empty());
    table
}

/// The entry names `pid`.
pub open spec fn names_pid(e: LineEntry, pid: i32) -> bool {
    match e {
        Some((q, _)) => q == pid,
        None => false,
    }
}

/// The PIDs that a list of entries names.
pub open spec fn entry_pids(es: Seq<LineEntry>) -> Set<i32> {
    Set::new(|pid: i32| exists|i: int| 0 <= i < es.len() && names_pid(#[trigger] es[i], pid))
}

/// Reading a listing into a table keeps the PIDs the table had and adds
/// exactly the PIDs that the listing's entries name.
pub proof fn lemma_listing_pids(m: Map<i32, Seq<char>>, es: Seq<LineEntry>)
    ensures
        apply_entries(m, es).dom() == m.dom().union(entry_pids(es)),
    decreases es.len(),
{
    if es.len() > 0 {
        let rest = es.drop_first();
        let m1 = apply_entry(m, es[0]);
        lemma_listing_pids(m1, rest);
        assert forall|p: i32| #[trigger] apply_entries(m, es).dom().contains(p) <==> m.dom().union(entry_pids(es)).contains(p) by {
            if entry_pids(rest).contains(p) {
                let i = choose|i: int| 0 <= i < rest.len() && names_pid(#[trigger] rest[i], p);
                assert(es[i + 1] == rest[i]);
            }
            if entry_pids(es).contains(p) {
                let i = choose|i: int| 0 <= i < es.len() && names_pid(#[trigger] es[i], p);
                if i > 0 {
                    assert(rest[i - 1] == es[i]);
                }
            }
        }
        assert(apply_entries(m, es).dom() =~= m.dom().union(entry_pids(es)));
    } else {
        assert(m.dom().union(entry_pids(es)) =~= m.dom());
    }
}

/// Reading a list of entries split in two is reading the first part, then
/// the second.
pub proof fn lemma_apply_entries_concat(m: Map<i32, Seq<char>>, x: Seq<LineEntry>, y: Seq<LineEntry>)
    ensures
        apply_entries(m, x + y) == apply_entries(apply_entries(m, x), y),
    decreases x.len(),
{
    if x.len() == 0 {
        assert(x + y =~= y);
    } else {
        assert((x + y).drop_first() =~= x.drop_first() + y);
        assert((x + y)[0] == x[0]);
        lemma_apply_entries_concat(apply_entry(m, x[0]), x.drop_first(), y);
    }
}

/// Parsing two `PID<TAB>NAME` texts joined by a newline gives the table
/// that parsing the first and then the second gives, provided the first
/// does not end in a carriage return (the newline would make it part of a
/// line ending).
pub proof fn lemma_tab_listing_join(m: Map<i32, Seq<char>>, a: Seq<char>, b: Seq<char>)
    requires
        a.len() == 0 || a.last() != '\r',
    ensures
        apply_entries(m, tab_listing_entries(a + seq!['\n'] + b)) == apply_entries(
            apply_entries(m, tab_listing_entries(a)),
            tab_listing_entries(b),
        ),
{
    let f = |l: Seq<char>| tab_entry(l);
    lemma_lines_join(a, b);
    let gap = join_gap(a).map_values(f);
    assert(tab_listing_entries(a + seq!['\n'] + b) =~= tab_listing_entries(a) + gap
        + tab_listing_entries(b));
    lemma_apply_entries_concat(m, tab_listing_entries(a) + gap, tab_listing_entries(b));
    lemma_apply_entries_concat(m, tab_listing_entries(a), gap);
    let m1 = apply_entries(m, tab_listing_entries(a));
    if gap.len() > 0 {
        assert(gap[0] == tab_entry(seq![]));
        assert(find_char(Seq::<char>::empty(), '\t') == 0);
        assert(tab_entry(seq![]) is None);
        assert(apply_entry(m1, gap[0]) == m1);
        assert(gap.drop_first() =~= Seq::<LineEntry>::empty());
        assert(apply_entries(m1, gap.drop_first()) == m1);
        assert(apply_entries(m1, gap) == m1);
    } else {
        assert(apply_entries(m1, gap) == m1);
    }
}

/// Reading a list of entries into a table is overlaying the table with
/// what the entries alone give: their PIDs take their last name from the
/// entries, other PIDs keep theirs.
pub proof fn lemma_apply_entries_overlay(m: Map<i32, Seq<char>>, es: Seq<LineEntry>)
    ensures
        apply_entries(m, es) == m.union_prefer_right(apply_entries(Map::empty(), es)),
    decreases es.len(),
{
    if es.len() == 0 {
        assert(m.union_prefer_right(Map::<i32, Seq<char>>::empty()) =~= m);
    } else {
        let rest = es.drop_first();
        let r = apply_entries(Map::<i32, Seq<char>>::empty(), rest);
        let e0 = apply_entry(Map::<i32, Seq<char>>::empty(), es[0]);
        lemma_apply_entries_overlay(apply_entry(m, es[0]), rest);
        lemma_apply_entries_overlay(e0, rest);
        assert(apply_entry(m, es[0]).union_prefer_right(r) =~= m.union_prefer_right(
            e0.union_prefer_right(r),
        ));
    }
}

/// Reading the same listing twice gives the table that reading it once
/// gives: whatever the table held before, a second pass changes nothing.
pub proof fn lemma_reading_listing_twice(m: Map<i32, Seq<char>>, es: Seq<LineEntry>)
    ensures
        apply_entries(apply_entries(m, es), es) == apply_entries(m, es),
{
    let e = apply_entries(Map::<i32, Seq<char>>::empty(), es);
    lemma_apply_entries_overlay(m, es);
    lemma_apply_entries_overlay(apply_entries(m, es), es);
    assert(m.union_prefer_right(e).union_prefer_right(e) =~= m.union_prefer_right(e));
}

/// Entries that do not name `pid` leave its place in the table as it was.
pub proof fn lemma_apply_entries_untouched(m: Map<i32, Seq<char>>, es: Seq<LineEntry>, pid: i32)
    requires
        forall|j: int| 0 <= j < es.len() ==> !names_pid(#[trigger] es[j], pid),
    ensures
        apply_entries(m, es).contains_key(pid) == m.contains_key(pid),
        m.contains_key(pid) ==> apply_entries(m, es)[pid] == m[pid],
    decreases es.len(),
{
    if es.len() > 0 {
        assert(!names_pid(es[0], pid));
        let rest = es.drop_first();
        assert forall|j: int| 0 <= j < rest.len() implies !names_pid(#[trigger] rest[j], pid) by {
            assert(rest[j] == es[j + 1]);
        }
        lemma_apply_entries_untouched(apply_entry(m, es[0]), rest, pid);
    }
}

/// The last entry that names a PID gives its name in the table, whatever
/// the table held before and whatever other PIDs the entries name.
pub proof fn lemma_last_entry_wins(
    m: Map<i32, Seq<char>>,
    es: Seq<LineEntry>,
    i: int,
    pid: i32,
    name: Seq<char>,
)
    requires
        0 <= i < es.len(),
        es[i] == Some((pid, name)),
        forall|j: int| i < j < es.len() ==> !names_pid(#[trigger] es[j], pid),
    ensures
        apply_entries(m, es).contains_key(pid),
        apply_entries(m, es)[pid] == name,
{
    let m1 = apply_entries(m, es.take(i));
    assert(es =~= es.take(i) + es.skip(i));
    lemma_apply_entries_concat(m, es.take(i), es.skip(i));
    lemma_apply_entries_step(m1, es, i);
    let rest = es.skip(i + 1);
    assert forall|j: int| 0 <= j < rest.len() implies !names_pid(#[trigger] rest[j], pid) by {
        assert(rest[j] == es[i + 1 + j]);
    }
    lemma_apply_entries_untouched(m1.insert(pid, name), rest, pid);
}

/// Reading a `PID<TAB>NAME` listing: for every line whose text before its
/// first tab parses as an `i32` `p` (any `i32`, with no bound), and that no
/// later such line repeats, the table maps `p` to the text after that tab.
pub proof fn lemma_tab_listing_line_read(m: Map<i32, Seq<char>>, text: Seq<char>, i: int, p: i32)
    requires
        0 <= i < lines(text).len(),
        find_char(lines(text)[i], '\t') < lines(text)[i].len(),
        parse_i32(lines(text)[i].take(find_char(lines(text)[i], '\t') as int)) == Some(p),
        forall|j: int|
            i < j < lines(text).len() ==> !(find_char(#[trigger] lines(text)[j], '\t')
                < lines(text)[j].len() && parse_i32(
                lines(text)[j].take(find_char(lines(text)[j], '\t') as int),
            ) == Some(p)),
    ensures
        apply_entries(m, tab_listing_entries(text)).contains_key(p),
        apply_entries(m, tab_listing_entries(text))[p] == lines(text)[i].skip(
            find_char(lines(text)[i], '\t') as int + 1,
        ),
{
    let ls = lines(text);
    let es = tab_listing_entries(text);
    let l = ls[i];
    assert(es[i] == tab_entry(l));
    assert forall|j: int| i < j < es.len() implies !names_pid(#[trigger] es[j], p) by {
        assert(es[j] == tab_entry(ls[j]));
    }
    lemma_last_entry_wins(m, es, i, p, l.skip(find_char(l, '\t') as int + 1));
}

/// A line `a + TAB + b` with no tab in `a` and `a` parsing as `p` (any
/// `i32`) is read as the entry of `p` named `b`; a line with no tab is read
/// as nothing.
pub proof fn lemma_tab_entry_split(a: Seq<char>, b: Seq<char>, p: i32)
    ensures
        !a.contains('\t') && parse_i32(a) == Some(p) ==> tab_entry(a + seq!['\t'] + b) == Some(
            (p, b),
        ),
        !a.contains('\t') ==> tab_entry(a) is None,
{
    let l = a + seq!['\t'] + b;
    if !a.contains('\t') {
        assert forall|k: int| 0 <= k < a.len() implies l[k] != '\t' by {
            assert(l[k] == a[k]);
        }
        assert(l[a.len() as int] == '\t');
        lemma_find_char(l, '\t', a.len() as int);
        assert(l.take(a.len() as int) =~= a);
        assert(l.skip(a.len() as int + 1) =~= b);
        lemma_find_char(a, '\t', a.len() as int);
    }
}

/// Reading `ps` output: for every line after the header with at least two
/// words whose first word parses as an `i32` `p` (any `i32`, with no
/// bound), and that no later such line repeats, the table maps `p` to the
/// remaining words joined by single spaces.
pub proof fn lemma_ps_listing_line_read(text: Seq<char>, i: int, p: i32)
    requires
        1 <= i < lines(text).len(),
        words(lines(text)[i]).len() >= 2,
        parse_i32(words(lines(text)[i])[0]) == Some(p),
        forall|j: int|
            i < j < lines(text).len() ==> !(words(#[trigger] lines(text)[j]).len() >= 2
                && parse_i32(words(lines(text)[j])[0]) == Some(p)),
    ensures
        apply_entries(Map::empty(), ps_listing_entries(text)).contains_key(p),
        apply_entries(Map::empty(), ps_listing_entries(text))[p] == join_words(
            words(lines(text)[i]).skip(1),
        ),
{
    let ls = lines(text);
    let es = ps_listing_entries(text);
    assert(es[i - 1] == ps_entry(ls[i]));
    assert forall|j: int| i - 1 < j < es.len() implies !names_pid(#[trigger] es[j], p) by {
        assert(es[j] == ps_entry(ls[j + 1]));
    }
    lemma_last_entry_wins(Map::empty(), es, i - 1, p, join_words(words(ls[i]).skip(1)));
}

/// The header line of `ps` output never reaches the table, and a line that
/// is not at least two words led by an `i32` adds nothing.
pub proof fn lemma_ps_listing_pids(text: Seq<char>, p: i32)
    ensures
        apply_entries(Map::empty(), ps_listing_entries(text)).contains_key(p) <==> exists|i: int|
            1 <= i < lines(text).len() && words(#[trigger] lines(text)[i]).len() >= 2 && parse_i32(
                words(lines(text)[i])[0],
            ) == Some(p),
{
    let ls = lines(text);
    let es = ps_listing_entries(text);
    lemma_listing_pids(Map::empty(), es);
    if entry_pids(es).contains(p) {
        let k = choose|k: int| 0 <= k < es.len() && names_pid(#[trigger] es[k], p);
        assert(es[k] == ps_entry(ls[k + 1]));
        assert(words(ls[k + 1]).len() >= 2);
    }
    if exists|i: int|
        1 <= i < ls.len() && words(#[trigger] ls[i]).len() >= 2 && parse_i32(words(ls[i])[0])
            == Some(p) {
        let i = choose|i: int|
            1 <= i < ls.len() && words(#[trigger] ls[i]).len() >= 2 && parse_i32(words(ls[i])[0])
                == Some(p);
        assert(es[i - 1] == ps_entry(ls[i]));
        assert(names_pid(es[i - 1], p));
    }
}

/// Every directory entry name that parses as an `i32` (any `i32`, with no
/// bound) gives that PID, and every PID comes from such a name.
pub proof fn lemma_pids_named_exact(names: Seq<String>, i: int, p: i32)
    ensures
        0 <= i < names.len() && parse_i32(names[i]@) == Some(p) ==> pids_named(names).contains(p),
        pids_named(names).contains(p) ==> exists|k: int|
            0 <= k < names.len() && parse_i32(#[trigger] names[k]@) == Some(p),
{
}

/// The PIDs of two listings read together are those of each: reading is
/// name by name.
pub proof fn lemma_pids_named_concat(a: Seq<String>, b: Seq<String>)
    ensures
        pids_named(a + b) == pids_named(a).union(pids_named(b)),
{
    assert forall|p: i32| pids_named(a + b).contains(p) <==> pids_named(a).union(pids_named(b)).contains(p) by {
        if pids_named(a + b).contains(p) {
            let k = choose|k: int| 0 <= k < (a + b).len() && parse_i32(#[trigger] (a + b)[k]@) == Some(p);
            if k < a.len() {
                assert(a[k] == (a + b)[k]);
            } else {
                assert(b[k - a.len()] == (a + b)[k]);
            }
        }
        if pids_named(a).contains(p) {
            let k = choose|k: int| 0 <= k < a.len() && parse_i32(#[trigger] a[k]@) == Some(p);
            assert((a + b)[k] == a[k]);
        }
        if pids_named(b).contains(p) {
            let k = choose|k: int| 0 <= k < b.len() && parse_i32(#[trigger] b[k]@) == Some(p);
            assert((a + b)[a.len() + k] == b[k]);
        }
    }
    assert(pids_named(a + b) =~= pids_named(a).union(pids_named(b)));
}

/// One directory entry name gives exactly the PID it parses as, whatever
/// its value, or nothing.
pub proof fn lemma_pids_named_single(name: String)
    ensures
        pids_named(seq![name]) == (match parse_i32(name@) {
            Some(p) => Set::empty().insert(p),
            None => Set::<i32>::empty(),
        }),
{
    let s = seq![name];
    assert(s[0] == name);
    match parse_i32(name@) {
        Some(p) => {
            assert(pids_named(s) =~= Set::empty().insert(p));
        },
        None => {
            assert(pids_named(s) =~= Set::<i32>::empty());
        },
    }
}

/// The PIDs named by directory entries: the names that parse as an `i32`.
pub open spec fn pids_named(names: Seq<String>) -> Set<i32> {
    Set::new(|pid: i32| exists|i: int| 0 <= i < names.len() && parse_i32(#[trigger] names[i]@) == Some(pid))
}

/// The PIDs of a `/proc` listing, given the names of its entries: every
/// name that parses as an `i32` is a PID, and no other.
pub fn pids_from_entry_names(names: &Vec<String>) -> (pids: HashSet<i32>)
    ensures
        pids@ == pids_named(names@),
        forall|i: int|
            0 <= i < names@.len() && #[trigger] parse_i32(names@[i]@) is Some ==> pids@.contains(
                parse_i32(names@[i]@)->0,
            ),
{
    let mut pids: HashSet<i32> = HashSet::new();
    let mut i: usize = 0;
    while i < names.len()
        invariant
            0 <= i <= names@.len(),
            pids@ == pids_named(names@.take(i as int)),
        decreases names@.len() - i,
    {
        let parsed = parse_pid(names[i].as_str());
        let ghost before = pids@;
        match parsed {
            Some(pid) => {
                pids.insert(pid);
            },
            None => {},
        }
        proof {
            let next = names@.take(i + 1);
            let prev = names@.take(i as int);
            assert forall|p: i32| pids@.contains(p) <==> pids_named(next).contains(p) by {
                if pids@.contains(p) {
                    if before.contains(p) {
                        let j = choose|j: int| 0 <= j < prev.len() && parse_i32(#[trigger] prev[j]@) == Some(p);
                        assert(next[j] == prev[j]);
                    } else {
                        assert(next[i as int] == names@[i as int]);
                    }
                }
                if pids_named(next).contains(p) {
                    let j = choose|j: int| 0 <= j < next.len() && parse_i32(#[trigger] next[j]@) == Some(p);
                    if j < i {
                        assert(prev[j] == next[j]);
                    }
                }
            }
            assert(pids@ =~= pids_named(next));
        }
        i = i + 1;
    }
    assert(names@.take(i as int) =~= names@);
    assert forall|i: int|
        0 <= i < names@.len() && #[trigger] parse_i32(names@[i]@) is Some implies pids@.contains(
            parse_i32(names@[i]@)->0,
        ) by {
        lemma_pids_named_exact(names@, i, parse_i32(names@[i]@)->0);
    }
    pids
}

/// The value of `/proc/sys/kernel/pid_max`: the trimmed content when it was
/// read and parses as an `i32`, else the kernel's default of 32768.
pub open spec fn pid_max_of(content: Option<Seq<char>>) -> i32 {
    match content {
        Some(c) => match parse_i32(trim(c)) {
            Some(v) => v,
            None => 32768,
        },
        None => 32768,
    }
}

/// The PID limit is the number that the file holds, surrounding
/// whitespace aside, whenever that is an `i32`; an unreadable file or one
/// that holds anything else gives 32768.
pub proof fn lemma_pid_max_read(c: Seq<char>, v: i32)
    ensures
        parse_i32(trim(c)) == Some(v) ==> pid_max_of(Some(c)) == v,
        parse_i32(trim(c)) is None ==> pid_max_of(Some(c)) == 32768,
        pid_max_of(None) == 32768,
{
}

/// The PID limit, given the content of `/proc/sys/kernel/pid_max` if it
/// could be read.
pub fn pid_max_from_content(content: Option<&str>) -> (limit: i32)
    ensures
        limit == pid_max_of(
            match content {
                Some(c) => Some(c@),
                None => None,
            },
        ),
{
    match content {
        Some(c) => {
            let trimmed = trim_str(c);
            match parse_pid(trimmed.as_str()) {
                Some(v) => v,
                None => 32768,
            }
        },
        None => 32768,
    }
}

} // verus!
