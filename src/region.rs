use crate::parse::{int_at, int_in};
use crate::text::{
    chars_of, fields, fields_of, first_index, index_of, is_first, join_from, joined, word_is,
};
use vstd::prelude::*;

verus! {

/// A half-open byte range `[start, end)` of the target's address space.
#[derive(Clone, Copy, Debug, PartialEq, Eq, Structural)]
pub struct MemoryRegion {
    pub start: usize,
    pub end: usize,
}

/// The regions that share one name in the target's memory map, and whether scans look
/// at them.
#[derive(Clone, Debug)]
pub struct RegionGroup {
    pub name: String,
    pub enabled: bool,
    pub regions: Vec<MemoryRegion>,
}

/// Whether a scan focused on `focus` (or on nothing) takes the regions of `g`.
pub open spec fn chosen(g: RegionGroup, focus: Option<Seq<char>>) -> bool {
    g.enabled && match focus {
        Some(f) => g.name@ == f,
        None => true,
    }
}

/// The regions a scan covers: those of every chosen group, group by group.
pub open spec fn selected(groups: Seq<RegionGroup>, focus: Option<Seq<char>>) -> Seq<MemoryRegion>
    decreases groups.len(),
{
    if groups.len() == 0 {
        Seq::empty()
    } else {
        selected(groups.drop_last(), focus) + if chosen(groups.last(), focus) {
            groups.last().regions@
        } else {
            Seq::empty()
        }
    }
}

/// The view of an optional name.
pub open spec fn focus_view(focus: Option<String>) -> Option<Seq<char>> {
    match focus {
        Some(f) => Some(f@),
        None => None,
    }
}

/// The regions a scan covers: with a focus, those of the enabled group of that name;
/// without one, those of every enabled group, in the groups' order.
pub fn select_regions(groups: &Vec<RegionGroup>, focus: &Option<String>) -> (r: Vec<MemoryRegion>)
    ensures
        r@ == selected(groups@, focus_view(*focus)),
{
    let mut r: Vec<MemoryRegion> = Vec::new();
    let mut i: usize = 0;
    while i < groups.len()
        invariant
            i <= groups@.len(),
            r@ == selected(groups@.take(i as int), focus_view(*focus)),
        decreases groups@.len() - i,
    {
        let g = &groups[i];
        let take = g.enabled && match focus {
            Some(f) => g.name == *f,
            None => true,
        };
        let ghost before = r@;
        if take {
            let mut j: usize = 0;
            while j < g.regions.len()
                invariant
                    j <= g.regions@.len(),
                    r@ == before + g.regions@.take(j as int),
                decreases g.regions@.len() - j,
            {
                r.push(g.regions[j]);
                proof {
                    assert(g.regions@.take(j + 1) =~= g.regions@.take(j as int).push(
                        g.regions@[j as int],
                    ));
                }
                j = j + 1;
            }
            proof {
                assert(g.regions@.take(j as int) =~= g.regions@);
            }
        }
        proof {
            assert(groups@.take(i + 1).drop_last() =~= groups@.take(i as int));
            if !take {
                assert(r@ =~= before + Seq::<MemoryRegion>::empty());
            }
        }
        i = i + 1;
    }
    proof {
        assert(groups@.take(i as int) =~= groups@);
    }
    r
}

/// The name of the map entries that have none.
pub open spec fn anonymous() -> Seq<char> {
    seq!['[', 'A', 'n', 'o', 'n', 'y', 'm', 'o', 'u', 's', ']']
}

/// Where a group name sorts: anonymous memory first, then the heap, then the other
/// bracketed names, then files.
pub open spec fn rank(n: Seq<char>) -> nat {
    if n == anonymous() {
        0
    } else if n == seq!['[', 'h', 'e', 'a', 'p', ']'] {
        1
    } else if n.len() > 0 && n[0] == '[' {
        2
    } else {
        3
    }
}

/// `a` sorts strictly before `b` character by character, a proper prefix first.
pub open spec fn lex_less(a: Seq<char>, b: Seq<char>) -> bool
    decreases a.len(),
{
    if a.len() == 0 {
        b.len() > 0
    } else if b.len() == 0 {
        false
    } else if a[0] != b[0] {
        a[0] < b[0]
    } else {
        lex_less(a.drop_first(), b.drop_first())
    }
}

/// The order of region groups: by rank, then by name.
pub open spec fn name_before(a: Seq<char>, b: Seq<char>) -> bool {
    rank(a) < rank(b) || (rank(a) == rank(b) && lex_less(a, b))
}

proof fn lemma_lex_total(a: Seq<char>, b: Seq<char>)
    ensures
        !lex_less(a, a),
        lex_less(a, b) ==> !lex_less(b, a),
        a != b ==> lex_less(a, b) || lex_less(b, a),
    decreases a.len(),
{
    if a.len() > 0 && b.len() > 0 {
        lemma_lex_total(a.drop_first(), b.drop_first());
        if a[0] == b[0] && a != b {
            assert(a.drop_first() != b.drop_first()) by {
                if a.drop_first() == b.drop_first() {
                    assert(a =~= seq![a[0]] + a.drop_first());
                    assert(b =~= seq![b[0]] + b.drop_first());
                }
            }
        }
    } else if a.len() > 0 {
        lemma_lex_total(a.drop_first(), a.drop_first());
    } else if b.len() == 0 {
        assert(a =~= b);
    }
}

proof fn lemma_lex_trans(a: Seq<char>, b: Seq<char>, c: Seq<char>)
    requires
        lex_less(a, b),
        lex_less(b, c),
    ensures
        lex_less(a, c),
    decreases a.len(),
{
    if a.len() > 0 && b.len() > 0 && c.len() > 0 && a[0] == b[0] && b[0] == c[0] {
        lemma_lex_trans(a.drop_first(), b.drop_first(), c.drop_first());
    }
}

/// `name_before` is a strict total order.
pub proof fn lemma_name_order(a: Seq<char>, b: Seq<char>, c: Seq<char>)
    ensures
        !name_before(a, a),
        name_before(a, b) ==> !name_before(b, a),
        a != b ==> name_before(a, b) || name_before(b, a),
        name_before(a, b) && name_before(b, c) ==> name_before(a, c),
{
    lemma_lex_total(a, b);
    if name_before(a, b) && name_before(b, c) && rank(a) == rank(b) && rank(b) == rank(c) {
        lemma_lex_trans(a, b, c);
    }
}

fn rank_of(n: &Vec<char>) -> (r: u8)
    ensures
        r == rank(n@),
{
    let anon: Vec<char> = vec!['[', 'A', 'n', 'o', 'n', 'y', 'm', 'o', 'u', 's', ']'];
    let heap: Vec<char> = vec!['[', 'h', 'e', 'a', 'p', ']'];
    assert(anon@ =~= anonymous());
    assert(heap@ =~= seq!['[', 'h', 'e', 'a', 'p', ']']);
    proof {
        assert(n@.subrange(0, n@.len() as int) =~= n@);
    }
    if word_is(n, 0, n.len(), &anon) {
        0
    } else if word_is(n, 0, n.len(), &heap) {
        1
    } else if n.len() > 0 && n[0] == '[' {
        2
    } else {
        3
    }
}

fn lex_less_of(a: &Vec<char>, b: &Vec<char>) -> (r: bool)
    ensures
        r == lex_less(a@, b@),
{
    let mut i: usize = 0;
    proof {
        assert(a@.skip(0) =~= a@);
        assert(b@.skip(0) =~= b@);
    }
    while i < a.len() && i < b.len() && a[i] == b[i]
        invariant
            i <= a@.len(),
            i <= b@.len(),
            lex_less(a@, b@) == lex_less(a@.skip(i as int), b@.skip(i as int)),
        decreases a@.len() - i,
    {
        proof {
            assert(a@.skip(i as int).drop_first() =~= a@.skip(i + 1));
            assert(b@.skip(i as int).drop_first() =~= b@.skip(i + 1));
        }
        i = i + 1;
    }
    if i == a.len() {
        i < b.len()
    } else if i == b.len() {
        false
    } else {
        a[i] < b[i]
    }
}

fn name_before_of(a: &Vec<char>, b: &Vec<char>) -> (r: bool)
    ensures
        r == name_before(a@, b@),
{
    let ra = rank_of(a);
    let rb = rank_of(b);
    ra < rb || (ra == rb && lex_less_of(a, b))
}

/// The group name of a map line with fields `f`: its path (the fields from the sixth
/// on), or the anonymous name.
pub open spec fn name_of(f: Seq<Seq<char>>) -> Seq<char> {
    if f.len() >= 6 {
        joined(f.skip(5))
    } else {
        anonymous()
    }
}

/// The region and group name of a map line with fields `f`: `None` when its address
/// range is not hexadecimal; `Some(None)` when the line is skipped (too few fields, no
/// range, not readable, or empty).
pub open spec fn line_entry(f: Seq<Seq<char>>) -> Option<Option<(MemoryRegion, Seq<char>)>> {
    if f.len() < 2 {
        Some(None)
    } else {
        match first_index(f[0], '-') {
            None => Some(None),
            Some(d) => {
                let rest = f[0].skip(d + 1);
                let hi = match first_index(rest, '-') {
                    Some(d2) => rest.take(d2),
                    None => rest,
                };
                if first_index(f[1], 'r') is None {
                    Some(None)
                } else {
                    match (
                        int_in(f[0].take(d), 16, false, 0, usize::MAX as int),
                        int_in(hi, 16, false, 0, usize::MAX as int),
                    ) {
                        (Some(x), Some(y)) => if y <= x {
                            Some(None)
                        } else {
                            Some(
                                Some(
                                    (
                                        MemoryRegion { start: x as usize, end: y as usize },
                                        name_of(f),
                                    ),
                                ),
                            )
                        },
                        _ => None,
                    }
                }
            },
        }
    }
}

/// Where the first line of `t` ends.
pub open spec fn line_end(t: Seq<char>) -> int {
    match first_index(t, '\n') {
        Some(k) => k,
        None => t.len() as int,
    }
}

proof fn lemma_first_exists(s: Seq<char>, c: char, i: int) -> (k: int)
    requires
        0 <= i < s.len(),
        s[i] == c,
    ensures
        is_first(s, k, c),
    decreases i,
{
    if exists|j: int| 0 <= j < i && s[j] == c {
        let j = choose|j: int| 0 <= j < i && s[j] == c;
        lemma_first_exists(s, c, j)
    } else {
        i
    }
}

proof fn lemma_first_index_range(s: Seq<char>, c: char)
    ensures
        first_index(s, c) is Some ==> is_first(s, first_index(s, c)->0, c),
        first_index(s, c) is None ==> forall|i: int| 0 <= i < s.len() ==> s[i] != c,
{
    reveal(first_index);
    if first_index(s, c) is None {
        assert forall|i: int| 0 <= i < s.len() implies s[i] != c by {
            if s[i] == c {
                let k = lemma_first_exists(s, c, i);
            }
        }
    }
}

#[via_fn]
proof fn map_entries_decreases(t: Seq<char>) {
    lemma_first_index_range(t, '\n');
}

/// The region and name of each line of a memory map, in order; `None` when some
/// readable line's range is not hexadecimal.
pub open spec fn map_entries(t: Seq<char>) -> Option<Seq<(MemoryRegion, Seq<char>)>>
    decreases t.len(),
    via map_entries_decreases
{
    if t.len() == 0 {
        Some(Seq::empty())
    } else {
        let k = line_end(t);
        let rest = if k < t.len() {
            map_entries(t.skip(k + 1))
        } else {
            Some(Seq::empty())
        };
        match (line_entry(fields(t.take(k))), rest) {
            (Some(e), Some(r)) => Some(
                match e {
                    Some(x) => seq![x] + r,
                    None => r,
                },
            ),
            _ => None,
        }
    }
}

/// The entry of the map line `s[a..b]`, as `line_entry` says.
fn line_entry_of(s: &Vec<char>, a: usize, b: usize) -> (r: Result<Option<(MemoryRegion, Vec<char>)>, ()>)
    requires
        a <= b <= s@.len(),
    ensures
        match line_entry(fields(s@.subrange(a as int, b as int))) {
            None => r is Err,
            Some(None) => r == Ok::<Option<(MemoryRegion, Vec<char>)>, ()>(None),
            Some(Some(e)) => r is Ok && r->Ok_0 is Some && (r->Ok_0->0).0 == e.0 && (
            r->Ok_0->0).1@ == e.1,
        },
{
    let f = fields_of(s, a, b);
    let ghost fv = f@.map_values(|w: Vec<char>| w@);
    if f.len() < 2 {
        return Ok(None);
    }
    let range = &f[0];
    let perms = &f[1];
    assert(range@ == fv[0]);
    assert(perms@ == fv[1]);
    proof {
        assert(range@.subrange(0, range@.len() as int) =~= range@);
        assert(perms@.subrange(0, perms@.len() as int) =~= perms@);
    }
    let d = match index_of(range, 0, range.len(), '-') {
        Some(d) => d,
        None => return Ok(None),
    };
    let hi_end = match index_of(range, d + 1, range.len(), '-') {
        Some(e) => e,
        None => range.len(),
    };
    proof {
        let rest = range@.skip(d + 1);
        assert(rest =~= range@.subrange(d + 1, range@.len() as int));
        assert(range@.take(d as int) =~= range@.subrange(0, d as int));
        if hi_end < range@.len() {
            assert(rest.take(hi_end - d - 1) =~= range@.subrange(d + 1, hi_end as int));
        } else {
            assert(rest =~= range@.subrange(d + 1, hi_end as int));
        }
    }
    if index_of(perms, 0, perms.len(), 'r').is_none() {
        return Ok(None);
    }
    let lo = match int_at(range, 0, d, 16, false, 16, usize::MAX as u64) {
        Some(x) => x,
        None => return Err(()),
    };
    let hi = match int_at(range, d + 1, hi_end, 16, false, 16, usize::MAX as u64) {
        Some(y) => y,
        None => return Err(()),
    };
    if hi <= lo {
        return Ok(None);
    }
    let name = if f.len() >= 6 {
        join_from(&f, 5)
    } else {
        let anon: Vec<char> = vec!['[', 'A', 'n', 'o', 'n', 'y', 'm', 'o', 'u', 's', ']'];
        assert(anon@ =~= anonymous());
        anon
    };
    Ok(Some((MemoryRegion { start: lo as usize, end: hi as usize }, name)))
}

/// The entries parsed so far, followed by those of the rest of the text.
pub open spec fn prepend(
    done: Seq<(MemoryRegion, Seq<char>)>,
    rest: Option<Seq<(MemoryRegion, Seq<char>)>>,
) -> Option<Seq<(MemoryRegion, Seq<char>)>> {
    match rest {
        Some(r) => Some(done + r),
        None => None,
    }
}

pub open spec fn entries_view(es: Seq<(MemoryRegion, Vec<char>)>) -> Seq<(MemoryRegion, Seq<char>)> {
    es.map_values(|e: (MemoryRegion, Vec<char>)| (e.0, e.1@))
}

/// The entries of every line of the memory map `s`.
fn entries_of(s: &Vec<char>) -> (r: Option<Vec<(MemoryRegion, Vec<char>)>>)
    ensures
        match map_entries(s@) {
            None => r is None,
            Some(es) => r is Some && entries_view(r->0@) == es,
        },
{
    let mut done: Vec<(MemoryRegion, Vec<char>)> = Vec::new();
    let mut i: usize = 0;
    proof {
        assert(s@.skip(0) =~= s@);
        assert(entries_view(done@) + Seq::<(MemoryRegion, Seq<char>)>::empty() =~= Seq::<(MemoryRegion, Seq<char>)>::empty());
    }
    while i < s.len()
        invariant
            i <= s@.len(),
            map_entries(s@) == prepend(entries_view(done@), map_entries(s@.skip(i as int))),
        decreases s@.len() - i,
    {
        let ghost t = s@.skip(i as int);
        proof {
            assert(t =~= s@.subrange(i as int, s@.len() as int));
        }
        let k = match index_of(s, i, s.len(), '\n') {
            Some(k) => k,
            None => s.len(),
        };
        proof {
            assert(line_end(t) == k - i);
            assert(t.take(k - i) =~= s@.subrange(i as int, k as int));
            if k < s@.len() {
                assert(t.skip(k - i + 1) =~= s@.skip(k + 1));
            }
        }
        let ghost before = entries_view(done@);
        match line_entry_of(s, i, k) {
            Err(()) => {
                return None;
            },
            Ok(None) => {},
            Ok(Some(e)) => {
                done.push(e);
                proof {
                    assert(entries_view(done@) =~= before.push((e.0, e.1@)));
                }
            },
        }
        proof {
            let rest = if k < s@.len() {
                map_entries(s@.skip(k + 1))
            } else {
                Some(Seq::<(MemoryRegion, Seq<char>)>::empty())
            };
            if let Some(r) = rest {
                assert(before + (seq![(entries_view(done@).last())] + r) =~= entries_view(done@) + r
                    || entries_view(done@) == before);
            }
            if k >= s@.len() {
                assert(s@.skip(s@.len() as int) =~= Seq::<char>::empty());
            }
        }
        i = if k < s.len() {
            k + 1
        } else {
            s.len()
        };
        proof {
            let rest = map_entries(s@.skip(i as int));
            if let Some(r) = rest {
                if entries_view(done@) != before {
                    assert(before + (seq![entries_view(done@).last()] + r) =~= entries_view(done@)
                        + r);
                }
            }
        }
    }
    proof {
        assert(s@.skip(i as int) =~= Seq::<char>::empty());
        assert(entries_view(done@) + Seq::<(MemoryRegion, Seq<char>)>::empty() =~= entries_view(done@));
    }
    Some(done)
}

/// The regions of the entries named `n`, in order.
pub open spec fn regions_named(es: Seq<(MemoryRegion, Seq<char>)>, n: Seq<char>) -> Seq<MemoryRegion>
    decreases es.len(),
{
    if es.len() == 0 {
        Seq::empty()
    } else {
        regions_named(es.drop_last(), n) + if es.last().1 == n {
            seq![es.last().0]
        } else {
            Seq::empty()
        }
    }
}

proof fn lemma_regions_named_none(es: Seq<(MemoryRegion, Seq<char>)>, n: Seq<char>)
    requires
        forall|k: int| 0 <= k < es.len() ==> es[k].1 != n,
    ensures
        regions_named(es, n) == Seq::<MemoryRegion>::empty(),
    decreases es.len(),
{
    if es.len() > 0 {
        let t = es.drop_last();
        assert forall|k: int| 0 <= k < t.len() implies t[k].1 != n by {
            assert(t[k] == es[k]);
        }
        lemma_regions_named_none(t, n);
        assert(regions_named(es, n) =~= Seq::<MemoryRegion>::empty());
    }
}

/// Groups sorted by name, each with the regions of the entries of its name, and a group
/// for every entry.
pub open spec fn grouped_as(bs: Seq<(Seq<char>, Seq<MemoryRegion>)>, es: Seq<(MemoryRegion, Seq<char>)>) -> bool {
    &&& forall|i: int, j: int| 0 <= i < j < bs.len() ==> name_before(bs[i].0, bs[j].0)
    &&& forall|i: int| 0 <= i < bs.len() ==> #[trigger] bs[i].1 == regions_named(es, bs[i].0)
    &&& forall|k: int| 0 <= k < es.len() ==> has_group(bs, #[trigger] es[k].1)
}

/// Some group of `bs` has the name `n`.
pub open spec fn has_group(bs: Seq<(Seq<char>, Seq<MemoryRegion>)>, n: Seq<char>) -> bool {
    exists|i: int| 0 <= i < bs.len() && #[trigger] bs[i].0 == n
}

pub open spec fn buckets_view(bs: Seq<(Vec<char>, Vec<MemoryRegion>)>) -> Seq<(Seq<char>, Seq<MemoryRegion>)> {
    bs.map_values(|b: (Vec<char>, Vec<MemoryRegion>)| (b.0@, b.1@))
}

fn copy_chars(v: &Vec<char>) -> (r: Vec<char>)
    ensures
        r@ == v@,
{
    let mut r: Vec<char> = Vec::new();
    let mut i: usize = 0;
    while i < v.len()
        invariant
            i <= v@.len(),
            r@ == v@.take(i as int),
        decreases v@.len() - i,
    {
        r.push(v[i]);
        proof {
            assert(v@.take(i + 1) =~= v@.take(i as int).push(v@[i as int]));
        }
        i = i + 1;
    }
    proof {
        assert(v@.take(i as int) =~= v@);
    }
    r
}

/// Buckets the entries by name, in group order.
fn group_entries(es: &Vec<(MemoryRegion, Vec<char>)>) -> (r: Vec<(Vec<char>, Vec<MemoryRegion>)>)
    ensures
        grouped_as(buckets_view(r@), entries_view(es@)),
{
    let ghost ev = entries_view(es@);
    let mut bs: Vec<(Vec<char>, Vec<MemoryRegion>)> = Vec::new();
    let mut k: usize = 0;
    proof {
        assert(ev.take(0) =~= Seq::<(MemoryRegion, Seq<char>)>::empty());
    }
    while k < es.len()
        invariant
            k <= es@.len(),
            ev == entries_view(es@),
            grouped_as(buckets_view(bs@), ev.take(k as int)),
        decreases es@.len() - k,
    {
        let ghost old_bs = buckets_view(bs@);
        let ghost old_es = ev.take(k as int);
        let ghost new_es = ev.take(k + 1);
        let reg = es[k].0;
        let name = &es[k].1;
        let ghost n = name@;
        proof {
            assert(new_es.drop_last() =~= old_es);
            assert(new_es.last() == (reg, n));
        }
        let mut p: usize = 0;
        while p < bs.len() && name_before_of(&bs[p].0, name)
            invariant
                p <= bs@.len(),
                n == name@,
                forall|i: int| 0 <= i < p ==> name_before(buckets_view(bs@)[i].0, n),
            decreases bs@.len() - p,
        {
            proof {
                assert(buckets_view(bs@)[p as int].0 == bs@[p as int].0@);
            }
            p = p + 1;
        }
        let same = p < bs.len() && word_is(&bs[p].0, 0, bs[p].0.len(), name);
        proof {
            if p < bs@.len() {
                assert(bs@[p as int].0@.subrange(0, bs@[p as int].0@.len() as int) =~= bs@[p as int].0@);
            }
        }
        if same {
            let mut b = bs.remove(p);
            b.1.push(reg);
            bs.insert(p, b);
            proof {
                let nb = buckets_view(bs@);
                assert(nb =~= old_bs.update(p as int, (n, old_bs[p as int].1.push(reg))));
                assert forall|i: int| 0 <= i < nb.len() implies #[trigger] nb[i].1 == regions_named(
                    new_es,
                    nb[i].0,
                ) by {
                    if i != p {
                        lemma_name_order(old_bs[i].0, n, n);
                        if i < p {
                            assert(name_before(old_bs[i].0, old_bs[p as int].0));
                        } else {
                            assert(name_before(old_bs[p as int].0, old_bs[i].0));
                        }
                        assert(old_bs[i].0 != n);
                    }
                }
                assert forall|j: int| 0 <= j < new_es.len() implies has_group(nb, #[trigger] new_es[j].1) by {
                    if j < old_es.len() {
                        assert(new_es[j] == old_es[j]);
                        let i = choose|i: int| 0 <= i < old_bs.len() && #[trigger] old_bs[i].0 == old_es[j].1;
                        assert(has_group(old_bs, old_es[j].1));
                        assert(nb[i].0 == old_bs[i].0);
                    } else {
                        assert(nb[p as int].0 == n);
                    }
                }
            }
        } else {
            let mut fresh: Vec<MemoryRegion> = Vec::new();
            fresh.push(reg);
            bs.insert(p, (copy_chars(name), fresh));
            proof {
                let nb = buckets_view(bs@);
                assert(nb =~= old_bs.insert(p as int, (n, seq![reg])));
                assert forall|i: int| 0 <= i < old_bs.len() implies old_bs[i].0 != n by {
                    lemma_name_order(old_bs[i].0, n, n);
                    if i >= p {
                        lemma_name_order(old_bs[p as int].0, n, old_bs[i].0);
                        lemma_name_order(n, old_bs[p as int].0, old_bs[i].0);
                        if i > p {
                            assert(name_before(old_bs[p as int].0, old_bs[i].0));
                        }
                    }
                }
                assert forall|j: int| 0 <= j < old_es.len() implies old_es[j].1 != n by {
                    let i = choose|i: int| 0 <= i < old_bs.len() && #[trigger] old_bs[i].0 == old_es[j].1;
                        assert(has_group(old_bs, old_es[j].1));
                }
                lemma_regions_named_none(old_es, n);
                assert(regions_named(new_es, n) =~= seq![reg]);
                assert forall|a: int, b: int| 0 <= a < b < nb.len() implies name_before(
                    nb[a].0,
                    nb[b].0,
                ) by {
                    if a == p {
                        lemma_name_order(old_bs[p as int].0, n, n);
                        lemma_name_order(n, old_bs[p as int].0, old_bs[b - 1].0);
                        if b - 1 > p {
                            assert(name_before(old_bs[p as int].0, old_bs[b - 1].0));
                        }
                    } else if b == p {
                    } else if a < p && b > p {
                        assert(name_before(old_bs[a].0, old_bs[b - 1].0));
                    } else if a > p {
                        assert(name_before(old_bs[a - 1].0, old_bs[b - 1].0));
                    }
                }
                assert forall|i: int| 0 <= i < nb.len() implies #[trigger] nb[i].1 == regions_named(
                    new_es,
                    nb[i].0,
                ) by {
                    if i < p {
                        assert(nb[i] == old_bs[i]);
                    } else if i > p {
                        assert(nb[i] == old_bs[i - 1]);
                    }
                }
                assert forall|j: int| 0 <= j < new_es.len() implies has_group(nb, #[trigger] new_es[j].1) by {
                    if j < old_es.len() {
                        assert(new_es[j] == old_es[j]);
                        let i = choose|i: int| 0 <= i < old_bs.len() && #[trigger] old_bs[i].0 == old_es[j].1;
                        assert(has_group(old_bs, old_es[j].1));
                        if i < p {
                            assert(nb[i].0 == old_bs[i].0);
                        } else {
                            assert(nb[i + 1].0 == old_bs[i].0);
                        }
                    } else {
                        assert(nb[p as int].0 == n);
                    }
                }
            }
        }
        k = k + 1;
    }
    proof {
        assert(ev.take(k as int) =~= ev);
    }
    bs
}

/// The names and regions of `gs`.
pub open spec fn groups_view(gs: Seq<RegionGroup>) -> Seq<(Seq<char>, Seq<MemoryRegion>)> {
    gs.map_values(|g: RegionGroup| (g.name@, g.regions@))
}

/// Relies on `String`'s `FromIterator<char>`: the string holds exactly the given
/// characters, in order.
#[verifier::external_body]
fn string_from(cs: &Vec<char>) -> (r: String)
    ensures
        r@ == cs@,
{
    cs.iter().collect()
}

/// Reads a memory map (one region per line: `start-end perms offset dev inode path`) into
/// region groups: one per name, all enabled, each with its readable non-empty regions in
/// line order, sorted anonymous memory first, then the heap, the other bracketed names,
/// and the files. `None` when a readable line's range is not hexadecimal.
pub fn parse_maps(text: &str) -> (r: Option<Vec<RegionGroup>>)
    ensures
        match map_entries(text@) {
            None => r is None,
            Some(es) => r is Some && grouped_as(groups_view(r->0@), es) && forall|i: int|
                0 <= i < r->0@.len() ==> (#[trigger] r->0@[i]).enabled,
        },
{
    let s = chars_of(text);
    let es = match entries_of(&s) {
        Some(es) => es,
        None => return None,
    };
    let bs = group_entries(&es);
    let mut gs: Vec<RegionGroup> = Vec::new();
    let mut i: usize = 0;
    while i < bs.len()
        invariant
            i <= bs@.len(),
            groups_view(gs@) == buckets_view(bs@).take(i as int),
            forall|j: int| 0 <= j < gs@.len() ==> (#[trigger] gs@[j]).enabled,
        decreases bs@.len() - i,
    {
        let mut regions: Vec<MemoryRegion> = Vec::new();
        let mut j: usize = 0;
        while j < bs[i].1.len()
            invariant
                i < bs@.len(),
                j <= bs@[i as int].1@.len(),
                regions@ == bs@[i as int].1@.take(j as int),
            decreases bs@[i as int].1@.len() - j,
        {
            regions.push(bs[i].1[j]);
            proof {
                assert(bs@[i as int].1@.take(j + 1) =~= bs@[i as int].1@.take(j as int).push(
                    bs@[i as int].1@[j as int],
                ));
            }
            j = j + 1;
        }
        proof {
            assert(bs@[i as int].1@.take(j as int) =~= bs@[i as int].1@);
        }
        let g = RegionGroup { name: string_from(&bs[i].0), enabled: true, regions };
        let ghost before = gs@;
        gs.push(g);
        proof {
            assert(groups_view(gs@) =~= groups_view(before).push((g.name@, g.regions@)));
            assert(buckets_view(bs@).take(i + 1) =~= buckets_view(bs@).take(i as int).push(
                buckets_view(bs@)[i as int],
            ));
        }
        i = i + 1;
    }
    proof {
        assert(buckets_view(bs@).take(i as int) =~= buckets_view(bs@));
    }
    Some(gs)
}

} // verus!
