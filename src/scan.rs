use crate::compare::{Arith, FloatOps, FloatOrder, FloatPair, FloatSyntax, ScanMode};
use crate::region::{focus_view, select_regions, selected, MemoryRegion, RegionGroup};
use crate::value::ValueType;
use vstd::prelude::*;

verus! {

/// An address the scan currently considers, with the value last read there.
#[derive(Clone, Copy, Debug, PartialEq, Eq, Structural)]
pub struct Candidate {
    pub addr: usize,
    pub value: ValueType,
}

/// The value `s` binds to `a`: that of the last entry for `a`.
pub open spec fn lookup(s: Seq<Candidate>, a: int) -> Option<ValueType>
    decreases s.len(),
{
    if s.len() == 0 {
        None
    } else if s.last().addr == a {
        Some(s.last().value)
    } else {
        lookup(s.drop_last(), a)
    }
}

/// The addresses of `s`, in order.
pub open spec fn keys(s: Seq<Candidate>) -> Seq<usize> {
    s.map_values(|c: Candidate| c.addr)
}

/// The addresses of `s` strictly increase.
pub open spec fn sorted(s: Seq<Candidate>) -> bool {
    forall|i: int, j: int| 0 <= i < j < s.len() ==> s[i].addr < s[j].addr
}

/// Every address of `s` lies below `x`.
pub open spec fn all_below(s: Seq<Candidate>, x: int) -> bool {
    forall|i: int| 0 <= i < s.len() ==> s[i].addr < x
}

pub proof fn lemma_lookup_push(s: Seq<Candidate>, c: Candidate, a: int)
    ensures
        lookup(s.push(c), a) == if c.addr == a {
            Some(c.value)
        } else {
            lookup(s, a)
        },
{
    assert(s.push(c).drop_last() =~= s);
}

pub proof fn lemma_lookup_below(s: Seq<Candidate>, x: int, a: int)
    requires
        all_below(s, x),
        a >= x,
    ensures
        lookup(s, a) is None,
    decreases s.len(),
{
    if s.len() > 0 {
        lemma_lookup_below(s.drop_last(), x, a);
    }
}

/// `lookup` finds exactly the entries of `s`.
pub proof fn lemma_lookup_index(s: Seq<Candidate>, a: int)
    requires
        sorted(s),
    ensures
        lookup(s, a) is Some <==> exists|i: int| 0 <= i < s.len() && s[i].addr == a,
        forall|i: int| 0 <= i < s.len() && s[i].addr == a ==> lookup(s, a) == Some(s[i].value),
    decreases s.len(),
{
    if s.len() > 0 {
        let t = s.drop_last();
        lemma_lookup_index(t, a);
        assert forall|i: int| 0 <= i < s.len() && s[i].addr == a implies lookup(s, a) == Some(
            s[i].value,
        ) by {
            if i < s.len() - 1 {
                assert(t[i] == s[i]);
            }
        }
        if lookup(s, a) is Some && s.last().addr != a {
            let i = choose|i: int| 0 <= i < t.len() && t[i].addr == a;
            assert(s[i] == t[i]);
        }
        if exists|i: int| 0 <= i < s.len() && s[i].addr == a {
            let i = choose|i: int| 0 <= i < s.len() && s[i].addr == a;
            if i < s.len() - 1 {
                assert(t[i] == s[i]);
            }
        }
    }
}

/// A slot of width `w` begins `off` bytes into a buffer of `len` bytes, on the stride.
pub open spec fn on_stride(off: int, w: nat, len: nat) -> bool {
    0 <= off && off % (w as int) == 0 && off + w <= len
}

impl<P, O, A> FloatOps<P, O, A> where
    P: Fn(Vec<char>, FloatSyntax) -> Option<ValueType>,
    O: Fn(FloatPair) -> FloatOrder,
    A: Fn(FloatPair, Arith) -> u64,
 {
    /// What a pass over the bytes `buf` read at `start` binds to the address `a`: the
    /// value of the last of `tags[..k]` whose stride lands on `a` and, in an exact scan,
    /// that reads as `inp`.
    pub open spec fn region_hit(
        &self,
        start: int,
        buf: Seq<u8>,
        tags: Seq<ValueType>,
        k: int,
        mode: ScanMode,
        inp: ValueType,
        a: int,
    ) -> Option<ValueType>
        decreases k,
    {
        if k <= 0 {
            None
        } else {
            let t = tags[k - 1];
            let off = a - start;
            let v = ValueType::decoded(buf.subrange(off, buf.len() as int), t);
            if on_stride(off, t.width(), buf.len()) && (mode != ScanMode::Exact
                || self.equal_values(v, inp)) {
                Some(v)
            } else {
                self.region_hit(start, buf, tags, k - 1, mode, inp, a)
            }
        }
    }
}

/// The value a pass over `buf`, read at `start`, binds to `start + i`.
fn slot_hit<P, O, A>(
    start: usize,
    buf: &Vec<u8>,
    tags: &Vec<ValueType>,
    i: usize,
    mode: ScanMode,
    inp: &ValueType,
    fl: &FloatOps<P, O, A>,
) -> (r: Option<ValueType>) where
    P: Fn(Vec<char>, FloatSyntax) -> Option<ValueType>,
    O: Fn(FloatPair) -> FloatOrder,
    A: Fn(FloatPair, Arith) -> u64,

    requires
        fl.wf(),
        i < buf@.len(),
    ensures
        r == fl.region_hit(start as int, buf@, tags@, tags@.len() as int, mode, *inp, start + i),
{
    let mut k: usize = tags.len();
    while k > 0
        invariant
            k <= tags@.len(),
            i < buf@.len(),
            fl.wf(),
            fl.region_hit(start as int, buf@, tags@, tags@.len() as int, mode, *inp, start + i)
                == fl.region_hit(start as int, buf@, tags@, k as int, mode, *inp, start + i),
        decreases k,
    {
        let t = tags[k - 1];
        let w = ValueType::type_size(&t);
        if i % w == 0 && w <= buf.len() && i <= buf.len() - w {
            let v = ValueType::decode_at(buf, i, &t);
            let take = match mode {
                ScanMode::Exact => v.equals(inp, fl),
                _ => true,
            };
            if take {
                return Some(v);
            }
        }
        k = k - 1;
    }
    None
}

/// The candidates one pass over the bytes `buf`, read at `start`, yields, by address.
fn scan_region<P, O, A>(
    start: usize,
    buf: &Vec<u8>,
    tags: &Vec<ValueType>,
    mode: ScanMode,
    inp: &ValueType,
    fl: &FloatOps<P, O, A>,
) -> (r: Vec<Candidate>) where
    P: Fn(Vec<char>, FloatSyntax) -> Option<ValueType>,
    O: Fn(FloatPair) -> FloatOrder,
    A: Fn(FloatPair, Arith) -> u64,

    requires
        fl.wf(),
        start + buf@.len() <= usize::MAX,
    ensures
        sorted(r@),
        forall|a: int|
            lookup(r@, a) == fl.region_hit(
                start as int,
                buf@,
                tags@,
                tags@.len() as int,
                mode,
                *inp,
                a,
            ),
{
    let mut r: Vec<Candidate> = Vec::new();
    let mut i: usize = 0;
    while i < buf.len()
        invariant
            fl.wf(),
            i <= buf@.len(),
            start + buf@.len() <= usize::MAX,
            sorted(r@),
            forall|j: int| 0 <= j < r@.len() ==> start <= #[trigger] r@[j].addr < start + i,
            forall|a: int|
                start <= a < start + i ==> lookup(r@, a) == fl.region_hit(
                    start as int,
                    buf@,
                    tags@,
                    tags@.len() as int,
                    mode,
                    *inp,
                    a,
                ),
        decreases buf@.len() - i,
    {
        let hit = slot_hit(start, buf, tags, i, mode, inp, fl);
        let ghost before = r@;
        if let Some(v) = hit {
            r.push(Candidate { addr: start + i, value: v });
        }
        proof {
            assert forall|a: int|
                start <= a < start + i + 1 implies lookup(r@, a) == fl.region_hit(
                start as int,
                buf@,
                tags@,
                tags@.len() as int,
                mode,
                *inp,
                a,
            ) by {
                if hit is Some {
                    lemma_lookup_push(before, r@.last(), a);
                    assert(r@ == before.push(r@.last()));
                }
                if a == start + i {
                    if hit is None {
                        assert(all_below(before, start + i));
                        lemma_lookup_below(before, start + i, a);
                    }
                }
            }
        }
        i = i + 1;
    }
    proof {
        assert forall|a: int|
            lookup(r@, a) == fl.region_hit(
                start as int,
                buf@,
                tags@,
                tags@.len() as int,
                mode,
                *inp,
                a,
            ) by {
            if a < start || a >= start + buf@.len() {
                lemma_region_miss(fl, start as int, buf@, tags@, tags@.len() as int, mode, *inp, a);
                lemma_lookup_index(r@, a);
            }
        }
    }
    r
}

/// Outside the buffer no slot begins.
proof fn lemma_region_miss<P, O, A>(
    fl: &FloatOps<P, O, A>,
    start: int,
    buf: Seq<u8>,
    tags: Seq<ValueType>,
    k: int,
    mode: ScanMode,
    inp: ValueType,
    a: int,
) where
    P: Fn(Vec<char>, FloatSyntax) -> Option<ValueType>,
    O: Fn(FloatPair) -> FloatOrder,
    A: Fn(FloatPair, Arith) -> u64,

    requires
        a < start || a >= start + buf.len(),
        k <= tags.len(),
    ensures
        fl.region_hit(start, buf, tags, k, mode, inp, a) is None,
    decreases k,
{
    if k > 0 {
        crate::value::lemma_raw_fits(tags[k - 1]);
        lemma_region_miss(fl, start, buf, tags, k - 1, mode, inp, a);
    }
}

/// `first` where it binds `a`, else `second`.
pub open spec fn either(first: Option<ValueType>, second: Option<ValueType>) -> Option<ValueType> {
    match first {
        Some(v) => Some(v),
        None => second,
    }
}

/// Joins two candidate lists by address; where both hold an address, `newer` wins.
fn merge(older: &Vec<Candidate>, newer: &Vec<Candidate>) -> (r: Vec<Candidate>)
    requires
        sorted(older@),
        sorted(newer@),
    ensures
        sorted(r@),
        forall|a: int| lookup(r@, a) == either(lookup(newer@, a), lookup(older@, a)),
{
    let mut r: Vec<Candidate> = Vec::new();
    let mut i: usize = 0;
    let mut j: usize = 0;
    while i < older.len() || j < newer.len()
        invariant
            i <= older@.len(),
            j <= newer@.len(),
            sorted(older@),
            sorted(newer@),
            sorted(r@),
            i < older@.len() ==> all_below(r@, older@[i as int].addr as int),
            j < newer@.len() ==> all_below(r@, newer@[j as int].addr as int),
            forall|a: int|
                lookup(r@, a) == either(
                    lookup(newer@.take(j as int), a),
                    lookup(older@.take(i as int), a),
                ),
        decreases older@.len() + newer@.len() - i - j,
    {
        let ghost before = r@;
        let ghost oi = i;
        let ghost nj = j;
        let take_old = j == newer.len() || (i < older.len() && older[i].addr < newer[j].addr);
        let take_new_only = !take_old && (i == older.len() || newer[j].addr < older[i].addr);
        let c = if take_old {
            older[i]
        } else {
            newer[j]
        };
        r.push(c);
        if take_old {
            i = i + 1;
        } else if take_new_only {
            j = j + 1;
        } else {
            i = i + 1;
            j = j + 1;
        }
        proof {
            assert(older@.take(i as int) =~= if i == oi {
                older@.take(oi as int)
            } else {
                older@.take(oi as int).push(older@[oi as int])
            });
            assert(newer@.take(j as int) =~= if j == nj {
                newer@.take(nj as int)
            } else {
                newer@.take(nj as int).push(newer@[nj as int])
            });
            assert(r@ == before.push(c));
            lemma_lookup_below(before, c.addr as int, c.addr as int);
            assert forall|a: int|
                lookup(r@, a) == either(
                    lookup(newer@.take(j as int), a),
                    lookup(older@.take(i as int), a),
                ) by {
                lemma_lookup_push(before, c, a);
                if i != oi {
                    lemma_lookup_push(older@.take(oi as int), older@[oi as int], a);
                }
                if j != nj {
                    lemma_lookup_push(newer@.take(nj as int), newer@[nj as int], a);
                }
            }
            if i < older@.len() {
                if i != oi {
                    assert(older@[oi as int].addr < older@[i as int].addr);
                }
            }
            if j < newer@.len() {
                if j != nj {
                    assert(newer@[nj as int].addr < newer@[j as int].addr);
                }
            }
        }
    }
    proof {
        assert(older@.take(i as int) =~= older@);
        assert(newer@.take(j as int) =~= newer@);
    }
    r
}

impl<P, O, A> FloatOps<P, O, A> where
    P: Fn(Vec<char>, FloatSyntax) -> Option<ValueType>,
    O: Fn(FloatPair) -> FloatOrder,
    A: Fn(FloatPair, Arith) -> u64,
 {
    /// What a first scan over the first `n` regions binds to `a`: the hit in the last of
    /// them that was read and has one. A region that could not be read (`None`) yields
    /// nothing.
    pub open spec fn scan_binding(
        &self,
        regions: Seq<MemoryRegion>,
        reads: Seq<Option<Vec<u8>>>,
        tags: Seq<ValueType>,
        mode: ScanMode,
        inp: ValueType,
        n: int,
        a: int,
    ) -> Option<ValueType>
        decreases n,
    {
        if n <= 0 {
            None
        } else {
            let here = match reads[n - 1] {
                Some(b) => self.region_hit(
                    regions[n - 1].start as int,
                    b@,
                    tags,
                    tags.len() as int,
                    mode,
                    inp,
                    a,
                ),
                None => None,
            };
            either(here, self.scan_binding(regions, reads, tags, mode, inp, n - 1, a))
        }
    }
}

/// Each read that succeeded fits in the address space after its region's start.
pub open spec fn reads_fit(regions: Seq<MemoryRegion>, reads: Seq<Option<Vec<u8>>>) -> bool {
    &&& reads.len() == regions.len()
    &&& forall|j: int|
        0 <= j < reads.len() && (#[trigger] reads[j]) is Some ==> regions[j].start + reads[j]->0@.len()
            <= usize::MAX
}

/// The candidate map of a first scan over the bytes read from each region.
fn baseline<P, O, A>(
    regions: &Vec<MemoryRegion>,
    reads: &Vec<Option<Vec<u8>>>,
    tags: &Vec<ValueType>,
    mode: ScanMode,
    inp: &ValueType,
    fl: &FloatOps<P, O, A>,
) -> (r: Vec<Candidate>) where
    P: Fn(Vec<char>, FloatSyntax) -> Option<ValueType>,
    O: Fn(FloatPair) -> FloatOrder,
    A: Fn(FloatPair, Arith) -> u64,

    requires
        fl.wf(),
        reads_fit(regions@, reads@),
    ensures
        sorted(r@),
        forall|a: int|
            lookup(r@, a) == fl.scan_binding(
                regions@,
                reads@,
                tags@,
                mode,
                *inp,
                regions@.len() as int,
                a,
            ),
{
    let mut acc: Vec<Candidate> = Vec::new();
    let mut j: usize = 0;
    while j < regions.len()
        invariant
            fl.wf(),
            j <= regions@.len(),
            reads_fit(regions@, reads@),
            sorted(acc@),
            forall|a: int|
                lookup(acc@, a) == fl.scan_binding(regions@, reads@, tags@, mode, *inp, j as int, a),
        decreases regions@.len() - j,
    {
        match &reads[j] {
            Some(buf) => {
                let part = scan_region(regions[j].start, buf, tags, mode, inp, fl);
                acc = merge(&acc, &part);
            },
            None => {},
        }
        j = j + 1;
    }
    acc
}

impl<P, O, A> FloatOps<P, O, A> where
    P: Fn(Vec<char>, FloatSyntax) -> Option<ValueType>,
    O: Fn(FloatPair) -> FloatOrder,
    A: Fn(FloatPair, Arith) -> u64,
 {
    /// The new value of a candidate that held `old`: that of the last of `tags[..k]`
    /// whose read (`reads`, one per tag) gave the tag's width in bytes and whose value
    /// passes `mode`.
    pub open spec fn refine_hit(
        &self,
        old: ValueType,
        reads: Seq<Option<Vec<u8>>>,
        tags: Seq<ValueType>,
        k: int,
        mode: ScanMode,
        inp: ValueType,
    ) -> Option<ValueType>
        decreases k,
    {
        if k <= 0 {
            None
        } else {
            let t = tags[k - 1];
            let got = if k - 1 < reads.len() {
                reads[k - 1]
            } else {
                None
            };
            match got {
                Some(b) => if b@.len() == t.width() && self.passes(
                    mode,
                    old,
                    ValueType::decoded(b@, t),
                    inp,
                ) {
                    Some(ValueType::decoded(b@, t))
                } else {
                    self.refine_hit(old, reads, tags, k - 1, mode, inp)
                },
                None => self.refine_hit(old, reads, tags, k - 1, mode, inp),
            }
        }
    }

    /// The candidates of `prev` that pass `mode`, in order, each with its new value;
    /// `reads[i]` holds the reads made at `prev[i]`, one per tag.
    pub open spec fn refined(
        &self,
        prev: Seq<Candidate>,
        reads: Seq<Vec<Option<Vec<u8>>>>,
        tags: Seq<ValueType>,
        mode: ScanMode,
        inp: ValueType,
    ) -> Seq<Candidate>
        decreases prev.len(),
    {
        if prev.len() == 0 {
            Seq::empty()
        } else {
            let n = prev.len() - 1;
            let rest = self.refined(prev.drop_last(), reads, tags, mode, inp);
            match self.refine_hit(prev[n].value, reads[n]@, tags, tags.len() as int, mode, inp) {
                Some(v) => rest.push(Candidate { addr: prev[n].addr, value: v }),
                None => rest,
            }
        }
    }

    /// A refinement keeps a subset of the addresses it started from, in their order.
    pub proof fn lemma_refined_within(
        &self,
        prev: Seq<Candidate>,
        reads: Seq<Vec<Option<Vec<u8>>>>,
        tags: Seq<ValueType>,
        mode: ScanMode,
        inp: ValueType,
        x: int,
    )
        requires
            sorted(prev),
            all_below(prev, x),
        ensures
            sorted(self.refined(prev, reads, tags, mode, inp)),
            all_below(self.refined(prev, reads, tags, mode, inp), x),
            forall|i: int|
                0 <= i < self.refined(prev, reads, tags, mode, inp).len() ==> keys(prev).contains(
                    #[trigger] self.refined(prev, reads, tags, mode, inp)[i].addr,
                ),
        decreases prev.len(),
    {
        if prev.len() > 0 {
            let n = prev.len() - 1;
            let t = prev.drop_last();
            assert(all_below(t, prev[n].addr as int));
            self.lemma_refined_within(t, reads, tags, mode, inp, prev[n].addr as int);
            let rest = self.refined(t, reads, tags, mode, inp);
            assert forall|i: int| 0 <= i < rest.len() implies keys(prev).contains(
                #[trigger] rest[i].addr,
            ) by {
                assert(keys(t).contains(rest[i].addr));
                let j = choose|j: int| 0 <= j < keys(t).len() && keys(t)[j] == rest[i].addr;
                assert(keys(prev)[j] == rest[i].addr);
            }
            assert(keys(prev)[n] == prev[n].addr);
        }
    }
}

/// The refinement of `prev` by the reads made at each of its candidates.
fn refine<P, O, A>(
    prev: &Vec<Candidate>,
    reads: &Vec<Vec<Option<Vec<u8>>>>,
    tags: &Vec<ValueType>,
    mode: ScanMode,
    inp: &ValueType,
    fl: &FloatOps<P, O, A>,
) -> (r: Vec<Candidate>) where
    P: Fn(Vec<char>, FloatSyntax) -> Option<ValueType>,
    O: Fn(FloatPair) -> FloatOrder,
    A: Fn(FloatPair, Arith) -> u64,

    requires
        fl.wf(),
        reads@.len() == prev@.len(),
    ensures
        r@ == fl.refined(prev@, reads@, tags@, mode, *inp),
{
    let mut r: Vec<Candidate> = Vec::new();
    let mut i: usize = 0;
    while i < prev.len()
        invariant
            fl.wf(),
            i <= prev@.len(),
            reads@.len() == prev@.len(),
            r@ == fl.refined(prev@.take(i as int), reads@, tags@, mode, *inp),
        decreases prev@.len() - i,
    {
        let c = prev[i];
        let here = &reads[i];
        let mut k: usize = tags.len();
        let mut hit: Option<ValueType> = None;
        while k > 0
            invariant_except_break
                hit is None,
            invariant
                fl.wf(),
                k <= tags@.len(),
                fl.refine_hit(c.value, here@, tags@, tags@.len() as int, mode, *inp)
                    == fl.refine_hit(c.value, here@, tags@, k as int, mode, *inp),
            ensures
                hit == fl.refine_hit(c.value, here@, tags@, tags@.len() as int, mode, *inp),
            decreases k,
        {
            let t = tags[k - 1];
            if k - 1 < here.len() {
                if let Some(b) = &here[k - 1] {
                    if b.len() == ValueType::type_size(&t) {
                        let v = ValueType::decode_at(b, 0, &t);
                        proof {
                            assert(b@.subrange(0, b@.len() as int) =~= b@);
                        }
                        if ValueType::comparator(&mode, &c.value, &v, inp, fl) {
                            hit = Some(v);
                            break;
                        }
                    }
                }
            }
            k = k - 1;
        }
        proof {
            assert(prev@.take(i + 1).drop_last() =~= prev@.take(i as int));
            assert(prev@.take(i + 1)[i as int] == c);
        }
        if let Some(v) = hit {
            r.push(Candidate { addr: c.addr, value: v });
        }
        i = i + 1;
    }
    proof {
        assert(prev@.take(i as int) =~= prev@);
    }
    r
}

/// What went wrong in a scan or a write.
#[derive(Clone, Copy, Debug, PartialEq, Eq, Structural)]
pub enum ScanError {
    /// The operator's value text does not parse.
    BadValue,
    /// A first scan found no region to look at.
    NoRegions,
    /// The target's memory is not open.
    NotAttached,
    /// Reading or writing the target's memory failed.
    IoError,
    /// A refinement came before any first scan.
    NoBaseline,
}

impl ScanError {
    /// The text shown to the operator.
    pub open spec fn text(self) -> Seq<char> {
        match self {
            ScanError::BadValue => "Failed to parse value"@,
            ScanError::NoRegions => "No enabled regions"@,
            ScanError::NotAttached => "not attached"@,
            ScanError::IoError => "I/O error"@,
            ScanError::NoBaseline => "No baseline"@,
        }
    }

    pub fn message(&self) -> (r: &'static str)
        ensures
            r@ == self.text(),
    {
        match self {
            ScanError::BadValue => "Failed to parse value",
            ScanError::NoRegions => "No enabled regions",
            ScanError::NotAttached => "not attached",
            ScanError::IoError => "I/O error",
            ScanError::NoBaseline => "No baseline",
        }
    }
}

/// The variants a scan for `inp` looks for: the operator's explicit choice, else the
/// value's own scan list.
pub open spec fn tags_for(inp: ValueType, type_filter: Option<Vec<ValueType>>) -> Seq<ValueType> {
    match type_filter {
        Some(t) => t@,
        None => inp.scan_list(),
    }
}

/// The history with its last refinement undone; the baseline is never dropped.
pub open spec fn popped(h: Seq<Seq<Candidate>>) -> Seq<Seq<Candidate>> {
    if h.len() > 1 {
        h.drop_last()
    } else {
        h
    }
}

/// The results a history shows: the addresses of its last map.
pub open spec fn shown(h: Seq<Seq<Candidate>>) -> Seq<usize> {
    if h.len() == 0 {
        Seq::empty()
    } else {
        keys(h.last())
    }
}

pub fn scan_tags(inp: &ValueType, type_filter: &Option<Vec<ValueType>>) -> (r: Vec<ValueType>)
    ensures
        r@ == tags_for(*inp, *type_filter),
{
    match type_filter {
        Some(t) => t.clone(),
        None => ValueType::scan_types(inp),
    }
}

/// The addresses of `m`, in order.
pub fn keys_of(m: &Vec<Candidate>) -> (r: Vec<usize>)
    ensures
        r@ == keys(m@),
{
    let mut r: Vec<usize> = Vec::new();
    let mut i: usize = 0;
    while i < m.len()
        invariant
            i <= m@.len(),
            r@ == keys(m@.take(i as int)),
        decreases m@.len() - i,
    {
        r.push(m[i].addr);
        proof {
            assert(keys(m@.take(i + 1)) =~= keys(m@.take(i as int)).push(m@[i as int].addr));
        }
        i = i + 1;
    }
    proof {
        assert(m@.take(i as int) =~= m@);
    }
    r
}

impl<P, O, A> FloatOps<P, O, A> where
    P: Fn(Vec<char>, FloatSyntax) -> Option<ValueType>,
    O: Fn(FloatPair) -> FloatOrder,
    A: Fn(FloatPair, Arith) -> u64,
 {
    /// `m` is the candidate map of a first scan: by address, binding each address as
    /// the scan does.
    pub open spec fn is_baseline(
        &self,
        m: Seq<Candidate>,
        regions: Seq<MemoryRegion>,
        reads: Seq<Option<Vec<u8>>>,
        tags: Seq<ValueType>,
        mode: ScanMode,
        inp: ValueType,
    ) -> bool {
        &&& sorted(m)
        &&& forall|a: int|
            lookup(m, a) == self.scan_binding(
                regions,
                reads,
                tags,
                mode,
                inp,
                regions.len() as int,
                a,
            )
    }
}

/// The scan session on one target process: whether its memory is open, and the history
/// of candidate maps with the addresses of the latest.
pub struct MemoryScanner {
    pub is_attached: bool,
    pub pid: i32,
    pub scan_history: Vec<Vec<Candidate>>,
    pub scan_results: Vec<usize>,
}

impl MemoryScanner {
    /// The candidate maps, oldest first.
    pub open spec fn history(&self) -> Seq<Seq<Candidate>> {
        self.scan_history@.map_values(|m: Vec<Candidate>| m@)
    }

    /// Each map is ordered by address, each refinement keeps only addresses of the map
    /// before it, and the results are the addresses of the last map.
    pub open spec fn wf(&self) -> bool {
        &&& forall|i: int| 0 <= i < self.history().len() ==> sorted(#[trigger] self.history()[i])
        &&& forall|i: int, j: int|
            1 <= i < self.history().len() && 0 <= j < self.history()[i].len() ==> keys(
                self.history()[i - 1],
            ).contains(#[trigger] self.history()[i][j].addr)
        &&& self.scan_results@ == shown(self.history())
    }

    pub fn new(pid: i32) -> (r: MemoryScanner)
        ensures
            r.pid == pid,
            !r.is_attached,
            r.history().len() == 0,
            r.wf(),
    {
        let r = MemoryScanner {
            is_attached: false,
            pid,
            scan_history: Vec::new(),
            scan_results: Vec::new(),
        };
        proof {
            assert(r.history() =~= Seq::<Seq<Candidate>>::empty());
        }
        r
    }

    /// Switches to another process; the memory of the previous one is closed.
    pub fn set_pid(&mut self, pid: i32)
        ensures
            final(self).pid == pid,
            !final(self).is_attached,
            final(self).scan_history == old(self).scan_history,
            final(self).scan_results == old(self).scan_results,
    {
        self.detach();
        self.pid = pid;
    }

    pub fn detach(&mut self)
        ensures
            !final(self).is_attached,
            final(self).pid == old(self).pid,
            final(self).scan_history == old(self).scan_history,
            final(self).scan_results == old(self).scan_results,
    {
        self.is_attached = false;
    }

    /// Whether the target's memory has yet to be opened: not open, and a process is set.
    pub fn needs_attach(&self) -> (r: bool)
        ensures
            r == (!self.is_attached && self.pid > 0),
    {
        !self.is_attached && self.pid > 0
    }

    /// Records that the target's memory is open.
    pub fn set_attached(&mut self)
        ensures
            final(self).is_attached,
            final(self).pid == old(self).pid,
            final(self).scan_history == old(self).scan_history,
            final(self).scan_results == old(self).scan_results,
    {
        self.is_attached = true;
    }

    pub fn reset_scan(&mut self)
        ensures
            final(self).history().len() == 0,
            final(self).scan_results@.len() == 0,
            final(self).wf(),
            final(self).pid == old(self).pid,
            final(self).is_attached == old(self).is_attached,
    {
        self.scan_history.clear();
        self.scan_results.clear();
        proof {
            assert(self.history() =~= Seq::<Seq<Candidate>>::empty());
        }
    }

    pub fn previous_scan(&mut self)
        requires
            old(self).wf(),
        ensures
            final(self).history() == popped(old(self).history()),
            final(self).wf(),
            final(self).pid == old(self).pid,
            final(self).is_attached == old(self).is_attached,
    {
        if self.scan_history.len() > 1 {
            let ghost h = self.history();
            self.scan_history.pop();
            proof {
                assert(self.history() =~= h.drop_last());
            }
            let last = self.scan_history.len() - 1;
            self.scan_results = keys_of(&self.scan_history[last]);
        }
    }

    /// Starts a scan session: reads the value, then records every slot of the chosen
    /// regions that holds it (or, outside an exact scan, every slot). `reads[j]` holds the
    /// bytes read from the `j`-th region that `select_regions` picks, or `None` where the
    /// read failed.
    pub fn first_scan<P, O, A>(
        &mut self,
        groups: &Vec<RegionGroup>,
        selected_region: &Option<String>,
        scan_value: &str,
        scan_mode: ScanMode,
        type_filter: &Option<Vec<ValueType>>,
        reads: &Vec<Option<Vec<u8>>>,
        fl: &FloatOps<P, O, A>,
    ) -> (r: Result<(), ScanError>) where
        P: Fn(Vec<char>, FloatSyntax) -> Option<ValueType>,
        O: Fn(FloatPair) -> FloatOrder,
        A: Fn(FloatPair, Arith) -> u64,

        requires
            old(self).wf(),
            fl.wf(),
            reads_fit(selected(groups@, focus_view(*selected_region)), reads@),
        ensures
            final(self).wf(),
            final(self).pid == old(self).pid,
            final(self).is_attached == old(self).is_attached,
            match fl.text_value(scan_value@) {
                None => r == Err::<(), ScanError>(ScanError::BadValue) && *final(self) == *old(self),
                Some(inp) => if selected(groups@, focus_view(*selected_region)).len() == 0 {
                    r == Err::<(), ScanError>(ScanError::NoRegions) && *final(self) == *old(self)
                } else {
                    &&& r is Ok
                    &&& final(self).history().len() == 1
                    &&& fl.is_baseline(
                        final(self).history()[0],
                        selected(groups@, focus_view(*selected_region)),
                        reads@,
                        tags_for(inp, *type_filter),
                        scan_mode,
                        inp,
                    )
                },
            },
    {
        let inp = match ValueType::parse_user_value(scan_value, fl) {
            Some(v) => v,
            None => return Err(ScanError::BadValue),
        };
        let tags = scan_tags(&inp, type_filter);
        let regions = select_regions(groups, selected_region);
        if regions.len() == 0 {
            return Err(ScanError::NoRegions);
        }
        let m = baseline(&regions, reads, &tags, scan_mode, &inp, fl);
        self.scan_results = keys_of(&m);
        self.scan_history = vec![m];
        proof {
            assert(self.history() =~= seq![m@]);
        }
        Ok(())
    }

    /// Refines the latest candidate map: keeps each candidate whose new value passes
    /// `scan_mode`. `reads[i][k]` holds the bytes read at the `i`-th latest result for the
    /// `k`-th variant of the scan, or `None` where the read failed.
    pub fn next_scan<P, O, A>(
        &mut self,
        scan_value: &str,
        scan_mode: ScanMode,
        type_filter: &Option<Vec<ValueType>>,
        reads: &Vec<Vec<Option<Vec<u8>>>>,
        fl: &FloatOps<P, O, A>,
    ) -> (r: Result<(), ScanError>) where
        P: Fn(Vec<char>, FloatSyntax) -> Option<ValueType>,
        O: Fn(FloatPair) -> FloatOrder,
        A: Fn(FloatPair, Arith) -> u64,

        requires
            old(self).wf(),
            fl.wf(),
            old(self).history().len() > 0 ==> reads@.len() == old(self).history().last().len(),
        ensures
            final(self).wf(),
            final(self).pid == old(self).pid,
            final(self).is_attached == old(self).is_attached,
            if old(self).history().len() == 0 {
                r == Err::<(), ScanError>(ScanError::NoBaseline) && *final(self) == *old(self)
            } else {
                match fl.text_value(scan_value@) {
                    None => r == Err::<(), ScanError>(ScanError::BadValue) && *final(self)
                        == *old(self),
                    Some(inp) => r is Ok && final(self).history() == old(self).history().push(
                        fl.refined(
                            old(self).history().last(),
                            reads@,
                            tags_for(inp, *type_filter),
                            scan_mode,
                            inp,
                        ),
                    ),
                }
            },
    {
        if self.scan_history.len() == 0 {
            return Err(ScanError::NoBaseline);
        }
        let inp = match ValueType::parse_user_value(scan_value, fl) {
            Some(v) => v,
            None => return Err(ScanError::BadValue),
        };
        let tags = scan_tags(&inp, type_filter);
        let ghost h = self.history();
        let last = self.scan_history.len() - 1;
        let m = refine(&self.scan_history[last], reads, &tags, scan_mode, &inp, fl);
        proof {
            fl.lemma_refined_within(h.last(), reads@, tags@, scan_mode, inp, usize::MAX + 1);
        }
        self.scan_results = keys_of(&m);
        self.scan_history.push(m);
        proof {
            assert(self.history() =~= h.push(m@));
            assert forall|i: int, j: int|
                1 <= i < self.history().len() && 0 <= j < self.history()[i].len() implies keys(
                self.history()[i - 1],
            ).contains(#[trigger] self.history()[i][j].addr) by {
                if i < h.len() {
                    assert(self.history()[i] == h[i]);
                    assert(self.history()[i - 1] == h[i - 1]);
                }
            }
        }
        Ok(())
    }

    /// The bytes a write of the operator's value puts at each result address.
    pub fn address_set<P, O, A>(&self, scan_value: &str, fl: &FloatOps<P, O, A>) -> (r: Result<Vec<u8>, ScanError>) where
        P: Fn(Vec<char>, FloatSyntax) -> Option<ValueType>,
        O: Fn(FloatPair) -> FloatOrder,
        A: Fn(FloatPair, Arith) -> u64,

        requires
            fl.wf(),
        ensures
            match fl.text_value(scan_value@) {
                None => r == Err::<Vec<u8>, ScanError>(ScanError::BadValue),
                Some(inp) => r is Ok && r->Ok_0@ == inp.encoded(),
            },
    {
        match ValueType::parse_user_value(scan_value, fl) {
            Some(v) => Ok(v.to_bytes()),
            None => Err(ScanError::BadValue),
        }
    }
}

/// Along a well-formed history, each map's addresses are among those of every earlier
/// map, down to the baseline.
pub proof fn lemma_history_nested(s: &MemoryScanner, i: int, j: int)
    requires
        s.wf(),
        0 <= i <= j < s.history().len(),
    ensures
        forall|a: usize| keys(s.history()[j]).contains(a) ==> keys(s.history()[i]).contains(a),
    decreases j - i,
{
    if i < j {
        lemma_history_nested(s, i, j - 1);
        assert forall|a: usize| keys(s.history()[j]).contains(a) implies keys(
            s.history()[i],
        ).contains(a) by {
            let k = choose|k: int| 0 <= k < keys(s.history()[j]).len() && keys(s.history()[j])[k] == a;
            assert(s.history()[j][k].addr == a);
            assert(keys(s.history()[j - 1]).contains(s.history()[j][k].addr));
        }
    }
}

/// Stepping back after a refinement restores the history as it was before it, and with
/// it the results shown.
pub proof fn lemma_previous_undoes_next(h: Seq<Seq<Candidate>>, m: Seq<Candidate>)
    requires
        h.len() >= 1,
    ensures
        popped(h.push(m)) == h,
        shown(popped(h.push(m))) == shown(h),
{
    assert(h.push(m).drop_last() =~= h);
}

impl<P, O, A> FloatOps<P, O, A> where
    P: Fn(Vec<char>, FloatSyntax) -> Option<ValueType>,
    O: Fn(FloatPair) -> FloatOrder,
    A: Fn(FloatPair, Arith) -> u64,
 {
    /// A value a pass binds lies wholly inside the bytes it was read from.
    pub proof fn lemma_region_hit_inside(
        &self,
        start: int,
        buf: Seq<u8>,
        tags: Seq<ValueType>,
        k: int,
        mode: ScanMode,
        inp: ValueType,
        a: int,
    )
        requires
            k <= tags.len(),
            self.region_hit(start, buf, tags, k, mode, inp, a) is Some,
        ensures
            start <= a,
            a + self.region_hit(start, buf, tags, k, mode, inp, a)->0.width() <= start + buf.len(),
        decreases k,
    {
        if k > 0 {
            let t = tags[k - 1];
            let off = a - start;
            if !(on_stride(off, t.width(), buf.len()) && (mode != ScanMode::Exact
                || self.equal_values(ValueType::decoded(buf.subrange(off, buf.len() as int), t), inp))) {
                self.lemma_region_hit_inside(start, buf, tags, k - 1, mode, inp, a);
            }
        }
    }

    /// Every address a first scan binds lies, with the whole value there, inside one of
    /// the regions that were read.
    pub proof fn lemma_baseline_inside_regions(
        &self,
        regions: Seq<MemoryRegion>,
        reads: Seq<Option<Vec<u8>>>,
        tags: Seq<ValueType>,
        mode: ScanMode,
        inp: ValueType,
        n: int,
        a: int,
    )
        requires
            n <= regions.len(),
            reads.len() == regions.len(),
            self.scan_binding(regions, reads, tags, mode, inp, n, a) is Some,
        ensures
            exists|j: int|
                0 <= j < n && (#[trigger] reads[j]) is Some && regions[j].start <= a && a
                    + self.scan_binding(regions, reads, tags, mode, inp, n, a)->0.width()
                    <= regions[j].start + reads[j]->0@.len(),
        decreases n,
    {
        if n > 0 {
            let here = match reads[n - 1] {
                Some(b) => self.region_hit(
                    regions[n - 1].start as int,
                    b@,
                    tags,
                    tags.len() as int,
                    mode,
                    inp,
                    a,
                ),
                None => None,
            };
            if here is Some {
                let b = reads[n - 1]->0;
                self.lemma_region_hit_inside(
                    regions[n - 1].start as int,
                    b@,
                    tags,
                    tags.len() as int,
                    mode,
                    inp,
                    a,
                );
                assert(reads[n - 1] is Some);
            } else {
                self.lemma_baseline_inside_regions(regions, reads, tags, mode, inp, n - 1, a);
                let j = choose|j: int|
                    0 <= j < n - 1 && (#[trigger] reads[j]) is Some && regions[j].start <= a && a
                        + self.scan_binding(regions, reads, tags, mode, inp, n - 1, a)->0.width()
                        <= regions[j].start + reads[j]->0@.len();
            }
        }
    }
}

} // verus!
