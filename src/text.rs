use vstd::prelude::*;

verus! {

/// The characters of `s`.
pub fn chars_of(s: &str) -> (r: Vec<char>)
    ensures
        r@ == s@,
{
    let mut r: Vec<char> = Vec::new();
    for c in it: s.chars()
        invariant
            r@ == it.seq().take(it.index() as int),
    {
        r.push(c);
    }
    assert(r@ =~= s@);
    r
}

/// Unicode's `White_Space` property: the characters `char::is_whitespace` accepts.
pub open spec fn white(c: char) -> bool {
    let u = c as u32;
    (0x09 <= u <= 0x0d) || u == 0x20 || u == 0x85 || u == 0xa0 || u == 0x1680 || (0x2000 <= u
        <= 0x200a) || u == 0x2028 || u == 0x2029 || u == 0x202f || u == 0x205f || u == 0x3000
}

pub fn is_white(c: char) -> (r: bool)
    ensures
        r == white(c),
{
    let u = c as u32;
    (0x09 <= u && u <= 0x0d) || u == 0x20 || u == 0x85 || u == 0xa0 || u == 0x1680 || (0x2000
        <= u && u <= 0x200a) || u == 0x2028 || u == 0x2029 || u == 0x202f || u == 0x205f || u
        == 0x3000
}

/// `s` without its leading white space.
pub open spec fn trim_start(s: Seq<char>) -> Seq<char>
    decreases s.len(),
{
    if s.len() > 0 && white(s[0]) {
        trim_start(s.drop_first())
    } else {
        s
    }
}

/// `s` without its trailing white space.
pub open spec fn trim_end(s: Seq<char>) -> Seq<char>
    decreases s.len(),
{
    if s.len() > 0 && white(s.last()) {
        trim_end(s.drop_last())
    } else {
        s
    }
}

/// `s` without leading and trailing white space.
#[verifier::opaque]
pub open spec fn trimmed(s: Seq<char>) -> Seq<char> {
    trim_end(trim_start(s))
}

/// The bounds of `s[a..b]` once white space is taken off both of its ends.
pub fn trim_bounds(s: &Vec<char>, a: usize, b: usize) -> (r: (usize, usize))
    requires
        a <= b <= s@.len(),
    ensures
        a <= r.0 <= r.1 <= b,
        s@.subrange(r.0 as int, r.1 as int) == trimmed(s@.subrange(a as int, b as int)),
{
    reveal(trimmed);
    let ghost whole = s@.subrange(a as int, b as int);
    let mut i: usize = a;
    while i < b && is_white(s[i])
        invariant
            a <= i <= b <= s@.len(),
            trim_start(whole) == trim_start(s@.subrange(i as int, b as int)),
        decreases b - i,
    {
        proof {
            assert(s@.subrange(i as int, b as int).drop_first() =~= s@.subrange(i + 1, b as int));
        }
        i = i + 1;
    }
    let mut j: usize = b;
    while j > i && is_white(s[j - 1])
        invariant
            a <= i <= j <= b <= s@.len(),
            trimmed(whole) == trim_end(s@.subrange(i as int, j as int)),
        decreases j - i,
    {
        proof {
            assert(s@.subrange(i as int, j as int).drop_last() =~= s@.subrange(i as int, j - 1));
        }
        j = j - 1;
    }
    (i, j)
}

/// Whether `s[start..end]` holds exactly the characters of `w`.
pub fn word_is(s: &Vec<char>, start: usize, end: usize, w: &Vec<char>) -> (r: bool)
    requires
        start <= end <= s@.len(),
    ensures
        r == (s@.subrange(start as int, end as int) == w@),
{
    if end - start != w.len() {
        return false;
    }
    let mut i: usize = 0;
    while i < w.len()
        invariant
            i <= w@.len(),
            end - start == w@.len(),
            start <= end <= s@.len(),
            forall|j: int| 0 <= j < i ==> s@[start + j] == w@[j],
        decreases w@.len() - i,
    {
        if s[start + i] != w[i] {
            return false;
        }
        i = i + 1;
    }
    assert(s@.subrange(start as int, end as int) =~= w@);
    true
}

/// `s[i]` is `c`, and no `c` comes before it.
pub open spec fn is_first(s: Seq<char>, i: int, c: char) -> bool {
    0 <= i < s.len() && s[i] == c && forall|j: int| 0 <= j < i ==> s[j] != c
}

/// The index of the first `c` in `s`.
#[verifier::opaque]
pub open spec fn first_index(s: Seq<char>, c: char) -> Option<int> {
    if exists|i: int| is_first(s, i, c) {
        Some(choose|i: int| is_first(s, i, c))
    } else {
        None
    }
}

/// The index of the first `c` in `s[start..end]`, counted from the start of `s`.
pub fn index_of(s: &Vec<char>, start: usize, end: usize, c: char) -> (r: Option<usize>)
    requires
        start <= end <= s@.len(),
    ensures
        match r {
            Some(p) => start <= p < end && first_index(s@.subrange(start as int, end as int), c)
                == Some(p - start),
            None => first_index(s@.subrange(start as int, end as int), c) is None,
        },
{
    let ghost w = s@.subrange(start as int, end as int);
    let mut i: usize = start;
    while i < end
        invariant
            start <= i <= end <= s@.len(),
            w == s@.subrange(start as int, end as int),
            forall|j: int| start <= j < i ==> s@[j] != c,
        decreases end - i,
    {
        if s[i] == c {
            proof {
                let k = i - start;
                assert forall|j: int| 0 <= j < k implies w[j] != c by {
                    assert(w[j] == s@[start + j]);
                }
                assert(is_first(w, k, c));
                let f = choose|i: int| is_first(w, i, c);
                if f < k {
                    assert(w[f] != c);
                }
                if k < f {
                    assert(w[k] != c);
                }
                reveal(first_index);
            }
            return Some(i);
        }
        i = i + 1;
    }
    proof {
        assert forall|j: int| 0 <= j < w.len() implies w[j] != c by {
            assert(w[j] == s@[start + j]);
        }
        assert(!exists|j: int| is_first(w, j, c));
        reveal(first_index);
    }
    None
}

/// The length of the run of non-white characters `s` starts with.
pub open spec fn word_len(s: Seq<char>) -> nat
    decreases s.len(),
{
    if s.len() == 0 || white(s[0]) {
        0
    } else {
        1 + word_len(s.drop_first())
    }
}

/// The fields of `s`: its maximal runs of non-white characters, as `str::split_whitespace`
/// yields them.
pub open spec fn fields(s: Seq<char>) -> Seq<Seq<char>>
    decreases s.len(),
    via fields_decreases
{
    if s.len() == 0 {
        Seq::empty()
    } else if white(s[0]) {
        fields(s.drop_first())
    } else {
        let w = word_len(s);
        seq![s.take(w as int)] + fields(s.skip(w as int))
    }
}

#[via_fn]
proof fn fields_decreases(s: Seq<char>) {
    if s.len() > 0 && !white(s[0]) {
        lemma_word_len_bound(s);
    }
}

proof fn lemma_word_len_bound(s: Seq<char>)
    ensures
        word_len(s) <= s.len(),
    decreases s.len(),
{
    if s.len() > 0 && !white(s[0]) {
        lemma_word_len_bound(s.drop_first());
    }
}

/// The fields of `s[a..b]`, each as the characters it holds.
pub fn fields_of(s: &Vec<char>, a: usize, b: usize) -> (r: Vec<Vec<char>>)
    requires
        a <= b <= s@.len(),
    ensures
        r@.map_values(|f: Vec<char>| f@) == fields(s@.subrange(a as int, b as int)),
{
    let mut r: Vec<Vec<char>> = Vec::new();
    let mut i: usize = a;
    while i < b
        invariant
            a <= i <= b <= s@.len(),
            fields(s@.subrange(a as int, b as int)) == r@.map_values(|f: Vec<char>| f@) + fields(
                s@.subrange(i as int, b as int),
            ),
        decreases b - i,
    {
        let ghost rest = s@.subrange(i as int, b as int);
        if is_white(s[i]) {
            proof {
                assert(rest.drop_first() =~= s@.subrange(i + 1, b as int));
            }
            i = i + 1;
        } else {
            let mut j: usize = i;
            let mut word: Vec<char> = Vec::new();
            while j < b && !is_white(s[j])
                invariant
                    i <= j <= b <= s@.len(),
                    rest == s@.subrange(i as int, b as int),
                    word@ == s@.subrange(i as int, j as int),
                    word_len(rest) == (j - i) + word_len(s@.subrange(j as int, b as int)),
                decreases b - j,
            {
                proof {
                    assert(s@.subrange(j as int, b as int).drop_first() =~= s@.subrange(
                        j + 1,
                        b as int,
                    ));
                }
                word.push(s[j]);
                j = j + 1;
            }
            proof {
                assert(word_len(s@.subrange(j as int, b as int)) == 0);
                assert(rest.take((j - i) as int) =~= word@);
                assert(rest.skip((j - i) as int) =~= s@.subrange(j as int, b as int));
                let ghost before = r@.map_values(|f: Vec<char>| f@);
                assert(fields(rest) == seq![word@] + fields(s@.subrange(j as int, b as int)));
            }
            let ghost before = r@.map_values(|f: Vec<char>| f@);
            r.push(word);
            proof {
                assert(r@.map_values(|f: Vec<char>| f@) =~= before.push(s@.subrange(i as int, j as int)));
                assert(before.push(s@.subrange(i as int, j as int)) + fields(
                    s@.subrange(j as int, b as int),
                ) =~= before + (seq![s@.subrange(i as int, j as int)] + fields(
                    s@.subrange(j as int, b as int),
                )));
            }
            i = j;
        }
    }
    proof {
        assert(s@.subrange(i as int, b as int) =~= Seq::<char>::empty());
        assert(r@.map_values(|f: Vec<char>| f@) + Seq::<Seq<char>>::empty() =~= r@.map_values(
            |f: Vec<char>| f@,
        ));
    }
    r
}

/// The fields of `f`, one space between each two.
pub open spec fn joined(f: Seq<Seq<char>>) -> Seq<char>
    decreases f.len(),
{
    if f.len() == 0 {
        Seq::empty()
    } else if f.len() == 1 {
        f[0]
    } else {
        joined(f.drop_last()) + seq![' '] + f.last()
    }
}

/// The fields `f[from..]`, one space between each two.
pub fn join_from(f: &Vec<Vec<char>>, from: usize) -> (r: Vec<char>)
    requires
        from <= f@.len(),
    ensures
        r@ == joined(f@.map_values(|w: Vec<char>| w@).skip(from as int)),
{
    let ghost all = f@.map_values(|w: Vec<char>| w@);
    let mut r: Vec<char> = Vec::new();
    let mut i: usize = from;
    proof {
        assert(all.subrange(from as int, from as int) =~= Seq::<Seq<char>>::empty());
    }
    while i < f.len()
        invariant
            from <= i <= f@.len(),
            all == f@.map_values(|w: Vec<char>| w@),
            r@ == joined(all.subrange(from as int, i as int)),
        decreases f@.len() - i,
    {
        let ghost before = r@;
        if i > from {
            r.push(' ');
        }
        let w = &f[i];
        let mut k: usize = 0;
        let ghost mid = r@;
        while k < w.len()
            invariant
                k <= w@.len(),
                r@ == mid + w@.take(k as int),
            decreases w@.len() - k,
        {
            r.push(w[k]);
            proof {
                assert(w@.take(k + 1) =~= w@.take(k as int).push(w@[k as int]));
            }
            k = k + 1;
        }
        proof {
            assert(w@.take(k as int) =~= w@);
            let part = all.subrange(from as int, i + 1);
            assert(part.drop_last() =~= all.subrange(from as int, i as int));
            assert(part.last() == w@);
            if i > from {
                assert(r@ =~= before + seq![' '] + w@);
            } else {
                assert(r@ =~= w@);
            }
        }
        i = i + 1;
    }
    proof {
        assert(all.subrange(from as int, i as int) =~= all.skip(from as int));
    }
    r
}

} // verus!
