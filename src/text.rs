//! Character-level helpers: whitespace, trimming, splitting and joining.
use vstd::prelude::*;
use vstd::std_specs::iter::IteratorSpec;

verus! {

/// The Unicode `White_Space` property, which both `char::is_whitespace`
/// and the `\s` class of the markdown grammar follow.
pub open spec fn is_ws(c: char) -> bool {
    let u = c as u32;
    (0x09 <= u && u <= 0x0D) || u == 0x20 || u == 0x85 || u == 0xA0 || u == 0x1680
        || (0x2000 <= u && u <= 0x200A) || u == 0x2028 || u == 0x2029 || u == 0x202F
        || u == 0x205F || u == 0x3000
}

pub fn is_ws_char(c: char) -> (r: bool)
    ensures
        r == is_ws(c),
{
    let u = c as u32;
    (0x09 <= u && u <= 0x0D) || u == 0x20 || u == 0x85 || u == 0xA0 || u == 0x1680
        || (0x2000 <= u && u <= 0x200A) || u == 0x2028 || u == 0x2029 || u == 0x202F
        || u == 0x205F || u == 0x3000
}

/// `s` without its trailing whitespace.
pub open spec fn trim_end(s: Seq<char>) -> Seq<char>
    decreases s.len(),
{
    if s.len() > 0 && is_ws(s.last()) {
        trim_end(s.drop_last())
    } else {
        s
    }
}

/// `s` without its leading whitespace.
pub open spec fn trim_start(s: Seq<char>) -> Seq<char>
    decreases s.len(),
{
    if s.len() > 0 && is_ws(s[0]) {
        trim_start(s.drop_first())
    } else {
        s
    }
}

pub open spec fn trim(s: Seq<char>) -> Seq<char> {
    trim_start(trim_end(s))
}

/// Whether `lit` occurs in `s` at index `j`.
pub open spec fn starts_at(s: Seq<char>, j: int, lit: Seq<char>) -> bool {
    0 <= j && j + lit.len() <= s.len() && s.subrange(j, j + lit.len()) == lit
}

/// The pieces of `s` between occurrences of `c`; there is always at least one.
pub open spec fn split_on(s: Seq<char>, c: char) -> Seq<Seq<char>>
    decreases s.len(),
{
    if s.len() == 0 {
        seq![Seq::empty()]
    } else {
        let rest = split_on(s.drop_last(), c);
        if s.last() == c {
            rest.push(Seq::empty())
        } else {
            rest.update(rest.len() - 1, rest.last().push(s.last()))
        }
    }
}

/// The pieces of `xs` with `sep` between neighbours.
pub open spec fn join(xs: Seq<Seq<char>>, sep: Seq<char>) -> Seq<char>
    decreases xs.len(),
{
    if xs.len() == 0 {
        Seq::empty()
    } else if xs.len() == 1 {
        xs[0]
    } else {
        join(xs.drop_last(), sep) + sep + xs.last()
    }
}

/// The character sequences held by a vector of character vectors.
pub open spec fn views(v: Seq<Vec<char>>) -> Seq<Seq<char>> {
    v.map_values(|x: Vec<char>| x@)
}

pub open spec fn nl() -> Seq<char> {
    seq!['\n']
}

pub proof fn lemma_split_on_len(s: Seq<char>, c: char)
    ensures
        split_on(s, c).len() >= 1,
    decreases s.len(),
{
    if s.len() > 0 {
        lemma_split_on_len(s.drop_last(), c);
    }
}

/// A sequence without `c` is one piece.
pub proof fn lemma_split_on_single(s: Seq<char>, c: char)
    requires
        !s.contains(c),
    ensures
        split_on(s, c) == seq![s],
    decreases s.len(),
{
    if s.len() == 0 {
        assert(s =~= Seq::<char>::empty());
    } else {
        assert(!s.drop_last().contains(c)) by {
            if s.drop_last().contains(c) {
                let k = choose|k: int| 0 <= k < s.drop_last().len() && s.drop_last()[k] == c;
                assert(s[k] == c);
            }
        }
        lemma_split_on_single(s.drop_last(), c);
        assert(s.last() != c) by {
            if s.last() == c {
                assert(s[s.len() - 1] == c);
            }
        }
        assert(s.drop_last().push(s.last()) =~= s);
        assert(split_on(s, c) =~= seq![s]);
    }
}

/// Splitting at a separator splits the two sides apart.
pub proof fn lemma_split_on_concat(a: Seq<char>, b: Seq<char>, c: char)
    ensures
        split_on(a + seq![c] + b, c) == split_on(a, c) + split_on(b, c),
    decreases b.len(),
{
    let x = a + seq![c] + b;
    lemma_split_on_len(a, c);
    lemma_split_on_len(b, c);
    if b.len() == 0 {
        assert(x.drop_last() =~= a);
        assert(x.last() == c);
        assert(split_on(b, c) =~= seq![Seq::<char>::empty()]);
        assert(split_on(x, c) =~= split_on(a, c) + split_on(b, c));
    } else {
        assert(x.drop_last() =~= a + seq![c] + b.drop_last());
        assert(x.last() == b.last());
        lemma_split_on_concat(a, b.drop_last(), c);
        lemma_split_on_len(b.drop_last(), c);
        assert(split_on(x, c) =~= split_on(a, c) + split_on(b, c));
    }
}

/// Joining the pieces again with the separator gives the sequence back.
pub proof fn lemma_join_split(s: Seq<char>, c: char)
    ensures
        join(split_on(s, c), seq![c]) == s,
    decreases s.len(),
{
    if s.len() == 0 {
        assert(s =~= Seq::<char>::empty());
    } else {
        let rest = split_on(s.drop_last(), c);
        lemma_split_on_len(s.drop_last(), c);
        lemma_join_split(s.drop_last(), c);
        let p = split_on(s, c);
        if s.last() == c {
            assert(p.drop_last() =~= rest);
            assert(join(p, seq![c]) =~= s);
        } else if rest.len() == 1 {
            assert(join(p, seq![c]) =~= s);
        } else {
            assert(p.drop_last() =~= rest.drop_last());
            assert(p.last() == rest.last().push(s.last()));
            assert(join(rest, seq![c]) == join(rest.drop_last(), seq![c]) + seq![c] + rest.last());
            assert(join(p, seq![c]) == join(rest.drop_last(), seq![c]) + seq![c] + p.last());
            assert(s.drop_last().push(s.last()) =~= s);
            assert(join(p, seq![c]) =~= s);
        }
    }
}

/// The characters of `s` in order.
pub(crate) fn chars_of(s: &str) -> (r: Vec<char>)
    ensures
        r@ == s@,
{
    broadcast use vstd::string::axiom_spec_iter, vstd::string::next_postcondition;

    let mut it = s.chars();
    let mut r: Vec<char> = Vec::new();
    assert(r@ + IteratorSpec::remaining(&it) =~= s@);
    loop
        invariant
            r@ + IteratorSpec::remaining(&it) == s@,
            it.obeys_prophetic_iter_laws(),
        ensures
            r@ == s@,
        decreases s@.len() - r@.len(),
    {
        match it.next() {
            Some(c) => {
                r.push(c);
                assert(r@ + IteratorSpec::remaining(&it) =~= s@);
            },
            None => {
                assert(r@ =~= s@);
                break;
            },
        }
    }
    r
}

/// Relies on `String: FromIterator<&char>`: the string of the characters of `v` in order.
#[verifier::external_body]
pub(crate) fn string_of(v: &Vec<char>) -> (r: String)
    ensures
        r@ == v@,
{
    v.iter().collect()
}

/// Appends the characters of `s` to `out`.
pub fn append(out: &mut Vec<char>, s: &Vec<char>)
    ensures
        final(out)@ == old(out)@ + s@,
{
    let mut k: usize = 0;
    while k < s.len()
        invariant
            k <= s.len(),
            out@ == old(out)@ + s@.subrange(0, k as int),
        decreases s.len() - k,
    {
        out.push(s[k]);
        k = k + 1;
        assert(out@ =~= old(out)@ + s@.subrange(0, k as int));
    }
    assert(s@.subrange(0, s.len() as int) =~= s@);
}

/// Appends the characters of the literal `lit` to `out`.
pub fn append_str(out: &mut Vec<char>, lit: &str)
    ensures
        final(out)@ == old(out)@ + lit@,
{
    let v = chars_of(lit);
    append(out, &v);
}

/// The characters of `s` from `lo` up to `hi`.
pub fn slice(s: &Vec<char>, lo: usize, hi: usize) -> (r: Vec<char>)
    requires
        lo <= hi <= s.len(),
    ensures
        r@ == s@.subrange(lo as int, hi as int),
{
    let mut r: Vec<char> = Vec::new();
    let mut k: usize = lo;
    while k < hi
        invariant
            lo <= k <= hi <= s.len(),
            r@ == s@.subrange(lo as int, k as int),
        decreases hi - k,
    {
        r.push(s[k]);
        k = k + 1;
        assert(r@ =~= s@.subrange(lo as int, k as int));
    }
    r
}

/// Whether the characters of `lit` stand in `s` at index `j`.
pub fn starts_at_exec(s: &Vec<char>, j: usize, lit: &Vec<char>) -> (r: bool)
    ensures
        r == starts_at(s@, j as int, lit@),
{
    if lit.len() > s.len() || j > s.len() - lit.len() {
        return false;
    }
    let mut k: usize = 0;
    while k < lit.len()
        invariant
            k <= lit.len(),
            j + lit.len() <= s.len(),
            s@.subrange(j as int, j + k) == lit@.subrange(0, k as int),
        decreases lit.len() - k,
    {
        if s[j + k] != lit[k] {
            assert(s@.subrange(j as int, j + lit.len())[k as int] != lit@[k as int]);
            return false;
        }
        k = k + 1;
        assert(s@.subrange(j as int, j + k) =~= lit@.subrange(0, k as int));
    }
    assert(lit@.subrange(0, k as int) =~= lit@);
    true
}

/// `s` without its trailing whitespace.
pub fn trim_end_exec(s: &Vec<char>) -> (r: Vec<char>)
    ensures
        r@ == trim_end(s@),
{
    let mut hi: usize = s.len();
    assert(s@.subrange(0, s.len() as int) =~= s@);
    while hi > 0 && is_ws_char(s[hi - 1])
        invariant
            hi <= s.len(),
            trim_end(s@.subrange(0, hi as int)) == trim_end(s@),
        decreases hi,
    {
        assert(s@.subrange(0, hi as int).drop_last() =~= s@.subrange(0, hi - 1));
        hi = hi - 1;
    }
    assert(s@.subrange(0, s.len() as int) =~= s@);
    slice(s, 0, hi)
}

/// `s` without its leading and trailing whitespace.
pub fn trim_exec(s: &Vec<char>) -> (r: Vec<char>)
    ensures
        r@ == trim(s@),
{
    let e = trim_end_exec(s);
    let mut lo: usize = 0;
    assert(e@.subrange(0, e.len() as int) =~= e@);
    while lo < e.len() && is_ws_char(e[lo])
        invariant
            lo <= e.len(),
            trim_start(e@.subrange(lo as int, e.len() as int)) == trim_start(e@),
        decreases e.len() - lo,
    {
        assert(e@.subrange(lo as int, e.len() as int).drop_first() =~= e@.subrange(
            lo + 1,
            e.len() as int,
        ));
        lo = lo + 1;
    }
    assert(e@.subrange(0, e.len() as int) =~= e@);
    slice(&e, lo, e.len())
}

/// Whether `c` occurs in `s`.
pub fn contains_char(s: &Vec<char>, c: char) -> (r: bool)
    ensures
        r == s@.contains(c),
{
    let mut k: usize = 0;
    while k < s.len()
        invariant
            k <= s.len(),
            forall|m: int| 0 <= m < k ==> s@[m] != c,
        decreases s.len() - k,
    {
        if s[k] == c {
            return true;
        }
        k = k + 1;
    }
    false
}

/// The pieces of `s` between occurrences of `c`.
pub fn split_exec(s: &Vec<char>, c: char) -> (r: Vec<Vec<char>>)
    ensures
        views(r@) == split_on(s@, c),
{
    let mut parts: Vec<Vec<char>> = Vec::new();
    let mut cur: Vec<char> = Vec::new();
    let mut i: usize = 0;
    assert(s@.subrange(0, 0) =~= Seq::<char>::empty());
    assert(views(parts@).push(cur@) =~= split_on(s@.subrange(0, 0), c));
    while i < s.len()
        invariant
            i <= s.len(),
            views(parts@).push(cur@) == split_on(s@.subrange(0, i as int), c),
        decreases s.len() - i,
    {
        let ghost pre = s@.subrange(0, i as int);
        let ghost now = s@.subrange(0, i + 1);
        assert(now.drop_last() =~= pre);
        assert(now.last() == s@[i as int]);
        proof { lemma_split_on_len(pre, c); }
        let ghost old_parts = views(parts@);
        let ghost old_cur = cur@;
        if s[i] == c {
            let done = cur;
            parts.push(done);
            cur = Vec::new();
            assert(views(parts@) =~= old_parts.push(old_cur));
            assert(views(parts@).push(cur@) =~= split_on(now, c));
        } else {
            cur.push(s[i]);
            assert(views(parts@).push(cur@) =~= split_on(now, c));
        }
        i = i + 1;
    }
    let ghost old_parts = views(parts@);
    let ghost old_cur = cur@;
    parts.push(cur);
    assert(views(parts@) =~= old_parts.push(old_cur));
    assert(s@.subrange(0, s.len() as int) =~= s@);
    parts
}

/// The pieces of `xs` with `sep` between neighbours.
pub fn join_exec(xs: &Vec<Vec<char>>, sep: &Vec<char>) -> (r: Vec<char>)
    ensures
        r@ == join(views(xs@), sep@),
{
    let mut out: Vec<char> = Vec::new();
    let mut k: usize = 0;
    while k < xs.len()
        invariant
            k <= xs.len(),
            out@ == join(views(xs@).subrange(0, k as int), sep@),
        decreases xs.len() - k,
    {
        let ghost pre = views(xs@).subrange(0, k as int);
        let ghost now = views(xs@).subrange(0, k + 1);
        assert(now.drop_last() =~= pre);
        if k > 0 {
            append(&mut out, sep);
        }
        append(&mut out, &xs[k]);
        k = k + 1;
    }
    assert(views(xs@).subrange(0, xs.len() as int) =~= views(xs@));
    out
}

} // verus!
