//! Byte-level scanning primitives shared by the parsers: first-occurrence
//! search, ASCII whitespace tests, and the decomposition of a byte stream
//! into newline-terminated complete lines plus an unfinished tail.
use vstd::prelude::*;

verus! {

/// ASCII whitespace as the parsers understand it.
pub open spec fn is_ws(b: u8) -> bool {
    b == 32 || b == 9 || b == 10 || b == 13
}

/// Every byte of `s` is ASCII whitespace.
pub open spec fn all_ws(s: Seq<u8>) -> bool {
    forall|i: int| 0 <= i < s.len() ==> is_ws(s[i])
}

/// Index of the first occurrence of `b` in `s` at or after `i`.
pub open spec fn find_from(s: Seq<u8>, b: u8, i: int) -> Option<int>
    decreases s.len() - i,
{
    if i < 0 || i >= s.len() {
        None
    } else if s[i] == b {
        Some(i)
    } else {
        find_from(s, b, i + 1)
    }
}

/// What `find_from` returns: the least index holding `b`, if any.
pub proof fn lemma_find_from(s: Seq<u8>, b: u8, i: int)
    requires
        0 <= i <= s.len(),
    ensures
        match find_from(s, b, i) {
            Some(j) => i <= j < s.len() && s[j] == b && (forall|k: int|
                i <= k < j ==> s[k] != b),
            None => forall|k: int| i <= k < s.len() ==> s[k] != b,
        },
    decreases s.len() - i,
{
    if i < s.len() && s[i] != b {
        lemma_find_from(s, b, i + 1);
    }
}

/// A match found in `s` is unchanged when more bytes are appended.
pub proof fn lemma_find_from_append_found(s: Seq<u8>, t: Seq<u8>, b: u8, i: int, j: int)
    requires
        0 <= i <= s.len(),
        find_from(s, b, i) == Some(j),
    ensures
        find_from(s + t, b, i) == Some(j),
    decreases s.len() - i,
{
    if i < s.len() {
        assert((s + t)[i] == s[i]);
        if s[i] != b {
            lemma_find_from_append_found(s, t, b, i + 1, j);
        }
    }
}

/// When `s` holds no match, searching `s + t` continues into `t`.
pub proof fn lemma_find_from_append_missing(s: Seq<u8>, t: Seq<u8>, b: u8, i: int)
    requires
        0 <= i <= s.len(),
        find_from(s, b, i) == None::<int>,
    ensures
        find_from(s + t, b, i) == match find_from(t, b, 0) {
            Some(j) => Some(j + s.len()),
            None => None::<int>,
        },
    decreases s.len() + t.len() - i,
{
    if i < s.len() {
        assert((s + t)[i] == s[i]);
        lemma_find_from_append_missing(s, t, b, i + 1);
    } else {
        assert forall|k: int| 0 <= k < t.len() implies #[trigger] ((s + t)[s.len() + k]) == t[k]
        by {}
        lemma_find_sub(s + t, t, b, s.len() as int, 0);
    }
}

/// Searching a suffix mirrors searching the whole from the same offset.
proof fn lemma_find_sub(u: Seq<u8>, t: Seq<u8>, b: u8, base: int, k: int)
    requires
        0 <= k <= t.len(),
        0 <= base,
        u.len() == base + t.len(),
        forall|m: int| 0 <= m < t.len() ==> u[base + m] == t[m],
    ensures
        find_from(u, b, base + k) == match find_from(t, b, k) {
            Some(j) => Some(j + base),
            None => None::<int>,
        },
    decreases t.len() - k,
{
    if k < t.len() {
        assert(u[base + k] == t[k]);
        if t[k] != b {
            lemma_find_sub(u, t, b, base, k + 1);
        }
    }
}

/// Searching from `start` is the same as searching the suffix `s.skip(start)`.
pub proof fn lemma_find_skip(s: Seq<u8>, b: u8, start: int)
    requires
        0 <= start <= s.len(),
    ensures
        find_from(s, b, start) == match find_from(s.skip(start), b, 0) {
            Some(j) => Some(j + start),
            None => None::<int>,
        },
{
    assert(s =~= s.subrange(0, start) + s.skip(start));
    lemma_find_sub(s, s.skip(start), b, start, 0);
}

/// First occurrence of `b` in `data` at or after `start`, by linear scan.
pub fn find_byte(data: &[u8], start: usize, b: u8) -> (r: Option<usize>)
    requires
        start <= data@.len(),
    ensures
        match r {
            Some(j) => Some(j as int) == find_from(data@, b, start as int) && start <= j
                < data@.len() && data@[j as int] == b,
            None => find_from(data@, b, start as int) == None::<int>,
        },
{
    let mut i: usize = start;
    while i < data.len()
        invariant
            start <= i <= data@.len(),
            find_from(data@, b, start as int) == find_from(data@, b, i as int),
        decreases data@.len() - i,
    {
        if data[i] == b {
            return Some(i);
        }
        i = i + 1;
    }
    None
}

/// True when every byte of `data` is ASCII whitespace.
pub fn all_whitespace(data: &[u8]) -> (r: bool)
    ensures
        r == all_ws(data@),
{
    let mut i: usize = 0;
    while i < data.len()
        invariant
            0 <= i <= data@.len(),
            forall|k: int| 0 <= k < i ==> is_ws(data@[k]),
        decreases data@.len() - i,
    {
        let c = data[i];
        if !(c == 32 || c == 9 || c == 10 || c == 13) {
            return false;
        }
        i = i + 1;
    }
    true
}

/// Copy of `data[start..end]` as an owned vector.
pub fn copy_range(data: &[u8], start: usize, end: usize) -> (r: Vec<u8>)
    requires
        start <= end <= data@.len(),
    ensures
        r@ == data@.subrange(start as int, end as int),
{
    let mut out: Vec<u8> = Vec::new();
    let mut i: usize = start;
    while i < end
        invariant
            start <= i <= end <= data@.len(),
            out@ == data@.subrange(start as int, i as int),
        decreases end - i,
    {
        out.push(data[i]);
        assert(out@ =~= data@.subrange(start as int, i + 1 as int));
        i = i + 1;
    }
    out
}

/// Append all of `src` to `dst`.
pub fn append_slice(dst: &mut Vec<u8>, src: &[u8])
    ensures
        final(dst)@ == old(dst)@ + src@,
{
    let mut i: usize = 0;
    while i < src.len()
        invariant
            0 <= i <= src@.len(),
            dst@ == old(dst)@ + src@.subrange(0, i as int),
        decreases src@.len() - i,
    {
        dst.push(src[i]);
        assert(dst@ =~= old(dst)@ + src@.subrange(0, i + 1 as int));
        i = i + 1;
    }
    assert(dst@ =~= old(dst)@ + src@);
}

/// The byte sequences a vector of byte vectors stands for.
pub open spec fn vv(v: Seq<Vec<u8>>) -> Seq<Seq<u8>> {
    Seq::new(v.len(), |i: int| v[i]@)
}

/// Byte-wise lexicographic order, from index `i` on.
pub open spec fn lex_le_at(a: Seq<u8>, b: Seq<u8>, i: int) -> bool
    decreases a.len() - i,
{
    if i < 0 || i >= a.len() {
        true
    } else if i >= b.len() {
        false
    } else if a[i] < b[i] {
        true
    } else if a[i] > b[i] {
        false
    } else {
        lex_le_at(a, b, i + 1)
    }
}

/// Byte-wise lexicographic order, as strings compare.
pub open spec fn lex_le(a: Seq<u8>, b: Seq<u8>) -> bool {
    lex_le_at(a, b, 0)
}

/// Compare two byte strings lexicographically.
pub fn lex_le_exec(a: &[u8], b: &[u8]) -> (r: bool)
    ensures
        r == lex_le(a@, b@),
{
    let mut i: usize = 0;
    loop
        invariant
            0 <= i <= a@.len(),
            lex_le(a@, b@) == lex_le_at(a@, b@, i as int),
        decreases a@.len() - i,
    {
        if i >= a.len() {
            return true;
        }
        if i >= b.len() {
            return false;
        }
        if a[i] < b[i] {
            return true;
        }
        if a[i] > b[i] {
            return false;
        }
        i = i + 1;
    }
}

/// Insert `x` into an already sorted list, before the first element it
/// does not exceed.
pub open spec fn insert_sorted(l: Seq<Seq<u8>>, x: Seq<u8>) -> Seq<Seq<u8>>
    decreases l.len(),
{
    if l.len() == 0 {
        seq![x]
    } else if lex_le(x, l[0]) {
        seq![x] + l
    } else {
        seq![l[0]] + insert_sorted(l.drop_first(), x)
    }
}

/// Sort a list of byte strings lexicographically, by insertion.
pub open spec fn sort_lex(xs: Seq<Seq<u8>>) -> Seq<Seq<u8>>
    decreases xs.len(),
{
    if xs.len() == 0 {
        Seq::empty()
    } else {
        insert_sorted(sort_lex(xs.drop_last()), xs.last())
    }
}

/// Inserting at the first fitting index realizes `insert_sorted`.
proof fn lemma_insert_sorted_at(l: Seq<Seq<u8>>, x: Seq<u8>, k: int)
    requires
        0 <= k <= l.len(),
        forall|j: int| 0 <= j < k ==> !lex_le(x, #[trigger] l[j]),
        k < l.len() ==> lex_le(x, l[k]),
    ensures
        insert_sorted(l, x) == l.take(k) + seq![x] + l.skip(k),
    decreases k,
{
    if l.len() == 0 {
        assert(insert_sorted(l, x) =~= l.take(k) + seq![x] + l.skip(k));
    } else if k == 0 {
        assert(l.take(0) =~= Seq::<Seq<u8>>::empty());
        assert(l.skip(0) =~= l);
        assert(insert_sorted(l, x) =~= l.take(0) + seq![x] + l.skip(0));
    } else {
        assert(!lex_le(x, l[0]));
        lemma_insert_sorted_at(l.drop_first(), x, k - 1);
        assert(l.drop_first().take(k - 1) =~= l.take(k).drop_first());
        assert(l.drop_first().skip(k - 1) =~= l.skip(k));
        assert(seq![l[0]] + (l.take(k).drop_first() + seq![x] + l.skip(k)) =~= l.take(k) + seq![x]
            + l.skip(k));
    }
}

/// Insert a byte string into a sorted vector of byte strings.
pub fn insert_sorted_exec(v: &mut Vec<Vec<u8>>, x: Vec<u8>)
    ensures
        vv(final(v)@) == insert_sorted(vv(old(v)@), x@),
{
    let ghost l = vv(v@);
    let mut k: usize = 0;
    loop
        invariant_except_break
            v@ == old(v)@,
            l == vv(v@),
            0 <= k <= v@.len(),
            forall|j: int| 0 <= j < k ==> !lex_le(x@, #[trigger] l[j]),
        ensures
            v@ == old(v)@,
            l == vv(v@),
            0 <= k <= v@.len(),
            forall|j: int| 0 <= j < k ==> !lex_le(x@, #[trigger] l[j]),
            k < v@.len() ==> lex_le(x@, l[k as int]),
        decreases v@.len() - k,
    {
        if k >= v.len() {
            break;
        }
        if lex_le_exec(x.as_slice(), v[k].as_slice()) {
            proof {
                assert(l[k as int] == v@[k as int]@);
            }
            break;
        }
        proof {
            assert(l[k as int] == v@[k as int]@);
        }
        k = k + 1;
    }
    proof {
        lemma_insert_sorted_at(l, x@, k as int);
    }
    v.insert(k, x);
    proof {
        assert(vv(v@) =~= l.take(k as int) + seq![x@] + l.skip(k as int));
    }
}

/// Sort a vector of byte strings lexicographically.
pub fn sort_lex_exec(xs: Vec<Vec<u8>>) -> (r: Vec<Vec<u8>>)
    ensures
        vv(r@) == sort_lex(vv(xs@)),
{
    let ghost gxs = vv(xs@);
    let mut out: Vec<Vec<u8>> = Vec::new();
    let mut i: usize = 0;
    let n = xs.len();
    let mut xs = xs;
    proof {
        assert(vv(out@) =~= Seq::<Seq<u8>>::empty());
        assert(gxs.take(0) =~= Seq::<Seq<u8>>::empty());
        assert(sort_lex(gxs.take(0)) =~= Seq::<Seq<u8>>::empty());
    }
    while i < n
        invariant
            i <= n,
            n == xs@.len(),
            gxs == vv(xs@),
            vv(out@) == sort_lex(gxs.take(i as int)),
        decreases n - i,
    {
        let ghost pre = vv(out@);
        let mut item: Vec<u8> = Vec::new();
        let elem = &xs[i];
        append_slice(&mut item, elem.as_slice());
        proof {
            assert(item@ =~= xs@[i as int]@);
            assert(gxs[i as int] == xs@[i as int]@);
        }
        insert_sorted_exec(&mut out, item);
        proof {
            assert(gxs.take(i + 1 as int).drop_last() =~= gxs.take(i as int));
            assert(gxs.take(i + 1 as int).last() == gxs[i as int]);
        }
        i = i + 1;
    }
    proof {
        assert(gxs.take(n as int) =~= gxs);
    }
    out
}

/// Do two byte vectors hold the same bytes?
pub fn bytes_eq(a: &[u8], b: &[u8]) -> (r: bool)
    ensures
        r == (a@ == b@),
{
    if a.len() != b.len() {
        return false;
    }
    let mut i: usize = 0;
    while i < a.len()
        invariant
            0 <= i <= a@.len(),
            a@.len() == b@.len(),
            forall|k: int| 0 <= k < i ==> a@[k] == b@[k],
        decreases a@.len() - i,
    {
        if a[i] != b[i] {
            return false;
        }
        i = i + 1;
    }
    proof {
        assert(a@ =~= b@);
    }
    true
}

/// Does the list hold these bytes already?
pub fn contains_bytes(v: &Vec<Vec<u8>>, x: &[u8]) -> (r: bool)
    ensures
        r == vv(v@).contains(x@),
{
    let mut i: usize = 0;
    while i < v.len()
        invariant
            0 <= i <= v@.len(),
            forall|k: int| 0 <= k < i ==> vv(v@)[k] != x@,
        decreases v@.len() - i,
    {
        proof {
            assert(vv(v@)[i as int] == v@[i as int]@);
        }
        if bytes_eq(v[i].as_slice(), x) {
            proof {
                assert(vv(v@).contains(x@));
            }
            return true;
        }
        i = i + 1;
    }
    proof {
        assert(forall|k: int| 0 <= k < vv(v@).len() ==> vv(v@)[k] != x@);
        assert(!vv(v@).contains(x@));
    }
    false
}

/// The complete (newline-terminated) lines of a byte stream, in order,
/// without their terminators.
pub open spec fn stream_lines(s: Seq<u8>) -> Seq<Seq<u8>>
    decreases s.len(),
{
    match find_from(s, 10, 0) {
        Some(i) => if 0 <= i < s.len() {
            seq![s.take(i)] + stream_lines(s.skip(i + 1))
        } else {
            seq![]
        },
        None => seq![],
    }
}

/// The unfinished tail of a byte stream: what follows its last newline,
/// or the whole stream when it holds none.
pub open spec fn stream_tail(s: Seq<u8>) -> Seq<u8>
    decreases s.len(),
{
    match find_from(s, 10, 0) {
        Some(i) => if 0 <= i < s.len() {
            stream_tail(s.skip(i + 1))
        } else {
            s
        },
        None => s,
    }
}

/// The tail never holds a newline.
pub proof fn lemma_stream_tail_no_nl(s: Seq<u8>)
    ensures
        find_from(stream_tail(s), 10, 0) == None::<int>,
    decreases s.len(),
{
    lemma_find_from(s, 10, 0);
    match find_from(s, 10, 0) {
        Some(i) => {
            lemma_stream_tail_no_nl(s.skip(i + 1));
        },
        None => {},
    }
}

/// Feeding more bytes extends the line decomposition: the new complete
/// lines are those of the old tail joined with the new bytes.
pub proof fn lemma_stream_append(s: Seq<u8>, c: Seq<u8>)
    ensures
        stream_lines(s + c) == stream_lines(s) + stream_lines(stream_tail(s) + c),
        stream_tail(s + c) == stream_tail(stream_tail(s) + c),
    decreases s.len(),
{
    lemma_find_from(s, 10, 0);
    match find_from(s, 10, 0) {
        Some(i) => {
            lemma_find_from_append_found(s, c, 10, 0, i);
            assert((s + c).take(i) =~= s.take(i));
            assert((s + c).skip(i + 1) =~= s.skip(i + 1) + c);
            lemma_stream_append(s.skip(i + 1), c);
            assert(stream_lines(s + c) =~= stream_lines(s) + stream_lines(
                stream_tail(s) + c,
            ));
        },
        None => {
            assert(stream_tail(s) == s);
            assert(stream_lines(s) =~= Seq::<Seq<u8>>::empty());
            assert(stream_lines(s + c) =~= stream_lines(s) + stream_lines(stream_tail(s) + c));
        },
    }
}

/// A stream with no newline has no complete lines and is its own tail.
pub proof fn lemma_stream_no_nl(s: Seq<u8>)
    requires
        find_from(s, 10, 0) == None::<int>,
    ensures
        stream_lines(s) == Seq::<Seq<u8>>::empty(),
        stream_tail(s) == s,
{
}

/// Splitting off the first line: when `s` has a newline at `i`, the lines
/// of `s` are `s.take(i)` followed by the lines of what comes after.
pub proof fn lemma_stream_step(s: Seq<u8>, i: int)
    requires
        find_from(s, 10, 0) == Some(i),
    ensures
        0 <= i < s.len(),
        stream_lines(s) == seq![s.take(i)] + stream_lines(s.skip(i + 1)),
        stream_tail(s) == stream_tail(s.skip(i + 1)),
{
    lemma_find_from(s, 10, 0);
}

} // verus!
