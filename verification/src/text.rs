//! Character-level helpers shared by the parsers and the record format.

use vstd::prelude::*;

verus! {

/// The characters of an optional string.
pub open spec fn opt_text(o: Option<String>) -> Option<Seq<char>> {
    match o {
        Some(s) => Some(s@),
        None => None,
    }
}

/// A copy of an optional string.
pub fn copy_opt(o: &Option<String>) -> (r: Option<String>)
    ensures
        opt_text(r) == opt_text(*o),
{
    match o {
        Some(s) => Some(s.clone()),
        None => None,
    }
}

/// Unicode `White_Space`, the set that `char::is_whitespace` tests.
pub open spec fn is_ws(c: char) -> bool {
    let u = c as u32;
    ||| 0x09 <= u <= 0x0D
    ||| u == 0x20
    ||| u == 0x85
    ||| u == 0xA0
    ||| u == 0x1680
    ||| 0x2000 <= u <= 0x200A
    ||| u == 0x2028
    ||| u == 0x2029
    ||| u == 0x202F
    ||| u == 0x205F
    ||| u == 0x3000
}

/// Every character is whitespace: what `s.trim().is_empty()` tests.
pub open spec fn is_blank(s: Seq<char>) -> bool {
    forall|i: int| 0 <= i < s.len() ==> is_ws(#[trigger] s[i])
}

/// Some character is whitespace: what `s.contains(char::is_whitespace)` tests.
pub open spec fn has_ws(s: Seq<char>) -> bool {
    exists|i: int| 0 <= i < s.len() && is_ws(#[trigger] s[i])
}

/// `c` occurs in `s`.
pub open spec fn has_char(s: Seq<char>, c: char) -> bool {
    exists|i: int| 0 <= i < s.len() && #[trigger] s[i] == c
}

/// The index of the first `c` in `s`, if any.
pub open spec fn first_index(s: Seq<char>, c: char) -> Option<int>
    decreases s.len(),
{
    if s.len() == 0 {
        None
    } else if s[0] == c {
        Some(0)
    } else {
        match first_index(s.drop_first(), c) {
            Some(i) => Some(i + 1),
            None => None,
        }
    }
}

/// The index of the last `c` in `s`, if any.
pub open spec fn last_index(s: Seq<char>, c: char) -> Option<int>
    decreases s.len(),
{
    if s.len() == 0 {
        None
    } else if s.last() == c {
        Some(s.len() - 1)
    } else {
        last_index(s.drop_last(), c)
    }
}

pub proof fn lemma_first_index(s: Seq<char>, c: char)
    ensures
        match first_index(s, c) {
            Some(i) => 0 <= i < s.len() && s[i] == c && !has_char(s.take(i), c),
            None => !has_char(s, c),
        },
    decreases s.len(),
{
    if s.len() > 0 && s[0] != c {
        lemma_first_index(s.drop_first(), c);
        match first_index(s.drop_first(), c) {
            Some(i) => {
                assert forall|k: int| 0 <= k < i + 1 implies #[trigger] s.take(i + 1)[k] != c by {
                    if k > 0 {
                        assert(s.take(i + 1)[k] == s.drop_first().take(i)[k - 1]);
                    }
                }
            },
            None => {
                assert forall|k: int| 0 <= k < s.len() implies #[trigger] s[k] != c by {
                    if k > 0 {
                        assert(s[k] == s.drop_first()[k - 1]);
                    }
                }
            },
        }
    }
}

pub proof fn lemma_last_index(s: Seq<char>, c: char)
    ensures
        match last_index(s, c) {
            Some(i) => 0 <= i < s.len() && s[i] == c && !has_char(s.skip(i + 1), c),
            None => !has_char(s, c),
        },
    decreases s.len(),
{
    if s.len() > 0 && s.last() != c {
        lemma_last_index(s.drop_last(), c);
        match last_index(s.drop_last(), c) {
            Some(i) => {
                assert forall|k: int| 0 <= k < s.skip(i + 1).len() implies #[trigger] s.skip(i + 1)[k] != c by {
                    if i + 1 + k < s.len() - 1 {
                        assert(s.skip(i + 1)[k] == s.drop_last().skip(i + 1)[k]);
                    }
                }
            },
            None => {
                assert forall|k: int| 0 <= k < s.len() implies #[trigger] s[k] != c by {
                    if k < s.len() - 1 {
                        assert(s[k] == s.drop_last()[k]);
                    }
                }
            },
        }
    }
}

/// `i` is the first position of `c` in `s`.
pub proof fn lemma_first_index_at(s: Seq<char>, c: char, i: int)
    requires
        0 <= i < s.len(),
        s[i] == c,
        forall|j: int| 0 <= j < i ==> s[j] != c,
    ensures
        first_index(s, c) == Some(i),
{
    lemma_first_index(s, c);
    match first_index(s, c) {
        Some(k) => {
            if k > i {
                assert(s.take(k)[i] == c);
            }
        },
        None => {
            assert(s[i] == c);
        },
    }
}

/// `c` does not occur in `s`.
pub proof fn lemma_first_index_none(s: Seq<char>, c: char)
    requires
        forall|j: int| 0 <= j < s.len() ==> s[j] != c,
    ensures
        first_index(s, c) is None,
{
    lemma_first_index(s, c);
}

/// `i` is the last position of `c` in `s`.
pub proof fn lemma_last_index_at(s: Seq<char>, c: char, i: int)
    requires
        0 <= i < s.len(),
        s[i] == c,
        forall|j: int| i < j < s.len() ==> s[j] != c,
    ensures
        last_index(s, c) == Some(i),
{
    lemma_last_index(s, c);
    match last_index(s, c) {
        Some(k) => {
            if k < i {
                assert(s.skip(k + 1)[i - k - 1] == c);
            }
        },
        None => {
            assert(s[i] == c);
        },
    }
}

/// `c` does not occur in `s`, read from the end.
pub proof fn lemma_last_index_none(s: Seq<char>, c: char)
    requires
        forall|j: int| 0 <= j < s.len() ==> s[j] != c,
    ensures
        last_index(s, c) is None,
{
    lemma_last_index(s, c);
}

/// The position of the first `c` in `v[lo..hi]`, counted from the start of `v`.
pub fn find_first(v: &Vec<char>, lo: usize, hi: usize, c: char) -> (r: Option<usize>)
    requires
        lo <= hi <= v@.len(),
    ensures
        match first_index(v@.subrange(lo as int, hi as int), c) {
            Some(i) => r == Some((lo + i) as usize),
            None => r is None,
        },
{
    let ghost s = v@.subrange(lo as int, hi as int);
    let mut k = lo;
    while k < hi
        invariant
            lo <= k <= hi <= v@.len(),
            s == v@.subrange(lo as int, hi as int),
            forall|j: int| 0 <= j < k - lo ==> s[j] != c,
        decreases hi - k,
    {
        if v[k] == c {
            proof {
                lemma_first_index_at(s, c, k - lo);
            }
            return Some(k);
        }
        k = k + 1;
    }
    proof {
        lemma_first_index_none(s, c);
    }
    None
}

/// The position of the last `c` in `v[lo..hi]`, counted from the start of `v`.
pub fn find_last(v: &Vec<char>, lo: usize, hi: usize, c: char) -> (r: Option<usize>)
    requires
        lo <= hi <= v@.len(),
    ensures
        match last_index(v@.subrange(lo as int, hi as int), c) {
            Some(i) => r == Some((lo + i) as usize),
            None => r is None,
        },
{
    let ghost s = v@.subrange(lo as int, hi as int);
    let mut k = hi;
    while k > lo
        invariant
            lo <= k <= hi <= v@.len(),
            s == v@.subrange(lo as int, hi as int),
            forall|j: int| k - lo <= j < s.len() ==> s[j] != c,
        decreases k - lo,
    {
        if v[k - 1] == c {
            proof {
                lemma_last_index_at(s, c, k - 1 - lo);
            }
            return Some(k - 1);
        }
        k = k - 1;
    }
    proof {
        lemma_last_index_none(s, c);
    }
    None
}

/// Whether every character of `v[lo..hi]` is whitespace.
pub fn blank_chars(v: &Vec<char>, lo: usize, hi: usize) -> (r: bool)
    requires
        lo <= hi <= v@.len(),
    ensures
        r == is_blank(v@.subrange(lo as int, hi as int)),
{
    let ghost s = v@.subrange(lo as int, hi as int);
    let mut k = lo;
    while k < hi
        invariant
            lo <= k <= hi <= v@.len(),
            s == v@.subrange(lo as int, hi as int),
            forall|j: int| 0 <= j < k - lo ==> is_ws(#[trigger] s[j]),
        decreases hi - k,
    {
        if !char_is_ws(v[k]) {
            assert(!is_ws(s[k - lo]));
            return false;
        }
        k = k + 1;
    }
    true
}

/// Whether some character of `v[lo..hi]` is whitespace.
pub fn has_ws_chars(v: &Vec<char>, lo: usize, hi: usize) -> (r: bool)
    requires
        lo <= hi <= v@.len(),
    ensures
        r == has_ws(v@.subrange(lo as int, hi as int)),
{
    let ghost s = v@.subrange(lo as int, hi as int);
    let mut k = lo;
    while k < hi
        invariant
            lo <= k <= hi <= v@.len(),
            s == v@.subrange(lo as int, hi as int),
            forall|j: int| 0 <= j < k - lo ==> !is_ws(#[trigger] s[j]),
        decreases hi - k,
    {
        if char_is_ws(v[k]) {
            assert(is_ws(s[k - lo]));
            return true;
        }
        k = k + 1;
    }
    false
}

/// Whether `c` occurs in `v[lo..hi]`.
pub fn has_char_chars(v: &Vec<char>, lo: usize, hi: usize, c: char) -> (r: bool)
    requires
        lo <= hi <= v@.len(),
    ensures
        r == has_char(v@.subrange(lo as int, hi as int), c),
{
    let f = find_first(v, lo, hi, c);
    proof {
        lemma_first_index(v@.subrange(lo as int, hi as int), c);
    }
    f.is_some()
}

/// The pieces of `s` between occurrences of `c`, as `str::split` yields them.
pub open spec fn split_on(s: Seq<char>, c: char) -> Seq<Seq<char>>
    decreases s.len(),
{
    match first_index(s, c) {
        None => seq![s],
        Some(i) => {
            proof {
                lemma_first_index(s, c);
            }
            seq![s.take(i)] + split_on(s.skip(i + 1), c)
        },
    }
}

/// Splitting `a:b`, where `a` holds no `c`, gives `a` and then the pieces of `b`.
pub proof fn lemma_split_cons(a: Seq<char>, b: Seq<char>, c: char)
    requires
        !has_char(a, c),
    ensures
        split_on(a + seq![c] + b, c) == seq![a] + split_on(b, c),
{
    let s = a + seq![c] + b;
    assert forall|j: int| 0 <= j < a.len() implies s[j] != c by {
        assert(s[j] == a[j]);
    }
    lemma_first_index_at(s, c, a.len() as int);
    assert(s.take(a.len() as int) =~= a);
    assert(s.skip(a.len() as int + 1) =~= b);
}

/// A text without `c` is a single piece.
pub proof fn lemma_split_single(a: Seq<char>, c: char)
    requires
        !has_char(a, c),
    ensures
        split_on(a, c) == seq![a],
{
    lemma_first_index(a, c);
}

/// No piece of `split_on(s, c)` holds `c`, and a piece holds `d` only where
/// `s` does.
pub proof fn lemma_split_pieces(s: Seq<char>, c: char, d: char)
    ensures
        forall|k: int| 0 <= k < split_on(s, c).len() ==> !has_char(#[trigger] split_on(s, c)[k], c)
            && (!has_char(s, d) ==> !has_char(split_on(s, c)[k], d)),
    decreases s.len(),
{
    lemma_first_index(s, c);
    match first_index(s, c) {
        None => {},
        Some(i) => {
            let head = s.take(i);
            let rest = s.skip(i + 1);
            lemma_split_pieces(rest, c, d);
            let p = split_on(s, c);
            assert(p == seq![head] + split_on(rest, c));
            assert forall|k: int| 0 <= k < p.len() implies !has_char(#[trigger] p[k], c) && (!has_char(s, d)
                ==> !has_char(p[k], d)) by {
                if k == 0 {
                    assert(p[0] == head);
                    if !has_char(s, d) {
                        assert forall|j: int| 0 <= j < head.len() implies #[trigger] head[j] != d by {
                            assert(head[j] == s[j]);
                        }
                    }
                } else {
                    assert(p[k] == split_on(rest, c)[k - 1]);
                    if !has_char(s, d) {
                        assert forall|j: int| 0 <= j < rest.len() implies #[trigger] rest[j] != d by {
                            assert(rest[j] == s[i + 1 + j]);
                        }
                    }
                }
            }
        },
    }
}

/// Splitting `a`, `c`, `b`, where `b` holds no `c`, gives the pieces of `a`
/// and then `b`.
pub proof fn lemma_split_snoc(a: Seq<char>, b: Seq<char>, c: char)
    requires
        !has_char(b, c),
    ensures
        split_on(a + seq![c] + b, c) == split_on(a, c).push(b),
    decreases a.len(),
{
    lemma_first_index(a, c);
    lemma_split_single(b, c);
    match first_index(a, c) {
        None => {
            lemma_split_cons(a, b, c);
            lemma_split_single(a, c);
        },
        Some(i) => {
            let head = a.take(i);
            let rest = a.skip(i + 1);
            assert(a =~= head + seq![c] + rest);
            assert(a + seq![c] + b =~= head + seq![c] + (rest + seq![c] + b));
            lemma_split_snoc(rest, b, c);
            lemma_split_cons(head, rest + seq![c] + b, c);
            lemma_split_cons(head, rest, c);
            assert(seq![head] + split_on(rest, c).push(b) =~= (seq![head] + split_on(rest, c)).push(b));
        },
    }
}

/// The bounds of the pieces of `v[lo..hi]` between occurrences of `c`: piece
/// `k` is `v[starts[k]..ends[k]]`.
pub fn split_bounds(v: &Vec<char>, lo: usize, hi: usize, c: char) -> (r: (Vec<usize>, Vec<usize>))
    requires
        lo <= hi <= v@.len(),
    ensures
        r.0@.len() == r.1@.len() == split_on(v@.subrange(lo as int, hi as int), c).len(),
        forall|k: int| 0 <= k < r.0@.len() ==> lo <= #[trigger] r.0@[k] <= r.1@[k] <= hi
            && v@.subrange(r.0@[k] as int, r.1@[k] as int) == split_on(v@.subrange(lo as int, hi as int), c)[k],
{
    let ghost all = split_on(v@.subrange(lo as int, hi as int), c);
    let mut starts: Vec<usize> = Vec::new();
    let mut ends: Vec<usize> = Vec::new();
    let mut pos = lo;
    loop
        invariant
            lo <= pos <= hi <= v@.len(),
            starts@.len() == ends@.len(),
            all == split_on(v@.subrange(lo as int, hi as int), c),
            all.len() == starts@.len() + split_on(v@.subrange(pos as int, hi as int), c).len(),
            forall|k: int| 0 <= k < starts@.len() ==> lo <= #[trigger] starts@[k] <= ends@[k] <= hi
                && v@.subrange(starts@[k] as int, ends@[k] as int) == all[k],
            forall|k: int| 0 <= k < split_on(v@.subrange(pos as int, hi as int), c).len() ==>
                #[trigger] split_on(v@.subrange(pos as int, hi as int), c)[k] == all[starts@.len() + k],
        decreases hi - pos,
    {
        let ghost rest = v@.subrange(pos as int, hi as int);
        let f = find_first(v, pos, hi, c);
        proof {
            lemma_first_index(rest, c);
        }
        match f {
            None => {
                assert(split_on(rest, c) == seq![rest]);
                assert(split_on(rest, c)[0] == rest);
                assert(all[starts@.len() as int] == rest);
                assert(all.len() == starts@.len() + 1);
                starts.push(pos);
                ends.push(hi);
                return (starts, ends);
            },
            Some(j) => {
                let ghost next = v@.subrange(j + 1, hi as int);
                assert(rest.take(j - pos) =~= v@.subrange(pos as int, j as int));
                assert(rest.skip(j - pos + 1) =~= next);
                assert(split_on(rest, c) == seq![rest.take(j - pos)] + split_on(next, c));
                assert(all[starts@.len() as int] == split_on(rest, c)[0]);
                assert forall|k: int| 0 <= k < split_on(next, c).len() implies #[trigger] split_on(next, c)[k]
                    == all[starts@.len() + 1 + k] by {
                    assert(split_on(next, c)[k] == split_on(rest, c)[k + 1]);
                }
                starts.push(pos);
                ends.push(j);
                pos = j + 1;
            },
        }
    }
}

/// `char::is_whitespace`.
pub fn char_is_ws(c: char) -> (r: bool)
    ensures
        r == is_ws(c),
{
    let u = c as u32;
    (0x09 <= u && u <= 0x0D) || u == 0x20 || u == 0x85 || u == 0xA0 || u == 0x1680 || (0x2000
        <= u && u <= 0x200A) || u == 0x2028 || u == 0x2029 || u == 0x202F || u == 0x205F || u
        == 0x3000
}

/// The characters of `s`, in order.
pub fn chars_of(s: &str) -> (v: Vec<char>)
    ensures
        v@ == s@,
{
    let mut v: Vec<char> = Vec::new();
    for c in it: s.chars()
        invariant
            v@ == it.seq().take(it.index()),
            it.seq() == s@,
    {
        v.push(c);
    }
    v
}

/// Appends one character to a string by calling `String::push`; the contract
/// states what std documents: the string afterwards is the old one followed by
/// `c`. Not proved here.
#[verifier::external_body]
pub(crate) fn push_char(s: &mut String, c: char)
    ensures
        final(s)@ == old(s)@.push(c),
{
    s.push(c);
}

/// Appends the characters `v[lo..hi]` to `out`.
pub fn push_chars(out: &mut String, v: &Vec<char>, lo: usize, hi: usize)
    requires
        lo <= hi <= v@.len(),
    ensures
        final(out)@ == old(out)@ + v@.subrange(lo as int, hi as int),
{
    let mut i = lo;
    while i < hi
        invariant
            lo <= i <= hi <= v@.len(),
            out@ == old(out)@ + v@.subrange(lo as int, i as int),
        decreases hi - i,
    {
        push_char(out, v[i]);
        assert(v@.subrange(lo as int, i + 1) == v@.subrange(lo as int, i as int).push(v@[i as int]));
        i = i + 1;
    }
}

/// A `String` holding the characters `v[lo..hi]`.
pub fn string_of(v: &Vec<char>, lo: usize, hi: usize) -> (s: String)
    requires
        lo <= hi <= v@.len(),
    ensures
        s@ == v@.subrange(lo as int, hi as int),
{
    let mut s = String::new();
    push_chars(&mut s, v, lo, hi);
    s
}

/// Appends the string `t` to `out`.
pub fn push_str(out: &mut String, t: &str)
    ensures
        final(out)@ == old(out)@ + t@,
{
    out.append(t);
}

} // verus!
