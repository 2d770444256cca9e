//! Text primitives on strings viewed as sequences of characters: case folding,
//! substring search, building strings character by character.
use vstd::prelude::*;
use vstd::relations::{sorted_by, total_ordering};

verus! {

/// What `str::to_lowercase` gives for a string (Unicode `Lowercase` mapping,
/// including context-dependent and multi-character mappings).
pub uninterp spec fn lowercase(s: Seq<char>) -> Seq<char>;

/// Calls `str::to_lowercase`. The contract only names the result: it is a
/// function of the characters of `s` alone.
#[verifier::external_body]
pub(crate) fn to_lowercase(s: &str) -> (r: String)
    ensures
        r@ == lowercase(s@),
{
    s.to_lowercase()
}

/// Calls `String::push`, which appends one character.
#[verifier::external_body]
pub(crate) fn push_char(s: &mut String, c: char)
    ensures
        final(s)@ == old(s)@.push(c),
{
    s.push(c)
}

/// The characters of `s`, in order.
pub(crate) fn chars_of(s: &str) -> (v: Vec<char>)
    ensures
        v@ == s@,
{
    let n = s.unicode_len();
    let mut v: Vec<char> = Vec::new();
    let mut i: usize = 0;
    while i < n
        invariant
            n == s@.len(),
            0 <= i <= n,
            v@ == s@.take(i as int),
        decreases n - i,
    {
        let c = s.get_char(i);
        v.push(c);
        assert(s@.take(i + 1) =~= s@.take(i as int).push(c));
        i = i + 1;
    }
    assert(s@.take(n as int) =~= s@);
    v
}

/// A string made of the characters `cs`.
pub(crate) fn string_of(cs: &Vec<char>) -> (s: String)
    ensures
        s@ == cs@,
{
    let mut s = String::new();
    let mut i: usize = 0;
    while i < cs.len()
        invariant
            0 <= i <= cs@.len(),
            s@ == cs@.take(i as int),
        decreases cs@.len() - i,
    {
        push_char(&mut s, cs[i]);
        assert(cs@.take(i + 1) =~= cs@.take(i as int).push(cs@[i as int]));
        i = i + 1;
    }
    assert(cs@.take(cs@.len() as int) =~= cs@);
    s
}

/// `needle` occurs in `hay` starting at position `i`.
pub open spec fn occurs_at(hay: Seq<char>, needle: Seq<char>, i: int) -> bool {
    &&& 0 <= i
    &&& i + needle.len() <= hay.len()
    &&& hay.subrange(i, i + needle.len()) == needle
}

/// `needle` is a substring of `hay` (the empty string is a substring of every string).
pub open spec fn seq_contains(hay: Seq<char>, needle: Seq<char>) -> bool {
    exists|i: int| occurs_at(hay, needle, i)
}

/// Substring search, as `str::contains` with a string pattern.
pub fn contains(hay: &str, needle: &str) -> (r: bool)
    ensures
        r == seq_contains(hay@, needle@),
{
    let h = chars_of(hay);
    let n = chars_of(needle);
    if n.len() > h.len() {
        assert forall|i: int| !occurs_at(hay@, needle@, i) by {}
        return false;
    }
    let last = h.len() - n.len();
    let mut i: usize = 0;
    while i <= last
        invariant
            h@ == hay@,
            n@ == needle@,
            last == h@.len() - n@.len(),
            n@.len() <= h@.len(),
            0 <= i <= last + 1,
            forall|k: int| 0 <= k < i ==> !occurs_at(hay@, needle@, k),
        decreases last + 1 - i,
    {
        let mut j: usize = 0;
        let mut same = true;
        while j < n.len()
            invariant
                h@ == hay@,
                n@ == needle@,
                i + n@.len() <= h@.len(),
                h@.len() == h.len(),
                0 <= j <= n@.len(),
                same == (forall|m: int| 0 <= m < j ==> h@[i + m] == n@[m]),
            decreases n@.len() - j,
        {
            if h[i + j] != n[j] {
                same = false;
            }
            j = j + 1;
        }
        if same {
            assert(hay@.subrange(i as int, i + needle@.len()) =~= needle@);
            assert(occurs_at(hay@, needle@, i as int));
            return true;
        }
        assert(!occurs_at(hay@, needle@, i as int)) by {
            if occurs_at(hay@, needle@, i as int) {
                let m = choose|m: int| 0 <= m < n@.len() && h@[i + m] != n@[m];
                assert(hay@.subrange(i as int, i + needle@.len())[m] == hay@[i + m]);
            }
        }
        i = i + 1;
    }
    assert forall|k: int| !occurs_at(hay@, needle@, k) by {
        if 0 <= k < i {
        }
    }
    false
}

// ───────────────────────── decimal numerals ─────────────────────────

/// The character of decimal digit `d`.
pub open spec fn digit_char(d: int) -> char {
    if d == 0 {
        '0'
    } else if d == 1 {
        '1'
    } else if d == 2 {
        '2'
    } else if d == 3 {
        '3'
    } else if d == 4 {
        '4'
    } else if d == 5 {
        '5'
    } else if d == 6 {
        '6'
    } else if d == 7 {
        '7'
    } else if d == 8 {
        '8'
    } else {
        '9'
    }
}

/// The decimal numeral of `n`, without leading zeros, as `{}` formats it.
pub open spec fn decimal(n: nat) -> Seq<char>
    decreases n,
{
    if n < 10 {
        seq![digit_char(n as int)]
    } else {
        decimal(n / 10).push(digit_char((n % 10) as int))
    }
}

fn digit(d: u64) -> (c: char)
    requires
        d < 10,
    ensures
        c == digit_char(d as int),
{
    if d == 0 {
        '0'
    } else if d == 1 {
        '1'
    } else if d == 2 {
        '2'
    } else if d == 3 {
        '3'
    } else if d == 4 {
        '4'
    } else if d == 5 {
        '5'
    } else if d == 6 {
        '6'
    } else if d == 7 {
        '7'
    } else if d == 8 {
        '8'
    } else {
        '9'
    }
}

/// The decimal numeral of `n`.
pub(crate) fn decimal_string(n: u64) -> (s: String)
    ensures
        s@ == decimal(n as nat),
    decreases n,
{
    if n < 10 {
        let mut s = String::new();
        push_char(&mut s, digit(n));
        assert(s@ =~= seq![digit_char(n as int)]);
        s
    } else {
        let mut s = decimal_string(n / 10);
        push_char(&mut s, digit(n % 10));
        s
    }
}

// ───────────────────────── lexicographic order ─────────────────────────

/// `a` sorts strictly before `b` in the order of Rust's `String` comparison:
/// character by character (which for UTF-8 is the byte order), a proper
/// prefix first.
pub open spec fn lex_lt(a: Seq<char>, b: Seq<char>) -> bool
    decreases a.len(),
{
    if a.len() == 0 {
        b.len() > 0
    } else if b.len() == 0 {
        false
    } else if (a[0] as int) < (b[0] as int) {
        true
    } else if a[0] == b[0] {
        lex_lt(a.drop_first(), b.drop_first())
    } else {
        false
    }
}

pub open spec fn lex_le(a: Seq<char>, b: Seq<char>) -> bool {
    a == b || lex_lt(a, b)
}

/// Every string of `s` sorts at or before every later one.
pub open spec fn sorted_text(s: Seq<Seq<char>>) -> bool {
    forall|i: int, j: int| 0 <= i < j < s.len() ==> lex_le(#[trigger] s[i], #[trigger] s[j])
}

/// The characters of each string of `s`.
pub open spec fn texts(s: Seq<String>) -> Seq<Seq<char>> {
    s.map_values(|x: String| x@)
}

pub proof fn lemma_lex_irreflexive(a: Seq<char>)
    ensures
        !lex_lt(a, a),
    decreases a.len(),
{
    if a.len() > 0 {
        lemma_lex_irreflexive(a.drop_first());
    }
}

pub proof fn lemma_lex_transitive(a: Seq<char>, b: Seq<char>, c: Seq<char>)
    requires
        lex_lt(a, b),
        lex_lt(b, c),
    ensures
        lex_lt(a, c),
    decreases a.len(),
{
    if a.len() > 0 && b.len() > 0 && c.len() > 0 {
        if a[0] == b[0] && b[0] == c[0] {
            lemma_lex_transitive(a.drop_first(), b.drop_first(), c.drop_first());
        }
    }
}

pub proof fn lemma_lex_total(a: Seq<char>, b: Seq<char>)
    ensures
        a == b || lex_lt(a, b) || lex_lt(b, a),
    decreases a.len(),
{
    if a.len() > 0 && b.len() > 0 {
        if a[0] == b[0] {
            lemma_lex_total(a.drop_first(), b.drop_first());
            if a.drop_first() == b.drop_first() {
                assert(a =~= seq![a[0]] + a.drop_first());
                assert(b =~= seq![b[0]] + b.drop_first());
            }
        }
    } else if a.len() == 0 && b.len() == 0 {
        assert(a =~= b);
    }
}

/// `lex_le` is a total order on character sequences.
pub proof fn lemma_lex_le_total_ordering()
    ensures
        total_ordering(|a: Seq<char>, b: Seq<char>| lex_le(a, b)),
{
    let leq = |a: Seq<char>, b: Seq<char>| lex_le(a, b);
    assert forall|a: Seq<char>, b: Seq<char>| #[trigger] leq(a, b) && #[trigger] leq(b, a) implies a
        == b by {
        if a != b {
            lemma_lex_transitive(a, b, a);
            lemma_lex_irreflexive(a);
        }
    }
    assert forall|a: Seq<char>, b: Seq<char>, c: Seq<char>| #[trigger] leq(a, b) && #[trigger] leq(
        b,
        c,
    ) implies leq(a, c) by {
        if a != b && b != c {
            lemma_lex_transitive(a, b, c);
        }
    }
    assert forall|a: Seq<char>, b: Seq<char>| #[trigger] leq(a, b) || #[trigger] leq(b, a) by {
        lemma_lex_total(a, b);
    }
}

/// Two sorted lists of strings with the same elements, counted with
/// multiplicity, are the same list.
pub proof fn lemma_sorted_text_unique(x: Seq<Seq<char>>, y: Seq<Seq<char>>)
    requires
        sorted_text(x),
        sorted_text(y),
        x.to_multiset() == y.to_multiset(),
    ensures
        x == y,
{
    let leq = |a: Seq<char>, b: Seq<char>| lex_le(a, b);
    lemma_lex_le_total_ordering();
    assert(sorted_by(x, leq));
    assert(sorted_by(y, leq));
    vstd::seq_lib::lemma_sorted_unique(x, y, leq);
}

/// `a` sorts strictly before `b`.
pub(crate) fn lex_less(a: &str, b: &str) -> (r: bool)
    ensures
        r == lex_lt(a@, b@),
{
    let x = chars_of(a);
    let y = chars_of(b);
    let mut i: usize = 0;
    assert(a@.skip(0) =~= a@);
    assert(b@.skip(0) =~= b@);
    while i < x.len() && i < y.len()
        invariant
            x@ == a@,
            y@ == b@,
            0 <= i <= x@.len(),
            i <= y@.len(),
            lex_lt(a@, b@) == lex_lt(a@.skip(i as int), b@.skip(i as int)),
        decreases x@.len() - i,
    {
        let ghost sa = a@.skip(i as int);
        let ghost sb = b@.skip(i as int);
        assert(sa[0] == x@[i as int]);
        assert(sb[0] == y@[i as int]);
        if x[i] < y[i] {
            return true;
        }
        if x[i] != y[i] {
            return false;
        }
        assert(sa.drop_first() =~= a@.skip(i + 1));
        assert(sb.drop_first() =~= b@.skip(i + 1));
        i = i + 1;
    }
    i < y.len()
}

/// The strings of `v`, sorted into ascending order.
pub(crate) fn sort_strings(v: Vec<String>) -> (r: Vec<String>)
    ensures
        sorted_text(texts(r@)),
        texts(r@).to_multiset() =~= texts(v@).to_multiset(),
{
    broadcast use vstd::seq_lib::group_to_multiset_ensures;

    let mut out: Vec<String> = Vec::new();
    let mut k: usize = 0;
    while k < v.len()
        invariant
            0 <= k <= v@.len(),
            sorted_text(texts(out@)),
            texts(out@).to_multiset() =~= texts(v@.take(k as int)).to_multiset(),
        decreases v@.len() - k,
    {
        let x = v[k].clone();
        let mut p: usize = 0;
        while p < out.len() && !lex_less(x.as_str(), out[p].as_str())
            invariant
                0 <= p <= out@.len(),
                forall|j: int| 0 <= j < p ==> !lex_lt(x@, #[trigger] out@[j]@),
            decreases out@.len() - p,
        {
            p = p + 1;
        }
        let ghost before = out@;
        out.insert(p, x);
        proof {
            let t = texts(out@);
            let tb = texts(before);
            assert(t =~= tb.insert(p as int, x@));
            assert forall|i: int, j: int| 0 <= i < j < t.len() implies lex_le(#[trigger] t[i], #[trigger] t[j]) by {
                if j == p {
                    lemma_lex_total(tb[i], x@);
                } else if i == p {
                    if j - 1 > p {
                        assert(lex_le(tb[p as int], tb[j - 1]));
                        assert(lex_lt(x@, tb[p as int]));
                        if lex_lt(tb[p as int], tb[j - 1]) {
                            lemma_lex_transitive(x@, tb[p as int], tb[j - 1]);
                        }
                    }
                } else {
                    let ii = if i < p { i } else { i - 1 };
                    let jj = if j < p { j } else { j - 1 };
                    assert(t[i] == tb[ii] && t[j] == tb[jj]);
                }
            }
            assert(texts(v@.take(k + 1)) =~= texts(v@.take(k as int)).push(x@));
            vstd::seq_lib::to_multiset_insert(tb, p as int, x@);
            vstd::seq_lib::to_multiset_build(texts(v@.take(k as int)), x@);
        }
        k = k + 1;
    }
    assert(v@.take(k as int) =~= v@);
    out
}

} // verus!
