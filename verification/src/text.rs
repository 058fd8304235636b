//! Character-level text utilities shared by the protocol modules: ASCII
//! whitespace trimming, lexicographic ordering of strings, and sorted
//! deduplication of path lists.

use vstd::prelude::*;

verus! {

/// The characters of the Unicode White_Space set — the set that
/// `str::trim` removes: the ASCII whitespace controls and space, and the
/// Unicode space and line separators.
pub open spec fn is_space_char(c: char) -> bool {
    ||| c == ' ' || c == '\t' || c == '\n' || c == '\r' || c == '\x0b' || c == '\x0c'
    ||| (c as u32) == 0x85 || (c as u32) == 0xA0 || (c as u32) == 0x1680
    ||| (0x2000 <= (c as u32) && (c as u32) <= 0x200A)
    ||| (c as u32) == 0x2028 || (c as u32) == 0x2029 || (c as u32) == 0x202F
    ||| (c as u32) == 0x205F || (c as u32) == 0x3000
}

pub fn is_space(c: char) -> (r: bool)
    ensures
        r == is_space_char(c),
{
    if c == ' ' || c == '\t' || c == '\n' || c == '\r' || c == '\x0b' || c == '\x0c' {
        true
    } else {
        let x = c as u32;
        x == 0x85 || x == 0xA0 || x == 0x1680 || (0x2000 <= x && x <= 0x200A) || x == 0x2028
            || x == 0x2029 || x == 0x202F || x == 0x205F || x == 0x3000
    }
}

/// The string with its leading whitespace removed.
pub open spec fn trim_start_spec(s: Seq<char>) -> Seq<char>
    decreases s.len(),
{
    if s.len() > 0 && is_space_char(s[0]) {
        trim_start_spec(s.drop_first())
    } else {
        s
    }
}

/// The string with its trailing whitespace removed.
pub open spec fn trim_end_spec(s: Seq<char>) -> Seq<char>
    decreases s.len(),
{
    if s.len() > 0 && is_space_char(s.last()) {
        trim_end_spec(s.drop_last())
    } else {
        s
    }
}

/// The string with whitespace removed from both ends.
pub open spec fn trim_spec(s: Seq<char>) -> Seq<char> {
    trim_end_spec(trim_start_spec(s))
}

proof fn lemma_trim_start_skip(s: Seq<char>, k: int)
    requires
        0 <= k <= s.len(),
        forall|j: int| 0 <= j < k ==> is_space_char(s[j]),
        k == s.len() || !is_space_char(s[k]),
    ensures
        trim_start_spec(s) == s.skip(k),
    decreases k,
{
    if k == 0 {
        assert(s.skip(0) =~= s);
    } else {
        assert(is_space_char(s[0]));
        lemma_trim_start_skip(s.drop_first(), k - 1);
        assert(s.drop_first().skip(k - 1) =~= s.skip(k));
    }
}

proof fn lemma_trim_end_take(s: Seq<char>, k: int)
    requires
        0 <= k <= s.len(),
        forall|j: int| k <= j < s.len() ==> is_space_char(s[j]),
        k == 0 || !is_space_char(s[k - 1]),
    ensures
        trim_end_spec(s) == s.take(k),
    decreases s.len() - k,
{
    if k == s.len() {
        assert(s.take(k) =~= s);
    } else {
        assert(is_space_char(s.last()));
        lemma_trim_end_take(s.drop_last(), k);
        assert(s.drop_last().take(k) =~= s.take(k));
    }
}

/// Removes ASCII whitespace from both ends of a string.
pub fn trim(s: &str) -> (r: String)
    ensures
        r@ == trim_spec(s@),
{
    let n = s.unicode_len();
    let mut start: usize = 0;
    while start < n && is_space(s.get_char(start))
        invariant
            n == s@.len(),
            start <= n,
            forall|j: int| 0 <= j < start ==> is_space_char(s@[j]),
        decreases n - start,
    {
        start = start + 1;
    }
    let mut end: usize = n;
    while end > start && is_space(s.get_char(end - 1))
        invariant
            n == s@.len(),
            start <= end <= n,
            forall|j: int| 0 <= j < start ==> is_space_char(s@[j]),
            forall|j: int| end <= j < n ==> is_space_char(s@[j]),
        decreases end,
    {
        end = end - 1;
    }
    proof {
        lemma_trim_start_skip(s@, start as int);
        let t = s@.skip(start as int);
        lemma_trim_end_take(t, end - start);
        assert(t.take(end - start) =~= s@.subrange(start as int, end as int));
    }
    s.substring_char(start, end).to_owned()
}

/// Lexicographic order on strings by character scalar value; this agrees
/// with the byte order of their UTF-8 encodings.
pub open spec fn lex_le(a: Seq<char>, b: Seq<char>) -> bool
    decreases a.len(),
{
    if a.len() == 0 {
        true
    } else if b.len() == 0 {
        false
    } else if a[0] != b[0] {
        (a[0] as u32) < (b[0] as u32)
    } else {
        lex_le(a.drop_first(), b.drop_first())
    }
}

/// Strict lexicographic order.
pub open spec fn lex_lt(a: Seq<char>, b: Seq<char>) -> bool {
    lex_le(a, b) && a != b
}

proof fn lemma_char_cast_neq(a: char, b: char)
    requires
        a != b,
    ensures
        (a as u32) != (b as u32),
{
    vstd::utf8::char_u32_cast(a, a as u32);
    vstd::utf8::char_u32_cast(b, b as u32);
}

pub proof fn lemma_lex_total(a: Seq<char>, b: Seq<char>)
    ensures
        lex_le(a, b) || lex_le(b, a),
    decreases a.len(),
{
    if a.len() > 0 && b.len() > 0 {
        if a[0] == b[0] {
            lemma_lex_total(a.drop_first(), b.drop_first());
        } else {
            lemma_char_cast_neq(a[0], b[0]);
        }
    }
}

pub proof fn lemma_lex_antisym(a: Seq<char>, b: Seq<char>)
    requires
        lex_le(a, b),
        lex_le(b, a),
    ensures
        a == b,
    decreases a.len(),
{
    if a.len() == 0 {
        assert(b.len() == 0);
        assert(a =~= b);
    } else {
        assert(a[0] == b[0]);
        lemma_lex_antisym(a.drop_first(), b.drop_first());
        assert forall|i: int| 0 <= i < a.len() implies a[i] == b[i] by {
            if i > 0 {
                assert(a.drop_first()[i - 1] == b.drop_first()[i - 1]);
            }
        }
        assert(a =~= b);
    }
}

pub proof fn lemma_lex_trans(a: Seq<char>, b: Seq<char>, c: Seq<char>)
    requires
        lex_le(a, b),
        lex_le(b, c),
    ensures
        lex_le(a, c),
    decreases a.len(),
{
    if a.len() > 0 && b.len() > 0 && c.len() > 0 {
        if a[0] == b[0] && b[0] == c[0] {
            lemma_lex_trans(a.drop_first(), b.drop_first(), c.drop_first());
        }
    }
}

proof fn lemma_lex_skip(a: Seq<char>, b: Seq<char>, i: int)
    requires
        0 <= i <= a.len(),
        i <= b.len(),
        forall|j: int| 0 <= j < i ==> a[j] == b[j],
    ensures
        lex_le(a, b) == lex_le(a.skip(i), b.skip(i)),
    decreases i,
{
    if i > 0 {
        assert(a.len() > 0 && b.len() > 0 && a[0] == b[0]);
        lemma_lex_skip(a.drop_first(), b.drop_first(), i - 1);
        assert(a.drop_first().skip(i - 1) =~= a.skip(i));
        assert(b.drop_first().skip(i - 1) =~= b.skip(i));
    } else {
        assert(a.skip(0) =~= a);
        assert(b.skip(0) =~= b);
    }
}

/// Decides the lexicographic order `lex_le` between two strings.
pub fn str_le(a: &str, b: &str) -> (r: bool)
    ensures
        r == lex_le(a@, b@),
{
    let la = a.unicode_len();
    let lb = b.unicode_len();
    let n = if la < lb {
        la
    } else {
        lb
    };
    let mut i: usize = 0;
    while i < n
        invariant
            la == a@.len(),
            lb == b@.len(),
            n == if la < lb {
                la
            } else {
                lb
            },
            i <= n,
            forall|j: int| 0 <= j < i ==> a@[j] == b@[j],
        decreases n - i,
    {
        let ca = a.get_char(i);
        let cb = b.get_char(i);
        if ca != cb {
            proof {
                lemma_lex_skip(a@, b@, i as int);
            }
            return (ca as u32) < (cb as u32);
        }
        i = i + 1;
    }
    proof {
        lemma_lex_skip(a@, b@, n as int);
    }
    la <= lb
}

/// Decides the strict lexicographic order `lex_lt` between two strings.
pub fn str_lt(a: &str, b: &str) -> (r: bool)
    ensures
        r == lex_lt(a@, b@),
{
    proof {
        lemma_lex_total(a@, b@);
        if lex_le(a@, b@) && lex_le(b@, a@) {
            lemma_lex_antisym(a@, b@);
        }
    }
    !str_le(b, a)
}

/// A strictly increasing sequence of strings: sorted with no duplicates.
pub open spec fn strict_sorted(ss: Seq<Seq<char>>) -> bool {
    forall|i: int, j: int| 0 <= i < j < ss.len() ==> lex_lt(ss[i], ss[j])
}

/// Whether a list of strings holds one whose characters are exactly `x`.
pub fn contains_str(v: &Vec<String>, x: &String) -> (r: bool)
    ensures
        r == v.deep_view().contains(x@),
{
    let mut i: usize = 0;
    while i < v.len()
        invariant
            i <= v.len(),
            forall|j: int| 0 <= j < i ==> v.deep_view()[j] != x@,
        decreases v.len() - i,
    {
        if v[i].eq(x) {
            assert(v.deep_view()[i as int] == x@);
            return true;
        }
        i = i + 1;
    }
    false
}

/// Sorts a list of strings lexicographically and removes duplicates: the
/// result is strictly increasing and holds exactly the strings of the input.
pub fn sorted_dedup(items: &Vec<String>) -> (r: Vec<String>)
    ensures
        strict_sorted(r.deep_view()),
        forall|p: Seq<char>|
            #![trigger r.deep_view().contains(p)]
            #![trigger items.deep_view().contains(p)]
            r.deep_view().contains(p) <==> items.deep_view().contains(p),
{
    let ghost all = items.deep_view();
    let mut out: Vec<String> = Vec::new();
    let mut idx: usize = 0;
    while idx < items.len()
        invariant
            idx <= items.len(),
            all == items.deep_view(),
            all.len() == items.len(),
            strict_sorted(out.deep_view()),
            forall|p: Seq<char>| out.deep_view().contains(p) <==> all.take(idx as int).contains(p),
        decreases items.len() - idx,
    {
        let x = &items[idx];
        let ghost old_out = out.deep_view();
        let mut j: usize = 0;
        loop
            invariant_except_break
                j <= out.len(),
                out.deep_view() == old_out,
                forall|k: int| 0 <= k < j ==> lex_lt(old_out[k], x@),
            ensures
                j <= out.len(),
                out.deep_view() == old_out,
                forall|k: int| 0 <= k < j ==> lex_lt(old_out[k], x@),
                j < out.len() ==> !lex_lt(old_out[j as int], x@),
            decreases out.len() - j,
        {
            if j == out.len() {
                break ;
            }
            if !str_lt(out[j].as_str(), x.as_str()) {
                break ;
            }
            j = j + 1;
        }
        let duplicate = j < out.len() && out[j].eq(x);
        proof {
            if duplicate {
                assert(old_out[j as int] == x@);
            }
        }
        if !duplicate {
            proof {
                if j < out.len() {
                    lemma_lex_total(old_out[j as int], x@);
                    assert(old_out[j as int] != x@);
                    assert(lex_lt(x@, old_out[j as int]));
                }
            }
            out.insert(j, x.clone());
            proof {
                assert(out.deep_view() =~= old_out.insert(j as int, x@));
                let dv = out.deep_view();
                assert forall|i1: int, i2: int| 0 <= i1 < i2 < dv.len() implies lex_lt(
                    dv[i1],
                    dv[i2],
                ) by {
                    if i2 < j {
                        assert(dv[i1] == old_out[i1] && dv[i2] == old_out[i2]);
                    } else if i1 < j && i2 == j {
                        assert(dv[i1] == old_out[i1] && dv[i2] == x@);
                    } else if i1 < j && i2 > j {
                        assert(dv[i1] == old_out[i1] && dv[i2] == old_out[i2 - 1]);
                        if i2 - 1 == j {
                            assert(lex_lt(old_out[i1], x@) && lex_lt(x@, old_out[j as int]));
                            lemma_lex_trans(old_out[i1], x@, old_out[i2 - 1]);
                            assert(old_out[i1] != old_out[i2 - 1]) by {
                                if old_out[i1] == old_out[i2 - 1] {
                                    lemma_lex_antisym(old_out[i1], x@);
                                }
                            }
                        } else {
                            assert(lex_lt(old_out[i1], old_out[i2 - 1]));
                        }
                    } else if i1 == j {
                        assert(dv[i1] == x@ && dv[i2] == old_out[i2 - 1]);
                        assert(lex_lt(x@, old_out[j as int]));
                        if i2 - 1 > j {
                            assert(lex_lt(old_out[j as int], old_out[i2 - 1]));
                            lemma_lex_trans(x@, old_out[j as int], old_out[i2 - 1]);
                            assert(x@ != old_out[i2 - 1]) by {
                                if x@ == old_out[i2 - 1] {
                                    lemma_lex_antisym(x@, old_out[j as int]);
                                }
                            }
                        }
                    } else {
                        assert(dv[i1] == old_out[i1 - 1] && dv[i2] == old_out[i2 - 1]);
                    }
                }
            }
        }
        proof {
            assert(all.take(idx + 1) =~= all.take(idx as int).push(x@));
            assert forall|p: Seq<char>| out.deep_view().contains(p) <==> all.take(
                idx + 1,
            ).contains(p) by {
                if p == x@ {
                    assert(all.take(idx + 1)[idx as int] == x@);
                    assert(all.take(idx + 1).contains(x@));
                    assert(out.deep_view()[j as int] == x@);
                    assert(out.deep_view().contains(x@));
                } else {
                    if all.take(idx + 1).contains(p) {
                        let w = choose|w: int|
                            #![trigger all.take(idx + 1)[w]]
                            0 <= w < all.take(idx + 1).len() && all.take(idx + 1)[w] == p;
                        assert(w < idx);
                        assert(all.take(idx as int)[w] == p);
                        assert(all.take(idx as int).contains(p));
                    }
                    if all.take(idx as int).contains(p) {
                        let w = choose|w: int|
                            #![trigger all.take(idx as int)[w]]
                            0 <= w < all.take(idx as int).len() && all.take(idx as int)[w] == p;
                        assert(all.take(idx + 1)[w] == p);
                        assert(all.take(idx + 1).contains(p));
                    }
                    if out.deep_view().contains(p) {
                        let w = choose|w: int|
                            #![trigger out.deep_view()[w]]
                            0 <= w < out.deep_view().len() && out.deep_view()[w] == p;
                        if !duplicate {
                            assert(old_out.contains(p));
                        }
                    }
                    if old_out.contains(p) && !duplicate {
                        let w = choose|w: int| #![trigger old_out[w]]
                            0 <= w < old_out.len() && old_out[w] == p;
                        let dv = out.deep_view();
                        if w < j {
                            assert(dv[w] == p);
                        } else {
                            assert(dv[w + 1] == p);
                        }
                        assert(dv.contains(p));
                    }
                }
            }
        }
        idx = idx + 1;
    }
    proof {
        assert(all.take(items.len() as int) =~= all);
    }
    out
}

/// Two strictly increasing string lists that hold the same strings are the
/// same list: the sorted, deduplicated form of a set of paths is unique.
pub proof fn lemma_strict_sorted_unique(a: Seq<Seq<char>>, b: Seq<Seq<char>>)
    requires
        strict_sorted(a),
        strict_sorted(b),
        forall|p: Seq<char>| a.contains(p) <==> b.contains(p),
    ensures
        a == b,
    decreases a.len(),
{
    if a.len() == 0 {
        if b.len() > 0 {
            assert(b.contains(b[0]));
            assert(a.contains(b[0]));
        }
        assert(a =~= b);
    } else {
        assert(a.contains(a[0]));
        assert(b.contains(a[0]));
        assert(b.len() > 0);
        assert(b.contains(b[0]));
        assert(a.contains(b[0]));
        let ia = choose|i: int| #![trigger b[i]] 0 <= i < b.len() && b[i] == a[0];
        let ib = choose|i: int| #![trigger a[i]] 0 <= i < a.len() && a[i] == b[0];
        if ia > 0 {
            assert(lex_lt(b[0], b[ia]));
        }
        if ib > 0 {
            assert(lex_lt(a[0], a[ib]));
        }
        if a[0] != b[0] {
            assert(lex_lt(b[0], a[0]) && lex_lt(a[0], b[0]));
            lemma_lex_antisym(a[0], b[0]);
        }
        assert forall|p: Seq<char>| a.drop_first().contains(p) <==> b.drop_first().contains(
            p,
        ) by {
            if a.drop_first().contains(p) {
                let w = choose|w: int| 0 <= w < a.drop_first().len() && a.drop_first()[w] == p;
                assert(a[w + 1] == p);
                assert(lex_lt(a[0], p));
                assert(b.contains(p));
                let v = choose|v: int| 0 <= v < b.len() && b[v] == p;
                if v == 0 {
                    lemma_lex_antisym(a[0], p);
                }
                assert(b.drop_first()[v - 1] == p);
                assert(b.drop_first().contains(p));
            }
            if b.drop_first().contains(p) {
                let w = choose|w: int| 0 <= w < b.drop_first().len() && b.drop_first()[w] == p;
                assert(b[w + 1] == p);
                assert(lex_lt(b[0], p));
                assert(a.contains(p));
                let v = choose|v: int| 0 <= v < a.len() && a[v] == p;
                if v == 0 {
                    lemma_lex_antisym(b[0], p);
                }
                assert(a.drop_first()[v - 1] == p);
                assert(a.drop_first().contains(p));
            }
        }
        assert forall|i1: int, i2: int| 0 <= i1 < i2 < a.drop_first().len() implies lex_lt(
            a.drop_first()[i1],
            a.drop_first()[i2],
        ) by {
            assert(a.drop_first()[i1] == a[i1 + 1] && a.drop_first()[i2] == a[i2 + 1]);
        }
        assert forall|i1: int, i2: int| 0 <= i1 < i2 < b.drop_first().len() implies lex_lt(
            b.drop_first()[i1],
            b.drop_first()[i2],
        ) by {
            assert(b.drop_first()[i1] == b[i1 + 1] && b.drop_first()[i2] == b[i2 + 1]);
        }
        lemma_strict_sorted_unique(a.drop_first(), b.drop_first());
        assert forall|i: int| 0 <= i < a.len() implies a[i] == b[i] by {
            if i > 0 {
                assert(a.drop_first()[i - 1] == b.drop_first()[i - 1]);
            }
        }
        assert(a =~= b);
    }
}

/// The pieces of `s` between occurrences of `sep`, kept in order; empty
/// pieces are kept, so the result always holds at least one piece.
pub open spec fn split_on(s: Seq<char>, sep: char) -> Seq<Seq<char>>
    decreases s.len(),
{
    if s.len() == 0 {
        seq![Seq::<char>::empty()]
    } else if s[0] == sep {
        seq![Seq::<char>::empty()] + split_on(s.drop_first(), sep)
    } else {
        let rest = split_on(s.drop_first(), sep);
        seq![seq![s[0]] + rest[0]] + rest.drop_first()
    }
}

pub proof fn lemma_split_on_len(s: Seq<char>, sep: char)
    ensures
        split_on(s, sep).len() >= 1,
    decreases s.len(),
{
    if s.len() > 0 {
        lemma_split_on_len(s.drop_first(), sep);
    }
}

/// A string without the separator splits into itself alone.
pub proof fn lemma_split_no_sep(s: Seq<char>, sep: char)
    requires
        forall|j: int| 0 <= j < s.len() ==> s[j] != sep,
    ensures
        split_on(s, sep) == seq![s],
    decreases s.len(),
{
    if s.len() == 0 {
        assert(split_on(s, sep) =~~= seq![s]);
    } else {
        lemma_split_no_sep(s.drop_first(), sep);
        assert(seq![s[0]] + s.drop_first() =~= s);
        assert(split_on(s, sep) =~~= seq![s]);
    }
}

/// Splitting at the first separator: the piece before it, then the split of
/// what follows it.
pub proof fn lemma_split_decompose(s: Seq<char>, sep: char, i: int)
    requires
        0 <= i < s.len(),
        s[i] == sep,
        forall|j: int| 0 <= j < i ==> s[j] != sep,
    ensures
        split_on(s, sep) == seq![s.take(i)] + split_on(s.skip(i + 1), sep),
    decreases i,
{
    if i == 0 {
        assert(s.take(0) =~= Seq::<char>::empty());
        assert(s.skip(1) =~= s.drop_first());
        assert(split_on(s, sep) =~~= seq![s.take(0)] + split_on(s.skip(1), sep));
    } else {
        let d = s.drop_first();
        lemma_split_decompose(d, sep, i - 1);
        lemma_split_on_len(d.skip(i), sep);
        let rest = split_on(d, sep);
        assert(rest[0] == d.take(i - 1));
        assert(seq![s[0]] + d.take(i - 1) =~= s.take(i));
        assert(rest.drop_first() =~= split_on(d.skip(i), sep));
        assert(d.skip(i) =~= s.skip(i + 1));
        assert(split_on(s, sep) =~~= seq![s.take(i)] + split_on(s.skip(i + 1), sep));
    }
}

pub proof fn lemma_filter_one<A>(x: A, pred: spec_fn(A) -> bool)
    ensures
        seq![x].filter(pred) == if pred(x) {
            seq![x]
        } else {
            Seq::<A>::empty()
        },
{
    reveal(Seq::filter);
    let e = seq![x].drop_last();
    assert(e =~= Seq::<A>::empty());
    assert(Seq::<A>::empty().filter(pred) =~= Seq::<A>::empty());
    assert(seq![x].last() == x);
    if pred(x) {
        assert(seq![x].filter(pred) =~= seq![x]);
    } else {
        assert(seq![x].filter(pred) =~= Seq::<A>::empty());
    }
}

/// The pieces of `s` between occurrences of `sep`, with empty pieces
/// dropped.
pub open spec fn split_nonempty_spec(s: Seq<char>, sep: char) -> Seq<Seq<char>> {
    split_on(s, sep).filter(|p: Seq<char>| p.len() > 0)
}

/// Splits `s` at every occurrence of `sep` and returns the nonempty pieces,
/// in order.
pub fn split_nonempty(s: &str, sep: char) -> (r: Vec<String>)
    ensures
        r.deep_view() == split_nonempty_spec(s@, sep),
{
    broadcast use vstd::prelude::Seq::filter_distributes_over_add;

    let n = s.unicode_len();
    let mut r: Vec<String> = Vec::new();
    let mut start: usize = 0;
    let mut i: usize = 0;
    proof {
        assert(s@.skip(0) =~= s@);
        assert(r.deep_view() =~= Seq::<Seq<char>>::empty());
        assert(Seq::<Seq<char>>::empty() + split_on(s@, sep).filter(|p: Seq<char>| p.len() > 0)
            =~= split_on(s@, sep).filter(|p: Seq<char>| p.len() > 0));
    }
    while i < n
        invariant
            n == s@.len(),
            start <= i <= n,
            forall|j: int| start <= j < i ==> s@[j] != sep,
            split_on(s@, sep).filter(|p: Seq<char>| p.len() > 0) == r.deep_view() + split_on(
                s@.skip(start as int),
                sep,
            ).filter(|p: Seq<char>| p.len() > 0),
        decreases n - i,
    {
        if s.get_char(i) == sep {
            let ghost tail = s@.skip(start as int);
            let ghost piece = s@.subrange(start as int, i as int);
            let ghost rest = s@.skip(i + 1);
            proof {
                lemma_split_decompose(tail, sep, i - start);
                assert(tail.take(i - start) =~= piece);
                assert(tail.skip(i - start + 1) =~= rest);
                assert(split_on(tail, sep) == seq![piece] + split_on(rest, sep));
                lemma_filter_one(piece, |p: Seq<char>| p.len() > 0);
            }
            if i > start {
                let pc = s.substring_char(start, i).to_owned();
                let ghost before = r.deep_view();
                r.push(pc);
                proof {
                    assert(r.deep_view() =~= before + seq![piece]);
                    assert(before + seq![piece] + split_on(rest, sep).filter(
                        |p: Seq<char>| p.len() > 0,
                    ) =~= before + (seq![piece].filter(|p: Seq<char>| p.len() > 0) + split_on(
                        rest,
                        sep,
                    ).filter(|p: Seq<char>| p.len() > 0)));
                }
            } else {
                proof {
                    assert(piece.len() == 0);
                    assert(r.deep_view() + split_on(rest, sep).filter(|p: Seq<char>| p.len() > 0)
                        =~= r.deep_view() + (seq![piece].filter(|p: Seq<char>| p.len() > 0)
                        + split_on(rest, sep).filter(|p: Seq<char>| p.len() > 0)));
                }
            }
            start = i + 1;
        }
        i = i + 1;
    }
    let ghost tail = s@.skip(start as int);
    proof {
        lemma_split_no_sep(tail, sep);
        lemma_filter_one(tail, |p: Seq<char>| p.len() > 0);
        assert(split_on(tail, sep) == seq![tail]);
    }
    if start < n {
        let pc = s.substring_char(start, n).to_owned();
        let ghost before = r.deep_view();
        r.push(pc);
        proof {
            assert(s@.subrange(start as int, n as int) =~= tail);
            assert(r.deep_view() =~= before + seq![tail]);
            assert(tail.len() > 0);
            assert(seq![tail].filter(|p: Seq<char>| p.len() > 0) == seq![tail]);
        }
    } else {
        proof {
            assert(tail =~= Seq::<char>::empty());
            assert(tail.len() == 0);
            assert(seq![tail].filter(|p: Seq<char>| p.len() > 0)
                == Seq::<Seq<char>>::empty());
            assert(r.deep_view() + Seq::<Seq<char>>::empty() =~= r.deep_view());
        }
    }
    r
}

/// The lines of a text after trimming: each piece between newlines, with
/// ASCII whitespace removed from both ends, keeping only nonempty results.
pub open spec fn clean_lines_spec(s: Seq<char>) -> Seq<Seq<char>> {
    split_on(s, '\n').map_values(|l: Seq<char>| trim_spec(l)).filter(|l: Seq<char>| l.len() > 0)
}

/// Splits a text into lines, trims each, and keeps the nonempty ones.
pub fn clean_lines(s: &str) -> (r: Vec<String>)
    ensures
        r.deep_view() == clean_lines_spec(s@),
{
    broadcast use vstd::prelude::Seq::filter_distributes_over_add;

    let n = s.unicode_len();
    let mut r: Vec<String> = Vec::new();
    let mut start: usize = 0;
    let mut i: usize = 0;
    proof {
        assert(s@.skip(0) =~= s@);
        assert(r.deep_view() =~= Seq::<Seq<char>>::empty());
        assert(Seq::<Seq<char>>::empty() + split_on(s@, '\n').map_values(
            |l: Seq<char>| trim_spec(l),
        ).filter(|l: Seq<char>| l.len() > 0) =~= split_on(s@, '\n').map_values(
            |l: Seq<char>| trim_spec(l),
        ).filter(|l: Seq<char>| l.len() > 0));
    }
    while i < n
        invariant
            n == s@.len(),
            start <= i <= n,
            forall|j: int| start <= j < i ==> s@[j] != '\n',
            split_on(s@, '\n').map_values(|l: Seq<char>| trim_spec(l)).filter(
                |l: Seq<char>| l.len() > 0,
            ) == r.deep_view() + split_on(s@.skip(start as int), '\n').map_values(
                |l: Seq<char>| trim_spec(l),
            ).filter(|l: Seq<char>| l.len() > 0),
        decreases n - i,
    {
        if s.get_char(i) == '\n' {
            let ghost tail = s@.skip(start as int);
            let ghost piece = s@.subrange(start as int, i as int);
            let ghost rest = s@.skip(i + 1);
            proof {
                lemma_split_decompose(tail, '\n', i - start);
                assert(tail.take(i - start) =~= piece);
                assert(tail.skip(i - start + 1) =~= rest);
                assert(split_on(tail, '\n') == seq![piece] + split_on(rest, '\n'));
                assert((seq![piece] + split_on(rest, '\n')).map_values(
                    |l: Seq<char>| trim_spec(l),
                ) =~= seq![trim_spec(piece)] + split_on(rest, '\n').map_values(
                    |l: Seq<char>| trim_spec(l),
                ));
                lemma_filter_one(trim_spec(piece), |l: Seq<char>| l.len() > 0);
            }
            let t = trim(s.substring_char(start, i));
            if t.as_str().unicode_len() > 0 {
                let ghost before = r.deep_view();
                r.push(t);
                proof {
                    assert(r.deep_view() =~= before + seq![trim_spec(piece)]);
                    assert(before + seq![trim_spec(piece)] + split_on(rest, '\n').map_values(
                        |l: Seq<char>| trim_spec(l),
                    ).filter(|l: Seq<char>| l.len() > 0) =~= before + (seq![
                        trim_spec(piece),
                    ].filter(|l: Seq<char>| l.len() > 0) + split_on(rest, '\n').map_values(
                        |l: Seq<char>| trim_spec(l),
                    ).filter(|l: Seq<char>| l.len() > 0)));
                }
            } else {
                proof {
                    assert(trim_spec(piece).len() == 0);
                    assert(r.deep_view() + split_on(rest, '\n').map_values(
                        |l: Seq<char>| trim_spec(l),
                    ).filter(|l: Seq<char>| l.len() > 0) =~= r.deep_view() + (seq![
                        trim_spec(piece),
                    ].filter(|l: Seq<char>| l.len() > 0) + split_on(rest, '\n').map_values(
                        |l: Seq<char>| trim_spec(l),
                    ).filter(|l: Seq<char>| l.len() > 0)));
                }
            }
            start = i + 1;
        }
        i = i + 1;
    }
    let ghost tail = s@.skip(start as int);
    proof {
        lemma_split_no_sep(tail, '\n');
        assert(split_on(tail, '\n') == seq![tail]);
        assert(seq![tail].map_values(|l: Seq<char>| trim_spec(l)) =~= seq![trim_spec(tail)]);
        lemma_filter_one(trim_spec(tail), |l: Seq<char>| l.len() > 0);
    }
    let t = trim(s.substring_char(start, n));
    proof {
        assert(s@.subrange(start as int, n as int) =~= tail);
    }
    if t.as_str().unicode_len() > 0 {
        let ghost before = r.deep_view();
        r.push(t);
        proof {
            assert(r.deep_view() =~= before + seq![trim_spec(tail)]);
            assert(seq![trim_spec(tail)].filter(|l: Seq<char>| l.len() > 0)
                == seq![trim_spec(tail)]);
        }
    } else {
        proof {
            assert(trim_spec(tail).len() == 0);
            assert(seq![trim_spec(tail)].filter(|l: Seq<char>| l.len() > 0)
                == Seq::<Seq<char>>::empty());
            assert(r.deep_view() + Seq::<Seq<char>>::empty() =~= r.deep_view());
        }
    }
    r
}

/// The pieces joined with `sep` between consecutive pieces.
pub open spec fn join_with(ps: Seq<Seq<char>>, sep: Seq<char>) -> Seq<char>
    decreases ps.len(),
{
    if ps.len() == 0 {
        Seq::<char>::empty()
    } else if ps.len() == 1 {
        ps[0]
    } else {
        ps[0] + sep + join_with(ps.drop_first(), sep)
    }
}

pub proof fn lemma_join_push(ps: Seq<Seq<char>>, sep: Seq<char>, p: Seq<char>)
    ensures
        join_with(ps.push(p), sep) == if ps.len() == 0 {
            p
        } else {
            join_with(ps, sep) + sep + p
        },
    decreases ps.len(),
{
    if ps.len() == 0 {
        assert(ps.push(p)[0] == p);
    } else {
        lemma_join_push(ps.drop_first(), sep, p);
        assert(ps.push(p).drop_first() =~= ps.drop_first().push(p));
        if ps.len() == 1 {
            assert(join_with(ps.push(p), sep) =~= join_with(ps, sep) + sep + p);
        } else {
            assert(join_with(ps.push(p), sep) =~= join_with(ps, sep) + sep + p);
        }
    }
}

/// Joins strings with the given separator between consecutive items.
pub fn join_strs(items: &Vec<String>, sep: &str) -> (r: String)
    ensures
        r@ == join_with(items.deep_view(), sep@),
{
    let mut out = String::new();
    let mut i: usize = 0;
    while i < items.len()
        invariant
            i <= items.len(),
            out@ == join_with(items.deep_view().take(i as int), sep@),
        decreases items.len() - i,
    {
        if i > 0 {
            out.append(sep);
        }
        out.append(items[i].as_str());
        proof {
            let dv = items.deep_view();
            lemma_join_push(dv.take(i as int), sep@, dv[i as int]);
            assert(dv.take(i + 1) =~= dv.take(i as int).push(dv[i as int]));
        }
        i = i + 1;
    }
    proof {
        assert(items.deep_view().take(items.len() as int) =~= items.deep_view());
    }
    out
}

/// The character for one decimal digit.
pub open spec fn dec_digit_char(d: int) -> char {
    if d == 0 {
        '0'
    } else if d == 1 {
        '1'
    } else if d == 2 {
        '2'
    } else if d == 3 {
        '3'
    } else if d == 4 {
        '4'
    } else if d == 5 {
        '5'
    } else if d == 6 {
        '6'
    } else if d == 7 {
        '7'
    } else if d == 8 {
        '8'
    } else {
        '9'
    }
}

/// The decimal rendering of a nonnegative integer, most significant digit
/// first, with no leading zeros (a single `0` for zero).
pub open spec fn dec_str(n: int) -> Seq<char>
    decreases n,
{
    if n < 10 {
        seq![dec_digit_char(n)]
    } else {
        dec_str(n / 10).push(dec_digit_char(n % 10))
    }
}

fn push_digit(out: &mut String, d: usize)
    requires
        d < 10,
    ensures
        final(out)@ == old(out)@.push(dec_digit_char(d as int)),
{
    if d == 0 {
        proof {
            reveal_strlit("0");
        }
        out.append("0");
        assert(final(out)@ =~= old(out)@.push('0'));
    } else if d == 1 {
        proof {
            reveal_strlit("1");
        }
        out.append("1");
        assert(final(out)@ =~= old(out)@.push('1'));
    } else if d == 2 {
        proof {
            reveal_strlit("2");
        }
        out.append("2");
        assert(final(out)@ =~= old(out)@.push('2'));
    } else if d == 3 {
        proof {
            reveal_strlit("3");
        }
        out.append("3");
        assert(final(out)@ =~= old(out)@.push('3'));
    } else if d == 4 {
        proof {
            reveal_strlit("4");
        }
        out.append("4");
        assert(final(out)@ =~= old(out)@.push('4'));
    } else if d == 5 {
        proof {
            reveal_strlit("5");
        }
        out.append("5");
        assert(final(out)@ =~= old(out)@.push('5'));
    } else if d == 6 {
        proof {
            reveal_strlit("6");
        }
        out.append("6");
        assert(final(out)@ =~= old(out)@.push('6'));
    } else if d == 7 {
        proof {
            reveal_strlit("7");
        }
        out.append("7");
        assert(final(out)@ =~= old(out)@.push('7'));
    } else if d == 8 {
        proof {
            reveal_strlit("8");
        }
        out.append("8");
        assert(final(out)@ =~= old(out)@.push('8'));
    } else {
        proof {
            reveal_strlit("9");
        }
        out.append("9");
        assert(final(out)@ =~= old(out)@.push('9'));
    }
}

/// Renders a number in decimal.
pub fn usize_to_dec(n: usize) -> (r: String)
    ensures
        r@ == dec_str(n as int),
    decreases n,
{
    if n < 10 {
        let mut s = String::new();
        push_digit(&mut s, n);
        proof {
            assert(Seq::<char>::empty().push(dec_digit_char(n as int)) =~= seq![
                dec_digit_char(n as int),
            ]);
        }
        s
    } else {
        let mut s = usize_to_dec(n / 10);
        push_digit(&mut s, n % 10);
        s
    }
}

} // verus!
