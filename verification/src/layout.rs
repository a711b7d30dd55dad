use vstd::prelude::*;

verus! {

/// Splits a character sequence at every comma: the result always holds one
/// token more than the number of commas, and empty tokens are kept.
pub open spec fn split_commas(s: Seq<char>) -> Seq<Seq<char>>
    decreases s.len(),
{
    if s.len() == 0 {
        seq![Seq::<char>::empty()]
    } else if s[0] == ',' {
        seq![Seq::<char>::empty()] + split_commas(s.skip(1))
    } else {
        let rest = split_commas(s.skip(1));
        seq![seq![s[0]] + rest[0]] + rest.skip(1)
    }
}

/// A split is never empty: even the empty input yields one empty token.
pub proof fn lemma_split_len(s: Seq<char>)
    ensures
        split_commas(s).len() >= 1,
    decreases s.len(),
{
    if s.len() > 0 {
        lemma_split_len(s.skip(1));
    }
}

/// How a split grows when one character is appended: a comma opens a new
/// empty token, and any other character lands at the end of the last one.
pub proof fn lemma_split_push(s: Seq<char>, c: char)
    ensures
        c == ',' ==> split_commas(s.push(c)) == split_commas(s).push(Seq::<char>::empty()),
        c != ',' ==> split_commas(s.push(c)) == split_commas(s).update(
            split_commas(s).len() - 1,
            split_commas(s).last().push(c),
        ),
    decreases s.len(),
{
    lemma_split_len(s);
    let t = s.push(c);
    assert(t.len() == s.len() + 1);
    assert(t[s.len() as int] == c);
    if s.len() == 0 {
        assert(t[0] == c);
        assert(t.skip(1) =~= s);
        if c == ',' {
            assert(split_commas(t) == seq![Seq::<char>::empty()] + split_commas(s));
            assert(split_commas(t) =~~= split_commas(s).push(Seq::<char>::empty()));
        } else {
            assert(seq![t[0]] + split_commas(t.skip(1))[0] =~= Seq::<char>::empty().push(c));
            assert(split_commas(t) =~~= split_commas(s).update(
                split_commas(s).len() - 1,
                split_commas(s).last().push(c),
            ));
        }
    } else {
        assert(t[0] == s[0]);
        assert(t.skip(1) =~= s.skip(1).push(c));
        assert(t.skip(1) == s.skip(1).push(c));
        lemma_split_push(s.skip(1), c);
        lemma_split_len(s.skip(1));
        let rest = split_commas(s.skip(1));
        if c == ',' {
            assert(split_commas(t.skip(1)) == rest.push(Seq::<char>::empty()));
            assert(split_commas(t) =~~= split_commas(s).push(Seq::<char>::empty()));
        } else {
            // Appending a non-comma grows the last token of the tail's split.
            let grown = rest.update(rest.len() - 1, rest.last().push(c));
            assert(split_commas(t.skip(1)) == grown);
            if s[0] == ',' {
                assert(split_commas(s).last() == rest.last());
                assert(split_commas(t) =~~= split_commas(s).update(
                    split_commas(s).len() - 1,
                    split_commas(s).last().push(c),
                ));
            } else {
                if rest.len() == 1 {
                    assert(grown[0] == rest[0].push(c));
                    assert(split_commas(s).last() == seq![s[0]] + rest[0]);
                    assert(seq![s[0]] + grown[0] =~= (seq![s[0]] + rest[0]).push(c));
                    assert(split_commas(t) =~~= split_commas(s).update(
                        split_commas(s).len() - 1,
                        split_commas(s).last().push(c),
                    ));
                } else {
                    assert(grown[0] == rest[0]);
                    assert(split_commas(s).last() == rest.last());
                    assert(split_commas(t) =~~= split_commas(s).update(
                        split_commas(s).len() - 1,
                        split_commas(s).last().push(c),
                    ));
                }
            }
        }
    }
}

/// The Unicode white-space code points, the characters a token may be
/// padded with in a layout string.
pub open spec fn is_space(c: char) -> bool {
    let v = c as int;
    ||| v == 32
    ||| 9 <= v <= 13
    ||| v == 0x85
    ||| v == 0xA0
    ||| v == 0x1680
    ||| 0x2000 <= v <= 0x200A
    ||| v == 0x2028
    ||| v == 0x2029
    ||| v == 0x202F
    ||| v == 0x205F
    ||| v == 0x3000
}

/// A token with its leading white space dropped.
pub open spec fn trim_front(s: Seq<char>) -> Seq<char>
    decreases s.len(),
{
    if s.len() > 0 && is_space(s[0]) {
        trim_front(s.skip(1))
    } else {
        s
    }
}

/// A token with its trailing white space dropped.
pub open spec fn trim_back(s: Seq<char>) -> Seq<char>
    decreases s.len(),
{
    if s.len() > 0 && is_space(s[s.len() - 1]) {
        trim_back(s.take(s.len() - 1))
    } else {
        s
    }
}

/// A token with white space dropped from both ends.
pub open spec fn trim(s: Seq<char>) -> Seq<char> {
    trim_back(trim_front(s))
}

/// Decides `is_space` on one character.
fn is_space_char(c: char) -> (b: bool)
    ensures
        b == is_space(c),
{
    let v = c as u32;
    v == 32 || (9 <= v && v <= 13) || v == 0x85 || v == 0xA0 || v == 0x1680 || (0x2000 <= v && v
        <= 0x200A) || v == 0x2028 || v == 0x2029 || v == 0x202F || v == 0x205F || v == 0x3000
}

/// Drops white space from both ends of a token.
pub(crate) fn trim_chars(t: &Vec<char>) -> (r: Vec<char>)
    ensures
        r@ == trim(t@),
{
    let ghost full: Seq<char> = t@;
    let mut start: usize = 0;
    proof {
        assert(t@.skip(0) =~= t@);
    }
    while start < t.len() && is_space_char(t[start])
        invariant
            start <= t@.len(),
            trim_front(t@) == trim_front(t@.skip(start as int)),
        decreases t@.len() - start,
    {
        proof {
            assert(t@.skip(start as int).skip(1) =~= t@.skip(start as int + 1));
        }
        start = start + 1;
    }
    proof {
        if start < t@.len() {
            assert(trim_front(t@.skip(start as int)) == t@.skip(start as int));
        } else {
            assert(t@.skip(start as int) =~= Seq::<char>::empty());
        }
        assert(trim_front(t@) == t@.skip(start as int));
        assert(t@.skip(start as int) =~= t@.subrange(start as int, t@.len() as int));
    }
    let mut end: usize = t.len();
    while end > start && is_space_char(t[end - 1])
        invariant
            start <= end <= t@.len(),
            trim_front(t@) == t@.subrange(start as int, t@.len() as int),
            trim_back(t@.subrange(start as int, t@.len() as int)) == trim_back(
                t@.subrange(start as int, end as int),
            ),
        decreases end,
    {
        proof {
            let cur = t@.subrange(start as int, end as int);
            assert(cur[cur.len() - 1] == t@[end - 1]);
            assert(cur.take(cur.len() - 1) =~= t@.subrange(start as int, end as int - 1));
        }
        end = end - 1;
    }
    proof {
        let cur = t@.subrange(start as int, end as int);
        if end > start {
            assert(trim_back(cur) == cur);
        } else {
            assert(cur =~= Seq::<char>::empty());
        }
        assert(trim(t@) == t@.subrange(start as int, end as int));
    }
    let mut r: Vec<char> = Vec::new();
    let mut k: usize = start;
    while k < end
        invariant
            start <= k <= end <= t@.len(),
            r@ =~= t@.subrange(start as int, k as int),
        decreases end - k,
    {
        r.push(t[k]);
        k = k + 1;
    }
    proof {
        assert(r@ =~= t@.subrange(start as int, end as int));
    }
    r
}

/// Splits a layout string into its comma-separated tokens, each held as the
/// characters it is made of.
pub(crate) fn split_tokens(s: &str) -> (tokens: Vec<Vec<char>>)
    ensures
        tokens@.map_values(|t: Vec<char>| t@) == split_commas(s@),
{
    let n = s.unicode_len();
    let mut tokens: Vec<Vec<char>> = Vec::new();
    let mut cur: Vec<char> = Vec::new();
    let mut i: usize = 0;
    proof {
        assert(s@.take(0) =~= Seq::<char>::empty());
        assert(tokens@.map_values(|t: Vec<char>| t@).push(cur@) =~~= split_commas(s@.take(0)));
    }
    while i < n
        invariant
            i <= n,
            n == s@.len(),
            tokens@.map_values(|t: Vec<char>| t@).push(cur@) == split_commas(s@.take(i as int)),
        decreases n - i,
    {
        let c = s.get_char(i);
        proof {
            assert(s@.take(i as int).push(s@[i as int]) =~= s@.take(i as int + 1));
            lemma_split_push(s@.take(i as int), c);
        }
        if c == ',' {
            let ghost old_tokens = tokens@;
            let ghost old_cur = cur@;
            tokens.push(cur);
            cur = Vec::new();
            proof {
                assert(tokens@.map_values(|t: Vec<char>| t@).push(cur@) =~~= split_commas(
                    s@.take(i as int),
                ).push(Seq::<char>::empty()));
            }
        } else {
            let ghost prev = tokens@.map_values(|t: Vec<char>| t@).push(cur@);
            cur.push(c);
            proof {
                assert(prev.last() == prev[prev.len() - 1]);
                assert(tokens@.map_values(|t: Vec<char>| t@).push(cur@) =~~= prev.update(
                    prev.len() - 1,
                    prev.last().push(c),
                ));
            }
        }
        i = i + 1;
    }
    proof {
        assert(s@.take(n as int) =~= s@);
    }
    tokens.push(cur);
    proof {
        assert(tokens@.map_values(|t: Vec<char>| t@) =~~= split_commas(s@));
    }
    tokens
}

} // verus!
