//! Text utilities the extractor is built on: splitting comment text on
//! whitespace, searching a token for the route marker, and string equality.

use vstd::prelude::*;
use vstd::string::*;

verus! {

/// The characters treated as whitespace when tokenizing comment text.
pub open spec fn whitespace(c: char) -> bool {
    c == ' ' || c == '\t' || c == '\n' || c == '\r'
}

/// Splitting `s` on whitespace, with `cur` the partial token read so far.
/// Empty tokens are never emitted.
pub open spec fn split_from(cur: Seq<char>, s: Seq<char>) -> Seq<Seq<char>>
    decreases s.len(),
{
    if s.len() == 0 {
        if cur.len() == 0 {
            Seq::empty()
        } else {
            seq![cur]
        }
    } else if whitespace(s[0]) {
        if cur.len() == 0 {
            split_from(Seq::empty(), s.subrange(1, s.len() as int))
        } else {
            seq![cur] + split_from(Seq::empty(), s.subrange(1, s.len() as int))
        }
    } else {
        split_from(cur.push(s[0]), s.subrange(1, s.len() as int))
    }
}

/// The tokens of `s`: maximal runs of non-whitespace characters, in order.
pub open spec fn split_ws(s: Seq<char>) -> Seq<Seq<char>> {
    split_from(Seq::empty(), s)
}

/// Every token a split emits is a non-empty run of characters.
pub proof fn lemma_split_tokens_nonempty(cur: Seq<char>, s: Seq<char>)
    ensures
        forall|j: int|
            0 <= j < split_from(cur, s).len() ==> split_from(cur, s)[j].len() > 0,
    decreases s.len(),
{
    if s.len() == 0 {
    } else if whitespace(s[0]) {
        let sub = s.subrange(1, s.len() as int);
        lemma_split_tokens_nonempty(Seq::empty(), sub);
        if cur.len() > 0 {
            assert forall|j: int|
                0 <= j < split_from(cur, s).len() implies split_from(cur, s)[j].len()
                > 0 by {
                if j == 0 {
                    assert(split_from(cur, s)[0] == cur);
                } else {
                    assert(split_from(cur, s)[j] == split_from(Seq::empty(), sub)[j - 1]);
                }
            }
        } else {
            assert forall|j: int|
                0 <= j < split_from(cur, s).len() implies split_from(cur, s)[j].len()
                > 0 by {
                assert(split_from(cur, s)[j] == split_from(Seq::empty(), sub)[j]);
            }
        }
    } else {
        let sub = s.subrange(1, s.len() as int);
        lemma_split_tokens_nonempty(cur.push(s[0]), sub);
        assert forall|j: int|
            0 <= j < split_from(cur, s).len() implies split_from(cur, s)[j].len() > 0 by {
            assert(split_from(cur, s)[j] == split_from(cur.push(s[0]), sub)[j]);
        }
    }
}

/// Splits a string on whitespace, discarding empty tokens.
pub fn tokenize(s: &str) -> (toks: Vec<String>)
    ensures
        toks@.map_values(|t: String| t@) == split_ws(s@),
{
    let len: usize = s.unicode_len();
    let mut toks: Vec<String> = Vec::new();
    let mut cur: String = String::new();
    let mut i: usize = 0;
    proof {
        assert(s@.subrange(0, len as int) =~= s@);
        assert(toks@.map_values(|t: String| t@) + split_ws(s@) =~= split_ws(s@));
    }
    while i < len
        invariant
            i <= len,
            len == s@.len(),
            split_ws(s@) == toks@.map_values(|t: String| t@) + split_from(
                cur@,
                s@.subrange(i as int, len as int),
            ),
        decreases len - i,
    {
        let ghost rem = s@.subrange(i as int, len as int);
        proof {
            assert(rem[0] == s@[i as int]);
            assert(rem.subrange(1, rem.len() as int) =~= s@.subrange(
                i as int + 1,
                len as int,
            ));
        }
        let c = s.get_char(i);
        if c == ' ' || c == '\t' || c == '\n' || c == '\r' {
            if !cur.as_str().is_empty() {
                let ghost old_toks = toks@;
                let ghost done = cur@;
                toks.push(cur);
                cur = String::new();
                proof {
                    assert(toks@.map_values(|t: String| t@) =~= old_toks.map_values(
                        |t: String| t@,
                    ).push(done));
                    assert(old_toks.map_values(|t: String| t@).push(done) + split_from(
                        Seq::empty(),
                        s@.subrange(i as int + 1, len as int),
                    ) =~= old_toks.map_values(|t: String| t@) + (seq![done] + split_from(
                        Seq::empty(),
                        s@.subrange(i as int + 1, len as int),
                    )));
                }
            } else {
                proof {
                    assert(cur@ =~= Seq::<char>::empty());
                }
            }
        } else {
            let piece = s.substring_char(i, i + 1);
            proof {
                assert(piece@ =~= seq![s@[i as int]]);
            }
            let ghost old_cur = cur@;
            cur.append(piece);
            proof {
                assert(cur@ =~= old_cur.push(s@[i as int]));
            }
        }
        i = i + 1;
    }
    proof {
        assert(s@.subrange(i as int, len as int) =~= Seq::empty());
    }
    if !cur.as_str().is_empty() {
        let ghost old_toks = toks@;
        let ghost done = cur@;
        toks.push(cur);
        proof {
            assert(toks@.map_values(|t: String| t@) =~= old_toks.map_values(
                |t: String| t@,
            ).push(done));
            assert(old_toks.map_values(|t: String| t@).push(done) =~= old_toks.map_values(
                |t: String| t@,
            ) + seq![done]);
        }
    }
    toks
}

/// The marker a comment's first token must contain to count as a route
/// annotation.
pub open spec fn route_marker() -> Seq<char> {
    "route"@
}

/// Whether `t` contains the route marker as a contiguous substring.
pub open spec fn has_route_marker(t: Seq<char>) -> bool {
    exists|k: int|
        0 <= k && k + route_marker().len() <= t.len() && #[trigger] t.subrange(
            k,
            k + route_marker().len(),
        ) == route_marker()
}

/// Whether the string contains the route marker as a substring.
pub fn contains_route_marker(t: &str) -> (b: bool)
    ensures
        b == has_route_marker(t@),
{
    proof {
        reveal_strlit("route");
    }
    let tlen: usize = t.unicode_len();
    if tlen < 5 {
        return false;
    }
    let mut k: usize = 0;
    while k <= tlen - 5
        invariant
            tlen >= 5,
            tlen == t@.len(),
            k <= tlen,
            route_marker().len() == 5,
            forall|k2: int|
                0 <= k2 < k ==> #[trigger] t@.subrange(k2, k2 + 5) != route_marker(),
        decreases tlen - k,
    {
        let c0 = t.get_char(k);
        let c1 = t.get_char(k + 1);
        let c2 = t.get_char(k + 2);
        let c3 = t.get_char(k + 3);
        let c4 = t.get_char(k + 4);
        if c0 == 'r' && c1 == 'o' && c2 == 'u' && c3 == 't' && c4 == 'e' {
            proof {
                reveal_strlit("route");
                assert(t@.subrange(k as int, k as int + 5) =~= route_marker());
            }
            return true;
        }
        proof {
            reveal_strlit("route");
            assert(t@.subrange(k as int, k as int + 5) != route_marker()) by {
                if t@.subrange(k as int, k as int + 5) == route_marker() {
                    assert(t@.subrange(k as int, k as int + 5)[0] == t@[k as int]);
                    assert(t@.subrange(k as int, k as int + 5)[1] == t@[k as int + 1]);
                    assert(t@.subrange(k as int, k as int + 5)[2] == t@[k as int + 2]);
                    assert(t@.subrange(k as int, k as int + 5)[3] == t@[k as int + 3]);
                    assert(t@.subrange(k as int, k as int + 5)[4] == t@[k as int + 4]);
                }
            }
        }
        k = k + 1;
    }
    proof {
        assert(!has_route_marker(t@)) by {
            if has_route_marker(t@) {
                let k2 = choose|k2: int|
                    0 <= k2 && k2 + route_marker().len() <= t@.len() && #[trigger] t@.subrange(
                        k2,
                        k2 + route_marker().len(),
                    ) == route_marker();
                assert(k2 < k);
            }
        }
    }
    false
}

/// Character-for-character string equality.
pub fn str_eq(a: &str, b: &str) -> (r: bool)
    ensures
        r == (a@ == b@),
{
    let alen: usize = a.unicode_len();
    let blen: usize = b.unicode_len();
    if alen != blen {
        return false;
    }
    let mut i: usize = 0;
    while i < alen
        invariant
            i <= alen,
            alen == a@.len(),
            alen == b@.len(),
            forall|j: int| 0 <= j < i ==> a@[j] == b@[j],
        decreases alen - i,
    {
        if a.get_char(i) != b.get_char(i) {
            return false;
        }
        i = i + 1;
    }
    proof {
        assert(a@ =~= b@);
    }
    true
}

} // verus!
