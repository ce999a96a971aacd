//! Character-level helpers shared by the parsing and classification
//! logic: locating a delimiter, taking the text before or after it,
//! selecting a delimited token, and dropping a trailing character.

use vstd::prelude::*;
use vstd::string::StrSliceExecFns;

verus! {

/// Index of the first occurrence of `d` in `s`, or `None` when absent.
pub open spec fn spec_find_char(s: Seq<char>, d: char) -> Option<int>
    decreases s.len(),
{
    if s.len() == 0 {
        None
    } else if s[0] == d {
        Some(0int)
    } else {
        match spec_find_char(s.drop_first(), d) {
            Some(i) => Some(i + 1),
            None => None,
        }
    }
}

/// `spec_find_char` returns the first index holding `d`, if any.
pub proof fn lemma_find_char(s: Seq<char>, d: char)
    ensures
        match spec_find_char(s, d) {
            Some(i) => 0 <= i < s.len() && s[i] == d && (forall|j: int| 0 <= j < i ==> s[j] != d),
            None => forall|j: int| 0 <= j < s.len() ==> s[j] != d,
        },
    decreases s.len(),
{
    if s.len() > 0 && s[0] != d {
        lemma_find_char(s.drop_first(), d);
        match spec_find_char(s.drop_first(), d) {
            Some(i) => {
                assert(s[i + 1] == s.drop_first()[i]);
                assert forall|j: int| 0 <= j < i + 1 implies s[j] != d by {
                    if j > 0 {
                        assert(s[j] == s.drop_first()[j - 1]);
                    }
                }
            },
            None => {
                assert forall|j: int| 0 <= j < s.len() implies s[j] != d by {
                    if j > 0 {
                        assert(s[j] == s.drop_first()[j - 1]);
                    }
                }
            },
        }
    }
}

/// Characters of `s` strictly before the first occurrence of `d`;
/// all of `s` when `d` does not occur.
pub open spec fn spec_before_char(s: Seq<char>, d: char) -> Seq<char>
    decreases s.len(),
{
    if s.len() == 0 {
        s
    } else if s[0] == d {
        Seq::empty()
    } else {
        seq![s[0]] + spec_before_char(s.drop_first(), d)
    }
}

/// Characters of `s` strictly after the first occurrence of `d`, or
/// `None` when `d` does not occur.
pub open spec fn spec_after_char(s: Seq<char>, d: char) -> Option<Seq<char>>
    decreases s.len(),
{
    if s.len() == 0 {
        None
    } else if s[0] == d {
        Some(s.drop_first())
    } else {
        spec_after_char(s.drop_first(), d)
    }
}

/// `spec_before_char` and `spec_after_char` cut `s` at the index that
/// `spec_find_char` names.
pub proof fn lemma_cut_at_find(s: Seq<char>, d: char)
    ensures
        match spec_find_char(s, d) {
            Some(i) => spec_before_char(s, d) == s.subrange(0, i) && spec_after_char(s, d)
                == Some(s.subrange(i + 1, s.len() as int)),
            None => spec_before_char(s, d) == s && spec_after_char(s, d) is None,
        },
    decreases s.len(),
{
    if s.len() == 0 {
    } else if s[0] == d {
        assert(spec_before_char(s, d) =~= s.subrange(0, 0));
        assert(s.drop_first() =~= s.subrange(1, s.len() as int));
    } else {
        lemma_cut_at_find(s.drop_first(), d);
        lemma_find_char(s.drop_first(), d);
        match spec_find_char(s.drop_first(), d) {
            Some(i) => {
                assert(seq![s[0]] + s.drop_first().subrange(0, i) =~= s.subrange(0, i + 1));
                assert(s.drop_first().subrange(i + 1, s.drop_first().len() as int) =~= s.subrange(
                    i + 2,
                    s.len() as int,
                ));
            },
            None => {
                assert(seq![s[0]] + s.drop_first() =~= s);
            },
        }
    }
}

/// `s` without its final character; the empty sequence stays empty.
pub open spec fn spec_drop_last(s: Seq<char>) -> Seq<char> {
    if s.len() == 0 {
        s
    } else {
        s.drop_last()
    }
}

/// `p` is an initial segment of `s`.
pub open spec fn spec_has_prefix(s: Seq<char>, p: Seq<char>) -> bool {
    p.len() <= s.len() && s.subrange(0, p.len() as int) == p
}

/// The `k`-th of the `d`-delimited tokens of `s`, counting from zero;
/// `None` when `s` holds fewer than `k + 1` tokens. Adjacent
/// delimiters delimit an empty token, as a splitting iterator yields.
pub open spec fn spec_token_at(s: Seq<char>, k: nat, d: char) -> Option<Seq<char>>
    decreases k,
{
    if k == 0 {
        Some(spec_before_char(s, d))
    } else {
        match spec_after_char(s, d) {
            None => None,
            Some(rest) => spec_token_at(rest, (k - 1) as nat, d),
        }
    }
}

/// Index of the first occurrence of `d` in `s`, or `None` when absent.
pub fn find_char(s: &str, d: char) -> (r: Option<usize>)
    ensures
        match r {
            Some(i) => spec_find_char(s@, d) == Some(i as int),
            None => spec_find_char(s@, d) is None,
        },
{
    let n = s.unicode_len();
    let mut i: usize = 0;
    while i < n
        invariant
            i <= n,
            n == s@.len(),
            forall|j: int| 0 <= j < i ==> s@[j] != d,
        decreases n - i,
    {
        if s.get_char(i) == d {
            proof {
                lemma_find_char(s@, d);
            }
            return Some(i);
        }
        i += 1;
    }
    proof {
        lemma_find_char(s@, d);
    }
    None
}

/// The text of `s` strictly before the first occurrence of `d`; all
/// of `s` when `d` does not occur.
pub fn before_char(s: &str, d: char) -> (r: String)
    ensures
        r@ == spec_before_char(s@, d),
{
    proof {
        lemma_find_char(s@, d);
        lemma_cut_at_find(s@, d);
    }
    match find_char(s, d) {
        Some(i) => s.substring_char(0, i).to_owned(),
        None => s.to_owned(),
    }
}

/// `s` without its final character; an empty input stays empty.
pub fn drop_last_char(s: &str) -> (r: String)
    ensures
        r@ == spec_drop_last(s@),
{
    let n = s.unicode_len();
    if n == 0 {
        let r = String::new();
        proof {
            assert(r@ =~= s@);
        }
        r
    } else {
        let r = s.substring_char(0, n - 1).to_owned();
        proof {
            assert(r@ =~= s@.drop_last());
        }
        r
    }
}

/// Whether `p` is an initial segment of `s`.
pub fn has_prefix(s: &str, p: &str) -> (r: bool)
    ensures
        r == spec_has_prefix(s@, p@),
{
    let sn = s.unicode_len();
    let pn = p.unicode_len();
    if pn > sn {
        return false;
    }
    let mut i: usize = 0;
    while i < pn
        invariant
            i <= pn <= sn,
            pn == p@.len(),
            sn == s@.len(),
            forall|j: int| 0 <= j < i ==> s@[j] == p@[j],
        decreases pn - i,
    {
        if s.get_char(i) != p.get_char(i) {
            proof {
                assert(s@.subrange(0, pn as int)[i as int] != p@[i as int]);
            }
            return false;
        }
        i += 1;
    }
    proof {
        assert(s@.subrange(0, pn as int) =~= p@);
    }
    true
}

/// The `k`-th of the `d`-delimited tokens of `s`, or `None` when `s`
/// holds fewer than `k + 1` tokens.
pub fn token_at(s: &str, k: usize, d: char) -> (r: Option<String>)
    ensures
        match r {
            Some(t) => spec_token_at(s@, k as nat, d) == Some(t@),
            None => spec_token_at(s@, k as nat, d) is None,
        },
{
    let mut cur: &str = s;
    let mut j: usize = k;
    loop
        invariant
            spec_token_at(cur@, j as nat, d) == spec_token_at(s@, k as nat, d),
        decreases j,
    {
        if j == 0 {
            return Some(before_char(cur, d));
        }
        proof {
            lemma_find_char(cur@, d);
            lemma_cut_at_find(cur@, d);
        }
        match find_char(cur, d) {
            None => {
                return None;
            },
            Some(i) => {
                let n = cur.unicode_len();
                cur = cur.substring_char(i + 1, n);
                j -= 1;
            },
        }
    }
}

} // verus!
