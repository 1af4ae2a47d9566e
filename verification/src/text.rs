//! Character-level helpers on strings, each proved against a spec over
//! `Seq<char>`.

use vstd::prelude::*;
use vstd::string::*;

verus! {

/// Splits `s` at the first occurrence of `c`: the part before it and the
/// part after it, or `None` when `c` does not occur.
pub open spec fn split_first(s: Seq<char>, c: char) -> Option<(Seq<char>, Seq<char>)>
    decreases s.len(),
{
    if s.len() == 0 {
        None
    } else if s[0] == c {
        Some((Seq::<char>::empty(), s.drop_first()))
    } else {
        match split_first(s.drop_first(), c) {
            Some((k, v)) => Some((seq![s[0]] + k, v)),
            None => None,
        }
    }
}

/// `s` without one leading `c`, if it starts with one.
pub open spec fn strip_leading(s: Seq<char>, c: char) -> Seq<char> {
    if s.len() > 0 && s[0] == c {
        s.drop_first()
    } else {
        s
    }
}

pub proof fn lemma_split_first_none(s: Seq<char>, c: char)
    requires
        !s.contains(c),
    ensures
        split_first(s, c) is None,
    decreases s.len(),
{
    if s.len() > 0 {
        assert(!s.drop_first().contains(c)) by {
            if s.drop_first().contains(c) {
                let j = choose|j: int| 0 <= j < s.drop_first().len() && s.drop_first()[j] == c;
                assert(s[j + 1] == c);
            }
        }
        lemma_split_first_none(s.drop_first(), c);
        assert(s[0] != c);
    }
}

pub proof fn lemma_split_first_some(s: Seq<char>, c: char, k: Seq<char>, v: Seq<char>)
    requires
        s == k + seq![c] + v,
        !k.contains(c),
    ensures
        split_first(s, c) == Some((k, v)),
    decreases k.len(),
{
    if k.len() == 0 {
        assert(s[0] == c);
        assert(s.drop_first() =~= v);
    } else {
        let k2 = k.drop_first();
        assert(s.drop_first() =~= k2 + seq![c] + v);
        assert(!k2.contains(c)) by {
            if k2.contains(c) {
                let j = choose|j: int| 0 <= j < k2.len() && k2[j] == c;
                assert(k[j + 1] == c);
            }
        }
        lemma_split_first_some(s.drop_first(), c, k2, v);
        assert(s[0] == k[0]);
        assert(k[0] != c);
        assert(seq![s[0]] + k2 =~= k);
    }
}

/// Index of the first `c` in `s`, if any.
pub fn find_char(s: &str, c: char) -> (r: Option<usize>)
    ensures
        match r {
            Some(i) => i < s@.len() && s@[i as int] == c && forall|j: int| 0 <= j < i ==> s@[j] != c,
            None => !s@.contains(c),
        },
{
    let n = s.unicode_len();
    let mut i: usize = 0;
    while i < n
        invariant
            n == s@.len(),
            i <= n,
            forall|j: int| 0 <= j < i ==> s@[j] != c,
        decreases n - i,
    {
        if s.get_char(i) == c {
            return Some(i);
        }
        i = i + 1;
    }
    None
}

/// Splits `s` at its first `c` (as `str::split_once` with a `char`).
pub fn split_once_char(s: &str, c: char) -> (r: Option<(String, String)>)
    ensures
        match r {
            Some((k, v)) => split_first(s@, c) == Some((k@, v@)),
            None => split_first(s@, c) is None,
        },
{
    match find_char(s, c) {
        None => {
            proof { lemma_split_first_none(s@, c); }
            None
        },
        Some(i) => {
            let n = s.unicode_len();
            let k = s.substring_char(0, i).to_owned();
            let v = s.substring_char(i + 1, n).to_owned();
            proof {
                assert(s@ =~= k@ + seq![c] + v@);
                assert(!k@.contains(c)) by {
                    if k@.contains(c) {
                        let j = choose|j: int| 0 <= j < k@.len() && k@[j] == c;
                        assert(s@[j] == c);
                    }
                }
                lemma_split_first_some(s@, c, k@, v@);
            }
            Some((k, v))
        },
    }
}

/// `s` without one leading `c` (as `str::strip_prefix(c).unwrap_or(s)`).
pub fn strip_leading_char(s: &str, c: char) -> (r: String)
    ensures
        r@ == strip_leading(s@, c),
{
    let n = s.unicode_len();
    if n > 0 && s.get_char(0) == c {
        s.substring_char(1, n).to_owned()
    } else {
        s.to_owned()
    }
}

} // verus!

verus! {

/// The character sequences of a list of strings.
pub open spec fn strings_view(v: Seq<String>) -> Seq<Seq<char>> {
    v.map_values(|s: String| s@)
}

} // verus!

verus! {

pub proof fn lemma_strings_view_push(s: Seq<String>, x: String)
    ensures
        strings_view(s.push(x)) == strings_view(s).push(x@),
{
    assert(strings_view(s.push(x)) =~= strings_view(s).push(x@));
}

/// Whether `s` occurs (as a string) in `v`.
pub fn contains_string(v: &Vec<String>, s: &String) -> (r: bool)
    ensures
        r == strings_view(v@).contains(s@),
{
    let n = v.len();
    let mut i: usize = 0;
    while i < n
        invariant
            n == v@.len(),
            i <= n,
            forall|j: int| 0 <= j < i ==> v@[j]@ != s@,
        decreases n - i,
    {
        if v[i] == *s {
            assert(strings_view(v@)[i as int] == s@);
            return true;
        }
        i = i + 1;
    }
    proof {
        if strings_view(v@).contains(s@) {
            let j = choose|j: int| 0 <= j < strings_view(v@).len() && strings_view(v@)[j] == s@;
            assert(v@[j]@ == s@);
        }
    }
    false
}


/// A copy of a list of strings.
pub fn clone_strings(v: &Vec<String>) -> (r: Vec<String>)
    ensures
        strings_view(r@) == strings_view(v@),
{
    let mut r: Vec<String> = Vec::new();
    let n = v.len();
    let mut i: usize = 0;
    while i < n
        invariant
            n == v@.len(),
            i <= n,
            strings_view(r@) == strings_view(v@).take(i as int),
        decreases n - i,
    {
        let ghost before = r@;
        r.push(v[i].clone());
        proof {
            assert(r@ == before.push(v@[i as int]));
            lemma_strings_view_push(before, v@[i as int]);
            assert(strings_view(v@).take(i + 1) =~= strings_view(v@).take(i as int).push(v@[i as int]@));
        }
        i = i + 1;
    }
    assert(strings_view(v@).take(n as int) =~= strings_view(v@));
    r
}

} // verus!
