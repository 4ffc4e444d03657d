//! Character-level string helpers.

use vstd::prelude::*;

verus! {

/// Whether two strings hold the same characters.
pub fn str_eq(a: &str, b: &str) -> (r: bool)
    ensures
        r == (a@ == b@),
{
    let alen = a.unicode_len();
    let blen = b.unicode_len();
    if alen != blen {
        return false;
    }
    let mut i: usize = 0;
    while i < alen
        invariant
            alen == a@.len(),
            blen == b@.len(),
            alen == blen,
            0 <= i <= alen,
            forall|j: int| 0 <= j < i ==> a@[j] == b@[j],
        decreases alen - i,
    {
        if a.get_char(i) != b.get_char(i) {
            return false;
        }
        i = i + 1;
    }
    proof {
        assert(a@ =~= b@);
    }
    true
}

/// The views of a sequence of strings.
pub open spec fn strs_view(s: Seq<String>) -> Seq<Seq<char>> {
    s.map_values(|x: String| x@)
}

/// The last position whose string holds the characters `x`, or `-1`.
pub open spec fn last_index_matching(s: Seq<String>, x: Seq<char>) -> int
    decreases s.len(),
{
    if s.len() == 0 {
        -1
    } else if s.last()@ == x {
        s.len() - 1
    } else {
        last_index_matching(s.drop_last(), x)
    }
}

/// What `last_index_matching` finds: the last match when there is one.
pub proof fn lemma_last_index_matching(s: Seq<String>, x: Seq<char>)
    ensures
        last_index_matching(s, x) == -1 <==> !strs_view(s).contains(x),
        last_index_matching(s, x) >= 0 ==> last_index_matching(s, x) < s.len() && s[
            last_index_matching(s, x)
        ]@ == x,
        forall|j: int| last_index_matching(s, x) < j < s.len() ==> s[j]@ != x,
    decreases s.len(),
{
    if s.len() == 0 {
        assert(strs_view(s).len() == 0);
    } else if s.last()@ == x {
        assert(strs_view(s)[s.len() - 1] == x);
    } else {
        lemma_last_index_matching(s.drop_last(), x);
        let front = s.drop_last();
        assert forall|j: int| 0 <= j < front.len() implies front[j] == s[j] by {}
        if strs_view(s).contains(x) {
            let w = choose|w: int| 0 <= w < s.len() && strs_view(s)[w] == x;
            assert(w < s.len() - 1);
            assert(strs_view(front)[w] == x);
            assert(strs_view(front).contains(x));
        }
        if strs_view(front).contains(x) {
            let w = choose|w: int| 0 <= w < front.len() && strs_view(front)[w] == x;
            assert(strs_view(s)[w] == x);
            assert(strs_view(s).contains(x));
        }
    }
}

/// The last position in `v` whose string holds the characters `x`.
pub fn find_last_match(v: &Vec<String>, x: &str) -> (r: Option<usize>)
    ensures
        r is None <==> last_index_matching(v@, x@) == -1,
        r matches Some(i) ==> i == last_index_matching(v@, x@),
{
    let mut found: Option<usize> = None;
    let mut i: usize = 0;
    proof {
        assert(v@.subrange(0, 0) =~= Seq::<String>::empty());
    }
    while i < v.len()
        invariant
            0 <= i <= v@.len(),
            found is None <==> last_index_matching(v@.subrange(0, i as int), x@) == -1,
            found matches Some(k) ==> k == last_index_matching(v@.subrange(0, i as int), x@),
        decreases v@.len() - i,
    {
        proof {
            let p = v@.subrange(0, i + 1);
            assert(p.drop_last() =~= v@.subrange(0, i as int));
            assert(p.last() == v@[i as int]);
        }
        if str_eq(v[i].as_str(), x) {
            found = Some(i);
        }
        i = i + 1;
    }
    proof {
        assert(v@.subrange(0, v@.len() as int) =~= v@);
    }
    found
}

/// Whether some string in `v` holds the characters `x`.
pub fn contains_match(v: &Vec<String>, x: &str) -> (r: bool)
    ensures
        r == strs_view(v@).contains(x@),
{
    let found = find_last_match(v, x);
    proof {
        lemma_last_index_matching(v@, x@);
        if last_index_matching(v@, x@) >= 0 {
            assert(strs_view(v@)[last_index_matching(v@, x@)] == x@);
        }
    }
    match found {
        Some(_) => true,
        None => false,
    }
}

/// An equal copy of a vector of strings.
pub fn clone_strings(v: &Vec<String>) -> (r: Vec<String>)
    ensures
        r@ == v@,
{
    let r = v.clone();
    proof {
        assert forall|i: int| 0 <= i < v@.len() implies r@[i] == v@[i] by {
            assert(vstd::pervasive::cloned::<String>(v@[i], r@[i]));
        }
        assert(v@ =~= r@);
    }
    r
}

/// The characters of a string, as a vector.
pub fn str_to_chars(s: &str) -> (v: Vec<char>)
    ensures
        v@ == s@,
{
    let len = s.unicode_len();
    let mut v: Vec<char> = Vec::new();
    let mut i: usize = 0;
    while i < len
        invariant
            len == s@.len(),
            0 <= i <= len,
            v@ == s@.subrange(0, i as int),
        decreases len - i,
    {
        v.push(s.get_char(i));
        proof {
            assert(v@ =~= s@.subrange(0, i + 1));
        }
        i = i + 1;
    }
    proof {
        assert(v@ =~= s@);
    }
    v
}

} // verus!
