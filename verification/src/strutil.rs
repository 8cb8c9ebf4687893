//! Character-level string helpers: search, splitting and comparison.

use vstd::prelude::*;

verus! {

/// Index of the first occurrence of `c` in `s`, if any.
pub open spec fn spec_find(s: Seq<char>, c: char) -> Option<int>
    decreases s.len(),
{
    if s.len() == 0 {
        None
    } else if s[0] == c {
        Some(0)
    } else {
        match spec_find(s.skip(1), c) {
            None => None,
            Some(i) => Some(i + 1),
        }
    }
}

/// What a found index means: it holds `c`, nothing before it does, and
/// a missing result means `c` does not occur.
pub proof fn lemma_find_props(s: Seq<char>, c: char)
    ensures
        match spec_find(s, c) {
            Some(i) => 0 <= i < s.len() && s[i] == c && forall|k: int| 0 <= k < i ==> s[k] != c,
            None => forall|k: int| 0 <= k < s.len() ==> s[k] != c,
        },
    decreases s.len(),
{
    if s.len() > 0 && s[0] != c {
        lemma_find_props(s.skip(1), c);
        match spec_find(s.skip(1), c) {
            Some(i) => {
                assert forall|k: int| 0 <= k < i + 1 implies s[k] != c by {
                    if k > 0 {
                        assert(s.skip(1)[k - 1] != c);
                    }
                }
            },
            None => {
                assert forall|k: int| 0 <= k < s.len() implies s[k] != c by {
                    if k > 0 {
                        assert(s.skip(1)[k - 1] != c);
                    }
                }
            },
        }
    }
}

/// A scan that saw no `c` before `j` pins the find result down.
pub proof fn lemma_find_of_scan(s: Seq<char>, c: char, j: int)
    requires
        0 <= j <= s.len(),
        forall|k: int| 0 <= k < j ==> s[k] != c,
        j < s.len() ==> s[j] == c,
    ensures
        spec_find(s, c) == (if j < s.len() {
            Some(j)
        } else {
            Option::<int>::None
        }),
    decreases s.len(),
{
    if s.len() > 0 && j > 0 {
        lemma_find_of_scan(s.skip(1), c, j - 1);
    }
}

/// Finds the first occurrence of `c` at or after `from`.
pub fn find_char(s: &str, from: usize, c: char) -> (r: Option<usize>)
    requires
        from <= s@.len(),
    ensures
        match r {
            Some(j) => from <= j < s@.len() && s@[j as int] == c && spec_find(s@.skip(from as int), c)
                == Some(j - from),
            None => spec_find(s@.skip(from as int), c) == Option::<int>::None,
        },
{
    let n = s.unicode_len();
    let mut j: usize = from;
    while j < n
        invariant
            from <= j <= n,
            n == s@.len(),
            forall|k: int| from <= k < j ==> s@[k] != c,
        decreases n - j,
    {
        if s.get_char(j) == c {
            proof {
                assert forall|k: int| 0 <= k < j - from implies s@.skip(from as int)[k] != c by {
                    assert(s@.skip(from as int)[k] == s@[k + from]);
                }
                lemma_find_of_scan(s@.skip(from as int), c, j - from);
            }
            return Some(j);
        }
        j = j + 1;
    }
    proof {
        assert forall|k: int| 0 <= k < s@.skip(from as int).len() implies s@.skip(from as int)[k]
            != c by {
            assert(s@.skip(from as int)[k] == s@[k + from]);
        }
        lemma_find_of_scan(s@.skip(from as int), c, s@.len() - from);
    }
    None
}

/// The pieces of `s` between occurrences of `c`: one more piece than
/// there are separators, empty pieces kept.
pub open spec fn spec_split(s: Seq<char>, c: char) -> Seq<Seq<char>>
    decreases s.len(),
{
    match spec_find(s, c) {
        None => seq![s],
        Some(i) => if 0 <= i < s.len() {
            seq![s.take(i)] + spec_split(s.skip(i + 1), c)
        } else {
            seq![s]
        },
    }
}

/// The views of a vector of strings.
pub open spec fn spec_views(v: Seq<String>) -> Seq<Seq<char>> {
    v.map(|_k: int, x: String| x@)
}

/// Splits `s` at every occurrence of `c`.
pub fn split_str(s: &str, c: char) -> (r: Vec<String>)
    ensures
        spec_views(r@) == spec_split(s@, c),
{
    let n = s.unicode_len();
    let mut parts: Vec<String> = Vec::new();
    let mut pos: usize = 0;
    proof {
        assert(s@.skip(0) =~= s@);
        assert(spec_views(parts@) =~= Seq::<Seq<char>>::empty());
        assert(Seq::<Seq<char>>::empty() + spec_split(s@, c) =~= spec_split(s@, c));
    }
    loop
        invariant
            pos <= n,
            n == s@.len(),
            spec_split(s@, c) == spec_views(parts@) + spec_split(s@.skip(pos as int), c),
        decreases n - pos,
    {
        match find_char(s, pos, c) {
            Some(j) => {
                let piece = s.substring_char(pos, j).to_owned();
                proof {
                    lemma_find_props(s@.skip(pos as int), c);
                    assert(s@.skip(pos as int).take(j - pos) =~= s@.subrange(
                        pos as int,
                        j as int,
                    ));
                    assert(s@.skip(pos as int).skip(j - pos + 1) =~= s@.skip(j + 1));
                    assert(spec_split(s@.skip(pos as int), c) == seq![
                        s@.subrange(pos as int, j as int),
                    ] + spec_split(s@.skip(j + 1), c));
                    assert(spec_views(parts@.push(piece)) =~= spec_views(parts@) + seq![piece@]);
                    assert(spec_views(parts@) + (seq![s@.subrange(pos as int, j as int)]
                        + spec_split(s@.skip(j + 1), c)) =~= (spec_views(parts@) + seq![
                        s@.subrange(pos as int, j as int),
                    ]) + spec_split(s@.skip(j + 1), c));
                }
                parts.push(piece);
                pos = j + 1;
            },
            None => {
                let piece = s.substring_char(pos, n).to_owned();
                proof {
                    assert(s@.subrange(pos as int, n as int) =~= s@.skip(pos as int));
                    assert(spec_split(s@.skip(pos as int), c) == seq![s@.skip(pos as int)]);
                    assert(spec_views(parts@.push(piece)) =~= spec_views(parts@) + seq![piece@]);
                }
                parts.push(piece);
                return parts;
            },
        }
    }
}

/// How often a character occurs in a string.
pub open spec fn spec_count_char(s: Seq<char>, c: char) -> int
    decreases s.len(),
{
    if s.len() == 0 {
        0
    } else {
        (if s[0] == c {
            1int
        } else {
            0int
        }) + spec_count_char(s.skip(1), c)
    }
}

/// Character counts add up over concatenation.
pub proof fn lemma_count_char_concat(a: Seq<char>, b: Seq<char>, c: char)
    ensures
        spec_count_char(a + b, c) == spec_count_char(a, c) + spec_count_char(b, c),
    decreases a.len(),
{
    if a.len() == 0 {
        assert(a + b =~= b);
    } else {
        assert((a + b)[0] == a[0]);
        assert((a + b).skip(1) =~= a.skip(1) + b);
        lemma_count_char_concat(a.skip(1), b, c);
    }
}

/// A string without the character counts it zero times.
pub proof fn lemma_count_char_zero(s: Seq<char>, c: char)
    requires
        forall|k: int| 0 <= k < s.len() ==> s[k] != c,
    ensures
        spec_count_char(s, c) == 0,
    decreases s.len(),
{
    if s.len() > 0 {
        assert forall|k: int| 0 <= k < s.skip(1).len() implies s.skip(1)[k] != c by {
            assert(s.skip(1)[k] == s[k + 1]);
        }
        lemma_count_char_zero(s.skip(1), c);
    }
}

/// Whether two string slices spell the same characters.
pub fn str_eq(a: &str, b: &str) -> (r: bool)
    ensures
        r == (a@ == b@),
{
    let na = a.unicode_len();
    let nb = b.unicode_len();
    if na != nb {
        return false;
    }
    let mut i: usize = 0;
    while i < na
        invariant
            i <= na,
            na == a@.len(),
            na == b@.len(),
            forall|k: int| 0 <= k < i ==> a@[k] == b@[k],
        decreases na - i,
    {
        if a.get_char(i) != b.get_char(i) {
            return false;
        }
        i = i + 1;
    }
    proof {
        assert(a@ =~= b@);
    }
    true
}

/// Whether a string equals any element of a list.
pub fn contains_str(v: &Vec<String>, s: &str) -> (r: bool)
    ensures
        r == (exists|k: int| 0 <= k < v@.len() && (#[trigger] v@[k])@ == s@),
{
    let mut i: usize = 0;
    while i < v.len()
        invariant
            i <= v@.len(),
            forall|k: int| 0 <= k < i ==> (#[trigger] v@[k])@ != s@,
        decreases v@.len() - i,
    {
        if str_eq(v[i].as_str(), s) {
            return true;
        }
        i = i + 1;
    }
    false
}

} // verus!
