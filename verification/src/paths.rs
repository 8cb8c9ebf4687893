//! Path-string helpers: file name, stem and joining, over
//! slash-separated path strings.

use vstd::prelude::*;

verus! {

/// Index of the last occurrence of `c` in `s`, if any.
pub open spec fn spec_rfind(s: Seq<char>, c: char) -> Option<int>
    decreases s.len(),
{
    if s.len() == 0 {
        None
    } else if s.last() == c {
        Some(s.len() - 1)
    } else {
        spec_rfind(s.drop_last(), c)
    }
}

/// What a found index means: it holds `c` and nothing after it does.
pub proof fn lemma_rfind_props(s: Seq<char>, c: char)
    ensures
        match spec_rfind(s, c) {
            Some(i) => 0 <= i < s.len() && s[i] == c && forall|k: int| i < k < s.len() ==> s[k] != c,
            None => forall|k: int| 0 <= k < s.len() ==> s[k] != c,
        },
    decreases s.len(),
{
    if s.len() > 0 && s.last() != c {
        lemma_rfind_props(s.drop_last(), c);
        match spec_rfind(s.drop_last(), c) {
            Some(i) => {
                assert forall|k: int| i < k < s.len() implies s[k] != c by {
                    if k < s.len() - 1 {
                        assert(s.drop_last()[k] != c);
                    }
                }
            },
            None => {
                assert forall|k: int| 0 <= k < s.len() implies s[k] != c by {
                    if k < s.len() - 1 {
                        assert(s.drop_last()[k] != c);
                    }
                }
            },
        }
    }
}

/// A scan that saw no `c` after `j` pins the last occurrence down.
pub proof fn lemma_rfind_of_scan(s: Seq<char>, c: char, j: int)
    requires
        -1 <= j < s.len(),
        forall|k: int| j < k < s.len() ==> s[k] != c,
        j >= 0 ==> s[j] == c,
    ensures
        spec_rfind(s, c) == (if j >= 0 {
            Some(j)
        } else {
            Option::<int>::None
        }),
    decreases s.len(),
{
    if s.len() > 0 {
        if j == s.len() - 1 {
        } else {
            assert(s.last() != c);
            assert forall|k: int| j < k < s.drop_last().len() implies s.drop_last()[k] != c by {
                assert(s.drop_last()[k] == s[k]);
            }
            if j >= 0 {
                assert(s.drop_last()[j] == s[j]);
            }
            lemma_rfind_of_scan(s.drop_last(), c, j);
        }
    }
}

/// Finds the last occurrence of `c` in `s`.
pub fn rfind_char(s: &str, c: char) -> (r: Option<usize>)
    ensures
        match r {
            Some(j) => j < s@.len() && spec_rfind(s@, c) == Some(j as int),
            None => spec_rfind(s@, c) == Option::<int>::None,
        },
{
    let n = s.unicode_len();
    let mut j: usize = n;
    while j > 0
        invariant
            j <= n,
            n == s@.len(),
            forall|k: int| j <= k < n ==> s@[k] != c,
        decreases j,
    {
        j = j - 1;
        if s.get_char(j) == c {
            proof {
                lemma_rfind_of_scan(s@, c, j as int);
            }
            return Some(j);
        }
    }
    proof {
        lemma_rfind_of_scan(s@, c, -1);
    }
    None
}

/// The file name of a slash-separated path string: everything after
/// the last slash, or the whole string when there is none.
pub open spec fn spec_file_name(s: Seq<char>) -> Seq<char> {
    match spec_rfind(s, '/') {
        Some(i) => s.skip(i + 1),
        None => s,
    }
}

/// The stem of a file name: everything before its last dot, unless the
/// dot leads the name; the whole name when there is no such dot.
pub open spec fn spec_stem_of(name: Seq<char>) -> Seq<char> {
    match spec_rfind(name, '.') {
        Some(i) => if i > 0 {
            name.take(i)
        } else {
            name
        },
        None => name,
    }
}

/// The file name of a path string, per [`spec_file_name`].
pub fn get_file_name(input_path: &str) -> (r: String)
    ensures
        r@ == spec_file_name(input_path@),
{
    let n = input_path.unicode_len();
    match rfind_char(input_path, '/') {
        Some(i) => {
            proof {
                lemma_rfind_props(input_path@, '/');
                assert(input_path@.subrange(i + 1, input_path@.len() as int) =~= input_path@.skip(
                    i + 1,
                ));
            }
            input_path.substring_char(i + 1, n).to_owned()
        },
        None => input_path.to_owned(),
    }
}

/// The file stem of a path string: its file name cut at the last dot,
/// per [`spec_stem_of`].
pub fn get_file_stem(input_path: &str) -> (r: String)
    ensures
        r@ == spec_stem_of(spec_file_name(input_path@)),
{
    let name = get_file_name(input_path);
    match rfind_char(name.as_str(), '.') {
        Some(i) => {
            if i > 0 {
                proof {
                    lemma_rfind_props(name@, '.');
                    assert(name@.subrange(0, i as int) =~= name@.take(i as int));
                }
                name.as_str().substring_char(0, i).to_owned()
            } else {
                name
            }
        },
        None => name,
    }
}

/// Joins a directory path and a name with a single slash; an empty
/// directory or one already ending in a slash takes the name as is.
pub open spec fn spec_join_path(dir: Seq<char>, name: Seq<char>) -> Seq<char> {
    if dir.len() == 0 {
        name
    } else if dir.last() == '/' {
        dir + name
    } else {
        dir + seq!['/'] + name
    }
}

/// Joins a directory path and a file name, per [`spec_join_path`].
pub fn join_path(path: &str, input: &str) -> (r: String)
    ensures
        r@ == spec_join_path(path@, input@),
{
    let n = path.unicode_len();
    if n == 0 {
        return input.to_owned();
    }
    let mut out = path.to_owned();
    if path.get_char(n - 1) != '/' {
        proof {
            reveal_strlit("/");
        }
        out.append("/");
        proof {
            assert(out@ =~= path@ + seq!['/']);
        }
    }
    out.append(input);
    out
}

/// Reads a `"first second"` pair of indices, the two numbers separated
/// by one space; anything else yields nothing.
pub fn parse_range_tuple(s: &str) -> (r: Option<(u32, u32)>)
    ensures
        ({
            let parts = crate::strutil::spec_split(s@, ' ');
            match r {
                Some(p) => parts.len() >= 2 && crate::ticks::spec_all_digits(parts[0])
                    && crate::ticks::spec_all_digits(parts[1]) && parts[0].len() > 0
                    && parts[1].len() > 0 && p.0 == crate::ticks::spec_digits_val(parts[0]) && p.1
                    == crate::ticks::spec_digits_val(parts[1]),
                None => parts.len() < 2 || parts[0].len() == 0 || parts[1].len() == 0
                    || !crate::ticks::spec_all_digits(parts[0]) || !crate::ticks::spec_all_digits(
                    parts[1],
                ) || crate::ticks::spec_digits_val(parts[0]) > u32::MAX
                    || crate::ticks::spec_digits_val(parts[1]) > u32::MAX,
            }
        }),
{
    let parts = crate::strutil::split_str(s, ' ');
    proof {
        assert(crate::strutil::spec_views(parts@).len() == parts@.len());
    }
    if parts.len() < 2 {
        return None;
    }
    proof {
        assert(crate::strutil::spec_views(parts@)[0] == parts@[0]@);
        assert(crate::strutil::spec_views(parts@)[1] == parts@[1]@);
    }
    let a = match crate::ticks::parse_u32(parts[0].as_str()) {
        Some(v) => v,
        None => {
            return None;
        },
    };
    let b = match crate::ticks::parse_u32(parts[1].as_str()) {
        Some(v) => v,
        None => {
            return None;
        },
    };
    Some((a, b))
}

} // verus!
