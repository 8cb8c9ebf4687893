//! The two metadata rows of a raw file, and the single-row header table
//! that the rewriting commands edit.
//!
//! The first two lines of a raw export form a key/value table of twelve
//! fields; field five of the first row must read `exported with
//! version`, and field eleven of the second row carries the valid-time
//! selection string. The header table of a rewritten file is one row of
//! named values; rewriting sets the `selection` value and removes the
//! patient-name columns, and passes the data lines through untouched.

use vstd::prelude::*;

use crate::strutil::{spec_split, spec_views, split_str, str_eq};
use crate::ticks::{parse_decimal, spec_parse_decimal, valid_tick};

verus! {

/// Number of fields each metadata row must have.
pub const INFO_WIDTH: usize = 12;

/// The reason a metadata block is rejected: rows that are not twelve
/// fields wide, then a missing version sentinel. A well-formed block
/// yields no reason.
pub open spec fn spec_check_info(info: Seq<Seq<Seq<char>>>) -> Option<Seq<char>> {
    if info.len() < 2 || info[0].len() != 12 || info[1].len() != 12 {
        Some("info not 12 len"@)
    } else if info[0][5] != "exported with version"@ {
        Some("no version info"@)
    } else {
        None
    }
}

/// The views of a metadata block.
pub open spec fn spec_info_views(info: Seq<Vec<String>>) -> Seq<Seq<Seq<char>>> {
    info.map(|_k: int, row: Vec<String>| spec_views(row@))
}

/// Checks the shape of the two metadata rows, handing back the abort
/// reason the batch runner publishes, if any.
pub fn check_info(info: &Vec<Vec<String>>) -> (r: Option<String>)
    ensures
        match r {
            Some(reason) => spec_check_info(spec_info_views(info@)) == Some(reason@),
            None => spec_check_info(spec_info_views(info@)) == Option::<Seq<char>>::None,
        },
{
    proof {
        reveal_strlit("info not 12 len");
        reveal_strlit("no version info");
        reveal_strlit("exported with version");
    }
    if info.len() < 2 {
        return Some(String::from_str("info not 12 len"));
    }
    if info[0].len() != INFO_WIDTH || info[1].len() != INFO_WIDTH {
        proof {
            assert(spec_info_views(info@)[0] == spec_views(info@[0]@));
            assert(spec_info_views(info@)[1] == spec_views(info@[1]@));
        }
        return Some(String::from_str("info not 12 len"));
    }
    proof {
        assert(spec_info_views(info@)[0] == spec_views(info@[0]@));
        assert(spec_info_views(info@)[1] == spec_views(info@[1]@));
        assert(spec_views(info@[0]@)[5] == info@[0]@[5]@);
    }
    if !str_eq(info[0][5].as_str(), "exported with version") {
        return Some(String::from_str("no version info"));
    }
    None
}

/// The tick pair a selection token denotes: two decimals joined by a
/// dash.
pub open spec fn spec_token_pair(t: Seq<char>) -> Option<(int, int)> {
    let parts = spec_split(t, '-');
    if parts.len() == 2 {
        match (spec_parse_decimal(parts[0]), spec_parse_decimal(parts[1])) {
            (Some(a), Some(b)) => Some((a, b)),
            _ => None,
        }
    } else {
        None
    }
}

/// The tick pairs of a token list, or nothing if any token is
/// malformed.
pub open spec fn spec_pairs_of(tokens: Seq<Seq<char>>) -> Option<Seq<(int, int)>>
    decreases tokens.len(),
{
    if tokens.len() == 0 {
        Some(Seq::empty())
    } else {
        match (spec_token_pair(tokens[0]), spec_pairs_of(tokens.skip(1))) {
            (Some(p), Some(rest)) => Some(seq![p] + rest),
            _ => None,
        }
    }
}

/// The selection windows a selection string denotes: space-separated
/// `start-end` tokens of decimals.
pub open spec fn spec_parse_selections(s: Seq<char>) -> Option<Seq<(int, int)>> {
    spec_pairs_of(spec_split(s, ' '))
}

/// The integer views of a tick-pair list.
pub open spec fn spec_pair_views(v: Seq<(i64, i64)>) -> Seq<(int, int)> {
    v.map(|_k: int, p: (i64, i64)| (p.0 as int, p.1 as int))
}

/// Reads a selection string into tick windows; a malformed string
/// yields nothing, which callers treat as "no valid cycles". Every
/// parsed bound is a tick value the pipeline may hold.
pub fn parse_selections(s: &str) -> (r: Option<Vec<(i64, i64)>>)
    ensures
        match r {
            Some(v) => spec_parse_selections(s@) == Some(spec_pair_views(v@))
                && crate::aggregate::spec_valid_intervals(v@),
            None => spec_parse_selections(s@) == Option::<Seq<(int, int)>>::None,
        },
{
    let tokens = split_str(s, ' ');
    let mut out: Vec<(i64, i64)> = Vec::new();
    let mut i: usize = 0;
    let views = Ghost(spec_views(tokens@));
    proof {
        assert(views@.skip(0) =~= views@);
        assert(spec_pair_views(out@) =~= Seq::<(int, int)>::empty());
        match spec_pairs_of(views@) {
            Some(all) => {
                assert(all.take(0) =~= Seq::<(int, int)>::empty());
            },
            None => {},
        }
    }
    while i < tokens.len()
        invariant
            i <= tokens@.len(),
            views@ == spec_views(tokens@),
            spec_views(tokens@) == spec_split(s@, ' '),
            spec_pair_views(out@).len() == i,
            crate::aggregate::spec_valid_intervals(out@),
            match spec_pairs_of(views@) {
                Some(all) => all.take(i as int) == spec_pair_views(out@) && spec_pairs_of(
                    views@.skip(i as int),
                ) == Some(all.skip(i as int)),
                None => spec_pairs_of(views@.skip(i as int)) == Option::<Seq<(int, int)>>::None,
            },
        decreases tokens@.len() - i,
    {
        let parts = split_str(tokens[i].as_str(), '-');
        proof {
            assert(views@[i as int] == tokens@[i as int]@);
            assert(views@.skip(i as int)[0] == views@[i as int]);
            assert(views@.skip(i as int).skip(1) =~= views@.skip(i + 1));
        }
        if parts.len() != 2 {
            proof {
                assert(spec_views(parts@) == spec_split(tokens@[i as int]@, '-'));
                assert(spec_views(parts@).len() == parts@.len());
                assert(spec_token_pair(views@[i as int]) == Option::<(int, int)>::None);
                assert(spec_pairs_of(views@.skip(i as int)) == Option::<Seq<(int, int)>>::None);
                assert(spec_parse_selections(s@) == Option::<Seq<(int, int)>>::None);
            }
            return None;
        }
        proof {
            assert(spec_views(parts@) == spec_split(tokens@[i as int]@, '-'));
            assert(spec_views(parts@)[0] == parts@[0]@);
            assert(spec_views(parts@)[1] == parts@[1]@);
        }
        let a = match parse_decimal(parts[0].as_str()) {
            Some(a) => a,
            None => {
                proof {
                    assert(spec_token_pair(views@[i as int]) == Option::<(int, int)>::None);
                    assert(spec_pairs_of(views@.skip(i as int)) == Option::<
                        Seq<(int, int)>,
                    >::None);
                    assert(spec_parse_selections(s@) == Option::<Seq<(int, int)>>::None);
                }
                return None;
            },
        };
        let b = match parse_decimal(parts[1].as_str()) {
            Some(b) => b,
            None => {
                proof {
                    assert(spec_token_pair(views@[i as int]) == Option::<(int, int)>::None);
                    assert(spec_pairs_of(views@.skip(i as int)) == Option::<
                        Seq<(int, int)>,
                    >::None);
                    assert(spec_parse_selections(s@) == Option::<Seq<(int, int)>>::None);
                }
                return None;
            },
        };
        proof {
            assert(spec_token_pair(views@[i as int]) == Some((a as int, b as int)));
            assert(spec_pair_views(out@.push((a, b))) =~= spec_pair_views(out@).push(
                (a as int, b as int),
            ));
            match spec_pairs_of(views@) {
                Some(all) => {
                    lemma_pairs_len(views@);
                    assert(spec_pairs_of(views@.skip(i as int)) == Some(all.skip(i as int)));
                    assert(all.skip(i as int)[0] == (a as int, b as int));
                    assert(all.take(i + 1) =~= all.take(i as int).push((a as int, b as int)));
                    assert(all.skip(i as int).skip(1) =~= all.skip(i + 1));
                },
                None => {},
            }
        }
        out.push((a, b));
        i = i + 1;
    }
    proof {
        match spec_pairs_of(views@) {
            Some(all) => {
                assert(all.take(all.len() as int) =~= all);
                assert(all.len() == views@.len()) by {
                    lemma_pairs_len(views@);
                }
            },
            None => {
                assert(views@.skip(i as int).len() == 0);
                assert(spec_pairs_of(views@.skip(i as int)) matches Some(_));
            },
        }
    }
    Some(out)
}

/// A well-formed token list yields one pair per token.
pub proof fn lemma_pairs_len(tokens: Seq<Seq<char>>)
    requires
        spec_pairs_of(tokens) matches Some(_),
    ensures
        spec_pairs_of(tokens) matches Some(all) && all.len() == tokens.len(),
    decreases tokens.len(),
{
    if tokens.len() > 0 {
        lemma_pairs_len(tokens.skip(1));
    }
}

/// The single-row header table of a rewritten file: column names and
/// their values, kept in step.
pub struct Header {
    pub names: Vec<String>,
    pub values: Vec<String>,
}

impl Header {
    /// One value per name.
    pub open spec fn wf(&self) -> bool {
        self.names@.len() == self.values@.len()
    }
}

/// Index of the first name equal to `t`, if any.
pub open spec fn spec_index_of(names: Seq<Seq<char>>, t: Seq<char>) -> Option<int>
    decreases names.len(),
{
    if names.len() == 0 {
        None
    } else if names[0] == t {
        Some(0)
    } else {
        match spec_index_of(names.skip(1), t) {
            None => None,
            Some(i) => Some(i + 1),
        }
    }
}

/// What a found column index means.
pub proof fn lemma_index_of_props(names: Seq<Seq<char>>, t: Seq<char>)
    ensures
        match spec_index_of(names, t) {
            Some(i) => 0 <= i < names.len() && names[i] == t && forall|k: int|
                0 <= k < i ==> names[k] != t,
            None => forall|k: int| 0 <= k < names.len() ==> names[k] != t,
        },
    decreases names.len(),
{
    if names.len() > 0 && names[0] != t {
        lemma_index_of_props(names.skip(1), t);
        match spec_index_of(names.skip(1), t) {
            Some(i) => {
                assert forall|k: int| 0 <= k < i + 1 implies names[k] != t by {
                    if k > 0 {
                        assert(names.skip(1)[k - 1] != t);
                    }
                }
            },
            None => {
                assert forall|k: int| 0 <= k < names.len() implies names[k] != t by {
                    if k > 0 {
                        assert(names.skip(1)[k - 1] != t);
                    }
                }
            },
        }
    }
}

/// A scan that saw no match before `j` pins the column index down.
pub proof fn lemma_index_of_scan(names: Seq<Seq<char>>, t: Seq<char>, j: int)
    requires
        0 <= j <= names.len(),
        forall|k: int| 0 <= k < j ==> names[k] != t,
        j < names.len() ==> names[j] == t,
    ensures
        spec_index_of(names, t) == (if j < names.len() {
            Some(j)
        } else {
            Option::<int>::None
        }),
    decreases names.len(),
{
    if names.len() > 0 && j > 0 {
        lemma_index_of_scan(names.skip(1), t, j - 1);
    }
}

/// Finds the first column with the given name.
pub fn index_of_name(names: &Vec<String>, t: &str) -> (r: Option<usize>)
    ensures
        match r {
            Some(j) => j < names@.len() && spec_index_of(spec_views(names@), t@) == Some(j as int),
            None => spec_index_of(spec_views(names@), t@) == Option::<int>::None,
        },
{
    let mut j: usize = 0;
    while j < names.len()
        invariant
            j <= names@.len(),
            forall|k: int| 0 <= k < j ==> (#[trigger] names@[k])@ != t@,
        decreases names@.len() - j,
    {
        if str_eq(names[j].as_str(), t) {
            proof {
                assert forall|k: int| 0 <= k < j implies spec_views(names@)[k] != t@ by {
                    assert(spec_views(names@)[k] == names@[k]@);
                }
                assert(spec_views(names@)[j as int] == names@[j as int]@);
                lemma_index_of_scan(spec_views(names@), t@, j as int);
            }
            return Some(j);
        }
        j = j + 1;
    }
    proof {
        assert forall|k: int| 0 <= k < names@.len() implies spec_views(names@)[k] != t@ by {
            assert(spec_views(names@)[k] == names@[k]@);
        }
        lemma_index_of_scan(spec_views(names@), t@, names@.len() as int);
    }
    None
}

/// The header with its `selection` value set: the first `selection`
/// column is overwritten, or one is appended when none exists.
pub open spec fn spec_set_selection(
    names: Seq<Seq<char>>,
    values: Seq<Seq<char>>,
    sel: Seq<char>,
) -> (Seq<Seq<char>>, Seq<Seq<char>>) {
    match spec_index_of(names, "selection"@) {
        Some(i) => (names, values.update(i, sel)),
        None => (names.push("selection"@), values.push(sel)),
    }
}

/// Whether a column name is one of the patient-name columns.
pub open spec fn spec_is_name_column(n: Seq<char>) -> bool {
    n == "last_name"@ || n == "first_name"@
}

/// The header with the patient-name columns removed, other columns kept
/// in order.
pub open spec fn spec_drop_name_columns(names: Seq<Seq<char>>, values: Seq<Seq<char>>) -> (
    Seq<Seq<char>>,
    Seq<Seq<char>>,
)
    decreases names.len(),
{
    if names.len() == 0 || names.len() != values.len() {
        (Seq::empty(), Seq::empty())
    } else {
        let rest = spec_drop_name_columns(names.drop_last(), values.drop_last());
        if spec_is_name_column(names.last()) {
            rest
        } else {
            (rest.0.push(names.last()), rest.1.push(values.last()))
        }
    }
}

/// Sets the header's `selection` value, per [`spec_set_selection`].
pub fn set_selection(h: Header, sel: String) -> (r: Header)
    requires
        h.wf(),
    ensures
        r.wf(),
        (spec_views(r.names@), spec_views(r.values@)) == spec_set_selection(
            spec_views(h.names@),
            spec_views(h.values@),
            sel@,
        ),
{
    let Header { names, mut values } = h;
    match index_of_name(&names, "selection") {
        Some(i) => {
            values.set(i, sel);
            proof {
                assert(spec_views(values@) =~= spec_views(h.values@).update(
                    spec_index_of(spec_views(h.names@), "selection"@).unwrap(),
                    sel@,
                ));
            }
            Header { names, values }
        },
        None => {
            let mut names = names;
            names.push(String::from_str("selection"));
            values.push(sel);
            proof {
                assert(spec_views(names@) =~= spec_views(h.names@).push("selection"@));
                assert(spec_views(values@) =~= spec_views(h.values@).push(sel@));
            }
            Header { names, values }
        },
    }
}

/// Removes the patient-name columns, per [`spec_drop_name_columns`].
pub fn drop_name_columns(h: Header) -> (r: Header)
    requires
        h.wf(),
    ensures
        r.wf(),
        (spec_views(r.names@), spec_views(r.values@)) == spec_drop_name_columns(
            spec_views(h.names@),
            spec_views(h.values@),
        ),
{
    let mut names: Vec<String> = Vec::new();
    let mut values: Vec<String> = Vec::new();
    let mut i: usize = 0;
    proof {
        assert(spec_views(h.names@).take(0) =~= Seq::<Seq<char>>::empty());
        assert(spec_views(h.values@).take(0) =~= Seq::<Seq<char>>::empty());
        assert(spec_drop_name_columns(
            spec_views(h.names@).take(0),
            spec_views(h.values@).take(0),
        ) == (spec_views(names@), spec_views(values@))) by {
            assert(spec_views(names@) =~= Seq::<Seq<char>>::empty());
            assert(spec_views(values@) =~= Seq::<Seq<char>>::empty());
        }
    }
    while i < h.names.len()
        invariant
            h.wf(),
            i <= h.names@.len(),
            (spec_views(names@), spec_views(values@)) == spec_drop_name_columns(
                spec_views(h.names@).take(i as int),
                spec_views(h.values@).take(i as int),
            ),
        decreases h.names@.len() - i,
    {
        let keep = !str_eq(h.names[i].as_str(), "last_name") && !str_eq(
            h.names[i].as_str(),
            "first_name",
        );
        proof {
            let nv = spec_views(h.names@);
            let vv = spec_views(h.values@);
            assert(nv.take(i + 1).drop_last() =~= nv.take(i as int));
            assert(vv.take(i + 1).drop_last() =~= vv.take(i as int));
            assert(nv.take(i + 1).last() == nv[i as int]);
            assert(vv.take(i + 1).last() == vv[i as int]);
            assert(nv[i as int] == h.names@[i as int]@);
            assert(vv[i as int] == h.values@[i as int]@);
        }
        if keep {
            let n = h.names[i].clone();
            let v = h.values[i].clone();
            proof {
                assert(spec_views(names@.push(n)) =~= spec_views(names@).push(
                    h.names@[i as int]@,
                ));
                assert(spec_views(values@.push(v)) =~= spec_views(values@).push(
                    h.values@[i as int]@,
                ));
            }
            names.push(n);
            values.push(v);
        }
        i = i + 1;
    }
    proof {
        assert(spec_views(h.names@).take(h.names@.len() as int) =~= spec_views(h.names@));
        assert(spec_views(h.values@).take(h.values@.len() as int) =~= spec_views(h.values@));
        lemma_drop_name_columns_props(spec_views(h.names@), spec_views(h.values@));
        assert(spec_views(names@).len() == names@.len());
        assert(spec_views(values@).len() == values@.len());
    }
    Header { names, values }
}

/// Rewrites a file's header for a new selection: the `selection` value
/// is set, the patient-name columns are removed, and the data lines are
/// handed back untouched.
pub fn swrite(h: Header, data: Vec<String>, sel: String) -> (r: (Header, Vec<String>))
    requires
        h.wf(),
    ensures
        r.0.wf(),
        ({
            let set = spec_set_selection(spec_views(h.names@), spec_views(h.values@), sel@);
            (spec_views(r.0.names@), spec_views(r.0.values@)) == spec_drop_name_columns(
                set.0,
                set.1,
            )
        }),
        r.1 == data,
{
    let with_sel = set_selection(h, sel);
    let cleaned = drop_name_columns(with_sel);
    (cleaned, data)
}

/// After dropping, no patient-name column remains, and every kept pair
/// comes from the input at its own position order.
pub proof fn lemma_drop_name_columns_props(names: Seq<Seq<char>>, values: Seq<Seq<char>>)
    requires
        names.len() == values.len(),
    ensures
        spec_drop_name_columns(names, values).0.len() == spec_drop_name_columns(
            names,
            values,
        ).1.len(),
        forall|k: int|
            0 <= k < spec_drop_name_columns(names, values).0.len() ==> !spec_is_name_column(
                #[trigger] spec_drop_name_columns(names, values).0[k],
            ),
        forall|k: int|
            0 <= k < spec_drop_name_columns(names, values).0.len() ==> exists|m: int|
                0 <= m < names.len() && names[m] == #[trigger] spec_drop_name_columns(
                    names,
                    values,
                ).0[k] && values[m] == spec_drop_name_columns(names, values).1[k],
    decreases names.len(),
{
    if names.len() > 0 {
        lemma_drop_name_columns_props(names.drop_last(), values.drop_last());
        let rest = spec_drop_name_columns(names.drop_last(), values.drop_last());
        let whole = spec_drop_name_columns(names, values);
        assert forall|k: int| 0 <= k < whole.0.len() implies !spec_is_name_column(
            #[trigger] whole.0[k],
        ) && exists|m: int|
            0 <= m < names.len() && names[m] == whole.0[k] && values[m] == whole.1[k] by {
            if !spec_is_name_column(names.last()) && k == whole.0.len() - 1 {
                assert(whole.0[k] == names.last());
                assert(whole.1[k] == values.last());
                assert(names[names.len() - 1] == names.last());
            } else {
                assert(whole.0[k] == rest.0[k] && whole.1[k] == rest.1[k]);
                let m = choose|m: int|
                    0 <= m < names.drop_last().len() && names.drop_last()[m] == rest.0[k]
                        && values.drop_last()[m] == rest.1[k];
                assert(names[m] == names.drop_last()[m]);
                assert(values[m] == values.drop_last()[m]);
            }
        }
    }
}

/// Every column that is neither a patient-name column nor dropped loses
/// nothing: it survives with its value.
pub proof fn lemma_drop_name_columns_keeps(names: Seq<Seq<char>>, values: Seq<Seq<char>>, m: int)
    requires
        names.len() == values.len(),
        0 <= m < names.len(),
        !spec_is_name_column(names[m]),
    ensures
        exists|k: int|
            0 <= k < spec_drop_name_columns(names, values).0.len()
                && #[trigger] spec_drop_name_columns(names, values).0[k] == names[m]
                && spec_drop_name_columns(names, values).1[k] == values[m],
    decreases names.len(),
{
    let whole = spec_drop_name_columns(names, values);
    let rest = spec_drop_name_columns(names.drop_last(), values.drop_last());
    lemma_drop_name_columns_props(names.drop_last(), values.drop_last());
    if m == names.len() - 1 {
        assert(whole.0[whole.0.len() - 1] == names[m]);
        assert(whole.1[whole.0.len() - 1] == values[m]);
    } else {
        assert(names.drop_last()[m] == names[m]);
        assert(values.drop_last()[m] == values[m]);
        lemma_drop_name_columns_keeps(names.drop_last(), values.drop_last(), m);
        let k = choose|k: int|
            0 <= k < rest.0.len() && #[trigger] rest.0[k] == names[m] && rest.1[k] == values[m];
        if spec_is_name_column(names.last()) {
            assert(whole.0[k] == names[m] && whole.1[k] == values[m]);
        } else {
            assert(whole.0[k] == rest.0[k] && whole.1[k] == rest.1[k]);
        }
    }
}

/// Selection round trip: rewriting a file's header leaves the data rows
/// untouched (they are handed through verbatim), removes the
/// patient-name columns, and leaves a `selection` column holding
/// exactly the new value; every other surviving column keeps a name and
/// value the input had.
pub proof fn lemma_swrite_round_trip(names: Seq<Seq<char>>, values: Seq<Seq<char>>, sel: Seq<char>)
    requires
        names.len() == values.len(),
    ensures
        ({
            let set = spec_set_selection(names, values, sel);
            let out = spec_drop_name_columns(set.0, set.1);
            &&& forall|k: int| 0 <= k < out.0.len() ==> !spec_is_name_column(#[trigger] out.0[k])
            &&& exists|k: int|
                0 <= k < out.0.len() && #[trigger] out.0[k] == "selection"@ && out.1[k] == sel
            &&& out.0.len() == out.1.len()
        }),
{
    let set = spec_set_selection(names, values, sel);
    let out = spec_drop_name_columns(set.0, set.1);
    lemma_index_of_props(names, "selection"@);
    proof_selection_distinct();
    match spec_index_of(names, "selection"@) {
        Some(i) => {
            assert(set.0.len() == set.1.len());
            assert(set.0[i] == "selection"@ && set.1[i] == sel);
            lemma_drop_name_columns_props(set.0, set.1);
            lemma_drop_name_columns_keeps(set.0, set.1, i);
        },
        None => {
            assert(set.0.len() == set.1.len());
            assert(set.0[set.0.len() - 1] == "selection"@ && set.1[set.1.len() - 1] == sel);
            lemma_drop_name_columns_props(set.0, set.1);
            lemma_drop_name_columns_keeps(set.0, set.1, set.0.len() - 1);
        },
    }
}

/// The `selection` column is not a patient-name column.
proof fn proof_selection_distinct()
    ensures
        !spec_is_name_column("selection"@),
{
    reveal_strlit("selection");
    reveal_strlit("last_name");
    reveal_strlit("first_name");
    assert("selection"@.len() == 9);
    assert("first_name"@.len() == 10);
    assert("selection"@[0] == 's' && "last_name"@[0] == 'l');
}

/// Checks the metadata block as a hard requirement: a malformed block
/// is a bad header.
pub fn validate_info(info: &Vec<Vec<String>>) -> (r: Result<(), crate::errors::AnalysisError>)
    ensures
        match r {
            Ok(()) => spec_check_info(spec_info_views(info@)) is None,
            Err(e) => e == crate::errors::AnalysisError::BadHeader && spec_check_info(
                spec_info_views(info@),
            ) is Some,
        },
{
    match check_info(info) {
        None => Ok(()),
        Some(_) => Err(crate::errors::AnalysisError::BadHeader),
    }
}

/// Reads a selection string as a hard requirement: a malformed string
/// is a bad selection.
pub fn validate_selections(s: &str) -> (r: Result<Vec<(i64, i64)>, crate::errors::AnalysisError>)
    ensures
        match r {
            Ok(v) => spec_parse_selections(s@) == Some(spec_pair_views(v@))
                && crate::aggregate::spec_valid_intervals(v@),
            Err(e) => e == crate::errors::AnalysisError::BadSelection && spec_parse_selections(s@)
                is None,
        },
{
    match parse_selections(s) {
        Some(v) => Ok(v),
        None => Err(crate::errors::AnalysisError::BadSelection),
    }
}

/// The findings of the header check on one file: leftover patient-name
/// columns, and a missing selection column.
pub open spec fn spec_header_findings(names: Seq<Seq<char>>) -> Seq<Seq<char>> {
    (if spec_index_of(names, "last_name"@) is Some {
        seq!["found: last_name"@]
    } else {
        Seq::empty()
    }) + (if spec_index_of(names, "first_name"@) is Some {
        seq!["found: first_name"@]
    } else {
        Seq::empty()
    }) + (if spec_index_of(names, "selection"@) is None {
        seq!["not found: selection"@]
    } else {
        Seq::empty()
    })
}

/// Checks a rewritten file's header columns: reports a leftover
/// `last_name` or `first_name` column and a missing `selection` column.
/// An empty report means the header is clean.
pub fn check_header_columns(names: &Vec<String>) -> (r: Vec<String>)
    ensures
        spec_views(r@) == spec_header_findings(spec_views(names@)),
{
    let mut out: Vec<String> = Vec::new();
    if index_of_name(names, "last_name").is_some() {
        out.push(String::from_str("found: last_name"));
    }
    if index_of_name(names, "first_name").is_some() {
        out.push(String::from_str("found: first_name"));
    }
    if index_of_name(names, "selection").is_none() {
        out.push(String::from_str("not found: selection"));
    }
    proof {
        assert(spec_views(out@) =~= spec_header_findings(spec_views(names@)));
    }
    out
}

/// The posture-count key of one decoded file name: the user token and
/// the posture label, joined by a dash, for posture labels `1` and `2`;
/// other labels count nothing.
pub open spec fn spec_posture_key(tokens: Seq<Seq<char>>) -> Option<Seq<char>> {
    if tokens.len() >= 11 && tokens[7] == "1"@ {
        Some(tokens[5] + "-1"@)
    } else if tokens.len() >= 11 && tokens[7] == "2"@ {
        Some(tokens[5] + "-2"@)
    } else {
        None
    }
}

/// Builds the posture-count key of one decoded file name, per
/// [`spec_posture_key`].
pub fn posture_key(tokens: &Vec<String>) -> (r: Option<String>)
    requires
        tokens@.len() >= 11,
    ensures
        match r {
            Some(k) => spec_posture_key(spec_views(tokens@)) == Some(k@),
            None => spec_posture_key(spec_views(tokens@)) == Option::<Seq<char>>::None,
        },
{
    proof {
        assert(spec_views(tokens@)[7] == tokens@[7]@);
        assert(spec_views(tokens@)[5] == tokens@[5]@);
    }
    if str_eq(tokens[7].as_str(), "1") {
        let mut k = tokens[5].clone();
        proof {
            reveal_strlit("-1");
        }
        k.append("-1");
        Some(k)
    } else if str_eq(tokens[7].as_str(), "2") {
        let mut k = tokens[5].clone();
        proof {
            reveal_strlit("-2");
        }
        k.append("-2");
        Some(k)
    } else {
        None
    }
}

/// The split-and-join of a file stem: the stem is split at the one
/// underscore, each part at dashes, and the pieces are strung together;
/// a stem without exactly one underscore or with fewer than eleven
/// pieces cannot be decoded.
pub open spec fn spec_stem_tokens(s: Seq<char>) -> Option<Seq<Seq<char>>> {
    let parts = spec_split(s, '_');
    if parts.len() == 2 {
        let v = spec_split(parts[0], '-') + spec_split(parts[1], '-');
        if v.len() >= 11 {
            Some(v)
        } else {
            None
        }
    } else {
        None
    }
}

/// Decodes a file stem into its name tokens, per [`spec_stem_tokens`].
pub fn parse_stem_tokens(stem: &str) -> (r: Option<Vec<String>>)
    ensures
        match r {
            Some(v) => spec_stem_tokens(stem@) == Some(spec_views(v@)),
            None => spec_stem_tokens(stem@) == Option::<Seq<Seq<char>>>::None,
        },
{
    let parts = split_str(stem, '_');
    proof {
        assert(spec_views(parts@).len() == parts@.len());
    }
    if parts.len() != 2 {
        return None;
    }
    proof {
        assert(spec_views(parts@)[0] == parts@[0]@);
        assert(spec_views(parts@)[1] == parts@[1]@);
    }
    let mut v = split_str(parts[0].as_str(), '-');
    let second = split_str(parts[1].as_str(), '-');
    let gv = Ghost(spec_views(v@));
    let gs = Ghost(spec_views(second@));
    let mut i: usize = 0;
    while i < second.len()
        invariant
            i <= second@.len(),
            gs@ == spec_views(second@),
            spec_views(v@) == gv@ + gs@.take(i as int),
        decreases second@.len() - i,
    {
        let piece = second[i].clone();
        proof {
            assert(piece@ == second@[i as int]@);
            assert(gv@ + gs@.take(i as int) + seq![second@[i as int]@] =~= gv@ + gs@.take(i + 1));
            assert(spec_views(v@.push(piece)) =~= spec_views(v@) + seq![piece@]);
        }
        v.push(piece);
        i = i + 1;
    }
    proof {
        assert(gs@.take(gs@.len() as int) =~= gs@);
    }
    if v.len() < 11 {
        return None;
    }
    Some(v)
}

} // verus!
