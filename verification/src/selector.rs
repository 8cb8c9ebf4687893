//! Automatic selection of a centred window of gait cycles.
//!
//! Given the cycle list, a percentage and the posture class taken from
//! the file name, the selector emits a selection string of
//! `"start-end"` tokens: one centred window for overground recordings
//! (posture `2`), two half-wise windows for treadmill recordings
//! (posture `1`), and an empty string for any other class. A window of
//! zero cycles collapses to the centre cycle's start, which callers
//! treat as an empty selection.

use vstd::prelude::*;

use crate::aggregate::spec_valid_intervals;
use crate::ticks::{format_tick, spec_format_tick, valid_tick};

verus! {

/// How many cycles a window covers: the truncated percentage of
/// `length`.
pub open spec fn spec_range_len(length: int, percent: int) -> int {
    length * percent / 100
}

/// The `"start-end"` token of one window of the cycle list `g`:
/// `length` cycles considered, window centred at `middle`, covering
/// `percent` of them, clamped to the list. Nothing comes out when the
/// clamped window is empty.
pub open spec fn spec_select_token(
    g: Seq<(i64, i64)>,
    length: int,
    middle: int,
    percent: int,
) -> Option<Seq<char>> {
    let range = spec_range_len(length, percent);
    if range == 0 {
        if middle < g.len() {
            Some(
                spec_format_tick(g[middle].0 as int) + seq!['-'] + spec_format_tick(
                    g[middle].0 as int,
                ),
            )
        } else {
            None
        }
    } else {
        let start = middle - range / 2;
        let end = if start + range <= g.len() {
            start + range
        } else {
            g.len() as int
        };
        if start < end {
            Some(
                spec_format_tick(g[start].0 as int) + seq!['-'] + spec_format_tick(
                    g[end - 1].1 as int,
                ),
            )
        } else {
            None
        }
    }
}

/// Emits the `"start-end"` token of one centred window, per
/// [`spec_select_token`].
pub fn select_token(g: &Vec<(i64, i64)>, length: usize, middle: usize, percent: usize) -> (r:
    Option<String>)
    requires
        percent <= 100,
        length <= g@.len(),
        spec_range_len(length as int, percent as int) / 2 <= middle,
        spec_valid_intervals(g@),
    ensures
        match r {
            Some(s) => spec_select_token(g@, length as int, middle as int, percent as int)
                == Some(s@),
            None => spec_select_token(g@, length as int, middle as int, percent as int)
                == Option::<Seq<char>>::None,
        },
{
    proof {
        assert((length as int) * (percent as int) <= (length as int) * 100) by (nonlinear_arith)
            requires
                percent <= 100,
                length as int >= 0,
        ;
    }
    let range = ((length as u128) * (percent as u128) / 100) as usize;
    if range == 0 {
        if middle < g.len() {
            let t = g[middle].0;
            let mut out = format_tick(t);
            proof {
                reveal_strlit("-");
            }
            out.append("-");
            let second = format_tick(t);
            out.append(second.as_str());
            proof {
                assert(out@ =~= spec_format_tick(t as int) + seq!['-'] + spec_format_tick(
                    t as int,
                ));
            }
            Some(out)
        } else {
            None
        }
    } else {
        let start = middle - range / 2;
        let end_wide = start as u128 + range as u128;
        let end = if end_wide <= g.len() as u128 {
            (end_wide) as usize
        } else {
            g.len()
        };
        if start < end {
            let s = g[start].0;
            let e = g[end - 1].1;
            let mut out = format_tick(s);
            proof {
                reveal_strlit("-");
            }
            out.append("-");
            let second = format_tick(e);
            out.append(second.as_str());
            proof {
                assert(out@ =~= spec_format_tick(s as int) + seq!['-'] + spec_format_tick(
                    e as int,
                ));
            }
            Some(out)
        } else {
            None
        }
    }
}

/// The selection string of one recording, by posture class: one window
/// over the whole list for class `2`, two half-wise windows joined by a
/// space for class `1`, the empty string otherwise. Nothing comes out
/// when a needed window is empty.
pub open spec fn spec_split_selection(
    g: Seq<(i64, i64)>,
    posture: Seq<char>,
    percent: int,
) -> Option<Seq<char>> {
    if posture == "2"@ {
        spec_select_token(g, g.len() as int, g.len() as int / 2, percent)
    } else if posture == "1"@ {
        let half = g.len() as int / 2;
        let adj: int = if g.len() % 2 == 0 {
            1
        } else {
            0
        };
        match (
            spec_select_token(g, half, half / 2, percent),
            spec_select_token(g, half, half + adj + half / 2, percent),
        ) {
            (Some(a), Some(b)) => Some(a + seq![' '] + b),
            _ => None,
        }
    } else {
        Some(Seq::empty())
    }
}

/// A window token never contains a space: it is two rendered tick
/// values joined by a dash.
pub proof fn lemma_select_token_no_space(g: Seq<(i64, i64)>, length: int, middle: int, percent: int)
    ensures
        match spec_select_token(g, length, middle, percent) {
            Some(s) => forall|k: int| 0 <= k < s.len() ==> #[trigger] s[k] != ' ',
            None => true,
        },
{
    assert(' ' as u32 == 32);
    assert('-' as u32 == 45);
    match spec_select_token(g, length, middle, percent) {
        Some(s) => {
            let range = spec_range_len(length, percent);
            let (lo, hi) = if range == 0 {
                (g[middle].0 as int, g[middle].0 as int)
            } else {
                let start = middle - range / 2;
                let end = if start + range <= g.len() {
                    start + range
                } else {
                    g.len() as int
                };
                (g[start].0 as int, g[end - 1].1 as int)
            };
            let a = crate::ticks::spec_format_tick(lo);
            let b = crate::ticks::spec_format_tick(hi);
            crate::ticks::lemma_format_tick_no_space(lo);
            crate::ticks::lemma_format_tick_no_space(hi);
            assert(s == a + seq!['-'] + b);
            assert forall|k: int| 0 <= k < s.len() implies #[trigger] s[k] != ' ' by {
                if k < a.len() {
                    assert(s[k] == a[k]);
                } else if k == a.len() {
                    assert(s[k] == '-');
                } else {
                    assert(s[k] == b[k - a.len() - 1]);
                }
            }
        },
        None => {},
    }
}

/// Selection shape: a treadmill selection (posture `1`) holds exactly
/// one space, the one joining its two window tokens; an overground
/// selection (posture `2`) holds none.
pub proof fn lemma_selection_space_count(g: Seq<(i64, i64)>, percent: int)
    ensures
        match spec_split_selection(g, "1"@, percent) {
            Some(s) => crate::strutil::spec_count_char(s, ' ') == 1,
            None => true,
        },
        match spec_split_selection(g, "2"@, percent) {
            Some(s) => crate::strutil::spec_count_char(s, ' ') == 0,
            None => true,
        },
{
    reveal_strlit("1");
    reveal_strlit("2");
    assert("1"@ != "2"@) by {
        assert("1"@[0] != "2"@[0]);
    }
    let half = g.len() as int / 2;
    let adj: int = if g.len() % 2 == 0 {
        1
    } else {
        0
    };
    lemma_select_token_no_space(g, half, half / 2, percent);
    lemma_select_token_no_space(g, half, half + adj + half / 2, percent);
    lemma_select_token_no_space(g, g.len() as int, g.len() as int / 2, percent);
    match spec_split_selection(g, "1"@, percent) {
        Some(s) => {
            match (
                spec_select_token(g, half, half / 2, percent),
                spec_select_token(g, half, half + adj + half / 2, percent),
            ) {
                (Some(a), Some(b)) => {
                    assert(s == a + seq![' '] + b);
                    crate::strutil::lemma_count_char_zero(a, ' ');
                    crate::strutil::lemma_count_char_zero(b, ' ');
                    crate::strutil::lemma_count_char_concat(a + seq![' '], b, ' ');
                    crate::strutil::lemma_count_char_concat(a, seq![' '], ' ');
                    assert(crate::strutil::spec_count_char(seq![' '], ' ') == 1) by {
                        assert(seq![' '][0] == ' ');
                        assert(seq![' '].skip(1) =~= Seq::<char>::empty());
                        assert(crate::strutil::spec_count_char(Seq::<char>::empty(), ' ') == 0);
                    }
                },
                _ => {
                    assert(false);
                },
            }
        },
        None => {},
    }
    match spec_split_selection(g, "2"@, percent) {
        Some(s) => {
            crate::strutil::lemma_count_char_zero(s, ' ');
        },
        None => {},
    }
}

/// Builds the selection string of one recording, per
/// [`spec_split_selection`].
pub fn split_selection(g: &Vec<(i64, i64)>, posture: &str, percent: usize) -> (r: Option<String>)
    requires
        percent <= 100,
        spec_valid_intervals(g@),
    ensures
        match r {
            Some(s) => spec_split_selection(g@, posture@, percent as int) == Some(s@),
            None => spec_split_selection(g@, posture@, percent as int) == Option::<Seq<char>>::None,
        },
{
    let len = g.len();
    if crate::strutil::str_eq(posture, "2") {
        proof {
            assert(spec_range_len(len as int, percent as int) <= len) by (nonlinear_arith)
                requires
                    percent <= 100,
                    len as int >= 0,
                    spec_range_len(len as int, percent as int) == (len as int) * (percent as int)
                        / 100,
            ;
        }
        select_token(g, len, len / 2, percent)
    } else if crate::strutil::str_eq(posture, "1") {
        let half = len / 2;
        proof {
            assert(spec_range_len(half as int, percent as int) <= half) by (nonlinear_arith)
                requires
                    percent <= 100,
                    half as int >= 0,
                    spec_range_len(half as int, percent as int) == (half as int) * (percent as int)
                        / 100,
            ;
        }
        let adj: usize = if len % 2 == 0 {
            1
        } else {
            0
        };
        let first = select_token(g, half, half / 2, percent);
        let second = select_token(g, half, half + adj + half / 2, percent);
        match (first, second) {
            (Some(a), Some(b)) => {
                let av = Ghost(a@);
                let mut out = a;
                proof {
                    reveal_strlit(" ");
                }
                out.append(" ");
                out.append(b.as_str());
                proof {
                    assert(out@ =~= av@ + seq![' '] + b@);
                }
                Some(out)
            },
            _ => None,
        }
    } else {
        proof {
            reveal_strlit("1");
            reveal_strlit("2");
        }
        Some(String::new())
    }
}

} // verus!
