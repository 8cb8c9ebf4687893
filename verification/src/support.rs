//! Foot-contact decoding and support-phase classification.
//!
//! The appliance writes an integer contact code per foot and sample; the
//! sentinel `1000` means "foot on ground". From the two boolean contact
//! channels the classifier derives the double-support and single-support
//! channels used by the rest of the pipeline.

use vstd::prelude::*;

use crate::errors::AnalysisError;
use crate::header::spec_index_of;
use crate::table::{spec_col_names, spec_data_eq, ColData, Column, Table};

verus! {

/// Contact code meaning "foot on ground this sample".
pub const ON_GROUND: i64 = 1000;

/// Raw column name of the left foot-contact channel.
pub fn lt_contact() -> (r: &'static str)
    ensures
        r@ == "Noraxon MyoMotion-Segments-Foot LT-Contact"@,
{
    "Noraxon MyoMotion-Segments-Foot LT-Contact"
}

/// Raw column name of the right foot-contact channel.
pub fn rt_contact() -> (r: &'static str)
    ensures
        r@ == "Noraxon MyoMotion-Segments-Foot RT-Contact"@,
{
    "Noraxon MyoMotion-Segments-Foot RT-Contact"
}

/// Column name of the double-support channel.
pub fn db_sup() -> (r: &'static str)
    ensures
        r@ == "double_support"@,
{
    "double_support"
}

/// Column name of the single-support channel.
pub fn sg_sup() -> (r: &'static str)
    ensures
        r@ == "single_support"@,
{
    "single_support"
}

/// Column name of the left single-support channel.
pub fn l_sg_sup() -> (r: &'static str)
    ensures
        r@ == "LT_single_support"@,
{
    "LT_single_support"
}

/// Column name of the right single-support channel.
pub fn r_sg_sup() -> (r: &'static str)
    ensures
        r@ == "RT_single_support"@,
{
    "RT_single_support"
}

/// On-ground truth of one raw contact code.
pub open spec fn spec_on_ground(code: i64) -> bool {
    code == 1000
}

/// Decodes an integer contact channel into its boolean on-ground channel.
/// Exactly the sentinel `1000` maps to `true`; every other value, `999`
/// and `1001` included, maps to `false`.
pub fn decode_contact(raw: &Vec<i64>) -> (r: Vec<bool>)
    ensures
        r@.len() == raw@.len(),
        forall|i: int| 0 <= i < raw@.len() ==> r@[i] == spec_on_ground(#[trigger] raw@[i]),
{
    let mut out: Vec<bool> = Vec::new();
    let mut i: usize = 0;
    while i < raw.len()
        invariant
            i <= raw@.len(),
            out@.len() == i,
            forall|j: int| 0 <= j < i ==> out@[j] == spec_on_ground(#[trigger] raw@[j]),
        decreases raw@.len() - i,
    {
        out.push(raw[i] == ON_GROUND);
        i = i + 1;
    }
    out
}

/// The four channels derived from the left and right on-ground channels.
pub struct SupportChannels {
    /// Both feet on the ground.
    pub db: Vec<bool>,
    /// Not both feet on the ground.
    pub sg: Vec<bool>,
    /// Left foot on the ground during single support.
    pub lt_sg: Vec<bool>,
    /// Right foot on the ground during single support.
    pub rt_sg: Vec<bool>,
}

impl SupportChannels {
    /// Row-wise definition of the four channels from `lt` and `rt`.
    pub open spec fn wf(&self, lt: Seq<bool>, rt: Seq<bool>) -> bool {
        &&& self.db@.len() == lt.len()
        &&& self.sg@.len() == lt.len()
        &&& self.lt_sg@.len() == lt.len()
        &&& self.rt_sg@.len() == lt.len()
        &&& forall|i: int| 0 <= i < lt.len() ==> #[trigger] self.db@[i] == (lt[i] && rt[i])
        &&& forall|i: int| 0 <= i < lt.len() ==> #[trigger] self.sg@[i] == !(lt[i] && rt[i])
        &&& forall|i: int| 0 <= i < lt.len() ==> #[trigger] self.lt_sg@[i] == (lt[i] && !(lt[i]
            && rt[i]))
        &&& forall|i: int| 0 <= i < lt.len() ==> #[trigger] self.rt_sg@[i] == (rt[i] && !(lt[i]
            && rt[i]))
    }
}

/// Classifies each sample into support phases: `DB = LT && RT`,
/// `SG = !DB`, `LT_SG = LT && SG`, `RT_SG = RT && SG`.
pub fn classify_support(lt: &Vec<bool>, rt: &Vec<bool>) -> (r: SupportChannels)
    requires
        lt@.len() == rt@.len(),
    ensures
        r.wf(lt@, rt@),
{
    let n = lt.len();
    let mut db: Vec<bool> = Vec::new();
    let mut sg: Vec<bool> = Vec::new();
    let mut lt_sg: Vec<bool> = Vec::new();
    let mut rt_sg: Vec<bool> = Vec::new();
    let mut i: usize = 0;
    while i < n
        invariant
            n == lt@.len(),
            lt@.len() == rt@.len(),
            i <= n,
            db@.len() == i,
            sg@.len() == i,
            lt_sg@.len() == i,
            rt_sg@.len() == i,
            forall|j: int| 0 <= j < i ==> #[trigger] db@[j] == (lt@[j] && rt@[j]),
            forall|j: int| 0 <= j < i ==> #[trigger] sg@[j] == !(lt@[j] && rt@[j]),
            forall|j: int| 0 <= j < i ==> #[trigger] lt_sg@[j] == (lt@[j] && !(lt@[j] && rt@[j])),
            forall|j: int| 0 <= j < i ==> #[trigger] rt_sg@[j] == (rt@[j] && !(lt@[j] && rt@[j])),
        decreases n - i,
    {
        let both = lt[i] && rt[i];
        db.push(both);
        sg.push(!both);
        lt_sg.push(lt[i] && !both);
        rt_sg.push(rt[i] && !both);
        i = i + 1;
    }
    SupportChannels { db, sg, lt_sg, rt_sg }
}

/// The decoded channel of an integer contact column.
pub open spec fn spec_decoded(raw: Seq<i64>) -> Seq<bool> {
    raw.map(|_i: int, c: i64| c == 1000)
}

/// Whether `b` is the boolean decoding of the integer column `a`.
pub open spec fn spec_decoded_at(a: ColData, b: ColData) -> bool {
    match (a, b) {
        (ColData::Ints(v), ColData::Bools(bb)) => bb@ == spec_decoded(v@),
        _ => false,
    }
}

/// Replaces the column at `i` by its decoded boolean channel, keeping
/// its name.
fn decode_column_at(t: &mut Table, i: usize) -> (r: Result<(), AnalysisError>)
    requires
        i < old(t).cols@.len(),
    ensures
        final (t).cols@.len() == old(t).cols@.len(),
        forall|k: int|
            0 <= k < old(t).cols@.len() ==> (#[trigger] final (t).cols@[k]).name@
                == old(t).cols@[k].name@,
        forall|k: int|
            0 <= k < old(t).cols@.len() && k != i ==> (#[trigger] final (t).cols@[k])
                == old(t).cols@[k],
        match r {
            Ok(()) => spec_decoded_at(old(t).cols@[i as int].data, final (t).cols@[i as int].data),
            Err(e) => ({
                &&& e == AnalysisError::TypeMismatch
                &&& !(old(t).cols@[i as int].data matches ColData::Ints(_))
                &&& final (t).cols@ == old(t).cols@
            }),
        },
{
    let is_ints = match &t.cols[i].data {
        ColData::Ints(_) => true,
        _ => false,
    };
    if !is_ints {
        return Err(AnalysisError::TypeMismatch);
    }
    let col = t.cols.remove(i);
    let Column { name, data } = col;
    let decoded = match data {
        ColData::Ints(v) => {
            let b = decode_contact(&v);
            proof {
                assert(b@ =~= spec_decoded(v@));
            }
            ColData::Bools(b)
        },
        other => other,
    };
    t.cols.insert(i, Column { name, data: decoded });
    Ok(())
}

/// Collapses the two integer foot-contact columns of a table into
/// boolean on-ground columns, under their own names; other columns are
/// untouched. A missing contact column or one that does not hold
/// integer codes is reported.
pub fn remap_contact(t: Table) -> (r: Result<Table, AnalysisError>)
    ensures
        match r {
            Ok(t2) => {
                &&& t2.cols@.len() == t.cols@.len()
                &&& forall|k: int|
                    0 <= k < t.cols@.len() ==> (#[trigger] t2.cols@[k]).name@ == t.cols@[k].name@
                &&& exists|li: int|
                    #![auto]
                    0 <= li < t.cols@.len() && spec_index_of(
                        spec_col_names(t.cols@),
                        "Noraxon MyoMotion-Segments-Foot LT-Contact"@,
                    ) == Some(li) && spec_decoded_at(t.cols@[li].data, t2.cols@[li].data)
                &&& exists|ri: int|
                    #![auto]
                    0 <= ri < t.cols@.len() && spec_index_of(
                        spec_col_names(t.cols@),
                        "Noraxon MyoMotion-Segments-Foot RT-Contact"@,
                    ) == Some(ri) && spec_decoded_at(t.cols@[ri].data, t2.cols@[ri].data)
                &&& forall|k: int|
                    0 <= k < t.cols@.len() && spec_index_of(
                        spec_col_names(t.cols@),
                        "Noraxon MyoMotion-Segments-Foot LT-Contact"@,
                    ) != Some(k) && spec_index_of(
                        spec_col_names(t.cols@),
                        "Noraxon MyoMotion-Segments-Foot RT-Contact"@,
                    ) != Some(k) ==> #[trigger] t2.cols@[k] == t.cols@[k]
            },
            Err(e) => (e matches AnalysisError::UnknownColumn(n) && spec_index_of(
                spec_col_names(t.cols@),
                n@,
            ) is None) || e == AnalysisError::TypeMismatch,
        },
        (crate::pipeline::spec_ints_col(t.cols@, "Noraxon MyoMotion-Segments-Foot LT-Contact"@)
            is Some && crate::pipeline::spec_ints_col(
            t.cols@,
            "Noraxon MyoMotion-Segments-Foot RT-Contact"@,
        ) is Some) ==> r is Ok,
{
    let mut t = t;
    let li = match t.find_column(lt_contact()) {
        Some(i) => i,
        None => {
            return Err(AnalysisError::UnknownColumn(String::from_str(lt_contact())));
        },
    };
    let names0 = Ghost(spec_col_names(t.cols@));
    match decode_column_at(&mut t, li) {
        Ok(()) => {},
        Err(e) => {
            return Err(e);
        },
    }
    proof {
        assert(spec_col_names(t.cols@) =~= names0@);
    }
    let ri = match t.find_column(rt_contact()) {
        Some(i) => i,
        None => {
            return Err(AnalysisError::UnknownColumn(String::from_str(rt_contact())));
        },
    };
    let mid = Ghost(t.cols@);
    proof {
        assert(li != ri) by {
            crate::header::lemma_index_of_props(
                names0@,
                "Noraxon MyoMotion-Segments-Foot LT-Contact"@,
            );
            crate::header::lemma_index_of_props(
                names0@,
                "Noraxon MyoMotion-Segments-Foot RT-Contact"@,
            );
            reveal_strlit("Noraxon MyoMotion-Segments-Foot LT-Contact");
            reveal_strlit("Noraxon MyoMotion-Segments-Foot RT-Contact");
            assert("Noraxon MyoMotion-Segments-Foot LT-Contact"@[32]
                != "Noraxon MyoMotion-Segments-Foot RT-Contact"@[32]);
        }
    }
    match decode_column_at(&mut t, ri) {
        Ok(()) => {},
        Err(e) => {
            return Err(e);
        },
    }
    proof {
        assert(spec_col_names(t.cols@) =~= names0@);
        assert(mid@[li as int].data matches ColData::Bools(_));
    }
    Ok(t)
}

/// Appends the four support-phase columns, derived from the two boolean
/// contact columns per the support algebra. Contact columns that are
/// missing are reported as unknown; ones not yet boolean, as a type
/// mismatch.
pub fn split_support(t: Table) -> (r: Result<Table, AnalysisError>)
    ensures
        match r {
            Ok(t2) => exists|li: int, ri: int|
                #![auto]
                {
                    &&& 0 <= li < t.cols@.len() && 0 <= ri < t.cols@.len()
                    &&& spec_index_of(
                        spec_col_names(t.cols@),
                        "Noraxon MyoMotion-Segments-Foot LT-Contact"@,
                    ) == Some(li)
                    &&& spec_index_of(
                        spec_col_names(t.cols@),
                        "Noraxon MyoMotion-Segments-Foot RT-Contact"@,
                    ) == Some(ri)
                    &&& t.cols@[li].data matches ColData::Bools(lt)
                    &&& t.cols@[ri].data matches ColData::Bools(rt)
                    &&& t2.cols@.len() == t.cols@.len() + 4
                    &&& forall|k: int| 0 <= k < t.cols@.len() ==> #[trigger] t2.cols@[k]
                        == t.cols@[k]
                    &&& spec_support_cols_at(t2.cols@, t.cols@.len() as int, t.cols@[li].data, t.cols@[ri].data)
                },
            Err(e) => e matches AnalysisError::UnknownColumn(_) || e
                == AnalysisError::TypeMismatch,
        },
        ({
            let lc = crate::pipeline::spec_bools_col(
                t.cols@,
                "Noraxon MyoMotion-Segments-Foot LT-Contact"@,
            );
            let rc = crate::pipeline::spec_bools_col(
                t.cols@,
                "Noraxon MyoMotion-Segments-Foot RT-Contact"@,
            );
            (lc is Some && rc is Some && lc.unwrap().len() == rc.unwrap().len()) ==> r is Ok
        }),
{
    let mut t = t;
    let li = match t.find_column(lt_contact()) {
        Some(i) => i,
        None => {
            return Err(AnalysisError::UnknownColumn(String::from_str(lt_contact())));
        },
    };
    let ri = match t.find_column(rt_contact()) {
        Some(i) => i,
        None => {
            return Err(AnalysisError::UnknownColumn(String::from_str(rt_contact())));
        },
    };
    let lt: Vec<bool> = match &t.cols[li].data {
        ColData::Bools(v) => v.clone(),
        _ => {
            return Err(AnalysisError::TypeMismatch);
        },
    };
    let rt: Vec<bool> = match &t.cols[ri].data {
        ColData::Bools(v) => v.clone(),
        _ => {
            return Err(AnalysisError::TypeMismatch);
        },
    };
    if lt.len() != rt.len() {
        return Err(AnalysisError::TypeMismatch);
    }
    let base = Ghost(t.cols@);
    let ch = classify_support(&lt, &rt);
    t.cols.push(Column { name: String::from_str(db_sup()), data: ColData::Bools(ch.db) });
    t.cols.push(Column { name: String::from_str(sg_sup()), data: ColData::Bools(ch.sg) });
    t.cols.push(Column { name: String::from_str(l_sg_sup()), data: ColData::Bools(ch.lt_sg) });
    t.cols.push(Column { name: String::from_str(r_sg_sup()), data: ColData::Bools(ch.rt_sg) });
    proof {
        assert(t.cols@.len() == base@.len() + 4);
        assert(forall|k: int| 0 <= k < base@.len() ==> #[trigger] t.cols@[k] == base@[k]);
    }
    Ok(t)
}

/// The four support columns appended at `base`: named after the support
/// phases and holding the support algebra of the two contact channels.
pub open spec fn spec_support_cols_at(
    cols: Seq<Column>,
    base: int,
    ltd: ColData,
    rtd: ColData,
) -> bool {
    match (ltd, rtd) {
        (ColData::Bools(lt), ColData::Bools(rt)) => {
            &&& 0 <= base && base + 4 <= cols.len()
            &&& cols[base].name@ == "double_support"@
            &&& cols[base + 1].name@ == "single_support"@
            &&& cols[base + 2].name@ == "LT_single_support"@
            &&& cols[base + 3].name@ == "RT_single_support"@
            &&& lt@.len() == rt@.len()
            &&& cols[base].data matches ColData::Bools(db) && db@.len() == lt@.len() && (forall|
                i: int,
            |
                0 <= i < lt@.len() ==> #[trigger] db@[i] == (lt@[i] && rt@[i]))
            &&& cols[base + 1].data matches ColData::Bools(sg) && sg@.len() == lt@.len() && (forall|
                i: int,
            |
                0 <= i < lt@.len() ==> #[trigger] sg@[i] == !(lt@[i] && rt@[i]))
            &&& cols[base + 2].data matches ColData::Bools(ls) && ls@.len() == lt@.len() && (forall|
                i: int,
            |
                0 <= i < lt@.len() ==> #[trigger] ls@[i] == (lt@[i] && !(lt@[i] && rt@[i])))
            &&& cols[base + 3].data matches ColData::Bools(rs) && rs@.len() == lt@.len() && (forall|
                i: int,
            |
                0 <= i < lt@.len() ==> #[trigger] rs@[i] == (rt@[i] && !(lt@[i] && rt@[i])))
        },
        _ => false,
    }
}

/// Double support and single support are mutually exclusive and jointly
/// exhaustive: at every sample exactly one of `DB`, `SG` holds. Single
/// support on one side also implies that exactly that foot is down.
pub proof fn lemma_support_disjoint(ch: SupportChannels, lt: Seq<bool>, rt: Seq<bool>)
    requires
        ch.wf(lt, rt),
    ensures
        forall|i: int| 0 <= i < lt.len() ==> !(#[trigger] ch.db@[i] && ch.sg@[i]),
        forall|i: int| 0 <= i < lt.len() ==> (#[trigger] ch.db@[i] || ch.sg@[i]),
        forall|i: int| 0 <= i < lt.len() ==> #[trigger] ch.lt_sg@[i] ==> lt[i] && !rt[i],
        forall|i: int| 0 <= i < lt.len() ==> #[trigger] ch.rt_sg@[i] ==> rt[i] && !lt[i],
{
}

} // verus!
