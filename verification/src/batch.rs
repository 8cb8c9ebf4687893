//! The batch worker's decision step.
//!
//! A driver walks a directory and feeds one file at a time to
//! [`batch_step`], which decides everything: the progress message, the
//! metadata check, the selection parse, the pipeline run, and the
//! terminal message. The driver only performs the reads and delivers
//! the emitted messages; the observer keeps the latest message only.
//! Cancellation is observed at the top of each file and discards the
//! partial results; a metadata failure aborts with its reason and no
//! result list is published after an abort.

use vstd::prelude::*;

use crate::header::{spec_check_info, spec_info_views, spec_pair_views, spec_parse_selections};
use crate::pipeline::{parse_file, spec_parse_file_ok, RawData};
use crate::table::Table;

verus! {

/// One analysed recording, named by its file.
pub struct DataInfo {
    pub path: String,
    pub raw: RawData,
}

/// What the worker tells the observer. Progress is a count out of a
/// total; the observer keeps only the latest message, and `Abort` and
/// `Done` are terminal.
pub enum Message {
    Nothing,
    Running { done: usize, total: usize, label: String },
    Abort(String),
    Done(Vec<DataInfo>),
}

/// One file handed to the worker: its name, its two metadata rows, and
/// its loaded table.
pub struct FileInput {
    pub name: String,
    pub info: Vec<Vec<String>>,
    pub table: Table,
}

/// The worker's running state: what has been analysed so far and where
/// the walk stands.
pub struct BatchState {
    pub results: Vec<DataInfo>,
    pub index: usize,
    pub total: usize,
}

/// The messages and the stop decision of one worker step.
pub struct StepOutcome {
    pub state: BatchState,
    pub messages: Vec<Message>,
    pub stop: bool,
}

/// What one step must satisfy for a file that was handed in.
pub open spec fn spec_step_file(st: BatchState, f: FileInput, r: StepOutcome) -> bool {
    &&& r.messages@.len() >= 1
    &&& r.messages@[0] matches Message::Running { done, total, label } && done == st.index + 1
        && total == st.total && label@ == f.name@
    &&& match spec_check_info(spec_info_views(f.info@)) {
        Some(reason) => {
            &&& r.stop
            &&& r.messages@.len() == 2
            &&& r.messages@[1] matches Message::Abort(s) && s@ == reason
        },
        None => {
            let sels = spec_parse_selections(f.info@[1]@[11]@);
            &&& r.messages@.len() == 2 ==> (r.stop && r.messages@[1] matches Message::Abort(_))
            &&& r.messages@.len() == 1 ==> ({
                &&& !r.stop
                &&& r.state.results@.len() == st.results@.len() + 1
                &&& forall|m: int|
                    0 <= m < st.results@.len() ==> #[trigger] r.state.results@[m]
                        == st.results@[m]
                &&& r.state.results@[st.results@.len() as int].path@ == f.name@
                &&& exists|sv: Seq<(i64, i64)>|
                    {
                        &&& (match sels {
                            Some(p) => #[trigger] spec_pair_views(sv) == p,
                            None => sv.len() == 0,
                        })
                        &&& spec_parse_file_ok(
                            f.table.cols@,
                            sv,
                            r.state.results@[st.results@.len() as int].raw,
                        )
                    }
                &&& r.state.index == st.index + 1
            })
            &&& (r.messages@.len() == 1 || r.messages@.len() == 2)
        },
    }
}

/// One worker step. With the cancel flag set the step aborts with
/// `Stopped!` and discards the partial results. With no file left it
/// publishes the result list and finishes. Otherwise it publishes
/// progress, rejects a malformed metadata block with its reason, reads
/// the selections from the second metadata row (a malformed selection
/// string counts as no valid time), analyses the file, and either
/// appends the result or aborts with the failure's reason.
pub fn batch_step(st: BatchState, cancelled: bool, file: Option<FileInput>) -> (r: StepOutcome)
    requires
        st.index < usize::MAX,
    ensures
        cancelled ==> ({
            &&& r.stop
            &&& r.messages@.len() == 1
            &&& r.messages@[0] matches Message::Abort(s) && s@ == "Stopped!"@
            &&& r.state.results@.len() == 0
        }),
        (!cancelled && file is None) ==> ({
            &&& r.stop
            &&& r.messages@.len() == 1
            &&& r.messages@[0] matches Message::Done(list) && list@ == st.results@
        }),
        !cancelled ==> (file matches Some(f) ==> spec_step_file(st, f, r)),
        !cancelled ==> (file matches Some(f) ==> ((spec_check_info(spec_info_views(f.info@))
            is None && crate::pipeline::spec_parse_file_ready(f.table.cols@)) ==> (
        r.messages@.len() == 1 && !r.stop))),
{
    if cancelled {
        let mut messages: Vec<Message> = Vec::new();
        messages.push(Message::Abort(String::from_str("Stopped!")));
        let state = BatchState { results: Vec::new(), index: st.index, total: st.total };
        return StepOutcome { state, messages, stop: true };
    }
    match file {
        None => {
            let mut messages: Vec<Message> = Vec::new();
            let BatchState { results, index, total } = st;
            messages.push(Message::Done(results));
            let state = BatchState { results: Vec::new(), index, total };
            StepOutcome { state, messages, stop: true }
        },
        Some(f) => {
            let mut messages: Vec<Message> = Vec::new();
            messages.push(
                Message::Running {
                    done: st.index + 1,
                    total: st.total,
                    label: f.name.clone(),
                },
            );
            match crate::header::check_info(&f.info) {
                Some(reason) => {
                    messages.push(Message::Abort(reason));
                    return StepOutcome { state: st, messages, stop: true };
                },
                None => {},
            }
            let sels: Vec<(i64, i64)> = match crate::header::parse_selections(
                f.info[1][11].as_str(),
            ) {
                Some(v) => v,
                None => Vec::new(),
            };
            let svw = Ghost(sels@);
            match parse_file(&f.table, &sels) {
                Ok(raw) => {
                    let rememberraw = Ghost(raw);
                    let mut results = st.results;
                    results.push(DataInfo { path: f.name, raw });
                    let state = BatchState {
                        results,
                        index: st.index + 1,
                        total: st.total,
                    };
                    let out = StepOutcome { state, messages, stop: false };
                    proof {
                        match spec_parse_selections(f.info@[1]@[11]@) {
                            Some(p) => {
                                assert(spec_pair_views(svw@) == p);
                            },
                            None => {
                                assert(svw@.len() == 0);
                                assert(spec_pair_views(svw@).len() == 0);
                            },
                        }
                        assert(spec_parse_file_ok(
                            f.table.cols@,
                            svw@,
                            out.state.results@[st.results@.len() as int].raw,
                        ));
                    }
                    out
                },
                Err(e) => {
                    messages.push(Message::Abort(e.message()));
                    StepOutcome { state: st, messages, stop: true }
                },
            }
        },
    }
}

} // verus!
