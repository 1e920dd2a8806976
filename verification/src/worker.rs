//! The OCR worker's protocol: the language choice it keeps between requests
//! and the task each request asks of it.
use vstd::prelude::*;

use crate::text::{is_blank, string_from_str, trim};

verus! {

broadcast use vstd::string::group_string_axioms;

/// A request to the OCR worker, without the window and the image it carries.
#[derive(Debug, Clone, Copy, PartialEq, Eq, Structural)]
pub enum WorkerRequest {
    /// Use language choice `index` from now on; warm the recognizer for it
    /// when `warm_after` holds.
    SetLanguage { index: usize, warm_after: bool },
    /// Warm the recognizer for the current choice.
    WarmCurrent,
    /// Recognize the image that came with the request.
    Recognize,
    /// Stop the worker.
    Shutdown,
}

/// Why the recognizer is warmed.
#[derive(Debug, Clone, Copy, PartialEq, Eq, Structural)]
pub enum WarmReason {
    LanguageCycle,
    Startup,
}

/// What the worker does for a request. Every task but `Nothing` and `Stop`
/// first needs a recognizer, made for the worker's language choice where
/// there is none yet.
#[derive(Debug, Clone, Copy, PartialEq, Eq, Structural)]
pub enum WorkerTask {
    Nothing,
    Warm(WarmReason),
    Recognize,
    Stop,
}

/// The outcome of one request: the worker's language choice afterwards, the
/// choice to give a recognizer that exists already, and the task.
#[derive(Debug, Clone, Copy, PartialEq, Eq, Structural)]
pub struct WorkerStep {
    pub desired_index: usize,
    pub set_index: Option<usize>,
    pub task: WorkerTask,
}

/// The outcome of a request to a worker whose language choice is
/// `desired_index`.
pub open spec fn worker_step_spec(desired_index: usize, request: WorkerRequest) -> WorkerStep {
    match request {
        WorkerRequest::SetLanguage { index, warm_after } => WorkerStep {
            desired_index: index,
            set_index: Some(index),
            task: if warm_after {
                WorkerTask::Warm(WarmReason::LanguageCycle)
            } else {
                WorkerTask::Nothing
            },
        },
        WorkerRequest::WarmCurrent => WorkerStep {
            desired_index,
            set_index: None,
            task: WorkerTask::Warm(WarmReason::Startup),
        },
        WorkerRequest::Recognize => WorkerStep {
            desired_index,
            set_index: None,
            task: WorkerTask::Recognize,
        },
        WorkerRequest::Shutdown => WorkerStep {
            desired_index,
            set_index: None,
            task: WorkerTask::Stop,
        },
    }
}

/// Decides what the worker does for one request.
pub fn worker_step(desired_index: usize, request: WorkerRequest) -> (r: WorkerStep)
    ensures
        r == worker_step_spec(desired_index, request),
{
    match request {
        WorkerRequest::SetLanguage { index, warm_after } => WorkerStep {
            desired_index: index,
            set_index: Some(index),
            task: if warm_after {
                WorkerTask::Warm(WarmReason::LanguageCycle)
            } else {
                WorkerTask::Nothing
            },
        },
        WorkerRequest::WarmCurrent => WorkerStep {
            desired_index,
            set_index: None,
            task: WorkerTask::Warm(WarmReason::Startup),
        },
        WorkerRequest::Recognize => WorkerStep {
            desired_index,
            set_index: None,
            task: WorkerTask::Recognize,
        },
        WorkerRequest::Shutdown => WorkerStep { desired_index, set_index: None, task: WorkerTask::Stop },
    }
}

/// The name of a warm-up reason in the worker's log.
pub fn warm_reason_label(reason: WarmReason) -> (r: String)
    ensures
        r@ == match reason {
            WarmReason::LanguageCycle => "language-cycle"@,
            WarmReason::Startup => "startup"@,
        },
{
    match reason {
        WarmReason::LanguageCycle => string_from_str("language-cycle"),
        WarmReason::Startup => string_from_str("startup"),
    }
}

/// What is reported when a task finds no recognizer: a status for a warm-up,
/// a failed result for a recognition.
pub fn unavailable_message(task: WorkerTask) -> (r: Option<String>)
    ensures
        match task {
            WorkerTask::Warm(_) => r matches Some(m) && m@ == "OCR warmup failed"@,
            WorkerTask::Recognize => r matches Some(m) && m@ == "OCR worker unavailable"@,
            _ => r is None,
        },
{
    match task {
        WorkerTask::Warm(_) => Some(string_from_str("OCR warmup failed")),
        WorkerTask::Recognize => Some(string_from_str("OCR worker unavailable")),
        _ => None,
    }
}

/// What the worker reports of a finished recognition.
#[derive(Debug)]
pub enum RecognitionReport {
    /// The text holds more than whitespace: copy it to the clipboard and
    /// report it.
    CopyText,
    /// Report a failure with this message.
    Failure(String),
}

/// What to report of a recognition that gave `outcome`: its text, or the
/// recognizer's error message.
pub fn recognition_report(outcome: &Result<String, String>) -> (r: RecognitionReport)
    ensures
        match outcome {
            Ok(text) => if trim(text@).len() == 0 {
                r matches RecognitionReport::Failure(m) && m@ == "No text found"@
            } else {
                r is CopyText
            },
            Err(e) => r matches RecognitionReport::Failure(m) && m@ == e@,
        },
{
    match outcome {
        Ok(text) => {
            if is_blank(text.as_str()) {
                RecognitionReport::Failure(string_from_str("No text found"))
            } else {
                RecognitionReport::CopyText
            }
        },
        Err(e) => RecognitionReport::Failure(string_from_str(e.as_str())),
    }
}

/// The language choice that the worker's requests leave it with: that of the
/// last language request, or the one it started with.
pub open spec fn desired_after(start: usize, requests: Seq<WorkerRequest>) -> usize
    decreases requests.len(),
{
    if requests.len() == 0 {
        start
    } else {
        worker_step_spec(desired_after(start, requests.drop_last()), requests.last()).desired_index
    }
}

/// After any requests, the worker's language choice is that of the last
/// language request among them, and only language requests change it.
pub proof fn lemma_last_language_request_wins(
    start: usize,
    requests: Seq<WorkerRequest>,
    i: int,
    index: usize,
    warm_after: bool,
)
    requires
        0 <= i < requests.len(),
        requests[i] == (WorkerRequest::SetLanguage { index, warm_after }),
        forall|j: int| i < j < requests.len() ==> !(#[trigger] requests[j] is SetLanguage),
    ensures
        desired_after(start, requests) == index,
    decreases requests.len(),
{
    if i < requests.len() - 1 {
        let init = requests.drop_last();
        assert forall|j: int| i < j < init.len() implies !(#[trigger] init[j] is SetLanguage) by {
            assert(init[j] == requests[j]);
        }
        lemma_last_language_request_wins(start, init, i, index, warm_after);
        assert(!(requests.last() is SetLanguage));
    } else {
        assert(requests.last() == requests[i]);
    }
}

} // verus!
