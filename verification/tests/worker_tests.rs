use instocr::worker::{
    recognition_report, unavailable_message, warm_reason_label, RecognitionReport, worker_step, WarmReason, WorkerRequest, WorkerStep, WorkerTask,
};

#[test]
fn language_request_sets_choice_and_may_warm() {
    let step = worker_step(0, WorkerRequest::SetLanguage { index: 3, warm_after: true });
    assert_eq!(
        step,
        WorkerStep { desired_index: 3, set_index: Some(3), task: WorkerTask::Warm(WarmReason::LanguageCycle) }
    );
    let step = worker_step(3, WorkerRequest::SetLanguage { index: 0, warm_after: false });
    assert_eq!(step, WorkerStep { desired_index: 0, set_index: Some(0), task: WorkerTask::Nothing });
}

#[test]
fn other_requests_keep_the_choice() {
    assert_eq!(
        worker_step(2, WorkerRequest::WarmCurrent),
        WorkerStep { desired_index: 2, set_index: None, task: WorkerTask::Warm(WarmReason::Startup) }
    );
    assert_eq!(
        worker_step(2, WorkerRequest::Recognize),
        WorkerStep { desired_index: 2, set_index: None, task: WorkerTask::Recognize }
    );
    assert_eq!(
        worker_step(2, WorkerRequest::Shutdown),
        WorkerStep { desired_index: 2, set_index: None, task: WorkerTask::Stop }
    );
}

#[test]
fn last_language_request_wins() {
    let requests = [
        WorkerRequest::SetLanguage { index: 4, warm_after: true },
        WorkerRequest::Recognize,
        WorkerRequest::SetLanguage { index: 1, warm_after: false },
        WorkerRequest::WarmCurrent,
        WorkerRequest::Recognize,
    ];
    let mut desired = 0;
    for r in requests {
        desired = worker_step(desired, r).desired_index;
    }
    assert_eq!(desired, 1);
}

#[test]
fn worker_messages() {
    assert_eq!(warm_reason_label(WarmReason::LanguageCycle), "language-cycle");
    assert_eq!(warm_reason_label(WarmReason::Startup), "startup");
    assert_eq!(unavailable_message(WorkerTask::Warm(WarmReason::Startup)).unwrap(), "OCR warmup failed");
    assert_eq!(unavailable_message(WorkerTask::Recognize).unwrap(), "OCR worker unavailable");
    assert_eq!(unavailable_message(WorkerTask::Nothing), None);
    assert_eq!(unavailable_message(WorkerTask::Stop), None);
}

#[test]
fn recognition_reports() {
    assert!(matches!(recognition_report(&Ok("hello".to_string())), RecognitionReport::CopyText));
    match recognition_report(&Ok(" \r\n\u{3000}".to_string())) {
        RecognitionReport::Failure(m) => assert_eq!(m, "No text found"),
        other => panic!("{other:?}"),
    }
    match recognition_report(&Err("engine failed".to_string())) {
        RecognitionReport::Failure(m) => assert_eq!(m, "engine failed"),
        other => panic!("{other:?}"),
    }
}
