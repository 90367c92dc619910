use nba_hub::uploader::{ConvexError, UploadPlan};

#[test]
fn payload_limit_classification() {
    assert!(ConvexError::new(413, String::new()).is_payload_limit());
    assert!(ConvexError::new(500, "Request LIMIT exceeded".to_string()).is_payload_limit());
    assert!(ConvexError::new(400, "payload over the limit".to_string()).is_payload_limit());
    assert!(!ConvexError::new(500, "boom".to_string()).is_payload_limit());
    assert!(!ConvexError::new(200, String::new()).is_payload_limit());
}

#[test]
fn error_message_names_status_and_body() {
    let err = ConvexError::new(500, "boom".to_string());
    assert_eq!(err.message(), "Convex request failed (status 500): boom");
}

#[test]
fn empty_upload_is_a_noop() {
    let plan = UploadPlan::new(0, 200);
    assert!(plan.is_done());
}

#[test]
fn zero_batch_size_is_lifted_to_one() {
    let mut plan = UploadPlan::new(3, 0);
    assert_eq!(plan.window_end() - plan.window_start(), 1);
    plan.on_success();
    plan.on_success();
    plan.on_success();
    assert!(plan.is_done());
}

#[test]
fn non_limit_failure_aborts() {
    let mut plan = UploadPlan::new(10, 4);
    assert!(plan.on_failure(false));
}

#[test]
fn limit_failure_at_batch_one_aborts() {
    let mut plan = UploadPlan::new(10, 1);
    assert!(plan.on_failure(true));
}

#[test]
fn limit_failures_halve_without_advancing() {
    let mut plan = UploadPlan::new(10, 8);
    assert_eq!(plan.window_start(), 0);
    assert_eq!(plan.window_end(), 8);
    assert!(!plan.on_failure(true));
    assert_eq!(plan.window_start(), 0);
    assert_eq!(plan.window_end(), 4);
    assert!(!plan.on_failure(true));
    assert_eq!(plan.window_end(), 2);
    assert!(!plan.on_failure(true));
    assert_eq!(plan.window_end(), 1);
    assert!(plan.on_failure(true));
}

/// A remote that rejects any window of more than 100 items with an HTTP
/// 413; the job must finish with windows summing to the full length, with
/// no window over 100 after the first rejection, and with the batch size
/// never growing.
#[test]
fn adaptive_upload_covers_five_hundred_items() {
    let items: Vec<u64> = (0..500).collect();
    let mut plan = UploadPlan::new(items.len(), 200);
    let mut applied: Vec<(usize, usize)> = Vec::new();
    let mut saw_rejection = false;
    let mut last_window_len = usize::MAX;
    let mut rounds = 0;
    while !plan.is_done() {
        rounds += 1;
        assert!(rounds < 10_000, "the upload does not terminate");
        let start = plan.window_start();
        let end = plan.window_end();
        let window = &items[start..end];
        if window.len() > 100 {
            let err = ConvexError::new(413, "request too large".to_string());
            let abort = plan.on_failure(err.is_payload_limit());
            assert!(!abort, "a payload-limit rejection above batch size one must retry");
            saw_rejection = true;
        } else {
            if saw_rejection {
                assert!(window.len() <= 100);
            }
            // batch size, and so window length, never grows mid-job
            assert!(window.len() <= last_window_len || start + last_window_len > 500);
            last_window_len = window.len();
            applied.push((start, end));
            plan.on_success();
        }
    }
    assert!(saw_rejection);
    // the applied windows cover the input exactly once, in order
    let mut cursor = 0;
    for (start, end) in &applied {
        assert_eq!(*start, cursor);
        assert!(*end > *start);
        cursor = *end;
    }
    assert_eq!(cursor, 500);
    let total: usize = applied.iter().map(|(s, e)| e - s).sum();
    assert_eq!(total, 500);
}

#[test]
fn batch_size_stays_reduced_after_success() {
    // 5 items, batch 4: the remote rejects windows larger than 2 once,
    // and the job keeps the smaller size for the rest of the run
    let mut plan = UploadPlan::new(5, 4);
    assert_eq!(plan.window_end(), 4);
    assert!(!plan.on_failure(true));
    assert_eq!(plan.window_end(), 2);
    plan.on_success();
    assert_eq!(plan.window_start(), 2);
    assert_eq!(plan.window_end(), 4);
    plan.on_success();
    assert_eq!(plan.window_start(), 4);
    assert_eq!(plan.window_end(), 5);
    plan.on_success();
    assert!(plan.is_done());
}
