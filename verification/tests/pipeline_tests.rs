use booktrans::pipeline::{
    primary_prompt, primary_system, refine_prompt, refine_system, SegStatus, ServiceEvent,
    PRIMARY_TEMPERATURE_TENTHS, REFINE_TEMPERATURE_TENTHS, SERVICE_TIMEOUT_SECS,
};
use booktrans::segment::segment_buffer;

/// Drives one segment through the machine against a service that echoes its
/// input, and returns the finalized text, or None when a step failed.
fn run_echo_segment(original: &str, passes: usize) -> Option<String> {
    let mut status = SegStatus::new();
    let mut last_response = original.to_string();
    while status.is_pending() {
        let req = status.next_request(original, "English");
        assert!(req.is_some());
        // The echoing service answers the primary call with the original text
        // and a refinement call with the translation it was handed.
        status = status.step(ServiceEvent::Response(last_response.clone()), passes);
        if let SegStatus::Refining { post, .. } = &status {
            last_response = post.clone();
        }
    }
    status.finished_text()
}

#[test]
fn primary_prompt_is_exact() {
    let p = primary_prompt("English", "Hi");
    assert_eq!(p, "Translate the following text to English:\nHi\nEnglish:");
}

#[test]
fn refine_prompt_is_exact() {
    let p = refine_prompt("English", "Hi", "Hello");
    assert_eq!(
        p,
        "Given the original text, fix the English translated version.\nOriginal: Hi\nTranslated: Hello"
    );
}

#[test]
fn system_instructions_are_exact() {
    assert_eq!(
        primary_system(),
        "You are a professional translator. Don't answer with any notes. Answer only with the translation. Don't add the original. Follow the original style. Don't translate links."
    );
    assert_eq!(
        refine_system(),
        "You are a professional translator. Fix the issues with this translation. Write only the translated sentence with the fixes. If there aren't errors, copy the translated sentence. Don't write anything else. Follow the original style."
    );
}

#[test]
fn sampling_and_timeout_constants() {
    assert_eq!(SERVICE_TIMEOUT_SECS, 20);
    assert_eq!(PRIMARY_TEMPERATURE_TENTHS, 4);
    assert_eq!(REFINE_TEMPERATURE_TENTHS, 1);
}

#[test]
fn echo_service_returns_the_original() {
    assert_eq!(run_echo_segment("Bonjour.", 1), Some("Bonjour.".to_string()));
    assert_eq!(run_echo_segment("Bonjour.", 0), Some("Bonjour.".to_string()));
    assert_eq!(run_echo_segment("Bonjour.", 3), Some("Bonjour.".to_string()));
}

#[test]
fn zero_passes_finalizes_on_the_primary_response() {
    let status = SegStatus::new().step(ServiceEvent::Response("T".to_string()), 0);
    assert!(matches!(&status, SegStatus::Done { post } if post == "T"));
}

#[test]
fn passes_count_down_one_refinement_at_a_time() {
    let status = SegStatus::new().step(ServiceEvent::Response("a".to_string()), 2);
    assert!(matches!(&status, SegStatus::Refining { post, remaining } if post == "a" && *remaining == 2));
    let status = status.step(ServiceEvent::Response("b".to_string()), 2);
    assert!(matches!(&status, SegStatus::Refining { post, remaining } if post == "b" && *remaining == 1));
    let status = status.step(ServiceEvent::Response("c".to_string()), 2);
    assert!(matches!(&status, SegStatus::Done { post } if post == "c"));
}

#[test]
fn timeout_on_primary_is_terminal() {
    let status = SegStatus::new().step(ServiceEvent::Timeout, 1);
    assert!(matches!(status, SegStatus::Failed));
    assert!(!status.is_pending());
    assert!(status.next_request("x", "English").is_none());
}

#[test]
fn service_error_during_refinement_is_terminal() {
    let status = SegStatus::new().step(ServiceEvent::Response("t".to_string()), 1);
    let status = status.step(ServiceEvent::ServiceError, 1);
    assert!(matches!(status, SegStatus::Failed));
    assert_eq!(status.finished_text(), None);
}

#[test]
fn refinement_request_carries_original_and_translation() {
    let status = SegStatus::new().step(ServiceEvent::Response("draft".to_string()), 1);
    let (prompt, system) = status.next_request("source", "German").unwrap();
    assert_eq!(
        prompt,
        "Given the original text, fix the German translated version.\nOriginal: source\nTranslated: draft"
    );
    assert_eq!(system, refine_system());
}

#[test]
fn failure_stops_the_run_after_earlier_segments() {
    // Segments before the failing one are written in order; nothing follows.
    let segments = ["one", "two", "three"];
    let mut written: Vec<String> = Vec::new();
    for (k, seg) in segments.iter().enumerate() {
        let fails = k == 2;
        let mut status = SegStatus::new();
        while status.is_pending() {
            let event = if fails {
                ServiceEvent::Timeout
            } else {
                ServiceEvent::Response(seg.to_string())
            };
            status = status.step(event, 1);
        }
        match status.finished_text() {
            Some(text) => written.push(text),
            None => break,
        }
    }
    assert_eq!(written, vec!["one".to_string(), "two".to_string()]);
}

#[test]
fn example_run_with_echoing_service() {
    // Buffer "Hello.\n\nWorld.\n": the blank middle line is skipped, the
    // denominator is 3, and an echoing service reproduces the two segments.
    let (segs, count) = segment_buffer("Hello.\n\nWorld.\n");
    assert_eq!(count, 3);
    let mut output = String::new();
    for seg in &segs {
        let finalized = run_echo_segment(&seg.text, 1).unwrap();
        output.push_str(&finalized);
        output.push('\n');
    }
    assert_eq!(output, "Hello.\nWorld.\n");
}
