use lablink::errors::LinkError;
use lablink::measure::{bits_of_whole, whole_u8_of_bits, Reading};
use lablink::routes::capabilities::folders::{
    find_office_printer, folder_action, folder_reply, unknown_mode_reply, FolderAction, FolderOutcome,
};
use lablink::routes::capabilities::page_scaling::PredefinedPageScaling;
use lablink::routes::version_info;
use lablink::text::{decimal_string, has_substring, text_equal};
use lablink::upstream::check_response_status;
use lablink::utils::messages::{ResponseMessage, Severity};

#[test]
fn decimal_of_numbers() {
    assert_eq!(decimal_string(0), "0");
    assert_eq!(decimal_string(7), "7");
    assert_eq!(decimal_string(10), "10");
    assert_eq!(decimal_string(12345), "12345");
    assert_eq!(decimal_string(usize::MAX), usize::MAX.to_string());
}

#[test]
fn text_comparisons() {
    assert!(text_equal("ok", "ok"));
    assert!(!text_equal("ok", "OK"));
    assert!(!text_equal("ok", "oka"));
    assert!(text_equal("", ""));
    assert!(has_substring("HP PageWide Color MFP E77650 PCL-6", "PageWide"));
    assert!(has_substring("abc", ""));
    assert!(!has_substring("ab", "abc"));
    assert!(!has_substring("Brother HL", "HP"));
    assert!(has_substring("àèì", "èì"));
}

#[test]
fn whole_part_matches_rust_cast() {
    let values: [f32; 16] = [
        0.0, -0.0, 0.5, 0.99, 1.0, 11.8, 12.0, 12.9, 255.0, 255.9, 256.0, 1.0e9, -3.0, f32::NAN,
        f32::INFINITY, f32::NEG_INFINITY,
    ];
    for v in values {
        assert_eq!(whole_u8_of_bits(v.to_bits()), v as u8, "value {}", v);
    }
    let mut x: f32 = -2.0;
    while x < 300.0 {
        assert_eq!(whole_u8_of_bits(x.to_bits()), x as u8, "value {}", x);
        x += 0.37;
    }
    assert_eq!(whole_u8_of_bits(f32::MIN_POSITIVE.to_bits()), 0);
    assert_eq!(whole_u8_of_bits(1.0e-45f32.to_bits()), 0);
}

#[test]
fn whole_numbers_round_trip() {
    for d in 0..=255u8 {
        let bits = bits_of_whole(d);
        assert_eq!(bits, (d as f32).to_bits());
        assert_eq!(whole_u8_of_bits(bits), d);
    }
    let r = Reading::whole(12);
    assert_eq!(f32::from_bits(r.bits), 12.0);
    assert_eq!(r.text, "12");
    let z = Reading::zero();
    assert_eq!(z.bits, 0.0f32.to_bits());
    assert_eq!(z.text, 0.0f32.to_string());
}

#[test]
fn message_join_keeps_higher_severity() {
    let a = ResponseMessage::new_info("Trovati 3 risultati su Controls".to_string());
    let b = ResponseMessage::new_error("Impossibile connettersi a Cermac".to_string());
    let j = a.join(b);
    assert_eq!(j.message(), "Trovati 3 risultati su Controls. Impossibile connettersi a Cermac");
    assert_eq!(j.severity(), Severity::Error);
    let w = ResponseMessage::new_warning("w".to_string()).join(ResponseMessage::new_info("i".to_string()));
    assert_eq!(w.severity(), Severity::Warning);
    assert_eq!(w.message(), "w. i");
    let same = ResponseMessage::new("x".to_string(), Severity::Info).join(ResponseMessage::new_info("y".to_string()));
    assert_eq!(same.severity(), Severity::Info);
}

#[test]
fn message_join_is_associative() {
    let mk = |t: &str, s: Severity| ResponseMessage::new(t.to_string(), s);
    let left = mk("a", Severity::Warning).join(mk("b", Severity::Info)).join(mk("c", Severity::Error));
    let right = mk("a", Severity::Warning).join(mk("b", Severity::Info).join(mk("c", Severity::Error)));
    assert_eq!(left.message(), right.message());
    assert_eq!(left.message(), "a. b. c");
    assert_eq!(left.severity(), right.severity());
}

#[test]
fn message_append_in_place() {
    let mut m = ResponseMessage::new_info("uno".to_string());
    m.append(ResponseMessage::new_warning("due".to_string()));
    assert_eq!(m.message(), "uno. due");
    assert_eq!(m.severity(), Severity::Warning);
    assert!(Severity::Info < Severity::Warning && Severity::Warning < Severity::Error);
    assert_eq!(Severity::Warning.max_of(Severity::Info), Severity::Warning);
}

#[test]
fn error_texts_and_responses() {
    let e = LinkError::UpstreamUnreachable("timeout".to_string());
    assert_eq!(e.message(), "upstream unreachable: timeout");
    let (status, code, message) = e.response_parts();
    assert_eq!((status, code, message.as_str()), (502, "upstream_unreachable", "upstream unreachable: timeout"));

    let e = LinkError::UpstreamStatus { status: 404, body: "not here".to_string() };
    assert_eq!(e.message(), "upstream error 404: not here");
    let (status, code, _) = e.response_parts();
    assert_eq!((status, code), (502, "upstream_error"));

    let e = LinkError::ParseError("expected value".to_string());
    assert_eq!(e.message(), "failed to parse upstream response: expected value");
    let (status, code, _) = e.response_parts();
    assert_eq!((status, code), (500, "parse_error"));

    let e = LinkError::Internal("boom".to_string());
    assert_eq!(e.message(), "internal error: boom");
    let (status, code, _) = e.response_parts();
    assert_eq!((status, code), (500, "internal_error"));
}

#[test]
fn transport_failures_are_classified() {
    match LinkError::from_transport_failure(true, Some(500), "t".to_string()) {
        LinkError::UpstreamUnreachable(t) => assert_eq!(t, "t"),
        _ => panic!("expected unreachable"),
    }
    match LinkError::from_transport_failure(false, Some(503), "t".to_string()) {
        LinkError::UpstreamStatus { status, body } => {
            assert_eq!(status, 503);
            assert_eq!(body, "t");
        }
        _ => panic!("expected status"),
    }
    match LinkError::from_transport_failure(false, None, "t".to_string()) {
        LinkError::Internal(t) => assert_eq!(t, "t"),
        _ => panic!("expected internal"),
    }
}

#[test]
fn reqwest_builder_error_is_internal() {
    let client = reqwest::Client::new();
    let err = client.get("not a url at all").build().unwrap_err();
    let text = err.to_string();
    match LinkError::from_reqwest(err) {
        LinkError::Internal(t) => {
            assert_eq!(t, text);
            assert!(t.starts_with("builder error"));
        }
        other => panic!("expected internal, got {}", other.message()),
    }
}

#[test]
fn reqwest_connection_refused_is_unreachable() {
    let rt = tokio::runtime::Builder::new_current_thread().enable_all().build().unwrap();
    let err = rt
        .block_on(async { reqwest::Client::new().get("http://127.0.0.1:1/").send().await })
        .unwrap_err();
    match LinkError::from_reqwest(err) {
        LinkError::UpstreamUnreachable(t) => assert!(!t.is_empty()),
        other => panic!("expected unreachable, got {}", other.message()),
    }
}

#[test]
fn response_status_is_judged() {
    assert!(check_response_status(200, String::new()).is_ok());
    assert!(check_response_status(299, String::new()).is_ok());
    match check_response_status(404, "missing".to_string()) {
        Err(LinkError::UpstreamStatus { status, body }) => {
            assert_eq!(status, 404);
            assert_eq!(body, "missing");
        }
        _ => panic!("expected status error"),
    }
    assert!(check_response_status(199, String::new()).is_err());
    assert!(check_response_status(300, String::new()).is_err());
}

#[test]
fn folder_modes() {
    assert_eq!(folder_action("open"), Some(FolderAction::Open));
    assert_eq!(folder_action("reveal"), Some(FolderAction::Reveal));
    assert_eq!(folder_action("print"), None);
    assert_eq!(folder_action("Open"), None);
    assert_eq!(unknown_mode_reply(), "Unknown mode");
}

#[test]
fn folder_replies() {
    assert_eq!(folder_reply(FolderAction::Open, FolderOutcome::Done), "OK");
    assert_eq!(folder_reply(FolderAction::Reveal, FolderOutcome::Done), "OK");
    assert_eq!(folder_reply(FolderAction::Open, FolderOutcome::IoFailure("disk".to_string())), "IO Error");
    assert_eq!(folder_reply(FolderAction::Reveal, FolderOutcome::IoFailure("disk".to_string())), "disk");
    assert_eq!(folder_reply(FolderAction::Open, FolderOutcome::OtherFailure("no app".to_string())), "no app");
    assert_eq!(folder_reply(FolderAction::Reveal, FolderOutcome::OtherFailure("no app".to_string())), "no app");
}

#[test]
fn office_printer_is_found_by_model() {
    let names = vec![
        "Microsoft Print to PDF".to_string(),
        "HP PageWide Color MFP E77650 (rete)".to_string(),
        "HP PageWide Color MFP E77650".to_string(),
    ];
    assert_eq!(find_office_printer(&names), Some(1));
    let none = vec!["HP LaserJet".to_string()];
    assert_eq!(find_office_printer(&none), None);
    assert_eq!(find_office_printer(&Vec::new()), None);
}

#[test]
fn page_scaling_names() {
    let ns = "http://schemas.microsoft.com/windows/2018/04/printing/printschemakeywords/Ipp";
    assert_eq!(PredefinedPageScaling::from_name(Some(ns), "None"), Some(PredefinedPageScaling::NotSpecified));
    assert_eq!(PredefinedPageScaling::from_name(Some(ns), "Fit"), Some(PredefinedPageScaling::Fit));
    assert_eq!(PredefinedPageScaling::from_name(Some(ns), "Fill"), Some(PredefinedPageScaling::Fill));
    assert_eq!(PredefinedPageScaling::from_name(Some(ns), "Stretch"), None);
    assert_eq!(PredefinedPageScaling::from_name(Some("http://other"), "Fit"), None);
    assert_eq!(PredefinedPageScaling::from_name(None, "Fit"), None);
}

#[test]
fn version_of_the_service() {
    let v = version_info();
    assert_eq!(v.name, "LabLink");
    assert_eq!(v.version, "0.1.0");
}
