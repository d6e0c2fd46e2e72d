use lablink::errors::LinkError;
use lablink::measure::Reading;
use lablink::routes::test_types::utils::{
    add_traction_spacers, filter_map_tractions, fit_rows, get_avg_timestamp, get_test_machine,
    results_of_type,
};
use lablink::utils::machines::steel_machines;
use lablink::utils::messages::{ResponseMessage, Severity};
use lablink::utils::steel_extractor::{
    connection_ok, controls, join_machine_reads, read_machine_outcome, unreachable_machine,
    TractionResult,
};

fn reading(x: f32) -> Reading {
    Reading { bits: x.to_bits(), text: x.to_string() }
}

fn result(id: &str, diameter: f32, ty: u8, timestamp: i64, machine: &str) -> TractionResult {
    TractionResult {
        id: id.to_string(),
        diameter: reading(diameter),
        side_a: 1.5f32.to_bits(),
        side_b: 2.5f32.to_bits(),
        profile: None,
        quality: Some("B450C".to_string()),
        mass: 0.888f32.to_bits(),
        length: 500.0f32.to_bits(),
        fy: 520.123f32.to_bits(),
        ft: 620.456f32.to_bits(),
        f02: false,
        ty,
        timestamp,
        machine: machine.to_string(),
    }
}

#[test]
fn machines_are_listed_in_order() {
    let m = steel_machines();
    assert_eq!(m.len(), 2);
    assert_eq!(m[0].name, "Controls");
    assert_eq!(m[0].url, "http://192.168.20.250:80");
    assert_eq!(m[1].name, "Cermac");
    assert_eq!(m[1].url, "http://192.168.20.251:80");
    assert_eq!(controls(), "controls");
}

#[test]
fn reads_are_joined_in_order() {
    let reads = vec![
        Ok((vec![result("a", 12.0, 0, 10, "Controls")], ResponseMessage::new_info("Trovati 1 risultati su Controls".to_string()))),
        Ok((vec![result("b", 16.0, 0, 5, "Cermac"), result("c", 8.0, 1, 7, "Cermac")], ResponseMessage::new_error("x".to_string()))),
    ];
    let (rows, message) = match join_machine_reads(reads) {
        Ok(v) => v,
        Err(_) => panic!("expected results"),
    };
    let ids: Vec<&str> = rows.iter().map(|r| r.id.as_str()).collect();
    assert_eq!(ids, vec!["a", "b", "c"]);
    assert_eq!(message.message(), "Trovati 1 risultati su Controls. x");
    assert_eq!(message.severity(), Severity::Error);
}

#[test]
fn first_failed_read_is_the_answer() {
    let reads = vec![
        Ok((vec![result("a", 12.0, 0, 10, "Controls")], ResponseMessage::new_info("ok".to_string()))),
        Err(LinkError::ParseError("first".to_string())),
        Err(LinkError::Internal("second".to_string())),
    ];
    match join_machine_reads(reads) {
        Err(LinkError::ParseError(t)) => assert_eq!(t, "first"),
        _ => panic!("expected the first failure"),
    }
}

#[test]
fn machine_outcomes() {
    let (rows, msg) = unreachable_machine("Cermac");
    assert!(rows.is_empty());
    assert_eq!(msg.message(), "Impossibile connettersi a Cermac, potrebbero mancare dei risultati");
    assert_eq!(msg.severity(), Severity::Error);

    let ok = read_machine_outcome("Controls", Ok(vec![result("a", 12.0, 0, 1, "Controls"), result("b", 12.0, 0, 2, "Controls")]));
    let (rows, msg) = match ok {
        Ok(v) => v,
        Err(_) => panic!("expected results"),
    };
    assert_eq!(rows.len(), 2);
    assert_eq!(msg.message(), "Trovati 2 risultati su Controls");
    assert_eq!(msg.severity(), Severity::Info);

    let none = read_machine_outcome("Cermac", Err(LinkError::UpstreamStatus { status: 404, body: String::new() }));
    let (rows, msg) = match none {
        Ok(v) => v,
        Err(_) => panic!("expected an empty answer"),
    };
    assert!(rows.is_empty());
    assert_eq!(msg.message(), "Nessun risultato trovato su Cermac");
    assert_eq!(msg.severity(), Severity::Info);

    match read_machine_outcome("Cermac", Err(LinkError::UpstreamUnreachable("down".to_string()))) {
        Err(LinkError::UpstreamUnreachable(t)) => assert_eq!(t, "down"),
        _ => panic!("expected the failure to pass"),
    }
}

#[test]
fn health_replies() {
    assert!(connection_ok(&Ok("ok".to_string())));
    assert!(!connection_ok(&Ok("degraded".to_string())));
    assert!(!connection_ok(&Err(LinkError::Internal("x".to_string()))));
}

#[test]
fn tractions_of_one_type_are_kept_in_order() {
    let all = vec![result("a", 12.0, 1, 1, "m"), result("b", 12.0, 0, 2, "m"), result("c", 12.0, 1, 3, "m")];
    let rows = filter_map_tractions(all, 1);
    let ids: Vec<&str> = rows.iter().map(|r| r.as_ref().unwrap().id.as_str()).collect();
    assert_eq!(ids, vec!["a", "c"]);
    let kept = results_of_type(vec![result("a", 12.0, 1, 1, "m"), result("b", 12.0, 0, 2, "m")], 0);
    assert_eq!(kept.len(), 1);
    assert_eq!(kept[0].id, "b");
}

#[test]
fn spacers_for_too_few_tractions() {
    let mut rows: Vec<Option<TractionResult>> = vec![Some(result("a", 12.0, 1, 1, "m"))];
    let mut message = ResponseMessage::new_info("Trovati 1 risultati su Controls".to_string());
    add_traction_spacers(&mut rows, 3, &mut message);
    assert_eq!(rows.len(), 3);
    assert!(rows[0].is_some() && rows[1].is_none() && rows[2].is_none());
    assert_eq!(
        message.message(),
        "Trovati 1 risultati su Controls. Sono state trovate 1 trazioni, ma ne servirebbero almeno 3. Sono stati inseriti 2 spaziatori alla fine"
    );
    assert_eq!(message.severity(), Severity::Warning);
}

#[test]
fn warning_for_too_many_tractions() {
    let mut rows: Vec<Option<u8>> = vec![Some(1), Some(2), Some(3)];
    let mut message = ResponseMessage::new_info("x".to_string());
    add_traction_spacers(&mut rows, 1, &mut message);
    assert_eq!(rows, vec![Some(1), Some(2), Some(3)]);
    assert_eq!(
        message.message(),
        "x. Sono state trovate 3 trazioni, ma puoi selezionarne solo 1. Verifica i dati del materiale prima di procedere, altrimenti le ultime 2 trazioni verranno ignorate"
    );
}

#[test]
fn no_spacers_for_the_right_count() {
    let mut rows: Vec<Option<u8>> = vec![Some(1), None];
    let mut message = ResponseMessage::new_info("x".to_string());
    add_traction_spacers(&mut rows, 2, &mut message);
    assert_eq!(rows, vec![Some(1), None]);
    assert_eq!(message.message(), "x");
    assert_eq!(message.severity(), Severity::Info);
}

#[test]
fn rows_are_fitted() {
    let mut rows: Vec<Option<u8>> = vec![Some(1), Some(2), Some(3)];
    fit_rows(&mut rows, 2);
    assert_eq!(rows, vec![Some(1), Some(2)]);
    let mut rows: Vec<Option<u8>> = vec![Some(1)];
    fit_rows(&mut rows, 3);
    assert_eq!(rows, vec![Some(1), None, None]);
    let mut rows: Vec<Option<u8>> = vec![];
    fit_rows(&mut rows, 0);
    assert!(rows.is_empty());
}

#[test]
fn machine_of_the_first_result() {
    let rows = vec![None, Some(result("a", 12.0, 0, 1, "Cermac")), Some(result("b", 12.0, 0, 1, "Controls"))];
    assert_eq!(get_test_machine(&rows), Some("Cermac".to_string()));
    assert_eq!(get_test_machine(&[None, None]), None);
    assert_eq!(get_test_machine(&[]), None);
}

#[test]
fn average_date_of_a_group() {
    let fallback = Some("2000-01-01".to_string());
    assert_eq!(get_avg_timestamp(&[], &fallback), fallback);
    assert_eq!(get_avg_timestamp(&[None, None], &fallback), fallback);
    assert_eq!(get_avg_timestamp(&[None], &None), None);
    let one = vec![Some(result("a", 12.0, 0, 1431648000, "m"))];
    assert_eq!(get_avg_timestamp(&one, &fallback), Some("2015-05-15".to_string()));
    // The empty rows count in the average.
    let with_gap = vec![Some(result("a", 12.0, 0, 2 * 1431648000, "m")), None];
    assert_eq!(get_avg_timestamp(&with_gap, &None), Some("2015-05-15".to_string()));
    let two = vec![
        Some(result("a", 12.0, 0, 1700000000, "m")),
        Some(result("b", 12.0, 0, 1700086400, "m")),
    ];
    assert_eq!(get_avg_timestamp(&two, &None), Some("2023-11-15".to_string()));
    // An average below one second still names a date.
    let tiny = vec![Some(result("a", 12.0, 0, 1, "m")), None];
    assert_eq!(get_avg_timestamp(&tiny, &None), Some("1970-01-01".to_string()));
    let before_epoch = vec![Some(result("a", 12.0, 0, -86400, "m"))];
    assert_eq!(get_avg_timestamp(&before_epoch, &None), Some("1969-12-31".to_string()));
    let out_of_range = vec![Some(result("a", 12.0, 0, i64::MAX, "m"))];
    assert_eq!(get_avg_timestamp(&out_of_range, &fallback), None);
}
