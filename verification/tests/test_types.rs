use lablink::measure::Reading;
use lablink::routes::test_types::test_acc;
use lablink::routes::test_types::test_carp_lp;
use lablink::utils::messages::{ResponseMessage, Severity};
use lablink::utils::steel_extractor::TractionResult;
use lablink::utils::{MethodInput, MethodOutput};

fn reading(x: f32) -> Reading {
    Reading { bits: x.to_bits(), text: x.to_string() }
}

fn bar(id: &str, diameter: f32, ty: u8, timestamp: i64) -> TractionResult {
    TractionResult {
        id: id.to_string(),
        diameter: reading(diameter),
        side_a: 10.25f32.to_bits(),
        side_b: 30.5f32.to_bits(),
        profile: Some("L".to_string()),
        quality: None,
        mass: 0.9f32.to_bits(),
        length: 600.0f32.to_bits(),
        fy: 500.0f32.to_bits(),
        ft: 610.0f32.to_bits(),
        f02: true,
        ty,
        timestamp,
        machine: "Controls".to_string(),
    }
}

fn sample(diam: f32, n: Option<f32>, c: Option<&str>) -> test_acc::Sample {
    test_acc::Sample {
        n: n.map(reading),
        c: c.map(|s| s.to_string()),
        diam: reading(diam),
        mass: None,
        length: None,
        fy: None,
        f02: false,
        ft: None,
        lu: Some(14.0f32.to_bits()),
        pieg: Some("ok".to_string()),
    }
}

fn group(samples: Vec<test_acc::Sample>) -> test_acc::Group {
    test_acc::Group {
        sn: Some(7),
        date: Some("2024-01-01".to_string()),
        samples,
        steelworks: Some(3),
        format: Some("barre".to_string()),
        machine: None,
    }
}

fn acc_minute() -> test_acc::Minute {
    test_acc::Minute {
        macchina: None,
        groups: vec![
            group(vec![sample(12.0, Some(1.0), Some("B450C")), sample(12.0, Some(2.0), None)]),
            group(vec![sample(16.0, None, Some("B450C")), sample(12.0, Some(3.0), Some("B450A"))]),
        ],
    }
}

#[test]
fn acc_counts_and_labels() {
    let m = acc_minute();
    assert_eq!(m.count_bars(), 4);
    assert_eq!(
        m.get_traction_labels(),
        vec!["Ø12/1 B450C", "Ø12/2 ?", "Ø16/0 B450C", "Ø12/3 B450A"]
    );
}

#[test]
fn acc_diameters_are_numbered() {
    let m = acc_minute();
    assert_eq!(m.get_numbered_diameters(), vec![(12, 1), (12, 2), (16, 1), (12, 3)]);
    let thin = test_acc::Minute { macchina: None, groups: vec![group(vec![sample(11.9, None, None)])] };
    assert_eq!(thin.get_numbered_diameters(), vec![(11, 1)]);
}

#[test]
fn acc_sort_is_stable_by_time() {
    let sorted = test_acc::sort_by_timestamp(vec![
        bar("c", 12.0, 0, 30),
        bar("a", 12.0, 0, 10),
        bar("b1", 12.0, 0, 20),
        bar("b2", 12.0, 0, 20),
        bar("z", 12.0, 0, -5),
    ]);
    let ids: Vec<&str> = sorted.iter().map(|r| r.id.as_str()).collect();
    assert_eq!(ids, vec!["z", "a", "b1", "b2", "c"]);
}

fn ids(rows: &[Option<TractionResult>]) -> Vec<String> {
    rows.iter().map(|r| r.as_ref().map(|b| b.id.clone()).unwrap_or_else(|| "-".to_string())).collect()
}

#[test]
fn acc_bars_follow_the_minute() {
    let m = acc_minute();
    let results = vec![
        bar("r16", 16.0, 0, 3),
        bar("r12b", 12.4, 0, 2),
        bar("r12a", 12.0, 0, 1),
        bar("prof", 12.0, 1, 0),
    ];
    let d = test_acc::results_dialog(&m, results, ResponseMessage::new_info("Trovati 4 risultati su Controls".to_string()));
    assert_eq!(ids(&d.rows), vec!["r12a", "r12b", "r16", "-"]);
    assert_eq!(
        d.message.message(),
        "Trovati 4 risultati su Controls. La barra 12/3 non è stata trovata"
    );
    assert_eq!(d.message.severity(), Severity::Warning);
    assert_eq!(d.labels.unwrap(), vec!["Ø12/1 B450C", "Ø12/2 ?", "Ø16/0 B450C", "Ø12/3 B450A"]);
    assert_eq!(d.column_names.len(), 9);
    assert_eq!(d.column_names[1], ("diameter", "Diametro"));
}

#[test]
fn acc_thinner_bar_is_taken_with_a_warning() {
    let m = test_acc::Minute { macchina: None, groups: vec![group(vec![sample(12.0, None, None)])] };
    let results = vec![bar("thin", 11.8, 0, 1)];
    let d = test_acc::results_dialog(&m, results, ResponseMessage::new_info("ok".to_string()));
    let row = d.rows[0].as_ref().unwrap();
    assert_eq!(row.id, "thin");
    assert_eq!(f32::from_bits(row.diameter.bits), 12.0);
    assert_eq!(row.diameter.text, "12");
    assert_eq!(d.message.message(), "ok. La barra 12/1 è stata trovata (forse), ma con diametro 11.8");
    assert_eq!(d.message.severity(), Severity::Warning);
}

#[test]
fn acc_leftover_bars_come_last() {
    let m = test_acc::Minute { macchina: None, groups: vec![group(vec![sample(16.0, None, None)])] };
    let results = vec![bar("x", 10.0, 0, 2), bar("y", 16.3, 0, 1), bar("w", 20.0, 0, 3)];
    let d = test_acc::results_dialog(&m, results, ResponseMessage::new_info("ok".to_string()));
    assert_eq!(ids(&d.rows), vec!["y", "x", "w"]);
    assert_eq!(
        d.message.message(),
        "ok. Ci sono 2 barre non associate a quelle nella minuta; le troverai in fondo, con etichetta ---"
    );
    assert_eq!(d.message.severity(), Severity::Error);
    assert_eq!(d.labels.unwrap(), vec!["Ø16/0 ?", "---", "---"]);
}

#[test]
fn acc_no_bars_found() {
    let m = acc_minute();
    let d = test_acc::results_dialog(&m, vec![bar("p", 12.0, 1, 1)], ResponseMessage::new_info("ok".to_string()));
    assert_eq!(ids(&d.rows), vec!["-", "-", "-", "-"]);
    assert_eq!(d.message.message(), "ok. Non è stata trovata nessuna barra tra i risultati");
    assert_eq!(d.message.severity(), Severity::Error);
}

#[test]
fn acc_minute_is_filled_from_rows() {
    let m = acc_minute();
    let rows = vec![Some(bar("a", 12.0, 0, 1431648000)), None, None, Some(bar("d", 12.0, 0, 1431648000))];
    let filled = test_acc::complete_minute(&m, rows);
    assert_eq!(filled.macchina, Some("Controls".to_string()));
    let g0 = &filled.groups[0];
    // The empty row of the lot counts in the average: half the timestamp.
    assert_eq!(g0.date, Some("1992-09-07".to_string()));
    assert_eq!(g0.machine, Some("Controls".to_string()));
    assert_eq!(g0.sn, Some(7));
    assert_eq!(g0.format, Some("barre".to_string()));
    let s0 = &g0.samples[0];
    assert_eq!(s0.ft, Some(610.0f32.to_bits()));
    assert_eq!(s0.fy, Some(500.0f32.to_bits()));
    assert_eq!(s0.mass, Some(0.9f32.to_bits()));
    assert_eq!(s0.length, Some(600.0f32.to_bits()));
    assert!(s0.f02);
    assert_eq!(s0.lu, Some(14.0f32.to_bits()));
    assert_eq!(s0.pieg, Some("ok".to_string()));
    assert_eq!(s0.diam.bits, 0);
    assert!(s0.n.is_none() && s0.c.is_none());
    let s1 = &g0.samples[1];
    assert_eq!(s1.diam.text, "12");
    assert_eq!(s1.c, None);
    assert!(s1.n.is_some());
    let g1 = &filled.groups[1];
    assert_eq!(g1.date, Some("1992-09-07".to_string()));
    assert_eq!(g1.samples[0].c, Some("B450C".to_string()));
    assert_eq!(g1.samples[1].ft, Some(610.0f32.to_bits()));
}

#[test]
fn acc_callback_fits_rows_to_the_minute() {
    let m = acc_minute();
    // Too many rows: the extra ones are dropped.
    let rows = vec![None, None, None, None, Some(bar("extra", 12.0, 0, 5))];
    let filled = test_acc::complete_minute(&m, rows);
    assert_eq!(filled.macchina, None);
    assert_eq!(filled.groups[0].date, Some("2024-01-01".to_string()));
    // Too few rows: the missing ones are empty.
    let filled = test_acc::complete_minute(&m, vec![Some(bar("a", 12.0, 0, 86400))]);
    assert_eq!(filled.groups[0].date, Some("1970-01-01".to_string()));
    assert_eq!(filled.groups[1].date, Some("2024-01-01".to_string()));
    assert_eq!(filled.groups[1].machine, None);
}

#[test]
fn acc_methods() {
    let list = test_acc::method_list();
    assert_eq!(list.name(), "ACC.TP");
    let methods = list.methods();
    assert_eq!(methods.len(), 1);
    assert_eq!(methods[0].path(), "get");
    assert_eq!(methods[0].name(), "Leggi i dati dalla macchina");
    assert_eq!(methods[0].input(), Some(MethodInput::RequestIdAndTestData));
    match methods[0].output() {
        Some(MethodOutput::NewTestDataAfterSelection { callback }) => assert_eq!(callback, "get/callback"),
        None => panic!("expected an output"),
    }
}

fn test(m: f32) -> test_carp_lp::TractionTest {
    test_carp_lp::TractionTest {
        massa: Some(m.to_bits()),
        l: Some(100.0f32.to_bits()),
        s: None,
        b: None,
        f02: false,
        fy: None,
        ft: None,
        lu: Some(1.0f32.to_bits()),
    }
}

fn carp_minute() -> test_carp_lp::Minute {
    test_carp_lp::Minute {
        samples: vec![
            test_carp_lp::Sample {
                data_tr: None,
                bda: Some("x".to_string()),
                rid: true,
                tr: vec![test(1.0), test(2.0)],
                set_res: serde_json::Value::Null,
                res: serde_json::Value::Bool(true),
            },
            test_carp_lp::Sample {
                data_tr: Some("2020-02-02".to_string()),
                bda: None,
                rid: false,
                tr: vec![test(3.0)],
                set_res: serde_json::Value::String("keep".to_string()),
                res: serde_json::Value::Null,
            },
        ],
    }
}

#[test]
fn carp_counts_tractions() {
    assert_eq!(carp_minute().count_tractions(), 3);
    assert_eq!(test_carp_lp::Minute { samples: vec![] }.count_tractions(), 0);
}

#[test]
fn carp_dialog_pads_with_spacers() {
    let m = carp_minute();
    let results = vec![bar("a", 0.0, 1, 1), bar("rebar", 12.0, 0, 2), bar("b", 0.0, 1, 3)];
    let d = test_carp_lp::results_dialog(&m, results, ResponseMessage::new_info("ok".to_string()));
    assert_eq!(ids(&d.rows), vec!["a", "b", "-"]);
    assert_eq!(
        d.message.message(),
        "ok. Sono state trovate 2 trazioni, ma ne servirebbero almeno 3. Sono stati inseriti 1 spaziatori alla fine"
    );
    assert!(d.labels.is_none());
    assert_eq!(d.column_names.len(), 10);
    assert_eq!(d.column_names[2], ("quality", "Qualità"));
}

#[test]
fn carp_minute_is_filled_from_rows() {
    let m = carp_minute();
    let rows = vec![None, Some(bar("a", 0.0, 1, 1431648000)), Some(bar("b", 0.0, 1, 1431648000))];
    let filled = test_carp_lp::complete_minute(m, rows);
    let s0 = &filled.samples[0];
    assert_eq!(s0.data_tr, Some("1992-09-07".to_string()));
    assert_eq!(s0.tr[0], test(1.0));
    assert_eq!(s0.tr[1].s, Some(10.25f32.to_bits()));
    assert_eq!(s0.tr[1].b, Some(30.5f32.to_bits()));
    assert_eq!(s0.tr[1].fy, Some(500.0f32.to_bits()));
    assert_eq!(s0.tr[1].ft, Some(610.0f32.to_bits()));
    assert!(s0.tr[1].f02);
    assert_eq!(s0.tr[1].massa, Some(2.0f32.to_bits()));
    assert_eq!(s0.bda, Some("x".to_string()));
    assert!(s0.rid);
    assert_eq!(s0.res, serde_json::Value::Bool(true));
    let s1 = &filled.samples[1];
    assert_eq!(s1.data_tr, Some("2015-05-15".to_string()));
    assert_eq!(s1.set_res, serde_json::Value::String("keep".to_string()));
    assert_eq!(s1.tr[0].s, Some(10.25f32.to_bits()));
}

#[test]
fn carp_callback_keeps_tests_without_rows() {
    let filled = test_carp_lp::complete_minute(carp_minute(), vec![]);
    assert_eq!(filled.samples[0].data_tr, None);
    assert_eq!(filled.samples[1].data_tr, Some("2020-02-02".to_string()));
    assert_eq!(filled.samples[0].tr, vec![test(1.0), test(2.0)]);
}

#[test]
fn carp_methods() {
    let list = test_carp_lp::method_list();
    assert_eq!(list.name(), "CARP.LP");
    assert_eq!(list.methods()[0].path(), "get");
}

#[test]
fn acc_offered_rows_fill_the_bars() {
    let m = test_acc::Minute { macchina: None, groups: vec![group(vec![sample(12.0, None, None), sample(16.0, None, None)])] };
    let mut first = bar("first", 16.0, 0, 10);
    first.ft = 700.0f32.to_bits();
    let mut second = bar("second", 12.0, 0, 20);
    second.ft = 650.0f32.to_bits();
    let extra = bar("extra", 12.0, 0, 30);
    let d = test_acc::results_dialog(&m, vec![extra, second, first], ResponseMessage::new_info("ok".to_string()));
    assert_eq!(ids(&d.rows), vec!["second", "first", "extra"]);
    let filled = test_acc::complete_minute(&m, d.rows);
    let samples = &filled.groups[0].samples;
    assert_eq!(samples.len(), 2);
    assert_eq!(samples[0].ft, Some(650.0f32.to_bits()));
    assert_eq!(samples[1].ft, Some(700.0f32.to_bits()));
    assert_eq!(filled.groups[0].machine, Some("Controls".to_string()));
}
