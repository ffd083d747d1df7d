use rust_wc::count::CountStat;
use rust_wc::error::Error;
use rust_wc::report::Report;
use rust_wc::report::Reports;

fn test_error() -> Error {
    Error::Read { path: "test".to_string(), message: "test".to_string() }
}

#[test]
fn report_test_reports_has_error() {
    let reports = Reports {
        data: vec![
            Report { name: "test".to_string(), result: Ok(CountStat::empty()) },
            Report { name: "test".to_string(), result: Ok(CountStat::empty()) },
            Report { name: "test".to_string(), result: Ok(CountStat::empty()) },
        ],
    };
    assert_eq!(reports.has_error(), false);

    let reports = Reports {
        data: vec![
            Report { name: "test".to_string(), result: Ok(CountStat::empty()) },
            Report { name: "test".to_string(), result: Ok(CountStat::empty()) },
            Report { name: "test".to_string(), result: Err(test_error()) },
        ],
    };
    assert_eq!(reports.has_error(), true);
}

#[test]
fn report_test_results_ok() {
    let reports = Reports {
        data: vec![
            Report { name: "test".to_string(), result: Ok(CountStat::empty()) },
            Report { name: "test".to_string(), result: Ok(CountStat::empty()) },
            Report { name: "test".to_string(), result: Err(test_error()) },
        ],
    };
    assert_eq!(reports.results_ok(), vec![CountStat::empty(), CountStat::empty()]);

    // when no ok results
    let reports = Reports {
        data: vec![
            Report { name: "test".to_string(), result: Err(test_error()) },
            Report { name: "test".to_string(), result: Err(test_error()) },
        ],
    };
    assert_eq!(reports.results_ok(), vec![] as Vec<CountStat>);
}

#[test]
fn report_test_field_width() {
    let reports = Reports {
        data: vec![
            Report {
                name: "test".to_string(),
                result: Ok(CountStat { bytes: 1523, ..CountStat::empty() }),
            },
            Report {
                name: "test".to_string(),
                result: Ok(CountStat { bytes: 235238, ..CountStat::empty() }),
            },
            Report {
                name: "test".to_string(),
                result: Ok(CountStat { bytes: 12, ..CountStat::empty() }),
            },
        ],
    };
    assert_eq!(reports.field_width(), 6);

    let reports = Reports {
        data: vec![
            Report {
                name: "test".to_string(),
                result: Ok(CountStat { bytes: 13, ..CountStat::empty() }),
            },
            Report {
                name: "test".to_string(),
                result: Ok(CountStat { bytes: 2, ..CountStat::empty() }),
            },
            Report {
                name: "test".to_string(),
                result: Ok(CountStat { bytes: 2, ..CountStat::empty() }),
            },
        ],
    };
    assert_eq!(reports.field_width(), 2);

    // when only report with 0 bytes
    let reports = Reports {
        data: vec![Report { name: "test".to_string(), result: Ok(CountStat::empty()) }],
    };
    assert_eq!(reports.field_width(), 1);

    // when no reports
    let reports = Reports { data: vec![] };
    assert_eq!(reports.field_width(), 1);
}
