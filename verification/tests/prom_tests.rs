use region_control::prom::{
    assemble_labels, classify_columns, response_for_failed_query, rows_to_data, ColumnKind,
    PromError, PrometheusJsonResponse, PrometheusResponse, QueryErrorKind, ResultType, SampleRow,
};

fn labels(pairs: &[(&str, &str)]) -> Vec<(String, String)> {
    pairs.iter().map(|(k, v)| (k.to_string(), v.to_string())).collect()
}

#[test]
fn test_classify_columns() {
    let kinds = vec![
        ColumnKind::Utf8,
        ColumnKind::TimestampMillisecond,
        ColumnKind::Other,
        ColumnKind::Float64,
        ColumnKind::Utf8,
        ColumnKind::Float64,
    ];
    let plan = classify_columns(&kinds).unwrap();
    assert_eq!(plan.timestamp_index, 1);
    assert_eq!(plan.value_index, 3);
    assert_eq!(plan.tag_indices, vec![0, 4]);
}

#[test]
fn test_classify_columns_errors() {
    let no_ts = vec![ColumnKind::Utf8, ColumnKind::Float64];
    assert!(matches!(classify_columns(&no_ts), Err(PromError::NoTimestampColumn)));

    let no_value = vec![ColumnKind::Utf8, ColumnKind::TimestampMillisecond];
    assert!(matches!(classify_columns(&no_value), Err(PromError::NoValueColumn)));
}

#[test]
fn test_rows_to_data_matrix_groups_by_labels() {
    let rows = vec![
        SampleRow {
            labels: labels(&[("__name__", "up"), ("host", "a")]),
            timestamp_millis: 1000,
            value: Some("1".to_string()),
        },
        SampleRow {
            labels: labels(&[("__name__", "up"), ("host", "b")]),
            timestamp_millis: 1000,
            value: Some("2".to_string()),
        },
        SampleRow {
            labels: labels(&[("__name__", "up"), ("host", "a")]),
            timestamp_millis: 2000,
            value: Some("3".to_string()),
        },
        // a null value carries no sample
        SampleRow {
            labels: labels(&[("__name__", "up"), ("host", "b")]),
            timestamp_millis: 2000,
            value: None,
        },
    ];
    let data = rows_to_data(ResultType::Matrix, &rows);
    assert_eq!(data.result_type, "matrix");
    assert_eq!(data.result.len(), 2);
    assert_eq!(data.result[0].metric, labels(&[("__name__", "up"), ("host", "a")]));
    assert_eq!(
        data.result[0].values,
        vec![(1000, "1".to_string()), (2000, "3".to_string())]
    );
    assert!(data.result[0].value.is_none());
    assert_eq!(data.result[1].metric, labels(&[("__name__", "up"), ("host", "b")]));
    assert_eq!(data.result[1].values, vec![(1000, "2".to_string())]);
}

#[test]
fn test_rows_to_data_vector_keeps_last_sample() {
    let rows = vec![
        SampleRow {
            labels: labels(&[("__name__", "up")]),
            timestamp_millis: 1000,
            value: Some("1".to_string()),
        },
        SampleRow {
            labels: labels(&[("__name__", "up")]),
            timestamp_millis: 2000,
            value: Some("2".to_string()),
        },
    ];
    let data = rows_to_data(ResultType::Vector, &rows);
    assert_eq!(data.result_type, "vector");
    assert_eq!(data.result.len(), 1);
    assert!(data.result[0].values.is_empty());
    assert_eq!(data.result[0].value, Some((2000, "2".to_string())));
}

#[test]
fn test_response_envelopes() {
    let ok = PrometheusJsonResponse::success(PrometheusResponse::Empty);
    assert_eq!(ok.status, "success");
    assert!(ok.error.is_none());
    assert!(ok.error_type.is_none());

    let err = PrometheusJsonResponse::error("Unexpected".to_string(),
        "expected data result, but got affected rows".to_string());
    assert_eq!(err.status, "error");
    assert_eq!(err.error_type.as_deref(), Some("Unexpected"));
    assert_eq!(err.error.as_deref(), Some("expected data result, but got affected rows"));
}

#[test]
fn test_failed_query_policy() {
    // a missing table or column is reported as an empty success
    let r = response_for_failed_query(
        QueryErrorKind::TableNotFound,
        ResultType::Matrix,
        "TableNotFound".to_string(),
        "table not found".to_string(),
    );
    assert_eq!(r.status, "success");
    match r.data {
        PrometheusResponse::PromData(d) => {
            assert_eq!(d.result_type, "matrix");
            assert!(d.result.is_empty());
        }
        PrometheusResponse::Empty => panic!("expected empty data section"),
    }

    // any other failure surfaces as an error envelope
    let r = response_for_failed_query(
        QueryErrorKind::Other,
        ResultType::Vector,
        "Internal".to_string(),
        "boom".to_string(),
    );
    assert_eq!(r.status, "error");
    assert_eq!(r.error_type.as_deref(), Some("Internal"));
    assert_eq!(r.error.as_deref(), Some("boom"));
}

#[test]
fn test_assemble_labels() {
    let metric = "up".to_string();
    let names = vec!["host".to_string(), "job".to_string(), "zone".to_string()];
    let values = vec![Some("a".to_string()), None, Some("z1".to_string())];
    let out = assemble_labels(&metric, &names, &values);
    // the metric name leads; the null tag contributes nothing
    assert_eq!(
        out,
        labels(&[("__name__", "up"), ("host", "a"), ("zone", "z1")])
    );
}

#[test]
fn test_series_ordered_by_label_vector() {
    // rows arrive with the "b" series first; the response lists the
    // series in label-vector order, "a" first
    let rows = vec![
        SampleRow {
            labels: labels(&[("__name__", "up"), ("host", "b")]),
            timestamp_millis: 1000,
            value: Some("2".to_string()),
        },
        SampleRow {
            labels: labels(&[("__name__", "up"), ("host", "a")]),
            timestamp_millis: 1000,
            value: Some("1".to_string()),
        },
    ];
    let data = rows_to_data(ResultType::Matrix, &rows);
    assert_eq!(data.result.len(), 2);
    assert_eq!(data.result[0].metric, labels(&[("__name__", "up"), ("host", "a")]));
    assert_eq!(data.result[0].values, vec![(1000, "1".to_string())]);
    assert_eq!(data.result[1].metric, labels(&[("__name__", "up"), ("host", "b")]));
    assert_eq!(data.result[1].values, vec![(1000, "2".to_string())]);
}
