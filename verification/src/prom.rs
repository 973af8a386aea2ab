//! The Prometheus-compatible response model: explicit schema inspection
//! in place of duck-typed column probing, and the assembly of typed rows
//! into labelled series.  Serialisation to JSON and the HTTP surface live
//! outside the library.

use vstd::prelude::*;

verus! {

/// The value type a PromQL query evaluates to.
#[derive(Clone, Copy, PartialEq, Eq, Structural, Debug)]
pub enum ResultType {
    Vector,
    Scalar,
    Str,
    Matrix,
}

impl ResultType {
    /// The type tag as it appears in the response body.
    pub fn text(&self) -> (r: &'static str)
        ensures
            r@ == spec_result_type_text(*self),
    {
        match self {
            ResultType::Vector => "vector",
            ResultType::Scalar => "scalar",
            ResultType::Str => "string",
            ResultType::Matrix => "matrix",
        }
    }
}

/// The column shapes the encoder discriminates: one millisecond
/// timestamp column, one float value column, string columns as labels;
/// everything else is ignored.
#[derive(Clone, Copy, PartialEq, Eq, Structural, Debug)]
pub enum ColumnKind {
    TimestampMillisecond,
    Float64,
    Utf8,
    Other,
}

/// Why a result set cannot be rendered as Prometheus data.
#[derive(Clone, Copy, PartialEq, Eq, Structural, Debug)]
pub enum PromError {
    NoTimestampColumn,
    NoValueColumn,
}

/// The semantic columns found in a schema: where the timestamp, the
/// value and the labels live.
pub struct ColumnPlan {
    pub timestamp_index: usize,
    pub value_index: usize,
    pub tag_indices: Vec<usize>,
}

/// Finds the semantic columns of a schema: the first millisecond
/// timestamp column, the first float value column, and every string
/// column in order.  Fails exactly when a timestamp or value column is
/// missing.
pub fn classify_columns(kinds: &Vec<ColumnKind>) -> (r: Result<ColumnPlan, PromError>)
    ensures
        match r {
            Ok(plan) => {
                &&& plan.timestamp_index < kinds@.len()
                &&& kinds@[plan.timestamp_index as int] is TimestampMillisecond
                &&& forall|j: int| 0 <= j < plan.timestamp_index
                    ==> !((#[trigger] kinds@[j]) is TimestampMillisecond)
                &&& plan.value_index < kinds@.len()
                &&& kinds@[plan.value_index as int] is Float64
                &&& forall|j: int| 0 <= j < plan.value_index ==> !((#[trigger] kinds@[j]) is Float64)
                &&& forall|a: int, b: int| 0 <= a < b < plan.tag_indices@.len()
                    ==> plan.tag_indices@[a] < plan.tag_indices@[b]
                &&& forall|a: int| 0 <= a < plan.tag_indices@.len()
                    ==> (#[trigger] plan.tag_indices@[a]) < kinds@.len()
                        && kinds@[plan.tag_indices@[a] as int] is Utf8
                &&& forall|j: int| 0 <= j < kinds@.len() && (#[trigger] kinds@[j]) is Utf8
                    ==> exists|a: int| 0 <= a < plan.tag_indices@.len()
                        && plan.tag_indices@[a] == j
            },
            Err(PromError::NoTimestampColumn) =>
                forall|j: int| 0 <= j < kinds@.len() ==> !((#[trigger] kinds@[j]) is TimestampMillisecond),
            Err(PromError::NoValueColumn) =>
                (exists|j: int| 0 <= j < kinds@.len() && (#[trigger] kinds@[j]) is TimestampMillisecond)
                    && forall|j: int| 0 <= j < kinds@.len() ==> !((#[trigger] kinds@[j]) is Float64),
        },
{
    let n = kinds.len();
    let mut timestamp_index: Option<usize> = None;
    let mut value_index: Option<usize> = None;
    let mut tag_indices: Vec<usize> = Vec::new();
    for i in 0..n
        invariant
            n == kinds@.len(),
            match timestamp_index {
                Some(t) => t < i && kinds@[t as int] is TimestampMillisecond
                    && forall|j: int| 0 <= j < t ==> !((#[trigger] kinds@[j]) is TimestampMillisecond),
                None => forall|j: int| 0 <= j < i ==> !((#[trigger] kinds@[j]) is TimestampMillisecond),
            },
            match value_index {
                Some(t) => t < i && kinds@[t as int] is Float64
                    && forall|j: int| 0 <= j < t ==> !((#[trigger] kinds@[j]) is Float64),
                None => forall|j: int| 0 <= j < i ==> !((#[trigger] kinds@[j]) is Float64),
            },
            forall|a: int, b: int| 0 <= a < b < tag_indices@.len()
                ==> tag_indices@[a] < tag_indices@[b],
            forall|a: int| 0 <= a < tag_indices@.len()
                ==> (#[trigger] tag_indices@[a]) < i && kinds@[tag_indices@[a] as int] is Utf8,
            forall|j: int| 0 <= j < i && (#[trigger] kinds@[j]) is Utf8
                ==> exists|a: int| 0 <= a < tag_indices@.len() && tag_indices@[a] == j,
    {
        match kinds[i] {
            ColumnKind::TimestampMillisecond => {
                if timestamp_index.is_none() {
                    timestamp_index = Some(i);
                }
            },
            ColumnKind::Float64 => {
                if value_index.is_none() {
                    value_index = Some(i);
                }
            },
            ColumnKind::Utf8 => {
                let ghost before = tag_indices@;
                tag_indices.push(i);
                proof {
                    assert(tag_indices@[tag_indices@.len() - 1] == i);
                    assert forall|j: int| 0 <= j < i + 1 && (#[trigger] kinds@[j]) is Utf8
                        implies exists|a: int| 0 <= a < tag_indices@.len()
                            && tag_indices@[a] == j by {
                        if j < i {
                            let a = choose|a: int| 0 <= a < before.len() && before[a] == j;
                            assert(tag_indices@[a] == j);
                        } else {
                            assert(tag_indices@[tag_indices@.len() - 1] == j);
                        }
                    }
                }
            },
            ColumnKind::Other => {},
        }
    }
    let timestamp_index = match timestamp_index {
        Some(t) => t,
        None => {
            return Err(PromError::NoTimestampColumn);
        },
    };
    let value_index = match value_index {
        Some(t) => t,
        None => {
            return Err(PromError::NoValueColumn);
        },
    };
    Ok(ColumnPlan { timestamp_index, value_index, tag_indices })
}

/// One extracted row: its labels (the metric name plus the non-null tag
/// values of the row, in column order), its timestamp and its rendered
/// value; a null value column makes the row carry no sample.
pub struct SampleRow {
    pub labels: Vec<(String, String)>,
    pub timestamp_millis: i64,
    pub value: Option<String>,
}

/// One series of the response: a label set and its samples.
pub struct PromSeries {
    pub metric: Vec<(String, String)>,
    pub values: Vec<(i64, String)>,
    pub value: Option<(i64, String)>,
}

/// The data section of a response.
pub struct PromData {
    pub result_type: String,
    pub result: Vec<PromSeries>,
}

/// The response payload; empty for errors and non-data results.
pub enum PrometheusResponse {
    Empty,
    PromData(PromData),
}

impl Default for PrometheusResponse {
    fn default() -> (r: PrometheusResponse)
        ensures
            r is Empty,
    {
        PrometheusResponse::Empty
    }
}

/// The response envelope, as serialised to the client.
pub struct PrometheusJsonResponse {
    pub status: String,
    pub data: PrometheusResponse,
    pub error: Option<String>,
    pub error_type: Option<String>,
    pub warnings: Option<Vec<String>>,
}

impl PrometheusJsonResponse {
    /// An error envelope.
    pub fn error(error_type: String, reason: String) -> (r: PrometheusJsonResponse)
        ensures
            r.status@ == "error"@,
            r.data is Empty,
            r.error == Some(reason),
            r.error_type == Some(error_type),
            r.warnings is None,
    {
        PrometheusJsonResponse {
            status: "error".to_string(),
            data: PrometheusResponse::Empty,
            error: Some(reason),
            error_type: Some(error_type),
            warnings: None,
        }
    }

    /// A success envelope.
    pub fn success(data: PrometheusResponse) -> (r: PrometheusJsonResponse)
        ensures
            r.status@ == "success"@,
            r.data == data,
            r.error is None,
            r.error_type is None,
            r.warnings is None,
    {
        PrometheusJsonResponse {
            status: "success".to_string(),
            data,
            error: None,
            error_type: None,
            warnings: None,
        }
    }
}

/// View of a label list: the pairs as character sequences.
pub open spec fn labels_view(v: Seq<(String, String)>) -> Seq<(Seq<char>, Seq<char>)> {
    v.map_values(|p: (String, String)| (p.0@, p.1@))
}

/// View of a sample list: the pairs with rendered values as character
/// sequences.
pub open spec fn points_view(v: Seq<(i64, String)>) -> Seq<(i64, Seq<char>)> {
    v.map_values(|p: (i64, String)| (p.0, p.1@))
}

pub open spec fn keys_has(keys: Seq<Seq<(Seq<char>, Seq<char>)>>, k: Seq<(Seq<char>, Seq<char>)>) -> bool {
    exists|i: int| 0 <= i < keys.len() && keys[i] == k
}

/// The distinct label sets of the sampled rows, in first-appearance
/// order.
pub open spec fn spec_series_keys(rows: Seq<SampleRow>) -> Seq<Seq<(Seq<char>, Seq<char>)>>
    decreases rows.len(),
{
    if rows.len() == 0 {
        Seq::empty()
    } else {
        let prefix = spec_series_keys(rows.drop_last());
        let r = rows.last();
        if r.value is Some && !keys_has(prefix, labels_view(r.labels@)) {
            prefix.push(labels_view(r.labels@))
        } else {
            prefix
        }
    }
}

/// The samples of one label set, in row order.
pub open spec fn spec_series_points(rows: Seq<SampleRow>, k: Seq<(Seq<char>, Seq<char>)>)
    -> Seq<(i64, Seq<char>)>
    decreases rows.len(),
{
    if rows.len() == 0 {
        Seq::empty()
    } else {
        let prefix = spec_series_points(rows.drop_last(), k);
        let r = rows.last();
        match r.value {
            Some(v) => if labels_view(r.labels@) == k {
                prefix.push((r.timestamp_millis, v@))
            } else {
                prefix
            },
            None => prefix,
        }
    }
}

} // verus!

verus! {

/// The response-body tag of a result type.
pub open spec fn spec_result_type_text(t: ResultType) -> Seq<char> {
    match t {
        ResultType::Vector => "vector"@,
        ResultType::Scalar => "scalar"@,
        ResultType::Str => "string"@,
        ResultType::Matrix => "matrix"@,
    }
}

/// A view-preserving copy of a label list.
fn copy_labels(a: &Vec<(String, String)>) -> (r: Vec<(String, String)>)
    ensures
        labels_view(r@) == labels_view(a@),
        r@.len() == a@.len(),
{
    let mut r: Vec<(String, String)> = Vec::new();
    let n = a.len();
    for i in 0..n
        invariant
            n == a@.len(),
            r@.len() == i,
            forall|j: int| 0 <= j < i
                ==> (#[trigger] r@[j]).0@ == a@[j].0@ && r@[j].1@ == a@[j].1@,
    {
        r.push((a[i].0.clone(), a[i].1.clone()));
    }
    proof {
        assert(labels_view(r@) =~= labels_view(a@));
    }
    r
}

/// Whether two label lists carry the same labels.
fn labels_equal(a: &Vec<(String, String)>, b: &Vec<(String, String)>) -> (r: bool)
    ensures
        r == (labels_view(a@) == labels_view(b@)),
{
    if a.len() != b.len() {
        proof {
            assert(labels_view(a@).len() != labels_view(b@).len());
        }
        return false;
    }
    let n = a.len();
    for i in 0..n
        invariant
            n == a@.len(),
            n == b@.len(),
            forall|j: int| 0 <= j < i
                ==> (#[trigger] a@[j]).0@ == b@[j].0@ && a@[j].1@ == b@[j].1@,
    {
        if !(a[i].0 == b[i].0) || !(a[i].1 == b[i].1) {
            proof {
                assert(labels_view(a@)[i as int] != labels_view(b@)[i as int]);
            }
            return false;
        }
    }
    proof {
        assert(labels_view(a@) =~= labels_view(b@));
    }
    true
}

/// Assembles extracted rows into Prometheus series: rows are grouped by
/// their label set (series appear in first-appearance order), each
/// group's samples kept in row order; a matrix result keeps the whole
/// sample list per series, every other result type keeps only the last
/// sample.
#[verifier::spinoff_prover]
#[verifier::rlimit(100)]
pub fn rows_to_data(result_type: ResultType, rows: &Vec<SampleRow>) -> (r: PromData)
    ensures
        r.result_type@ == spec_result_type_text(result_type),
        r.result@.len() == spec_series_keys(rows@).len(),
        // every series carries one of the sampled label sets ...
        forall|i: int| 0 <= i < r.result@.len()
            ==> keys_has(spec_series_keys(rows@), labels_view((#[trigger] r.result@[i]).metric@)),
        // ... each of them exactly once ...
        forall|k: Seq<(Seq<char>, Seq<char>)>| #[trigger] keys_has(spec_series_keys(rows@), k)
            ==> exists|i: int| 0 <= i < r.result@.len()
                && labels_view((#[trigger] r.result@[i]).metric@) == k,
        forall|i: int, j: int| 0 <= i < j < r.result@.len()
            ==> labels_view((#[trigger] r.result@[i]).metric@)
                != labels_view((#[trigger] r.result@[j]).metric@),
        // ... in the label-vector order (strict, since the label sets are
        // distinct)
        forall|i: int| 0 <= i < r.result@.len() - 1
            ==> spec_labels_le(labels_view((#[trigger] r.result@[i]).metric@),
                labels_view(r.result@[i + 1].metric@)),
        result_type is Matrix ==> forall|i: int| 0 <= i < r.result@.len()
            ==> (points_view((#[trigger] r.result@[i]).values@)
                    == spec_series_points(rows@, labels_view(r.result@[i].metric@))
                && r.result@[i].value is None),
        !(result_type is Matrix) ==> forall|i: int| 0 <= i < r.result@.len()
            ==> ((#[trigger] r.result@[i]).values@.len() == 0
                && spec_series_points(rows@, labels_view(r.result@[i].metric@)).len() > 0
                && (match r.result@[i].value {
                    Some(p) => (p.0, p.1@)
                        == spec_series_points(rows@, labels_view(r.result@[i].metric@)).last(),
                    None => false,
                })),
{
    let mut out: Vec<PromSeries> = Vec::new();
    let n = rows.len();
    proof {
        assert(rows@.take(0) =~= Seq::empty());
    }
    for i in 0..n
        invariant
            n == rows@.len(),
            out@.len() == spec_series_keys(rows@.take(i as int)).len(),
            forall|a: int| 0 <= a < out@.len()
                ==> labels_view((#[trigger] out@[a]).metric@)
                    == spec_series_keys(rows@.take(i as int))[a],
            forall|a: int, b: int| 0 <= a < b < out@.len()
                ==> labels_view((#[trigger] out@[a]).metric@)
                    != labels_view((#[trigger] out@[b]).metric@),
            forall|a: int| 0 <= a < out@.len()
                ==> points_view((#[trigger] out@[a]).values@)
                    == spec_series_points(rows@.take(i as int),
                        labels_view(out@[a].metric@)),
            forall|a: int| 0 <= a < out@.len() ==> (#[trigger] out@[a]).values@.len() > 0,
            forall|a: int| 0 <= a < out@.len() ==> (#[trigger] out@[a]).value is None,
    {
        let ghost prev_keys = spec_series_keys(rows@.take(i as int));
        proof {
            assert(rows@.take(i + 1).drop_last() =~= rows@.take(i as int));
            assert(rows@.take(i + 1).last() == rows@[i as int]);
        }
        let row = &rows[i];
        match &row.value {
            Some(v) => {
                let ghost key = labels_view(row.labels@);
                let found = find_series(&out, &row.labels);
                match found {
                    Some(a) => {
                        proof {
                            assert(labels_view(out@[a as int].metric@) == key);
                            assert(keys_has(prev_keys, key));
                            assert(spec_series_keys(rows@.take(i + 1)) == prev_keys);
                        }
                        let ghost out0 = out@;
                        let mut s = out.remove(a);
                        let ghost vals0 = s.values@;
                        s.values.push((row.timestamp_millis, v.clone()));
                        let ghost s_g = s;
                        out.insert(a, s);
                        proof {
                            assert(out@ =~= seq_with_slot(out0, a as int, s_g));
                            assert(vals0 == out0[a as int].values@);
                            assert(points_view(vals0)
                                == spec_series_points(rows@.take(i as int), key));
                            assert(s_g.values@.last().1@ == v@);
                            assert(rows@.take(i + 1).last() == rows@[i as int]);
                            assert(spec_series_points(rows@.take(i + 1), key)
                                == spec_series_points(rows@.take(i as int), key).push(
                                    (row.timestamp_millis, v@)));
                            assert forall|j: int| 0 <= j < s_g.values@.len()
                                implies points_view(s_g.values@)[j]
                                    == spec_series_points(rows@.take(i + 1), key)[j] by {
                                if j < vals0.len() {
                                    assert(s_g.values@[j] == vals0[j]);
                                    assert(points_view(s_g.values@)[j] == points_view(vals0)[j]);
                                    assert(spec_series_points(rows@.take(i + 1), key)[j]
                                        == spec_series_points(rows@.take(i as int), key)[j]);
                                } else {
                                    assert(points_view(s_g.values@)[j]
                                        == (s_g.values@.last().0, s_g.values@.last().1@));
                                    assert(spec_series_points(rows@.take(i + 1), key)[j]
                                        == (row.timestamp_millis, v@));
                                }
                            }
                            assert(points_view(s_g.values@)
                                =~= spec_series_points(rows@.take(i + 1), key));
                            assert forall|c: int| 0 <= c < out@.len() && c != a as int
                                implies points_view((#[trigger] out@[c]).values@)
                                    == spec_series_points(rows@.take(i + 1),
                                        labels_view(out@[c].metric@)) by {
                                assert(out@[c] == out0[c]);
                                assert(labels_view(out@[c].metric@) != key);
                                assert(spec_series_points(rows@.take(i + 1),
                                    labels_view(out@[c].metric@))
                                    == spec_series_points(rows@.take(i as int),
                                        labels_view(out@[c].metric@)));
                            }
                        }
                    },
                    None => {
                        proof {
                            if keys_has(prev_keys, key) {
                                let b = choose|b: int|
                                    0 <= b < prev_keys.len() && prev_keys[b] == key;
                                assert(labels_view(out@[b].metric@) == key);
                            }
                            assert(spec_series_keys(rows@.take(i + 1))
                                == prev_keys.push(key));
                        }
                        let metric = copy_labels(&row.labels);
                        let mut values: Vec<(i64, String)> = Vec::new();
                        values.push((row.timestamp_millis, v.clone()));
                        let s = PromSeries { metric, values, value: None };
                        let ghost s_g = s;
                        out.push(s);
                        proof {
                            assert(out@.last() == s_g);
                            lemma_points_empty_without_key(rows@.take(i as int), key);
                            assert(rows@.take(i + 1).last() == rows@[i as int]);
                            assert(spec_series_points(rows@.take(i + 1), key)
                                == spec_series_points(rows@.take(i as int), key).push(
                                    (row.timestamp_millis, v@)));
                            assert(s_g.values@.len() == 1);
                            assert(points_view(s_g.values@)[0]
                                == (s_g.values@[0].0, s_g.values@[0].1@));
                            assert(points_view(s_g.values@)
                                =~= spec_series_points(rows@.take(i + 1), key));
                            assert forall|c: int| 0 <= c < out@.len() - 1
                                implies points_view((#[trigger] out@[c]).values@)
                                    == spec_series_points(rows@.take(i + 1),
                                        labels_view(out@[c].metric@)) by {
                                assert(out@[c] == out@.drop_last()[c]);
                                assert(labels_view(out@[c].metric@) != key);
                                assert(spec_series_points(rows@.take(i + 1),
                                    labels_view(out@[c].metric@))
                                    == spec_series_points(rows@.take(i as int),
                                        labels_view(out@[c].metric@)));
                            }
                        }
                    },
                }
            },
            None => {
                proof {
                    assert(spec_series_keys(rows@.take(i + 1)) == prev_keys);
                    assert forall|a: int| 0 <= a < out@.len()
                        implies points_view((#[trigger] out@[a]).values@)
                            == spec_series_points(rows@.take(i + 1),
                                labels_view(out@[a].metric@)) by {
                        assert(spec_series_points(rows@.take(i + 1), labels_view(out@[a].metric@))
                            == spec_series_points(rows@.take(i as int),
                                labels_view(out@[a].metric@)));
                    }
                }
            },
        }
    }
    proof {
        assert(rows@.take(n as int) =~= rows@);
    }
    let ghost keys_g = spec_series_keys(rows@);
    let ghost grouped = out@;
    // order the series by their label vectors, the order responses list
    // them in
    let out = sort_series(out);
    proof {
        assert forall|i: int| 0 <= i < out@.len() implies ({
            &&& keys_has(keys_g, labels_view((#[trigger] out@[i]).metric@))
            &&& points_view(out@[i].values@)
                == spec_series_points(rows@, labels_view(out@[i].metric@))
            &&& out@[i].values@.len() > 0
            &&& out@[i].value is None
        }) by {
            let j = choose|j: int| 0 <= j < grouped.len() && out@[i] == grouped[j];
            assert(labels_view(grouped[j].metric@) == keys_g[j]);
            assert(keys_has(keys_g, keys_g[j]));
        }
        assert forall|k: Seq<(Seq<char>, Seq<char>)>| #[trigger] keys_has(keys_g, k)
            implies exists|i: int| 0 <= i < out@.len()
                && labels_view((#[trigger] out@[i]).metric@) == k by {
            let idx = choose|idx: int| 0 <= idx < keys_g.len() && keys_g[idx] == k;
            assert(labels_view(grouped[idx].metric@) == k);
            let i = choose|i: int| 0 <= i < out@.len() && out@[i] == grouped[idx];
            assert(labels_view(out@[i].metric@) == k);
        }
    }
    let result_type_string = match result_type {
        ResultType::Vector => "vector".to_string(),
        ResultType::Scalar => "scalar".to_string(),
        ResultType::Str => "string".to_string(),
        ResultType::Matrix => "matrix".to_string(),
    };
    if matches!(result_type, ResultType::Matrix) {
        return PromData { result_type: result_type_string, result: out };
    }
    // non-matrix results keep only the last sample of each series
    let mut flat: Vec<PromSeries> = Vec::new();
    let m = out.len();
    for a in 0..m
        invariant
            m == out@.len(),
            out@.len() == keys_g.len(),
            keys_g == spec_series_keys(rows@),
            flat@.len() == a,
            forall|i: int| 0 <= i < out@.len() ==> ({
                &&& keys_has(keys_g, labels_view((#[trigger] out@[i]).metric@))
                &&& points_view(out@[i].values@)
                    == spec_series_points(rows@, labels_view(out@[i].metric@))
                &&& out@[i].values@.len() > 0
            }),
            forall|i: int, j: int| 0 <= i < j < out@.len()
                ==> labels_view((#[trigger] out@[i]).metric@)
                    != labels_view((#[trigger] out@[j]).metric@),
            forall|i: int| 0 <= i < out@.len() - 1
                ==> spec_labels_le(labels_view((#[trigger] out@[i]).metric@),
                    labels_view(out@[i + 1].metric@)),
            forall|k: Seq<(Seq<char>, Seq<char>)>| #[trigger] keys_has(keys_g, k)
                ==> exists|i: int| 0 <= i < out@.len()
                    && labels_view((#[trigger] out@[i]).metric@) == k,
            forall|c: int| 0 <= c < a
                ==> labels_view((#[trigger] flat@[c]).metric@)
                    == labels_view(out@[c].metric@),
            forall|c: int| 0 <= c < a ==> (#[trigger] flat@[c]).values@.len() == 0,
            forall|c: int| 0 <= c < a
                ==> spec_series_points(rows@, labels_view((#[trigger] flat@[c]).metric@)).len() > 0
                    && (match flat@[c].value {
                        Some(p) => (p.0, p.1@) == spec_series_points(
                            rows@, labels_view(flat@[c].metric@)).last(),
                        None => false,
                    }),
    {
        let s = &out[a];
        proof {
            assert(out@[a as int].values@.len() > 0);
        }
        let metric = copy_labels(&s.metric);
        let lastpos = s.values.len() - 1;
        let lastv = (s.values[lastpos].0, s.values[lastpos].1.clone());
        proof {
            let pts = spec_series_points(rows@, labels_view(s.metric@));
            assert(points_view(s.values@).last() == pts.last());
        }
        flat.push(PromSeries { metric, values: Vec::new(), value: Some(lastv) });
    }
    proof {
        assert forall|k: Seq<(Seq<char>, Seq<char>)>| #[trigger] keys_has(keys_g, k)
            implies exists|i: int| 0 <= i < flat@.len()
                && labels_view((#[trigger] flat@[i]).metric@) == k by {
            let i = choose|i: int| 0 <= i < out@.len()
                && labels_view((#[trigger] out@[i]).metric@) == k;
            assert(labels_view(flat@[i].metric@) == k);
        }
    }
    PromData { result_type: result_type_string, result: flat }
}

/// First position whose series does not sort at or below the new one:
/// where the new series belongs.
fn find_insert_pos(out: &Vec<PromSeries>, s: &PromSeries) -> (pos: usize)
    ensures
        pos <= out@.len(),
        forall|b: int| 0 <= b < pos
            ==> spec_labels_le(labels_view((#[trigger] out@[b]).metric@), labels_view(s.metric@)),
        pos < out@.len() ==> !spec_labels_le(
            labels_view(out@[pos as int].metric@), labels_view(s.metric@)),
{
    let m = out.len();
    for b in 0..m
        invariant
            m == out@.len(),
            forall|c: int| 0 <= c < b
                ==> spec_labels_le(labels_view((#[trigger] out@[c]).metric@),
                    labels_view(s.metric@)),
    {
        if !labels_le(&out[b].metric, &s.metric) {
            return b;
        }
    }
    m
}

/// Distinct label sets, pairwise.
pub open spec fn series_distinct(v: Seq<PromSeries>) -> bool {
    forall|i: int, j: int| 0 <= i < j < v.len()
        ==> labels_view((#[trigger] v[i]).metric@) != labels_view((#[trigger] v[j]).metric@)
}

/// Adjacent series in the label-vector order.
pub open spec fn series_sorted(v: Seq<PromSeries>) -> bool {
    forall|i: int| 0 <= i < v.len() - 1
        ==> spec_labels_le(labels_view((#[trigger] v[i]).metric@), labels_view(v[i + 1].metric@))
}

/// Membership of a series in a list, by value.
pub open spec fn spec_series_in(v: Seq<PromSeries>, s: PromSeries) -> bool {
    exists|i: int| 0 <= i < v.len() && v[i] == s
}

/// Inserts a series with a fresh label set at its place in the order.
#[verifier::spinoff_prover]
#[verifier::rlimit(100)]
fn insert_series_sorted(r: &mut Vec<PromSeries>, s: PromSeries)
    requires
        series_sorted(old(r)@),
        series_distinct(old(r)@),
        forall|i: int| 0 <= i < old(r)@.len()
            ==> labels_view((#[trigger] old(r)@[i]).metric@) != labels_view(s.metric@),
    ensures
        final(r)@.len() == old(r)@.len() + 1,
        series_sorted(final(r)@),
        series_distinct(final(r)@),
        forall|i: int| 0 <= i < final(r)@.len()
            ==> ((#[trigger] final(r)@[i]) == s || spec_series_in(old(r)@, final(r)@[i])),
        spec_series_in(final(r)@, s),
        forall|j: int| 0 <= j < old(r)@.len()
            ==> spec_series_in(final(r)@, #[trigger] old(r)@[j]),
{
    let pos = find_insert_pos(r, &s);
    let ghost r0 = r@;
    let ghost s_g = s;
    r.insert(pos, s);
    proof {
        assert(r@ == r0.insert(pos as int, s_g));
        assert(r@[pos as int] == s_g);
        assert(spec_series_in(r@, s_g));
        assert forall|i: int| 0 <= i < r@.len()
            implies ((#[trigger] r@[i]) == s_g || spec_series_in(r0, r@[i])) by {
            if i < pos {
                assert(r@[i] == r0[i]);
                assert(spec_series_in(r0, r@[i]));
            } else if i > pos {
                assert(r@[i] == r0[i - 1]);
                assert(spec_series_in(r0, r@[i]));
            }
        }
        assert forall|j: int| 0 <= j < r0.len()
            implies spec_series_in(r@, #[trigger] r0[j]) by {
            if j < pos {
                assert(r@[j] == r0[j]);
            } else {
                assert(r@[j + 1] == r0[j]);
            }
        }
        assert forall|i: int, j: int| 0 <= i < j < r@.len()
            implies labels_view((#[trigger] r@[i]).metric@)
                != labels_view((#[trigger] r@[j]).metric@) by {
            if i == pos {
                assert(r@[j] == r0[j - 1]);
            } else if j == pos {
                assert(r@[i] == r0[i]);
            } else {
                let a0: int = if i < pos { i } else { i - 1 };
                let b0: int = if j < pos { j } else { j - 1 };
                assert(r@[i] == r0[a0] && r@[j] == r0[b0]);
            }
        }
        assert forall|i: int| 0 <= i < r@.len() - 1
            implies spec_labels_le(labels_view((#[trigger] r@[i]).metric@),
                labels_view(r@[i + 1].metric@)) by {
            if i + 1 < pos {
                assert(r@[i] == r0[i] && r@[i + 1] == r0[i + 1]);
            } else if i + 1 == pos {
                assert(r@[i] == r0[i] && r@[i + 1] == s_g);
            } else if i == pos {
                assert(r@[i] == s_g && r@[i + 1] == r0[i]);
                assert(!spec_labels_le(labels_view(r0[i].metric@), labels_view(s_g.metric@)));
                lemma_labels_le_total(labels_view(s_g.metric@), labels_view(r0[i].metric@));
            } else {
                assert(r@[i] == r0[i - 1] && r@[i + 1] == r0[i]);
            }
        }
    }
}

/// Orders series by their label vectors, each series carried whole.
#[verifier::spinoff_prover]
#[verifier::rlimit(100)]
fn sort_series(input: Vec<PromSeries>) -> (r: Vec<PromSeries>)
    requires
        series_distinct(input@),
    ensures
        r@.len() == input@.len(),
        forall|i: int| 0 <= i < r@.len() ==> spec_series_in(input@, #[trigger] r@[i]),
        forall|j: int| 0 <= j < input@.len() ==> spec_series_in(r@, #[trigger] input@[j]),
        series_distinct(r@),
        series_sorted(r@),
{
    let ghost input0 = input@;
    let mut rest = input;
    let mut r: Vec<PromSeries> = Vec::new();
    proof {
        assert(rest@ =~= input0.skip(0));
    }
    while rest.len() > 0
        invariant
            input0 == input@,
            rest@.len() <= input0.len(),
            rest@ == input0.skip(input0.len() - rest@.len()),
            r@.len() == input0.len() - rest@.len(),
            series_distinct(input0),
            forall|i: int| 0 <= i < r@.len()
                ==> spec_series_in(input0.take(input0.len() - rest@.len()), #[trigger] r@[i]),
            forall|j: int| 0 <= j < input0.len() - rest@.len()
                ==> spec_series_in(r@, #[trigger] input0[j]),
            series_distinct(r@),
            series_sorted(r@),
        decreases rest.len(),
    {
        let ghost taken = input0.len() - rest@.len();
        let s = rest.remove(0);
        proof {
            assert(input0.skip(taken)[0] == input0[taken as int]);
            assert(s == input0[taken as int]);
            assert(rest@ =~= input0.skip(taken + 1));
            // the new series' label set is fresh among those placed
            assert forall|i: int| 0 <= i < r@.len()
                implies labels_view((#[trigger] r@[i]).metric@)
                    != labels_view(s.metric@) by {
                assert(spec_series_in(input0.take(taken), r@[i]));
                let j = choose|j: int|
                    0 <= j < input0.take(taken).len() && input0.take(taken)[j] == r@[i];
                assert(input0[j] == r@[i]);
                assert(labels_view(input0[j].metric@)
                    != labels_view(input0[taken as int].metric@));
            }
        }
        let ghost r0 = r@;
        insert_series_sorted(&mut r, s);
        proof {
            assert forall|i: int| 0 <= i < r@.len()
                implies spec_series_in(input0.take(taken + 1), #[trigger] r@[i]) by {
                if r@[i] == s {
                    assert(input0.take(taken + 1)[taken as int] == input0[taken as int]);
                    assert(spec_series_in(input0.take(taken + 1), r@[i]));
                } else {
                    assert(spec_series_in(r0, r@[i]));
                    let j0 = choose|j0: int| 0 <= j0 < r0.len() && r0[j0] == r@[i];
                    assert(spec_series_in(input0.take(taken), r0[j0]));
                    let j = choose|j: int|
                        0 <= j < input0.take(taken).len() && input0.take(taken)[j] == r0[j0];
                    assert(input0.take(taken + 1)[j] == input0[j]);
                    assert(spec_series_in(input0.take(taken + 1), r@[i]));
                }
            }
            assert forall|j: int| 0 <= j < taken + 1
                implies spec_series_in(r@, #[trigger] input0[j]) by {
                if j == taken {
                    assert(spec_series_in(r@, s));
                } else {
                    assert(spec_series_in(r0, input0[j]));
                    let i0 = choose|i0: int| 0 <= i0 < r0.len() && r0[i0] == input0[j];
                    assert(spec_series_in(r@, r0[i0]));
                }
            }
        }
    }
    proof {
        assert(rest@.len() == 0);
        assert(r@.len() == input0.len());
        assert(input0.take(input0.len() as int) =~= input0);
    }
    r
}

} // verus!

verus! {

/// Why a query failed, as far as the endpoint's policy cares.
#[derive(Clone, Copy, PartialEq, Eq, Structural, Debug)]
pub enum QueryErrorKind {
    TableNotFound,
    TableColumnNotFound,
    Other,
}

/// The envelope for a failed query.  Prometheus reports no error when a
/// nonexistent label or metric is queried: a missing table or column
/// yields an empty success with the requested result type; anything
/// else yields an error envelope with the failure's tag and message.
pub fn response_for_failed_query(
    kind: QueryErrorKind,
    result_type: ResultType,
    error_type: String,
    message: String,
) -> (r: PrometheusJsonResponse)
    ensures
        match kind {
            QueryErrorKind::TableNotFound | QueryErrorKind::TableColumnNotFound => {
                &&& r.status@ == "success"@
                &&& (match r.data {
                    PrometheusResponse::PromData(d) => d.result_type@
                        == spec_result_type_text(result_type) && d.result@.len() == 0,
                    PrometheusResponse::Empty => false,
                })
                &&& r.error is None
                &&& r.error_type is None
            },
            QueryErrorKind::Other => {
                &&& r.status@ == "error"@
                &&& r.data is Empty
                &&& r.error == Some(message)
                &&& r.error_type == Some(error_type)
            },
        },
{
    match kind {
        QueryErrorKind::TableNotFound | QueryErrorKind::TableColumnNotFound => {
            let result_type_string = match result_type {
                ResultType::Vector => "vector".to_string(),
                ResultType::Scalar => "scalar".to_string(),
                ResultType::Str => "string".to_string(),
                ResultType::Matrix => "matrix".to_string(),
            };
            PrometheusJsonResponse::success(PrometheusResponse::PromData(PromData {
                result_type: result_type_string,
                result: Vec::new(),
            }))
        },
        QueryErrorKind::Other => PrometheusJsonResponse::error(error_type, message),
    }
}

} // verus!

verus! {

pub open spec fn names_view(v: Seq<String>) -> Seq<Seq<char>> {
    v.map_values(|s: String| s@)
}

pub open spec fn opt_values_view(v: Seq<Option<String>>) -> Seq<Option<Seq<char>>> {
    v.map_values(|o: Option<String>| match o {
        Some(s) => Some(s@),
        None => None,
    })
}

/// The label set of one row: the metric name under the reserved label
/// first, then each non-null tag value under its column's name, in
/// column order.
pub open spec fn spec_assembled_labels(
    metric: Seq<char>,
    names: Seq<Seq<char>>,
    values: Seq<Option<Seq<char>>>,
) -> Seq<(Seq<char>, Seq<char>)>
    decreases values.len(),
{
    if values.len() == 0 {
        seq![("__name__"@, metric)]
    } else {
        let prefix = spec_assembled_labels(metric, names.drop_last(), values.drop_last());
        match values.last() {
            Some(v) => prefix.push((names.last(), v)),
            None => prefix,
        }
    }
}

/// Builds a row's label set for the series assembly: the metric name
/// first, then the row's non-null tag values in column order (a null
/// tag contributes no label).
pub fn assemble_labels(
    metric_name: &String,
    tag_names: &Vec<String>,
    tag_values: &Vec<Option<String>>,
) -> (r: Vec<(String, String)>)
    requires
        tag_names@.len() == tag_values@.len(),
    ensures
        labels_view(r@) == spec_assembled_labels(
            metric_name@, names_view(tag_names@), opt_values_view(tag_values@)),
{
    let mut r: Vec<(String, String)> = Vec::new();
    r.push(("__name__".to_string(), metric_name.clone()));
    let n = tag_values.len();
    proof {
        assert(names_view(tag_names@).take(0) =~= Seq::empty());
        assert(opt_values_view(tag_values@).take(0) =~= Seq::empty());
        assert(labels_view(r@) =~= spec_assembled_labels(
            metric_name@,
            names_view(tag_names@).take(0),
            opt_values_view(tag_values@).take(0),
        ));
    }
    for i in 0..n
        invariant
            n == tag_values@.len(),
            n == tag_names@.len(),
            labels_view(r@) == spec_assembled_labels(
                metric_name@,
                names_view(tag_names@).take(i as int),
                opt_values_view(tag_values@).take(i as int),
            ),
    {
        let ghost nv = names_view(tag_names@);
        let ghost vv = opt_values_view(tag_values@);
        proof {
            assert(nv.take(i + 1).drop_last() =~= nv.take(i as int));
            assert(vv.take(i + 1).drop_last() =~= vv.take(i as int));
            assert(nv.take(i + 1).last() == tag_names@[i as int]@);
            assert(vv.take(i + 1).last() == (match tag_values@[i as int] {
                Some(s) => Some(s@),
                None => None,
            }));
        }
        match &tag_values[i] {
            Some(v) => {
                let ghost before = r@;
                r.push((tag_names[i].clone(), v.clone()));
                proof {
                    assert(labels_view(r@) =~= labels_view(before).push(
                        (tag_names@[i as int]@, tag_values@[i as int]->0@)));
                }
            },
            None => {},
        }
    }
    proof {
        assert(names_view(tag_names@).take(n as int) =~= names_view(tag_names@));
        assert(opt_values_view(tag_values@).take(n as int) =~= opt_values_view(tag_values@));
    }
    r
}

} // verus!

verus! {

/// Lexicographic comparison of character sequences by code point; for
/// strings this is the byte order the standard string ordering uses, so
/// it is the order an ordered map of label vectors iterates in.  It is a
/// total preorder: on the views of real strings, where distinct
/// characters have distinct code points, ties are equalities.
pub open spec fn spec_str_le(a: Seq<char>, b: Seq<char>) -> bool
    decreases a.len(),
{
    if a.len() == 0 {
        true
    } else if b.len() == 0 {
        false
    } else if (a[0] as u32) < (b[0] as u32) {
        true
    } else if (b[0] as u32) < (a[0] as u32) {
        false
    } else {
        spec_str_le(a.skip(1), b.skip(1))
    }
}

/// Comparison of one label: by name, then by value.
pub open spec fn spec_label_le(a: (Seq<char>, Seq<char>), b: (Seq<char>, Seq<char>)) -> bool {
    if spec_str_le(a.0, b.0) && !spec_str_le(b.0, a.0) {
        true
    } else if spec_str_le(b.0, a.0) && !spec_str_le(a.0, b.0) {
        false
    } else {
        spec_str_le(a.1, b.1)
    }
}

/// Lexicographic comparison of whole label vectors.
pub open spec fn spec_labels_le(
    a: Seq<(Seq<char>, Seq<char>)>,
    b: Seq<(Seq<char>, Seq<char>)>,
) -> bool
    decreases a.len(),
{
    if a.len() == 0 {
        true
    } else if b.len() == 0 {
        false
    } else if spec_label_le(a[0], b[0]) && !spec_label_le(b[0], a[0]) {
        true
    } else if spec_label_le(b[0], a[0]) && !spec_label_le(a[0], b[0]) {
        false
    } else {
        spec_labels_le(a.skip(1), b.skip(1))
    }
}

/// The string comparison is total.
pub proof fn lemma_str_le_total(a: Seq<char>, b: Seq<char>)
    ensures
        spec_str_le(a, b) || spec_str_le(b, a),
    decreases a.len(),
{
    if a.len() == 0 || b.len() == 0 {
    } else if (a[0] as u32) < (b[0] as u32) || (b[0] as u32) < (a[0] as u32) {
    } else {
        lemma_str_le_total(a.skip(1), b.skip(1));
    }
}

/// The label-vector comparison is total.
pub proof fn lemma_labels_le_total(a: Seq<(Seq<char>, Seq<char>)>, b: Seq<(Seq<char>, Seq<char>)>)
    ensures
        spec_labels_le(a, b) || spec_labels_le(b, a),
    decreases a.len(),
{
    if a.len() == 0 || b.len() == 0 {
    } else {
        lemma_str_le_total(a[0].0, b[0].0);
        lemma_str_le_total(a[0].1, b[0].1);
        if spec_label_le(a[0], b[0]) && spec_label_le(b[0], a[0]) {
            lemma_labels_le_total(a.skip(1), b.skip(1));
        }
    }
}

/// Whether `a` sorts at or below `b` in the string order.
fn str_le(a: &String, b: &String) -> (r: bool)
    ensures
        r == spec_str_le(a@, b@),
{
    let alen = a.as_str().unicode_len();
    let blen = b.as_str().unicode_len();
    let n = if alen < blen { alen } else { blen };
    proof {
        assert(a@.skip(0) =~= a@);
        assert(b@.skip(0) =~= b@);
    }
    for i in 0..n
        invariant
            alen == a@.len(),
            blen == b@.len(),
            n == if alen < blen { alen } else { blen },
            spec_str_le(a@, b@) == spec_str_le(a@.skip(i as int), b@.skip(i as int)),
    {
        let ca = a.as_str().get_char(i);
        let cb = b.as_str().get_char(i);
        proof {
            assert(a@.skip(i as int)[0] == a@[i as int]);
            assert(b@.skip(i as int)[0] == b@[i as int]);
            assert(a@.skip(i as int).skip(1) =~= a@.skip(i + 1));
            assert(b@.skip(i as int).skip(1) =~= b@.skip(i + 1));
        }
        if (ca as u32) < (cb as u32) {
            return true;
        }
        if (cb as u32) < (ca as u32) {
            return false;
        }
    }
    proof {
        if alen <= blen {
            assert(a@.skip(n as int).len() == 0);
        } else {
            assert(b@.skip(n as int).len() == 0);
            assert(a@.skip(n as int).len() > 0);
        }
    }
    alen <= blen
}

/// Whether label vector `a` sorts at or below `b`.
fn labels_le(a: &Vec<(String, String)>, b: &Vec<(String, String)>) -> (r: bool)
    ensures
        r == spec_labels_le(labels_view(a@), labels_view(b@)),
{
    let alen = a.len();
    let blen = b.len();
    let n = if alen < blen { alen } else { blen };
    proof {
        assert(labels_view(a@).skip(0) =~= labels_view(a@));
        assert(labels_view(b@).skip(0) =~= labels_view(b@));
    }
    for i in 0..n
        invariant
            alen == a@.len(),
            blen == b@.len(),
            n == if alen < blen { alen } else { blen },
            spec_labels_le(labels_view(a@), labels_view(b@))
                == spec_labels_le(labels_view(a@).skip(i as int), labels_view(b@).skip(i as int)),
    {
        proof {
            assert(labels_view(a@).skip(i as int)[0] == (a@[i as int].0@, a@[i as int].1@));
            assert(labels_view(b@).skip(i as int)[0] == (b@[i as int].0@, b@[i as int].1@));
            assert(labels_view(a@).skip(i as int).skip(1) =~= labels_view(a@).skip(i + 1));
            assert(labels_view(b@).skip(i as int).skip(1) =~= labels_view(b@).skip(i + 1));
        }
        let name_ab = str_le(&a[i].0, &b[i].0);
        let name_ba = str_le(&b[i].0, &a[i].0);
        if name_ab && !name_ba {
            return true;
        }
        if name_ba && !name_ab {
            return false;
        }
        // the names tie: the values decide
        let value_ab = str_le(&a[i].1, &b[i].1);
        let value_ba = str_le(&b[i].1, &a[i].1);
        if value_ab && !value_ba {
            return true;
        }
        if value_ba && !value_ab {
            return false;
        }
    }
    proof {
        if alen <= blen {
            assert(labels_view(a@).skip(n as int).len() == 0);
        } else {
            assert(labels_view(b@).skip(n as int).len() == 0);
            assert(labels_view(a@).skip(n as int).len() > 0);
        }
    }
    alen <= blen
}

} // verus!

verus! {

/// A sequence with one slot replaced.
pub open spec fn seq_with_slot(s: Seq<PromSeries>, i: int, v: PromSeries) -> Seq<PromSeries> {
    s.update(i, v)
}

/// A label set that never became a series key has no samples either.
pub proof fn lemma_points_empty_without_key(s: Seq<SampleRow>, k: Seq<(Seq<char>, Seq<char>)>)
    requires
        !keys_has(spec_series_keys(s), k),
    ensures
        spec_series_points(s, k).len() == 0,
    decreases s.len(),
{
    if s.len() > 0 {
        let prefix = spec_series_keys(s.drop_last());
        assert forall|i: int| 0 <= i < prefix.len()
            implies spec_series_keys(s)[i] == prefix[i] by {}
        if keys_has(prefix, k) {
            let i = choose|i: int| 0 <= i < prefix.len() && prefix[i] == k;
            assert(spec_series_keys(s)[i] == k);
        }
        lemma_points_empty_without_key(s.drop_last(), k);
        let r = s.last();
        if r.value is Some && labels_view(r.labels@) == k {
            if !keys_has(prefix, k) {
                assert(spec_series_keys(s) == prefix.push(k));
                assert(spec_series_keys(s).last() == k);
            }
        }
    }
}

/// Index of the series with this label set, if one exists.
fn find_series(out: &Vec<PromSeries>, labels: &Vec<(String, String)>) -> (r: Option<usize>)
    ensures
        match r {
            Some(a) => a < out@.len()
                && labels_view(out@[a as int].metric@) == labels_view(labels@),
            None => forall|b: int| 0 <= b < out@.len()
                ==> labels_view((#[trigger] out@[b]).metric@) != labels_view(labels@),
        },
{
    let m = out.len();
    for a in 0..m
        invariant
            m == out@.len(),
            forall|b: int| 0 <= b < a
                ==> labels_view((#[trigger] out@[b]).metric@) != labels_view(labels@),
    {
        if labels_equal(&out[a].metric, &labels) {
            return Some(a);
        }
    }
    None
}

} // verus!
