use region_control::commutativity::{
    Categorizer, Commutativity, ExprKind, ExtensionPlanKind, PlanKind,
    partial_commutative_transformer,
};

#[test]
fn test_check_expr_table() {
    assert!(matches!(Categorizer::check_expr(&ExprKind::Column), Commutativity::Commutative));
    assert!(matches!(Categorizer::check_expr(&ExprKind::Literal), Commutativity::Commutative));
    assert!(matches!(Categorizer::check_expr(&ExprKind::BinaryExpr), Commutativity::Commutative));
    assert!(matches!(Categorizer::check_expr(&ExprKind::Like), Commutativity::Unimplemented));
    assert!(matches!(
        Categorizer::check_expr(&ExprKind::AggregateFunction),
        Commutativity::Unimplemented
    ));
    assert!(matches!(Categorizer::check_expr(&ExprKind::Alias), Commutativity::Unimplemented));
}

#[test]
fn test_check_plan_table() {
    assert!(matches!(
        Categorizer::check_plan(&PlanKind::Projection(vec![ExprKind::Column, ExprKind::Literal])),
        Commutativity::Commutative
    ));
    // the first non-commutative expression decides the projection
    assert!(matches!(
        Categorizer::check_plan(&PlanKind::Projection(vec![ExprKind::Column, ExprKind::Like])),
        Commutativity::Unimplemented
    ));
    assert!(matches!(
        Categorizer::check_plan(&PlanKind::Filter(ExprKind::IsNull)),
        Commutativity::Commutative
    ));
    assert!(matches!(
        Categorizer::check_plan(&PlanKind::Filter(ExprKind::Like)),
        Commutativity::Unimplemented
    ));
    assert!(matches!(Categorizer::check_plan(&PlanKind::Join), Commutativity::NonCommutative));
    assert!(matches!(
        Categorizer::check_plan(&PlanKind::TableScan),
        Commutativity::CheckPartition
    ));
    assert!(matches!(
        Categorizer::check_plan(&PlanKind::Limit),
        Commutativity::PartialCommutative
    ));
    assert!(matches!(
        Categorizer::check_plan(&PlanKind::Distinct),
        Commutativity::PartialCommutative
    ));
    assert!(matches!(Categorizer::check_plan(&PlanKind::Unnest), Commutativity::Commutative));
    // the sentinel for undecided nodes stays a sentinel
    assert!(matches!(Categorizer::check_plan(&PlanKind::Aggregate), Commutativity::Unimplemented));
    assert!(matches!(Categorizer::check_plan(&PlanKind::Sort), Commutativity::Unimplemented));
    assert!(matches!(Categorizer::check_plan(&PlanKind::Ddl), Commutativity::Unsupported));
    assert!(matches!(Categorizer::check_plan(&PlanKind::Explain), Commutativity::Unsupported));
}

#[test]
fn test_check_extension_plan() {
    for kind in [
        ExtensionPlanKind::EmptyMetric,
        ExtensionPlanKind::InstantManipulate,
        ExtensionPlanKind::SeriesNormalize,
        ExtensionPlanKind::RangeManipulate,
        ExtensionPlanKind::SeriesDivide,
        ExtensionPlanKind::MergeScan,
    ] {
        assert!(matches!(
            Categorizer::check_plan(&PlanKind::Extension(kind)),
            Commutativity::Commutative
        ));
    }
    assert!(matches!(
        Categorizer::check_plan(&PlanKind::Extension(ExtensionPlanKind::Other)),
        Commutativity::Unsupported
    ));
}

#[test]
fn test_partial_commutative_transformer() {
    let plan = PlanKind::Limit;
    let out = partial_commutative_transformer(&plan).unwrap();
    assert!(matches!(out, PlanKind::Limit));
}
