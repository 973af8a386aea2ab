//! The commutativity classifier of the distributed query planner: for a
//! logical plan node, whether it can be pushed below a merge of
//! per-region partial results.  The planner's plan and expression nodes
//! are modelled by their discriminating shape; converting a real plan
//! tree into this shape is the caller's (unverified) concern.

use vstd::prelude::*;

verus! {

/// A pure plan rewrite, applied when a node is commutative only after a
/// transformation.  The one rewrite in use keeps the node as it is (a
/// partially commutative node is pushed down unchanged and repeated
/// above the merge).
#[derive(Clone, Copy, PartialEq, Eq, Structural, Debug)]
pub enum Transformer {
    Identity,
}

/// Classification of a plan node with respect to the per-region merge.
#[derive(Clone, Copy, PartialEq, Eq, Structural, Debug)]
pub enum Commutativity {
    Commutative,
    PartialCommutative,
    ConditionalCommutative(Option<Transformer>),
    TransformedCommutative(Option<Transformer>),
    NonCommutative,
    Unimplemented,
    CheckPartition,
    /// For unrelated plans such as DDL.
    Unsupported,
}

/// The known extension plan nodes; anything else is unsupported.
#[derive(Clone, Copy, PartialEq, Eq, Structural, Debug)]
pub enum ExtensionPlanKind {
    EmptyMetric,
    InstantManipulate,
    SeriesNormalize,
    RangeManipulate,
    SeriesDivide,
    MergeScan,
    Other,
}

/// Shape of an expression node, as far as the classifier reads it.
#[derive(Clone, Copy, PartialEq, Eq, Structural, Debug)]
pub enum ExprKind {
    Column,
    ScalarVariable,
    Literal,
    BinaryExpr,
    Not,
    IsNotNull,
    IsNull,
    IsTrue,
    IsFalse,
    IsNotTrue,
    IsNotFalse,
    Negative,
    Between,
    Sort,
    Exists,
    Like,
    ILike,
    SimilarTo,
    IsUnknown,
    IsNotUnknown,
    GetIndexedField,
    Case,
    Cast,
    TryCast,
    ScalarFunction,
    ScalarUdf,
    AggregateFunction,
    WindowFunction,
    AggregateUdf,
    InList,
    InSubquery,
    ScalarSubquery,
    Wildcard,
    Alias,
    QualifiedWildcard,
    GroupingSet,
    Placeholder,
    OuterReferenceColumn,
}

/// Shape of a logical plan node, carrying exactly what the classifier
/// reads: the expressions of a projection, the predicate of a filter,
/// and the kind of an extension node.
pub enum PlanKind {
    Projection(Vec<ExprKind>),
    Filter(ExprKind),
    Window,
    Aggregate,
    Sort,
    Join,
    CrossJoin,
    Repartition,
    Union,
    TableScan,
    EmptyRelation,
    Subquery,
    SubqueryAlias,
    Limit,
    Extension(ExtensionPlanKind),
    Distinct,
    Unnest,
    Statement,
    Values,
    Explain,
    Analyze,
    Prepare,
    DescribeTable,
    Dml,
    Ddl,
}

pub struct Categorizer {}

/// Classification of an expression: the exact table the classifier
/// implements.
pub open spec fn spec_check_expr(e: ExprKind) -> Commutativity {
    match e {
        ExprKind::Column | ExprKind::ScalarVariable | ExprKind::Literal | ExprKind::BinaryExpr
            | ExprKind::Not | ExprKind::IsNotNull | ExprKind::IsNull | ExprKind::IsTrue
            | ExprKind::IsFalse | ExprKind::IsNotTrue | ExprKind::IsNotFalse
            | ExprKind::Negative | ExprKind::Between | ExprKind::Sort | ExprKind::Exists =>
            Commutativity::Commutative,
        _ => Commutativity::Unimplemented,
    }
}

/// Classification of an extension node: the known per-series and merge
/// nodes commute; anything else is unsupported.
pub open spec fn spec_check_extension_plan(e: ExtensionPlanKind) -> Commutativity {
    match e {
        ExtensionPlanKind::Other => Commutativity::Unsupported,
        _ => Commutativity::Commutative,
    }
}

/// The first non-commutative classification among a projection's
/// expressions, or commutative when there is none.
pub open spec fn spec_check_exprs(es: Seq<ExprKind>) -> Commutativity
    decreases es.len(),
{
    if es.len() == 0 {
        Commutativity::Commutative
    } else if spec_check_expr(es[0]) != Commutativity::Commutative {
        spec_check_expr(es[0])
    } else {
        spec_check_exprs(es.skip(1))
    }
}

/// Classification of a plan node.
pub open spec fn spec_check_plan(p: PlanKind) -> Commutativity {
    match p {
        PlanKind::Projection(exprs) => spec_check_exprs(exprs@),
        PlanKind::Filter(pred) => spec_check_expr(pred),
        PlanKind::Window => Commutativity::Unimplemented,
        PlanKind::Aggregate => Commutativity::Unimplemented,
        PlanKind::Sort => Commutativity::Unimplemented,
        PlanKind::Join => Commutativity::NonCommutative,
        PlanKind::CrossJoin => Commutativity::NonCommutative,
        PlanKind::Repartition => Commutativity::Unimplemented,
        PlanKind::Union => Commutativity::Unimplemented,
        PlanKind::TableScan => Commutativity::CheckPartition,
        PlanKind::EmptyRelation => Commutativity::NonCommutative,
        PlanKind::Subquery => Commutativity::Unimplemented,
        PlanKind::SubqueryAlias => Commutativity::Unimplemented,
        PlanKind::Limit => Commutativity::PartialCommutative,
        PlanKind::Extension(e) => spec_check_extension_plan(e),
        PlanKind::Distinct => Commutativity::PartialCommutative,
        PlanKind::Unnest => Commutativity::Commutative,
        PlanKind::Statement => Commutativity::Unsupported,
        PlanKind::Values => Commutativity::Unsupported,
        PlanKind::Explain => Commutativity::Unsupported,
        PlanKind::Analyze => Commutativity::Unsupported,
        PlanKind::Prepare => Commutativity::Unsupported,
        PlanKind::DescribeTable => Commutativity::Unsupported,
        PlanKind::Dml => Commutativity::Unsupported,
        PlanKind::Ddl => Commutativity::Unsupported,
    }
}

impl Categorizer {
    /// Classifies a plan node; `Unimplemented` is a deliberate sentinel
    /// for nodes whose eventual classification is left open, and is
    /// never collapsed into `NonCommutative`.
    pub fn check_plan(plan: &PlanKind) -> (r: Commutativity)
        ensures
            r == spec_check_plan(*plan),
    {
        match plan {
            PlanKind::Projection(exprs) => {
                let n = exprs.len();
                proof {
                    assert(exprs@.skip(0) =~= exprs@);
                }
                for i in 0..n
                    invariant
                        *plan == PlanKind::Projection(*exprs),
                        n == exprs@.len(),
                        spec_check_exprs(exprs@) == spec_check_exprs(exprs@.skip(i as int)),
                        forall|j: int| 0 <= j < i
                            ==> spec_check_expr(#[trigger] exprs@[j]) == Commutativity::Commutative,
                {
                    let c = Self::check_expr(&exprs[i]);
                    proof {
                        assert(exprs@.skip(i as int)[0] == exprs@[i as int]);
                        assert(exprs@.skip(i as int).skip(1) =~= exprs@.skip(i + 1));
                    }
                    if !matches!(c, Commutativity::Commutative) {
                        return c;
                    }
                }
                proof {
                    assert(exprs@.skip(n as int).len() == 0);
                }
                Commutativity::Commutative
            },
            PlanKind::Filter(pred) => Self::check_expr(pred),
            PlanKind::Window => Commutativity::Unimplemented,
            PlanKind::Aggregate => {
                // the eventual rule will weigh every child expression and
                // take the strictest level; left open for now
                Commutativity::Unimplemented
            },
            PlanKind::Sort => Commutativity::Unimplemented,
            PlanKind::Join => Commutativity::NonCommutative,
            PlanKind::CrossJoin => Commutativity::NonCommutative,
            PlanKind::Repartition => Commutativity::Unimplemented,
            PlanKind::Union => Commutativity::Unimplemented,
            PlanKind::TableScan => Commutativity::CheckPartition,
            PlanKind::EmptyRelation => Commutativity::NonCommutative,
            PlanKind::Subquery => Commutativity::Unimplemented,
            PlanKind::SubqueryAlias => Commutativity::Unimplemented,
            PlanKind::Limit => Commutativity::PartialCommutative,
            PlanKind::Extension(e) => Self::check_extension_plan(e),
            PlanKind::Distinct => Commutativity::PartialCommutative,
            PlanKind::Unnest => Commutativity::Commutative,
            PlanKind::Statement => Commutativity::Unsupported,
            PlanKind::Values => Commutativity::Unsupported,
            PlanKind::Explain => Commutativity::Unsupported,
            PlanKind::Analyze => Commutativity::Unsupported,
            PlanKind::Prepare => Commutativity::Unsupported,
            PlanKind::DescribeTable => Commutativity::Unsupported,
            PlanKind::Dml => Commutativity::Unsupported,
            PlanKind::Ddl => Commutativity::Unsupported,
        }
    }

    pub fn check_extension_plan(plan: &ExtensionPlanKind) -> (r: Commutativity)
        ensures
            r == spec_check_extension_plan(*plan),
    {
        match plan {
            ExtensionPlanKind::Other => Commutativity::Unsupported,
            _ => Commutativity::Commutative,
        }
    }

    pub fn check_expr(expr: &ExprKind) -> (r: Commutativity)
        ensures
            r == spec_check_expr(*expr),
    {
        match expr {
            ExprKind::Column | ExprKind::ScalarVariable | ExprKind::Literal
                | ExprKind::BinaryExpr | ExprKind::Not | ExprKind::IsNotNull | ExprKind::IsNull
                | ExprKind::IsTrue | ExprKind::IsFalse | ExprKind::IsNotTrue
                | ExprKind::IsNotFalse | ExprKind::Negative | ExprKind::Between
                | ExprKind::Sort | ExprKind::Exists => Commutativity::Commutative,
            _ => Commutativity::Unimplemented,
        }
    }
}

/// The rewrite attached to a partially commutative node: the plan itself,
/// unchanged.
pub fn partial_commutative_transformer(plan: &PlanKind) -> (r: Option<&PlanKind>)
    ensures
        r == Some(plan),
{
    Some(plan)
}

} // verus!
