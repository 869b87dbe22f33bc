use databend::binder::bind_merge_into;
use databend::binder::count_r_cte_scan;
use databend::binder::fully_table_identifier;
use databend::binder::get_merge_type;
use databend::binder::illegal_ident_name;
use databend::binder::Identifier;
use databend::binder::InsertOperation;
use databend::binder::MatchOperation;
use databend::binder::MatchedClause;
use databend::binder::MergeIntoType;
use databend::binder::MergeOption;
use databend::binder::NameResolutionSuggest;
use databend::binder::ShownNames;
use databend::binder::UnmatchedClause;
use databend::dataflow::DataflowDiagramBuilder;
use databend::dataflow::NodeInfo;
use databend::error::ErrorCode;
use databend::insert::InsertAction;
use databend::insert::InsertInputSource;
use databend::insert::InsertInterpreterV2;
use databend::merge_into_shuffle::build_merge_into_shuffle;
use databend::merge_into_shuffle::resize_row_id;
use databend::merge_into_shuffle::MergeIntoOp;
use databend::merge_into_shuffle::PipelineStep;
use databend::plan_fragment::ClusterContext;
use databend::plan_fragment::DataSourcePlan;
use databend::plan_fragment::FragmentType;
use databend::plan_fragment::PhysicalPlan;
use databend::plan_fragment::PlanFragment;
use databend::plan_fragment::PlanReplacer;
use databend::s_expr::FunctionCall;
use databend::s_expr::RecursiveCteScan;
use databend::s_expr::RelOp;
use databend::s_expr::RelOperator;
use databend::s_expr::RuleID;
use databend::s_expr::SExpr;
use databend::s_expr::ScalarExpr;
use databend::s_expr::ScalarItem;
use databend::s_expr::Scan;
use databend::s_expr::Sort;
use databend::s_expr::SortItem;
use databend::schema::DataField;
use databend::schema::DataSchema;
use databend::types::DataType;
use databend::udf_validator::UDFValidator;
use databend::udf_validator::UdfExpr;
use databend::vector_index::RuleUseVectorIndex;

fn text(s: &str) -> String {
    s.to_string()
}

#[test]
fn quotes_are_illegal_in_names() {
    assert!(illegal_ident_name("a'b"));
    assert!(illegal_ident_name("\""));
    assert!(!illegal_ident_name("plain_name"));
    assert!(!illegal_ident_name(""));
}

fn cte(name: &str, fields: Vec<DataType>) -> SExpr {
    SExpr::create_leaf(RelOperator::RecursiveCteScan(RecursiveCteScan { table_name: text(name), fields }))
}

fn node(op: RelOp, children: Vec<SExpr>) -> SExpr {
    SExpr { plan: RelOperator::Other(op), children, applied_rules: vec![] }
}

#[test]
fn recursive_scans_are_found_in_order() {
    let e = node(
        RelOp::Join,
        vec![
            node(RelOp::Filter, vec![cte("a", vec![DataType::Date])]),
            node(RelOp::UnionAll, vec![cte("b", vec![DataType::String]), node(RelOp::Exchange, vec![])]),
        ],
    );
    let (mut names, mut types) = (vec![], vec![]);
    count_r_cte_scan(&e, &mut names, &mut types).unwrap();
    assert_eq!(names, vec![text("a"), text("b")]);
    assert_eq!(types.len(), 1);
    assert!(matches!(types[0], DataType::Date));
}

#[test]
fn operators_on_whole_results_are_refused() {
    let (mut names, mut types) = (vec![], vec![]);
    let e = node(RelOp::Join, vec![cte("a", vec![]), node(RelOp::Aggregate, vec![])]);
    match count_r_cte_scan(&e, &mut names, &mut types) {
        Err(ErrorCode::SyntaxException(m)) => assert_eq!(m, "Aggregate is not allowed in recursive cte"),
        other => panic!("{:?}", other),
    }
    assert_eq!(names, vec![text("a")]);
    let broken = node(RelOp::Filter, vec![]);
    assert!(matches!(count_r_cte_scan(&broken, &mut names, &mut types), Err(ErrorCode::Internal(_))));
}

#[test]
fn missing_tables_are_suggested() {
    let table = Identifier { span: Some((3, 8)), name: text("T"), quote: None, is_hole: false };
    let full = fully_table_identifier(&None, &None, &table, "default", "db", '`');
    assert_eq!(full.catalog.name, "default");
    assert_eq!(full.database.quote, Some('`'));
    let meant = full.suggested_ident(&full.table, NameResolutionSuggest::Quoted);
    assert_eq!((meant.name.as_str(), meant.quote, meant.span), ("T", Some('`'), Some((3, 8))));
    assert_eq!(full.suggested_ident(&full.database, NameResolutionSuggest::Unqoted).quote, None);
    assert_eq!(full.suggestion_sought(&ErrorCode::UnknownTable(text(""))).map(|i| i.name.as_str()), Some("T"));
    assert_eq!(full.suggestion_sought(&ErrorCode::UnknownDatabase(text(""))).map(|i| i.name.as_str()), Some("db"));
    assert!(full.suggestion_sought(&ErrorCode::Internal(text(""))).is_none());
    let names = |s: &str| ShownNames { catalog: text("c"), database: text("d"), table: text("T"), suggested: text(s) };
    let (e, span) = full.not_found_suggest_error(
        ErrorCode::UnknownTable(text("")),
        Some(NameResolutionSuggest::Quoted),
        &names("`T`"),
    );
    assert_eq!(span, Some((3, 8)));
    assert!(matches!(e, ErrorCode::UnknownTable(m) if m == "Unknown table c.d.T (unquoted). Did you mean `T` (quoted)?"));
    let (e, _) = full.not_found_suggest_error(
        ErrorCode::UnknownDatabase(text("")),
        Some(NameResolutionSuggest::Unqoted),
        &names("d"),
    );
    assert!(matches!(e, ErrorCode::UnknownDatabase(m) if m == "Unknown database c.d (quoted). Did you mean d (unquoted)?"));
    let (e, _) = full.not_found_suggest_error(ErrorCode::UnknownDatabase(text("")), None, &names(""));
    assert!(matches!(e, ErrorCode::UnknownDatabase(m) if m == "Unknown database c.d ."));
    let (e, span) = full.not_found_suggest_error(ErrorCode::Internal(text("x")), None, &names(""));
    assert!(matches!(e, ErrorCode::Internal(m) if m == "x"));
    assert_eq!(span, None);
}

fn matched(star: bool) -> MergeOption<u8> {
    MergeOption::Match(MatchedClause {
        selection: None,
        operation: MatchOperation::Update { update_list: vec![], is_star: star },
    })
}

fn unmatched(star: bool) -> MergeOption<u8> {
    MergeOption::Unmatch(UnmatchedClause {
        selection: Some(7),
        insert_operation: InsertOperation { columns: None, values: vec![1], is_star: star },
    })
}

#[test]
fn merges_have_a_kind() {
    let plan = bind_merge_into(vec![matched(false), unmatched(false), matched(true)]).unwrap();
    assert_eq!((plan.matched_clauses.len(), plan.unmatched_clauses.len()), (2, 1));
    assert!(plan.has_star_clause);
    assert_eq!(plan.merge_type, MergeIntoType::FullOperation);
    let only = bind_merge_into(vec![unmatched(false)]).unwrap();
    assert!(!only.has_star_clause);
    assert_eq!(only.merge_type, MergeIntoType::InsertOnly);
    assert!(bind_merge_into(vec![unmatched(true)]).unwrap().has_star_clause);
    assert_eq!(bind_merge_into(vec![matched(false)]).unwrap().merge_type, MergeIntoType::MatchedOnly);
    match bind_merge_into::<u8>(vec![]) {
        Err(ErrorCode::BadArguments(m)) => assert_eq!(m, "at least one matched or unmatched clause for merge into"),
        other => panic!("{:?}", other),
    }
    match get_merge_type(0, 0) {
        Err(ErrorCode::SemanticError(m)) => assert_eq!(m, "we must have matched or unmatched clause at least one"),
        other => panic!("{:?}", other),
    }
}

fn rules(s: &PipelineStep) -> &Vec<usize> {
    match s {
        PipelineStep::ReorderInputs(r) => r,
        other => panic!("{:?}", other),
    }
}

fn ranges(s: &PipelineStep) -> &Vec<Vec<usize>> {
    match s {
        PipelineStep::ResizePartialOne(r) => r,
        other => panic!("{:?}", other),
    }
}

#[test]
fn ports_are_put_kind_by_kind() {
    let steps = build_merge_into_shuffle(MergeIntoOp::StandaloneFullOperation, 6);
    assert_eq!(ranges(&steps[0]), &vec![vec![0], vec![1, 2], vec![3], vec![4, 5]]);
    assert_eq!(rules(&steps[1]), &vec![0, 2, 1, 3]);
    assert_eq!(ranges(&steps[2]), &vec![vec![0, 1], vec![2], vec![3]]);
    let steps = build_merge_into_shuffle(MergeIntoOp::DistributedFullOperation, 6);
    assert_eq!(rules(&steps[0]), &vec![0, 2, 4, 1, 3, 5]);
    assert_eq!(ranges(&steps[1]), &vec![vec![0, 1], vec![2], vec![3], vec![4, 5]]);
    let steps = build_merge_into_shuffle(MergeIntoOp::DistributedMatchedOnly, 4);
    assert_eq!(rules(&steps[0]), &vec![0, 2, 1, 3]);
    assert!(build_merge_into_shuffle(MergeIntoOp::StandaloneInsertOnly, 4).is_empty());
    assert!(matches!(build_merge_into_shuffle(MergeIntoOp::DistributedInsertOnly, 4)[0], PipelineStep::TryResize(1)));
}

#[test]
fn every_output_is_resized_exactly_once() {
    let step = resize_row_id(9, 3);
    let mut all: Vec<usize> = ranges(&step).iter().flatten().copied().collect();
    all.sort();
    assert_eq!(all, (0..9).collect::<Vec<_>>());
}

fn validator(name: &str, parameters: &[&str]) -> UDFValidator {
    UDFValidator {
        name: text(name),
        parameters: parameters.iter().map(|s| text(s)).collect(),
        lambda_parameters: vec![],
        expr_params: vec![],
        has_recursive: false,
    }
}

fn column(name: &str) -> UdfExpr {
    UdfExpr::ColumnRef(text(name))
}

#[test]
fn definitions_use_their_parameters() {
    let e = UdfExpr::FunctionCall {
        name: text("plus"),
        is_builtin: true,
        arguments: vec![column("a"), UdfExpr::Other(vec![column("b"), column("a")])],
    };
    assert!(validator("f", &["a", "b"]).verify_definition_expr(&e).is_ok());
    match validator("f", &["a", "c"]).verify_definition_expr(&e) {
        Err(ErrorCode::SyntaxException(m)) => {
            assert_eq!(m, "Parameters are not declared: {\"b\"}Parameters are not used: {\"c\"}")
        }
        other => panic!("{:?}", other),
    }
    let mut v = validator("f", &["a"]);
    v.lambda_parameters.push(text("b"));
    assert!(v.verify_definition_expr(&e).is_ok());
}

#[test]
fn definitions_do_not_call_themselves() {
    let call = |name: &str, is_builtin: bool| UdfExpr::FunctionCall {
        name: text(name),
        is_builtin,
        arguments: vec![column("a")],
    };
    match validator("My_Fn", &["a"]).verify_definition_expr(&call("MY_fn", false)) {
        Err(ErrorCode::SyntaxException(m)) => assert_eq!(m, "Recursive UDF is not supported"),
        other => panic!("{:?}", other),
    }
    assert!(validator("My_Fn", &["a"]).verify_definition_expr(&call("my_fn", true)).is_ok());
}

fn sorted_scan(func: &str, limit: Option<usize>, asc: bool) -> SExpr {
    let scan = Scan { table_index: 1, order_by: None, limit: None, similarity: None };
    let eval = vec![
        ScalarItem { index: 4, scalar: ScalarExpr::Other(9) },
        ScalarItem {
            index: 5,
            scalar: ScalarExpr::FunctionCall(FunctionCall { func_name: text(func), arguments: vec![1, 2] }),
        },
    ];
    let sort = Sort { items: vec![SortItem { index: 5, asc, nulls_first: false }], limit };
    SExpr::create_unary(
        RelOperator::Sort(sort),
        SExpr::create_unary(RelOperator::EvalScalar(eval), SExpr::create_leaf(RelOperator::Scan(scan))),
    )
}

fn scan_of(e: &SExpr) -> &Scan {
    match &e.children[0].children[0].plan {
        RelOperator::Scan(s) => s,
        other => panic!("{:?}", other),
    }
}

#[test]
fn nearest_rows_come_from_the_index() {
    let rule = RuleUseVectorIndex::new();
    assert_eq!(rule.id(), RuleID::UseVectorIndex);
    assert!(matches!(rule.patterns()[0].plan, RelOperator::Pattern(RelOp::Sort)));
    let e = rule.apply(sorted_scan("cosine_distance", Some(10), true));
    assert_eq!(scan_of(&e).limit, Some(10));
    assert_eq!(scan_of(&e).order_by.as_ref().unwrap()[0].index, 5);
    assert_eq!(scan_of(&e).similarity.as_ref().unwrap().arguments, vec![1, 2]);
    assert_eq!(e.applied_rules, vec![RuleID::UseVectorIndex]);
    for other in [
        sorted_scan("l2_distance", Some(10), true),
        sorted_scan("cosine_distance", None, true),
        sorted_scan("cosine_distance", Some(10), false),
    ] {
        let same = rule.apply(other);
        assert!(scan_of(&same).limit.is_none());
        assert!(same.applied_rules.is_empty());
    }
}

fn schema(types: &[(&str, DataType)]) -> DataSchema {
    DataSchema {
        fields: types.iter().map(|(n, t)| DataField { name: text(n), data_type: t.clone() }).collect(),
    }
}

#[test]
fn inserts_are_planned() {
    let table = || schema(&[("a", DataType::Date)]);
    let values = InsertInterpreterV2::try_create(InsertInputSource::Values, table(), false, false);
    assert!(matches!(values.execute_new(8, true), Ok(InsertAction::ReadValues { readers: 8 })));
    assert_eq!(values.name(), "InsertIntoInterpreter");
    let mut stream = InsertInterpreterV2::try_create(InsertInputSource::StreamingWithFormat, table(), false, false);
    assert!(matches!(stream.execute_new(8, true), Err(ErrorCode::EmptyData(m)) if m == "empty source pipe builder"));
    stream.set_source_pipe_builder(true);
    assert!(matches!(stream.execute_new(8, true), Ok(InsertAction::UseSourcePipe)));
    let select = |query| InsertInterpreterV2::try_create(InsertInputSource::SelectPlan(query), table(), true, false);
    assert!(matches!(select(table()).execute_new(8, true), Ok(InsertAction::RunSelect)));
    assert!(matches!(select(table()).execute_new(8, false), Ok(InsertAction::ScheduleInsertSelect)));
    assert!(matches!(select(table()).select_casts(&table()), Ok(None)));
    let other = schema(&[("a", DataType::String)]);
    match select(other.clone()).select_casts(&other) {
        Ok(Some(casts)) => {
            assert_eq!(casts.len(), 1);
            assert!(matches!(casts[0].target_type, DataType::Date));
            assert!(matches!(casts[0].from_type, DataType::String));
        }
        wrong => panic!("{:?}", wrong),
    }
    let plan = select(other.clone()).schedule_insert_select(&other, text("default")).unwrap();
    assert!(plan.cast_needed && plan.overwrite);
    // Too few fields are found once the query is built.
    let few = schema(&[]);
    assert!(matches!(select(few.clone()).execute_new(8, true), Ok(InsertAction::RunSelect)));
    assert!(matches!(select(few.clone()).select_casts(&few), Err(ErrorCode::BadArguments(m))
        if m == "Fields in select statement is less than expected"));
    assert!(matches!(select(few.clone()).schedule_insert_select(&few, text("c")), Err(ErrorCode::BadArguments(_))));
}

#[test]
fn diagrams_have_no_edges_to_oneself() {
    let n = |id: &str| NodeInfo { id: text(id), flight_address: text("addr") };
    let mut b = DataflowDiagramBuilder::create(vec![n("x"), n("y")]);
    assert!(b.add_data_edge("x", "y", 3).is_ok());
    assert!(b.add_statistics_edge("y", "x").is_ok());
    assert!(b.add_data_edge("z", "z", 1).is_ok());
    assert!(matches!(b.add_data_edge("x", "z", 1), Err(ErrorCode::NotFoundClusterNode(_))));
    assert_eq!(b.build().node_ids(), vec![text("x"), text("y")]);
}

#[test]
fn parts_are_spread_over_sorted_executors() {
    let spread = PlanFragment::reshuffle(vec![text("b"), text("a")], &vec![1u64, 2, 3]);
    let mut all: Vec<u64> = spread.iter().flat_map(|s| s.1.clone()).collect();
    all.sort();
    assert_eq!(all, vec![1, 2, 3]);
    assert_eq!(spread[0].0, "a");
}

#[test]
fn the_first_executors_get_one_part_more() {
    let names = vec![text("e3"), text("e1"), text("e4"), text("e2")];
    let spread = PlanFragment::reshuffle(names, &vec![1u64, 2, 3, 4, 5]);
    let got: Vec<(&str, Vec<u64>)> = spread.iter().map(|s| (s.0.as_str(), s.1.clone())).collect();
    assert_eq!(got, vec![("e1", vec![1, 2]), ("e2", vec![3]), ("e3", vec![4]), ("e4", vec![5])]);
    let few = PlanFragment::reshuffle(vec![text("a"), text("b"), text("c")], &vec![1u64, 2]);
    assert_eq!(few.iter().map(|s| s.1.len()).collect::<Vec<usize>>(), vec![1, 1, 0]);
}

fn fragment(fragment_type: FragmentType, plan: PhysicalPlan, spread: Vec<(String, Vec<u64>)>) -> PlanFragment {
    PlanFragment {
        plan,
        fragment_type,
        fragment_id: 7,
        exchange: None,
        query_id: text("q"),
        source_fragments: vec![],
        spread,
    }
}

fn table_scan(parts: Vec<u64>) -> PhysicalPlan {
    PhysicalPlan::TableScan { plan_id: 1, source: DataSourcePlan { table: 9, parts } }
}

#[test]
fn sources_are_redistributed() {
    let ctx = ClusterContext {
        local_executor: text("a"),
        executors: vec![text("a"), text("b")],
        local_id: text("a"),
    };
    let f = fragment(
        FragmentType::Source,
        table_scan(vec![1, 2, 3]),
        vec![(text("a"), vec![1]), (text("b"), vec![2, 3])],
    );
    let mut actions = vec![];
    f.get_actions(&ctx, &mut actions).unwrap();
    assert_eq!(actions.len(), 1);
    assert_eq!(actions[0].fragment_id, 7);
    assert_eq!(actions[0].actions.len(), 2);
    match &actions[0].actions[1].plan {
        PhysicalPlan::TableScan { source, .. } => assert_eq!(source.parts, vec![2, 3]),
        other => panic!("{:?}", other),
    }
    let root = fragment(FragmentType::Root, table_scan(vec![]), vec![]);
    let mut actions = vec![];
    root.get_actions(&ctx, &mut actions).unwrap();
    assert_eq!(actions[0].actions.len(), 1);
    assert_eq!(actions[0].actions[0].executor, "a");
    // The first source has its actions, the second fails, and nothing comes after it.
    let mut top = fragment(FragmentType::Root, table_scan(vec![]), vec![]);
    let none = PhysicalPlan::Operator { plan_id: 3, inputs: vec![] };
    top.source_fragments = vec![
        fragment(FragmentType::Source, table_scan(vec![1]), vec![(text("a"), vec![1])]),
        fragment(FragmentType::Source, none, vec![]),
        fragment(FragmentType::Root, table_scan(vec![]), vec![]),
    ];
    let mut actions = vec![];
    assert!(top.get_actions(&ctx, &mut actions).is_err());
    assert_eq!(actions.len(), 1);
    assert_eq!(actions[0].actions[0].executor, "a");
    assert_eq!(f.get_read_source().unwrap().table, 9);
    let replaced = PlanReplacer::ReplaceReadSource { source: DataSourcePlan { table: 5, parts: vec![8] } }
        .replace(&table_scan(vec![1]));
    match replaced {
        PhysicalPlan::TableScan { source, .. } => assert_eq!((source.table, source.parts), (5, vec![8])),
        other => panic!("{:?}", other),
    }
}
