use fnscan::ast::{
    Block, Expression, Function, Item, LitKind, Param, SourceFile, Statement, TypeAnnotation,
    TypeShape,
};
use fnscan::emit::type_report;
use fnscan::tags::{local_tag, parameter_types, return_type, tag_of_expression};

fn blk(stmts: Vec<Statement>) -> Block {
    Block { stmts }
}

fn lit(k: LitKind) -> Expression {
    Expression::Literal(k)
}

fn tag(e: Expression) -> String {
    tag_of_expression(&e)
}

fn binding(name: &str, annotation: Option<TypeAnnotation>, init: Option<Expression>) -> Statement {
    Statement::Local { name: Some(name.to_string()), annotation, init }
}

#[test]
fn literal_tags() {
    assert_eq!(tag(lit(LitKind::Int)), "int");
    assert_eq!(tag(lit(LitKind::Float)), "float");
    assert_eq!(tag(lit(LitKind::Str)), "string");
    assert_eq!(tag(lit(LitKind::Char)), "char");
    assert_eq!(tag(lit(LitKind::Bool)), "bool");
    assert_eq!(tag(lit(LitKind::Byte)), "u8");
    assert_eq!(tag(lit(LitKind::ByteStr)), "Vec<u8>");
    assert_eq!(tag(lit(LitKind::Verbatim)), "Verbatim Literal");
}

#[test]
fn path_tags_first_segment() {
    let e = Expression::Path(vec!["Color".to_string(), "Red".to_string()]);
    assert_eq!(tag(e), "enum#Color");
    assert_eq!(tag(Expression::Path(vec![])), "NotIdentified#ExprPath");
}

#[test]
fn unary_recurses_into_operand() {
    let e = Expression::Unary(Box::new(lit(LitKind::Float)));
    assert_eq!(tag(e), "float");
    let nested = Expression::Unary(Box::new(Expression::Unary(Box::new(lit(LitKind::Int)))));
    assert_eq!(tag(nested), "int");
}

#[test]
fn call_and_binary_and_control_flow_are_sentinels() {
    assert_eq!(tag(Expression::Call), "NotIdentified#ExprCall");
    let b = Expression::Binary(Box::new(lit(LitKind::Int)), Box::new(lit(LitKind::Int)));
    assert_eq!(tag(b), "NotIdentified#Expression");
    let if_e = Expression::If { then_block: blk(vec![]), else_branch: None };
    assert_eq!(tag(if_e), "NotIdentified#Expression");
    assert_eq!(tag(Expression::Loop(blk(vec![]))), "NotIdentified#Expression");
    assert_eq!(tag(Expression::While(blk(vec![]))), "NotIdentified#Expression");
    assert_eq!(tag(Expression::ForLoop(blk(vec![]))), "NotIdentified#Expression");
    assert_eq!(tag(Expression::TryBlock(blk(vec![]))), "NotIdentified#Expression");
    assert_eq!(tag(Expression::UnsafeBlock(blk(vec![]))), "NotIdentified#Expression");
    assert_eq!(tag(Expression::BlockExpr(blk(vec![]))), "NotIdentified#Expression");
    assert_eq!(tag(Expression::Match(vec![])), "NotIdentified#Expression");
    assert_eq!(
        tag(Expression::TryOperator(Box::new(Expression::Call))),
        "NotIdentified#Expression"
    );
    assert_eq!(tag(Expression::Other), "NotIdentified#Expression");
}

#[test]
fn closure_takes_first_explicit_parameter_type() {
    let e = Expression::Closure(vec![Some("u32".to_string()), None]);
    assert_eq!(tag(e), "u32");
    let untyped = Expression::Closure(vec![None, Some("u8".to_string())]);
    assert_eq!(tag(untyped), "NotIdentified#ExprClosure");
    assert_eq!(tag(Expression::Closure(vec![])), "NotIdentified#ExprClosure");
}

#[test]
fn format_macro_is_a_string() {
    assert_eq!(tag(Expression::MacroInvocation("format".to_string())), "string");
    assert_eq!(
        tag(Expression::MacroInvocation("println".to_string())),
        "NotIdentified#ExprMacro"
    );
}

#[test]
fn array_tags_first_element_and_count() {
    let e = Expression::Array(vec![lit(LitKind::Int), lit(LitKind::Int), lit(LitKind::Int)]);
    assert_eq!(tag(e), "array#[int; 3]");
    assert_eq!(tag(Expression::Array(vec![])), "array#[]");
}

#[test]
fn nested_array_tags_recurse() {
    let inner = Expression::Array(vec![lit(LitKind::Int), lit(LitKind::Int)]);
    let outer = Expression::Array(vec![inner, Expression::Array(vec![lit(LitKind::Int)])]);
    assert_eq!(tag(outer), "array#[array#[int; 2]; 2]");
}

#[test]
fn tuple_tags_join_all_elements() {
    let e = Expression::Tuple(vec![lit(LitKind::Int), lit(LitKind::Char), lit(LitKind::Str)]);
    assert_eq!(tag(e), "tuple#(int, char, string)");
    assert_eq!(tag(Expression::Tuple(vec![lit(LitKind::Bool)])), "tuple#(bool)");
    assert_eq!(tag(Expression::Tuple(vec![])), "tuple#()");
}

#[test]
fn struct_tags_need_a_name_and_a_named_field() {
    let e = Expression::Struct {
        name: Some("Point".to_string()),
        field_is_named: vec![true, true],
    };
    assert_eq!(tag(e), "struct#Point");
    let unnamed = Expression::Struct { name: Some("P".to_string()), field_is_named: vec![false] };
    assert_eq!(tag(unnamed), "NotIdentified#Struct");
    let pathless = Expression::Struct { name: None, field_is_named: vec![true] };
    assert_eq!(tag(pathless), "NotIdentified#Struct");
}

#[test]
fn local_tag_classifies_unannotated_initializer() {
    let st = binding("x", None, Some(lit(LitKind::Int)));
    assert_eq!(local_tag(&st), Some(("x".to_string(), "int".to_string())));
}

#[test]
fn local_tag_of_unrecognized_initializer_is_the_sentinel() {
    let st = binding("r", None, Some(Expression::Other));
    assert_eq!(
        local_tag(&st),
        Some(("r".to_string(), "NotIdentified#Expression".to_string()))
    );
}

#[test]
fn annotation_beats_initializer_shape() {
    let st = binding(
        "y",
        Some(TypeAnnotation { text: "[u8; 4]".to_string(), shape: TypeShape::Array }),
        Some(Expression::Call),
    );
    assert_eq!(local_tag(&st), Some(("y".to_string(), "array#[u8; 4]".to_string())));
    let st = binding(
        "z",
        Some(TypeAnnotation { text: "(i32, u8)".to_string(), shape: TypeShape::Tuple }),
        Some(lit(LitKind::Int)),
    );
    assert_eq!(local_tag(&st), Some(("z".to_string(), "tuple#(i32, u8)".to_string())));
}

#[test]
fn plain_annotation_is_reported_verbatim() {
    let st = binding(
        "v",
        Some(TypeAnnotation { text: "Vec<String>".to_string(), shape: TypeShape::Other }),
        Some(Expression::Call),
    );
    assert_eq!(local_tag(&st), Some(("v".to_string(), "Vec<String>".to_string())));
}

#[test]
fn bindings_without_initializer_or_name_are_skipped() {
    let no_init = binding("x", None, None);
    assert_eq!(local_tag(&no_init), None);
    let destructured = Statement::Local {
        name: None,
        annotation: None,
        init: Some(lit(LitKind::Int)),
    };
    assert_eq!(local_tag(&destructured), None);
    assert_eq!(local_tag(&Statement::Other), None);
    assert_eq!(
        local_tag(&Statement::ExprStmt { expr: Expression::Call, has_terminator: true }),
        None
    );
}

#[test]
fn parameter_types_skip_destructured_parameters() {
    let f = Function {
        name: "h".to_string(),
        params: vec![
            Param::Other,
            Param::Named { name: "n".to_string(), type_text: "u64".to_string() },
            Param::Other,
        ],
        return_type: None,
        body: blk(vec![]),
    };
    assert_eq!(parameter_types(&f), vec![("n".to_string(), "u64".to_string())]);
}

#[test]
fn return_type_is_reported_verbatim() {
    let f = Function {
        name: "h".to_string(),
        params: vec![],
        return_type: Some("Result<(), Error>".to_string()),
        body: blk(vec![]),
    };
    assert_eq!(return_type(&f), Some("Result<(), Error>".to_string()));
    let unit = Function { name: "u".to_string(), params: vec![], return_type: None, body: blk(vec![]) };
    assert_eq!(return_type(&unit), None);
}

#[test]
fn scenario_full_type_report() {
    let f = Function {
        name: "g".to_string(),
        params: vec![
            Param::Named { name: "a".to_string(), type_text: "i32".to_string() },
            Param::Named { name: "b".to_string(), type_text: "&str".to_string() },
        ],
        return_type: Some("bool".to_string()),
        body: blk(vec![
            binding("x", None, Some(lit(LitKind::Int))),
            binding(
                "y",
                Some(TypeAnnotation { text: "[i32; 3]".to_string(), shape: TypeShape::Array }),
                Some(Expression::Array(vec![
                    lit(LitKind::Int),
                    lit(LitKind::Int),
                    lit(LitKind::Int),
                ])),
            ),
            binding("z", None, Some(Expression::MacroInvocation("format".to_string()))),
        ]),
    };
    let expected: Vec<String> = vec![
        "Function;g".to_string(),
        "Argument;a;i32".to_string(),
        "Argument;b;&str".to_string(),
        "Return;bool".to_string(),
        "Local;x;int".to_string(),
        "Local;y;array#[i32; 3]".to_string(),
        "Local;z;string".to_string(),
    ];
    assert_eq!(type_report(&f), expected);
}

#[test]
fn report_without_return_or_locals_has_no_such_lines() {
    let f = Function {
        name: "u".to_string(),
        params: vec![],
        return_type: None,
        body: blk(vec![Statement::Other]),
    };
    let expected: Vec<String> = vec!["Function;u".to_string()];
    assert_eq!(type_report(&f), expected);
}

#[test]
fn extractor_keeps_functions_in_order() {
    let f1 = Function { name: "one".to_string(), params: vec![], return_type: None, body: blk(vec![]) };
    let f2 = Function { name: "two".to_string(), params: vec![], return_type: None, body: blk(vec![]) };
    let file = SourceFile { items: vec![Item::Other, Item::Fn(f1), Item::Other, Item::Fn(f2)] };
    let funcs = fnscan::ast::extract_functions(file);
    assert_eq!(funcs.len(), 2);
    assert_eq!(funcs[0].name, "one");
    assert_eq!(funcs[1].name, "two");
}
