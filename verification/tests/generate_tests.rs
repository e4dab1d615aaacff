use std::rc::Rc;

use esh::code::{
    Action, CodeBin, Instruction, Parameter, ParameterValue, Parent, CTRL_RETURN, CTRL_STOP_REPEAT, DP_NUM, DP_PARAM, DP_STR,
    DP_VAR, REP_FOREVER, VARIF_EQ, VAR_ADD, VAR_APPEND_LIST, VAR_CREATE_LIST, VAR_SET, VAR_SET_LIST_VALUE,
    VAR_GET_LIST_VALUE, VAR_STRING, VAR_VECTOR,
};
use esh::codegen::codegen::CodeGen;
use esh::codegen::context::{CodeScope, ContextType};
use esh::codegen::errors::ErrorRepr;
use esh::codegen::types::{GenerateExpressionSettings, PrimitiveType, ValueType};
use esh::lexer::types::{Keyword, Range, Token, TokenType, ValuedKeyword};
use esh::parser::Node;

fn token(t: TokenType) -> Rc<Node> {
    Rc::new(Node::Primary(Rc::new(Token { token_type: t, range: Range::new((0, 0), (0, 0)) })))
}

fn ident(name: &str) -> Rc<Node> {
    token(TokenType::Ident(name.to_string()))
}

fn number(value: f64) -> Rc<Node> {
    token(TokenType::Number(value.to_bits()))
}

fn decl(ty: &str, name: &str) -> Rc<Node> {
    Rc::new(Node::Declaration(ident(ty), ident(name)))
}

fn block(items: Vec<Rc<Node>>) -> Rc<Node> {
    Rc::new(Node::Block(items))
}

fn assign(target: Rc<Node>, value: Rc<Node>) -> Rc<Node> {
    Rc::new(Node::Assignment(target, value))
}

fn func(name: &str, params: Rc<Node>, returns: Rc<Node>, body: Vec<Rc<Node>>) -> Rc<Node> {
    Rc::new(Node::Func(ident(name), params, returns, block(body)))
}

fn empty() -> Rc<Node> {
    Rc::new(Node::Empty)
}

fn op(parent: Parent, code: u16, values: Vec<ParameterValue>) -> Instruction {
    let mut i = Instruction::new(Action { parent, code });
    for v in values {
        i.push_param(Parameter::from_value(v));
    }
    i
}

fn var_op(code: u16, values: Vec<ParameterValue>) -> Instruction {
    op(Parent::Var, code, values)
}

fn id(i: u32) -> ParameterValue {
    ParameterValue::Ident(i)
}

/// The identifier a definition of the given kind and name was given.
fn defined(bin: &CodeBin, parent: Parent, code: u16, name: &str) -> u32 {
    for i in &bin.instructions {
        if i.action == (Action { parent, code }) && i.params.len() >= 2 {
            if let (ParameterValue::Ident(n), ParameterValue::String(s)) = (&i.params[0].value, &i.params[1].value) {
                if s == name {
                    return *n;
                }
            }
        }
    }
    panic!("no definition of {}", name);
}

fn variable(g: &CodeGen, name: &str) -> u32 {
    defined(&g.buffer.param_buffer, Parent::DP, DP_VAR, name)
}

fn param(g: &CodeGen, name: &str) -> u32 {
    defined(&g.buffer.param_buffer, Parent::DP, DP_PARAM, name)
}

fn function(g: &CodeGen, name: &str) -> u32 {
    defined(&g.buffer.func_buffer, Parent::DF, 0, name)
}

/// The identifier a number was given.
fn number_id(g: &CodeGen, value: f64) -> u32 {
    for i in &g.buffer.param_buffer.instructions {
        if i.action == (Action { parent: Parent::DP, code: DP_NUM }) {
            if let (ParameterValue::Ident(n), ParameterValue::Float(bits)) = (&i.params[0].value, &i.params[1].value) {
                if *bits == value.to_bits() {
                    return *n;
                }
            }
        }
    }
    panic!("no number {}", value);
}

fn compile(program: Vec<Rc<Node>>) -> (CodeGen, Result<(), esh::codegen::errors::CodegenError>) {
    let mut g = CodeGen::new();
    let r = g.codegen_from_node(block(program));
    (g, r)
}

fn code(g: &CodeGen) -> &Vec<Instruction> {
    &g.buffer.code_buffer.instructions
}

#[test]
fn assignment_sets_the_declared_variable() {
    let (g, r) = compile(vec![func("start", empty(), empty(), vec![decl("num", "x"), assign(ident("x"), number(5.0))])]);
    assert_eq!(r, Ok(()));
    let f = function(&g, "__1#main.start");
    let x = variable(&g, "_rvl_x");
    let five = number_id(&g, 5.0);
    assert_eq!(code(&g), &vec![op(Parent::Func, 0, vec![id(f)]), var_op(VAR_SET, vec![id(x), id(five)])]);
}

#[test]
fn function_returns_a_sum_of_its_parameter() {
    let program = vec![func(
        "add_one",
        Rc::new(Node::Tuple(vec![decl("num", "a")])),
        ident("num"),
        vec![Rc::new(Node::Return(Rc::new(Node::Sum(ident("a"), number(1.0)))))],
    )];
    let (g, r) = compile(program);
    assert_eq!(r, Ok(()));
    let f = function(&g, "__1#main.add_one");
    let returned_param = param(&g, "fr");
    let returned_var = variable(&g, "fr");
    let a_param = param(&g, "_rvp_a");
    let a_var = variable(&g, "_rvp_a");
    let one = number_id(&g, 1.0);
    assert_eq!(
        code(&g),
        &vec![
            op(Parent::Func, 0, vec![id(f), id(returned_param), id(a_param)]),
            var_op(VAR_ADD, vec![id(returned_var), id(a_var), id(one)]),
            op(Parent::Ctrl, CTRL_RETURN, vec![]),
        ]
    );
    assert!(matches!(g.contexts[1].context_type, ContextType::Function(ValueType::Primitive(PrimitiveType::Number))));
}

#[test]
fn a_function_that_returns_a_value_must_return_one() {
    let (_, r) = compile(vec![func("f", empty(), ident("num"), vec![])]);
    let e = r.unwrap_err();
    assert_eq!(e.source, ErrorRepr::ExpectedFunctionReturnValue);
    assert!(e.token.is_none());
}

#[test]
fn a_function_that_returns_nothing_returns_no_value() {
    let (_, r) = compile(vec![func("f", empty(), empty(), vec![Rc::new(Node::Return(number(1.0)))])]);
    assert_eq!(r.unwrap_err().source, ErrorRepr::UnexpectedReturnValue);
}

#[test]
fn if_and_else_blocks_close_in_order() {
    let if_node = Rc::new(Node::If(ident("c"), block(vec![assign(ident("c"), ident("c"))])));
    let program = vec![func("f", empty(), empty(), vec![decl("bool", "c"), Rc::new(Node::Else(if_node, block(vec![])))])];
    let (g, r) = compile(program);
    assert_eq!(r, Ok(()));
    let f = function(&g, "__1#main.f");
    let c = variable(&g, "_rvl_c");
    assert_eq!(
        code(&g),
        &vec![
            op(Parent::Func, 0, vec![id(f)]),
            op(Parent::Varif, VARIF_EQ, vec![id(c), ParameterValue::Int(1)]),
            var_op(VAR_SET, vec![id(c), id(c)]),
            op(Parent::Else, 0, vec![]),
            op(Parent::EndIf, 0, vec![]),
        ]
    );
}

#[test]
fn while_loop_repeats_until_its_condition_fails() {
    let program = vec![func("f", empty(), empty(), vec![decl("bool", "c"), Rc::new(Node::While(ident("c"), block(vec![])))])];
    let (g, r) = compile(program);
    assert_eq!(r, Ok(()));
    let f = function(&g, "__1#main.f");
    let c = variable(&g, "_rvl_c");
    assert_eq!(
        code(&g),
        &vec![
            op(Parent::Func, 0, vec![id(f)]),
            op(Parent::Rep, REP_FOREVER, vec![]),
            op(Parent::Varif, VARIF_EQ, vec![id(c), ParameterValue::Int(1)]),
            op(Parent::Ctrl, CTRL_STOP_REPEAT, vec![]),
            op(Parent::EndIf, 0, vec![]),
            op(Parent::EndRep, 0, vec![]),
        ]
    );
}

#[test]
fn struct_instance_is_built_and_its_field_written() {
    let construct = Rc::new(Node::Construct(ident("Player"), block(vec![assign(ident("hp"), number(3.0))])));
    let program = vec![
        Rc::new(Node::Struct(ident("Player"), block(vec![decl("num", "hp")]))),
        func(
            "f",
            empty(),
            empty(),
            vec![
                assign(decl("Player", "p"), construct),
                assign(Rc::new(Node::Access(ident("p"), ident("hp"))), number(4.0)),
            ],
        ),
    ];
    let (g, r) = compile(program);
    assert_eq!(r, Ok(()));
    let f = function(&g, "__2#main.f");
    let p = variable(&g, "_rvl_p");
    let three = number_id(&g, 3.0);
    let four = number_id(&g, 4.0);
    assert_eq!(
        code(&g),
        &vec![
            op(Parent::Func, 0, vec![id(f)]),
            var_op(VAR_CREATE_LIST, vec![id(p), id(three)]),
            var_op(VAR_SET_LIST_VALUE, vec![id(p), ParameterValue::Int(1), id(four)]),
        ]
    );
    assert!(matches!(g.contexts[1].fields[0].field_type, ValueType::Primitive(PrimitiveType::Number)));
}

fn construct_player_with(value: Rc<Node>) -> Result<(), esh::codegen::errors::CodegenError> {
    let construct = Rc::new(Node::Construct(ident("Player"), block(vec![assign(ident("hp"), value)])));
    let program = vec![
        Rc::new(Node::Struct(ident("Player"), block(vec![decl("num", "hp")]))),
        func("f", empty(), empty(), vec![assign(decl("Player", "p"), construct)]),
    ];
    compile(program).1
}

#[test]
fn a_struct_field_must_get_a_value_of_its_type() {
    assert_eq!(construct_player_with(ident("num")).unwrap_err().source, ErrorRepr::CantImplicitlyCast);
    let list_type = Rc::new(Node::ListCall(ident("num"), empty()));
    assert_eq!(construct_player_with(list_type).unwrap_err().source, ErrorRepr::UnexpectedStructFieldType);
}

#[test]
fn declaring_a_variable_twice_is_refused() {
    let (_, r) = compile(vec![func("f", empty(), empty(), vec![decl("num", "x"), decl("num", "x")])]);
    assert_eq!(r.unwrap_err().source, ErrorRepr::DeclaringExistingVariable);
}

fn root() -> CodeGen {
    let mut g = CodeGen::new();
    assert_eq!(
        g.scan_block_outline(block(vec![decl("num", "score")]), ContextType::Domain, 0, 0, CodeScope::Public, vec![], "main".to_string()),
        Ok(0)
    );
    assert_eq!(g.fill_all_field_types(), Ok(()));
    g
}

#[test]
fn vector_is_built_from_three_numbers() {
    let mut g = root();
    let node = Rc::new(Node::Vector(number(1.0), number(2.0), number(3.0)));
    let result = g.generate_expression(0, &node, GenerateExpressionSettings::ident(77)).unwrap();
    assert_eq!(result.value.ident, 77);
    assert_eq!(result.value.value_type, ValueType::Primitive(PrimitiveType::Vector));
    let (one, two, three) = (number_id(&g, 1.0), number_id(&g, 2.0), number_id(&g, 3.0));
    assert_eq!(code(&g), &vec![var_op(VAR_VECTOR, vec![id(77), id(one), id(two), id(three)])]);
}

#[test]
fn a_number_expected_as_a_string_is_cast() {
    let mut g = root();
    let settings = GenerateExpressionSettings::ident(9).expect_type(&ValueType::Primitive(PrimitiveType::String));
    let result = g.generate_expression(0, &number(5.0), settings).unwrap();
    assert_eq!(result.value.ident, 9);
    assert_eq!(result.value.value_type, ValueType::Primitive(PrimitiveType::String));
    let five = number_id(&g, 5.0);
    assert_eq!(code(&g), &vec![var_op(VAR_SET, vec![id(9), id(five)]), var_op(VAR_STRING, vec![id(9), id(five)])]);
}

#[test]
fn a_number_cannot_be_cast_to_a_vector() {
    let mut g = root();
    let settings = GenerateExpressionSettings::ident(9).expect_type(&ValueType::Primitive(PrimitiveType::Vector));
    let e = g.generate_expression(0, &number(5.0), settings).unwrap_err();
    assert_eq!(e.source, ErrorRepr::CantImplicitlyCast);
}

#[test]
fn a_domain_field_reads_its_global_variable() {
    let mut g = root();
    let result = g.generate_expression(0, &ident("score"), GenerateExpressionSettings::comptime()).unwrap();
    let score = variable(&g, "_dvg_0#main.score");
    assert_eq!(result.value.ident, score);
    assert_eq!(result.value.value_type, ValueType::Primitive(PrimitiveType::Number));
    assert_eq!(result.trace.unwrap().root_ident, score);
    assert!(code(&g).is_empty());
}

#[test]
fn a_long_list_is_built_in_chunks() {
    let mut g = root();
    let items: Vec<Rc<Node>> = (0..28).map(|k| number(k as f64)).collect();
    let result = g.generate_expression(0, &Rc::new(Node::List(items)), GenerateExpressionSettings::ident(5)).unwrap();
    assert_eq!(result.value.ident, 5);
    assert!(matches!(&result.value.value_type, ValueType::Primitive(PrimitiveType::List(t)) if **t == ValueType::Primitive(PrimitiveType::Number)));
    let ids: Vec<ParameterValue> = (0..28).map(|k| id(number_id(&g, k as f64))).collect();
    let mut first = vec![id(5)];
    first.extend(ids[0..26].iter().cloned());
    let mut rest = vec![id(5)];
    rest.extend(ids[26..28].iter().cloned());
    assert_eq!(code(&g), &vec![var_op(VAR_CREATE_LIST, first), var_op(VAR_APPEND_LIST, rest)]);
}

#[test]
fn types_of_lists_and_dictionaries_are_named_by_indexing() {
    let mut g = root();
    let list = Rc::new(Node::ListCall(ident("num"), empty()));
    let list_type = g.get_type(&list, 0).unwrap();
    assert!(matches!(&list_type, ValueType::Primitive(PrimitiveType::List(t)) if **t == ValueType::Primitive(PrimitiveType::Number)));
    let dict = Rc::new(Node::ListCall(ident("num"), ident("string")));
    let dict_type = g.get_type(&dict, 0).unwrap();
    assert!(matches!(&dict_type, ValueType::Primitive(PrimitiveType::Dict(v, k))
        if **v == ValueType::Primitive(PrimitiveType::Number) && **k == ValueType::Primitive(PrimitiveType::String)));
    assert_eq!(g.get_type(&number(1.0), 0).unwrap_err().source, ErrorRepr::ExpectedType);
}

#[test]
fn a_block_is_no_expression() {
    let mut g = root();
    let e = g.generate_expression(0, &block(vec![]), GenerateExpressionSettings::comptime()).unwrap_err();
    assert_eq!(e.source, ErrorRepr::UnexpectedExpressionToken);
}

#[test]
fn a_string_literal_is_stored_once() {
    let mut g = root();
    let text = token(TokenType::String("hello".to_string()));
    let first = g.generate_expression(0, &text, GenerateExpressionSettings::comptime()).unwrap();
    let hello = defined(&g.buffer.param_buffer, Parent::DP, DP_STR, "hello");
    assert_eq!(first.value.ident, hello);
    assert_eq!(first.value.value_type, ValueType::Primitive(PrimitiveType::String));
    assert!(first.trace.is_none());
    let second = g.generate_expression(0, &text, GenerateExpressionSettings::ident(4)).unwrap();
    assert_eq!(second.value.ident, hello);
    assert_eq!(code(&g), &vec![var_op(VAR_SET, vec![id(4), id(hello)])]);
}

#[test]
fn a_keyword_value_other_than_self_is_no_primary() {
    let mut g = root();
    let before = g.buffer.param_buffer.instructions.len();
    let truth = token(TokenType::Keyword(Keyword::Value(ValuedKeyword::True)));
    let e = g.generate_expression(0, &truth, GenerateExpressionSettings::comptime()).unwrap_err();
    assert_eq!(e.source, ErrorRepr::UnexpectedPrimaryToken);
    assert_eq!(g.buffer.param_buffer.instructions.len(), before);
    assert!(code(&g).is_empty());
}

#[test]
fn a_vector_literal_has_three_components() {
    let mut g = root();
    let vector = Rc::new(Node::Vector(number(1.0), number(2.0), number(3.0)));
    let y = Rc::new(Node::Access(vector.clone(), ident("y")));
    let result = g.generate_expression(0, &y, GenerateExpressionSettings::ident(8)).unwrap();
    assert_eq!(result.value.value_type, ValueType::Primitive(PrimitiveType::Number));
    let w = Rc::new(Node::Access(vector, ident("w")));
    let e = g.generate_expression(0, &w, GenerateExpressionSettings::ident(8)).unwrap_err();
    assert_eq!(e.source, ErrorRepr::InvalidVectorAccess);
}

#[test]
fn arithmetic_on_literals_follows_their_types() {
    let mut g = root();
    let text = token(TokenType::String("ab".to_string()));
    let repeated = Rc::new(Node::Product(text.clone(), number(2.0)));
    let result = g.generate_expression(0, &repeated, GenerateExpressionSettings::ident(8)).unwrap();
    assert_eq!(result.value.value_type, ValueType::Primitive(PrimitiveType::String));
    let backwards = Rc::new(Node::Sum(number(2.0), text));
    let e = g.generate_expression(0, &backwards, GenerateExpressionSettings::ident(8)).unwrap_err();
    assert_eq!(e.source, ErrorRepr::InvalidExpressionTypeConversion);
}

#[test]
fn an_empty_list_needs_a_list_type() {
    let mut g = root();
    let empty_list = Rc::new(Node::List(vec![]));
    let result = g.generate_expression(0, &empty_list, GenerateExpressionSettings::ident(8)).unwrap();
    assert!(matches!(&result.value.value_type, ValueType::Primitive(PrimitiveType::List(t)) if **t == ValueType::Primitive(PrimitiveType::Void)));
    let settings = GenerateExpressionSettings::ident(8).expect_type(&ValueType::Primitive(PrimitiveType::Number));
    let e = g.generate_expression(0, &empty_list, settings).unwrap_err();
    assert_eq!(e.source, ErrorRepr::ExpectedListType);
}

#[test]
fn literals_cannot_be_assigned_or_called() {
    let mut g = root();
    let e = g.generate_expression(0, &assign(number(1.0), number(2.0)), GenerateExpressionSettings::ident(8)).unwrap_err();
    assert_eq!(e.source, ErrorRepr::NoTraceCantAssign);
    let call = Rc::new(Node::FunctionCall(number(1.0), empty()));
    let e = g.generate_expression(0, &call, GenerateExpressionSettings::ident(8)).unwrap_err();
    assert_eq!(e.source, ErrorRepr::ExpectedFunctionIdentifier);
}

#[test]
fn a_struct_without_fields_is_built_from_an_empty_block() {
    let mut g = CodeGen::new();
    let program = block(vec![Rc::new(Node::Struct(ident("S"), block(vec![])))]);
    assert_eq!(g.scan_block_outline(program, ContextType::Domain, 0, 0, CodeScope::Public, vec![], "main".to_string()), Ok(0));
    assert_eq!(g.fill_all_field_types(), Ok(()));
    let construct = Rc::new(Node::Construct(ident("S"), block(vec![])));
    let result = g.generate_expression(0, &construct, GenerateExpressionSettings::ident(8)).unwrap();
    assert_eq!(result.value.value_type, ValueType::Struct(1));
    assert_eq!(g.get_type(&ident("S"), 0).unwrap(), ValueType::Struct(1));
    assert_eq!(g.get_type(&ident("num"), 0).unwrap(), ValueType::Primitive(PrimitiveType::Number));
}

#[test]
fn reading_a_list_item_adds_one_to_the_index() {
    let mut g = root();
    let declared = Rc::new(Node::Declaration(Rc::new(Node::ListCall(ident("num"), empty())), ident("arr")));
    g.generate_expression_inside(0, &declared, GenerateExpressionSettings::comptime(), 0).unwrap();
    let before = code(&g).len();
    let read = Rc::new(Node::ListCall(ident("arr"), number(0.0)));
    let result = g.generate_expression_inside(0, &read, GenerateExpressionSettings::ident(7), 0).unwrap();
    assert_eq!(result.value.ident, 7);
    assert_eq!(result.value.value_type, ValueType::Primitive(PrimitiveType::Number));
    let arr = variable(&g, "_rvl_arr");
    let zero = number_id(&g, 0.0);
    let added = &code(&g)[before..];
    assert_eq!(added.len(), 2);
    let k = match &added[0].params[0].value {
        ParameterValue::Ident(k) => *k,
        _ => panic!("the index register is no identifier"),
    };
    assert_eq!(added[0], var_op(VAR_ADD, vec![id(k), id(zero), ParameterValue::Int(1)]));
    assert_eq!(added[1], var_op(VAR_GET_LIST_VALUE, vec![id(7), id(arr), id(k)]));
}

#[test]
fn a_dictionary_type_is_held_by_the_void_variable() {
    let mut g = root();
    let before = code(&g).len();
    let node = Rc::new(Node::ListCall(ident("num"), ident("string")));
    let result = g.generate_expression_inside(0, &node, GenerateExpressionSettings::comptime(), 0).unwrap();
    assert!(result.trace.is_none());
    assert_eq!(g.buffer.constants.void_variable, Some(result.value.ident));
    assert_eq!(code(&g).len(), before);
}

#[test]
fn a_call_names_the_function_and_its_result_register() {
    let call = Rc::new(Node::FunctionCall(ident("one"), empty()));
    let program = vec![
        func("one", empty(), ident("num"), vec![Rc::new(Node::Return(number(1.0)))]),
        func("start", empty(), empty(), vec![decl("num", "x"), assign(ident("x"), call)]),
    ];
    let (g, r) = compile(program);
    assert_eq!(r, Ok(()));
    let f = function(&g, "__1#main.one");
    let calls: Vec<&Instruction> = code(&g).iter().filter(|i| i.action == Action { parent: Parent::Call, code: 0 }).collect();
    assert_eq!(calls.len(), 1);
    assert_eq!(calls[0].params.len(), 2);
    assert_eq!(calls[0].params[0].value, id(f));
}

#[test]
fn every_function_gets_its_header_in_order() {
    let program = vec![
        func("first", empty(), empty(), vec![]),
        func("second", empty(), empty(), vec![]),
    ];
    let (g, r) = compile(program);
    assert_eq!(r, Ok(()));
    let first = function(&g, "__1#main.first");
    let second = function(&g, "__2#main.second");
    assert_eq!(code(&g), &vec![op(Parent::Func, 0, vec![id(first)]), op(Parent::Func, 0, vec![id(second)])]);
}

#[test]
fn field_types_are_resolved_with_their_domain_variables() {
    let g = root();
    assert_eq!(g.contexts[0].fields[0].field_type, ValueType::Primitive(PrimitiveType::Number));
    assert_eq!(g.domain_vars[0][0].variable.value_type, ValueType::Primitive(PrimitiveType::Number));
}

#[test]
fn an_expression_evaluated_for_its_type_writes_no_code() {
    let (mut g, r) = compile(vec![func("one", empty(), ident("num"), vec![Rc::new(Node::Return(number(1.0)))])]);
    assert_eq!(r, Ok(()));
    let before = code(&g).len();
    let call = Rc::new(Node::FunctionCall(ident("one"), empty()));
    let result = g.generate_expression_inside(0, &call, GenerateExpressionSettings::comptime(), 0).unwrap();
    assert_eq!(result.value.value_type, ValueType::Primitive(PrimitiveType::Number));
    assert_eq!(code(&g).len(), before);
}

#[test]
fn arithmetic_on_a_variable_follows_its_type() {
    let mut g = root();
    let product = Rc::new(Node::Product(ident("score"), number(2.0)));
    let result = g.generate_expression_inside(0, &product, GenerateExpressionSettings::ident(4), 0).unwrap();
    assert_eq!(result.value.value_type, ValueType::Primitive(PrimitiveType::Number));
    let text = token(TokenType::String("a".to_string()));
    let sum = Rc::new(Node::Sum(ident("score"), text));
    let e = g.generate_expression_inside(0, &sum, GenerateExpressionSettings::ident(4), 0).unwrap_err();
    assert_eq!(e.source, ErrorRepr::InvalidExpressionTypeConversion);
}

#[test]
fn a_call_passes_a_variable_argument_by_its_identifier() {
    let call = Rc::new(Node::FunctionCall(ident("twice"), ident("x")));
    let program = vec![
        func(
            "twice",
            Rc::new(Node::Tuple(vec![decl("num", "a")])),
            ident("num"),
            vec![Rc::new(Node::Return(Rc::new(Node::Product(ident("a"), number(2.0)))))],
        ),
        func(
            "start",
            empty(),
            empty(),
            vec![decl("num", "x"), assign(ident("x"), number(3.0)), decl("num", "y"), assign(ident("y"), call)],
        ),
    ];
    let (g, r) = compile(program);
    assert_eq!(r, Ok(()));
    let f = function(&g, "__1#main.twice");
    let x = variable(&g, "_rvl_x");
    let calls: Vec<&Instruction> = code(&g).iter().filter(|i| i.action == Action { parent: Parent::Call, code: 0 }).collect();
    assert_eq!(calls.len(), 1);
    assert_eq!(calls[0].params.len(), 3);
    assert_eq!(calls[0].params[0].value, id(f));
    assert_eq!(calls[0].params[2].value, id(x));
}

#[test]
fn a_nested_struct_gets_its_declared_fields() {
    let mut g = CodeGen::new();
    let structure = Rc::new(Node::Struct(ident("foo"), block(vec![decl("num", "x")])));
    let r = g.scan_block_outline(block(vec![structure]), ContextType::Domain, 0, 0, CodeScope::Public, vec![], "main".to_string());
    assert_eq!(r, Ok(0));
    assert_eq!(g.contexts.len(), 2);
    assert_eq!(g.context_full_names, vec!["__0#main".to_string(), "__1#main.foo".to_string()]);
    assert_eq!(g.contexts[1].fields.len(), 1);
    assert!(matches!(&g.contexts[1].fields[0].field_type, ValueType::Ident(n) if **n == *ident("num")));
    assert!(g.contexts[1].fields[0].scope == CodeScope::Public);
    assert_eq!(g.field_names[1], vec!["x".to_string()]);
    assert_eq!(g.contexts[0].children, vec![1]);
    assert_eq!(g.contexts[0].fields.len(), 0);
}
