use std::rc::Rc;

use esh::code::{Action, Coordinate, Instruction, Parameter, ParameterValue, Parent, Tag, VarScope, VAR_GET_COORD, VAR_SET, VAR_SET_LIST_VALUE};
use esh::codegen::codegen::{CodeGen, ContextKind};
use esh::codegen::context::{CodeDefinition, CodeScope, Context, ContextType};
use esh::codegen::errors::ErrorRepr;
use esh::codegen::types::{CodegenLocationCoordinate, CodegenTraceCrumbIdent, PrimitiveType, ValueType};
use esh::lexer::types::{Range, Token, TokenType};
use esh::parser::Node;

fn ident(name: &str) -> Rc<Node> {
    Rc::new(Node::Primary(Rc::new(Token {
        token_type: TokenType::Ident(name.to_string()),
        range: Range::new((0, 0), (0, 0)),
    })))
}

fn decl(ty: &str, name: &str) -> Rc<Node> {
    Rc::new(Node::Declaration(ident(ty), ident(name)))
}

fn block(items: Vec<Rc<Node>>) -> Rc<Node> {
    Rc::new(Node::Block(items))
}

fn assign(name: &str, value: &str) -> Rc<Node> {
    Rc::new(Node::Assignment(ident(name), ident(value)))
}

fn root(g: &mut CodeGen, items: Vec<Rc<Node>>) -> Result<usize, esh::codegen::errors::CodegenError> {
    g.scan_block_outline(block(items), ContextType::Domain, 0, 0, CodeScope::Public, vec![], "root".to_string())
}

#[test]
fn scan_builds_the_tree_of_contexts() {
    let mut g = CodeGen::new();
    let program = vec![
        Rc::new(Node::Struct(ident("Player"), block(vec![decl("num", "hp"), decl("string", "name")]))),
        Rc::new(Node::Func(
            ident("main"),
            Rc::new(Node::Tuple(vec![decl("num", "a"), decl("num", "b")])),
            Rc::new(Node::Empty),
            block(vec![assign("x", "a"), decl("num", "y")]),
        )),
        assign("z", "y"),
    ];
    assert_eq!(root(&mut g, program), Ok(0));
    assert_eq!(g.contexts.len(), 3);
    assert_eq!(g.current_id, 3);
    assert_eq!(g.context_full_names, vec!["__0#root", "__1#root.Player", "__2#root.main"]);
    assert_eq!(g.context_names, vec!["root", "Player", "main"]);
    assert_eq!(g.parents, vec![0, 0, 0]);
    assert_eq!(g.contexts[1].fields.len(), 2);
    assert_eq!(g.field_names[1], vec!["hp", "name"]);
    assert_eq!(g.field_names[2], vec!["a", "b"]);
    assert_eq!(g.contexts[2].fields.len(), 2);
    assert!(matches!(g.contexts[2].context_type, ContextType::Function(ValueType::Ident(_))));
    assert_eq!(g.contexts[2].body.len(), 2);
    assert_eq!(g.contexts[0].body.len(), 1);
    assert_eq!(g.contexts[0].children, vec![1, 2]);
    assert_eq!(g.contexts[1].depth, 1);
    assert!(matches!(g.find_definition_by_ident(&ident("Player"), 0), Ok(CodeDefinition::Context(1))));
    assert!(matches!(g.find_definition_by_ident(&ident("a"), 2), Ok(CodeDefinition::Field(0))));
    assert!(matches!(g.find_definition_by_node(&ident("Player"), 2), Ok(CodeDefinition::Context(1))));
    let missing = g.find_definition_by_node(&ident("nothing"), 2).unwrap_err();
    assert_eq!(missing.source, ErrorRepr::DefinitionIdentNotRecognized);
}

#[test]
fn domains_nest_and_are_found_by_path() {
    let mut g = CodeGen::new();
    let program = vec![Rc::new(Node::Domain(
        ident("Game"),
        block(vec![decl("num", "score"), Rc::new(Node::Domain(ident("Inner"), block(vec![])))]),
    ))];
    assert_eq!(root(&mut g, program), Ok(0));
    assert_eq!(g.context_full_names[2], "__2#root.Game.Inner");
    assert_eq!(g.find_domain_by_ident(&ident("Game"), 2, None), Ok(1));
    let path = Rc::new(Node::Access(ident("Game"), ident("Inner")));
    assert_eq!(g.find_full_context_by_ident(&path, 0), Ok(2));
    assert!(matches!(
        g.find_definition_by_node(&Rc::new(Node::Access(ident("Game"), ident("score"))), 0),
        Ok(CodeDefinition::Field(0))
    ));
    let too_far = g.find_domain_by_ident(&ident("Game"), 2, Some(1)).unwrap_err();
    assert_eq!(too_far.source, ErrorRepr::DomainIdentNotRecognized);
    assert_eq!(g.domain_vars[1].len(), 1);
    assert_eq!(g.domain_vars[1][0].name, "_dvg_1#root.Game.score");
    let var = &g.buffer.param_buffer.instructions[0];
    assert_eq!(var.params[1].value, ParameterValue::String("_dvg_1#root.Game.score".to_string()));
    assert_eq!(var.tags, vec![Tag::Scope(VarScope::Global)]);
}

#[test]
fn scan_refuses_misplaced_declarations() {
    let mut g = CodeGen::new();
    let nested = vec![Rc::new(Node::Func(
        ident("f"),
        Rc::new(Node::Empty),
        Rc::new(Node::Empty),
        block(vec![Rc::new(Node::Struct(ident("S"), block(vec![])))]),
    ))];
    assert_eq!(root(&mut g, nested).unwrap_err().source, ErrorRepr::StructNestedInFunction);

    let mut g = CodeGen::new();
    let twice = vec![Rc::new(Node::Struct(ident("S"), block(vec![decl("num", "a"), decl("num", "a")])))];
    assert_eq!(root(&mut g, twice).unwrap_err().source, ErrorRepr::FieldAlreadyDefined);

    let mut g = CodeGen::new();
    let code_in_struct = vec![Rc::new(Node::Struct(ident("S"), block(vec![assign("a", "b")])))];
    assert_eq!(root(&mut g, code_in_struct).unwrap_err().source, ErrorRepr::UnstructuredStructCode);

    let mut g = CodeGen::new();
    let domain_in_struct = vec![Rc::new(Node::Struct(
        ident("S"),
        block(vec![Rc::new(Node::Domain(ident("D"), block(vec![])))]),
    ))];
    assert_eq!(root(&mut g, domain_in_struct).unwrap_err().source, ErrorRepr::DomainNestedInStruct);

    let mut g = CodeGen::new();
    let e = g
        .scan_block_outline(ident("x"), ContextType::Domain, 0, 0, CodeScope::Public, vec![], "root".to_string())
        .unwrap_err();
    assert_eq!(e.source, ErrorRepr::ExpectedBlock);
}

#[test]
fn definitions_of_one_name_accumulate() {
    let mut c = Context::new_empty(ContextType::Struct, 0, 0, 0, Rc::new(vec![]), CodeScope::Public);
    CodeGen::add_definition(&mut c, "f".to_string(), CodeDefinition::Context(1)).unwrap();
    CodeGen::add_definition(&mut c, "f".to_string(), CodeDefinition::Field(2)).unwrap();
    CodeGen::add_definition(&mut c, "f".to_string(), CodeDefinition::Context(3)).unwrap();
    assert_eq!(c.definition_lookup.len(), 1);
    match &c.definition_lookup[0].1 {
        CodeDefinition::Multiple(v) => {
            assert_eq!(v.len(), 3);
            assert!(matches!(v[0], CodeDefinition::Context(1)));
            assert!(matches!(v[1], CodeDefinition::Field(2)));
        }
        _ => panic!("expected several definitions"),
    }
    let g = CodeGen::new();
    assert_eq!(g.extract_definition_field(&c.definition_lookup[0].1), Ok(2));
}

#[test]
fn definitions_are_extracted_by_kind() {
    let mut g = CodeGen::new();
    let program = vec![
        Rc::new(Node::Struct(ident("S"), block(vec![]))),
        Rc::new(Node::Domain(ident("D"), block(vec![]))),
    ];
    root(&mut g, program).unwrap();
    assert_eq!(g.extract_definition_struct(&CodeDefinition::Context(1)), Ok(1));
    assert_eq!(g.extract_definition_domain(&CodeDefinition::Context(2)), Ok(2));
    assert_eq!(
        g.extract_definition_function(&CodeDefinition::Context(1)).unwrap_err().source,
        ErrorRepr::UnexpectedContextType
    );
    let several = CodeDefinition::Multiple(vec![CodeDefinition::Field(0), CodeDefinition::Context(2)]);
    assert_eq!(g.extract_definition_context(&several, ContextKind::Domain), Ok(2));
    assert_eq!(
        g.extract_definition_context(&CodeDefinition::Field(0), ContextKind::Domain).unwrap_err().source,
        ErrorRepr::ExpectedContext
    );
}

#[test]
fn declarations_and_parameters_are_extracted() {
    let params = Rc::new(Node::Tuple(vec![decl("num", "a"), decl("string", "b")]));
    let found = CodeGen::extract_declaration_vec(&params).unwrap();
    assert_eq!(found.len(), 2);
    assert_eq!(**found[1].1, *ident("b"));
    let bad = Rc::new(Node::Tuple(vec![decl("num", "a"), ident("b")]));
    let e = CodeGen::extract_declaration_vec(&bad).unwrap_err();
    assert_eq!(e.source, ErrorRepr::ExpectedFunctionParamDeclaration);
    assert_eq!(*e.token.unwrap().token, *ident("b"));
    assert_eq!(CodeGen::extract_declaration_vec(&Rc::new(Node::Empty)).unwrap().len(), 0);
    assert_eq!(CodeGen::extract_parameter_vec(&ident("x")).unwrap().len(), 1);
    assert_eq!(CodeGen::extract_parameter_vec(&params).unwrap().len(), 2);
    assert!(CodeGen::extract_parameter_vec(&Rc::new(Node::Break)).is_err());
}

#[test]
fn names_and_primitives() {
    assert_eq!(CodeGen::make_var_name("x", "dvg"), "_dvg_x");
    assert_eq!(CodeGen::is_definition_primitive("num"), Some(PrimitiveType::Number));
    assert_eq!(CodeGen::is_definition_primitive("loc"), Some(PrimitiveType::Location));
    assert_eq!(CodeGen::is_definition_primitive("nums"), None);
    assert_eq!(CodeGen::get_primary_as_ident(&ident("q"), ErrorRepr::Generic).unwrap(), "q");
    assert_eq!(CodeGen::get_primary_as_ident(&Rc::new(Node::Break), ErrorRepr::Generic).unwrap_err().source, ErrorRepr::Generic);
}

#[test]
fn default_values_and_struct_instances() {
    let mut g = CodeGen::new();
    g.get_default_type_value(&ValueType::Primitive(PrimitiveType::Number), 4).unwrap();
    assert_eq!(
        g.buffer.code_buffer.instructions[0],
        Instruction {
            action: Action { parent: Parent::Var, code: VAR_SET },
            params: vec![
                Parameter { value: ParameterValue::Ident(4), slot: None },
                Parameter { value: ParameterValue::Int(0), slot: None },
            ],
            tags: vec![],
        }
    );
    g.get_default_type_value(&ValueType::Primitive(PrimitiveType::Location), 5).unwrap();
    assert_eq!(g.buffer.code_buffer.instructions[1].params.len(), 6);
    let e = g.get_default_type_value(&ValueType::Ident(ident("t")), 6).unwrap_err();
    assert_eq!(e.source, ErrorRepr::UnexpectedValueTypeIdent);

    let mut g = CodeGen::new();
    root(&mut g, vec![Rc::new(Node::Struct(ident("S"), block(vec![decl("num", "a"), decl("num", "b")])))]).unwrap();
    let node = ident("S");
    g.create_struct_instance(&node, 1, 9, &vec![(1, 21), (0, 20)]).unwrap();
    let built = &g.buffer.code_buffer.instructions[0];
    let idents: Vec<ParameterValue> = built.params.iter().map(|p| p.value.clone()).collect();
    assert_eq!(idents, vec![ParameterValue::Ident(9), ParameterValue::Ident(20), ParameterValue::Ident(21)]);
    let e = g.create_struct_instance(&node, 1, 9, &vec![(0, 20)]).unwrap_err();
    assert_eq!(e.source, ErrorRepr::ConstructFieldsMissing);
}

#[test]
fn crumbs_read_and_write_parts() {
    let mut g = CodeGen::new();
    g.get_crumb(CodegenTraceCrumbIdent::Location(CodegenLocationCoordinate::Yaw), 1, 2);
    g.set_crumb(CodegenTraceCrumbIdent::IndexDirect(3), 1, 2);
    let get = &g.buffer.code_buffer.instructions[0];
    assert_eq!(get.action, Action { parent: Parent::Var, code: VAR_GET_COORD });
    assert_eq!(get.tags, vec![Tag::Coordinate(Coordinate::Yaw)]);
    let set = &g.buffer.code_buffer.instructions[1];
    assert_eq!(set.action, Action { parent: Parent::Var, code: VAR_SET_LIST_VALUE });
    let values: Vec<ParameterValue> = set.params.iter().map(|p| p.value.clone()).collect();
    assert_eq!(values, vec![ParameterValue::Ident(2), ParameterValue::Int(3), ParameterValue::Ident(1)]);
}
