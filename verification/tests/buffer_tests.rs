use esh::code::{
    Action, CodeBin, Instruction, Parameter, ParameterValue, ParamType, Parent, Tag, VarScope, DP_LOC,
    DP_NUM, DP_PARAM, DP_STR, DP_VAR, SEG_CODE, SEG_FUNC, SEG_PARAM,
};
use esh::codegen::bitset::{bitset_allocate, bitset_deallocate};
use esh::codegen::buffer::CodeGenBuffer;
use esh::codegen::errors::ErrorRepr;

fn action(parent: Parent, code: u16) -> Action {
    Action { parent, code }
}

fn ident(v: u32) -> Parameter {
    Parameter { value: ParameterValue::Ident(v), slot: None }
}

fn text(v: &str) -> Parameter {
    Parameter { value: ParameterValue::String(v.to_string()), slot: None }
}

#[test]
fn use_number_gives_one_identifier_per_number() {
    let mut b = CodeGenBuffer::new();
    let five = b.use_number(ParameterValue::Int(5));
    let again = b.use_number(ParameterValue::Int(5));
    let six = b.use_number(ParameterValue::Int(6));
    assert_eq!(five, 0);
    assert_eq!(again, 0);
    assert_eq!(six, 1);
    assert_eq!(b.ident_count, 2);
    assert_eq!(b.param_buffer.instructions.len(), 2);
    assert_eq!(
        b.param_buffer.instructions[0],
        Instruction {
            action: action(Parent::DP, DP_NUM),
            params: vec![ident(0), Parameter { value: ParameterValue::Int(5), slot: None }],
            tags: vec![],
        }
    );
}

#[test]
fn use_number_tells_kinds_apart() {
    let mut b = CodeGenBuffer::new();
    let as_int = b.use_number(ParameterValue::Int(5));
    let as_ident = b.use_number(ParameterValue::Ident(5));
    let as_string = b.use_number(ParameterValue::String("5".to_string()));
    let as_float = b.use_number(ParameterValue::Float(5));
    assert_eq!((as_int, as_ident, as_string, as_float), (0, 1, 2, 3));
}

#[test]
fn param_keys_carry_a_kind_suffix() {
    assert_eq!(CodeGenBuffer::get_param_key(&ParameterValue::Ident(5)), "5v");
    assert_eq!(CodeGenBuffer::get_param_key(&ParameterValue::String("ab".to_string())), "abs");
    assert_eq!(CodeGenBuffer::get_param_key(&ParameterValue::Int(-3)), "-3i");
    assert_eq!(CodeGenBuffer::get_param_key(&ParameterValue::Int(i64::MIN)), "-9223372036854775808i");
    assert_eq!(CodeGenBuffer::get_param_key(&ParameterValue::Float(1.5f64.to_bits())), format!("{}f", 1.5f64.to_bits()));
}

#[test]
fn use_location_defines_anew_each_time() {
    let mut b = CodeGenBuffer::new();
    let zero = || ParameterValue::Int(0);
    let first = b.use_location(zero(), zero(), zero(), zero(), zero());
    let second = b.use_location(zero(), zero(), zero(), zero(), zero());
    assert_eq!(first, 0);
    assert_eq!(second, 1);
    let loc = &b.param_buffer.instructions[0];
    assert_eq!(loc.action, action(Parent::DP, DP_LOC));
    assert_eq!(loc.params.len(), 4);
    assert_eq!(loc.tags, vec![Tag::Pitch(ParameterValue::Int(0)), Tag::Yaw(ParameterValue::Int(0))]);
}

#[test]
fn location_key_is_remembered_among_numbers() {
    let mut b = CodeGenBuffer::new();
    let loc = b.use_location(
        ParameterValue::Int(1),
        ParameterValue::Int(2),
        ParameterValue::Int(3),
        ParameterValue::Int(4),
        ParameterValue::String("5".to_string()),
    );
    // The location's key is "1i 2i 3i 4i 5s", which a string number can spell too.
    let number = b.use_number(ParameterValue::String("1i 2i 3i 4i 5".to_string()));
    assert_eq!(loc, number);
}

#[test]
fn strings_variables_and_functions_are_defined_once() {
    let mut b = CodeGenBuffer::new();
    assert_eq!(b.use_string("hi"), 0);
    assert_eq!(b.use_string("hi"), 0);
    assert_eq!(b.use_variable("x", VarScope::Local), 1);
    assert_eq!(b.use_variable("x", VarScope::Global), 1);
    assert_eq!(b.use_function("main"), 2);
    assert_eq!(b.use_function("main"), 2);
    assert_eq!(
        b.param_buffer.instructions[0],
        Instruction { action: action(Parent::DP, DP_STR), params: vec![ident(0), text("hi")], tags: vec![] }
    );
    assert_eq!(
        b.param_buffer.instructions[1],
        Instruction {
            action: action(Parent::DP, DP_VAR),
            params: vec![ident(1), text("x")],
            tags: vec![Tag::Scope(VarScope::Local)],
        }
    );
    assert_eq!(
        b.func_buffer.instructions,
        vec![Instruction { action: action(Parent::DF, 0), params: vec![ident(2), text("main")], tags: vec![] }]
    );
}

#[test]
fn params_define_their_line_variable_first() {
    let mut b = CodeGenBuffer::new();
    assert_eq!(b.use_param("a"), (1, 0));
    assert_eq!(b.use_param("a"), (1, 0));
    assert_eq!(b.use_return_param("r"), (3, 2));
    assert_eq!(b.use_return_param("a"), (4, 0));
    assert_eq!(
        b.param_buffer.instructions[1],
        Instruction { action: action(Parent::DP, DP_PARAM), params: vec![ident(1), text("a")], tags: vec![] }
    );
    assert_eq!(
        b.param_buffer.instructions[3],
        Instruction {
            action: action(Parent::DP, DP_PARAM),
            params: vec![ident(3), text("r")],
            tags: vec![Tag::ParamType(ParamType::Var)],
        }
    );
    assert_eq!(b.param_buffer.instructions[0].tags, vec![Tag::Scope(VarScope::Line)]);
}

#[test]
fn flush_writes_segments_in_order_and_resets() {
    let mut b = CodeGenBuffer::new();
    b.use_function("f");
    b.use_string("s");
    let bin = b.flush();
    let actions: Vec<Action> = bin.instructions.iter().map(|i| i.action).collect();
    assert_eq!(
        actions,
        vec![
            action(Parent::Seg, SEG_FUNC),
            action(Parent::DF, 0),
            action(Parent::Seg, SEG_PARAM),
            action(Parent::DP, DP_STR),
            action(Parent::Seg, SEG_CODE),
        ]
    );
    assert_eq!(b.ident_count, 0);
    assert_eq!(b.func_buffer.instructions.len(), 0);
    assert_eq!(b.param_buffer.instructions.len(), 0);
    assert_eq!(b.use_string("s"), 0);
}

#[test]
fn clear_empties_buffers() {
    let mut b = CodeGenBuffer::new();
    b.use_function("f");
    b.clear();
    assert_eq!(b.func_buffer.instructions.len(), 0);
    assert_eq!(b.use_function("f"), 0);
}

#[test]
fn line_registers_reuse_the_lowest_free_index() {
    let mut b = CodeGenBuffer::new();
    let r0 = b.allocate_line_register();
    let r1 = b.allocate_line_register();
    assert_eq!((r0, r1), (0, 1));
    assert_eq!(b.param_buffer.instructions[0].params[1], text("_xl0"));
    assert_eq!(b.param_buffer.instructions[1].params[1], text("_xl1"));
    assert!(b.free_line_register(r0).is_ok());
    let again = b.allocate_line_register();
    assert_eq!(again, r0);
    assert_eq!(b.param_buffer.instructions.len(), 2);
}

#[test]
fn freeing_an_unknown_register_fails() {
    let mut b = CodeGenBuffer::new();
    let e = b.free_line_register(7).unwrap_err();
    assert_eq!(e.source, ErrorRepr::RegisterDeallocationError);
    assert!(e.token.is_none());
    let e = b.free_line_registers(vec![7]).unwrap_err();
    assert_eq!(e.source, ErrorRepr::RegisterDeallocationError);
}

#[test]
fn register_groups_free_their_members() {
    let mut b = CodeGenBuffer::new();
    let g = b.allocate_line_register_group();
    assert_eq!(g, 0);
    let r0 = b.allocate_grouped_line_register(g);
    b.free_line_register_group(g);
    let next = b.allocate_line_register();
    assert_eq!(next, r0);
    assert_eq!(b.allocate_line_register_group(), 1);
}

#[test]
fn freeing_a_group_frees_every_member() {
    let mut b = CodeGenBuffer::new();
    let g = b.allocate_line_register_group();
    let r0 = b.allocate_grouped_line_register(g);
    let r1 = b.allocate_grouped_line_register(g);
    assert_ne!(r0, r1);
    b.free_line_register_group(g);
    assert_eq!(b.allocate_line_register(), r0);
    assert_eq!(b.allocate_line_register(), r1);
}

#[test]
fn grouped_registers_stay_in_their_own_group() {
    let mut b = CodeGenBuffer::new();
    let g0 = b.allocate_line_register_group();
    let g1 = b.allocate_line_register_group();
    let r0 = b.allocate_grouped_line_register(g0);
    let _r1 = b.allocate_grouped_line_register(g1);
    b.free_line_register_group(g0);
    assert_eq!(b.allocate_line_register(), r0);
}

#[test]
fn constant_void_is_defined_once_as_global() {
    let mut b = CodeGenBuffer::new();
    let v = b.constant_void();
    assert_eq!(b.constant_void(), v);
    assert_eq!(b.constants.void_variable, Some(v));
    assert_eq!(
        b.param_buffer.instructions,
        vec![Instruction {
            action: action(Parent::DP, DP_VAR),
            params: vec![ident(v), text("_c_void")],
            tags: vec![Tag::Scope(VarScope::Global)],
        }]
    );
}

#[test]
fn bitset_allocates_lowest_free_and_frees() {
    let mut words = vec![0b1011u64];
    assert_eq!(bitset_allocate(&mut words), 2);
    assert_eq!(words, vec![0b1111u64]);
    bitset_deallocate(&mut words, 1);
    assert_eq!(words, vec![0b1101u64]);
    assert_eq!(bitset_allocate(&mut words), 1);
    let mut full = vec![u64::MAX];
    assert_eq!(bitset_allocate(&mut full), 64);
    assert_eq!(full, vec![u64::MAX, 1]);
    let mut empty: Vec<u64> = vec![];
    assert_eq!(bitset_allocate(&mut empty), 0);
    assert_eq!(empty, vec![1]);
}

#[test]
fn bitset_allocate_then_free_restores_the_set() {
    let mut words = vec![0b0111u64, 0];
    let before = words.clone();
    let n = bitset_allocate(&mut words);
    bitset_deallocate(&mut words, n);
    assert_eq!(words, before);
}

#[test]
fn code_bin_appends_and_moves() {
    let mut a = CodeBin::new();
    a.push_instruction(Instruction::new(action(Parent::Else, 0)));
    let mut b = CodeBin::new();
    b.push_instruction(Instruction::new(action(Parent::EndIf, 0)));
    a.append_bin(&b);
    assert_eq!(a.len(), 2);
    a.append_bin_mut(&mut b);
    assert_eq!(a.len(), 3);
    assert_eq!(b.len(), 0);
}
