use esh::code::{
    Action, CodeBin, Instruction, Parameter, ParameterValue, Parent, CTRL_RETURN, SEG_CODE, SEG_FUNC,
    SEG_PARAM,
};
use esh::optimizer::buffer::{check_readable, Buffer};
use esh::optimizer::codeline::{CodelineBranchLog, CodelineBranchType, Codeline};
use esh::optimizer::errors::ErrorRepr;
use esh::optimizer::optimizer::{remove_end_returns_from_branch, Optimizer};
use esh::optimizer::optimizer_settings::{InlinerOptimizerSetting, OptimizerSettings};

fn bare(parent: Parent, code: u16) -> Instruction {
    Instruction { action: Action { parent, code }, params: vec![], tags: vec![] }
}

fn with_ident(parent: Parent, code: u16, ident: u32) -> Instruction {
    Instruction {
        action: Action { parent, code },
        params: vec![Parameter { value: ParameterValue::Ident(ident), slot: None }],
        tags: vec![],
    }
}

fn plain(code: u16) -> Instruction {
    bare(Parent::Other(9), code)
}

fn ret() -> Instruction {
    bare(Parent::Ctrl, CTRL_RETURN)
}

fn settings(remove_end_returns: bool) -> OptimizerSettings {
    OptimizerSettings {
        remove_end_returns,
        max_codeblocks_per_line: None,
        inline_functions: InlinerOptimizerSetting::Never,
        deadcode_elimination: false,
    }
}

#[test]
fn codeline_reads_branches_and_writes_them_back() {
    let line = vec![
        with_ident(Parent::Func, 0, 0),
        plain(1),
        bare(Parent::Varif, 0),
        plain(2),
        bare(Parent::Else, 0),
        plain(3),
        bare(Parent::EndIf, 0),
        bare(Parent::Rep, 0),
        plain(4),
        bare(Parent::EndRep, 0),
        plain(5),
    ];
    let mut c = Codeline::from_bin(CodeBin::from_instructions(line.clone())).unwrap();
    assert_eq!(c.root_instruction, line[0]);
    assert_eq!(c.branch_list.len(), 3);
    assert_eq!(c.branch_list[0].branch_type, CodelineBranchType::If);
    assert_eq!(c.branch_list[0].root, bare(Parent::Varif, 0));
    assert_eq!(c.branch_list[1].root, bare(Parent::Else, 0));
    assert_eq!(c.branch_list[2].branch_type, CodelineBranchType::Repeat);
    assert_eq!(
        c.root_branch,
        vec![
            CodelineBranchLog::Codeblocks(vec![plain(1)]),
            CodelineBranchLog::Branch(0),
            CodelineBranchLog::Branch(1),
            CodelineBranchLog::Branch(2),
            CodelineBranchLog::Codeblocks(vec![plain(5)]),
        ]
    );
    assert_eq!(c.branches_by_depth, vec![vec![], vec![0, 1, 2]]);
    assert_eq!(c.to_bin().instructions, line);
}

#[test]
fn codeline_files_nested_branches_by_depth() {
    let line = vec![
        bare(Parent::Plev, 0),
        bare(Parent::Rep, 0),
        bare(Parent::Varif, 0),
        plain(1),
        bare(Parent::EndIf, 0),
        bare(Parent::EndRep, 0),
    ];
    let mut c = Codeline::from_bin(CodeBin::from_instructions(line.clone())).unwrap();
    assert_eq!(c.branch_list.len(), 2);
    assert_eq!(c.branch_list[0].depth, 2);
    assert_eq!(c.branch_list[1].depth, 1);
    assert_eq!(c.branches_by_depth, vec![vec![], vec![1], vec![0]]);
    assert_eq!(c.to_bin().instructions, line);
}

#[test]
fn codeline_closes_open_branches() {
    let line = vec![bare(Parent::Func, 0), bare(Parent::Varif, 0), plain(1)];
    let mut c = Codeline::from_bin(CodeBin::from_instructions(line)).unwrap();
    assert_eq!(
        c.to_bin().instructions,
        vec![bare(Parent::Func, 0), bare(Parent::Varif, 0), plain(1), bare(Parent::EndIf, 0)]
    );
}

#[test]
fn branch_instructions_write_its_body() {
    let line = vec![bare(Parent::Func, 0), bare(Parent::Varif, 0), plain(1), plain(2), bare(Parent::EndIf, 0)];
    let c = Codeline::from_bin(CodeBin::from_instructions(line)).unwrap();
    let body = c.branch_list[0].instructions(&c.branch_list);
    assert_eq!(body.instructions, vec![plain(1), plain(2)]);
}

fn sample_bin() -> Vec<Instruction> {
    vec![
        bare(Parent::Seg, SEG_FUNC),
        Instruction {
            action: Action { parent: Parent::DF, code: 0 },
            params: vec![
                Parameter { value: ParameterValue::Ident(0), slot: None },
                Parameter { value: ParameterValue::String("main".to_string()), slot: None },
            ],
            tags: vec![],
        },
        bare(Parent::Seg, SEG_PARAM),
        with_ident(Parent::DP, 3, 4),
        bare(Parent::Seg, SEG_CODE),
        with_ident(Parent::Func, 0, 0),
        plain(1),
        ret(),
        plain(2),
        with_ident(Parent::Func, 0, 0),
        bare(Parent::Varif, 0),
        ret(),
        plain(3),
        bare(Parent::EndIf, 0),
    ]
}

#[test]
fn buffer_takes_a_bin_apart() {
    let mut b = Buffer::new(CodeBin::from_instructions(sample_bin())).unwrap();
    assert_eq!(b.func_buffer.instructions.len(), 1);
    assert_eq!(b.param_buffer.instructions.len(), 1);
    assert_eq!(b.code_lines.len(), 2);
    assert_eq!(b.code_branches.len(), 2);
    assert_eq!(b.ident_count, 5);
    assert_eq!(b.next_ident(), 5);
    assert_eq!(b.flush().instructions, sample_bin());
    assert_eq!(b.ident_count, 0);
}

#[test]
fn buffer_drops_instructions_before_any_segment() {
    let bin = vec![plain(7), bare(Parent::Seg, SEG_CODE), plain(8), with_ident(Parent::Func, 0, 0), plain(9)];
    let b = Buffer::new(CodeBin::from_instructions(bin)).unwrap();
    assert_eq!(b.code_lines.len(), 1);
    assert_eq!(b.code_lines[0].instructions, vec![with_ident(Parent::Func, 0, 0), plain(9)]);
}

#[test]
fn buffer_refuses_a_definition_without_identifier() {
    let bin = vec![
        bare(Parent::Seg, SEG_PARAM),
        Instruction {
            action: Action { parent: Parent::DP, code: 0 },
            params: vec![Parameter { value: ParameterValue::Int(1), slot: None }],
            tags: vec![],
        },
    ];
    let e = Buffer::new(CodeBin::from_instructions(bin)).unwrap_err();
    assert_eq!(e.source, ErrorRepr::ExpectedIdentifier);
    assert_eq!(e.instruction, 0);
}

#[test]
fn check_readable_finds_definitions_that_cannot_be_read() {
    assert!(check_readable(&CodeBin::from_instructions(sample_bin())));
    let no_params = vec![bare(Parent::Seg, SEG_PARAM), bare(Parent::DP, 0)];
    assert!(!check_readable(&CodeBin::from_instructions(no_params)));
    let largest = vec![bare(Parent::Seg, SEG_FUNC), with_ident(Parent::DF, 0, u32::MAX)];
    assert!(!check_readable(&CodeBin::from_instructions(largest)));
    let lacking_first = vec![
        bare(Parent::Seg, SEG_PARAM),
        Instruction {
            action: Action { parent: Parent::DP, code: 0 },
            params: vec![Parameter { value: ParameterValue::Int(1), slot: None }],
            tags: vec![],
        },
        bare(Parent::DP, 0),
    ];
    assert!(check_readable(&CodeBin::from_instructions(lacking_first)));
    let marker_only = vec![bare(Parent::Seg, SEG_CODE)];
    assert!(check_readable(&CodeBin::from_instructions(marker_only)));
}

#[test]
fn add_definition_hands_out_the_next_identifier() {
    let mut b = Buffer::new(CodeBin::from_instructions(sample_bin())).unwrap();
    let def = Instruction {
        action: Action { parent: Parent::DF, code: 0 },
        params: vec![Parameter { value: ParameterValue::String("extra".to_string()), slot: None }],
        tags: vec![],
    };
    assert_eq!(b.add_definition(def), 5);
    assert_eq!(b.ident_count, 6);
    assert_eq!(b.func_buffer.instructions.len(), 2);
    assert_eq!(b.func_buffer.instructions[1].params[0].value, ParameterValue::Ident(5));
}

#[test]
fn load_state_takes_segments_and_definitions() {
    let mut a = Buffer::new(CodeBin::from_instructions(vec![])).unwrap();
    let b = Buffer::new(CodeBin::from_instructions(sample_bin())).unwrap();
    a.load_state(b);
    assert_eq!(a.ident_count, 5);
    assert_eq!(a.func_buffer.instructions.len(), 1);
    assert_eq!(a.code_branches.len(), 0);
}

#[test]
fn remove_end_returns_cuts_after_the_first_return() {
    let mut o = Optimizer::new(CodeBin::from_instructions(sample_bin()), settings(true)).unwrap();
    o.optimize().unwrap();
    let out = o.flush().instructions;
    let code: Vec<Instruction> = out[5..].to_vec();
    assert_eq!(
        code,
        vec![
            with_ident(Parent::Func, 0, 0),
            plain(1),
            with_ident(Parent::Func, 0, 0),
            bare(Parent::Varif, 0),
            ret(),
            bare(Parent::EndIf, 0),
        ]
    );
}

#[test]
fn optimize_without_settings_changes_nothing() {
    let mut o = Optimizer::new(CodeBin::from_instructions(sample_bin()), settings(false)).unwrap();
    o.optimize().unwrap();
    assert_eq!(o.flush().instructions, sample_bin());
}

#[test]
fn remove_end_returns_is_idempotent() {
    let mut logs = vec![
        CodelineBranchLog::Codeblocks(vec![plain(1), ret(), plain(2)]),
        CodelineBranchLog::Branch(0),
    ];
    remove_end_returns_from_branch(&mut logs, false);
    assert_eq!(logs, vec![CodelineBranchLog::Codeblocks(vec![plain(1), ret()])]);
    let once = logs.clone();
    remove_end_returns_from_branch(&mut logs, false);
    assert_eq!(logs, once);
    let mut logs = vec![CodelineBranchLog::Codeblocks(vec![plain(1), ret(), plain(2)])];
    remove_end_returns_from_branch(&mut logs, true);
    assert_eq!(logs, vec![CodelineBranchLog::Codeblocks(vec![plain(1)])]);
    remove_end_returns_from_branch(&mut logs, true);
    assert_eq!(logs, vec![CodelineBranchLog::Codeblocks(vec![plain(1)])]);
}

#[test]
fn optimizer_error_messages() {
    assert_eq!(ErrorRepr::ExpectedIdentifier.message(), "Expected an identifier.");
}
