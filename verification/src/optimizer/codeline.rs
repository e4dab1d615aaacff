//! A code line read as a tree of branches: the body of each condition or
//! repeat is a branch, kept in one list and referred to by index.
use vstd::prelude::*;

use crate::code::{
    bare, clone_instructions, instrs_view, Action, CodeBin, Instruction, InstructionView, Parent,
};
use crate::optimizer::errors::OptimizerError;

verus! {

/// A stretch of a branch body: plain instructions, or a nested branch.
#[derive(Debug, PartialEq)]
pub enum CodelineBranchLog {
    Codeblocks(Vec<Instruction>),
    Branch(usize),
}

/// [`CodelineBranchLog`] by its view.
pub enum LogView {
    Codeblocks(Seq<InstructionView>),
    Branch(usize),
}

impl View for CodelineBranchLog {
    type V = LogView;

    open spec fn view(&self) -> LogView {
        match self {
            CodelineBranchLog::Codeblocks(v) => LogView::Codeblocks(instrs_view(v@)),
            CodelineBranchLog::Branch(i) => LogView::Branch(*i),
        }
    }
}

impl Clone for CodelineBranchLog {
    fn clone(&self) -> (c: Self)
        ensures
            c@ == self@,
    {
        match self {
            CodelineBranchLog::Codeblocks(v) => CodelineBranchLog::Codeblocks(clone_instructions(v)),
            CodelineBranchLog::Branch(i) => CodelineBranchLog::Branch(*i),
        }
    }
}

/// The views of a vector of logs.
pub open spec fn logs_view(v: Seq<CodelineBranchLog>) -> Seq<LogView> {
    v.map_values(|l: CodelineBranchLog| l@)
}

/// Clones a vector of logs item by item.
pub fn clone_logs(v: &Vec<CodelineBranchLog>) -> (c: Vec<CodelineBranchLog>)
    ensures
        logs_view(c@) == logs_view(v@),
{
    let mut c: Vec<CodelineBranchLog> = Vec::new();
    for i in 0..v.len()
        invariant
            c@.len() == i,
            forall|k: int| 0 <= k < i ==> (#[trigger] c@[k])@ == v@[k]@,
    {
        c.push(v[i].clone());
    }
    assert(logs_view(c@) =~= logs_view(v@));
    c
}

/// Whether a branch is a condition (closed by an end-if) or a repeat
/// (closed by an end-repeat).
#[derive(Clone, Copy, Debug, PartialEq, Eq, Structural)]
pub enum CodelineBranchType {
    If,
    Repeat,
}

/// The body of a condition or repeat, opened by `root`, at nesting `depth`.
#[derive(Debug, PartialEq)]
pub struct CodelineBranch {
    pub branch_type: CodelineBranchType,
    pub root: Instruction,
    pub body: Vec<CodelineBranchLog>,
    pub depth: usize,
}

/// [`CodelineBranch`] by its view.
pub struct BranchView {
    pub branch_type: CodelineBranchType,
    pub root: InstructionView,
    pub body: Seq<LogView>,
    pub depth: usize,
}

impl View for CodelineBranch {
    type V = BranchView;

    open spec fn view(&self) -> BranchView {
        BranchView {
            branch_type: self.branch_type,
            root: self.root@,
            body: logs_view(self.body@),
            depth: self.depth,
        }
    }
}

impl Clone for CodelineBranch {
    fn clone(&self) -> (c: Self)
        ensures
            c@ == self@,
    {
        CodelineBranch {
            branch_type: self.branch_type,
            root: self.root.clone(),
            body: clone_logs(&self.body),
            depth: self.depth,
        }
    }
}

/// The views of a vector of branches.
pub open spec fn branches_view(v: Seq<CodelineBranch>) -> Seq<BranchView> {
    v.map_values(|b: CodelineBranch| b@)
}

/// Clones a vector of branches item by item.
pub fn clone_branches(v: &Vec<CodelineBranch>) -> (c: Vec<CodelineBranch>)
    ensures
        branches_view(c@) == branches_view(v@),
{
    let mut c: Vec<CodelineBranch> = Vec::new();
    for i in 0..v.len()
        invariant
            c@.len() == i,
            forall|k: int| 0 <= k < i ==> (#[trigger] c@[k])@ == v@[k]@,
    {
        c.push(v[i].clone());
    }
    assert(branches_view(c@) =~= branches_view(v@));
    c
}

/// Every branch that `logs` names comes before `bound` in the list.
pub open spec fn refs_below(logs: Seq<LogView>, bound: nat) -> bool {
    forall|i: int| 0 <= i < logs.len() ==> (#[trigger] logs[i] matches LogView::Branch(j) ==> j < bound)
}

/// Every branch names only branches that come before it.
pub open spec fn branches_ordered(branches: Seq<BranchView>) -> bool {
    forall|j: int| 0 <= j < branches.len() ==> refs_below(#[trigger] branches[j].body, j as nat)
}

/// The instruction that closes a branch of the given type.
pub open spec fn closer(t: CodelineBranchType) -> InstructionView {
    match t {
        CodelineBranchType::If => bare(Action { parent: Parent::EndIf, code: 0 }),
        CodelineBranchType::Repeat => bare(Action { parent: Parent::EndRep, code: 0 }),
    }
}

/// Whether a nested branch goes straight after an end-if: an else does,
/// replacing that end-if.
pub open spec fn joins_else(out: Seq<InstructionView>, root: InstructionView) -> bool {
    out.len() > 0 && out.last().action.parent == Parent::EndIf && root.action.parent == Parent::Else
}

/// The instructions that writing `logs` after `out` gives: plain stretches
/// as they are, each nested branch as its root, its body and its closer,
/// an else taking the place of the end-if before it.
pub open spec fn emitted(
    branches: Seq<BranchView>,
    logs: Seq<LogView>,
    out: Seq<InstructionView>,
    bound: nat,
) -> Seq<InstructionView>
    decreases bound, logs.len(),
{
    if logs.len() == 0 {
        out
    } else {
        let next = match logs[0] {
            LogView::Codeblocks(c) => out + c,
            LogView::Branch(j) => {
                if j < bound {
                    let br = branches[j as int];
                    let kept = if joins_else(out, br.root) {
                        out.drop_last()
                    } else {
                        out
                    };
                    emitted(branches, br.body, kept.push(br.root), j as nat).push(closer(br.branch_type))
                } else {
                    out
                }
            },
        };
        emitted(branches, logs.drop_first(), next, bound)
    }
}

/// Whether writing `logs` meets a nested branch before any instruction.
pub open spec fn opens_with_branch(logs: Seq<LogView>) -> bool
    decreases logs.len(),
{
    if logs.len() == 0 {
        false
    } else {
        match logs[0] {
            LogView::Branch(_) => true,
            LogView::Codeblocks(c) => c.len() == 0 && opens_with_branch(logs.drop_first()),
        }
    }
}

/// How an instruction is read while splitting a line into branches.
pub enum Step {
    /// It closes the current branch.
    Close,
    /// It is an else: the current branch ends before it.
    StopAtElse,
    /// It opens a nested branch.
    Open,
    /// It is a plain instruction.
    Plain,
}

/// How an instruction of category `parent` is read; `met_else` tells that
/// an else has just ended the branch before it.
pub open spec fn step_of(parent: Parent, met_else: bool) -> Step {
    if !met_else {
        match parent {
            Parent::EndIf | Parent::EndRep => Step::Close,
            Parent::Else => Step::StopAtElse,
            Parent::Varif | Parent::Enif | Parent::Plif | Parent::Gmif | Parent::Rep => Step::Open,
            _ => Step::Plain,
        }
    } else {
        match parent {
            Parent::Else => Step::Open,
            _ => Step::Plain,
        }
    }
}

/// Where the splitting of a line stands.
pub struct SplitState {
    pub pointer: nat,
    pub met_else: bool,
    pub branches: Seq<BranchView>,
    pub by_depth: Seq<Seq<usize>>,
}

/// `logs` with a stretch of plain instructions added, if there is one.
pub open spec fn with_chunk(logs: Seq<LogView>, chunk: Seq<InstructionView>) -> Seq<LogView> {
    if chunk.len() > 0 {
        logs.push(LogView::Codeblocks(chunk))
    } else {
        logs
    }
}

/// The table of branches by depth, with `index` filed under `depth`.
pub open spec fn file_at_depth(by_depth: Seq<Seq<usize>>, depth: nat, index: usize) -> Seq<Seq<usize>> {
    let padded = if by_depth.len() > depth {
        by_depth
    } else {
        by_depth + Seq::new((depth + 1 - by_depth.len()) as nat, |i: int| Seq::<usize>::empty())
    };
    padded.update(depth as int, padded[depth as int].push(index))
}

/// The type of the branch that an instruction of category `parent` opens.
pub open spec fn branch_type_of(parent: Parent) -> CodelineBranchType {
    if parent == Parent::Rep {
        CodelineBranchType::Repeat
    } else {
        CodelineBranchType::If
    }
}

/// Reads the instructions `s` from `st.pointer` as the body of a branch at
/// `depth`, having gathered `logs` and the plain stretch `chunk` so far.
pub open spec fn split_rest(
    s: Seq<InstructionView>,
    depth: nat,
    st: SplitState,
    logs: Seq<LogView>,
    chunk: Seq<InstructionView>,
) -> (SplitState, Seq<LogView>)
    decreases s.len() - st.pointer, 0nat,
{
    if st.pointer >= s.len() {
        (st, with_chunk(logs, chunk))
    } else {
        let ins = s[st.pointer as int];
        let moved = SplitState { pointer: st.pointer + 1, ..st };
        match step_of(ins.action.parent, st.met_else) {
            Step::Close => (moved, with_chunk(logs, chunk)),
            Step::StopAtElse => (SplitState { met_else: true, ..st }, with_chunk(logs, chunk)),
            Step::Open => {
                let before = with_chunk(logs, chunk);
                let (inner, body) = split_branch(s, depth + 1, SplitState { met_else: false, ..moved });
                let index = inner.branches.len() as usize;
                let br = BranchView {
                    branch_type: branch_type_of(ins.action.parent),
                    root: ins,
                    body,
                    depth: depth as usize,
                };
                let after = SplitState {
                    branches: inner.branches.push(br),
                    by_depth: file_at_depth(inner.by_depth, depth, index),
                    ..inner
                };
                if after.pointer > st.pointer && after.pointer <= s.len() {
                    split_rest(s, depth, after, before.push(LogView::Branch(index)), Seq::empty())
                } else {
                    (after, before.push(LogView::Branch(index)))
                }
            },
            Step::Plain => split_rest(s, depth, SplitState { met_else: false, ..moved }, logs, chunk.push(ins)),
        }
    }
}

/// Reads the instructions `s` from `st.pointer` as the body of a branch at
/// `depth`: the state after it and the body's logs.
pub open spec fn split_branch(s: Seq<InstructionView>, depth: nat, st: SplitState) -> (SplitState, Seq<LogView>)
    decreases s.len() - st.pointer, 1nat,
{
    split_rest(s, depth, st, Seq::empty(), Seq::empty())
}

/// A code line: its first instruction, and the rest read as branches.
#[derive(Debug, PartialEq)]
pub struct Codeline {
    pub root_instruction: Instruction,
    pub body_instructions: Vec<Instruction>,
    pub root_branch: Vec<CodelineBranchLog>,
    pub branch_list: Vec<CodelineBranch>,
    pub branches_by_depth: Vec<Vec<usize>>,
    pub buffer: CodeBin,
    pub pointer: usize,
    pub met_else: bool,
}

/// Copies a vector of indices.
fn clone_usizes(v: &Vec<usize>) -> (c: Vec<usize>)
    ensures
        c@ == v@,
{
    let mut c: Vec<usize> = Vec::new();
    for i in 0..v.len()
        invariant
            c@ == v@.take(i as int),
    {
        c.push(v[i]);
        assert(v@.take(i + 1) =~= v@.take(i as int).push(v@[i as int]));
    }
    assert(v@.take(v.len() as int) =~= v@);
    c
}

/// The views of a table of indices.
pub open spec fn table_view(v: Seq<Vec<usize>>) -> Seq<Seq<usize>> {
    v.map_values(|r: Vec<usize>| r@)
}

impl Codeline {
    /// Where the splitting of this line stands.
    pub open spec fn split_state(&self) -> SplitState {
        SplitState {
            pointer: self.pointer as nat,
            met_else: self.met_else,
            branches: branches_view(self.branch_list@),
            by_depth: table_view(self.branches_by_depth@),
        }
    }

    /// The body instructions, by their views.
    pub open spec fn body_view(&self) -> Seq<InstructionView> {
        instrs_view(self.body_instructions@)
    }

    /// The branches hang together: each names only earlier branches, and the
    /// root body names only listed ones.
    pub open spec fn wf(&self) -> bool {
        &&& branches_ordered(branches_view(self.branch_list@))
        &&& refs_below(logs_view(self.root_branch@), self.branch_list@.len())
    }

    /// The line as instructions: the root, then the branches written out.
    pub open spec fn bin_view(&self) -> Seq<InstructionView> {
        emitted(
            branches_view(self.branch_list@),
            logs_view(self.root_branch@),
            seq![self.root_instruction@],
            self.branch_list@.len(),
        )
    }

    /// Reads a line: its first instruction is the root, the rest is split
    /// into branches.
    pub fn from_bin(bin: CodeBin) -> (r: Result<Self, OptimizerError>)
        requires
            bin@.len() > 0,
            bin@.len() < usize::MAX,
        ensures
            r matches Ok(line) && line.wf() && line.root_instruction@ == bin@[0]
                && line.body_view() == bin@.drop_first()
                && ({
                    let (st, logs) = split_branch(
                        bin@.drop_first(),
                        1,
                        SplitState { pointer: 0, met_else: false, branches: Seq::empty(), by_depth: Seq::empty() },
                    );
                    &&& logs_view(line.root_branch@) == logs
                    &&& branches_view(line.branch_list@) == st.branches
                    &&& table_view(line.branches_by_depth@) == st.by_depth
                }),
    {
        let mut instructions = bin.instructions;
        let ghost all = instructions@;
        let root_instruction = instructions.remove(0);
        proof {
            assert(instrs_view(instructions@) =~= instrs_view(all).drop_first());
        }
        let mut make = Self {
            root_instruction,
            body_instructions: instructions,
            root_branch: Vec::new(),
            branch_list: Vec::new(),
            branches_by_depth: Vec::new(),
            buffer: CodeBin::new(),
            pointer: 0,
            met_else: false,
        };
        proof {
            assert(make.split_state().branches =~= Seq::<BranchView>::empty());
            assert(make.split_state().by_depth =~= Seq::<Seq<usize>>::empty());
        }
        let root = make.evaluate_branch(1);
        make.root_branch = root;
        Ok(make)
    }

    /// Reads the body from the pointer on as the body of a branch at `depth`,
    /// filing nested branches in the branch list.
    fn evaluate_branch(&mut self, depth: usize) -> (logs: Vec<CodelineBranchLog>)
        requires
            old(self).pointer <= old(self).body_instructions@.len(),
            old(self).body_instructions@.len() < usize::MAX,
            depth <= old(self).pointer + 1,
            branches_ordered(old(self).split_state().branches),
        ensures
            final(self).body_instructions == old(self).body_instructions,
            final(self).root_instruction == old(self).root_instruction,
            final(self).root_branch == old(self).root_branch,
            final(self).buffer == old(self).buffer,
            (final(self).split_state(), logs_view(logs@)) == split_branch(
                old(self).body_view(),
                depth as nat,
                old(self).split_state(),
            ),
            final(self).pointer <= final(self).body_instructions@.len(),
            final(self).pointer >= old(self).pointer,
            branches_ordered(final(self).split_state().branches),
            refs_below(logs_view(logs@), final(self).branch_list@.len()),
            final(self).branch_list@.len() >= old(self).branch_list@.len(),
        decreases old(self).body_instructions@.len() - old(self).pointer, 1nat,
    {
        let logs: Vec<CodelineBranchLog> = Vec::new();
        let instructions: Vec<Instruction> = Vec::new();
        proof {
            assert(logs_view(logs@) =~= Seq::<LogView>::empty());
            assert(instrs_view(instructions@) =~= Seq::<InstructionView>::empty());
        }
        self.evaluate_rest(depth, logs, instructions)
    }

    /// Goes on reading a branch body at `depth`, with `logs` and the plain
    /// stretch `instructions` gathered so far.
    fn evaluate_rest(
        &mut self,
        depth: usize,
        logs: Vec<CodelineBranchLog>,
        instructions: Vec<Instruction>,
    ) -> (result: Vec<CodelineBranchLog>)
        requires
            old(self).pointer <= old(self).body_instructions@.len(),
            old(self).body_instructions@.len() < usize::MAX,
            depth <= old(self).pointer + 1,
            branches_ordered(old(self).split_state().branches),
            refs_below(logs_view(logs@), old(self).branch_list@.len()),
        ensures
            final(self).body_instructions == old(self).body_instructions,
            final(self).root_instruction == old(self).root_instruction,
            final(self).root_branch == old(self).root_branch,
            final(self).buffer == old(self).buffer,
            (final(self).split_state(), logs_view(result@)) == split_rest(
                old(self).body_view(),
                depth as nat,
                old(self).split_state(),
                logs_view(logs@),
                instrs_view(instructions@),
            ),
            final(self).pointer <= final(self).body_instructions@.len(),
            final(self).pointer >= old(self).pointer,
            branches_ordered(final(self).split_state().branches),
            refs_below(logs_view(result@), final(self).branch_list@.len()),
            final(self).branch_list@.len() >= old(self).branch_list@.len(),
        decreases old(self).body_instructions@.len() - old(self).pointer, 0nat,
    {
        let mut logs = logs;
        let mut instructions = instructions;
        if self.pointer >= self.body_instructions.len() {
            self.flush_chunk(&mut logs, instructions);
            return logs;
        }
        let instruction = self.body_instructions[self.pointer].clone();
        let ghost st = self.split_state();
        let ghost s = self.body_view();
        proof {
            assert(instruction@ == s[self.pointer as int]);
        }
        self.pointer = self.pointer + 1;
        let parent = instruction.action.parent;
        let close = !self.met_else && (parent == Parent::EndIf || parent == Parent::EndRep);
        let stop_at_else = !self.met_else && parent == Parent::Else;
        let open = (!self.met_else && (parent == Parent::Varif || parent == Parent::Enif
            || parent == Parent::Plif || parent == Parent::Gmif || parent == Parent::Rep))
            || (self.met_else && parent == Parent::Else);
        if close {
            self.flush_chunk(&mut logs, instructions);
            proof {
                assert(self.split_state() == (SplitState { pointer: st.pointer + 1, ..st }));
            }
            logs
        } else if stop_at_else {
            self.pointer = self.pointer - 1;
            self.met_else = true;
            self.flush_chunk(&mut logs, instructions);
            proof {
                assert(self.split_state() == (SplitState { met_else: true, ..st }));
            }
            logs
        } else if open {
            self.met_else = false;
            self.flush_chunk(&mut logs, instructions);
            let ghost before = logs_view(logs@);
            let ghost entry = self.split_state();
            proof {
                assert(entry == (SplitState { met_else: false, pointer: st.pointer + 1, ..st }));
            }
            let evaluated_branch = self.evaluate_branch(depth + 1);
            let ghost inner = self.split_state();
            let branch_index = self.branch_list.len();
            let branch_type = if parent == Parent::Rep {
                CodelineBranchType::Repeat
            } else {
                CodelineBranchType::If
            };
            let ghost br = BranchView {
                branch_type,
                root: instruction@,
                body: logs_view(evaluated_branch@),
                depth,
            };
            self.branch_list.push(CodelineBranch {
                branch_type,
                root: instruction,
                body: evaluated_branch,
                depth,
            });
            logs.push(CodelineBranchLog::Branch(branch_index));
            self.file_branch(depth, branch_index);
            proof {
                assert(branches_view(self.branch_list@) =~= inner.branches.push(br));
                assert(self.split_state() == (SplitState {
                    branches: inner.branches.push(br),
                    by_depth: file_at_depth(inner.by_depth, depth as nat, branch_index),
                    ..inner
                }));
                assert(logs_view(logs@) =~= before.push(LogView::Branch(branch_index)));
                assert(branches_ordered(self.split_state().branches));
                assert forall|i: int| 0 <= i < logs_view(logs@).len() implies (#[trigger] logs_view(logs@)[i] matches LogView::Branch(j) ==> j < self.branch_list@.len()) by {
                    if i < before.len() {
                        assert(logs_view(logs@)[i] == before[i]);
                    }
                }
            }
            let fresh: Vec<Instruction> = Vec::new();
            proof {
                assert(instrs_view(fresh@) =~= Seq::<InstructionView>::empty());
            }
            self.evaluate_rest(depth, logs, fresh)
        } else {
            self.met_else = false;
            let ghost chunk = instrs_view(instructions@);
            instructions.push(instruction);
            proof {
                assert(instrs_view(instructions@) =~= chunk.push(s[st.pointer as int]));
                assert(self.split_state() == (SplitState { met_else: false, pointer: st.pointer + 1, ..st }));
            }
            self.evaluate_rest(depth, logs, instructions)
        }
    }

    /// Adds the plain stretch to the logs, if there is one.
    fn flush_chunk(&self, logs: &mut Vec<CodelineBranchLog>, instructions: Vec<Instruction>)
        ensures
            logs_view(final(logs)@) == with_chunk(logs_view(old(logs)@), instrs_view(instructions@)),
            forall|i: int| 0 <= i < old(logs)@.len() ==> #[trigger] final(logs)@[i] == old(logs)@[i],
            final(logs)@.len() >= old(logs)@.len(),
            forall|i: int| old(logs)@.len() <= i < final(logs)@.len() ==> (#[trigger] final(logs)@[i]) is Codeblocks,
    {
        if instructions.len() > 0 {
            let ghost chunk = instrs_view(instructions@);
            logs.push(CodelineBranchLog::Codeblocks(instructions));
            proof {
                assert(logs_view(logs@) =~= logs_view(old(logs)@).push(LogView::Codeblocks(chunk)));
            }
        }
    }

    /// Files a branch under its depth, growing the table as needed.
    fn file_branch(&mut self, depth: usize, index: usize)
        ensures
            table_view(final(self).branches_by_depth@) == file_at_depth(table_view(old(self).branches_by_depth@), depth as nat, index),
            final(self).body_instructions == old(self).body_instructions,
            final(self).root_instruction == old(self).root_instruction,
            final(self).root_branch == old(self).root_branch,
            final(self).branch_list == old(self).branch_list,
            final(self).buffer == old(self).buffer,
            final(self).pointer == old(self).pointer,
            final(self).met_else == old(self).met_else,
    {
        let ghost start = table_view(self.branches_by_depth@);
        while self.branches_by_depth.len() <= depth
            invariant
                start == table_view(old(self).branches_by_depth@),
                self.branches_by_depth@.len() >= start.len(),
                forall|i: int| 0 <= i < start.len() ==> #[trigger] table_view(self.branches_by_depth@)[i] == start[i],
                forall|i: int| start.len() <= i < self.branches_by_depth@.len() ==> #[trigger] table_view(self.branches_by_depth@)[i] == Seq::<usize>::empty(),
                start.len() > depth ==> self.branches_by_depth@.len() == start.len(),
                self.branches_by_depth@.len() <= (if start.len() > depth { start.len() as int } else { depth as int + 1 }),
                self.body_instructions == old(self).body_instructions,
                self.root_instruction == old(self).root_instruction,
                self.root_branch == old(self).root_branch,
                self.branch_list == old(self).branch_list,
                self.buffer == old(self).buffer,
                self.pointer == old(self).pointer,
                self.met_else == old(self).met_else,
            decreases depth + 1 - self.branches_by_depth@.len(),
        {
            let row: Vec<usize> = Vec::new();
            let ghost prev = self.branches_by_depth@;
            proof {
                assert(row@ =~= Seq::<usize>::empty());
            }
            self.branches_by_depth.push(row);
            proof {
                assert(table_view(self.branches_by_depth@) =~= table_view(prev).push(Seq::<usize>::empty()));
            }
        }
        let mut row = clone_usizes(&self.branches_by_depth[depth]);
        row.push(index);
        let ghost padded = table_view(self.branches_by_depth@);
        self.branches_by_depth.set(depth, row);
        proof {
            let target = file_at_depth(start, depth as nat, index);
            let pad = if start.len() > depth {
                start
            } else {
                start + Seq::new((depth + 1 - start.len()) as nat, |i: int| Seq::<usize>::empty())
            };
            assert(padded =~= pad);
            assert(table_view(self.branches_by_depth@) =~= target);
        }
    }

    /// Writes the line out: the root, then the branches.
    pub fn to_bin(&mut self) -> (bin: CodeBin)
        requires
            old(self).wf(),
        ensures
            bin@ == old(self).bin_view(),
            final(self).root_instruction == old(self).root_instruction,
            final(self).body_instructions == old(self).body_instructions,
            final(self).root_branch == old(self).root_branch,
            final(self).branch_list == old(self).branch_list,
            final(self).branches_by_depth == old(self).branches_by_depth,
    {
        let buffer = self.bin_of();
        self.buffer = buffer.clone();
        buffer
    }

    /// The line as instructions: the root, then the branches written out.
    pub fn bin_of(&self) -> (bin: CodeBin)
        requires
            self.wf(),
        ensures
            bin@ == self.bin_view(),
    {
        let mut buffer = CodeBin::new();
        buffer.push_instruction(self.root_instruction.clone());
        proof {
            assert(buffer@ =~= seq![self.root_instruction@]);
        }
        add_logs(&self.branch_list, &self.root_branch, &mut buffer, Ghost(self.branch_list@.len() as nat));
        buffer
    }
}

/// Writes `logs` after the instructions of `buffer`.
fn add_logs(
    branches: &Vec<CodelineBranch>,
    logs: &Vec<CodelineBranchLog>,
    buffer: &mut CodeBin,
    Ghost(bound): Ghost<nat>,
)
    requires
        bound <= branches@.len(),
        branches_ordered(branches_view(branches@)),
        refs_below(logs_view(logs@), bound),
        old(buffer)@.len() > 0 || !opens_with_branch(logs_view(logs@)),
    ensures
        final(buffer)@ == emitted(branches_view(branches@), logs_view(logs@), old(buffer)@, bound),
    decreases bound, 0nat,
{
    let ghost bs = branches_view(branches@);
    let ghost all = logs_view(logs@);
    let mut i: usize = 0;
    proof {
        assert(all.skip(0) =~= all);
    }
    while i < logs.len()
        invariant
            i <= logs@.len(),
            all == logs_view(logs@),
            bs == branches_view(branches@),
            bound <= branches@.len(),
            branches_ordered(bs),
            refs_below(all, bound),
            emitted(bs, all, old(buffer)@, bound) == emitted(bs, all.skip(i as int), buffer@, bound),
            buffer@.len() > 0 || !opens_with_branch(all.skip(i as int)),
        decreases logs@.len() - i,
    {
        let ghost rest = all.skip(i as int);
        let ghost out = buffer@;
        proof {
            assert(rest[0] == all[i as int]);
            assert(rest.drop_first() =~= all.skip(i + 1));
        }
        match &logs[i] {
            CodelineBranchLog::Branch(branch_index) => {
                let j = *branch_index;
                proof {
                    assert(all[i as int] == LogView::Branch(j));
                    assert(j < bound);
                    assert(buffer@.len() > 0);
                }
                let branch = &branches[j];
                let last_is_end_if = buffer.instructions[buffer.instructions.len() - 1].action.parent == Parent::EndIf;
                if last_is_end_if && branch.root.action.parent == Parent::Else {
                    buffer.instructions.pop();
                    proof {
                        assert(buffer@ =~= out.drop_last());
                    }
                }
                buffer.push_instruction(branch.root.clone());
                proof {
                    assert(bs[j as int] == branch@);
                    assert(refs_below(bs[j as int].body, j as nat));
                }
                add_logs(branches, &branch.body, buffer, Ghost(j as nat));
                let close = match branch.branch_type {
                    CodelineBranchType::If => Instruction::new(Action { parent: Parent::EndIf, code: 0 }),
                    CodelineBranchType::Repeat => Instruction::new(Action { parent: Parent::EndRep, code: 0 }),
                };
                buffer.push_instruction(close);
            },
            CodelineBranchLog::Codeblocks(codeblocks) => {
                buffer.append_instructions(clone_instructions(codeblocks));
                proof {
                    assert(all[i as int] == LogView::Codeblocks(instrs_view(codeblocks@)));
                }
            },
        }
        i = i + 1;
    }
    proof {
        assert(all.skip(i as int) =~= Seq::<LogView>::empty());
    }
}

impl CodelineBranch {
    /// Writes the body of this branch after the instructions of `buffer`.
    pub fn add_instructions(&self, branches: &Vec<CodelineBranch>, buffer: &mut CodeBin)
        requires
            branches_ordered(branches_view(branches@)),
            refs_below(logs_view(self.body@), branches@.len()),
            old(buffer)@.len() > 0 || !opens_with_branch(logs_view(self.body@)),
        ensures
            final(buffer)@ == emitted(branches_view(branches@), logs_view(self.body@), old(buffer)@, branches@.len() as nat),
    {
        add_logs(branches, &self.body, buffer, Ghost(branches@.len() as nat));
    }

    /// The body of this branch written out on its own.
    pub fn instructions(&self, branches: &Vec<CodelineBranch>) -> (bin: CodeBin)
        requires
            branches_ordered(branches_view(branches@)),
            refs_below(logs_view(self.body@), branches@.len()),
            !opens_with_branch(logs_view(self.body@)),
        ensures
            bin@ == emitted(branches_view(branches@), logs_view(self.body@), Seq::empty(), branches@.len() as nat),
    {
        let mut buffer = CodeBin::new();
        self.add_instructions(branches, &mut buffer);
        buffer
    }
}

} // verus!
