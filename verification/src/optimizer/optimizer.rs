//! The optimizer: takes a bin apart, rewrites its code lines, and writes it
//! back.
use vstd::prelude::*;

use crate::code::{instrs_view, Action, CodeBin, Instruction, InstructionView, Parent, CTRL_RETURN};
use crate::optimizer::buffer::{fails_apart, flushed_bin, readable, taken_apart, Buffer};
use crate::optimizer::codeline::{
    branches_view, logs_view, refs_below, BranchView, CodelineBranch, CodelineBranchLog, Codeline, LogView,
};
use crate::optimizer::errors::OptimizerError;
use crate::optimizer::optimizer_settings::OptimizerSettings;

verus! {

/// Whether an instruction returns from its function.
pub open spec fn is_return(i: InstructionView) -> bool {
    i.action == Action { parent: Parent::Ctrl, code: CTRL_RETURN }
}

/// The position of the first return among `cs`, if any.
pub open spec fn first_return_in(cs: Seq<InstructionView>) -> Option<nat>
    decreases cs.len(),
{
    if cs.len() == 0 {
        None
    } else if is_return(cs[0]) {
        Some(0)
    } else {
        match first_return_in(cs.drop_first()) {
            Some(k) => Some(k + 1),
            None => None,
        }
    }
}

/// The first return among the plain stretches of `logs`: the stretch's
/// position and the return's position inside it.
pub open spec fn first_return(logs: Seq<LogView>) -> Option<(nat, nat)>
    decreases logs.len(),
{
    if logs.len() == 0 {
        None
    } else {
        let here = match logs[0] {
            LogView::Codeblocks(cs) => first_return_in(cs),
            LogView::Branch(_) => None,
        };
        match here {
            Some(c) => Some((0, c)),
            None => match first_return(logs.drop_first()) {
                Some((b, c)) => Some((b + 1, c)),
                None => None,
            },
        }
    }
}

/// A branch body cut after its first return: the logs after it are dropped,
/// and so are the instructions after it in its stretch, the return itself
/// too when `delete_return` is set.
pub open spec fn without_end(logs: Seq<LogView>, delete_return: bool) -> Seq<LogView> {
    match first_return(logs) {
        None => logs,
        Some((b, c)) => {
            let keep = if delete_return { c } else { c + 1 };
            let cs = match logs[b as int] {
                LogView::Codeblocks(cs) => cs,
                LogView::Branch(_) => Seq::empty(),
            };
            logs.take((b + 1) as int).update(b as int, LogView::Codeblocks(cs.take(keep as int)))
        },
    }
}

/// What the first return found among `cs` is.
proof fn lemma_first_return_in(cs: Seq<InstructionView>)
    ensures
        first_return_in(cs) matches Some(k) ==> k < cs.len() && is_return(cs[k as int])
            && forall|j: int| 0 <= j < k ==> !is_return(#[trigger] cs[j]),
        first_return_in(cs) is None ==> forall|j: int| 0 <= j < cs.len() ==> !is_return(#[trigger] cs[j]),
    decreases cs.len(),
{
    if cs.len() > 0 {
        lemma_first_return_in(cs.drop_first());
        assert forall|j: int| 1 <= j < cs.len() implies #[trigger] cs[j] == cs.drop_first()[j - 1] by {}
    }
}

/// Where no instruction returns, none is found.
proof fn lemma_no_return_in(cs: Seq<InstructionView>)
    requires
        forall|j: int| 0 <= j < cs.len() ==> !is_return(#[trigger] cs[j]),
    ensures
        first_return_in(cs) is None,
{
    lemma_first_return_in(cs);
    if let Some(k) = first_return_in(cs) {
        assert(is_return(cs[k as int]));
    }
}

/// What the first return found among `logs` is.
proof fn lemma_first_return(logs: Seq<LogView>)
    ensures
        first_return(logs) matches Some((b, c)) ==> b < logs.len() && (logs[b as int] matches LogView::Codeblocks(cs)
            && first_return_in(cs) == Some(c))
            && forall|j: int| 0 <= j < b ==> (#[trigger] logs[j] matches LogView::Codeblocks(cs) ==> first_return_in(cs) is None),
        first_return(logs) is None ==> forall|j: int| 0 <= j < logs.len() ==> (#[trigger] logs[j] matches LogView::Codeblocks(cs)
            ==> first_return_in(cs) is None),
    decreases logs.len(),
{
    if logs.len() > 0 {
        lemma_first_return(logs.drop_first());
        assert forall|j: int| 1 <= j < logs.len() implies #[trigger] logs[j] == logs.drop_first()[j - 1] by {}
    }
}

/// Where no stretch holds a return, none is found.
proof fn lemma_no_return(logs: Seq<LogView>)
    requires
        forall|j: int| 0 <= j < logs.len() ==> (#[trigger] logs[j] matches LogView::Codeblocks(cs) ==> first_return_in(cs) is None),
    ensures
        first_return(logs) is None,
{
    lemma_first_return(logs);
    if let Some((b, c)) = first_return(logs) {
        assert(logs[b as int] matches LogView::Codeblocks(cs) && first_return_in(cs) == Some(c));
    }
}

/// Cutting a body after its first return twice cuts nothing more.
pub proof fn lemma_without_end_idempotent(logs: Seq<LogView>, delete_return: bool)
    ensures
        without_end(without_end(logs, delete_return), delete_return) == without_end(logs, delete_return),
{
    lemma_first_return(logs);
    match first_return(logs) {
        None => {},
        Some((b, c)) => {
            let once = without_end(logs, delete_return);
            let cs = match logs[b as int] {
                LogView::Codeblocks(cs) => cs,
                LogView::Branch(_) => Seq::empty(),
            };
            lemma_first_return_in(cs);
            let keep = if delete_return { c } else { c + 1 };
            let cut = cs.take(keep as int);
            assert forall|j: int| 0 <= j < b implies (#[trigger] once[j] matches LogView::Codeblocks(x) ==> first_return_in(x) is None) by {
                assert(once[j] == logs[j]);
            }
            if delete_return {
                assert forall|j: int| 0 <= j < cut.len() implies !is_return(#[trigger] cut[j]) by {
                    assert(cut[j] == cs[j]);
                }
                lemma_no_return_in(cut);
                assert forall|j: int| 0 <= j < once.len() implies (#[trigger] once[j] matches LogView::Codeblocks(x) ==> first_return_in(x) is None) by {
                    if j == b {
                        assert(once[j] == LogView::Codeblocks(cut));
                    }
                }
                lemma_no_return(once);
            } else {
                assert forall|j: int| 0 <= j < c implies !is_return(#[trigger] cut[j]) by {
                    assert(cut[j] == cs[j]);
                }
                assert(cut[c as int] == cs[c as int]);
                assert(first_return_in(cut) == Some(c)) by {
                    lemma_first_return_in(cut);
                    if let Some(k) = first_return_in(cut) {
                        if k < c {
                            assert(!is_return(cut[k as int]));
                        }
                        if k > c {
                            assert(is_return(cut[c as int]));
                        }
                    } else {
                        assert(is_return(cut[c as int]));
                    }
                }
                lemma_first_return(once);
                assert(first_return(once) == Some((b, c))) by {
                    if let Some((b2, c2)) = first_return(once) {
                        if b2 < b {
                            assert(once[b2 as int] == logs[b2 as int]);
                        }
                        if b2 > b {
                            assert(once[b as int] == LogView::Codeblocks(cut));
                        }
                    } else {
                        assert(once[b as int] == LogView::Codeblocks(cut));
                    }
                }
                assert(cut.take((c + 1) as int) =~= cut);
                assert(once.take((b + 1) as int) =~= once);
                assert(without_end(once, delete_return) =~= once);
            }
        },
    }
}

/// The position of the first return among `cs`, if any.
fn find_return_in(cs: &Vec<Instruction>) -> (r: Option<usize>)
    ensures
        r matches Some(k) ==> first_return_in(instrs_view(cs@)) == Some(k as nat),
        r is None ==> first_return_in(instrs_view(cs@)) is None,
{
    let ghost view = instrs_view(cs@);
    proof {
        lemma_first_return_in(view);
    }
    let mut i: usize = 0;
    while i < cs.len()
        invariant
            i <= cs@.len(),
            view == instrs_view(cs@),
            forall|j: int| 0 <= j < i ==> !is_return(#[trigger] view[j]),
            first_return_in(view) matches Some(k) ==> k < view.len() && is_return(view[k as int])
                && forall|j: int| 0 <= j < k ==> !is_return(#[trigger] view[j]),
            first_return_in(view) is None ==> forall|j: int| 0 <= j < view.len() ==> !is_return(#[trigger] view[j]),
        decreases cs@.len() - i,
    {
        if cs[i].action == (Action { parent: Parent::Ctrl, code: CTRL_RETURN }) {
            proof {
                assert(is_return(view[i as int]));
                if let Some(k) = first_return_in(view) {
                    if k > i {
                        assert(!is_return(view[i as int]));
                    }
                }
            }
            return Some(i);
        }
        i = i + 1;
    }
    None
}

/// The first return among the plain stretches of `logs`.
fn find_return(logs: &Vec<CodelineBranchLog>) -> (r: Option<(usize, usize)>)
    ensures
        r matches Some((b, c)) ==> first_return(logs_view(logs@)) == Some((b as nat, c as nat)),
        r is None ==> first_return(logs_view(logs@)) is None,
{
    let ghost view = logs_view(logs@);
    proof {
        lemma_first_return(view);
    }
    let mut i: usize = 0;
    while i < logs.len()
        invariant
            i <= logs@.len(),
            view == logs_view(logs@),
            forall|j: int| 0 <= j < i ==> (#[trigger] view[j] matches LogView::Codeblocks(cs) ==> first_return_in(cs) is None),
            first_return(view) matches Some((b, c)) ==> b < view.len() && (view[b as int] matches LogView::Codeblocks(cs)
                && first_return_in(cs) == Some(c))
                && forall|j: int| 0 <= j < b ==> (#[trigger] view[j] matches LogView::Codeblocks(cs) ==> first_return_in(cs) is None),
            first_return(view) is None ==> forall|j: int| 0 <= j < view.len() ==> (#[trigger] view[j] matches LogView::Codeblocks(cs)
                ==> first_return_in(cs) is None),
        decreases logs@.len() - i,
    {
        match &logs[i] {
            CodelineBranchLog::Codeblocks(cs) => {
                if let Some(c) = find_return_in(cs) {
                    proof {
                        assert(view[i as int] == LogView::Codeblocks(instrs_view(cs@)));
                        if let Some((b, c2)) = first_return(view) {
                            if b > i {
                                assert(view[i as int] matches LogView::Codeblocks(x) ==> first_return_in(x) is None);
                            }
                        }
                    }
                    return Some((i, c));
                }
                proof {
                    assert(view[i as int] == LogView::Codeblocks(instrs_view(cs@)));
                }
            },
            CodelineBranchLog::Branch(_) => {},
        }
        i = i + 1;
    }
    None
}

/// Cuts a branch body after its first return; see [`without_end`].
pub fn remove_end_returns_from_branch(branch: &mut Vec<CodelineBranchLog>, delete_return: bool)
    ensures
        logs_view(final(branch)@) == without_end(logs_view(old(branch)@), delete_return),
        final(branch)@.len() <= old(branch)@.len(),
        forall|j: int| 0 <= j < final(branch)@.len() ==> (#[trigger] final(branch)@[j] matches CodelineBranchLog::Branch(k)
            ==> old(branch)@[j] == CodelineBranchLog::Branch(k)),
{
    let ghost view = logs_view(branch@);
    proof {
        lemma_first_return(view);
    }
    match find_return(branch) {
        None => {},
        Some((b, c)) => {
            proof {
                assert(b < view.len());
                if let LogView::Codeblocks(cs) = view[b as int] {
                    lemma_first_return_in(cs);
                    match &branch@[b as int] {
                        CodelineBranchLog::Codeblocks(v) => {
                            assert(cs == instrs_view(v@));
                            assert(c < v@.len());
                        },
                        CodelineBranchLog::Branch(_) => {},
                    }
                }
            }
            proof {
                assert(b < view.len());
                if let LogView::Codeblocks(cs) = view[b as int] {
                    lemma_first_return_in(cs);
                    match &branch@[b as int] {
                        CodelineBranchLog::Codeblocks(v) => {
                            assert(cs == instrs_view(v@));
                            assert(c < v@.len());
                        },
                        CodelineBranchLog::Branch(_) => {},
                    }
                }
            }
            let n = branch.len();
            let inner_len = match &branch[b] {
                CodelineBranchLog::Codeblocks(v) => v.len(),
                CodelineBranchLog::Branch(_) => 0,
            };
            proof {
                assert(b < n);
                assert(c < inner_len);
            }
            let keep = if delete_return { c } else { c + 1 };
            branch.truncate(b + 1);
            let last = branch.pop().unwrap();
            match last {
                CodelineBranchLog::Codeblocks(cs) => {
                    let mut cs = cs;
                    let ghost all = instrs_view(cs@);
                    proof {
                        lemma_first_return_in(all);
                    }
                    cs.truncate(keep);
                    branch.push(CodelineBranchLog::Codeblocks(cs));
                    proof {
                        assert(instrs_view(cs@) =~= all.take(keep as int));
                        assert(logs_view(branch@) =~= without_end(view, delete_return));
                    }
                },
                CodelineBranchLog::Branch(_) => {
                    proof {
                        assert(false);
                    }
                },
            }
        },
    }
}

/// A code line with every body cut after its first return: the root body
/// losing the return itself, the nested branches keeping it.
pub open spec fn ends_removed(before: Codeline, after: Codeline) -> bool {
    &&& after.root_instruction == before.root_instruction
    &&& after.body_instructions == before.body_instructions
    &&& after.branches_by_depth == before.branches_by_depth
    &&& logs_view(after.root_branch@) == without_end(logs_view(before.root_branch@), true)
    &&& after.branch_list@.len() == before.branch_list@.len()
    &&& forall|j: int| 0 <= j < before.branch_list@.len() ==> {
        let b = #[trigger] branches_view(before.branch_list@)[j];
        branches_view(after.branch_list@)[j] == BranchView { body: without_end(b.body, false), ..b }
    }
}

/// Cutting a body keeps every branch it names.
proof fn lemma_without_end_refs(logs: Seq<LogView>, delete_return: bool, bound: nat)
    requires
        refs_below(logs, bound),
    ensures
        refs_below(without_end(logs, delete_return), bound),
{
    lemma_first_return(logs);
    let cut = without_end(logs, delete_return);
    assert forall|i: int| 0 <= i < cut.len() implies (#[trigger] cut[i] matches LogView::Branch(j) ==> j < bound) by {
        if let Some((b, c)) = first_return(logs) {
            if i != b {
                assert(cut[i] == logs[i]);
            }
        }
    }
}

/// Cuts every body of a code line after its first return.
fn remove_end_returns_from_line(line: Codeline) -> (out: Codeline)
    requires
        line.wf(),
    ensures
        out.wf(),
        ends_removed(line, out),
{
    let mut line = line;
    let ghost before = line;
    remove_end_returns_from_branch(&mut line.root_branch, true);
    let mut rest: Vec<CodelineBranch> = Vec::new();
    std::mem::swap(&mut rest, &mut line.branch_list);
    let ghost all = branches_view(rest@);
    let n = rest.len();
    let mut done: Vec<CodelineBranch> = Vec::new();
    for k in 0..n
        invariant
            n == all.len(),
            rest@.len() == n - k,
            forall|j: int| 0 <= j < n - k ==> (#[trigger] rest@[j])@ == all[k + j],
            done@.len() == k,
            forall|j: int| 0 <= j < k ==> (#[trigger] done@[j])@ == (BranchView { body: without_end(all[j].body, false), ..all[j] }),
    {
        let mut branch = rest.remove(0);
        proof {
            assert(branch@ == all[k as int]);
            assert forall|j: int| 0 <= j < n - k - 1 implies (#[trigger] rest@[j])@ == all[k + 1 + j] by {}
        }
        remove_end_returns_from_branch(&mut branch.body, false);
        done.push(branch);
    }
    line.branch_list = done;
    proof {
        let after = branches_view(line.branch_list@);
        assert forall|j: int| 0 <= j < after.len() implies refs_below(#[trigger] after[j].body, j as nat) by {
            assert(refs_below(all[j].body, j as nat));
            lemma_without_end_refs(all[j].body, false, j as nat);
        }
        lemma_without_end_refs(logs_view(before.root_branch@), true, before.branch_list@.len() as nat);
    }
    line
}

/// Rewrites a bin: takes it apart, applies the settings, writes it back.
#[derive(Debug, PartialEq)]
pub struct Optimizer {
    pub bin: CodeBin,
    pub buffer: Buffer,
    pub settings: OptimizerSettings,
    pub extension_function_idents: Vec<(u32, usize)>,
}

impl Optimizer {
    /// The code lines can be written out.
    pub open spec fn wf(&self) -> bool {
        self.buffer.branches_wf()
    }

    /// Creates an optimizer for a bin with the given settings; fails where
    /// taking the bin apart fails.
    pub fn new(bin: CodeBin, settings: OptimizerSettings) -> (r: Result<Self, OptimizerError>)
        requires
            readable(bin@),
            bin@.len() < usize::MAX,
        ensures
            match r {
                Ok(o) => o.wf() && o.settings == settings && taken_apart(bin@, o.buffer),
                Err(e) => fails_apart(bin@, e),
            },
    {
        let copy = bin.clone();
        let buffer = Buffer::new(bin)?;
        Ok(Self { bin: copy, buffer, settings, extension_function_idents: Vec::new() })
    }

    /// Writes the bin back out.
    pub fn flush(&mut self) -> (bin: CodeBin)
        requires
            old(self).wf(),
        ensures
            bin@ == flushed_bin(old(self).buffer),
            final(self).settings == old(self).settings,
    {
        self.buffer.flush()
    }

    /// Applies the settings: cuts bodies after their first return when
    /// asked to.
    pub fn optimize(&mut self) -> (r: Result<(), OptimizerError>)
        requires
            old(self).wf(),
            old(self).settings.max_codeblocks_per_line is None,
        ensures
            r is Ok,
            final(self).wf(),
            final(self).settings == old(self).settings,
            old(self).settings.remove_end_returns ==> Self::ends_removed_spec(old(self).buffer, final(self).buffer),
            !old(self).settings.remove_end_returns ==> final(self).buffer == old(self).buffer,
    {
        if self.settings.remove_end_returns {
            self.remove_end_returns()?;
        }
        Ok(())
    }

    /// Whether `after` is `before` with every code line cut after its first
    /// returns.
    pub open spec fn ends_removed_spec(before: Buffer, after: Buffer) -> bool {
        &&& after.func_buffer == before.func_buffer
        &&& after.param_buffer == before.param_buffer
        &&& after.code_lines == before.code_lines
        &&& after.ident_count == before.ident_count
        &&& after.ident_definitions == before.ident_definitions
        &&& after.code_branches@.len() == before.code_branches@.len()
        &&& forall|i: int| 0 <= i < before.code_branches@.len() ==> ends_removed(
            #[trigger] before.code_branches@[i],
            after.code_branches@[i],
        )
    }

    /// Cuts every body of every code line after its first return: the
    /// function itself returns there, so what follows never runs.
    pub fn remove_end_returns(&mut self) -> (r: Result<(), OptimizerError>)
        requires
            old(self).wf(),
        ensures
            r is Ok,
            final(self).wf(),
            final(self).settings == old(self).settings,
            Self::ends_removed_spec(old(self).buffer, final(self).buffer),
    {
        let mut rest: Vec<Codeline> = Vec::new();
        std::mem::swap(&mut rest, &mut self.buffer.code_branches);
        let ghost all = rest@;
        let n = rest.len();
        let mut done: Vec<Codeline> = Vec::new();
        for k in 0..n
            invariant
                n == all.len(),
                rest@.len() == n - k,
                forall|j: int| 0 <= j < n - k ==> #[trigger] rest@[j] == all[k + j],
                forall|j: int| 0 <= j < n ==> (#[trigger] all[j]).wf(),
                done@.len() == k,
                forall|j: int| 0 <= j < k ==> ends_removed(all[j], #[trigger] done@[j]) && done@[j].wf(),
        {
            let line = rest.remove(0);
            proof {
                assert(line == all[k as int]);
                assert forall|j: int| 0 <= j < n - k - 1 implies #[trigger] rest@[j] == all[k + 1 + j] by {}
            }
            let cut = remove_end_returns_from_line(line);
            done.push(cut);
        }
        self.buffer.code_branches = done;
        Ok(())
    }
}

} // verus!
