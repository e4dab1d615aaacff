//! A compiled bin taken apart for optimisation: its function and parameter
//! segments, its code lines read as branches, and the definition behind
//! each identifier.
use vstd::prelude::*;

use crate::code::{
    bare, clone_instructions, instrs_view, param_values, params_view, Action, CodeBin, Instruction, InstructionView,
    Parameter, ParameterValue, Parent, ValueView, SEG_CODE, SEG_FUNC, SEG_PARAM,
};
use crate::optimizer::codeline::{
    branches_view, logs_view, split_branch, table_view, Codeline, SplitState,
};
use crate::optimizer::errors::{ErrorRepr, OptimizerError};
use crate::table::keyed;

verus! {

/// What an identifier was defined by: the defining instruction and the
/// values of its parameters after the identifier.
pub type Definition = (Instruction, Vec<ParameterValue>);

/// [`Definition`] by its view.
pub open spec fn definition_view(d: Definition) -> (InstructionView, Seq<ValueView>) {
    (d.0@, values_view(d.1@))
}

/// The views of a vector of values.
pub open spec fn values_view(v: Seq<ParameterValue>) -> Seq<ValueView> {
    v.map_values(|p: ParameterValue| p@)
}

/// The definitions, by identifier, with later entries replacing earlier ones.
pub open spec fn definitions_view(t: Seq<(u32, Definition)>) -> Map<u32, (InstructionView, Seq<ValueView>)> {
    keyed(t).map_values(|d: Definition| definition_view(d))
}

/// The segment that instructions are being read into.
#[derive(Clone, Copy, Debug, PartialEq, Eq, Structural)]
pub enum Segment {
    /// Before any segment marker: instructions are dropped.
    Before,
    Func,
    Param,
    Code,
}

/// The segment that a segment marker opens, if it is one.
pub open spec fn segment_of(a: Action) -> Option<Segment> {
    if a.parent == Parent::Seg && a.code == SEG_FUNC {
        Some(Segment::Func)
    } else if a.parent == Parent::Seg && a.code == SEG_PARAM {
        Some(Segment::Param)
    } else if a.parent == Parent::Seg && a.code == SEG_CODE {
        Some(Segment::Code)
    } else {
        None
    }
}

/// Whether an instruction defines an identifier (a parameter or a function).
pub open spec fn is_definition(i: InstructionView) -> bool {
    i.action.parent == Parent::DP || i.action.parent == Parent::DF
}

/// Whether an instruction starts a code line.
pub open spec fn starts_line(i: InstructionView) -> bool {
    i.action.parent == Parent::Func || i.action.parent == Parent::FuncA || i.action.parent == Parent::Plev
        || i.action.parent == Parent::Enev
}

/// Whether a definition's first parameter is not an identifier.
pub open spec fn lacks_ident(i: InstructionView) -> bool {
    is_definition(i) && i.params.len() > 0 && !(i.params[0].value is Ident)
}

/// Whether reading a definition cannot go on: it has no parameter, or its
/// identifier is the largest one.
pub open spec fn unreadable(i: InstructionView) -> bool {
    is_definition(i) && (i.params.len() == 0 || i.params[0].value == ValueView::Ident(u32::MAX))
}

/// What reading a bin builds up.
pub struct ReadState {
    pub segment: Segment,
    pub funcs: Seq<InstructionView>,
    pub params: Seq<InstructionView>,
    pub lines: Seq<Seq<InstructionView>>,
    pub definitions: Map<u32, (InstructionView, Seq<ValueView>)>,
    pub ident_count: u32,
}

/// The state after reading one instruction that is not a segment marker
/// and whose definition, if it is one, names an identifier.
pub open spec fn read_one(st: ReadState, i: InstructionView) -> ReadState {
    let defined = if is_definition(i) {
        let ident = match i.params[0].value {
            ValueView::Ident(x) => x,
            _ => 0,
        };
        ReadState {
            definitions: st.definitions.insert(ident, (i, param_values(i.params.drop_first()))),
            ident_count: if st.ident_count < ident + 1 { (ident + 1) as u32 } else { st.ident_count },
            ..st
        }
    } else {
        st
    };
    match st.segment {
        Segment::Func => ReadState { funcs: defined.funcs.push(i), ..defined },
        Segment::Param => ReadState { params: defined.params.push(i), ..defined },
        Segment::Code => {
            let lines = if starts_line(i) {
                defined.lines.push(Seq::empty())
            } else {
                defined.lines
            };
            if lines.len() > 0 {
                ReadState { lines: lines.update(lines.len() - 1, lines.last().push(i)), ..defined }
            } else {
                ReadState { lines, ..defined }
            }
        },
        Segment::Before => defined,
    }
}

/// The state after reading `s`, and whether every definition named an
/// identifier; reading stops at the first one that does not.
pub open spec fn read_all(st: ReadState, s: Seq<InstructionView>) -> (ReadState, bool)
    decreases s.len(),
{
    if s.len() == 0 {
        (st, true)
    } else {
        let i = s[0];
        match segment_of(i.action) {
            Some(seg) => read_all(ReadState { segment: seg, ..st }, s.drop_first()),
            None => {
                if lacks_ident(i) {
                    (st, false)
                } else {
                    read_all(read_one(st, i), s.drop_first())
                }
            },
        }
    }
}

/// Reading `s` never meets an unreadable definition before it would stop.
pub open spec fn readable(s: Seq<InstructionView>) -> bool {
    forall|i: int| 0 <= i < s.len() && #[trigger] unreadable(s[i]) && segment_of(s[i].action) is None
        ==> exists|k: int| 0 <= k < i && #[trigger] lacks_ident(s[k]) && segment_of(s[k].action) is None
}

/// Tells whether a bin can be taken apart: walks it until a definition
/// that cannot be read (not readable) or one without an identifier, whose
/// error stops the reading first (readable).
pub fn check_readable(bin: &CodeBin) -> (b: bool)
    ensures
        b == readable(bin@),
{
    let ghost all = bin@;
    let n = bin.instructions.len();
    let mut i: usize = 0;
    while i < n
        invariant
            n == bin.instructions@.len(),
            all == bin@,
            all == instrs_view(bin.instructions@),
            i <= n,
            forall|j: int| 0 <= j < i ==> !(#[trigger] unreadable(all[j]) && segment_of(all[j].action) is None),
            forall|j: int| 0 <= j < i ==> !(#[trigger] lacks_ident(all[j]) && segment_of(all[j].action) is None),
        decreases n - i,
    {
        let instruction = &bin.instructions[i];
        let action = instruction.action;
        proof {
            assert(all[i as int] == instruction@);
        }
        let is_seg = action.parent == Parent::Seg && (action.code == SEG_CODE || action.code == SEG_FUNC
            || action.code == SEG_PARAM);
        let is_def = action.parent == Parent::DP || action.parent == Parent::DF;
        if !is_seg && is_def {
            if instruction.params.len() == 0 {
                proof {
                    assert(unreadable(all[i as int]) && segment_of(all[i as int].action) is None);
                }
                return false;
            }
            match &instruction.params[0].value {
                ParameterValue::Ident(v) => {
                    if *v == u32::MAX {
                        proof {
                            assert(all[i as int].params[0] == instruction.params@[0]@);
                            assert(unreadable(all[i as int]) && segment_of(all[i as int].action) is None);
                        }
                        return false;
                    }
                },
                _ => {
                    proof {
                        assert(all[i as int].params[0] == instruction.params@[0]@);
                        assert(lacks_ident(all[i as int]) && segment_of(all[i as int].action) is None);
                        assert forall|j: int|
                            0 <= j < all.len() && #[trigger] unreadable(all[j]) && segment_of(all[j].action) is None
                            implies exists|k: int| 0 <= k < j && #[trigger] lacks_ident(all[k])
                                && segment_of(all[k].action) is None by {
                            if j <= i {
                                assert(!unreadable(all[i as int]));
                            }
                            assert(lacks_ident(all[i as int]));
                        }
                    }
                    return true;
                },
            }
        }
        proof {
            assert(all[i as int].params.len() > 0 ==> all[i as int].params[0] == instruction.params@[0]@);
        }
        i = i + 1;
    }
    true
}

/// Reading keeps every code line non-empty and no longer than what was read.
pub proof fn lemma_read_lines(st: ReadState, s: Seq<InstructionView>)
    requires
        s.len() < usize::MAX,
        forall|j: int| 0 <= j < st.lines.len() ==> 0 < (#[trigger] st.lines[j]).len()
            && st.lines[j].len() + s.len() < usize::MAX,
    ensures
        forall|j: int| 0 <= j < read_all(st, s).0.lines.len() ==> 0 < (#[trigger] read_all(st, s).0.lines[j]).len() < usize::MAX,
    decreases s.len(),
{
    if s.len() > 0 {
        let i = s[0];
        match segment_of(i.action) {
            Some(seg) => {
                lemma_read_lines(ReadState { segment: seg, ..st }, s.drop_first());
            },
            None => {
                if !lacks_ident(i) {
                    let next = read_one(st, i);
                    if st.segment == Segment::Code {
                        let lines = if starts_line(i) {
                            st.lines.push(Seq::empty())
                        } else {
                            st.lines
                        };
                        if lines.len() > 0 {
                            assert(next.lines == lines.update(lines.len() - 1, lines.last().push(i)));
                            assert forall|j: int| 0 <= j < next.lines.len() implies 0 < (#[trigger] next.lines[j]).len()
                                && next.lines[j].len() + s.drop_first().len() < usize::MAX by {
                                if j < lines.len() - 1 {
                                    assert(next.lines[j] == st.lines[j]);
                                }
                            }
                        } else {
                            assert(next.lines == lines);
                        }
                    } else {
                        assert(next.lines == st.lines);
                    }
                    lemma_read_lines(next, s.drop_first());
                }
            },
        }
    }
}

/// Whether `line` was read from the instructions `bin`: its root is the
/// first one and the rest is split into branches.
pub open spec fn read_from(line: Codeline, bin: Seq<InstructionView>) -> bool {
    &&& line.wf()
    &&& line.root_instruction@ == bin[0]
    &&& line.body_view() == bin.drop_first()
    &&& {
        let (st, logs) = split_branch(
            bin.drop_first(),
            1,
            SplitState { pointer: 0, met_else: false, branches: Seq::empty(), by_depth: Seq::empty() },
        );
        &&& logs_view(line.root_branch@) == logs
        &&& branches_view(line.branch_list@) == st.branches
        &&& table_view(line.branches_by_depth@) == st.by_depth
    }
}

/// The code lines written out one after another.
pub open spec fn lines_emitted(lines: Seq<Codeline>) -> Seq<InstructionView>
    decreases lines.len(),
{
    if lines.len() == 0 {
        Seq::empty()
    } else {
        lines_emitted(lines.drop_last()) + lines.last().bin_view()
    }
}

/// Nothing read yet.
pub open spec fn initial_read() -> ReadState {
    ReadState {
        segment: Segment::Before,
        funcs: Seq::empty(),
        params: Seq::empty(),
        lines: Seq::empty(),
        definitions: Map::empty(),
        ident_count: 0,
    }
}

/// Whether `b` is the bin `bin` taken apart: its segments and definitions
/// read, and each of its code lines read into branches.
pub open spec fn taken_apart(bin: Seq<InstructionView>, b: Buffer) -> bool {
    let (st, ok) = read_all(initial_read(), bin);
    &&& ok
    &&& b.read_state(st.segment) == st
    &&& b.branches_wf()
    &&& b.code_branches@.len() == st.lines.len()
    &&& forall|i: int| 0 <= i < st.lines.len() ==> read_from(#[trigger] b.code_branches@[i], st.lines[i])
}

/// Whether taking the bin `bin` apart fails with `e`: a definition does not
/// start with an identifier.
pub open spec fn fails_apart(bin: Seq<InstructionView>, e: OptimizerError) -> bool {
    &&& !read_all(initial_read(), bin).1
    &&& e == OptimizerError { instruction: 0, source: ErrorRepr::ExpectedIdentifier }
}

/// What flushing `b` writes out: each segment behind its marker, the code
/// lines written out one after another.
pub open spec fn flushed_bin(b: Buffer) -> Seq<InstructionView> {
    seq![bare(Action { parent: Parent::Seg, code: SEG_FUNC })] + b.func_buffer@
        + seq![bare(Action { parent: Parent::Seg, code: SEG_PARAM })] + b.param_buffer@
        + seq![bare(Action { parent: Parent::Seg, code: SEG_CODE })] + lines_emitted(b.code_branches@)
}

/// The views of a vector of bins.
pub open spec fn bins_view(v: Seq<CodeBin>) -> Seq<Seq<InstructionView>> {
    v.map_values(|b: CodeBin| b@)
}

/// A bin taken apart for optimisation.
#[derive(Debug, PartialEq)]
pub struct Buffer {
    pub func_buffer: CodeBin,
    pub param_buffer: CodeBin,
    pub code_lines: Vec<CodeBin>,
    pub code_branches: Vec<Codeline>,
    pub ident_count: u32,
    pub ident_definitions: Vec<(u32, Definition)>,
}

impl Buffer {
    /// What reading into this buffer has built up, in `segment`.
    pub open spec fn read_state(&self, segment: Segment) -> ReadState {
        ReadState {
            segment,
            funcs: self.func_buffer@,
            params: self.param_buffer@,
            lines: bins_view(self.code_lines@),
            definitions: definitions_view(self.ident_definitions@),
            ident_count: self.ident_count,
        }
    }

    /// Every code line can be read into branches.
    pub open spec fn lines_readable(&self) -> bool {
        forall|i: int| 0 <= i < self.code_lines@.len() ==> 0 < (#[trigger] self.code_lines@[i])@.len() < usize::MAX
    }

    /// Every line read into branches can be written out.
    pub open spec fn branches_wf(&self) -> bool {
        forall|i: int| 0 <= i < self.code_branches@.len() ==> (#[trigger] self.code_branches@[i]).wf()
    }

    /// Takes a bin apart: reads its segments and definitions, then reads
    /// each code line into branches. Fails when a definition does not
    /// start with an identifier.
    pub fn new(bin: CodeBin) -> (r: Result<Self, OptimizerError>)
        requires
            readable(bin@),
            bin@.len() < usize::MAX,
        ensures
            match r {
                Ok(b) => taken_apart(bin@, b),
                Err(e) => fails_apart(bin@, e),
            },
    {
        let mut make = Self {
            func_buffer: CodeBin::new(),
            param_buffer: CodeBin::new(),
            code_lines: Vec::new(),
            code_branches: Vec::new(),
            ident_count: 0,
            ident_definitions: Vec::new(),
        };
        proof {
            assert(bins_view(make.code_lines@) =~= Seq::<Seq<InstructionView>>::empty());
            assert(definitions_view(make.ident_definitions@) =~= Map::empty());
        }
        let ghost all = bin@;
        let ghost empty = initial_read();
        proof {
            assert(make.read_state(Segment::Before) == empty);
            lemma_read_lines(empty, all);
        }
        let seg = make.append_bin(bin)?;
        proof {
            assert(make.read_state(seg) == read_all(empty, all).0);
            assert forall|i: int| 0 <= i < make.code_lines@.len() implies 0 < (#[trigger] make.code_lines@[i])@.len() < usize::MAX by {
                assert(bins_view(make.code_lines@)[i] == make.code_lines@[i]@);
                assert(read_all(empty, all).0.lines[i] == bins_view(make.code_lines@)[i]);
            }
        }
        let ghost lines = make.code_lines@;
        let ghost before = make.code_branches@.len();
        make.get_code_branches();
        proof {
            assert(before == 0);
            let st = read_all(empty, all).0;
            assert(make.code_branches@.len() == st.lines.len());
            assert forall|i: int| 0 <= i < st.lines.len() implies read_from(#[trigger] make.code_branches@[i], st.lines[i]) by {
                assert(st.lines[i] == bins_view(lines)[i]);
                assert(make.code_branches@[0 + i] == make.code_branches@[i]);
            }
        }
        Ok(make)
    }

    /// Adds a definition, giving it the next identifier as its first
    /// parameter, and returns that identifier.
    pub fn add_definition(&mut self, instruction: Instruction) -> (ident: u32)
        requires
            instruction.action.parent == Parent::DP || instruction.action.parent == Parent::DF,
            old(self).ident_count < u32::MAX,
        ensures
            ident == old(self).ident_count,
            final(self).ident_count == old(self).ident_count + 1,
            ({
                let defined = crate::code::InstructionView {
                    params: seq![crate::code::slotless(ValueView::Ident(ident))] + instruction@.params,
                    ..instruction@
                };
                &&& definitions_view(final(self).ident_definitions@)
                    == definitions_view(old(self).ident_definitions@).insert(
                        ident,
                        (defined, param_values(instruction@.params)),
                    )
                &&& instruction.action.parent == Parent::DP ==> final(self).param_buffer@
                    == old(self).param_buffer@.push(defined) && final(self).func_buffer == old(self).func_buffer
                &&& instruction.action.parent == Parent::DF ==> final(self).func_buffer@
                    == old(self).func_buffer@.push(defined) && final(self).param_buffer == old(self).param_buffer
            }),
            final(self).code_lines == old(self).code_lines,
            final(self).code_branches == old(self).code_branches,
    {
        let mut instruction = instruction;
        let ident = self.ident_count;
        self.ident_count = self.ident_count + 1;
        let given_values = values_of(&instruction.params);
        let ghost given = instruction@;
        instruction.params.insert(0, Parameter::from_ident(ident));
        proof {
            assert(instruction@.params =~= seq![crate::code::slotless(ValueView::Ident(ident))] + given.params);
        }
        let copy = instruction.clone();
        proof {
            crate::table::lemma_keyed_push(self.ident_definitions@, ident, (copy, given_values));
        }
        self.ident_definitions.push((ident, (copy, given_values)));
        proof {
            assert(definitions_view(self.ident_definitions@) =~= definitions_view(old(self).ident_definitions@).insert(
                ident,
                (instruction@, param_values(given.params)),
            ));
        }
        if instruction.action.parent == Parent::DP {
            self.param_buffer.push_instruction(instruction);
        } else {
            self.func_buffer.push_instruction(instruction);
        }
        ident
    }

    /// Takes the segments, the identifier counter and the definitions of
    /// another buffer.
    pub fn load_state(&mut self, ref_buffer: Buffer)
        ensures
            final(self).func_buffer == ref_buffer.func_buffer,
            final(self).param_buffer == ref_buffer.param_buffer,
            final(self).ident_count == ref_buffer.ident_count,
            final(self).ident_definitions == ref_buffer.ident_definitions,
            final(self).code_lines == old(self).code_lines,
            final(self).code_branches == old(self).code_branches,
    {
        self.func_buffer = ref_buffer.func_buffer;
        self.param_buffer = ref_buffer.param_buffer;
        self.ident_count = ref_buffer.ident_count;
        self.ident_definitions = ref_buffer.ident_definitions;
    }

    /// The identifier that the next definition gets.
    pub fn next_ident(&self) -> (ident: u32)
        ensures
            ident == self.ident_count,
    {
        self.ident_count
    }

    /// Reads the instructions of a bin into the segments, the code lines and
    /// the definitions; stops with an error at a definition that does not
    /// start with an identifier. Returns the segment it ended in.
    pub fn append_bin(&mut self, bin: CodeBin) -> (r: Result<Segment, OptimizerError>)
        requires
            readable(bin@),
        ensures
            ({
                let (st, ok) = read_all(old(self).read_state(Segment::Before), bin@);
                &&& final(self).read_state(st.segment) == st
                &&& (r is Ok) == ok
                &&& r matches Ok(seg) ==> seg == st.segment
                &&& r matches Err(e) ==> e == OptimizerError { instruction: 0, source: ErrorRepr::ExpectedIdentifier }
            }),
            final(self).code_branches == old(self).code_branches,
    {
        let mut current = Segment::Before;
        let ghost all = bin@;
        let instructions = bin.instructions;
        let mut i: usize = 0;
        proof {
            assert(all.skip(0) =~= all);
        }
        while i < instructions.len()
            invariant
                i <= instructions@.len(),
                all == instrs_view(instructions@),
                all == bin@,
                readable(all),
                forall|k: int| 0 <= k < i ==> !(#[trigger] lacks_ident(all[k]) && segment_of(all[k].action) is None),
                read_all(old(self).read_state(Segment::Before), all) == read_all(self.read_state(current), all.skip(i as int)),
                self.code_branches == old(self).code_branches,
            decreases instructions@.len() - i,
        {
            let ghost rest = all.skip(i as int);
            let ghost st = self.read_state(current);
            proof {
                assert(rest[0] == all[i as int]);
                assert(rest.drop_first() =~= all.skip(i + 1));
            }
            let instruction = &instructions[i];
            let action = instruction.action;
            if action.parent == Parent::Seg && (action.code == SEG_CODE || action.code == SEG_FUNC || action.code == SEG_PARAM) {
                current = if action.code == SEG_FUNC {
                    Segment::Func
                } else if action.code == SEG_PARAM {
                    Segment::Param
                } else {
                    Segment::Code
                };
                i = i + 1;
                continue;
            }
            let is_def = action.parent == Parent::DP || action.parent == Parent::DF;
            if is_def {
                if instruction.params.len() == 0 {
                    proof {
                        assert(unreadable(all[i as int]));
                        let k = choose|k: int| 0 <= k < i && #[trigger] lacks_ident(all[k]) && segment_of(all[k].action) is None;
                        assert(!(lacks_ident(all[k]) && segment_of(all[k].action) is None));
                    }
                }
                let ident = match &instruction.params[0].value {
                    ParameterValue::Ident(v) => *v,
                    _ => {
                        proof {
                            assert(all[i as int] == instruction@);
                            assert(all[i as int].params[0] == instruction.params@[0]@);
                            assert(lacks_ident(all[i as int]));
                            assert(read_all(self.read_state(current), rest) == (self.read_state(current), false));
                            assert(all == bin@);
                            assert(read_all(old(self).read_state(Segment::Before), bin@).0 == self.read_state(current));
                        }
                        return OptimizerError::err(ErrorRepr::ExpectedIdentifier);
                    },
                };
                if ident == u32::MAX {
                    proof {
                        assert(unreadable(all[i as int]));
                        let k = choose|k: int| 0 <= k < i && #[trigger] lacks_ident(all[k]) && segment_of(all[k].action) is None;
                        assert(!(lacks_ident(all[k]) && segment_of(all[k].action) is None));
                    }
                }
                let values = values_of(&instruction.params);
                let ghost vals = values@;
                proof {
                    assert(values_view(vals).len() == vals.len());
                    assert(values@.len() == instruction.params@.len());
                }
                let mut rest_values = values;
                rest_values.remove(0);
                proof {
                    assert(rest_values@ =~= vals.drop_first());
                    assert(values_view(rest_values@) =~= values_view(vals).drop_first());
                    assert(all[i as int] == instruction@);
                    assert(param_values(all[i as int].params.drop_first()) =~= param_values(all[i as int].params).drop_first());
                }
                let copy = instruction.clone();
                proof {
                    crate::table::lemma_keyed_push(self.ident_definitions@, ident, (copy, rest_values));
                }
                self.ident_definitions.push((ident, (copy, rest_values)));
                if self.ident_count < ident + 1 {
                    self.ident_count = ident + 1;
                }
                proof {
                    assert(values_view(rest_values@) =~= param_values(all[i as int].params.drop_first()));
                    assert(definitions_view(self.ident_definitions@) =~= st.definitions.insert(
                        ident,
                        (all[i as int], param_values(all[i as int].params.drop_first())),
                    ));
                }
            }
            let ghost defined = self.read_state(current);
            proof {
                assert(!lacks_ident(all[i as int]));
            }
            match current {
                Segment::Func => {
                    self.func_buffer.push_instruction(instruction.clone());
                },
                Segment::Param => {
                    self.param_buffer.push_instruction(instruction.clone());
                },
                Segment::Code => {
                    let p = action.parent;
                    if p == Parent::Func || p == Parent::FuncA || p == Parent::Plev || p == Parent::Enev {
                        self.code_lines.push(CodeBin::new());
                        proof {
                            assert(bins_view(self.code_lines@) =~= defined.lines.push(Seq::empty()));
                        }
                    }
                    let len = self.code_lines.len();
                    if len > 0 {
                        let ghost lines = bins_view(self.code_lines@);
                        let mut last = self.code_lines.pop().unwrap();
                        last.push_instruction(instruction.clone());
                        self.code_lines.push(last);
                        proof {
                            assert(bins_view(self.code_lines@) =~= lines.update(lines.len() - 1, lines.last().push(all[i as int])));
                        }
                    }
                },
                Segment::Before => {},
            }
            proof {
                assert(self.read_state(current) == read_one(st, all[i as int]));
            }
            i = i + 1;
        }
        proof {
            assert(all.skip(i as int) =~= Seq::<InstructionView>::empty());
        }
        Ok(current)
    }

    /// Reads each code line into branches, after those already read.
    pub fn get_code_branches(&mut self)
        requires
            old(self).lines_readable(),
        ensures
            final(self).code_lines == old(self).code_lines,
            final(self).func_buffer == old(self).func_buffer,
            final(self).param_buffer == old(self).param_buffer,
            final(self).ident_count == old(self).ident_count,
            final(self).ident_definitions == old(self).ident_definitions,
            final(self).code_branches@.len() == old(self).code_branches@.len() + old(self).code_lines@.len(),
            forall|i: int| 0 <= i < old(self).code_branches@.len() ==> #[trigger] final(self).code_branches@[i] == old(self).code_branches@[i],
            forall|i: int| 0 <= i < old(self).code_lines@.len() ==> read_from(
                #[trigger] final(self).code_branches@[old(self).code_branches@.len() + i],
                old(self).code_lines@[i]@,
            ),
            old(self).branches_wf() ==> final(self).branches_wf(),
    {
        let n = self.code_lines.len();
        for k in 0..n
            invariant
                n == self.code_lines@.len(),
                self.code_lines == old(self).code_lines,
                self.func_buffer == old(self).func_buffer,
                self.param_buffer == old(self).param_buffer,
                self.ident_count == old(self).ident_count,
                self.ident_definitions == old(self).ident_definitions,
                old(self).lines_readable(),
                self.code_branches@.len() == old(self).code_branches@.len() + k,
                forall|i: int| 0 <= i < old(self).code_branches@.len() ==> #[trigger] self.code_branches@[i] == old(self).code_branches@[i],
                forall|i: int| 0 <= i < k ==> read_from(
                    #[trigger] self.code_branches@[old(self).code_branches@.len() + i],
                    old(self).code_lines@[i]@,
                ),
                old(self).branches_wf() ==> self.branches_wf(),
        {
            let line = self.code_lines[k].clone();
            proof {
                assert(0 < self.code_lines@[k as int]@.len() < usize::MAX);
            }
            match Codeline::from_bin(line) {
                Ok(codeline) => {
                    self.code_branches.push(codeline);
                },
                Err(_) => {
                    proof {
                        assert(false);
                    }
                },
            }
        }
    }

    /// Writes the buffer out: the function segment, the parameter segment,
    /// and the code lines, each segment behind its marker; the function and
    /// parameter buffers are emptied and the identifier counter reset.
    pub fn flush(&mut self) -> (bin: CodeBin)
        requires
            old(self).branches_wf(),
        ensures
            bin@ == flushed_bin(*old(self)),
            final(self).func_buffer@ == Seq::<InstructionView>::empty(),
            final(self).param_buffer@ == Seq::<InstructionView>::empty(),
            final(self).ident_count == 0,
            final(self).code_lines == old(self).code_lines,
            final(self).code_branches == old(self).code_branches,
            final(self).ident_definitions == old(self).ident_definitions,
    {
        let mut final_buffer = CodeBin::new();
        final_buffer.push_instruction(Instruction::new(Action { parent: Parent::Seg, code: SEG_FUNC }));
        final_buffer.append_bin_mut(&mut self.func_buffer);
        final_buffer.push_instruction(Instruction::new(Action { parent: Parent::Seg, code: SEG_PARAM }));
        final_buffer.append_bin_mut(&mut self.param_buffer);
        final_buffer.push_instruction(Instruction::new(Action { parent: Parent::Seg, code: SEG_CODE }));
        let ghost head = final_buffer@;
        let n = self.code_branches.len();
        for k in 0..n
            invariant
                n == self.code_branches@.len(),
                self.code_branches == old(self).code_branches,
                self.branches_wf(),
                final_buffer@ == head + lines_emitted(self.code_branches@.take(k as int)),
        {
            let part = self.code_branches[k].bin_of();
            final_buffer.append_bin(&part);
            proof {
                assert(self.code_branches@.take(k + 1).drop_last() =~= self.code_branches@.take(k as int));
                assert(final_buffer@ =~= head + lines_emitted(self.code_branches@.take(k + 1)));
            }
        }
        proof {
            assert(self.code_branches@.take(n as int) =~= self.code_branches@);
        }
        self.ident_count = 0;
        final_buffer
    }
}

/// The values of a vector of parameters.
fn values_of(params: &Vec<Parameter>) -> (values: Vec<ParameterValue>)
    ensures
        values_view(values@) == param_values(params_view(params@)),
{
    let mut values: Vec<ParameterValue> = Vec::new();
    for i in 0..params.len()
        invariant
            values@.len() == i,
            forall|k: int| 0 <= k < i ==> (#[trigger] values@[k])@ == params@[k]@.value,
    {
        values.push(params[i].value.clone());
    }
    assert(values_view(values@) =~= param_values(params_view(params@)));
    values
}

} // verus!
