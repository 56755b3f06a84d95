//! Instructions of the virtual machine and the builder that collects them.
use vstd::prelude::*;

use crate::function::SingleRowFunc;
use crate::util::str_eq;

verus! {

/// A jump target. Labels are negative; a label stands for the position of
/// an instruction until the program is finished.
pub type BranchOffset = i64;

/// Index of a cursor opened by the program.
pub type CursorID = usize;

/// Virtual-machine instructions.
#[derive(Clone, Debug, PartialEq, Eq)]
pub enum Insn {
    /// `r[dest] = value`
    Integer { value: i64, dest: usize },
    /// `r[dest] = v` where `v` is the value that Rust's `f64` parser gives
    /// `literal`, negated when `negative`; the text is kept, not the float.
    Real { literal: String, negative: bool, dest: usize },
    /// `r[dest] = value`
    String8 { value: String, dest: usize },
    /// `r[dest] = NULL`
    Null { dest: usize },
    /// Jump to `target_pc` if `r[lhs] == r[rhs]`.
    Eq { lhs: usize, rhs: usize, target_pc: BranchOffset },
    /// Jump to `target_pc` if `r[lhs] != r[rhs]`.
    Ne { lhs: usize, rhs: usize, target_pc: BranchOffset },
    /// Jump to `target_pc` if `r[lhs] < r[rhs]`.
    Lt { lhs: usize, rhs: usize, target_pc: BranchOffset },
    /// Jump to `target_pc` if `r[lhs] <= r[rhs]`.
    Le { lhs: usize, rhs: usize, target_pc: BranchOffset },
    /// Jump to `target_pc` if `r[lhs] > r[rhs]`.
    Gt { lhs: usize, rhs: usize, target_pc: BranchOffset },
    /// Jump to `target_pc` if `r[lhs] >= r[rhs]`.
    Ge { lhs: usize, rhs: usize, target_pc: BranchOffset },
    /// `r[dest] = r[lhs] + r[rhs]`
    Add { lhs: usize, rhs: usize, dest: usize },
    /// Jump to `target_pc` if `r[reg]` is not NULL.
    NotNull { reg: usize, target_pc: BranchOffset },
    /// `r[dest] = func(r[start_reg], r[start_reg + 1], ...)`
    Function { start_reg: usize, dest: usize, func: SingleRowFunc },
    /// `r[dest] =` the row id of the current row of the cursor.
    RowId { cursor_id: CursorID, dest: usize },
    /// `r[dest] =` column `column` of the current row of the cursor.
    Column { cursor_id: CursorID, column: usize, dest: usize },
    /// Converts an integer in `r[register]` to a real.
    RealAffinity { register: usize },
}

/// An instruction with its strings seen as character sequences.
pub enum InsnView {
    Integer { value: i64, dest: usize },
    Real { literal: Seq<char>, negative: bool, dest: usize },
    String8 { value: Seq<char>, dest: usize },
    Null { dest: usize },
    Eq { lhs: usize, rhs: usize, target_pc: BranchOffset },
    Ne { lhs: usize, rhs: usize, target_pc: BranchOffset },
    Lt { lhs: usize, rhs: usize, target_pc: BranchOffset },
    Le { lhs: usize, rhs: usize, target_pc: BranchOffset },
    Gt { lhs: usize, rhs: usize, target_pc: BranchOffset },
    Ge { lhs: usize, rhs: usize, target_pc: BranchOffset },
    Add { lhs: usize, rhs: usize, dest: usize },
    NotNull { reg: usize, target_pc: BranchOffset },
    Function { start_reg: usize, dest: usize, func: SingleRowFunc },
    RowId { cursor_id: CursorID, dest: usize },
    Column { cursor_id: CursorID, column: usize, dest: usize },
    RealAffinity { register: usize },
}

impl View for Insn {
    type V = InsnView;

    open spec fn view(&self) -> InsnView {
        match self {
            Insn::Integer { value, dest } => InsnView::Integer { value: *value, dest: *dest },
            Insn::Real { literal, negative, dest } => InsnView::Real {
                literal: literal@,
                negative: *negative,
                dest: *dest,
            },
            Insn::String8 { value, dest } => InsnView::String8 { value: value@, dest: *dest },
            Insn::Null { dest } => InsnView::Null { dest: *dest },
            Insn::Eq { lhs, rhs, target_pc } => InsnView::Eq {
                lhs: *lhs,
                rhs: *rhs,
                target_pc: *target_pc,
            },
            Insn::Ne { lhs, rhs, target_pc } => InsnView::Ne {
                lhs: *lhs,
                rhs: *rhs,
                target_pc: *target_pc,
            },
            Insn::Lt { lhs, rhs, target_pc } => InsnView::Lt {
                lhs: *lhs,
                rhs: *rhs,
                target_pc: *target_pc,
            },
            Insn::Le { lhs, rhs, target_pc } => InsnView::Le {
                lhs: *lhs,
                rhs: *rhs,
                target_pc: *target_pc,
            },
            Insn::Gt { lhs, rhs, target_pc } => InsnView::Gt {
                lhs: *lhs,
                rhs: *rhs,
                target_pc: *target_pc,
            },
            Insn::Ge { lhs, rhs, target_pc } => InsnView::Ge {
                lhs: *lhs,
                rhs: *rhs,
                target_pc: *target_pc,
            },
            Insn::Add { lhs, rhs, dest } => InsnView::Add { lhs: *lhs, rhs: *rhs, dest: *dest },
            Insn::NotNull { reg, target_pc } => InsnView::NotNull {
                reg: *reg,
                target_pc: *target_pc,
            },
            Insn::Function { start_reg, dest, func } => InsnView::Function {
                start_reg: *start_reg,
                dest: *dest,
                func: *func,
            },
            Insn::RowId { cursor_id, dest } => InsnView::RowId {
                cursor_id: *cursor_id,
                dest: *dest,
            },
            Insn::Column { cursor_id, column, dest } => InsnView::Column {
                cursor_id: *cursor_id,
                column: *column,
                dest: *dest,
            },
            Insn::RealAffinity { register } => InsnView::RealAffinity { register: *register },
        }
    }
}

/// The state of a program under construction.
pub struct ProgramState {
    /// The next register that `alloc_register` hands out.
    pub next_free_register: usize,
    /// The last label handed out (labels count down from `-1`); `0` before any.
    pub next_free_label: BranchOffset,
    /// The instructions of the program body, in order.
    pub insns: Seq<InsnView>,
    /// Instructions set aside to run once, before the body's loops.
    pub constant_insns: Seq<InsnView>,
    /// Each label that has been given a position, with that position.
    pub resolved_labels: Seq<(BranchOffset, usize)>,
    /// Each jump emitted with a label: the label and the jump's position.
    pub label_dependencies: Seq<(BranchOffset, usize)>,
    /// The label that the next emitted instruction will be given, if any.
    pub next_insn_label: Option<BranchOffset>,
    /// The table identifier of each open cursor, indexed by cursor id.
    pub cursors: Seq<Option<Seq<char>>>,
}

impl ProgramState {
    /// Hands out the next register.
    pub open spec fn alloc_register(self) -> (ProgramState, usize) {
        (ProgramState { next_free_register: (self.next_free_register + 1) as usize, ..self }, self.next_free_register)
    }

    /// Hands out a fresh label.
    pub open spec fn allocate_label(self) -> (ProgramState, BranchOffset) {
        let label = (self.next_free_label - 1) as BranchOffset;
        (ProgramState { next_free_label: label, ..self }, label)
    }

    /// Appends an instruction; a label waiting for the next instruction is
    /// given its position.
    pub open spec fn emit(self, insn: InsnView) -> ProgramState {
        let pos = self.insns.len() as usize;
        ProgramState {
            insns: self.insns.push(insn),
            next_insn_label: None,
            resolved_labels: match self.next_insn_label {
                Some(label) => self.resolved_labels.push((label, pos)),
                None => self.resolved_labels,
            },
            ..self
        }
    }

    /// Appends a jump whose target is `label`, and records the dependency.
    pub open spec fn emit_with_label_dependency(self, insn: InsnView, label: BranchOffset) -> ProgramState {
        let emitted = self.emit(insn);
        ProgramState {
            label_dependencies: emitted.label_dependencies.push((label, self.insns.len() as usize)),
            ..emitted
        }
    }

    /// Makes `label` stand for the next instruction to be emitted.
    pub open spec fn preassign_label(self, label: BranchOffset) -> ProgramState {
        ProgramState { next_insn_label: Some(label), ..self }
    }

    /// Moves the last instruction of the body to the constant instructions.
    pub open spec fn mark_last_insn_constant(self) -> ProgramState {
        ProgramState {
            insns: self.insns.drop_last(),
            constant_insns: self.constant_insns.push(self.insns.last()),
            ..self
        }
    }

    /// The cursor opened for a table identifier: the first one.
    pub open spec fn cursor_of(self, ident: Seq<char>) -> Option<int> {
        first_cursor(self.cursors, ident)
    }
}

/// Index of the first cursor in `cursors` opened for `ident`.
pub open spec fn first_cursor(cursors: Seq<Option<Seq<char>>>, ident: Seq<char>) -> Option<int>
    decreases cursors.len(),
{
    if cursors.len() == 0 {
        None
    } else if cursors[0] == Some(ident) {
        Some(0)
    } else {
        match first_cursor(cursors.drop_first(), ident) {
            Some(i) => Some(i + 1),
            None => None,
        }
    }
}

proof fn lemma_first_cursor(cursors: Seq<Option<Seq<char>>>, ident: Seq<char>)
    ensures
        first_cursor(cursors, ident) matches Some(i) ==> 0 <= i < cursors.len() && cursors[i]
            == Some(ident) && forall|j: int| 0 <= j < i ==> cursors[j] != Some(ident),
        first_cursor(cursors, ident) is None ==> forall|j: int|
            0 <= j < cursors.len() ==> cursors[j] != Some(ident),
    decreases cursors.len(),
{
    if cursors.len() > 0 {
        lemma_first_cursor(cursors.drop_first(), ident);
        assert forall|j: int| 1 <= j < cursors.len() implies cursors[j]
            == cursors.drop_first()[j - 1] by {}
    }
}

/// Builds a program: hands out registers, labels and cursors, and collects
/// instructions.
pub struct ProgramBuilder {
    next_free_register: usize,
    next_free_label: BranchOffset,
    insns: Vec<Insn>,
    constant_insns: Vec<Insn>,
    resolved_labels: Vec<(BranchOffset, usize)>,
    label_dependencies: Vec<(BranchOffset, usize)>,
    next_insn_label: Option<BranchOffset>,
    cursor_ref: Vec<Option<String>>,
}

pub open spec fn view_insns(insns: Seq<Insn>) -> Seq<InsnView> {
    insns.map_values(|i: Insn| i@)
}

pub open spec fn view_cursors(cursors: Seq<Option<String>>) -> Seq<Option<Seq<char>>> {
    cursors.map_values(
        |c: Option<String>|
            match c {
                Some(s) => Some(s@),
                None => None,
            },
    )
}

impl View for ProgramBuilder {
    type V = ProgramState;

    closed spec fn view(&self) -> ProgramState {
        ProgramState {
            next_free_register: self.next_free_register,
            next_free_label: self.next_free_label,
            insns: view_insns(self.insns@),
            constant_insns: view_insns(self.constant_insns@),
            resolved_labels: self.resolved_labels@,
            label_dependencies: self.label_dependencies@,
            next_insn_label: self.next_insn_label,
            cursors: view_cursors(self.cursor_ref@),
        }
    }
}

impl ProgramBuilder {
    /// An empty program: no registers, labels, cursors or instructions.
    pub fn new() -> (res: ProgramBuilder)
        ensures
            res@ == (ProgramState {
                next_free_register: 0,
                next_free_label: 0,
                insns: Seq::empty(),
                constant_insns: Seq::empty(),
                resolved_labels: Seq::empty(),
                label_dependencies: Seq::empty(),
                next_insn_label: None,
                cursors: Seq::empty(),
            }),
    {
        let res = ProgramBuilder {
            next_free_register: 0,
            next_free_label: 0,
            insns: Vec::new(),
            constant_insns: Vec::new(),
            resolved_labels: Vec::new(),
            label_dependencies: Vec::new(),
            next_insn_label: None,
            cursor_ref: Vec::new(),
        };
        assert(view_insns(res.insns@) =~= Seq::empty());
        assert(view_insns(res.constant_insns@) =~= Seq::empty());
        assert(view_cursors(res.cursor_ref@) =~= Seq::empty());
        res
    }

    /// Hands out the next register.
    pub fn alloc_register(&mut self) -> (reg: usize)
        requires
            old(self)@.next_free_register < usize::MAX,
        ensures
            (final(self)@, reg) == old(self)@.alloc_register(),
    {
        let reg = self.next_free_register;
        self.next_free_register = self.next_free_register + 1;
        reg
    }

    /// Hands out a fresh label.
    pub fn allocate_label(&mut self) -> (label: BranchOffset)
        requires
            old(self)@.next_free_label > i64::MIN,
        ensures
            (final(self)@, label) == old(self)@.allocate_label(),
    {
        self.next_free_label = self.next_free_label - 1;
        self.next_free_label
    }

    /// Opens a cursor, for a table identifier or for none.
    pub fn alloc_cursor_id(&mut self, table_identifier: Option<String>) -> (id: CursorID)
        ensures
            id == old(self)@.cursors.len(),
            final(self)@ == (ProgramState {
                cursors: old(self)@.cursors.push(
                    match table_identifier {
                        Some(s) => Some(s@),
                        None => None,
                    },
                ),
                ..old(self)@
            }),
    {
        let id = self.cursor_ref.len();
        let ghost old_cursors = self.cursor_ref@;
        self.cursor_ref.push(table_identifier);
        assert(view_cursors(self.cursor_ref@) =~= view_cursors(old_cursors).push(
            match table_identifier {
                Some(s) => Some(s@),
                None => None,
            },
        ));
        id
    }

    /// Appends an instruction.
    pub fn emit_insn(&mut self, insn: Insn)
        ensures
            final(self)@ == old(self)@.emit(insn@),
    {
        let ghost old_insns = self.insns@;
        let pos = self.insns.len();
        self.insns.push(insn);
        assert(view_insns(self.insns@) =~= view_insns(old_insns).push(insn@));
        if let Some(label) = self.next_insn_label {
            self.next_insn_label = None;
            self.resolved_labels.push((label, pos));
        }
    }

    /// Appends a jump whose target is `label`.
    pub fn emit_insn_with_label_dependency(&mut self, insn: Insn, label: BranchOffset)
        ensures
            final(self)@ == old(self)@.emit_with_label_dependency(insn@, label),
    {
        let pos = self.insns.len();
        self.emit_insn(insn);
        self.label_dependencies.push((label, pos));
    }

    /// Makes `label` stand for the next instruction emitted.
    pub fn preassign_label_to_next_insn(&mut self, label: BranchOffset)
        ensures
            final(self)@ == old(self)@.preassign_label(label),
    {
        self.next_insn_label = Some(label);
    }

    /// Moves the last instruction of the body to the constant instructions,
    /// which run once before the body.
    pub fn mark_last_insn_constant(&mut self)
        requires
            old(self)@.insns.len() > 0,
        ensures
            final(self)@ == old(self)@.mark_last_insn_constant(),
    {
        let ghost old_insns = self.insns@;
        let ghost old_consts = self.constant_insns@;
        let insn = self.insns.pop().unwrap();
        self.constant_insns.push(insn);
        assert(view_insns(self.insns@) =~= view_insns(old_insns).drop_last());
        assert(view_insns(self.constant_insns@) =~= view_insns(old_consts).push(
            view_insns(old_insns).last(),
        ));
    }

    /// The cursor opened for a table identifier.
    pub fn resolve_cursor_id(&self, table_identifier: &str) -> (id: CursorID)
        requires
            self@.cursor_of(table_identifier@) is Some,
        ensures
            self@.cursor_of(table_identifier@) == Some(id as int),
    {
        proof {
            lemma_first_cursor(self@.cursors, table_identifier@);
        }
        let mut i: usize = 0;
        while i < self.cursor_ref.len()
            invariant
                i <= self.cursor_ref@.len(),
                view_cursors(self.cursor_ref@) == self@.cursors,
                forall|j: int| 0 <= j < i ==> self@.cursors[j] != Some(table_identifier@),
                self@.cursor_of(table_identifier@) is Some,
            decreases self.cursor_ref@.len() - i,
        {
            let found = match &self.cursor_ref[i] {
                Some(ident) => str_eq(ident.as_str(), table_identifier),
                None => false,
            };
            assert(found == (self@.cursors[i as int] == Some(table_identifier@)));
            if found {
                proof {
                    lemma_first_cursor(self@.cursors, table_identifier@);
                }
                return i;
            }
            i = i + 1;
        }
        i
    }

    /// The cursor opened for a table identifier, if there is one.
    pub fn lookup_cursor_id(&self, table_identifier: &str) -> (res: Option<CursorID>)
        ensures
            match self@.cursor_of(table_identifier@) {
                Some(i) => res == Some(i as usize),
                None => res is None,
            },
    {
        proof {
            lemma_first_cursor(self@.cursors, table_identifier@);
        }
        let mut i: usize = 0;
        while i < self.cursor_ref.len()
            invariant
                i <= self.cursor_ref@.len(),
                view_cursors(self.cursor_ref@) == self@.cursors,
                forall|j: int| 0 <= j < i ==> self@.cursors[j] != Some(table_identifier@),
            decreases self.cursor_ref@.len() - i,
        {
            let found = match &self.cursor_ref[i] {
                Some(ident) => str_eq(ident.as_str(), table_identifier),
                None => false,
            };
            assert(found == (self@.cursors[i as int] == Some(table_identifier@)));
            if found {
                proof {
                    lemma_first_cursor(self@.cursors, table_identifier@);
                }
                return Some(i);
            }
            i = i + 1;
        }
        proof {
            lemma_first_cursor(self@.cursors, table_identifier@);
            if self@.cursor_of(table_identifier@) is Some {
                let k = self@.cursor_of(table_identifier@).unwrap();
                assert(self@.cursors[k] == Some(table_identifier@));
            }
        }
        None
    }

    /// The instructions of the program body.
    pub fn insns(&self) -> (res: &Vec<Insn>)
        ensures
            view_insns(res@) == self@.insns,
    {
        &self.insns
    }

    /// The instructions set aside to run once, before the body.
    pub fn constant_insns(&self) -> (res: &Vec<Insn>)
        ensures
            view_insns(res@) == self@.constant_insns,
    {
        &self.constant_insns
    }

    /// The next register that would be handed out.
    pub fn next_free_register(&self) -> (res: usize)
        ensures
            res == self@.next_free_register,
    {
        self.next_free_register
    }

    /// The last label handed out; `0` before any.
    pub fn next_free_label(&self) -> (res: BranchOffset)
        ensures
            res == self@.next_free_label,
    {
        self.next_free_label
    }

    /// Each label given a position so far, with its position.
    pub fn resolved_labels(&self) -> (res: &Vec<(BranchOffset, usize)>)
        ensures
            res@ == self@.resolved_labels,
    {
        &self.resolved_labels
    }

    /// Each jump emitted with a label: the label and the jump's position.
    pub fn label_dependencies(&self) -> (res: &Vec<(BranchOffset, usize)>)
        ensures
            res@ == self@.label_dependencies,
    {
        &self.label_dependencies
    }

    /// The label waiting for the next instruction, if any.
    pub fn next_insn_label(&self) -> (res: Option<BranchOffset>)
        ensures
            res == self@.next_insn_label,
    {
        self.next_insn_label
    }
}

} // verus!
