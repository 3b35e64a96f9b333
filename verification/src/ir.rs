//! The intermediate representation shared by all languages: values, operands,
//! instructions, languages and modules.
use vstd::prelude::*;

use crate::better_brainfuck::syntax::BetterBrainfuckValue;
use crate::errors::{VerifyError, VerifyErrorModel};
use crate::simp::SimpValue;
use crate::text::{decimal, decimal_string, text_is};

verus! {

// # Values

/// The name of the type of a value, such as `int` or `str`.
#[derive(Debug, Clone, PartialEq, Eq)]
pub struct ValueType(pub String);

impl View for ValueType {
    type V = Seq<char>;

    open spec fn view(&self) -> Seq<char> {
        self.0@
    }
}

impl ValueType {
    /// A copy of this type name.
    pub(crate) fn duplicate(&self) -> (r: ValueType)
        ensures
            r@ == self@,
    {
        ValueType(self.0.clone())
    }
}

/// A value of a language that is not defined in this crate, known by its type and by
/// the text it displays.
#[derive(Debug, Clone, PartialEq, Eq)]
pub struct ForeignValue {
    pub value_type: ValueType,
    pub text: String,
}

/// A value carried by an operand.
#[derive(Debug, Clone, PartialEq, Eq)]
pub enum Value {
    BetterBrainfuck(BetterBrainfuckValue),
    Simp(SimpValue),
    Foreign(ForeignValue),
}

/// Mathematical model of a [`Value`].
pub enum ValueModel {
    BetterBrainfuck(i64),
    SimpInt(i64),
    SimpStr(Seq<char>),
    Foreign { value_type: Seq<char>, text: Seq<char> },
}

impl View for Value {
    type V = ValueModel;

    open spec fn view(&self) -> ValueModel {
        match self {
            Value::BetterBrainfuck(v) => ValueModel::BetterBrainfuck(v.0),
            Value::Simp(SimpValue::Int(i)) => ValueModel::SimpInt(*i),
            Value::Simp(SimpValue::Str(s)) => ValueModel::SimpStr(s@),
            Value::Foreign(f) => ValueModel::Foreign { value_type: f.value_type@, text: f.text@ },
        }
    }
}

/// The name of the type of a value.
pub open spec fn value_type_name(v: ValueModel) -> Seq<char> {
    match v {
        ValueModel::BetterBrainfuck(_) => "int"@,
        ValueModel::SimpInt(_) => "int"@,
        ValueModel::SimpStr(_) => "str"@,
        ValueModel::Foreign { value_type, .. } => value_type,
    }
}

/// The text that a value displays.
pub open spec fn value_text(v: ValueModel) -> Seq<char> {
    match v {
        ValueModel::BetterBrainfuck(i) => decimal(i as int),
        ValueModel::SimpInt(i) => decimal(i as int),
        ValueModel::SimpStr(s) => s,
        ValueModel::Foreign { text, .. } => text,
    }
}

impl Value {
    /// The type of this value.
    pub fn value_type(&self) -> (r: ValueType)
        ensures
            r@ == value_type_name(self@),
    {
        match self {
            Value::BetterBrainfuck(_) => ValueType("int".to_owned()),
            Value::Simp(SimpValue::Int(_)) => ValueType("int".to_owned()),
            Value::Simp(SimpValue::Str(_)) => ValueType("str".to_owned()),
            Value::Foreign(f) => f.value_type.duplicate(),
        }
    }

    /// The text of this value.
    pub fn display(&self) -> (r: String)
        ensures
            r@ == value_text(self@),
    {
        match self {
            Value::BetterBrainfuck(v) => decimal_string(v.0),
            Value::Simp(SimpValue::Int(i)) => decimal_string(*i),
            Value::Simp(SimpValue::Str(s)) => s.clone(),
            Value::Foreign(f) => f.text.clone(),
        }
    }
}

/// The elements of a vector in the opposite order.
pub(crate) fn reversed<T>(v: Vec<T>) -> (r: Vec<T>)
    ensures
        r@ == v@.reverse(),
{
    let mut rest = v;
    let mut r: Vec<T> = Vec::new();
    let ghost all = v@;
    while rest.len() > 0
        invariant
            rest@ + r@.reverse() == all,
        decreases rest.len(),
    {
        let ghost before_rest = rest@;
        let ghost before_r = r@;
        let x = rest.pop().unwrap();
        r.push(x);
        assert(rest@ + r@.reverse() =~= all) by {
            assert(before_rest =~= rest@.push(x));
            assert(r@.reverse() =~= seq![x] + before_r.reverse());
        }
    }
    assert(r@.reverse() =~= all);
    assert(r@ =~= all.reverse());
    r
}

/// The model of a module result.
pub open spec fn module_result(r: Result<Module, crate::errors::CompileError>) -> Result<
    ModuleModel,
    crate::errors::CompileErrorModel,
> {
    match r {
        Ok(m) => Ok(m@),
        Err(e) => Err(e@),
    }
}

// # Operands and instructions

/// An operand of an instruction: a value, or a nested instruction.
#[derive(Debug)]
pub enum Operand {
    Value(Value),
    Instruction(Box<Instruction>),
}

/// An instruction: an opcode and its operands.
#[derive(Debug)]
pub struct Instruction {
    pub opcode: String,
    pub operands: Vec<Operand>,
}

/// Mathematical model of an [`Operand`].
pub enum OperandModel {
    Value(ValueModel),
    Instruction(InstrModel),
}

/// Mathematical model of an [`Instruction`].
pub struct InstrModel {
    pub opcode: Seq<char>,
    pub operands: Seq<OperandModel>,
}

/// The model of an operand.
pub open spec fn operand_model(o: Operand) -> OperandModel
    decreases o,
{
    match o {
        Operand::Value(v) => OperandModel::Value(v@),
        Operand::Instruction(b) => OperandModel::Instruction(instr_model(*b)),
    }
}

/// The model of an instruction.
pub open spec fn instr_model(i: Instruction) -> InstrModel
    decreases i,
{
    InstrModel {
        opcode: i.opcode@,
        operands: Seq::new(
            i.operands@.len(),
            |k: int|
                if 0 <= k < i.operands@.len() {
                    operand_model(i.operands@[k])
                } else {
                    OperandModel::Value(ValueModel::SimpInt(0))
                },
        ),
    }
}

impl View for Operand {
    type V = OperandModel;

    open spec fn view(&self) -> OperandModel {
        operand_model(*self)
    }
}

impl View for Instruction {
    type V = InstrModel;

    open spec fn view(&self) -> InstrModel {
        instr_model(*self)
    }
}

/// The models of a sequence of instructions.
pub open spec fn instrs_model(s: Seq<Instruction>) -> Seq<InstrModel> {
    s.map_values(|i: Instruction| i@)
}

/// The models of a sequence of operands.
pub open spec fn operands_model(s: Seq<Operand>) -> Seq<OperandModel> {
    s.map_values(|o: Operand| o@)
}

/// The model of an instruction is made of its opcode and the models of its operands.
pub proof fn lemma_instr_model(i: Instruction)
    ensures
        i@.opcode == i.opcode@,
        i@.operands == operands_model(i.operands@),
{
    assert(i@.operands =~= operands_model(i.operands@));
}

/// Wraps each instruction as an operand.
pub open spec fn as_operands(s: Seq<InstrModel>) -> Seq<OperandModel> {
    s.map_values(|i: InstrModel| OperandModel::Instruction(i))
}

impl Instruction {
    /// An instruction with the given opcode and operands.
    pub fn new(opcode: &str, operands: Vec<Operand>) -> (r: Instruction)
        ensures
            r@.opcode == opcode@,
            r@.operands == operands_model(operands@),
    {
        let r = Instruction { opcode: opcode.to_owned(), operands };
        proof {
            lemma_instr_model(r);
        }
        r
    }

    /// An instruction without operands.
    pub fn leaf(opcode: &str) -> (r: Instruction)
        ensures
            r@.opcode == opcode@,
            r@.operands == Seq::<OperandModel>::empty(),
    {
        let r = Self::new(opcode, Vec::new());
        assert(r@.operands =~= Seq::<OperandModel>::empty());
        r
    }
}

/// Turns each instruction into an operand, in order.
pub(crate) fn wrap_instructions(instructions: Vec<Instruction>) -> (r: Vec<Operand>)
    ensures
        operands_model(r@) == as_operands(instrs_model(instructions@)),
{
    let mut r: Vec<Operand> = Vec::new();
    let mut rest = instructions;
    let ghost all = instrs_model(instructions@);
    // Take the instructions out from the back, then restore their order.
    let mut reversed: Vec<Instruction> = Vec::new();
    while rest.len() > 0
        invariant
            instrs_model(rest@) + instrs_model(reversed@).reverse() == all,
        decreases rest.len(),
    {
        let ghost before_rest = rest@;
        let ghost before_rev = reversed@;
        let last = rest.pop().unwrap();
        reversed.push(last);
        assert(instrs_model(rest@) + instrs_model(reversed@).reverse() =~= all) by {
            assert(before_rest =~= rest@.push(last));
            assert(instrs_model(before_rest) =~= instrs_model(rest@).push(last@));
            assert(instrs_model(reversed@) =~= instrs_model(before_rev).push(last@));
            assert(instrs_model(reversed@).reverse() =~= seq![last@] + instrs_model(
                before_rev,
            ).reverse());
        }
    }
    assert(instrs_model(reversed@).reverse() =~= all);
    while reversed.len() > 0
        invariant
            operands_model(r@) + as_operands(instrs_model(reversed@).reverse()) == as_operands(all),
        decreases reversed.len(),
    {
        let ghost before_r = r@;
        let ghost before_rev = reversed@;
        let i = reversed.pop().unwrap();
        r.push(Operand::Instruction(Box::new(i)));
        assert(operands_model(r@) + as_operands(instrs_model(reversed@).reverse()) =~= as_operands(
            all,
        )) by {
            assert(before_rev =~= reversed@.push(i));
            assert(instrs_model(before_rev).reverse() =~= seq![i@] + instrs_model(
                reversed@,
            ).reverse());
            assert(operands_model(r@) =~= operands_model(before_r).push(
                OperandModel::Instruction(i@),
            ));
        }
    }
    assert(operands_model(r@) =~= as_operands(all));
    r
}

/// What running a step of compilation gives: a result, an error, or nothing because
/// the step aborts.
pub enum Outcome<T> {
    Done(T),
    Failed(crate::errors::CompileErrorModel),
    Aborts,
}

// # Operand kinds and instruction definitions

/// What an operand is expected to be: a value of a given type, or an instruction.
#[derive(Debug, Clone, PartialEq, Eq)]
pub enum OperandKind {
    Value(ValueType),
    Instruction,
}

/// Mathematical model of an [`OperandKind`].
pub enum KindModel {
    Value(Seq<char>),
    Instruction,
}

impl View for OperandKind {
    type V = KindModel;

    open spec fn view(&self) -> KindModel {
        match self {
            OperandKind::Value(t) => KindModel::Value(t@),
            OperandKind::Instruction => KindModel::Instruction,
        }
    }
}

impl OperandKind {
    /// A copy of this kind.
    pub(crate) fn duplicate(&self) -> (r: OperandKind)
        ensures
            r@ == self@,
    {
        match self {
            OperandKind::Value(t) => OperandKind::Value(t.duplicate()),
            OperandKind::Instruction => OperandKind::Instruction,
        }
    }

    /// Whether two kinds are the same.
    pub(crate) fn same_as(&self, other: &OperandKind) -> (r: bool)
        ensures
            r == (self@ == other@),
    {
        match (self, other) {
            (OperandKind::Value(a), OperandKind::Value(b)) => a.0 == b.0,
            (OperandKind::Instruction, OperandKind::Instruction) => true,
            _ => false,
        }
    }
}

/// The kind of an operand.
pub open spec fn kind_of(o: OperandModel) -> KindModel {
    match o {
        OperandModel::Instruction(_) => KindModel::Instruction,
        OperandModel::Value(v) => KindModel::Value(value_type_name(v)),
    }
}

/// The definition of an opcode in a language: the kinds of its operands, or `None`
/// where it takes any number of operands of any kind.
#[derive(Debug)]
pub struct InstructionDefinition {
    pub opcode: String,
    pub operands: Option<Vec<OperandKind>>,
}

/// Mathematical model of an [`InstructionDefinition`].
pub struct DefModel {
    pub opcode: Seq<char>,
    pub operands: Option<Seq<KindModel>>,
}

/// The models of a sequence of operand kinds.
pub open spec fn kinds_model(s: Seq<OperandKind>) -> Seq<KindModel> {
    s.map_values(|k: OperandKind| k@)
}

impl View for InstructionDefinition {
    type V = DefModel;

    open spec fn view(&self) -> DefModel {
        DefModel {
            opcode: self.opcode@,
            operands: match self.operands {
                Some(v) => Some(kinds_model(v@)),
                None => None,
            },
        }
    }
}

/// The models of a sequence of definitions.
pub open spec fn defs_model(s: Seq<InstructionDefinition>) -> Seq<DefModel> {
    s.map_values(|d: InstructionDefinition| d@)
}

/// Copies a sequence of operand kinds.
pub(crate) fn copy_kinds(kinds: &Vec<OperandKind>) -> (r: Vec<OperandKind>)
    ensures
        kinds_model(r@) == kinds_model(kinds@),
{
    let mut r: Vec<OperandKind> = Vec::new();
    for i in 0..kinds.len()
        invariant
            kinds_model(r@) == kinds_model(kinds@).take(i as int),
    {
        let ghost old_r = r@;
        let k = kinds[i].duplicate();
        r.push(k);
        assert(r@ =~= old_r.push(k));
        assert(kinds_model(r@) =~= kinds_model(kinds@).take(i + 1)) by {
            assert(kinds_model(r@) =~= kinds_model(old_r).push(k@));
        }
    }
    assert(kinds_model(kinds@).take(kinds@.len() as int) =~= kinds_model(kinds@));
    r
}

impl InstructionDefinition {
    /// A definition with the given opcode and operand kinds.
    pub fn new(opcode: &str, operands: Option<Vec<OperandKind>>) -> (r: InstructionDefinition)
        ensures
            r@.opcode == opcode@,
            r@.operands == (match operands {
                Some(v) => Some(kinds_model(v@)),
                None => None::<Seq<KindModel>>,
            }),
    {
        InstructionDefinition { opcode: opcode.to_owned(), operands }
    }

    /// A copy of this definition.
    pub(crate) fn duplicate(&self) -> (r: InstructionDefinition)
        ensures
            r@ == self@,
    {
        InstructionDefinition {
            opcode: self.opcode.clone(),
            operands: match &self.operands {
                Some(v) => Some(copy_kinds(v)),
                None => None,
            },
        }
    }
}

/// Copies a sequence of definitions.
pub(crate) fn copy_defs(defs: &Vec<InstructionDefinition>) -> (r: Vec<InstructionDefinition>)
    ensures
        defs_model(r@) == defs_model(defs@),
{
    let mut r: Vec<InstructionDefinition> = Vec::new();
    for i in 0..defs.len()
        invariant
            defs_model(r@) == defs_model(defs@).take(i as int),
    {
        let ghost old_r = r@;
        let d = defs[i].duplicate();
        r.push(d);
        assert(r@ =~= old_r.push(d));
        assert(defs_model(r@) =~= defs_model(defs@).take(i + 1)) by {
            assert(defs_model(r@) =~= defs_model(old_r).push(d@));
        }
    }
    assert(defs_model(defs@).take(defs@.len() as int) =~= defs_model(defs@));
    r
}

// # Languages

/// The first definition of `opcode` in `defs`.
pub open spec fn find_def(defs: Seq<DefModel>, opcode: Seq<char>) -> Option<DefModel>
    decreases defs.len(),
{
    if defs.len() == 0 {
        None
    } else if defs[0].opcode == opcode {
        Some(defs[0])
    } else {
        find_def(defs.drop_first(), opcode)
    }
}

/// The first position, from `from` on, where an operand is not of the expected kind.
pub open spec fn first_mismatch(
    ops: Seq<OperandModel>,
    kinds: Seq<KindModel>,
    from: int,
) -> Option<nat>
    decreases ops.len() - from,
{
    if from < 0 || from >= ops.len() {
        None
    } else if kind_of(ops[from]) != kinds[from] {
        Some(from as nat)
    } else {
        first_mismatch(ops, kinds, from + 1)
    }
}

/// The kinds of `n` instruction operands.
pub open spec fn instruction_kinds(n: nat) -> Seq<KindModel> {
    Seq::new(n, |_k: int| KindModel::Instruction)
}

/// Operands that are all instructions have no mismatch against instruction kinds.
pub proof fn lemma_instructions_match(ops: Seq<OperandModel>, from: int)
    requires
        forall|k: int| 0 <= k < ops.len() ==> (#[trigger] ops[k]) is Instruction,
    ensures
        first_mismatch(ops, instruction_kinds(ops.len()), from) is None,
    decreases ops.len() - from,
{
    if 0 <= from < ops.len() {
        lemma_instructions_match(ops, from + 1);
    }
}

/// Law: the definition of an opcode is the first one in the list with that opcode,
/// and there is none exactly where no definition has it.
pub proof fn law_find_def_is_first(defs: Seq<DefModel>, opcode: Seq<char>)
    ensures
        find_def(defs, opcode) is None <==> (forall|k: int| 0 <= k < defs.len() ==> (#[trigger] defs[k]).opcode != opcode),
        find_def(defs, opcode) matches Some(d) ==> exists|k: int|
            0 <= k < defs.len() && #[trigger] defs[k] == d && d.opcode == opcode && (forall|j: int| 0 <= j < k ==> defs[j].opcode != opcode),
    decreases defs.len(),
{
    if defs.len() > 0 {
        law_find_def_is_first(defs.drop_first(), opcode);
        if defs[0].opcode == opcode {
            assert(defs[0] == find_def(defs, opcode)->0);
        } else {
            assert forall|k: int| 0 <= k < defs.len() && (forall|i: int| 0 <= i < defs.drop_first().len() ==> (#[trigger] defs.drop_first()[i]).opcode != opcode) implies (#[trigger] defs[k]).opcode != opcode by {
                if k > 0 {
                    assert(defs[k] == defs.drop_first()[k - 1]);
                }
            }
            if let Some(d) = find_def(defs, opcode) {
                let k = choose|k: int|
                    0 <= k < defs.drop_first().len() && #[trigger] defs.drop_first()[k] == d && d.opcode == opcode && (forall|j: int| 0 <= j < k ==> defs.drop_first()[j].opcode != opcode);
                assert(defs[k + 1] == d);
                assert forall|j: int| 0 <= j < k + 1 implies defs[j].opcode != opcode by {
                    if j > 0 {
                        assert(defs[j] == defs.drop_first()[j - 1]);
                    }
                }
            } else {
                assert forall|k: int| 0 <= k < defs.len() implies (#[trigger] defs[k]).opcode != opcode by {
                    if k > 0 {
                        assert(defs[k] == defs.drop_first()[k - 1]);
                    }
                }
            }
        }
    }
}

/// Where the first mismatch from `from` on is: none exactly where every operand from
/// `from` on has its expected kind, else the first position that does not.
pub proof fn lemma_first_mismatch(ops: Seq<OperandModel>, kinds: Seq<KindModel>, from: int)
    requires
        0 <= from,
    ensures
        first_mismatch(ops, kinds, from) is None <==> (forall|k: int| from <= k < ops.len() ==> kind_of(#[trigger] ops[k]) == kinds[k]),
        first_mismatch(ops, kinds, from) matches Some(p) ==> from <= p < ops.len() && kind_of(ops[p as int]) != kinds[p as int]
            && (forall|j: int| from <= j < p ==> kind_of(#[trigger] ops[j]) == kinds[j]),
    decreases ops.len() - from,
{
    if from < ops.len() {
        lemma_first_mismatch(ops, kinds, from + 1);
        if kind_of(ops[from]) == kinds[from] {
            assert forall|k: int| from <= k < ops.len() && (forall|j: int| from + 1 <= j < ops.len() ==> kind_of(#[trigger] ops[j]) == kinds[j]) implies kind_of(#[trigger] ops[k]) == kinds[k] by {
                if k > from {
                }
            }
        }
    }
}

/// What checking `instr` against the definitions `defs` gives. A definition without
/// operand kinds takes any number of operands, each an instruction.
pub open spec fn verify_spec(defs: Seq<DefModel>, instr: InstrModel) -> Result<(), VerifyErrorModel> {
    match find_def(defs, instr.opcode) {
        None => Err(VerifyErrorModel::UnknownOpcode(instr.opcode)),
        Some(def) => match def.operands {
            None => match first_mismatch(instr.operands, instruction_kinds(instr.operands.len()), 0) {
                None => Ok(()),
                Some(k) => Err(
                    VerifyErrorModel::OperandTypeMismatch {
                        opcode: instr.opcode,
                        position: k,
                        expected: KindModel::Instruction,
                        got: kind_of(instr.operands[k as int]),
                    },
                ),
            },
            Some(kinds) => if instr.operands.len() != kinds.len() {
                Err(
                    VerifyErrorModel::ArityMismatch {
                        opcode: instr.opcode,
                        expected: kinds.len(),
                        got: instr.operands.len(),
                    },
                )
            } else {
                match first_mismatch(instr.operands, kinds, 0) {
                    None => Ok(()),
                    Some(k) => Err(
                        VerifyErrorModel::OperandTypeMismatch {
                            opcode: instr.opcode,
                            position: k,
                            expected: kinds[k as int],
                            got: kind_of(instr.operands[k as int]),
                        },
                    ),
                }
            },
        },
    }
}

/// Law: checking an instruction whose definition lists operand kinds succeeds
/// exactly where it has as many operands as kinds and each operand has the kind
/// listed at its position; where the numbers agree but some operand does not, the
/// error names the first such position, what is expected there and what is found.
/// Where the definition lists no kinds, it succeeds exactly where every operand is an
/// instruction.
pub proof fn law_verify_checks_every_operand(defs: Seq<DefModel>, instr: InstrModel)
    ensures
        find_def(defs, instr.opcode) is None ==> verify_spec(defs, instr) == Err::<(), VerifyErrorModel>(
            VerifyErrorModel::UnknownOpcode(instr.opcode),
        ),
        find_def(defs, instr.opcode) matches Some(def) ==> match def.operands {
            Some(kinds) => {
                &&& (instr.operands.len() != kinds.len() ==> verify_spec(defs, instr) == Err::<(), VerifyErrorModel>(
                    VerifyErrorModel::ArityMismatch {
                        opcode: instr.opcode,
                        expected: kinds.len(),
                        got: instr.operands.len(),
                    },
                ))
                &&& (verify_spec(defs, instr) is Ok <==> (instr.operands.len() == kinds.len() && forall|k: int|
                    0 <= k < kinds.len() ==> kind_of(#[trigger] instr.operands[k]) == kinds[k]))
                &&& forall|k: int|
                    0 <= k < instr.operands.len() && instr.operands.len() == kinds.len() && kind_of(
                        #[trigger] instr.operands[k],
                    ) != kinds[k] && (forall|j: int| 0 <= j < k ==> kind_of(instr.operands[j]) == kinds[j])
                        ==> verify_spec(defs, instr) == Err::<(), VerifyErrorModel>(
                        VerifyErrorModel::OperandTypeMismatch {
                            opcode: instr.opcode,
                            position: k as nat,
                            expected: kinds[k],
                            got: kind_of(instr.operands[k]),
                        },
                    )
            },
            None => verify_spec(defs, instr) is Ok <==> (forall|k: int|
                0 <= k < instr.operands.len() ==> (#[trigger] instr.operands[k]) is Instruction),
        },
{
    let ops = instr.operands;
    if let Some(def) = find_def(defs, instr.opcode) {
        match def.operands {
            Some(kinds) => {
                lemma_first_mismatch(ops, kinds, 0);
                if let Some(p) = first_mismatch(ops, kinds, 0) {
                    assert forall|k: int|
                        0 <= k < ops.len() && ops.len() == kinds.len() && kind_of(#[trigger] ops[k]) != kinds[k]
                            && (forall|j: int| 0 <= j < k ==> kind_of(ops[j]) == kinds[j]) implies k == p by {
                        if k < p {
                        } else if k > p {
                            assert(kind_of(ops[p as int]) == kinds[p as int]);
                        }
                    }
                }
            },
            None => {
                let kinds = instruction_kinds(ops.len());
                lemma_first_mismatch(ops, kinds, 0);
                assert forall|k: int| 0 <= k < ops.len() implies (kind_of(#[trigger] ops[k]) == kinds[k] <==> ops[k] is Instruction) by {
                    match ops[k] {
                        OperandModel::Instruction(_) => {},
                        OperandModel::Value(_) => {},
                    }
                }
            },
        }
    }
}

/// Whether an instruction, and every instruction nested in it, passes the check
/// against the definitions `defs`.
pub open spec fn deep_verified(defs: Seq<DefModel>, i: InstrModel) -> bool
    decreases i,
{
    verify_spec(defs, i) is Ok && deep_verified_ops(defs, i.operands)
}

/// Whether every instruction among some operands, and every instruction nested in
/// them, passes the check against the definitions `defs`.
pub open spec fn deep_verified_ops(defs: Seq<DefModel>, ops: Seq<OperandModel>) -> bool
    decreases ops,
{
    if ops.len() == 0 {
        true
    } else {
        &&& deep_verified_ops(defs, ops.drop_last())
        &&& (ops.last() matches OperandModel::Instruction(x) ==> deep_verified(defs, x))
    }
}

/// A language: a name and the definitions of its instructions.
pub trait Language {
    /// The name of the language.
    spec fn spec_name(&self) -> Seq<char>;

    /// The definitions of the language's instructions, in order.
    spec fn spec_defs(&self) -> Seq<DefModel>;

    fn name(&self) -> (r: &str)
        ensures
            r@ == self.spec_name(),
    ;

    fn instruction_defs(&self) -> (r: Vec<InstructionDefinition>)
        ensures
            defs_model(r@) == self.spec_defs(),
    ;

    /// The first definition of `opcode`.
    fn get_def(&self, opcode: &str) -> (r: Option<InstructionDefinition>)
        ensures
            match find_def(self.spec_defs(), opcode@) {
                None => r is None,
                Some(d) => r matches Some(x) && x@ == d,
            },
    {
        let mut defs = self.instruction_defs();
        let ghost all = self.spec_defs();
        let mut k: usize = 0;
        let owned = opcode.to_owned();
        assert(all.skip(0) =~= all);
        while k < defs.len()
            invariant
                0 <= k <= defs@.len(),
                defs_model(defs@) == all,
                all == self.spec_defs(),
                owned@ == opcode@,
                find_def(all, opcode@) == find_def(all.skip(k as int), opcode@),
            decreases defs@.len() - k,
        {
            assert(all.skip(k as int)[0] == defs@[k as int]@);
            if defs[k].opcode == owned {
                assert(all.skip(k as int)[0].opcode == opcode@);
                assert(find_def(all.skip(k as int), opcode@) == Some(all.skip(k as int)[0]));
                let ghost old_defs = defs@;
                let d = defs.remove(k);
                assert(d == old_defs[k as int]);
                assert(d@ == all[k as int]);
                assert(all.skip(k as int)[0] == all[k as int]);
                assert(find_def(self.spec_defs(), opcode@) == Some(d@));
                return Some(d);
            }
            assert(all.skip(k as int).drop_first() =~= all.skip(k + 1));
            k = k + 1;
        }
        None
    }

    /// Checks an instruction against its definition: the opcode must be defined;
    /// where the definition lists operand kinds, the operands must match them in
    /// number and kind, and where it lists none, every operand must be an instruction.
    fn verify(&self, instr: &Instruction) -> (r: Result<(), VerifyError>)
        ensures
            match verify_spec(self.spec_defs(), instr@) {
                Ok(()) => r is Ok,
                Err(e) => r matches Err(x) && x@ == e,
            },
    {
        proof {
            lemma_instr_model(*instr);
        }
        let def = match self.get_def(instr.opcode.as_str()) {
            Some(d) => d,
            None => {
                return Err(VerifyError::UnknownOpcode(instr.opcode.clone()));
            },
        };
        let ghost def_model = def@;
        let expected = match def.operands {
            Some(kinds) => kinds,
            None => {
                return verify_all_instructions(instr);
            },
        };
        if instr.operands.len() != expected.len() {
            return Err(
                VerifyError::ArityMismatch {
                    opcode: instr.opcode.clone(),
                    expected: expected.len(),
                    got: instr.operands.len(),
                },
            );
        }
        let ghost ops = instr@.operands;
        let ghost kinds = kinds_model(expected@);
        let mut i: usize = 0;
        while i < expected.len()
            invariant
                0 <= i <= expected@.len(),
                expected@.len() == instr.operands@.len(),
                ops == operands_model(instr.operands@),
                kinds == kinds_model(expected@),
                find_def(self.spec_defs(), instr@.opcode) == Some(def_model),
                def_model.operands == Some(kinds),
                instr@.operands == ops,
                instr@.opcode == instr.opcode@,
                first_mismatch(ops, kinds, 0) == first_mismatch(ops, kinds, i as int),
            decreases expected@.len() - i,
        {
            let got = match &instr.operands[i] {
                Operand::Instruction(_) => OperandKind::Instruction,
                Operand::Value(v) => OperandKind::Value(v.value_type()),
            };
            assert(got@ == kind_of(ops[i as int]));
            assert(kinds[i as int] == expected@[i as int]@);
            if !got.same_as(&expected[i]) {
                assert(first_mismatch(ops, kinds, i as int) == Some(i as nat));
                let e = expected[i].duplicate();
                let r = VerifyError::OperandTypeMismatch {
                    opcode: instr.opcode.clone(),
                    position: i,
                    expected: e,
                    got,
                };
                assert(r@ == VerifyErrorModel::OperandTypeMismatch {
                    opcode: instr@.opcode,
                    position: i as nat,
                    expected: kinds[i as int],
                    got: kind_of(instr@.operands[i as int]),
                });
                assert(verify_spec(self.spec_defs(), instr@) == Err::<(), VerifyErrorModel>(r@));
                return Err(r);
            }
            i = i + 1;
        }
        Ok(())
    }
}

/// Checks that every operand of an instruction is an instruction, as a definition
/// that lists no operand kinds asks.
fn verify_all_instructions(instr: &Instruction) -> (r: Result<(), VerifyError>)
    ensures
        match first_mismatch(instr@.operands, instruction_kinds(instr@.operands.len()), 0) {
            None => r is Ok,
            Some(k) => r matches Err(x) && x@ == VerifyErrorModel::OperandTypeMismatch {
                opcode: instr@.opcode,
                position: k,
                expected: KindModel::Instruction,
                got: kind_of(instr@.operands[k as int]),
            },
        },
{
    proof {
        lemma_instr_model(*instr);
    }
    let ghost ops = instr@.operands;
    let ghost kinds = instruction_kinds(ops.len());
    let n = instr.operands.len();
    let mut i: usize = 0;
    while i < n
        invariant
            0 <= i <= n,
            n == ops.len(),
            ops == operands_model(instr.operands@),
            ops == instr@.operands,
            kinds == instruction_kinds(ops.len()),
            first_mismatch(ops, kinds, 0) == first_mismatch(ops, kinds, i as int),
        decreases n - i,
    {
        if let Operand::Value(v) = &instr.operands[i] {
            assert(kind_of(ops[i as int]) != kinds[i as int]);
            assert(first_mismatch(ops, kinds, i as int) == Some(i as nat));
            let got = OperandKind::Value(v.value_type());
            assert(got@ == kind_of(ops[i as int]));
            return Err(
                VerifyError::OperandTypeMismatch {
                    opcode: instr.opcode.clone(),
                    position: i,
                    expected: OperandKind::Instruction,
                    got,
                },
            );
        }
        assert(kind_of(ops[i as int]) == kinds[i as int]);
        i = i + 1;
    }
    Ok(())
}

/// A language given by its name and definitions, as a module keeps it.
pub struct LanguageInfo {
    pub name: String,
    pub instruction_defs: Vec<InstructionDefinition>,
}

/// Mathematical model of a [`LanguageInfo`].
pub struct LanguageModel {
    pub name: Seq<char>,
    pub defs: Seq<DefModel>,
}

impl View for LanguageInfo {
    type V = LanguageModel;

    open spec fn view(&self) -> LanguageModel {
        LanguageModel { name: self.name@, defs: defs_model(self.instruction_defs@) }
    }
}

impl Language for LanguageInfo {
    open spec fn spec_name(&self) -> Seq<char> {
        self.name@
    }

    open spec fn spec_defs(&self) -> Seq<DefModel> {
        defs_model(self.instruction_defs@)
    }

    fn name(&self) -> (r: &str) {
        self.name.as_str()
    }

    fn instruction_defs(&self) -> (r: Vec<InstructionDefinition>) {
        copy_defs(&self.instruction_defs)
    }
}

impl LanguageInfo {
    /// The name and definitions of a language.
    pub fn of<L: Language>(language: &L) -> (r: LanguageInfo)
        ensures
            r@ == (LanguageModel { name: language.spec_name(), defs: language.spec_defs() }),
    {
        LanguageInfo {
            name: language.name().to_owned(),
            instruction_defs: language.instruction_defs(),
        }
    }
}

// # Modules

/// A sequence of instructions of one language.
pub struct Module {
    pub language: LanguageInfo,
    pub instructions: Vec<Instruction>,
}

/// Mathematical model of a [`Module`].
pub struct ModuleModel {
    pub language: LanguageModel,
    pub instructions: Seq<InstrModel>,
}

impl View for Module {
    type V = ModuleModel;

    open spec fn view(&self) -> ModuleModel {
        ModuleModel { language: self.language@, instructions: instrs_model(self.instructions@) }
    }
}

/// The model of a language value.
pub open spec fn language_model<L: Language>(language: L) -> LanguageModel {
    LanguageModel { name: language.spec_name(), defs: language.spec_defs() }
}

impl Module {
    /// An empty module of the given language.
    pub fn new<L: Language>(language: L) -> (r: Module)
        ensures
            r@.language == language_model(language),
            r@.instructions == Seq::<InstrModel>::empty(),
    {
        let m = Module { language: LanguageInfo::of(&language), instructions: Vec::new() };
        assert(m@.instructions =~= Seq::<InstrModel>::empty());
        m
    }

    /// Appends an instruction.
    pub fn push(&mut self, instr: Instruction)
        ensures
            final(self)@.language == old(self)@.language,
            final(self)@.instructions == old(self)@.instructions.push(instr@),
    {
        self.instructions.push(instr);
        assert(self@.instructions =~= old(self)@.instructions.push(instr@));
    }
}

} // verus!
