//! The assembler: one scan over the tokens that emits instructions and
//! records label declarations, then a pass that puts the recorded index in
//! place of every label operand.

use crate::instr::Instr;
use crate::lexer::{token_views, tokenize, tokenize_spec, Token, TokenView};
use crate::op::{Arity, Op};
use vstd::hash_map::StringHashMap;
use vstd::prelude::*;

verus! {

/// The operand of an instruction while it is being assembled.
#[derive(Debug, Clone, PartialEq, Eq)]
pub enum AbstractValue {
    /// An integer, written in the source or put in place of a label.
    Integer(i64),
    /// A label whose index is not known yet.
    Label(String),
    /// No operand.
    Absent,
}

/// An operand as the contracts see it.
pub enum AbstractValueView {
    Integer(i64),
    Label(Seq<char>),
    Absent,
}

impl View for AbstractValue {
    type V = AbstractValueView;

    open spec fn view(&self) -> AbstractValueView {
        match self {
            AbstractValue::Integer(v) => AbstractValueView::Integer(*v),
            AbstractValue::Label(name) => AbstractValueView::Label(name@),
            AbstractValue::Absent => AbstractValueView::Absent,
        }
    }
}

/// An instruction while it is being assembled.
#[derive(Debug, Clone, PartialEq, Eq)]
pub struct AbstractInstr {
    pub op: Op,
    pub value: AbstractValue,
}

/// An instruction under assembly as the contracts see it.
pub struct AbstractInstrView {
    pub op: Op,
    pub value: AbstractValueView,
}

impl View for AbstractInstr {
    type V = AbstractInstrView;

    open spec fn view(&self) -> AbstractInstrView {
        AbstractInstrView { op: self.op, value: self.value@ }
    }
}

/// The views of a sequence of instructions under assembly.
pub open spec fn instr_views(instrs: Seq<AbstractInstr>) -> Seq<AbstractInstrView> {
    instrs.map_values(|i: AbstractInstr| i@)
}

/// Why a source text does not assemble.
#[derive(Debug, Clone, PartialEq, Eq)]
pub enum CompileError {
    /// A word of the text is no keyword, no integer literal and no label.
    UnrecognizedToken(String),
    /// No statement starts with this token here: an operand without an
    /// opcode before it, or an opcode that is not followed by the operand it
    /// takes.
    UnexpectedToken(Token),
    /// The label is declared a second time.
    DuplicateLabel(String),
    /// The label is used as an operand and declared nowhere.
    UnknownLabel(String),
}

/// An assembly error as the contracts see it.
pub enum CompileErrorView {
    UnrecognizedToken(Seq<char>),
    UnexpectedToken(TokenView),
    DuplicateLabel(Seq<char>),
    UnknownLabel(Seq<char>),
}

impl View for CompileError {
    type V = CompileErrorView;

    open spec fn view(&self) -> CompileErrorView {
        match self {
            CompileError::UnrecognizedToken(text) => CompileErrorView::UnrecognizedToken(text@),
            CompileError::UnexpectedToken(token) => CompileErrorView::UnexpectedToken(token@),
            CompileError::DuplicateLabel(name) => CompileErrorView::DuplicateLabel(name@),
            CompileError::UnknownLabel(name) => CompileErrorView::UnknownLabel(name@),
        }
    }
}

/// What the scan has gathered: the instructions emitted so far, and for
/// every label declared so far the number of instructions that had been
/// emitted when it was declared.
pub struct Parsed {
    pub instrs: Seq<AbstractInstrView>,
    pub labels: Map<Seq<char>, usize>,
}

impl Parsed {
    pub open spec fn empty() -> Parsed {
        Parsed { instrs: Seq::empty(), labels: Map::empty() }
    }

    /// Binds `name` to the index of the instruction that is emitted next.
    pub open spec fn declare(self, name: Seq<char>) -> Parsed {
        Parsed { instrs: self.instrs, labels: self.labels.insert(name, self.instrs.len() as usize) }
    }

    pub open spec fn emit(self, instr: AbstractInstrView) -> Parsed {
        Parsed { instrs: self.instrs.push(instr), labels: self.labels }
    }
}

/// The operand that an opcode of the given arity takes when it stands at
/// position `i`, or `None` where the token behind it is not one it accepts.
pub open spec fn operand_at(tokens: Seq<TokenView>, i: int, arity: Arity) -> Option<
    AbstractValueView,
> {
    match arity {
        Arity::NoOperand => Some(AbstractValueView::Absent),
        Arity::Integer => if i + 1 < tokens.len() {
            match tokens[i + 1] {
                TokenView::Value(v) => Some(AbstractValueView::Integer(v)),
                _ => None,
            }
        } else {
            None
        },
        Arity::Target => if i + 1 < tokens.len() {
            match tokens[i + 1] {
                TokenView::Value(v) => Some(AbstractValueView::Integer(v)),
                TokenView::Label(name) => Some(AbstractValueView::Label(name)),
                _ => None,
            }
        } else {
            None
        },
    }
}

/// The number of tokens that an instruction takes up in the source.
pub open spec fn width(arity: Arity) -> int {
    if arity == Arity::NoOperand {
        1
    } else {
        2
    }
}

/// The scan from position `i` on, with `acc` gathered before it. A label at
/// the head of a statement is a declaration; an opcode takes the operand
/// that its arity asks for; anything else ends the scan with the token it
/// stopped at.
pub open spec fn parse_from(tokens: Seq<TokenView>, i: int, acc: Parsed) -> Result<
    Parsed,
    CompileErrorView,
>
    decreases tokens.len() - i,
{
    if i < 0 || i >= tokens.len() {
        Ok(acc)
    } else {
        match tokens[i] {
            TokenView::Label(name) => if acc.labels.contains_key(name) {
                Err(CompileErrorView::DuplicateLabel(name))
            } else {
                parse_from(tokens, i + 1, acc.declare(name))
            },
            TokenView::Op(op) => match operand_at(tokens, i, op.spec_arity()) {
                Some(value) => parse_from(
                    tokens,
                    i + width(op.spec_arity()),
                    acc.emit(AbstractInstrView { op, value }),
                ),
                None => Err(CompileErrorView::UnexpectedToken(tokens[i])),
            },
            _ => Err(CompileErrorView::UnexpectedToken(tokens[i])),
        }
    }
}

/// The scan of a whole token stream.
pub open spec fn parse(tokens: Seq<TokenView>) -> Result<Parsed, CompileErrorView> {
    parse_from(tokens, 0, Parsed::empty())
}

/// An instruction with the index of its label in place of the label.
pub open spec fn link_one(instr: AbstractInstrView, labels: Map<Seq<char>, usize>) -> Result<
    AbstractInstrView,
    CompileErrorView,
> {
    match instr.value {
        AbstractValueView::Label(name) => if labels.contains_key(name) {
            Ok(
                AbstractInstrView {
                    op: instr.op,
                    value: AbstractValueView::Integer(labels[name] as i64),
                },
            )
        } else {
            Err(CompileErrorView::UnknownLabel(name))
        },
        _ => Ok(instr),
    }
}

/// The instructions with every label operand resolved, or the first label,
/// in the order of the instructions, that is declared nowhere.
pub open spec fn link(instrs: Seq<AbstractInstrView>, labels: Map<Seq<char>, usize>) -> Result<
    Seq<AbstractInstrView>,
    CompileErrorView,
>
    decreases instrs.len(),
{
    if instrs.len() == 0 {
        Ok(Seq::empty())
    } else {
        match link(instrs.drop_last(), labels) {
            Err(e) => Err(e),
            Ok(front) => match link_one(instrs.last(), labels) {
                Err(e) => Err(e),
                Ok(instr) => Ok(front.push(instr)),
            },
        }
    }
}

/// Whether no instruction has a label for its operand any more.
pub open spec fn is_linked(instrs: Seq<AbstractInstrView>) -> bool {
    forall|k: int| 0 <= k < instrs.len() ==> !((#[trigger] instrs[k]).value is Label)
}

/// The machine instruction for an instruction without a label operand: a
/// missing operand becomes zero.
pub open spec fn concrete(instr: AbstractInstrView) -> Instr {
    Instr {
        op: instr.op,
        value: match instr.value {
            AbstractValueView::Integer(v) => v,
            _ => 0,
        },
    }
}

pub open spec fn concretize_spec(instrs: Seq<AbstractInstrView>) -> Seq<Instr> {
    instrs.map_values(|i: AbstractInstrView| concrete(i))
}

/// The program that a token stream assembles to. The scan's errors come
/// before the unknown labels.
pub open spec fn assemble(tokens: Seq<TokenView>) -> Result<Seq<Instr>, CompileErrorView> {
    match parse(tokens) {
        Err(e) => Err(e),
        Ok(parsed) => match link(parsed.instrs, parsed.labels) {
            Err(e) => Err(e),
            Ok(linked) => Ok(concretize_spec(linked)),
        },
    }
}

/// The program that a source text compiles to. An unknown word is reported
/// before anything else.
pub open spec fn compile_spec(text: Seq<char>) -> Result<Seq<Instr>, CompileErrorView> {
    match tokenize_spec(text) {
        Err(word) => Err(CompileErrorView::UnrecognizedToken(word)),
        Ok(tokens) => assemble(tokens),
    }
}

/// Whether `result` is what compiling `text` gives.
pub open spec fn compiles_to(text: Seq<char>, result: Result<Vec<Instr>, CompileError>) -> bool {
    match result {
        Ok(program) => compile_spec(text) == Ok::<Seq<Instr>, CompileErrorView>(program@),
        Err(e) => compile_spec(text) == Err::<Seq<Instr>, CompileErrorView>(e@),
    }
}

/// Compiling the same text twice gives the same instructions, or the same
/// error.
pub proof fn lemma_compile_twice(
    text: Seq<char>,
    first: Result<Vec<Instr>, CompileError>,
    second: Result<Vec<Instr>, CompileError>,
)
    requires
        compiles_to(text, first),
        compiles_to(text, second),
    ensures
        first is Ok <==> second is Ok,
        first matches Ok(a) ==> second matches Ok(b) && a@ == b@,
        first matches Err(e) ==> second matches Err(f) && e@ == f@,
{
}

/// The scan only adds to what it had gathered: the instructions emitted
/// before stay where they are, and a label keeps the index it was declared
/// with.
pub proof fn lemma_parse_extends(tokens: Seq<TokenView>, i: int, acc: Parsed)
    ensures
        parse_from(tokens, i, acc) matches Ok(parsed) ==> {
            &&& acc.instrs.len() <= parsed.instrs.len()
            &&& parsed.instrs.take(acc.instrs.len() as int) == acc.instrs
            &&& forall|name: Seq<char>| #[trigger]
                acc.labels.contains_key(name) ==> parsed.labels.contains_key(name)
                    && parsed.labels[name] == acc.labels[name]
        },
    decreases tokens.len() - i,
{
    if 0 <= i < tokens.len() {
        if let Ok(parsed) = parse_from(tokens, i, acc) {
            match tokens[i] {
                TokenView::Label(name) => {
                    lemma_parse_extends(tokens, i + 1, acc.declare(name));
                    assert forall|other: Seq<char>| #[trigger]
                        acc.labels.contains_key(other) implies parsed.labels.contains_key(other)
                        && parsed.labels[other] == acc.labels[other] by {
                        assert(acc.declare(name).labels.contains_key(other));
                    }
                },
                TokenView::Op(op) => {
                    let value = operand_at(tokens, i, op.spec_arity())->Some_0;
                    let next = acc.emit(AbstractInstrView { op, value });
                    lemma_parse_extends(tokens, i + width(op.spec_arity()), next);
                    assert(parsed.instrs.take(acc.instrs.len() as int) =~= parsed.instrs.take(
                        next.instrs.len() as int,
                    ).take(acc.instrs.len() as int));
                    assert(next.instrs.take(acc.instrs.len() as int) =~= acc.instrs);
                },
                _ => {},
            }
        }
    } else {
        assert(acc.instrs.take(acc.instrs.len() as int) =~= acc.instrs);
    }
}

/// A label that is declared at position `i` stands, in the end, for the
/// number of instructions emitted before position `i`: the index of the
/// instruction that follows the declaration.
pub proof fn lemma_label_binds_next_instruction(tokens: Seq<TokenView>, i: int, acc: Parsed)
    requires
        0 <= i < tokens.len(),
        tokens[i] is Label,
        acc.instrs.len() <= usize::MAX,
    ensures
        parse_from(tokens, i, acc) matches Ok(parsed) ==> parsed.labels.contains_key(
            tokens[i]->Label_0,
        ) && parsed.labels[tokens[i]->Label_0] == acc.instrs.len(),
{
    let name = tokens[i]->Label_0;
    if !acc.labels.contains_key(name) {
        lemma_parse_extends(tokens, i + 1, acc.declare(name));
        assert(acc.declare(name).labels.contains_key(name));
    }
}

/// Every label of a finished scan stands for the index of an instruction
/// or, where it was declared behind the last one, for their number.
pub proof fn lemma_labels_in_range(tokens: Seq<TokenView>, i: int, acc: Parsed)
    requires
        tokens.len() <= usize::MAX,
        0 <= i <= tokens.len(),
        acc.instrs.len() <= i,
        forall|name: Seq<char>| #[trigger]
            acc.labels.contains_key(name) ==> acc.labels[name] <= acc.instrs.len(),
    ensures
        parse_from(tokens, i, acc) matches Ok(parsed) ==> {
            &&& parsed.instrs.len() <= tokens.len()
            &&& forall|name: Seq<char>| #[trigger]
                parsed.labels.contains_key(name) ==> parsed.labels[name] <= parsed.instrs.len()
        },
    decreases tokens.len() - i,
{
    if i < tokens.len() {
        if let Ok(parsed) = parse_from(tokens, i, acc) {
            match tokens[i] {
                TokenView::Label(name) => {
                    lemma_labels_in_range(tokens, i + 1, acc.declare(name));
                },
                TokenView::Op(op) => {
                    let value = operand_at(tokens, i, op.spec_arity())->Some_0;
                    lemma_labels_in_range(
                        tokens,
                        i + width(op.spec_arity()),
                        acc.emit(AbstractInstrView { op, value }),
                    );
                },
                _ => {},
            }
        }
    }
}

/// Linking keeps the number and the opcodes of the instructions, keeps the
/// integer operands, and puts in place of every label the index it was
/// declared with. It fails exactly where some label operand is declared
/// nowhere.
pub proof fn lemma_link_shape(instrs: Seq<AbstractInstrView>, labels: Map<Seq<char>, usize>)
    ensures
        link(instrs, labels) is Ok <==> forall|k: int|
            0 <= k < instrs.len() ==> ((#[trigger] instrs[k]).value matches AbstractValueView::Label(
                name,
            ) ==> labels.contains_key(name)),
        link(instrs, labels) matches Ok(linked) ==> {
            &&& linked.len() == instrs.len()
            &&& is_linked(linked)
            &&& forall|k: int|
                0 <= k < instrs.len() ==> link_one(instrs[k], labels) == Ok::<
                    AbstractInstrView,
                    CompileErrorView,
                >(#[trigger] linked[k])
        },
    decreases instrs.len(),
{
    if instrs.len() > 0 {
        let front = instrs.drop_last();
        lemma_link_shape(front, labels);
        if link(instrs, labels) is Ok {
            assert forall|k: int| 0 <= k < instrs.len() implies ((#[trigger] instrs[k]).value matches AbstractValueView::Label(
                name,
            ) ==> labels.contains_key(name)) by {
                if k < instrs.len() - 1 {
                    assert(instrs[k] == front[k]);
                }
            }
            let linked = link(instrs, labels)->Ok_0;
            assert forall|k: int| 0 <= k < instrs.len() implies link_one(instrs[k], labels) == Ok::<
                AbstractInstrView,
                CompileErrorView,
            >(#[trigger] linked[k]) by {
                if k < instrs.len() - 1 {
                    assert(instrs[k] == front[k]);
                    assert(linked[k] == link(front, labels)->Ok_0[k]);
                }
            }
        } else {
            if link(front, labels) is Ok {
                assert(link_one(instrs[instrs.len() - 1], labels) is Err);
            } else {
                let k = choose|k: int|
                    0 <= k < front.len() && !((#[trigger] front[k]).value matches AbstractValueView::Label(
                        name,
                    ) ==> labels.contains_key(name));
                assert(instrs[k] == front[k]);
            }
        }
    }
}

/// What assembling does with labels: where it succeeds, the program has one
/// instruction for every instruction that the scan emitted, with the same
/// opcode; a written integer is the operand, a missing operand is zero, and
/// a label operand has become the index that the scan recorded for its
/// name, which is the index of an instruction of the program or the
/// program's length.
pub proof fn lemma_assemble_resolves_labels(tokens: Seq<TokenView>)
    requires
        tokens.len() <= usize::MAX,
    ensures
        assemble(tokens) matches Ok(program) ==> parse(tokens) matches Ok(parsed) && {
            &&& program.len() == parsed.instrs.len()
            &&& forall|k: int|
                0 <= k < program.len() ==> (#[trigger] program[k]).op == parsed.instrs[k].op
                    && match parsed.instrs[k].value {
                    AbstractValueView::Integer(v) => program[k].value == v,
                    AbstractValueView::Absent => program[k].value == 0,
                    AbstractValueView::Label(name) => parsed.labels.contains_key(name)
                        && program[k].value == parsed.labels[name] as i64 && parsed.labels[name]
                        <= program.len(),
                }
        },
{
    if let Ok(program) = assemble(tokens) {
        let parsed = parse(tokens)->Ok_0;
        lemma_labels_in_range(tokens, 0, Parsed::empty());
        lemma_link_shape(parsed.instrs, parsed.labels);
    }
}

/// A copy of an operand.
fn duplicate_value(value: &AbstractValue) -> (copy: AbstractValue)
    ensures
        copy@ == value@,
{
    match value {
        AbstractValue::Integer(v) => AbstractValue::Integer(*v),
        AbstractValue::Label(name) => AbstractValue::Label(name.clone()),
        AbstractValue::Absent => AbstractValue::Absent,
    }
}

/// The operand that an opcode of the given arity takes at position `i`.
fn read_operand(tokens: &[Token], i: usize, arity: Arity) -> (value: Option<AbstractValue>)
    requires
        i < tokens@.len(),
    ensures
        match value {
            Some(v) => operand_at(token_views(tokens@), i as int, arity) == Some(v@),
            None => operand_at(token_views(tokens@), i as int, arity) is None,
        },
{
    let n: usize = tokens.len();
    match arity {
        Arity::NoOperand => Some(AbstractValue::Absent),
        Arity::Integer => {
            if i + 1 < n {
                match &tokens[i + 1] {
                    Token::Value(v) => Some(AbstractValue::Integer(*v)),
                    _ => None,
                }
            } else {
                None
            }
        },
        Arity::Target => {
            if i + 1 < n {
                match &tokens[i + 1] {
                    Token::Value(v) => Some(AbstractValue::Integer(*v)),
                    Token::Label(name) => Some(AbstractValue::Label(name.clone())),
                    _ => None,
                }
            } else {
                None
            }
        },
    }
}

/// Scans the tokens once, left to right. Emits one instruction for every
/// opcode with the operand it takes, and records for every label that heads
/// a statement the number of instructions emitted before it. Fails at the
/// first label that is declared twice and at the first token that no
/// statement can start with.
pub fn parse_tokens(tokens: &[Token]) -> (result: Result<
    (Vec<AbstractInstr>, StringHashMap<usize>),
    CompileError,
>)
    ensures
        match result {
            Ok((instrs, labels)) => parse(token_views(tokens@)) == Ok::<Parsed, CompileErrorView>(
                Parsed { instrs: instr_views(instrs@), labels: labels@ },
            ),
            Err(e) => parse(token_views(tokens@)) == Err::<Parsed, CompileErrorView>(e@),
        },
{
    let mut instrs: Vec<AbstractInstr> = Vec::new();
    let mut labels: StringHashMap<usize> = StringHashMap::new();
    let mut i: usize = 0;
    proof {
        assert(instr_views(instrs@) =~= Seq::<AbstractInstrView>::empty());
    }
    while i < tokens.len()
        invariant
            i <= tokens@.len(),
            parse(token_views(tokens@)) == parse_from(
                token_views(tokens@),
                i as int,
                Parsed { instrs: instr_views(instrs@), labels: labels@ },
            ),
        decreases tokens@.len() - i,
    {
        let ghost views = token_views(tokens@);
        let ghost acc = Parsed { instrs: instr_views(instrs@), labels: labels@ };
        let token: &Token = &tokens[i];
        assert(views[i as int] == token@);
        match token {
            Token::Label(name) => {
                if labels.contains_key(name.as_str()) {
                    return Err(CompileError::DuplicateLabel(name.clone()));
                }
                labels.insert(name.clone(), instrs.len());
                i = i + 1;
            },
            Token::Op(op) => {
                let arity: Arity = op.arity();
                match read_operand(tokens, i, arity) {
                    None => {
                        return Err(CompileError::UnexpectedToken(token.duplicate()));
                    },
                    Some(value) => {
                        let instr = AbstractInstr { op: *op, value };
                        proof {
                            assert(instr_views(instrs@.push(instr)) =~= instr_views(instrs@).push(
                                instr@,
                            ));
                        }
                        instrs.push(instr);
                        if arity == Arity::NoOperand {
                            i = i + 1;
                        } else {
                            i = i + 2;
                        }
                    },
                }
            },
            _ => {
                return Err(CompileError::UnexpectedToken(token.duplicate()));
            },
        }
    }
    Ok((instrs, labels))
}

/// Puts the recorded index in place of every label operand. Fails at the
/// first label, in the order of the instructions, that `labels` does not
/// hold.
pub fn resolve_labels(instrs: &Vec<AbstractInstr>, labels: &StringHashMap<usize>) -> (result:
    Result<Vec<AbstractInstr>, CompileError>)
    ensures
        match result {
            Ok(linked) => link(instr_views(instrs@), labels@) == Ok::<
                Seq<AbstractInstrView>,
                CompileErrorView,
            >(instr_views(linked@)) && is_linked(instr_views(linked@)),
            Err(e) => link(instr_views(instrs@), labels@) == Err::<
                Seq<AbstractInstrView>,
                CompileErrorView,
            >(e@),
        },
{
    let mut linked: Vec<AbstractInstr> = Vec::new();
    let mut k: usize = 0;
    proof {
        assert(instr_views(instrs@).take(0) =~= Seq::<AbstractInstrView>::empty());
        assert(instr_views(linked@) =~= Seq::<AbstractInstrView>::empty());
    }
    while k < instrs.len()
        invariant
            k <= instrs@.len(),
            link(instr_views(instrs@).take(k as int), labels@) == Ok::<
                Seq<AbstractInstrView>,
                CompileErrorView,
            >(instr_views(linked@)),
            is_linked(instr_views(linked@)),
        decreases instrs@.len() - k,
    {
        let ghost all = instr_views(instrs@);
        let instr: &AbstractInstr = &instrs[k];
        proof {
            assert(all.take(k + 1).drop_last() =~= all.take(k as int));
            assert(all.take(k + 1).last() == instr@);
        }
        let value: AbstractValue = match &instr.value {
            AbstractValue::Label(name) => {
                match labels.get(name.as_str()) {
                    Some(index) => AbstractValue::Integer(#[verifier::truncate] (*index as i64)),
                    None => {
                        proof {
                            lemma_link_fails_on(all, labels@, k + 1);
                        }
                        return Err(CompileError::UnknownLabel(name.clone()));
                    },
                }
            },
            other => duplicate_value(other),
        };
        let resolved = AbstractInstr { op: instr.op, value };
        proof {
            assert(instr_views(linked@.push(resolved)) =~= instr_views(linked@).push(resolved@));
        }
        linked.push(resolved);
        k = k + 1;
    }
    proof {
        assert(instr_views(instrs@).take(k as int) =~= instr_views(instrs@));
    }
    Ok(linked)
}

/// Once an instruction has failed to link, the instructions behind it do
/// not change the error.
pub proof fn lemma_link_fails_on(
    instrs: Seq<AbstractInstrView>,
    labels: Map<Seq<char>, usize>,
    k: int,
)
    requires
        0 <= k <= instrs.len(),
        link(instrs.take(k), labels) is Err,
    ensures
        link(instrs, labels) == link(instrs.take(k), labels),
    decreases instrs.len() - k,
{
    if k < instrs.len() {
        assert(instrs.take(k + 1).drop_last() =~= instrs.take(k));
        lemma_link_fails_on(instrs, labels, k + 1);
    } else {
        assert(instrs.take(k) =~= instrs);
    }
}

/// Turns instructions whose labels are resolved into machine instructions.
/// An instruction that still has a label for its operand has no machine
/// form; the caller has to have resolved them all.
pub fn concretize(instrs: &Vec<AbstractInstr>) -> (program: Vec<Instr>)
    requires
        is_linked(instr_views(instrs@)),
    ensures
        program@ == concretize_spec(instr_views(instrs@)),
{
    let mut program: Vec<Instr> = Vec::new();
    let mut k: usize = 0;
    while k < instrs.len()
        invariant
            k <= instrs@.len(),
            is_linked(instr_views(instrs@)),
            program@ =~= concretize_spec(instr_views(instrs@).take(k as int)),
        decreases instrs@.len() - k,
    {
        let instr: &AbstractInstr = &instrs[k];
        assert(instr_views(instrs@)[k as int] == instr@);
        let value: i64 = match &instr.value {
            AbstractValue::Integer(v) => *v,
            _ => 0,
        };
        program.push(Instr { op: instr.op, value });
        k = k + 1;
    }
    assert(instr_views(instrs@).take(k as int) =~= instr_views(instrs@));
    program
}

/// Assembles a token stream: scan, label resolution, machine form.
pub fn compile_to_instr(tokens: &[Token]) -> (result: Result<Vec<Instr>, CompileError>)
    ensures
        match result {
            Ok(program) => assemble(token_views(tokens@)) == Ok::<Seq<Instr>, CompileErrorView>(
                program@,
            ),
            Err(e) => assemble(token_views(tokens@)) == Err::<Seq<Instr>, CompileErrorView>(e@),
        },
{
    match parse_tokens(tokens) {
        Err(e) => Err(e),
        Ok((instrs, labels)) => match resolve_labels(&instrs, &labels) {
            Err(e) => Err(e),
            Ok(linked) => Ok(concretize(&linked)),
        },
    }
}

/// Compiles source text to a program. `Ok` exactly where every word of the
/// text is a token, the tokens form statements, no label is declared twice
/// and every label operand is declared; the error is the first of these
/// that fails, in this order of the stages.
pub fn compile(content: &str) -> (result: Result<Vec<Instr>, CompileError>)
    ensures
        compiles_to(content@, result),
{
    match tokenize(content) {
        Err(word) => Err(CompileError::UnrecognizedToken(word)),
        Ok(tokens) => compile_to_instr(tokens.as_slice()),
    }
}

} // verus!
