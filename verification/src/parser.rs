//! The assembler: from the text of a warrior to its instructions.
//!
//! The text is cut into lines, comments and white space are dropped, and the
//! lines that define a variable are set apart. The other lines are the code:
//! each holds one instruction, and a label before it names its place. The
//! text of each variable is expanded until it holds no variable. Then each
//! line of code is read: the opcode with its modifier, and two operands.

use crate::instructions::{Instruction, Modifier, OpCode, Operand, OperandMode};
use crate::operand::{operand_of, parse_operand, spelled};
use crate::table::Table;
use crate::text::{
    is_word, pieces, reads_as, split, split_words, texts, trim, trimmed, words, Separator,
};
use crate::variables::{definition_of, get_variable_definition, get_variables, variables_of};
use vstd::prelude::*;

verus! {

/// The opcode that a word names, whatever the case of its letters.
pub open spec fn opcode_named(s: Seq<char>) -> Option<OpCode> {
    if reads_as(s, "dat"@) {
        Some(OpCode::Dat)
    } else if reads_as(s, "mov"@) {
        Some(OpCode::Mov)
    } else if reads_as(s, "add"@) {
        Some(OpCode::Add)
    } else if reads_as(s, "sub"@) {
        Some(OpCode::Sub)
    } else if reads_as(s, "mul"@) {
        Some(OpCode::Mul)
    } else if reads_as(s, "div"@) {
        Some(OpCode::Div)
    } else if reads_as(s, "mod"@) {
        Some(OpCode::Mod)
    } else if reads_as(s, "jmp"@) {
        Some(OpCode::Jmp)
    } else if reads_as(s, "jmz"@) {
        Some(OpCode::Jmz)
    } else if reads_as(s, "jmn"@) {
        Some(OpCode::Jmn)
    } else if reads_as(s, "djn"@) {
        Some(OpCode::Djn)
    } else if reads_as(s, "cmp"@) {
        Some(OpCode::Cmp)
    } else if reads_as(s, "slt"@) {
        Some(OpCode::Slt)
    } else if reads_as(s, "spl"@) {
        Some(OpCode::Spl)
    } else {
        None
    }
}

/// The modifier that a word names, whatever the case of its letters.
pub open spec fn modifier_named(s: Seq<char>) -> Option<Modifier> {
    if reads_as(s, "a"@) {
        Some(Modifier::A)
    } else if reads_as(s, "b"@) {
        Some(Modifier::B)
    } else if reads_as(s, "ab"@) {
        Some(Modifier::AB)
    } else if reads_as(s, "ba"@) {
        Some(Modifier::BA)
    } else if reads_as(s, "f"@) {
        Some(Modifier::F)
    } else if reads_as(s, "x"@) {
        Some(Modifier::X)
    } else if reads_as(s, "i"@) {
        Some(Modifier::I)
    } else {
        None
    }
}

/// The opcode and the modifier that a word spells. The opcode stands before
/// the first dot. Where the word has exactly one dot, the modifier stands
/// behind it; otherwise the word gives no modifier.
pub open spec fn operation_of(s: Seq<char>) -> Result<(OpCode, Option<Modifier>), Seq<char>> {
    let parts = pieces(s, Separator::Dot);
    match opcode_named(parts[0]) {
        None => Err("Invalid OpCode: "@ + s),
        Some(op) => if parts.len() == 2 {
            match modifier_named(parts[1]) {
                Some(modifier) => Ok((op, Some(modifier))),
                None => Err("Invalid modifier: "@ + parts[1]),
            }
        } else {
            Ok((op, None))
        },
    }
}

/// Reads an opcode.
fn read_opcode(s: &str) -> (r: Option<OpCode>)
    ensures
        r == opcode_named(s@),
{
    if is_word(s, "dat") {
        Some(OpCode::Dat)
    } else if is_word(s, "mov") {
        Some(OpCode::Mov)
    } else if is_word(s, "add") {
        Some(OpCode::Add)
    } else if is_word(s, "sub") {
        Some(OpCode::Sub)
    } else if is_word(s, "mul") {
        Some(OpCode::Mul)
    } else if is_word(s, "div") {
        Some(OpCode::Div)
    } else if is_word(s, "mod") {
        Some(OpCode::Mod)
    } else if is_word(s, "jmp") {
        Some(OpCode::Jmp)
    } else if is_word(s, "jmz") {
        Some(OpCode::Jmz)
    } else if is_word(s, "jmn") {
        Some(OpCode::Jmn)
    } else if is_word(s, "djn") {
        Some(OpCode::Djn)
    } else if is_word(s, "cmp") {
        Some(OpCode::Cmp)
    } else if is_word(s, "slt") {
        Some(OpCode::Slt)
    } else if is_word(s, "spl") {
        Some(OpCode::Spl)
    } else {
        None
    }
}

/// Reads a modifier.
fn read_modifier(s: &str) -> (r: Option<Modifier>)
    ensures
        r == modifier_named(s@),
{
    if is_word(s, "a") {
        Some(Modifier::A)
    } else if is_word(s, "b") {
        Some(Modifier::B)
    } else if is_word(s, "ab") {
        Some(Modifier::AB)
    } else if is_word(s, "ba") {
        Some(Modifier::BA)
    } else if is_word(s, "f") {
        Some(Modifier::F)
    } else if is_word(s, "x") {
        Some(Modifier::X)
    } else if is_word(s, "i") {
        Some(Modifier::I)
    } else {
        None
    }
}

/// Reads an opcode and the modifier that may follow it.
pub fn parse_op_code(s: &str) -> (r: Result<(OpCode, Option<Modifier>), String>)
    ensures
        match r {
            Ok(operation) => operation_of(s@) == Ok::<(OpCode, Option<Modifier>), Seq<char>>(
                operation,
            ),
            Err(text) => operation_of(s@) == Err::<(OpCode, Option<Modifier>), Seq<char>>(text@),
        },
{
    let parts = split(s, Separator::Dot);
    proof {
        assert(texts(parts@)[0] == parts@[0]@);
        if parts@.len() == 2 {
            assert(texts(parts@)[1] == parts@[1]@);
        }
    }
    let op_code = match read_opcode(parts[0]) {
        Some(op) => op,
        None => {
            return Err(String::from_str("Invalid OpCode: ").concat(s));
        },
    };
    if parts.len() == 2 {
        match read_modifier(parts[1]) {
            Some(modifier) => Ok((op_code, Some(modifier))),
            None => Err(String::from_str("Invalid modifier: ").concat(parts[1])),
        }
    } else {
        Ok((op_code, None))
    }
}

/// The modifier of an instruction that names none: it goes by the opcode
/// and the modes of the two operands, and by nothing else.
pub open spec fn implicit(op: OpCode, a_mode: OperandMode, b_mode: OperandMode) -> Modifier {
    match op {
        OpCode::Dat => Modifier::F,
        OpCode::Mov | OpCode::Cmp => if a_mode == OperandMode::Immediate {
            Modifier::AB
        } else if b_mode == OperandMode::Immediate {
            Modifier::B
        } else {
            Modifier::I
        },
        OpCode::Add | OpCode::Sub | OpCode::Mul | OpCode::Div | OpCode::Mod => if a_mode
            == OperandMode::Immediate {
            Modifier::AB
        } else if b_mode == OperandMode::Immediate {
            Modifier::B
        } else {
            Modifier::F
        },
        OpCode::Slt => if a_mode == OperandMode::Immediate {
            Modifier::AB
        } else {
            Modifier::B
        },
        OpCode::Jmp | OpCode::Jmz | OpCode::Jmn | OpCode::Djn | OpCode::Spl => Modifier::B,
    }
}

/// Finds the modifier of an instruction that names none.
pub fn implicit_modifier<const CORE_SIZE: usize>(
    op_code: &OpCode,
    a_operand: &Operand<CORE_SIZE>,
    b_operand: &Operand<CORE_SIZE>,
) -> (r: Modifier)
    ensures
        r == implicit(*op_code, a_operand.mode, b_operand.mode),
{
    match op_code {
        OpCode::Dat => Modifier::F,
        OpCode::Mov | OpCode::Cmp => match (a_operand.mode, b_operand.mode) {
            (OperandMode::Immediate, _) => Modifier::AB,
            (_, OperandMode::Immediate) => Modifier::B,
            _ => Modifier::I,
        },
        OpCode::Add | OpCode::Sub | OpCode::Mul | OpCode::Div | OpCode::Mod => {
            match (a_operand.mode, b_operand.mode) {
                (OperandMode::Immediate, _) => Modifier::AB,
                (_, OperandMode::Immediate) => Modifier::B,
                _ => Modifier::F,
            }
        },
        OpCode::Slt => match (a_operand.mode, b_operand.mode) {
            (OperandMode::Immediate, _) => Modifier::AB,
            _ => Modifier::B,
        },
        _ => Modifier::B,
    }
}

/// The line without its label. A line that a colon cuts into two pieces
/// that are not empty is a label and a statement.
pub open spec fn statement(line: Seq<char>) -> Seq<char> {
    let parts = words(line, Separator::Colon);
    if parts.len() == 2 {
        trimmed(parts[1])
    } else {
        line
    }
}

/// The instruction that a line of code spells: an opcode and two operands,
/// set apart by white space or commas.
#[verifier::opaque]
pub open spec fn instruction_of<const CORE_SIZE: usize>(
    line: Seq<char>,
    index: int,
    labels: Map<Seq<char>, usize>,
    variables: Map<Seq<char>, Seq<char>>,
) -> Result<Instruction<CORE_SIZE>, Seq<char>> {
    let parts = words(statement(line), Separator::BlankOrComma);
    if parts.len() != 3 {
        Err("Invalid line "@ + statement(line))
    } else {
        match operation_of(parts[0]) {
            Err(text) => Err(text),
            Ok((op, named)) => match operand_of::<CORE_SIZE>(parts[1], index, labels, variables) {
                Err(text) => Err(text),
                Ok(a_operand) => match operand_of::<CORE_SIZE>(
                    parts[2],
                    index,
                    labels,
                    variables,
                ) {
                    Err(text) => Err(text),
                    Ok(b_operand) => Ok(
                        Instruction {
                            op,
                            modifier: match named {
                                Some(modifier) => modifier,
                                None => implicit(op, a_operand.mode, b_operand.mode),
                            },
                            a_operand,
                            b_operand,
                        },
                    ),
                },
            },
        }
    }
}

/// Whether what was read is what the model gives.
pub open spec fn instruction_agrees<const CORE_SIZE: usize>(
    r: Result<Instruction<CORE_SIZE>, String>,
    model: Result<Instruction<CORE_SIZE>, Seq<char>>,
) -> bool {
    match r {
        Ok(instruction) => model == Ok::<Instruction<CORE_SIZE>, Seq<char>>(instruction),
        Err(text) => model == Err::<Instruction<CORE_SIZE>, Seq<char>>(text@),
    }
}

/// Reads the instruction on a line of code.
pub fn parse_instruction<const CORE_SIZE: usize>(
    line: &str,
    index: usize,
    labels: &Table<usize>,
    variables: &Table<String>,
) -> (r: Result<Instruction<CORE_SIZE>, String>)
    requires
        CORE_SIZE > 0,
        labels.wf(),
        variables.wf(),
    ensures
        instruction_agrees(
            r,
            instruction_of::<CORE_SIZE>(line@, index as int, labels@, spelled(variables@)),
        ),
        r matches Ok(instruction) ==> instruction.wf(),
{
    let c = split_words(line, Separator::Colon);
    proof {
        reveal(instruction_of);
        if c@.len() == 2 {
            assert(texts(c@)[1] == c@[1]@);
        }
    }
    let tl = if c.len() == 2 {
        trim(c[1])
    } else {
        line
    };
    let l = split_words(tl, Separator::BlankOrComma);
    if l.len() != 3 {
        return Err(String::from_str("Invalid line ").concat(tl));
    }
    proof {
        assert(texts(l@)[0] == l@[0]@);
        assert(texts(l@)[1] == l@[1]@);
        assert(texts(l@)[2] == l@[2]@);
    }
    let (op_code, modifier_opt) = match parse_op_code(l[0]) {
        Ok(operation) => operation,
        Err(text) => {
            return Err(text);
        },
    };
    let a_operand = match parse_operand::<CORE_SIZE>(l[1], index, labels, variables) {
        Ok(operand) => operand,
        Err(text) => {
            return Err(text);
        },
    };
    let b_operand = match parse_operand::<CORE_SIZE>(l[2], index, labels, variables) {
        Ok(operand) => operand,
        Err(text) => {
            return Err(text);
        },
    };
    let modifier = match modifier_opt {
        Some(m) => m,
        None => implicit_modifier(&op_code, &a_operand, &b_operand),
    };
    Ok(Instruction { op: op_code, modifier, a_operand, b_operand })
}

/// The lines of a text that hold something: each piece between line breaks,
/// without its comment and without the white space around it, unless
/// nothing is left of it.
pub open spec fn cleaned(parts: Seq<Seq<char>>) -> Seq<Seq<char>>
    decreases parts.len(),
{
    if parts.len() == 0 {
        Seq::empty()
    } else {
        let line = trimmed(pieces(parts.last(), Separator::Semicolon)[0]);
        if line.len() > 0 {
            cleaned(parts.drop_last()).push(line)
        } else {
            cleaned(parts.drop_last())
        }
    }
}

/// The lines of a source text.
pub open spec fn source_lines(input: Seq<char>) -> Seq<Seq<char>> {
    cleaned(pieces(input, Separator::LineBreak))
}

/// Cuts a source text into its lines.
pub fn lines_of<'a>(input: &'a str) -> (lines: Vec<&'a str>)
    ensures
        texts(lines@) == source_lines(input@),
{
    let parts = split(input, Separator::LineBreak);
    let mut lines: Vec<&'a str> = Vec::new();
    let mut at: usize = 0;
    proof {
        assert(texts(parts@).take(0) =~= Seq::<Seq<char>>::empty());
    }
    while at < parts.len()
        invariant
            at <= parts@.len(),
            texts(lines@) == cleaned(texts(parts@).take(at as int)),
        decreases parts@.len() - at,
    {
        let part = parts[at];
        proof {
            assert(texts(parts@).take(at as int + 1).drop_last() =~= texts(parts@).take(at as int));
            assert(texts(parts@).take(at as int + 1).last() == part@);
        }
        let halves = split(part, Separator::Semicolon);
        proof {
            assert(texts(halves@)[0] == halves@[0]@);
        }
        let line = trim(halves[0]);
        if line.unicode_len() > 0 {
            let ghost done = texts(lines@);
            lines.push(line);
            proof {
                assert(texts(lines@) =~= done.push(line@));
            }
        }
        at += 1;
    }
    proof {
        assert(texts(parts@).take(parts@.len() as int) =~= texts(parts@));
    }
    lines
}

/// The lines of code: those that define no variable.
pub open spec fn code_lines(lines: Seq<Seq<char>>) -> Seq<Seq<char>>
    decreases lines.len(),
{
    if lines.len() == 0 {
        Seq::empty()
    } else if definition_of(lines.last()) is None {
        code_lines(lines.drop_last()).push(lines.last())
    } else {
        code_lines(lines.drop_last())
    }
}

/// Picks the lines of code.
pub fn code_of<'a>(lines: &Vec<&'a str>) -> (code: Vec<&'a str>)
    ensures
        texts(code@) == code_lines(texts(lines@)),
{
    let mut code: Vec<&'a str> = Vec::new();
    let mut at: usize = 0;
    proof {
        assert(texts(lines@).take(0) =~= Seq::<Seq<char>>::empty());
    }
    while at < lines.len()
        invariant
            at <= lines@.len(),
            texts(code@) == code_lines(texts(lines@).take(at as int)),
        decreases lines@.len() - at,
    {
        let line = lines[at];
        proof {
            assert(texts(lines@).take(at as int + 1).drop_last() =~= texts(lines@).take(at as int));
            assert(texts(lines@).take(at as int + 1).last() == line@);
        }
        if get_variable_definition(line).is_none() {
            let ghost done = texts(code@);
            code.push(line);
            proof {
                assert(texts(code@) =~= done.push(line@));
            }
        }
        at += 1;
    }
    proof {
        assert(texts(lines@).take(lines@.len() as int) =~= texts(lines@));
    }
    code
}

/// The labels of the code, each with the place of its line among the lines
/// of code. A line that a colon cuts into exactly two pieces has the first
/// of them as its label. Of two lines with the same label the later counts.
pub open spec fn labels_of(code: Seq<Seq<char>>) -> Map<Seq<char>, usize>
    decreases code.len(),
{
    if code.len() == 0 {
        Map::empty()
    } else {
        let parts = pieces(code.last(), Separator::Colon);
        if parts.len() == 2 {
            labels_of(code.drop_last()).insert(trimmed(parts[0]), (code.len() - 1) as usize)
        } else {
            labels_of(code.drop_last())
        }
    }
}

/// Collects the labels of the lines of code among `lines`.
pub fn get_labels(lines: &Vec<&str>) -> (labels: Table<usize>)
    ensures
        labels@ == labels_of(code_lines(texts(lines@))),
        labels.wf(),
{
    let code = code_of(lines);
    let mut labels: Table<usize> = Table::new();
    let mut ix: usize = 0;
    proof {
        assert(texts(code@).take(0) =~= Seq::<Seq<char>>::empty());
    }
    while ix < code.len()
        invariant
            ix <= code@.len(),
            labels.wf(),
            labels@ == labels_of(texts(code@).take(ix as int)),
        decreases code@.len() - ix,
    {
        let line = code[ix];
        proof {
            assert(texts(code@).take(ix as int + 1).drop_last() =~= texts(code@).take(ix as int));
            assert(texts(code@).take(ix as int + 1).last() == line@);
        }
        let parts = split(line, Separator::Colon);
        if parts.len() == 2 {
            proof {
                assert(texts(parts@)[0] == parts@[0]@);
            }
            labels.insert(trim(parts[0]), ix);
        }
        ix += 1;
    }
    proof {
        assert(texts(code@).take(code@.len() as int) =~= texts(code@));
    }
    labels
}

/// The instructions of the first `upto` lines of code. The first line that
/// spells no instruction is an error.
pub open spec fn assembled<const CORE_SIZE: usize>(
    code: Seq<Seq<char>>,
    upto: int,
    labels: Map<Seq<char>, usize>,
    variables: Map<Seq<char>, Seq<char>>,
) -> Result<Seq<Instruction<CORE_SIZE>>, Seq<char>>
    decreases upto,
{
    if upto <= 0 {
        Ok(Seq::empty())
    } else {
        match assembled::<CORE_SIZE>(code, upto - 1, labels, variables) {
            Err(text) => Err(text),
            Ok(before) => match instruction_of::<CORE_SIZE>(
                code[upto - 1],
                upto - 1,
                labels,
                variables,
            ) {
                Ok(instruction) => Ok(before.push(instruction)),
                Err(text) => Err(text),
            },
        }
    }
}

/// An error among the first lines is the error of all the lines.
pub proof fn lemma_assembling_error_stays<const CORE_SIZE: usize>(
    code: Seq<Seq<char>>,
    upto: int,
    labels: Map<Seq<char>, usize>,
    variables: Map<Seq<char>, Seq<char>>,
)
    requires
        0 <= upto <= code.len(),
        assembled::<CORE_SIZE>(code, upto, labels, variables) is Err,
    ensures
        assembled::<CORE_SIZE>(code, code.len() as int, labels, variables) == assembled::<
            CORE_SIZE,
        >(code, upto, labels, variables),
    decreases code.len() - upto,
{
    if upto < code.len() {
        lemma_assembling_error_stays::<CORE_SIZE>(code, upto + 1, labels, variables);
    }
}

/// The instructions that a source text spells.
pub open spec fn program<const CORE_SIZE: usize>(input: Seq<char>) -> Result<
    Seq<Instruction<CORE_SIZE>>,
    Seq<char>,
> {
    let lines = source_lines(input);
    let code = code_lines(lines);
    let labels = labels_of(code);
    match variables_of(lines, labels.dom()) {
        Err(text) => Err(text),
        Ok(variables) => assembled::<CORE_SIZE>(code, code.len() as int, labels, variables),
    }
}

/// Assembles the text of a warrior.
pub fn parse<const CORE_SIZE: usize>(input: String) -> (r: Result<
    Vec<Instruction<CORE_SIZE>>,
    String,
>)
    requires
        CORE_SIZE > 0,
    ensures
        match r {
            Ok(instructions) => program::<CORE_SIZE>(input@) == Ok::<
                Seq<Instruction<CORE_SIZE>>,
                Seq<char>,
            >(instructions@),
            Err(text) => program::<CORE_SIZE>(input@) == Err::<
                Seq<Instruction<CORE_SIZE>>,
                Seq<char>,
            >(text@),
        },
        r matches Ok(instructions) ==> forall|i: int|
            0 <= i < instructions@.len() ==> (#[trigger] instructions@[i]).wf(),
{
    let lines = lines_of(input.as_str());
    let labels = get_labels(&lines);
    let variables = match get_variables(&lines, &labels) {
        Ok(variables) => variables,
        Err(text) => {
            return Err(text);
        },
    };
    let code = code_of(&lines);
    let mut result: Vec<Instruction<CORE_SIZE>> = Vec::new();
    let mut ix: usize = 0;
    while ix < code.len()
        invariant
            CORE_SIZE > 0,
            ix <= code@.len(),
            labels.wf(),
            variables.wf(),
            texts(code@) == code_lines(source_lines(input@)),
            labels@ == labels_of(texts(code@)),
            variables_of(source_lines(input@), labels@.dom()) == Ok::<
                Map<Seq<char>, Seq<char>>,
                Seq<char>,
            >(spelled(variables@)),
            assembled::<CORE_SIZE>(texts(code@), ix as int, labels@, spelled(variables@)) == Ok::<
                Seq<Instruction<CORE_SIZE>>,
                Seq<char>,
            >(result@),
            forall|i: int| 0 <= i < result@.len() ==> (#[trigger] result@[i]).wf(),
        decreases code@.len() - ix,
    {
        let line = code[ix];
        proof {
            assert(texts(code@)[ix as int] == line@);
        }
        match parse_instruction::<CORE_SIZE>(line, ix, &labels, &variables) {
            Ok(instruction) => {
                result.push(instruction);
            },
            Err(text) => {
                proof {
                    lemma_assembling_error_stays::<CORE_SIZE>(
                        texts(code@),
                        ix as int + 1,
                        labels@,
                        spelled(variables@),
                    );
                }
                return Err(text);
            },
        }
        ix += 1;
    }
    Ok(result)
}

} // verus!
