//! The assembler reads the canonical text of instructions back as the
//! instructions that were written.

use crate::instructions::{Instruction, Modifier, OpCode, Operand};
use crate::listing::{
    decimal, digit, instruction_text, listing, mode_mark, modifier_word, opcode_word,
    operand_text, operation_text,
};
use crate::literal::{all_digits, digits_value, integer, is_digit};
use crate::operand::{mode_of, operand_of, operand_value};
use crate::parser::{
    assembled, cleaned, code_lines, instruction_of, labels_of, modifier_named, opcode_named,
    operation_of, program, source_lines, statement,
};
use crate::variables::{definition_of, definitions_of, names_defined, variables_of, Spelling};
use crate::text::{
    is_blank, lemma_pieces_nonempty, nonempty, pieces, reads_as, small, trimmed, words, Separator,
};
use vstd::arithmetic::div_mod::{lemma_fundamental_div_mod, lemma_small_mod};
use vstd::prelude::*;

verus! {

/// None of the characters of the text is a separator.
pub open spec fn quiet(s: Seq<char>, by: Separator) -> bool {
    forall|i: int| 0 <= i < s.len() ==> !by.has(#[trigger] s[i])
}

/// Characters that are no separators lengthen the last piece.
pub proof fn lemma_pieces_extend(s: Seq<char>, l: Seq<char>, by: Separator)
    requires
        quiet(l, by),
    ensures
        pieces(s + l, by) == pieces(s, by).drop_last().push(pieces(s, by).last() + l),
    decreases l.len(),
{
    lemma_pieces_nonempty(s, by);
    let before = pieces(s, by);
    if l.len() == 0 {
        assert(s + l =~= s);
        assert(before.last() + l =~= before.last());
        assert(before.drop_last().push(before.last()) =~= before);
    } else {
        let shorter = l.drop_last();
        assert forall|i: int| 0 <= i < shorter.len() implies !by.has(#[trigger] shorter[i]) by {
            assert(shorter[i] == l[i]);
        }
        lemma_pieces_extend(s, shorter, by);
        assert((s + l).drop_last() =~= s + shorter);
        assert((s + l).last() == l.last());
        assert(!by.has(l[l.len() - 1]));
        let middle = pieces(s + shorter, by);
        assert(middle.drop_last() =~= before.drop_last());
        assert(middle.last().push(l.last()) =~= before.last() + l);
    }
}

/// A separator begins a new piece, and the characters behind it that are no
/// separators make it up.
pub proof fn lemma_pieces_join(a: Seq<char>, c: char, b: Seq<char>, by: Separator)
    requires
        by.has(c),
        quiet(b, by),
    ensures
        pieces(a.push(c) + b, by) == pieces(a, by).push(b),
{
    assert(a.push(c).drop_last() =~= a);
    lemma_pieces_extend(a.push(c), b, by);
    let cut = pieces(a.push(c), by);
    assert(cut == pieces(a, by).push(Seq::empty()));
    assert(cut.drop_last() =~= pieces(a, by));
    assert(cut.last() + b =~= b);
}

/// A text without separators is a single piece.
pub proof fn lemma_pieces_quiet(l: Seq<char>, by: Separator)
    requires
        quiet(l, by),
    ensures
        pieces(l, by) == seq![l],
{
    let nothing = Seq::<char>::empty();
    lemma_pieces_extend(nothing, l, by);
    assert(nothing + l =~= l);
    assert(pieces(nothing, by) == seq![nothing]);
    assert(seq![nothing].drop_last().push(seq![nothing].last() + l) =~= seq![l]);
}

/// Two texts without separators make a text without separators.
pub proof fn lemma_quiet_joined(a: Seq<char>, b: Seq<char>, by: Separator)
    requires
        quiet(a, by),
        quiet(b, by),
    ensures
        quiet(a + b, by),
{
    assert forall|i: int| 0 <= i < (a + b).len() implies !by.has(#[trigger] (a + b)[i]) by {
        if i < a.len() {
            assert((a + b)[i] == a[i]);
        } else {
            assert((a + b)[i] == b[i - a.len()]);
        }
    }
}

/// A text with one more character that is no separator has no separators.
pub proof fn lemma_quiet_pushed(a: Seq<char>, c: char, by: Separator)
    requires
        quiet(a, by),
        !by.has(c),
    ensures
        quiet(a.push(c), by),
{
    assert forall|i: int| 0 <= i < a.push(c).len() implies !by.has(#[trigger] a.push(c)[i]) by {
        if i < a.len() {
            assert(a.push(c)[i] == a[i]);
        }
    }
}

/// A text that neither begins nor ends with white space is trimmed.
pub proof fn lemma_trimmed_same(s: Seq<char>)
    requires
        s.len() > 0 ==> !is_blank(s.first()) && !is_blank(s.last()),
    ensures
        trimmed(s) == s,
{
}

/// The digits of a number spell it.
pub proof fn lemma_decimal(n: nat)
    ensures
        decimal(n).len() >= 1,
        all_digits(decimal(n)),
        digits_value(decimal(n)) == n,
        forall|by: Separator| quiet(decimal(n), by),
    decreases n,
{
    let text = decimal(n);
    if n < 10 {
        assert(text.drop_last() =~= Seq::<char>::empty());
        assert(digits_value(text.drop_last()) == 0);
        assert(text.last() == digit(n as int));
    } else {
        lemma_decimal(n / 10);
        let before = decimal(n / 10);
        assert(text.drop_last() =~= before);
        assert(text.last() == digit((n % 10) as int));
        lemma_fundamental_div_mod(n as int, 10);
        assert forall|i: int| 0 <= i < text.len() implies is_digit(#[trigger] text[i]) by {
            if i < before.len() {
                assert(text[i] == before[i]);
            }
        }
        assert forall|by: Separator| quiet(text, by) by {
            assert(quiet(before, by));
            assert forall|i: int| 0 <= i < text.len() implies !by.has(#[trigger] text[i]) by {
                if i < before.len() {
                    assert(text[i] == before[i]);
                }
            }
        }
    }
}

/// An operand that was written is read back as it was.
pub proof fn lemma_operand_read<const CORE_SIZE: usize>(
    operand: Operand<CORE_SIZE>,
    current: int,
    labels: Map<Seq<char>, usize>,
    variables: Map<Seq<char>, Seq<char>>,
)
    requires
        CORE_SIZE > 0,
        operand.wf(),
    ensures
        operand_of::<CORE_SIZE>(operand_text(operand), current, labels, variables) == Ok::<
            Operand<CORE_SIZE>,
            Seq<char>,
        >(operand),
        operand_text(operand).len() >= 2,
        forall|by: Separator| quiet(operand_text(operand), by),
        is_digit(operand_text(operand).last()),
{
    let text = operand_text(operand);
    let digits = decimal(operand.pointer.value as nat);
    lemma_decimal(operand.pointer.value as nat);
    assert(text[0] == mode_mark(operand.mode));
    assert(mode_of(text[0]) == Some(operand.mode));
    assert(text.drop_first() =~= digits);
    assert(is_digit(digits[0]));
    assert(integer(digits) == Some(operand.pointer.value as int));
    lemma_small_mod(operand.pointer.value as nat, CORE_SIZE as nat);
    assert(operand_value(digits, labels, variables, current, CORE_SIZE as int) == Ok::<
        int,
        Seq<char>,
    >(operand.pointer.value as int));
    assert(text.last() == digits.last());
    assert(is_digit(digits[digits.len() - 1]));
    assert forall|by: Separator| quiet(text, by) by {
        assert(quiet(digits, by));
        assert forall|i: int| 0 <= i < text.len() implies !by.has(#[trigger] text[i]) by {
            if i > 0 {
                assert(text[i] == digits[i - 1]);
            }
        }
    }
}

/// What it is for a word of three characters to read as another.
pub proof fn lemma_reads_as_three(s: Seq<char>, word: Seq<char>)
    requires
        s.len() == 3,
        word.len() == 3,
    ensures
        reads_as(s, word) == (small(s[0]) == word[0] as u32 && small(s[1]) == word[1] as u32
            && small(s[2]) == word[2] as u32),
{
    if small(s[0]) == word[0] as u32 && small(s[1]) == word[1] as u32 && small(s[2])
        == word[2] as u32 {
        assert forall|i: int| 0 <= i < s.len() implies small(#[trigger] s[i]) == word[i] as u32 by {
            assert(i == 0 || i == 1 || i == 2);
        }
    }
}

/// An opcode that was written is read back as it was.
pub proof fn lemma_opcode_read(op: OpCode)
    ensures
        opcode_named(opcode_word(op)) == Some(op),
        opcode_word(op).len() == 3,
        forall|by: Separator| quiet(opcode_word(op), by),
        !is_blank(opcode_word(op).first()),
{
    let word = opcode_word(op);
    reveal_strlit("dat");
    lemma_reads_as_three(word, "dat"@);
    reveal_strlit("mov");
    lemma_reads_as_three(word, "mov"@);
    reveal_strlit("add");
    lemma_reads_as_three(word, "add"@);
    reveal_strlit("sub");
    lemma_reads_as_three(word, "sub"@);
    reveal_strlit("mul");
    lemma_reads_as_three(word, "mul"@);
    reveal_strlit("div");
    lemma_reads_as_three(word, "div"@);
    reveal_strlit("mod");
    lemma_reads_as_three(word, "mod"@);
    reveal_strlit("jmp");
    lemma_reads_as_three(word, "jmp"@);
    reveal_strlit("jmz");
    lemma_reads_as_three(word, "jmz"@);
    reveal_strlit("jmn");
    lemma_reads_as_three(word, "jmn"@);
    reveal_strlit("djn");
    lemma_reads_as_three(word, "djn"@);
    reveal_strlit("cmp");
    lemma_reads_as_three(word, "cmp"@);
    reveal_strlit("slt");
    lemma_reads_as_three(word, "slt"@);
    reveal_strlit("spl");
    lemma_reads_as_three(word, "spl"@);
    assert forall|by: Separator| quiet(word, by) by {
        assert forall|i: int| 0 <= i < word.len() implies !by.has(#[trigger] word[i]) by {
            assert(i == 0 || i == 1 || i == 2);
        }
    }
}

/// A modifier that was written is read back as it was.
pub proof fn lemma_modifier_read(modifier: Modifier)
    ensures
        modifier_named(modifier_word(modifier)) == Some(modifier),
        1 <= modifier_word(modifier).len() <= 2,
        forall|by: Separator| quiet(modifier_word(modifier), by),
{
    reveal_strlit("a");
    reveal_strlit("b");
    reveal_strlit("ab");
    reveal_strlit("ba");
    reveal_strlit("f");
    reveal_strlit("x");
    reveal_strlit("i");
    let word = modifier_word(modifier);
    assert(small(word[0]) == word[0] as u32 + 32);
    if word.len() == 2 {
        assert(small(word[1]) == word[1] as u32 + 32);
    }
    assert forall|by: Separator| quiet(word, by) by {
        assert forall|i: int| 0 <= i < word.len() implies !by.has(#[trigger] word[i]) by {
            assert(i == 0 || i == 1);
        }
    }
}

/// An opcode and a modifier that were written are read back as they were.
pub proof fn lemma_operation_read(op: OpCode, modifier: Modifier)
    ensures
        operation_of(operation_text(op, modifier)) == Ok::<(OpCode, Option<Modifier>), Seq<char>>(
            (op, Some(modifier)),
        ),
        operation_text(op, modifier).len() >= 5,
        forall|by: Separator| by != Separator::Dot ==> quiet(operation_text(op, modifier), by),
        !is_blank(operation_text(op, modifier).first()),
{
    let text = operation_text(op, modifier);
    lemma_opcode_read(op);
    lemma_modifier_read(modifier);
    lemma_pieces_quiet(opcode_word(op), Separator::Dot);
    lemma_pieces_join(opcode_word(op), '.', modifier_word(modifier), Separator::Dot);
    let parts = pieces(text, Separator::Dot);
    assert(parts =~= seq![opcode_word(op), modifier_word(modifier)]);
    assert(parts[0] == opcode_word(op));
    assert(parts[1] == modifier_word(modifier));
    assert(text.first() == opcode_word(op).first());
    assert forall|by: Separator| by != Separator::Dot implies quiet(text, by) by {
        lemma_quiet_pushed(opcode_word(op), '.', by);
        lemma_quiet_joined(opcode_word(op).push('.'), modifier_word(modifier), by);
    }
}

/// What `nonempty` makes of a sequence with one more text.
pub proof fn lemma_nonempty_pushed(parts: Seq<Seq<char>>, last: Seq<char>)
    ensures
        nonempty(parts.push(last)) == (if last.len() > 0 {
            nonempty(parts).push(last)
        } else {
            nonempty(parts)
        }),
{
    assert(parts.push(last).drop_last() =~= parts);
}

/// The line of an instruction, cut into words.
pub proof fn lemma_line_words<const CORE_SIZE: usize>(instruction: Instruction<CORE_SIZE>)
    requires
        CORE_SIZE > 0,
        instruction.wf(),
    ensures
        words(instruction_text(instruction), Separator::Blank) == seq![
            operation_text(instruction.op, instruction.modifier),
            operand_text(instruction.a_operand).push(','),
            operand_text(instruction.b_operand),
        ],
        words(instruction_text(instruction), Separator::BlankOrComma) == seq![
            operation_text(instruction.op, instruction.modifier),
            operand_text(instruction.a_operand),
            operand_text(instruction.b_operand),
        ],
        quiet(instruction_text(instruction), Separator::Colon),
        quiet(instruction_text(instruction), Separator::Semicolon),
        quiet(instruction_text(instruction), Separator::LineBreak),
        instruction_text(instruction).len() > 0,
        !is_blank(instruction_text(instruction).first()),
        !is_blank(instruction_text(instruction).last()),
{
    let text = instruction_text(instruction);
    let w = operation_text(instruction.op, instruction.modifier);
    let a = operand_text(instruction.a_operand);
    let b = operand_text(instruction.b_operand);
    let none = Map::<Seq<char>, usize>::empty();
    let no = Map::<Seq<char>, Seq<char>>::empty();
    lemma_operation_read(instruction.op, instruction.modifier);
    lemma_operand_read::<CORE_SIZE>(instruction.a_operand, 0, none, no);
    lemma_operand_read::<CORE_SIZE>(instruction.b_operand, 0, none, no);
    let nothing = Seq::<Seq<char>>::empty();
    let blank = Separator::Blank;
    let either = Separator::BlankOrComma;

    // Cut at white space.
    lemma_quiet_pushed(a, ',', blank);
    lemma_pieces_quiet(w, blank);
    lemma_pieces_join(w, ' ', a.push(','), blank);
    lemma_pieces_join(w.push(' ') + a.push(','), ' ', b, blank);
    assert(pieces(text, blank) =~= nothing.push(w).push(a.push(',')).push(b));
    lemma_nonempty_pushed(nothing, w);
    lemma_nonempty_pushed(nothing.push(w), a.push(','));
    lemma_nonempty_pushed(nothing.push(w).push(a.push(',')), b);
    assert(nonempty(nothing) =~= nothing);
    assert(words(text, blank) =~= seq![w, a.push(','), b]);

    // Cut at white space and commas.
    lemma_pieces_quiet(w, either);
    lemma_pieces_join(w, ' ', a, either);
    assert((w.push(' ') + a).push(',').drop_last() =~= w.push(' ') + a);
    assert(w.push(' ') + a.push(',') =~= (w.push(' ') + a).push(','));
    lemma_pieces_join((w.push(' ') + a).push(','), ' ', b, either);
    assert(pieces(text, either) =~= nothing.push(w).push(a).push(Seq::<char>::empty()).push(b));
    lemma_nonempty_pushed(nothing.push(w), a);
    lemma_nonempty_pushed(nothing.push(w).push(a), Seq::<char>::empty());
    lemma_nonempty_pushed(nothing.push(w).push(a).push(Seq::<char>::empty()), b);
    assert(words(text, either) =~= seq![w, a, b]);

    // The line as a whole.
    assert forall|by: Separator|
        by == Separator::Colon || by == Separator::Semicolon || by
            == Separator::LineBreak implies quiet(text, by) by {
        lemma_quiet_pushed(w, ' ', by);
        lemma_quiet_pushed(a, ',', by);
        lemma_quiet_joined(w.push(' '), a.push(','), by);
        lemma_quiet_pushed(w.push(' ') + a.push(','), ' ', by);
        lemma_quiet_joined((w.push(' ') + a.push(',')).push(' '), b, by);
    }
    assert(text.first() == w.first());
    assert(text.last() == b.last());
}

/// An instruction that was written is read back as it was, on any line and
/// whatever the labels and the variables are.
pub proof fn lemma_instruction_read<const CORE_SIZE: usize>(
    instruction: Instruction<CORE_SIZE>,
    index: int,
    labels: Map<Seq<char>, usize>,
    variables: Map<Seq<char>, Seq<char>>,
)
    requires
        CORE_SIZE > 0,
        instruction.wf(),
    ensures
        instruction_of::<CORE_SIZE>(instruction_text(instruction), index, labels, variables)
            == Ok::<Instruction<CORE_SIZE>, Seq<char>>(instruction),
        definition_of(instruction_text(instruction)) is None,
        pieces(instruction_text(instruction), Separator::Colon).len() == 1,
{
    reveal(instruction_of);
    reveal_strlit("equ");
    let text = instruction_text(instruction);
    lemma_line_words(instruction);
    lemma_operation_read(instruction.op, instruction.modifier);
    lemma_operand_read::<CORE_SIZE>(instruction.a_operand, index, labels, variables);
    lemma_operand_read::<CORE_SIZE>(instruction.b_operand, index, labels, variables);
    lemma_pieces_quiet(text, Separator::Colon);
    lemma_nonempty_pushed(Seq::<Seq<char>>::empty(), text);
    assert(seq![text] =~= Seq::<Seq<char>>::empty().push(text));
    assert(nonempty(Seq::<Seq<char>>::empty()) =~= Seq::<Seq<char>>::empty());
    assert(words(text, Separator::Colon).len() == 1);
    assert(statement(text) == text);
    let parts = words(text, Separator::BlankOrComma);
    assert(parts[0] == operation_text(instruction.op, instruction.modifier));
    assert(parts[1] == operand_text(instruction.a_operand));
    assert(parts[2] == operand_text(instruction.b_operand));
    let blanks = words(text, Separator::Blank);
    assert(blanks[1] == operand_text(instruction.a_operand).push(','));
    assert(blanks[1][0] == mode_mark(instruction.a_operand.mode));
    assert("equ"@[0] == 'e');
}

/// Every instruction is well formed.
pub open spec fn all_wf<const CORE_SIZE: usize>(instructions: Seq<Instruction<CORE_SIZE>>) -> bool {
    forall|k: int| 0 <= k < instructions.len() ==> (#[trigger] instructions[k]).wf()
}

/// The lines of the canonical text: the text of each instruction.
pub open spec fn written<const CORE_SIZE: usize>(
    instructions: Seq<Instruction<CORE_SIZE>>,
) -> Seq<Seq<char>> {
    Seq::new(instructions.len(), |k: int| instruction_text(instructions[k]))
}

/// The canonical text is cut into the texts of the instructions, and an
/// empty piece behind the last line break.
pub proof fn lemma_listing_cut<const CORE_SIZE: usize>(instructions: Seq<Instruction<CORE_SIZE>>)
    requires
        CORE_SIZE > 0,
        all_wf(instructions),
    ensures
        pieces(listing(instructions), Separator::LineBreak) == written(instructions).push(
            Seq::empty(),
        ),
    decreases instructions.len(),
{
    let by = Separator::LineBreak;
    if instructions.len() == 0 {
        assert(written(instructions).push(Seq::empty()) =~= seq![Seq::<char>::empty()]);
    } else {
        let before = instructions.drop_last();
        let line = instruction_text(instructions.last());
        assert(all_wf(before)) by {
            assert forall|k: int| 0 <= k < before.len() implies (#[trigger] before[k]).wf() by {
                assert(before[k] == instructions[k]);
            }
        }
        lemma_listing_cut(before);
        lemma_line_words(instructions.last());
        lemma_pieces_extend(listing(before), line, by);
        let joined = listing(before) + line;
        assert(joined.push('\n').drop_last() =~= joined);
        let cut = pieces(listing(before), by);
        assert(cut.drop_last() =~= written(before));
        assert(cut.last() + line =~= line);
        assert(pieces(joined, by) == written(before).push(line));
        assert(written(before).push(line) =~= written(instructions));
    }
}

/// The lines of the canonical text are the lines of its source.
pub proof fn lemma_written_cleaned<const CORE_SIZE: usize>(
    instructions: Seq<Instruction<CORE_SIZE>>,
)
    requires
        CORE_SIZE > 0,
        all_wf(instructions),
    ensures
        cleaned(written(instructions)) == written(instructions),
        code_lines(written(instructions)) == written(instructions),
        labels_of(written(instructions)) == Map::<Seq<char>, usize>::empty(),
        names_defined(written(instructions)) == Seq::<Seq<char>>::empty(),
        definitions_of(written(instructions)) == Map::<Seq<char>, Seq<Spelling>>::empty(),
    decreases instructions.len(),
{
    let lines = written(instructions);
    if instructions.len() > 0 {
        let before = instructions.drop_last();
        let line = instruction_text(instructions.last());
        assert(all_wf(before)) by {
            assert forall|k: int| 0 <= k < before.len() implies (#[trigger] before[k]).wf() by {
                assert(before[k] == instructions[k]);
            }
        }
        lemma_written_cleaned(before);
        assert(lines.drop_last() =~= written(before));
        assert(lines.last() == line);
        lemma_line_words(instructions.last());
        lemma_instruction_read::<CORE_SIZE>(
            instructions.last(),
            0,
            Map::<Seq<char>, usize>::empty(),
            Map::<Seq<char>, Seq<char>>::empty(),
        );
        lemma_pieces_quiet(line, Separator::Semicolon);
        lemma_trimmed_same(line);
        assert(written(before).push(line) =~= lines);
    }
}

/// The lines of the canonical text are assembled to the instructions.
pub proof fn lemma_written_assembled<const CORE_SIZE: usize>(
    instructions: Seq<Instruction<CORE_SIZE>>,
    upto: int,
)
    requires
        CORE_SIZE > 0,
        all_wf(instructions),
        0 <= upto <= instructions.len(),
    ensures
        assembled::<CORE_SIZE>(
            written(instructions),
            upto,
            Map::<Seq<char>, usize>::empty(),
            Map::<Seq<char>, Seq<char>>::empty(),
        ) == Ok::<Seq<Instruction<CORE_SIZE>>, Seq<char>>(instructions.take(upto)),
    decreases upto,
{
    if upto == 0 {
        assert(instructions.take(0) =~= Seq::<Instruction<CORE_SIZE>>::empty());
    } else {
        lemma_written_assembled(instructions, upto - 1);
        lemma_instruction_read::<CORE_SIZE>(
            instructions[upto - 1],
            upto - 1,
            Map::<Seq<char>, usize>::empty(),
            Map::<Seq<char>, Seq<char>>::empty(),
        );
        assert(written(instructions)[upto - 1] == instruction_text(instructions[upto - 1]));
        assert(instructions.take(upto - 1).push(instructions[upto - 1]) =~= instructions.take(
            upto,
        ));
    }
}

/// Writing instructions in the canonical text and assembling that text
/// gives the instructions back. So what the assembler gave, written and
/// assembled once more, is what it gave.
pub proof fn lemma_written_and_read<const CORE_SIZE: usize>(
    instructions: Seq<Instruction<CORE_SIZE>>,
)
    requires
        CORE_SIZE > 0,
        all_wf(instructions),
    ensures
        program::<CORE_SIZE>(listing(instructions)) == Ok::<
            Seq<Instruction<CORE_SIZE>>,
            Seq<char>,
        >(instructions),
{
    let lines = written(instructions);
    lemma_listing_cut(instructions);
    lemma_written_cleaned(instructions);
    assert(lines.push(Seq::empty()).drop_last() =~= lines);
    assert(pieces(Seq::<char>::empty(), Separator::Semicolon)[0] =~= Seq::<char>::empty());
    assert(source_lines(listing(instructions)) == lines);
    lemma_written_assembled(instructions, instructions.len() as int);
    assert(instructions.take(instructions.len() as int) =~= instructions);
    assert(variables_of(lines, Map::<Seq<char>, usize>::empty().dom()) == Ok::<
        Map<Seq<char>, Seq<char>>,
        Seq<char>,
    >(Map::<Seq<char>, Seq<char>>::empty()));
}

} // verus!
