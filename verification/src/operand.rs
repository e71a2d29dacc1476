//! Operands: the value of an operand, be it an integer literal, a label or an
//! expression over numbers, labels and variables; and the operand itself,
//! with its addressing mode.

use crate::expression::{evaluate_tokens, value_of, ExpressionToken};
use crate::instructions::{Operand, OperandMode};
use crate::literal::{integer, parse_integer, split_into_tokens, to_core_size, tokens};
use crate::numeric::{lemma_sub_is_shifted_difference, Numeric};
use crate::table::Table;
use crate::text::texts;
use vstd::prelude::*;

verus! {

/// What the variables spell: the characters of each text.
pub open spec fn spelled(variables: Map<Seq<char>, String>) -> Map<Seq<char>, Seq<char>> {
    variables.map_values(|text: String| text@)
}

/// The way from the line `current` to the line `label`, around a core of
/// `size` cells.
pub open spec fn relative(label: int, current: int, size: int) -> int {
    (label + size - current) % size
}

/// The tokens of an expression, with a value in place of each label and the
/// tokens of its text in place of each variable. A variable may stand in the
/// text of a variable, `depth` deep at most. The first token that is neither
/// a token of the grammar nor a label nor a variable is an error.
pub open spec fn operand_tokens(
    ts: Seq<Seq<char>>,
    labels: Map<Seq<char>, usize>,
    variables: Map<Seq<char>, Seq<char>>,
    current: int,
    size: int,
    depth: nat,
) -> Result<Seq<ExpressionToken>, Seq<char>>
    decreases depth, ts.len(),
{
    if ts.len() == 0 {
        Ok(Seq::empty())
    } else {
        let name = ts.last();
        match operand_tokens(ts.drop_last(), labels, variables, current, size, depth) {
            Err(text) => Err(text),
            Ok(before) => if let Some(token) = ExpressionToken::named(name, size) {
                Ok(before.push(token))
            } else if labels.dom().contains(name) {
                Ok(
                    before.push(
                        ExpressionToken::Value(
                            relative(labels[name] as int, current, size) as usize,
                        ),
                    ),
                )
            } else if variables.dom().contains(name) {
                if depth == 0 {
                    Err("Cyclic variable "@ + name)
                } else {
                    match operand_tokens(
                        tokens(variables[name]),
                        labels,
                        variables,
                        current,
                        size,
                        (depth - 1) as nat,
                    ) {
                        Ok(inner) => Ok(before + inner),
                        Err(text) => Err(text),
                    }
                }
            } else {
                Err("Invalid token "@ + name)
            },
        }
    }
}

/// The value of an operand on the line `current`, in a core of `size` cells:
/// of an integer literal, the address that it stands for; of a label, the
/// way to its line; of anything else, its value as an expression, in which
/// variables may stand in variables as deep as there are variables.
pub open spec fn operand_value(
    value: Seq<char>,
    labels: Map<Seq<char>, usize>,
    variables: Map<Seq<char>, Seq<char>>,
    current: int,
    size: int,
) -> Result<int, Seq<char>> {
    if let Some(n) = integer(value) {
        Ok(n % size)
    } else if labels.dom().contains(value) {
        Ok(relative(labels[value] as int, current, size))
    } else {
        match operand_tokens(
            tokens(value),
            labels,
            variables,
            current,
            size,
            variables.dom().len(),
        ) {
            Err(text) => Err(text),
            Ok(ts) => match value_of(ts) {
                Some(v) => Ok(v),
                None => Err("Invalid expression "@ + value),
            },
        }
    }
}

/// Computes the way from the line `current` to the line `label`.
pub fn offset<const CORE_SIZE: usize>(label: usize, current: usize) -> (r: usize)
    requires
        CORE_SIZE > 0,
    ensures
        r == relative(label as int, current as int, CORE_SIZE as int),
        r < CORE_SIZE,
{
    proof {
        lemma_sub_is_shifted_difference::<CORE_SIZE>(label as int, current as int);
    }
    let way = Numeric::<CORE_SIZE>::new(label) - Numeric::<CORE_SIZE>::new(current);
    way.value
}

/// Whether what was computed is what the model gives.
pub open spec fn tokens_agree(
    r: Result<Vec<ExpressionToken>, String>,
    model: Result<Seq<ExpressionToken>, Seq<char>>,
) -> bool {
    match r {
        Ok(ts) => model == Ok::<Seq<ExpressionToken>, Seq<char>>(ts@),
        Err(text) => model == Err::<Seq<ExpressionToken>, Seq<char>>(text@),
    }
}

/// Turns an operand into the tokens of an expression.
pub fn operand_to_expression_tokens<const CORE_SIZE: usize>(
    operand_value: &str,
    labels: &Table<usize>,
    variables: &Table<String>,
    current_index: usize,
    depth: usize,
) -> (r: Result<Vec<ExpressionToken>, String>)
    requires
        CORE_SIZE > 0,
        labels.wf(),
        variables.wf(),
    ensures
        tokens_agree(
            r,
            operand_tokens(
                tokens(operand_value@),
                labels@,
                spelled(variables@),
                current_index as int,
                CORE_SIZE as int,
                depth as nat,
            ),
        ),
    decreases depth,
{
    let splitted = split_into_tokens(operand_value);
    let ghost names = texts(splitted@);
    let mut result: Vec<ExpressionToken> = Vec::new();
    let mut at: usize = 0;
    proof {
        assert(names.take(0) =~= Seq::<Seq<char>>::empty());
    }
    while at < splitted.len()
        invariant
            CORE_SIZE > 0,
            labels.wf(),
            variables.wf(),
            at <= splitted@.len(),
            names == texts(splitted@),
            names == tokens(operand_value@),
            operand_tokens(
                names.take(at as int),
                labels@,
                spelled(variables@),
                current_index as int,
                CORE_SIZE as int,
                depth as nat,
            ) == Ok::<Seq<ExpressionToken>, Seq<char>>(result@),
        decreases splitted@.len() - at,
    {
        let name = splitted[at];
        proof {
            assert(names.take(at as int + 1).drop_last() =~= names.take(at as int));
            assert(names.take(at as int + 1).last() == name@);
        }
        let ghost upto = names.take(at as int + 1);
        match ExpressionToken::parse::<CORE_SIZE>(name) {
            Ok(token) => {
                result.push(token);
            },
            Err(_) => {
                match labels.get(name) {
                    Some(line) => {
                        result.push(
                            ExpressionToken::Value(offset::<CORE_SIZE>(*line, current_index)),
                        );
                    },
                    None => {
                        match variables.get(name) {
                            Some(text) => {
                                if depth == 0 {
                                    proof {
                                        assert(names.take(names.len() as int) =~= names);
                                        lemma_error_stays(
                                            names,
                                            at as int + 1,
                                            labels@,
                                            spelled(variables@),
                                            current_index as int,
                                            CORE_SIZE as int,
                                            depth as nat,
                                        );
                                    }
                                    return Err(String::from_str("Cyclic variable ").concat(name));
                                }
                                match operand_to_expression_tokens::<CORE_SIZE>(
                                    text.as_str(),
                                    labels,
                                    variables,
                                    current_index,
                                    depth - 1,
                                ) {
                                    Ok(mut inner) => {
                                        let ghost joined = result@ + inner@;
                                        result.append(&mut inner);
                                        proof {
                                            assert(result@ =~= joined);
                                        }
                                    },
                                    Err(text) => {
                                        proof {
                                            lemma_error_stays(
                                                names,
                                                at as int + 1,
                                                labels@,
                                                spelled(variables@),
                                                current_index as int,
                                                CORE_SIZE as int,
                                                depth as nat,
                                            );
                                        }
                                        return Err(text);
                                    },
                                }
                            },
                            None => {
                                proof {
                                    lemma_error_stays(
                                        names,
                                        at as int + 1,
                                        labels@,
                                        spelled(variables@),
                                        current_index as int,
                                        CORE_SIZE as int,
                                        depth as nat,
                                    );
                                }
                                return Err(String::from_str("Invalid token ").concat(name));
                            },
                        }
                    },
                }
            },
        }
        at += 1;
    }
    proof {
        assert(names.take(names.len() as int) =~= names);
    }
    Ok(result)
}

/// An error among the first tokens is the error of all the tokens.
pub proof fn lemma_error_stays(
    ts: Seq<Seq<char>>,
    upto: int,
    labels: Map<Seq<char>, usize>,
    variables: Map<Seq<char>, Seq<char>>,
    current: int,
    size: int,
    depth: nat,
)
    requires
        0 <= upto <= ts.len(),
        operand_tokens(ts.take(upto), labels, variables, current, size, depth) is Err,
    ensures
        operand_tokens(ts, labels, variables, current, size, depth) == operand_tokens(
            ts.take(upto),
            labels,
            variables,
            current,
            size,
            depth,
        ),
    decreases ts.len() - upto,
{
    if upto == ts.len() {
        assert(ts.take(upto) =~= ts);
    } else {
        assert(ts.take(upto + 1).drop_last() =~= ts.take(upto));
        lemma_error_stays(ts, upto + 1, labels, variables, current, size, depth);
    }
}

/// Computes the value of an operand on the line `current_index`.
pub fn evaluate_operand<const CORE_SIZE: usize>(
    value: &str,
    labels: &Table<usize>,
    variables: &Table<String>,
    current_index: usize,
) -> (r: Result<usize, String>)
    requires
        CORE_SIZE > 0,
        labels.wf(),
        variables.wf(),
    ensures
        match r {
            Ok(v) => operand_value(
                value@,
                labels@,
                spelled(variables@),
                current_index as int,
                CORE_SIZE as int,
            ) == Ok::<int, Seq<char>>(v as int),
            Err(text) => operand_value(
                value@,
                labels@,
                spelled(variables@),
                current_index as int,
                CORE_SIZE as int,
            ) == Err::<int, Seq<char>>(text@),
        },
{
    if let Some(n) = parse_integer(value) {
        return Ok(to_core_size::<CORE_SIZE>(n));
    }
    if let Some(line) = labels.get(value) {
        return Ok(offset::<CORE_SIZE>(*line, current_index));
    }
    let depth = variables.len();
    proof {
        assert(spelled(variables@).dom() =~= variables@.dom());
    }
    match operand_to_expression_tokens::<CORE_SIZE>(
        value,
        labels,
        variables,
        current_index,
        depth,
    ) {
        Err(text) => Err(text),
        Ok(ts) => match evaluate_tokens(&ts) {
            Some(v) => Ok(v),
            None => Err(String::from_str("Invalid expression ").concat(value)),
        },
    }
}

/// The addressing mode that a character marks.
pub open spec fn mode_of(c: char) -> Option<OperandMode> {
    if c == '#' {
        Some(OperandMode::Immediate)
    } else if c == '$' {
        Some(OperandMode::Direct)
    } else if c == '@' {
        Some(OperandMode::Indirect)
    } else if c == '<' {
        Some(OperandMode::Decrement)
    } else if c == '>' {
        Some(OperandMode::Increment)
    } else {
        None
    }
}

/// The operand that a text spells on the line `current`: the mode that its
/// first character marks, or else the direct mode, and as its pointer the
/// value of what follows the mark.
pub open spec fn operand_of<const CORE_SIZE: usize>(
    s: Seq<char>,
    current: int,
    labels: Map<Seq<char>, usize>,
    variables: Map<Seq<char>, Seq<char>>,
) -> Result<Operand<CORE_SIZE>, Seq<char>> {
    let mode = match mode_of(s[0]) {
        Some(marked) => marked,
        None => OperandMode::Direct,
    };
    let rest = if mode_of(s[0]) is Some {
        s.drop_first()
    } else {
        s
    };
    match operand_value(rest, labels, variables, current, CORE_SIZE as int) {
        Ok(v) => Ok(Operand { pointer: Numeric::reduce(v), mode }),
        Err(text) => Err(text),
    }
}

/// Reads an operand.
pub fn parse_operand<const CORE_SIZE: usize>(
    s: &str,
    current_index: usize,
    labels: &Table<usize>,
    variables: &Table<String>,
) -> (r: Result<Operand<CORE_SIZE>, String>)
    requires
        CORE_SIZE > 0,
        s@.len() > 0,
        labels.wf(),
        variables.wf(),
    ensures
        match r {
            Ok(operand) => operand_of::<CORE_SIZE>(
                s@,
                current_index as int,
                labels@,
                spelled(variables@),
            ) == Ok::<Operand<CORE_SIZE>, Seq<char>>(operand) && operand.wf(),
            Err(text) => operand_of::<CORE_SIZE>(
                s@,
                current_index as int,
                labels@,
                spelled(variables@),
            ) == Err::<Operand<CORE_SIZE>, Seq<char>>(text@),
        },
{
    let first_char = s.get_char(0);
    let (operand_mode, start_ix): (OperandMode, usize) = if first_char == '#' {
        (OperandMode::Immediate, 1)
    } else if first_char == '$' {
        (OperandMode::Direct, 1)
    } else if first_char == '@' {
        (OperandMode::Indirect, 1)
    } else if first_char == '<' {
        (OperandMode::Decrement, 1)
    } else if first_char == '>' {
        (OperandMode::Increment, 1)
    } else {
        (OperandMode::Direct, 0)
    };
    let rest = s.substring_char(start_ix, s.unicode_len());
    proof {
        assert(start_ix == 1 ==> rest@ =~= s@.drop_first());
        assert(start_ix == 0 ==> rest@ =~= s@);
    }
    match evaluate_operand::<CORE_SIZE>(rest, labels, variables, current_index) {
        Ok(op_value) => Ok(Operand { pointer: Numeric::new(op_value), mode: operand_mode }),
        Err(text) => Err(text),
    }
}

} // verus!
