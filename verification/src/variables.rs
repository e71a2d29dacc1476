//! Variables: a line `NAME equ TEXT` gives a name to a text, and the text of
//! each variable is expanded until it holds no variable.
//!
//! The text of a variable is kept as its tokens, each with a note of whether
//! all its characters are numeric. Expanding works on these tokens alone.

use crate::literal::{all_digits, breaker, is_breaker, is_digit, split_into_tokens, tokens};
use crate::operand::spelled;
use crate::table::Table;
use crate::text::{same_text, split_words, texts, words, Separator};
use vstd::prelude::*;

verus! {

/// The variable that a line defines, and its text: the line is made of three
/// words, the second of which is `equ`.
pub open spec fn definition_of(line: Seq<char>) -> Option<(Seq<char>, Seq<char>)> {
    let parts = words(line, Separator::Blank);
    if parts.len() == 3 && parts[1] == "equ"@ {
        Some((parts[0], parts[2]))
    } else {
        None
    }
}

/// Reads the definition of a variable.
pub fn get_variable_definition<'a>(line: &'a str) -> (r: Option<(&'a str, &'a str)>)
    ensures
        match r {
            Some((name, text)) => definition_of(line@) == Some((name@, text@)),
            None => definition_of(line@) is None,
        },
{
    let v = split_words(line, Separator::Blank);
    if v.len() == 3 {
        proof {
            assert(texts(v@)[0] == v@[0]@);
            assert(texts(v@)[1] == v@[1]@);
            assert(texts(v@)[2] == v@[2]@);
        }
        if same_text(v[1], "equ") {
            return Some((v[0], v[2]));
        }
    }
    None
}

/// Whether a character is numeric, as `char::is_numeric` tells.
pub uninterp spec fn is_numeric_char(c: char) -> bool;

/// Calls `char::is_numeric`, which tells whether a character belongs to one
/// of the Unicode categories of numbers. The result is a function of the
/// character alone, and is named `is_numeric_char`; the ten digits are among
/// the numeric characters.
#[verifier::external_body]
fn numeric(c: char) -> (r: bool)
    ensures
        r == is_numeric_char(c),
        is_digit(c) ==> r,
{
    c.is_numeric()
}

/// Whether every character of the text is numeric.
pub open spec fn all_numeric(s: Seq<char>) -> bool {
    forall|i: int| 0 <= i < s.len() ==> is_numeric_char(#[trigger] s[i])
}

/// Whether every character of the text is numeric.
fn is_all_numeric(s: &str) -> (r: bool)
    ensures
        r == all_numeric(s@),
        all_digits(s@) ==> r,
{
    let length = s.unicode_len();
    let mut at: usize = 0;
    while at < length
        invariant
            length == s@.len(),
            at <= length,
            forall|i: int| 0 <= i < at ==> is_numeric_char(#[trigger] s@[i]),
        decreases length - at,
    {
        if !numeric(s.get_char(at)) {
            return false;
        }
        at += 1;
    }
    true
}

/// A token of the text of a variable.
pub struct Word {
    pub text: String,
    /// Whether every character of the token is numeric.
    pub numeric: bool,
}

/// A token of the text of a variable, as a value.
pub struct Spelling {
    pub text: Seq<char>,
    pub numeric: bool,
}

impl View for Word {
    type V = Spelling;

    open spec fn view(&self) -> Spelling {
        Spelling { text: self.text@, numeric: self.numeric }
    }
}

/// The tokens as values.
pub open spec fn spellings(words: Seq<Word>) -> Seq<Spelling> {
    Seq::new(words.len(), |i: int| words[i]@)
}

/// The texts of the variables as values.
pub open spec fn spelled_words(variables: Map<Seq<char>, Vec<Word>>) -> Map<
    Seq<char>,
    Seq<Spelling>,
> {
    variables.map_values(|words: Vec<Word>| spellings(words@))
}

/// The tokens of a text, each with the note of whether it is numeric.
pub open spec fn classified(text: Seq<char>) -> Seq<Spelling> {
    Seq::new(
        tokens(text).len(),
        |i: int| Spelling { text: tokens(text)[i], numeric: all_numeric(tokens(text)[i]) },
    )
}

/// Cuts the text of a variable into its tokens and notes of each whether it
/// is numeric.
pub fn classify(value: &str) -> (r: Vec<Word>)
    ensures
        spellings(r@) == classified(value@),
        forall|i: int|
            0 <= i < r@.len() && all_digits((#[trigger] r@[i]).text@) ==> r@[i].numeric,
{
    let splitted = split_into_tokens(value);
    let mut r: Vec<Word> = Vec::new();
    let mut at: usize = 0;
    while at < splitted.len()
        invariant
            at <= splitted@.len(),
            texts(splitted@) == tokens(value@),
            r@.len() == at,
            forall|i: int| 0 <= i < at ==> (#[trigger] r@[i])@ == classified(value@)[i],
            forall|i: int| 0 <= i < at && all_digits((#[trigger] r@[i]).text@) ==> r@[i].numeric,
        decreases splitted@.len() - at,
    {
        let token = splitted[at];
        proof {
            assert(texts(splitted@)[at as int] == token@);
        }
        r.push(Word { text: String::from_str(token), numeric: is_all_numeric(token) });
        at += 1;
    }
    proof {
        assert(spellings(r@) =~= classified(value@));
    }
    r
}

/// Copies the tokens of a text.
pub fn copy_words(words: &Vec<Word>) -> (r: Vec<Word>)
    ensures
        spellings(r@) == spellings(words@),
{
    let mut r: Vec<Word> = Vec::new();
    let mut at: usize = 0;
    while at < words.len()
        invariant
            at <= words@.len(),
            r@.len() == at,
            forall|i: int| 0 <= i < at ==> (#[trigger] r@[i])@ == words@[i]@,
        decreases words@.len() - at,
    {
        r.push(Word { text: words[at].text.clone(), numeric: words[at].numeric });
        at += 1;
    }
    proof {
        assert(spellings(r@) =~= spellings(words@));
    }
    r
}

/// Whether a token of a variable's text stays as it is: an operator or a
/// parenthesis, a numeric token, or a label.
pub open spec fn is_plain(word: Spelling, labels: Set<Seq<char>>) -> bool {
    ||| word.text.len() == 1 && is_breaker(word.text[0])
    ||| word.numeric
    ||| labels.contains(word.text)
}

/// The tokens joined, with the expanded text of its variable in place of
/// each token that does not stay as it is. While the text of a variable is
/// expanded the variable is set aside, so that a variable whose text leads
/// back to it is an error, as is a token that is no variable.
pub open spec fn expanded(
    words: Seq<Spelling>,
    labels: Set<Seq<char>>,
    variables: Map<Seq<char>, Seq<Spelling>>,
) -> Result<Seq<char>, Seq<char>>
    decreases variables.dom().len(), words.len(),
{
    if words.len() == 0 {
        Ok(Seq::empty())
    } else {
        let word = words.last();
        match expanded(words.drop_last(), labels, variables) {
            Err(text) => Err(text),
            Ok(before) => if is_plain(word, labels) {
                Ok(before + word.text)
            } else if variables.dom().finite() && variables.dom().contains(word.text) {
                match expanded(variables[word.text], labels, variables.remove(word.text)) {
                    Ok(inner) => Ok(before + inner),
                    Err(text) => Err(text),
                }
            } else {
                Err("Invalid token "@ + word.text)
            },
        }
    }
}

/// An error among the first tokens is the error of all the tokens.
pub proof fn lemma_expansion_error_stays(
    words: Seq<Spelling>,
    upto: int,
    labels: Set<Seq<char>>,
    variables: Map<Seq<char>, Seq<Spelling>>,
)
    requires
        0 <= upto <= words.len(),
        expanded(words.take(upto), labels, variables) is Err,
    ensures
        expanded(words, labels, variables) == expanded(words.take(upto), labels, variables),
    decreases words.len() - upto,
{
    if upto == words.len() {
        assert(words.take(upto) =~= words);
    } else {
        assert(words.take(upto + 1).drop_last() =~= words.take(upto));
        lemma_expansion_error_stays(words, upto + 1, labels, variables);
    }
}

/// Whether what was computed is what the model gives.
pub open spec fn text_agrees(r: Result<String, String>, model: Result<Seq<char>, Seq<char>>) -> bool {
    match r {
        Ok(text) => model == Ok::<Seq<char>, Seq<char>>(text@),
        Err(text) => model == Err::<Seq<char>, Seq<char>>(text@),
    }
}

/// Expands the text of a variable until it holds no variable. The table of
/// variables is the same afterwards.
pub fn expand_variable(value: &Vec<Word>, labels: &Table<usize>, variables: &mut Table<Vec<Word>>) -> (r:
    Result<String, String>)
    requires
        labels.wf(),
        old(variables).wf(),
    ensures
        final(variables).wf(),
        final(variables)@ == old(variables)@,
        text_agrees(
            r,
            expanded(spellings(value@), labels@.dom(), spelled_words(old(variables)@)),
        ),
    decreases old(variables)@.dom().len(),
{
    let ghost words = spellings(value@);
    let mut result = String::new();
    let mut at: usize = 0;
    proof {
        assert(words.take(0) =~= Seq::<Spelling>::empty());
    }
    while at < value.len()
        invariant
            labels.wf(),
            variables.wf(),
            variables@ == old(variables)@,
            at <= value@.len(),
            words == spellings(value@),
            expanded(words.take(at as int), labels@.dom(), spelled_words(variables@)) == Ok::<
                Seq<char>,
                Seq<char>,
            >(result@),
        decreases value@.len() - at,
    {
        let token = value[at].text.as_str();
        proof {
            assert(words.take(at as int + 1).drop_last() =~= words.take(at as int));
            assert(words.take(at as int + 1).last() == value@[at as int]@);
        }
        let single = token.unicode_len() == 1 && breaker(token.get_char(0));
        if single || value[at].numeric || labels.contains_key(token) {
            result.append(token);
        } else {
            let ghost all = variables@;
            proof {
                variables.lemma_finite();
                assert(spelled_words(all).dom() =~= all.dom());
            }
            match variables.remove(token) {
                Some(text) => {
                    proof {
                        assert(spelled_words(variables@) =~= spelled_words(all).remove(token@));
                    }
                    let inner = expand_variable(&text, labels, variables);
                    variables.insert(token, text);
                    proof {
                        assert(variables@ =~= all);
                    }
                    match inner {
                        Ok(piece) => {
                            result.append(piece.as_str());
                        },
                        Err(text) => {
                            proof {
                                lemma_expansion_error_stays(
                                    words,
                                    at as int + 1,
                                    labels@.dom(),
                                    spelled_words(all),
                                );
                            }
                            return Err(text);
                        },
                    }
                },
                None => {
                    proof {
                        assert(variables@ =~= all);
                        lemma_expansion_error_stays(
                            words,
                            at as int + 1,
                            labels@.dom(),
                            spelled_words(all),
                        );
                    }
                    return Err(String::from_str("Invalid token ").concat(token));
                },
            }
        }
        at += 1;
    }
    proof {
        assert(words.take(words.len() as int) =~= words);
    }
    Ok(result)
}

/// The variables that the lines define, each with the tokens of its text.
/// Of two definitions of the same variable the later counts.
pub open spec fn definitions_of(lines: Seq<Seq<char>>) -> Map<Seq<char>, Seq<Spelling>>
    decreases lines.len(),
{
    if lines.len() == 0 {
        Map::empty()
    } else {
        match definition_of(lines.last()) {
            Some((name, text)) => definitions_of(lines.drop_last()).insert(name, classified(text)),
            None => definitions_of(lines.drop_last()),
        }
    }
}

/// The names of the variables that the lines define, one for each
/// definition, in the order of the lines.
pub open spec fn names_defined(lines: Seq<Seq<char>>) -> Seq<Seq<char>>
    decreases lines.len(),
{
    if lines.len() == 0 {
        Seq::empty()
    } else {
        match definition_of(lines.last()) {
            Some((name, _)) => names_defined(lines.drop_last()).push(name),
            None => names_defined(lines.drop_last()),
        }
    }
}

/// The variables named, each with its text expanded. The first text that
/// cannot be expanded is an error.
pub open spec fn expanded_all(
    names: Seq<Seq<char>>,
    definitions: Map<Seq<char>, Seq<Spelling>>,
    labels: Set<Seq<char>>,
) -> Result<Map<Seq<char>, Seq<char>>, Seq<char>>
    decreases names.len(),
{
    if names.len() == 0 {
        Ok(Map::empty())
    } else {
        match expanded_all(names.drop_last(), definitions, labels) {
            Err(text) => Err(text),
            Ok(before) => match expanded(definitions[names.last()], labels, definitions) {
                Ok(text) => Ok(before.insert(names.last(), text)),
                Err(text) => Err(text),
            },
        }
    }
}

/// An error among the first variables is the error of all of them.
pub proof fn lemma_expanding_error_stays(
    names: Seq<Seq<char>>,
    upto: int,
    definitions: Map<Seq<char>, Seq<Spelling>>,
    labels: Set<Seq<char>>,
)
    requires
        0 <= upto <= names.len(),
        expanded_all(names.take(upto), definitions, labels) is Err,
    ensures
        expanded_all(names, definitions, labels) == expanded_all(
            names.take(upto),
            definitions,
            labels,
        ),
    decreases names.len() - upto,
{
    if upto == names.len() {
        assert(names.take(upto) =~= names);
    } else {
        assert(names.take(upto + 1).drop_last() =~= names.take(upto));
        lemma_expanding_error_stays(names, upto + 1, definitions, labels);
    }
}

/// The variables that the lines define, each with its text expanded.
pub open spec fn variables_of(lines: Seq<Seq<char>>, labels: Set<Seq<char>>) -> Result<
    Map<Seq<char>, Seq<char>>,
    Seq<char>,
> {
    expanded_all(names_defined(lines), definitions_of(lines), labels)
}

/// Collects the variables that the lines define, and expands their texts.
pub fn get_variables(lines: &Vec<&str>, labels: &Table<usize>) -> (r: Result<Table<String>, String>)
    requires
        labels.wf(),
    ensures
        match r {
            Ok(variables) => variables.wf() && variables_of(texts(lines@), labels@.dom()) == Ok::<
                Map<Seq<char>, Seq<char>>,
                Seq<char>,
            >(spelled(variables@)),
            Err(text) => variables_of(texts(lines@), labels@.dom()) == Err::<
                Map<Seq<char>, Seq<char>>,
                Seq<char>,
            >(text@),
        },
{
    let mut variables: Table<Vec<Word>> = Table::new();
    let mut keys: Vec<&str> = Vec::new();
    let mut at: usize = 0;
    proof {
        assert(texts(lines@).take(0) =~= Seq::<Seq<char>>::empty());
        assert(spelled_words(variables@) =~= Map::<Seq<char>, Seq<Spelling>>::empty());
        assert(texts(keys@) =~= Seq::<Seq<char>>::empty());
    }
    while at < lines.len()
        invariant
            at <= lines@.len(),
            variables.wf(),
            spelled_words(variables@) == definitions_of(texts(lines@).take(at as int)),
            texts(keys@) == names_defined(texts(lines@).take(at as int)),
            forall|j: int| 0 <= j < keys@.len() ==> variables@.dom().contains((#[trigger] keys@[j])@),
        decreases lines@.len() - at,
    {
        let line = lines[at];
        proof {
            assert(texts(lines@).take(at as int + 1).drop_last() =~= texts(lines@).take(at as int));
            assert(texts(lines@).take(at as int + 1).last() == line@);
        }
        match get_variable_definition(line) {
            Some((name, value)) => {
                let ghost before = variables@;
                let ghost done = texts(keys@);
                let words = classify(value);
                let ghost written = spellings(words@);
                variables.insert(name, words);
                keys.push(name);
                proof {
                    assert(spelled_words(variables@) =~= spelled_words(before).insert(
                        name@,
                        written,
                    ));
                    assert(texts(keys@) =~= done.push(name@));
                }
            },
            None => {},
        }
        at += 1;
    }
    proof {
        assert(texts(lines@).take(lines@.len() as int) =~= texts(lines@));
    }
    let ghost definitions = spelled_words(variables@);
    let ghost names = texts(keys@);
    let mut result: Table<String> = Table::new();
    let mut done: usize = 0;
    proof {
        assert(names.take(0) =~= Seq::<Seq<char>>::empty());
        assert(spelled(result@) =~= Map::<Seq<char>, Seq<char>>::empty());
    }
    while done < keys.len()
        invariant
            done <= keys@.len(),
            labels.wf(),
            variables.wf(),
            result.wf(),
            names == texts(keys@),
            definitions == spelled_words(variables@),
            names == names_defined(texts(lines@)),
            definitions == definitions_of(texts(lines@)),
            forall|j: int| 0 <= j < keys@.len() ==> variables@.dom().contains((#[trigger] keys@[j])@),
            expanded_all(names.take(done as int), definitions, labels@.dom()) == Ok::<
                Map<Seq<char>, Seq<char>>,
                Seq<char>,
            >(spelled(result@)),
        decreases keys@.len() - done,
    {
        let key = keys[done];
        proof {
            assert(names.take(done as int + 1).drop_last() =~= names.take(done as int));
            assert(names.take(done as int + 1).last() == key@);
            assert(variables@.dom().contains(keys@[done as int]@));
        }
        let value = match variables.get(key) {
            Some(words) => copy_words(words),
            None => Vec::new(),
        };
        proof {
            assert(spellings(value@) == definitions[key@]);
        }
        match expand_variable(&value, labels, &mut variables) {
            Ok(text) => {
                let ghost before = result@;
                let ghost spelling = text@;
                result.insert(key, text);
                proof {
                    assert(spelled(result@) =~= spelled(before).insert(key@, spelling));
                }
            },
            Err(text) => {
                proof {
                    assert(expanded_all(names.take(done as int + 1), definitions, labels@.dom())
                        is Err);
                    lemma_expanding_error_stays(
                        names,
                        done as int + 1,
                        definitions,
                        labels@.dom(),
                    );
                }
                return Err(text);
            },
        }
        done += 1;
    }
    proof {
        assert(names.take(names.len() as int) =~= names);
    }
    Ok(result)
}

} // verus!
