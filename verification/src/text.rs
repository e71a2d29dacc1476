//! Text as the assembler reads it: white space, splitting at separators,
//! trimming, and words compared without regard to case. Every function on
//! `&str` is stated over the characters of the text.

use vstd::prelude::*;

verus! {

/// Whether the character is white space: the characters with the Unicode
/// property `White_Space`.
pub open spec fn is_blank(c: char) -> bool {
    let n = c as u32;
    ||| 0x09 <= n <= 0x0d
    ||| n == 0x20
    ||| n == 0x85
    ||| n == 0xa0
    ||| n == 0x1680
    ||| 0x2000 <= n <= 0x200a
    ||| n == 0x2028
    ||| n == 0x2029
    ||| n == 0x202f
    ||| n == 0x205f
    ||| n == 0x3000
}

/// Tells white space from other characters.
pub fn blank(c: char) -> (r: bool)
    ensures
        r == is_blank(c),
{
    let n: u32 = c as u32;
    (0x09 <= n && n <= 0x0d) || n == 0x20 || n == 0x85 || n == 0xa0 || n == 0x1680 || (0x2000 <= n
        && n <= 0x200a) || n == 0x2028 || n == 0x2029 || n == 0x202f || n == 0x205f || n == 0x3000
}

/// The characters at which a text is split.
#[derive(Clone, Copy, PartialEq, Eq, Structural, Debug)]
pub enum Separator {
    /// A line feed or a carriage return.
    LineBreak,
    Colon,
    Semicolon,
    Dot,
    /// White space.
    Blank,
    /// White space or a comma.
    BlankOrComma,
}

impl Separator {
    /// Whether `c` is a separator of this kind.
    pub open spec fn has(self, c: char) -> bool {
        match self {
            Separator::LineBreak => c == '\n' || c == '\r',
            Separator::Colon => c == ':',
            Separator::Semicolon => c == ';',
            Separator::Dot => c == '.',
            Separator::Blank => is_blank(c),
            Separator::BlankOrComma => is_blank(c) || c == ',',
        }
    }

    /// Tells the separators of this kind from other characters.
    pub fn separates(self, c: char) -> (r: bool)
        ensures
            r == self.has(c),
    {
        match self {
            Separator::LineBreak => c == '\n' || c == '\r',
            Separator::Colon => c == ':',
            Separator::Semicolon => c == ';',
            Separator::Dot => c == '.',
            Separator::Blank => blank(c),
            Separator::BlankOrComma => blank(c) || c == ',',
        }
    }
}

/// The pieces that the separators cut a text into, empty ones included: a
/// separator ends the piece before it and begins a new one, any other
/// character belongs to the piece that it follows.
pub open spec fn pieces(s: Seq<char>, by: Separator) -> Seq<Seq<char>>
    decreases s.len(),
{
    if s.len() == 0 {
        seq![Seq::empty()]
    } else {
        let before = pieces(s.drop_last(), by);
        if by.has(s.last()) {
            before.push(Seq::empty())
        } else {
            before.drop_last().push(before.last().push(s.last()))
        }
    }
}

/// A text is cut into at least one piece.
pub proof fn lemma_pieces_nonempty(s: Seq<char>, by: Separator)
    ensures
        pieces(s, by).len() >= 1,
    decreases s.len(),
{
    if s.len() > 0 {
        lemma_pieces_nonempty(s.drop_last(), by);
    }
}

/// The texts of a sequence that are not empty, in their order.
pub open spec fn nonempty(parts: Seq<Seq<char>>) -> Seq<Seq<char>>
    decreases parts.len(),
{
    if parts.len() == 0 {
        Seq::empty()
    } else if parts.last().len() > 0 {
        nonempty(parts.drop_last()).push(parts.last())
    } else {
        nonempty(parts.drop_last())
    }
}

/// The words of a text: the pieces between separators that are not empty.
pub open spec fn words(s: Seq<char>, by: Separator) -> Seq<Seq<char>> {
    nonempty(pieces(s, by))
}

/// The characters of each text of a sequence.
pub open spec fn texts(parts: Seq<&str>) -> Seq<Seq<char>> {
    Seq::new(parts.len(), |i: int| parts[i]@)
}

/// Cuts a text at every separator.
pub fn split<'a>(s: &'a str, by: Separator) -> (parts: Vec<&'a str>)
    ensures
        texts(parts@) == pieces(s@, by),
        parts@.len() >= 1,
{
    let length = s.unicode_len();
    let mut parts: Vec<&'a str> = Vec::new();
    let mut start: usize = 0;
    let mut at: usize = 0;
    proof {
        assert(s@.take(0) =~= Seq::<char>::empty());
        assert(texts(parts@).push(s@.subrange(0, 0)) =~= seq![Seq::<char>::empty()]);
    }
    while at < length
        invariant
            length == s@.len(),
            start <= at <= length,
            pieces(s@.take(at as int), by) == texts(parts@).push(
                s@.subrange(start as int, at as int),
            ),
        decreases length - at,
    {
        let c = s.get_char(at);
        proof {
            assert(s@.take(at as int + 1).drop_last() =~= s@.take(at as int));
            assert(s@.take(at as int + 1).last() == c);
        }
        if by.separates(c) {
            let ghost done = texts(parts@);
            parts.push(s.substring_char(start, at));
            proof {
                assert(texts(parts@) =~= done.push(s@.subrange(start as int, at as int)));
            }
            start = at + 1;
            proof {
                assert(s@.subrange(start as int, at as int + 1) =~= Seq::<char>::empty());
                assert(texts(parts@).push(s@.subrange(start as int, at as int + 1)) =~= pieces(
                    s@.take(at as int + 1),
                    by,
                ));
            }
        } else {
            proof {
                let before = pieces(s@.take(at as int), by);
                assert(before.drop_last() =~= texts(parts@));
                assert(before.last().push(c) =~= s@.subrange(start as int, at as int + 1));
            }
        }
        at += 1;
    }
    let ghost done = texts(parts@);
    parts.push(s.substring_char(start, length));
    proof {
        assert(s@.take(length as int) =~= s@);
        assert(texts(parts@) =~= done.push(s@.subrange(start as int, length as int)));
        assert(texts(parts@) =~= pieces(s@, by));
    }
    parts
}

/// Cuts a text at every separator and keeps the pieces that are not empty.
pub fn split_words<'a>(s: &'a str, by: Separator) -> (kept: Vec<&'a str>)
    ensures
        texts(kept@) == words(s@, by),
        forall|i: int| 0 <= i < kept@.len() ==> (#[trigger] kept@[i])@.len() > 0,
{
    let parts = split(s, by);
    let mut kept: Vec<&'a str> = Vec::new();
    let mut at: usize = 0;
    while at < parts.len()
        invariant
            at <= parts@.len(),
            texts(kept@) == nonempty(texts(parts@).take(at as int)),
            forall|i: int| 0 <= i < kept@.len() ==> (#[trigger] kept@[i])@.len() > 0,
        decreases parts@.len() - at,
    {
        let part = parts[at];
        proof {
            assert(texts(parts@).take(at as int + 1).drop_last() =~= texts(parts@).take(at as int));
            assert(texts(parts@).take(at as int + 1).last() == part@);
        }
        if part.unicode_len() > 0 {
            let ghost done = texts(kept@);
            kept.push(part);
            proof {
                assert(texts(kept@) =~= done.push(part@));
                assert(texts(kept@) =~= nonempty(texts(parts@).take(at as int + 1)));
            }
        }
        at += 1;
    }
    proof {
        assert(texts(parts@).take(parts@.len() as int) =~= texts(parts@));
    }
    kept
}

/// The text without the white space that it begins with.
pub open spec fn trim_start(s: Seq<char>) -> Seq<char>
    decreases s.len(),
{
    if s.len() > 0 && is_blank(s.first()) {
        trim_start(s.drop_first())
    } else {
        s
    }
}

/// The text without the white space that it ends with.
pub open spec fn trim_end(s: Seq<char>) -> Seq<char>
    decreases s.len(),
{
    if s.len() > 0 && is_blank(s.last()) {
        trim_end(s.drop_last())
    } else {
        s
    }
}

/// The text without the white space around it.
pub open spec fn trimmed(s: Seq<char>) -> Seq<char> {
    trim_end(trim_start(s))
}

/// Takes the white space around a text away.
pub fn trim<'a>(s: &'a str) -> (r: &'a str)
    ensures
        r@ == trimmed(s@),
{
    let length = s.unicode_len();
    let mut from: usize = 0;
    proof {
        assert(s@.skip(0) =~= s@);
    }
    while from < length && blank(s.get_char(from))
        invariant
            length == s@.len(),
            from <= length,
            trim_start(s@) == trim_start(s@.skip(from as int)),
        decreases length - from,
    {
        proof {
            assert(s@.skip(from as int).drop_first() =~= s@.skip(from as int + 1));
        }
        from += 1;
    }
    let mut to: usize = length;
    proof {
        assert(s@.skip(from as int) =~= s@.subrange(from as int, to as int));
    }
    while to > from && blank(s.get_char(to - 1))
        invariant
            length == s@.len(),
            from <= to <= length,
            trim_start(s@) == s@.skip(from as int),
            trimmed(s@) == trim_end(s@.subrange(from as int, to as int)),
        decreases to,
    {
        proof {
            assert(s@.subrange(from as int, to as int).drop_last() =~= s@.subrange(
                from as int,
                to as int - 1,
            ));
        }
        to -= 1;
    }
    s.substring_char(from, to)
}

/// The code of the small letter of a capital letter of the Latin alphabet;
/// of any other character, its own code.
pub open spec fn small(c: char) -> u32 {
    if 0x41 <= c as u32 <= 0x5a {
        (c as u32 + 32) as u32
    } else {
        c as u32
    }
}

/// Whether `s` is the word `word` but for the case of its Latin letters:
/// each character of `s`, made small, is the character of `word` at its place.
pub open spec fn reads_as(s: Seq<char>, word: Seq<char>) -> bool {
    &&& s.len() == word.len()
    &&& forall|i: int| 0 <= i < s.len() ==> small(#[trigger] s[i]) == word[i] as u32
}

/// Whether two texts are the same.
pub fn same_text(a: &str, b: &str) -> (r: bool)
    ensures
        r == (a@ == b@),
{
    let length = a.unicode_len();
    if length != b.unicode_len() {
        return false;
    }
    let mut at: usize = 0;
    while at < length
        invariant
            length == a@.len(),
            length == b@.len(),
            at <= length,
            a@.take(at as int) == b@.take(at as int),
        decreases length - at,
    {
        if a.get_char(at) != b.get_char(at) {
            return false;
        }
        proof {
            assert(a@.take(at as int + 1) =~= a@.take(at as int).push(a@[at as int]));
            assert(b@.take(at as int + 1) =~= b@.take(at as int).push(b@[at as int]));
        }
        at += 1;
    }
    proof {
        assert(a@.take(length as int) =~= a@);
        assert(b@.take(length as int) =~= b@);
    }
    true
}

/// Whether `s` is the word `word` but for the case of its Latin letters.
pub fn is_word(s: &str, word: &str) -> (r: bool)
    ensures
        r == reads_as(s@, word@),
{
    let length = s.unicode_len();
    if length != word.unicode_len() {
        return false;
    }
    let mut at: usize = 0;
    while at < length
        invariant
            length == s@.len(),
            length == word@.len(),
            at <= length,
            forall|i: int| 0 <= i < at ==> small(#[trigger] s@[i]) == word@[i] as u32,
        decreases length - at,
    {
        let n: u32 = s.get_char(at) as u32;
        let lower: u32 = if 0x41 <= n && n <= 0x5a {
            n + 32
        } else {
            n
        };
        if lower != word.get_char(at) as u32 {
            return false;
        }
        at += 1;
    }
    true
}

} // verus!
