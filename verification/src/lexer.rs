//! From source text to tokens: the text is cut at white space into words,
//! and every word is an opcode keyword, an integer literal, a label, or
//! nothing the assembler knows.

use crate::literal::{literal_at, literal_value};
use crate::op::Op;
use vstd::prelude::*;
use vstd::string::*;

verus! {

/// One word of source text, classified.
#[derive(Debug, Clone, PartialEq, Eq)]
pub enum Token {
    /// An opcode keyword.
    Op(Op),
    /// A signed decimal integer.
    Value(i64),
    /// A word that starts with `:`; the name is what follows the colon.
    Label(String),
    /// Any other word, kept as it was written.
    Unknown(String),
}

/// A token as the contracts see it, with its text as a sequence of
/// characters.
pub enum TokenView {
    Op(Op),
    Value(i64),
    Label(Seq<char>),
    Unknown(Seq<char>),
}

impl View for Token {
    type V = TokenView;

    open spec fn view(&self) -> TokenView {
        match self {
            Token::Op(op) => TokenView::Op(*op),
            Token::Value(v) => TokenView::Value(*v),
            Token::Label(name) => TokenView::Label(name@),
            Token::Unknown(text) => TokenView::Unknown(text@),
        }
    }
}

impl Token {
    /// A copy of the token.
    pub fn duplicate(&self) -> (copy: Token)
        ensures
            copy@ == self@,
    {
        match self {
            Token::Op(op) => Token::Op(*op),
            Token::Value(v) => Token::Value(*v),
            Token::Label(name) => Token::Label(name.clone()),
            Token::Unknown(text) => Token::Unknown(text.clone()),
        }
    }
}

/// The views of a sequence of tokens.
pub open spec fn token_views(tokens: Seq<Token>) -> Seq<TokenView> {
    tokens.map_values(|t: Token| t@)
}

/// Whether a character separates words: the answer of `char::is_whitespace`.
pub uninterp spec fn is_whitespace(c: char) -> bool;

/// Calls `char::is_whitespace`, which says whether Unicode counts a
/// character as white space. The answer depends on the character alone; the
/// contract gives it the name `is_whitespace` and claims nothing else about
/// it.
#[verifier::external_body]
fn char_is_whitespace(c: char) -> (blank: bool)
    ensures
        blank == is_whitespace(c),
{
    c.is_whitespace()
}

/// For every character of a text, whether it separates words.
pub open spec fn blank_mask(text: Seq<char>) -> Seq<bool> {
    text.map_values(|c: char| is_whitespace(c))
}

/// Whether position `i` holds a separator. Positions that the mask does not
/// reach hold none.
pub open spec fn blank_at(blank: Seq<bool>, i: int) -> bool {
    0 <= i < blank.len() && blank[i]
}

/// Whether a word starts at position `i`: a character that is no separator,
/// at the start of the text or behind a separator.
pub open spec fn word_starts_at(text: Seq<char>, blank: Seq<bool>, i: int) -> bool {
    0 <= i < text.len() && !blank_at(blank, i) && (i == 0 || blank_at(blank, i - 1))
}

/// Where the run of characters without a separator that holds position `i`
/// ends: the position of the next separator, or the end of the text.
pub open spec fn word_end(text: Seq<char>, blank: Seq<bool>, i: int) -> int
    decreases text.len() - i,
{
    if i < 0 || i >= text.len() || blank_at(blank, i) {
        i
    } else {
        word_end(text, blank, i + 1)
    }
}

/// The words that start at position `i` or behind it, in order.
pub open spec fn words_from(text: Seq<char>, blank: Seq<bool>, i: int) -> Seq<Seq<char>>
    decreases text.len() - i,
{
    if i < 0 || i >= text.len() {
        Seq::empty()
    } else if word_starts_at(text, blank, i) {
        seq![text.subrange(i, word_end(text, blank, i))] + words_from(text, blank, i + 1)
    } else {
        words_from(text, blank, i + 1)
    }
}

/// The words of a text: its maximal runs of characters without a separator.
pub open spec fn words(text: Seq<char>, blank: Seq<bool>) -> Seq<Seq<char>> {
    words_from(text, blank, 0)
}

/// The opcode that a word is the keyword of.
pub open spec fn keyword(word: Seq<char>) -> Option<Op> {
    if word == "pop"@ {
        Some(Op::Pop)
    } else if word == "add"@ {
        Some(Op::Add)
    } else if word == "inc"@ {
        Some(Op::Inc)
    } else if word == "dec"@ {
        Some(Op::Dec)
    } else if word == "sub"@ {
        Some(Op::Sub)
    } else if word == "mul"@ {
        Some(Op::Mul)
    } else if word == "div"@ {
        Some(Op::Div)
    } else if word == "mod"@ {
        Some(Op::Mod)
    } else if word == "print"@ {
        Some(Op::Print)
    } else if word == "halt"@ {
        Some(Op::Halt)
    } else if word == "dup"@ {
        Some(Op::Dup)
    } else if word == "dup2"@ {
        Some(Op::Dup2)
    } else if word == "swap"@ {
        Some(Op::Swap)
    } else if word == "clear"@ {
        Some(Op::Clear)
    } else if word == "over"@ {
        Some(Op::Over)
    } else if word == "push"@ {
        Some(Op::Push)
    } else if word == "je"@ {
        Some(Op::Je)
    } else if word == "jn"@ {
        Some(Op::Jn)
    } else if word == "jg"@ {
        Some(Op::Jg)
    } else if word == "jl"@ {
        Some(Op::Jl)
    } else if word == "jge"@ {
        Some(Op::Jge)
    } else if word == "jle"@ {
        Some(Op::Jle)
    } else if word == "jmp"@ {
        Some(Op::Jmp)
    } else if word == "jz"@ {
        Some(Op::Jz)
    } else if word == "jnz"@ {
        Some(Op::Jnz)
    } else {
        None
    }
}

/// The token that a word is. Keywords come first, then integer literals,
/// then labels.
pub open spec fn classify(word: Seq<char>) -> TokenView {
    match keyword(word) {
        Some(op) => TokenView::Op(op),
        None => match literal_value(word) {
            Some(v) => TokenView::Value(v),
            None => if word.len() > 0 && word[0] == ':' {
                TokenView::Label(word.skip(1))
            } else {
                TokenView::Unknown(word)
            },
        },
    }
}

/// The tokens of a sequence of words, or the first word among them that is
/// no token the assembler knows.
pub open spec fn classify_all(words: Seq<Seq<char>>) -> Result<Seq<TokenView>, Seq<char>>
    decreases words.len(),
{
    if words.len() == 0 {
        Ok(Seq::empty())
    } else {
        match classify_all(words.drop_last()) {
            Err(text) => Err(text),
            Ok(front) => match classify(words.last()) {
                TokenView::Unknown(text) => Err(text),
                token => Ok(front.push(token)),
            },
        }
    }
}

/// The tokens of a text whose separators are marked in `blank`, or the first
/// word that is no token.
pub open spec fn lex_spec(text: Seq<char>, blank: Seq<bool>) -> Result<Seq<TokenView>, Seq<char>> {
    classify_all(words(text, blank))
}

/// The tokens of a text that is cut at white space.
pub open spec fn tokenize_spec(text: Seq<char>) -> Result<Seq<TokenView>, Seq<char>> {
    lex_spec(text, blank_mask(text))
}

/// A run of characters without a separator ends behind its last character,
/// at a separator or at the end of the text.
pub proof fn lemma_word_end(text: Seq<char>, blank: Seq<bool>, i: int, j: int)
    requires
        0 <= i <= j <= text.len(),
        forall|k: int| i <= k < j ==> !blank_at(blank, k),
        j == text.len() || blank_at(blank, j),
    ensures
        word_end(text, blank, i) == j,
    decreases j - i,
{
    if i < j {
        lemma_word_end(text, blank, i + 1, j);
    }
}

/// No word starts inside a run of characters without a separator.
pub proof fn lemma_no_word_inside(text: Seq<char>, blank: Seq<bool>, i: int, j: int)
    requires
        0 < i <= j <= text.len(),
        forall|k: int| i - 1 <= k < j ==> !blank_at(blank, k),
    ensures
        words_from(text, blank, i) == words_from(text, blank, j),
    decreases j - i,
{
    if i < j {
        lemma_no_word_inside(text, blank, i + 1, j);
    }
}

/// Every word has at least one character.
pub proof fn lemma_words_not_empty(text: Seq<char>, blank: Seq<bool>, i: int)
    requires
        0 <= i,
    ensures
        forall|w: int|
            0 <= w < words_from(text, blank, i).len() ==> (#[trigger] words_from(
                text,
                blank,
                i,
            )[w]).len() > 0,
    decreases text.len() - i,
{
    if i < text.len() {
        lemma_words_not_empty(text, blank, i + 1);
        lemma_word_end_bounds(text, blank, i);
        let rest = words_from(text, blank, i + 1);
        let all = words_from(text, blank, i);
        assert forall|w: int| 0 <= w < all.len() implies (#[trigger] all[w]).len() > 0 by {
            if word_starts_at(text, blank, i) {
                if w > 0 {
                    assert(all[w] == rest[w - 1]);
                }
            } else {
                assert(all[w] == rest[w]);
            }
        }
    }
}

/// Where the separators are the white space of the text, no word holds a
/// white space character.
pub proof fn lemma_words_hold_no_white_space(text: Seq<char>, i: int)
    requires
        0 <= i,
    ensures
        forall|w: int, j: int|
            0 <= w < words_from(text, blank_mask(text), i).len() && 0 <= j < words_from(
                text,
                blank_mask(text),
                i,
            )[w].len() ==> !is_whitespace(#[trigger] words_from(text, blank_mask(text), i)[w][j]),
    decreases text.len() - i,
{
    let blank = blank_mask(text);
    if i < text.len() {
        lemma_words_hold_no_white_space(text, i + 1);
        lemma_word_end_bounds(text, blank, i);
        let rest = words_from(text, blank, i + 1);
        let all = words_from(text, blank, i);
        assert forall|w: int, j: int| 0 <= w < all.len() && 0 <= j < all[w].len() implies !is_whitespace(
            #[trigger] all[w][j],
        ) by {
            if word_starts_at(text, blank, i) {
                if w > 0 {
                    assert(all[w] == rest[w - 1]);
                } else {
                    assert(all[0] == text.subrange(i, word_end(text, blank, i)));
                    assert(!blank_at(blank, i + j));
                    assert(blank[i + j] == is_whitespace(text[i + j]));
                }
            } else {
                assert(all[w] == rest[w]);
            }
        }
    }
}

/// The run that holds position `i` ends at or behind `i` and inside the
/// text, behind `i` where `i` holds no separator, and no position from `i`
/// up to its end holds a separator.
pub proof fn lemma_word_end_bounds(text: Seq<char>, blank: Seq<bool>, i: int)
    requires
        0 <= i <= text.len(),
    ensures
        i <= word_end(text, blank, i) <= text.len(),
        i < text.len() && !blank_at(blank, i) ==> i < word_end(text, blank, i),
        forall|j: int| i <= j < word_end(text, blank, i) ==> !blank_at(blank, j),
        word_end(text, blank, i) == text.len() || blank_at(blank, word_end(text, blank, i)),
    decreases text.len() - i,
{
    if i < text.len() && !blank_at(blank, i) {
        lemma_word_end_bounds(text, blank, i + 1);
    }
}

/// Once a word has failed to classify, the words behind it do not change the
/// outcome.
pub proof fn lemma_classify_all_fails_on(front: Seq<Seq<char>>, rest: Seq<Seq<char>>)
    requires
        classify_all(front) is Err,
    ensures
        classify_all(front + rest) == classify_all(front),
    decreases rest.len(),
{
    if rest.len() == 0 {
        assert(front + rest =~= front);
    } else {
        lemma_classify_all_fails_on(front, rest.drop_last());
        assert((front + rest).drop_last() =~= front + rest.drop_last());
    }
}

/// A text lexes exactly where none of its words is unknown, and then every
/// word has become one token, in order.
pub proof fn lemma_classify_all_shape(words: Seq<Seq<char>>)
    ensures
        classify_all(words) is Ok <==> forall|k: int|
            0 <= k < words.len() ==> !(classify(#[trigger] words[k]) is Unknown),
        classify_all(words) matches Ok(tokens) ==> tokens == words.map_values(
            |w: Seq<char>| classify(w),
        ),
    decreases words.len(),
{
    if words.len() > 0 {
        let front = words.drop_last();
        lemma_classify_all_shape(front);
        if classify_all(words) is Ok {
            assert forall|k: int| 0 <= k < words.len() implies !(classify(#[trigger] words[k])
                is Unknown) by {
                if k < words.len() - 1 {
                    assert(words[k] == front[k]);
                }
            }
            assert(classify_all(words)->Ok_0 =~= words.map_values(|w: Seq<char>| classify(w)));
        } else {
            if classify_all(front) is Ok {
                assert(classify(words[words.len() - 1]) is Unknown);
            } else {
                let k = choose|k: int| 0 <= k < front.len() && classify(#[trigger] front[k]) is Unknown;
                assert(words[k] == front[k]);
            }
        }
    } else {
        assert(classify_all(words)->Ok_0 =~= words.map_values(|w: Seq<char>| classify(w)));
    }
}

/// The characters of a text, one by one.
pub fn to_chars(text: &str) -> (chars: Vec<char>)
    ensures
        chars@ == text@,
{
    let mut chars: Vec<char> = Vec::new();
    for c in it: text.chars()
        invariant
            chars@ == it.seq().take(it.index() as int),
    {
        chars.push(c);
    }
    chars
}

/// Whether the characters from `start` up to `end` spell `literal`.
fn word_is(chars: &Vec<char>, start: usize, end: usize, literal: &str) -> (same: bool)
    requires
        start <= end <= chars.len(),
    ensures
        same == (chars@.subrange(start as int, end as int) == literal@),
{
    let n: usize = literal.unicode_len();
    if n != end - start {
        return false;
    }
    let mut k: usize = 0;
    while k < n
        invariant
            k <= n,
            n == end - start,
            n == literal@.len(),
            start <= end <= chars.len(),
            forall|j: int| 0 <= j < k ==> chars@[start + j] == literal@[j],
        decreases n - k,
    {
        if chars[start + k] != literal.get_char(k) {
            assert(chars@.subrange(start as int, end as int)[k as int] != literal@[k as int]);
            return false;
        }
        k = k + 1;
    }
    assert(chars@.subrange(start as int, end as int) =~= literal@);
    true
}

/// The opcode whose keyword the characters from `start` up to `end` spell.
fn keyword_at(chars: &Vec<char>, start: usize, end: usize) -> (op: Option<Op>)
    requires
        start <= end <= chars.len(),
    ensures
        op == keyword(chars@.subrange(start as int, end as int)),
{
    if word_is(chars, start, end, "pop") {
        Some(Op::Pop)
    } else if word_is(chars, start, end, "add") {
        Some(Op::Add)
    } else if word_is(chars, start, end, "inc") {
        Some(Op::Inc)
    } else if word_is(chars, start, end, "dec") {
        Some(Op::Dec)
    } else if word_is(chars, start, end, "sub") {
        Some(Op::Sub)
    } else if word_is(chars, start, end, "mul") {
        Some(Op::Mul)
    } else if word_is(chars, start, end, "div") {
        Some(Op::Div)
    } else if word_is(chars, start, end, "mod") {
        Some(Op::Mod)
    } else if word_is(chars, start, end, "print") {
        Some(Op::Print)
    } else if word_is(chars, start, end, "halt") {
        Some(Op::Halt)
    } else if word_is(chars, start, end, "dup") {
        Some(Op::Dup)
    } else if word_is(chars, start, end, "dup2") {
        Some(Op::Dup2)
    } else if word_is(chars, start, end, "swap") {
        Some(Op::Swap)
    } else if word_is(chars, start, end, "clear") {
        Some(Op::Clear)
    } else if word_is(chars, start, end, "over") {
        Some(Op::Over)
    } else if word_is(chars, start, end, "push") {
        Some(Op::Push)
    } else if word_is(chars, start, end, "je") {
        Some(Op::Je)
    } else if word_is(chars, start, end, "jn") {
        Some(Op::Jn)
    } else if word_is(chars, start, end, "jg") {
        Some(Op::Jg)
    } else if word_is(chars, start, end, "jl") {
        Some(Op::Jl)
    } else if word_is(chars, start, end, "jge") {
        Some(Op::Jge)
    } else if word_is(chars, start, end, "jle") {
        Some(Op::Jle)
    } else if word_is(chars, start, end, "jmp") {
        Some(Op::Jmp)
    } else if word_is(chars, start, end, "jz") {
        Some(Op::Jz)
    } else if word_is(chars, start, end, "jnz") {
        Some(Op::Jnz)
    } else {
        None
    }
}

/// The text of the characters from `start` up to `end`, as a string of its
/// own.
fn text_at(text: &str, start: usize, end: usize) -> (owned: String)
    requires
        start <= end <= text@.len(),
    ensures
        owned@ == text@.subrange(start as int, end as int),
{
    text.substring_char(start, end).to_owned()
}

/// Classifies the word that runs from `start` up to `end`.
fn token_at(text: &str, chars: &Vec<char>, start: usize, end: usize) -> (token: Token)
    requires
        chars@ == text@,
        start < end <= chars.len(),
    ensures
        token@ == classify(chars@.subrange(start as int, end as int)),
{
    let ghost word = chars@.subrange(start as int, end as int);
    match keyword_at(chars, start, end) {
        Some(op) => Token::Op(op),
        None => match literal_at(chars, start, end) {
            Some(v) => Token::Value(v),
            None => {
                assert(word[0] == chars@[start as int]);
                if chars[start] == ':' {
                    assert(word.skip(1) =~= chars@.subrange(start + 1, end as int));
                    Token::Label(text_at(text, start + 1, end))
                } else {
                    Token::Unknown(text_at(text, start, end))
                }
            },
        },
    }
}

/// The work of `lex`, on the characters of the text.
fn lex_chars(text: &str, chars: &Vec<char>, blank: &Vec<bool>) -> (result: Result<
    Vec<Token>,
    String,
>)
    requires
        chars@ == text@,
    ensures
        match result {
            Ok(tokens) => lex_spec(text@, blank@) == Ok::<Seq<TokenView>, Seq<char>>(
                token_views(tokens@),
            ),
            Err(word) => lex_spec(text@, blank@) == Err::<Seq<TokenView>, Seq<char>>(word@),
        },
{
    let n: usize = chars.len();
    let mut tokens: Vec<Token> = Vec::new();
    let ghost mut done: Seq<Seq<char>> = Seq::empty();
    let mut i: usize = 0;
    proof {
        assert(token_views(tokens@) =~= Seq::<TokenView>::empty());
        assert(done + words_from(text@, blank@, 0) =~= words(text@, blank@));
    }
    while i < n
        invariant
            i <= n,
            n == chars@.len(),
            chars@ == text@,
            i == 0 || i == n || blank_at(blank@, i - 1) || blank_at(blank@, i as int),
            words(text@, blank@) == done + words_from(text@, blank@, i as int),
            classify_all(done) == Ok::<Seq<TokenView>, Seq<char>>(token_views(tokens@)),
        decreases n - i,
    {
        if i < blank.len() && blank[i] {
            i = i + 1;
        } else {
            let start: usize = i;
            let mut end: usize = i + 1;
            while end < n && !(end < blank.len() && blank[end])
                invariant
                    start < end <= n,
                    n == chars@.len(),
                    forall|k: int| start <= k < end ==> !blank_at(blank@, k),
                decreases n - end,
            {
                end = end + 1;
            }
            let ghost word = text@.subrange(start as int, end as int);
            proof {
                lemma_word_end(text@, blank@, start as int, end as int);
                lemma_no_word_inside(text@, blank@, start + 1, end as int);
                assert(word_starts_at(text@, blank@, start as int));
                assert(words_from(text@, blank@, start as int) == seq![word] + words_from(
                    text@,
                    blank@,
                    end as int,
                ));
                assert(words(text@, blank@) =~= done.push(word) + words_from(
                    text@,
                    blank@,
                    end as int,
                ));
                assert(done.push(word).drop_last() =~= done);
            }
            let token: Token = token_at(text, chars, start, end);
            match token {
                Token::Unknown(unknown) => {
                    proof {
                        lemma_classify_all_fails_on(
                            done.push(word),
                            words_from(text@, blank@, end as int),
                        );
                    }
                    return Err(unknown);
                },
                known => {
                    proof {
                        assert(token_views(tokens@.push(known)) =~= token_views(tokens@).push(
                            known@,
                        ));
                        done = done.push(word);
                    }
                    tokens.push(known);
                },
            }
            i = end;
        }
    }
    proof {
        assert(done + words_from(text@, blank@, i as int) =~= done);
    }
    Ok(tokens)
}

/// Cuts `text` into words at the positions that `blank` marks and
/// classifies them. Positions behind the end of `blank` count as unmarked.
/// `Ok` exactly where every word is a keyword, an integer literal or a
/// label; the error is the first word that is none of them.
pub fn lex(text: &str, blank: &Vec<bool>) -> (result: Result<Vec<Token>, String>)
    ensures
        match result {
            Ok(tokens) => lex_spec(text@, blank@) == Ok::<Seq<TokenView>, Seq<char>>(
                token_views(tokens@),
            ),
            Err(word) => lex_spec(text@, blank@) == Err::<Seq<TokenView>, Seq<char>>(word@),
        },
{
    let chars: Vec<char> = to_chars(text);
    lex_chars(text, &chars, blank)
}

/// Cuts source text into words at white space and classifies them. `Ok`
/// exactly where every word is a keyword, an integer literal or a label;
/// the error is the first word that is none of them.
pub fn tokenize(content: &str) -> (result: Result<Vec<Token>, String>)
    ensures
        match result {
            Ok(tokens) => tokenize_spec(content@) == Ok::<Seq<TokenView>, Seq<char>>(
                token_views(tokens@),
            ),
            Err(word) => tokenize_spec(content@) == Err::<Seq<TokenView>, Seq<char>>(word@),
        },
{
    let chars: Vec<char> = to_chars(content);
    let mut blank: Vec<bool> = Vec::new();
    let mut i: usize = 0;
    while i < chars.len()
        invariant
            i <= chars.len(),
            blank@ =~= blank_mask(chars@.take(i as int)),
        decreases chars.len() - i,
    {
        blank.push(char_is_whitespace(chars[i]));
        i = i + 1;
    }
    assert(chars@.take(i as int) =~= chars@);
    lex_chars(content, &chars, &blank)
}

} // verus!
