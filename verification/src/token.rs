//! Words and tokens of a program text.

use vstd::prelude::*;
use crate::pattern::{pattern_compiles, pattern_matches, search};
use crate::text::{same_text, texts_of};

verus! {

/// Whether `c` is white space: a character with the Unicode property
/// `White_Space`.
pub open spec fn is_space(c: char) -> bool {
    let n = c as u32;
    ||| 0x09 <= n <= 0x0D
    ||| n == 0x20
    ||| n == 0x85
    ||| n == 0xA0
    ||| n == 0x1680
    ||| 0x2000 <= n <= 0x200A
    ||| n == 0x2028
    ||| n == 0x2029
    ||| n == 0x202F
    ||| n == 0x205F
    ||| n == 0x3000
}

/// Whether `c` is a round bracket.
pub open spec fn is_paren(c: char) -> bool {
    c == '(' || c == ')'
}

/// Whether `c` is white space.
pub fn is_whitespace(c: char) -> (r: bool)
    ensures
        r == is_space(c),
{
    let n: u32 = c as u32;
    (0x09 <= n && n <= 0x0D) || n == 0x20 || n == 0x85 || n == 0xA0 || n == 0x1680 || (0x2000 <= n
        && n <= 0x200A) || n == 0x2028 || n == 0x2029 || n == 0x202F || n == 0x205F || n
        == 0x3000
}

/// Where the splitting of a text stands: the words that are complete, and
/// the characters of the word that is not.
pub struct Split {
    pub words: Seq<Seq<char>>,
    pub word: Seq<char>,
}

impl Split {
    /// Nothing read yet.
    pub open spec fn start() -> Split {
        Split { words: Seq::empty(), word: Seq::empty() }
    }

    /// The words with the one in progress completed, if it has a character.
    pub open spec fn flushed(self) -> Seq<Seq<char>> {
        if self.word.len() == 0 {
            self.words
        } else {
            self.words.push(self.word)
        }
    }

    /// The state after one more character: a bracket ends the word in
    /// progress and is a word by itself, white space ends the word in
    /// progress, any other character belongs to it.
    pub open spec fn step(self, c: char) -> Split {
        if is_paren(c) {
            Split { words: self.flushed().push(seq![c]), word: Seq::empty() }
        } else if is_space(c) {
            Split { words: self.flushed(), word: Seq::empty() }
        } else {
            Split { words: self.words, word: self.word.push(c) }
        }
    }

    /// The state after the characters of `text`, in order.
    pub open spec fn scan(self, text: Seq<char>) -> Split
        decreases text.len(),
    {
        if text.len() == 0 {
            self
        } else {
            self.scan(text.drop_last()).step(text.last())
        }
    }
}

/// The words of a text: each bracket by itself, and each longest run of
/// characters that are neither brackets nor white space.
pub open spec fn words_of(text: Seq<char>) -> Seq<Seq<char>> {
    Split::start().scan(text).flushed()
}

/// `String::push` appends the character to the end of the string.
pub assume_specification[ String::push ](s: &mut String, c: char)
    ensures
        final(s)@ == old(s)@.push(c),
;

/// Splits a text into its words.
pub fn split_words(input: &str) -> (r: Vec<String>)
    ensures
        texts_of(r@) == words_of(input@),
{
    let mut words: Vec<String> = Vec::new();
    let mut word: String = String::new();
    assert(texts_of(words@) =~= Seq::<Seq<char>>::empty());
    for c in it: input.chars()
        invariant
            it.seq() == input@,
            Split::start().scan(input@.take(it.index() as int)) == (Split {
                words: texts_of(words@),
                word: word@,
            }),
    {
        proof {
            assert(input@.take(it.index() + 1).drop_last() =~= input@.take(it.index() as int));
        }
        let ends_word = c == '(' || c == ')' || is_whitespace(c);
        if ends_word {
            if !word.as_str().is_empty() {
                proof {
                    assert(texts_of(words@.push(word)) =~= texts_of(words@).push(word@));
                }
                words.push(word);
                word = String::new();
            }
            if c == '(' || c == ')' {
                let mut bracket = String::new();
                bracket.push(c);
                proof {
                    assert(bracket@ =~= seq![c]);
                    assert(texts_of(words@.push(bracket)) =~= texts_of(words@).push(bracket@));
                }
                words.push(bracket);
            }
        } else {
            word.push(c);
        }
    }
    proof {
        assert(input@.take(input@.len() as int) =~= input@);
    }
    if !word.as_str().is_empty() {
        proof {
            assert(texts_of(words@.push(word)) =~= texts_of(words@).push(word@));
        }
        words.push(word);
    }
    words
}

/// A word of a program text with the name of its kind: `paren`, `number`,
/// `name` or `punctuation`.
#[derive(Debug)]
pub struct Token {
    pub name: &'static str,
    pub value: String,
}

/// A token as a pair of character sequences.
pub struct TokenValue {
    pub name: Seq<char>,
    pub value: Seq<char>,
}

impl View for Token {
    type V = TokenValue;

    open spec fn view(&self) -> TokenValue {
        TokenValue { name: self.name@, value: self.value@ }
    }
}

/// Why a text has no tokens.
#[derive(Clone, Copy, Debug, PartialEq, Eq, Structural)]
pub enum TokenError {
    /// One of the patterns by which words are told apart was rejected.
    PatternRejected,
    /// A word is of no kind.
    InvalidWord,
}

/// What becomes of a word.
pub enum WordClass {
    /// It is a token with this name.
    Kind(Seq<char>),
    /// It is left out.
    Skipped,
    /// It is of no kind.
    Invalid,
}

/// What becomes of a word that is no bracket, given which of the patterns
/// match in it. The first that matches decides: white space, a digit, a
/// letter, an asterisk.
pub open spec fn class_by(space: bool, digit: bool, letter: bool, star: bool) -> WordClass {
    if space {
        WordClass::Skipped
    } else if digit {
        WordClass::Kind("number"@)
    } else if letter {
        WordClass::Kind("name"@)
    } else if star {
        WordClass::Kind("punctuation"@)
    } else {
        WordClass::Invalid
    }
}

/// What becomes of a word.
pub open spec fn class_of(word: Seq<char>) -> WordClass {
    if word == "("@ || word == ")"@ {
        WordClass::Kind("paren"@)
    } else {
        class_by(
            pattern_matches("\\s"@, word),
            pattern_matches("[0-9]"@, word),
            pattern_matches("[a-zA-Z]"@, word),
            pattern_matches("\\*"@, word),
        )
    }
}

/// Whether the four patterns by which words are told apart are accepted.
pub open spec fn patterns_compile() -> bool {
    &&& pattern_compiles("\\s"@)
    &&& pattern_compiles("[0-9]"@)
    &&& pattern_compiles("[a-zA-Z]"@)
    &&& pattern_compiles("\\*"@)
}

/// The tokens of the first `n` words, in order; the first word of no kind
/// makes it fail.
pub open spec fn tokens_of(words: Seq<Seq<char>>, n: nat) -> Result<Seq<TokenValue>, TokenError>
    decreases n,
{
    if n == 0 || n > words.len() {
        Ok(Seq::empty())
    } else {
        match tokens_of(words, (n - 1) as nat) {
            Err(e) => Err(e),
            Ok(tokens) => match class_of(words[n - 1]) {
                WordClass::Kind(name) => Ok(tokens.push(TokenValue { name, value: words[n - 1] })),
                WordClass::Skipped => Ok(tokens),
                WordClass::Invalid => Err(TokenError::InvalidWord),
            },
        }
    }
}

/// A failure at one word is the failure of every longer run of words.
proof fn lemma_failure_stays(words: Seq<Seq<char>>, n: nat, m: nat)
    requires
        n <= m <= words.len(),
        tokens_of(words, n) is Err,
    ensures
        tokens_of(words, m) == tokens_of(words, n),
    decreases m,
{
    if n < m {
        lemma_failure_stays(words, n, (m - 1) as nat);
    }
}

/// The tokens of a text.
pub open spec fn tokenize_spec(text: Seq<char>) -> Result<Seq<TokenValue>, TokenError> {
    if !patterns_compile() {
        Err(TokenError::PatternRejected)
    } else {
        tokens_of(words_of(text), words_of(text).len())
    }
}

/// The views of a sequence of tokens, in order.
pub open spec fn token_values(tokens: Seq<Token>) -> Seq<TokenValue> {
    Seq::new(tokens.len(), |i: int| tokens[i]@)
}

/// The value of a result of `tokenize`.
pub open spec fn tokens_value(r: Result<Vec<Token>, TokenError>) -> Result<
    Seq<TokenValue>,
    TokenError,
> {
    match r {
        Ok(tokens) => Ok(token_values(tokens@)),
        Err(e) => Err(e),
    }
}

/// The token that a word which is no bracket becomes, given which of the
/// patterns match in it: `Ok(None)` where the word is left out.
pub fn classify(word: String, space: bool, digit: bool, letter: bool, star: bool) -> (r: Result<
    Option<Token>,
    TokenError,
>)
    ensures
        match class_by(space, digit, letter, star) {
            WordClass::Kind(name) => r matches Ok(Some(t)) && t@ == (TokenValue {
                name,
                value: word@,
            }),
            WordClass::Skipped => r matches Ok(None),
            WordClass::Invalid => r == Err::<Option<Token>, TokenError>(TokenError::InvalidWord),
        },
{
    if space {
        Ok(None)
    } else if digit {
        Ok(Some(Token { name: "number", value: word }))
    } else if letter {
        Ok(Some(Token { name: "name", value: word }))
    } else if star {
        Ok(Some(Token { name: "punctuation", value: word }))
    } else {
        Err(TokenError::InvalidWord)
    }
}

/// Whether the four patterns by which words are told apart are accepted.
pub fn patterns_accepted() -> (r: bool)
    ensures
        r == patterns_compile(),
{
    search("\\s", "").is_some() && search("[0-9]", "").is_some() && search(
        "[a-zA-Z]",
        "",
    ).is_some() && search("\\*", "").is_some()
}

/// Whether the patterns are accepted and `word` becomes a token.
pub fn word_is_token(word: &str) -> (r: bool)
    ensures
        r == (patterns_compile() && class_of(word@) is Kind),
{
    if same_text(word, "(") || same_text(word, ")") {
        patterns_accepted()
    } else {
        let space = search("\\s", word);
        let digit = search("[0-9]", word);
        let letter = search("[a-zA-Z]", word);
        let star = search("\\*", word);
        match (space, digit, letter, star) {
            (Some(space), Some(digit), Some(letter), Some(star)) => !space && (digit || letter
                || star),
            _ => false,
        }
    }
}

/// Turns a text into its tokens.
pub fn tokenize(input: &str) -> (r: Result<Vec<Token>, TokenError>)
    ensures
        tokens_value(r) == tokenize_spec(input@),
{
    if !patterns_accepted() {
        return Err(TokenError::PatternRejected);
    }
    let words = split_words(input);
    let ghost texts = texts_of(words@);
    let mut tokens: Vec<Token> = Vec::new();
    assert(token_values(tokens@) =~= Seq::<TokenValue>::empty());
    let mut i: usize = 0;
    while i < words.len()
        invariant
            i <= words.len(),
            texts == texts_of(words@),
            texts == words_of(input@),
            patterns_compile(),
            tokens_of(texts, i as nat) == Ok::<Seq<TokenValue>, TokenError>(
                token_values(tokens@),
            ),
        decreases words.len() - i,
    {
        let word = words[i].clone();
        let text = word.as_str();
        if same_text(text, "(") || same_text(text, ")") {
            let token = Token { name: "paren", value: word };
            proof {
                assert(token_values(tokens@.push(token)) =~= token_values(tokens@).push(token@));
            }
            tokens.push(token);
        } else {
            let space = search("\\s", text);
            let digit = search("[0-9]", text);
            let letter = search("[a-zA-Z]", text);
            let star = search("\\*", text);
            match classify(word, space.unwrap(), digit.unwrap(), letter.unwrap(), star.unwrap()) {
                Err(e) => {
                    proof {
                        lemma_failure_stays(texts, (i + 1) as nat, texts.len());
                    }
                    return Err(e);
                },
                Ok(None) => {},
                Ok(Some(token)) => {
                    proof {
                        assert(token_values(tokens@.push(token)) =~= token_values(tokens@).push(
                            token@,
                        ));
                    }
                    tokens.push(token);
                },
            }
        }
        i += 1;
    }
    Ok(tokens)
}

} // verus!
