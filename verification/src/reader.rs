//! Reading expressions from a program text.

use vstd::prelude::*;
use crate::expr::{lemma_list_value, values_of, Expr, Sexp, Value, E};
use crate::text::{same_text, texts_of};
use crate::token::{
    split_words, token_values, tokenize, tokenize_spec, words_of, Token, TokenError, TokenValue,
};

verus! {

/// Why a text is no expression.
#[derive(Clone, Copy, Debug, PartialEq, Eq, Structural)]
pub enum ReadError {
    /// The text has no tokens. Only `read` fails so.
    Token(TokenError),
    /// A closing bracket has no opening bracket before it.
    UnexpectedClose,
    /// The text ends inside a list.
    UnclosedList,
    /// The text holds no expression.
    NoExpression,
    /// The text holds more than one expression.
    TrailingExpression,
}

/// The lists that are open while a text is read, the outermost first. The
/// first holds the expressions that are complete and inside no list.
pub type Stack = Seq<Seq<Value>>;

/// The stack with `v` added to the innermost open list.
pub open spec fn with_item(stack: Stack, v: Value) -> Stack {
    if stack.len() == 0 {
        stack
    } else {
        stack.drop_last().push(stack.last().push(v))
    }
}

/// The stack after one more word: an opening bracket opens a list, a closing
/// bracket completes the innermost open list, any other word is an atom.
pub open spec fn read_step(stack: Stack, word: Seq<char>) -> Result<Stack, ReadError> {
    if word == "("@ {
        Ok(stack.push(Seq::empty()))
    } else if word == ")"@ {
        if stack.len() <= 1 {
            Err(ReadError::UnexpectedClose)
        } else {
            Ok(with_item(stack.drop_last(), Sexp::List(stack.last())))
        }
    } else {
        Ok(with_item(stack, Sexp::Atom(word)))
    }
}

/// The stack after the words of `words`, in order; the first failure ends it.
pub open spec fn read_words(stack: Stack, words: Seq<Seq<char>>) -> Result<Stack, ReadError>
    decreases words.len(),
{
    if words.len() == 0 {
        Ok(stack)
    } else {
        match read_words(stack, words.drop_last()) {
            Err(e) => Err(e),
            Ok(s) => read_step(s, words.last()),
        }
    }
}

/// The expressions that a sequence of words holds, in order.
pub open spec fn parse_words_spec(words: Seq<Seq<char>>) -> Result<Seq<Value>, ReadError> {
    match read_words(seq![Seq::<Value>::empty()], words) {
        Err(e) => Err(e),
        Ok(stack) => if stack.len() == 1 {
            Ok(stack[0])
        } else {
            Err(ReadError::UnclosedList)
        },
    }
}

/// The one expression among `found`, which has to hold no other.
pub open spec fn the_one(found: Seq<Value>) -> Result<Value, ReadError> {
    if found.len() == 0 {
        Err(ReadError::NoExpression)
    } else if found.len() > 1 {
        Err(ReadError::TrailingExpression)
    } else {
        Ok(found[0])
    }
}

/// The one expression that a text holds, where every word that is no bracket
/// is an atom.
pub open spec fn parse_spec(text: Seq<char>) -> Result<Value, ReadError> {
    match parse_words_spec(words_of(text)) {
        Err(e) => Err(e),
        Ok(found) => the_one(found),
    }
}

/// The words of a sequence of tokens, in order.
pub open spec fn token_words(tokens: Seq<TokenValue>) -> Seq<Seq<char>> {
    Seq::new(tokens.len(), |i: int| tokens[i].value)
}

/// The one expression that a text holds, where every word has to become a
/// token.
pub open spec fn read_spec(text: Seq<char>) -> Result<Value, ReadError> {
    match tokenize_spec(text) {
        Err(e) => Err(ReadError::Token(e)),
        Ok(tokens) => match parse_words_spec(token_words(tokens)) {
            Err(e) => Err(e),
            Ok(found) => the_one(found),
        },
    }
}

/// The values of the lists on a stack.
pub open spec fn stack_value(stack: Seq<Vec<E>>) -> Stack {
    Seq::new(stack.len(), |i: int| values_of(stack[i]@))
}

/// A failure at one word is the failure of every longer run of words.
proof fn lemma_failure_stays(stack: Stack, words: Seq<Seq<char>>, n: int)
    requires
        0 <= n <= words.len(),
        read_words(stack, words.take(n)) is Err,
    ensures
        read_words(stack, words) == read_words(stack, words.take(n)),
    decreases words.len(),
{
    if n < words.len() {
        assert(words.drop_last().take(n) =~= words.take(n));
        lemma_failure_stays(stack, words.drop_last(), n);
    } else {
        assert(words.take(n) =~= words);
    }
}

/// The value of a result that holds expressions.
pub open spec fn exprs_value(r: Result<Vec<E>, ReadError>) -> Result<Seq<Value>, ReadError> {
    match r {
        Ok(found) => Ok(values_of(found@)),
        Err(e) => Err(e),
    }
}

/// The expressions that a sequence of words holds, in order.
pub fn parse_words(words: &Vec<String>) -> (r: Result<Vec<E>, ReadError>)
    ensures
        exprs_value(r) == parse_words_spec(texts_of(words@)),
{
    let ghost texts = texts_of(words@);
    let mut stack: Vec<Vec<E>> = Vec::new();
    let outermost: Vec<E> = Vec::new();
    assert(values_of(outermost@) =~= Seq::<Value>::empty());
    stack.push(outermost);
    assert(stack_value(stack@) =~= seq![Seq::<Value>::empty()]);
    let mut i: usize = 0;
    while i < words.len()
        invariant
            i <= words.len(),
            texts == texts_of(words@),
            stack.len() >= 1,
            read_words(seq![Seq::<Value>::empty()], texts.take(i as int)) == Ok::<
                Stack,
                ReadError,
            >(stack_value(stack@)),
        decreases words.len() - i,
    {
        let word = words[i].as_str();
        let ghost before = stack_value(stack@);
        proof {
            assert(texts.take(i + 1).drop_last() =~= texts.take(i as int));
            assert(texts.take(i + 1).last() == word@);
        }
        if same_text(word, "(") {
            let opened: Vec<E> = Vec::new();
            assert(values_of(opened@) =~= Seq::<Value>::empty());
            stack.push(opened);
            assert(stack_value(stack@) =~= before.push(Seq::empty()));
        } else if same_text(word, ")") {
            if stack.len() <= 1 {
                proof {
                    lemma_failure_stays(seq![Seq::<Value>::empty()], texts, i + 1);
                }
                return Err(ReadError::UnexpectedClose);
            }
            let items = stack.pop().unwrap();
            let mut top = stack.pop().unwrap();
            let list = Expr::List(items);
            proof {
                lemma_list_value(items);
                assert(values_of(top@.push(list)) =~= values_of(top@).push(list@));
            }
            top.push(list);
            stack.push(top);
            assert(stack_value(stack@) =~= with_item(
                before.drop_last(),
                Sexp::List(before.last()),
            ));
        } else {
            let mut top = stack.pop().unwrap();
            let atom = Expr::Atom(words[i].clone());
            proof {
                assert(values_of(top@.push(atom)) =~= values_of(top@).push(atom@));
            }
            top.push(atom);
            stack.push(top);
            assert(stack_value(stack@) =~= with_item(before, Sexp::Atom(word@)));
        }
        i += 1;
    }
    proof {
        assert(texts.take(i as int) =~= texts);
    }
    if stack.len() != 1 {
        Err(ReadError::UnclosedList)
    } else {
        Ok(stack.pop().unwrap())
    }
}

/// The expressions that a sequence of tokens holds, in order.
pub fn parse_tokens(tokens: &Vec<Token>) -> (r: Result<Vec<E>, ReadError>)
    ensures
        exprs_value(r) == parse_words_spec(token_words(token_values(tokens@))),
{
    let mut words: Vec<String> = Vec::new();
    let mut i: usize = 0;
    while i < tokens.len()
        invariant
            i <= tokens.len(),
            words.len() == i,
            forall|j: int| 0 <= j < i ==> (#[trigger] words[j])@ == tokens[j].value@,
        decreases tokens.len() - i,
    {
        words.push(tokens[i].value.clone());
        i += 1;
    }
    assert(texts_of(words@) =~= token_words(token_values(tokens@)));
    parse_words(&words)
}

/// The value of a result that holds an expression.
pub open spec fn read_value(r: Result<E, ReadError>) -> Result<Value, ReadError> {
    match r {
        Ok(e) => Ok(e@),
        Err(x) => Err(x),
    }
}

/// The one expression among `found`, which has to hold no other.
pub fn only(found: Vec<E>) -> (r: Result<E, ReadError>)
    ensures
        read_value(r) == the_one(values_of(found@)),
{
    let mut found = found;
    if found.len() == 0 {
        Err(ReadError::NoExpression)
    } else if found.len() > 1 {
        Err(ReadError::TrailingExpression)
    } else {
        Ok(found.pop().unwrap())
    }
}

/// Reads the one expression that a text holds. Every word that is no bracket
/// is an atom.
pub fn parse(program: &str) -> (r: Result<E, ReadError>)
    ensures
        read_value(r) == parse_spec(program@),
{
    let words = split_words(program);
    match parse_words(&words) {
        Err(e) => Err(e),
        Ok(found) => only(found),
    }
}

/// Reads the one expression that a text holds. Every word has to become a
/// token: a text with a word of no kind is refused.
pub fn read(text: &str) -> (r: Result<E, ReadError>)
    ensures
        read_value(r) == read_spec(text@),
{
    match tokenize(text) {
        Err(e) => Err(ReadError::Token(e)),
        Ok(tokens) => match parse_tokens(&tokens) {
            Err(e) => Err(e),
            Ok(found) => only(found),
        },
    }
}

} // verus!
