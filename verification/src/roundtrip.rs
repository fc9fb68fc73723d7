//! Reading the written form of an expression gives the expression back,
//! where each of its atoms can be written as one word.

use vstd::prelude::*;
use crate::expr::{lemma_list_value, values_of, Expr, Sexp, Value, E};
use crate::reader::{
    parse_spec, read_spec, read_step, read_words, token_words, with_item, ReadError, Stack,
};
use crate::render::{render_items, render_spec};
use crate::token::{
    class_of, is_paren, is_space, is_whitespace, patterns_accepted, patterns_compile, tokens_of,
    word_is_token, words_of, Split, TokenError, TokenValue,
};

verus! {

/// Whether `w` can be written as one word: it has a character, and none of
/// its characters is white space or a bracket.
pub open spec fn plain_word(w: Seq<char>) -> bool {
    &&& w.len() > 0
    &&& forall|i: int| 0 <= i < w.len() ==> !is_space(#[trigger] w[i]) && !is_paren(w[i])
}

/// Whether every atom in `e` can be written as one word.
pub open spec fn plain(e: Value) -> bool
    decreases e,
{
    match e {
        Sexp::Atom(name) => plain_word(name),
        Sexp::List(items) => forall|i: int| 0 <= i < items.len() ==> plain(#[trigger] items[i]),
    }
}

/// Whether `w` is a word that becomes a token.
pub open spec fn readable_atom(w: Seq<char>) -> bool {
    plain_word(w) && class_of(w) is Kind
}

/// Whether every atom in `e` is a word that becomes a token.
pub open spec fn readable(e: Value) -> bool
    decreases e,
{
    match e {
        Sexp::Atom(name) => readable_atom(name),
        Sexp::List(items) => forall|i: int| 0 <= i < items.len() ==> readable(#[trigger] items[i]),
    }
}

/// An expression whose atoms become tokens is one whose atoms can be written
/// as one word each.
pub proof fn lemma_readable_is_plain(e: Value)
    requires
        readable(e),
    ensures
        plain(e),
    decreases e,
{
    match e {
        Sexp::Atom(_) => {},
        Sexp::List(items) => {
            assert forall|i: int| 0 <= i < items.len() implies plain(#[trigger] items[i]) by {
                lemma_readable_is_plain(items[i]);
            }
        },
    }
}

/// The words of which the written form of `e` consists.
pub open spec fn words_in(e: Value) -> Seq<Seq<char>>
    decreases e, 0nat,
{
    match e {
        Sexp::Atom(name) => seq![name],
        Sexp::List(items) => seq!["("@] + words_in_items(items, items.len()) + seq![")"@],
    }
}

/// The words of which the written forms of the first `n` items consist.
pub open spec fn words_in_items(items: Seq<Value>, n: nat) -> Seq<Seq<char>>
    decreases items, n,
{
    if n == 0 || n > items.len() {
        Seq::empty()
    } else {
        words_in_items(items, (n - 1) as nat) + words_in(items[n - 1])
    }
}

/// Scanning two texts one after the other is scanning them joined.
proof fn lemma_scan_joined(st: Split, a: Seq<char>, b: Seq<char>)
    ensures
        st.scan(a + b) == st.scan(a).scan(b),
    decreases b.len(),
{
    if b.len() == 0 {
        assert(a + b =~= a);
    } else {
        lemma_scan_joined(st, a, b.drop_last());
        assert((a + b).drop_last() =~= a + b.drop_last());
        assert((a + b).last() == b.last());
    }
}

/// Characters that end no word are added to the word in progress.
proof fn lemma_scan_word(st: Split, w: Seq<char>)
    requires
        forall|i: int| 0 <= i < w.len() ==> !is_space(#[trigger] w[i]) && !is_paren(w[i]),
    ensures
        st.scan(w) == (Split { words: st.words, word: st.word + w }),
    decreases w.len(),
{
    if w.len() == 0 {
        assert(st.word + w =~= st.word);
    } else {
        lemma_scan_word(st, w.drop_last());
        assert(!is_space(w[w.len() - 1]) && !is_paren(w[w.len() - 1]));
        assert((st.word + w.drop_last()).push(w.last()) =~= st.word + w);
    }
}

/// After the written form of `e`, the words are those before it and those of
/// `e`.
proof fn lemma_scan_render(st: Split, e: Value)
    requires
        plain(e),
        st.word.len() == 0,
    ensures
        st.scan(render_spec(e)).flushed() == st.words + words_in(e),
    decreases e, 0nat,
{
    match e {
        Sexp::Atom(name) => {
            lemma_scan_word(st, name);
            assert(st.word + name =~= name);
            assert(st.words.push(name) =~= st.words + seq![name]);
        },
        Sexp::List(items) => {
            reveal_strlit("(");
            reveal_strlit(")");
            assert("("@ =~= seq!['(']);
            assert(")"@ =~= seq![')']);
            let opening = seq!['('];
            let inside = render_items(items, items.len());
            let closing = seq![')'];
            let s1 = st.scan(opening);
            assert(opening.drop_last() =~= Seq::<char>::empty());
            assert(st.scan(opening.drop_last()) == st);
            assert(s1 == (Split { words: st.words.push(opening), word: Seq::empty() }));
            lemma_scan_items(s1, items, items.len());
            let s2 = s1.scan(inside);
            let s3 = s2.scan(closing);
            assert(closing.drop_last() =~= Seq::<char>::empty());
            assert(s2.scan(closing.drop_last()) == s2);
            assert(s3.flushed() == s2.flushed().push(closing));
            lemma_scan_joined(st, opening, inside);
            lemma_scan_joined(st, opening + inside, closing);
            assert(s3.flushed() =~= st.words + words_in(e));
        },
    }
}

/// After the written forms of the first `n` items, the words are those
/// before them and those of the items.
proof fn lemma_scan_items(st: Split, items: Seq<Value>, n: nat)
    requires
        n <= items.len(),
        forall|i: int| 0 <= i < n ==> plain(#[trigger] items[i]),
        st.word.len() == 0,
    ensures
        st.scan(render_items(items, n)).flushed() == st.words + words_in_items(items, n),
    decreases items, n,
{
    if n == 0 {
        assert(st.words + words_in_items(items, n) =~= st.words);
    } else if n == 1 {
        lemma_scan_render(st, items[0]);
        assert(words_in_items(items, 0) + words_in(items[0]) =~= words_in(items[0]));
    } else {
        let m = (n - 1) as nat;
        let head = render_items(items, m);
        let gap = seq![' '];
        let tail = render_spec(items[n - 1]);
        lemma_scan_items(st, items, m);
        let s1 = st.scan(head);
        let s2 = s1.scan(gap);
        assert(gap.drop_last() =~= Seq::<char>::empty());
        assert(s1.scan(gap.drop_last()) == s1);
        assert(s2 == (Split { words: s1.flushed(), word: Seq::empty() }));
        lemma_scan_render(s2, items[n - 1]);
        lemma_scan_joined(st, head, gap);
        lemma_scan_joined(st, head + gap, tail);
        assert(st.words + words_in_items(items, m) + words_in(items[n - 1]) =~= st.words
            + words_in_items(items, n));
    }
}

/// The words of the written form of `e`.
pub proof fn lemma_words_of_render(e: Value)
    requires
        plain(e),
    ensures
        words_of(render_spec(e)) == words_in(e),
{
    lemma_scan_render(Split::start(), e);
    assert(Split::start().words + words_in(e) =~= words_in(e));
}

/// How the reading of a run of words goes on from a stack or a failure.
pub open spec fn read_on(r: Result<Stack, ReadError>, words: Seq<Seq<char>>) -> Result<
    Stack,
    ReadError,
> {
    match r {
        Err(e) => Err(e),
        Ok(stack) => read_words(stack, words),
    }
}

/// Reading two runs of words one after the other is reading them joined.
proof fn lemma_read_joined(stack: Stack, a: Seq<Seq<char>>, b: Seq<Seq<char>>)
    ensures
        read_words(stack, a + b) == read_on(read_words(stack, a), b),
    decreases b.len(),
{
    if b.len() == 0 {
        assert(a + b =~= a);
    } else {
        lemma_read_joined(stack, a, b.drop_last());
        assert((a + b).drop_last() =~= a + b.drop_last());
        assert((a + b).last() == b.last());
    }
}

/// Reading one word is one step.
proof fn lemma_read_one(stack: Stack, word: Seq<char>)
    ensures
        read_words(stack, seq![word]) == read_step(stack, word),
{
    assert(seq![word].drop_last() =~= Seq::<Seq<char>>::empty());
    assert(read_words(stack, seq![word].drop_last()) == Ok::<Stack, ReadError>(stack));
}

/// Reading the words of `e` adds `e` to the innermost open list.
proof fn lemma_read_expr(stack: Stack, e: Value)
    requires
        stack.len() >= 1,
        plain(e),
    ensures
        read_words(stack, words_in(e)) == Ok::<Stack, ReadError>(with_item(stack, e)),
    decreases e, 0nat,
{
    reveal_strlit("(");
    reveal_strlit(")");
    assert("("@[0] == '(' && ")"@[0] == ')');
    match e {
        Sexp::Atom(name) => {
            assert(!is_paren(name[0]));
            assert(name != "("@);
            assert(name != ")"@);
            lemma_read_one(stack, name);
            assert(read_step(stack, name) == Ok::<Stack, ReadError>(with_item(stack, e)));
            assert(words_in(e) == seq![name]);
        },
        Sexp::List(items) => {
            let inside = words_in_items(items, items.len());
            lemma_read_one(stack, "("@);
            let opened = stack.push(Seq::<Value>::empty());
            lemma_read_items(opened, items, items.len());
            let filled = opened.drop_last().push(opened.last() + items.take(items.len() as int));
            assert(items.take(items.len() as int) =~= items);
            assert(opened.last() + items =~= items);
            assert(opened.drop_last() =~= stack);
            assert(filled == stack.push(items));
            lemma_read_one(filled, ")"@);
            assert(filled.drop_last() =~= stack);
            lemma_read_joined(stack, seq!["("@], inside);
            lemma_read_joined(stack, seq!["("@] + inside, seq![")"@]);
            assert(read_words(stack, seq!["("@]) == Ok::<Stack, ReadError>(opened));
            assert(read_words(opened, inside) == Ok::<Stack, ReadError>(filled));
            assert(read_words(stack, seq!["("@] + inside) == Ok::<Stack, ReadError>(filled));
            assert(read_step(filled, ")"@) == Ok::<Stack, ReadError>(
                with_item(filled.drop_last(), Sexp::List(filled.last())),
            ));
            assert(filled.last() == items);
            assert(read_words(stack, words_in(e)) == read_step(filled, ")"@));
        },
    }
}

/// Reading the words of the first `n` items adds those items to the
/// innermost open list.
proof fn lemma_read_items(stack: Stack, items: Seq<Value>, n: nat)
    requires
        stack.len() >= 1,
        n <= items.len(),
        forall|i: int| 0 <= i < n ==> plain(#[trigger] items[i]),
    ensures
        read_words(stack, words_in_items(items, n)) == Ok::<Stack, ReadError>(
            stack.drop_last().push(stack.last() + items.take(n as int)),
        ),
    decreases items, n,
{
    if n == 0 {
        assert(stack.last() + items.take(0) =~= stack.last());
        assert(stack.drop_last().push(stack.last()) =~= stack);
    } else {
        let m = (n - 1) as nat;
        lemma_read_items(stack, items, m);
        let s1 = stack.drop_last().push(stack.last() + items.take(m as int));
        lemma_read_expr(s1, items[n - 1]);
        lemma_read_joined(stack, words_in_items(items, m), words_in(items[n - 1]));
        assert(s1.drop_last() =~= stack.drop_last());
        assert((stack.last() + items.take(m as int)).push(items[n - 1]) =~= stack.last()
            + items.take(n as int));
    }
}

/// Whether each of the first `n` words becomes a token.
pub open spec fn all_tokens(words: Seq<Seq<char>>, n: nat) -> bool {
    forall|i: int| 0 <= i < n ==> (#[trigger] class_of(words[i])) is Kind
}

/// Where each word becomes a token, the tokens hold the words in order.
proof fn lemma_tokens_hold_words(words: Seq<Seq<char>>, n: nat)
    requires
        n <= words.len(),
        all_tokens(words, n),
    ensures
        tokens_of(words, n) is Ok,
        token_words(tokens_of(words, n)->Ok_0) == words.take(n as int),
    decreases n,
{
    if n == 0 {
        assert(token_words(Seq::<TokenValue>::empty()) =~= words.take(0));
    } else {
        lemma_tokens_hold_words(words, (n - 1) as nat);
        assert(class_of(words[n - 1]) is Kind);
        let before = tokens_of(words, (n - 1) as nat)->Ok_0;
        let name = class_of(words[n - 1])->Kind_0;
        let token = TokenValue { name, value: words[n - 1] };
        let after = token_words(before.push(token));
        assert(token_words(before).len() == before.len());
        assert(words.take(n - 1).len() == n - 1);
        assert(tokens_of(words, n) == Ok::<Seq<TokenValue>, TokenError>(before.push(token)));
        assert forall|i: int| 0 <= i < n implies after[i] == words[i] by {
            if i < n - 1 {
                assert(token_words(before)[i] == words.take(n - 1)[i]);
            }
        }
        assert(after =~= words.take(n as int));
    }
}

/// Each word of the written form of a readable expression becomes a token.
proof fn lemma_words_are_tokens(e: Value)
    requires
        readable(e),
    ensures
        all_tokens(words_in(e), words_in(e).len()),
    decreases e, 0nat,
{
    match e {
        Sexp::Atom(_) => {},
        Sexp::List(items) => {
            lemma_item_words_are_tokens(items, items.len());
            let inside = words_in_items(items, items.len());
            let words = words_in(e);
            assert forall|i: int| 0 <= i < words.len() implies (#[trigger] class_of(
                words[i],
            )) is Kind by {
                if 0 < i <= inside.len() {
                    assert(words[i] == inside[i - 1]);
                    assert(class_of(inside[i - 1]) is Kind);
                }
            }
        },
    }
}

/// Each word of the written forms of readable items becomes a token.
proof fn lemma_item_words_are_tokens(items: Seq<Value>, n: nat)
    requires
        n <= items.len(),
        forall|i: int| 0 <= i < n ==> readable(#[trigger] items[i]),
    ensures
        all_tokens(words_in_items(items, n), words_in_items(items, n).len()),
    decreases items, n,
{
    if n > 0 {
        let m = (n - 1) as nat;
        lemma_item_words_are_tokens(items, m);
        lemma_words_are_tokens(items[n - 1]);
        let head = words_in_items(items, m);
        let tail = words_in(items[n - 1]);
        let words = words_in_items(items, n);
        assert forall|i: int| 0 <= i < words.len() implies (#[trigger] class_of(
            words[i],
        )) is Kind by {
            if i < head.len() {
                assert(words[i] == head[i]);
                assert(class_of(head[i]) is Kind);
            } else {
                assert(words[i] == tail[i - head.len()]);
                assert(class_of(tail[i - head.len()]) is Kind);
            }
        }
    }
}

/// Reading the written form of an expression gives the expression back,
/// where each atom of the expression can be written as one word: it has a
/// character, and none of its characters is white space or a bracket.
pub proof fn law_parse_render(e: Value)
    requires
        plain(e),
    ensures
        parse_spec(render_spec(e)) == Ok::<Value, ReadError>(e),
{
    lemma_words_of_render(e);
    let start: Stack = seq![Seq::<Value>::empty()];
    lemma_read_expr(start, e);
    assert(with_item(start, e) =~= seq![seq![e]]);
}

/// Reading the written form of an expression by way of its tokens gives the
/// expression back, where the patterns of the tokens are accepted and every
/// atom of the expression is a word that becomes a token.
pub proof fn law_read_render(e: Value)
    requires
        patterns_compile(),
        readable(e),
    ensures
        read_spec(render_spec(e)) == Ok::<Value, ReadError>(e),
{
    let words = words_in(e);
    lemma_readable_is_plain(e);
    lemma_words_of_render(e);
    lemma_words_are_tokens(e);
    lemma_tokens_hold_words(words, words.len());
    assert(words.take(words.len() as int) =~= words);
    let start: Stack = seq![Seq::<Value>::empty()];
    lemma_read_expr(start, e);
    assert(with_item(start, e) =~= seq![seq![e]]);
}

/// Whether `word` can be written as one word.
pub fn is_plain_word(word: &str) -> (r: bool)
    ensures
        r == plain_word(word@),
{
    if word.is_empty() {
        return false;
    }
    for c in it: word.chars()
        invariant
            it.seq() == word@,
            forall|i: int|
                0 <= i < it.index() ==> !is_space(#[trigger] word@[i]) && !is_paren(word@[i]),
    {
        if c == '(' || c == ')' || is_whitespace(c) {
            assert(is_space(word@[it.index() as int]) || is_paren(word@[it.index() as int]));
            return false;
        }
    }
    true
}

/// Whether every atom of `e` can be written as one word, so that `parse`
/// gives `e` back from its written form.
pub fn is_plain(e: &E) -> (ok: bool)
    ensures
        ok == plain(e@),
        ok ==> parse_spec(render_spec(e@)) == Ok::<Value, ReadError>(e@),
    decreases e,
{
    let ok = match e {
        Expr::Atom(name) => is_plain_word(name.as_str()),
        Expr::List(items) => {
            proof {
                lemma_list_value(*items);
            }
            let mut all = true;
            let mut i: usize = 0;
            while i < items.len() && all
                invariant
                    i <= items.len(),
                    *e == Expr::List(*items),
                    e@ == Sexp::List(values_of(items@)),
                    all ==> forall|j: int| 0 <= j < i ==> plain(#[trigger] values_of(items@)[j]),
                    !all ==> !plain(e@),
                decreases items.len() - i,
            {
                if !is_plain(&items[i]) {
                    assert(!plain(e@)) by {
                        let here = values_of(items@)[i as int];
                        assert(!plain(here));
                        assert(e@->List_0[i as int] == here);
                    }
                    all = false;
                }
                i += 1;
            }
            all
        },
    };
    proof {
        if ok {
            law_parse_render(e@);
        }
    }
    ok
}

/// Whether every atom of `e` is a word that becomes a token; needs the
/// patterns to be accepted.
fn atoms_are_tokens(e: &E) -> (ok: bool)
    requires
        patterns_compile(),
    ensures
        ok == readable(e@),
    decreases e,
{
    match e {
        Expr::Atom(name) => is_plain_word(name.as_str()) && word_is_token(name.as_str()),
        Expr::List(items) => {
            proof {
                lemma_list_value(*items);
            }
            let mut all = true;
            let mut i: usize = 0;
            while i < items.len() && all
                invariant
                    i <= items.len(),
                    patterns_compile(),
                    *e == Expr::List(*items),
                    e@ == Sexp::List(values_of(items@)),
                    all ==> forall|j: int| 0 <= j < i ==> readable(#[trigger] values_of(items@)[j]),
                    !all ==> !readable(e@),
                decreases items.len() - i,
            {
                if !atoms_are_tokens(&items[i]) {
                    assert(!readable(e@)) by {
                        let here = values_of(items@)[i as int];
                        assert(!readable(here));
                        assert(e@->List_0[i as int] == here);
                    }
                    all = false;
                }
                i += 1;
            }
            all
        },
    }
}

/// Whether the patterns of the tokens are accepted and every atom of `e` is
/// a word that becomes a token, so that `read` gives `e` back from its
/// written form.
pub fn is_readable(e: &E) -> (ok: bool)
    ensures
        ok == (patterns_compile() && readable(e@)),
        ok ==> read_spec(render_spec(e@)) == Ok::<Value, ReadError>(e@),
{
    if !patterns_accepted() {
        return false;
    }
    let ok = atoms_are_tokens(e);
    proof {
        if ok {
            law_read_render(e@);
        }
    }
    ok
}

} // verus!
