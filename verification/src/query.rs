//! The query language: words, quoted phrases and the operators `|` (or), `!`
//! (not) and `( )` (grouping), and how the truth of the single terms makes the
//! truth of the whole query.

use crate::text;
use crate::text::{chars_of, copy_range, is_whitespace, string_of};
use vstd::prelude::*;

verus! {

/// One token of a query.
pub enum Token {
    /// A bare term.
    Word(String),
    /// A quoted term, which is taken literally.
    Phrase(String),
    /// `|`
    Or,
    /// `!` at the start of a term.
    Not,
    /// `(`
    Open,
    /// `)`
    Close,
}

/// What a [`Token`] stands for.
#[verifier::ext_equal]
pub enum TokenView {
    Word(Seq<char>),
    Phrase(Seq<char>),
    Or,
    Not,
    Open,
    Close,
}

impl View for Token {
    type V = TokenView;

    open spec fn view(&self) -> TokenView {
        match self {
            Token::Word(w) => TokenView::Word(w@),
            Token::Phrase(p) => TokenView::Phrase(p@),
            Token::Or => TokenView::Or,
            Token::Not => TokenView::Not,
            Token::Open => TokenView::Open,
            Token::Close => TokenView::Close,
        }
    }
}

/// What the tokens stand for, in order.
pub open spec fn views(tokens: Seq<Token>) -> Seq<TokenView> {
    tokens.map_values(|t: Token| t@)
}

/// The word `buf` as a token, or nothing when it is empty.
pub open spec fn word_token(buf: Seq<char>) -> Seq<TokenView> {
    if buf.len() == 0 {
        Seq::empty()
    } else {
        seq![TokenView::Word(buf)]
    }
}

/// The phrase `text` as a token, or nothing when it is empty.
pub open spec fn phrase_token(text: Seq<char>) -> Seq<TokenView> {
    if text.len() == 0 {
        Seq::empty()
    } else {
        seq![TokenView::Phrase(text)]
    }
}

/// How many characters of `s` come before its first `"` (all, when it has none).
pub open spec fn until_quote(s: Seq<char>) -> nat
    decreases s.len(),
{
    if s.len() == 0 || s[0] == '"' {
        0
    } else {
        1 + until_quote(s.drop_first())
    }
}

/// What follows the first `"` of `s`.
pub open spec fn after_quote(s: Seq<char>) -> Seq<char> {
    if until_quote(s) < s.len() {
        s.skip(until_quote(s) as int + 1)
    } else {
        Seq::empty()
    }
}

/// The operator that `c` always is outside quotes.
pub open spec fn operator(c: char) -> Option<TokenView> {
    if c == '|' {
        Some(TokenView::Or)
    } else if c == '(' {
        Some(TokenView::Open)
    } else if c == ')' {
        Some(TokenView::Close)
    } else {
        None
    }
}

/// The tokens of `buf + s`, where `buf` is the word under way.
pub open spec fn lexed(s: Seq<char>, buf: Seq<char>) -> Seq<TokenView>
    decreases s.len(),
{
    if s.len() == 0 {
        word_token(buf)
    } else {
        let rest = s.drop_first();
        if s[0] == '"' {
            word_token(buf) + phrase_token(rest.take(until_quote(rest) as int)) + lexed(
                after_quote(rest),
                Seq::empty(),
            )
        } else if operator(s[0]) is Some {
            word_token(buf).push(operator(s[0])->0) + lexed(rest, Seq::empty())
        } else if s[0] == '!' && buf.len() == 0 {
            seq![TokenView::Not] + lexed(rest, Seq::empty())
        } else if text::is_space(s[0]) {
            word_token(buf) + lexed(rest, Seq::empty())
        } else {
            lexed(rest, buf.push(s[0]))
        }
    }
}

/// The tokens of a query.
pub open spec fn tokens_of(query: Seq<char>) -> Seq<TokenView> {
    lexed(query, Seq::empty())
}

proof fn lemma_until_quote(s: Seq<char>)
    ensures
        until_quote(s) <= s.len(),
    decreases s.len(),
{
    if s.len() > 0 && s[0] != '"' {
        lemma_until_quote(s.drop_first());
    }
}

/// Append the word under way, when there is one, and start the next.
fn flush_word(buf: &mut Vec<char>, tokens: &mut Vec<Token>)
    ensures
        final(buf)@ == Seq::<char>::empty(),
        views(final(tokens)@) == views(old(tokens)@) + word_token(old(buf)@),
{
    let ghost start = tokens@;
    if buf.len() > 0 {
        let word = string_of(buf.as_slice());
        tokens.push(Token::Word(word));
        buf.clear();
    }
    assert(views(tokens@) =~= views(start) + word_token(old(buf)@));
}

/// Split a query into words, quoted phrases and operators. `|`, `(`, `)` and `"`
/// are always operators outside quotes; `!` is one only at the start of a term,
/// so a name like `a!b` is still a word and `"!x"` matches one literally. A
/// quote that is not closed runs to the end, and an empty phrase is dropped.
pub fn tokenize(query: &str) -> (r: Vec<Token>)
    ensures
        views(r@) == tokens_of(query@),
{
    let chars = chars_of(query);
    let mut tokens: Vec<Token> = Vec::new();
    let mut buf: Vec<char> = Vec::new();
    let mut i: usize = 0;
    assert(chars@.skip(0) =~= chars@);
    assert(views(tokens@) + lexed(chars@, buf@) =~= tokens_of(chars@));
    while i < chars.len()
        invariant
            i <= chars@.len(),
            chars@ == query@,
            views(tokens@) + lexed(chars@.skip(i as int), buf@) == tokens_of(query@),
        decreases chars@.len() - i,
    {
        let c = chars[i];
        let ghost s = chars@.skip(i as int);
        let ghost rest = s.drop_first();
        let ghost before = views(tokens@);
        let ghost word = buf@;
        assert(rest =~= chars@.skip(i + 1));
        i += 1;
        if c == '"' {
            flush_word(&mut buf, &mut tokens);
            let from: usize = i;
            assert(chars@.skip(from as int) == rest);
            proof {
                lemma_until_quote(rest);
            }
            while i < chars.len() && chars[i] != '"'
                invariant
                    from <= i <= chars@.len(),
                    rest == chars@.skip(from as int),
                    until_quote(rest) == i - from + until_quote(chars@.skip(i as int)),
                decreases chars@.len() - i,
            {
                assert(chars@.skip(i as int).drop_first() =~= chars@.skip(i + 1));
                i += 1;
            }
            assert(until_quote(rest) == i - from);
            let phrase = copy_range(chars.as_slice(), from, i);
            assert(rest.take(i - from) =~= phrase@);
            let ghost mid = views(tokens@);
            if phrase.len() > 0 {
                let text = string_of(phrase.as_slice());
                tokens.push(Token::Phrase(text));
            }
            assert(views(tokens@) =~= mid + phrase_token(phrase@));
            if i < chars.len() {
                assert(rest.skip(i - from + 1) =~= chars@.skip(i + 1));
                i += 1;
            }
            assert(after_quote(rest) =~= chars@.skip(i as int));
            assert(views(tokens@) + lexed(chars@.skip(i as int), buf@) =~= before + (word_token(word)
                + phrase_token(phrase@) + lexed(after_quote(rest), Seq::empty())));
        } else if c == '|' || c == '(' || c == ')' {
            flush_word(&mut buf, &mut tokens);
            let ghost mid = views(tokens@);
            let token = if c == '|' {
                Token::Or
            } else if c == '(' {
                Token::Open
            } else {
                Token::Close
            };
            let ghost shown = token@;
            tokens.push(token);
            assert(views(tokens@) =~= mid.push(shown));
            assert(views(tokens@) + lexed(rest, buf@) =~= before + (word_token(word).push(
                operator(c)->0,
            ) + lexed(rest, Seq::empty())));
        } else if c == '!' && buf.len() == 0 {
            tokens.push(Token::Not);
            assert(views(tokens@) =~= before.push(TokenView::Not));
            assert(buf@ =~= Seq::empty());
            assert(views(tokens@) + lexed(rest, buf@) =~= before + (seq![TokenView::Not] + lexed(
                rest,
                Seq::empty(),
            )));
        } else if is_whitespace(c) {
            flush_word(&mut buf, &mut tokens);
            assert(views(tokens@) + lexed(rest, buf@) =~= before + (word_token(word) + lexed(
                rest,
                Seq::empty(),
            )));
        } else {
            buf.push(c);
        }
    }
    flush_word(&mut buf, &mut tokens);
    tokens
}

/// The conjunction of two truths, where `None` constrains nothing.
pub open spec fn both(a: Option<bool>, b: Option<bool>) -> Option<bool> {
    match (a, b) {
        (None, _) => b,
        (_, None) => a,
        (Some(x), Some(y)) => Some(x && y),
    }
}

/// The disjunction of two truths, where `None` is an alternative that says
/// nothing and is left out.
pub open spec fn either(a: Option<bool>, b: Option<bool>) -> Option<bool> {
    match (a, b) {
        (None, _) => b,
        (_, None) => a,
        (Some(x), Some(y)) => Some(x || y),
    }
}

/// The truth of a term with or without a `!` before it.
pub open spec fn flipped(v: Option<bool>, negate: bool) -> Option<bool> {
    match v {
        None => None,
        Some(x) => Some(x != negate),
    }
}

/// The truth of one group so far.
pub struct Frame {
    /// The alternatives before the last `|`.
    pub done: Option<bool>,
    /// The alternative under way.
    pub now: Option<bool>,
    /// Whether an odd number of `!` precedes the next term.
    pub negate: bool,
}

impl Frame {
    /// A group of which nothing has been read.
    pub open spec fn fresh() -> Frame {
        Frame { done: None, now: None, negate: false }
    }

    /// The truth of the group when it ends here.
    pub open spec fn value(self) -> Option<bool> {
        either(self.done, self.now)
    }

    /// The group after one more term.
    pub open spec fn with_term(self, v: Option<bool>) -> Frame {
        Frame { done: self.done, now: both(self.now, flipped(v, self.negate)), negate: false }
    }

    /// The group after a `|`.
    pub open spec fn with_or(self) -> Frame {
        Frame { done: self.value(), now: None, negate: false }
    }

    /// The group after a `!`.
    pub open spec fn with_not(self) -> Frame {
        Frame { done: self.done, now: self.now, negate: !self.negate }
    }
}

/// The open groups, outermost first, with the last one replaced.
pub open spec fn with_top(stack: Seq<Frame>, top: Frame) -> Seq<Frame> {
    stack.drop_last().push(top)
}

/// The open groups after the innermost has become a term of the one around it.
pub open spec fn closed_top(stack: Seq<Frame>) -> Seq<Frame> {
    let outer = stack.drop_last();
    with_top(outer, outer.last().with_term(stack.last().value()))
}

/// The open groups after one token. `v` is the truth of a word or a phrase. A
/// `)` that closes nothing is passed over.
pub open spec fn step(stack: Seq<Frame>, token: TokenView, v: Option<bool>) -> Seq<Frame> {
    match token {
        TokenView::Word(_) => with_top(stack, stack.last().with_term(v)),
        TokenView::Phrase(_) => with_top(stack, stack.last().with_term(v)),
        TokenView::Or => with_top(stack, stack.last().with_or()),
        TokenView::Not => with_top(stack, stack.last().with_not()),
        TokenView::Open => stack.push(Frame::fresh()),
        TokenView::Close => if stack.len() > 1 {
            closed_top(stack)
        } else {
            stack
        },
    }
}

/// The open groups after the tokens, where `truths` holds the truth of each word
/// and phrase at its place.
pub open spec fn run(
    stack: Seq<Frame>,
    tokens: Seq<TokenView>,
    truths: Seq<Option<bool>>,
) -> Seq<Frame>
    decreases tokens.len(),
{
    if tokens.len() == 0 {
        stack
    } else {
        step(
            run(stack, tokens.drop_last(), truths),
            tokens.last(),
            truths[tokens.len() - 1],
        )
    }
}

/// The outermost group after all the others have been closed.
pub open spec fn closed(stack: Seq<Frame>) -> Frame
    decreases stack.len(),
{
    if stack.len() <= 1 {
        stack[0]
    } else {
        closed(closed_top(stack))
    }
}

/// The truth of a whole query: `None` when no term constrains anything.
pub open spec fn query_value(tokens: Seq<TokenView>, truths: Seq<Option<bool>>) -> Option<bool> {
    closed(run(seq![Frame::fresh()], tokens, truths)).value()
}

/// Whether a query accepts, given the truth of its terms. One that constrains
/// nothing accepts everything.
pub open spec fn accepted(tokens: Seq<TokenView>, truths: Seq<Option<bool>>) -> bool {
    query_value(tokens, truths) != Some(false)
}

} // verus!
