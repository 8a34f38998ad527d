//! The lexer: from the bytes of a formula to tokens.
use super::enums::{Bracket, Identifier, Literal, Operator, Special, TokenKind};
use super::expression::Expression;
use super::function::Function;
use super::parse_element::{views, ElementView, ParseElement};
use super::token::Token;
use crate::error::Error;
use vstd::prelude::*;

verus! {

/// The bytes of the source that mean something to the lexer, by their
/// codes.
pub const DIGIT_0: u8 = 48;
pub const DIGIT_9: u8 = 57;
pub const LOWER_A: u8 = 97;
pub const LOWER_Z: u8 = 122;
pub const UPPER_A: u8 = 65;
pub const UPPER_Z: u8 = 90;
pub const SPACE: u8 = 32;
pub const COLON: u8 = 58;
pub const DOT: u8 = 46;
pub const COMMA: u8 = 44;
pub const PLUS: u8 = 43;
pub const MINUS: u8 = 45;
pub const STAR: u8 = 42;
pub const SLASH: u8 = 47;
pub const PERCENT: u8 = 37;
pub const CARET: u8 = 94;
pub const EQUALS: u8 = 61;
pub const BANG: u8 = 33;
pub const GREATER: u8 = 62;
pub const LESS: u8 = 60;
pub const AMPERSAND: u8 = 38;
pub const PIPE: u8 = 124;
pub const HASH: u8 = 35;
pub const OPEN: u8 = 40;
pub const CLOSE: u8 = 41;

/// Whether a byte is a decimal digit.
pub open spec fn is_digit(chr: u8) -> bool {
    DIGIT_0 <= chr <= DIGIT_9
}

/// Whether a byte is a letter of the alphabet.
pub open spec fn is_letter(chr: u8) -> bool {
    LOWER_A <= chr <= LOWER_Z || UPPER_A <= chr <= UPPER_Z
}

/// The operator that a byte stands for by itself.
pub open spec fn operator_of(chr: u8) -> Option<Operator> {
    if chr == PLUS {
        Some(Operator::Add)
    } else if chr == MINUS {
        Some(Operator::Sub)
    } else if chr == STAR {
        Some(Operator::Mul)
    } else if chr == SLASH {
        Some(Operator::Div)
    } else if chr == PERCENT {
        Some(Operator::Mod)
    } else if chr == CARET {
        Some(Operator::Pow)
    } else if chr == EQUALS {
        Some(Operator::Equal)
    } else if chr == BANG {
        Some(Operator::Not)
    } else if chr == GREATER {
        Some(Operator::Greater)
    } else if chr == LESS {
        Some(Operator::Smaller)
    } else if chr == AMPERSAND {
        Some(Operator::And)
    } else if chr == PIPE {
        Some(Operator::Or)
    } else if chr == HASH {
        Some(Operator::Xor)
    } else {
        None
    }
}

/// The kind of the token that a byte starts, if it starts one.
pub open spec fn starts(chr: u8) -> Option<TokenKind> {
    if is_digit(chr) {
        Some(TokenKind::Literal(Literal::Int))
    } else if is_letter(chr) {
        Some(TokenKind::Identifier(Identifier::Variable))
    } else if operator_of(chr) is Some {
        Some(TokenKind::Operator(operator_of(chr).unwrap()))
    } else if chr == OPEN {
        Some(TokenKind::Bracket(Bracket::Opened))
    } else if chr == CLOSE {
        Some(TokenKind::Bracket(Bracket::Closed))
    } else if chr == DOT {
        Some(TokenKind::Literal(Literal::Float))
    } else if chr == COMMA {
        Some(TokenKind::Special(Special::Comma))
    } else {
        None
    }
}

/// The kind of the last element, if there is one and it is a token.
pub open spec fn open_kind<T, const LANES: usize>(elements: Seq<ElementView<T, LANES>>) -> Option<
    TokenKind,
> {
    if elements.len() == 0 {
        None
    } else {
        elements.last().kind()
    }
}

/// A token of one byte.
pub open spec fn fresh<T, const LANES: usize>(kind: TokenKind, index: usize) -> ElementView<
    T,
    LANES,
> {
    ElementView::Token(Token { token_kind: kind, start: index, end: (index + 1) as usize })
}

/// The elements with their last one, a token, grown by one byte and given
/// the kind `kind`.
pub open spec fn grown<T, const LANES: usize>(
    elements: Seq<ElementView<T, LANES>>,
    kind: TokenKind,
) -> Seq<ElementView<T, LANES>>
    recommends
        open_kind(elements) is Some,
{
    let token = elements.last()->Token_0;
    elements.update(
        elements.len() - 1,
        ElementView::Token(
            Token { token_kind: kind, start: token.start, end: (token.end + 1) as usize },
        ),
    )
}

/// The elements with the kind of their last one, a token, changed.
pub open spec fn retagged<T, const LANES: usize>(
    elements: Seq<ElementView<T, LANES>>,
    kind: TokenKind,
) -> Seq<ElementView<T, LANES>>
    recommends
        open_kind(elements) is Some,
{
    let token = elements.last()->Token_0;
    elements.update(
        elements.len() - 1,
        ElementView::Token(Token { token_kind: kind, start: token.start, end: token.end }),
    )
}

/// The elements followed by what a unary minus stands for: a zero and a
/// subtraction.
pub open spec fn negated<T, const LANES: usize>(
    elements: Seq<ElementView<T, LANES>>,
    index: usize,
) -> Seq<ElementView<T, LANES>> {
    elements.push(
        ElementView::Token(
            Token { token_kind: TokenKind::Special(Special::NegZero), start: 0, end: 0 },
        ),
    ).push(fresh(TokenKind::Operator(Operator::Sub), index))
}

/// What the byte `chr` at the place `index` of the source makes of the
/// elements before it.
///
/// - A space changes nothing.
/// - `:` turns an identifier into a namespace, and is unexpected elsewhere.
/// - A digit lengthens a literal or an identifier; a letter lengthens an
///   identifier; elsewhere they start an integer or an identifier.
/// - `.` turns an integer into a floating-point literal, and elsewhere starts
///   one.
/// - `-` after an operator, after a bracket or at the start is unary.
/// - `>`, `<` and `!` after `=` make it `>=`, `<=` and `!=`.
/// - `(` after an identifier makes the identifier the name of a function.
/// - Any other byte starts a token of its own, or is unknown.
pub open spec fn lex_step<T, const LANES: usize>(
    elements: Seq<ElementView<T, LANES>>,
    chr: u8,
    index: usize,
) -> Result<Seq<ElementView<T, LANES>>, Error> {
    let kind = open_kind(elements);
    if chr == SPACE {
        Ok(elements)
    } else if chr == COLON {
        if kind is Some && kind.unwrap() is Identifier {
            Ok(retagged(elements, TokenKind::Special(Special::Namespace)))
        } else {
            Err(Error::UnexpectedToken)
        }
    } else if is_digit(chr) && kind is Some && (kind.unwrap() is Identifier
        || kind.unwrap() is Literal) {
        Ok(grown(elements, kind.unwrap()))
    } else if is_letter(chr) && kind is Some && kind.unwrap() is Identifier {
        Ok(grown(elements, kind.unwrap()))
    } else if chr == DOT && kind == Some(TokenKind::Literal(Literal::Int)) {
        Ok(grown(elements, TokenKind::Literal(Literal::Float)))
    } else if chr == MINUS && (kind is None || kind.unwrap() is Operator
        || kind.unwrap() is Bracket) {
        Ok(negated(elements, index))
    } else if chr == GREATER && kind == Some(TokenKind::Operator(Operator::Equal)) {
        Ok(grown(elements, TokenKind::Operator(Operator::GreaterEqual)))
    } else if chr == LESS && kind == Some(TokenKind::Operator(Operator::Equal)) {
        Ok(grown(elements, TokenKind::Operator(Operator::SmallerEqual)))
    } else if chr == BANG && kind == Some(TokenKind::Operator(Operator::Equal)) {
        Ok(grown(elements, TokenKind::Operator(Operator::NotEqual)))
    } else if chr == OPEN && kind is Some && kind.unwrap() is Identifier {
        Ok(
            retagged(elements, TokenKind::Identifier(Identifier::Function)).push(
                fresh(TokenKind::Bracket(Bracket::Opened), index),
            ),
        )
    } else {
        match starts(chr) {
            Some(kind) => Ok(elements.push(fresh(kind, index))),
            None => Err(Error::UnknownCharacter(chr as char)),
        }
    }
}

/// What the first `n` bytes of a source are lexed into.
pub open spec fn lex_upto<T, const LANES: usize>(source: Seq<u8>, n: nat) -> Result<
    Seq<ElementView<T, LANES>>,
    Error,
>
    recommends
        n <= source.len(),
    decreases n,
{
    if n == 0 {
        Ok(Seq::empty())
    } else {
        match lex_upto::<T, LANES>(source, (n - 1) as nat) {
            Ok(elements) => lex_step(elements, source[n - 1], (n - 1) as usize),
            Err(e) => Err(e),
        }
    }
}

/// What a source is lexed into: its tokens, or the first error.
pub open spec fn lexed<T, const LANES: usize>(source: Seq<u8>) -> Result<
    Seq<ElementView<T, LANES>>,
    Error,
> {
    lex_upto(source, source.len())
}

/// Every element is a token that covers bytes before `bound`.
pub open spec fn tokens_within<T, const LANES: usize>(
    elements: Seq<ElementView<T, LANES>>,
    bound: int,
) -> bool {
    forall|i: int|
        0 <= i < elements.len() ==> (#[trigger] elements[i]) is Token
            && elements[i]->Token_0.start <= elements[i]->Token_0.end <= bound
}

/// Lexing makes tokens only, and every token covers bytes of the source.
pub proof fn lemma_lexed_tokens<T, const LANES: usize>(source: Seq<u8>, n: nat)
    requires
        n <= source.len() <= usize::MAX,
        lex_upto::<T, LANES>(source, n) is Ok,
    ensures
        tokens_within(lex_upto::<T, LANES>(source, n).unwrap(), n as int),
    decreases n,
{
    if n > 0 {
        lemma_lexed_tokens::<T, LANES>(source, (n - 1) as nat);
        let before = lex_upto::<T, LANES>(source, (n - 1) as nat).unwrap();
        lemma_step_within(before, source[n - 1], (n - 1) as usize);
    }
}

/// A byte that is lexed leaves tokens only, and none that goes beyond the
/// byte.
pub proof fn lemma_step_within<T, const LANES: usize>(
    elements: Seq<ElementView<T, LANES>>,
    chr: u8,
    index: usize,
)
    requires
        index < usize::MAX,
        tokens_within(elements, index as int),
        lex_step(elements, chr, index) is Ok,
    ensures
        tokens_within(lex_step(elements, chr, index).unwrap(), index + 1),
{
    let after = lex_step(elements, chr, index).unwrap();
    assert forall|i: int| 0 <= i < after.len() implies (#[trigger] after[i]) is Token
        && after[i]->Token_0.start <= after[i]->Token_0.end <= index + 1 by {
        if i < elements.len() {
            assert(elements[i] is Token);
        }
    }
}

impl<T: Function<LANES>, const LANES: usize> Expression<T, LANES> {
    /// Adds a token of one byte.
    pub(crate) fn new_token_from_kind(
        elements: &mut Vec<ParseElement<T, LANES>>,
        token_kind: TokenKind,
        start: usize,
    )
        requires
            start < usize::MAX,
        ensures
            views(final(elements)@) == views(old(elements)@).push(fresh(token_kind, start)),
    {
        let token = Token::new(token_kind, start);
        elements.push(ParseElement::Token(token));
        assert(views(elements@) =~= views(old(elements)@).push(fresh(token_kind, start)));
    }

    /// Adds the token that a byte starts.
    pub(crate) fn new_token(elements: &mut Vec<ParseElement<T, LANES>>, chr: u8, start: usize) ->
        (r:
        Result<(), Error>)
        requires
            start < usize::MAX,
        ensures
            match starts(chr) {
                Some(kind) => r == Ok::<(), Error>(()) && views(final(elements)@) == views(
                    old(elements)@,
                ).push(fresh(kind, start)),
                None => r == Err::<(), Error>(Error::UnknownCharacter(chr as char)) && views(
                    final(elements)@,
                ) == views(old(elements)@),
            },
    {
        let token_kind = if DIGIT_0 <= chr && chr <= DIGIT_9 {
            TokenKind::Literal(Literal::Int)
        } else if (LOWER_A <= chr && chr <= LOWER_Z) || (UPPER_A <= chr && chr <= UPPER_Z) {
            TokenKind::Identifier(Identifier::Variable)
        } else if chr == PLUS {
            TokenKind::Operator(Operator::Add)
        } else if chr == MINUS {
            TokenKind::Operator(Operator::Sub)
        } else if chr == STAR {
            TokenKind::Operator(Operator::Mul)
        } else if chr == SLASH {
            TokenKind::Operator(Operator::Div)
        } else if chr == PERCENT {
            TokenKind::Operator(Operator::Mod)
        } else if chr == CARET {
            TokenKind::Operator(Operator::Pow)
        } else if chr == EQUALS {
            TokenKind::Operator(Operator::Equal)
        } else if chr == BANG {
            TokenKind::Operator(Operator::Not)
        } else if chr == GREATER {
            TokenKind::Operator(Operator::Greater)
        } else if chr == LESS {
            TokenKind::Operator(Operator::Smaller)
        } else if chr == AMPERSAND {
            TokenKind::Operator(Operator::And)
        } else if chr == PIPE {
            TokenKind::Operator(Operator::Or)
        } else if chr == HASH {
            TokenKind::Operator(Operator::Xor)
        } else if chr == OPEN {
            TokenKind::Bracket(Bracket::Opened)
        } else if chr == CLOSE {
            TokenKind::Bracket(Bracket::Closed)
        } else if chr == DOT {
            TokenKind::Literal(Literal::Float)
        } else if chr == COMMA {
            TokenKind::Special(Special::Comma)
        } else {
            return Err(Error::UnknownCharacter(chr as char));
        };
        Self::new_token_from_kind(elements, token_kind, start);
        Ok(())
    }

    /// Adds what a unary minus stands for.
    pub(crate) fn insert_neg(elements: &mut Vec<ParseElement<T, LANES>>, index: usize)
        requires
            index < usize::MAX,
        ensures
            views(final(elements)@) == negated(views(old(elements)@), index),
    {
        elements.push(ParseElement::Token(Token::new_neg_zero()));
        elements.push(ParseElement::Token(Token::new(TokenKind::Operator(Operator::Sub), index)));
        assert(views(elements@) =~= negated(views(old(elements)@), index));
    }

    /// Replaces the last element, a token.
    fn set_last(elements: &mut Vec<ParseElement<T, LANES>>, token: Token)
        requires
            old(elements)@.len() > 0,
        ensures
            views(final(elements)@) == views(old(elements)@).update(
                old(elements)@.len() - 1,
                ElementView::Token(token),
            ),
    {
        let last = elements.len() - 1;
        elements[last] = ParseElement::Token(token);
        assert(views(elements@) =~= views(old(elements)@).update(
            old(elements)@.len() - 1,
            ElementView::Token(token),
        ));
    }

    /// The last element, if it is a token.
    fn open_token(elements: &Vec<ParseElement<T, LANES>>) -> (r: Option<Token>)
        ensures
            r is Some <==> open_kind(views(elements@)) is Some,
            r is Some ==> elements@.len() > 0 && views(elements@).last() == ElementView::<
                T,
                LANES,
            >::Token(r.unwrap()) && open_kind(views(elements@)) == Some(r.unwrap().token_kind),
    {
        if elements.len() == 0 {
            return None;
        }
        match &elements[elements.len() - 1] {
            ParseElement::Token(token) => Some(*token),
            ParseElement::Node(_) => None,
        }
    }

    /// Lexes one byte of the source.
    pub(crate) fn push(elements: &mut Vec<ParseElement<T, LANES>>, chr: u8, index: usize) -> (r:
        Result<(), Error>)
        requires
            index < usize::MAX,
            tokens_within(views(old(elements)@), index as int),
        ensures
            match lex_step(views(old(elements)@), chr, index) {
                Ok(after) => r == Ok::<(), Error>(()) && views(final(elements)@) == after,
                Err(e) => r == Err::<(), Error>(e),
            },
    {
        let open = Self::open_token(elements);
        if chr == SPACE {
            return Ok(());
        }
        if let Some(mut token) = open {
            assert(views(elements@)[elements@.len() - 1] is Token);
            let kind = token.kind();
            if chr == COLON {
                match kind {
                    TokenKind::Identifier(_) => {
                        token.set_kind(TokenKind::Special(Special::Namespace));
                        Self::set_last(elements, token);
                        return Ok(());
                    },
                    _ => {
                        return Err(Error::UnexpectedToken);
                    },
                }
            }
            if DIGIT_0 <= chr && chr <= DIGIT_9 {
                match kind {
                    TokenKind::Identifier(_) | TokenKind::Literal(_) => {
                        token.inc_end();
                        Self::set_last(elements, token);
                        return Ok(());
                    },
                    _ => {},
                }
            }
            if (LOWER_A <= chr && chr <= LOWER_Z) || (UPPER_A <= chr && chr <= UPPER_Z) {
                match kind {
                    TokenKind::Identifier(_) => {
                        token.inc_end();
                        Self::set_last(elements, token);
                        return Ok(());
                    },
                    _ => {},
                }
            }
            if chr == DOT {
                match kind {
                    TokenKind::Literal(Literal::Int) => {
                        token.set_inc(TokenKind::Literal(Literal::Float));
                        Self::set_last(elements, token);
                        return Ok(());
                    },
                    _ => {},
                }
            }
            if chr == MINUS {
                match kind {
                    TokenKind::Operator(_) | TokenKind::Bracket(_) => {
                        Self::insert_neg(elements, index);
                        return Ok(());
                    },
                    _ => {},
                }
            }
            if chr == GREATER || chr == LESS || chr == BANG {
                match kind {
                    TokenKind::Operator(Operator::Equal) => {
                        let combined = if chr == GREATER {
                            Operator::GreaterEqual
                        } else if chr == LESS {
                            Operator::SmallerEqual
                        } else {
                            Operator::NotEqual
                        };
                        token.set_inc(TokenKind::Operator(combined));
                        Self::set_last(elements, token);
                        return Ok(());
                    },
                    _ => {},
                }
            }
            if chr == OPEN {
                match kind {
                    TokenKind::Identifier(_) => {
                        token.set_kind(TokenKind::Identifier(Identifier::Function));
                        Self::set_last(elements, token);
                        Self::new_token_from_kind(
                            elements,
                            TokenKind::Bracket(Bracket::Opened),
                            index,
                        );
                        return Ok(());
                    },
                    _ => {},
                }
            }
            Self::new_token(elements, chr, index)
        } else {
            if chr == COLON {
                Err(Error::UnexpectedToken)
            } else if chr == MINUS {
                Self::insert_neg(elements, index);
                Ok(())
            } else {
                Self::new_token(elements, chr, index)
            }
        }
    }

    /// Lexes the source into tokens.
    pub(crate) fn to_tokens(elements: &mut Vec<ParseElement<T, LANES>>, source: &[u8]) -> (r:
        Result<(), Error>)
        requires
            old(elements)@.len() == 0,
        ensures
            match lexed::<T, LANES>(source@) {
                Ok(after) => r == Ok::<(), Error>(()) && views(final(elements)@) == after
                    && tokens_within(after, source@.len() as int),
                Err(e) => r == Err::<(), Error>(e),
            },
    {
        let mut index: usize = 0;
        assert(views(elements@) =~= Seq::empty());
        while index < source.len()
            invariant
                index <= source@.len(),
                lex_upto::<T, LANES>(source@, index as nat) == Ok::<
                    Seq<ElementView<T, LANES>>,
                    Error,
                >(views(elements@)),
                tokens_within(views(elements@), index as int),
            decreases source@.len() - index,
        {
            let ghost before = views(elements@);
            let chr = source[index];
            match Self::push(elements, chr, index) {
                Ok(()) => {},
                Err(e) => {
                    proof {
                        lemma_lex_error_stays::<T, LANES>(
                            source@,
                            (index + 1) as nat,
                            source@.len(),
                        );
                    }
                    return Err(e);
                },
            }
            proof {
                lemma_step_within(before, chr, index);
            }
            index += 1;
        }
        Ok(())
    }
}

/// Once lexing has failed, it has failed for every longer piece of the
/// source, with the same error.
pub proof fn lemma_lex_error_stays<T, const LANES: usize>(source: Seq<u8>, n: nat, m: nat)
    requires
        n <= m,
        lex_upto::<T, LANES>(source, n) is Err,
    ensures
        lex_upto::<T, LANES>(source, m) == lex_upto::<T, LANES>(source, n),
    decreases m - n,
{
    if n < m {
        lemma_lex_error_stays::<T, LANES>(source, n, (m - 1) as nat);
    }
}

} // verus!
