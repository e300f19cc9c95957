//! Trading pairs and token symbols.
//!
//! A pair is written `BASE/QUOTE`, with one `/` between its two symbols. A
//! token symbol names a balance whatever its case: the ledger keys a balance
//! by the lowercase form of the symbol.

use vstd::prelude::*;
use crate::common_types::TradeError;

verus! {

/// The separator between the base and the quote symbol of a pair.
pub const PAIR_SEPARATOR: char = '/';

/// The lowercase form of a string, as `str::to_lowercase` computes it.
pub uninterp spec fn lowercase(s: Seq<char>) -> Seq<char>;

/// `str::to_lowercase`: the lowercase form of `s` as a new `String`.
#[verifier::external_body]
pub(crate) fn to_lowercase(s: &str) -> (r: String)
    ensures
        r@ == lowercase(s@),
{
    s.to_lowercase()
}

/// `str::split_once` with a `char` delimiter: `None` when the delimiter does
/// not occur, else the text before its first occurrence and the text after it.
#[verifier::external_body]
pub(crate) fn split_once<'a>(s: &'a str, delimiter: char) -> (r: Option<(&'a str, &'a str)>)
    ensures
        match r {
            None => !s@.contains(delimiter),
            Some((head, tail)) => s@ == head@ + seq![delimiter] + tail@ && !head@.contains(
                delimiter,
            ),
        },
{
    s.split_once(delimiter)
}

/// How many separators `text` holds.
pub open spec fn separator_count(text: Seq<char>) -> nat
    decreases text.len(),
{
    if text.len() == 0 {
        0
    } else if text.last() == PAIR_SEPARATOR {
        separator_count(text.drop_last()) + 1
    } else {
        separator_count(text.drop_last())
    }
}

/// Whether `pair` is written `BASE/QUOTE`: it holds exactly one separator.
pub open spec fn is_pair(pair: Seq<char>) -> bool {
    separator_count(pair) == 1
}

/// The symbol before the first separator of `pair`; all of `pair` when it
/// holds none.
pub open spec fn base_symbol(pair: Seq<char>) -> Seq<char>
    decreases pair.len(),
{
    if pair.len() == 0 || pair[0] == PAIR_SEPARATOR {
        Seq::empty()
    } else {
        seq![pair[0]] + base_symbol(pair.drop_first())
    }
}

/// The symbol after the first separator of `pair`; empty when it holds none.
pub open spec fn quote_symbol(pair: Seq<char>) -> Seq<char>
    decreases pair.len(),
{
    if pair.len() == 0 {
        Seq::empty()
    } else if pair[0] == PAIR_SEPARATOR {
        pair.drop_first()
    } else {
        quote_symbol(pair.drop_first())
    }
}

/// A text holds no separator exactly when its count of separators is zero.
pub proof fn lemma_no_separator(text: Seq<char>)
    ensures
        separator_count(text) == 0 <==> !text.contains(PAIR_SEPARATOR),
    decreases text.len(),
{
    if text.len() > 0 {
        let front = text.drop_last();
        lemma_no_separator(front);
        if text.last() == PAIR_SEPARATOR {
            assert(text[text.len() - 1] == PAIR_SEPARATOR);
        } else if front.contains(PAIR_SEPARATOR) {
            let i = choose|i: int| 0 <= i < front.len() && front[i] == PAIR_SEPARATOR;
            assert(text[i] == PAIR_SEPARATOR);
        } else if text.contains(PAIR_SEPARATOR) {
            let i = choose|i: int| 0 <= i < text.len() && text[i] == PAIR_SEPARATOR;
            assert(front[i] == PAIR_SEPARATOR);
        }
    }
}

/// The separators of two texts put together are those of the one and those
/// of the other.
pub proof fn lemma_separators_add(head: Seq<char>, tail: Seq<char>)
    ensures
        separator_count(head + tail) == separator_count(head) + separator_count(tail),
    decreases tail.len(),
{
    if tail.len() == 0 {
        assert(head + tail =~= head);
    } else {
        assert((head + tail).drop_last() =~= head + tail.drop_last());
        assert((head + tail).last() == tail.last());
        lemma_separators_add(head, tail.drop_last());
    }
}

/// A text that is a head without separator, a separator and a tail has the
/// head as its base symbol and the tail as its quote symbol, and holds one
/// separator more than the tail.
pub proof fn lemma_symbols_of_split(head: Seq<char>, tail: Seq<char>)
    requires
        !head.contains(PAIR_SEPARATOR),
    ensures
        base_symbol(head + seq![PAIR_SEPARATOR] + tail) == head,
        quote_symbol(head + seq![PAIR_SEPARATOR] + tail) == tail,
        separator_count(head + seq![PAIR_SEPARATOR] + tail) == 1 + separator_count(tail),
    decreases head.len(),
{
    let pair = head + seq![PAIR_SEPARATOR] + tail;
    assert(separator_count(pair) == 1 + separator_count(tail)) by {
        lemma_no_separator(head);
        lemma_separators_add(head, seq![PAIR_SEPARATOR]);
        lemma_separators_add(head + seq![PAIR_SEPARATOR], tail);
        let single = seq![PAIR_SEPARATOR];
        assert(single.last() == PAIR_SEPARATOR);
        assert(single.drop_last().len() == 0);
        assert(separator_count(single.drop_last()) == 0);
        assert(separator_count(single) == 1);
    }
    assert(pair[head.len() as int] == PAIR_SEPARATOR);
    if head.len() == 0 {
        assert(pair.drop_first() =~= tail);
        assert(base_symbol(pair) =~= head);
    } else {
        assert(head[0] != PAIR_SEPARATOR);
        assert(pair[0] == head[0]);
        let rest = head.drop_first();
        assert forall|c: char| rest.contains(c) implies head.contains(c) by {
            let i = choose|i: int| 0 <= i < rest.len() && rest[i] == c;
            assert(head[i + 1] == c);
        }
        assert(pair.drop_first() =~= rest + seq![PAIR_SEPARATOR] + tail);
        lemma_symbols_of_split(rest, tail);
        assert(seq![head[0]] + rest =~= head);
    }
}

/// Splits a pair into its base and quote symbols. A text without separator,
/// or with more than one, is no pair.
pub fn parse_trading_pair<'a>(pair: &'a str) -> (r: Result<(&'a str, &'a str), TradeError>)
    ensures
        r is Ok <==> is_pair(pair@),
        r is Err ==> r == Err::<(&str, &str), TradeError>(TradeError::InvalidTradePair),
        r is Ok ==> r->Ok_0.0@ == base_symbol(pair@) && r->Ok_0.1@ == quote_symbol(pair@) && pair@
            == r->Ok_0.0@ + seq![PAIR_SEPARATOR] + r->Ok_0.1@,
{
    match split_once(pair, PAIR_SEPARATOR) {
        Some((base, quote)) => {
            proof {
                lemma_symbols_of_split(base@, quote@);
                lemma_no_separator(quote@);
            }
            match split_once(quote, PAIR_SEPARATOR) {
                Some((second, _)) => {
                    proof {
                        assert(quote@[second@.len() as int] == PAIR_SEPARATOR);
                    }
                    Err(TradeError::InvalidTradePair)
                },
                None => Ok((base, quote)),
            }
        },
        None => {
            proof {
                lemma_no_separator(pair@);
            }
            Err(TradeError::InvalidTradePair)
        },
    }
}

} // verus!
