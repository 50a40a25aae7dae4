//! Expressions for the lexical index: a disjunction of quoted exact terms.

use vstd::prelude::*;
use vstd::string::StringExecFns;
use vstd::utf8::encode_utf8;
use crate::text::{join, split_whitespace, tokens};

verus! {

/// Most words of a content that the search for near-duplicates looks at.
pub const DEDUP_WORDS: usize = 20;

/// A term stands between two double quotes, so that the index takes it as
/// it is.
pub open spec fn quoted(term: Seq<char>) -> Seq<char> {
    seq!['"'] + term + seq!['"']
}

/// The expression that matches a row holding any of `terms`: the quoted
/// terms with ` OR ` between them. It is empty for no terms.
pub open spec fn or_query(terms: Seq<Seq<char>>) -> Seq<char> {
    join(terms.map_values(|t: Seq<char>| quoted(t)), " OR "@)
}

/// Whether a word is long enough to narrow the search for near-duplicates:
/// more than two bytes of UTF-8.
pub open spec fn is_long() -> spec_fn(Seq<char>) -> bool {
    |t: Seq<char>| encode_utf8(t).len() > 2
}

/// The first words of `content`, at most `DEDUP_WORDS` of them.
pub open spec fn leading_words(content: Seq<char>) -> Seq<Seq<char>> {
    let words = tokens(content);
    if words.len() <= DEDUP_WORDS {
        words
    } else {
        words.take(DEDUP_WORDS as int)
    }
}

/// The terms by which near-duplicates of `content` are looked up: the long
/// ones among its leading words.
pub open spec fn narrowing_terms(content: Seq<char>) -> Seq<Seq<char>> {
    leading_words(content).filter(is_long())
}

/// Writes the disjunction of `terms`.
pub fn build_or_query(terms: &Vec<String>) -> (query: String)
    ensures
        query@ == or_query(terms.deep_view()),
{
    let mut query = String::new();
    let mut i: usize = 0;
    while i < terms.len()
        invariant
            i <= terms.len(),
            query@ == or_query(terms.deep_view().take(i as int)),
        decreases terms.len() - i,
    {
        let ghost done = terms.deep_view().take(i as int).map_values(|t: Seq<char>| quoted(t));
        let ghost grown = terms.deep_view().take(i + 1).map_values(|t: Seq<char>| quoted(t));
        let ghost term = terms.deep_view()[i as int];
        assert(grown.drop_last() =~= done && grown.last() == quoted(term));
        let ghost before = query@;
        if i > 0 {
            query.append(" OR ");
        }
        query.push('"');
        query.append(terms[i].as_str());
        query.push('"');
        proof {
            if i > 0 {
                assert(query@ =~= before + " OR "@ + quoted(term));
            } else {
                assert(query@ =~= quoted(term));
            }
        }
        i += 1;
    }
    assert(terms.deep_view().take(terms.len() as int) =~= terms.deep_view());
    query
}

/// The terms by which near-duplicates of `content` are looked up.
pub fn dedup_terms(content: &str) -> (terms: Vec<String>)
    ensures
        terms.deep_view() == narrowing_terms(content@),
{
    let words = split_whitespace(content);
    let count = if words.len() <= DEDUP_WORDS {
        words.len()
    } else {
        DEDUP_WORDS
    };
    let mut terms: Vec<String> = Vec::new();
    let mut i: usize = 0;
    proof {
        reveal(Seq::filter);
        assert(words.deep_view().take(0).filter(is_long()) =~= Seq::<Seq<char>>::empty());
    }
    while i < count
        invariant
            i <= count <= words.len(),
            terms.deep_view() == words.deep_view().take(i as int).filter(is_long()),
        decreases count - i,
    {
        let ghost read = words.deep_view().take(i as int);
        let ghost word = words.deep_view()[i as int];
        let ghost kept = terms.deep_view();
        proof {
            assert(words.deep_view().take(i + 1) =~= read.push(word));
            read.lemma_filter_push(word, is_long());
        }
        let bytes = words[i].as_str().as_bytes();
        assert(bytes@ == encode_utf8(word));
        if bytes.len() > 2 {
            terms.push(words[i].clone());
            assert(terms.deep_view() =~= kept.push(word));
        }
        i += 1;
    }
    assert(words.deep_view().take(words.len() as int) =~= words.deep_view());
    terms
}

/// The expression that matches a row holding any word of `query`, or `None`
/// where `query` has no words.
pub fn match_query(query: &str) -> (expr: Option<String>)
    ensures
        tokens(query@).len() == 0 ==> expr is None,
        tokens(query@).len() > 0 ==> expr is Some && expr->0@ == or_query(tokens(query@)),
{
    let words = split_whitespace(query);
    if words.len() == 0 {
        None
    } else {
        Some(build_or_query(&words))
    }
}

} // verus!
