//! Words of a text: splitting on whitespace and joining with a separator.
//!
//! A text is modelled by its sequence of characters. Its words are the
//! maximal runs of characters that are not whitespace, in the order in
//! which they occur.

use vstd::prelude::*;
use vstd::std_specs::iter::IteratorSpec;
use vstd::string::StringExecFns;

verus! {

/// Whether `c` separates words: it carries the Unicode `White_Space`
/// property, which 25 characters have. They are the control characters
/// U+0009 to U+000D and U+0085, the spaces U+0020, U+00A0, U+1680, U+2000
/// to U+200A, U+202F, U+205F and U+3000, and the separators U+2028 and
/// U+2029.
#[verifier::opaque]
pub open spec fn is_space(c: char) -> bool {
    let n = c as int;
    ||| 0x0009 <= n <= 0x000D
    ||| n == 0x0020
    ||| n == 0x0085
    ||| n == 0x00A0
    ||| n == 0x1680
    ||| 0x2000 <= n <= 0x200A
    ||| n == 0x2028
    ||| n == 0x2029
    ||| n == 0x202F
    ||| n == 0x205F
    ||| n == 0x3000
}

/// The lowercase form of a text, as Unicode defines it.
pub uninterp spec fn lowercase(s: Seq<char>) -> Seq<char>;

/// `char::is_whitespace`: the answer is whether the character carries the
/// `White_Space` property.
pub assume_specification[ char::is_whitespace ](c: char) -> (b: bool)
    ensures
        b == is_space(c),
;

/// `String::push`: the character is appended at the end.
pub assume_specification[ String::push ](s: &mut String, c: char)
    ensures
        final(s)@ == old(s)@.push(c),
;

/// `str::to_lowercase`: the result is the lowercase form of the text, which
/// depends on the text alone.
pub assume_specification[ str::to_lowercase ](s: &str) -> (lower: String)
    ensures
        lower@ == lowercase(s@),
;

/// Whether the two texts hold the same characters.
pub(crate) fn str_eq(a: &str, b: &str) -> (same: bool)
    ensures
        same == (a@ == b@),
{
    a.to_owned() == b.to_owned()
}

/// The words of `s`, defined by reading `s` up to its last character `c`:
/// whitespace adds nothing, a character that follows a word character
/// extends the last word, and any other character starts a new word.
pub open spec fn tokens(s: Seq<char>) -> Seq<Seq<char>>
    decreases s.len(),
{
    if s.len() == 0 {
        Seq::empty()
    } else {
        let before = tokens(s.drop_last());
        if is_space(s.last()) {
            before
        } else if ends_in_word(s.drop_last()) {
            before.drop_last().push(before.last().push(s.last()))
        } else {
            before.push(seq![s.last()])
        }
    }
}

/// Whether the last character of `s` belongs to a word.
pub open spec fn ends_in_word(s: Seq<char>) -> bool {
    s.len() > 0 && !is_space(s.last())
}

/// A word: at least one character, none of them whitespace.
pub open spec fn is_word(w: Seq<char>) -> bool {
    w.len() > 0 && forall|i: int| 0 <= i < w.len() ==> !is_space(#[trigger] w[i])
}

/// Every element of `ws` is a word.
pub open spec fn all_words(ws: Seq<Seq<char>>) -> bool {
    forall|i: int| 0 <= i < ws.len() ==> is_word(#[trigger] ws[i])
}

/// The elements of `ws` written one after the other with `sep` between
/// each two neighbours.
pub open spec fn join(ws: Seq<Seq<char>>, sep: Seq<char>) -> Seq<char>
    decreases ws.len(),
{
    if ws.len() == 0 {
        Seq::empty()
    } else if ws.len() == 1 {
        ws[0]
    } else {
        join(ws.drop_last(), sep) + sep + ws.last()
    }
}

/// The separator that chunks and queries put between two words.
pub open spec fn space() -> Seq<char> {
    seq![' ']
}

/// A text that ends in a word has at least one word, and its last word ends
/// with the last character of the text.
pub proof fn lemma_tokens_last(s: Seq<char>)
    requires
        ends_in_word(s),
    ensures
        tokens(s).len() > 0,
        tokens(s).last().len() > 0,
        tokens(s).last().last() == s.last(),
    decreases s.len(),
{
    if ends_in_word(s.drop_last()) {
        lemma_tokens_last(s.drop_last());
    }
}

/// What `tokens` yields is made of words.
pub proof fn lemma_tokens_are_words(s: Seq<char>)
    ensures
        all_words(tokens(s)),
    decreases s.len(),
{
    if s.len() > 0 {
        let init = s.drop_last();
        let before = tokens(init);
        lemma_tokens_are_words(init);
        if is_space(s.last()) {
        } else if ends_in_word(init) {
            lemma_tokens_last(init);
            let grown = before.last().push(s.last());
            assert(is_word(before.last()));
            assert forall|i: int| 0 <= i < grown.len() implies !is_space(#[trigger] grown[i]) by {
                if i < before.last().len() {
                    assert(grown[i] == before.last()[i]);
                }
            }
            assert forall|i: int| 0 <= i < tokens(s).len() implies is_word(
                #[trigger] tokens(s)[i],
            ) by {
                if i < before.len() - 1 {
                    assert(tokens(s)[i] == before[i]);
                }
            }
        } else {
            assert forall|i: int| 0 <= i < tokens(s).len() implies is_word(
                #[trigger] tokens(s)[i],
            ) by {
                if i < before.len() {
                    assert(tokens(s)[i] == before[i]);
                }
            }
        }
    }
}

/// Writing a word directly behind a text that does not end in a word adds
/// that word to the words of the text.
pub proof fn lemma_tokens_append_word(s: Seq<char>, w: Seq<char>)
    requires
        !ends_in_word(s),
        is_word(w),
    ensures
        tokens(s + w) == tokens(s).push(w),
        ends_in_word(s + w),
    decreases w.len(),
{
    let c = w.last();
    let init = w.drop_last();
    assert((s + w).drop_last() =~= s + init);
    assert((s + w).last() == c);
    if init.len() == 0 {
        assert(s + init =~= s);
        assert(w =~= seq![c]);
    } else {
        assert forall|i: int| 0 <= i < init.len() implies !is_space(#[trigger] init[i]) by {
            assert(init[i] == w[i]);
        }
        lemma_tokens_append_word(s, init);
        assert(tokens(s).push(init).drop_last() =~= tokens(s));
        assert(init.push(c) =~= w);
    }
}

/// The words of words joined by single spaces are those words.
pub proof fn lemma_tokens_of_join(ws: Seq<Seq<char>>)
    requires
        all_words(ws),
    ensures
        tokens(join(ws, space())) == ws,
        ws.len() > 0 ==> ends_in_word(join(ws, space())),
    decreases ws.len(),
{
    if ws.len() == 0 {
    } else if ws.len() == 1 {
        assert(is_word(ws[0]));
        assert(Seq::<char>::empty() + ws[0] =~= ws[0]);
        lemma_tokens_append_word(Seq::empty(), ws[0]);
        assert(Seq::<Seq<char>>::empty().push(ws[0]) =~= ws);
    } else {
        let init = ws.drop_last();
        assert forall|i: int| 0 <= i < init.len() implies is_word(#[trigger] init[i]) by {
            assert(init[i] == ws[i]);
        }
        lemma_tokens_of_join(init);
        let head = join(init, space()) + space();
        assert(head.drop_last() =~= join(init, space()));
        assert(head.last() == ' ');
        assert(is_space(' ')) by {
            reveal(is_space);
        }
        assert(tokens(head) == init);
        assert(is_word(ws.last()));
        lemma_tokens_append_word(head, ws.last());
        assert(init.push(ws.last()) =~= ws);
    }
}

/// The characters of `text`.
pub fn chars_of(text: &str) -> (chars: Vec<char>)
    ensures
        chars@ == text@,
{
    let mut chars: Vec<char> = Vec::new();
    for c in it: text.chars()
        invariant
            it.seq() == text@,
            chars@ == it.seq().take(it.index() as int),
    {
        chars.push(c);
        assert(it.seq().take(it.index() + 1) =~= it.seq().take(it.index() as int).push(c));
    }
    assert(text@.take(text@.len() as int) =~= text@);
    chars
}

/// The text made of `chars[from..to]`.
pub fn text_of(chars: &Vec<char>, from: usize, to: usize) -> (text: String)
    requires
        from <= to <= chars.len(),
    ensures
        text@ == chars@.subrange(from as int, to as int),
{
    let mut text = String::new();
    let mut i: usize = from;
    while i < to
        invariant
            from <= i <= to <= chars.len(),
            text@ == chars@.subrange(from as int, i as int),
        decreases to - i,
    {
        text.push(chars[i]);
        assert(text@ =~= chars@.subrange(from as int, i + 1));
        i += 1;
    }
    text
}

/// The first `count` characters of `text`, or all of it where it has
/// fewer.
pub open spec fn prefix(text: Seq<char>, count: int) -> Seq<char> {
    if count < text.len() {
        text.take(count)
    } else {
        text
    }
}

/// The first `count` characters of `text`.
pub fn take_chars(text: &str, count: usize) -> (head: String)
    ensures
        head@ == prefix(text@, count as int),
{
    let chars = chars_of(text);
    if count < chars.len() {
        text_of(&chars, 0, count)
    } else {
        text.to_owned()
    }
}

/// Whether `a` comes before `b` in the order of texts: character by
/// character, by code point, a text before its extensions.
pub open spec fn lex_less(a: Seq<char>, b: Seq<char>) -> bool
    decreases a.len(),
{
    if b.len() == 0 {
        false
    } else if a.len() == 0 {
        true
    } else if a[0] != b[0] {
        (a[0] as int) < (b[0] as int)
    } else {
        lex_less(a.drop_first(), b.drop_first())
    }
}

/// Of two different texts one comes before the other, and never both.
pub proof fn lemma_lex_total(a: Seq<char>, b: Seq<char>)
    ensures
        a == b || lex_less(a, b) || lex_less(b, a),
        !(lex_less(a, b) && lex_less(b, a)),
    decreases a.len(),
{
    if a.len() == 0 || b.len() == 0 {
        if a.len() == 0 && b.len() == 0 {
            assert(a =~= b);
        }
    } else if a[0] == b[0] {
        lemma_lex_total(a.drop_first(), b.drop_first());
        if a.drop_first() == b.drop_first() {
            assert(a =~= seq![a[0]] + a.drop_first());
            assert(b =~= seq![b[0]] + b.drop_first());
        }
    } else {
        assert(a[0] as int != b[0] as int);
    }
}

/// No text comes before itself.
pub proof fn lemma_lex_irreflexive(a: Seq<char>)
    ensures
        !lex_less(a, a),
    decreases a.len(),
{
    if a.len() > 0 {
        lemma_lex_irreflexive(a.drop_first());
    }
}

/// The order of texts is transitive.
pub proof fn lemma_lex_transitive(a: Seq<char>, b: Seq<char>, c: Seq<char>)
    requires
        lex_less(a, b),
        lex_less(b, c),
    ensures
        lex_less(a, c),
    decreases a.len(),
{
    if a.len() > 0 && a[0] == b[0] && b[0] == c[0] {
        lemma_lex_transitive(a.drop_first(), b.drop_first(), c.drop_first());
    }
}

/// Whether `a` comes before `b` in the order of texts.
pub fn text_less(a: &str, b: &str) -> (less: bool)
    ensures
        less == lex_less(a@, b@),
{
    let x = chars_of(a);
    let y = chars_of(b);
    let mut i: usize = 0;
    proof {
        assert(x@.skip(0) =~= x@);
        assert(y@.skip(0) =~= y@);
    }
    while i < x.len() && i < y.len()
        invariant
            i <= x.len(),
            i <= y.len(),
            x@ == a@,
            y@ == b@,
            lex_less(a@, b@) == lex_less(x@.skip(i as int), y@.skip(i as int)),
        decreases x.len() - i,
    {
        let ghost xs = x@.skip(i as int);
        let ghost ys = y@.skip(i as int);
        assert(xs.drop_first() =~= x@.skip(i + 1) && ys.drop_first() =~= y@.skip(i + 1));
        assert(xs[0] == x@[i as int] && ys[0] == y@[i as int]);
        if x[i] != y[i] {
            return x[i] < y[i];
        }
        i += 1;
    }
    i < y.len()
}

/// The words of `text`, in order: what `tokens` says of its characters.
pub fn split_whitespace(text: &str) -> (words: Vec<String>)
    ensures
        words.deep_view() == tokens(text@),
{
    let mut words: Vec<String> = Vec::new();
    let mut current = String::new();
    let mut in_word = false;
    for c in it: text.chars()
        invariant
            it.seq() == text@,
            in_word == ends_in_word(it.seq().take(it.index() as int)),
            in_word ==> tokens(it.seq().take(it.index() as int)) == words.deep_view().push(
                current@,
            ),
            !in_word ==> current@.len() == 0 && tokens(it.seq().take(it.index() as int))
                == words.deep_view(),
    {
        let ghost read = it.seq().take(it.index() as int);
        let ghost next = it.seq().take(it.index() + 1);
        assert(next.drop_last() =~= read && next.last() == c);
        if c.is_whitespace() {
            if in_word {
                let ghost done = words.deep_view();
                words.push(current);
                assert(words.deep_view() =~= done.push(current@));
                current = String::new();
                in_word = false;
            }
        } else {
            let ghost before = current@;
            current.push(c);
            proof {
                if in_word {
                    assert(words.deep_view().push(before).drop_last() =~= words.deep_view());
                } else {
                    assert(before.push(c) =~= seq![c]);
                }
            }
            in_word = true;
        }
    }
    assert(text@.take(text@.len() as int) =~= text@);
    if in_word {
        let ghost done = words.deep_view();
        words.push(current);
        assert(words.deep_view() =~= done.push(current@));
    }
    words
}

/// The texts `items[from..to]` with `sep` between each two neighbours.
pub fn join_with(items: &Vec<String>, from: usize, to: usize, sep: &str) -> (text: String)
    requires
        from <= to <= items.len(),
    ensures
        text@ == join(items.deep_view().subrange(from as int, to as int), sep@),
{
    let mut text = String::new();
    let mut i: usize = from;
    while i < to
        invariant
            from <= i <= to <= items.len(),
            text@ == join(items.deep_view().subrange(from as int, i as int), sep@),
        decreases to - i,
    {
        let ghost done = items.deep_view().subrange(from as int, i as int);
        let ghost grown = items.deep_view().subrange(from as int, i + 1);
        assert(grown.drop_last() =~= done && grown.last() == items[i as int]@);
        if i > from {
            text.append(sep);
        } else {
            assert(Seq::<char>::empty() + items[i as int]@ =~= items[i as int]@);
        }
        text.append(items[i].as_str());
        i += 1;
    }
    text
}

/// The words `words[from..to]` joined by single spaces.
pub fn join_words(words: &Vec<String>, from: usize, to: usize) -> (text: String)
    requires
        from <= to <= words.len(),
    ensures
        text@ == join(words.deep_view().subrange(from as int, to as int), space()),
{
    proof {
        reveal_strlit(" ");
        assert(" "@ =~= space());
    }
    join_with(words, from, to, " ")
}

} // verus!
