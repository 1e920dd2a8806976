//! Layout of recognized text: how words join into a line for languages
//! written without spaces, word order for right-to-left languages, and the
//! lines of the final text.
use vstd::prelude::*;

use crate::text::{
    char_vecs, chars_of, chars_start_with, is_alphanumeric_ascii, is_ascii_alnum, is_ws, join,
    join_strings, lemma_join_append, lemma_join_empty, lemma_non_empty_append, lemma_non_empty_keeps, lemma_non_empty_pieces, lemma_split_join,
    lemma_split_on_pieces_have_no_sep, non_empty, push_char, push_chars, split_on,
    split_whitespace_chars, starts_with, string_from_chars, strings_view, trim, trim_chars, ws_sep,
};

verus! {

broadcast use vstd::string::group_string_axioms;

/// One recognized line, as the recognizer gives it: its whole text, or its
/// words where the language is written without spaces.
#[derive(Debug, Clone)]
pub enum OcrLine {
    Text(String),
    Words(Vec<String>),
}

/// Languages written without spaces between words: Chinese and Japanese.
pub open spec fn no_space_language(tag: Seq<char>) -> bool {
    starts_with(tag, "zh"@) || starts_with(tag, "ja"@)
}

/// Languages written right to left: Arabic, Persian, Hebrew and Urdu.
pub open spec fn right_to_left_language(tag: Seq<char>) -> bool {
    ||| starts_with(tag, "ar"@)
    ||| starts_with(tag, "fa"@)
    ||| starts_with(tag, "he"@)
    ||| starts_with(tag, "ur"@)
}

/// Whether a word usually stands apart with spaces: a word of more than one
/// character, or a single ASCII letter or digit.
pub open spec fn separated_by_space(w: Seq<char>) -> bool {
    w.len() > 1 || (w.len() == 1 && is_ascii_alnum(w[0]))
}

/// The words of a line joined, with a space before a word where the text so
/// far is not empty and this word or the one before stands apart with spaces;
/// and whether the last word stands apart.
pub open spec fn join_words(words: Seq<Seq<char>>) -> (Seq<char>, bool)
    decreases words.len(),
{
    if words.len() == 0 {
        (Seq::empty(), false)
    } else {
        let (joined, previous) = join_words(words.drop_last());
        let w = words.last();
        let current = separated_by_space(w);
        let spaced = if joined.len() > 0 && (current || previous) {
            joined.push(' ')
        } else {
            joined
        };
        (spaced + w, current)
    }
}

/// The words of a text in reverse order, separated by single spaces.
pub open spec fn reversed_words(s: Seq<char>) -> Seq<char> {
    join(non_empty(split_on(s, ws_sep())).reverse(), " "@)
}

/// The text of one recognized line.
pub open spec fn line_text(line: OcrLine) -> Seq<char> {
    match line {
        OcrLine::Text(t) => t@,
        OcrLine::Words(ws) => join_words(strings_view(ws@)).0,
    }
}

/// A line as it stands in the output: in reversed word order for a
/// right-to-left language, then trimmed.
pub open spec fn laid_out_line(tag: Seq<char>, line: OcrLine) -> Seq<char> {
    trim(
        if right_to_left_language(tag) {
            reversed_words(line_text(line))
        } else {
            line_text(line)
        },
    )
}

/// The laid-out lines, in order.
pub open spec fn laid_out_lines(tag: Seq<char>, lines: Seq<OcrLine>) -> Seq<Seq<char>> {
    lines.map_values(|l: OcrLine| laid_out_line(tag, l))
}

/// The recognized text: the non-empty laid-out lines joined by CR LF.
pub open spec fn formatted_text(tag: Seq<char>, lines: Seq<OcrLine>) -> Seq<char> {
    join(non_empty(laid_out_lines(tag, lines)), "\r\n"@)
}

/// Whether the language of a tag is written without spaces.
pub fn is_no_space_language(language_tag: &str) -> (r: bool)
    ensures
        r == no_space_language(language_tag@),
{
    let t = chars_of(language_tag);
    chars_start_with(&t, &chars_of("zh")) || chars_start_with(&t, &chars_of("ja"))
}

/// Whether the language of a tag is written right to left.
pub fn is_right_to_left(language_tag: &str) -> (r: bool)
    ensures
        r == right_to_left_language(language_tag@),
{
    let t = chars_of(language_tag);
    chars_start_with(&t, &chars_of("ar")) || chars_start_with(&t, &chars_of("fa"))
        || chars_start_with(&t, &chars_of("he")) || chars_start_with(&t, &chars_of("ur"))
}

fn separated_chars(w: &Vec<char>) -> (r: bool)
    ensures
        r == separated_by_space(w@),
{
    if w.len() == 0 {
        return false;
    }
    if w.len() > 1 {
        return true;
    }
    is_alphanumeric_ascii(w[0])
}

/// Whether a recognized word usually stands apart with spaces.
pub fn word_usually_separated_by_space(word: &str) -> (r: bool)
    ensures
        r == separated_by_space(word@),
{
    let w = chars_of(word);
    separated_chars(&w)
}

fn reversed_words_chars(s: &Vec<char>) -> (r: Vec<char>)
    ensures
        r@ == reversed_words(s@),
{
    let words = split_whitespace_chars(s);
    let mut rev: Vec<Vec<char>> = Vec::new();
    let mut i: usize = words.len();
    while i > 0
        invariant
            i <= words.len(),
            char_vecs(rev@) == char_vecs(words@).skip(i as int).reverse(),
        decreases i,
    {
        i = i - 1;
        let ghost before = char_vecs(rev@);
        rev.push(crate::text::chars_skip(&words[i], 0));
        assert(words[i as int]@.skip(0) == words[i as int]@);
        let ghost cv = char_vecs(words@);
        assert(char_vecs(rev@) =~= before.push(cv[i as int]));
        assert(cv.skip(i as int).reverse() =~= cv.skip(i + 1).reverse().push(cv[i as int]));
    }
    assert(char_vecs(words@).skip(0) == char_vecs(words@));
    let joined = join_strings(&rev, &chars_of(" "));
    chars_of(joined.as_str())
}

/// The words of a text in reverse order, separated by single spaces.
pub fn reverse_words(text: &str) -> (r: String)
    ensures
        r@ == reversed_words(text@),
{
    let s = chars_of(text);
    let r = reversed_words_chars(&s);
    string_from_chars(&r)
}

fn join_word_chars(words: &Vec<String>) -> (r: Vec<char>)
    ensures
        r@ == join_words(strings_view(words@)).0,
{
    let mut joined: Vec<char> = Vec::new();
    let mut previous = false;
    let mut i: usize = 0;
    while i < words.len()
        invariant
            i <= words.len(),
            join_words(strings_view(words@).take(i as int)) == (joined@, previous),
        decreases words.len() - i,
    {
        let ghost all = strings_view(words@);
        assert(all.take(i + 1).drop_last() == all.take(i as int));
        assert(all.take(i + 1).last() == words[i as int]@);
        let w = chars_of(words[i].as_str());
        let current = separated_chars(&w);
        if joined.len() > 0 && (current || previous) {
            joined.push(' ');
        }
        let mut k: usize = 0;
        let ghost base = joined@;
        while k < w.len()
            invariant
                k <= w.len(),
                joined@ == base + w@.take(k as int),
            decreases w.len() - k,
        {
            joined.push(w[k]);
            k = k + 1;
            assert(w@.take(k as int) == w@.take(k - 1).push(w@[k - 1]));
        }
        assert(w@.take(w.len() as int) == w@);
        previous = current;
        i = i + 1;
    }
    assert(strings_view(words@).take(words.len() as int) == strings_view(words@));
    joined
}

/// The words of one line joined for a language written without spaces.
pub fn join_line_words(words: &Vec<String>) -> (r: String)
    ensures
        r@ == join_words(strings_view(words@)).0,
{
    let j = join_word_chars(words);
    string_from_chars(&j)
}

/// The recognized text of all lines, laid out for the recognizer's language.
pub fn format_ocr_lines(language_tag: &str, lines: &Vec<OcrLine>) -> (r: String)
    ensures
        r@ == formatted_text(language_tag@, lines@),
{
    let rtl = is_right_to_left(language_tag);
    let ghost tag = language_tag@;
    let mut output: Vec<Vec<char>> = Vec::new();
    let mut i: usize = 0;
    while i < lines.len()
        invariant
            i <= lines.len(),
            rtl == right_to_left_language(tag),
            char_vecs(output@) == non_empty(laid_out_lines(tag, lines@.take(i as int))),
        decreases lines.len() - i,
    {
        let text: Vec<char> = match &lines[i] {
            OcrLine::Text(t) => chars_of(t.as_str()),
            OcrLine::Words(ws) => join_word_chars(ws),
        };
        assert(text@ == line_text(lines[i as int]));
        let ordered = if rtl {
            reversed_words_chars(&text)
        } else {
            text
        };
        let trimmed = trim_chars(&ordered);
        assert(trimmed@ == laid_out_line(tag, lines[i as int]));
        let ghost before = char_vecs(output@);
        let ghost all = laid_out_lines(tag, lines@.take(i + 1));
        assert(all.drop_last() =~= laid_out_lines(tag, lines@.take(i as int)));
        assert(all.last() == trimmed@);
        if trimmed.len() > 0 {
            output.push(trimmed);
            assert(char_vecs(output@) =~= before.push(all.last()));
        }
        i = i + 1;
    }
    assert(lines@.take(lines.len() as int) == lines@);
    join_strings(&output, &chars_of("\r\n"))
}

/// Reversing the word order twice gives the words in their first order,
/// separated by single spaces.
pub proof fn lemma_reverse_words_twice(s: Seq<char>)
    ensures
        reversed_words(reversed_words(s)) == join(non_empty(split_on(s, ws_sep())), " "@),
{
    reveal_strlit(" ");
    assert(" "@ =~= seq![' ']);
    let words = non_empty(split_on(s, ws_sep()));
    lemma_split_on_pieces_have_no_sep(s, ws_sep());
    let not_ws = |c: char| !is_ws(c);
    assert forall|i: int, j: int|
        0 <= i < split_on(s, ws_sep()).len() && 0 <= j < split_on(s, ws_sep())[i].len() implies not_ws(
        #[trigger] split_on(s, ws_sep())[i][j],
    ) by {
        assert(!ws_sep()(split_on(s, ws_sep())[i][j]));
    }
    lemma_non_empty_pieces(split_on(s, ws_sep()), not_ws);
    let rev = words.reverse();
    let once = join(rev, seq![' ']);
    if words.len() == 0 {
        assert(once == Seq::<char>::empty());
        let single = seq![Seq::<char>::empty()];
        assert(split_on(once, ws_sep()) =~= single);
        assert(single.drop_last() =~= Seq::<Seq<char>>::empty());
        assert(non_empty(single.drop_last()) == Seq::<Seq<char>>::empty());
        assert(non_empty(single) =~= Seq::<Seq<char>>::empty());
        assert(join(Seq::<Seq<char>>::empty().reverse(), " "@) == Seq::<char>::empty());
    } else {
        assert forall|i: int, j: int| 0 <= i < rev.len() && 0 <= j < rev[i].len() implies !ws_sep()(
            #[trigger] rev[i][j],
        ) by {
            assert(rev[i] == words[words.len() - 1 - i]);
            assert(not_ws(words[words.len() - 1 - i][j]));
        }
        assert(ws_sep()(' '));
        lemma_split_join(rev, ' ', ws_sep());
        assert forall|k: int| 0 <= k < rev.len() implies #[trigger] rev[k].len() > 0 by {
            assert(rev[k] == words[words.len() - 1 - k]);
        }
        lemma_non_empty_keeps(rev);
        assert(rev.reverse() =~= words);
    }
}

/// The recognized text keeps the recognizer's line order, for every
/// language: the text of some lines followed by more lines is the first
/// text, a line break and the second text (where both have any), and a
/// single line gives its laid-out text.
pub proof fn lemma_formatted_text_in_order(tag: Seq<char>, a: Seq<OcrLine>, b: Seq<OcrLine>)
    ensures
        formatted_text(tag, a).len() > 0 && formatted_text(tag, b).len() > 0 ==> formatted_text(
            tag,
            a + b,
        ) == formatted_text(tag, a) + "\r\n"@ + formatted_text(tag, b),
        formatted_text(tag, b).len() == 0 ==> formatted_text(tag, a + b) == formatted_text(tag, a),
        formatted_text(tag, a).len() == 0 ==> formatted_text(tag, a + b) == formatted_text(tag, b),
        a.len() == 1 ==> formatted_text(tag, a) == laid_out_line(tag, a[0]),
{
    let sep = "\r\n"@;
    let la = laid_out_lines(tag, a);
    let lb = laid_out_lines(tag, b);
    assert(laid_out_lines(tag, a + b) =~= la + lb);
    lemma_non_empty_append(la, lb);
    let na = non_empty(la);
    let nb = non_empty(lb);
    let trivially = |c: char| true;
    lemma_non_empty_pieces(la, trivially);
    lemma_non_empty_pieces(lb, trivially);
    lemma_join_empty(na, sep);
    lemma_join_empty(nb, sep);
    if na.len() > 0 && nb.len() > 0 {
        lemma_join_append(na, nb, sep);
    }
    if nb.len() == 0 {
        assert(na + nb =~= na);
    }
    if na.len() == 0 {
        assert(na + nb =~= nb);
    }
    if a.len() == 1 {
        let l = laid_out_line(tag, a[0]);
        assert(la =~= seq![l]);
        assert(la.drop_last() =~= Seq::<Seq<char>>::empty());
        assert(non_empty(la.drop_last()) == Seq::<Seq<char>>::empty());
        if l.len() > 0 {
            assert(na =~= seq![l]);
        } else {
            assert(na =~= Seq::<Seq<char>>::empty());
        }
    }
}

} // verus!
