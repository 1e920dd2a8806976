//! Character-level text model: whitespace, ASCII case, trimming, splitting
//! and joining, stated over `Seq<char>` and implemented over `Vec<char>`.
use vstd::prelude::*;

verus! {

broadcast use vstd::string::group_string_axioms;

/// The Unicode `White_Space` property, which `char::is_whitespace` tests.
pub open spec fn is_ws(c: char) -> bool {
    let u = c as u32;
    ||| 0x09 <= u <= 0x0d
    ||| u == 0x20
    ||| u == 0x85
    ||| u == 0xa0
    ||| u == 0x1680
    ||| 0x2000 <= u <= 0x200a
    ||| u == 0x2028
    ||| u == 0x2029
    ||| u == 0x202f
    ||| u == 0x205f
    ||| u == 0x3000
}

pub open spec fn is_ascii_digit(c: char) -> bool {
    '0' <= c <= '9'
}

pub open spec fn is_ascii_alnum(c: char) -> bool {
    ||| '0' <= c <= '9'
    ||| 'A' <= c <= 'Z'
    ||| 'a' <= c <= 'z'
}

pub open spec fn is_ascii_lower(c: char) -> bool {
    'a' <= c <= 'z'
}

/// ASCII upper case of one character; every other character is kept.
pub open spec fn ascii_upper(c: char) -> char {
    if is_ascii_lower(c) {
        ((c as u32) - 32) as char
    } else {
        c
    }
}

/// ASCII lower case of one character; every other character is kept.
pub open spec fn ascii_lower(c: char) -> char {
    if 'A' <= c <= 'Z' {
        ((c as u32) + 32) as char
    } else {
        c
    }
}

pub open spec fn ascii_upper_seq(s: Seq<char>) -> Seq<char> {
    s.map_values(|c: char| ascii_upper(c))
}

/// Equality that ignores ASCII case, as `str::eq_ignore_ascii_case`.
pub open spec fn eq_ignore_ascii_case(a: Seq<char>, b: Seq<char>) -> bool {
    &&& a.len() == b.len()
    &&& forall|i: int| 0 <= i < a.len() ==> #[trigger] ascii_lower(a[i]) == ascii_lower(b[i])
}

pub open spec fn starts_with(s: Seq<char>, prefix: Seq<char>) -> bool {
    prefix.len() <= s.len() && s.take(prefix.len() as int) == prefix
}

/// First index at or after `i` whose character is not whitespace.
pub open spec fn skip_ws_from(s: Seq<char>, i: int) -> int
    decreases s.len() - i,
{
    if 0 <= i < s.len() && is_ws(s[i]) {
        skip_ws_from(s, i + 1)
    } else {
        i
    }
}

/// Largest end `j`, at most `end` and at least `start`, such that `s[j - 1]` is
/// not whitespace (or `j == start`).
pub open spec fn skip_ws_back(s: Seq<char>, start: int, end: int) -> int
    decreases end - start,
{
    if start < end && end <= s.len() && is_ws(s[end - 1]) {
        skip_ws_back(s, start, end - 1)
    } else {
        end
    }
}

/// `s` without its leading and trailing whitespace, as `str::trim`.
pub open spec fn trim(s: Seq<char>) -> Seq<char> {
    let a = skip_ws_from(s, 0);
    s.subrange(a, skip_ws_back(s, a, s.len() as int))
}

/// The pieces of `s` between separators, as `str::split` with a character
/// predicate: there is always one more piece than there are separators.
pub open spec fn split_on(s: Seq<char>, sep: spec_fn(char) -> bool) -> Seq<Seq<char>>
    decreases s.len(),
{
    if s.len() == 0 {
        seq![Seq::<char>::empty()]
    } else {
        let p = split_on(s.drop_last(), sep);
        if sep(s.last()) {
            p.push(Seq::<char>::empty())
        } else {
            p.update(p.len() - 1, p.last().push(s.last()))
        }
    }
}

pub open spec fn is_char(c: char) -> spec_fn(char) -> bool {
    |x: char| x == c
}

pub open spec fn ws_sep() -> spec_fn(char) -> bool {
    |x: char| is_ws(x)
}

/// The pieces joined with `sep` between consecutive pieces.
pub open spec fn join(pieces: Seq<Seq<char>>, sep: Seq<char>) -> Seq<char>
    decreases pieces.len(),
{
    if pieces.len() == 0 {
        Seq::<char>::empty()
    } else if pieces.len() == 1 {
        pieces[0]
    } else {
        join(pieces.drop_last(), sep) + sep + pieces.last()
    }
}

/// The character sequences held by a sequence of vectors.
pub open spec fn char_vecs(v: Seq<Vec<char>>) -> Seq<Seq<char>> {
    v.map_values(|x: Vec<char>| x@)
}

/// The character sequences held by a sequence of strings.
pub open spec fn strings_view(v: Seq<String>) -> Seq<Seq<char>> {
    v.map_values(|s: String| s@)
}

/// Whether a string equals a string slice.
pub fn string_is(s: &String, lit: &str) -> (r: bool)
    ensures
        r == (s@ == lit@),
{
    let a = chars_of(s.as_str());
    chars_eq_str(&a, lit)
}

/// The non-empty pieces of a sequence of pieces, in order.
pub open spec fn non_empty(pieces: Seq<Seq<char>>) -> Seq<Seq<char>>
    decreases pieces.len(),
{
    if pieces.len() == 0 {
        pieces
    } else if pieces.last().len() == 0 {
        non_empty(pieces.drop_last())
    } else {
        non_empty(pieces.drop_last()).push(pieces.last())
    }
}

pub proof fn lemma_split_on_nonempty(s: Seq<char>, sep: spec_fn(char) -> bool)
    ensures
        split_on(s, sep).len() >= 1,
    decreases s.len(),
{
    if s.len() > 0 {
        lemma_split_on_nonempty(s.drop_last(), sep);
    }
}

/// Appends a character to a `String`.
///
/// Calls `String::push`, which the documentation says appends the given
/// `char` to the end of the string.
#[verifier::external_body]
pub(crate) fn push_char(s: &mut String, c: char)
    ensures
        final(s)@ == old(s)@.push(c),
{
    s.push(c);
}

/// The characters of a string slice.
pub fn chars_of(s: &str) -> (r: Vec<char>)
    ensures
        r@ == s@,
{
    let mut out: Vec<char> = Vec::new();
    for c in it: s.chars()
        invariant
            it.seq() == s@,
            out@ == it.seq().take(it.index()),
    {
        out.push(c);
    }
    out
}

/// Appends characters to a string.
pub fn push_chars(out: &mut String, cs: &Vec<char>)
    ensures
        final(out)@ == old(out)@ + cs@,
{
    let ghost start = out@;
    let mut i: usize = 0;
    while i < cs.len()
        invariant
            i <= cs.len(),
            out@ == start + cs@.take(i as int),
        decreases cs.len() - i,
    {
        push_char(out, cs[i]);
        i = i + 1;
        assert(cs@.take(i as int) == cs@.take(i - 1).push(cs@[i - 1]));
    }
    assert(cs@.take(cs.len() as int) == cs@);
}

/// A new string holding the given characters.
pub fn string_from_chars(cs: &Vec<char>) -> (r: String)
    ensures
        r@ == cs@,
{
    let mut out = String::new();
    push_chars(&mut out, cs);
    out
}

/// A new string holding the characters of a string slice.
pub fn string_from_str(s: &str) -> (r: String)
    ensures
        r@ == s@,
{
    let cs = chars_of(s);
    string_from_chars(&cs)
}

/// Whether a character is whitespace, as `char::is_whitespace`.
pub fn is_whitespace(c: char) -> (r: bool)
    ensures
        r == is_ws(c),
{
    let u = c as u32;
    (0x09 <= u && u <= 0x0d) || u == 0x20 || u == 0x85 || u == 0xa0 || u == 0x1680 || (0x2000 <= u
        && u <= 0x200a) || u == 0x2028 || u == 0x2029 || u == 0x202f || u == 0x205f || u == 0x3000
}

pub fn is_alphanumeric_ascii(c: char) -> (r: bool)
    ensures
        r == is_ascii_alnum(c),
{
    ('0' <= c && c <= '9') || ('A' <= c && c <= 'Z') || ('a' <= c && c <= 'z')
}

/// ASCII upper case of one character, as `char::to_ascii_uppercase`.
pub fn to_ascii_upper(c: char) -> (r: char)
    ensures
        r == ascii_upper(c),
{
    if 'a' <= c && c <= 'z' {
        let b = (c as u32 - 32) as u8;
        let r = b as char;
        assert(r as u32 == c as u32 - 32);
        r
    } else {
        c
    }
}

/// ASCII lower case of one character, as `char::to_ascii_lowercase`.
pub fn to_ascii_lower(c: char) -> (r: char)
    ensures
        r == ascii_lower(c),
{
    if 'A' <= c && c <= 'Z' {
        let b = (c as u32 + 32) as u8;
        let r = b as char;
        assert(r as u32 == c as u32 + 32);
        r
    } else {
        c
    }
}

/// ASCII upper case of every character, as `str::to_ascii_uppercase`.
pub fn upper_chars(s: &Vec<char>) -> (r: Vec<char>)
    ensures
        r@ == ascii_upper_seq(s@),
{
    let mut out: Vec<char> = Vec::new();
    let mut i: usize = 0;
    while i < s.len()
        invariant
            i <= s.len(),
            out@ == ascii_upper_seq(s@.take(i as int)),
        decreases s.len() - i,
    {
        out.push(to_ascii_upper(s[i]));
        i = i + 1;
        assert(ascii_upper_seq(s@.take(i as int)) =~= ascii_upper_seq(s@.take(i - 1)).push(
            ascii_upper(s@[i - 1]),
        ));
    }
    assert(s@.take(s.len() as int) == s@);
    out
}

/// Whether two character sequences are equal.
pub fn chars_eq(a: &Vec<char>, b: &Vec<char>) -> (r: bool)
    ensures
        r == (a@ == b@),
{
    if a.len() != b.len() {
        return false;
    }
    let mut i: usize = 0;
    while i < a.len()
        invariant
            i <= a.len(),
            a.len() == b.len(),
            forall|k: int| 0 <= k < i ==> a@[k] == b@[k],
        decreases a.len() - i,
    {
        if a[i] != b[i] {
            return false;
        }
        i = i + 1;
    }
    assert(a@ =~= b@);
    true
}

/// Whether a character sequence equals a string slice.
pub fn chars_eq_str(a: &Vec<char>, s: &str) -> (r: bool)
    ensures
        r == (a@ == s@),
{
    let b = chars_of(s);
    chars_eq(a, &b)
}

/// Whether two character sequences are equal ignoring ASCII case.
pub fn chars_eq_ignore_ascii_case(a: &Vec<char>, b: &Vec<char>) -> (r: bool)
    ensures
        r == eq_ignore_ascii_case(a@, b@),
{
    if a.len() != b.len() {
        return false;
    }
    let mut i: usize = 0;
    while i < a.len()
        invariant
            i <= a.len(),
            a.len() == b.len(),
            forall|k: int| 0 <= k < i ==> #[trigger] ascii_lower(a@[k]) == ascii_lower(b@[k]),
        decreases a.len() - i,
    {
        if to_ascii_lower(a[i]) != to_ascii_lower(b[i]) {
            return false;
        }
        i = i + 1;
    }
    true
}

/// Whether `s` begins with `prefix`.
pub fn chars_start_with(s: &Vec<char>, prefix: &Vec<char>) -> (r: bool)
    ensures
        r == starts_with(s@, prefix@),
{
    if prefix.len() > s.len() {
        return false;
    }
    let mut i: usize = 0;
    while i < prefix.len()
        invariant
            i <= prefix.len() <= s.len(),
            forall|k: int| 0 <= k < i ==> s@[k] == prefix@[k],
        decreases prefix.len() - i,
    {
        if s[i] != prefix[i] {
            assert(s@.take(prefix.len() as int)[i as int] != prefix@[i as int]);
            return false;
        }
        i = i + 1;
    }
    assert(s@.take(prefix.len() as int) =~= prefix@);
    true
}

/// The characters of `s` from index `from` on.
pub fn chars_skip(s: &Vec<char>, from: usize) -> (r: Vec<char>)
    requires
        from <= s.len(),
    ensures
        r@ == s@.skip(from as int),
{
    let mut out: Vec<char> = Vec::new();
    let mut i: usize = from;
    while i < s.len()
        invariant
            from <= i <= s.len(),
            out@ == s@.subrange(from as int, i as int),
        decreases s.len() - i,
    {
        out.push(s[i]);
        i = i + 1;
        assert(s@.subrange(from as int, i as int) =~= s@.subrange(from as int, i - 1).push(
            s@[i - 1],
        ));
    }
    assert(s@.subrange(from as int, s.len() as int) =~= s@.skip(from as int));
    out
}

/// The characters of `s` between `from` and `to`.
pub fn chars_subrange(s: &Vec<char>, from: usize, to: usize) -> (r: Vec<char>)
    requires
        from <= to <= s.len(),
    ensures
        r@ == s@.subrange(from as int, to as int),
{
    let mut out: Vec<char> = Vec::new();
    let mut i: usize = from;
    while i < to
        invariant
            from <= i <= to <= s.len(),
            out@ == s@.subrange(from as int, i as int),
        decreases to - i,
    {
        out.push(s[i]);
        i = i + 1;
        assert(s@.subrange(from as int, i as int) =~= s@.subrange(from as int, i - 1).push(
            s@[i - 1],
        ));
    }
    out
}

/// `s` without leading and trailing whitespace, as `str::trim`.
pub fn trim_chars(s: &Vec<char>) -> (r: Vec<char>)
    ensures
        r@ == trim(s@),
{
    let mut a: usize = 0;
    while a < s.len() && is_whitespace(s[a])
        invariant
            a <= s.len(),
            skip_ws_from(s@, a as int) == skip_ws_from(s@, 0),
        decreases s.len() - a,
    {
        a = a + 1;
    }
    let mut b: usize = s.len();
    while a < b && is_whitespace(s[b - 1])
        invariant
            a <= b <= s.len(),
            a == skip_ws_from(s@, 0),
            skip_ws_back(s@, a as int, b as int) == skip_ws_back(s@, a as int, s.len() as int),
        decreases b - a,
    {
        b = b - 1;
    }
    chars_subrange(s, a, b)
}

/// Whether `s` is empty or holds only whitespace, as `str::trim(s).is_empty()`.
pub fn is_blank(s: &str) -> (r: bool)
    ensures
        r == (trim(s@).len() == 0),
{
    let cs = chars_of(s);
    let t = trim_chars(&cs);
    t.len() == 0
}

/// The pieces of `s` between occurrences of `sep`, as `str::split(sep)`.
pub fn split_chars(s: &Vec<char>, sep: char) -> (r: Vec<Vec<char>>)
    ensures
        char_vecs(r@) == split_on(s@, is_char(sep)),
{
    let mut pieces: Vec<Vec<char>> = Vec::new();
    let mut cur: Vec<char> = Vec::new();
    let mut i: usize = 0;
    while i < s.len()
        invariant
            i <= s.len(),
            split_on(s@.take(i as int), is_char(sep)) == char_vecs(pieces@).push(cur@),
        decreases s.len() - i,
    {
        let c = s[i];
        let ghost prev = s@.take(i as int);
        let ghost old_pieces = char_vecs(pieces@);
        let ghost old_cur = cur@;
        assert(s@.take(i + 1).drop_last() == prev);
        if c == sep {
            let done = cur;
            pieces.push(done);
            cur = Vec::new();
            assert(char_vecs(pieces@) =~= old_pieces.push(old_cur));
        } else {
            cur.push(c);
        }
        i = i + 1;
        assert(split_on(s@.take(i as int), is_char(sep)) =~= char_vecs(pieces@).push(cur@));
    }
    assert(s@.take(s.len() as int) == s@);
    pieces.push(cur);
    pieces
}

/// The pieces of `s` between runs of whitespace, without empty pieces, as
/// `str::split_whitespace`.
pub fn split_whitespace_chars(s: &Vec<char>) -> (r: Vec<Vec<char>>)
    ensures
        char_vecs(r@) == non_empty(split_on(s@, ws_sep())),
{
    let mut pieces: Vec<Vec<char>> = Vec::new();
    let mut cur: Vec<char> = Vec::new();
    let mut i: usize = 0;
    while i < s.len()
        invariant
            i <= s.len(),
            split_on(s@.take(i as int), ws_sep()).len() >= 1,
            split_on(s@.take(i as int), ws_sep()).last() == cur@,
            non_empty(split_on(s@.take(i as int), ws_sep()).drop_last()) == char_vecs(pieces@),
        decreases s.len() - i,
    {
        let c = s[i];
        let ghost prev = s@.take(i as int);
        let ghost p = split_on(prev, ws_sep());
        let ghost old_pieces = char_vecs(pieces@);
        let ghost old_cur = cur@;
        assert(s@.take(i + 1).drop_last() == prev);
        assert(s@.take(i + 1).last() == c);
        if is_whitespace(c) {
            let done = cur;
            if done.len() > 0 {
                pieces.push(done);
                assert(char_vecs(pieces@) =~= old_pieces.push(old_cur));
            }
            cur = Vec::new();
            let ghost q = split_on(s@.take(i + 1), ws_sep());
            assert(q == p.push(Seq::<char>::empty()));
            assert(q.drop_last() =~= p);
            assert(p =~= p.drop_last().push(p.last()));
        } else {
            cur.push(c);
            let ghost q = split_on(s@.take(i + 1), ws_sep());
            assert(q.drop_last() =~= p.drop_last());
        }
        i = i + 1;
    }
    assert(s@.take(s.len() as int) == s@);
    let ghost p = split_on(s@, ws_sep());
    assert(p =~= p.drop_last().push(p.last()));
    if cur.len() > 0 {
        let ghost old_pieces = char_vecs(pieces@);
        let ghost old_cur = cur@;
        pieces.push(cur);
        assert(char_vecs(pieces@) =~= old_pieces.push(old_cur));
    }
    pieces
}

/// The pieces joined by `sep`, as `[String]::join`.
pub fn join_strings(pieces: &Vec<Vec<char>>, sep: &Vec<char>) -> (r: String)
    ensures
        r@ == join(char_vecs(pieces@), sep@),
{
    let mut out = String::new();
    let mut i: usize = 0;
    while i < pieces.len()
        invariant
            i <= pieces.len(),
            out@ == join(char_vecs(pieces@).take(i as int), sep@),
        decreases pieces.len() - i,
    {
        let ghost before = char_vecs(pieces@).take(i as int);
        if i > 0 {
            push_chars(&mut out, sep);
        }
        push_chars(&mut out, &pieces[i]);
        i = i + 1;
        let ghost after = char_vecs(pieces@).take(i as int);
        assert(after.drop_last() =~= before);
        assert(after.last() == pieces[i - 1]@);
    }
    assert(char_vecs(pieces@).take(pieces.len() as int) =~= char_vecs(pieces@));
    out
}

} // verus!

verus! {

pub proof fn lemma_skip_ws_from_bounds(s: Seq<char>, i: int)
    requires
        0 <= i,
    ensures
        i <= skip_ws_from(s, i),
        i <= s.len() ==> skip_ws_from(s, i) <= s.len(),
    decreases s.len() - i,
{
    if 0 <= i < s.len() && is_ws(s[i]) {
        lemma_skip_ws_from_bounds(s, i + 1);
    }
}

pub proof fn lemma_skip_ws_back_bounds(s: Seq<char>, start: int, end: int)
    requires
        start <= end,
    ensures
        start <= skip_ws_back(s, start, end) <= end,
        skip_ws_back(s, start, end) == end ==> !(start < end && end <= s.len() && is_ws(
            s[end - 1],
        )),
    decreases end - start,
{
    if start < end && end <= s.len() && is_ws(s[end - 1]) {
        lemma_skip_ws_back_bounds(s, start, end - 1);
    }
}

/// A text equal to its own trimming does not end with whitespace.
pub proof fn lemma_trimmed_last_not_ws(s: Seq<char>)
    requires
        trim(s) == s,
        s.len() > 0,
    ensures
        !is_ws(s.last()),
{
    lemma_skip_ws_from_bounds(s, 0);
    let a = skip_ws_from(s, 0);
    lemma_skip_ws_back_bounds(s, a, s.len() as int);
    let b = skip_ws_back(s, a, s.len() as int);
    assert(trim(s).len() == b - a);
}

/// A text that neither starts nor ends with whitespace is its own trimming.
pub proof fn lemma_trim_no_ws_ends(s: Seq<char>)
    requires
        s.len() > 0 ==> !is_ws(s[0]) && !is_ws(s.last()),
    ensures
        trim(s) == s,
{
    assert(skip_ws_from(s, 0) == 0);
    assert(skip_ws_back(s, 0, s.len() as int) == s.len());
    assert(s.subrange(0, s.len() as int) == s);
}

proof fn lemma_skip_ws_from_stops(s: Seq<char>, i: int)
    requires
        0 <= i,
    ensures
        skip_ws_from(s, i) < s.len() ==> !is_ws(s[skip_ws_from(s, i)]),
    decreases s.len() - i,
{
    if 0 <= i < s.len() && is_ws(s[i]) {
        lemma_skip_ws_from_stops(s, i + 1);
    }
}

proof fn lemma_skip_ws_back_stops(s: Seq<char>, start: int, end: int)
    requires
        start <= end <= s.len(),
    ensures
        skip_ws_back(s, start, end) > start ==> !is_ws(s[skip_ws_back(s, start, end) - 1]),
    decreases end - start,
{
    if start < end && end <= s.len() && is_ws(s[end - 1]) {
        lemma_skip_ws_back_stops(s, start, end - 1);
    }
}

/// Trimming a trimmed text changes nothing.
pub proof fn lemma_trim_trimmed(s: Seq<char>)
    ensures
        trim(trim(s)) == trim(s),
{
    let a = skip_ws_from(s, 0);
    lemma_skip_ws_from_bounds(s, 0);
    lemma_skip_ws_from_stops(s, 0);
    lemma_skip_ws_back_bounds(s, a, s.len() as int);
    lemma_skip_ws_back_stops(s, a, s.len() as int);
    let b = skip_ws_back(s, a, s.len() as int);
    let t = trim(s);
    if t.len() > 0 {
        assert(t[0] == s[a]);
        assert(t.last() == s[b - 1]);
    }
    lemma_trim_no_ws_ends(t);
}

/// Joining two non-empty lists of pieces one after the other puts the
/// separator once between their joins.
pub proof fn lemma_join_append(a: Seq<Seq<char>>, b: Seq<Seq<char>>, sep: Seq<char>)
    requires
        a.len() > 0,
        b.len() > 0,
    ensures
        join(a + b, sep) == join(a, sep) + sep + join(b, sep),
    decreases b.len(),
{
    if b.len() == 1 {
        assert((a + b).drop_last() =~= a);
        assert((a + b).last() == b[0]);
    } else {
        lemma_join_append(a, b.drop_last(), sep);
        assert((a + b).drop_last() =~= a + b.drop_last());
        assert((a + b).last() == b.last());
    }
}

/// The non-empty pieces of two lists one after the other.
pub proof fn lemma_non_empty_append(a: Seq<Seq<char>>, b: Seq<Seq<char>>)
    ensures
        non_empty(a + b) == non_empty(a) + non_empty(b),
    decreases b.len(),
{
    if b.len() == 0 {
        assert(a + b =~= a);
        assert(non_empty(a) + non_empty(b) =~= non_empty(a));
    } else {
        lemma_non_empty_append(a, b.drop_last());
        assert((a + b).drop_last() =~= a + b.drop_last());
        assert((a + b).last() == b.last());
        if b.last().len() > 0 {
            assert(non_empty(a) + non_empty(b) =~= (non_empty(a) + non_empty(b.drop_last())).push(
                b.last(),
            ));
        }
    }
}

/// The join of pieces that are all non-empty is empty only where there are
/// no pieces.
pub proof fn lemma_join_empty(pieces: Seq<Seq<char>>, sep: Seq<char>)
    requires
        forall|k: int| 0 <= k < pieces.len() ==> #[trigger] pieces[k].len() > 0,
    ensures
        (join(pieces, sep).len() == 0) == (pieces.len() == 0),
    decreases pieces.len(),
{
    if pieces.len() > 1 {
        assert(pieces.last() == pieces[pieces.len() - 1]);
    } else if pieces.len() == 1 {
        assert(pieces[0].len() > 0);
    }
}

/// Splitting pieces joined with a separator character gives the pieces back
/// where none of them holds a separator.
pub proof fn lemma_split_join(pieces: Seq<Seq<char>>, c: char, sep: spec_fn(char) -> bool)
    requires
        sep(c),
        pieces.len() >= 1,
        forall|i: int, j: int|
            0 <= i < pieces.len() && 0 <= j < pieces[i].len() ==> !sep(#[trigger] pieces[i][j]),
    ensures
        split_on(join(pieces, seq![c]), sep) == pieces,
    decreases pieces.len(),
{
    if pieces.len() == 1 {
        assert forall|j: int| 0 <= j < pieces[0].len() implies !sep(#[trigger] pieces[0][j]) by {}
        lemma_split_on_no_sep(pieces[0], sep);
        assert(pieces =~= seq![pieces[0]]);
    } else {
        let init = pieces.drop_last();
        assert forall|i: int, j: int| 0 <= i < init.len() && 0 <= j < init[i].len() implies !sep(
            #[trigger] init[i][j],
        ) by {
            assert(init[i] == pieces[i]);
        }
        lemma_split_join(init, c, sep);
        let last = pieces.last();
        assert forall|j: int| 0 <= j < last.len() implies !sep(#[trigger] last[j]) by {
            assert(last[j] == pieces[pieces.len() - 1][j]);
        }
        lemma_split_on_no_sep(last, sep);
        lemma_split_on_append(join(init, seq![c]), c, last, sep);
        assert(join(pieces, seq![c]) == join(init, seq![c]) + seq![c] + last);
        assert(init + seq![last] =~= pieces);
    }
}

/// No piece of a split holds a separator.
pub proof fn lemma_split_on_pieces_have_no_sep(s: Seq<char>, sep: spec_fn(char) -> bool)
    ensures
        forall|i: int, j: int|
            0 <= i < split_on(s, sep).len() && 0 <= j < split_on(s, sep)[i].len() ==> !sep(
                #[trigger] split_on(s, sep)[i][j],
            ),
    decreases s.len(),
{
    if s.len() > 0 {
        lemma_split_on_pieces_have_no_sep(s.drop_last(), sep);
        lemma_split_on_nonempty(s.drop_last(), sep);
        let p = split_on(s.drop_last(), sep);
        let q = split_on(s, sep);
        assert forall|i: int, j: int| 0 <= i < q.len() && 0 <= j < q[i].len() implies !sep(
            #[trigger] q[i][j],
        ) by {
            if sep(s.last()) {
                if i < p.len() {
                    assert(q[i] == p[i]);
                }
            } else if i < p.len() - 1 {
                assert(q[i] == p[i]);
            } else {
                assert(q[i] == p.last().push(s.last()));
                if j < p.last().len() {
                    assert(q[i][j] == p[p.len() - 1][j]);
                }
            }
        }
    }
}

/// The non-empty pieces are non-empty, and keep what holds of every
/// character of every piece.
pub proof fn lemma_non_empty_pieces(pieces: Seq<Seq<char>>, p: spec_fn(char) -> bool)
    requires
        forall|i: int, j: int|
            0 <= i < pieces.len() && 0 <= j < pieces[i].len() ==> p(#[trigger] pieces[i][j]),
    ensures
        forall|k: int| 0 <= k < non_empty(pieces).len() ==> #[trigger] non_empty(pieces)[k].len() > 0,
        forall|k: int, j: int|
            0 <= k < non_empty(pieces).len() && 0 <= j < non_empty(pieces)[k].len() ==> p(
                #[trigger] non_empty(pieces)[k][j],
            ),
    decreases pieces.len(),
{
    if pieces.len() > 0 {
        let init = pieces.drop_last();
        assert forall|i: int, j: int| 0 <= i < init.len() && 0 <= j < init[i].len() implies p(
            #[trigger] init[i][j],
        ) by {
            assert(init[i] == pieces[i]);
        }
        lemma_non_empty_pieces(init, p);
        let n = non_empty(pieces);
        let m = non_empty(init);
        if pieces.last().len() > 0 {
            assert forall|k: int, j: int| 0 <= k < n.len() && 0 <= j < n[k].len() implies p(
                #[trigger] n[k][j],
            ) by {
                if k < m.len() {
                    assert(n[k] == m[k]);
                } else {
                    assert(n[k] == pieces[pieces.len() - 1]);
                }
            }
            assert forall|k: int| 0 <= k < n.len() implies #[trigger] n[k].len() > 0 by {
                if k < m.len() {
                    assert(n[k] == m[k]);
                }
            }
        }
    }
}

/// Pieces that are all non-empty are their own non-empty pieces.
pub proof fn lemma_non_empty_keeps(pieces: Seq<Seq<char>>)
    requires
        forall|k: int| 0 <= k < pieces.len() ==> #[trigger] pieces[k].len() > 0,
    ensures
        non_empty(pieces) == pieces,
    decreases pieces.len(),
{
    if pieces.len() > 0 {
        lemma_non_empty_keeps(pieces.drop_last());
        assert(pieces.drop_last().push(pieces.last()) =~= pieces);
    }
}

/// Splitting at a separator splits the two sides independently.
pub proof fn lemma_split_on_append(x: Seq<char>, c: char, y: Seq<char>, sep: spec_fn(char) -> bool)
    requires
        sep(c),
    ensures
        split_on(x + seq![c] + y, sep) == split_on(x, sep) + split_on(y, sep),
    decreases y.len(),
{
    if y.len() == 0 {
        assert(x + seq![c] + y == x.push(c));
        assert((x + seq![c] + y).drop_last() == x);
        assert(split_on(x, sep) + split_on(y, sep) =~= split_on(x, sep).push(Seq::<char>::empty()));
    } else {
        let whole = x + seq![c] + y;
        assert(whole.drop_last() == x + seq![c] + y.drop_last());
        assert(whole.last() == y.last());
        lemma_split_on_append(x, c, y.drop_last(), sep);
        lemma_split_on_nonempty(y.drop_last(), sep);
        let px = split_on(x, sep);
        let py = split_on(y.drop_last(), sep);
        if sep(y.last()) {
            assert(split_on(whole, sep) =~= px + py.push(Seq::<char>::empty()));
        } else {
            assert((px + py).last() == py.last());
            assert(split_on(whole, sep) =~= px + py.update(py.len() - 1, py.last().push(y.last())));
        }
    }
}

/// A text without separators is a single piece.
pub proof fn lemma_split_on_no_sep(x: Seq<char>, sep: spec_fn(char) -> bool)
    requires
        forall|i: int| 0 <= i < x.len() ==> !sep(#[trigger] x[i]),
    ensures
        split_on(x, sep) == seq![x],
    decreases x.len(),
{
    if x.len() > 0 {
        lemma_split_on_no_sep(x.drop_last(), sep);
        assert(x.drop_last().push(x.last()) == x);
        assert(split_on(x, sep) =~= seq![x]);
    } else {
        assert(x == Seq::<char>::empty());
    }
}

} // verus!
