//! The installed OCR languages, ordered by tag, and which one is selected:
//! index 0 is automatic (the user's profile languages), index `k` the `k`-th
//! installed language.
use vstd::prelude::*;

use crate::text::{chars_eq_ignore_ascii_case, chars_of, eq_ignore_ascii_case, push_chars, string_from_str};

verus! {

broadcast use vstd::string::group_string_axioms;

/// An installed recognizer language: its tag (such as `en-US`), its name,
/// and its position in the recognizer's own list of languages.
#[derive(Debug)]
pub struct LanguageEntry {
    pub tag: String,
    pub display_name: String,
    pub handle: usize,
}

pub type LanguageView = (Seq<char>, Seq<char>, usize);

impl View for LanguageEntry {
    type V = LanguageView;

    open spec fn view(&self) -> LanguageView {
        (self.tag@, self.display_name@, self.handle)
    }
}

impl LanguageEntry {
    pub fn copy(&self) -> (r: LanguageEntry)
        ensures
            r@ == self@,
    {
        LanguageEntry {
            tag: self.tag.clone(),
            display_name: self.display_name.clone(),
            handle: self.handle,
        }
    }
}

pub open spec fn entries_view(v: Seq<LanguageEntry>) -> Seq<LanguageView> {
    v.map_values(|e: LanguageEntry| e@)
}

/// `a` comes before `b` in the order of `str`: code point by code point, a
/// proper prefix first.
pub open spec fn lex_lt(a: Seq<char>, b: Seq<char>) -> bool
    decreases a.len(),
{
    if a.len() == 0 {
        b.len() > 0
    } else if b.len() == 0 {
        false
    } else if a[0] < b[0] {
        true
    } else if a[0] == b[0] {
        lex_lt(a.drop_first(), b.drop_first())
    } else {
        false
    }
}

/// Where an entry goes among sorted entries: before the entries at the end
/// whose tag comes after its tag.
pub open spec fn insert_pos(s: Seq<LanguageView>, x: LanguageView, p: int) -> int
    decreases p,
{
    if p > 0 && lex_lt(x.0, s[p - 1].0) {
        insert_pos(s, x, p - 1)
    } else {
        p
    }
}

pub open spec fn insert_sorted(s: Seq<LanguageView>, x: LanguageView) -> Seq<LanguageView> {
    s.insert(insert_pos(s, x, s.len() as int), x)
}

/// The entries ordered by tag; entries with equal tags keep their order (a
/// stable sort).
pub open spec fn sort_by_tag(s: Seq<LanguageView>) -> Seq<LanguageView>
    decreases s.len(),
{
    if s.len() == 0 {
        s
    } else {
        insert_sorted(sort_by_tag(s.drop_last()), s.last())
    }
}

pub open spec fn sorted_by_tag(s: Seq<LanguageView>) -> bool {
    forall|i: int, j: int| 0 <= i < j < s.len() ==> !lex_lt(#[trigger] s[j].0, #[trigger] s[i].0)
}

/// `a` comes before `b`.
fn tag_less(a: &Vec<char>, b: &Vec<char>) -> (r: bool)
    ensures
        r == lex_lt(a@, b@),
{
    let mut i: usize = 0;
    assert(a@.skip(0) == a@);
    assert(b@.skip(0) == b@);
    while i < a.len() && i < b.len() && a[i] == b[i]
        invariant
            i <= a.len(),
            i <= b.len(),
            lex_lt(a@.skip(i as int), b@.skip(i as int)) == lex_lt(a@, b@),
        decreases a.len() - i,
    {
        assert(a@.skip(i as int).drop_first() == a@.skip(i + 1));
        assert(b@.skip(i as int).drop_first() == b@.skip(i + 1));
        i = i + 1;
    }
    let ghost sa = a@.skip(i as int);
    let ghost sb = b@.skip(i as int);
    if i == a.len() {
        assert(sa.len() == 0);
        i < b.len()
    } else if i == b.len() {
        assert(sb.len() == 0);
        false
    } else {
        assert(sa[0] == a@[i as int]);
        assert(sb[0] == b@[i as int]);
        a[i] < b[i]
    }
}

/// The entries ordered by tag, entries with equal tags in their given order.
pub fn sort_languages(entries: &Vec<LanguageEntry>) -> (r: Vec<LanguageEntry>)
    ensures
        entries_view(r@) == sort_by_tag(entries_view(entries@)),
{
    let mut sorted: Vec<LanguageEntry> = Vec::new();
    let mut tags: Vec<Vec<char>> = Vec::new();
    let mut i: usize = 0;
    while i < entries.len()
        invariant
            i <= entries.len(),
            entries_view(sorted@) == sort_by_tag(entries_view(entries@).take(i as int)),
            tags.len() == sorted.len(),
            forall|k: int| 0 <= k < tags.len() ==> #[trigger] tags[k]@ == sorted[k].tag@,
        decreases entries.len() - i,
    {
        let ghost all = entries_view(entries@);
        assert(all.take(i + 1).drop_last() == all.take(i as int));
        assert(all.take(i + 1).last() == entries[i as int]@);
        let ghost s = entries_view(sorted@);
        let x = entries[i].copy();
        let xt = chars_of(x.tag.as_str());
        let mut p: usize = sorted.len();
        while p > 0 && tag_less(&xt, &tags[p - 1])
            invariant
                p <= sorted.len(),
                s == entries_view(sorted@),
                xt@ == x@.0,
                tags.len() == sorted.len(),
                forall|k: int| 0 <= k < tags.len() ==> #[trigger] tags[k]@ == sorted[k].tag@,
                insert_pos(s, x@, p as int) == insert_pos(s, x@, s.len() as int),
            decreases p,
        {
            p = p - 1;
        }
        let ghost xv = x@;
        let ghost old_tags = tags@;
        sorted.insert(p, x);
        tags.insert(p, xt);
        proof {
            assert(entries_view(sorted@) =~= s.insert(p as int, xv));
            assert forall|k: int| 0 <= k < tags.len() implies #[trigger] tags[k]@
                == sorted[k].tag@ by {
                if k > p {
                    assert(tags[k] == old_tags[k - 1]);
                }
            }
        }
        i = i + 1;
    }
    assert(entries_view(entries@).take(entries.len() as int) == entries_view(entries@));
    sorted
}

/// The tag of the language selected by `index`: none for automatic (or an
/// index past the list).
pub open spec fn tag_at(s: Seq<LanguageView>, index: int) -> Option<Seq<char>> {
    if index == 0 || index - 1 >= s.len() {
        None
    } else {
        Some(s[index - 1].0)
    }
}

/// The first position, from `i` on, whose tag equals `tag` ignoring ASCII
/// case; the list's length where there is none.
pub open spec fn tag_position(s: Seq<LanguageView>, tag: Seq<char>, i: int) -> int
    decreases s.len() - i,
{
    if i < 0 || i >= s.len() {
        s.len() as int
    } else if eq_ignore_ascii_case(s[i].0, tag) {
        i
    } else {
        tag_position(s, tag, i + 1)
    }
}

/// The index that selects a saved tag: the first installed language with
/// that tag (ignoring ASCII case), else automatic.
pub open spec fn index_for_tag(s: Seq<LanguageView>, tag: Option<Seq<char>>) -> int {
    match tag {
        None => 0,
        Some(t) => if tag_position(s, t, 0) < s.len() {
            tag_position(s, t, 0) + 1
        } else {
            0
        },
    }
}

/// The label of the selected language.
pub open spec fn label_at(s: Seq<LanguageView>, index: int) -> Seq<char> {
    if index == 0 {
        "Auto (user profile languages)"@
    } else if index - 1 < s.len() {
        s[index - 1].1 + " ("@ + s[index - 1].0 + ")"@
    } else {
        "Unknown"@
    }
}

/// The installed languages in tag order, and the selected index.
#[derive(Debug)]
pub struct LanguageSelection {
    pub installed: Vec<LanguageEntry>,
    pub current_index: usize,
}

impl LanguageSelection {
    pub open spec fn entries(&self) -> Seq<LanguageView> {
        entries_view(self.installed@)
    }

    /// The selected index names automatic or an installed language.
    pub open spec fn wf(&self) -> bool {
        self.current_index <= self.installed.len() < usize::MAX
    }

    /// The installed languages, ordered by tag, with automatic selected.
    pub fn new(entries: &Vec<LanguageEntry>) -> (r: LanguageSelection)
        requires
            entries.len() < usize::MAX,
        ensures
            r.entries() == sort_by_tag(entries_view(entries@)),
            r.current_index == 0,
            r.wf(),
    {
        let installed = sort_languages(entries);
        proof {
            lemma_sort_by_tag_len(entries_view(entries@));
        }
        LanguageSelection { installed, current_index: 0 }
    }

    pub fn current_index(&self) -> (r: usize)
        ensures
            r == self.current_index,
    {
        self.current_index
    }

    /// "Auto (user profile languages)", or "Name (tag)" of the selected
    /// language.
    pub fn current_label(&self) -> (r: String)
        ensures
            r@ == label_at(self.entries(), self.current_index as int),
    {
        if self.current_index == 0 {
            string_from_str("Auto (user profile languages)")
        } else if self.current_index - 1 < self.installed.len() {
            let e = &self.installed[self.current_index - 1];
            let mut out = string_from_str(e.display_name.as_str());
            push_chars(&mut out, &chars_of(" ("));
            push_chars(&mut out, &chars_of(e.tag.as_str()));
            push_chars(&mut out, &chars_of(")"));
            out
        } else {
            string_from_str("Unknown")
        }
    }

    /// The tag of the selected language, none for automatic.
    pub fn current_language_tag(&self) -> (r: Option<String>)
        ensures
            match r {
                Some(t) => tag_at(self.entries(), self.current_index as int) == Some(t@),
                None => tag_at(self.entries(), self.current_index as int) is None,
            },
    {
        if self.current_index == 0 {
            None
        } else if self.current_index - 1 < self.installed.len() {
            Some(self.installed[self.current_index - 1].tag.clone())
        } else {
            None
        }
    }

    /// Selects `index`, taken modulo the number of choices.
    pub fn set_current_index(&mut self, index: usize)
        requires
            old(self).installed.len() < usize::MAX,
        ensures
            final(self).installed@ == old(self).installed@,
            final(self).current_index == index % (old(self).installed.len() + 1) as usize,
            final(self).wf(),
    {
        let count = self.installed.len() + 1;
        self.current_index = index % count;
    }

    /// Selects the first installed language with the given tag (ignoring
    /// ASCII case), or automatic where there is no tag or no such language.
    pub fn set_current_language_tag(&mut self, language_tag: Option<&str>)
        requires
            old(self).installed.len() < usize::MAX,
        ensures
            final(self).installed@ == old(self).installed@,
            final(self).current_index == index_for_tag(
                old(self).entries(),
                match language_tag {
                    Some(t) => Some(t@),
                    None => None,
                },
            ),
            final(self).wf(),
    {
        let t = match language_tag {
            None => {
                self.current_index = 0;
                return ;
            },
            Some(t) => chars_of(t),
        };
        let ghost s = self.entries();
        let mut i: usize = 0;
        while i < self.installed.len()
            invariant
                i <= self.installed.len(),
                self.installed@ == old(self).installed@,
                old(self).installed.len() < usize::MAX,
                language_tag is Some,
                t@ == language_tag->0@,
                s == old(self).entries(),
                tag_position(s, t@, i as int) == tag_position(s, t@, 0),
            decreases self.installed.len() - i,
        {
            let candidate = chars_of(self.installed[i].tag.as_str());
            assert(s[i as int].0 == self.installed[i as int].tag@);
            if chars_eq_ignore_ascii_case(&candidate, &t) {
                assert(tag_position(s, t@, i as int) == i);
                self.current_index = i + 1;
                return ;
            }
            i = i + 1;
        }
        self.current_index = 0;
    }

    /// Selects the next choice, from the last language back to automatic, and
    /// gives its label.
    pub fn cycle_language(&mut self) -> (r: String)
        requires
            old(self).wf(),
        ensures
            final(self).installed@ == old(self).installed@,
            final(self).current_index == (old(self).current_index + 1) % (
            old(self).installed.len() + 1),
            final(self).wf(),
            r@ == label_at(final(self).entries(), final(self).current_index as int),
    {
        let count = self.installed.len() + 1;
        self.current_index = (self.current_index + 1) % count;
        self.current_label()
    }
}

pub proof fn lemma_sort_by_tag_len(s: Seq<LanguageView>)
    ensures
        sort_by_tag(s).len() == s.len(),
    decreases s.len(),
{
    if s.len() > 0 {
        lemma_sort_by_tag_len(s.drop_last());
        lemma_insert_pos_bounds(sort_by_tag(s.drop_last()), s.last(), s.len() - 1);
    }
}

proof fn lemma_insert_pos_bounds(s: Seq<LanguageView>, x: LanguageView, p: int)
    requires
        0 <= p <= s.len(),
    ensures
        0 <= insert_pos(s, x, p) <= p,
    decreases p,
{
    if p > 0 && lex_lt(x.0, s[p - 1].0) {
        lemma_insert_pos_bounds(s, x, p - 1);
    }
}

proof fn lemma_lex_irreflexive(a: Seq<char>)
    ensures
        !lex_lt(a, a),
    decreases a.len(),
{
    if a.len() > 0 {
        lemma_lex_irreflexive(a.drop_first());
    }
}

proof fn lemma_lex_asymmetric(a: Seq<char>, b: Seq<char>)
    ensures
        lex_lt(a, b) ==> !lex_lt(b, a),
    decreases a.len(),
{
    if a.len() > 0 && b.len() > 0 && a[0] == b[0] {
        lemma_lex_asymmetric(a.drop_first(), b.drop_first());
    }
}

proof fn lemma_lex_transitive(a: Seq<char>, b: Seq<char>, c: Seq<char>)
    ensures
        lex_lt(a, b) && lex_lt(b, c) ==> lex_lt(a, c),
    decreases a.len(),
{
    if a.len() > 0 && b.len() > 0 && c.len() > 0 {
        lemma_lex_transitive(a.drop_first(), b.drop_first(), c.drop_first());
    }
}

proof fn lemma_lex_total(a: Seq<char>, b: Seq<char>)
    ensures
        a == b || lex_lt(a, b) || lex_lt(b, a),
    decreases a.len(),
{
    if a.len() > 0 && b.len() > 0 {
        lemma_lex_total(a.drop_first(), b.drop_first());
        if a[0] == b[0] && a.drop_first() == b.drop_first() {
            assert(a =~= seq![a[0]] + a.drop_first());
            assert(b =~= seq![b[0]] + b.drop_first());
        }
    } else if a.len() == 0 && b.len() == 0 {
        assert(a =~= b);
    }
}

proof fn lemma_insert_pos_facts(s: Seq<LanguageView>, x: LanguageView, q: int)
    requires
        0 <= q <= s.len(),
    ensures
        0 <= insert_pos(s, x, q) <= q,
        forall|k: int| insert_pos(s, x, q) <= k < q ==> lex_lt(x.0, #[trigger] s[k].0),
        insert_pos(s, x, q) > 0 ==> !lex_lt(x.0, s[insert_pos(s, x, q) - 1].0),
    decreases q,
{
    if q > 0 && lex_lt(x.0, s[q - 1].0) {
        lemma_insert_pos_facts(s, x, q - 1);
    }
}

proof fn lemma_insert_sorted_keeps_order(s: Seq<LanguageView>, x: LanguageView)
    requires
        sorted_by_tag(s),
    ensures
        sorted_by_tag(insert_sorted(s, x)),
{
    let p = insert_pos(s, x, s.len() as int);
    lemma_insert_pos_facts(s, x, s.len() as int);
    let t = insert_sorted(s, x);
    s.insert_ensures(p, x);
    assert forall|i: int, j: int| 0 <= i < j < t.len() implies !lex_lt(
        #[trigger] t[j].0,
        #[trigger] t[i].0,
    ) by {
        lemma_insert_sorted_pair(s, x, p, i, j);
    }
}

proof fn lemma_insert_sorted_pair(s: Seq<LanguageView>, x: LanguageView, p: int, i: int, j: int)
    requires
        sorted_by_tag(s),
        0 <= p <= s.len(),
        forall|k: int| p <= k < s.len() ==> lex_lt(x.0, #[trigger] s[k].0),
        p > 0 ==> !lex_lt(x.0, s[p - 1].0),
        0 <= i < j < s.len() + 1,
    ensures
        !lex_lt(s.insert(p, x)[j].0, s.insert(p, x)[i].0),
{
    let t = s.insert(p, x);
    s.insert_ensures(p, x);
    if j < p {
        assert(t[i] == s[i] && t[j] == s[j]);
    } else if i > p {
        assert(t[i] == s[i - 1] && t[j] == s[j - 1]);
    } else if i < p && j > p {
        assert(t[i] == s[i] && t[j] == s[j - 1]);
    } else if i == p {
        assert(t[j] == s[j - 1]);
        lemma_lex_asymmetric(x.0, s[j - 1].0);
    } else {
        assert(j == p && i < p);
        assert(t[i] == s[i]);
        if i < p - 1 {
            assert(!lex_lt(s[p - 1].0, s[i].0));
            lemma_lex_total(s[i].0, s[p - 1].0);
            lemma_lex_transitive(x.0, s[i].0, s[p - 1].0);
        }
    }
}

/// Sorting orders the entries by tag and keeps every entry: the result is a
/// permutation of the input.
pub proof fn lemma_sort_by_tag_sorted_permutation(s: Seq<LanguageView>)
    ensures
        sorted_by_tag(sort_by_tag(s)),
        sort_by_tag(s).to_multiset() == s.to_multiset(),
    decreases s.len(),
{
    broadcast use vstd::seq_lib::to_multiset_insert, vstd::seq_lib::to_multiset_build;

    if s.len() == 0 {
    } else {
        lemma_sort_by_tag_sorted_permutation(s.drop_last());
        let prev = sort_by_tag(s.drop_last());
        lemma_insert_pos_facts(prev, s.last(), prev.len() as int);
        lemma_insert_sorted_keeps_order(prev, s.last());
        assert(s == s.drop_last().push(s.last()));
    }
}

/// The choice selected after cycling `k` times from `index`, with `n`
/// installed languages.
pub open spec fn cycled(index: int, n: int, k: nat) -> int
    decreases k,
{
    if k == 0 {
        index
    } else {
        (cycled(index, n, (k - 1) as nat) + 1) % (n + 1)
    }
}

proof fn lemma_cycled_closed_form(index: int, n: int, k: nat)
    requires
        0 <= index <= n,
    ensures
        cycled(index, n, k) == (index + k) % (n + 1),
    decreases k,
{
    if k > 0 {
        lemma_cycled_closed_form(index, n, (k - 1) as nat);
        let prev = cycled(index, n, (k - 1) as nat);
        assert(prev == (index + k - 1) % (n + 1));
        vstd::arithmetic::div_mod::lemma_add_mod_noop_right(1, index + k - 1, n + 1);
        assert((1 + (index + k - 1) % (n + 1)) % (n + 1) == (index + k) % (n + 1));
        assert(cycled(index, n, k) == (prev + 1) % (n + 1));
    } else {
        vstd::arithmetic::div_mod::lemma_small_mod(index as nat, (n + 1) as nat);
    }
}

/// Cycling through the choices visits every installed language and comes
/// back to the starting choice after one step per choice.
pub proof fn lemma_cycle_returns(index: int, n: int)
    requires
        0 <= index <= n,
    ensures
        cycled(index, n, (n + 1) as nat) == index,
        forall|k: nat| k <= n ==> #[trigger] cycled(0, n, k) == k,
{
    lemma_cycled_closed_form(index, n, (n + 1) as nat);
    vstd::arithmetic::div_mod::lemma_mod_add_multiples_vanish(index, n + 1);
    vstd::arithmetic::div_mod::lemma_small_mod(index as nat, (n + 1) as nat);
    assert forall|k: nat| k <= n implies #[trigger] cycled(0, n, k) == k by {
        lemma_cycled_closed_form(0, n, k);
        vstd::arithmetic::div_mod::lemma_small_mod(k, (n + 1) as nat);
    }
}

/// Tags that no two installed languages share, ignoring ASCII case.
pub open spec fn distinct_tags(s: Seq<LanguageView>) -> bool {
    forall|i: int, j: int|
        0 <= i < s.len() && 0 <= j < s.len() && i != j ==> !eq_ignore_ascii_case(
            #[trigger] s[i].0,
            #[trigger] s[j].0,
        )
}

proof fn lemma_tag_position_finds(s: Seq<LanguageView>, tag: Seq<char>, i: int, target: int)
    requires
        0 <= i <= target < s.len(),
        eq_ignore_ascii_case(s[target].0, tag),
        forall|k: int| i <= k < target ==> !eq_ignore_ascii_case(#[trigger] s[k].0, tag),
    ensures
        tag_position(s, tag, i) == target,
    decreases target - i,
{
    if i < target {
        lemma_tag_position_finds(s, tag, i + 1, target);
    }
}

/// Saving the selected language's tag and selecting by that tag again gives
/// back the same choice, where no two installed tags are equal ignoring case.
pub proof fn lemma_tag_restores_selection(s: Seq<LanguageView>, index: int)
    requires
        0 <= index <= s.len(),
        distinct_tags(s),
    ensures
        index_for_tag(s, tag_at(s, index)) == index,
{
    if index > 0 {
        let t = s[index - 1].0;
        assert(eq_ignore_ascii_case(t, t));
        assert forall|k: int| 0 <= k < index - 1 implies !eq_ignore_ascii_case(
            #[trigger] s[k].0,
            t,
        ) by {
            assert(!eq_ignore_ascii_case(s[k].0, s[index - 1].0));
        }
        lemma_tag_position_finds(s, t, 0, index - 1);
    }
}

/// Which recognizer serves the selection, and whether it has to be made.
#[derive(Debug, Clone, Copy, PartialEq, Eq, Structural)]
pub enum EngineChoice {
    /// The recognizer for the user's profile languages, made where there is
    /// none yet.
    Auto { create: bool },
    /// The recognizer for installed language `index`, made where the one kept
    /// is for another language or there is none.
    Language { index: usize, create: bool },
}

/// The recognizer for selection `current_index`, where `has_auto` says whether
/// the automatic recognizer exists and `cached_language` which installed
/// language the kept language recognizer is for.
pub open spec fn engine_choice_spec(
    current_index: usize,
    has_auto: bool,
    cached_language: Option<usize>,
) -> EngineChoice {
    if current_index == 0 {
        EngineChoice::Auto { create: !has_auto }
    } else {
        let index = (current_index - 1) as usize;
        EngineChoice::Language { index, create: cached_language != Some(index) }
    }
}

/// What is kept after serving a selection: whether the automatic recognizer
/// exists, and which language the kept language recognizer is for.
pub open spec fn engines_kept_after(
    current_index: usize,
    has_auto: bool,
    cached_language: Option<usize>,
) -> (bool, Option<usize>) {
    match engine_choice_spec(current_index, has_auto, cached_language) {
        EngineChoice::Auto { .. } => (true, cached_language),
        EngineChoice::Language { index, .. } => (has_auto, Some(index)),
    }
}

/// Decides which recognizer serves the selection.
pub fn engine_choice(current_index: usize, has_auto: bool, cached_language: Option<usize>) -> (r:
    EngineChoice)
    ensures
        r == engine_choice_spec(current_index, has_auto, cached_language),
{
    if current_index == 0 {
        EngineChoice::Auto { create: !has_auto }
    } else {
        let index = current_index - 1;
        let create = match cached_language {
            Some(cached) => cached != index,
            None => true,
        };
        EngineChoice::Language { index, create }
    }
}

/// A recognizer made for a selection is kept: serving the same selection
/// again makes none.
pub proof fn lemma_engine_kept(current_index: usize, has_auto: bool, cached_language: Option<usize>)
    ensures
        ({
            let (auto_after, cached_after) = engines_kept_after(
                current_index,
                has_auto,
                cached_language,
            );
            match engine_choice_spec(current_index, auto_after, cached_after) {
                EngineChoice::Auto { create } => !create,
                EngineChoice::Language { create, .. } => !create,
            }
        }),
{
}

/// Which recognizer serves a selection: automatic for choice 0, installed
/// language `k - 1` for choice `k`. The automatic recognizer is made exactly
/// when there is none, whatever language recognizer is kept; a language
/// recognizer is made exactly when none is kept for that language, whether
/// or not the automatic one exists.
pub proof fn lemma_engine_choice_rules(current_index: usize, has_auto: bool, cached_language: Option<
    usize,
>)
    ensures
        current_index == 0 ==> match engine_choice_spec(current_index, has_auto, cached_language) {
            EngineChoice::Auto { create } => create == !has_auto,
            EngineChoice::Language { .. } => false,
        },
        current_index > 0 ==> match engine_choice_spec(current_index, has_auto, cached_language) {
            EngineChoice::Auto { .. } => false,
            EngineChoice::Language { index, create } => index == current_index - 1 && create == (
            cached_language != Some((current_index - 1) as usize)),
        },
{
}

} // verus!
