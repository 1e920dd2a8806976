//! The settings file: a language tag and two hotkeys, one `key=value` per line.
use vstd::prelude::*;

use crate::hotkey::{lemma_ctrl_alt_key_accepted, parse_hotkey, Hotkey};
use crate::text::{
    char_vecs, lemma_split_on_append, lemma_split_on_no_sep, lemma_trim_trimmed, lemma_trimmed_last_not_ws, chars_eq_ignore_ascii_case, chars_of, chars_skip, chars_start_with, eq_ignore_ascii_case,
    is_char, push_chars, split_chars, split_on, starts_with, string_from_chars, string_from_str,
    trim, trim_chars,
};

verus! {

broadcast use vstd::string::group_string_axioms;

/// The capture hotkey used when none valid is configured.
pub const DEFAULT_CAPTURE_HOTKEY: &'static str = "Ctrl+Alt+D";

/// The language-cycle hotkey used when none valid is configured.
pub const DEFAULT_CYCLE_HOTKEY: &'static str = "Ctrl+Alt+W";

pub open spec fn default_capture() -> Seq<char> {
    DEFAULT_CAPTURE_HOTKEY@
}

pub open spec fn default_cycle() -> Seq<char> {
    DEFAULT_CYCLE_HOTKEY@
}

pub open spec fn language_key() -> Seq<char> {
    "language_tag="@
}

pub open spec fn capture_key() -> Seq<char> {
    "capture_hotkey="@
}

pub open spec fn cycle_key() -> Seq<char> {
    "cycle_hotkey="@
}

/// The persisted settings: OCR language tag (none for automatic), capture
/// hotkey text and language-cycle hotkey text.
#[derive(Debug, Clone)]
pub struct RustSettings {
    pub language_tag: Option<String>,
    pub capture_hotkey: String,
    pub cycle_hotkey: String,
}

pub type SettingsView = (Option<Seq<char>>, Seq<char>, Seq<char>);

impl View for RustSettings {
    type V = SettingsView;

    open spec fn view(&self) -> SettingsView {
        (
            match self.language_tag {
                Some(t) => Some(t@),
                None => None,
            },
            self.capture_hotkey@,
            self.cycle_hotkey@,
        )
    }
}

pub open spec fn default_settings() -> SettingsView {
    (None, default_capture(), default_cycle())
}

/// A line without one trailing carriage return.
pub open spec fn strip_cr(s: Seq<char>) -> Seq<char> {
    if s.len() > 0 && s.last() == '\r' {
        s.drop_last()
    } else {
        s
    }
}

/// The lines of a text, as `str::lines`: split at `\n`, each line ended by
/// `\n` loses one `\r` before it, and a last empty line is not a line.
pub open spec fn text_lines(s: Seq<char>) -> Seq<Seq<char>> {
    let p = split_on(s, is_char('\n'));
    let ended = p.drop_last().map_values(|l: Seq<char>| strip_cr(l));
    if p.last().len() == 0 {
        ended
    } else {
        ended.push(p.last())
    }
}

/// One line of the settings file applied to the settings read so far.
pub open spec fn apply_line(st: SettingsView, line: Seq<char>) -> SettingsView {
    if starts_with(line, language_key()) {
        let v = trim(line.skip(language_key().len() as int));
        (
            if v.len() == 0 {
                None
            } else {
                Some(v)
            },
            st.1,
            st.2,
        )
    } else if starts_with(line, capture_key()) {
        (st.0, trim(line.skip(capture_key().len() as int)), st.2)
    } else if starts_with(line, cycle_key()) {
        (st.0, st.1, trim(line.skip(cycle_key().len() as int)))
    } else {
        st
    }
}

pub open spec fn apply_lines(lines: Seq<Seq<char>>) -> SettingsView
    decreases lines.len(),
{
    if lines.len() == 0 {
        default_settings()
    } else {
        apply_line(apply_lines(lines.drop_last()), lines.last())
    }
}

/// A hotkey text that does not parse is replaced by its default; two hotkeys
/// that are equal ignoring ASCII case are both replaced by their defaults.
pub open spec fn reconcile(st: SettingsView) -> SettingsView {
    let c = if parse_hotkey(st.1) is Err {
        default_capture()
    } else {
        st.1
    };
    let y = if parse_hotkey(st.2) is Err {
        default_cycle()
    } else {
        st.2
    };
    if eq_ignore_ascii_case(c, y) {
        (st.0, default_capture(), default_cycle())
    } else {
        (st.0, c, y)
    }
}

/// The settings that a settings file's text gives.
pub open spec fn settings_from_text(text: Seq<char>) -> SettingsView {
    reconcile(apply_lines(text_lines(text)))
}

/// The text of a settings file.
pub open spec fn settings_text(st: SettingsView) -> Seq<char> {
    let tag = match st.0 {
        Some(t) => t,
        None => Seq::empty(),
    };
    language_key() + tag + seq!['\n'] + capture_key() + st.1 + seq!['\n'] + cycle_key() + st.2
        + seq!['\n']
}

proof fn lemma_defaults_differ()
    ensures
        !eq_ignore_ascii_case(default_capture(), default_cycle()),
{
    reveal_strlit("Ctrl+Alt+D");
    reveal_strlit("Ctrl+Alt+W");
    assert(crate::text::ascii_lower(default_capture()[9]) as u32 == 100);
    assert(crate::text::ascii_lower(default_cycle()[9]) as u32 == 119);
}

proof fn lemma_applied_tag_trimmed(lines: Seq<Seq<char>>)
    ensures
        apply_lines(lines).0 matches Some(t) ==> t.len() > 0 && trim(t) == t,
    decreases lines.len(),
{
    if lines.len() > 0 {
        lemma_applied_tag_trimmed(lines.drop_last());
        let line = lines.last();
        lemma_trim_trimmed(line.skip(language_key().len() as int));
    }
}

/// Whatever a settings file holds, a language tag read from it is non-empty
/// and already trimmed.
pub proof fn lemma_loaded_tag_trimmed(text: Seq<char>)
    ensures
        settings_from_text(text).0 matches Some(t) ==> t.len() > 0 && trim(t) == t,
{
    lemma_applied_tag_trimmed(text_lines(text));
}

/// Each hotkey read from a settings file is kept as written where it parses
/// and differs, ignoring ASCII case, from the other hotkey once that one has
/// fallen back to its default if it does not parse; a hotkey that does not
/// parse is replaced by its own default. The language tag is kept as read.
pub proof fn lemma_loaded_hotkeys_kept(text: Seq<char>)
    ensures
        ({
            let read = apply_lines(text_lines(text));
            let loaded = settings_from_text(text);
            let capture_ok = parse_hotkey(read.1) is Ok;
            let cycle_ok = parse_hotkey(read.2) is Ok;
            let capture_or_default = if capture_ok {
                read.1
            } else {
                default_capture()
            };
            let cycle_or_default = if cycle_ok {
                read.2
            } else {
                default_cycle()
            };
            &&& capture_ok && !eq_ignore_ascii_case(read.1, cycle_or_default) ==> loaded.1 == read.1
            &&& cycle_ok && !eq_ignore_ascii_case(capture_or_default, read.2) ==> loaded.2 == read.2
            &&& !capture_ok ==> loaded.1 == default_capture()
            &&& !cycle_ok ==> loaded.2 == default_cycle()
            &&& loaded.0 == read.0
        }),
{
}

/// Whatever a settings file holds, the settings read from it have two
/// accepted hotkeys that differ ignoring ASCII case.
pub proof fn lemma_loaded_hotkeys_usable(text: Seq<char>)
    ensures
        parse_hotkey(settings_from_text(text).1) is Ok,
        parse_hotkey(settings_from_text(text).2) is Ok,
        !eq_ignore_ascii_case(settings_from_text(text).1, settings_from_text(text).2),
{
    reveal_strlit("Ctrl+Alt+D");
    reveal_strlit("Ctrl+Alt+W");
    reveal_strlit("Ctrl+Alt+");
    assert(default_capture() =~= "Ctrl+Alt+"@ + seq!['D']);
    assert(default_cycle() =~= "Ctrl+Alt+"@ + seq!['W']);
    lemma_ctrl_alt_key_accepted('D');
    lemma_ctrl_alt_key_accepted('W');
    lemma_defaults_differ();
}

/// The lines of a text.
pub fn text_lines_chars(s: &Vec<char>) -> (r: Vec<Vec<char>>)
    ensures
        char_vecs(r@) == text_lines(s@),
{
    let pieces = split_chars(s, '\n');
    let ghost p = char_vecs(pieces@);
    proof {
        crate::text::lemma_split_on_nonempty(s@, is_char('\n'));
    }
    let n = pieces.len();
    let mut out: Vec<Vec<char>> = Vec::new();
    let mut i: usize = 0;
    while i + 1 < n
        invariant
            n == pieces.len() >= 1,
            p == char_vecs(pieces@),
            i + 1 <= n,
            char_vecs(out@) == p.drop_last().take(i as int).map_values(
                |l: Seq<char>| strip_cr(l),
            ),
        decreases n - i,
    {
        let line = &pieces[i];
        let ghost before = char_vecs(out@);
        assert(p.drop_last()[i as int] == line@);
        if line.len() > 0 && line[line.len() - 1] == '\r' {
            out.push(chars_skip_last(line));
            assert(strip_cr(line@) == line@.drop_last());
        } else {
            out.push(chars_skip(line, 0));
            assert(line@.skip(0) == line@);
            assert(strip_cr(line@) == line@);
        }
        assert(char_vecs(out@) =~= before.push(strip_cr(line@)));
        i = i + 1;
        assert(p.drop_last().take(i as int).map_values(|l: Seq<char>| strip_cr(l))
            =~= p.drop_last().take(i - 1).map_values(|l: Seq<char>| strip_cr(l)).push(
            strip_cr(line@),
        ));
    }
    assert(p.drop_last().take(n - 1) == p.drop_last());
    let last = &pieces[n - 1];
    if last.len() > 0 {
        let ghost before = char_vecs(out@);
        out.push(chars_skip(last, 0));
        assert(last@.skip(0) == last@);
        assert(char_vecs(out@) =~= before.push(p.last()));
    }
    out
}

fn chars_skip_last(s: &Vec<char>) -> (r: Vec<char>)
    requires
        s.len() > 0,
    ensures
        r@ == s@.drop_last(),
{
    crate::text::chars_subrange(s, 0, s.len() - 1)
}

/// The value after a `key=` prefix, trimmed, where the line has that prefix.
fn value_after(line: &Vec<char>, key: &str) -> (r: Option<Vec<char>>)
    ensures
        match r {
            Some(v) => starts_with(line@, key@) && v@ == trim(line@.skip(key@.len() as int)),
            None => !starts_with(line@, key@),
        },
{
    let k = chars_of(key);
    if chars_start_with(line, &k) {
        let rest = chars_skip(line, k.len());
        Some(trim_chars(&rest))
    } else {
        None
    }
}

impl RustSettings {
    /// The settings used when there is no settings file.
    pub fn default() -> (r: RustSettings)
        ensures
            r@ == default_settings(),
    {
        RustSettings {
            language_tag: None,
            capture_hotkey: string_from_str(DEFAULT_CAPTURE_HOTKEY),
            cycle_hotkey: string_from_str(DEFAULT_CYCLE_HOTKEY),
        }
    }

    /// Reads a settings file's text: later lines override earlier ones, an
    /// empty language tag means automatic, invalid or clashing hotkeys fall
    /// back to the defaults.
    pub fn parse(text: &str) -> (r: RustSettings)
        ensures
            r@ == settings_from_text(text@),
    {
        let cs = chars_of(text);
        let lines = text_lines_chars(&cs);
        let mut settings = RustSettings::default();
        let mut i: usize = 0;
        while i < lines.len()
            invariant
                i <= lines.len(),
                char_vecs(lines@) == text_lines(text@),
                settings@ == apply_lines(char_vecs(lines@).take(i as int)),
            decreases lines.len() - i,
        {
            let ghost all = char_vecs(lines@);
            assert(all.take(i + 1).drop_last() == all.take(i as int));
            assert(all.take(i + 1).last() == lines[i as int]@);
            let line = &lines[i];
            match value_after(line, "language_tag=") {
                Some(v) => {
                    settings.language_tag = if v.len() == 0 {
                        None
                    } else {
                        Some(string_from_chars(&v))
                    };
                },
                None => match value_after(line, "capture_hotkey=") {
                    Some(v) => {
                        settings.capture_hotkey = string_from_chars(&v);
                    },
                    None => match value_after(line, "cycle_hotkey=") {
                        Some(v) => {
                            settings.cycle_hotkey = string_from_chars(&v);
                        },
                        None => {},
                    },
                },
            }
            i = i + 1;
        }
        assert(char_vecs(lines@).take(lines.len() as int) == char_vecs(lines@));
        if Hotkey::parse(settings.capture_hotkey.as_str()).is_err() {
            settings.capture_hotkey = string_from_str(DEFAULT_CAPTURE_HOTKEY);
        }
        if Hotkey::parse(settings.cycle_hotkey.as_str()).is_err() {
            settings.cycle_hotkey = string_from_str(DEFAULT_CYCLE_HOTKEY);
        }
        let capture = chars_of(settings.capture_hotkey.as_str());
        let cycle = chars_of(settings.cycle_hotkey.as_str());
        if chars_eq_ignore_ascii_case(&capture, &cycle) {
            settings.capture_hotkey = string_from_str(DEFAULT_CAPTURE_HOTKEY);
            settings.cycle_hotkey = string_from_str(DEFAULT_CYCLE_HOTKEY);
        }
        let capture = chars_of(settings.capture_hotkey.as_str());
        let cycle = chars_of(settings.cycle_hotkey.as_str());
        if chars_eq_ignore_ascii_case(&capture, &cycle) {
            proof {
                lemma_defaults_differ();
            }
            settings.capture_hotkey = string_from_str(DEFAULT_CAPTURE_HOTKEY);
            settings.cycle_hotkey = string_from_str(DEFAULT_CYCLE_HOTKEY);
        }
        settings
    }

    /// The text of the settings file that holds these settings.
    pub fn to_text(&self) -> (r: String)
        ensures
            r@ == settings_text(self@),
    {
        let mut out = string_from_str("language_tag=");
        match &self.language_tag {
            Some(t) => push_chars(&mut out, &chars_of(t.as_str())),
            None => {},
        }
        push_chars(&mut out, &chars_of("\ncapture_hotkey="));
        push_chars(&mut out, &chars_of(self.capture_hotkey.as_str()));
        push_chars(&mut out, &chars_of("\ncycle_hotkey="));
        push_chars(&mut out, &chars_of(self.cycle_hotkey.as_str()));
        push_chars(&mut out, &chars_of("\n"));
        proof {
            reveal_strlit("\ncapture_hotkey=");
            reveal_strlit("capture_hotkey=");
            reveal_strlit("\ncycle_hotkey=");
            reveal_strlit("cycle_hotkey=");
            reveal_strlit("\n");
        }
        assert(out@ =~= settings_text(self@));
        out
    }
}

/// A value that a settings line keeps as written: already trimmed and
/// without a line break.
pub open spec fn keeps_as_written(v: Seq<char>) -> bool {
    trim(v) == v && !v.contains('\n')
}

/// Settings that the settings file can hold: a language tag that is absent or
/// non-empty, and two valid hotkeys that differ ignoring ASCII case.
pub open spec fn storable(st: SettingsView) -> bool {
    &&& (st.0 matches Some(t) ==> t.len() > 0 && keeps_as_written(t))
    &&& keeps_as_written(st.1)
    &&& keeps_as_written(st.2)
    &&& parse_hotkey(st.1) is Ok
    &&& parse_hotkey(st.2) is Ok
    &&& !eq_ignore_ascii_case(st.1, st.2)
}

proof fn lemma_line_is_one_piece(key: Seq<char>, v: Seq<char>)
    requires
        !key.contains('\n'),
        !v.contains('\n'),
    ensures
        split_on(key + v, is_char('\n')) == seq![key + v],
{
    let l = key + v;
    assert forall|i: int| 0 <= i < l.len() implies !is_char('\n')(#[trigger] l[i]) by {
        if i < key.len() {
            assert(l[i] == key[i]);
        } else {
            assert(l[i] == v[i - key.len()]);
        }
    }
    lemma_split_on_no_sep(l, is_char('\n'));
}

proof fn lemma_line_not_cr(key: Seq<char>, v: Seq<char>)
    requires
        key.len() > 0,
        key.last() == '=',
        trim(v) == v,
    ensures
        strip_cr(key + v) == key + v,
{
    if v.len() > 0 {
        lemma_trimmed_last_not_ws(v);
        assert((key + v).last() == v.last());
    } else {
        assert(key + v == key);
    }
}

spec fn tag_text(st: SettingsView) -> Seq<char> {
    match st.0 {
        Some(t) => t,
        None => Seq::<char>::empty(),
    }
}

proof fn lemma_settings_text_lines(st: SettingsView)
    requires
        storable(st),
    ensures
        text_lines(settings_text(st)) == seq![
            language_key() + tag_text(st),
            capture_key() + st.1,
            cycle_key() + st.2,
        ],
{
    reveal_strlit("language_tag=");
    reveal_strlit("capture_hotkey=");
    reveal_strlit("cycle_hotkey=");
    let tag = tag_text(st);
    let l1 = language_key() + tag;
    let l2 = capture_key() + st.1;
    let l3 = cycle_key() + st.2;
    let nl = '\n';
    let sep = is_char(nl);
    let empty = Seq::<char>::empty();
    let text = settings_text(st);
    assert(text =~= l1 + seq![nl] + (l2 + seq![nl] + (l3 + seq![nl] + empty)));
    assert(!language_key().contains(nl));
    assert(!capture_key().contains(nl));
    assert(!cycle_key().contains(nl));
    assert(!tag.contains(nl));
    lemma_line_is_one_piece(language_key(), tag);
    lemma_line_is_one_piece(capture_key(), st.1);
    lemma_line_is_one_piece(cycle_key(), st.2);
    lemma_split_on_append(l3, nl, empty, sep);
    lemma_split_on_append(l2, nl, l3 + seq![nl] + empty, sep);
    lemma_split_on_append(l1, nl, l2 + seq![nl] + (l3 + seq![nl] + empty), sep);
    let p = split_on(text, sep);
    assert(p =~= seq![l1, l2, l3, empty]);
    assert(trim(tag) == tag);
    lemma_line_not_cr(language_key(), tag);
    lemma_line_not_cr(capture_key(), st.1);
    lemma_line_not_cr(cycle_key(), st.2);
    assert(text_lines(text) =~= seq![l1, l2, l3]);
}

proof fn lemma_settings_apply_lines(st: SettingsView)
    requires
        storable(st),
    ensures
        apply_lines(
            seq![language_key() + tag_text(st), capture_key() + st.1, cycle_key() + st.2],
        ) == st,
{
    reveal_strlit("language_tag=");
    reveal_strlit("capture_hotkey=");
    reveal_strlit("cycle_hotkey=");
    let tag = tag_text(st);
    let l1 = language_key() + tag;
    let l2 = capture_key() + st.1;
    let l3 = cycle_key() + st.2;
    let lines = seq![l1, l2, l3];
    assert(lines.drop_last() =~= seq![l1, l2]);
    assert(lines.drop_last().drop_last() =~= seq![l1]);
    assert(lines.drop_last().drop_last().drop_last() =~= Seq::<Seq<char>>::empty());
    assert(l1.take(language_key().len() as int) =~= language_key());
    assert(l1.skip(language_key().len() as int) =~= tag);
    assert(trim(tag) == tag);
    let s1 = apply_line(default_settings(), l1);
    assert(s1 == (st.0, default_capture(), default_cycle()));
    assert(l2[0] != language_key()[0]);
    assert(!starts_with(l2, language_key()));
    assert(l2.take(capture_key().len() as int) =~= capture_key());
    assert(l2.skip(capture_key().len() as int) =~= st.1);
    let s2 = apply_line(s1, l2);
    assert(s2 == (st.0, st.1, default_cycle()));
    assert(l3[0] != language_key()[0]);
    assert(!starts_with(l3, language_key()));
    assert(l3[1] != capture_key()[1]);
    assert(!starts_with(l3, capture_key()));
    assert(l3.take(cycle_key().len() as int) =~= cycle_key());
    assert(l3.skip(cycle_key().len() as int) =~= st.2);
    let s3 = apply_line(s2, l3);
    assert(s3 == st);
    let one = lines.drop_last().drop_last();
    assert(one.last() == l1);
    assert(apply_lines(one.drop_last()) == default_settings());
    assert(apply_lines(one) == s1);
    assert(apply_lines(lines.drop_last()) == s2);
    assert(apply_lines(lines) == s3);
}

/// Writing settings that the file can hold and reading the text back gives
/// the same settings.
pub proof fn lemma_settings_round_trip(st: SettingsView)
    requires
        storable(st),
    ensures
        settings_from_text(settings_text(st)) == st,
{
    lemma_settings_text_lines(st);
    lemma_settings_apply_lines(st);
}

} // verus!
