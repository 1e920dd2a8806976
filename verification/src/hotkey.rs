//! Hotkey text such as `Ctrl+Alt+D`: parsing into modifier bits, a virtual
//! key code and a canonical display text.
use vstd::prelude::*;

use crate::number::{decimal, int_from_str, lemma_decimal_reads_back, parse_int_chars, push_decimal};
use crate::text::{
    ascii_upper, ascii_upper_seq, char_vecs, chars_eq_str, chars_of, chars_skip, is_alphanumeric_ascii,
    is_ascii_alnum, is_char, is_ws, join, join_strings, lemma_split_join, lemma_trim_no_ws_ends,
    push_char, push_chars, split_chars, split_on, string_from_chars, string_from_str,
    to_ascii_upper, trim, trim_chars, upper_chars,
};

verus! {

broadcast use vstd::string::group_string_axioms;

/// Modifier bit of the Alt key in a hotkey registration.
pub const MOD_ALT: u32 = 0x0001;

/// Modifier bit of the Ctrl key in a hotkey registration.
pub const MOD_CONTROL: u32 = 0x0002;

/// Modifier bit of the Shift key in a hotkey registration.
pub const MOD_SHIFT: u32 = 0x0004;

/// Virtual key code of F12, which is kept for debuggers.
pub const VK_F12: u32 = 0x7B;

/// A parsed hotkey: modifier bits, virtual key code and display text.
#[derive(Debug, Clone)]
pub struct Hotkey {
    pub modifiers: u32,
    pub virtual_key: u32,
    pub display: String,
}

impl View for Hotkey {
    type V = (u32, u32, Seq<char>);

    open spec fn view(&self) -> (u32, u32, Seq<char>) {
        (self.modifiers, self.virtual_key, self.display@)
    }
}

/// A result whose error is a message, taken by its views.
pub open spec fn view_result<T: View>(r: Result<T, String>) -> Result<T::V, Seq<char>> {
    match r {
        Ok(v) => Ok(v@),
        Err(e) => Err(e@),
    }
}

/// The key code and display name of the named keys.
pub open spec fn named_key(t: Seq<char>) -> Option<(u32, Seq<char>)> {
    if t == "SPACE"@ {
        Some((0x20u32, "Space"@))
    } else if t == "TAB"@ {
        Some((0x09u32, "Tab"@))
    } else if t == "ENTER"@ {
        Some((0x0Du32, "Enter"@))
    } else if t == "ESC"@ || t == "ESCAPE"@ {
        Some((0x1Bu32, "Esc"@))
    } else if t == "PRINTSCREEN"@ || t == "PRTSC"@ {
        Some((0x2Cu32, "PrintScreen"@))
    } else {
        None
    }
}

/// The number `n` of a function key token `Fn`, where the rest of the token
/// reads as a `u32`.
pub open spec fn function_key_number(t: Seq<char>) -> Option<int> {
    if t.len() >= 1 && t[0] == 'F' {
        match int_from_str(t.drop_first(), false, 0, u32::MAX as int) {
            Ok(n) => Some(n),
            Err(_) => None,
        }
    } else {
        None
    }
}

/// The key code and display name of one key token, or the message that
/// rejects it: a single ASCII letter or digit (in upper case), `F1` to `F24`,
/// or a named key.
pub open spec fn parse_key_token(t: Seq<char>) -> Result<(u32, Seq<char>), Seq<char>> {
    if t.len() == 1 && is_ascii_alnum(t[0]) {
        Ok((ascii_upper(t[0]) as u32, seq![ascii_upper(t[0])]))
    } else if function_key_number(t) is Some && 1 <= function_key_number(t)->0 <= 24 {
        let n = function_key_number(t)->0;
        Ok(((0x70 + n - 1) as u32, seq!['F'] + decimal(n as nat)))
    } else if named_key(t) is Some {
        Ok(named_key(t)->0)
    } else {
        Err("Unsupported key: "@ + t)
    }
}

/// What the tokens read so far give: Ctrl, Alt and Shift seen, and the key.
pub type KeyScan = (bool, bool, bool, Option<(u32, Seq<char>)>);

/// One `+`-separated piece of hotkey text, trimmed and in upper case, applied
/// to what the pieces before it gave.
pub open spec fn scan_piece(st: KeyScan, piece: Seq<char>) -> Result<KeyScan, Seq<char>> {
    let t = ascii_upper_seq(trim(piece));
    if t.len() == 0 {
        Ok(st)
    } else if t == "CTRL"@ || t == "CONTROL"@ {
        Ok((true, st.1, st.2, st.3))
    } else if t == "ALT"@ {
        Ok((st.0, true, st.2, st.3))
    } else if t == "SHIFT"@ {
        Ok((st.0, st.1, true, st.3))
    } else if t == "WIN"@ || t == "WINDOWS"@ || t == "META"@ {
        Err("Win hotkeys are reserved by Windows"@)
    } else if st.3 is Some {
        Err("Hotkey can only contain one non-modifier key"@)
    } else {
        match parse_key_token(t) {
            Ok(k) => Ok((st.0, st.1, st.2, Some(k))),
            Err(e) => Err(e),
        }
    }
}

/// The pieces applied in order; the first rejected piece gives the error.
pub open spec fn scan_pieces(pieces: Seq<Seq<char>>) -> Result<KeyScan, Seq<char>>
    decreases pieces.len(),
{
    if pieces.len() == 0 {
        Ok((false, false, false, None))
    } else {
        match scan_pieces(pieces.drop_last()) {
            Ok(st) => scan_piece(st, pieces.last()),
            Err(e) => Err(e),
        }
    }
}

pub open spec fn modifier_bits(ctrl: bool, alt: bool, shift: bool) -> u32 {
    ((if ctrl {
        MOD_CONTROL
    } else {
        0
    }) + (if alt {
        MOD_ALT
    } else {
        0
    }) + (if shift {
        MOD_SHIFT
    } else {
        0
    })) as u32
}

/// The display parts: the modifiers present, in the order Ctrl, Alt, Shift,
/// then the key.
pub open spec fn display_parts(ctrl: bool, alt: bool, shift: bool, key: Seq<char>) -> Seq<
    Seq<char>,
> {
    (if ctrl {
        seq!["Ctrl"@]
    } else {
        Seq::empty()
    }) + (if alt {
        seq!["Alt"@]
    } else {
        Seq::empty()
    }) + (if shift {
        seq!["Shift"@]
    } else {
        Seq::empty()
    }) + seq![key]
}

/// The hotkey that a text denotes, as (modifier bits, key code, display), or
/// the message that rejects it.
pub open spec fn parse_hotkey(value: Seq<char>) -> Result<(u32, u32, Seq<char>), Seq<char>> {
    match scan_pieces(split_on(value, is_char('+'))) {
        Err(e) => Err(e),
        Ok((ctrl, alt, shift, key)) => if !ctrl && !alt {
            Err("Hotkey must include Ctrl or Alt"@)
        } else {
            match key {
                None => Err("Hotkey must include a key"@),
                Some((code, name)) => if code == VK_F12 {
                    Err("F12 is reserved for debuggers"@)
                } else {
                    Ok(
                        (
                            modifier_bits(ctrl, alt, shift),
                            code,
                            join(display_parts(ctrl, alt, shift, name), "+"@),
                        ),
                    )
                },
            }
        },
    }
}

/// Whether an upper-case piece names a modifier or the Win key.
spec fn is_modifier_word(t: Seq<char>) -> bool {
    ||| t == "CTRL"@
    ||| t == "CONTROL"@
    ||| t == "ALT"@
    ||| t == "SHIFT"@
    ||| t == "WIN"@
    ||| t == "WINDOWS"@
    ||| t == "META"@
}

/// Whether an upper-case piece names the Win key.
pub open spec fn is_win_word(t: Seq<char>) -> bool {
    t == "WIN"@ || t == "WINDOWS"@ || t == "META"@
}

/// A key display name that reads back as the same key: it has no `+` and no
/// whitespace at either end, and its upper case is a key token for it.
spec fn reads_back_as_key(code: u32, name: Seq<char>) -> bool {
    let u = ascii_upper_seq(name);
    &&& name.len() > 0
    &&& !is_ws(name[0])
    &&& !is_ws(name.last())
    &&& forall|j: int| 0 <= j < name.len() ==> #[trigger] name[j] != '+'
    &&& !is_modifier_word(u)
    &&& parse_key_token(u) == Ok::<(u32, Seq<char>), Seq<char>>((code, name))
}

proof fn lemma_key_token_reads_back(t: Seq<char>)
    ensures
        parse_key_token(t) matches Ok((code, name)) ==> reads_back_as_key(code, name),
{
    reveal_strlit("CTRL");
    reveal_strlit("CONTROL");
    reveal_strlit("ALT");
    reveal_strlit("SHIFT");
    reveal_strlit("WIN");
    reveal_strlit("WINDOWS");
    reveal_strlit("META");
    reveal_strlit("SPACE");
    reveal_strlit("TAB");
    reveal_strlit("ENTER");
    reveal_strlit("ESC");
    reveal_strlit("ESCAPE");
    reveal_strlit("PRINTSCREEN");
    reveal_strlit("PRTSC");
    reveal_strlit("Space");
    reveal_strlit("Tab");
    reveal_strlit("Enter");
    reveal_strlit("Esc");
    reveal_strlit("PrintScreen");
    if t.len() == 1 && is_ascii_alnum(t[0]) {
        let u = ascii_upper(t[0]);
        let name = seq![u];
        assert(ascii_upper(u) == u);
        assert(ascii_upper_seq(name) =~= name);
    } else if function_key_number(t) is Some && 1 <= function_key_number(t)->0 <= 24 {
        let n = function_key_number(t)->0;
        let digits = decimal(n as nat);
        let name = seq!['F'] + digits;
        lemma_decimal_reads_back(n as nat, u32::MAX as int);
        assert(name[0] == 'F');
        assert(name.last() == digits.last());
        assert(ascii_upper_seq(name) =~= name) by {
            assert forall|j: int| 0 <= j < name.len() implies ascii_upper(#[trigger] name[j])
                == name[j] by {
                if j > 0 {
                    assert(name[j] == digits[j - 1]);
                }
            }
        }
        assert forall|j: int| 0 <= j < name.len() implies #[trigger] name[j] != '+' by {
            if j > 0 {
                assert(name[j] == digits[j - 1]);
            }
        }
        assert(name.drop_first() =~= digits);
        assert(function_key_number(name) == Some(n));
    } else if named_key(t) is Some {
        if t == "SPACE"@ {
            assert(ascii_upper_seq("Space"@) =~= "SPACE"@);
        } else if t == "TAB"@ {
            assert(ascii_upper_seq("Tab"@) =~= "TAB"@);
        } else if t == "ENTER"@ {
            assert(ascii_upper_seq("Enter"@) =~= "ENTER"@);
        } else if t == "ESC"@ || t == "ESCAPE"@ {
            assert(ascii_upper_seq("Esc"@) =~= "ESC"@);
        } else {
            assert(ascii_upper_seq("PrintScreen"@) =~= "PRINTSCREEN"@);
        }
    }
}

/// Key codes of the supported keys: digits, letters, F1 to F24, Tab, Enter,
/// Esc, Space and PrintScreen.
pub open spec fn supported_key_code(code: u32) -> bool {
    ||| 0x30 <= code <= 0x39
    ||| 0x41 <= code <= 0x5A
    ||| 0x70 <= code <= 0x87
    ||| code == 0x09
    ||| code == 0x0D
    ||| code == 0x1B
    ||| code == 0x20
    ||| code == 0x2C
}

/// A key token names a supported key code, and the upper case of its display
/// name is a key token for the same key.
pub proof fn lemma_key_name_reads_back(t: Seq<char>)
    ensures
        parse_key_token(t) matches Ok((code, name)) ==> {
            &&& parse_key_token(ascii_upper_seq(name)) == Ok::<(u32, Seq<char>), Seq<char>>(
                (code, name),
            )
            &&& supported_key_code(code)
        },
{
    lemma_key_token_reads_back(t);
    if t.len() == 1 && is_ascii_alnum(t[0]) {
        let c = t[0];
        if 'a' <= c <= 'z' {
            assert(ascii_upper(c) as u32 == c as u32 - 32);
        }
    }
}

proof fn lemma_scan_key_reads_back(pieces: Seq<Seq<char>>)
    ensures
        scan_pieces(pieces) matches Ok((_, _, _, Some((code, name)))) ==> reads_back_as_key(
            code,
            name,
        ),
    decreases pieces.len(),
{
    if pieces.len() > 0 {
        lemma_scan_key_reads_back(pieces.drop_last());
        lemma_key_token_reads_back(ascii_upper_seq(trim(pieces.last())));
    }
}

/// A display built from modifiers with Ctrl or Alt and a key name that reads
/// back, other than F12, is accepted as that very hotkey.
proof fn lemma_display_parses(ctrl: bool, alt: bool, shift: bool, code: u32, name: Seq<char>)
    requires
        ctrl || alt,
        code != VK_F12,
        reads_back_as_key(code, name),
    ensures
        parse_hotkey(join(display_parts(ctrl, alt, shift, name), "+"@)) == Ok::<
            (u32, u32, Seq<char>),
            Seq<char>,
        >(
            (
                modifier_bits(ctrl, alt, shift),
                code,
                join(display_parts(ctrl, alt, shift, name), "+"@),
            ),
        ),
{
    reveal_strlit("+");
    reveal_strlit("Ctrl");
    reveal_strlit("Alt");
    reveal_strlit("Shift");
    reveal_strlit("CTRL");
    reveal_strlit("CONTROL");
    reveal_strlit("ALT");
    reveal_strlit("SHIFT");
    reveal_strlit("WIN");
    reveal_strlit("WINDOWS");
    reveal_strlit("META");
    let parts = display_parts(ctrl, alt, shift, name);
    let d = join(parts, "+"@);
    assert("+"@ =~= seq!['+']);
    // the pieces of the display are its parts
    assert forall|i: int, j: int|
        0 <= i < parts.len() && 0 <= j < parts[i].len() implies #[trigger] parts[i][j] != '+' by {
        if i == parts.len() - 1 {
            assert(parts[i] == name);
        }
    }
    lemma_split_join(parts, '+', is_char('+'));
    // the scan of the parts, one at a time
    lemma_trim_no_ws_ends("Ctrl"@);
    lemma_trim_no_ws_ends("Alt"@);
    lemma_trim_no_ws_ends("Shift"@);
    lemma_trim_no_ws_ends(name);
    assert(ascii_upper_seq("Ctrl"@) =~= "CTRL"@);
    assert(ascii_upper_seq("Alt"@) =~= "ALT"@);
    assert(ascii_upper_seq("Shift"@) =~= "SHIFT"@);
    let m0 = Seq::<Seq<char>>::empty();
    let m1 = if ctrl {
        m0.push("Ctrl"@)
    } else {
        m0
    };
    let m2 = if alt {
        m1.push("Alt"@)
    } else {
        m1
    };
    let m3 = if shift {
        m2.push("Shift"@)
    } else {
        m2
    };
    let all = m3.push(name);
    assert(parts =~= all);
    assert(scan_pieces(m1) == Ok::<KeyScan, Seq<char>>((ctrl, false, false, None))) by {
        assert(scan_pieces(m0) == Ok::<KeyScan, Seq<char>>((false, false, false, None)));
        if ctrl {
            assert(m1.drop_last() =~= m0);
            assert(m1.last() == "Ctrl"@);
        }
    }
    assert(scan_pieces(m2) == Ok::<KeyScan, Seq<char>>((ctrl, alt, false, None))) by {
        if alt {
            assert(m2.drop_last() =~= m1);
        }
    }
    assert(scan_pieces(m3) == Ok::<KeyScan, Seq<char>>((ctrl, alt, shift, None))) by {
        if shift {
            assert(m3.drop_last() =~= m2);
        }
    }
    assert(all.drop_last() =~= m3);
    assert(scan_pieces(all) == Ok::<KeyScan, Seq<char>>((ctrl, alt, shift, Some((code, name)))));
    assert(split_on(d, is_char('+')) == parts);
}

/// The display text of an accepted hotkey is accepted again, as the same
/// hotkey: the display saved in the settings reads back unchanged.
pub proof fn lemma_display_reads_back(value: Seq<char>)
    ensures
        parse_hotkey(value) matches Ok((m, k, d)) ==> parse_hotkey(d) == parse_hotkey(value),
{
    let pieces = split_on(value, is_char('+'));
    lemma_scan_key_reads_back(pieces);
    if let Ok((ctrl, alt, shift, Some((code, name)))) = scan_pieces(pieces) {
        if (ctrl || alt) && code != VK_F12 {
            lemma_display_parses(ctrl, alt, shift, code, name);
        }
    }
}

/// Ctrl and Alt with one letter or digit make an accepted hotkey whose text is
/// its own display.
pub(crate) proof fn lemma_ctrl_alt_key_accepted(c: char)
    requires
        is_ascii_alnum(c),
        c == ascii_upper(c),
    ensures
        parse_hotkey("Ctrl+Alt+"@ + seq![c]) == Ok::<(u32, u32, Seq<char>), Seq<char>>(
            ((MOD_CONTROL + MOD_ALT) as u32, c as u32, "Ctrl+Alt+"@ + seq![c]),
        ),
{
    reveal_strlit("Ctrl+Alt+");
    reveal_strlit("Ctrl");
    reveal_strlit("Alt");
    reveal_strlit("+");
    lemma_key_token_reads_back(seq![c]);
    assert(parse_key_token(seq![c]) == Ok::<(u32, Seq<char>), Seq<char>>((c as u32, seq![c])));
    lemma_display_parses(true, true, false, c as u32, seq![c]);
    let parts = display_parts(true, true, false, seq![c]);
    assert(parts =~= seq!["Ctrl"@, "Alt"@, seq![c]]);
    assert(parts.drop_last() =~= seq!["Ctrl"@, "Alt"@]);
    assert(parts.drop_last().drop_last() =~= seq!["Ctrl"@]);
    assert(join(parts.drop_last().drop_last(), "+"@) == "Ctrl"@);
    assert(join(parts.drop_last(), "+"@) == "Ctrl"@ + "+"@ + "Alt"@);
    assert(join(parts, "+"@) == "Ctrl"@ + "+"@ + "Alt"@ + "+"@ + seq![c]);
    assert(join(parts, "+"@) =~= "Ctrl+Alt+"@ + seq![c]);
}

proof fn lemma_scan_ok_no_win(pieces: Seq<Seq<char>>)
    ensures
        scan_pieces(pieces) is Ok ==> forall|i: int|
            0 <= i < pieces.len() ==> !is_win_word(ascii_upper_seq(trim(#[trigger] pieces[i]))),
    decreases pieces.len(),
{
    reveal_strlit("CTRL");
    reveal_strlit("CONTROL");
    reveal_strlit("ALT");
    reveal_strlit("SHIFT");
    reveal_strlit("WIN");
    reveal_strlit("WINDOWS");
    reveal_strlit("META");
    if pieces.len() > 0 {
        lemma_scan_ok_no_win(pieces.drop_last());
        if scan_pieces(pieces) is Ok {
            assert forall|i: int| 0 <= i < pieces.len() implies !is_win_word(
                ascii_upper_seq(trim(#[trigger] pieces[i])),
            ) by {
                if i < pieces.len() - 1 {
                    assert(pieces[i] == pieces.drop_last()[i]);
                }
            }
        }
    }
}

/// What every accepted hotkey satisfies: Ctrl or Alt among its modifiers and
/// no modifier bit besides Ctrl, Alt and Shift, a key other than F12, and no
/// piece of its text that names the Win key.
pub proof fn lemma_accepted_hotkey_rules(value: Seq<char>)
    ensures
        parse_hotkey(value) matches Ok((m, k, d)) ==> {
            &&& m & (MOD_CONTROL | MOD_ALT) != 0
            &&& m & !(MOD_CONTROL | MOD_ALT | MOD_SHIFT) == 0
            &&& k != VK_F12
            &&& forall|i: int|
                0 <= i < split_on(value, is_char('+')).len() ==> !is_win_word(
                    ascii_upper_seq(trim(#[trigger] split_on(value, is_char('+'))[i])),
                )
        },
{
    let pieces = split_on(value, is_char('+'));
    lemma_scan_ok_no_win(pieces);
    assert(MOD_CONTROL | MOD_ALT == 3u32) by (bit_vector);
    assert(MOD_CONTROL | MOD_ALT | MOD_SHIFT == 7u32) by (bit_vector);
    if let Ok((ctrl, alt, shift, Some((code, name)))) = scan_pieces(pieces) {
        let m = modifier_bits(ctrl, alt, shift);
        assert((ctrl || alt) ==> m & 3u32 != 0) by (bit_vector)
            requires
                m == modifier_bits(ctrl, alt, shift),
        ;
        assert(m & !7u32 == 0) by (bit_vector)
            requires
                m == modifier_bits(ctrl, alt, shift),
        ;
    }
}

spec fn upper_piece(p: Seq<Seq<char>>, i: int) -> Seq<char> {
    ascii_upper_seq(trim(p[i]))
}

spec fn has_ctrl_piece(p: Seq<Seq<char>>) -> bool {
    exists|i: int| 0 <= i < p.len() && (#[trigger] upper_piece(p, i) == "CTRL"@ || upper_piece(p, i) == "CONTROL"@)
}

spec fn has_alt_piece(p: Seq<Seq<char>>) -> bool {
    exists|i: int| 0 <= i < p.len() && #[trigger] upper_piece(p, i) == "ALT"@
}

spec fn has_shift_piece(p: Seq<Seq<char>>) -> bool {
    exists|i: int| 0 <= i < p.len() && #[trigger] upper_piece(p, i) == "SHIFT"@
}

proof fn lemma_scan_flags(p: Seq<Seq<char>>)
    ensures
        scan_pieces(p) matches Ok((c, a, s, _)) ==> c == has_ctrl_piece(p) && a == has_alt_piece(p)
            && s == has_shift_piece(p),
    decreases p.len(),
{
    reveal_strlit("CTRL");
    reveal_strlit("CONTROL");
    reveal_strlit("ALT");
    reveal_strlit("SHIFT");
    reveal_strlit("WIN");
    reveal_strlit("WINDOWS");
    reveal_strlit("META");
    if p.len() > 0 {
        let init = p.drop_last();
        let n = p.len() - 1;
        lemma_scan_flags(init);
        assert forall|i: int| 0 <= i < init.len() implies #[trigger] upper_piece(init, i)
            == upper_piece(p, i) by {
            assert(init[i] == p[i]);
        }
        assert(p.last() == p[n]);
        if let Ok((c, a, s, _)) = scan_pieces(p) {
            let (c0, a0, s0, _) = scan_pieces(init)->Ok_0;
            let t = upper_piece(p, n);
            if has_ctrl_piece(p) {
                let i = choose|i: int| 0 <= i < p.len() && (#[trigger] upper_piece(p, i) == "CTRL"@ || upper_piece(p, i) == "CONTROL"@);
                if i < n {
                    assert(upper_piece(init, i) == upper_piece(p, i));
                }
            }
            if has_ctrl_piece(init) {
                let i = choose|i: int| 0 <= i < init.len() && (#[trigger] upper_piece(init, i) == "CTRL"@ || upper_piece(init, i) == "CONTROL"@);
                assert(upper_piece(init, i) == upper_piece(p, i));
            }
            if has_alt_piece(p) {
                let i = choose|i: int| 0 <= i < p.len() && #[trigger] upper_piece(p, i) == "ALT"@;
                if i < n {
                    assert(upper_piece(init, i) == upper_piece(p, i));
                }
            }
            if has_alt_piece(init) {
                let i = choose|i: int| 0 <= i < init.len() && #[trigger] upper_piece(init, i) == "ALT"@;
                assert(upper_piece(init, i) == upper_piece(p, i));
            }
            if has_shift_piece(p) {
                let i = choose|i: int| 0 <= i < p.len() && #[trigger] upper_piece(p, i) == "SHIFT"@;
                if i < n {
                    assert(upper_piece(init, i) == upper_piece(p, i));
                }
            }
            if has_shift_piece(init) {
                let i = choose|i: int| 0 <= i < init.len() && #[trigger] upper_piece(init, i) == "SHIFT"@;
                assert(upper_piece(init, i) == upper_piece(p, i));
            }
            assert(c == (c0 || t == "CTRL"@ || t == "CONTROL"@));
            assert(a == (a0 || t == "ALT"@));
            assert(s == (s0 || t == "SHIFT"@));
        }
    }
}

/// Each modifier bit of an accepted hotkey is set exactly when one of the
/// `+`-separated pieces of its text names that modifier (trimmed, ignoring
/// ASCII case), each independently of the others: Ctrl or Control for the
/// Ctrl bit, Alt for the Alt bit, Shift for the Shift bit.
pub proof fn lemma_modifier_bits_follow_pieces(value: Seq<char>)
    ensures
        parse_hotkey(value) matches Ok((m, k, d)) ==> {
            let p = split_on(value, is_char('+'));
            &&& (m & MOD_CONTROL != 0) == exists|i: int|
                0 <= i < p.len() && (ascii_upper_seq(trim(#[trigger] p[i])) == "CTRL"@
                    || ascii_upper_seq(trim(p[i])) == "CONTROL"@)
            &&& (m & MOD_ALT != 0) == exists|i: int|
                0 <= i < p.len() && ascii_upper_seq(trim(#[trigger] p[i])) == "ALT"@
            &&& (m & MOD_SHIFT != 0) == exists|i: int|
                0 <= i < p.len() && ascii_upper_seq(trim(#[trigger] p[i])) == "SHIFT"@
        },
{
    let p = split_on(value, is_char('+'));
    lemma_scan_flags(p);
    if let Ok((ctrl, alt, shift, Some((code, name)))) = scan_pieces(p) {
        let m = modifier_bits(ctrl, alt, shift);
        assert((m & MOD_CONTROL != 0) == ctrl) by (bit_vector)
            requires
                m == modifier_bits(ctrl, alt, shift),
        ;
        assert((m & MOD_ALT != 0) == alt) by (bit_vector)
            requires
                m == modifier_bits(ctrl, alt, shift),
        ;
        assert((m & MOD_SHIFT != 0) == shift) by (bit_vector)
            requires
                m == modifier_bits(ctrl, alt, shift),
        ;
        if ctrl {
            let i = choose|i: int| 0 <= i < p.len() && (#[trigger] upper_piece(p, i) == "CTRL"@ || upper_piece(p, i) == "CONTROL"@);
            assert(ascii_upper_seq(trim(p[i])) == upper_piece(p, i));
        }
        if alt {
            let i = choose|i: int| 0 <= i < p.len() && #[trigger] upper_piece(p, i) == "ALT"@;
            assert(ascii_upper_seq(trim(p[i])) == upper_piece(p, i));
        }
        if shift {
            let i = choose|i: int| 0 <= i < p.len() && #[trigger] upper_piece(p, i) == "SHIFT"@;
            assert(ascii_upper_seq(trim(p[i])) == upper_piece(p, i));
        }
        assert forall|i: int| 0 <= i < p.len() implies upper_piece(p, i) == ascii_upper_seq(
            trim(#[trigger] p[i]),
        ) by {}
    }
}

proof fn lemma_scan_err_persists(pieces: Seq<Seq<char>>, i: int)
    requires
        0 <= i <= pieces.len(),
        scan_pieces(pieces.take(i)) is Err,
    ensures
        scan_pieces(pieces) == scan_pieces(pieces.take(i)),
    decreases pieces.len(),
{
    if i == pieces.len() {
        assert(pieces.take(i) == pieces);
    } else {
        assert(pieces.drop_last().take(i) == pieces.take(i));
        lemma_scan_err_persists(pieces.drop_last(), i);
    }
}

fn message(s: &str) -> (r: String)
    ensures
        r@ == s@,
{
    string_from_str(s)
}

fn key_result(code: u32, name: &str) -> (r: Result<(u32, String), String>)
    ensures
        r matches Ok(k) && k.0 == code && k.1@ == name@,
{
    Ok((code, string_from_str(name)))
}

/// The key code and display name of one key token.
pub fn parse_virtual_key(token: &str) -> (r: Result<(u32, String), String>)
    ensures
        match r {
            Ok((code, name)) => parse_key_token(token@) == Ok::<(u32, Seq<char>), Seq<char>>(
                (code, name@),
            ),
            Err(e) => parse_key_token(token@) == Err::<(u32, Seq<char>), Seq<char>>(e@),
        },
{
    let t = chars_of(token);
    if t.len() == 1 && is_alphanumeric_ascii(t[0]) {
        let upper = to_ascii_upper(t[0]);
        let mut name = String::new();
        push_char(&mut name, upper);
        assert(name@ =~= seq![upper]);
        return Ok((upper as u32, name));
    }
    if t.len() >= 1 && t[0] == 'F' {
        let rest = chars_skip(&t, 1);
        assert(t@.skip(1) == t@.drop_first());
        match parse_int_chars(&rest, false, 0, 0xffff_ffff) {
            Ok(n) => {
                if 1 <= n && n <= 24 {
                    let number = n as u32;
                    let mut name = String::new();
                    push_char(&mut name, 'F');
                    push_decimal(&mut name, number);
                    assert(name@ =~= seq!['F'] + decimal(n as nat));
                    return Ok((0x70 + number - 1, name));
                }
            },
            Err(_) => {},
        }
    }
    if chars_eq_str(&t, "SPACE") {
        key_result(0x20, "Space")
    } else if chars_eq_str(&t, "TAB") {
        key_result(0x09, "Tab")
    } else if chars_eq_str(&t, "ENTER") {
        key_result(0x0D, "Enter")
    } else if chars_eq_str(&t, "ESC") || chars_eq_str(&t, "ESCAPE") {
        key_result(0x1B, "Esc")
    } else if chars_eq_str(&t, "PRINTSCREEN") || chars_eq_str(&t, "PRTSC") {
        key_result(0x2C, "PrintScreen")
    } else {
        let mut m = message("Unsupported key: ");
        push_chars(&mut m, &t);
        Err(m)
    }
}

pub open spec fn key_view(key: Option<(u32, String)>) -> Option<(u32, Seq<char>)> {
    match key {
        Some((code, name)) => Some((code, name@)),
        None => None,
    }
}

impl Hotkey {
    /// Reads hotkey text: `+`-separated pieces, each trimmed; empty pieces are
    /// skipped and the others compared in upper case. At least one of Ctrl and
    /// Alt, exactly one key, no Win key and not F12.
    pub fn parse(value: &str) -> (r: Result<Hotkey, String>)
        ensures
            view_result(r) == parse_hotkey(value@),
    {
        let chars = chars_of(value);
        let pieces = split_chars(&chars, '+');
        let mut ctrl = false;
        let mut alt = false;
        let mut shift = false;
        let mut key: Option<(u32, String)> = None;
        let mut i: usize = 0;
        assert(char_vecs(pieces@).take(0) =~= Seq::<Seq<char>>::empty());
        while i < pieces.len()
            invariant
                i <= pieces.len(),
                char_vecs(pieces@) == split_on(value@, is_char('+')),
                scan_pieces(char_vecs(pieces@).take(i as int)) == Ok::<KeyScan, Seq<char>>(
                    (ctrl, alt, shift, key_view(key)),
                ),
            decreases pieces.len() - i,
        {
            let ghost all = char_vecs(pieces@);
            assert(all.take(i + 1).drop_last() == all.take(i as int));
            assert(all.take(i + 1).last() == pieces[i as int]@);
            let trimmed = trim_chars(&pieces[i]);
            let t = upper_chars(&trimmed);
            if t.len() == 0 {
            } else if chars_eq_str(&t, "CTRL") || chars_eq_str(&t, "CONTROL") {
                ctrl = true;
            } else if chars_eq_str(&t, "ALT") {
                alt = true;
            } else if chars_eq_str(&t, "SHIFT") {
                shift = true;
            } else if chars_eq_str(&t, "WIN") || chars_eq_str(&t, "WINDOWS") || chars_eq_str(
                &t,
                "META",
            ) {
                proof {
                    lemma_scan_err_persists(all, i + 1);
                }
                return Err(message("Win hotkeys are reserved by Windows"));
            } else {
                if key.is_some() {
                    proof {
                        lemma_scan_err_persists(all, i + 1);
                    }
                    return Err(message("Hotkey can only contain one non-modifier key"));
                }
                let token = string_from_chars(&t);
                match parse_virtual_key(token.as_str()) {
                    Ok(k) => {
                        key = Some(k);
                    },
                    Err(e) => {
                        proof {
                            lemma_scan_err_persists(all, i + 1);
                        }
                        return Err(e);
                    },
                }
            }
            i = i + 1;
        }
        assert(char_vecs(pieces@).take(pieces.len() as int) == char_vecs(pieces@));
        if !ctrl && !alt {
            return Err(message("Hotkey must include Ctrl or Alt"));
        }
        let (virtual_key, key_display) = match key {
            Some(k) => k,
            None => {
                return Err(message("Hotkey must include a key"));
            },
        };
        if virtual_key == VK_F12 {
            return Err(message("F12 is reserved for debuggers"));
        }
        let mut parts: Vec<Vec<char>> = Vec::new();
        let mut modifiers: u32 = 0;
        if ctrl {
            parts.push(chars_of("Ctrl"));
            modifiers = modifiers + MOD_CONTROL;
        }
        if alt {
            parts.push(chars_of("Alt"));
            modifiers = modifiers + MOD_ALT;
        }
        if shift {
            parts.push(chars_of("Shift"));
            modifiers = modifiers + MOD_SHIFT;
        }
        parts.push(chars_of(key_display.as_str()));
        assert(char_vecs(parts@) =~= display_parts(ctrl, alt, shift, key_display@));
        let sep = chars_of("+");
        let display = join_strings(&parts, &sep);
        Ok(Hotkey { modifiers, virtual_key, display })
    }
}

} // verus!
