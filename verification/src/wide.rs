//! UTF-16 text for Windows calls: null-terminated strings, fixed-size
//! buffers, and the bytes of a registry string value.
use vstd::prelude::*;

use crate::text::chars_of;

verus! {

broadcast use vstd::string::group_string_axioms;

/// The UTF-16 code units of one character, as `char::encode_utf16`: one unit
/// below U+10000, else a surrogate pair.
pub open spec fn utf16_of_char(c: char) -> Seq<u16> {
    let u = c as u32;
    if u < 0x10000 {
        seq![u as u16]
    } else {
        let v = u - 0x10000;
        seq![(0xD800 + v / 0x400) as u16, (0xDC00 + v % 0x400) as u16]
    }
}

/// The UTF-16 code units of a text, as `str::encode_utf16`.
pub open spec fn utf16(s: Seq<char>) -> Seq<u16>
    decreases s.len(),
{
    if s.len() == 0 {
        Seq::empty()
    } else {
        utf16(s.drop_last()) + utf16_of_char(s.last())
    }
}

/// The bytes of UTF-16 code units, low byte first, as `u16::to_le_bytes`.
pub open spec fn le_bytes(w: Seq<u16>) -> Seq<u8>
    decreases w.len(),
{
    if w.len() == 0 {
        Seq::empty()
    } else {
        le_bytes(w.drop_last()) + seq![(w.last() % 256) as u8, (w.last() / 256) as u8]
    }
}

proof fn lemma_utf16_len(s: Seq<char>)
    ensures
        s.len() <= utf16(s).len() <= 2 * s.len(),
    decreases s.len(),
{
    if s.len() > 0 {
        lemma_utf16_len(s.drop_last());
    }
}

proof fn lemma_le_bytes_len(w: Seq<u16>)
    ensures
        le_bytes(w).len() == 2 * w.len(),
    decreases w.len(),
{
    if w.len() > 0 {
        lemma_le_bytes_len(w.drop_last());
    }
}

/// Appends the UTF-16 code units of the characters.
fn push_utf16(out: &mut Vec<u16>, s: &Vec<char>)
    requires
        old(out).len() + 2 * s.len() <= usize::MAX,
    ensures
        final(out)@ == old(out)@ + utf16(s@),
{
    let ghost start = out@;
    let mut i: usize = 0;
    while i < s.len()
        invariant
            i <= s.len(),
            start.len() + 2 * s.len() <= usize::MAX,
            out@ == start + utf16(s@.take(i as int)),
        decreases s.len() - i,
    {
        proof {
            lemma_utf16_len(s@.take(i as int));
        }
        let c = s[i];
        let u = c as u32;
        if u < 0x10000 {
            out.push(u as u16);
        } else {
            let v = u - 0x10000;
            out.push((0xD800 + v / 0x400) as u16);
            out.push((0xDC00 + v % 0x400) as u16);
        }
        i = i + 1;
        assert(s@.take(i as int).drop_last() == s@.take(i - 1));
        assert(out@ =~= start + utf16(s@.take(i as int)));
    }
    assert(s@.take(s.len() as int) == s@);
}

/// The UTF-16 code units of a text followed by a terminating 0, as Windows
/// string parameters take them.
pub fn wide_null(value: &str) -> (r: Vec<u16>)
    requires
        2 * value@.len() + 1 <= usize::MAX,
    ensures
        r@ == utf16(value@).push(0),
{
    let cs = chars_of(value);
    let mut out: Vec<u16> = Vec::new();
    push_utf16(&mut out, &cs);
    out.push(0);
    out
}

/// Fills a fixed-size buffer with as many UTF-16 code units of a text as fit
/// before a terminating 0, and zeros after them.
pub fn copy_wide_fixed(target: &mut [u16], value: &str)
    requires
        2 * value@.len() <= usize::MAX,
    ensures
        final(target)@.len() == old(target)@.len(),
        forall|i: int|
            0 <= i < final(target)@.len() ==> #[trigger] final(target)@[i] == if i < old(
                target,
            )@.len() - 1 && i < utf16(value@).len() {
                utf16(value@)[i]
            } else {
                0u16
            },
{
    let cs = chars_of(value);
    let mut units: Vec<u16> = Vec::new();
    push_utf16(&mut units, &cs);
    let n = target.len();
    let max_units = if n > 0 {
        n - 1
    } else {
        0
    };
    let ghost len0 = target@.len();
    let mut i: usize = 0;
    while i < n
        invariant
            n == target@.len() == len0,
            max_units == if n > 0 {
                n - 1
            } else {
                0
            },
            units@ == utf16(value@),
            i <= n,
            forall|k: int|
                0 <= k < i ==> #[trigger] target@[k] == if k < len0 - 1 && k < units@.len() {
                    units@[k]
                } else {
                    0u16
                },
        decreases n - i,
    {
        let unit = if i < max_units && i < units.len() {
            units[i]
        } else {
            0
        };
        target[i] = unit;
        i = i + 1;
    }
}

/// The data of the registry value that starts the program at login: the
/// program's path in double quotes, as UTF-16 with a terminating 0, low byte
/// of each unit first.
pub fn startup_command_bytes(exe_path: &str) -> (r: Vec<u8>)
    requires
        4 * (exe_path@.len() + 3) <= usize::MAX,
    ensures
        r@ == le_bytes(utf16(seq!['"'] + exe_path@ + seq!['"']).push(0)),
{
    let mut command: Vec<char> = Vec::new();
    command.push('"');
    let path = chars_of(exe_path);
    let mut i: usize = 0;
    while i < path.len()
        invariant
            i <= path.len(),
            command@ == seq!['"'] + path@.take(i as int),
        decreases path.len() - i,
    {
        command.push(path[i]);
        i = i + 1;
        assert(path@.take(i as int) == path@.take(i - 1).push(path@[i - 1]));
        assert(command@ =~= seq!['"'] + path@.take(i as int));
    }
    assert(path@.take(path.len() as int) == path@);
    command.push('"');
    assert(command@ =~= seq!['"'] + exe_path@ + seq!['"']);
    let mut wide: Vec<u16> = Vec::new();
    push_utf16(&mut wide, &command);
    wide.push(0);
    proof {
        lemma_utf16_len(command@);
    }
    let mut bytes: Vec<u8> = Vec::new();
    let mut k: usize = 0;
    while k < wide.len()
        invariant
            k <= wide.len(),
            wide.len() <= 2 * command.len() + 1,
            command.len() == exe_path@.len() + 2,
            4 * (exe_path@.len() + 3) <= usize::MAX,
            bytes@ == le_bytes(wide@.take(k as int)),
        decreases wide.len() - k,
    {
        proof {
            lemma_le_bytes_len(wide@.take(k as int));
        }
        let unit = wide[k];
        bytes.push((unit % 256) as u8);
        bytes.push((unit / 256) as u8);
        k = k + 1;
        assert(wide@.take(k as int).drop_last() == wide@.take(k - 1));
        assert(bytes@ =~= le_bytes(wide@.take(k as int)));
    }
    assert(wide@.take(wide.len() as int) == wide@);
    bytes
}

} // verus!
