//! Command lines of the two programs: the diagnostic command line tool and
//! the resident tray program.
use vstd::prelude::*;

use crate::geometry::RectI;
use crate::hotkey::{parse_hotkey, view_result, Hotkey};
use crate::number::{int_from_str, parse_i32, parse_u64, IntErrorKind};
use crate::text::{string_from_str, string_is, strings_view};

verus! {

broadcast use vstd::string::group_string_axioms;

/// The first index at or after `i` whose argument is `flag`; the length where
/// there is none.
pub open spec fn index_of(args: Seq<Seq<char>>, flag: Seq<char>, i: int) -> int
    decreases args.len() - i,
{
    if i < 0 || i >= args.len() {
        args.len() as int
    } else if args[i] == flag {
        i
    } else {
        index_of(args, flag, i + 1)
    }
}

/// The first index at or after `i` whose argument is not `flag`; the length
/// where there is none.
pub open spec fn index_of_other(args: Seq<Seq<char>>, flag: Seq<char>, i: int) -> int
    decreases args.len() - i,
{
    if i < 0 || i >= args.len() {
        args.len() as int
    } else if args[i] != flag {
        i
    } else {
        index_of_other(args, flag, i + 1)
    }
}

/// The seconds given after the first `--idle-seconds`, where there is a next
/// argument and it reads as a `u64`.
pub open spec fn idle_seconds_arg(args: Seq<Seq<char>>) -> Option<u64> {
    let p = index_of(args, "--idle-seconds"@, 0);
    if p + 1 < args.len() {
        match int_from_str(args[p + 1], false, 0, u64::MAX as int) {
            Ok(v) => Some(v as u64),
            Err(_) => None,
        }
    } else {
        None
    }
}

pub open spec fn resident_warm_flag() -> Seq<char> {
    "--resident-warm"@
}

/// The command: the first argument other than `--resident-warm`, else
/// `--measure`.
pub open spec fn command_text(args: Seq<Seq<char>>) -> Seq<char> {
    let p = index_of_other(args, resident_warm_flag(), 0);
    if p < args.len() {
        args[p]
    } else {
        "--measure"@
    }
}

/// The hotkey that `--validate-hotkey` checks: the argument after it.
pub open spec fn validated_hotkey(args: Seq<Seq<char>>) -> Result<
    (u32, u32, Seq<char>),
    Seq<char>,
> {
    let p = index_of(args, "--validate-hotkey"@, 0);
    if p + 1 < args.len() {
        parse_hotkey(args[p + 1])
    } else {
        Err("--validate-hotkey requires a value"@)
    }
}

/// What the diagnostic tool is asked to do.
pub enum CliCommand {
    /// Measure memory and OCR timings, idling the given seconds at the end.
    Measure { idle_seconds: u64, resident_warm: bool },
    /// Check hotkey text and show its canonical form.
    ValidateHotkey(Result<Hotkey, String>),
    PathBenchmark,
    ListLanguages,
    /// Recognize a rectangle of the screen; the arguments after the command.
    CaptureRect(Vec<String>),
    Unknown(String),
}

/// The position of the first argument equal to `flag`.
fn find_arg(args: &[String], flag: &str, from: usize) -> (r: usize)
    requires
        from <= args@.len(),
    ensures
        r == index_of(strings_view(args@), flag@, from as int),
        r <= args@.len(),
{
    let ghost a = strings_view(args@);
    let mut i = from;
    while i < args.len()
        invariant
            from <= i <= args@.len(),
            a == strings_view(args@),
            index_of(a, flag@, i as int) == index_of(a, flag@, from as int),
        decreases args.len() - i,
    {
        if string_is(&args[i], flag) {
            return i;
        }
        i = i + 1;
    }
    i
}

/// The position of the first argument not equal to `flag`.
fn find_other_arg(args: &[String], flag: &str) -> (r: usize)
    ensures
        r == index_of_other(strings_view(args@), flag@, 0),
{
    let ghost a = strings_view(args@);
    let mut i: usize = 0;
    while i < args.len()
        invariant
            i <= args@.len(),
            a == strings_view(args@),
            index_of_other(a, flag@, i as int) == index_of_other(a, flag@, 0),
        decreases args.len() - i,
    {
        if !string_is(&args[i], flag) {
            return i;
        }
        i = i + 1;
    }
    i
}

/// The seconds after the first `--idle-seconds`, if they read as a `u64`.
pub fn parse_idle_seconds(args: &[String]) -> (r: Option<u64>)
    ensures
        r == idle_seconds_arg(strings_view(args@)),
{
    let p = find_arg(args, "--idle-seconds", 0);
    if p < args.len() && p + 1 < args.len() {
        match parse_u64(args[p + 1].as_str()) {
            Ok(v) => Some(v),
            Err(_) => None,
        }
    } else {
        None
    }
}

fn strings_from(args: &[String], from: usize) -> (r: Vec<String>)
    requires
        from <= args@.len(),
    ensures
        strings_view(r@) == strings_view(args@).skip(from as int),
{
    let mut out: Vec<String> = Vec::new();
    let mut i = from;
    while i < args.len()
        invariant
            from <= i <= args@.len(),
            strings_view(out@) == strings_view(args@).subrange(from as int, i as int),
        decreases args.len() - i,
    {
        let ghost before = strings_view(out@);
        out.push(args[i].clone());
        assert(strings_view(out@) =~= before.push(args@[i as int]@));
        i = i + 1;
        assert(strings_view(out@) =~= strings_view(args@).subrange(from as int, i as int));
    }
    assert(strings_view(args@).subrange(from as int, args@.len() as int) =~= strings_view(
        args@,
    ).skip(from as int));
    out
}

/// Decides what the diagnostic tool is asked to do.
pub fn parse_cli_command(args: &[String]) -> (r: CliCommand)
    ensures
        ({
            let a = strings_view(args@);
            let c = command_text(a);
            match r {
                CliCommand::Measure { idle_seconds, resident_warm } => {
                    &&& c == "--measure"@
                    &&& idle_seconds == match idle_seconds_arg(a) {
                        Some(v) => v,
                        None => 2u64,
                    }
                    &&& resident_warm == a.contains(resident_warm_flag())
                },
                CliCommand::ValidateHotkey(h) => c == "--validate-hotkey"@ && view_result(h)
                    == validated_hotkey(a),
                CliCommand::PathBenchmark => c == "--path-benchmark"@,
                CliCommand::ListLanguages => c == "--list-languages"@,
                CliCommand::CaptureRect(rest) => c == "--capture-rect"@ && strings_view(rest@)
                    == a.skip(index_of(a, "--capture-rect"@, 0) + 1),
                CliCommand::Unknown(other) => {
                    &&& other@ == c
                    &&& c != "--measure"@
                    &&& c != "--validate-hotkey"@
                    &&& c != "--path-benchmark"@
                    &&& c != "--list-languages"@
                    &&& c != "--capture-rect"@
                },
            }
        }),
{
    let ghost a = strings_view(args@);
    let warm_at = find_arg(args, "--resident-warm", 0);
    proof {
        lemma_index_of_contains(a, resident_warm_flag(), 0);
    }
    let resident_warm = warm_at < args.len();
    let p = find_other_arg(args, "--resident-warm");
    let command = if p < args.len() {
        args[p].clone()
    } else {
        string_from_str("--measure")
    };
    if string_is(&command, "--measure") {
        let idle_seconds = match parse_idle_seconds(args) {
            Some(v) => v,
            None => 2,
        };
        CliCommand::Measure { idle_seconds, resident_warm }
    } else if string_is(&command, "--validate-hotkey") {
        let index = find_arg(args, "--validate-hotkey", 0);
        if index < args.len() && index + 1 < args.len() {
            CliCommand::ValidateHotkey(Hotkey::parse(args[index + 1].as_str()))
        } else {
            CliCommand::ValidateHotkey(Err(string_from_str("--validate-hotkey requires a value")))
        }
    } else if string_is(&command, "--path-benchmark") {
        CliCommand::PathBenchmark
    } else if string_is(&command, "--list-languages") {
        CliCommand::ListLanguages
    } else if string_is(&command, "--capture-rect") {
        let index = find_arg(args, "--capture-rect", 0);
        proof {
            lemma_index_of_bounds(a, "--capture-rect"@, 0);
            lemma_index_of_other_bounds(a, resident_warm_flag(), 0);
            if index == args.len() {
                lemma_index_of_finds(a, "--capture-rect"@, 0, p as int);
            }
        }
        CliCommand::CaptureRect(strings_from(args, index + 1))
    } else {
        CliCommand::Unknown(command)
    }
}

proof fn lemma_index_of_bounds(args: Seq<Seq<char>>, flag: Seq<char>, i: int)
    requires
        0 <= i,
    ensures
        index_of(args, flag, i) <= args.len(),
        i <= args.len() ==> i <= index_of(args, flag, i),
        index_of(args, flag, i) < args.len() ==> args[index_of(args, flag, i)] == flag,
    decreases args.len() - i,
{
    if 0 <= i < args.len() && args[i] != flag {
        lemma_index_of_bounds(args, flag, i + 1);
    }
}

proof fn lemma_index_of_other_bounds(args: Seq<Seq<char>>, flag: Seq<char>, i: int)
    requires
        0 <= i,
    ensures
        index_of_other(args, flag, i) <= args.len(),
        index_of_other(args, flag, i) < args.len() ==> args[index_of_other(args, flag, i)]
            != flag,
    decreases args.len() - i,
{
    if 0 <= i < args.len() && args[i] == flag {
        lemma_index_of_other_bounds(args, flag, i + 1);
    }
}

/// Where `flag` stands at `k`, the first occurrence from `i` is at most `k`.
proof fn lemma_index_of_finds(args: Seq<Seq<char>>, flag: Seq<char>, i: int, k: int)
    requires
        0 <= i <= k < args.len(),
        args[k] == flag,
    ensures
        index_of(args, flag, i) <= k,
    decreases k - i,
{
    if args[i] != flag {
        lemma_index_of_finds(args, flag, i + 1, k);
    }
}

proof fn lemma_index_of_contains(args: Seq<Seq<char>>, flag: Seq<char>, i: int)
    requires
        i == 0,
    ensures
        (index_of(args, flag, i) < args.len()) == args.contains(flag),
{
    lemma_index_of_bounds(args, flag, 0);
    if args.contains(flag) {
        let k = choose|k: int| 0 <= k < args.len() && args[k] == flag;
        lemma_index_of_finds(args, flag, 0, k);
    }
}

/// Why `--capture-rect X Y W H` was refused.
#[derive(Debug, Clone, Copy, PartialEq, Eq, Structural)]
pub enum CaptureRectError {
    /// Not exactly four numbers.
    ArgumentCount,
    /// A number that does not read as an `i32`.
    InvalidNumber(IntErrorKind),
    /// A width or height that is not positive.
    NonPositiveSize,
}

/// The numbers of `--capture-rect`: four `i32`, read in order (the first that
/// fails gives the error), with a positive width and height.
pub open spec fn capture_rect_args(args: Seq<Seq<char>>) -> Result<(i32, i32, i32, i32), CaptureRectError> {
    if args.len() != 4 {
        Err(CaptureRectError::ArgumentCount)
    } else {
        let lo = i32::MIN as int;
        let hi = i32::MAX as int;
        match (
            int_from_str(args[0], true, lo, hi),
            int_from_str(args[1], true, lo, hi),
            int_from_str(args[2], true, lo, hi),
            int_from_str(args[3], true, lo, hi),
        ) {
            (Err(e), _, _, _) => Err(CaptureRectError::InvalidNumber(e)),
            (Ok(_), Err(e), _, _) => Err(CaptureRectError::InvalidNumber(e)),
            (Ok(_), Ok(_), Err(e), _) => Err(CaptureRectError::InvalidNumber(e)),
            (Ok(_), Ok(_), Ok(_), Err(e)) => Err(CaptureRectError::InvalidNumber(e)),
            (Ok(x), Ok(y), Ok(w), Ok(h)) => if w <= 0 || h <= 0 {
                Err(CaptureRectError::NonPositiveSize)
            } else {
                Ok((x as i32, y as i32, w as i32, h as i32))
            },
        }
    }
}

/// Reads `X Y W H` for `--capture-rect`.
pub fn parse_capture_rect_args(args: &[String]) -> (r: Result<
    (i32, i32, i32, i32),
    CaptureRectError,
>)
    ensures
        r == capture_rect_args(strings_view(args@)),
{
    if args.len() != 4 {
        return Err(CaptureRectError::ArgumentCount);
    }
    let ghost a = strings_view(args@);
    assert(a[0] == args@[0]@ && a[1] == args@[1]@ && a[2] == args@[2]@ && a[3] == args@[3]@);
    let x = match parse_i32(args[0].as_str()) {
        Ok(v) => v,
        Err(e) => {
            return Err(CaptureRectError::InvalidNumber(e));
        },
    };
    let y = match parse_i32(args[1].as_str()) {
        Ok(v) => v,
        Err(e) => {
            return Err(CaptureRectError::InvalidNumber(e));
        },
    };
    let width = match parse_i32(args[2].as_str()) {
        Ok(v) => v,
        Err(e) => {
            return Err(CaptureRectError::InvalidNumber(e));
        },
    };
    let height = match parse_i32(args[3].as_str()) {
        Ok(v) => v,
        Err(e) => {
            return Err(CaptureRectError::InvalidNumber(e));
        },
    };
    if width <= 0 || height <= 0 {
        return Err(CaptureRectError::NonPositiveSize);
    }
    Ok((x, y, width, height))
}

/// The rectangle `(x, y, width, height)` of the virtual screen in the
/// coordinates of a capture whose origin is `(origin_x, origin_y)`.
pub fn capture_rect_in_capture(
    x: i32,
    y: i32,
    width: i32,
    height: i32,
    origin_x: i32,
    origin_y: i32,
) -> (r: RectI)
    requires
        i32::MIN <= x - origin_x,
        x - origin_x + width <= i32::MAX,
        i32::MIN <= y - origin_y,
        y - origin_y + height <= i32::MAX,
        0 < width,
        0 < height,
    ensures
        r == (RectI {
            left: (x - origin_x) as i32,
            top: (y - origin_y) as i32,
            right: (x - origin_x + width) as i32,
            bottom: (y - origin_y + height) as i32,
        }),
{
    RectI::new(x - origin_x, y - origin_y, x - origin_x + width, y - origin_y + height)
}

/// The resident program takes `--resident-warm` and nothing else; the other
/// commands belong to the diagnostic tool.
pub fn parse_resident_args(args: &[String]) -> (r: Result<bool, String>)
    ensures
        ({
            let a = strings_view(args@);
            match r {
                Ok(warm) => (forall|i: int| 0 <= i < a.len() ==> a[i] == resident_warm_flag())
                    && warm == a.contains(resident_warm_flag()),
                Err(e) => (exists|i: int| 0 <= i < a.len() && a[i] != resident_warm_flag()) && e@
                    == "Use instocr-cli.exe for --measure, --list-languages, and --capture-rect."@,
            }
        }),
{
    let ghost a = strings_view(args@);
    let warm_at = find_arg(args, "--resident-warm", 0);
    proof {
        lemma_index_of_contains(a, resident_warm_flag(), 0);
    }
    let p = find_other_arg(args, "--resident-warm");
    proof {
        lemma_index_of_other_bounds(a, resident_warm_flag(), 0);
    }
    if p < args.len() {
        return Err(
            string_from_str("Use instocr-cli.exe for --measure, --list-languages, and --capture-rect."),
        );
    }
    proof {
        assert forall|i: int| 0 <= i < a.len() implies a[i] == resident_warm_flag() by {
            if a[i] != resident_warm_flag() {
                lemma_index_of_other_first(a, resident_warm_flag(), 0, i);
            }
        }
    }
    Ok(warm_at < args.len())
}

proof fn lemma_index_of_other_first(args: Seq<Seq<char>>, flag: Seq<char>, i: int, k: int)
    requires
        0 <= i <= k < args.len(),
        args[k] != flag,
    ensures
        index_of_other(args, flag, i) <= k,
    decreases k - i,
{
    if args[i] == flag {
        lemma_index_of_other_first(args, flag, i + 1, k);
    }
}

} // verus!
