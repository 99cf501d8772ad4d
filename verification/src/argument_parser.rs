//! Parsing of the command line: `(flag, value?)` pairs in any order, unknown
//! tokens ignored. The caller supplies the raw argument list and the
//! terminal's `(columns, rows)`, if it reported one.

use vstd::prelude::*;

use crate::image_converter::ScalingType;

verus! {

/// The recognized options, resolved against the defaults.
#[derive(Debug)]
pub struct ArgumentParser {
    pub image_path: String,
    /// Glyphs used to convert the image, darkest first, brightest last.
    pub character_palette: Vec<char>,
    pub colored: bool,
    pub width: u16,
    pub height: u16,
    pub scaling_type: ScalingType,
}

/// No image path was supplied on the command line.
#[derive(Clone, Copy, PartialEq, Eq, Structural, Debug)]
pub struct ImagePathError;

/// What can go wrong while parsing the command line.
#[derive(Clone, Copy, PartialEq, Eq, Structural, Debug)]
pub enum ArgumentError {
    /// No `-i` / `--image` option was given.
    MissingImagePath,
    /// A `-w` / `-h` value is not an unsigned 16-bit integer.
    InvalidNumericArgument,
    /// The terminal reported no size and the command line overrode neither
    /// missing dimension.
    TerminalSizeUnavailable,
}

/// The scanner's state after some prefix of the argument list.
pub struct ArgScan {
    pub image_path: Option<Seq<char>>,
    pub character_palette: Seq<char>,
    pub colored: bool,
    pub width: Option<u16>,
    pub height: Option<u16>,
    pub scaling_type: ScalingType,
    pub prev: Seq<char>,
}

/// The ten default glyphs, darkest to brightest.
pub open spec fn default_palette() -> Seq<char> {
    seq![' ', '.', ':', '-', '=', '+', '*', '#', '%', '@']
}

/// The state before any argument is seen.
pub open spec fn initial_scan() -> ArgScan {
    ArgScan {
        image_path: Option::None,
        character_palette: default_palette(),
        colored: false,
        width: Option::None,
        height: Option::None,
        scaling_type: ScalingType::PreserveRatio,
        prev: Seq::empty(),
    }
}

/// `c` is a decimal digit.
pub open spec fn is_dec_digit(c: char) -> bool {
    48 <= c as int <= 57
}

/// The value of the decimal digit `c`.
pub open spec fn digit_of(c: char) -> int {
    c as int - 48
}

/// The number denoted by a digit string, most significant digit first.
pub open spec fn dec_val(s: Seq<char>) -> int
    decreases s.len(),
{
    if s.len() == 0 {
        0
    } else {
        dec_val(s.drop_last()) * 10 + digit_of(s.last())
    }
}

/// The digits considered when parsing `s` as a number: a single leading
/// `+` sign is dropped.
pub open spec fn trim_plus(s: Seq<char>) -> Seq<char> {
    if s.len() > 0 && s[0] == '+' {
        s.drop_first()
    } else {
        s
    }
}

/// `s` parses as an unsigned 16-bit integer: at least one digit, digits
/// only after an optional `+`, and a value of at most 65535.
pub open spec fn u16_parseable(s: Seq<char>) -> bool {
    let t = trim_plus(s);
    &&& t.len() > 0
    &&& forall|k: int| 0 <= k < t.len() ==> is_dec_digit(#[trigger] t[k])
    &&& dec_val(t) <= 65535
}

/// The number that `s` denotes.
pub open spec fn u16_of(s: Seq<char>) -> u16
    recommends
        u16_parseable(s),
{
    dec_val(trim_plus(s)) as u16
}

/// One argument acting as a flag: the options that take no value.
pub open spec fn apply_flags(st: ArgScan, arg: Seq<char>) -> ArgScan {
    ArgScan {
        colored: if arg == "--colored"@ || arg == "-c"@ {
            true
        } else if arg == "--mono"@ {
            false
        } else {
            st.colored
        },
        scaling_type: if arg == "--stretch"@ {
            ScalingType::Stretch
        } else if arg == "--preserve"@ {
            ScalingType::PreserveRatio
        } else {
            st.scaling_type
        },
        ..st
    }
}

/// One argument acting as the value of the option named just before it.
/// Fails exactly when a width or height value does not parse.
pub open spec fn apply_value(st: ArgScan, arg: Seq<char>) -> Result<ArgScan, ()> {
    let p = st.prev;
    if p == "--image"@ || p == "-i"@ {
        Result::Ok(ArgScan { image_path: Option::Some(arg), ..st })
    } else if p == "--character-palette"@ {
        Result::Ok(ArgScan { character_palette: arg, ..st })
    } else if p == "--width"@ || p == "-w"@ {
        if u16_parseable(arg) {
            Result::Ok(ArgScan { width: Option::Some(u16_of(arg)), ..st })
        } else {
            Result::Err(())
        }
    } else if p == "--height"@ || p == "-h"@ {
        if u16_parseable(arg) {
            Result::Ok(ArgScan { height: Option::Some(u16_of(arg)), ..st })
        } else {
            Result::Err(())
        }
    } else {
        Result::Ok(st)
    }
}

/// One scanner transition: the argument acts as a flag, then as a value of
/// the previous argument, and becomes the new previous argument.
pub open spec fn scan_step(st: ArgScan, arg: Seq<char>) -> Result<ArgScan, ()> {
    match apply_value(apply_flags(st, arg), arg) {
        Result::Ok(st2) => Result::Ok(ArgScan { prev: arg, ..st2 }),
        Result::Err(e) => Result::Err(e),
    }
}

/// The scanner's state after the first `n` arguments.
pub open spec fn scan_args(args: Seq<Seq<char>>, n: int) -> Result<ArgScan, ()>
    decreases n,
{
    if n <= 0 {
        Result::Ok(initial_scan())
    } else {
        match scan_args(args, n - 1) {
            Result::Ok(st) => scan_step(st, args[n - 1]),
            Result::Err(e) => Result::Err(e),
        }
    }
}

/// Once the scanner has failed, it stays failed.
proof fn lemma_scan_err_persists(args: Seq<Seq<char>>, i: int, n: int)
    requires
        0 <= i <= n,
        scan_args(args, i) is Err,
    ensures
        scan_args(args, n) is Err,
    decreases n - i,
{
    if n > i {
        lemma_scan_err_persists(args, i, n - 1);
    }
}

/// The view of an optional string.
pub open spec fn opt_view(s: Option<String>) -> Option<Seq<char>> {
    match s {
        Option::None => Option::None,
        Option::Some(x) => Option::Some(x@),
    }
}

/// Whether `a` holds exactly the text `b`.
fn str_eq(a: &String, b: &str) -> (r: bool)
    ensures
        r == (a@ == b@),
{
    let bs = String::from_str(b);
    a.eq(&bs)
}

/// The characters of `s`, in order.
fn string_chars(s: &String) -> (v: Vec<char>)
    ensures
        v@ == s@,
{
    let n = s.as_str().unicode_len();
    let mut v: Vec<char> = Vec::new();
    let mut i: usize = 0;
    while i < n
        invariant
            n == s@.len(),
            i <= n,
            v@ == s@.take(i as int),
        decreases n - i,
    {
        let c = s.as_str().get_char(i);
        v.push(c);
        i = i + 1;
        proof {
            assert(v@ =~= s@.take(i as int));
        }
    }
    proof {
        assert(s@.take(n as int) =~= s@);
    }
    v
}

/// Parses `s` as an unsigned 16-bit integer, as the width and height
/// options are parsed: an optional `+`, then decimal digits.
pub fn parse_u16(s: &String) -> (r: Option<u16>)
    ensures
        match r {
            Option::Some(v) => u16_parseable(s@) && v == u16_of(s@),
            Option::None => !u16_parseable(s@),
        },
{
    let n = s.as_str().unicode_len();
    if n == 0 {
        return Option::None;
    }
    let first = s.as_str().get_char(0);
    let start: usize = if first == '+' {
        1
    } else {
        0
    };
    if n == start {
        return Option::None;
    }
    let ghost t = trim_plus(s@);
    proof {
        assert(t.len() == n - start);
    }
    let mut value: u32 = 0;
    let mut i: usize = start;
    while i < n
        invariant
            n == s@.len(),
            start <= i <= n,
            start == 0 || start == 1,
            start == 1 ==> s@.len() > 0 && s@[0] == '+',
            start == 0 ==> !(s@.len() > 0 && s@[0] == '+'),
            t == trim_plus(s@),
            t.len() == n - start,
            forall|k: int| 0 <= k < i - start ==> is_dec_digit(#[trigger] t[k]),
            value <= 65536,
            0 <= dec_val(t.take(i - start)),
            dec_val(t.take(i - start)) <= 65535 ==> value == dec_val(t.take(i - start)),
            dec_val(t.take(i - start)) > 65535 ==> value == 65536,
        decreases n - i,
    {
        let c = s.as_str().get_char(i);
        let cu = c as u32;
        if cu < 48 || cu > 57 {
            proof {
                assert(t[i - start] == c);
            }
            return Option::None;
        }
        let d = cu - 48;
        let ghost m = i - start;
        proof {
            assert(t[m] == c);
            assert(t.take(m + 1).drop_last() =~= t.take(m));
            assert(t.take(m + 1).last() == t[m]);
            assert(dec_val(t.take(m + 1)) == dec_val(t.take(m)) * 10 + digit_of(t[m]));
        }
        value = value * 10 + d;
        if value > 65535 {
            value = 65536;
        }
        i = i + 1;
    }
    proof {
        assert(t.take(n - start) =~= t);
    }
    if value > 65535 {
        Option::None
    } else {
        Option::Some(value as u16)
    }
}

impl ImagePathError {
    /// The diagnostic shown when no image path was supplied.
    pub open spec fn text() -> Seq<char> {
        "No image path was supplied, please provide a path to an image with either:\n -i {image_path} or --image {image_path}"@
    }

    /// Returns the diagnostic for this error.
    pub fn write() -> (s: String)
        ensures
            s@ == Self::text(),
    {
        String::from_str(
            "No image path was supplied, please provide a path to an image with either:\n -i {image_path} or --image {image_path}",
        )
    }
}

impl ArgumentParser {
    /// Scans `arguments` in order, exactly as the scanner specifies: every
    /// argument may act as a flag, and as the value of the option named by
    /// the argument before it. The image path is required; width and height
    /// fall back to `terminal_size`, which must then be present.
    pub fn new(arguments: &Vec<String>, terminal_size: Option<(u16, u16)>) -> (r: Result<
        ArgumentParser,
        ArgumentError,
    >)
        ensures
            ({
                let vargs = arguments@.map_values(|a: String| a@);
                match scan_args(vargs, vargs.len() as int) {
                    Result::Err(_) => r == Result::<ArgumentParser, ArgumentError>::Err(
                        ArgumentError::InvalidNumericArgument,
                    ),
                    Result::Ok(st) => match st.image_path {
                        Option::None => r == Result::<ArgumentParser, ArgumentError>::Err(
                            ArgumentError::MissingImagePath,
                        ),
                        Option::Some(path) => {
                            if (st.width is None || st.height is None) && terminal_size is None {
                                r == Result::<ArgumentParser, ArgumentError>::Err(
                                    ArgumentError::TerminalSizeUnavailable,
                                )
                            } else {
                                &&& r is Ok
                                &&& {
                                    let p = r.unwrap();
                                    &&& p.image_path@ == path
                                    &&& p.character_palette@ == st.character_palette
                                    &&& p.colored == st.colored
                                    &&& p.scaling_type == st.scaling_type
                                    &&& p.width == (match st.width {
                                        Option::Some(w) => w,
                                        Option::None => terminal_size.unwrap().0,
                                    })
                                    &&& p.height == (match st.height {
                                        Option::Some(h) => h,
                                        Option::None => terminal_size.unwrap().1,
                                    })
                                }
                            }
                        },
                    },
                }
            }),
    {
        let ghost vargs = arguments@.map_values(|a: String| a@);
        let mut image_path: Option<String> = Option::None;
        let mut character_palette: Vec<char> = vec![
            ' ', '.', ':', '-', '=', '+', '*', '#', '%', '@',
        ];
        let mut colored: bool = false;
        let mut width_over: Option<u16> = Option::None;
        let mut height_over: Option<u16> = Option::None;
        let mut scaling_type: ScalingType = ScalingType::PreserveRatio;
        let mut previous: String = String::new();
        let mut idx: usize = 0;
        proof {
            assert(character_palette@ =~= default_palette());
        }
        while idx < arguments.len()
            invariant
                vargs == arguments@.map_values(|a: String| a@),
                idx <= arguments@.len(),
                scan_args(vargs, idx as int) == Result::<ArgScan, ()>::Ok(
                    ArgScan {
                        image_path: opt_view(image_path),
                        character_palette: character_palette@,
                        colored: colored,
                        width: width_over,
                        height: height_over,
                        scaling_type: scaling_type,
                        prev: previous@,
                    },
                ),
            decreases arguments@.len() - idx,
        {
            let ghost st_before = scan_args(vargs, idx as int).unwrap();
            let arg = &arguments[idx];
            proof {
                assert(vargs[idx as int] == arg@);
            }
            if str_eq(arg, "--colored") || str_eq(arg, "-c") {
                colored = true;
            } else if str_eq(arg, "--mono") {
                colored = false;
            }
            if str_eq(arg, "--stretch") {
                scaling_type = ScalingType::Stretch;
            } else if str_eq(arg, "--preserve") {
                scaling_type = ScalingType::PreserveRatio;
            }
            let ghost st_flagged = apply_flags(st_before, arg@);
            if str_eq(&previous, "--image") || str_eq(&previous, "-i") {
                image_path = Option::Some(arg.clone());
            } else if str_eq(&previous, "--character-palette") {
                character_palette = string_chars(arg);
            } else if str_eq(&previous, "--width") || str_eq(&previous, "-w") {
                match parse_u16(arg) {
                    Option::Some(v) => {
                        width_over = Option::Some(v);
                    },
                    Option::None => {
                        proof {
                            assert(scan_args(vargs, idx + 1) is Err);
                            lemma_scan_err_persists(vargs, idx + 1, vargs.len() as int);
                        }
                        return Result::Err(ArgumentError::InvalidNumericArgument);
                    },
                }
            } else if str_eq(&previous, "--height") || str_eq(&previous, "-h") {
                match parse_u16(arg) {
                    Option::Some(v) => {
                        height_over = Option::Some(v);
                    },
                    Option::None => {
                        proof {
                            assert(scan_args(vargs, idx + 1) is Err);
                            lemma_scan_err_persists(vargs, idx + 1, vargs.len() as int);
                        }
                        return Result::Err(ArgumentError::InvalidNumericArgument);
                    },
                }
            }
            previous = arg.clone();
            idx = idx + 1;
            proof {
                assert(scan_args(vargs, idx as int) == Result::<ArgScan, ()>::Ok(
                    ArgScan {
                        image_path: opt_view(image_path),
                        character_palette: character_palette@,
                        colored: colored,
                        width: width_over,
                        height: height_over,
                        scaling_type: scaling_type,
                        prev: previous@,
                    },
                ));
            }
        }
        match image_path {
            Option::None => Result::Err(ArgumentError::MissingImagePath),
            Option::Some(path) => {
                if (width_over.is_none() || height_over.is_none()) && terminal_size.is_none() {
                    return Result::Err(ArgumentError::TerminalSizeUnavailable);
                }
                let width: u16 = match width_over {
                    Option::Some(w) => w,
                    Option::None => terminal_size.unwrap().0,
                };
                let height: u16 = match height_over {
                    Option::Some(h) => h,
                    Option::None => terminal_size.unwrap().1,
                };
                Result::Ok(
                    ArgumentParser {
                        image_path: path,
                        character_palette,
                        colored,
                        width,
                        height,
                        scaling_type,
                    },
                )
            },
        }
    }
}

} // verus!
