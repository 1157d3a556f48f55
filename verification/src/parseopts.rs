//! The configuration surface: the option record the graph builder consumes,
//! and the parsing of single command line options into it.  Collecting the
//! argument list, printing usage text and probing the terminal stay with the
//! surrounding program; everything it learns is handed in as plain values.

use vstd::prelude::*;

use crate::graph::BrailleType;
use crate::graph_canvas::push_char;
use crate::graph::GraphType;

verus! {

/// Resolved command line options, ready for the graph builder.
pub struct Opts {
    /// Desired width of the graph.
    pub width: usize,
    /// Desired height of the graph.
    pub height: usize,
    /// Which style the graph is drawn in.
    pub graph_type: GraphType,
    /// Disable distracting elements, such as the axis.
    pub silent: bool,
    /// Only look at the last N samples, when used as a filter.
    pub last_n: Option<u64>,
    /// Continuously truncate the series to the drawable width.
    pub cut: bool,
    /// Read from the given file instead of reading continuously from stdin.
    pub in_file: Option<String>,
    /// Enable color.
    pub color: bool,
}

/// Command line options as they accumulate while parsing, before the
/// terminal-derived defaults are filled in.
#[derive(Clone)]
pub struct OptsBuilder {
    /// Desired width, if given explicitly.
    pub width: Option<usize>,
    /// Desired height, if given explicitly.
    pub height: Option<usize>,
    /// Which style the graph is drawn in.
    pub graph_type: GraphType,
    /// Disable distracting elements, such as the axis.
    pub silent: bool,
    /// Only look at the last N samples.
    pub last_n: Option<u64>,
    /// Continuously truncate the series to the drawable width.
    pub cut: bool,
    /// Read from the given file instead of stdin.
    pub in_file: Option<String>,
    /// Enable color; `None` means decide by whether stdout is a terminal.
    pub color: Option<bool>,
}

/// Why an option, or the option set as a whole, was rejected.
#[derive(PartialEq, Eq, Structural, Clone, Copy, Debug)]
pub enum OptError {
    /// An option that needs a value got none.
    MissingValue,
    /// A numeric option value did not parse as a number in range.
    BadNumber,
    /// An unknown graph type name.
    UnknownGraphType,
    /// A color choice other than `yes` or `no`.
    UnknownColor,
    /// An unknown option name.
    UnknownOption,
    /// Help was requested; the caller prints the usage text.
    Help,
    /// A second positional argument, where only an input file is expected.
    UnexpectedArgument,
    /// No width given and none could be derived from the terminal.
    MissingWidth,
    /// No height given and none could be derived from the terminal.
    MissingHeight,
    /// The width must be at least 1.
    ZeroWidth,
    /// The height must be at least 1.
    ZeroHeight,
}

/// Whether `c` is a decimal digit.
pub open spec fn is_digit_char(c: char) -> bool {
    48 <= c as u32 <= 57
}

/// Whether `s` is a non-empty run of decimal digits.
pub open spec fn all_digits(s: Seq<char>) -> bool {
    s.len() >= 1 && forall|i: int| 0 <= i < s.len() ==> is_digit_char(#[trigger] s[i])
}

/// The numeric value of a digit run.
pub open spec fn digits_value(s: Seq<char>) -> int
    decreases s.len(),
{
    if s.len() == 0 {
        0
    } else {
        digits_value(s.drop_last()) * 10 + (s.last() as u32 - 48)
    }
}

/// The value of a digit run is no less than the value of any of its
/// prefixes.
proof fn lemma_digits_prefix(s: Seq<char>, j: int)
    requires
        forall|i: int| 0 <= i < s.len() ==> is_digit_char(#[trigger] s[i]),
        0 <= j <= s.len(),
    ensures
        0 <= digits_value(s.take(j)),
        digits_value(s.take(j)) <= digits_value(s),
    decreases s.len() - j,
{
    if j == s.len() {
        assert(s.take(j) =~= s);
        lemma_digits_nonneg(s);
    } else {
        lemma_digits_prefix(s, j + 1);
        assert(s.take(j + 1).drop_last() =~= s.take(j));
        assert(s.take(j + 1).last() == s[j]);
        lemma_digits_nonneg(s.take(j));
        assert(digits_value(s.take(j + 1)) == digits_value(s.take(j)) * 10 + (s[j] as u32 - 48));
        assert(digits_value(s.take(j)) * 10 >= digits_value(s.take(j))) by (nonlinear_arith)
            requires
                digits_value(s.take(j)) >= 0,
        ;
    }
}

/// A digit run's value is never negative.
proof fn lemma_digits_nonneg(s: Seq<char>)
    requires
        forall|i: int| 0 <= i < s.len() ==> is_digit_char(#[trigger] s[i]),
    ensures
        0 <= digits_value(s),
    decreases s.len(),
{
    if s.len() > 0 {
        assert(forall|i: int|
            0 <= i < s.drop_last().len() ==> is_digit_char(#[trigger] s.drop_last()[i]));
        lemma_digits_nonneg(s.drop_last());
        assert(digits_value(s.drop_last()) * 10 >= 0) by (nonlinear_arith)
            requires
                digits_value(s.drop_last()) >= 0,
        ;
    }
}

/// Whether the two strings hold the same characters.
pub fn str_eq(a: &str, b: &str) -> (r: bool)
    ensures
        r == (a@ == b@),
{
    let la = a.unicode_len();
    let lb = b.unicode_len();
    if la != lb {
        return false;
    }
    let mut i: usize = 0;
    while i < la
        invariant
            i <= la,
            la == a@.len(),
            la == b@.len(),
            forall|j: int| 0 <= j < i ==> a@[j] == b@[j],
        decreases la - i,
    {
        if a.get_char(i) != b.get_char(i) {
            return false;
        }
        i = i + 1;
    }
    proof {
        assert(a@ =~= b@);
    }
    true
}

/// Parse a non-empty run of decimal digits as a number.  Anything else, or
/// a value beyond `u64::MAX`, is rejected.
pub fn parse_digits(s: &str) -> (r: Option<u64>)
    ensures
        match r {
            Some(n) => all_digits(s@) && digits_value(s@) == n as int,
            None => !all_digits(s@) || digits_value(s@) > u64::MAX,
        },
{
    let len = s.unicode_len();
    if len == 0 {
        return None;
    }
    let mut acc: u64 = 0;
    let mut i: usize = 0;
    while i < len
        invariant
            i <= len,
            len == s@.len(),
            1 <= len,
            forall|j: int| 0 <= j < i ==> is_digit_char(#[trigger] s@[j]),
            acc as int == digits_value(s@.take(i as int)),
        decreases len - i,
    {
        let c = s.get_char(i);
        let cv = c as u32;
        if cv < 48 || cv > 57 {
            return None;
        }
        let d: u64 = (cv - 48) as u64;
        let acc128: u128 = (acc as u128) * 10 + (d as u128);
        proof {
            assert(s@.take(i as int + 1).drop_last() =~= s@.take(i as int));
            assert(s@.take(i as int + 1).last() == s@[i as int]);
        }
        if acc128 > u64::MAX as u128 {
            proof {
                if all_digits(s@) {
                    lemma_digits_prefix(s@, i as int + 1);
                }
            }
            return None;
        }
        acc = acc128 as u64;
        i = i + 1;
    }
    proof {
        assert(s@.take(len as int) =~= s@);
    }
    Some(acc)
}

/// The position of the first `=` in `s`, or its length when there is none.
pub open spec fn find_eq(s: Seq<char>, i: int) -> int
    decreases s.len() - i,
{
    if i < 0 || i >= s.len() {
        s.len() as int
    } else if s[i] == '=' {
        i
    } else {
        find_eq(s, i + 1)
    }
}

/// Split a long option at its first `=` into a name and an optional value,
/// as in `--width=80`.
pub fn split_eq(arg: &str) -> (r: (String, Option<String>))
    ensures
        ({
            let p = find_eq(arg@, 0);
            if p == arg@.len() {
                r.0@ == arg@ && r.1 is None
            } else {
                &&& r.0@ == arg@.take(p)
                &&& r.1 is Some
                &&& r.1->0@ == arg@.subrange(p + 1, arg@.len() as int)
            }
        }),
{
    let len = arg.unicode_len();
    let mut i: usize = 0;
    while i < len
        invariant
            i <= len,
            len == arg@.len(),
            find_eq(arg@, 0) == find_eq(arg@, i as int),
            forall|j: int| 0 <= j < i ==> arg@[j] != '=',
        decreases len - i,
    {
        if arg.get_char(i) == '=' {
            let name = arg.substring_char(0, i).to_owned();
            let value = arg.substring_char(i + 1, len).to_owned();
            proof {
                assert(arg@.take(i as int) =~= arg@.subrange(0, i as int));
            }
            return (name, Some(value));
        }
        i = i + 1;
    }
    (arg.to_owned(), None)
}


/// The option record every parse starts from.
pub open spec fn opts_start() -> OptsBuilder {
    OptsBuilder {
        width: None,
        height: None,
        graph_type: GraphType::Star,
        silent: false,
        last_n: None,
        cut: false,
        in_file: None,
        color: None,
    }
}

/// The long options that consume the following argument as their value when
/// they carry none of their own.
pub open spec fn takes_value_long(name: Seq<char>) -> bool {
    name == "width"@ || name == "height"@ || name == "last-n"@ || name == "color"@
}

/// The short options that consume the following argument as their value.
pub open spec fn takes_value_short(c: char) -> bool {
    c == 'h' || c == 't' || c == 'w' || c == 'n'
}

/// What parsing the rest of a short option cluster (`-abc`) does: each
/// character from position `j` on is one option, and the value-taking ones
/// consume the following arguments, starting at argument `i`.  The result
/// pairs the new record with the index of the next unconsumed argument.
pub open spec fn parse_cluster_spec(
    o: OptsBuilder,
    args: Seq<String>,
    cs: Seq<char>,
    j: int,
    i: int,
) -> Result<(OptsBuilder, int), OptError>
    decreases cs.len() - j,
{
    if j < 0 || j >= cs.len() {
        Ok((o, i))
    } else {
        let c = cs[j];
        let value: Option<Seq<char>> = if takes_value_short(c) && 0 <= i < args.len() {
            Some(args[i]@)
        } else {
            None
        };
        let ni: int = if takes_value_short(c) && 0 <= i < args.len() {
            i + 1
        } else {
            i
        };
        match parseopt_spec(o, seq![c], value) {
            Ok(o2) => parse_cluster_spec(o2, args, cs, j + 1, ni),
            Err(e) => Err(e),
        }
    }
}

/// What parsing the whole argument list (without the program name) from
/// argument `i` on does: `--name` and `--name=value` long options, `-abc`
/// short option clusters, and one positional input file argument.
pub open spec fn parseopts_spec(o: OptsBuilder, args: Seq<String>, i: int) -> Result<
    OptsBuilder,
    OptError,
>
    decreases args.len() - i,
{
    if i < 0 || i >= args.len() {
        Ok(o)
    } else {
        let a = args[i]@;
        if a.len() >= 2 && a[0] == '-' && a[1] == '-' {
            let rest = a.subrange(2, a.len() as int);
            let p = find_eq(rest, 0);
            let name = if p == rest.len() {
                rest
            } else {
                rest.take(p)
            };
            let v0: Option<Seq<char>> = if p == rest.len() {
                None
            } else {
                Some(rest.subrange(p + 1, rest.len() as int))
            };
            let value: Option<Seq<char>> = if v0 is None && takes_value_long(name) && i + 1
                < args.len() {
                Some(args[i + 1]@)
            } else {
                v0
            };
            let ni: int = if v0 is None && takes_value_long(name) && i + 1 < args.len() {
                i + 2
            } else {
                i + 1
            };
            match parseopt_spec(o, name, value) {
                Ok(o2) => parseopts_spec(o2, args, ni),
                Err(e) => Err(e),
            }
        } else if a.len() >= 1 && a[0] == '-' {
            match parse_cluster_spec(o, args, a.subrange(1, a.len() as int), 0, i + 1) {
                Ok(pair) => {
                    let ni: int = if pair.1 < i + 1 {
                        i + 1
                    } else if pair.1 > args.len() {
                        args.len() as int
                    } else {
                        pair.1
                    };
                    parseopts_spec(pair.0, args, ni)
                },
                Err(e) => Err(e),
            }
        } else {
            if o.in_file is Some {
                Err(OptError::UnexpectedArgument)
            } else {
                parseopts_spec(OptsBuilder { in_file: Some(args[i]), ..o }, args, i + 1)
            }
        }
    }
}

/// The character sequences of an optional string value.
pub open spec fn view_opt_string(v: Option<String>) -> Option<Seq<char>> {
    match v {
        Some(s) => Some(s@),
        None => None,
    }
}

/// What parsing one named option does to the accumulating option record:
/// the new record, or the error that rejects the option.
pub open spec fn parseopt_spec(o: OptsBuilder, arg: Seq<char>, value: Option<Seq<char>>) -> Result<
    OptsBuilder,
    OptError,
> {
    if arg == "t"@ {
        match value {
            None => Err(OptError::MissingValue),
            Some(v) => {
                if v == "star"@ {
                    Ok(OptsBuilder { graph_type: GraphType::Star, ..o })
                } else if v == "ascii"@ {
                    Ok(OptsBuilder { graph_type: GraphType::Ascii, ..o })
                } else if v == "braille"@ || v == "braille6"@ {
                    Ok(OptsBuilder { graph_type: GraphType::Braille(BrailleType::Dot6), ..o })
                } else if v == "braille8"@ {
                    Ok(OptsBuilder { graph_type: GraphType::Braille(BrailleType::Dot8), ..o })
                } else {
                    Err(OptError::UnknownGraphType)
                }
            },
        }
    } else if arg == "h"@ || arg == "height"@ {
        match value {
            None => Err(OptError::MissingValue),
            Some(v) => {
                if all_digits(v) && digits_value(v) <= usize::MAX {
                    Ok(OptsBuilder { height: Some(digits_value(v) as usize), ..o })
                } else {
                    Err(OptError::BadNumber)
                }
            },
        }
    } else if arg == "n"@ || arg == "last-n"@ {
        match value {
            None => Err(OptError::MissingValue),
            Some(v) => {
                if all_digits(v) && digits_value(v) <= u64::MAX {
                    Ok(OptsBuilder { last_n: Some(digits_value(v) as u64), ..o })
                } else {
                    Err(OptError::BadNumber)
                }
            },
        }
    } else if arg == "s"@ || arg == "silent"@ {
        Ok(OptsBuilder { silent: true, ..o })
    } else if arg == "a"@ || arg == "ascii"@ {
        Ok(OptsBuilder { graph_type: GraphType::Ascii, ..o })
    } else if arg == "b"@ || arg == "braille"@ {
        Ok(OptsBuilder { graph_type: GraphType::Braille(BrailleType::Dot6), ..o })
    } else if arg == "c"@ || arg == "cut"@ {
        Ok(OptsBuilder { cut: true, ..o })
    } else if arg == "color"@ {
        match value {
            None => Err(OptError::MissingValue),
            Some(v) => {
                if v == "yes"@ {
                    Ok(OptsBuilder { color: Some(true), ..o })
                } else if v == "no"@ {
                    Ok(OptsBuilder { color: Some(false), ..o })
                } else {
                    Err(OptError::UnknownColor)
                }
            },
        }
    } else if arg == "w"@ || arg == "width"@ {
        match value {
            None => Err(OptError::MissingValue),
            Some(v) => {
                if all_digits(v) && digits_value(v) <= usize::MAX {
                    Ok(OptsBuilder { width: Some(digits_value(v) as usize), ..o })
                } else {
                    Err(OptError::BadNumber)
                }
            },
        }
    } else if arg == "help"@ {
        Err(OptError::Help)
    } else {
        Err(OptError::UnknownOption)
    }
}

/// Parse a single named option (without its leading dashes) and update the
/// option record accordingly, exactly as [`parseopt_spec`] says.
pub fn parseopt(opts: &mut OptsBuilder, arg: &str, value: Option<String>) -> (r: Result<
    (),
    OptError,
>)
    ensures
        match parseopt_spec(*old(opts), arg@, view_opt_string(value)) {
            Ok(o2) => r is Ok && *final(opts) == o2,
            Err(e) => r == Err::<(), OptError>(e) && *final(opts) == *old(opts),
        },
{
    if str_eq(arg, "t") {
        match value {
            None => Err(OptError::MissingValue),
            Some(v) => {
                let vs = v.as_str();
                if str_eq(vs, "star") {
                    opts.graph_type = GraphType::Star;
                    Ok(())
                } else if str_eq(vs, "ascii") {
                    opts.graph_type = GraphType::Ascii;
                    Ok(())
                } else if str_eq(vs, "braille") || str_eq(vs, "braille6") {
                    opts.graph_type = GraphType::Braille(BrailleType::Dot6);
                    Ok(())
                } else if str_eq(vs, "braille8") {
                    opts.graph_type = GraphType::Braille(BrailleType::Dot8);
                    Ok(())
                } else {
                    Err(OptError::UnknownGraphType)
                }
            },
        }
    } else if str_eq(arg, "h") || str_eq(arg, "height") {
        match value {
            None => Err(OptError::MissingValue),
            Some(v) => match parse_digits(v.as_str()) {
                Some(n) => {
                    if n <= usize::MAX as u64 {
                        opts.height = Some(n as usize);
                        Ok(())
                    } else {
                        Err(OptError::BadNumber)
                    }
                },
                None => Err(OptError::BadNumber),
            },
        }
    } else if str_eq(arg, "n") || str_eq(arg, "last-n") {
        match value {
            None => Err(OptError::MissingValue),
            Some(v) => match parse_digits(v.as_str()) {
                Some(n) => {
                    opts.last_n = Some(n);
                    Ok(())
                },
                None => Err(OptError::BadNumber),
            },
        }
    } else if str_eq(arg, "s") || str_eq(arg, "silent") {
        opts.silent = true;
        Ok(())
    } else if str_eq(arg, "a") || str_eq(arg, "ascii") {
        opts.graph_type = GraphType::Ascii;
        Ok(())
    } else if str_eq(arg, "b") || str_eq(arg, "braille") {
        opts.graph_type = GraphType::Braille(BrailleType::Dot6);
        Ok(())
    } else if str_eq(arg, "c") || str_eq(arg, "cut") {
        opts.cut = true;
        Ok(())
    } else if str_eq(arg, "color") {
        match value {
            None => Err(OptError::MissingValue),
            Some(v) => {
                let vs = v.as_str();
                if str_eq(vs, "yes") {
                    opts.color = Some(true);
                    Ok(())
                } else if str_eq(vs, "no") {
                    opts.color = Some(false);
                    Ok(())
                } else {
                    Err(OptError::UnknownColor)
                }
            },
        }
    } else if str_eq(arg, "w") || str_eq(arg, "width") {
        match value {
            None => Err(OptError::MissingValue),
            Some(v) => match parse_digits(v.as_str()) {
                Some(n) => {
                    if n <= usize::MAX as u64 {
                        opts.width = Some(n as usize);
                        Ok(())
                    } else {
                        Err(OptError::BadNumber)
                    }
                },
                None => Err(OptError::BadNumber),
            },
        }
    } else if str_eq(arg, "help") {
        Err(OptError::Help)
    } else {
        Err(OptError::UnknownOption)
    }
}

/// Parse the whole command line argument list (without the program name),
/// exactly as [`parseopts_spec`] says: long options (`--name`,
/// `--name=value`, with `--width`, `--height`, `--last-n` and `--color`
/// consuming the following argument when they carry no value of their own),
/// short option clusters (`-abc`, with `-h`, `-t`, `-w` and `-n` consuming
/// following arguments), and at most one positional input file argument.
pub fn parseopts(args: &Vec<String>) -> (r: Result<OptsBuilder, OptError>)
    ensures
        r == parseopts_spec(opts_start(), args@, 0),
{
    let mut o = OptsBuilder {
        width: None,
        height: None,
        graph_type: GraphType::Star,
        silent: false,
        last_n: None,
        cut: false,
        in_file: None,
        color: None,
    };
    let n = args.len();
    let mut i: usize = 0;
    while i < n
        invariant
            i <= n,
            n == args@.len(),
            parseopts_spec(opts_start(), args@, 0) == parseopts_spec(o, args@, i as int),
        decreases n - i,
    {
        let ghost o_arg = o;
        let a = args[i].as_str();
        let alen = a.unicode_len();
        if alen >= 2 && a.get_char(0) == '-' && a.get_char(1) == '-' {
            let rest = a.substring_char(2, alen);
            let (name, v0) = split_eq(rest);
            let ghost v0g = v0;
            let mut value = v0;
            let mut ni: usize = i + 1;
            let consumes = value.is_none() && (str_eq(name.as_str(), "width") || str_eq(
                name.as_str(),
                "height",
            ) || str_eq(name.as_str(), "last-n") || str_eq(name.as_str(), "color"));
            if consumes && i + 1 < n {
                value = Some(args[i + 1].clone());
                ni = i + 2;
            }
            proof {
                let ai = args@[i as int]@;
                assert(ai == a@);
                assert(ai.len() >= 2 && ai[0] == '-' && ai[1] == '-');
                let restg = ai.subrange(2, ai.len() as int);
                assert(rest@ == restg);
                let pg = find_eq(restg, 0);
                assert(name@ == (if pg == restg.len() {
                    restg
                } else {
                    restg.take(pg)
                }));
                assert(view_opt_string(v0g) == (if pg == restg.len() {
                    None::<Seq<char>>
                } else {
                    Some(restg.subrange(pg + 1, restg.len() as int))
                }));
                assert(consumes == (v0g is None && takes_value_long(name@)));
                assert(view_opt_string(value) == (if v0g is None && takes_value_long(name@)
                    && i as int + 1 < args@.len() {
                    Some(args@[i as int + 1]@)
                } else {
                    view_opt_string(v0g)
                }));
            }
            match parseopt(&mut o, name.as_str(), value) {
                Ok(_) => {
                    proof {
                        assert(parseopts_spec(o_arg, args@, i as int) == parseopts_spec(
                            o,
                            args@,
                            ni as int,
                        ));
                    }
                    i = ni;
                },
                Err(e) => {
                    proof {
                        assert(parseopts_spec(o_arg, args@, i as int) == Err::<
                            OptsBuilder,
                            OptError,
                        >(e));
                    }
                    return Err(e);
                },
            }
        } else if alen >= 1 && a.get_char(0) == '-' {
            let cs = a.substring_char(1, alen);
            let cslen = cs.unicode_len();
            let ghost o_cs = o;
            let mut j: usize = 0;
            let mut k: usize = i + 1;
            while j < cslen
                invariant
                    j <= cslen,
                    i < n,
                    i + 1 <= k <= n,
                    n == args@.len(),
                    cslen == cs@.len(),
                    parseopts_spec(opts_start(), args@, 0) == parseopts_spec(
                        o_arg,
                        args@,
                        i as int,
                    ),
                    args@[i as int]@.len() >= 1,
                    args@[i as int]@[0] == '-',
                    !(args@[i as int]@.len() >= 2 && args@[i as int]@[1] == '-'),
                    cs@ == args@[i as int]@.subrange(1, args@[i as int]@.len() as int),
                    o_cs == o_arg,
                    parse_cluster_spec(o_cs, args@, cs@, 0, i as int + 1) == parse_cluster_spec(
                        o,
                        args@,
                        cs@,
                        j as int,
                        k as int,
                    ),
                decreases cslen - j,
            {
                let ghost o_pre = o;
                let ghost k0 = k as int;
                let c = cs.get_char(j);
                let mut name = String::new();
                push_char(&mut name, c);
                proof {
                    assert(name@ =~= seq![c]);
                }
                let takes = c == 'h' || c == 't' || c == 'w' || c == 'n';
                let value: Option<String> = if takes && k < n {
                    let v = args[k].clone();
                    k = k + 1;
                    Some(v)
                } else {
                    None
                };
                proof {
                    assert(takes == takes_value_short(c));
                    assert(view_opt_string(value) == (if takes_value_short(c) && k0
                        < args@.len() {
                        Some(args@[k0]@)
                    } else {
                        None::<Seq<char>>
                    }));
                    assert(k as int == (if takes_value_short(c) && k0 < args@.len() {
                        k0 + 1
                    } else {
                        k0
                    }));
                }
                match parseopt(&mut o, name.as_str(), value) {
                    Ok(_) => {
                        proof {
                            assert(parse_cluster_spec(o_pre, args@, cs@, j as int, k0)
                                == parse_cluster_spec(o, args@, cs@, j as int + 1, k as int));
                        }
                    },
                    Err(e) => {
                        proof {
                            assert(parse_cluster_spec(o_pre, args@, cs@, j as int, k0) == Err::<
                                (OptsBuilder, int),
                                OptError,
                            >(e));
                            assert(parse_cluster_spec(o_cs, args@, cs@, 0, i as int + 1) == Err::<
                                (OptsBuilder, int),
                                OptError,
                            >(e));
                            assert(parseopts_spec(o_arg, args@, i as int) == Err::<
                                OptsBuilder,
                                OptError,
                            >(e));
                        }
                        return Err(e);
                    },
                }
                j = j + 1;
            }
            proof {
                assert(parse_cluster_spec(o_cs, args@, cs@, 0, i as int + 1) == Ok::<
                    (OptsBuilder, int),
                    OptError,
                >((o, k as int)));
                assert(parseopts_spec(o_arg, args@, i as int) == parseopts_spec(
                    o,
                    args@,
                    k as int,
                ));
            }
            i = k;
        } else {
            proof {
                let ai = args@[i as int]@;
                assert(ai == a@);
                assert(!(ai.len() >= 2 && ai[0] == '-' && ai[1] == '-'));
                assert(!(ai.len() >= 1 && ai[0] == '-'));
            }
            if o.in_file.is_some() {
                proof {
                    assert(parseopts_spec(o_arg, args@, i as int) == Err::<OptsBuilder, OptError>(
                        OptError::UnexpectedArgument,
                    ));
                }
                return Err(OptError::UnexpectedArgument);
            }
            o.in_file = Some(args[i].clone());
            proof {
                assert(o == (OptsBuilder { in_file: Some(args@[i as int]), ..o_arg }));
                assert(parseopts_spec(o_arg, args@, i as int) == parseopts_spec(
                    o,
                    args@,
                    i as int + 1,
                ));
            }
            i = i + 1;
        }
    }
    Ok(o)
}

/// How the accumulated options resolve into the final record, given what
/// the surrounding program knows: the terminal size (columns, rows), if it
/// could be probed, and whether stdout is a terminal.  An unset width or
/// height falls back to the terminal's (one row is kept free below the
/// graph); an unset color choice follows the terminal check; a width or
/// height of 0 is rejected.
pub open spec fn resolve_opts(b: OptsBuilder, term: Option<(u16, u16)>, tty: bool) -> Result<
    Opts,
    OptError,
> {
    let wo = match b.width {
        Some(w) => Some(w as int),
        None => match term {
            Some(t) => Some(t.0 as int),
            None => None,
        },
    };
    match wo {
        None => Err(OptError::MissingWidth),
        Some(w) => {
            let ho = match b.height {
                Some(h) => Some(h as int),
                None => match term {
                    Some(t) => if t.1 as int >= 1 {
                        Some(t.1 as int - 1)
                    } else {
                        Some(0)
                    },
                    None => None,
                },
            };
            match ho {
                None => Err(OptError::MissingHeight),
                Some(h) => {
                    if w < 1 {
                        Err(OptError::ZeroWidth)
                    } else if h < 1 {
                        Err(OptError::ZeroHeight)
                    } else {
                        Ok(
                            Opts {
                                width: w as usize,
                                height: h as usize,
                                graph_type: b.graph_type,
                                silent: b.silent,
                                last_n: b.last_n,
                                cut: b.cut,
                                in_file: b.in_file,
                                color: match b.color {
                                    Some(c) => c,
                                    None => tty,
                                },
                            },
                        )
                    }
                },
            }
        },
    }
}

impl OptsBuilder {
    /// Resolve the accumulated options into the final record, exactly as
    /// [`resolve_opts`] says.
    pub fn build(self, term_size: Option<(u16, u16)>, stdout_tty: bool) -> (r: Result<
        Opts,
        OptError,
    >)
        ensures
            r == resolve_opts(self, term_size, stdout_tty),
    {
        let width: usize = match self.width {
            Some(w) => w,
            None => match term_size {
                Some((c, _)) => c as usize,
                None => {
                    return Err(OptError::MissingWidth);
                },
            },
        };
        let height: usize = match self.height {
            Some(h) => h,
            None => match term_size {
                Some((_, r)) => if r >= 1 {
                    (r - 1) as usize
                } else {
                    0
                },
                None => {
                    return Err(OptError::MissingHeight);
                },
            },
        };
        if width < 1 {
            Err(OptError::ZeroWidth)
        } else if height < 1 {
            Err(OptError::ZeroHeight)
        } else {
            Ok(
                Opts {
                    width,
                    height,
                    graph_type: self.graph_type,
                    silent: self.silent,
                    last_n: self.last_n,
                    cut: self.cut,
                    in_file: self.in_file,
                    color: match self.color {
                        Some(c) => c,
                        None => stdout_tty,
                    },
                },
            )
        }
    }
}

} // verus!
