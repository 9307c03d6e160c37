//! Command-line options: the resolved configuration type and its parser.
//!
//! The parser turns a list of argument strings (what follows the program name
//! on the command line) into an `Arguments` value. Flags may come in any
//! order and may repeat (a repeated value option keeps its last value); `-c`,
//! `-d` and `-l` take the following argument as their value; the first
//! argument that is not a flag is the path, and a second one is an error, as
//! is any unrecognized argument that begins with `-`.

use vstd::prelude::*;

use crate::LsError;
use crate::str_is;

verus! {

/// Which of an entry's three timestamps the renderer prints.
#[derive(Clone, Copy, PartialEq, Eq, Structural, Debug)]
pub enum TimeSort {
    Atime,
    Mtime,
    Ctime,
}

/// The time kind that a `-c`/`--time` value names; anything else is rejected.
pub open spec fn time_sort_spec(s: Seq<char>) -> Option<TimeSort> {
    if s == "atime"@ {
        Option::Some(TimeSort::Atime)
    } else if s == "mtime"@ {
        Option::Some(TimeSort::Mtime)
    } else if s == "ctime"@ {
        Option::Some(TimeSort::Ctime)
    } else {
        Option::None
    }
}

impl TimeSort {
    /// The time kind named by a `-c`/`--time` value; any other value is an
    /// invalid argument.
    pub fn from_str(s: &str) -> (r: Result<TimeSort, LsError>)
        ensures
            (r is Ok) == (time_sort_spec(s@) is Some),
            r matches Ok(t) ==> time_sort_spec(s@) == Option::Some(t),
            r is Err ==> r == Err::<TimeSort, LsError>(LsError::InvalidArgument),
    {
        if str_is(s, "atime") {
            Ok(TimeSort::Atime)
        } else if str_is(s, "mtime") {
            Ok(TimeSort::Mtime)
        } else if str_is(s, "ctime") {
            Ok(TimeSort::Ctime)
        } else {
            Err(LsError::InvalidArgument)
        }
    }
}

/// The resolved configuration that the selection and rendering pipeline
/// consumes. Immutable once constructed.
#[derive(Debug)]
pub struct Arguments {
    pub show_hidden: bool,
    pub show_almost_all: bool,
    pub escape: bool,
    pub time: Option<TimeSort>,
    pub classify: bool,
    pub max_depth: Option<usize>,
    pub limit: Option<usize>,
    pub path: Option<String>,
}

/// The ghost image of `Arguments`: the same options, with the path as a
/// sequence of characters.
pub struct ArgumentsV {
    pub show_hidden: bool,
    pub show_almost_all: bool,
    pub escape: bool,
    pub time: Option<TimeSort>,
    pub classify: bool,
    pub max_depth: Option<usize>,
    pub limit: Option<usize>,
    pub path: Option<Seq<char>>,
}

impl View for Arguments {
    type V = ArgumentsV;

    open spec fn view(&self) -> ArgumentsV {
        ArgumentsV {
            show_hidden: self.show_hidden,
            show_almost_all: self.show_almost_all,
            escape: self.escape,
            time: self.time,
            classify: self.classify,
            max_depth: self.max_depth,
            limit: self.limit,
            path: match self.path {
                Option::Some(p) => Option::Some(p@),
                Option::None => Option::None,
            },
        }
    }
}

/// The configuration with every flag off, no value options, and no path.
pub open spec fn default_arguments_v() -> ArgumentsV {
    ArgumentsV {
        show_hidden: false,
        show_almost_all: false,
        escape: false,
        time: Option::None,
        classify: false,
        max_depth: Option::None,
        limit: Option::None,
        path: Option::None,
    }
}

pub open spec fn is_digit(c: char) -> bool {
    48 <= c as u32 <= 57
}

pub open spec fn digit_val(c: char) -> nat {
    (c as u32 - 48) as nat
}

/// The number that a sequence of decimal digits denotes.
pub open spec fn digits_val(s: Seq<char>) -> nat
    decreases s.len(),
{
    if s.len() == 0 {
        0
    } else {
        digits_val(s.drop_last()) * 10 + digit_val(s.last())
    }
}

pub open spec fn all_digits(s: Seq<char>) -> bool {
    forall|i: int| 0 <= i < s.len() ==> is_digit(#[trigger] s[i])
}

/// The numeric reading of a flag value: defined exactly for a nonempty
/// all-digit string whose value fits the machine's word.
pub open spec fn parse_usize_spec(s: Seq<char>) -> Option<usize> {
    if s.len() > 0 && all_digits(s) && digits_val(s) <= usize::MAX as nat {
        Option::Some(digits_val(s) as usize)
    } else {
        Option::None
    }
}

/// A longer digit string denotes no smaller a number.
proof fn lemma_digits_val_take_le(s: Seq<char>, i: int)
    requires
        0 <= i <= s.len(),
    ensures
        digits_val(s.take(i)) <= digits_val(s),
    decreases s.len() - i,
{
    if i == s.len() {
        assert(s.take(i) =~= s);
    } else {
        lemma_digits_val_take_le(s, i + 1);
        assert(s.take(i + 1).drop_last() =~= s.take(i));
        assert(digits_val(s.take(i + 1)) == digits_val(s.take(i)) * 10 + digit_val(
            s.take(i + 1).last(),
        ));
    }
}

/// The number that a `-d`/`-l` value names, or nothing where the value is not
/// a number the machine can hold.
pub fn parse_usize(s: &str) -> (r: Option<usize>)
    ensures
        r == parse_usize_spec(s@),
{
    let n = s.unicode_len();
    if n == 0 {
        return Option::None;
    }
    let mut acc: usize = 0;
    let mut i: usize = 0;
    while i < n
        invariant
            i <= n,
            n == s@.len(),
            s@.len() > 0,
            all_digits(s@.take(i as int)),
            acc == digits_val(s@.take(i as int)),
        decreases n - i,
    {
        let c = s.get_char(i);
        let v: u32 = c as u32;
        if v < 48 || v > 57 {
            proof {
                assert(!is_digit(s@[i as int]));
            }
            return Option::None;
        }
        let d: usize = (v - 48) as usize;
        proof {
            assert(s@.take(i + 1).drop_last() =~= s@.take(i as int));
            assert(s@.take(i + 1).last() == s@[i as int]);
            assert(all_digits(s@.take(i + 1)));
            lemma_digits_val_take_le(s@, i + 1);
        }
        let next: usize = match acc.checked_mul(10) {
            Option::Some(m) => match m.checked_add(d) {
                Option::Some(t) => t,
                Option::None => {
                    return Option::None;
                },
            },
            Option::None => {
                return Option::None;
            },
        };
        acc = next;
        i = i + 1;
    }
    proof {
        assert(s@.take(n as int) =~= s@);
    }
    Option::Some(acc)
}

/// One step of parsing: how the first argument (with, for a value option, the
/// one after it) extends a partial configuration, and when it is rejected.
pub open spec fn parse_rec(args: Seq<Seq<char>>, acc: ArgumentsV) -> Result<ArgumentsV, LsError>
    decreases args.len(),
{
    if args.len() == 0 {
        Result::Ok(acc)
    } else {
        let a = args[0];
        if a == "-a"@ || a == "--all"@ {
            parse_rec(args.skip(1), ArgumentsV { show_hidden: true, ..acc })
        } else if a == "-A"@ || a == "--almost-all"@ {
            parse_rec(args.skip(1), ArgumentsV { show_almost_all: true, ..acc })
        } else if a == "-b"@ || a == "--escape"@ {
            parse_rec(args.skip(1), ArgumentsV { escape: true, ..acc })
        } else if a == "-F"@ || a == "--classify"@ {
            parse_rec(args.skip(1), ArgumentsV { classify: true, ..acc })
        } else if a == "-c"@ || a == "--time"@ {
            if args.len() < 2 {
                Result::Err(LsError::InvalidArgument)
            } else {
                match time_sort_spec(args[1]) {
                    Option::Some(t) => parse_rec(
                        args.skip(2),
                        ArgumentsV { time: Option::Some(t), ..acc },
                    ),
                    Option::None => Result::Err(LsError::InvalidArgument),
                }
            }
        } else if a == "-d"@ || a == "--max-depth"@ {
            if args.len() < 2 {
                Result::Err(LsError::InvalidArgument)
            } else {
                match parse_usize_spec(args[1]) {
                    Option::Some(n) => parse_rec(
                        args.skip(2),
                        ArgumentsV { max_depth: Option::Some(n), ..acc },
                    ),
                    Option::None => Result::Err(LsError::InvalidArgument),
                }
            }
        } else if a == "-l"@ || a == "--limit"@ {
            if args.len() < 2 {
                Result::Err(LsError::InvalidArgument)
            } else {
                match parse_usize_spec(args[1]) {
                    Option::Some(n) => parse_rec(
                        args.skip(2),
                        ArgumentsV { limit: Option::Some(n), ..acc },
                    ),
                    Option::None => Result::Err(LsError::InvalidArgument),
                }
            }
        } else if a.len() > 1 && a[0] == '-' {
            Result::Err(LsError::InvalidArgument)
        } else if acc.path is Some {
            Result::Err(LsError::InvalidArgument)
        } else {
            parse_rec(args.skip(1), ArgumentsV { path: Option::Some(a), ..acc })
        }
    }
}

/// What parsing a whole argument list yields, starting from the defaults.
pub open spec fn parse_args_spec(argv: Seq<Seq<char>>) -> Result<ArgumentsV, LsError> {
    parse_rec(argv, default_arguments_v())
}

/// The resolved configuration that an argument list names, or the invalid
/// argument error exactly where `parse_args_spec` rejects the list: on an
/// unrecognized flag, a value option without a valid value, or a second path.
pub fn parse_args(args: &Vec<String>) -> (r: Result<Arguments, LsError>)
    ensures
        r matches Ok(a) ==> parse_args_spec(args.deep_view()) == Ok::<ArgumentsV, LsError>(a@),
        r matches Err(e) ==> parse_args_spec(args.deep_view()) == Err::<ArgumentsV, LsError>(e),
{
    let ghost argv = args.deep_view();
    let mut cur = Arguments {
        show_hidden: false,
        show_almost_all: false,
        escape: false,
        time: Option::None,
        classify: false,
        max_depth: Option::None,
        limit: Option::None,
        path: Option::None,
    };
    let mut i: usize = 0;
    proof {
        assert(argv.skip(0) =~= argv);
        assert(cur@ == default_arguments_v());
    }
    while i < args.len()
        invariant
            i <= args@.len(),
            argv == args.deep_view(),
            argv.len() == args@.len(),
            parse_rec(argv, default_arguments_v()) == parse_rec(argv.skip(i as int), cur@),
        decreases args@.len() - i,
    {
        let a: &String = &args[i];
        let ghost rest = argv.skip(i as int);
        proof {
            assert(rest[0] == argv[i as int]);
            assert(argv[i as int] == args@[i as int]@);
            assert(rest.skip(1) =~= argv.skip(i + 1));
        }
        if str_is(a.as_str(), "-a") || str_is(a.as_str(), "--all") {
            cur.show_hidden = true;
        } else if str_is(a.as_str(), "-A") || str_is(a.as_str(), "--almost-all") {
            cur.show_almost_all = true;
        } else if str_is(a.as_str(), "-b") || str_is(a.as_str(), "--escape") {
            cur.escape = true;
        } else if str_is(a.as_str(), "-F") || str_is(a.as_str(), "--classify") {
            cur.classify = true;
        } else if str_is(a.as_str(), "-c") || str_is(a.as_str(), "--time") {
            if i + 1 == args.len() {
                return Err(LsError::InvalidArgument);
            }
            let v: &String = &args[i + 1];
            proof {
                assert(rest[1] == argv[i + 1]);
                assert(argv[i + 1] == args@[i + 1]@);
                assert(rest.skip(2) =~= argv.skip(i + 2));
            }
            match TimeSort::from_str(v.as_str()) {
                Result::Ok(t) => {
                    cur.time = Option::Some(t);
                    i = i + 1;
                },
                Result::Err(e) => {
                    return Err(e);
                },
            }
        } else if str_is(a.as_str(), "-d") || str_is(a.as_str(), "--max-depth") {
            if i + 1 == args.len() {
                return Err(LsError::InvalidArgument);
            }
            let v: &String = &args[i + 1];
            proof {
                assert(rest[1] == argv[i + 1]);
                assert(argv[i + 1] == args@[i + 1]@);
                assert(rest.skip(2) =~= argv.skip(i + 2));
            }
            match parse_usize(v.as_str()) {
                Option::Some(n) => {
                    cur.max_depth = Option::Some(n);
                    i = i + 1;
                },
                Option::None => {
                    return Err(LsError::InvalidArgument);
                },
            }
        } else if str_is(a.as_str(), "-l") || str_is(a.as_str(), "--limit") {
            if i + 1 == args.len() {
                return Err(LsError::InvalidArgument);
            }
            let v: &String = &args[i + 1];
            proof {
                assert(rest[1] == argv[i + 1]);
                assert(argv[i + 1] == args@[i + 1]@);
                assert(rest.skip(2) =~= argv.skip(i + 2));
            }
            match parse_usize(v.as_str()) {
                Option::Some(n) => {
                    cur.limit = Option::Some(n);
                    i = i + 1;
                },
                Option::None => {
                    return Err(LsError::InvalidArgument);
                },
            }
        } else {
            let s = a.as_str();
            let n = s.unicode_len();
            if n > 1 && s.get_char(0) == '-' {
                return Err(LsError::InvalidArgument);
            }
            if cur.path.is_some() {
                return Err(LsError::InvalidArgument);
            }
            cur.path = Option::Some(a.clone());
        }
        i = i + 1;
    }
    proof {
        assert(argv.skip(argv.len() as int) =~= Seq::<Seq<char>>::empty());
    }
    Ok(cur)
}

} // verus!
