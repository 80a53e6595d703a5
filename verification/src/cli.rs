//! Interpreting the command line: layout flags, the end-of-flags
//! marker, and query substrings.

use crate::query::str_views;
use vstd::prelude::*;

verus! {

/// The default reserve for the expandable column: a standard
/// eighty-column line minus the process-identifier column and its
/// separator.
pub const DEFAULT_RESERVE: u32 = 74;

/// The reserve the compact layout flag forces, whatever the terminal
/// width.
pub const DETAIL_RESERVE: u32 = 44;

/// The width of the process-identifier column plus its separator.
pub const PID_SPAN: u32 = 6;

/// What interpreting a command line yields: either a run configuration
/// — the reserve for the expandable column and the query substrings —
/// or the first unrecognized option.
pub enum SpecCli {
    Run { reserve: int, queries: Seq<Seq<char>> },
    BadOption { flag: Seq<char> },
}

/// The reserve the wide layout flag sets: nearly the whole line, the
/// terminal width minus the process-identifier column, clamped at zero
/// for an undersized terminal.
pub open spec fn wide_reserve(columns: int) -> int {
    if columns >= PID_SPAN as int {
        columns - PID_SPAN as int
    } else {
        0
    }
}

/// The meaning of the command line from position `k` on, given the
/// state the earlier arguments left: whether flags are still
/// recognized, the reserve chosen so far, and the queries collected so
/// far.
pub open spec fn parse_from(
    args: Seq<Seq<char>>,
    k: int,
    can_flag: bool,
    reserve: int,
    queries: Seq<Seq<char>>,
    columns: int,
) -> SpecCli
    decreases args.len() - k,
{
    if k < 0 || k >= args.len() {
        SpecCli::Run { reserve, queries }
    } else {
        let a = args[k];
        if can_flag && a == "-d"@ {
            parse_from(args, k + 1, true, DETAIL_RESERVE as int, queries, columns)
        } else if can_flag && a == "-l"@ {
            parse_from(args, k + 1, true, wide_reserve(columns), queries, columns)
        } else if can_flag && a == "--"@ {
            parse_from(args, k + 1, false, reserve, queries, columns)
        } else if can_flag && a.len() > 0 && a[0] == '-' {
            SpecCli::BadOption { flag: a }
        } else {
            parse_from(args, k + 1, can_flag, reserve, queries.push(a), columns)
        }
    }
}

/// The meaning of a whole command line, for a terminal `columns` wide:
/// flags are recognized until the end-of-flags marker, a later flag
/// overrides an earlier one, every non-flag argument is a query, and
/// the first unrecognized option is an error.
pub open spec fn spec_parse(args: Seq<Seq<char>>, columns: int) -> SpecCli {
    parse_from(args, 0, true, DEFAULT_RESERVE as int, Seq::empty(), columns)
}

/// The run configuration drawn from the command line.
#[derive(Debug)]
pub struct CliConfig {
    /// The width reserved for the expandable command-line column.
    pub reserve_for_args: u32,
    /// The query substrings, in the order given.
    pub queries: Vec<String>,
}

/// Whether the argument begins with a dash, which makes it an option
/// while options are still recognized.
fn starts_with_dash(s: &str) -> (r: bool)
    ensures
        r == (s@.len() > 0 && s@[0] == '-'),
{
    if s.unicode_len() == 0 {
        false
    } else {
        s.get_char(0) == '-'
    }
}

/// Interprets the command line: `Ok` carries the reserve and the
/// queries the arguments chose, `Err` the first unrecognized option.
pub fn parse_args(args: &Vec<String>, columns: u32) -> (r: Result<CliConfig, String>)
    ensures
        match r {
            Ok(c) => spec_parse(str_views(args@), columns as int) == (SpecCli::Run {
                reserve: c.reserve_for_args as int,
                queries: str_views(c.queries@),
            }),
            Err(f) => spec_parse(str_views(args@), columns as int) == (SpecCli::BadOption {
                flag: f@,
            }),
        },
{
    let ghost av = str_views(args@);
    let flag_d = String::from_str("-d");
    let flag_l = String::from_str("-l");
    let flag_end = String::from_str("--");
    let mut reserve: u32 = DEFAULT_RESERVE;
    let mut queries: Vec<String> = Vec::new();
    let mut can_flag = true;
    let mut k: usize = 0;
    proof {
        assert(str_views(queries@) =~= Seq::<Seq<char>>::empty());
    }
    while k < args.len()
        invariant
            k <= args@.len(),
            av == str_views(args@),
            flag_d@ == "-d"@,
            flag_l@ == "-l"@,
            flag_end@ == "--"@,
            parse_from(av, k as int, can_flag, reserve as int, str_views(queries@), columns as int)
                == spec_parse(av, columns as int),
        decreases args@.len() - k,
    {
        let arg = &args[k];
        proof {
            assert(av[k as int] == args@[k as int]@);
        }
        if can_flag && *arg == flag_d {
            reserve = DETAIL_RESERVE;
        } else if can_flag && *arg == flag_l {
            reserve = if columns >= PID_SPAN {
                columns - PID_SPAN
            } else {
                0
            };
        } else if can_flag && *arg == flag_end {
            can_flag = false;
        } else if can_flag && starts_with_dash(arg.as_str()) {
            return Err(arg.clone());
        } else {
            let ghost q_old = queries@;
            queries.push(arg.clone());
            proof {
                assert(str_views(queries@) =~= str_views(q_old).push(av[k as int]));
            }
        }
        k = k + 1;
    }
    Ok(CliConfig { reserve_for_args: reserve, queries })
}

} // verus!
