//! What the command line asks for: how many rows, and how Java processes are
//! named.

use vstd::prelude::*;
use crate::java::{parse_java_strategy, strategy_of, JavaStrategy};
use crate::decimal::{parse_decimal, read_decimal};
use crate::text::{chars_of, has_prefix};

verus! {

/// The number of rows where the command line gives none.
pub const DEFAULT_LIMIT: usize = 20;

/// What a run was asked for.
#[derive(Clone, Copy, Debug, PartialEq, Eq, Structural)]
pub struct Options {
    /// How many rows the report shows at most.
    pub limit: usize,
    /// How Java processes are named.
    pub strategy: JavaStrategy,
}

/// An argument that selects the naming of Java processes.
pub open spec fn is_strategy_flag(arg: Seq<char>) -> bool {
    "--java-by="@.is_prefix_of(arg)
}

/// The first of `args` that is a strategy flag (`flag`), or that is none
/// (`!flag`).
pub open spec fn first_argument(args: Seq<Seq<char>>, flag: bool) -> Option<Seq<char>>
    decreases args.len(),
{
    if args.len() == 0 {
        None
    } else if is_strategy_flag(args[0]) == flag {
        Some(args[0])
    } else {
        first_argument(args.drop_first(), flag)
    }
}

/// The number of rows that the arguments ask for: the number that the first
/// argument besides the strategy flags writes, and the default where there is
/// no such argument or it writes no number.
pub open spec fn limit_of(args: Seq<Seq<char>>) -> usize {
    match first_argument(args, false) {
        Some(arg) => match parse_decimal(arg, usize::MAX as nat) {
            Some(limit) => limit as usize,
            None => DEFAULT_LIMIT,
        },
        None => DEFAULT_LIMIT,
    }
}

/// What the arguments ask for. The first strategy flag decides the naming.
pub open spec fn options_of(args: Seq<Seq<char>>) -> Options {
    Options { limit: limit_of(args), strategy: strategy_of(first_argument(args, true)) }
}

/// Finds the first argument that is, or is not, a strategy flag.
fn find_argument(args: &[String], flag: bool) -> (found: Option<usize>)
    ensures
        match found {
            Some(i) => i < args.len() && first_argument(args.deep_view(), flag) == Some(
                args[i as int]@,
            ),
            None => first_argument(args.deep_view(), flag) is None,
        },
{
    let prefix = chars_of("--java-by=");
    let ghost all = args.deep_view();
    let mut i: usize = 0;
    assert(all.skip(0) == all);
    while i < args.len()
        invariant
            i <= args.len(),
            all == args.deep_view(),
            prefix@ == "--java-by="@,
            first_argument(all, flag) == first_argument(all.skip(i as int), flag),
        decreases args.len() - i,
    {
        assert(all.skip(i as int).drop_first() == all.skip(i + 1));
        let chars = chars_of(args[i].as_str());
        if has_prefix(&chars, &prefix) == flag {
            return Some(i);
        }
        i += 1;
    }
    None
}

/// Reads the arguments of a run, the program's own name left out.
pub fn parse_options(args: &[String]) -> (options: Options)
    ensures
        options == options_of(args.deep_view()),
{
    let strategy = match find_argument(args, true) {
        Some(i) => parse_java_strategy(Some(args[i].clone())),
        None => parse_java_strategy(None),
    };
    let limit = match find_argument(args, false) {
        Some(i) => {
            let chars = chars_of(args[i].as_str());
            assert(chars@.subrange(0, chars.len() as int) == chars@);
            match read_decimal(&chars, 0, chars.len()) {
                Some(value) => if value <= usize::MAX as u64 {
                    value as usize
                } else {
                    DEFAULT_LIMIT
                },
                None => DEFAULT_LIMIT,
            }
        },
        None => DEFAULT_LIMIT,
    };
    Options { limit, strategy }
}

} // verus!
