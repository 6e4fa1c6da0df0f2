//! Command-line flag handling: the flag set, its parsing rules, and the
//! source-validity decision.

use vstd::prelude::*;
use crate::fetch_project::parse_u8_spec;
use crate::text::str_eq;

verus! {

/// The flags an invocation can carry.
pub struct Flags {
    pub user_event: Option<u8>,
    pub strip_comments: bool,
    pub strip_whitespace: bool,
    pub is_silent: bool,
    pub do_overwrite: bool,
    pub block_overwrite: bool,
    pub dry_run: bool,
    pub inert_run: bool,
}

impl Flags {
    /// All flags off.
    pub fn new() -> (r: Flags)
        ensures
            r == spec_flags_default(),
    {
        Flags {
            user_event: None,
            strip_comments: false,
            strip_whitespace: false,
            is_silent: false,
            do_overwrite: false,
            block_overwrite: false,
            dry_run: false,
            inert_run: false,
        }
    }
}

pub open spec fn spec_flags_default() -> Flags {
    Flags {
        user_event: None,
        strip_comments: false,
        strip_whitespace: false,
        is_silent: false,
        do_overwrite: false,
        block_overwrite: false,
        dry_run: false,
        inert_run: false,
    }
}

/// The state of the flag scan.
pub struct FlagScan {
    pub f: Flags,
    /// The next argument is the dispatch selector value.
    pub save_ue: bool,
    /// How many of the first three arguments were not flags: the source and
    /// destination arguments must be among them.
    pub passed_over: int,
    pub failed: bool,
}

pub open spec fn flag_scan_init() -> FlagScan {
    FlagScan { f: spec_flags_default(), save_ue: false, passed_over: 0, failed: false }
}

/// One step of the flag scan over the argument at position `idx`.
pub open spec fn flag_step(st: FlagScan, arg: Seq<char>, idx: int) -> FlagScan {
    if st.failed {
        st
    } else if st.save_ue {
        match parse_u8_spec(arg) {
            Some(n) => FlagScan {
                f: Flags { user_event: Some(n), ..st.f },
                save_ue: false,
                ..st
            },
            None => FlagScan { failed: true, ..st },
        }
    } else if arg == "-ue"@ {
        FlagScan { save_ue: true, ..st }
    } else if arg == "-c"@ {
        FlagScan { f: Flags { strip_comments: true, ..st.f }, ..st }
    } else if arg == "-w"@ {
        FlagScan { f: Flags { strip_whitespace: true, ..st.f }, ..st }
    } else if arg == "-s"@ {
        FlagScan { f: Flags { is_silent: true, ..st.f }, ..st }
    } else if arg == "-o"@ {
        FlagScan { f: Flags { do_overwrite: true, ..st.f }, ..st }
    } else if arg == "-safe"@ {
        FlagScan { f: Flags { block_overwrite: true, ..st.f }, ..st }
    } else if arg == "-init"@ {
        FlagScan { f: Flags { dry_run: true, ..st.f }, ..st }
    } else if arg == "-inert"@ {
        FlagScan { f: Flags { inert_run: true, ..st.f }, ..st }
    } else if idx <= 2 {
        FlagScan { passed_over: st.passed_over + 1, ..st }
    } else {
        st
    }
}

pub open spec fn flag_fold(args: Seq<Seq<char>>) -> FlagScan
    decreases args.len(),
{
    if args.len() == 0 {
        flag_scan_init()
    } else {
        flag_step(flag_fold(args.drop_last()), args.last(), args.len() - 1)
    }
}

/// The flag set an argument list denotes, or nothing when the arguments are
/// rejected: a `-ue` without a valid selector value, source or destination
/// standing where a flag was consumed, `-o` together with `-safe`, `-s`
/// without `-o` or `-safe`, or `-init` together with `-inert`.
pub open spec fn spec_get_flags(args: Seq<Seq<char>>) -> Option<Flags> {
    let st = flag_fold(args);
    if st.failed || st.save_ue {
        None
    } else if st.passed_over < 2 || (st.passed_over == 2 && !st.f.dry_run) {
        None
    } else if st.f.do_overwrite && st.f.block_overwrite {
        None
    } else if st.f.is_silent && !st.f.block_overwrite && !st.f.do_overwrite {
        None
    } else if st.f.dry_run && st.f.inert_run {
        None
    } else {
        Some(st.f)
    }
}

proof fn lemma_flag_failed_sticky(args: Seq<Seq<char>>, i: int)
    requires
        0 <= i <= args.len(),
        flag_fold(args.subrange(0, i)).failed,
    ensures
        flag_fold(args).failed,
    decreases args.len() - i,
{
    if i == args.len() {
        assert(args.subrange(0, i) =~= args);
    } else {
        assert(args.subrange(0, i + 1).drop_last() =~= args.subrange(0, i));
        assert(args.subrange(0, i + 1).last() == args[i]);
        assert(flag_fold(args.subrange(0, i + 1))
            == flag_step(flag_fold(args.subrange(0, i)), args[i], i));
        lemma_flag_failed_sticky(args, i + 1);
    }
}

/// Parses a byte value out of a string.
fn parse_u8_str(s: &str) -> (r: Option<u8>)
    ensures
        r == parse_u8_spec(s@),
{
    let v = crate::text::str_to_chars(s);
    crate::fetch_project::parse_u8_chars(&v)
}

/// Reads the flag set out of an argument list.
pub fn get_flags(args: &Vec<String>) -> (r: Result<Flags, String>)
    ensures
        r is Ok <==> spec_get_flags(args.deep_view()) is Some,
        r is Ok ==> r->Ok_0 == spec_get_flags(args.deep_view())->Some_0,
{
    let ghost av = args.deep_view();
    let mut f = Flags::new();
    let mut save_ue = false;
    let mut passed_over: u8 = 0;

    let n = args.len();
    let mut i: usize = 0;
    while i < n
        invariant
            i <= n,
            n == av.len(),
            av == args.deep_view(),
            ({
                let st = flag_fold(av.subrange(0, i as int));
                &&& !st.failed
                &&& st.f == f
                &&& st.save_ue == save_ue
                &&& st.passed_over == passed_over as int
            }),
            passed_over as int <= i,
            passed_over <= 3,
        decreases n - i,
    {
        proof {
            assert(av.subrange(0, i + 1 as int).drop_last() =~= av.subrange(0, i as int));
            assert(av.subrange(0, i + 1 as int).last() == av[i as int]);
            assert(args.deep_view()[i as int] == args@[i as int].deep_view());
        }
        let arg = &args[i];
        if save_ue {
            match parse_u8_str(arg.as_str()) {
                Some(num) => {
                    f.user_event = Some(num);
                    save_ue = false;
                },
                None => {
                    proof {
                        lemma_flag_failed_sticky(av, i + 1);
                    }
                    return Err("Provided user_event number is invalid".to_owned());
                },
            }
        } else if str_eq(arg.as_str(), "-ue") {
            save_ue = true;
        } else if str_eq(arg.as_str(), "-c") {
            f.strip_comments = true;
        } else if str_eq(arg.as_str(), "-w") {
            f.strip_whitespace = true;
        } else if str_eq(arg.as_str(), "-s") {
            f.is_silent = true;
        } else if str_eq(arg.as_str(), "-o") {
            f.do_overwrite = true;
        } else if str_eq(arg.as_str(), "-safe") {
            f.block_overwrite = true;
        } else if str_eq(arg.as_str(), "-init") {
            f.dry_run = true;
        } else if str_eq(arg.as_str(), "-inert") {
            f.inert_run = true;
        } else if i <= 2 {
            passed_over = passed_over + 1;
        }
        i = i + 1;
    }
    proof {
        assert(av.subrange(0, n as int) =~= av);
    }
    if save_ue {
        Err("Flag -ue must be followed by a user_event number".to_owned())
    } else if passed_over < 2 || (passed_over == 2 && !f.dry_run) {
        Err("Source and destination arguments must not be flags".to_owned())
    } else if f.do_overwrite && f.block_overwrite {
        Err("Flags -o and -safe are mutually exclusive".to_owned())
    } else if f.is_silent && !f.block_overwrite && !f.do_overwrite {
        Err("Flag -s must be used alongside flag -o or -safe".to_owned())
    } else if f.dry_run && f.inert_run {
        Err("Flags -init and -inert are mutually exclusive".to_owned())
    } else {
        Ok(f)
    }
}

/// The destination policy a flag set selects.
pub enum DestPolicy {
    /// The destination must be absent or empty.
    RequireEmpty,
    /// The destination is cleared without asking.
    Overwrite,
    /// The user is asked before an existing project is overwritten.
    Ask,
}

/// Which destination policy a flag set selects: `-safe` requires an empty
/// destination, `-o` overwrites, and with neither the user is asked.
pub fn dest_policy(flags: &Flags) -> (r: DestPolicy)
    ensures
        r == (if flags.block_overwrite {
            DestPolicy::RequireEmpty
        } else if flags.do_overwrite {
            DestPolicy::Overwrite
        } else {
            DestPolicy::Ask
        }),
{
    if flags.block_overwrite {
        DestPolicy::RequireEmpty
    } else if flags.do_overwrite {
        DestPolicy::Overwrite
    } else {
        DestPolicy::Ask
    }
}

/// Decides whether a source directory's export type is workable: only the
/// base project type is supported; the other recognized types are rejected
/// as unsupported, and anything else means no valid project was found.
pub fn cli_check_source_valid(export_type: Option<u8>) -> (r: Result<(), String>)
    ensures
        r is Ok <==> export_type == Some(0u8),
{
    match export_type {
        Some(0) => Ok(()),
        Some(1) | Some(2) | Some(3) => Err("Project type is not yet supported".to_owned()),
        _ => Err("Could not find valid project file at source".to_owned()),
    }
}

} // verus!
