//! A source-to-source transformer for a GML-like scripting language.
//!
//! The library scans script text into tokens, reads a designated constants
//! script into a name-to-text map, rewrites ("flattens") arbitrary scripts by
//! substituting constant references and eliding a reserved dispatch call,
//! minimizes whitespace, and resolves which project files are exported.
#![verifier::loop_isolation(false)]

pub mod text;
pub mod token;
pub mod scanner;
pub mod reader;
pub mod compressor;
pub mod flattener;
pub mod include_list;
pub mod fetch_project;
pub mod config;
pub mod cli;

use vstd::prelude::*;
use vstd::string::StringExecFns;
use crate::token::Token;
use crate::scanner::{RcfScanner, scan_toks, scan_errs};
use crate::reader::{ConstantsMap, read_result};
use crate::flattener::{Flattener, flat_init, flat_fold, flat_result_output, dispatch_text};

verus! {

/// One error report holding each collected message on a line of its own.
fn join_error_lines(errors: &Vec<String>) -> (r: String) {
    let mut out = String::new();
    let mut i: usize = 0;
    while i < errors.len()
        decreases errors.len() - i,
    {
        out.append(errors[i].as_str());
        out.append("\n");
        i = i + 1;
    }
    out
}

/// Scans the designated constants script and reads its declarations into a
/// constants map. Fails when scanning collects any error or the token stream
/// is not a well-formed sequence of declarations.
pub fn get_constants_map(src: &str) -> (r: Result<ConstantsMap, String>)
    ensures
        ({
            let toks = scan_toks(src@, 0);
            let errs = scan_errs(src@, 0);
            &&& (r is Ok <==> errs.len() == 0 && read_result(toks) is Some)
            &&& (r is Ok ==> r->Ok_0@ == read_result(toks)->Some_0)
        }),
{
    let mut s = RcfScanner::new(src);
    let tokens = match s.scan_tokens() {
        Ok(t) => t,
        Err(es) => {
            return Err(join_error_lines(&es));
        },
    };
    crate::reader::get_constants_map(&tokens)
}

/// Scans a script and flattens it against a constants map. Fails when
/// scanning collects any error or an end-ignore marker is unmatched.
pub fn flatten_file(
    src: &str,
    map: &ConstantsMap,
    user_event: Option<u8>,
    skip_whitespace: bool,
    skip_comments: bool,
) -> (r: Result<String, String>)
    ensures
        ({
            let toks = scan_toks(src@, 0);
            let errs = scan_errs(src@, 0);
            let fst = flat_fold(
                toks,
                map@,
                dispatch_text(user_event),
                skip_whitespace,
                skip_comments,
                flat_init(Seq::empty(), false, false),
            );
            &&& (r is Ok <==> errs.len() == 0 && !fst.failed)
            &&& (r is Ok ==> r->Ok_0@ == flat_result_output(fst, skip_whitespace))
        }),
{
    let mut s = RcfScanner::new(src);
    let tokens: Vec<Token> = match s.scan_tokens() {
        Ok(t) => t,
        Err(es) => {
            return Err(join_error_lines(&es));
        },
    };
    let mut f = Flattener::new(user_event, skip_whitespace, skip_comments);
    f.flatten_program(&tokens, map)
}

} // verus!
