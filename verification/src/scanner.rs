//! The scanner: a single left-to-right pass that turns raw script text into
//! a token stream.
//!
//! The spec-level functions below define tokenization exactly; the executable
//! scanner is proved to return precisely what they describe.

use vstd::prelude::*;
use crate::text::{
    spec_is_skippable, spec_is_number, spec_is_alpha, spec_is_identifier_char,
    spec_dec_digits, spec_newlines_before,
    is_skippable, is_number, is_alpha, is_identifier_char,
    str_to_chars, chars_range_to_string, str_eq, dec_string, newlines_before,
};
use crate::token::{Token, TokenModel, token_text, tokens_text, lemma_tokens_text_cons, is_directive};
use vstd::string::StringExecFns;

verus! {

/// The end of the run of characters satisfying `p` that starts at `i`.
pub open spec fn run_end(s: Seq<char>, i: int, p: spec_fn(char) -> bool) -> int
    decreases s.len() - i,
{
    if i < 0 || i >= s.len() {
        i
    } else if !p(s[i]) {
        i
    } else {
        run_end(s, i + 1, p)
    }
}

pub proof fn lemma_run_end(s: Seq<char>, i: int, p: spec_fn(char) -> bool)
    requires
        0 <= i <= s.len(),
    ensures
        i <= run_end(s, i, p) <= s.len(),
        forall|j: int| i <= j < run_end(s, i, p) ==> p(s[j]),
        run_end(s, i, p) < s.len() ==> !p(s[run_end(s, i, p)]),
    decreases s.len() - i,
{
    if i < s.len() && p(s[i]) {
        lemma_run_end(s, i + 1, p);
    }
}

pub open spec fn p_skippable() -> spec_fn(char) -> bool {
    |c: char| spec_is_skippable(c)
}

pub open spec fn p_number() -> spec_fn(char) -> bool {
    |c: char| spec_is_number(c)
}

pub open spec fn p_identifier() -> spec_fn(char) -> bool {
    |c: char| spec_is_identifier_char(c)
}

pub open spec fn p_not_newline() -> spec_fn(char) -> bool {
    |c: char| c != '\n'
}

/// The start of the run of trailing skippable characters in `s[base..end]`.
pub open spec fn trailing_ws_start(s: Seq<char>, base: int, end: int) -> int
    decreases end - base,
{
    if end <= base || !spec_is_skippable(s[end - 1]) {
        end
    } else {
        trailing_ws_start(s, base, end - 1)
    }
}

/// The position of the `*` of the first `*/` at or after `i`, or the length
/// of `s` if there is none.
pub open spec fn block_comment_end(s: Seq<char>, i: int) -> int
    decreases s.len() - i,
{
    if i < 0 || i >= s.len() {
        s.len() as int
    } else if s[i] == '*' && i + 1 < s.len() && s[i + 1] == '/' {
        i
    } else {
        block_comment_end(s, i + 1)
    }
}

pub proof fn lemma_block_comment_end(s: Seq<char>, i: int)
    requires
        0 <= i <= s.len(),
    ensures
        i <= block_comment_end(s, i) <= s.len(),
        block_comment_end(s, i) < s.len() ==> block_comment_end(s, i) + 1 < s.len(),
    decreases s.len() - i,
{
    if i < s.len() && !(s[i] == '*' && i + 1 < s.len() && s[i + 1] == '/') {
        lemma_block_comment_end(s, i + 1);
    }
}

/// The position of the unescaped quote `q` that closes a string literal whose
/// body starts at `p`, or the length of `s` if the literal is unterminated.
/// A backslash immediately before the quote escapes it.
pub open spec fn string_close(s: Seq<char>, q: char, p: int) -> int
    decreases s.len() - p,
{
    if p < 0 || p >= s.len() {
        s.len() as int
    } else if s[p] == q {
        p
    } else if s[p] == '\\' && p + 1 < s.len() && s[p + 1] == q {
        string_close(s, q, p + 2)
    } else {
        string_close(s, q, p + 1)
    }
}

pub proof fn lemma_string_close(s: Seq<char>, q: char, p: int)
    requires
        0 <= p <= s.len(),
    ensures
        p <= string_close(s, q, p) <= s.len(),
    decreases s.len() - p,
{
    if p < s.len() && s[p] != q {
        if s[p] == '\\' && p + 1 < s.len() && s[p + 1] == q {
            lemma_string_close(s, q, p + 2);
        } else {
            lemma_string_close(s, q, p + 1);
        }
    }
}

/// The message recorded for a string literal that never closes.
pub open spec fn unterminated_msg(line: nat) -> Seq<char> {
    "Unterminated string starting at line ["@ + spec_dec_digits(line) + "]."@
}

/// What one scanning step produces: at most one token or one error, and the
/// position at which the next step starts.
pub struct ScanStep {
    pub tok: Option<TokenModel>,
    pub err: Option<Seq<char>>,
    pub next: int,
}

/// One comment-or-division step: `s[i]` is `/`.
pub open spec fn scan_comment_step(s: Seq<char>, i: int) -> ScanStep {
    if i + 1 < s.len() && s[i + 1] == '/' {
        let e = run_end(s, i + 2, p_not_newline());
        let k = trailing_ws_start(s, i + 2, e);
        let body = s.subrange(i, k);
        if body == "//#RCFBEGINIGNORE"@ {
            ScanStep { tok: Some(TokenModel::IgnoreBegin), err: None, next: e }
        } else if body == "//#RCFENDIGNORE"@ {
            ScanStep { tok: Some(TokenModel::IgnoreEnd), err: None, next: e }
        } else if body == "//#RCFBEGINDEFORMAT"@ {
            ScanStep { tok: Some(TokenModel::DeformatBegin), err: None, next: e }
        } else if body == "//#RCFENDDEFORMAT"@ {
            ScanStep { tok: Some(TokenModel::DeformatEnd), err: None, next: e }
        } else {
            ScanStep { tok: Some(TokenModel::ShortComment(s.subrange(i, e))), err: None, next: e }
        }
    } else if i + 1 < s.len() && s[i + 1] == '*' {
        let b = block_comment_end(s, i + 2);
        let j = if b < s.len() { b + 2 } else { s.len() as int };
        ScanStep { tok: Some(TokenModel::LongComment(s.subrange(i, j))), err: None, next: j }
    } else {
        ScanStep { tok: Some(TokenModel::Symbol(seq!['/'])), err: None, next: i + 1 }
    }
}

/// One string-literal step: `s[i]` is the opening quote.
pub open spec fn scan_string_step(s: Seq<char>, i: int) -> ScanStep {
    let j = string_close(s, s[i], i + 1);
    if j < s.len() {
        ScanStep { tok: Some(TokenModel::Literal(s.subrange(i, j + 1))), err: None, next: j + 1 }
    } else {
        ScanStep {
            tok: None,
            err: Some(unterminated_msg(1 + spec_newlines_before(s, i))),
            next: s.len() as int,
        }
    }
}

/// One numeric-literal step: `s[i]` is a digit. Integer digits, optionally a
/// single dot followed by more digits.
pub open spec fn scan_number_step(s: Seq<char>, i: int) -> ScanStep {
    let d1 = run_end(s, i + 1, p_number());
    if d1 < s.len() && s[d1] == '.' {
        let d2 = run_end(s, d1 + 1, p_number());
        ScanStep { tok: Some(TokenModel::Literal(s.subrange(i, d2))), err: None, next: d2 }
    } else {
        ScanStep { tok: Some(TokenModel::Literal(s.subrange(i, d1))), err: None, next: d1 }
    }
}

/// Whether a word is one of the five reserved words that scan as literals.
pub open spec fn is_reserved_word(w: Seq<char>) -> bool {
    w == "true"@ || w == "false"@ || w == "noone"@ || w == "pi"@ || w == "null"@
}

/// One identifier step: `s[i]` is a letter.
pub open spec fn scan_identifier_step(s: Seq<char>, i: int) -> ScanStep {
    let e = run_end(s, i + 1, p_identifier());
    let w = s.subrange(i, e);
    if is_reserved_word(w) {
        ScanStep { tok: Some(TokenModel::Literal(w)), err: None, next: e }
    } else {
        ScanStep { tok: Some(TokenModel::Identifier(w)), err: None, next: e }
    }
}

/// One scanning step at position `i` (`0 <= i < s.len()`).
pub open spec fn scan_step(s: Seq<char>, i: int) -> ScanStep {
    let c = s[i];
    if c == '.' {
        ScanStep { tok: Some(TokenModel::Dot), err: None, next: i + 1 }
    } else if c == '\n' {
        ScanStep { tok: Some(TokenModel::NewLine), err: None, next: i + 1 }
    } else if c == ';' {
        ScanStep { tok: Some(TokenModel::Semicolon), err: None, next: i + 1 }
    } else if c == '(' || c == '{' || c == '[' {
        ScanStep { tok: Some(TokenModel::OpenBracket(seq![c])), err: None, next: i + 1 }
    } else if c == ')' || c == '}' || c == ']' {
        ScanStep { tok: Some(TokenModel::CloseBracket(seq![c])), err: None, next: i + 1 }
    } else if c == '=' {
        if i + 1 < s.len() && s[i + 1] == '=' {
            ScanStep { tok: Some(TokenModel::Symbol("=="@)), err: None, next: i + 2 }
        } else {
            ScanStep { tok: Some(TokenModel::Equal), err: None, next: i + 1 }
        }
    } else if spec_is_skippable(c) {
        let j = run_end(s, i + 1, p_skippable());
        ScanStep { tok: Some(TokenModel::Whitespace(s.subrange(i, j))), err: None, next: j }
    } else if c == '/' {
        scan_comment_step(s, i)
    } else if c == '"' || c == '\'' || c == '`' {
        scan_string_step(s, i)
    } else if spec_is_number(c) {
        scan_number_step(s, i)
    } else if spec_is_alpha(c) {
        scan_identifier_step(s, i)
    } else {
        ScanStep { tok: Some(TokenModel::Symbol(seq![c])), err: None, next: i + 1 }
    }
}

pub proof fn lemma_scan_step_bounds(s: Seq<char>, i: int)
    requires
        0 <= i < s.len(),
    ensures
        i < scan_step(s, i).next <= s.len(),
{
    let c = s[i];
    lemma_run_end(s, i + 1, p_skippable());
    lemma_run_end(s, i + 1, p_number());
    lemma_run_end(s, i + 1, p_identifier());
    if c == '/' {
        if i + 2 <= s.len() {
            lemma_run_end(s, i + 2, p_not_newline());
            lemma_block_comment_end(s, i + 2);
        }
    }
    if c == '"' || c == '\'' || c == '`' {
        lemma_string_close(s, c, i + 1);
    }
    if spec_is_number(c) {
        let d1 = run_end(s, i + 1, p_number());
        if d1 < s.len() && s[d1] == '.' {
            lemma_run_end(s, d1 + 1, p_number());
        }
    }
}

/// The next scanning position, bounded so that scanning always advances.
pub open spec fn step_next(s: Seq<char>, i: int) -> int {
    let n = scan_step(s, i).next;
    let n2 = if n > s.len() { s.len() as int } else { n };
    if n2 < i + 1 { i + 1 } else { n2 }
}

pub proof fn lemma_step_next(s: Seq<char>, i: int)
    requires
        0 <= i < s.len(),
    ensures
        step_next(s, i) == scan_step(s, i).next,
{
    lemma_scan_step_bounds(s, i);
}

/// All tokens scanned from position `i` onward.
pub open spec fn scan_toks(s: Seq<char>, i: int) -> Seq<TokenModel>
    decreases s.len() - i,
{
    if i < 0 || i >= s.len() {
        Seq::empty()
    } else {
        let st = scan_step(s, i);
        let rest = scan_toks(s, step_next(s, i));
        match st.tok {
            Some(t) => seq![t] + rest,
            None => rest,
        }
    }
}

/// All errors recorded from position `i` onward.
pub open spec fn scan_errs(s: Seq<char>, i: int) -> Seq<Seq<char>>
    decreases s.len() - i,
{
    if i < 0 || i >= s.len() {
        Seq::empty()
    } else {
        let st = scan_step(s, i);
        let rest = scan_errs(s, step_next(s, i));
        match st.err {
            Some(e) => seq![e] + rest,
            None => rest,
        }
    }
}

fn run_end_skippable(v: &Vec<char>, start: usize) -> (r: usize)
    requires
        start <= v@.len(),
    ensures
        r == run_end(v@, start as int, p_skippable()),
        start <= r <= v@.len(),
{
    let mut k = start;
    while k < v.len() && is_skippable(v[k])
        invariant
            start <= k <= v@.len(),
            run_end(v@, start as int, p_skippable()) == run_end(v@, k as int, p_skippable()),
        decreases v@.len() - k,
    {
        k = k + 1;
    }
    k
}

fn run_end_number(v: &Vec<char>, start: usize) -> (r: usize)
    requires
        start <= v@.len(),
    ensures
        r == run_end(v@, start as int, p_number()),
        start <= r <= v@.len(),
{
    let mut k = start;
    while k < v.len() && is_number(v[k])
        invariant
            start <= k <= v@.len(),
            run_end(v@, start as int, p_number()) == run_end(v@, k as int, p_number()),
        decreases v@.len() - k,
    {
        k = k + 1;
    }
    k
}

fn run_end_identifier(v: &Vec<char>, start: usize) -> (r: usize)
    requires
        start <= v@.len(),
    ensures
        r == run_end(v@, start as int, p_identifier()),
        start <= r <= v@.len(),
{
    let mut k = start;
    while k < v.len() && is_identifier_char(v[k])
        invariant
            start <= k <= v@.len(),
            run_end(v@, start as int, p_identifier()) == run_end(v@, k as int, p_identifier()),
        decreases v@.len() - k,
    {
        k = k + 1;
    }
    k
}

fn run_end_not_newline(v: &Vec<char>, start: usize) -> (r: usize)
    requires
        start <= v@.len(),
    ensures
        r == run_end(v@, start as int, p_not_newline()),
        start <= r <= v@.len(),
{
    let mut k = start;
    while k < v.len() && v[k] != '\n'
        invariant
            start <= k <= v@.len(),
            run_end(v@, start as int, p_not_newline()) == run_end(v@, k as int, p_not_newline()),
        decreases v@.len() - k,
    {
        k = k + 1;
    }
    k
}

fn find_trailing_ws_start(v: &Vec<char>, base: usize, end: usize) -> (r: usize)
    requires
        base <= end <= v@.len(),
    ensures
        r == trailing_ws_start(v@, base as int, end as int),
        base <= r <= end,
{
    let mut k = end;
    while k > base && is_skippable(v[k - 1])
        invariant
            base <= k <= end,
            trailing_ws_start(v@, base as int, end as int)
                == trailing_ws_start(v@, base as int, k as int),
        decreases k,
    {
        k = k - 1;
    }
    k
}

fn find_block_comment_end(v: &Vec<char>, start: usize) -> (r: usize)
    requires
        start <= v@.len(),
    ensures
        r == block_comment_end(v@, start as int),
        start <= r <= v@.len(),
        r < v@.len() ==> r + 1 < v@.len(),
{
    let n = v.len();
    let mut k = start;
    loop
        invariant
            start <= k <= n,
            n == v@.len(),
            block_comment_end(v@, start as int) == block_comment_end(v@, k as int),
        decreases n - k,
    {
        if k >= n {
            return n;
        }
        if v[k] == '*' && k + 1 < n && v[k + 1] == '/' {
            return k;
        }
        k = k + 1;
    }
}

fn find_string_close(v: &Vec<char>, q: char, start: usize) -> (r: usize)
    requires
        start <= v@.len(),
    ensures
        r == string_close(v@, q, start as int),
        start <= r <= v@.len(),
        r < v@.len() ==> v@[r as int] == q,
{
    let n = v.len();
    let mut p = start;
    loop
        invariant
            start <= p <= n,
            n == v@.len(),
            string_close(v@, q, start as int) == string_close(v@, q, p as int),
        decreases n - p,
    {
        if p >= n {
            return n;
        }
        if v[p] == q {
            return p;
        }
        if v[p] == '\\' && p + 1 < n && v[p + 1] == q {
            p = p + 2;
        } else {
            p = p + 1;
        }
    }
}

/// The scanner. Scanning is cached: a second call of `scan_tokens` returns
/// the stored result without rescanning.
pub struct RcfScanner {
    source: Vec<char>,
    tokens: Vec<Token>,
    error_strings: Vec<String>,
    inited: bool,
    valid: bool,
}

impl RcfScanner {
    /// The characters this scanner was built over.
    pub closed spec fn src(self) -> Seq<char> {
        self.source@
    }

    /// The cached results, when present, are exactly what the spec-level
    /// scanner produces.
    pub closed spec fn wf(self) -> bool {
        self.inited ==> {
            &&& self.tokens.deep_view() == scan_toks(self.source@, 0)
            &&& self.error_strings.deep_view() == scan_errs(self.source@, 0)
            &&& self.valid == (scan_errs(self.source@, 0).len() == 0)
        }
    }

    pub fn new(source: &str) -> (r: RcfScanner)
        ensures
            r.wf(),
            r.src() == source@,
    {
        RcfScanner {
            source: str_to_chars(source),
            tokens: Vec::new(),
            error_strings: Vec::new(),
            inited: false,
            valid: true,
        }
    }

    /// Scans the source into its token stream; all errors encountered are
    /// collected and returned together, and the result is `Err` exactly when
    /// at least one error occurred.
    pub fn scan_tokens(&mut self) -> (r: Result<Vec<Token>, Vec<String>>)
        requires
            old(self).wf(),
        ensures
            final(self).wf(),
            final(self).src() == old(self).src(),
            r is Ok <==> scan_errs(old(self).src(), 0).len() == 0,
            r is Ok ==> r->Ok_0.deep_view() == scan_toks(old(self).src(), 0),
            r is Err ==> r->Err_0.deep_view() == scan_errs(old(self).src(), 0),
    {
        if !self.inited {
            self.inited = true;
            let ghost s = self.source@;
            let mut tokens: Vec<Token> = Vec::new();
            let mut errors: Vec<String> = Vec::new();
            let mut current: usize = 0;
            let n = self.source.len();
            while current < n
                invariant
                    current <= n,
                    n == s.len(),
                    s == self.source@,
                    scan_toks(s, 0) == tokens.deep_view() + scan_toks(s, current as int),
                    scan_errs(s, 0) == errors.deep_view() + scan_errs(s, current as int),
                decreases n - current,
            {
                let ghost prev_toks = tokens.deep_view();
                let ghost prev_errs = errors.deep_view();
                let cur = current;
                let c = self.source[cur];
                let step_tok: Option<Token>;
                let step_err: Option<String>;
                let next: usize;

                if c == '.' {
                    step_tok = Some(Token::Dot);
                    step_err = None;
                    next = cur + 1;
                } else if c == '\n' {
                    step_tok = Some(Token::NewLine);
                    step_err = None;
                    next = cur + 1;
                } else if c == ';' {
                    step_tok = Some(Token::Semicolon);
                    step_err = None;
                    next = cur + 1;
                } else if c == '(' || c == '{' || c == '[' {
                    let text = chars_range_to_string(&self.source, cur, cur + 1);
                    assert(text@ =~= seq![c]);
                    step_tok = Some(Token::OpenBracket(text));
                    step_err = None;
                    next = cur + 1;
                } else if c == ')' || c == '}' || c == ']' {
                    let text = chars_range_to_string(&self.source, cur, cur + 1);
                    assert(text@ =~= seq![c]);
                    step_tok = Some(Token::CloseBracket(text));
                    step_err = None;
                    next = cur + 1;
                } else if c == '=' {
                    if cur + 1 < n && self.source[cur + 1] == '=' {
                        step_tok = Some(Token::Symbol("==".to_owned()));
                        step_err = None;
                        next = cur + 2;
                    } else {
                        step_tok = Some(Token::Equal);
                        step_err = None;
                        next = cur + 1;
                    }
                } else if is_skippable(c) {
                    let j = run_end_skippable(&self.source, cur + 1);
                    let text = chars_range_to_string(&self.source, cur, j);
                    step_tok = Some(Token::Whitespace(text));
                    step_err = None;
                    next = j;
                } else if c == '/' {
                    if cur + 1 < n && self.source[cur + 1] == '/' {
                        let e = run_end_not_newline(&self.source, cur + 2);
                        let k = find_trailing_ws_start(&self.source, cur + 2, e);
                        let body = chars_range_to_string(&self.source, cur, k);
                        if str_eq(body.as_str(), "//#RCFBEGINIGNORE") {
                            step_tok = Some(Token::IgnoreBegin);
                        } else if str_eq(body.as_str(), "//#RCFENDIGNORE") {
                            step_tok = Some(Token::IgnoreEnd);
                        } else if str_eq(body.as_str(), "//#RCFBEGINDEFORMAT") {
                            step_tok = Some(Token::DeformatBegin);
                        } else if str_eq(body.as_str(), "//#RCFENDDEFORMAT") {
                            step_tok = Some(Token::DeformatEnd);
                        } else {
                            let text = chars_range_to_string(&self.source, cur, e);
                            step_tok = Some(Token::ShortComment(text));
                        }
                        step_err = None;
                        next = e;
                    } else if cur + 1 < n && self.source[cur + 1] == '*' {
                        let b = find_block_comment_end(&self.source, cur + 2);
                        let j = if b < n { b + 2 } else { n };
                        let text = chars_range_to_string(&self.source, cur, j);
                        step_tok = Some(Token::LongComment(text));
                        step_err = None;
                        next = j;
                    } else {
                        step_tok = Some(Token::Symbol("/".to_owned()));
                        proof {
                            reveal_strlit("/");
                            assert("/"@ =~= seq!['/']);
                        }
                        step_err = None;
                        next = cur + 1;
                    }
                } else if c == '"' || c == '\'' || c == '`' {
                    let j = find_string_close(&self.source, c, cur + 1);
                    if j < n {
                        let text = chars_range_to_string(&self.source, cur, j + 1);
                        step_tok = Some(Token::Literal(text));
                        step_err = None;
                        next = j + 1;
                    } else {
                        let line = newlines_before(&self.source, cur) + 1;
                        let mut msg = "Unterminated string starting at line [".to_owned();
                        msg.append(dec_string(line as u64).as_str());
                        msg.append("].");
                        proof {
                            assert(msg@ == unterminated_msg(
                                (1 + spec_newlines_before(s, cur as int)) as nat));
                        }
                        step_tok = None;
                        step_err = Some(msg);
                        next = n;
                    }
                } else if is_number(c) {
                    let d1 = run_end_number(&self.source, cur + 1);
                    let next_num: usize;
                    if d1 < n && self.source[d1] == '.' {
                        let d2 = run_end_number(&self.source, d1 + 1);
                        next_num = d2;
                    } else {
                        next_num = d1;
                    }
                    let text = chars_range_to_string(&self.source, cur, next_num);
                    step_tok = Some(Token::Literal(text));
                    step_err = None;
                    next = next_num;
                } else if is_alpha(c) {
                    let e = run_end_identifier(&self.source, cur + 1);
                    let word = chars_range_to_string(&self.source, cur, e);
                    if str_eq(word.as_str(), "true") || str_eq(word.as_str(), "false")
                        || str_eq(word.as_str(), "noone") || str_eq(word.as_str(), "pi")
                        || str_eq(word.as_str(), "null") {
                        step_tok = Some(Token::Literal(word));
                    } else {
                        step_tok = Some(Token::Identifier(word));
                    }
                    step_err = None;
                    next = e;
                } else {
                    let text = chars_range_to_string(&self.source, cur, cur + 1);
                    assert(text@ =~= seq![c]);
                    step_tok = Some(Token::Symbol(text));
                    step_err = None;
                    next = cur + 1;
                }

                proof {
                    lemma_scan_step_bounds(s, cur as int);
                    lemma_step_next(s, cur as int);
                    let st = scan_step(s, cur as int);
                    assert(st.tok == (match step_tok {
                        Some(t) => Some(t@),
                        None => None::<TokenModel>,
                    }));
                    assert(st.err == (match step_err {
                        Some(e) => Some(e@),
                        None => None::<Seq<char>>,
                    }));
                    assert(st.next == next as int);
                }

                match step_tok {
                    Some(t) => {
                        tokens.push(t);
                        proof {
                            assert(tokens.deep_view() =~= prev_toks.push(
                                scan_step(s, cur as int).tok->Some_0));
                            assert(prev_toks + scan_toks(s, cur as int)
                                =~= tokens.deep_view() + scan_toks(s, next as int));
                        }
                    },
                    None => {
                        proof {
                            assert(prev_toks + scan_toks(s, cur as int)
                                =~= tokens.deep_view() + scan_toks(s, next as int));
                        }
                    },
                }
                match step_err {
                    Some(e) => {
                        errors.push(e);
                        proof {
                            assert(errors.deep_view() =~= prev_errs.push(
                                scan_step(s, cur as int).err->Some_0));
                            assert(prev_errs + scan_errs(s, cur as int)
                                =~= errors.deep_view() + scan_errs(s, next as int));
                        }
                    },
                    None => {
                        proof {
                            assert(prev_errs + scan_errs(s, cur as int)
                                =~= errors.deep_view() + scan_errs(s, next as int));
                        }
                    },
                }
                current = next;
            }
            proof {
                assert(tokens.deep_view() + scan_toks(s, n as int) =~= tokens.deep_view());
                assert(errors.deep_view() + scan_errs(s, n as int) =~= errors.deep_view());
            }
            self.valid = errors.len() == 0;
            self.tokens = tokens;
            self.error_strings = errors;
        }
        if self.valid {
            Ok(clone_tokens(&self.tokens))
        } else {
            Err(clone_strings(&self.error_strings))
        }
    }
}

proof fn lemma_step_text(s: Seq<char>, i: int)
    requires
        0 <= i < s.len(),
        scan_step(s, i).err is None,
        scan_step(s, i).tok is Some ==> !is_directive(scan_step(s, i).tok->Some_0),
    ensures
        scan_step(s, i).tok is Some,
        token_text(scan_step(s, i).tok->Some_0) == s.subrange(i, scan_step(s, i).next),
{
    let c = s[i];
    let st = scan_step(s, i);
    lemma_scan_step_bounds(s, i);
    if c == '.' {
        reveal_strlit(".");
        assert("."@ =~= s.subrange(i, i + 1));
    } else if c == '\n' {
        reveal_strlit("\n");
        assert("\n"@ =~= s.subrange(i, i + 1));
    } else if c == ';' {
        reveal_strlit(";");
        assert(";"@ =~= s.subrange(i, i + 1));
    } else if c == '(' || c == '{' || c == '[' {
        assert(seq![c] =~= s.subrange(i, i + 1));
    } else if c == ')' || c == '}' || c == ']' {
        assert(seq![c] =~= s.subrange(i, i + 1));
    } else if c == '=' {
        if i + 1 < s.len() && s[i + 1] == '=' {
            reveal_strlit("==");
            assert("=="@ =~= s.subrange(i, i + 2));
        } else {
            reveal_strlit("=");
            assert("="@ =~= s.subrange(i, i + 1));
        }
    } else if spec_is_skippable(c) {
    } else if c == '/' {
        if i + 1 < s.len() && s[i + 1] == '/' {
            let e = run_end(s, i + 2, p_not_newline());
            let k = trailing_ws_start(s, i + 2, e);
            let body = s.subrange(i, k);
            if body == "//#RCFBEGINIGNORE"@ || body == "//#RCFENDIGNORE"@
                || body == "//#RCFBEGINDEFORMAT"@ || body == "//#RCFENDDEFORMAT"@ {
                assert(is_directive(st.tok->Some_0));
            }
        } else if i + 1 < s.len() && s[i + 1] == '*' {
        } else {
            reveal_strlit("/");
            assert(seq!['/'] =~= s.subrange(i, i + 1));
        }
    } else if c == '"' || c == '\'' || c == '`' {
    } else if spec_is_number(c) {
    } else if spec_is_alpha(c) {
    } else {
        assert(seq![c] =~= s.subrange(i, i + 1));
    }
}

proof fn lemma_scan_text_from(s: Seq<char>, i: int)
    requires
        0 <= i <= s.len(),
        scan_errs(s, i).len() == 0,
        forall|k: int| 0 <= k < scan_toks(s, i).len() ==> !is_directive(#[trigger] scan_toks(s, i)[k]),
    ensures
        tokens_text(scan_toks(s, i)) == s.subrange(i, s.len() as int),
    decreases s.len() - i,
{
    if i >= s.len() {
        assert(s.subrange(i, s.len() as int) =~= Seq::<char>::empty());
    } else {
        lemma_scan_step_bounds(s, i);
        lemma_step_next(s, i);
        let st = scan_step(s, i);
        let next = st.next;
        if st.err is Some {
            assert(scan_errs(s, i).len() >= 1);
        }
        let t = st.tok->Some_0;
        let rest = scan_toks(s, next);
        assert(scan_toks(s, i)[0] == t);
        lemma_step_text(s, i);
        assert(forall|k: int| 0 <= k < rest.len()
            ==> #[trigger] rest[k] == scan_toks(s, i)[k + 1]);
        lemma_scan_text_from(s, next);
        lemma_tokens_text_cons(t, rest);
        assert(tokens_text(scan_toks(s, i))
            == s.subrange(i, next) + s.subrange(next, s.len() as int));
        assert(s.subrange(i, next) + s.subrange(next, s.len() as int)
            =~= s.subrange(i, s.len() as int));
    }
}

/// Round-trip law: when scanning reports no error and produces no directive
/// token (that is, the source contains no directive comments), concatenating
/// the textual form of every scanned token reproduces the source exactly.
pub proof fn lemma_scan_round_trip(s: Seq<char>)
    requires
        scan_errs(s, 0).len() == 0,
        forall|k: int| 0 <= k < scan_toks(s, 0).len() ==> !is_directive(#[trigger] scan_toks(s, 0)[k]),
    ensures
        tokens_text(scan_toks(s, 0)) == s,
{
    lemma_scan_text_from(s, 0);
    assert(s.subrange(0, s.len() as int) =~= s);
}

/// An element-wise copy of a token vector.
fn clone_tokens(v: &Vec<Token>) -> (r: Vec<Token>)
    ensures
        r@ == v@,
{
    let r = v.clone();
    assert(r@ =~= v@);
    r
}

/// An element-wise copy of a string vector.
fn clone_strings(v: &Vec<String>) -> (r: Vec<String>)
    ensures
        r.deep_view() == v.deep_view(),
{
    let r = v.clone();
    assert(r.deep_view() =~= v.deep_view());
    r
}

} // verus!
