//! The compressor: a character-window pass that removes whitespace runs and
//! redundant newlines while leaving string literals and comment bodies
//! untouched.

use vstd::prelude::*;
use crate::text::{
    spec_is_skippable, spec_is_identifier_char,
    is_skippable, is_identifier_char,
    str_to_chars, chars_to_string,
};

verus! {

/// Where in the text the window currently stands.
pub enum CompressMode {
    Plain,
    Quoted(char),
    LineComment,
    BlockComment,
}

/// The compressor's state after some prefix of the input.
pub struct CompressState {
    /// Whether a first non-whitespace character has been emitted yet.
    pub started: bool,
    pub out: Seq<char>,
    /// The character last emitted.
    pub prev: char,
    pub mode: CompressMode,
    /// One-shot flag: the character just emitted is the `/` that closed a
    /// block comment, so a following `/` does not open a line comment.
    pub block_exited: bool,
}

pub open spec fn compress_init() -> CompressState {
    CompressState {
        started: false,
        out: Seq::empty(),
        prev: ' ',
        mode: CompressMode::Plain,
        block_exited: false,
    }
}

pub open spec fn compress_emit(st: CompressState, cur: char) -> CompressState {
    CompressState { out: st.out.push(cur), prev: cur, ..st }
}

/// One step of the compressor over one character, with one character of
/// lookahead.
pub open spec fn compress_step(st: CompressState, cur: char, next: Option<char>) -> CompressState {
    if !st.started {
        if spec_is_skippable(cur) || cur == '\n' {
            st
        } else {
            CompressState { started: true, ..compress_emit(st, cur) }
        }
    } else {
        match st.mode {
            CompressMode::Plain => {
                let stepped = if cur == '\r' {
                    st
                } else if cur == ' ' || cur == '\t' {
                    if next is Some && spec_is_identifier_char(st.prev)
                        && spec_is_identifier_char(next->Some_0) {
                        compress_emit(st, cur)
                    } else {
                        st
                    }
                } else if cur == '\n' {
                    if st.prev != ';' && st.prev != '\n' && st.prev != '{' && st.prev != '}'
                        && st.prev != ',' && next is Some
                        && spec_is_identifier_char(next->Some_0) {
                        compress_emit(st, cur)
                    } else {
                        st
                    }
                } else if cur == '"' || cur == '\'' || cur == '`' {
                    CompressState { mode: CompressMode::Quoted(cur), ..compress_emit(st, cur) }
                } else if cur == '/' {
                    if st.prev == '/' && !st.block_exited {
                        CompressState { mode: CompressMode::LineComment, ..compress_emit(st, cur) }
                    } else {
                        compress_emit(st, cur)
                    }
                } else if cur == '*' {
                    if st.prev == '/' {
                        CompressState { mode: CompressMode::BlockComment, ..compress_emit(st, cur) }
                    } else {
                        compress_emit(st, cur)
                    }
                } else {
                    compress_emit(st, cur)
                };
                CompressState { block_exited: false, ..stepped }
            },
            CompressMode::Quoted(q) => {
                let closed = cur == q && st.prev != '\\';
                if closed {
                    CompressState { mode: CompressMode::Plain, ..compress_emit(st, cur) }
                } else {
                    compress_emit(st, cur)
                }
            },
            CompressMode::LineComment => {
                if cur == '\n' {
                    CompressState { mode: CompressMode::Plain, ..compress_emit(st, cur) }
                } else {
                    compress_emit(st, cur)
                }
            },
            CompressMode::BlockComment => {
                if cur == '/' && st.prev == '*' {
                    CompressState {
                        mode: CompressMode::Plain,
                        block_exited: true,
                        ..compress_emit(st, cur)
                    }
                } else {
                    compress_emit(st, cur)
                }
            },
        }
    }
}

/// The compressor's state after the characters of `s` from position `i` on,
/// starting from state `st`.
pub open spec fn compress_fold(s: Seq<char>, i: int, st: CompressState) -> CompressState
    decreases s.len() - i,
{
    if i < 0 || i >= s.len() {
        st
    } else {
        let next = if i + 1 < s.len() { Some(s[i + 1]) } else { None };
        compress_fold(s, i + 1, compress_step(st, s[i], next))
    }
}

/// The compressed form of a character sequence.
pub open spec fn spec_compress(s: Seq<char>) -> Seq<char> {
    compress_fold(s, 0, compress_init()).out
}

/// The compressor's state after the first `t` characters of `s`.
pub open spec fn cprefix(s: Seq<char>, t: int) -> CompressState
    decreases t,
{
    if t <= 0 {
        compress_init()
    } else {
        let next = if t < s.len() { Some(s[t]) } else { None };
        compress_step(cprefix(s, t - 1), s[t - 1], next)
    }
}

proof fn lemma_fold_is_cprefix(s: Seq<char>, t: int)
    requires
        0 <= t <= s.len(),
    ensures
        compress_fold(s, t, cprefix(s, t)) == cprefix(s, s.len() as int),
    decreases s.len() - t,
{
    if t < s.len() {
        lemma_fold_is_cprefix(s, t + 1);
    }
}

/// The whole pass, expressed over prefixes.
pub proof fn lemma_compress_by_prefixes(s: Seq<char>)
    ensures
        spec_compress(s) == cprefix(s, s.len() as int).out,
{
    lemma_fold_is_cprefix(s, 0);
}

/// The compressor's state, extended with bookkeeping for the second pass:
/// whether the character last emitted is the `/` that closed a block comment
/// (`emit_exited`), and whether the pass has opened a line comment that only
/// exists because dropped characters separated a block-comment close from a
/// following `/` (`hazard`) — the one situation a second pass reads
/// differently.
pub struct TraceState {
    pub cs: CompressState,
    pub emit_exited: bool,
    pub hazard: bool,
}

pub open spec fn trace_step(st: TraceState, cur: char, next: Option<char>) -> TraceState {
    let cs2 = compress_step(st.cs, cur, next);
    let exited = st.cs.started && st.cs.mode is BlockComment && cur == '/' && st.cs.prev == '*';
    let emitted = cs2.out.len() > st.cs.out.len();
    let emit2 = if exited {
        true
    } else if emitted {
        false
    } else {
        st.emit_exited
    };
    let hazard_now = st.cs.started && st.cs.mode is Plain && cur == '/' && st.cs.prev == '/'
        && !st.cs.block_exited && st.emit_exited;
    TraceState { cs: cs2, emit_exited: emit2, hazard: st.hazard || hazard_now }
}

pub open spec fn trace_prefix(s: Seq<char>, t: int) -> TraceState
    decreases t,
{
    if t <= 0 {
        TraceState { cs: compress_init(), emit_exited: false, hazard: false }
    } else {
        let next = if t < s.len() { Some(s[t]) } else { None };
        trace_step(trace_prefix(s, t - 1), s[t - 1], next)
    }
}

/// Whether a text stays clear of the one reading the second pass changes: a
/// block comment's closing `/`, dropped whitespace, then another `/`.
pub open spec fn compress_hazard_free(s: Seq<char>) -> bool {
    !trace_prefix(s, s.len() as int).hazard
}

proof fn lemma_trace_cs(s: Seq<char>, t: int)
    requires
        0 <= t,
    ensures
        trace_prefix(s, t).cs == cprefix(s, t),
    decreases t,
{
    if t > 0 {
        lemma_trace_cs(s, t - 1);
    }
}

proof fn lemma_hazard_monotone(s: Seq<char>, t1: int, t2: int)
    requires
        0 <= t1 <= t2,
        trace_prefix(s, t1).hazard,
    ensures
        trace_prefix(s, t2).hazard,
    decreases t2 - t1,
{
    if t1 < t2 {
        lemma_hazard_monotone(s, t1 + 1, t2);
    }
}

/// One step grows the output by at most the current character.
proof fn lemma_step_out(st: CompressState, cur: char, next: Option<char>)
    ensures
        compress_step(st, cur, next).out == st.out
            || compress_step(st, cur, next).out == st.out.push(cur),
{
}

proof fn lemma_out_monotone(s: Seq<char>, t1: int, t2: int)
    requires
        0 <= t1 <= t2,
    ensures
        cprefix(s, t2).out.len() >= cprefix(s, t1).out.len(),
        cprefix(s, t2).out.subrange(0, cprefix(s, t1).out.len() as int) == cprefix(s, t1).out,
    decreases t2 - t1,
{
    if t1 < t2 {
        lemma_out_monotone(s, t1, t2 - 1);
        let next = if t2 < s.len() { Some(s[t2]) } else { None };
        lemma_step_out(cprefix(s, t2 - 1), s[t2 - 1], next);
        let o1 = cprefix(s, t1).out;
        let o2 = cprefix(s, t2 - 1).out;
        let o3 = cprefix(s, t2).out;
        assert(o3.subrange(0, o1.len() as int) =~= o2.subrange(0, o1.len() as int));
    }
}

/// The simulation behind idempotence: re-running the compressor over the
/// first `j` characters of its own output tracks the state the first pass
/// had when it emitted them, with the second pass's one-shot flag standing
/// where the first pass's `emit_exited` stood.
#[verifier::rlimit(100)]
proof fn lemma_second_pass_tracks(s: Seq<char>, t: int)
    requires
        0 <= t <= s.len(),
        compress_hazard_free(s),
    ensures
        ({
            let y = cprefix(s, s.len() as int).out;
            let st1 = trace_prefix(s, t);
            let j = st1.cs.out.len() as int;
            let p2 = cprefix(y, j);
            &&& j <= y.len()
            &&& st1.cs.out == y.subrange(0, j)
            &&& p2.started == st1.cs.started
            &&& p2.out == st1.cs.out
            &&& p2.prev == st1.cs.prev
            &&& p2.mode == st1.cs.mode
            &&& p2.block_exited == st1.emit_exited
            &&& (st1.cs.block_exited ==> st1.emit_exited)
            &&& (!(st1.cs.mode is Plain) ==> !st1.emit_exited)
            &&& (!st1.cs.started ==> !st1.cs.block_exited && !st1.emit_exited)
            &&& !st1.hazard
        }),
    decreases t,
{
    let y = cprefix(s, s.len() as int).out;
    if t == 0 {
        lemma_out_monotone(s, 0, s.len() as int);
        assert(y.subrange(0, 0) =~= Seq::<char>::empty());
    } else {
        lemma_second_pass_tracks(s, t - 1);
        let stm = trace_prefix(s, t - 1);
        let st1 = trace_prefix(s, t);
        let c = s[t - 1];
        let nxt: Option<char> = if t < s.len() { Some(s[t]) } else { None };
        let j0 = stm.cs.out.len() as int;
        let j1 = st1.cs.out.len() as int;
        lemma_trace_cs(s, t);
        lemma_trace_cs(s, t - 1);
        lemma_out_monotone(s, t, s.len() as int);
        lemma_step_out(stm.cs, c, nxt);
        if st1.hazard {
            lemma_hazard_monotone(s, t, s.len() as int);
            assert(false);
        }
        if j1 == j0 + 1 {
            // the step emitted c, which stands at y[j0]
            assert(st1.cs.out == stm.cs.out.push(c));
            assert(st1.cs.out == y.subrange(0, j1));
            assert(y[j0] == st1.cs.out[j0]);
            assert(y[j0] == c);
            let peek2: Option<char> = if j0 + 1 < y.len() { Some(y[j0 + 1]) } else { None };
            assert(cprefix(y, j1) == compress_step(cprefix(y, j0), y[j0], peek2));
            if stm.cs.started && stm.cs.mode is Plain && (c == ' ' || c == '\t' || c == '\n') {
                // a kept space or newline: the first pass peeked at an
                // identifier character, which the next step emits right after
                assert(nxt is Some && spec_is_identifier_char(s[t]));
                let st2 = trace_prefix(s, t + 1);
                lemma_trace_cs(s, t + 1);
                let nxt2: Option<char> = if t + 1 < s.len() { Some(s[t + 1]) } else { None };
                assert(cprefix(s, t + 1) == compress_step(cprefix(s, t), s[t], nxt2));
                assert(st2.cs.out == st1.cs.out.push(s[t]));
                lemma_out_monotone(s, t + 1, s.len() as int);
                assert(st2.cs.out == y.subrange(0, j1 + 1));
                assert(y[j0 + 1] == st2.cs.out[j0 + 1]);
                assert(y[j0 + 1] == s[t]);
                assert(peek2 == Some(s[t]));
            }
        } else {
            // the step dropped c; the second pass has nothing new to read
            assert(j1 == j0);
            assert(st1.cs.out == stm.cs.out);
        }
    }
}

/// Idempotence law: on hazard-free text, compressing a second time changes
/// nothing. (The hazard is a block comment's closing `/` separated from a
/// following `/` only by dropped whitespace: there the first pass opens a
/// line comment that its own output no longer shows.)
pub proof fn lemma_compress_idempotent(s: Seq<char>)
    requires
        compress_hazard_free(s),
    ensures
        spec_compress(spec_compress(s)) == spec_compress(s),
{
    lemma_compress_by_prefixes(s);
    let y = cprefix(s, s.len() as int).out;
    lemma_second_pass_tracks(s, s.len() as int);
    lemma_trace_cs(s, s.len() as int);
    let j = y.len() as int;
    assert(y.subrange(0, j) =~= y);
    assert(cprefix(y, j).out == y);
    lemma_compress_by_prefixes(y);
}

proof fn lemma_no_star_no_block(s: Seq<char>, t: int)
    requires
        0 <= t <= s.len(),
        forall|i: int| 0 <= i < s.len() ==> s[i] != '*',
    ensures
        !trace_prefix(s, t).hazard,
        !trace_prefix(s, t).emit_exited,
        !(trace_prefix(s, t).cs.mode is BlockComment),
    decreases t,
{
    if t > 0 {
        lemma_no_star_no_block(s, t - 1);
        assert(s[t - 1] != '*');
    }
}

/// Every text without a `*` (so in particular without block comments) is
/// hazard-free, so compressing it is idempotent.
pub proof fn lemma_no_star_hazard_free(s: Seq<char>)
    requires
        forall|i: int| 0 <= i < s.len() ==> s[i] != '*',
    ensures
        compress_hazard_free(s),
{
    lemma_no_star_no_block(s, s.len() as int);
}

/// Removes whitespace characters based on the characters on either side:
/// space and tab runs survive only between identifier characters, and a
/// newline survives only when the previously kept character is none of
/// `;`, newline, `{`, `}`, `,` and the following character is an identifier
/// character. String literals and comment bodies pass through untouched.
pub fn compress_whitespace(s: &str) -> (r: String)
    ensures
        r@ == spec_compress(s@),
{
    let v = str_to_chars(s);
    let n = v.len();
    let mut out: Vec<char> = Vec::new();
    let mut prev: char = ' ';
    let mut started = false;
    let mut block_exited = false;
    let mut mode = CompressMode::Plain;

    let mut i: usize = 0;
    while i < n
        invariant
            i <= n,
            n == v@.len(),
            v@ == s@,
            compress_fold(s@, 0, compress_init()) == compress_fold(
                s@,
                i as int,
                (CompressState { started, out: out@, prev, mode, block_exited }),
            ),
        decreases n - i,
    {
        let ghost pre = CompressState { started, out: out@, prev, mode, block_exited };
        let cur = v[i];
        let ghost next_g = if i + 1 < n { Some(v@[i + 1]) } else { None::<char> };

        if !started {
            if !(is_skippable(cur) || cur == '\n') {
                out.push(cur);
                prev = cur;
                started = true;
            }
        } else {
            match mode {
                CompressMode::Plain => {
                    if cur == '\r' {
                        // always dropped outside strings and comments
                    } else if cur == ' ' || cur == '\t' {
                        if i + 1 < n && is_identifier_char(prev) && is_identifier_char(v[i + 1]) {
                            out.push(cur);
                            prev = cur;
                        }
                    } else if cur == '\n' {
                        if prev != ';' && prev != '\n' && prev != '{' && prev != '}' && prev != ','
                            && i + 1 < n && is_identifier_char(v[i + 1]) {
                            out.push(cur);
                            prev = cur;
                        }
                    } else if cur == '"' || cur == '\'' || cur == '`' {
                        mode = CompressMode::Quoted(cur);
                        out.push(cur);
                        prev = cur;
                    } else if cur == '/' {
                        if prev == '/' && !block_exited {
                            mode = CompressMode::LineComment;
                        }
                        out.push(cur);
                        prev = cur;
                    } else if cur == '*' {
                        if prev == '/' {
                            mode = CompressMode::BlockComment;
                        }
                        out.push(cur);
                        prev = cur;
                    } else {
                        out.push(cur);
                        prev = cur;
                    }
                    block_exited = false;
                },
                CompressMode::Quoted(q) => {
                    if cur == q && prev != '\\' {
                        mode = CompressMode::Plain;
                    }
                    out.push(cur);
                    prev = cur;
                },
                CompressMode::LineComment => {
                    if cur == '\n' {
                        mode = CompressMode::Plain;
                    }
                    out.push(cur);
                    prev = cur;
                },
                CompressMode::BlockComment => {
                    if cur == '/' && prev == '*' {
                        mode = CompressMode::Plain;
                        block_exited = true;
                    }
                    out.push(cur);
                    prev = cur;
                },
            }
        }
        proof {
            let post = CompressState { started, out: out@, prev, mode, block_exited };
            assert(post == compress_step(pre, s@[i as int], next_g));
        }
        i = i + 1;
    }
    chars_to_string(&out)
}

} // verus!
