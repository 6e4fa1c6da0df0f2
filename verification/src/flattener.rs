//! The flattener: rewrites a script's token stream by substituting constant
//! references, eliding the reserved dispatch call, and applying the
//! whitespace/comment stripping policy.

use vstd::prelude::*;
use crate::token::{Token, TokenModel};
use crate::reader::ConstantsMap;
use crate::compressor::{spec_compress, compress_whitespace};
use crate::text::{spec_dec_digits, dec_string, str_eq};
use vstd::string::StringExecFns;

verus! {

/// The flattener's state after some prefix of the token stream.
pub struct FlatState {
    pub output: Seq<char>,
    /// The pending identifier chain, not yet committed to the output because
    /// it might be a dotted member reference or the reserved dispatch call.
    pub stack: Seq<char>,
    pub needs_space: bool,
    /// Inside a deformat region, stripping is suspended.
    pub deformat: bool,
    /// Inside an ignore region, tokens are dropped.
    pub ignoring: bool,
    /// The last emitted structure already implies a line break, so further
    /// newlines/semicolons may be collapsed.
    pub escape_handled: bool,
    /// The pending chain is a full `user_event(<id>)` prefix awaiting `)`.
    pub closing_dispatch: bool,
    /// The dispatch call was just elided; the next semicolon is dropped too.
    pub eating_semicolon: bool,
    /// No meaningful token has been seen outside ignore regions.
    pub is_empty: bool,
    /// An unmatched end-ignore marker was reached; the state is frozen.
    pub failed: bool,
}

/// The state a single rewrite pass starts from: the residue a previous pass
/// may have left (pending chain, pending-space flag, open deformat region)
/// with a fresh output.
pub open spec fn flat_init(stack: Seq<char>, needs_space: bool, deformat: bool) -> FlatState {
    FlatState {
        output: Seq::empty(),
        stack: stack,
        needs_space: needs_space,
        deformat: deformat,
        ignoring: false,
        escape_handled: false,
        closing_dispatch: false,
        eating_semicolon: false,
        is_empty: true,
        failed: false,
    }
}

pub open spec fn flat_skips_ws(st: FlatState, skip_w: bool) -> bool {
    skip_w && !st.deformat
}

pub open spec fn flat_skips_comments(st: FlatState, skip_c: bool) -> bool {
    skip_c && !st.deformat
}

/// Commits the pending chain to the output, with a separating space where one
/// is owed and whitespace stripping is active.
pub open spec fn flat_flush(st: FlatState, skip_w: bool) -> FlatState {
    if st.stack.len() > 0 {
        let sep: Seq<char> = if st.needs_space && flat_skips_ws(st, skip_w) {
            " "@
        } else {
            Seq::empty()
        };
        FlatState {
            output: st.output + sep + st.stack,
            stack: Seq::empty(),
            needs_space: true,
            ..st
        }
    } else {
        st
    }
}

/// One step of the flattener over one token.
#[verifier::opaque]
pub open spec fn flat_step(
    st: FlatState,
    t: TokenModel,
    map: Map<Seq<char>, Seq<char>>,
    ue: Seq<char>,
    skip_w: bool,
    skip_c: bool,
) -> FlatState {
    if st.failed {
        st
    } else if st.ignoring {
        match t {
            TokenModel::IgnoreEnd => FlatState { ignoring: false, ..st },
            _ => st,
        }
    } else {
        match t {
            TokenModel::IgnoreBegin => {
                let f = flat_flush(st, skip_w);
                FlatState { ignoring: true, closing_dispatch: false, eating_semicolon: false, ..f }
            },
            TokenModel::IgnoreEnd => FlatState { failed: true, ..st },
            TokenModel::DeformatBegin => {
                let f = flat_flush(st, skip_w);
                FlatState { deformat: true, closing_dispatch: false, eating_semicolon: false, ..f }
            },
            TokenModel::DeformatEnd => {
                let f = flat_flush(st, skip_w);
                FlatState { deformat: false, closing_dispatch: false, eating_semicolon: false, ..f }
            },
            TokenModel::NewLine => {
                let f = flat_flush(st, skip_w);
                let f2 = if !flat_skips_ws(f, skip_w) {
                    FlatState { output: f.output + "\n"@, needs_space: false, ..f }
                } else if !f.escape_handled {
                    FlatState {
                        output: f.output + "\n"@,
                        escape_handled: true,
                        needs_space: false,
                        ..f
                    }
                } else {
                    f
                };
                FlatState { closing_dispatch: false, eating_semicolon: false, ..f2 }
            },
            TokenModel::Semicolon => {
                let f0 = flat_flush(st, skip_w);
                let f = FlatState { needs_space: false, ..f0 };
                let f2 = if !f.eating_semicolon && (!flat_skips_ws(f, skip_w) || !f.escape_handled) {
                    FlatState { output: f.output + ";"@, ..f }
                } else {
                    f
                };
                FlatState {
                    escape_handled: true,
                    closing_dispatch: false,
                    eating_semicolon: false,
                    ..f2
                }
            },
            TokenModel::Whitespace(s) => {
                let f = flat_flush(st, skip_w);
                let f2 = if !flat_skips_ws(f, skip_w) {
                    FlatState { output: f.output + s, ..f }
                } else if f.needs_space {
                    FlatState { output: f.output + " "@, needs_space: false, ..f }
                } else {
                    f
                };
                FlatState { closing_dispatch: false, ..f2 }
            },
            TokenModel::LongComment(s) => {
                let f0 = flat_flush(st, skip_w);
                let f = FlatState { needs_space: flat_skips_comments(f0, skip_c), ..f0 };
                let f2 = if !flat_skips_comments(f, skip_c) {
                    FlatState { output: f.output + s, escape_handled: false, is_empty: false, ..f }
                } else {
                    f
                };
                FlatState { closing_dispatch: false, ..f2 }
            },
            TokenModel::ShortComment(s) => {
                let f0 = flat_flush(st, skip_w);
                let f = FlatState { needs_space: flat_skips_comments(f0, skip_c), ..f0 };
                let f2 = if !flat_skips_comments(f, skip_c) {
                    FlatState { output: f.output + s, escape_handled: false, is_empty: false, ..f }
                } else {
                    f
                };
                FlatState { closing_dispatch: false, ..f2 }
            },
            TokenModel::Identifier(s) => {
                let f = if map.contains_key(s) {
                    let sep: Seq<char> = if st.needs_space && flat_skips_ws(st, skip_w) {
                        " "@
                    } else {
                        Seq::empty()
                    };
                    FlatState {
                        output: st.output + sep + map[s],
                        stack: Seq::empty(),
                        needs_space: true,
                        ..st
                    }
                } else {
                    FlatState { stack: st.stack + s, ..st }
                };
                FlatState {
                    escape_handled: false,
                    closing_dispatch: false,
                    eating_semicolon: false,
                    is_empty: false,
                    ..f
                }
            },
            TokenModel::Dot => {
                let f = if st.stack.len() > 0 {
                    FlatState { stack: st.stack + "."@, ..st }
                } else {
                    FlatState { output: st.output + "."@, needs_space: false, ..st }
                };
                FlatState {
                    escape_handled: false,
                    closing_dispatch: false,
                    eating_semicolon: false,
                    is_empty: false,
                    ..f
                }
            },
            TokenModel::Literal(s) => {
                let f = if st.stack == "user_event("@ && s == ue {
                    FlatState { stack: st.stack + s, closing_dispatch: true, ..st }
                } else {
                    let f0 = flat_flush(st, skip_w);
                    let sep: Seq<char> = if f0.needs_space && flat_skips_ws(f0, skip_w) {
                        " "@
                    } else {
                        Seq::empty()
                    };
                    FlatState { output: f0.output + sep + s, closing_dispatch: false, ..f0 }
                };
                FlatState { needs_space: true, escape_handled: false, eating_semicolon: false, is_empty: false, ..f }
            },
            TokenModel::Symbol(s) => {
                let f = flat_flush(st, skip_w);
                FlatState {
                    output: f.output + s,
                    escape_handled: s == ","@,
                    needs_space: false,
                    closing_dispatch: false,
                    eating_semicolon: false,
                    is_empty: false,
                    ..f
                }
            },
            TokenModel::OpenBracket(s) => {
                let f = if st.stack == "user_event"@ && s == "("@ {
                    FlatState { stack: st.stack + s, ..st }
                } else {
                    let f0 = flat_flush(st, skip_w);
                    FlatState { output: f0.output + s, ..f0 }
                };
                FlatState {
                    escape_handled: true,
                    needs_space: false,
                    closing_dispatch: false,
                    eating_semicolon: false,
                    ..f
                }
            },
            TokenModel::CloseBracket(s) => {
                let f = if st.closing_dispatch && s == ")"@ {
                    FlatState { stack: Seq::empty(), eating_semicolon: true, ..st }
                } else {
                    let f0 = flat_flush(st, skip_w);
                    FlatState { output: f0.output + s, eating_semicolon: false, ..f0 }
                };
                FlatState {
                    escape_handled: s == "}"@,
                    needs_space: false,
                    closing_dispatch: false,
                    ..f
                }
            },
            TokenModel::Equal => {
                let f = flat_flush(st, skip_w);
                FlatState {
                    output: f.output + "="@,
                    escape_handled: false,
                    needs_space: false,
                    closing_dispatch: false,
                    eating_semicolon: false,
                    is_empty: false,
                    ..f
                }
            },
        }
    }
}

/// The flattener's state after all tokens.
pub open spec fn flat_fold(
    ts: Seq<TokenModel>,
    map: Map<Seq<char>, Seq<char>>,
    ue: Seq<char>,
    skip_w: bool,
    skip_c: bool,
    init: FlatState,
) -> FlatState
    decreases ts.len(),
{
    if ts.len() == 0 {
        init
    } else {
        flat_step(flat_fold(ts.drop_last(), map, ue, skip_w, skip_c, init), ts.last(), map, ue, skip_w, skip_c)
    }
}

/// The text a successful pass returns: empty when no meaningful token was
/// seen; compressed when whitespace stripping was requested. The final
/// compressor pass runs over the whole assembled output, deformat spans
/// included, so under whitespace stripping a deformat region's protection is
/// token-level only: its whitespace tokens survive the pass itself but are
/// then minimized like everything else.
pub open spec fn flat_result_output(fst: FlatState, skip_w: bool) -> Seq<char> {
    if fst.is_empty {
        Seq::empty()
    } else if skip_w {
        spec_compress(fst.output + fst.stack)
    } else {
        fst.output + fst.stack
    }
}

proof fn lemma_flat_failed_sticky(
    ts: Seq<TokenModel>,
    map: Map<Seq<char>, Seq<char>>,
    ue: Seq<char>,
    skip_w: bool,
    skip_c: bool,
    init: FlatState,
    i: int,
)
    requires
        0 <= i <= ts.len(),
        flat_fold(ts.subrange(0, i), map, ue, skip_w, skip_c, init).failed,
    ensures
        flat_fold(ts, map, ue, skip_w, skip_c, init)
            == flat_fold(ts.subrange(0, i), map, ue, skip_w, skip_c, init),
    decreases ts.len() - i,
{
    reveal(flat_step);
    if i == ts.len() {
        assert(ts.subrange(0, i) =~= ts);
    } else {
        assert(ts.subrange(0, i + 1).drop_last() =~= ts.subrange(0, i));
        assert(ts.subrange(0, i + 1).last() == ts[i]);
        lemma_flat_failed_sticky(ts, map, ue, skip_w, skip_c, init, i + 1);
    }
}

pub proof fn lemma_flat_fold_append(
    x: Seq<TokenModel>,
    y: Seq<TokenModel>,
    map: Map<Seq<char>, Seq<char>>,
    ue: Seq<char>,
    skip_w: bool,
    skip_c: bool,
    init: FlatState,
)
    ensures
        flat_fold(x + y, map, ue, skip_w, skip_c, init)
            == flat_fold(y, map, ue, skip_w, skip_c, flat_fold(x, map, ue, skip_w, skip_c, init)),
    decreases y.len(),
{
    if y.len() == 0 {
        assert(x + y =~= x);
    } else {
        assert((x + y).drop_last() =~= x + y.drop_last());
        assert((x + y).last() == y.last());
        lemma_flat_fold_append(x, y.drop_last(), map, ue, skip_w, skip_c, init);
    }
}

/// Inside an ignore region (or once the pass has failed), tokens other than
/// the end-ignore marker leave the state untouched.
pub proof fn lemma_flat_fold_ignoring(
    m: Seq<TokenModel>,
    map: Map<Seq<char>, Seq<char>>,
    ue: Seq<char>,
    skip_w: bool,
    skip_c: bool,
    st: FlatState,
)
    requires
        st.failed || st.ignoring,
        forall|k: int| 0 <= k < m.len() ==> !(#[trigger] m[k] is IgnoreEnd),
    ensures
        flat_fold(m, map, ue, skip_w, skip_c, st) == st,
    decreases m.len(),
{
    reveal(flat_step);
    if m.len() > 0 {
        assert(forall|k: int| 0 <= k < m.len() - 1 ==> m.drop_last()[k] == #[trigger] m[k]);
        lemma_flat_fold_ignoring(m.drop_last(), map, ue, skip_w, skip_c, st);
        assert(!(m[m.len() - 1] is IgnoreEnd));
    }
}

/// Ignore-region law: the tokens between an ignore-begin marker and its
/// matching ignore-end marker never contribute to the flattened output,
/// whatever the strip flags say — the pass ends in exactly the state it would
/// reach were the region empty.
pub proof fn lemma_ignore_region_dropped(
    a: Seq<TokenModel>,
    m: Seq<TokenModel>,
    b: Seq<TokenModel>,
    map: Map<Seq<char>, Seq<char>>,
    ue: Seq<char>,
    skip_w: bool,
    skip_c: bool,
    init: FlatState,
)
    requires
        forall|k: int| 0 <= k < m.len() ==> !(#[trigger] m[k] is IgnoreEnd),
    ensures
        flat_fold(
            a + seq![TokenModel::IgnoreBegin] + m + seq![TokenModel::IgnoreEnd] + b,
            map, ue, skip_w, skip_c, init,
        ) == flat_fold(
            a + seq![TokenModel::IgnoreBegin] + seq![TokenModel::IgnoreEnd] + b,
            map, ue, skip_w, skip_c, init,
        ),
{
    let a1 = a + seq![TokenModel::IgnoreBegin];
    let s1 = flat_fold(a1, map, ue, skip_w, skip_c, init);
    assert(s1.failed || s1.ignoring) by {
        reveal(flat_step);
        assert(a1.drop_last() =~= a);
        assert(a1.last() == TokenModel::IgnoreBegin);
    };
    let tail = seq![TokenModel::IgnoreEnd] + b;
    lemma_flat_fold_append(a1, m, map, ue, skip_w, skip_c, init);
    lemma_flat_fold_ignoring(m, map, ue, skip_w, skip_c, s1);
    lemma_flat_fold_append(a1 + m, tail, map, ue, skip_w, skip_c, init);
    lemma_flat_fold_append(a1, tail, map, ue, skip_w, skip_c, init);
    assert(a + seq![TokenModel::IgnoreBegin] + m + seq![TokenModel::IgnoreEnd] + b
        =~= (a1 + m) + tail);
    assert(a + seq![TokenModel::IgnoreBegin] + seq![TokenModel::IgnoreEnd] + b =~= a1 + tail);
}

/// The dispatch id text a selector denotes: its decimal form, or a marker
/// that no identifier or literal can ever equal when no selector is given.
pub open spec fn dispatch_text(user_event: Option<u8>) -> Seq<char> {
    match user_event {
        Some(n) => spec_dec_digits(n as nat),
        None => "/*/*/*/"@,
    }
}

/// The flattener: holds the dispatch id text, the stripping configuration,
/// and the residue of the current pass.
pub struct Flattener {
    user_event: String,
    skip_whitespace: bool,
    skip_comments: bool,
    deformat_active: bool,
    needs_space: bool,
    stack: String,
    output: String,
}

impl Flattener {
    /// The dispatch id text: the decimal form of the selector, or a marker
    /// that no identifier can ever equal when no selector is configured.
    pub closed spec fn ue(self) -> Seq<char> {
        self.user_event@
    }

    pub closed spec fn skip_ws(self) -> bool {
        self.skip_whitespace
    }

    pub closed spec fn skip_c(self) -> bool {
        self.skip_comments
    }

    pub closed spec fn deformat(self) -> bool {
        self.deformat_active
    }

    pub closed spec fn needs_sp(self) -> bool {
        self.needs_space
    }

    /// The pending identifier chain.
    pub closed spec fn pending(self) -> Seq<char> {
        self.stack@
    }

    /// The output accumulated by the current pass.
    pub closed spec fn out(self) -> Seq<char> {
        self.output@
    }

    pub fn new(user_event: Option<u8>, skip_whitespace: bool, skip_comments: bool) -> (r: Flattener)
        ensures
            r.ue() == dispatch_text(user_event),
            r.skip_ws() == skip_whitespace,
            r.skip_c() == skip_comments,
            !r.deformat(),
            !r.needs_sp(),
            r.pending() == Seq::<char>::empty(),
            r.out() == Seq::<char>::empty(),
    {
        let ue_text = match user_event {
            Some(n) => dec_string(n as u64),
            // cannot be read as an identifier, so nothing ever matches it
            None => "/*/*/*/".to_owned(),
        };
        Flattener {
            user_event: ue_text,
            skip_whitespace,
            skip_comments,
            deformat_active: false,
            needs_space: false,
            stack: String::new(),
            output: String::new(),
        }
    }

    fn flush_stack(&mut self)
        ensures
            final(self).ue() == old(self).ue(),
            final(self).skip_ws() == old(self).skip_ws(),
            final(self).skip_c() == old(self).skip_c(),
            final(self).deformat() == old(self).deformat(),
            ({
                let st = FlatState {
                    output: old(self).out(),
                    stack: old(self).pending(),
                    needs_space: old(self).needs_sp(),
                    deformat: old(self).deformat(),
                    ignoring: false,
                    escape_handled: false,
                    closing_dispatch: false,
                    eating_semicolon: false,
                    is_empty: true,
                    failed: false,
                };
                let f = flat_flush(st, old(self).skip_ws());
                final(self).out() == f.output && final(self).pending() == f.stack
                    && final(self).needs_sp() == f.needs_space
            }),
    {
        if self.stack.as_str().unicode_len() != 0 {
            if self.needs_space && (self.skip_whitespace && !self.deformat_active) {
                self.output.append(" ");
            }
            let pending = self.stack.clone();
            self.output.append(pending.as_str());
            self.stack = String::new();
            self.needs_space = true;
        }
    }

    /// Rewrites a token stream: constant references are replaced by their
    /// mapped text, the reserved dispatch call (and its trailing semicolon)
    /// is elided, ignore regions are dropped, and whitespace/comments are
    /// stripped as configured (suspended inside deformat regions). Fails
    /// exactly on an unmatched end-ignore marker.
    /// The pass state assembled from the flattener's fields and the
    /// per-pass flags.
    pub closed spec fn pass_state(self, fl: PassFlags) -> FlatState {
        FlatState {
            output: self.out(),
            stack: self.pending(),
            needs_space: self.needs_sp(),
            deformat: self.deformat(),
            ignoring: fl.ignoring,
            escape_handled: fl.escape_handled,
            closing_dispatch: fl.closing_user_event,
            eating_semicolon: fl.eating_semicolon,
            is_empty: fl.is_empty,
            failed: false,
        }
    }

    /// Applies one structural token (directives, line breaks, whitespace).
    fn apply_structural(&mut self, t: &Token, fl: &mut PassFlags)
        requires
            !old(fl).ignoring,
            t@ is IgnoreBegin || t@ is DeformatBegin || t@ is DeformatEnd || t@ is NewLine
                || t@ is Semicolon || t@ is Whitespace,
        ensures
            final(self).ue() == old(self).ue(),
            final(self).skip_ws() == old(self).skip_ws(),
            final(self).skip_c() == old(self).skip_c(),
            final(self).pass_state(*final(fl)) == flat_step(
                old(self).pass_state(*old(fl)),
                t@,
                Map::empty(),
                old(self).ue(),
                old(self).skip_ws(),
                old(self).skip_c(),
            ),
    {
        let ghost pre = self.pass_state(*fl);
        let ghost tv = t@;
        let ghost uev = self.ue();
        let ghost wv = self.skip_ws();
        let ghost cv = self.skip_c();
        match t {
            Token::IgnoreBegin => {
                self.flush_stack();
                fl.ignoring = true;
                fl.closing_user_event = false;
                fl.eating_semicolon = false;
            },
            Token::DeformatBegin => {
                self.flush_stack();
                self.deformat_active = true;
                fl.closing_user_event = false;
                fl.eating_semicolon = false;
            },
            Token::DeformatEnd => {
                self.flush_stack();
                self.deformat_active = false;
                fl.closing_user_event = false;
                fl.eating_semicolon = false;
            },
            Token::NewLine => {
                self.flush_stack();
                if !(self.skip_whitespace && !self.deformat_active) {
                    self.output.append("\n");
                    self.needs_space = false;
                } else if !fl.escape_handled {
                    self.output.append("\n");
                    fl.escape_handled = true;
                    self.needs_space = false;
                }
                fl.closing_user_event = false;
                fl.eating_semicolon = false;
            },
            Token::Semicolon => {
                self.flush_stack();
                self.needs_space = false;
                if !fl.eating_semicolon
                    && (!(self.skip_whitespace && !self.deformat_active) || !fl.escape_handled) {
                    self.output.append(";");
                }
                fl.escape_handled = true;
                fl.closing_user_event = false;
                fl.eating_semicolon = false;
            },
            _ => {
                match t {
                    Token::Whitespace(s) => {
                        self.flush_stack();
                        if !(self.skip_whitespace && !self.deformat_active) {
                            self.output.append(s.as_str());
                        } else if self.needs_space {
                            self.output.append(" ");
                            self.needs_space = false;
                        }
                        fl.closing_user_event = false;
                    },
                    _ => {},
                }
            },
        }
        proof {
            assert(flat_step(pre, tv, Map::empty(), uev, wv, cv) == self.pass_state(*fl)) by {
                reveal(flat_step);
            }
        }
    }

    /// Applies one comment token.
    fn apply_comment(&mut self, t: &Token, fl: &mut PassFlags)
        requires
            !old(fl).ignoring,
            t@ is LongComment || t@ is ShortComment,
        ensures
            final(self).ue() == old(self).ue(),
            final(self).skip_ws() == old(self).skip_ws(),
            final(self).skip_c() == old(self).skip_c(),
            final(self).pass_state(*final(fl)) == flat_step(
                old(self).pass_state(*old(fl)),
                t@,
                Map::empty(),
                old(self).ue(),
                old(self).skip_ws(),
                old(self).skip_c(),
            ),
    {
        let ghost pre = self.pass_state(*fl);
        let ghost tv = t@;
        let ghost uev = self.ue();
        let ghost wv = self.skip_ws();
        let ghost cv = self.skip_c();
        match t {
            Token::LongComment(s) => {
                self.flush_stack();
                self.needs_space = self.skip_comments && !self.deformat_active;
                if !(self.skip_comments && !self.deformat_active) {
                    self.output.append(s.as_str());
                    fl.escape_handled = false;
                    fl.is_empty = false;
                }
                fl.closing_user_event = false;
            },
            _ => {
                match t {
                    Token::ShortComment(s) => {
                        self.flush_stack();
                        self.needs_space = self.skip_comments && !self.deformat_active;
                        if !(self.skip_comments && !self.deformat_active) {
                            self.output.append(s.as_str());
                            fl.escape_handled = false;
                            fl.is_empty = false;
                        }
                        fl.closing_user_event = false;
                    },
                    _ => {},
                }
            },
        }
        proof {
            assert(flat_step(pre, tv, Map::empty(), uev, wv, cv) == self.pass_state(*fl)) by {
                reveal(flat_step);
            }
        }
    }

    /// Applies one code token (identifiers, literals, symbols, brackets).
    #[verifier::rlimit(100)]
    fn apply_code(&mut self, t: &Token, map: &ConstantsMap, fl: &mut PassFlags)
        requires
            !old(fl).ignoring,
            t@ is Identifier || t@ is Dot || t@ is Literal || t@ is Symbol || t@ is OpenBracket
                || t@ is CloseBracket || t@ is Equal,
        ensures
            final(self).ue() == old(self).ue(),
            final(self).skip_ws() == old(self).skip_ws(),
            final(self).skip_c() == old(self).skip_c(),
            final(self).pass_state(*final(fl)) == flat_step(
                old(self).pass_state(*old(fl)),
                t@,
                map@,
                old(self).ue(),
                old(self).skip_ws(),
                old(self).skip_c(),
            ),
    {
        let ghost pre = self.pass_state(*fl);
        let ghost tv = t@;
        let ghost mv = map@;
        let ghost uev = self.ue();
        let ghost wv = self.skip_ws();
        let ghost cv = self.skip_c();
        match t {
            Token::Identifier(s) => {
                let looked_up = map.get(s);
                match looked_up {
                    Some(val) => {
                        // a constant reference wins over any pending chain,
                        // which is discarded
                        let val = val.clone();
                        if self.needs_space && (self.skip_whitespace && !self.deformat_active) {
                            self.output.append(" ");
                        }
                        self.output.append(val.as_str());
                        self.stack = String::new();
                        self.needs_space = true;
                    },
                    None => {
                        self.stack.append(s.as_str());
                    },
                }
                fl.escape_handled = false;
                fl.closing_user_event = false;
                fl.eating_semicolon = false;
                fl.is_empty = false;
                proof {
                    assert(flat_step(pre, tv, mv, uev, wv, cv) == self.pass_state(*fl)) by {
                        reveal(flat_step);
                    }
                }
            },
            Token::Dot => {
                if self.stack.as_str().unicode_len() != 0 {
                    self.stack.append(".");
                } else {
                    self.output.append(".");
                    self.needs_space = false;
                }
                fl.escape_handled = false;
                fl.closing_user_event = false;
                fl.eating_semicolon = false;
                fl.is_empty = false;
                proof {
                    assert(flat_step(pre, tv, mv, uev, wv, cv) == self.pass_state(*fl)) by {
                        reveal(flat_step);
                    }
                }
            },
            Token::Literal(s) => {
                if str_eq(self.stack.as_str(), "user_event(") && s.eq(&self.user_event) {
                    self.stack.append(s.as_str());
                    fl.closing_user_event = true;
                } else {
                    self.flush_stack();
                    if self.needs_space && (self.skip_whitespace && !self.deformat_active) {
                        self.output.append(" ");
                    }
                    self.output.append(s.as_str());
                    fl.closing_user_event = false;
                }
                self.needs_space = true;
                fl.escape_handled = false;
                fl.eating_semicolon = false;
                fl.is_empty = false;
                proof {
                    assert(flat_step(pre, tv, mv, uev, wv, cv) == self.pass_state(*fl)) by {
                        reveal(flat_step);
                    }
                }
            },
            Token::Symbol(s) => {
                self.flush_stack();
                self.output.append(s.as_str());
                fl.escape_handled = str_eq(s.as_str(), ",");
                self.needs_space = false;
                fl.closing_user_event = false;
                fl.eating_semicolon = false;
                fl.is_empty = false;
                proof {
                    assert(flat_step(pre, tv, mv, uev, wv, cv) == self.pass_state(*fl)) by {
                        reveal(flat_step);
                    }
                }
            },
            Token::OpenBracket(s) => {
                if str_eq(self.stack.as_str(), "user_event") && str_eq(s.as_str(), "(") {
                    self.stack.append(s.as_str());
                } else {
                    self.flush_stack();
                    self.output.append(s.as_str());
                }
                fl.escape_handled = true;
                self.needs_space = false;
                fl.closing_user_event = false;
                fl.eating_semicolon = false;
                proof {
                    assert(flat_step(pre, tv, mv, uev, wv, cv) == self.pass_state(*fl)) by {
                        reveal(flat_step);
                    }
                }
            },
            Token::CloseBracket(s) => {
                if fl.closing_user_event && str_eq(s.as_str(), ")") {
                    // the whole dispatch call vanishes
                    self.stack = String::new();
                    fl.eating_semicolon = true;
                } else {
                    self.flush_stack();
                    self.output.append(s.as_str());
                    fl.eating_semicolon = false;
                }
                fl.escape_handled = str_eq(s.as_str(), "}");
                self.needs_space = false;
                fl.closing_user_event = false;
                proof {
                    assert(flat_step(pre, tv, mv, uev, wv, cv) == self.pass_state(*fl)) by {
                        reveal(flat_step);
                    }
                }
            },
            _ => {
                self.flush_stack();
                self.output.append("=");
                fl.escape_handled = false;
                self.needs_space = false;
                fl.closing_user_event = false;
                fl.eating_semicolon = false;
                fl.is_empty = false;
                proof {
                    assert(flat_step(pre, tv, mv, uev, wv, cv) == self.pass_state(*fl)) by {
                        reveal(flat_step);
                    }
                }
            },
        }
    }

    /// Applies one token to the pass state. Returns `false` exactly when the
    /// token is an unmatched end-ignore marker, leaving all state unchanged.
    fn apply_token(&mut self, t: &Token, map: &ConstantsMap, fl: &mut PassFlags) -> (ok: bool)
        ensures
            final(self).ue() == old(self).ue(),
            final(self).skip_ws() == old(self).skip_ws(),
            final(self).skip_c() == old(self).skip_c(),
            ({
                let pre = old(self).pass_state(*old(fl));
                let post = flat_step(pre, t@, map@, old(self).ue(), old(self).skip_ws(), old(self).skip_c());
                &&& ok == !post.failed
                &&& (ok ==> final(self).pass_state(*final(fl)) == post)
                &&& (!ok ==> *final(self) == *old(self) && *final(fl) == *old(fl)
                    && post == (FlatState { failed: true, ..pre }))
            }),
    {
        let ghost pre = self.pass_state(*fl);
        let ghost tv = t@;
        let ghost mv = map@;
        let ghost uev = self.ue();
        let ghost wv = self.skip_ws();
        let ghost cv = self.skip_c();

        if fl.ignoring {
            match t {
                Token::IgnoreEnd => { fl.ignoring = false; },
                _ => {},
            }
            proof {
                assert(flat_step(pre, tv, mv, uev, wv, cv) == self.pass_state(*fl)) by {
                    reveal(flat_step);
                }
            }
            return true;
        }
        match t {
            Token::IgnoreEnd => {
                proof {
                    assert(flat_step(pre, tv, mv, uev, wv, cv) == (FlatState { failed: true, ..pre })) by {
                        reveal(flat_step);
                    }
                }
                false
            },
            Token::IgnoreBegin | Token::DeformatBegin | Token::DeformatEnd | Token::NewLine
                | Token::Semicolon | Token::Whitespace(_) => {
                self.apply_structural(t, fl);
                proof {
                    assert(flat_step(pre, tv, mv, uev, wv, cv)
                        == flat_step(pre, tv, Map::empty(), uev, wv, cv)) by {
                        reveal(flat_step);
                    }
                }
                true
            },
            Token::LongComment(_) | Token::ShortComment(_) => {
                self.apply_comment(t, fl);
                proof {
                    assert(flat_step(pre, tv, mv, uev, wv, cv)
                        == flat_step(pre, tv, Map::empty(), uev, wv, cv)) by {
                        reveal(flat_step);
                    }
                }
                true
            },
            _ => {
                self.apply_code(t, map, fl);
                true
            },
        }
    }

    /// Rewrites a token stream: constant references are replaced by their
    /// mapped text, the reserved dispatch call (and its trailing semicolon)
    /// is elided, ignore regions are dropped, and whitespace/comments are
    /// stripped as configured (suspended inside deformat regions). Fails
    /// exactly on an unmatched end-ignore marker. When whitespace stripping
    /// is on, the assembled output goes through the compressor as a final
    /// pass, which does not know about deformat regions: their contents are
    /// preserved token-by-token but minimized by that last pass.
    pub fn flatten_program(&mut self, ts: &Vec<Token>, map: &ConstantsMap) -> (r: Result<
        String,
        String,
    >)
        ensures
            final(self).ue() == old(self).ue(),
            final(self).skip_ws() == old(self).skip_ws(),
            final(self).skip_c() == old(self).skip_c(),
            ({
                let init = flat_init(old(self).pending(), old(self).needs_sp(), old(self).deformat());
                let fst = flat_fold(
                    ts.deep_view(),
                    map@,
                    old(self).ue(),
                    old(self).skip_ws(),
                    old(self).skip_c(),
                    init,
                );
                &&& (r is Ok <==> !fst.failed)
                &&& (r is Ok ==> r->Ok_0@ == flat_result_output(fst, old(self).skip_ws()))
                &&& final(self).deformat() == fst.deformat
                &&& final(self).needs_sp() == fst.needs_space
                &&& final(self).pending() == fst.stack
                &&& (r is Ok ==> final(self).out() == fst.output + fst.stack)
                &&& (r is Err ==> final(self).out() == fst.output)
            }),
    {
        self.output = String::new();
        let ghost tsv = ts.deep_view();
        let ghost mv = map@;
        let ghost ue0 = self.ue();
        let ghost w0 = self.skip_whitespace;
        let ghost c0 = self.skip_comments;
        let ghost init = flat_init(self.pending(), self.needs_sp(), self.deformat());

        let mut fl = PassFlags {
            ignoring: false,
            escape_handled: false,
            closing_user_event: false,
            eating_semicolon: false,
            is_empty: true,
        };

        let n = ts.len();
        let mut i: usize = 0;
        while i < n
            invariant
                i <= n,
                n == tsv.len(),
                tsv == ts.deep_view(),
                mv == map@,
                self.ue() == ue0,
                self.skip_whitespace == w0,
                self.skip_comments == c0,
                flat_fold(tsv.subrange(0, i as int), mv, ue0, w0, c0, init) == self.pass_state(fl),
            decreases n - i,
        {
            let ghost pre = self.pass_state(fl);
            proof {
                assert(tsv.subrange(0, i + 1 as int).drop_last() =~= tsv.subrange(0, i as int));
                assert(tsv.subrange(0, i + 1 as int).last() == tsv[i as int]);
                assert(ts.deep_view()[i as int] == ts@[i as int].deep_view());
            }
            let t = &ts[i];
            let ok = self.apply_token(t, map, &mut fl);
            proof {
                assert(flat_fold(tsv.subrange(0, i + 1 as int), mv, ue0, w0, c0, init)
                    == flat_step(pre, tsv[i as int], mv, ue0, w0, c0));
            }
            if !ok {
                proof {
                    lemma_flat_failed_sticky(tsv, mv, ue0, w0, c0, init, i + 1);
                }
                return Err("Reached unpaired end-ignore declaration".to_owned());
            }
            i = i + 1;
        }
        proof {
            assert(tsv.subrange(0, n as int) =~= tsv);
        }
        let pending = self.stack.clone();
        self.output.append(pending.as_str());

        if fl.is_empty {
            Ok(String::new())
        } else if self.skip_whitespace {
            Ok(compress_whitespace(self.output.as_str()))
        } else {
            Ok(self.output.clone())
        }
    }
}

/// The per-pass flags of a single rewrite pass.
pub struct PassFlags {
    pub ignoring: bool,
    pub escape_handled: bool,
    pub closing_user_event: bool,
    pub eating_semicolon: bool,
    pub is_empty: bool,
}

} // verus!
